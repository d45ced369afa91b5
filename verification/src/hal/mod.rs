//! Hardware abstraction: the eight trigram slots map onto device classes;
//! a compatibility layer maps kernel-module symbols onto the kernel.

pub mod device;
pub mod compat;

pub use device::DeviceClass;
