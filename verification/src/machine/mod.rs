//! The logic of the bare-metal kernel image: heap bump allocation, ELF
//! loading, system-call dispatch, interrupt vectors and the console report.

pub mod allocator;
pub mod boot_header;
pub mod console;
pub mod elf;
pub mod syscall;
pub mod interrupts;
