//! BaGua OS kernel library: the address encodings, page tables, process
//! bookkeeping, interrupt queueing, ELF parsing and system-call dispatch of
//! the kernel, each with its contract and the proof of it.

pub mod kernel;
pub mod hal;
pub mod machine;
pub mod agent;
