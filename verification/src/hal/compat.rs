//! Compatibility layer for kernel modules: physical-address conversions and
//! interrupt registration mapped onto the kernel.

use vstd::prelude::*;
use crate::kernel::memory::{JiuzhouAddress, spec_to_physical};

verus! {

/// Physical address to Jiuzhou address.
pub fn phys_to_jiuzhou(phys: u64) -> (r: JiuzhouAddress)
    ensures
        r.slot_id == phys >> 61u64,
        r.object_id == (phys >> 21u64) & 0xFF_FFFF_FFFFu64,
        r.offset == phys & 0x1F_FFFFu64,
{
    JiuzhouAddress::from_physical(phys)
}

/// Jiuzhou address to physical address.
pub fn jiuzhou_to_phys(addr: &JiuzhouAddress) -> (r: u64)
    ensures
        r == spec_to_physical(addr.slot_id, addr.object_id, addr.offset),
{
    addr.to_physical()
}

/// Registers an interrupt handler. Nothing is connected yet: always `Ok`.
pub fn request_irq<F: Fn()>(irq: u8, handler: F) -> (r: Result<(), CompatError>)
    ensures
        r is Ok,
{
    let _ = irq;
    let _ = handler;
    Ok(())
}

/// Compatibility-layer errors.
#[derive(Debug)]
pub enum CompatError {
    NotImplemented,
    ModuleLoadFailed,
    SymbolNotFound,
    OutOfMemory,
}

} // verus!
