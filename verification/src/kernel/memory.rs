//! Jiuzhou addresses (a three-level logical address layer) and process
//! isolation modes.

use vstd::prelude::*;

verus! {

/// A Jiuzhou logical address, three levels: the slot id (3 bits, 0-7), the
/// object id (40 bits) and the offset within the object (21 bits, up to 2 MiB).
/// As a 64-bit physical address the slot takes bits 61..64, the object bits
/// 21..61 and the offset bits 0..21.
#[derive(Debug, Clone, Copy)]
pub struct JiuzhouAddress {
    /// Trigram slot id (0-7).
    pub slot_id: u8,
    /// Object number.
    pub object_id: u64,
    /// Offset within the object.
    pub offset: u64,
}

/// The physical address that `to_physical` produces: slot from bit 61,
/// object id from bit 21, offset in the low bits, all or-ed together and cut
/// to 64 bits.
pub open spec fn spec_to_physical(slot_id: u8, object_id: u64, offset: u64) -> u64 {
    ((slot_id as u64) << 61u64) | (object_id << 21u64) | offset
}

impl JiuzhouAddress {
    /// Splits a physical address: bits 61..64 give the slot, bits 21..61 the
    /// object id, bits 0..21 the offset.
    pub fn from_physical(phys: u64) -> (r: Self)
        ensures
            r.slot_id == phys >> 61u64,
            r.object_id == (phys >> 21u64) & 0xFF_FFFF_FFFFu64,
            r.offset == phys & 0x1F_FFFFu64,
    {
        let s = (phys >> 61u64) & 0x7u64;
        assert(s < 8 && s == phys >> 61u64) by (bit_vector)
            requires s == (phys >> 61u64) & 0x7u64;
        JiuzhouAddress {
            slot_id: s as u8,
            object_id: (phys >> 21u64) & 0xFF_FFFF_FFFFu64,
            offset: phys & 0x1F_FFFFu64,
        }
    }

    /// Joins the three fields back into one physical address.
    pub fn to_physical(&self) -> (r: u64)
        ensures
            r == spec_to_physical(self.slot_id, self.object_id, self.offset),
    {
        ((self.slot_id as u64) << 61u64) | (self.object_id << 21u64) | self.offset
    }

    /// Builds an address from a user virtual address: the object id is the
    /// 2 MiB frame number and the offset the position within it.
    pub fn from_virtual(vaddr: u64, slot: u8) -> (r: Self)
        ensures
            r.slot_id == slot,
            r.object_id == vaddr >> 21u64,
            r.offset == vaddr & 0x1F_FFFFu64,
    {
        JiuzhouAddress { slot_id: slot, object_id: vaddr >> 21u64, offset: vaddr & 0x1F_FFFFu64 }
    }
}

/// Splitting a physical address and joining it again gives the address back.
pub proof fn law_physical_round_trip(phys: u64)
    ensures
        spec_to_physical((phys >> 61u64) as u8, (phys >> 21u64) & 0xFF_FFFF_FFFFu64, phys & 0x1F_FFFFu64) == phys,
{
    let s = phys >> 61u64;
    assert(s < 8) by (bit_vector)
        requires s == phys >> 61u64;
    assert(((s as u8) as u64) == s);
    assert(((s << 61u64) | (((phys >> 21u64) & 0xFF_FFFF_FFFFu64) << 21u64) | (phys & 0x1F_FFFFu64)) == phys)
        by (bit_vector)
        requires s == phys >> 61u64;
}

/// Joining the fields of an address whose fields are in range (slot below 8,
/// object id below 2^40, offset below 2^21) and splitting the result again
/// gives the same fields back.
pub proof fn law_fields_round_trip(slot_id: u8, object_id: u64, offset: u64)
    requires
        slot_id < 8,
        object_id < 0x100_0000_0000u64,
        offset < 0x20_0000u64,
    ensures
        ({
            let p = spec_to_physical(slot_id, object_id, offset);
            &&& p >> 61u64 == slot_id
            &&& (p >> 21u64) & 0xFF_FFFF_FFFFu64 == object_id
            &&& p & 0x1F_FFFFu64 == offset
        }),
{
    let s = slot_id as u64;
    assert(s < 8);
    let p = spec_to_physical(slot_id, object_id, offset);
    assert(p == (s << 61u64) | (object_id << 21u64) | offset);
    assert(p >> 61u64 == s && (p >> 21u64) & 0xFF_FFFF_FFFFu64 == object_id && p & 0x1F_FFFFu64 == offset)
        by (bit_vector)
        requires
            s < 8,
            object_id < 0x100_0000_0000u64,
            offset < 0x20_0000u64,
            p == (s << 61u64) | (object_id << 21u64) | offset;
}

/// A user virtual address taken into the logical layer and joined again
/// gives back the virtual address with the slot or-ed into bits 61..64.
pub proof fn law_virtual_round_trip(vaddr: u64, slot: u8)
    requires
        slot < 8,
    ensures
        spec_to_physical(slot, vaddr >> 21u64, vaddr & 0x1F_FFFFu64)
            == ((slot as u64) << 61u64) | vaddr,
{
    let s = slot as u64;
    assert(((s << 61u64) | ((vaddr >> 21u64) << 21u64) | (vaddr & 0x1F_FFFFu64))
        == (s << 61u64) | vaddr) by (bit_vector)
        requires s < 8;
}

/// Process isolation mode.
#[derive(Debug, Clone, Copy, PartialEq, Eq, Structural)]
pub enum IsolationMode {
    /// Default: standard copy-on-write fork.
    Cow,
    /// Aggressive: fork inherits no memory; IPC is pure message passing.
    ForkClean,
}

/// Process isolator.
pub struct ProcessIsolator;

impl ProcessIsolator {
    /// Copy-on-write fork. No pid is allocated yet: the result is always 0.
    pub fn fork_cow(parent_pid: u64) -> (r: u64)
        ensures
            r == 0,
    {
        let _ = parent_pid;
        0
    }

    /// Clean fork sharing no memory; the child would take its context from
    /// `init_msg`. No pid is allocated yet: the result is always 0.
    pub fn fork_clean(parent_pid: u64, init_msg: &[u8]) -> (r: u64)
        ensures
            r == 0,
    {
        let _ = parent_pid;
        let _ = init_msg;
        0
    }

    /// Process exit; releases nothing yet.
    pub fn exit_reset(pid: u64) {
        let _ = pid;
    }
}

} // verus!
