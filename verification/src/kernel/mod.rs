//! Kernel subsystems: eight trigram slots interconnected through polarity
//! vectors and an impedance matrix.

use vstd::prelude::*;

pub mod bounded;
pub mod memory;
pub mod pagetable;
pub mod task_gate;
pub mod self_comp;
pub mod process;
pub mod elimination;
pub mod fork_exec;
pub mod interrupt;
pub mod vfs;

verus! {

/// Number of trigram slots (independent compute slots).
pub const NUM_SLOTS: usize = 8;

/// The eight trigram slots.
#[derive(Debug, Clone, Copy, PartialEq, Eq, Structural)]
pub enum TrigramSlot {
    /// General purpose CPU.
    Slot0,
    /// Carbon-based scheduling layer.
    Slot1,
    /// NPU inference acceleration.
    Slot2,
    /// Quantum compute unit.
    Slot3,
    /// Storage / memory.
    Slot4,
    /// Network / interconnect.
    Slot5,
    /// GPU parallel compute.
    Slot6,
    /// Sensors / IO.
    Slot7,
}

impl TrigramSlot {
    /// All slots, in slot-number order.
    pub const ALL: [TrigramSlot; 8] = [
        TrigramSlot::Slot0,
        TrigramSlot::Slot1,
        TrigramSlot::Slot2,
        TrigramSlot::Slot3,
        TrigramSlot::Slot4,
        TrigramSlot::Slot5,
        TrigramSlot::Slot6,
        TrigramSlot::Slot7,
    ];

    /// The slot number of each slot, `0` to `7` in declaration order.
    pub open spec fn spec_index(self) -> nat {
        match self {
            TrigramSlot::Slot0 => 0,
            TrigramSlot::Slot1 => 1,
            TrigramSlot::Slot2 => 2,
            TrigramSlot::Slot3 => 3,
            TrigramSlot::Slot4 => 4,
            TrigramSlot::Slot5 => 5,
            TrigramSlot::Slot6 => 6,
            TrigramSlot::Slot7 => 7,
        }
    }

    /// The slot number (its discriminant).
    pub fn index(self) -> (r: usize)
        ensures
            r == self.spec_index(),
            r < NUM_SLOTS,
    {
        match self {
            TrigramSlot::Slot0 => 0,
            TrigramSlot::Slot1 => 1,
            TrigramSlot::Slot2 => 2,
            TrigramSlot::Slot3 => 3,
            TrigramSlot::Slot4 => 4,
            TrigramSlot::Slot5 => 5,
            TrigramSlot::Slot6 => 6,
            TrigramSlot::Slot7 => 7,
        }
    }
}

/// `TrigramSlot::ALL` lists the slots in slot-number order.
pub proof fn law_all_in_slot_order(i: int)
    requires
        0 <= i < NUM_SLOTS,
    ensures
        TrigramSlot::ALL[i].spec_index() == i,
{
}

} // verus!
