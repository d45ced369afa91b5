//! Interrupt vectors of the hardware interrupt lines after the PIC remap.

use vstd::prelude::*;

verus! {

/// Interrupt vectors: IRQ 0 and 1 remapped to 32 and 33.
#[derive(Debug, Clone, Copy, PartialEq, Eq, Structural)]
pub enum InterruptIndex {
    Timer,
    Keyboard,
}

impl InterruptIndex {
    /// The vector: 32 for the timer, 33 for the keyboard.
    pub open spec fn vector(self) -> u8 {
        match self {
            InterruptIndex::Timer => 32,
            InterruptIndex::Keyboard => 33,
        }
    }

    /// The vector as a byte.
    pub fn as_u8(self) -> (r: u8)
        ensures
            r == self.vector(),
    {
        match self {
            InterruptIndex::Timer => 32,
            InterruptIndex::Keyboard => 33,
        }
    }

    /// The vector as an index.
    pub fn as_usize(self) -> (r: usize)
        ensures
            r == self.vector(),
    {
        self.as_u8() as usize
    }
}

} // verus!
