//! Kernel operating modes, chosen from the global logic pressure.

use vstd::prelude::*;

verus! {

/// Kernel operating mode.
#[derive(Debug, PartialEq, Eq, Structural)]
pub enum KernelMode {
    /// Long quanta, low elimination threshold, more inefficient processes tolerated.
    Relaxed,
    /// Standard.
    Standard,
    /// Short quanta, high elimination threshold, fast reclamation.
    HighPressure,
}

} // verus!
