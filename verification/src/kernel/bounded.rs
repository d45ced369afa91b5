//! The fixed-capacity vector of the `heapless` crate, which the interrupt
//! queue and the open-file table are kept in.

use vstd::prelude::*;

verus! {

/// `heapless::Vec<T, N>`: a vector of at most `N` items stored inline. Its
/// contents are not visible here; each use names them with a spec function
/// of its own and reaches them through wrappers.
#[verifier::external_type_specification]
#[verifier::external_body]
#[verifier::reject_recursive_types(T)]
pub struct ExHeaplessVec<T, const N: usize>(heapless::Vec<T, N>);

} // verus!
