use vstd::prelude::*;

verus! {

/// Relies on `rand::random`: a uniformly distributed `u32`, drawn from a
/// thread-local generator that is safe to call from any thread. Nothing is
/// promised of the value itself; callers must hold for every outcome.
#[verifier::external_body]
pub(crate) fn random_u32() -> u32 {
    rand::random::<u32>()
}

} // verus!
