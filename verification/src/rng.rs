use vstd::prelude::*;

verus! {

/// The pseudo-random generator that seeds the background pattern and the
/// spawned prisms. Opaque to the verifier: the crate states nothing about
/// the values it yields.
#[verifier::external_type_specification]
#[verifier::external_body]
pub struct ExXoshiro(rand_xoshiro::Xoshiro128StarStar);

/// Relies on rand_xoshiro::Xoshiro128StarStar's `RngCore::next_u32`:
/// yields the generator's next 32-bit value and advances its state.
/// Nothing is assumed about the value; every caller handles all of them.
#[verifier::external_body]
pub(crate) fn next_u32(rng: &mut rand_xoshiro::Xoshiro128StarStar) -> u32 {
    rand_core::RngCore::next_u32(rng)
}

} // verus!
