use vstd::prelude::*;
use rand::RngCore;
use rand::SeedableRng;
use rand_chacha::ChaCha8Rng;

verus! {

/// rand_chacha's ChaCha8Rng, the deterministic generator the machine
/// carries. Declared so a value of it can sit in a field; Verus sees
/// nothing inside it.
#[verifier::external_type_specification]
#[verifier::external_body]
pub struct ExChaCha8Rng(ChaCha8Rng);

/// Relies on rand's SeedableRng::from_seed for ChaCha8Rng: builds the
/// generator from the all-zero seed, as the machine is seeded at power-on.
#[verifier::external_body]
pub(crate) fn rng_from_zero_seed() -> ChaCha8Rng {
    ChaCha8Rng::from_seed([0u8; 32])
}

/// Relies on rand's RngCore::next_u32 for ChaCha8Rng: advances the
/// generator and hands out its next word. Nothing is promised of the
/// value; callers state what holds of every outcome.
#[verifier::external_body]
pub(crate) fn rng_next_u32(rng: &mut ChaCha8Rng) -> u32 {
    rng.next_u32()
}

} // verus!
