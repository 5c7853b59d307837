//! Random-number draws for the agent and the training driver.
//!
//! The library owns its random source explicitly: an agent (and, separately,
//! the driver) holds a `rand::rngs::StdRng`, seedable for deterministic runs.
//! Each draw goes through one trusted wrapper whose contract states only what
//! `rand`'s documentation promises of every outcome: the range the sample
//! falls in. Nothing is assumed about which value comes back.

use vstd::prelude::*;

verus! {

/// rand's standard generator, `rand::rngs::StdRng`, declared so that an
/// agent or a driver can own one. Its state is opaque to the verifier.
#[verifier::external_type_specification]
#[verifier::external_body]
pub struct ExStdRng(rand::rngs::StdRng);

/// Relies on rand's `SeedableRng::seed_from_u64`: builds a generator from a
/// 64-bit seed. Nothing is stated of the opaque generator state.
#[verifier::external_body]
pub fn rng_from_seed(seed: u64) -> rand::rngs::StdRng {
    <rand::rngs::StdRng as rand::SeedableRng>::seed_from_u64(seed)
}

/// Relies on rand's `SeedableRng::from_entropy`: builds a fresh generator
/// from system entropy. Nothing is stated of the opaque generator state;
/// the call aborts only if the operating system supplies no entropy.
#[verifier::external_body]
pub fn rng_from_entropy() -> rand::rngs::StdRng {
    <rand::rngs::StdRng as rand::SeedableRng>::from_entropy()
}

/// Relies on rand's `Rng::gen_range(lo..hi)`: returns a sample in
/// `[lo, hi)` and panics only on an empty range, which the precondition
/// rules out.
#[verifier::external_body]
pub fn draw_i64(rng: &mut rand::rngs::StdRng, lo: i64, hi: i64) -> (r: i64)
    requires
        lo < hi,
    ensures
        lo <= r < hi,
{
    rand::Rng::gen_range(rng, lo..hi)
}

/// Relies on rand's `Rng::gen_range(0..n)`: returns a sample in `[0, n)`
/// and panics only on an empty range, which the precondition rules out.
#[verifier::external_body]
pub fn draw_index(rng: &mut rand::rngs::StdRng, n: usize) -> (r: usize)
    requires
        n >= 1,
    ensures
        r < n,
{
    rand::Rng::gen_range(rng, 0..n)
}

} // verus!
