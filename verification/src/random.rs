//! Random numbers.

use vstd::prelude::*;
use rand::Rng;

verus! {

/// The random number generator of a thread, of the crate `rand`.
#[verifier::external_type_specification]
#[verifier::external_body]
pub struct ExThreadRng(rand::rngs::ThreadRng);

/// The generator of the thread that asks.
///
/// Calls `rand::thread_rng`, of which nothing is claimed.
#[verifier::external_body]
pub(crate) fn thread_rng() -> rand::rngs::ThreadRng {
    rand::thread_rng()
}

/// A random byte.
///
/// Calls `Rng::gen::<u8>` of `rand`. It may return any byte, and nothing is claimed of which.
#[verifier::external_body]
pub(crate) fn random_byte(rng: &mut rand::rngs::ThreadRng) -> u8 {
    rng.gen::<u8>()
}

/// A random number below `n`.
///
/// Calls `Rng::gen_range` of `rand` on the range from 0 up to `n`, which panics where that range
/// is empty, so `n` is not 0. The contract claims that the number lies in the range, and nothing of
/// which of them it is.
#[verifier::external_body]
pub(crate) fn random_below(rng: &mut rand::rngs::ThreadRng, n: usize) -> (r: usize)
    requires
        n > 0,
    ensures
        r < n,
{
    rng.gen_range(0..n)
}

} // verus!
