//! Random choices.

use rand::{Rng, RngCore};
use vstd::prelude::*;

verus! {

/// `Rng::gen_range` of the `rand` crate on the thread's generator: some number of the
/// half-open range. Which one is left to chance.
#[verifier::external_body]
pub(crate) fn random_below(low: usize, high: usize) -> (n: usize)
    requires
        low < high,
    ensures
        low <= n < high,
{
    rand::thread_rng().gen_range(low..high)
}

/// `RngCore::fill_bytes` of the `rand` crate on the thread's generator: fills a buffer of
/// the given length. What the bytes are is left to chance.
#[verifier::external_body]
pub(crate) fn random_bytes(n: usize) -> (bytes: Vec<u8>)
    ensures
        bytes@.len() == n,
{
    let mut bytes = vec![0u8; n];
    rand::thread_rng().fill_bytes(&mut bytes);
    bytes
}

} // verus!
