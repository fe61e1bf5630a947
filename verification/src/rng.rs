//! The randomness collaborator: trusted wrappers around `rand`.

use vstd::prelude::*;

use rand::Rng;
use rand::RngCore;

verus! {

/// Relies on rand::rngs::ThreadRng with RngCore::fill_bytes: a buffer of
/// `n` random bytes; nothing is promised of their values.
#[verifier::external_body]
pub fn random_bytes(n: usize) -> (r: Vec<u8>)
    ensures
        r@.len() == n,
{
    let mut v = vec![0u8; n];
    rand::thread_rng().fill_bytes(&mut v);
    v
}

/// Relies on rand::Rng::gen: a random boolean.
#[verifier::external_body]
pub fn random_bool() -> (r: bool)
{
    rand::thread_rng().gen()
}

/// Relies on rand::Rng::gen_range: a random number below the bound.
#[verifier::external_body]
pub fn random_below(n: usize) -> (r: usize)
    requires
        n > 0,
    ensures
        r < n,
{
    rand::thread_rng().gen_range(0..n)
}

} // verus!
