//! Wrappers around the random-number source. Every stochastic operation of
//! the library draws through these, so the callers stay verified for every
//! outcome of a draw.
use vstd::prelude::*;

verus! {

/// Relies on rand's `Rng::gen_range` over `0..n`: returns a value of the
/// range, uniformly; panics only on an empty range, which the precondition
/// rules out.
#[verifier::external_body]
pub fn rand_below<R: rand::Rng>(rng: &mut R, n: u64) -> (r: u64)
    requires
        n > 0,
    ensures
        r < n,
{
    rng.gen_range(0..n)
}

/// Relies on rand's `Rng::gen`, with the standard distribution of the
/// result type; nothing is promised of the value drawn.
#[verifier::external_body]
pub fn rand_value<R: rand::Rng, T>(rng: &mut R) -> T where
    rand::distributions::Standard: rand::distributions::Distribution<T>,
 {
    rng.gen()
}

/// Relies on rand's `seq::index::sample`: exactly `amount` distinct indices
/// drawn from `0..length`, in random order; panics only when `amount`
/// exceeds `length`, which the precondition rules out.
#[verifier::external_body]
pub fn rand_distinct_indices<R: rand::Rng>(rng: &mut R, length: usize, amount: usize) -> (r: Vec<
    usize,
>)
    requires
        amount <= length,
    ensures
        r@.len() == amount,
        forall|i: int| 0 <= i < r@.len() ==> r@[i] < length,
        forall|i: int, j: int| 0 <= i < j < r@.len() ==> r@[i] != r@[j],
{
    rand::seq::index::sample(rng, length, amount).into_vec()
}

} // verus!
