//! The source of randomness the frog's brain draws from.
use rand::RngExt;
use rand::rngs::StdRng;
use vstd::prelude::*;

verus! {

#[verifier::external_type_specification]
#[verifier::external_body]
pub struct ExStdRng(StdRng);

/// Draws a number uniformly from `0..n` with `rand::RngExt::random_range`.
/// Trusted: the result lies in `0..n` (the range is never empty here, so the
/// call does not panic); which number comes back is left to chance.
#[verifier::external_body]
pub(crate) fn random_below(rng: &mut StdRng, n: usize) -> (r: usize)
    requires
        n > 0,
    ensures
        r < n,
{
    rng.random_range(0..n)
}

/// A number drawn from `lo..hi`.
pub fn random_in(rng: &mut StdRng, lo: u32, hi: u32) -> (r: u32)
    requires
        lo < hi,
    ensures
        lo <= r < hi,
{
    let span: usize = (hi - lo) as usize;
    let k: usize = random_below(rng, span);
    lo + (k as u32)
}

/// A percentile roll: a number drawn from `0..100`.
pub fn roll_percent(rng: &mut StdRng) -> (r: u32)
    ensures
        r < 100,
{
    random_in(rng, 0, 100)
}

} // verus!
