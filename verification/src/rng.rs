//! The bounded-index generator: turns the caller's uniform random source
//! into an unbiased index below an exclusive bound.

use vstd::prelude::*;

verus! {

#[verifier::external_type_specification]
#[verifier::external_body]
pub struct ExRng(fastrand::Rng);

/// Relies on fastrand::Rng::u32: a value drawn from the given range, which
/// must not be empty.
#[verifier::external_body]
pub(crate) fn rng_u32(rng: &fastrand::Rng, bound: u32) -> (r: u32)
    requires
        1 <= bound,
    ensures
        r < bound,
{
    rng.u32(0..bound)
}

/// Relies on fastrand::Rng::usize: a value drawn from the given range, which
/// must not be empty.
#[verifier::external_body]
pub(crate) fn rng_usize(rng: &fastrand::Rng, bound: usize) -> (r: usize)
    requires
        1 <= bound,
    ensures
        r < bound,
{
    rng.usize(0..bound)
}

/// Draws an index uniformly below `bound`, taking the 32-bit draw whenever
/// the bound fits in one.
pub fn rand_index(rng: &fastrand::Rng, bound: usize) -> (r: usize)
    requires
        1 <= bound,
    ensures
        r < bound,
{
    if bound < u32::MAX as usize {
        rng_u32(rng, bound as u32) as usize
    } else {
        rng_usize(rng, bound)
    }
}

} // verus!
