//! Random choices drawn from a seeded standard generator.

use rand::Rng;
use rand::rngs::StdRng;
use vstd::prelude::*;

verus! {

/// The seeded standard generator of the `rand` crate, carried through as an
/// opaque value.
#[verifier::external_type_specification]
#[verifier::external_body]
pub struct ExStdRng(StdRng);

/// Calls `Rng::gen_range(0..bound)` on a `StdRng`. The `rand` source shows
/// that the call panics on an empty range and otherwise returns a value of
/// the range; which value comes out depends on the generator's state, so
/// only the range is stated.
#[verifier::external_body]
pub(crate) fn random_below(rng: &mut StdRng, bound: usize) -> (r: usize)
    requires
        bound > 0,
    ensures
        r < bound,
{
    rng.gen_range(0..bound)
}

/// Calls `Rng::gen_range(low..=high)` on a `StdRng` with `u32` bounds. The
/// call panics when `low > high` and otherwise returns a value between the
/// bounds, both included; which one depends on the generator's state.
#[verifier::external_body]
pub(crate) fn random_u32_inclusive(rng: &mut StdRng, low: u32, high: u32) -> (r: u32)
    requires
        low <= high,
    ensures
        low <= r <= high,
{
    rng.gen_range(low..=high)
}

/// Calls `Rng::gen_range(low..=high)` on a `StdRng` with `usize` bounds. The
/// call panics when `low > high` and otherwise returns a value between the
/// bounds, both included; which one depends on the generator's state.
#[verifier::external_body]
pub(crate) fn random_usize_inclusive(rng: &mut StdRng, low: usize, high: usize) -> (r: usize)
    requires
        low <= high,
    ensures
        low <= r <= high,
{
    rng.gen_range(low..=high)
}

/// Calls `Rng::gen::<bool>()` on a `StdRng`. Either value may come out.
#[verifier::external_body]
pub(crate) fn random_bool(rng: &mut StdRng) -> bool {
    rng.gen::<bool>()
}

} // verus!
