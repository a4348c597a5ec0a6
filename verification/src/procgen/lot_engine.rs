//! Lot planning: density tiers, zoning of lots and the growth review cadence.

use crate::rng::random_u32_inclusive;
use rand::rngs::StdRng;
use vstd::prelude::*;

verus! {

/// Classification for density-aware planning.
#[derive(Clone, Copy, Debug, PartialEq, Eq, Structural)]
pub enum DensityTier {
    Low,
    Medium,
    High,
}

/// Proposed zoning for a lot.
#[derive(Clone, Copy, Debug, PartialEq, Eq, Hash, Structural)]
pub enum ZoneType {
    Residential,
    Commercial,
    Industrial,
    Civic,
    Green,
}

/// Days before a lot of the given density reevaluates growth: the bounds
/// of the window, both included. Denser lots are reviewed sooner.
pub open spec fn review_window(density: DensityTier) -> (u32, u32) {
    match density {
        DensityTier::High => (15, 45),
        DensityTier::Medium => (30, 90),
        DensityTier::Low => (60, 150),
    }
}

/// The review window of a density tier.
pub fn review_window_days(density: DensityTier) -> (r: (u32, u32))
    ensures
        r == review_window(density),
        r.0 <= r.1,
{
    match density {
        DensityTier::High => (15, 45),
        DensityTier::Medium => (30, 90),
        DensityTier::Low => (60, 150),
    }
}

/// Number of in-sim days before the lot reevaluates growth, drawn at random
/// from the window of its density tier.
pub fn schedule_next_review(density: DensityTier, rng: &mut StdRng) -> (r: u32)
    ensures
        review_window(density).0 <= r <= review_window(density).1,
{
    let (min_days, max_days) = review_window_days(density);
    random_u32_inclusive(rng, min_days, max_days)
}

/// Review windows of denser tiers start and end no later than those of
/// sparser tiers.
pub proof fn lemma_denser_lots_reviewed_sooner()
    ensures
        review_window(DensityTier::High).0 <= review_window(DensityTier::Medium).0,
        review_window(DensityTier::Medium).0 <= review_window(DensityTier::Low).0,
        review_window(DensityTier::High).1 <= review_window(DensityTier::Medium).1,
        review_window(DensityTier::Medium).1 <= review_window(DensityTier::Low).1,
{
}

} // verus!
