//! Building blueprint rules: archetypes, facade styles, shapes and floor
//! counts derived from zoning and density.

use crate::procgen::lot_engine::{DensityTier, ZoneType};
use crate::rng::random_u32_inclusive;
use rand::rngs::StdRng;
use vstd::prelude::*;

verus! {

/// High-level building classification used during planning.
#[derive(Clone, Copy, Debug, PartialEq, Eq, Structural)]
pub enum BuildingArchetype {
    Residential,
    Commercial,
    Industrial,
}

/// Simple facade/material hints that the renderer can map onto palettes.
#[derive(Clone, Copy, Debug, PartialEq, Eq, Structural)]
pub enum FacadeStyle {
    Brick,
    Concrete,
    Glass,
    Metal,
    Painted,
}

/// Shape to use when spawning the building mesh.
#[derive(Clone, Copy, Debug, PartialEq, Eq, Structural)]
pub enum BuildingShape {
    Box,
    LShape,
    TowerOnBase,
    Stepped,
}

/// Archetype planned for a zone: civic lots get commercial buildings, green
/// lots (which become parks before this is asked) default to residential.
pub open spec fn zone_archetype(zone: ZoneType) -> BuildingArchetype {
    match zone {
        ZoneType::Residential => BuildingArchetype::Residential,
        ZoneType::Commercial => BuildingArchetype::Commercial,
        ZoneType::Civic => BuildingArchetype::Commercial,
        ZoneType::Industrial => BuildingArchetype::Industrial,
        ZoneType::Green => BuildingArchetype::Residential,
    }
}

pub fn map_zone_to_archetype(zone: ZoneType) -> (r: BuildingArchetype)
    ensures
        r == zone_archetype(zone),
{
    match zone {
        ZoneType::Residential => BuildingArchetype::Residential,
        ZoneType::Commercial | ZoneType::Civic => BuildingArchetype::Commercial,
        ZoneType::Industrial => BuildingArchetype::Industrial,
        ZoneType::Green => BuildingArchetype::Residential,
    }
}

/// Least floor count and base greatest floor count for an archetype at a
/// density; only high density distinguishes archetypes.
pub open spec fn floor_bounds(archetype: BuildingArchetype, density: DensityTier) -> (u32, u32) {
    match density {
        DensityTier::Low => (1, 4),
        DensityTier::Medium => (3, 9),
        DensityTier::High => match archetype {
            BuildingArchetype::Commercial => (8, 22),
            BuildingArchetype::Industrial => (4, 12),
            BuildingArchetype::Residential => (6, 14),
        },
    }
}

/// Below high density the floor bounds do not depend on the archetype: low
/// density allows 1 to 4 floors and medium density 3 to 9 for every
/// archetype; only high density tells archetypes apart.
pub proof fn lemma_floor_bounds_shared_below_high(a: BuildingArchetype, b: BuildingArchetype)
    ensures
        floor_bounds(a, DensityTier::Low) == (1u32, 4u32),
        floor_bounds(a, DensityTier::Medium) == (3u32, 9u32),
        floor_bounds(a, DensityTier::Low) == floor_bounds(b, DensityTier::Low),
        floor_bounds(a, DensityTier::Medium) == floor_bounds(b, DensityTier::Medium),
{
}

/// Denser tiers never plan fewer floors: for every archetype both bounds
/// grow from low to medium to high density, and high-density commercial
/// towers reach higher than any other plan.
pub proof fn lemma_floor_bounds_grow_with_density(a: BuildingArchetype, b: BuildingArchetype, d: DensityTier)
    ensures
        floor_bounds(a, DensityTier::Low).0 < floor_bounds(a, DensityTier::Medium).0,
        floor_bounds(a, DensityTier::Low).1 < floor_bounds(a, DensityTier::Medium).1,
        floor_bounds(a, DensityTier::Medium).0 < floor_bounds(a, DensityTier::High).0,
        floor_bounds(a, DensityTier::Medium).1 < floor_bounds(a, DensityTier::High).1,
        floor_bounds(b, d).1 <= floor_bounds(BuildingArchetype::Commercial, DensityTier::High).1,
{
}

/// The floor bounds of an archetype at a density.
pub fn floor_range(archetype: BuildingArchetype, density: DensityTier) -> (r: (u32, u32))
    ensures
        r == floor_bounds(archetype, density),
        1 <= r.0 < r.1,
{
    match density {
        DensityTier::Low => (1, 4),
        DensityTier::Medium => (3, 9),
        DensityTier::High => match archetype {
            BuildingArchetype::Commercial => (8, 22),
            BuildingArchetype::Industrial => (4, 12),
            BuildingArchetype::Residential => (6, 14),
        },
    }
}

/// Floor count from a roll between `min` and the greater of `min` and
/// `max`: small lots top out one floor sooner, never below `min`.
pub open spec fn settled_floors(min: u32, small_lot: bool, roll: u32) -> u32 {
    let floors = if small_lot && roll > 0 { (roll - 1) as u32 } else { roll };
    if floors < min { min } else { floors }
}

/// Settle the floor count from a roll drawn between `min` and the greater
/// of `min` and `max`.
pub fn floors_from_roll(min: u32, max: u32, small_lot: bool, roll: u32) -> (r: u32)
    requires
        min <= roll,
        roll <= max || roll == min,
    ensures
        r == settled_floors(min, small_lot, roll),
        min <= r,
        r <= roll,
{
    let mut floors = roll;
    if small_lot {
        floors = floors.saturating_sub(1);
    }
    if floors < min {
        min
    } else {
        floors
    }
}

/// Floor count for a building whose height scale allows at most `max`
/// floors: a random roll between `min` and the greater of `min` and `max`,
/// then one floor less on small lots, never below `min`.
pub fn roll_floors(min: u32, max: u32, small_lot: bool, rng: &mut StdRng) -> (r: u32)
    ensures
        exists|roll: u32|
            min <= roll <= (if max > min { max } else { min }) && r == settled_floors(min, small_lot, roll),
        min <= r,
        r <= (if max > min { max } else { min }),
        small_lot && max > min ==> r < max,
{
    let upper = if max > min { max } else { min };
    let roll = random_u32_inclusive(rng, min, upper);
    floors_from_roll(min, max, small_lot, roll)
}

} // verus!
