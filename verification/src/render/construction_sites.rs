//! Building archetypes for construction sites.

use crate::procgen::building_factory::BuildingArchetype;
use crate::procgen::lot_engine::ZoneType;
use vstd::prelude::*;

verus! {

/// Archetype of the building that a construction site raises: housing,
/// commerce and industry keep their own archetype, every other zone builds
/// commercial.
pub fn zone_to_archetype(zone_type: ZoneType) -> (r: BuildingArchetype)
    ensures
        r == (match zone_type {
            ZoneType::Residential => BuildingArchetype::Residential,
            ZoneType::Industrial => BuildingArchetype::Industrial,
            _ => BuildingArchetype::Commercial,
        }),
{
    match zone_type {
        ZoneType::Residential => BuildingArchetype::Residential,
        ZoneType::Commercial => BuildingArchetype::Commercial,
        ZoneType::Industrial => BuildingArchetype::Industrial,
        _ => BuildingArchetype::Commercial,
    }
}

} // verus!
