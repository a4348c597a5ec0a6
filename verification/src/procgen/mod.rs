//! Procedural generation rules that work on plain values.

pub mod building_factory;
pub mod lot_engine;
pub mod zoning;
