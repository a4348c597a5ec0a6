//! Verified core of an isometric city simulator: wave function collapse
//! zoning, lot and building planning rules, procedural facade textures,
//! occlusion pyramid bookkeeping, GPU culling buffers and city light
//! bookkeeping.

pub mod procgen;
pub mod render;
pub mod rng;
