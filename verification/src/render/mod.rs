//! Rendering bookkeeping that works on plain values.

pub mod building_faces;
pub mod building_instances;
pub mod celestial;
pub mod construction_sites;
pub mod facade_textures;
pub mod hzb;
pub mod light_buffer;
pub mod object_data;
