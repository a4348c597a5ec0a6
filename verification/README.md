# isocitysim

An isometric city simulator built on Bevy, with its rules kept in a library
that Verus verifies.

- `src/` is the verified library:
  - `procgen::zoning`: wave function collapse over a grid of zone sets, with
    the adjacency rules, arc-consistent propagation and the solver; a solved
    grid only holds allowed neighbours.
  - `procgen::lot_engine`, `procgen::building_factory`: density tiers, review
    windows, archetypes and floor counts of planned buildings.
  - `render::facade_textures`: the procedural facade texels (albedo, normal,
    roughness, metallic, height) as exact integer formulas, and texture-array
    stacking.
  - `render::hzb`, `render::object_data`, `render::light_buffer`: occlusion
    pyramid sizes, GPU culling buffers, draw commands and the light registry.
  - `render::building_faces`, `render::celestial`, `render::building_instances`,
    `render::construction_sites`: face choice, star draws, shader indices.
  - `rng`: the calls into `rand`, with the contracts the rest relies on.
- `app/` is the Bevy program around it: roads from tensor fields (petgraph),
  rivers and lots (noise), the floating-point scoring of lots, weathering of
  textures, frustum tests, scene spawning, camera and lighting.
- `tests/` exercises the library on concrete values.
