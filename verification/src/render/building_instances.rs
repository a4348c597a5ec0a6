//! Shader indices carried by building instances.

use crate::procgen::building_factory::{BuildingArchetype, BuildingShape, FacadeStyle};
use vstd::prelude::*;

verus! {

/// Shader index of a facade style: brick, concrete, glass, metal, painted.
pub open spec fn facade_index(facade: FacadeStyle) -> u32 {
    match facade {
        FacadeStyle::Brick => 0,
        FacadeStyle::Concrete => 1,
        FacadeStyle::Glass => 2,
        FacadeStyle::Metal => 3,
        FacadeStyle::Painted => 4,
    }
}

/// Convert facade style to index for shader.
pub fn facade_to_index(facade: FacadeStyle) -> (r: u32)
    ensures
        r == facade_index(facade),
        r < 5,
{
    match facade {
        FacadeStyle::Brick => 0,
        FacadeStyle::Concrete => 1,
        FacadeStyle::Glass => 2,
        FacadeStyle::Metal => 3,
        FacadeStyle::Painted => 4,
    }
}

/// Convert building archetype to index.
pub fn archetype_to_index(archetype: BuildingArchetype) -> (r: u32)
    ensures
        r == (match archetype {
            BuildingArchetype::Residential => 0u32,
            BuildingArchetype::Commercial => 1u32,
            BuildingArchetype::Industrial => 2u32,
        }),
{
    match archetype {
        BuildingArchetype::Residential => 0,
        BuildingArchetype::Commercial => 1,
        BuildingArchetype::Industrial => 2,
    }
}

/// Mesh type index of a building shape.
pub open spec fn shape_index(shape: BuildingShape) -> u32 {
    match shape {
        BuildingShape::Box => 0,
        BuildingShape::LShape => 1,
        BuildingShape::TowerOnBase => 2,
        BuildingShape::Stepped => 3,
    }
}

/// Convert building shape to index.
pub fn shape_to_index(shape: BuildingShape) -> (r: u32)
    ensures
        r == shape_index(shape),
        r < 4,
{
    match shape {
        BuildingShape::Box => 0,
        BuildingShape::LShape => 1,
        BuildingShape::TowerOnBase => 2,
        BuildingShape::Stepped => 3,
    }
}

/// Distinct facade styles and distinct shapes get distinct shader indices.
pub proof fn lemma_indices_distinguish(a: FacadeStyle, b: FacadeStyle, s: BuildingShape, t: BuildingShape)
    ensures
        facade_index(a) == facade_index(b) ==> a == b,
        shape_index(s) == shape_index(t) ==> s == t,
{
}


/// Pre-computed material palette for buildings: for each facade style, the
/// handles of its colour variants.
pub struct BuildingMaterialPalette<H> {
    /// Brick materials (3 color variants)
    pub brick: Vec<H>,
    /// Concrete materials (3 color variants)
    pub concrete: Vec<H>,
    /// Glass materials (3 color variants)
    pub glass: Vec<H>,
    /// Metal materials (3 color variants)
    pub metal: Vec<H>,
    /// Painted materials (3 color variants)
    pub painted: Vec<H>,
}

impl<H: Clone> BuildingMaterialPalette<H> {
    /// The variants of one facade style.
    pub open spec fn variants(&self, facade: FacadeStyle) -> Seq<H> {
        match facade {
            FacadeStyle::Brick => self.brick@,
            FacadeStyle::Concrete => self.concrete@,
            FacadeStyle::Glass => self.glass@,
            FacadeStyle::Metal => self.metal@,
            FacadeStyle::Painted => self.painted@,
        }
    }

    /// An empty palette, to be filled once materials exist.
    pub fn new() -> (r: Self)
        ensures
            forall|f: FacadeStyle| #[trigger] r.variants(f).len() == 0,
    {
        BuildingMaterialPalette {
            brick: Vec::new(),
            concrete: Vec::new(),
            glass: Vec::new(),
            metal: Vec::new(),
            painted: Vec::new(),
        }
    }

    /// Get a material for a facade style: variant numbers wrap around the
    /// style's variants.
    pub fn get(&self, facade: FacadeStyle, variant: usize) -> (r: Option<H>)
        requires
            self.variants(facade).len() > 0,
        ensures
            r matches Some(h) && cloned(
                self.variants(facade)[(variant as nat % self.variants(facade).len()) as int],
                h,
            ),
    {
        let palette = match facade {
            FacadeStyle::Brick => &self.brick,
            FacadeStyle::Concrete => &self.concrete,
            FacadeStyle::Glass => &self.glass,
            FacadeStyle::Metal => &self.metal,
            FacadeStyle::Painted => &self.painted,
        };
        let i = variant % palette.len();
        Some(palette[i].clone())
    }
}

} // verus!
