//! Bookkeeping of the city's dynamic lights, for statistics and bulk
//! updates.
//!
//! Positions, colours, intensities and radii travel as the raw bit
//! patterns of their `f32` components; entities travel as their 64 bits.

use vstd::prelude::*;

verus! {

/// Type of city light for categorization.
#[derive(Clone, Copy, Debug, PartialEq, Eq, Structural)]
pub enum LightType {
    StreetLamp,
    TrafficLight,
    Window,
    Vehicle,
    Entrance,
}

impl Default for LightType {
    fn default() -> (r: Self)
        ensures
            r == LightType::StreetLamp,
    {
        LightType::StreetLamp
    }
}

/// Data for a city light (used for tracking and statistics).
#[derive(Clone, Copy, Debug)]
pub struct CityLight {
    /// World position, as `f32` bit patterns.
    pub position: [u32; 3],
    /// Linear RGBA colour, as `f32` bit patterns.
    pub color: [u32; 4],
    /// Intensity, as an `f32` bit pattern.
    pub intensity: u32,
    /// Range, as an `f32` bit pattern.
    pub radius: u32,
    pub light_type: LightType,
    /// Bits of the entity that carries the light, once spawned.
    pub entity: Option<u64>,
}

impl CityLight {
    /// A light not yet tied to an entity.
    pub fn new(position: [u32; 3], color: [u32; 4], intensity: u32, radius: u32, light_type: LightType) -> (r: Self)
        ensures
            r.position == position,
            r.color == color,
            r.intensity == intensity,
            r.radius == radius,
            r.light_type == light_type,
            r.entity is None,
    {
        CityLight { position, color, intensity, radius, light_type, entity: None }
    }

    /// The same light, tied to an entity.
    pub fn with_entity(self, entity: u64) -> (r: Self)
        ensures
            r == (CityLight { entity: Some(entity), ..self }),
    {
        let mut light = self;
        light.entity = Some(entity);
        light
    }
}

/// Lights of one type among `lights`, in order.
pub open spec fn lights_typed(lights: Seq<CityLight>, light_type: LightType) -> Seq<CityLight> {
    lights.filter(|l: CityLight| l.light_type == light_type)
}

/// Sum over the light types of the number of lights of that type.
pub open spec fn counts_by_type_total(lights: Seq<CityLight>) -> nat {
    lights_typed(lights, LightType::StreetLamp).len() + lights_typed(lights, LightType::TrafficLight).len()
        + lights_typed(lights, LightType::Window).len() + lights_typed(lights, LightType::Vehicle).len()
        + lights_typed(lights, LightType::Entrance).len()
}

/// Every light has exactly one type: the counts per type add up to the
/// number of lights.
pub proof fn lemma_type_counts_partition(lights: Seq<CityLight>)
    ensures
        counts_by_type_total(lights) == lights.len(),
    decreases lights.len(),
{
    if lights.len() > 0 {
        let rest = lights.drop_last();
        let last = lights.last();
        lemma_type_counts_partition(rest);
        assert(rest.push(last) =~= lights);
        rest.lemma_filter_len_push(|l: CityLight| l.light_type == LightType::StreetLamp, last);
        rest.lemma_filter_len_push(|l: CityLight| l.light_type == LightType::TrafficLight, last);
        rest.lemma_filter_len_push(|l: CityLight| l.light_type == LightType::Window, last);
        rest.lemma_filter_len_push(|l: CityLight| l.light_type == LightType::Vehicle, last);
        rest.lemma_filter_len_push(|l: CityLight| l.light_type == LightType::Entrance, last);
    }
}

/// Buffer containing all city lights for tracking.
pub struct CityLightBuffer {
    /// All registered city lights
    lights: Vec<CityLight>,
    /// Dirty flag - set when lights need to be re-processed
    pub dirty: bool,
}

impl Default for CityLightBuffer {
    fn default() -> (r: Self)
        ensures
            r.items() == Seq::<CityLight>::empty(),
            !r.marked_dirty(),
    {
        CityLightBuffer { lights: Vec::new(), dirty: false }
    }
}

impl CityLightBuffer {
    /// The lights held, in order of registration.
    pub closed spec fn items(&self) -> Seq<CityLight> {
        self.lights@
    }

    /// Whether the lights await re-processing.
    pub closed spec fn marked_dirty(&self) -> bool {
        self.dirty
    }

    /// Add a new light to the buffer; its index is returned.
    pub fn add(&mut self, light: CityLight) -> (r: usize)
        ensures
            r == old(self).items().len(),
            final(self).items() == old(self).items().push(light),
            final(self).marked_dirty(),
    {
        let index = self.lights.len();
        self.lights.push(light);
        self.dirty = true;
        index
    }

    /// Get a light by index.
    pub fn get(&self, index: usize) -> (r: Option<&CityLight>)
        ensures
            index < self.items().len() ==> r == Some(&self.items()[index as int]),
            index >= self.items().len() ==> r is None,
    {
        if index < self.lights.len() {
            Some(&self.lights[index])
        } else {
            None
        }
    }

    /// Get a light by index for changing it; the buffer is marked dirty
    /// whether or not the index holds a light.
    pub fn get_mut(&mut self, index: usize) -> (r: Option<&mut CityLight>)
        ensures
            final(self).marked_dirty(),
            index < old(self).items().len() ==> {
                &&& r is Some
                &&& *r->0 == old(self).items()[index as int]
                &&& final(self).items() == old(self).items().update(index as int, *final(r->0))
            },
            index >= old(self).items().len() ==> r is None && final(self).items() == old(self).items(),
    {
        self.dirty = true;
        if index < self.lights.len() {
            Some(&mut self.lights[index])
        } else {
            None
        }
    }

    /// Update a light's position; an index past the end changes nothing.
    pub fn update_position(&mut self, index: usize, position: [u32; 3])
        ensures
            index < old(self).items().len() ==> {
                &&& final(self).items() == old(self).items().update(
                    index as int,
                    CityLight { position, ..old(self).items()[index as int] },
                )
                &&& final(self).marked_dirty()
            },
            index >= old(self).items().len() ==> *final(self) == *old(self),
    {
        if index < self.lights.len() {
            let mut light = self.lights[index];
            light.position = position;
            self.lights.set(index, light);
            self.dirty = true;
        }
    }

    /// Update a light's intensity; an index past the end changes nothing.
    pub fn update_intensity(&mut self, index: usize, intensity: u32)
        ensures
            index < old(self).items().len() ==> {
                &&& final(self).items() == old(self).items().update(
                    index as int,
                    CityLight { intensity, ..old(self).items()[index as int] },
                )
                &&& final(self).marked_dirty()
            },
            index >= old(self).items().len() ==> *final(self) == *old(self),
    {
        if index < self.lights.len() {
            let mut light = self.lights[index];
            light.intensity = intensity;
            self.lights.set(index, light);
            self.dirty = true;
        }
    }

    /// Clear all lights.
    pub fn clear(&mut self)
        ensures
            final(self).items() == Seq::<CityLight>::empty(),
            final(self).marked_dirty(),
    {
        self.lights.clear();
        self.dirty = true;
    }

    /// Get total number of lights.
    pub fn len(&self) -> (r: usize)
        ensures
            r == self.items().len(),
    {
        self.lights.len()
    }

    /// Check if buffer is empty.
    pub fn is_empty(&self) -> (r: bool)
        ensures
            r == (self.items().len() == 0),
    {
        self.lights.len() == 0
    }

    /// All lights, in order of registration.
    pub fn lights(&self) -> (r: &[CityLight])
        ensures
            r@ == self.items(),
    {
        self.lights.as_slice()
    }

    /// Count lights by type.
    pub fn count_by_type(&self, light_type: LightType) -> (r: usize)
        ensures
            r == lights_typed(self.items(), light_type).len(),
    {
        let mut count: usize = 0;
        let mut i: usize = 0;
        while i < self.lights.len()
            invariant
                i <= self.lights@.len(),
                count == lights_typed(self.lights@.take(i as int), light_type).len(),
                count <= i,
            decreases self.lights@.len() - i,
        {
            proof {
                let t = self.lights@.take(i + 1);
                assert(t.drop_last() =~= self.lights@.take(i as int));
                reveal_with_fuel(Seq::filter, 1);
            }
            if self.lights[i].light_type == light_type {
                count = count + 1;
            }
            i = i + 1;
        }
        proof {
            assert(self.lights@.take(self.lights@.len() as int) =~= self.lights@);
        }
        count
    }

    /// Lights of a specific type, in order of registration.
    pub fn lights_of_type(&self, light_type: LightType) -> (r: Vec<CityLight>)
        ensures
            r@ == lights_typed(self.items(), light_type),
    {
        let mut out: Vec<CityLight> = Vec::new();
        let mut i: usize = 0;
        while i < self.lights.len()
            invariant
                i <= self.lights@.len(),
                out@ == lights_typed(self.lights@.take(i as int), light_type),
            decreases self.lights@.len() - i,
        {
            proof {
                let t = self.lights@.take(i + 1);
                assert(t.drop_last() =~= self.lights@.take(i as int));
                reveal_with_fuel(Seq::filter, 1);
            }
            if self.lights[i].light_type == light_type {
                out.push(self.lights[i]);
            }
            i = i + 1;
        }
        proof {
            assert(self.lights@.take(self.lights@.len() as int) =~= self.lights@);
        }
        out
    }
}

/// A light added to the buffer is found again at the index that `add`
/// returned, the lights before it stay where they were, and the count of
/// its type grows by one while the other counts stay.
pub proof fn lemma_added_light_found(before: CityLightBuffer, light: CityLight, index: usize, after: CityLightBuffer)
    requires
        index == before.items().len(),
        after.items() == before.items().push(light),
    ensures
        index < after.items().len(),
        after.items()[index as int] == light,
        after.items().subrange(0, index as int) == before.items(),
        forall|t: LightType|
            #[trigger] lights_typed(after.items(), t).len() == lights_typed(before.items(), t).len() + (
            if t == light.light_type {
                1int
            } else {
                0int
            }),
{
    assert(after.items().subrange(0, index as int) =~= before.items());
    assert forall|t: LightType|
        #[trigger] lights_typed(after.items(), t).len() == lights_typed(before.items(), t).len() + (
        if t == light.light_type {
            1int
        } else {
            0int
        }) by {
        before.items().lemma_filter_len_push(|l: CityLight| l.light_type == t, light);
    }
}

} // verus!
