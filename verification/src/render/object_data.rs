//! Object data and indirect draw commands for GPU culling.
//!
//! Bounding spheres travel as the raw bit patterns of their `f32`
//! components, so a buffer entry keeps the exact byte layout that the
//! culling shader reads.

use vstd::prelude::*;

verus! {

/// Flags after setting the visibility bit (bit 0) to `visible`; the other
/// bits are kept.
pub open spec fn with_visibility(flags: u32, visible: bool) -> u32 {
    if visible {
        flags | 1u32
    } else {
        flags & !1u32
    }
}

proof fn lemma_with_visibility(flags: u32, visible: bool)
    by (bit_vector)
    ensures
        (with_visibility(flags, visible) & 1u32 != 0u32) == visible,
        with_visibility(flags, visible) >> 1u32 == flags >> 1u32,
{
}

/// Per-object data for GPU culling (32 bytes).
#[derive(Clone, Copy, Debug)]
pub struct ObjectData {
    /// Bounding sphere: xyz = center (world space), w = radius, each held as
    /// the bit pattern of an `f32`.
    pub bounding_sphere: [u32; 4],
    /// Entity bits for identification (split into two u32 to avoid padding issues)
    pub entity_bits_low: u32,
    pub entity_bits_high: u32,
    /// Mesh ID for draw call batching
    pub mesh_id: u32,
    /// Flags: bit 0 = visible, bits 1-31 reserved
    pub flags: u32,
}

impl ObjectData {
    /// Create new object data with a bounding sphere; visible by default.
    pub fn new(bounding_sphere: [u32; 4], entity_bits: u64, mesh_id: u32) -> (r: Self)
        ensures
            r.bounding_sphere == bounding_sphere,
            r.entity_bits_low == entity_bits % 0x1_0000_0000,
            r.entity_bits_high == entity_bits / 0x1_0000_0000,
            r.mesh_id == mesh_id,
            r.flags == 1,
    {
        let low = entity_bits as u32;
        let high = (entity_bits >> 32) as u32;
        proof {
            assert(low == entity_bits % 0x1_0000_0000) by (bit_vector)
                requires
                    low == entity_bits as u32,
            ;
            assert(high == entity_bits / 0x1_0000_0000) by (bit_vector)
                requires
                    high == (entity_bits >> 32) as u32,
            ;
        }
        ObjectData {
            bounding_sphere,
            entity_bits_low: low,
            entity_bits_high: high,
            mesh_id,
            flags: 1,
        }
    }

    /// The 64 entity bits, reassembled from their two halves.
    pub open spec fn entity_bits(self) -> int {
        self.entity_bits_high * 0x1_0000_0000 + self.entity_bits_low
    }

    /// Get the bounding sphere center, as `f32` bit patterns.
    pub fn center(&self) -> (r: [u32; 3])
        ensures
            r@ == self.bounding_sphere@.take(3),
    {
        let r = [self.bounding_sphere[0], self.bounding_sphere[1], self.bounding_sphere[2]];
        assert(r@ =~= self.bounding_sphere@.take(3));
        r
    }

    /// Get the bounding sphere radius, as an `f32` bit pattern.
    pub fn radius(&self) -> (r: u32)
        ensures
            r == self.bounding_sphere@[3],
    {
        self.bounding_sphere[3]
    }

    /// Whether bit 0 of the flags is set.
    pub open spec fn visible(self) -> bool {
        self.flags & 1u32 != 0u32
    }

    /// Check if the object is marked as visible.
    pub fn is_visible(&self) -> (r: bool)
        ensures
            r == self.visible(),
    {
        (self.flags & 1) != 0
    }

    /// Set the visibility flag, keeping the reserved bits.
    pub fn set_visible(&mut self, visible: bool)
        ensures
            final(self).flags == with_visibility(old(self).flags, visible),
            final(self).visible() == visible,
            final(self).flags >> 1u32 == old(self).flags >> 1u32,
            final(self).bounding_sphere == old(self).bounding_sphere,
            final(self).entity_bits_low == old(self).entity_bits_low,
            final(self).entity_bits_high == old(self).entity_bits_high,
            final(self).mesh_id == old(self).mesh_id,
    {
        if visible {
            self.flags = self.flags | 1;
        } else {
            self.flags = self.flags & !1;
        }
        proof {
            lemma_with_visibility(old(self).flags, visible);
        }
    }
}

/// Splitting entity bits into two halves loses nothing: the halves put
/// back together give the entity bits again.
pub proof fn lemma_entity_bits_roundtrip(entity_bits: u64, o: ObjectData)
    requires
        o.entity_bits_low == entity_bits % 0x1_0000_0000,
        o.entity_bits_high == entity_bits / 0x1_0000_0000,
    ensures
        o.entity_bits() == entity_bits,
{
}

/// Buffer containing all object data for GPU culling.
pub struct ObjectDataBuffer {
    /// CPU-side object data
    objects: Vec<ObjectData>,
    /// Dirty flag - set when buffer needs GPU upload
    dirty: bool,
}

impl ObjectDataBuffer {
    /// The objects held, in order.
    pub closed spec fn items(&self) -> Seq<ObjectData> {
        self.objects@
    }

    /// Whether the buffer awaits GPU upload.
    pub closed spec fn needs_upload(&self) -> bool {
        self.dirty
    }

    /// An empty buffer that needs no upload.
    pub fn new() -> (r: Self)
        ensures
            r.items() == Seq::<ObjectData>::empty(),
            !r.needs_upload(),
    {
        ObjectDataBuffer { objects: Vec::new(), dirty: false }
    }

    /// Create a new buffer with capacity.
    pub fn with_capacity(capacity: usize) -> (r: Self)
        ensures
            r.items() == Seq::<ObjectData>::empty(),
            !r.needs_upload(),
    {
        ObjectDataBuffer { objects: Vec::with_capacity(capacity), dirty: false }
    }

    /// Add an object to the buffer.
    pub fn push(&mut self, object: ObjectData)
        ensures
            final(self).items() == old(self).items().push(object),
            final(self).needs_upload() == old(self).needs_upload(),
    {
        self.objects.push(object);
    }

    /// Clear all objects.
    pub fn clear(&mut self)
        ensures
            final(self).items() == Seq::<ObjectData>::empty(),
            final(self).needs_upload() == old(self).needs_upload(),
    {
        self.objects.clear();
    }

    /// Get the number of objects.
    pub fn len(&self) -> (r: usize)
        ensures
            r == self.items().len(),
    {
        self.objects.len()
    }

    /// Check if buffer is empty.
    pub fn is_empty(&self) -> (r: bool)
        ensures
            r == (self.items().len() == 0),
    {
        self.objects.len() == 0
    }

    /// Get all objects as a slice.
    pub fn objects(&self) -> (r: &[ObjectData])
        ensures
            r@ == self.items(),
    {
        self.objects.as_slice()
    }

    /// Mark buffer as needing GPU upload.
    pub fn mark_dirty(&mut self)
        ensures
            final(self).items() == old(self).items(),
            final(self).needs_upload(),
    {
        self.dirty = true;
    }

    /// Check if buffer needs GPU upload.
    pub fn is_dirty(&self) -> (r: bool)
        ensures
            r == self.needs_upload(),
    {
        self.dirty
    }

    /// Clear dirty flag after GPU upload.
    pub fn clear_dirty(&mut self)
        ensures
            final(self).items() == old(self).items(),
            !final(self).needs_upload(),
    {
        self.dirty = false;
    }

    /// Get object by index.
    pub fn get(&self, index: usize) -> (r: Option<&ObjectData>)
        ensures
            index < self.items().len() ==> r == Some(&self.items()[index as int]),
            index >= self.items().len() ==> r is None,
    {
        if index < self.objects.len() {
            Some(&self.objects[index])
        } else {
            None
        }
    }

    /// Get mutable object by index.
    pub fn get_mut(&mut self, index: usize) -> (r: Option<&mut ObjectData>)
        ensures
            final(self).needs_upload() == old(self).needs_upload(),
            index < old(self).items().len() ==> {
                &&& r is Some
                &&& *r->0 == old(self).items()[index as int]
                &&& final(self).items() == old(self).items().update(index as int, *final(r->0))
            },
            index >= old(self).items().len() ==> r is None && final(self).items() == old(self).items(),
    {
        if index < self.objects.len() {
            Some(&mut self.objects[index])
        } else {
            None
        }
    }

    /// Get mutable access to objects.
    pub fn objects_mut(&mut self) -> (r: &mut [ObjectData])
        ensures
            r@ == old(self).items(),
            final(self).items() == final(r)@,
            final(self).needs_upload() == old(self).needs_upload(),
    {
        self.objects.as_mut_slice()
    }

    /// Update visibility flags from GPU readback: object `i` becomes visible
    /// when flag `i` is non-zero; objects beyond the flags are untouched.
    pub fn update_visibility(&mut self, visibility_flags: &[u32])
        ensures
            final(self).items().len() == old(self).items().len(),
            final(self).needs_upload() == old(self).needs_upload(),
            forall|i: int|
                0 <= i < final(self).items().len() ==> {
                    let o = old(self).items()[i];
                    let p = #[trigger] final(self).items()[i];
                    &&& p.bounding_sphere == o.bounding_sphere
                    &&& p.entity_bits_low == o.entity_bits_low
                    &&& p.entity_bits_high == o.entity_bits_high
                    &&& p.mesh_id == o.mesh_id
                    &&& p.flags == (if i < visibility_flags@.len() {
                        with_visibility(o.flags, visibility_flags@[i] != 0)
                    } else {
                        o.flags
                    })
                },
    {
        let n = self.objects.len();
        let mut i: usize = 0;
        while i < n && i < visibility_flags.len()
            invariant
                n == self.objects@.len(),
                n == old(self).objects@.len(),
                i <= n,
                i <= visibility_flags@.len(),
                self.dirty == old(self).dirty,
                forall|k: int|
                    0 <= k < n ==> {
                        let o = old(self).objects@[k];
                        let p = #[trigger] self.objects@[k];
                        &&& p.bounding_sphere == o.bounding_sphere
                        &&& p.entity_bits_low == o.entity_bits_low
                        &&& p.entity_bits_high == o.entity_bits_high
                        &&& p.mesh_id == o.mesh_id
                        &&& p.flags == (if k < i {
                            with_visibility(o.flags, visibility_flags@[k] != 0)
                        } else {
                            o.flags
                        })
                    },
            decreases n - i,
        {
            let mut object = self.objects[i];
            object.set_visible(visibility_flags[i] != 0);
            self.objects.set(i, object);
            i = i + 1;
        }
    }
}

/// Indirect draw command for GPU-driven rendering.
///
/// Compatible with Vulkan/DX12 DrawIndexedIndirect command.
#[derive(Clone, Copy, Debug, PartialEq, Eq, Structural)]
pub struct DrawIndexedIndirect {
    /// Number of indices to draw
    pub index_count: u32,
    /// Number of instances (0 = culled, 1+ = visible)
    pub instance_count: u32,
    /// First index in the index buffer
    pub first_index: u32,
    /// Vertex offset added to each index
    pub vertex_offset: i32,
    /// First instance ID
    pub first_instance: u32,
}

impl DrawIndexedIndirect {
    /// Create a new draw command, visible by default.
    pub fn new(index_count: u32, first_index: u32, vertex_offset: i32, first_instance: u32) -> (r: Self)
        ensures
            r == (DrawIndexedIndirect {
                index_count,
                instance_count: 1,
                first_index,
                vertex_offset,
                first_instance,
            }),
    {
        Self { index_count, instance_count: 1, first_index, vertex_offset, first_instance }
    }

    /// Mark as culled (instance_count = 0).
    pub fn cull(&mut self)
        ensures
            *final(self) == (DrawIndexedIndirect { instance_count: 0, ..*old(self) }),
    {
        self.instance_count = 0;
    }

    /// Mark as visible (instance_count = 1).
    pub fn show(&mut self)
        ensures
            *final(self) == (DrawIndexedIndirect { instance_count: 1, ..*old(self) }),
    {
        self.instance_count = 1;
    }

    /// Check if this draw command is culled.
    pub fn is_culled(&self) -> (r: bool)
        ensures
            r == (self.instance_count == 0),
    {
        self.instance_count == 0
    }
}

/// A command that draws at least one instance.
pub open spec fn draws(c: DrawIndexedIndirect) -> bool {
    c.instance_count != 0
}

/// Buffer of indirect draw commands for GPU-driven rendering.
pub struct IndirectDrawBuffer {
    /// Draw commands for each mesh batch
    commands: Vec<DrawIndexedIndirect>,
    /// Dirty flag for GPU upload
    dirty: bool,
}

impl IndirectDrawBuffer {
    /// The commands held, in order.
    pub closed spec fn items(&self) -> Seq<DrawIndexedIndirect> {
        self.commands@
    }

    /// Whether the buffer awaits GPU upload.
    pub closed spec fn needs_upload(&self) -> bool {
        self.dirty
    }

    /// An empty buffer that needs no upload.
    pub fn new() -> (r: Self)
        ensures
            r.items() == Seq::<DrawIndexedIndirect>::empty(),
            !r.needs_upload(),
    {
        IndirectDrawBuffer { commands: Vec::new(), dirty: false }
    }

    /// Add a draw command; the buffer then needs upload.
    pub fn push(&mut self, command: DrawIndexedIndirect)
        ensures
            final(self).items() == old(self).items().push(command),
            final(self).needs_upload(),
    {
        self.commands.push(command);
        self.dirty = true;
    }

    /// Clear all commands.
    pub fn clear(&mut self)
        ensures
            final(self).items() == Seq::<DrawIndexedIndirect>::empty(),
            final(self).needs_upload() == old(self).needs_upload(),
    {
        self.commands.clear();
    }

    /// Get the number of commands.
    pub fn len(&self) -> (r: usize)
        ensures
            r == self.items().len(),
    {
        self.commands.len()
    }

    /// Check if buffer is empty.
    pub fn is_empty(&self) -> (r: bool)
        ensures
            r == (self.items().len() == 0),
    {
        self.commands.len() == 0
    }

    /// Get all commands as a slice.
    pub fn commands(&self) -> (r: &[DrawIndexedIndirect])
        ensures
            r@ == self.items(),
    {
        self.commands.as_slice()
    }

    /// Get mutable access to the commands.
    pub fn commands_mut(&mut self) -> (r: &mut [DrawIndexedIndirect])
        ensures
            r@ == old(self).items(),
            final(self).items() == final(r)@,
            final(self).needs_upload() == old(self).needs_upload(),
    {
        self.commands.as_mut_slice()
    }

    /// Count visible (non-culled) draw commands.
    pub fn visible_count(&self) -> (r: usize)
        ensures
            r == self.items().filter(|c: DrawIndexedIndirect| draws(c)).len(),
    {
        let mut count: usize = 0;
        let mut i: usize = 0;
        while i < self.commands.len()
            invariant
                i <= self.commands@.len(),
                count == self.commands@.take(i as int).filter(|c: DrawIndexedIndirect| draws(c)).len(),
                count <= i,
            decreases self.commands@.len() - i,
        {
            proof {
                let t = self.commands@.take(i + 1);
                assert(t.drop_last() =~= self.commands@.take(i as int));
                reveal_with_fuel(Seq::filter, 1);
            }
            if !self.commands[i].is_culled() {
                count = count + 1;
            }
            i = i + 1;
        }
        proof {
            assert(self.commands@.take(self.commands@.len() as int) =~= self.commands@);
        }
        count
    }
}


/// Object counts of one culling pass.
#[derive(Clone, Copy, Debug, PartialEq, Eq, Structural)]
pub struct CullCounts {
    /// Total number of cullable objects
    pub total_objects: usize,
    /// Number of visible objects after culling
    pub visible_objects: usize,
    /// Number of culled objects
    pub culled_objects: usize,
}

/// Count the objects of a culling pass from their visibility states.
pub fn cull_counts(visible: &[bool]) -> (r: CullCounts)
    ensures
        r.total_objects == visible@.len(),
        r.visible_objects == visible@.filter(|v: bool| v).len(),
        r.culled_objects == visible@.filter(|v: bool| !v).len(),
        r.visible_objects + r.culled_objects == r.total_objects,
{
    let mut shown: usize = 0;
    let mut hidden: usize = 0;
    let mut i: usize = 0;
    while i < visible.len()
        invariant
            i <= visible@.len(),
            shown == visible@.take(i as int).filter(|v: bool| v).len(),
            hidden == visible@.take(i as int).filter(|v: bool| !v).len(),
            shown + hidden == i,
        decreases visible@.len() - i,
    {
        proof {
            let t = visible@.take(i + 1);
            assert(t.drop_last() =~= visible@.take(i as int));
            reveal_with_fuel(Seq::filter, 1);
        }
        if visible[i] {
            shown = shown + 1;
        } else {
            hidden = hidden + 1;
        }
        i = i + 1;
    }
    proof {
        assert(visible@.take(visible@.len() as int) =~= visible@);
    }
    CullCounts { total_objects: visible.len(), visible_objects: shown, culled_objects: hidden }
}

/// Number of 64-thread workgroups the culling pass dispatches for
/// `object_count` objects: enough to cover every object, one thread each.
pub fn workgroup_count(object_count: u32) -> (r: u32)
    requires
        object_count as int + 63 <= u32::MAX,
    ensures
        r == (object_count as int + 63) / 64,
        r as int * 64 >= object_count,
        (r as int - 1) * 64 < object_count,
{
    (object_count + 63) / 64
}

} // verus!
