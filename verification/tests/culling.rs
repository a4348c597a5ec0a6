use isocitysim::render::object_data::{cull_counts, DrawIndexedIndirect, IndirectDrawBuffer, ObjectData, ObjectDataBuffer};

#[test]
fn object_data_splits_entity_bits() {
    let sphere = [1.0f32.to_bits(), 2.0f32.to_bits(), 3.0f32.to_bits(), 0.5f32.to_bits()];
    let o = ObjectData::new(sphere, 0x1234_5678_9abc_def0, 7);
    assert_eq!(o.entity_bits_low, 0x9abc_def0);
    assert_eq!(o.entity_bits_high, 0x1234_5678);
    assert_eq!(o.mesh_id, 7);
    assert!(o.is_visible());
    assert_eq!(f32::from_bits(o.radius()), 0.5);
    assert_eq!(o.center().map(f32::from_bits), [1.0, 2.0, 3.0]);
    assert_eq!(((o.entity_bits_high as u64) << 32) | o.entity_bits_low as u64, 0x1234_5678_9abc_def0);
}

#[test]
fn visibility_flag_keeps_reserved_bits() {
    let mut o = ObjectData::new([0; 4], 1, 0);
    o.flags = 0b1011;
    o.set_visible(false);
    assert_eq!(o.flags, 0b1010);
    assert!(!o.is_visible());
    o.set_visible(true);
    assert_eq!(o.flags, 0b1011);
    o.set_visible(true);
    assert_eq!(o.flags, 0b1011);
}

#[test]
fn object_buffer_readback() {
    let mut buffer = ObjectDataBuffer::with_capacity(4);
    assert!(buffer.is_empty());
    assert!(!buffer.is_dirty());
    for i in 0..3u64 {
        buffer.push(ObjectData::new([0; 4], i, i as u32));
    }
    buffer.mark_dirty();
    assert!(buffer.is_dirty());
    assert_eq!(buffer.len(), 3);
    buffer.update_visibility(&[0, 5]);
    assert!(!buffer.get(0).unwrap().is_visible());
    assert!(buffer.get(1).unwrap().is_visible());
    assert!(buffer.get(2).unwrap().is_visible());
    assert!(buffer.get(3).is_none());
    assert_eq!(buffer.objects()[2].mesh_id, 2);
    buffer.clear_dirty();
    assert!(!buffer.is_dirty());
    buffer.clear();
    assert_eq!(buffer.len(), 0);
    buffer.update_visibility(&[1, 1, 1]);
    assert!(buffer.is_empty());
}

#[test]
fn indirect_draws_count_visible_commands() {
    let mut cmd = DrawIndexedIndirect::new(36, 0, -4, 2);
    assert_eq!(cmd.instance_count, 1);
    assert_eq!(cmd.vertex_offset, -4);
    assert!(!cmd.is_culled());
    cmd.cull();
    assert!(cmd.is_culled());
    let mut buffer = IndirectDrawBuffer::new();
    assert_eq!(buffer.visible_count(), 0);
    buffer.push(cmd);
    buffer.push(DrawIndexedIndirect::new(6, 36, 0, 0));
    cmd.show();
    buffer.push(cmd);
    assert_eq!(buffer.len(), 3);
    assert_eq!(buffer.visible_count(), 2);
    assert_eq!(buffer.commands()[0].instance_count, 0);
    buffer.clear();
    assert!(buffer.is_empty());
}

#[test]
fn cull_counts_tally_visibility() {
    let c = cull_counts(&[true, false, false, true, true]);
    assert_eq!(c.total_objects, 5);
    assert_eq!(c.visible_objects, 3);
    assert_eq!(c.culled_objects, 2);
    let e = cull_counts(&[]);
    assert_eq!((e.total_objects, e.visible_objects, e.culled_objects), (0, 0, 0));
}

#[test]
fn object_buffer_mutable_access() {
    let mut buffer = ObjectDataBuffer::new();
    buffer.push(ObjectData::new([0; 4], 1, 3));
    buffer.push(ObjectData::new([0; 4], 2, 4));
    for o in buffer.objects_mut() {
        o.mesh_id += 10;
    }
    assert_eq!(buffer.get(0).unwrap().mesh_id, 13);
    assert_eq!(buffer.get(1).unwrap().mesh_id, 14);
    if let Some(o) = buffer.get_mut(1) {
        o.set_visible(false);
    }
    assert!(!buffer.get(1).unwrap().is_visible());
    assert!(buffer.get(0).unwrap().is_visible());
    assert!(buffer.get_mut(2).is_none());
    assert!(!buffer.is_dirty());
}

#[test]
fn draw_commands_mutable_access() {
    let mut buffer = IndirectDrawBuffer::new();
    buffer.push(DrawIndexedIndirect::new(36, 0, 0, 0));
    buffer.push(DrawIndexedIndirect::new(12, 36, 0, 1));
    buffer.commands_mut()[0].cull();
    assert_eq!(buffer.visible_count(), 1);
    assert!(buffer.commands()[0].is_culled());
    assert_eq!(buffer.commands()[1].first_index, 36);
}
