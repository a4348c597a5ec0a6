use isocitysim::render::light_buffer::{CityLight, CityLightBuffer, LightType};

fn lamp(x: f32, intensity: f32, light_type: LightType) -> CityLight {
    CityLight::new(
        [x.to_bits(), 0.0f32.to_bits(), 0.0f32.to_bits()],
        [1.0f32.to_bits(), 0.9f32.to_bits(), 0.7f32.to_bits(), 1.0f32.to_bits()],
        intensity.to_bits(),
        30.0f32.to_bits(),
        light_type,
    )
}

#[test]
fn light_added_is_found_at_returned_index() {
    let mut buffer = CityLightBuffer::default();
    assert!(buffer.is_empty());
    assert!(!buffer.dirty);
    let a = buffer.add(lamp(1.0, 100.0, LightType::StreetLamp));
    let b = buffer.add(lamp(2.0, 200.0, LightType::Window));
    assert_eq!((a, b), (0, 1));
    assert!(buffer.dirty);
    assert_eq!(buffer.len(), 2);
    assert_eq!(f32::from_bits(buffer.get(1).unwrap().position[0]), 2.0);
    assert_eq!(buffer.get(1).unwrap().light_type, LightType::Window);
    assert!(buffer.get(2).is_none());
}

#[test]
fn light_updates_touch_one_field() {
    let mut buffer = CityLightBuffer::default();
    buffer.add(lamp(1.0, 100.0, LightType::StreetLamp));
    buffer.dirty = false;
    buffer.update_intensity(0, 50.0f32.to_bits());
    assert!(buffer.dirty);
    let light = *buffer.get(0).unwrap();
    assert_eq!(f32::from_bits(light.intensity), 50.0);
    assert_eq!(f32::from_bits(light.position[0]), 1.0);
    buffer.update_position(0, [4.0f32.to_bits(), 5.0f32.to_bits(), 6.0f32.to_bits()]);
    let light = *buffer.get(0).unwrap();
    assert_eq!(light.position.map(f32::from_bits), [4.0, 5.0, 6.0]);
    assert_eq!(f32::from_bits(light.intensity), 50.0);

    buffer.dirty = false;
    buffer.update_intensity(3, 1.0f32.to_bits());
    buffer.update_position(3, [0; 3]);
    assert!(!buffer.dirty);
    assert_eq!(buffer.len(), 1);
}

#[test]
fn get_mut_marks_dirty_even_out_of_range() {
    let mut buffer = CityLightBuffer::default();
    buffer.add(lamp(1.0, 100.0, LightType::Entrance));
    buffer.dirty = false;
    assert!(buffer.get_mut(5).is_none());
    assert!(buffer.dirty);
    buffer.dirty = false;
    if let Some(light) = buffer.get_mut(0) {
        light.radius = 12.0f32.to_bits();
    }
    assert!(buffer.dirty);
    assert_eq!(f32::from_bits(buffer.get(0).unwrap().radius), 12.0);
}

#[test]
fn lights_counted_by_type() {
    let mut buffer = CityLightBuffer::default();
    let types = [
        LightType::StreetLamp,
        LightType::Window,
        LightType::StreetLamp,
        LightType::Vehicle,
        LightType::TrafficLight,
        LightType::StreetLamp,
    ];
    for (i, t) in types.iter().enumerate() {
        buffer.add(lamp(i as f32, 10.0, *t));
    }
    assert_eq!(buffer.count_by_type(LightType::StreetLamp), 3);
    assert_eq!(buffer.count_by_type(LightType::Window), 1);
    assert_eq!(buffer.count_by_type(LightType::Entrance), 0);
    let total: usize = [
        LightType::StreetLamp,
        LightType::TrafficLight,
        LightType::Window,
        LightType::Vehicle,
        LightType::Entrance,
    ]
    .iter()
    .map(|t| buffer.count_by_type(*t))
    .sum();
    assert_eq!(total, buffer.len());
    let lamps = buffer.lights_of_type(LightType::StreetLamp);
    let xs: Vec<f32> = lamps.iter().map(|l| f32::from_bits(l.position[0])).collect();
    assert_eq!(xs, vec![0.0, 2.0, 5.0]);
    assert_eq!(buffer.lights().len(), 6);

    buffer.dirty = false;
    buffer.clear();
    assert!(buffer.is_empty());
    assert!(buffer.dirty);
    assert_eq!(buffer.count_by_type(LightType::StreetLamp), 0);
}

#[test]
fn light_entity_and_default_type() {
    let light = lamp(0.0, 1.0, LightType::default()).with_entity(0xdead_beef_0000_0001);
    assert_eq!(light.light_type, LightType::StreetLamp);
    assert_eq!(light.entity, Some(0xdead_beef_0000_0001));
    assert_eq!(lamp(0.0, 1.0, LightType::Window).entity, None);
}
