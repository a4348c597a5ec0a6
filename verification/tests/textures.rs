use isocitysim::procgen::building_factory::FacadeStyle;
use isocitysim::render::facade_textures::{
    facade_to_layer, generate_brick_height, generate_brick_metallic, generate_brick_normal,
    generate_brick_texture, generate_concrete_metallic, generate_concrete_normal,
    generate_concrete_roughness, generate_concrete_texture, generate_glass_height,
    generate_glass_metallic, generate_glass_normal, generate_glass_roughness, generate_glass_texture,
    generate_metal_height, generate_metal_normal, generate_metal_texture, generate_painted_height,
    generate_painted_metallic, generate_painted_normal, generate_painted_texture, layer_to_facade,
    simple_noise, stack_layers, NUM_FACADE_TYPES, R8_LAYER_BYTES, RGBA_LAYER_BYTES,
};

fn texel(data: &[u8], x: usize, y: usize) -> (u8, u8, u8, u8) {
    let i = (y * 256 + x) * 4;
    (data[i], data[i + 1], data[i + 2], data[i + 3])
}

#[test]
fn noise_hash_values() {
    assert_eq!(simple_noise(0, 0, 0), 0);
    assert_eq!(simple_noise(1, 2, 3), 250);
    assert_eq!(simple_noise(10, 20, 42), 199);
    assert_eq!(simple_noise(255, 255, 9999), 97);
    assert_eq!(simple_noise(5, 5, 42), 48);
}

#[test]
fn brick_texture_texels() {
    let data = generate_brick_texture();
    assert_eq!(data.len(), RGBA_LAYER_BYTES);
    assert_eq!(texel(&data, 5, 5), (218, 142, 116, 255));
    // mortar joint between bricks
    assert_eq!(texel(&data, 33, 0), (210, 205, 195, 255));
    // mortar row below the first course
    assert_eq!(texel(&data, 3, 16), (210, 205, 195, 255));
}

#[test]
fn brick_normal_mortar_tilts() {
    let data = generate_brick_normal();
    assert_eq!(texel(&data, 33, 0), (100, 128, 255, 255));
    assert_eq!(texel(&data, 3, 17), (128, 100, 255, 255));
    assert_eq!(texel(&data, 32, 16), (100, 100, 255, 255));
}

#[test]
fn glass_texture_frames_and_gradient() {
    let data = generate_glass_texture();
    assert_eq!(texel(&data, 0, 0), (40, 45, 50, 255));
    assert_eq!(texel(&data, 10, 10), (62, 82, 102, 255));
    assert_eq!(texel(&data, 10, 76), (79, 99, 119, 255));
    assert_eq!(texel(&data, 63, 40), (40, 45, 50, 255));
    let normal = generate_glass_normal();
    assert!(normal.chunks(4).all(|t| t == [128, 128, 255, 255]));
}

#[test]
fn metal_maps_follow_ribs() {
    let height = generate_metal_height();
    let column: Vec<u8> = (0..6).map(|y| height[y * 256 + 9]).collect();
    assert_eq!(column, vec![128, 153, 178, 153, 100, 100]);
    let normal = generate_metal_normal();
    assert_eq!(texel(&normal, 0, 1).1, 160);
    assert_eq!(texel(&normal, 0, 3).1, 96);
    assert_eq!(texel(&normal, 0, 7).1, 128);
}

#[test]
fn roughness_and_height_values() {
    let concrete = generate_concrete_roughness();
    assert_eq!(concrete.len(), R8_LAYER_BYTES);
    assert_eq!(concrete[9 * 256 + 7], 211);
    let painted = generate_painted_height();
    assert_eq!(painted[4 * 256 + 3], 125);
    let glass = generate_glass_roughness();
    assert_eq!(glass[0], 150);
    assert_eq!(glass[10 * 256 + 10], 25);
    let brick = generate_brick_height();
    assert_eq!(brick[16 * 256 + 3], 70);
}

#[test]
fn non_metallic_layers_are_zero() {
    for layer in [generate_brick_metallic(), generate_concrete_metallic(), generate_painted_metallic()] {
        assert_eq!(layer.len(), R8_LAYER_BYTES);
        assert!(layer.iter().all(|b| *b == 0));
    }
    let glass = generate_glass_metallic();
    assert_eq!(glass[0], 180);
    assert_eq!(glass[10 * 256 + 10], 0);
}

#[test]
fn every_layer_is_opaque_and_normals_point_outward() {
    for layer in [
        generate_brick_texture(),
        generate_concrete_texture(),
        generate_glass_texture(),
        generate_metal_texture(),
        generate_painted_texture(),
    ] {
        assert!(layer.chunks(4).all(|t| t[3] == 255));
    }
    for normal in [
        generate_brick_normal(),
        generate_concrete_normal(),
        generate_glass_normal(),
        generate_metal_normal(),
        generate_painted_normal(),
    ] {
        assert!(normal.chunks(4).all(|t| t[2] == 255 && t[3] == 255));
    }
}

#[test]
fn stacking_layers_concatenates_them() {
    let layers = vec![vec![1u8, 2], vec![], vec![3u8, 4, 5]];
    assert_eq!(stack_layers(&layers), vec![1, 2, 3, 4, 5]);
    let array = stack_layers(&vec![generate_glass_height(), generate_metal_height()]);
    assert_eq!(array.len(), 2 * R8_LAYER_BYTES);
    assert_eq!(array[R8_LAYER_BYTES + 256 * 2], 178);
}

#[test]
fn facade_layers_round_trip() {
    let styles = [
        FacadeStyle::Brick,
        FacadeStyle::Concrete,
        FacadeStyle::Glass,
        FacadeStyle::Metal,
        FacadeStyle::Painted,
    ];
    for (i, s) in styles.iter().enumerate() {
        assert_eq!(facade_to_layer(*s), i as u32);
        assert_eq!(layer_to_facade(i as u32), Some(*s));
    }
    assert_eq!(layer_to_facade(NUM_FACADE_TYPES), None);
    assert_eq!(layer_to_facade(99), None);
}

#[test]
fn albedo_array_is_addressed_layer_by_layer() {
    let layers = vec![
        generate_brick_texture(),
        generate_concrete_texture(),
        generate_glass_texture(),
    ];
    let array = stack_layers(&layers);
    assert_eq!(array.len(), 3 * RGBA_LAYER_BYTES);
    for (k, layer) in layers.iter().enumerate() {
        for p in [0usize, 1, 1023, 4096 + 7, RGBA_LAYER_BYTES - 1] {
            assert_eq!(array[k * RGBA_LAYER_BYTES + p], layer[p]);
        }
    }
}
