use isocitysim::render::hzb::{calculate_mip_count, HzbGenerateUniforms, HzbPyramid, HzbPyramidConfig};

#[test]
fn test_mip_count_calculation() {
    assert_eq!(calculate_mip_count(1, 1), 1);
    assert_eq!(calculate_mip_count(2, 2), 2);
    assert_eq!(calculate_mip_count(4, 4), 3);
    assert_eq!(calculate_mip_count(1024, 1024), 11);
    assert_eq!(calculate_mip_count(1920, 1080), 11);
}

#[test]
fn mip_count_edge_cases() {
    assert_eq!(calculate_mip_count(0, 0), 1);
    assert_eq!(calculate_mip_count(3, 1), 2);
    assert_eq!(calculate_mip_count(1, 2047), 11);
    assert_eq!(calculate_mip_count(2048, 7), 12);
    assert_eq!(calculate_mip_count(u32::MAX, 0), 32);
}

#[test]
fn config_mip_sizes_and_counts() {
    let config = HzbPyramidConfig::default();
    assert_eq!((config.base_width, config.base_height, config.max_mip_levels), (1920, 1080, 10));
    assert_eq!(config.mip_count(), 10);
    assert_eq!(config.mip_size(0), (1920, 1080));
    assert_eq!(config.mip_size(1), (960, 540));
    assert_eq!(config.mip_size(4), (120, 67));
    assert_eq!(config.mip_size(11), (1, 1));
    assert_eq!(config.mip_size(31), (1, 1));
    let window = HzbPyramidConfig::from_window(1024, 512);
    assert_eq!(window.max_mip_levels, 11);
    assert_eq!(window.mip_count(), 11);
}

#[test]
fn pyramid_tracks_resolution_and_frames() {
    let mut pyramid: HzbPyramid<u32> = HzbPyramid::with_default_config();
    assert!(pyramid.dirty);
    assert_eq!(pyramid.dimensions(), (1920, 1080));
    assert_eq!(pyramid.mip_count(), 10);
    assert_eq!(pyramid.query_texture(), None);

    pyramid.dirty = false;
    pyramid.update_config(1920, 1080);
    assert!(!pyramid.dirty);
    pyramid.update_config(800, 600);
    assert!(pyramid.dirty);
    assert_eq!(pyramid.dimensions(), (800, 600));
    assert_eq!(pyramid.mip_count(), 10);

    pyramid.texture = Some(5);
    assert_eq!(pyramid.query_texture(), Some(&5));
    pyramid.advance_frame();
    assert_eq!(pyramid.frame_index, 1);
    assert_eq!(pyramid.texture, None);
    assert_eq!(pyramid.previous_frame, Some(5));
    assert_eq!(pyramid.query_texture(), Some(&5));
    pyramid.texture = Some(6);
    assert_eq!(pyramid.query_texture(), Some(&5));
    pyramid.advance_frame();
    assert_eq!(pyramid.texture, Some(5));
    assert_eq!(pyramid.previous_frame, Some(6));
    pyramid.frame_index = u32::MAX;
    pyramid.advance_frame();
    assert_eq!(pyramid.frame_index, 0);
}

#[test]
fn generate_uniforms_carry_pass_sizes() {
    let u = HzbGenerateUniforms::new(1920, 1080, 960, 540, 0, 1);
    assert_eq!(u.input_size, [1920, 1080]);
    assert_eq!(u.output_size, [960, 540]);
    assert_eq!((u.src_mip, u.dst_mip), (0, 1));
    assert_eq!(u._padding, [0, 0]);
}

#[test]
fn full_chain_ends_at_one_texel() {
    for (w, h) in [(1920u32, 1080u32), (1, 1), (0, 0), (7, 300), (1024, 1024), (4096, 3)] {
        let config = HzbPyramidConfig::from_window(w, h);
        let levels = calculate_mip_count(w, h);
        assert_eq!(config.mip_size(levels - 1), (1, 1));
        if levels >= 2 {
            let (a, b) = config.mip_size(levels - 2);
            assert!(a.max(b) >= 2);
        }
    }
    let config = HzbPyramidConfig::from_window(1920, 1080);
    assert_eq!(config.mip_size(9), (3, 2));
    assert_eq!(config.mip_size(10), (1, 1));
}
