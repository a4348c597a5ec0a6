use isocitysim::render::celestial::{draw_star, next_star_seed, star_sample_bits};
use isocitysim::render::object_data::workgroup_count;

#[test]
fn star_generator_steps() {
    assert_eq!(next_star_seed(42), 9039304369631583587);
    assert_eq!(next_star_seed(0), 1);
    assert_eq!(next_star_seed(u64::MAX), 1u64.wrapping_sub(6364136223846793005));
    assert_eq!(star_sample_bits(u64::MAX), 0x7fff_ffff);
    assert_eq!(star_sample_bits(0x2_0000_0000), 1);
}

#[test]
fn star_draws_from_seed_42() {
    let (seed, draws) = draw_star(42);
    assert_eq!(seed, 459824130525332694);
    assert_eq!(draws, [1052313527, 1006665568, 1203072297, 53530574]);
}

#[test]
fn workgroups_cover_all_objects() {
    assert_eq!(workgroup_count(0), 0);
    assert_eq!(workgroup_count(1), 1);
    assert_eq!(workgroup_count(64), 1);
    assert_eq!(workgroup_count(65), 2);
    assert_eq!(workgroup_count(u32::MAX - 63), 67108863);
}
