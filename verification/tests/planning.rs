use isocitysim::procgen::building_factory::{
    floor_range, floors_from_roll, map_zone_to_archetype, roll_floors, BuildingArchetype, BuildingShape,
    FacadeStyle,
};
use isocitysim::procgen::lot_engine::{schedule_next_review, review_window_days, DensityTier, ZoneType};
use isocitysim::render::building_faces::{choose_balcony_faces, face_order, pick_face_indices, shuffled_face_indices};
use isocitysim::render::building_instances::{
    archetype_to_index, facade_to_index, shape_to_index, BuildingMaterialPalette,
};
use isocitysim::render::construction_sites::zone_to_archetype;
use rand::rngs::StdRng;
use rand::{Rng, SeedableRng};

#[test]
fn zones_map_to_archetypes() {
    assert_eq!(map_zone_to_archetype(ZoneType::Residential), BuildingArchetype::Residential);
    assert_eq!(map_zone_to_archetype(ZoneType::Commercial), BuildingArchetype::Commercial);
    assert_eq!(map_zone_to_archetype(ZoneType::Civic), BuildingArchetype::Commercial);
    assert_eq!(map_zone_to_archetype(ZoneType::Industrial), BuildingArchetype::Industrial);
    assert_eq!(map_zone_to_archetype(ZoneType::Green), BuildingArchetype::Residential);
    assert_eq!(zone_to_archetype(ZoneType::Green), BuildingArchetype::Commercial);
    assert_eq!(zone_to_archetype(ZoneType::Civic), BuildingArchetype::Commercial);
    assert_eq!(zone_to_archetype(ZoneType::Industrial), BuildingArchetype::Industrial);
    assert_eq!(zone_to_archetype(ZoneType::Residential), BuildingArchetype::Residential);
}

#[test]
fn floor_ranges_by_density() {
    assert_eq!(floor_range(BuildingArchetype::Commercial, DensityTier::Low), (1, 4));
    assert_eq!(floor_range(BuildingArchetype::Industrial, DensityTier::Medium), (3, 9));
    assert_eq!(floor_range(BuildingArchetype::Commercial, DensityTier::High), (8, 22));
    assert_eq!(floor_range(BuildingArchetype::Industrial, DensityTier::High), (4, 12));
    assert_eq!(floor_range(BuildingArchetype::Residential, DensityTier::High), (6, 14));
}

#[test]
fn floors_from_rolls() {
    assert_eq!(floors_from_roll(1, 4, true, 1), 1);
    assert_eq!(floors_from_roll(3, 9, true, 9), 8);
    assert_eq!(floors_from_roll(3, 9, false, 9), 9);
    assert_eq!(floors_from_roll(6, 4, true, 6), 6);
    assert_eq!(floors_from_roll(0, 3, true, 0), 0);
}

#[test]
fn rolled_floors_stay_in_range() {
    let mut rng = StdRng::seed_from_u64(3);
    for _ in 0..200 {
        let f = roll_floors(3, 9, false, &mut rng);
        assert!((3..=9).contains(&f));
        let g = roll_floors(3, 9, true, &mut rng);
        assert!((3..=8).contains(&g));
        assert_eq!(roll_floors(6, 2, true, &mut rng), 6);
    }
}

#[test]
fn reviews_fall_in_density_windows() {
    assert_eq!(review_window_days(DensityTier::High), (15, 45));
    assert_eq!(review_window_days(DensityTier::Medium), (30, 90));
    assert_eq!(review_window_days(DensityTier::Low), (60, 150));
    let mut rng = StdRng::seed_from_u64(42);
    for _ in 0..200 {
        assert!((15..=45).contains(&schedule_next_review(DensityTier::High, &mut rng)));
        assert!((30..=90).contains(&schedule_next_review(DensityTier::Medium, &mut rng)));
        assert!((60..=150).contains(&schedule_next_review(DensityTier::Low, &mut rng)));
    }
}

#[test]
fn face_choices_are_distinct() {
    for seed in 0..50u64 {
        let mut rng = StdRng::seed_from_u64(seed);
        let mut order = shuffled_face_indices(&mut rng);
        order.sort();
        assert_eq!(order, vec![0, 1, 2, 3]);
        let faces = choose_balcony_faces(&mut rng);
        assert!(faces.len() == 1 || faces.len() == 2);
        assert!(faces.iter().all(|f| *f < 4));
        if faces.len() == 2 {
            assert_ne!(faces[0], faces[1]);
        }
        let three = pick_face_indices(&mut rng, 3);
        assert_eq!(three.len(), 3);
        assert!(three[0] != three[1] && three[1] != three[2] && three[0] != three[2]);
        assert!(pick_face_indices(&mut rng, 0).is_empty());
    }
}

#[test]
fn shader_indices() {
    assert_eq!(facade_to_index(FacadeStyle::Brick), 0);
    assert_eq!(facade_to_index(FacadeStyle::Painted), 4);
    assert_eq!(archetype_to_index(BuildingArchetype::Industrial), 2);
    assert_eq!(shape_to_index(BuildingShape::Box), 0);
    assert_eq!(shape_to_index(BuildingShape::LShape), 1);
    assert_eq!(shape_to_index(BuildingShape::TowerOnBase), 2);
    assert_eq!(shape_to_index(BuildingShape::Stepped), 3);
}

#[test]
fn palette_variants_wrap() {
    let mut palette: BuildingMaterialPalette<u32> = BuildingMaterialPalette::new();
    palette.brick = vec![10, 11, 12];
    palette.glass = vec![7];
    assert_eq!(palette.get(FacadeStyle::Brick, 0), Some(10));
    assert_eq!(palette.get(FacadeStyle::Brick, 4), Some(11));
    assert_eq!(palette.get(FacadeStyle::Glass, 99), Some(7));
}

#[test]
fn face_order_applies_the_drawn_swaps() {
    assert_eq!(face_order(&[3, 2, 1]), vec![0, 1, 2, 3]);
    assert_eq!(face_order(&[0, 0, 0]), vec![1, 2, 3, 0]);
    assert_eq!(face_order(&[1, 2, 0]), vec![3, 0, 2, 1]);
}

#[test]
fn shuffle_matches_the_draws_it_makes() {
    for seed in 0..20u64 {
        let mut a = StdRng::seed_from_u64(seed);
        let mut b = StdRng::seed_from_u64(seed);
        let draws = [b.gen_range(0..=3usize), b.gen_range(0..=2usize), b.gen_range(0..=1usize)];
        assert_eq!(shuffled_face_indices(&mut a), face_order(&draws));
    }
}
