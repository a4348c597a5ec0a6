use isocitysim::procgen::zoning::{AdjacencyRules, WfcCell, WfcSolver, ZoneSet, ZoneType};
use rand::rngs::StdRng;
use rand::SeedableRng;

#[test]
fn default_rules_keep_industry_away_from_housing_parks_and_civic() {
    let rules = AdjacencyRules::default();
    for z in ZoneType::all() {
        let industrial_ok = *z == ZoneType::Commercial
            || *z == ZoneType::Industrial
            || *z == ZoneType::Empty;
        assert_eq!(rules.is_allowed(ZoneType::Industrial, *z), industrial_ok);
        assert_eq!(rules.is_allowed(*z, ZoneType::Industrial), industrial_ok);
        assert!(rules.is_allowed(ZoneType::Empty, *z));
        assert!(rules.is_allowed(ZoneType::Commercial, *z));
    }
    assert!(rules.is_allowed(ZoneType::Residential, ZoneType::Park));
    assert!(!rules.is_allowed(ZoneType::Park, ZoneType::Industrial));
}

#[test]
fn default_rules_are_symmetric() {
    let rules = AdjacencyRules::default();
    for a in ZoneType::all() {
        for b in ZoneType::all() {
            assert_eq!(rules.is_allowed(*a, *b), rules.is_allowed(*b, *a));
        }
    }
}

#[test]
fn valid_neighbors_follow_canonical_order() {
    let rules = AdjacencyRules::default();
    assert_eq!(
        rules.valid_neighbors(ZoneType::Industrial),
        vec![ZoneType::Commercial, ZoneType::Industrial, ZoneType::Empty]
    );
    assert_eq!(rules.valid_neighbors(ZoneType::Empty), ZoneType::all().to_vec());
    assert_eq!(
        rules.valid_neighbors(ZoneType::Residential),
        vec![
            ZoneType::Residential,
            ZoneType::Commercial,
            ZoneType::Park,
            ZoneType::Civic,
            ZoneType::Empty
        ]
    );
}

#[test]
fn zone_set_operations() {
    let full = ZoneSet::full();
    assert_eq!(full.len(), 6);
    assert_eq!(full.to_vec(), ZoneType::all().to_vec());
    let empty = ZoneSet::empty();
    assert!(empty.is_empty());
    let mut s = ZoneSet::single(ZoneType::Park);
    assert_eq!(s.len(), 1);
    assert!(s.contains(ZoneType::Park));
    assert!(!s.contains(ZoneType::Civic));
    s.insert(ZoneType::Residential);
    s.insert(ZoneType::Residential);
    assert_eq!(s.to_vec(), vec![ZoneType::Residential, ZoneType::Park]);
    let both = s.intersect(&ZoneSet::single(ZoneType::Park));
    assert_eq!(both.to_vec(), vec![ZoneType::Park]);
    let u = s.union(&ZoneSet::single(ZoneType::Empty));
    assert_eq!(u.len(), 3);
    assert_eq!(ZoneSet::empty().intersect(&full).len(), 0);
}

#[test]
fn cell_entropy_counts_open_possibilities() {
    let cell = WfcCell::default();
    assert_eq!(cell.entropy(), 6);
    assert!(!cell.is_collapsed());
    let done = WfcCell { possibilities: ZoneSet::single(ZoneType::Civic), collapsed: Some(ZoneType::Civic) };
    assert_eq!(done.entropy(), 0);
    assert!(done.is_collapsed());
}

#[test]
fn new_solver_has_one_open_cell_per_position() {
    let solver = WfcSolver::new(4, 3);
    assert_eq!(solver.cells.len(), 12);
    assert!(solver.cells.iter().all(|c| c.entropy() == 6));
    assert_eq!(solver.result(), vec![None; 12]);
    assert_eq!(solver.lowest_entropy_candidates(), (0..12).collect::<Vec<usize>>());
}

#[test]
fn collapse_to_choice_picks_in_canonical_order() {
    let mut solver = WfcSolver::new(3, 2);
    solver.collapse_to_choice(4, 2);
    assert_eq!(solver.cells[4].collapsed, Some(ZoneType::Industrial));
    assert_eq!(solver.cells[4].possibilities.to_vec(), vec![ZoneType::Industrial]);
    let candidates = solver.lowest_entropy_candidates();
    assert_eq!(candidates, vec![0, 1, 2, 3, 5]);
    assert_eq!(solver.result()[4], Some(ZoneType::Industrial));
}

#[test]
fn lowest_entropy_prefers_constrained_cells() {
    let mut solver = WfcSolver::new(3, 1);
    solver.cells[2].possibilities = ZoneSet::single(ZoneType::Park);
    let mut two = ZoneSet::single(ZoneType::Park);
    two.insert(ZoneType::Civic);
    solver.cells[0].possibilities = two;
    assert_eq!(solver.lowest_entropy_candidates(), vec![2]);
    solver.cells[2].possibilities = ZoneSet::empty();
    assert_eq!(solver.lowest_entropy_candidates(), vec![0]);
}

fn adjacent_pairs(width: usize, height: usize) -> Vec<(usize, usize)> {
    let mut pairs = Vec::new();
    for y in 0..height {
        for x in 0..width {
            let i = y * width + x;
            if x + 1 < width {
                pairs.push((i, i + 1));
            }
            if y + 1 < height {
                pairs.push((i, i + width));
            }
        }
    }
    pairs
}

#[test]
fn solved_grids_respect_adjacency_rules() {
    let rules = AdjacencyRules::default();
    for seed in 0..40u64 {
        let mut rng = StdRng::seed_from_u64(seed);
        let mut solver = WfcSolver::new(8, 6);
        let ok = solver.solve(&mut rng);
        let result = solver.result();
        if ok {
            assert!(result.iter().all(|z| z.is_some()));
            for (a, b) in adjacent_pairs(8, 6) {
                let za = result[a].unwrap();
                let zb = result[b].unwrap();
                assert!(rules.is_allowed(za, zb), "seed {seed}: {za:?} next to {zb:?}");
                assert!(rules.is_allowed(zb, za));
            }
        } else {
            assert!(solver.cells.iter().any(|c| !c.is_collapsed() && c.possibilities.is_empty()));
        }
    }
}

#[test]
fn solving_an_empty_grid_succeeds() {
    let mut rng = StdRng::seed_from_u64(7);
    let mut solver = WfcSolver::new(0, 5);
    assert!(solver.solve(&mut rng));
    assert!(solver.result().is_empty());
}

#[test]
fn solving_keeps_pre_collapsed_cells() {
    for seed in 0..10u64 {
        let mut rng = StdRng::seed_from_u64(seed);
        let mut solver = WfcSolver::new(5, 5);
        solver.collapse_to_choice(12, 2);
        let ok = solver.solve(&mut rng);
        assert_eq!(solver.cells[12].collapsed, Some(ZoneType::Industrial));
        assert_eq!(solver.cells[12].possibilities.to_vec(), vec![ZoneType::Industrial]);
        if ok {
            assert!(solver.result().iter().all(|z| z.is_some()));
        }
    }
}

#[test]
fn single_row_solves_with_every_seed() {
    for seed in 0..20u64 {
        let mut rng = StdRng::seed_from_u64(seed);
        let mut solver = WfcSolver::new(12, 1);
        assert!(solver.solve(&mut rng));
    }
}

#[test]
fn solving_only_picks_zones_that_were_possible() {
    for seed in 0..20u64 {
        let mut rng = StdRng::seed_from_u64(seed);
        let mut solver = WfcSolver::new(4, 4);
        let mut housing = ZoneSet::single(ZoneType::Residential);
        housing.insert(ZoneType::Park);
        for i in [0usize, 5, 10, 15] {
            solver.cells[i].possibilities = housing;
        }
        let before: Vec<ZoneSet> = solver.cells.iter().map(|c| c.possibilities).collect();
        let ok = solver.solve(&mut rng);
        for (i, cell) in solver.cells.iter().enumerate() {
            for z in cell.possibilities.to_vec() {
                assert!(before[i].contains(z), "seed {seed}: cell {i} gained {z:?}");
            }
            if let Some(z) = cell.collapsed {
                assert!(before[i].contains(z));
            }
        }
        if ok {
            for i in [0usize, 5, 10, 15] {
                let z = solver.cells[i].collapsed.unwrap();
                assert!(z == ZoneType::Residential || z == ZoneType::Park);
            }
        }
    }
}

fn grid_neighbors(width: usize, height: usize, i: usize) -> Vec<usize> {
    let (x, y) = (i % width, i / width);
    let mut r = Vec::new();
    if x > 0 {
        r.push(i - 1);
    }
    if x + 1 < width {
        r.push(i + 1);
    }
    if y > 0 {
        r.push(i - width);
    }
    if y + 1 < height {
        r.push(i + width);
    }
    r
}

#[test]
fn failed_solve_ends_at_a_forced_contradiction() {
    let rules = AdjacencyRules::default();
    for seed in 0..10u64 {
        let mut rng = StdRng::seed_from_u64(seed);
        let mut solver = WfcSolver::new(3, 1);
        solver.cells[0].possibilities = ZoneSet::single(ZoneType::Industrial);
        solver.cells[2].possibilities = ZoneSet::single(ZoneType::Residential);
        let mut middle = ZoneSet::single(ZoneType::Park);
        middle.insert(ZoneType::Civic);
        solver.cells[1].possibilities = middle;
        let before: Vec<ZoneSet> = solver.cells.iter().map(|c| c.possibilities).collect();
        assert!(!solver.solve(&mut rng));
        let mut found_empty = false;
        for (j, cell) in solver.cells.iter().enumerate() {
            if cell.is_collapsed() {
                continue;
            }
            if cell.possibilities.is_empty() {
                found_empty = true;
            }
            for z in before[j].to_vec() {
                if cell.possibilities.contains(z) {
                    continue;
                }
                let forced = grid_neighbors(3, 1, j).into_iter().any(|n| {
                    solver.cells[n]
                        .possibilities
                        .to_vec()
                        .into_iter()
                        .all(|s| !rules.is_allowed(s, z))
                });
                assert!(forced, "seed {seed}: cell {j} lost {z:?} without cause");
            }
        }
        assert!(found_empty);
    }
}
