use rand::rngs::StdRng;
use rand::SeedableRng;
use wave_terrain::adjacency::{AdjacencyRule, Adjacents, GenerationRule, TerrainModule};
use wave_terrain::grid::{Grid, Placement, Position};
use wave_terrain::terrain::{GenerationType, Terrain, TerrainWarning};

fn rule(
    north: Option<Vec<u32>>,
    south: Option<Vec<u32>>,
    east: Option<Vec<u32>>,
    west: Option<Vec<u32>>,
    isolated: bool,
) -> AdjacencyRule {
    AdjacencyRule { north, south, east, west, isolated }
}

fn always() -> AdjacencyRule {
    rule(None, None, None, None, true)
}

fn never() -> AdjacencyRule {
    rule(Some(vec![]), Some(vec![]), Some(vec![]), Some(vec![]), false)
}

fn only_next_to(ids: Vec<u32>) -> AdjacencyRule {
    rule(Some(ids.clone()), Some(ids.clone()), Some(ids.clone()), Some(ids), true)
}

fn module(generation_rule: AdjacencyRule, id: u32) -> TerrainModule<AdjacencyRule> {
    TerrainModule { generation_rule, id, payload: id as u64 * 10 }
}

fn snapshot(grid: &Grid) -> Vec<Option<Placement>> {
    let mut cells = vec![];
    for y in 0..grid.height() {
        for x in 0..grid.width() {
            cells.push(grid.get(Position { x, y }));
        }
    }
    cells
}

/// Steps until finished (at most `limit` steps); gives the snapshots after each step.
fn run(t: &mut Terrain<AdjacencyRule>, rng: &mut StdRng, limit: usize) -> Vec<Vec<Option<Placement>>> {
    let mut seen = vec![];
    for _ in 0..limit {
        let done = t.step(rng);
        seen.push(snapshot(t.grid()));
        if done {
            return seen;
        }
    }
    panic!("the run did not finish");
}

fn mixed_catalog(width: u32, height: u32) -> Terrain<AdjacencyRule> {
    Terrain::new(GenerationType::WaveCollapse, width, height)
        .with_module(module(rule(Some(vec![1, 2]), None, Some(vec![2]), None, true), 1))
        .with_module(module(rule(None, Some(vec![1, 3]), None, Some(vec![1, 3]), true), 2))
        .with_module(module(rule(Some(vec![2]), Some(vec![2]), None, None, false), 3))
}

#[test]
fn empty_catalog_finishes_with_warning() {
    let mut t: Terrain<AdjacencyRule> = Terrain::new(GenerationType::WaveCollapse, 5, 5);
    let mut rng = StdRng::seed_from_u64(1);
    assert!(t.step(&mut rng));
    assert!(t.is_finished());
    assert_eq!(t.grid().count(), 0);
    assert_eq!(t.warnings(), &vec![TerrainWarning::NoModules]);
}

#[test]
fn unconstrained_module_fills_grid() {
    let mut t = Terrain::new(GenerationType::WaveCollapse, 3, 3).with_module(module(always(), 1));
    let mut rng = StdRng::seed_from_u64(2);
    for _ in 0..100 {
        let done = t.step(&mut rng);
        assert_eq!(t.stalemates(), 0);
        if done {
            break;
        }
    }
    assert!(t.is_finished());
    assert_eq!(t.grid().count(), 9);
    assert!(t.grid().is_full());
    for cell in snapshot(t.grid()) {
        assert_eq!(cell.unwrap().id, 1);
    }
    assert!(t.warnings().is_empty());
}

#[test]
fn checkerboard_tiles_without_stalemate() {
    for seed in 0..20 {
        let mut t = Terrain::new(GenerationType::WaveCollapse, 6, 4)
            .with_module(module(only_next_to(vec![2]), 1))
            .with_module(module(only_next_to(vec![1]), 2));
        let mut rng = StdRng::seed_from_u64(seed);
        for _ in 0..100 {
            let done = t.step(&mut rng);
            assert_eq!(t.stalemates(), 0);
            if done {
                break;
            }
        }
        assert!(t.is_finished());
        assert_eq!(t.grid().count(), 24);
        let g = t.grid();
        let origin = g.get(Position { x: 0, y: 0 }).unwrap().id;
        for y in 0..4u32 {
            for x in 0..6u32 {
                let id = g.get(Position { x, y }).unwrap().id;
                if (x + y) % 2 == 0 {
                    assert_eq!(id, origin);
                } else {
                    assert_ne!(id, origin);
                }
            }
        }
        assert!(t.warnings().is_empty());
    }
}

#[test]
fn unsatisfiable_catalog_exhausts_recovery() {
    let mut t = Terrain::new(GenerationType::WaveCollapse, 4, 4).with_module(module(never(), 7));
    let mut rng = StdRng::seed_from_u64(3);
    assert!(!t.step(&mut rng));
    assert_eq!(t.grid().count(), 1);
    assert!(!t.step(&mut rng));
    let mut visits = 0u32;
    loop {
        let done = t.step(&mut rng);
        visits += 1;
        assert_eq!(t.stalemates(), visits);
        if done {
            break;
        }
        assert!(visits <= 11);
    }
    assert_eq!(visits, 11);
    assert_eq!(t.grid().count(), 1);
    assert_eq!(t.warnings(), &vec![TerrainWarning::StalemateExhausted]);
}

#[test]
fn same_seed_same_run() {
    for seed in [5u64, 17, 99] {
        let mut a = mixed_catalog(7, 5);
        let mut b = mixed_catalog(7, 5);
        let seen_a = run(&mut a, &mut StdRng::seed_from_u64(seed), 500);
        let seen_b = run(&mut b, &mut StdRng::seed_from_u64(seed), 500);
        assert_eq!(seen_a, seen_b);
        assert_eq!(a.warnings(), b.warnings());
    }
}

#[test]
fn finished_run_is_full_or_exhausted() {
    for seed in 0..30u64 {
        let mut t = mixed_catalog(5, 5);
        run(&mut t, &mut StdRng::seed_from_u64(seed), 1000);
        let count = t.grid().count();
        let exhausted = t.warnings().contains(&TerrainWarning::StalemateExhausted);
        assert!(count == 25 || (exhausted && count < 25));
    }
}

#[test]
fn placed_cells_never_change() {
    for seed in 0..10u64 {
        let mut t = mixed_catalog(6, 6);
        let seen = run(&mut t, &mut StdRng::seed_from_u64(seed), 1000);
        for w in seen.windows(2) {
            for (before, after) in w[0].iter().zip(w[1].iter()) {
                if before.is_some() {
                    assert_eq!(before, after);
                }
            }
        }
    }
}

#[test]
fn seed_lies_inside_grid_and_catalog() {
    let mut positions = vec![];
    for seed in 0..40u64 {
        let mut t = Terrain::new(GenerationType::WaveCollapse, 3, 2)
            .with_module(module(never(), 4))
            .with_module(module(never(), 5));
        t.step(&mut StdRng::seed_from_u64(seed));
        let cells = snapshot(t.grid());
        let placed: Vec<(usize, Placement)> =
            cells.iter().enumerate().filter_map(|(i, c)| c.map(|p| (i, p))).collect();
        assert_eq!(placed.len(), 1);
        let (i, p) = placed[0];
        assert!(p.module < 2);
        assert_eq!(p.id, [4, 5][p.module]);
        positions.push(i);
    }
    positions.sort();
    positions.dedup();
    assert!(positions.len() > 1);
}

#[test]
fn recovery_places_an_allowed_module() {
    // Module 1 only stands alone; nothing may stand next to anything, so the
    // only placements after the seed come from recovery on isolated cells.
    let mut t = Terrain::new(GenerationType::WaveCollapse, 5, 1)
        .with_module(module(rule(Some(vec![]), Some(vec![]), Some(vec![]), Some(vec![]), true), 1));
    let mut rng = StdRng::seed_from_u64(11);
    let seen = run(&mut t, &mut rng, 1000);
    let last = seen.last().unwrap();
    for x in 0..5usize {
        if let Some(p) = last[x] {
            assert_eq!(p.id, 1);
            if x + 1 < 5 {
                assert!(last[x + 1].is_none());
            }
        }
    }
    assert!(t.grid().count() >= 2);
    assert!(t.grid().count() <= 3);
}

#[test]
fn zero_area_finishes_empty() {
    let mut t = Terrain::new(GenerationType::WaveCollapse, 0, 5).with_module(module(always(), 1));
    assert!(t.step(&mut StdRng::seed_from_u64(4)));
    assert_eq!(t.grid().count(), 0);
    assert!(t.warnings().is_empty());
}

#[test]
fn finished_stays_finished() {
    let mut t: Terrain<AdjacencyRule> = Terrain::default();
    let mut rng = StdRng::seed_from_u64(6);
    assert!(t.step(&mut rng));
    assert!(t.step(&mut rng));
    assert_eq!(t.warnings(), &vec![TerrainWarning::NoModules]);
    assert_eq!(t.generation_type(), GenerationType::WaveCollapse);
    assert_eq!(t.modules().len(), 0);
    let g = t.into_grid();
    assert_eq!(g.width(), 0);
}

struct NorthOf(u32);

impl GenerationRule for NorthOf {
    fn allows(&self, adj: Adjacents) -> bool {
        self.evaluate(&adj)
    }

    fn evaluate(&self, adj: &Adjacents) -> bool {
        adj.n.map_or(true, |id| id == self.0)
    }
}

#[test]
fn caller_defined_rule_drives_generation() {
    let mut t = Terrain::new(GenerationType::WaveCollapse, 1, 4)
        .with_module(TerrainModule { generation_rule: NorthOf(3), id: 3, payload: 0 });
    let mut rng = StdRng::seed_from_u64(8);
    for _ in 0..50 {
        if t.step(&mut rng) {
            break;
        }
    }
    assert!(t.is_finished());
    assert_eq!(t.grid().count(), 4);
}
