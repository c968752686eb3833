use voxel_life::grid::Grid;
use voxel_life::lattice::{neighbor_count, Coord};
use voxel_life::probability::{Probability, RandomizeGridEvent};
use voxel_life::rule::{CellState, LifeError, Rule};
use voxel_life::simulation::Simulation;
use voxel_life::ticker::TickScheduler;

fn demo_rule() -> Rule {
    Rule::new(12, 17, 12, 17, Some(4)).unwrap()
}

fn c(x: i32, y: i32, z: i32) -> Coord {
    Coord::new(x, y, z)
}

fn count_alive(g: &Grid) -> usize {
    let mut n = 0;
    for x in 0..g.nx() {
        for y in 0..g.ny() {
            for z in 0..g.nz() {
                if g.get(c(x, y, z)) == Ok(CellState::Alive) {
                    n += 1;
                }
            }
        }
    }
    n
}

fn neighbour_offsets() -> Vec<(i32, i32, i32)> {
    let mut v = Vec::new();
    for dx in -1..=1 {
        for dy in -1..=1 {
            for dz in -1..=1 {
                if (dx, dy, dz) != (0, 0, 0) {
                    v.push((dx, dy, dz));
                }
            }
        }
    }
    v
}

#[test]
fn rule_new_refuses_inverted_ranges() {
    assert_eq!(Rule::new(18, 12, 12, 17, None).unwrap_err(), LifeError::InvertedSurvivalRange);
    assert_eq!(Rule::new(12, 17, 17, 12, Some(4)).unwrap_err(), LifeError::InvertedBirthRange);
    assert_eq!(Rule::new(18, 12, 17, 12, None).unwrap_err(), LifeError::InvertedSurvivalRange);
    assert!(Rule::new(12, 12, 4, 4, None).is_ok());
}

#[test]
fn rule_next_state_table() {
    let r = demo_rule();
    assert_eq!(r.next_state(CellState::Alive, 11), CellState::Dead);
    assert_eq!(r.next_state(CellState::Alive, 12), CellState::Alive);
    assert_eq!(r.next_state(CellState::Alive, 17), CellState::Alive);
    assert_eq!(r.next_state(CellState::Alive, 18), CellState::Dead);
    assert_eq!(r.next_state(CellState::Dead, 3), CellState::Dead);
    assert_eq!(r.next_state(CellState::Dead, 4), CellState::Alive);
    assert_eq!(r.next_state(CellState::Dead, 5), CellState::Dead);
    assert_eq!(r.next_state(CellState::Dead, 12), CellState::Alive);
    assert_eq!(r.next_state(CellState::Dead, 17), CellState::Alive);
    assert_eq!(r.next_state(CellState::Dead, 18), CellState::Dead);
    assert_eq!(r.next_state(CellState::Dead, 0), CellState::Dead);
}

#[test]
fn grid_new_is_all_dead() {
    let g = Grid::new(4, 5, 6, demo_rule()).unwrap();
    assert_eq!(g.cell_count(), 120);
    assert_eq!((g.nx(), g.ny(), g.nz()), (4, 5, 6));
    assert_eq!(count_alive(&g), 0);
}

#[test]
fn grid_new_refuses_bad_dimensions() {
    assert_eq!(Grid::new(0, 3, 3, demo_rule()).err(), Some(LifeError::NonPositiveDimension));
    assert_eq!(Grid::new(3, -1, 3, demo_rule()).err(), Some(LifeError::NonPositiveDimension));
    assert_eq!(Grid::new(3, 3, 0, demo_rule()).err(), Some(LifeError::NonPositiveDimension));
    assert_eq!(
        Grid::new(i32::MAX, i32::MAX, i32::MAX, demo_rule()).err(),
        Some(LifeError::GridTooLarge)
    );
}

#[test]
fn get_and_set_report_out_of_bounds() {
    let mut g = Grid::new(3, 3, 3, demo_rule()).unwrap();
    assert_eq!(g.get(c(3, 0, 0)), Err(LifeError::OutOfBounds));
    assert_eq!(g.get(c(0, -1, 0)), Err(LifeError::OutOfBounds));
    assert_eq!(g.set(c(0, 0, 3), CellState::Alive), Err(LifeError::OutOfBounds));
    assert_eq!(count_alive(&g), 0);
    assert_eq!(g.set(c(2, 1, 0), CellState::Alive), Ok(()));
    assert_eq!(g.get(c(2, 1, 0)), Ok(CellState::Alive));
    assert_eq!(g.get(c(1, 2, 0)), Ok(CellState::Dead));
    assert_eq!(count_alive(&g), 1);
}

#[test]
fn step_is_synchronous() {
    // Survive on exactly 2, born on exactly 1. Evaluated in place from x = 0
    // upwards, the row would end all dead; against the snapshot the third
    // cell is born.
    let rule = Rule::new(2, 2, 1, 1, None).unwrap();
    let mut g = Grid::new(3, 1, 1, rule).unwrap();
    g.set(c(0, 0, 0), CellState::Alive).unwrap();
    g.set(c(1, 0, 0), CellState::Alive).unwrap();
    let changed = g.step();
    assert_eq!(changed, vec![c(0, 0, 0), c(1, 0, 0), c(2, 0, 0)]);
    assert_eq!(g.get(c(0, 0, 0)), Ok(CellState::Dead));
    assert_eq!(g.get(c(1, 0, 0)), Ok(CellState::Dead));
    assert_eq!(g.get(c(2, 0, 0)), Ok(CellState::Alive));
}

#[test]
fn dead_cell_with_four_neighbours_is_born() {
    let mut g = Grid::new(5, 5, 5, demo_rule()).unwrap();
    let offs = neighbour_offsets();
    for &(dx, dy, dz) in offs.iter().take(4) {
        g.set(c(2 + dx, 2 + dy, 2 + dz), CellState::Alive).unwrap();
    }
    let live = g.live_set();
    assert_eq!(neighbor_count(&live, c(2, 2, 2)), 4);
    g.step();
    assert_eq!(g.get(c(2, 2, 2)), Ok(CellState::Alive));
}

#[test]
fn alive_cell_with_eighteen_neighbours_dies() {
    let mut g = Grid::new(5, 5, 5, demo_rule()).unwrap();
    g.set(c(2, 2, 2), CellState::Alive).unwrap();
    let offs = neighbour_offsets();
    for &(dx, dy, dz) in offs.iter().take(18) {
        g.set(c(2 + dx, 2 + dy, 2 + dz), CellState::Alive).unwrap();
    }
    let live = g.live_set();
    assert_eq!(neighbor_count(&live, c(2, 2, 2)), 18);
    g.step();
    assert_eq!(g.get(c(2, 2, 2)), Ok(CellState::Dead));
}

#[test]
fn alive_cell_with_seventeen_neighbours_survives() {
    let mut g = Grid::new(5, 5, 5, demo_rule()).unwrap();
    g.set(c(2, 2, 2), CellState::Alive).unwrap();
    let offs = neighbour_offsets();
    for &(dx, dy, dz) in offs.iter().take(17) {
        g.set(c(2 + dx, 2 + dy, 2 + dz), CellState::Alive).unwrap();
    }
    g.step();
    assert_eq!(g.get(c(2, 2, 2)), Ok(CellState::Alive));
}

#[test]
fn neighbour_count_bounds_and_isolation() {
    let one = Probability::new(1, 1).unwrap();
    let mut full = Grid::new(3, 3, 3, demo_rule()).unwrap();
    full.reseed(one);
    let live = full.live_set();
    assert_eq!(neighbor_count(&live, c(1, 1, 1)), 26);
    // Only in-bounds neighbours are seen: no wrap-around at the border.
    assert_eq!(neighbor_count(&live, c(0, 0, 0)), 7);
    assert_eq!(neighbor_count(&live, c(2, 2, 2)), 7);
    assert_eq!(neighbor_count(&live, c(0, 1, 1)), 17);
    assert_eq!(neighbor_count(&live, c(0, 0, 1)), 11);
    assert_eq!(neighbor_count(&live, c(-1, -1, -1)), 1);
    assert_eq!(neighbor_count(&live, c(5, 5, 5)), 0);

    let mut sparse = Grid::new(6, 6, 6, demo_rule()).unwrap();
    sparse.set(c(1, 1, 1), CellState::Alive).unwrap();
    sparse.set(c(4, 4, 4), CellState::Alive).unwrap();
    let live = sparse.live_set();
    assert_eq!(neighbor_count(&live, c(1, 1, 1)), 0);
    assert_eq!(neighbor_count(&live, c(4, 4, 4)), 0);
    assert_eq!(neighbor_count(&live, c(2, 2, 2)), 1);
    assert_eq!(neighbor_count(&live, c(3, 3, 3)), 1);
    assert_eq!(neighbor_count(&live, c(2, 2, 1)), 1);
    assert_eq!(neighbor_count(&live, c(2, 2, 3)), 0);
}

#[test]
fn neighbour_relation_is_symmetric() {
    let mut g = Grid::new(4, 4, 4, demo_rule()).unwrap();
    g.set(c(1, 2, 3), CellState::Alive).unwrap();
    let a = g.live_set();
    let mut h = Grid::new(4, 4, 4, demo_rule()).unwrap();
    h.set(c(2, 3, 2), CellState::Alive).unwrap();
    let b = h.live_set();
    assert_eq!(neighbor_count(&a, c(2, 3, 2)), neighbor_count(&b, c(1, 2, 3)));
    assert_eq!(neighbor_count(&a, c(3, 3, 3)), 0);
    assert_eq!(neighbor_count(&a, c(3, 3, 3)), neighbor_count(&b, c(3, 3, 3)) - 1);
}

#[test]
fn corner_border_on_three_cube() {
    let one = Probability::new(1, 1).unwrap();
    let rule = Rule::new(7, 7, 26, 26, None).unwrap();
    let mut g = Grid::new(3, 3, 3, rule).unwrap();
    g.reseed(one);
    g.step();
    // Exactly the eight corners have 7 neighbours.
    assert_eq!(count_alive(&g), 8);
    assert_eq!(g.get(c(0, 0, 0)), Ok(CellState::Alive));
    assert_eq!(g.get(c(2, 0, 2)), Ok(CellState::Alive));
    assert_eq!(g.get(c(1, 0, 0)), Ok(CellState::Dead));
}

#[test]
fn empty_grid_stays_empty() {
    for rule in [demo_rule(), Rule::new(12, 18, 12, 17, Some(4)).unwrap(), Rule::new(0, 26, 1, 26, None).unwrap()] {
        let mut g = Grid::new(4, 3, 5, rule).unwrap();
        for _ in 0..5 {
            g.step();
            assert_eq!(count_alive(&g), 0);
        }
    }
}

#[test]
fn step_twice_on_dead_grid_is_dead() {
    let mut g = Grid::new(6, 6, 6, demo_rule()).unwrap();
    assert!(g.step().is_empty());
    assert_eq!(count_alive(&g), 0);
    assert!(g.step().is_empty());
    assert_eq!(count_alive(&g), 0);
}

#[test]
fn reseed_extremes() {
    let zero = Probability::new(0, 1).unwrap();
    let one = Probability::new(7, 7).unwrap();
    for (nx, ny, nz) in [(1, 1, 1), (2, 3, 4), (10, 10, 10), (45, 1, 2)] {
        let mut g = Grid::new(nx, ny, nz, demo_rule()).unwrap();
        g.reseed(one);
        assert_eq!(count_alive(&g), (nx * ny * nz) as usize);
        g.reseed(zero);
        assert_eq!(count_alive(&g), 0);
        g.randomize(&RandomizeGridEvent::new(one));
        assert_eq!(count_alive(&g), (nx * ny * nz) as usize);
    }
}

#[test]
fn reseed_with_fraction_gives_mixed_grid() {
    let half = Probability::new(1, 2).unwrap();
    let mut g = Grid::new(20, 20, 20, demo_rule()).unwrap();
    g.reseed(half);
    let n = count_alive(&g);
    assert!(n > 3000 && n < 5000, "{}", n);
}

#[test]
fn probability_new_refuses_out_of_range() {
    assert_eq!(Probability::new(1, 0).err().map(|e| e), Some(LifeError::ProbabilityOutOfRange));
    assert_eq!(Probability::new(0, 0).err(), Some(LifeError::ProbabilityOutOfRange));
    assert_eq!(Probability::new(3, 2).err(), Some(LifeError::ProbabilityOutOfRange));
    let p = Probability::new(15, 100).unwrap();
    assert_eq!((p.numerator(), p.denominator()), (15, 100));
}

#[test]
fn probability_admits_below_threshold() {
    let half = Probability::new(1, 2).unwrap();
    assert!(half.admits_sample(0));
    assert!(half.admits_sample(0x7fff_ffff));
    assert!(!half.admits_sample(0x8000_0000));
    assert!(!half.admits_sample(u32::MAX));
    let zero = Probability::new(0, 5).unwrap();
    assert!(!zero.admits_sample(0));
    let one = Probability::new(5, 5).unwrap();
    assert!(one.admits_sample(u32::MAX));
}

#[test]
fn fill_from_samples_follows_table_order() {
    let half = Probability::new(1, 2).unwrap();
    let mut g = Grid::new(2, 1, 2, demo_rule()).unwrap();
    let samples = vec![0u32, u32::MAX, 0x8000_0000, 5];
    g.fill_from_samples(&samples, half);
    assert_eq!(g.get(c(0, 0, 0)), Ok(CellState::Alive));
    assert_eq!(g.get(c(0, 0, 1)), Ok(CellState::Dead));
    assert_eq!(g.get(c(1, 0, 0)), Ok(CellState::Dead));
    assert_eq!(g.get(c(1, 0, 1)), Ok(CellState::Alive));
}

#[test]
fn ticker_carries_excess_forward() {
    let mut t = TickScheduler::new(100_000_000).unwrap();
    assert_eq!(t.poll(40_000_000), 0);
    assert_eq!(t.poll(40_000_000), 0);
    assert_eq!(t.poll(40_000_000), 1);
    assert_eq!(t.accumulated_nanos(), 20_000_000);
    assert_eq!(t.interval_nanos(), 100_000_000);
}

#[test]
fn ticker_fires_every_elapsed_interval() {
    let mut t = TickScheduler::new(100).unwrap();
    assert_eq!(t.poll(350), 3);
    assert_eq!(t.accumulated_nanos(), 50);
    assert_eq!(t.poll(49), 0);
    assert_eq!(t.poll(1), 1);
    assert_eq!(t.accumulated_nanos(), 0);
    assert_eq!(t.poll(0), 0);
    let mut big = TickScheduler::new(1).unwrap();
    assert_eq!(big.poll(u64::MAX), u64::MAX);
    assert_eq!(big.accumulated_nanos(), 0);
    let mut huge = TickScheduler::new(u64::MAX).unwrap();
    assert_eq!(huge.poll(u64::MAX - 1), 0);
    assert_eq!(huge.poll(5), 1);
    assert_eq!(huge.accumulated_nanos(), 4);
}

#[test]
fn ticker_refuses_zero_interval() {
    assert_eq!(TickScheduler::new(0).err(), Some(LifeError::NonPositiveInterval));
}

#[test]
fn simulation_steps_once_per_interval() {
    let rule = Rule::new(2, 2, 1, 1, None).unwrap();
    let mut g = Grid::new(3, 1, 1, rule).unwrap();
    g.set(c(0, 0, 0), CellState::Alive).unwrap();
    g.set(c(1, 0, 0), CellState::Alive).unwrap();
    let t = TickScheduler::new(100_000_000).unwrap();
    let mut sim = Simulation::new(g, t);
    assert_eq!(sim.update(40_000_000), 0);
    assert_eq!(sim.grid().get(c(0, 0, 0)), Ok(CellState::Alive));
    assert_eq!(sim.update(40_000_000), 0);
    assert_eq!(sim.update(40_000_000), 1);
    assert_eq!(sim.ticker().accumulated_nanos(), 20_000_000);
    assert_eq!(sim.grid().get(c(0, 0, 0)), Ok(CellState::Dead));
    assert_eq!(sim.grid().get(c(1, 0, 0)), Ok(CellState::Dead));
    assert_eq!(sim.grid().get(c(2, 0, 0)), Ok(CellState::Alive));
    // Two generations in one poll: D D A -> D A D -> A D A.
    assert_eq!(sim.update(180_000_000), 2);
    assert_eq!(sim.grid().get(c(0, 0, 0)), Ok(CellState::Alive));
    assert_eq!(sim.grid().get(c(1, 0, 0)), Ok(CellState::Dead));
    assert_eq!(sim.grid().get(c(2, 0, 0)), Ok(CellState::Alive));
    sim.randomize(&RandomizeGridEvent::new(Probability::new(0, 3).unwrap()));
    assert_eq!(count_alive(sim.grid()), 0);
}

#[test]
fn step_reports_only_changed_cells() {
    // Survive on 1, born on exactly 2: a pair of adjacent cells survives and
    // the cells seeing both are born.
    let rule = Rule::new(1, 1, 2, 2, None).unwrap();
    let mut g = Grid::new(4, 1, 1, rule).unwrap();
    g.set(c(1, 0, 0), CellState::Alive).unwrap();
    g.set(c(2, 0, 0), CellState::Alive).unwrap();
    assert!(g.step().is_empty());
    assert_eq!(count_alive(&g), 2);
    g.set(c(3, 0, 0), CellState::Alive).unwrap();
    // (1) sees 1: stays; (2) sees 2: dies; (3) sees 1: stays; (0) sees 1: stays dead.
    assert_eq!(g.step(), vec![c(2, 0, 0)]);
}
