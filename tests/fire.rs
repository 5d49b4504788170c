use doom_fire::{
    color_for, decay_heat, draw_cells, spread_fire, tick, tick_steady, tick_with_draws,
    wrap_column, CellDraw, ConfigError, FirePixel, HeatGrid, Rgb, State, COLS, MAX_HEAT, ROWS,
};
use rand::rngs::StdRng;
use rand::SeedableRng;

fn row_of(grid: &HeatGrid, row: usize) -> Vec<usize> {
    (0..grid.cols()).map(|col| grid.get(row, col)).collect()
}

fn draw(drift: i8, rise: usize, decay: usize) -> CellDraw {
    CellDraw { drift, rise, decay }
}

#[test]
fn new_pixel_is_cold() {
    assert_eq!(FirePixel::new().index, 0);
}

#[test]
fn create_sets_source_row_hot_and_rest_cold() {
    let grid = HeatGrid::create(3, 4).unwrap();
    assert_eq!(grid.rows(), 3);
    assert_eq!(grid.cols(), 4);
    assert_eq!(row_of(&grid, 0), vec![35, 35, 35, 35]);
    assert_eq!(row_of(&grid, 1), vec![0, 0, 0, 0]);
    assert_eq!(row_of(&grid, 2), vec![0, 0, 0, 0]);
}

#[test]
fn create_rejects_empty_dimensions() {
    assert!(matches!(HeatGrid::create(0, 4), Err(ConfigError::EmptyGrid)));
    assert!(matches!(HeatGrid::create(4, 0), Err(ConfigError::EmptyGrid)));
    assert!(matches!(HeatGrid::create(0, 0), Err(ConfigError::EmptyGrid)));
}

#[test]
fn viewport_dimensions_are_floored_quotients() {
    let grid = HeatGrid::from_viewport(600, 800, 5).unwrap();
    assert_eq!(grid.rows(), 120);
    assert_eq!(grid.cols(), 160);
    let odd = HeatGrid::from_viewport(603, 809, 5).unwrap();
    assert_eq!(odd.rows(), 120);
    assert_eq!(odd.cols(), 161);
}

#[test]
fn viewport_errors() {
    assert!(matches!(HeatGrid::from_viewport(600, 800, 0), Err(ConfigError::ZeroScale)));
    assert!(matches!(HeatGrid::from_viewport(4, 800, 5), Err(ConfigError::EmptyGrid)));
    assert!(matches!(HeatGrid::from_viewport(600, 3, 5), Err(ConfigError::EmptyGrid)));
}

#[test]
fn default_state_has_default_dimensions() {
    let state = State::new();
    assert_eq!(ROWS, 120);
    assert_eq!(COLS, 160);
    assert_eq!(state.fire_grid.rows(), 120);
    assert_eq!(state.fire_grid.cols(), 160);
    assert!(row_of(&state.fire_grid, 0).iter().all(|&h| h == MAX_HEAT));
    assert!(row_of(&state.fire_grid, 119).iter().all(|&h| h == 0));
}

#[test]
fn fresh_grids_are_identical() {
    let a = HeatGrid::create(5, 7).unwrap();
    let b = HeatGrid::create(5, 7).unwrap();
    for row in 0..5 {
        assert_eq!(row_of(&a, row), row_of(&b, row));
    }
}

#[test]
fn set_then_get() {
    let mut grid = HeatGrid::create(3, 3).unwrap();
    grid.set(2, 1, 17);
    assert_eq!(grid.get(2, 1), 17);
    assert_eq!(grid.get(2, 0), 0);
    assert_eq!(grid.get(0, 1), 35);
}

#[test]
fn wraparound_at_both_edges() {
    assert_eq!(wrap_column(0, -1, 160), 159);
    assert_eq!(wrap_column(159, 1, 160), 0);
    assert_eq!(wrap_column(5, -1, 160), 4);
    assert_eq!(wrap_column(5, 1, 160), 6);
    assert_eq!(wrap_column(5, 0, 160), 5);
    assert_eq!(wrap_column(0, -1, 1), 0);
    assert_eq!(wrap_column(0, 1, 1), 0);
}

#[test]
fn decay_saturates_at_zero() {
    assert_eq!(decay_heat(0, 1), 0);
    assert_eq!(decay_heat(0, 0), 0);
    assert_eq!(decay_heat(35, 1), 34);
    assert_eq!(decay_heat(35, 0), 35);
}

#[test]
fn spread_from_cold_source_stays_cold() {
    let mut grid = HeatGrid::create(3, 2).unwrap();
    spread_fire(2, 0, &mut grid, draw(0, 1, 1));
    assert_eq!(grid.get(2, 0), 0);
}

#[test]
fn spread_from_hot_source() {
    let mut grid = HeatGrid::create(2, 3).unwrap();
    spread_fire(1, 2, &mut grid, draw(1, 1, 1));
    assert_eq!(row_of(&grid, 1), vec![0, 0, 34]);
    spread_fire(1, 0, &mut grid, draw(-1, 0, 0));
    assert_eq!(row_of(&grid, 1), vec![34, 0, 34]);
}

#[test]
fn steady_tick_cascades_within_one_tick() {
    let mut grid = HeatGrid::create(3, 2).unwrap();
    tick_steady(&mut grid);
    assert_eq!(row_of(&grid, 0), vec![35, 35]);
    assert_eq!(row_of(&grid, 1), vec![34, 34]);
    assert_eq!(row_of(&grid, 2), vec![33, 33]);
}

#[test]
fn steady_draws_match_steady_tick() {
    let mut a = HeatGrid::create(3, 2).unwrap();
    let mut b = HeatGrid::create(3, 2).unwrap();
    let draws = vec![CellDraw::steady(); 4];
    tick_with_draws(&mut a, &draws);
    tick_steady(&mut b);
    for row in 0..3 {
        assert_eq!(row_of(&a, row), row_of(&b, row));
    }
    assert_eq!(row_of(&a, 2), vec![33, 33]);
}

#[test]
fn steady_tick_never_hotter_than_cell_above() {
    let mut grid = HeatGrid::create(40, 3).unwrap();
    tick_steady(&mut grid);
    tick_steady(&mut grid);
    for row in 1..40 {
        for col in 0..3 {
            assert!(grid.get(row, col) <= grid.get(row - 1, col));
            assert_eq!(grid.get(row, col), 35usize.saturating_sub(row));
        }
    }
}

#[test]
fn same_row_reads_see_cells_updated_this_tick() {
    let mut grid = HeatGrid::create(2, 3).unwrap();
    let draws = vec![draw(0, 1, 0), draw(-1, 0, 1), draw(-1, 0, 1)];
    tick_with_draws(&mut grid, &draws);
    assert_eq!(row_of(&grid, 1), vec![35, 34, 33]);
}

#[test]
fn leftmost_cell_reads_last_column_before_it_is_updated() {
    let mut grid = HeatGrid::create(2, 3).unwrap();
    grid.set(1, 2, 20);
    let draws = vec![draw(-1, 0, 1), draw(0, 1, 1), draw(-1, 0, 0)];
    tick_with_draws(&mut grid, &draws);
    assert_eq!(row_of(&grid, 1), vec![19, 34, 34]);
}

#[test]
fn draws_are_valid_and_varied() {
    let mut rng = StdRng::seed_from_u64(7);
    let draws = draw_cells(&mut rng, 300);
    assert_eq!(draws.len(), 300);
    for d in &draws {
        assert!((-1..=1).contains(&d.drift));
        assert!(d.rise <= 1);
        assert!(d.decay <= 1);
    }
    for drift in -1..=1 {
        assert!(draws.iter().any(|d| d.drift == drift));
    }
    for value in 0..=1 {
        assert!(draws.iter().any(|d| d.rise == value));
        assert!(draws.iter().any(|d| d.decay == value));
    }
}

#[test]
fn random_ticks_keep_bounds_and_source_row() {
    let mut rng = StdRng::seed_from_u64(42);
    let mut grid = HeatGrid::create(30, 20).unwrap();
    for _ in 0..50 {
        tick(&mut grid, &mut rng);
        assert!(row_of(&grid, 0).iter().all(|&h| h == MAX_HEAT));
        for row in 0..30 {
            assert!(row_of(&grid, row).iter().all(|&h| h <= MAX_HEAT));
        }
    }
    assert!(grid.get(1, 0) > 0 || grid.get(1, 1) > 0 || grid.get(1, 2) > 0);
}

#[test]
fn same_seed_gives_same_fire() {
    let mut a = State::new();
    let mut b = State::new();
    let mut rng_a = StdRng::seed_from_u64(3);
    let mut rng_b = StdRng::seed_from_u64(3);
    for _ in 0..3 {
        a.update(&mut rng_a);
        b.update(&mut rng_b);
    }
    for row in 0..ROWS {
        assert_eq!(row_of(&a.fire_grid, row), row_of(&b.fire_grid, row));
    }
}

#[test]
fn state_steady_update() {
    let mut state = State::new();
    tick_steady(&mut state.fire_grid);
    assert_eq!(state.fire_grid.get(1, 0), 34);
    assert_eq!(state.fire_grid.get(35, 159), 0);
    assert_eq!(state.fire_grid.get(34, 80), 1);
}

#[test]
fn palette_ends_and_middle() {
    assert_eq!(color_for(0), Rgb(7, 7, 7));
    assert_eq!(color_for(12), Rgb(223, 79, 7));
    assert_eq!(color_for(32), Rgb(207, 207, 111));
    assert_eq!(color_for(MAX_HEAT), Rgb(255, 255, 255));
}
