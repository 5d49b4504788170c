use vstd::prelude::*;

use rand::rngs::StdRng;

use crate::engine::{draws_fit, ticked, CellDraw};
use crate::grid::HeatGrid;
use crate::random::tick;

verus! {

/// Height of the default viewport, in pixels.
pub const HEIGHT: usize = 600;

/// Width of the default viewport, in pixels.
pub const WIDTH: usize = 800;

/// Side of one cell, in pixels.
pub const SCALE: usize = 5;

/// Rows of the default grid.
pub const ROWS: usize = HEIGHT / SCALE;

/// Columns of the default grid.
pub const COLS: usize = WIDTH / SCALE;

/// The fire as the host loop holds it: one heat grid for the default viewport.
pub struct State {
    pub fire_grid: HeatGrid,
}

impl State {
    pub open spec fn wf(&self) -> bool {
        self.fire_grid.wf()
    }

    /// A fresh grid for the default viewport: `ROWS` by `COLS` cells, the
    /// source row at full heat and the rest cold.
    pub fn new() -> (r: State)
        ensures
            r.wf(),
            r.fire_grid.is_fresh(ROWS as nat, COLS as nat),
    {
        let fire_grid = HeatGrid::from_viewport(HEIGHT, WIDTH, SCALE).unwrap();
        State { fire_grid }
    }

    /// One tick of the randomised rule, with choices drawn from `rng`.
    pub fn update(&mut self, rng: &mut StdRng)
        requires
            old(self).wf(),
        ensures
            final(self).wf(),
            final(self).fire_grid.num_rows() == old(self).fire_grid.num_rows(),
            final(self).fire_grid.num_cols() == old(self).fire_grid.num_cols(),
            exists|draws: Seq<CellDraw>|
                draws_fit(draws, old(self).fire_grid.num_rows(), old(self).fire_grid.num_cols())
                    && #[trigger] ticked(
                    old(self).fire_grid.levels(),
                    old(self).fire_grid.num_rows(),
                    old(self).fire_grid.num_cols(),
                    draws,
                ) == final(self).fire_grid.levels(),
    {
        tick(&mut self.fire_grid, rng);
    }
}

} // verus!
