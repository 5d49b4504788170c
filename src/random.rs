use vstd::prelude::*;

use rand::rngs::StdRng;
use rand::Rng;

use crate::engine::{draws_fit, tick_with_draws, ticked, CellDraw};
use crate::grid::HeatGrid;

verus! {

#[verifier::external_type_specification]
#[verifier::external_body]
pub struct ExStdRng(StdRng);

/// Relies on rand's `Rng::gen_range`: a value drawn uniformly from
/// `[low, high)`; it panics when `low >= high`.
#[verifier::external_body]
fn draw_between(rng: &mut StdRng, low: i8, high: i8) -> (r: i8)
    requires
        low < high,
    ensures
        low <= r < high,
{
    rng.gen_range(low, high)
}

/// Draws the choices for `count` cells, one after the other, each as a
/// uniform horizontal offset in `{-1, 0, 1}`, then a uniform rise in
/// `{0, 1}`, then a uniform decay in `{0, 1}`.
pub fn draw_cells(rng: &mut StdRng, count: usize) -> (r: Vec<CellDraw>)
    ensures
        r@.len() == count,
        forall|i: int| 0 <= i < count ==> (#[trigger] r@[i]).is_valid(),
{
    let mut draws: Vec<CellDraw> = Vec::with_capacity(count);
    let mut i: usize = 0;
    while i < count
        invariant
            i <= count,
            draws@.len() == i,
            forall|j: int| 0 <= j < i ==> (#[trigger] draws@[j]).is_valid(),
        decreases count - i,
    {
        let drift = draw_between(rng, -1, 2);
        let rise = draw_between(rng, 0, 2) as usize;
        let decay = draw_between(rng, 0, 2) as usize;
        draws.push(CellDraw { drift, rise, decay });
        i = i + 1;
    }
    draws
}

/// Advances the grid by one tick of the randomised rule, drawing every choice
/// from `rng`. Whatever is drawn, the result is the tick under some valid
/// sequence of draws.
pub fn tick(grid: &mut HeatGrid, rng: &mut StdRng)
    requires
        old(grid).wf(),
    ensures
        final(grid).wf(),
        final(grid).num_rows() == old(grid).num_rows(),
        final(grid).num_cols() == old(grid).num_cols(),
        exists|draws: Seq<CellDraw>|
            draws_fit(draws, old(grid).num_rows(), old(grid).num_cols()) && #[trigger] ticked(
                old(grid).levels(),
                old(grid).num_rows(),
                old(grid).num_cols(),
                draws,
            ) == final(grid).levels(),
{
    let rows = grid.rows();
    let cols = grid.cols();
    proof {
        assert((rows - 1) * cols <= rows * cols) by (nonlinear_arith)
            requires
                rows >= 1,
        ;
    }
    let draws = draw_cells(rng, (rows - 1) * cols);
    tick_with_draws(grid, draws.as_slice());
    assert(draws_fit(draws@, rows as nat, cols as nat));
}

} // verus!
