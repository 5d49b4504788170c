use vstd::prelude::*;

use vstd::arithmetic::div_mod::{lemma_fundamental_div_mod_converse, lemma_mod_bound, lemma_small_mod};

use crate::heat::MAX_HEAT;
use crate::grid::{bounded, lemma_offset_in_grid, offset_of, sound_levels, source_row_lit, HeatGrid};

verus! {

/// The choices behind one cell's update: where its heat comes from and how
/// much of it is lost.
#[derive(Clone, Copy, Debug, PartialEq, Eq, Structural)]
pub struct CellDraw {
    /// Horizontal offset from the target column to the source column: -1, 0 or +1.
    pub drift: i8,
    /// How many rows above the target the source lies: 0 (same row) or 1.
    pub rise: usize,
    /// Heat lost on the way: 0 or 1.
    pub decay: usize,
}

impl CellDraw {
    pub open spec fn is_valid(self) -> bool {
        &&& -1 <= self.drift <= 1
        &&& self.rise <= 1
        &&& self.decay <= 1
    }

    /// The fixed choice of the deterministic rule: straight from the row
    /// above, losing one level.
    pub fn steady() -> (r: CellDraw)
        ensures
            r == (CellDraw { drift: 0, rise: 1, decay: 1 }),
    {
        CellDraw { drift: 0, rise: 1, decay: 1 }
    }
}

/// Column `x` moved by `drift`, wrapping around a row of `cols` columns.
pub open spec fn wrapped_column(x: int, drift: int, cols: int) -> int {
    (x + drift) % cols
}

/// `source - decay`, or 0 where that would be negative.
pub open spec fn saturating_decay(source: nat, decay: nat) -> nat {
    if source >= decay {
        (source - decay) as nat
    } else {
        0
    }
}

/// Position of the cell whose heat `(y, x)` takes under draw `d`.
pub open spec fn source_of(cols: nat, y: int, x: int, d: CellDraw) -> int {
    offset_of(cols, y - d.rise, wrapped_column(x, d.drift as int, cols as int))
}

/// The levels after cell `(y, x)` took the decayed heat of its source.
pub open spec fn spread_step(levels: Seq<nat>, cols: nat, y: int, x: int, d: CellDraw) -> Seq<
    nat,
> {
    levels.update(
        offset_of(cols, y, x),
        saturating_decay(levels[source_of(cols, y, x, d)], d.decay as nat),
    )
}

/// The draw for cell `(y, x)`, `y >= 1`: one draw per cell below the source
/// row, row-major.
pub open spec fn draw_for(draws: Seq<CellDraw>, cols: nat, y: int, x: int) -> CellDraw {
    draws[offset_of(cols, y - 1, x)]
}

/// The levels after the first `n` cells of row `y` were updated, left to right.
pub open spec fn sweep_row(levels: Seq<nat>, cols: nat, draws: Seq<CellDraw>, y: int, n: nat) -> Seq<
    nat,
>
    decreases n,
{
    if n == 0 {
        levels
    } else {
        let x = n - 1;
        spread_step(sweep_row(levels, cols, draws, y, x as nat), cols, y, x, draw_for(draws, cols, y, x))
    }
}

/// The levels after rows 1 up to, not including, `y` were swept in order.
pub open spec fn sweep_rows(levels: Seq<nat>, cols: nat, draws: Seq<CellDraw>, y: nat) -> Seq<nat>
    decreases y,
{
    if y <= 1 {
        levels
    } else {
        sweep_row(sweep_rows(levels, cols, draws, (y - 1) as nat), cols, draws, y - 1, cols)
    }
}

/// The levels of a grid of `rows` by `cols` cells after one tick with `draws`.
pub open spec fn ticked(levels: Seq<nat>, rows: nat, cols: nat, draws: Seq<CellDraw>) -> Seq<nat> {
    sweep_rows(levels, cols, draws, rows)
}

/// Every draw is valid, and there is one for each cell below the source row.
pub open spec fn draws_fit(draws: Seq<CellDraw>, rows: nat, cols: nat) -> bool {
    &&& draws.len() == (rows - 1) * cols
    &&& forall|i: int| 0 <= i < draws.len() ==> (#[trigger] draws[i]).is_valid()
}

/// The levels after one tick per entry of `rounds`, taken in order.
pub open spec fn ticked_rounds(
    levels: Seq<nat>,
    rows: nat,
    cols: nat,
    rounds: Seq<Seq<CellDraw>>,
) -> Seq<nat>
    decreases rounds.len(),
{
    if rounds.len() == 0 {
        levels
    } else {
        ticked(ticked_rounds(levels, rows, cols, rounds.drop_last()), rows, cols, rounds.last())
    }
}

proof fn lemma_step_keeps_sound(
    levels: Seq<nat>,
    rows: nat,
    cols: nat,
    y: nat,
    x: nat,
    d: CellDraw,
)
    requires
        sound_levels(levels, rows, cols),
        1 <= y < rows,
        x < cols,
        d.is_valid(),
    ensures
        sound_levels(spread_step(levels, cols, y as int, x as int, d), rows, cols),
{
    let sx = wrapped_column(x as int, d.drift as int, cols as int);
    lemma_mod_bound(x + d.drift, cols as int);
    lemma_offset_in_grid(rows, cols, y, x);
    lemma_offset_in_grid(rows, cols, (y - d.rise) as nat, sx as nat);
    let next = spread_step(levels, cols, y as int, x as int, d);
    assert(bounded(next));
    assert(source_row_lit(next, cols));
}

proof fn lemma_sweep_row_keeps_sound(
    levels: Seq<nat>,
    rows: nat,
    cols: nat,
    draws: Seq<CellDraw>,
    y: nat,
    n: nat,
)
    requires
        sound_levels(levels, rows, cols),
        draws_fit(draws, rows, cols),
        1 <= y < rows,
        n <= cols,
    ensures
        sound_levels(sweep_row(levels, cols, draws, y as int, n), rows, cols),
    decreases n,
{
    if n > 0 {
        let x = (n - 1) as nat;
        lemma_sweep_row_keeps_sound(levels, rows, cols, draws, y, x);
        lemma_offset_in_grid((rows - 1) as nat, cols, (y - 1) as nat, x);
        lemma_step_keeps_sound(
            sweep_row(levels, cols, draws, y as int, x),
            rows,
            cols,
            y,
            x,
            draw_for(draws, cols, y as int, x as int),
        );
    }
}

proof fn lemma_sweep_rows_keeps_sound(
    levels: Seq<nat>,
    rows: nat,
    cols: nat,
    draws: Seq<CellDraw>,
    y: nat,
)
    requires
        sound_levels(levels, rows, cols),
        draws_fit(draws, rows, cols),
        y <= rows,
    ensures
        sound_levels(sweep_rows(levels, cols, draws, y), rows, cols),
    decreases y,
{
    if y > 1 {
        lemma_sweep_rows_keeps_sound(levels, rows, cols, draws, (y - 1) as nat);
        lemma_sweep_row_keeps_sound(
            sweep_rows(levels, cols, draws, (y - 1) as nat),
            rows,
            cols,
            draws,
            (y - 1) as nat,
            cols,
        );
    }
}

/// One tick, under any valid draws, keeps every level within
/// `[0, MAX_HEAT]` and the source row at `MAX_HEAT`.
pub proof fn lemma_tick_keeps_sound(levels: Seq<nat>, rows: nat, cols: nat, draws: Seq<CellDraw>)
    requires
        sound_levels(levels, rows, cols),
        draws_fit(draws, rows, cols),
    ensures
        sound_levels(ticked(levels, rows, cols, draws), rows, cols),
{
    lemma_sweep_rows_keeps_sound(levels, rows, cols, draws, rows);
}

/// After any number of ticks, under any valid draws, every level is still
/// within `[0, MAX_HEAT]` and every cell of the source row still at `MAX_HEAT`.
pub proof fn lemma_ticks_keep_sound(
    levels: Seq<nat>,
    rows: nat,
    cols: nat,
    rounds: Seq<Seq<CellDraw>>,
)
    requires
        sound_levels(levels, rows, cols),
        forall|i: int| 0 <= i < rounds.len() ==> draws_fit(#[trigger] rounds[i], rows, cols),
    ensures
        sound_levels(ticked_rounds(levels, rows, cols, rounds), rows, cols),
    decreases rounds.len(),
{
    if rounds.len() > 0 {
        let earlier = rounds.drop_last();
        assert forall|i: int| 0 <= i < earlier.len() implies draws_fit(
            #[trigger] earlier[i],
            rows,
            cols,
        ) by {
            assert(earlier[i] == rounds[i]);
        }
        lemma_ticks_keep_sound(levels, rows, cols, earlier);
        lemma_tick_keeps_sound(
            ticked_rounds(levels, rows, cols, earlier),
            rows,
            cols,
            rounds.last(),
        );
    }
}

/// Column offsets wrap around a row: -1 from the first column leads to the
/// last, +1 from the last column leads to the first.
pub proof fn lemma_wraparound(cols: nat)
    requires
        cols > 0,
    ensures
        wrapped_column(0, -1, cols as int) == cols - 1,
        wrapped_column(cols - 1, 1, cols as int) == 0,
{
    lemma_fundamental_div_mod_converse(-1, cols as int, -1, cols - 1);
    lemma_fundamental_div_mod_converse(cols as int, cols as int, 1, 0);
}


/// The column that a source offset of `drift` leads to from column `x`,
/// wrapping around at both edges of a row of `cols` columns.
pub fn wrap_column(x: usize, drift: i8, cols: usize) -> (r: usize)
    requires
        x < cols,
        -1 <= drift <= 1,
    ensures
        r == wrapped_column(x as int, drift as int, cols as int),
        r < cols,
{
    proof {
        let c = cols as int;
        if drift == -1 && x == 0 {
            lemma_fundamental_div_mod_converse(-1, c, -1, c - 1);
        } else if drift == 1 && x + 1 == cols {
            lemma_fundamental_div_mod_converse(c, c, 1, 0);
        } else {
            lemma_small_mod((x + drift) as nat, cols as nat);
        }
    }
    if drift < 0 {
        if x == 0 {
            cols - 1
        } else {
            x - 1
        }
    } else if drift > 0 {
        if x == cols - 1 {
            0
        } else {
            x + 1
        }
    } else {
        x
    }
}

/// The heat a cell takes from a source at `source` level that loses `decay`,
/// never below 0.
pub fn decay_heat(source: usize, decay: usize) -> (r: usize)
    ensures
        r == saturating_decay(source as nat, decay as nat),
{
    match source.checked_sub(decay) {
        Some(level) => level,
        None => 0,
    }
}

/// Updates cell `(target_y, target_x)` from its source under `draw`: the
/// source lies `draw.rise` rows up and `draw.drift` columns across, wrapping
/// at the row's edges, and passes on its level less `draw.decay`, never below 0.
pub fn spread_fire(target_y: usize, target_x: usize, fire_grid: &mut HeatGrid, draw: CellDraw)
    requires
        old(fire_grid).wf(),
        0 < target_y < old(fire_grid).num_rows(),
        target_x < old(fire_grid).num_cols(),
        draw.is_valid(),
    ensures
        final(fire_grid).wf(),
        final(fire_grid).num_rows() == old(fire_grid).num_rows(),
        final(fire_grid).num_cols() == old(fire_grid).num_cols(),
        final(fire_grid).levels() == spread_step(
            old(fire_grid).levels(),
            old(fire_grid).num_cols(),
            target_y as int,
            target_x as int,
            draw,
        ),
{
    let cols = fire_grid.cols();
    let source_x = wrap_column(target_x, draw.drift, cols);
    let source_y = target_y - draw.rise;
    let src_index = fire_grid.get(source_y, source_x);
    let new_index = decay_heat(src_index, draw.decay);
    fire_grid.set(target_y, target_x, new_index);
}

/// Advances the grid by one tick: rows 1 to the last in order, each row left
/// to right, cell `(y, x)` updated under `draws[(y - 1) * cols + x]`. A cell
/// reads its source as it stands at that moment, which may already have been
/// updated in this tick.
pub fn tick_with_draws(grid: &mut HeatGrid, draws: &[CellDraw])
    requires
        old(grid).wf(),
        draws_fit(draws@, old(grid).num_rows(), old(grid).num_cols()),
    ensures
        final(grid).wf(),
        final(grid).num_rows() == old(grid).num_rows(),
        final(grid).num_cols() == old(grid).num_cols(),
        final(grid).levels() == ticked(
            old(grid).levels(),
            old(grid).num_rows(),
            old(grid).num_cols(),
            draws@,
        ),
{
    let ghost start = grid.levels();
    let rows = grid.rows();
    let cols = grid.cols();
    let mut y: usize = 1;
    while y < rows
        invariant
            1 <= y <= rows,
            grid.wf(),
            grid.num_rows() == rows,
            grid.num_cols() == cols,
            draws_fit(draws@, rows as nat, cols as nat),
            grid.levels() == sweep_rows(start, cols as nat, draws@, y as nat),
        decreases rows - y,
    {
        let ghost row_start = grid.levels();
        let mut x: usize = 0;
        while x < cols
            invariant
                x <= cols,
                1 <= y < rows,
                grid.wf(),
                grid.num_rows() == rows,
                grid.num_cols() == cols,
                draws_fit(draws@, rows as nat, cols as nat),
                row_start == sweep_rows(start, cols as nat, draws@, y as nat),
                grid.levels() == sweep_row(row_start, cols as nat, draws@, y as int, x as nat),
            decreases cols - x,
        {
            proof {
                lemma_offset_in_grid((rows - 1) as nat, cols as nat, (y - 1) as nat, x as nat);
                assert((rows - 1) * cols <= rows * cols) by (nonlinear_arith)
                    requires
                        rows >= 1,
                ;
            }
            let k: usize = (y - 1) * cols + x;
            spread_fire(y, x, grid, draws[k]);
            x = x + 1;
        }
        y = y + 1;
    }
}

/// Advances the grid by one tick of the deterministic rule: every cell below
/// the source row takes the level of the cell straight above it, as already
/// updated in this tick, less one and never below 0.
pub fn tick_steady(grid: &mut HeatGrid)
    requires
        old(grid).wf(),
    ensures
        final(grid).wf(),
        final(grid).num_rows() == old(grid).num_rows(),
        final(grid).num_cols() == old(grid).num_cols(),
        forall|x: int|
            0 <= x < final(grid).num_cols() ==> #[trigger] final(grid).heat(0, x) == old(
                grid,
            ).heat(0, x),
        forall|y: int, x: int|
            0 < y < final(grid).num_rows() && 0 <= x < final(grid).num_cols() ==> (
            #[trigger] final(grid).heat(y, x)) == saturating_decay(final(grid).heat(y - 1, x), 1),
        forall|y: int, x: int|
            0 < y < final(grid).num_rows() && 0 <= x < final(grid).num_cols() ==> (
            #[trigger] final(grid).heat(y, x)) <= final(grid).heat(y - 1, x),
        forall|y: int, x: int|
            0 <= y < final(grid).num_rows() && 0 <= x < final(grid).num_cols() ==> (
            #[trigger] final(grid).heat(y, x)) == saturating_decay(MAX_HEAT as nat, y as nat),
{
    let ghost start = grid.levels();
    let rows = grid.rows();
    let cols = grid.cols();
    let mut y: usize = 1;
    while y < rows
        invariant
            1 <= y <= rows,
            grid.wf(),
            grid.num_rows() == rows,
            grid.num_cols() == cols,
            grid.levels().subrange(0, cols as int) == start.subrange(0, cols as int),
            forall|k: int|
                cols <= k < y * cols ==> #[trigger] grid.levels()[k] == saturating_decay(
                    grid.levels()[k - cols],
                    1,
                ),
        decreases rows - y,
    {
        let mut x: usize = 0;
        while x < cols
            invariant
                x <= cols,
                1 <= y < rows,
                grid.wf(),
                grid.num_rows() == rows,
                grid.num_cols() == cols,
                grid.levels().subrange(0, cols as int) == start.subrange(0, cols as int),
                forall|k: int|
                    cols <= k < y * cols + x ==> #[trigger] grid.levels()[k] == saturating_decay(
                        grid.levels()[k - cols],
                        1,
                    ),
            decreases cols - x,
        {
            let ghost before = grid.levels();
            proof {
                lemma_offset_in_grid(rows as nat, cols as nat, y as nat, x as nat);
                assert((y - 1) * cols == y * cols - cols) by (nonlinear_arith);
            }
            let draw = CellDraw::steady();
            spread_fire(y, x, grid, draw);
            proof {
                let k0 = y * cols + x;
                assert(source_of(cols as nat, y as int, x as int, draw) == k0 - cols)
                    by {
                    lemma_small_mod(x as nat, cols as nat);
                }
                assert(grid.levels().subrange(0, cols as int) =~= start.subrange(0, cols as int));
            }
            x = x + 1;
        }
        proof {
            assert(y * cols + cols == (y + 1) * cols) by (nonlinear_arith);
        }
        y = y + 1;
    }
    proof {
        let l = grid.levels();
        assert forall|x: int| 0 <= x < grid.num_cols() implies #[trigger] grid.heat(0, x)
            == old(grid).heat(0, x) by {
            assert(l.subrange(0, cols as int)[x] == start.subrange(0, cols as int)[x]);
        }
        assert forall|y: int, x: int|
            0 < y < grid.num_rows() && 0 <= x < grid.num_cols() implies (#[trigger] grid.heat(
                y,
                x,
            )) == saturating_decay(grid.heat(y - 1, x), 1) by {
            lemma_offset_in_grid(rows as nat, cols as nat, y as nat, x as nat);
            assert((y - 1) * cols == y * cols - cols) by (nonlinear_arith);
            assert(y * cols + x < rows * cols);
        }
        assert forall|y: int, x: int|
            0 <= y < grid.num_rows() && 0 <= x < grid.num_cols() implies (#[trigger] grid.heat(
                y,
                x,
            )) == saturating_decay(MAX_HEAT as nat, y as nat) by {
            lemma_steady_profile(*grid, y as nat, x);
        }
    }
}

/// In a grid where every cell below the source row holds one level less
/// than the cell above it (never below 0), row `y` holds `MAX_HEAT - y`,
/// never below 0.
proof fn lemma_steady_profile(g: HeatGrid, y: nat, x: int)
    requires
        g.wf(),
        y < g.num_rows(),
        0 <= x < g.num_cols(),
        forall|y: int, x: int|
            0 < y < g.num_rows() && 0 <= x < g.num_cols() ==> (#[trigger] g.heat(y, x))
                == saturating_decay(g.heat(y - 1, x), 1),
    ensures
        g.heat(y as int, x) == saturating_decay(MAX_HEAT as nat, y),
    decreases y,
{
    if y > 0 {
        lemma_steady_profile(g, (y - 1) as nat, x);
        assert(g.heat(y as int, x) == saturating_decay(g.heat(y - 1, x), 1));
    } else {
        assert(g.heat(0, x) == g.levels()[x]);
    }
}

} // verus!
