use vstd::prelude::*;

use crate::heat::{FirePixel, MAX_HEAT};

verus! {

/// Why no grid can be made from a configuration.
#[derive(Clone, Copy, Debug, PartialEq, Eq, Structural)]
pub enum ConfigError {
    /// The pixel size of a cell is zero.
    ZeroScale,
    /// The grid would have no rows or no columns.
    EmptyGrid,
}

/// Position of cell `(y, x)` in the row-major sequence of a grid with `cols` columns.
pub open spec fn offset_of(cols: nat, y: int, x: int) -> int {
    y * cols + x
}

/// Every level lies in `[0, MAX_HEAT]`.
pub open spec fn bounded(levels: Seq<nat>) -> bool {
    forall|i: int| 0 <= i < levels.len() ==> #[trigger] levels[i] <= MAX_HEAT
}

/// Every cell of row 0 (the first `cols` positions) is at `MAX_HEAT`.
pub open spec fn source_row_lit(levels: Seq<nat>, cols: nat) -> bool {
    forall|x: int| 0 <= x < cols ==> #[trigger] levels[x] == MAX_HEAT
}

/// `rows * cols` levels within bounds, with row 0 at `MAX_HEAT`.
pub open spec fn sound_levels(levels: Seq<nat>, rows: nat, cols: nat) -> bool {
    &&& rows > 0
    &&& cols > 0
    &&& levels.len() == rows * cols
    &&& bounded(levels)
    &&& source_row_lit(levels, cols)
}

/// The levels of a fresh grid: row 0 at `MAX_HEAT`, every other cell cold.
pub open spec fn initial_levels(rows: nat, cols: nat) -> Seq<nat> {
    Seq::new(rows * cols, |i: int| if i < cols { MAX_HEAT as nat } else { 0 })
}

/// `(y, x)` with `y < rows` and `x < cols` lies inside the `rows * cols` cells,
/// and, past row 0, outside the source row.
pub proof fn lemma_offset_in_grid(rows: nat, cols: nat, y: nat, x: nat)
    requires
        y < rows,
        x < cols,
    ensures
        0 <= offset_of(cols, y as int, x as int) < rows * cols,
        y > 0 ==> cols <= offset_of(cols, y as int, x as int),
        offset_of(cols, y as int, x as int) + cols - x <= rows * cols,
{
    assert((y + 1) * cols <= rows * cols) by (nonlinear_arith)
        requires
            y + 1 <= rows,
    ;
    assert(y > 0 ==> cols <= y * cols) by (nonlinear_arith);
    assert((y + 1) * cols == y * cols + cols) by (nonlinear_arith);
}

/// A fixed-size, row-major grid of heat cells. Row 0 is the source row.
pub struct HeatGrid {
    rows: usize,
    cols: usize,
    cells: Vec<FirePixel>,
}

impl HeatGrid {
    pub closed spec fn num_rows(&self) -> nat {
        self.rows as nat
    }

    pub closed spec fn num_cols(&self) -> nat {
        self.cols as nat
    }

    /// The heat levels of all cells, row-major.
    pub closed spec fn levels(&self) -> Seq<nat> {
        self.cells@.map_values(|p: FirePixel| p.index as nat)
    }

    /// The level of cell `(y, x)`.
    pub open spec fn heat(&self, y: int, x: int) -> nat {
        self.levels()[offset_of(self.num_cols(), y, x)]
    }

    /// Non-empty, holding `rows * cols` levels within bounds, with row 0 at `MAX_HEAT`.
    pub open spec fn wf(&self) -> bool {
        &&& self.num_rows() * self.num_cols() <= usize::MAX
        &&& sound_levels(self.levels(), self.num_rows(), self.num_cols())
    }

    /// Is this a grid of `rows` by `cols` cells just as `create` makes it?
    pub open spec fn is_fresh(&self, rows: nat, cols: nat) -> bool {
        &&& self.wf()
        &&& self.num_rows() == rows
        &&& self.num_cols() == cols
        &&& self.levels() == initial_levels(rows, cols)
    }

    /// A grid of `rows` by `cols` cells, row 0 at `MAX_HEAT` and the rest cold;
    /// a configuration error when either dimension is zero.
    pub fn create(rows: usize, cols: usize) -> (r: Result<HeatGrid, ConfigError>)
        requires
            rows * cols <= usize::MAX,
        ensures
            (rows == 0 || cols == 0) <==> r is Err,
            r matches Err(e) ==> e == ConfigError::EmptyGrid,
            r matches Ok(g) ==> g.is_fresh(rows as nat, cols as nat),
    {
        if rows == 0 || cols == 0 {
            return Err(ConfigError::EmptyGrid);
        }
        let total: usize = rows * cols;
        let mut cells: Vec<FirePixel> = Vec::with_capacity(total);
        let mut i: usize = 0;
        while i < total
            invariant
                i <= total,
                cells.len() == i,
                forall|j: int|
                    0 <= j < i ==> (#[trigger] cells@[j]).index == (if j < cols {
                        MAX_HEAT
                    } else {
                        0
                    }),
            decreases total - i,
        {
            let mut pixel = FirePixel::new();
            if i < cols {
                pixel.index = MAX_HEAT;
            }
            cells.push(pixel);
            i = i + 1;
        }
        let grid = HeatGrid { rows, cols, cells };
        assert(grid.levels() =~= initial_levels(rows as nat, cols as nat));
        assert(bounded(grid.levels()));
        assert(source_row_lit(grid.levels(), cols as nat)) by {
            assert forall|x: int| 0 <= x < cols implies #[trigger] grid.levels()[x] == MAX_HEAT by {
                assert(cols <= rows * cols) by (nonlinear_arith)
                    requires
                        rows > 0,
                ;
            }
        }
        Ok(grid)
    }

    /// The grid for a viewport of `height` by `width` pixels drawn with square
    /// cells of `scale` pixels: `height / scale` rows and `width / scale` columns.
    pub fn from_viewport(height: usize, width: usize, scale: usize) -> (r: Result<
        HeatGrid,
        ConfigError,
    >)
        requires
            scale > 0 ==> (height / scale) * (width / scale) <= usize::MAX,
        ensures
            r matches Err(e) ==> (e == ConfigError::ZeroScale <==> scale == 0),
            r is Err <==> (scale == 0 || height / scale == 0 || width / scale == 0),
            r matches Ok(g) ==> g.is_fresh((height / scale) as nat, (width / scale) as nat),
    {
        if scale == 0 {
            return Err(ConfigError::ZeroScale);
        }
        HeatGrid::create(height / scale, width / scale)
    }

    pub fn rows(&self) -> (r: usize)
        ensures
            r == self.num_rows(),
    {
        self.rows
    }

    pub fn cols(&self) -> (r: usize)
        ensures
            r == self.num_cols(),
    {
        self.cols
    }

    /// The heat level of cell `(row, col)`.
    pub fn get(&self, row: usize, col: usize) -> (r: usize)
        requires
            self.wf(),
            row < self.num_rows(),
            col < self.num_cols(),
        ensures
            r == self.heat(row as int, col as int),
            r <= MAX_HEAT,
    {
        proof {
            lemma_offset_in_grid(self.rows as nat, self.cols as nat, row as nat, col as nat);
        }
        self.cells[row * self.cols + col].index
    }

    /// Writes `index` into cell `(row, col)` below the source row.
    pub fn set(&mut self, row: usize, col: usize, index: usize)
        requires
            old(self).wf(),
            0 < row < old(self).num_rows(),
            col < old(self).num_cols(),
            index <= MAX_HEAT,
        ensures
            final(self).wf(),
            final(self).num_rows() == old(self).num_rows(),
            final(self).num_cols() == old(self).num_cols(),
            final(self).levels() == old(self).levels().update(
                offset_of(old(self).num_cols(), row as int, col as int),
                index as nat,
            ),
    {
        proof {
            lemma_offset_in_grid(self.rows as nat, self.cols as nat, row as nat, col as nat);
        }
        let k: usize = row * self.cols + col;
        self.cells.set(k, FirePixel { index });
        assert(self.levels() =~= old(self).levels().update(k as int, index as nat));
    }
}

/// Two grids freshly made with the same dimensions hold the same levels:
/// every cell of row 0 at `MAX_HEAT`, every other cell cold.
pub proof fn lemma_fresh_grids_agree(a: HeatGrid, b: HeatGrid, rows: nat, cols: nat)
    requires
        a.is_fresh(rows, cols),
        b.is_fresh(rows, cols),
    ensures
        a.levels() == b.levels(),
        forall|y: int, x: int|
            0 <= y < rows && 0 <= x < cols ==> #[trigger] a.heat(y, x) == (if y == 0 {
                MAX_HEAT as nat
            } else {
                0
            }),
{
    assert forall|y: int, x: int| 0 <= y < rows && 0 <= x < cols implies #[trigger] a.heat(y, x)
        == (if y == 0 {
        MAX_HEAT as nat
    } else {
        0
    }) by {
        lemma_offset_in_grid(rows, cols, y as nat, x as nat);
    }
}

} // verus!
