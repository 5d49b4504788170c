use vstd::prelude::*;

verus! {

/// The hottest heat level, held by every cell of the source row.
pub const MAX_HEAT: usize = 35;

/// One cell of the heat grid: its heat level, from 0 (cold) to `MAX_HEAT`.
#[derive(Clone, Copy, Debug, PartialEq, Eq, Structural)]
pub struct FirePixel {
    pub index: usize,
}

impl FirePixel {
    /// A cold cell.
    pub fn new() -> (r: FirePixel)
        ensures
            r.index == 0,
    {
        FirePixel { index: 0 }
    }
}

} // verus!
