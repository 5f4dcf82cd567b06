use vstd::prelude::*;

verus! {

/// Number of rows in the reference grid.
pub const DEFAULT_ROWS: usize = 20;

/// Number of columns in the reference grid.
pub const DEFAULT_COLS: usize = 50;

/// Number of independent simulation runs in the reference batch.
pub const DEFAULT_SIMULATIONS: usize = 1000000;

/// Denominator of every spread probability: probabilities are given in
/// parts per million, so `PROB_DENOM` means certain spread and `0` means
/// no spread.
pub const PROB_DENOM: u32 = 1000000;

/// Reference probability of spreading left, up or down: 0.3.
pub const SPREAD_SIDE: u32 = 300000;

/// Reference probability of spreading right: 0.8, the wind bias.
pub const SPREAD_RIGHT: u32 = 800000;

/// Parameters of one wildfire experiment: the grid dimensions, the four
/// directional spread probabilities in parts per million, the number of
/// runs in a batch, and the burned-count threshold a run must strictly
/// exceed to be counted.
#[derive(Clone, Copy)]
pub struct FireConfig {
    pub rows: usize,
    pub cols: usize,
    pub p_left: u32,
    pub p_right: u32,
    pub p_up: u32,
    pub p_down: u32,
    pub simulations: usize,
    pub threshold: usize,
}

impl FireConfig {
    /// The grid has at least one row and one column and its cell count
    /// fits in a `usize`.
    pub open spec fn wf(self) -> bool {
        &&& self.rows >= 1
        &&& self.cols >= 1
        &&& self.rows * self.cols <= usize::MAX
    }

    /// Total number of cells on the grid.
    pub open spec fn total(self) -> int {
        self.rows * self.cols
    }

    /// Every spread probability is zero: fire can never spread.
    pub open spec fn no_spread(self) -> bool {
        self.p_left == 0 && self.p_right == 0 && self.p_up == 0 && self.p_down == 0
    }

    /// Every spread probability is certainty: fire always spreads to an
    /// unburned neighbour.
    pub open spec fn certain_spread(self) -> bool {
        &&& self.p_left >= PROB_DENOM
        &&& self.p_right >= PROB_DENOM
        &&& self.p_up >= PROB_DENOM
        &&& self.p_down >= PROB_DENOM
    }

    /// The reference configuration: a 20x50 grid, wind-biased spread
    /// probabilities, a million runs, and a threshold of 30% of the cells.
    pub fn reference() -> (cfg: FireConfig)
        ensures
            cfg.wf(),
            cfg.rows == DEFAULT_ROWS,
            cfg.cols == DEFAULT_COLS,
            cfg.p_left == SPREAD_SIDE,
            cfg.p_right == SPREAD_RIGHT,
            cfg.p_up == SPREAD_SIDE,
            cfg.p_down == SPREAD_SIDE,
            cfg.simulations == DEFAULT_SIMULATIONS,
            cfg.threshold == DEFAULT_ROWS * DEFAULT_COLS * 3 / 10,
    {
        let total = DEFAULT_ROWS * DEFAULT_COLS;
        FireConfig {
            rows: DEFAULT_ROWS,
            cols: DEFAULT_COLS,
            p_left: SPREAD_SIDE,
            p_right: SPREAD_RIGHT,
            p_up: SPREAD_SIDE,
            p_down: SPREAD_SIDE,
            simulations: DEFAULT_SIMULATIONS,
            threshold: burn_threshold(total),
        }
    }
}

/// The burned-count cutoff for a grid of `total` cells: 30% of the cells,
/// truncated towards zero.
pub fn burn_threshold(total: usize) -> (t: usize)
    requires
        total * 3 <= usize::MAX,
    ensures
        t == total * 3 / 10,
{
    total * 3 / 10
}

} // verus!
