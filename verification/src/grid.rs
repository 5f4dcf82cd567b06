use vstd::prelude::*;
use crate::config::FireConfig;

verus! {

/// The fire state of one grid cell.  A cell only ever moves forward
/// through `Unburned -> Burning -> Burned` and never regresses.
#[derive(Clone, Copy, PartialEq, Eq, Structural, Debug)]
pub enum TreeState {
    Unburned,
    Burning,
    Burned,
}

/// Row-major flat index of the cell at `(r, c)`.
pub open spec fn cell_index(cfg: FireConfig, r: int, c: int) -> int {
    r * cfg.cols + c
}

/// `(r, c)` lies on the grid.
pub open spec fn valid_cell(cfg: FireConfig, r: int, c: int) -> bool {
    0 <= r < cfg.rows && 0 <= c < cfg.cols
}

/// State of the cell `(r, c)` in the flat row-major grid `g`.
pub open spec fn cell(g: Seq<TreeState>, cfg: FireConfig, r: int, c: int) -> TreeState {
    g[cell_index(cfg, r, c)]
}

/// Number of cells of `g` in state `s`.
pub open spec fn count_state(g: Seq<TreeState>, s: TreeState) -> int
    decreases g.len(),
{
    if g.len() == 0 {
        0
    } else {
        count_state(g.drop_last(), s) + if g.last() == s {
            1int
        } else {
            0int
        }
    }
}

/// A count of cells in one state is between 0 and the grid size.
pub proof fn lemma_count_bounds(g: Seq<TreeState>, s: TreeState)
    ensures
        0 <= count_state(g, s) <= g.len(),
    decreases g.len(),
{
    if g.len() > 0 {
        lemma_count_bounds(g.drop_last(), s);
    }
}

/// Writing one cell changes a state's count exactly by what leaves and
/// what arrives at that cell.
pub proof fn lemma_count_update(g: Seq<TreeState>, k: int, v: TreeState, s: TreeState)
    requires
        0 <= k < g.len(),
    ensures
        count_state(g.update(k, v), s) == count_state(g, s) - (if g[k] == s {
            1int
        } else {
            0int
        }) + (if v == s {
            1int
        } else {
            0int
        }),
    decreases g.len(),
{
    let gu = g.update(k, v);
    if k == g.len() - 1 {
        assert(gu.drop_last() =~= g.drop_last());
    } else {
        lemma_count_update(g.drop_last(), k, v, s);
        assert(gu.drop_last() =~= g.drop_last().update(k, v));
        assert(gu.last() == g.last());
    }
}

/// A cell in state `s` makes that state's count at least one.
pub proof fn lemma_count_present(g: Seq<TreeState>, k: int, s: TreeState)
    requires
        0 <= k < g.len(),
        g[k] == s,
    ensures
        count_state(g, s) >= 1,
    decreases g.len(),
{
    lemma_count_bounds(g.drop_last(), s);
    if k < g.len() - 1 {
        lemma_count_present(g.drop_last(), k, s);
    }
}

/// A state no cell is in has count zero.
pub proof fn lemma_count_none(g: Seq<TreeState>, s: TreeState)
    requires
        forall|j: int| 0 <= j < g.len() ==> g[j] != s,
    ensures
        count_state(g, s) == 0,
    decreases g.len(),
{
    if g.len() > 0 {
        lemma_count_none(g.drop_last(), s);
    }
}

/// If every cell is in state `s`, the count of `s` is the grid size.
pub proof fn lemma_count_full(g: Seq<TreeState>, s: TreeState)
    requires
        forall|j: int| 0 <= j < g.len() ==> g[j] == s,
    ensures
        count_state(g, s) == g.len(),
    decreases g.len(),
{
    if g.len() > 0 {
        lemma_count_full(g.drop_last(), s);
    }
}

/// The three state counts partition the grid.
pub proof fn lemma_count_sum(g: Seq<TreeState>)
    ensures
        count_state(g, TreeState::Unburned) + count_state(g, TreeState::Burning) + count_state(
            g,
            TreeState::Burned,
        ) == g.len(),
    decreases g.len(),
{
    if g.len() > 0 {
        lemma_count_sum(g.drop_last());
    }
}

/// Row-major indexing keeps every on-grid coordinate inside the flat grid.
pub proof fn lemma_cell_index_bound(cfg: FireConfig, r: int, c: int)
    requires
        valid_cell(cfg, r, c),
    ensures
        0 <= cell_index(cfg, r, c) < cfg.rows * cfg.cols,
{
    assert(0 <= r * cfg.cols + c < cfg.rows * cfg.cols) by (nonlinear_arith)
        requires
            0 <= r < cfg.rows,
            0 <= c < cfg.cols,
    ;
}

/// Row-major indexing is injective on on-grid coordinates.
pub proof fn lemma_cell_index_injective(cfg: FireConfig, r1: int, c1: int, r2: int, c2: int)
    requires
        valid_cell(cfg, r1, c1),
        valid_cell(cfg, r2, c2),
        cell_index(cfg, r1, c1) == cell_index(cfg, r2, c2),
    ensures
        r1 == r2 && c1 == c2,
{
    assert(r1 == r2 && c1 == c2) by (nonlinear_arith)
        requires
            0 <= c1 < cfg.cols,
            0 <= c2 < cfg.cols,
            0 <= r1,
            0 <= r2,
            r1 * cfg.cols + c1 == r2 * cfg.cols + c2,
    ;
}

/// Every flat index comes from exactly one on-grid coordinate.
pub proof fn lemma_index_to_cell(cfg: FireConfig, j: int)
    requires
        cfg.wf(),
        0 <= j < cfg.total(),
    ensures
        valid_cell(cfg, j / (cfg.cols as int), j % (cfg.cols as int)),
        cell_index(cfg, j / (cfg.cols as int), j % (cfg.cols as int)) == j,
{
    let d = cfg.cols as int;
    vstd::arithmetic::div_mod::lemma_fundamental_div_mod(j, d);
    vstd::arithmetic::div_mod::lemma_mod_bound(j, d);
    vstd::arithmetic::div_mod::lemma_div_pos_is_pos(j, d);
    assert(j / d < cfg.rows) by (nonlinear_arith)
        requires
            j == d * (j / d) + j % d,
            0 <= j % d < d,
            j < cfg.rows * d,
            d >= 1,
            j / d >= 0,
    ;
}

/// Computes the row-major flat index of `(r, c)`.
pub fn flat_index(r: usize, c: usize, rows: usize, cols: usize) -> (k: usize)
    requires
        r < rows,
        c < cols,
        rows * cols <= usize::MAX,
    ensures
        k == r * cols + c,
        k < rows * cols,
{
    proof {
        assert(0 <= r * cols + c < rows * cols) by (nonlinear_arith)
            requires
                r < rows,
                c < cols,
        ;
    }
    r * cols + c
}

} // verus!
