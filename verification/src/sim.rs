use vstd::prelude::*;
use crate::config::{FireConfig, PROB_DENOM};
use crate::grid::{
    TreeState, cell, cell_index, count_state, flat_index, lemma_cell_index_bound,
    lemma_cell_index_injective, lemma_count_bounds, lemma_count_full, lemma_count_none,
    lemma_count_present, lemma_count_sum, lemma_count_update, lemma_index_to_cell, valid_cell,
};
use crate::rng::random_below;

verus! {

/// Every in-grid orthogonal neighbour of `(r, c)` is no longer unburned.
pub open spec fn neighbors_touched(g: Seq<TreeState>, cfg: FireConfig, r: int, c: int) -> bool {
    &&& (c > 0 ==> cell(g, cfg, r, c - 1) != TreeState::Unburned)
    &&& (c < cfg.cols - 1 ==> cell(g, cfg, r, c + 1) != TreeState::Unburned)
    &&& (r > 0 ==> cell(g, cfg, r - 1, c) != TreeState::Unburned)
    &&& (r < cfg.rows - 1 ==> cell(g, cfg, r + 1, c) != TreeState::Unburned)
}

/// Every burned cell has already touched all its neighbours: none of them
/// is still unburned.
pub open spec fn burned_closed(g: Seq<TreeState>, cfg: FireConfig) -> bool {
    forall|r: int, c: int|
        valid_cell(cfg, r, c) && #[trigger] cell(g, cfg, r, c) == TreeState::Burned
            ==> neighbors_touched(g, cfg, r, c)
}

/// No cell of the grid is burning.
pub open spec fn no_burning(g: Seq<TreeState>, cfg: FireConfig) -> bool {
    forall|r: int, c: int| valid_cell(cfg, r, c) ==> #[trigger] cell(g, cfg, r, c)
        != TreeState::Burning
}

/// What one simulation run promises of its burned count, whatever the
/// random draws were: at least the ignition cell burns, at most the whole
/// grid burns, spread probability zero burns nothing else, and certain
/// spread burns everything.
pub open spec fn simulation_outcome(cfg: FireConfig, burned: usize) -> bool {
    &&& 1 <= burned <= cfg.total()
    &&& (cfg.no_spread() ==> burned == 1)
    &&& (cfg.certain_spread() ==> burned == cfg.total())
}

/// With spread forced off or forced certain, no random draw matters: any
/// two runs on the same configuration return the same burned count.
pub proof fn lemma_forced_spread_deterministic(cfg: FireConfig, b1: usize, b2: usize)
    requires
        cfg.no_spread() || cfg.certain_spread(),
        simulation_outcome(cfg, b1),
        simulation_outcome(cfg, b2),
    ensures
        b1 == b2,
{
}

/// One Bernoulli trial: ignition succeeds on a draw strictly below `p`
/// out of `PROB_DENOM`, so probability zero never ignites and certainty
/// always does.
fn trial(p: u32) -> (ignite: bool)
    ensures
        p == 0 ==> !ignite,
        p >= PROB_DENOM ==> ignite,
{
    let draw = random_below(PROB_DENOM);
    draw < p
}

/// Burning the cell `(r, c)` keeps the burned-neighbour closure: the cell
/// itself has just touched its neighbours, every other burned cell was
/// burned before, and no cell went back to unburned.
proof fn lemma_burned_closed_step(
    g0: Seq<TreeState>,
    g1: Seq<TreeState>,
    cfg: FireConfig,
    r: int,
    c: int,
)
    requires
        cfg.wf(),
        g0.len() == cfg.total(),
        g1.len() == cfg.total(),
        burned_closed(g0, cfg),
        valid_cell(cfg, r, c),
        forall|j: int|
            0 <= j < g0.len() && g0[j] != TreeState::Unburned ==> #[trigger] g1[j]
                != TreeState::Unburned,
        forall|j: int|
            0 <= j < g0.len() && #[trigger] g1[j] == TreeState::Burned ==> g0[j]
                == TreeState::Burned || j == cell_index(cfg, r, c),
        neighbors_touched(g1, cfg, r, c),
    ensures
        burned_closed(g1, cfg),
{
    assert forall|r2: int, c2: int|
        valid_cell(cfg, r2, c2) && #[trigger] cell(g1, cfg, r2, c2)
            == TreeState::Burned implies neighbors_touched(g1, cfg, r2, c2) by {
        lemma_cell_index_bound(cfg, r2, c2);
        if c2 > 0 {
            lemma_cell_index_bound(cfg, r2, c2 - 1);
        }
        if c2 < cfg.cols - 1 {
            lemma_cell_index_bound(cfg, r2, c2 + 1);
        }
        if r2 > 0 {
            lemma_cell_index_bound(cfg, r2 - 1, c2);
        }
        if r2 < cfg.rows - 1 {
            lemma_cell_index_bound(cfg, r2 + 1, c2);
        }
        if cell_index(cfg, r2, c2) == cell_index(cfg, r, c) {
            lemma_cell_index_injective(cfg, r2, c2, r, c);
        } else {
            assert(cell(g0, cfg, r2, c2) == TreeState::Burned);
            assert(neighbors_touched(g0, cfg, r2, c2));
        }
    }
}

/// In a grid where fire could never stop at a burned cell's edge, the
/// whole grid has burned: the ignition corner is burned, nothing is still
/// burning, and no burned cell has an unburned neighbour, so fire reached
/// `(r, c)` by walking left to column 0 and up to row 0.
pub proof fn lemma_all_burned(g: Seq<TreeState>, cfg: FireConfig, r: int, c: int)
    requires
        cfg.wf(),
        g.len() == cfg.total(),
        burned_closed(g, cfg),
        no_burning(g, cfg),
        cell(g, cfg, 0, 0) == TreeState::Burned,
        valid_cell(cfg, r, c),
    ensures
        cell(g, cfg, r, c) == TreeState::Burned,
    decreases r + c,
{
    if c > 0 {
        lemma_all_burned(g, cfg, r, c - 1);
        assert(neighbors_touched(g, cfg, r, c - 1));
        assert(cell(g, cfg, r, c) != TreeState::Unburned);
        assert(cell(g, cfg, r, c) != TreeState::Burning);
    } else if r > 0 {
        lemma_all_burned(g, cfg, r - 1, c);
        assert(neighbors_touched(g, cfg, r - 1, c));
        assert(cell(g, cfg, r, c) != TreeState::Unburned);
        assert(cell(g, cfg, r, c) != TreeState::Burning);
    }
}

/// One ignition attempt from a burning cell at its neighbour `(tr, tc)`:
/// if the neighbour is still unburned and the Bernoulli trial at
/// probability `p` succeeds, the neighbour starts burning and joins the
/// next frontier; otherwise nothing changes.
fn try_ignite(
    forest: &mut Vec<TreeState>,
    next: &mut Vec<(usize, usize)>,
    p: u32,
    tr: usize,
    tc: usize,
    rows: usize,
    cols: usize,
    Ghost(cfg): Ghost<FireConfig>,
) -> (ignited: bool)
    requires
        cfg.wf(),
        rows == cfg.rows,
        cols == cfg.cols,
        old(forest)@.len() == cfg.total(),
        valid_cell(cfg, tr as int, tc as int),
    ensures
        0 <= cell_index(cfg, tr as int, tc as int) < cfg.total(),
        ignited ==> {
            &&& cell(old(forest)@, cfg, tr as int, tc as int) == TreeState::Unburned
            &&& final(forest)@ == old(forest)@.update(
                cell_index(cfg, tr as int, tc as int),
                TreeState::Burning,
            )
            &&& final(next)@ == old(next)@.push((tr, tc))
            &&& count_state(final(forest)@, TreeState::Burning) == count_state(
                old(forest)@,
                TreeState::Burning,
            ) + 1
            &&& count_state(final(forest)@, TreeState::Unburned) == count_state(
                old(forest)@,
                TreeState::Unburned,
            ) - 1
            &&& count_state(final(forest)@, TreeState::Burned) == count_state(
                old(forest)@,
                TreeState::Burned,
            )
        },
        !ignited ==> final(forest)@ == old(forest)@ && final(next)@ == old(next)@,
        !ignited && p >= PROB_DENOM ==> cell(old(forest)@, cfg, tr as int, tc as int)
            != TreeState::Unburned,
        p == 0 ==> !ignited,
{
    proof {
        lemma_cell_index_bound(cfg, tr as int, tc as int);
    }
    let kt = flat_index(tr, tc, rows, cols);
    if forest[kt] == TreeState::Unburned {
        if trial(p) {
            proof {
                lemma_count_update(forest@, kt as int, TreeState::Burning, TreeState::Burning);
                lemma_count_update(forest@, kt as int, TreeState::Burning, TreeState::Unburned);
                lemma_count_update(forest@, kt as int, TreeState::Burning, TreeState::Burned);
            }
            forest[kt] = TreeState::Burning;
            next.push((tr, tc));
            return true;
        }
    }
    false
}

/// One round step for a single burning cell `(r, c)`: the cell finishes
/// burning, and each of its four orthogonal neighbours is given one
/// ignition attempt at its direction's probability, joining `next` when
/// it catches.
#[verifier::rlimit(100)]
fn process_cell(
    forest: &mut Vec<TreeState>,
    next: &mut Vec<(usize, usize)>,
    cfg: &FireConfig,
    r: usize,
    c: usize,
)
    requires
        cfg.wf(),
        old(forest)@.len() == cfg.total(),
        valid_cell(*cfg, r as int, c as int),
        cell(old(forest)@, *cfg, r as int, c as int) == TreeState::Burning,
    ensures
        final(forest)@.len() == old(forest)@.len(),
        final(next)@.len() >= old(next)@.len(),
        forall|k2: int|
            0 <= k2 < old(next)@.len() ==> #[trigger] final(next)@[k2] == old(next)@[k2],
        cell(final(forest)@, *cfg, r as int, c as int) == TreeState::Burned,
        count_state(final(forest)@, TreeState::Burned) == count_state(
            old(forest)@,
            TreeState::Burned,
        ) + 1,
        count_state(final(forest)@, TreeState::Unburned) + count_state(
            final(forest)@,
            TreeState::Burning,
        ) == count_state(old(forest)@, TreeState::Unburned) + count_state(
            old(forest)@,
            TreeState::Burning,
        ) - 1,
        count_state(final(forest)@, TreeState::Burning) == count_state(
            old(forest)@,
            TreeState::Burning,
        ) - 1 + final(next)@.len() - old(next)@.len(),
        forall|k2: int|
            old(next)@.len() <= k2 < final(next)@.len() ==> valid_cell(
                *cfg,
                #[trigger] final(next)@[k2].0 as int,
                final(next)@[k2].1 as int,
            ),
        forall|k2: int|
            old(next)@.len() <= k2 < final(next)@.len() ==> cell(
                old(forest)@,
                *cfg,
                #[trigger] final(next)@[k2].0 as int,
                final(next)@[k2].1 as int,
            ) == TreeState::Unburned,
        forall|k2: int|
            old(next)@.len() <= k2 < final(next)@.len() ==> cell(
                final(forest)@,
                *cfg,
                #[trigger] final(next)@[k2].0 as int,
                final(next)@[k2].1 as int,
            ) == TreeState::Burning,
        forall|k1: int, k2: int|
            old(next)@.len() <= k1 < k2 < final(next)@.len() ==> cell_index(
                *cfg,
                #[trigger] final(next)@[k1].0 as int,
                final(next)@[k1].1 as int,
            ) != cell_index(*cfg, #[trigger] final(next)@[k2].0 as int, final(next)@[k2].1 as int),
        forall|j: int|
            0 <= j < old(forest)@.len() && old(forest)@[j] != TreeState::Unburned
                ==> #[trigger] final(forest)@[j] != TreeState::Unburned,
        forall|j: int|
            0 <= j < old(forest)@.len() && old(forest)@[j] == TreeState::Burned
                ==> #[trigger] final(forest)@[j] == TreeState::Burned,
        forall|j: int|
            0 <= j < old(forest)@.len() && old(forest)@[j] == TreeState::Burning && j
                != cell_index(*cfg, r as int, c as int) ==> #[trigger] final(forest)@[j]
                == TreeState::Burning,
        forall|j: int|
            0 <= j < old(forest)@.len() && #[trigger] final(forest)@[j] == TreeState::Burned
                ==> old(forest)@[j] == TreeState::Burned || j == cell_index(
                *cfg,
                r as int,
                c as int,
            ),
        cfg.no_spread() ==> final(next)@ == old(next)@,
        cfg.certain_spread() ==> neighbors_touched(final(forest)@, *cfg, r as int, c as int),
{
    let rows = cfg.rows;
    let cols = cfg.cols;
    let k = flat_index(r, c, rows, cols);
    let ghost g0 = forest@;
    proof {
        lemma_count_update(g0, k as int, TreeState::Burned, TreeState::Burned);
        lemma_count_update(g0, k as int, TreeState::Burned, TreeState::Burning);
        lemma_count_update(g0, k as int, TreeState::Burned, TreeState::Unburned);
    }
    forest[k] = TreeState::Burned;
    if c > 0 {
        try_ignite(forest, next, cfg.p_left, r, c - 1, rows, cols, Ghost(*cfg));
    }
    if c + 1 < cols {
        try_ignite(forest, next, cfg.p_right, r, c + 1, rows, cols, Ghost(*cfg));
    }
    if r > 0 {
        try_ignite(forest, next, cfg.p_up, r - 1, c, rows, cols, Ghost(*cfg));
    }
    if r + 1 < rows {
        try_ignite(forest, next, cfg.p_down, r + 1, c, rows, cols, Ghost(*cfg));
    }
}

/// A fresh forest, every cell unburned except the burning ignition
/// corner `(0, 0)`.
fn ignited_grid(cfg: &FireConfig) -> (forest: Vec<TreeState>)
    requires
        cfg.wf(),
    ensures
        forest@.len() == cfg.total(),
        forest@[0] == TreeState::Burning,
        count_state(forest@, TreeState::Burning) == 1,
        count_state(forest@, TreeState::Burned) == 0,
        count_state(forest@, TreeState::Unburned) == cfg.total() - 1,
{
    let total = cfg.rows * cfg.cols;
    proof {
        assert(total >= 1) by (nonlinear_arith)
            requires
                cfg.rows >= 1,
                cfg.cols >= 1,
                total == cfg.rows * cfg.cols,
        ;
    }
    let mut forest: Vec<TreeState> = Vec::new();
    let mut n: usize = 0;
    while n < total
        invariant
            n == forest@.len(),
            n <= total,
            forall|j: int| 0 <= j < forest@.len() ==> forest@[j] == TreeState::Unburned,
        decreases total - n,
    {
        forest.push(TreeState::Unburned);
        n = n + 1;
    }
    let ghost base = forest@;
    proof {
        lemma_count_none(base, TreeState::Burning);
        lemma_count_none(base, TreeState::Burned);
        lemma_count_full(base, TreeState::Unburned);
        lemma_count_update(base, 0, TreeState::Burning, TreeState::Unburned);
        lemma_count_update(base, 0, TreeState::Burning, TreeState::Burning);
        lemma_count_update(base, 0, TreeState::Burning, TreeState::Burned);
    }
    forest[0] = TreeState::Burning;
    forest
}

/// A grid without a burned cell satisfies the burned-neighbour closure
/// vacuously.
proof fn lemma_closed_when_no_burned(g: Seq<TreeState>, cfg: FireConfig)
    requires
        cfg.wf(),
        g.len() == cfg.total(),
        count_state(g, TreeState::Burned) == 0,
    ensures
        burned_closed(g, cfg),
{
    assert forall|r: int, c: int|
        valid_cell(cfg, r, c) && #[trigger] cell(g, cfg, r, c)
            == TreeState::Burned implies neighbors_touched(g, cfg, r, c) by {
        lemma_cell_index_bound(cfg, r, c);
        lemma_count_present(g, cell_index(cfg, r, c), TreeState::Burned);
    }
}

/// When nothing is burning any more, the ignition corner has burned, and
/// under certain spread the closure forces the whole grid to have burned.
proof fn lemma_final_outcome(g: Seq<TreeState>, cfg: FireConfig, burned: usize)
    requires
        cfg.wf(),
        g.len() == cfg.total(),
        count_state(g, TreeState::Burning) == 0,
        g[0] != TreeState::Unburned,
        burned == count_state(g, TreeState::Burned),
        cfg.certain_spread() ==> burned_closed(g, cfg),
    ensures
        1 <= burned <= cfg.total(),
        cfg.certain_spread() ==> burned == cfg.total(),
{
    assert(cfg.rows * cfg.cols >= 1) by (nonlinear_arith)
        requires
            cfg.rows >= 1,
            cfg.cols >= 1,
    ;
    assert forall|r: int, c: int| valid_cell(cfg, r, c) implies #[trigger] cell(g, cfg, r, c)
        != TreeState::Burning by {
        if cell(g, cfg, r, c) == TreeState::Burning {
            lemma_cell_index_bound(cfg, r, c);
            lemma_count_present(g, cell_index(cfg, r, c), TreeState::Burning);
        }
    }
    assert(valid_cell(cfg, 0, 0));
    assert(cell(g, cfg, 0, 0) == g[0]);
    assert(g[0] == TreeState::Burned);
    lemma_count_present(g, 0, TreeState::Burned);
    lemma_count_bounds(g, TreeState::Burned);
    if cfg.certain_spread() {
        assert forall|r: int, c: int| valid_cell(cfg, r, c) implies #[trigger] cell(g, cfg, r, c)
            == TreeState::Burned by {
            lemma_all_burned(g, cfg, r, c);
        }
        assert forall|j: int| 0 <= j < g.len() implies g[j] == TreeState::Burned by {
            lemma_index_to_cell(cfg, j);
            assert(cell(g, cfg, j / (cfg.cols as int), j % (cfg.cols as int))
                == TreeState::Burned);
        }
        lemma_count_full(g, TreeState::Burned);
    }
}

/// Runs one complete fire-spread simulation on a fresh grid: the corner
/// cell `(0, 0)` starts burning, and each round every burning cell
/// finishes burning and tries to ignite its four orthogonal neighbours
/// with the configured directional probabilities.  Returns the burned
/// count together with the number of rounds, which never exceeds the
/// grid size.
#[verifier::rlimit(100)]
pub fn simulate_fire_counting(cfg: &FireConfig) -> (out: (usize, usize))
    requires
        cfg.wf(),
    ensures
        simulation_outcome(*cfg, out.0),
        out.1 <= cfg.total(),
{
    let rows = cfg.rows;
    let cols = cfg.cols;
    let total = rows * cols;
    let mut forest: Vec<TreeState> = ignited_grid(cfg);
    let mut frontier: Vec<(usize, usize)> = Vec::new();
    frontier.push((0usize, 0usize));
    let mut burned: usize = 0;
    let mut rounds: usize = 0;
    proof {
        assert(total >= 1) by (nonlinear_arith)
            requires
                rows >= 1,
                cols >= 1,
                total == rows * cols,
        ;
        lemma_closed_when_no_burned(forest@, *cfg);
        assert(cell(forest@, *cfg, 0, 0) == forest@[0]);
    }
    while frontier.len() > 0
        invariant
            cfg.wf(),
            rows == cfg.rows,
            cols == cfg.cols,
            total == cfg.rows * cfg.cols,
            total >= 1,
            forest@.len() == total,
            forall|j: int| 0 <= j < frontier@.len() ==> valid_cell(
                *cfg,
                #[trigger] frontier@[j].0 as int,
                frontier@[j].1 as int,
            ),
            forall|j: int| 0 <= j < frontier@.len() ==> cell(
                forest@,
                *cfg,
                #[trigger] frontier@[j].0 as int,
                frontier@[j].1 as int,
            ) == TreeState::Burning,
            forall|j1: int, j2: int| 0 <= j1 < j2 < frontier@.len() ==> cell_index(
                *cfg,
                #[trigger] frontier@[j1].0 as int,
                frontier@[j1].1 as int,
            ) != cell_index(*cfg, #[trigger] frontier@[j2].0 as int, frontier@[j2].1 as int),
            count_state(forest@, TreeState::Burning) == frontier@.len(),
            burned == count_state(forest@, TreeState::Burned),
            forest@[0] != TreeState::Unburned,
            rounds + count_state(forest@, TreeState::Unburned) + count_state(
                forest@,
                TreeState::Burning,
            ) <= total,
            cfg.no_spread() ==> burned + frontier@.len() == 1,
            cfg.certain_spread() ==> burned_closed(forest@, *cfg),
        decreases count_state(forest@, TreeState::Unburned) + count_state(
            forest@,
            TreeState::Burning,
        ),
    {
        let flen = frontier.len();
        let ghost g_round = forest@;
        let ghost b_round = burned as int;
        let ghost m_round = count_state(g_round, TreeState::Unburned) + count_state(
            g_round,
            TreeState::Burning,
        );
        let mut next: Vec<(usize, usize)> = Vec::new();
        let mut i: usize = 0;
        while i < flen
            invariant
                cfg.wf(),
                rows == cfg.rows,
                cols == cfg.cols,
                total == cfg.rows * cfg.cols,
                total >= 1,
                i <= flen,
                flen == frontier@.len(),
                forest@.len() == total,
                g_round.len() == total,
                forall|j: int| 0 <= j < frontier@.len() ==> valid_cell(
                    *cfg,
                    #[trigger] frontier@[j].0 as int,
                    frontier@[j].1 as int,
                ),
                forall|j1: int, j2: int| 0 <= j1 < j2 < frontier@.len() ==> cell_index(
                    *cfg,
                    #[trigger] frontier@[j1].0 as int,
                    frontier@[j1].1 as int,
                ) != cell_index(*cfg, #[trigger] frontier@[j2].0 as int, frontier@[j2].1 as int),
                forall|j: int| 0 <= j < frontier@.len() ==> cell(
                    g_round,
                    *cfg,
                    #[trigger] frontier@[j].0 as int,
                    frontier@[j].1 as int,
                ) == TreeState::Burning,
                forall|j: int| i <= j < flen ==> cell(
                    forest@,
                    *cfg,
                    #[trigger] frontier@[j].0 as int,
                    frontier@[j].1 as int,
                ) == TreeState::Burning,
                forall|j: int| 0 <= j < i ==> cell(
                    forest@,
                    *cfg,
                    #[trigger] frontier@[j].0 as int,
                    frontier@[j].1 as int,
                ) == TreeState::Burned,
                burned == b_round + i,
                burned == count_state(forest@, TreeState::Burned),
                count_state(forest@, TreeState::Unburned) + count_state(
                    forest@,
                    TreeState::Burning,
                ) == m_round - i,
                count_state(forest@, TreeState::Burning) == (flen - i) + next@.len(),
                forall|k2: int| 0 <= k2 < next@.len() ==> valid_cell(
                    *cfg,
                    #[trigger] next@[k2].0 as int,
                    next@[k2].1 as int,
                ),
                forall|k2: int| 0 <= k2 < next@.len() ==> cell(
                    forest@,
                    *cfg,
                    #[trigger] next@[k2].0 as int,
                    next@[k2].1 as int,
                ) == TreeState::Burning,
                forall|k2: int| 0 <= k2 < next@.len() ==> cell(
                    g_round,
                    *cfg,
                    #[trigger] next@[k2].0 as int,
                    next@[k2].1 as int,
                ) == TreeState::Unburned,
                forall|k1: int, k2: int| 0 <= k1 < k2 < next@.len() ==> cell_index(
                    *cfg,
                    #[trigger] next@[k1].0 as int,
                    next@[k1].1 as int,
                ) != cell_index(*cfg, #[trigger] next@[k2].0 as int, next@[k2].1 as int),
                forall|j: int| 0 <= j < total && #[trigger] forest@[j] == TreeState::Unburned
                    ==> g_round[j] == TreeState::Unburned,
                forest@[0] != TreeState::Unburned,
                cfg.no_spread() ==> next@.len() == 0,
                cfg.certain_spread() ==> burned_closed(forest@, *cfg),
            decreases flen - i,
        {
            let p = frontier[i];
            let r = p.0;
            let c = p.1;
            let ghost g0 = forest@;
            let ghost next0 = next@;
            let ghost k = cell_index(*cfg, r as int, c as int);
            proof {
                lemma_cell_index_bound(*cfg, r as int, c as int);
                lemma_count_bounds(g0, TreeState::Burned);
                lemma_count_bounds(g0, TreeState::Unburned);
                lemma_count_present(g0, k, TreeState::Burning);
                lemma_count_sum(g0);
            }
            process_cell(&mut forest, &mut next, cfg, r, c);
            burned = burned + 1;
            i = i + 1;
            proof {
                let iold = i as int - 1;
                assert(frontier@[iold] == p);
                assert(k == cell_index(*cfg, frontier@[iold].0 as int, frontier@[iold].1 as int));
                assert forall|j: int| i <= j < flen implies cell(
                    forest@,
                    *cfg,
                    #[trigger] frontier@[j].0 as int,
                    frontier@[j].1 as int,
                ) == TreeState::Burning by {
                    lemma_cell_index_bound(*cfg, frontier@[j].0 as int, frontier@[j].1 as int);
                    assert(cell_index(*cfg, frontier@[j].0 as int, frontier@[j].1 as int) != k);
                }
                assert forall|j: int| 0 <= j < i implies cell(
                    forest@,
                    *cfg,
                    #[trigger] frontier@[j].0 as int,
                    frontier@[j].1 as int,
                ) == TreeState::Burned by {
                    lemma_cell_index_bound(*cfg, frontier@[j].0 as int, frontier@[j].1 as int);
                    if j < iold {
                        assert(cell_index(*cfg, frontier@[j].0 as int, frontier@[j].1 as int)
                            != k);
                    }
                }
                assert forall|k2: int| 0 <= k2 < next@.len() implies cell(
                    forest@,
                    *cfg,
                    #[trigger] next@[k2].0 as int,
                    next@[k2].1 as int,
                ) == TreeState::Burning by {
                    lemma_cell_index_bound(*cfg, next@[k2].0 as int, next@[k2].1 as int);
                    if k2 < next0.len() {
                        assert(next@[k2] == next0[k2]);
                        assert(cell(g_round, *cfg, next@[k2].0 as int, next@[k2].1 as int)
                            == TreeState::Unburned);
                        assert(cell(g_round, *cfg, r as int, c as int) == TreeState::Burning);
                        assert(cell(g0, *cfg, next@[k2].0 as int, next@[k2].1 as int)
                            == TreeState::Burning);
                    }
                }
                assert forall|k2: int| 0 <= k2 < next@.len() implies cell(
                    g_round,
                    *cfg,
                    #[trigger] next@[k2].0 as int,
                    next@[k2].1 as int,
                ) == TreeState::Unburned by {
                    lemma_cell_index_bound(*cfg, next@[k2].0 as int, next@[k2].1 as int);
                    if k2 >= next0.len() {
                        assert(cell(g0, *cfg, next@[k2].0 as int, next@[k2].1 as int)
                            == TreeState::Unburned);
                    }
                }
                assert forall|k1: int, k2: int| 0 <= k1 < k2 < next@.len() implies cell_index(
                    *cfg,
                    #[trigger] next@[k1].0 as int,
                    next@[k1].1 as int,
                ) != cell_index(*cfg, #[trigger] next@[k2].0 as int, next@[k2].1 as int) by {
                    lemma_cell_index_bound(*cfg, next@[k1].0 as int, next@[k1].1 as int);
                    lemma_cell_index_bound(*cfg, next@[k2].0 as int, next@[k2].1 as int);
                    if k1 < next0.len() && k2 >= next0.len() {
                        assert(cell(g0, *cfg, next@[k1].0 as int, next@[k1].1 as int)
                            == TreeState::Burning);
                        assert(cell(g0, *cfg, next@[k2].0 as int, next@[k2].1 as int)
                            == TreeState::Unburned);
                    }
                }
                assert forall|j: int|
                    0 <= j < total && #[trigger] forest@[j] == TreeState::Unburned implies g_round[j]
                    == TreeState::Unburned by {
                    assert(g0[j] == TreeState::Unburned);
                }
                if cfg.certain_spread() {
                    lemma_burned_closed_step(g0, forest@, *cfg, r as int, c as int);
                }
            }
        }
        proof {
            lemma_cell_index_bound(*cfg, frontier@[0].0 as int, frontier@[0].1 as int);
            lemma_count_present(
                g_round,
                cell_index(*cfg, frontier@[0].0 as int, frontier@[0].1 as int),
                TreeState::Burning,
            );
            lemma_count_bounds(g_round, TreeState::Unburned);
        }
        rounds = rounds + 1;
        frontier = next;
    }
    proof {
        lemma_count_bounds(forest@, TreeState::Unburned);
        lemma_count_bounds(forest@, TreeState::Burning);
        lemma_final_outcome(forest@, *cfg, burned);
    }
    (burned, rounds)
}

/// Runs one complete fire-spread simulation and returns the number of
/// cells that burned.
pub fn simulate_fire(cfg: &FireConfig) -> (burned: usize)
    requires
        cfg.wf(),
    ensures
        simulation_outcome(*cfg, burned),
{
    let out = simulate_fire_counting(cfg);
    out.0
}

} // verus!
