//! Counting the cells of the board that satisfy a predicate on their
//! coordinates, and the facts about such counts that the board's proofs use.
use vstd::prelude::*;

use crate::board::{GRID_HEIGHT, GRID_WIDTH};

verus! {

/// Number of columns `x < n` of row `y` where `p(x, y)` holds.
pub open spec fn count_row(p: spec_fn(int, int) -> bool, y: int, n: int) -> nat
    decreases n,
{
    if n <= 0 {
        0
    } else {
        count_row(p, y, n - 1) + if p(n - 1, y) {
            1nat
        } else {
            0nat
        }
    }
}

/// Number of cells in the first `m` rows of the board where `p` holds.
pub open spec fn count_rows(p: spec_fn(int, int) -> bool, m: int) -> nat
    decreases m,
{
    if m <= 0 {
        0
    } else {
        count_rows(p, m - 1) + count_row(p, m - 1, GRID_WIDTH as int)
    }
}

/// Number of cells of the whole board where `p` holds.
pub open spec fn count_cells(p: spec_fn(int, int) -> bool) -> nat {
    count_rows(p, GRID_HEIGHT as int)
}

/// A row holds at most as many matching cells as it has columns.
pub proof fn lemma_count_row_bound(p: spec_fn(int, int) -> bool, y: int, n: int)
    requires
        0 <= n,
    ensures
        count_row(p, y, n) <= n,
    decreases n,
{
    if n > 0 {
        lemma_count_row_bound(p, y, n - 1);
    }
}

/// The first `m` rows hold at most `m` times the width matching cells.
pub proof fn lemma_count_rows_bound(p: spec_fn(int, int) -> bool, m: int)
    requires
        0 <= m,
    ensures
        count_rows(p, m) <= m * GRID_WIDTH,
    decreases m,
{
    if m > 0 {
        lemma_count_rows_bound(p, m - 1);
        lemma_count_row_bound(p, m - 1, GRID_WIDTH as int);
    }
}

/// The board holds at most as many matching cells as it has cells.
pub proof fn lemma_count_cells_bound(p: spec_fn(int, int) -> bool)
    ensures
        count_cells(p) <= GRID_WIDTH * GRID_HEIGHT,
{
    lemma_count_rows_bound(p, GRID_HEIGHT as int);
}

/// Where `p` implies `q` on a row prefix, `q` counts at least as many cells.
pub proof fn lemma_count_row_mono(
    p: spec_fn(int, int) -> bool,
    q: spec_fn(int, int) -> bool,
    y: int,
    n: int,
)
    requires
        forall|x: int| 0 <= x < n && #[trigger] p(x, y) ==> q(x, y),
    ensures
        count_row(p, y, n) <= count_row(q, y, n),
    decreases n,
{
    if n > 0 {
        lemma_count_row_mono(p, q, y, n - 1);
    }
}

/// Where `p` implies `q` on the first `m` rows, `q` counts at least as many cells.
pub proof fn lemma_count_rows_mono(p: spec_fn(int, int) -> bool, q: spec_fn(int, int) -> bool, m: int)
    requires
        forall|x: int, y: int|
            0 <= x < GRID_WIDTH && 0 <= y < m && #[trigger] p(x, y) ==> q(x, y),
    ensures
        count_rows(p, m) <= count_rows(q, m),
    decreases m,
{
    if m > 0 {
        lemma_count_rows_mono(p, q, m - 1);
        lemma_count_row_mono(p, q, m - 1, GRID_WIDTH as int);
    }
}

/// Where `p` implies `q` on every cell of the board, `q` counts at least as many cells.
pub proof fn lemma_count_cells_mono(p: spec_fn(int, int) -> bool, q: spec_fn(int, int) -> bool)
    requires
        forall|x: int, y: int|
            0 <= x < GRID_WIDTH && 0 <= y < GRID_HEIGHT && #[trigger] p(x, y) ==> q(x, y),
    ensures
        count_cells(p) <= count_cells(q),
{
    lemma_count_rows_mono(p, q, GRID_HEIGHT as int);
}

/// Predicates that agree on every cell of the board count the same cells.
pub proof fn lemma_count_cells_ext(p: spec_fn(int, int) -> bool, q: spec_fn(int, int) -> bool)
    requires
        forall|x: int, y: int|
            0 <= x < GRID_WIDTH && 0 <= y < GRID_HEIGHT ==> #[trigger] p(x, y) == q(x, y),
    ensures
        count_cells(p) == count_cells(q),
{
    lemma_count_cells_mono(p, q);
    lemma_count_cells_mono(q, p);
}

/// Two predicates that agree on a row prefix but for one column `x0` where only
/// `q` holds: `q` counts one more cell there when `x0` lies in the prefix.
pub proof fn lemma_count_row_one_more(
    p: spec_fn(int, int) -> bool,
    q: spec_fn(int, int) -> bool,
    y: int,
    n: int,
    x0: int,
)
    requires
        0 <= x0,
        !p(x0, y),
        q(x0, y),
        forall|x: int| 0 <= x < n && x != x0 ==> #[trigger] p(x, y) == q(x, y),
    ensures
        count_row(q, y, n) == count_row(p, y, n) + if x0 < n {
            1nat
        } else {
            0nat
        },
    decreases n,
{
    if n > 0 {
        lemma_count_row_one_more(p, q, y, n - 1, x0);
    }
}

/// Two predicates that agree on the first `m` rows but for one cell `(x0, y0)` of
/// the board where only `q` holds: `q` counts one more cell when `y0 < m`.
pub proof fn lemma_count_rows_one_more(
    p: spec_fn(int, int) -> bool,
    q: spec_fn(int, int) -> bool,
    m: int,
    x0: int,
    y0: int,
)
    requires
        0 <= x0 < GRID_WIDTH,
        0 <= y0,
        !p(x0, y0),
        q(x0, y0),
        forall|x: int, y: int|
            0 <= x < GRID_WIDTH && 0 <= y < m && !(x == x0 && y == y0) ==> #[trigger] p(x, y)
                == q(x, y),
    ensures
        count_rows(q, m) == count_rows(p, m) + if y0 < m {
            1nat
        } else {
            0nat
        },
    decreases m,
{
    if m > 0 {
        lemma_count_rows_one_more(p, q, m - 1, x0, y0);
        let y = m - 1;
        if y == y0 {
            lemma_count_row_one_more(p, q, y, GRID_WIDTH as int, x0);
        } else {
            assert forall|x: int| 0 <= x < GRID_WIDTH implies #[trigger] p(x, y) == q(x, y) by {}
            lemma_count_row_mono(p, q, y, GRID_WIDTH as int);
            lemma_count_row_mono(q, p, y, GRID_WIDTH as int);
        }
    }
}

/// Two predicates that agree on every cell of the board but one, `(x0, y0)`,
/// where only `q` holds: `q` counts exactly one cell more.
pub proof fn lemma_count_cells_one_more(
    p: spec_fn(int, int) -> bool,
    q: spec_fn(int, int) -> bool,
    x0: int,
    y0: int,
)
    requires
        0 <= x0 < GRID_WIDTH,
        0 <= y0 < GRID_HEIGHT,
        !p(x0, y0),
        q(x0, y0),
        forall|x: int, y: int|
            0 <= x < GRID_WIDTH && 0 <= y < GRID_HEIGHT && !(x == x0 && y == y0)
                ==> #[trigger] p(x, y) == q(x, y),
    ensures
        count_cells(q) == count_cells(p) + 1,
{
    lemma_count_rows_one_more(p, q, GRID_HEIGHT as int, x0, y0);
}

/// A row prefix with no matching cell counts none.
pub proof fn lemma_count_row_none(p: spec_fn(int, int) -> bool, y: int, n: int)
    requires
        forall|x: int| 0 <= x < n ==> !#[trigger] p(x, y),
    ensures
        count_row(p, y, n) == 0,
    decreases n,
{
    if n > 0 {
        lemma_count_row_none(p, y, n - 1);
    }
}

/// A board with no matching cell counts none.
pub proof fn lemma_count_cells_none(p: spec_fn(int, int) -> bool)
    requires
        forall|x: int, y: int| 0 <= x < GRID_WIDTH && 0 <= y < GRID_HEIGHT ==> !#[trigger] p(x, y),
    ensures
        count_cells(p) == 0,
{
    lemma_count_rows_none(p, GRID_HEIGHT as int);
}

proof fn lemma_count_rows_none(p: spec_fn(int, int) -> bool, m: int)
    requires
        m <= GRID_HEIGHT,
        forall|x: int, y: int| 0 <= x < GRID_WIDTH && 0 <= y < GRID_HEIGHT ==> !#[trigger] p(x, y),
    ensures
        count_rows(p, m) == 0,
    decreases m,
{
    if m > 0 {
        lemma_count_rows_none(p, m - 1);
        lemma_count_row_none(p, m - 1, GRID_WIDTH as int);
    }
}

} // verus!
