//! The board: its cells, its geometry, and the counting of neighbouring mines.
use vstd::prelude::*;

use crate::count::{count_cells, lemma_count_cells_ext};

verus! {

/// Number of columns of the board.
pub const GRID_WIDTH: usize = 15;

/// Number of rows of the board.
pub const GRID_HEIGHT: usize = 15;

/// What a cell holds: a mine, the number of mines around it, or nothing.
#[derive(Clone, Copy, Debug, PartialEq, Eq, Structural)]
pub enum CellType {
    Mine,
    Number(u32),
    Empty,
}

/// One square of the board.
#[derive(Clone, Copy, Debug, PartialEq, Eq, Structural)]
pub struct Cell {
    pub kind: CellType,
    pub revealed: bool,
    pub flagged: bool,
}

impl Cell {
    /// A covered, unflagged cell of the given kind.
    pub fn new(cell_type: CellType) -> (cell: Self)
        ensures
            cell.kind == cell_type,
            !cell.revealed,
            !cell.flagged,
    {
        Cell { kind: cell_type, revealed: false, flagged: false }
    }
}

/// `(x, y)` names a cell of the board.
pub open spec fn in_bounds(x: int, y: int) -> bool {
    0 <= x < GRID_WIDTH && 0 <= y < GRID_HEIGHT
}

/// The rows of `b` form a board: `GRID_HEIGHT` rows of `GRID_WIDTH` cells.
pub open spec fn well_shaped(b: Seq<Vec<Cell>>) -> bool {
    &&& b.len() == GRID_HEIGHT
    &&& forall|y: int| 0 <= y < GRID_HEIGHT ==> (#[trigger] b[y])@.len() == GRID_WIDTH
}

/// The cell at column `x`, row `y`.
pub open spec fn cell_at(b: Seq<Vec<Cell>>, x: int, y: int) -> Cell {
    b[y]@[x]
}

/// `(x, y)` is a cell of the board and holds a mine.
pub open spec fn is_mine(b: Seq<Vec<Cell>>, x: int, y: int) -> bool {
    in_bounds(x, y) && cell_at(b, x, y).kind is Mine
}

/// `(x, y)` and `(nx, ny)` are distinct cells that touch by a side or a corner.
pub open spec fn adjacent(x: int, y: int, nx: int, ny: int) -> bool {
    &&& -1 <= nx - x <= 1
    &&& -1 <= ny - y <= 1
    &&& !(nx == x && ny == y)
}

/// 1 if the cell at offset `(dx, dy)` from `(x, y)` is a neighbouring mine, else 0.
pub open spec fn mine_term(b: Seq<Vec<Cell>>, x: int, y: int, dx: int, dy: int) -> nat {
    if !(dx == 0 && dy == 0) && is_mine(b, x + dx, y + dy) {
        1
    } else {
        0
    }
}

/// Neighbouring mines among the first `n` columns (offsets `-1 .. n - 1`) of row offset `dy`.
pub open spec fn row_prefix_mines(b: Seq<Vec<Cell>>, x: int, y: int, dy: int, n: int) -> nat {
    if n <= 0 {
        0
    } else if n == 1 {
        mine_term(b, x, y, -1, dy)
    } else if n == 2 {
        mine_term(b, x, y, -1, dy) + mine_term(b, x, y, 0, dy)
    } else {
        mine_term(b, x, y, -1, dy) + mine_term(b, x, y, 0, dy) + mine_term(b, x, y, 1, dy)
    }
}

/// Neighbouring mines among the first `m` rows (offsets `-1 .. m - 1`) around `(x, y)`.
pub open spec fn rows_prefix_mines(b: Seq<Vec<Cell>>, x: int, y: int, m: int) -> nat {
    if m <= 0 {
        0
    } else if m == 1 {
        row_prefix_mines(b, x, y, -1, 3)
    } else if m == 2 {
        row_prefix_mines(b, x, y, -1, 3) + row_prefix_mines(b, x, y, 0, 3)
    } else {
        row_prefix_mines(b, x, y, -1, 3) + row_prefix_mines(b, x, y, 0, 3) + row_prefix_mines(
            b,
            x,
            y,
            1,
            3,
        )
    }
}

/// Number of mines among the (up to eight) cells adjacent to `(x, y)`.
pub open spec fn neighbor_mines(b: Seq<Vec<Cell>>, x: int, y: int) -> nat {
    rows_prefix_mines(b, x, y, 3)
}

/// Number of cells of the board that hold a mine.
pub open spec fn mine_count(b: Seq<Vec<Cell>>) -> nat {
    count_cells(|x: int, y: int| cell_at(b, x, y).kind is Mine)
}

/// Number of cells of the board that hold a number.
pub open spec fn number_count(b: Seq<Vec<Cell>>) -> nat {
    count_cells(|x: int, y: int| cell_at(b, x, y).kind is Number)
}

/// Number of flagged cells of the board.
pub open spec fn flag_count(b: Seq<Vec<Cell>>) -> nat {
    count_cells(|x: int, y: int| cell_at(b, x, y).flagged)
}

/// Number of covered cells of the board.
pub open spec fn hidden_count(b: Seq<Vec<Cell>>) -> nat {
    count_cells(|x: int, y: int| !cell_at(b, x, y).revealed)
}

/// What a cell of a well-numbered board holds, given whether it is a mine:
/// a mine, or the number of its neighbouring mines when there are any, or nothing.
pub open spec fn numbered_kind(b: Seq<Vec<Cell>>, x: int, y: int) -> CellType {
    if is_mine(b, x, y) {
        CellType::Mine
    } else if neighbor_mines(b, x, y) > 0 {
        CellType::Number(neighbor_mines(b, x, y) as u32)
    } else {
        CellType::Empty
    }
}

/// Every cell that is not a mine holds the number of its neighbouring mines
/// (and is `Empty` where there are none).
pub open spec fn well_numbered(b: Seq<Vec<Cell>>) -> bool {
    forall|x: int, y: int| in_bounds(x, y) ==> #[trigger] cell_at(b, x, y).kind == numbered_kind(b, x, y)
}

/// No cell is both revealed and flagged.
pub open spec fn no_revealed_flag(b: Seq<Vec<Cell>>) -> bool {
    forall|x: int, y: int| in_bounds(x, y) ==> !((#[trigger] cell_at(b, x, y)).revealed && cell_at(b, x, y).flagged)
}

/// Every cell of the two boards holds the same kind of content.
pub open spec fn same_kinds(a: Seq<Vec<Cell>>, b: Seq<Vec<Cell>>) -> bool {
    forall|x: int, y: int| in_bounds(x, y) ==> #[trigger] cell_at(a, x, y).kind == cell_at(b, x, y).kind
}

/// A neighbour count is at most eight.
pub proof fn lemma_neighbor_mines_bound(b: Seq<Vec<Cell>>, x: int, y: int)
    ensures
        neighbor_mines(b, x, y) <= 8,
{
}

/// Boards with mines at the same cells give every cell the same neighbour count.
pub proof fn lemma_neighbor_mines_same_mines(a: Seq<Vec<Cell>>, b: Seq<Vec<Cell>>, x: int, y: int)
    requires
        forall|nx: int, ny: int| #[trigger] is_mine(a, nx, ny) == is_mine(b, nx, ny),
    ensures
        neighbor_mines(a, x, y) == neighbor_mines(b, x, y),
{
    assert(is_mine(a, x - 1, y - 1) == is_mine(b, x - 1, y - 1));
    assert(is_mine(a, x, y - 1) == is_mine(b, x, y - 1));
    assert(is_mine(a, x + 1, y - 1) == is_mine(b, x + 1, y - 1));
    assert(is_mine(a, x - 1, y) == is_mine(b, x - 1, y));
    assert(is_mine(a, x + 1, y) == is_mine(b, x + 1, y));
    assert(is_mine(a, x - 1, y + 1) == is_mine(b, x - 1, y + 1));
    assert(is_mine(a, x, y + 1) == is_mine(b, x, y + 1));
    assert(is_mine(a, x + 1, y + 1) == is_mine(b, x + 1, y + 1));
}

/// A cell with no neighbouring mines has no mine on any adjacent cell.
pub proof fn lemma_no_neighbor_mines(b: Seq<Vec<Cell>>, x: int, y: int, nx: int, ny: int)
    requires
        neighbor_mines(b, x, y) == 0,
        adjacent(x, y, nx, ny),
    ensures
        !is_mine(b, nx, ny),
{
    assert(mine_term(b, x, y, nx - x, ny - y) == 0);
}

/// Whether `(x, y)` names a cell of the board.
pub fn is_in_bounds(x: isize, y: isize) -> (r: bool)
    ensures
        r == in_bounds(x as int, y as int),
{
    x >= 0 && x < GRID_WIDTH as isize && y >= 0 && y < GRID_HEIGHT as isize
}

/// The cell at grid coordinates `(gx, gy)`, if these name a cell of the board.
pub fn to_grid(gx: isize, gy: isize) -> (r: Option<(usize, usize)>)
    ensures
        r matches Some((x, y)) ==> x == gx && y == gy,
        r is Some <==> in_bounds(gx as int, gy as int),
{
    if is_in_bounds(gx, gy) {
        Some((gx as usize, gy as usize))
    } else {
        None
    }
}

/// Number of mines on the cells adjacent to `(x, y)`.
pub fn get_num_neighbor_mines(grid: &Vec<Vec<Cell>>, x: usize, y: usize) -> (n: u32)
    requires
        well_shaped(grid@),
        x < isize::MAX,
        y < isize::MAX,
    ensures
        n == neighbor_mines(grid@, x as int, y as int),
{
    let ghost b = grid@;
    let mut mine_neighbours: u32 = 0;
    let mut dy: isize = -1;
    while dy <= 1
        invariant
            well_shaped(b),
            b == grid@,
            x < isize::MAX,
            y < isize::MAX,
            -1 <= dy <= 2,
            mine_neighbours == rows_prefix_mines(b, x as int, y as int, dy + 1),
        decreases 2 - dy,
    {
        let mut dx: isize = -1;
        while dx <= 1
            invariant
                well_shaped(b),
                b == grid@,
                x < isize::MAX,
                y < isize::MAX,
                -1 <= dy <= 1,
                -1 <= dx <= 2,
                mine_neighbours == rows_prefix_mines(b, x as int, y as int, dy + 1)
                    + row_prefix_mines(b, x as int, y as int, dy as int, dx + 1),
            decreases 2 - dx,
        {
            if !(dx == 0 && dy == 0) {
                let nx = x as isize + dx;
                let ny = y as isize + dy;
                if is_in_bounds(nx, ny) {
                    if grid[ny as usize][nx as usize].kind == CellType::Mine {
                        mine_neighbours += 1;
                    }
                }
            }
            dx += 1;
        }
        dy += 1;
    }
    mine_neighbours
}

/// Boards whose cells hold the same kinds have the same mines, the same
/// counts of mines and numbers, and are well numbered together.
pub proof fn lemma_same_kinds(a: Seq<Vec<Cell>>, b: Seq<Vec<Cell>>)
    requires
        same_kinds(a, b),
    ensures
        forall|x: int, y: int| #[trigger] is_mine(a, x, y) == is_mine(b, x, y),
        mine_count(a) == mine_count(b),
        number_count(a) == number_count(b),
        well_numbered(a) ==> well_numbered(b),
{
    assert forall|x: int, y: int| #[trigger] is_mine(a, x, y) == is_mine(b, x, y) by {
        if in_bounds(x, y) {
            assert(cell_at(a, x, y).kind == cell_at(b, x, y).kind);
        }
    }
    lemma_count_cells_ext(
        |x: int, y: int| cell_at(a, x, y).kind is Mine,
        |x: int, y: int| cell_at(b, x, y).kind is Mine,
    );
    lemma_count_cells_ext(
        |x: int, y: int| cell_at(a, x, y).kind is Number,
        |x: int, y: int| cell_at(b, x, y).kind is Number,
    );
    if well_numbered(a) {
        assert forall|x: int, y: int| in_bounds(x, y) implies #[trigger] cell_at(b, x, y).kind
            == numbered_kind(b, x, y) by {
            assert(cell_at(a, x, y).kind == numbered_kind(a, x, y));
            lemma_neighbor_mines_same_mines(a, b, x, y);
        }
    }
}

/// Boards with the same flags have the same number of flags.
pub proof fn lemma_same_flags(a: Seq<Vec<Cell>>, b: Seq<Vec<Cell>>)
    requires
        forall|x: int, y: int| in_bounds(x, y) ==> #[trigger] cell_at(a, x, y).flagged == cell_at(b, x, y).flagged,
    ensures
        flag_count(a) == flag_count(b),
{
    lemma_count_cells_ext(
        |x: int, y: int| cell_at(a, x, y).flagged,
        |x: int, y: int| cell_at(b, x, y).flagged,
    );
}

/// A board without mines gives every cell a neighbour count of zero.
pub proof fn lemma_neighbor_mines_no_mines(b: Seq<Vec<Cell>>, x: int, y: int)
    requires
        forall|i: int, j: int| !#[trigger] is_mine(b, i, j),
    ensures
        neighbor_mines(b, x, y) == 0,
{
    assert(!is_mine(b, x - 1, y - 1));
    assert(!is_mine(b, x, y - 1));
    assert(!is_mine(b, x + 1, y - 1));
    assert(!is_mine(b, x - 1, y));
    assert(!is_mine(b, x + 1, y));
    assert(!is_mine(b, x - 1, y + 1));
    assert(!is_mine(b, x, y + 1));
    assert(!is_mine(b, x + 1, y + 1));
}

/// One more mine, at `(mx, my)`, raises the neighbour count of `(x, y)` by
/// exactly one when `(mx, my)` is one of the eight cells touching `(x, y)` by a
/// side or a corner, and leaves it as it is otherwise (the cell itself included).
/// With the board without mines counting zero, this fixes the count as the
/// number of mines among the eight surrounding cells.
pub proof fn lemma_neighbor_mines_one_more_mine(
    a: Seq<Vec<Cell>>,
    b: Seq<Vec<Cell>>,
    x: int,
    y: int,
    mx: int,
    my: int,
)
    requires
        !is_mine(a, mx, my),
        is_mine(b, mx, my),
        forall|i: int, j: int| !(i == mx && j == my) ==> #[trigger] is_mine(a, i, j) == is_mine(b, i, j),
    ensures
        (-1 <= mx - x <= 1 && -1 <= my - y <= 1 && !(mx == x && my == y)) ==> neighbor_mines(b, x, y)
            == neighbor_mines(a, x, y) + 1,
        !(-1 <= mx - x <= 1 && -1 <= my - y <= 1 && !(mx == x && my == y)) ==> neighbor_mines(b, x, y)
            == neighbor_mines(a, x, y),
{
    assert(is_mine(a, x - 1, y - 1) == is_mine(b, x - 1, y - 1) || (mx == x - 1 && my == y - 1));
    assert(is_mine(a, x, y - 1) == is_mine(b, x, y - 1) || (mx == x && my == y - 1));
    assert(is_mine(a, x + 1, y - 1) == is_mine(b, x + 1, y - 1) || (mx == x + 1 && my == y - 1));
    assert(is_mine(a, x - 1, y) == is_mine(b, x - 1, y) || (mx == x - 1 && my == y));
    assert(is_mine(a, x + 1, y) == is_mine(b, x + 1, y) || (mx == x + 1 && my == y));
    assert(is_mine(a, x - 1, y + 1) == is_mine(b, x - 1, y + 1) || (mx == x - 1 && my == y + 1));
    assert(is_mine(a, x, y + 1) == is_mine(b, x, y + 1) || (mx == x && my == y + 1));
    assert(is_mine(a, x + 1, y + 1) == is_mine(b, x + 1, y + 1) || (mx == x + 1 && my == y + 1));
}

/// The neighbours of a cell are all eight cells touching it by a side or a
/// corner, and no other cell.
pub proof fn lemma_adjacent_eight(x: int, y: int, nx: int, ny: int)
    ensures
        adjacent(x, y, nx, ny) <==> (-1 <= nx - x <= 1 && -1 <= ny - y <= 1 && (nx != x || ny != y)),
        adjacent(x, y, x - 1, y - 1),
        adjacent(x, y, x + 1, y - 1),
        adjacent(x, y, x - 1, y + 1),
        adjacent(x, y, x + 1, y + 1),
        adjacent(x, y, x, y - 1),
        adjacent(x, y, x, y + 1),
        adjacent(x, y, x - 1, y),
        adjacent(x, y, x + 1, y),
{
}

} // verus!
