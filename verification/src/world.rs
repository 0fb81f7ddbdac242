//! The state of one game: the board, whether it has been generated, and the
//! counters kept beside it; and the generation of the board at the first click.
use vstd::prelude::*;

use crate::board::{
    lemma_same_flags, lemma_same_kinds,
    cell_at, get_num_neighbor_mines, in_bounds, is_in_bounds, is_mine, lemma_neighbor_mines_bound,
    lemma_neighbor_mines_same_mines, flag_count, no_revealed_flag, mine_count,
    neighbor_mines, number_count, numbered_kind, well_numbered, well_shaped, Cell, CellType,
    GRID_HEIGHT, GRID_WIDTH,
};
use crate::count::{
    count_cells, count_row, count_rows, lemma_count_cells_bound, lemma_count_cells_ext,
    lemma_count_cells_mono, lemma_count_cells_none, lemma_count_cells_one_more,
};
use crate::rng;

verus! {

/// Side of a cell on screen, in pixels.
pub const CELL_SIZE: usize = 40;

/// Number of mines on a board: a quarter of its cells, rounded.
pub const NUM_BOMBS: i32 = 56;

/// How far, in rows and in columns, the cells around the first click reach
/// that never hold a mine.
pub const SAFE_RADIUS: isize = 2;

/// One game.
pub struct World {
    /// The rows of the board.
    pub grid: Vec<Vec<Cell>>,
    pub cell_size: usize,
    /// Whether the mines have been placed (at the first left click).
    pub generated: bool,
    /// Whether the whole board has been shown (after a loss).
    pub revealed: bool,
    /// The seed the generator was given for this game.
    pub seed: u64,
    /// Number of flags on the board.
    pub num_flags: u32,
    /// Number of cells that hold a number.
    pub amt_numbers: u32,
    /// Number of left clicks that landed on a number.
    pub amt_revelead_numbers: u32,
}

/// `(x, y)` lies within `SAFE_RADIUS` rows and columns of `(sx, sy)`.
pub open spec fn in_safe_zone(sx: int, sy: int, x: int, y: int) -> bool {
    -SAFE_RADIUS <= x - sx <= SAFE_RADIUS && -SAFE_RADIUS <= y - sy <= SAFE_RADIUS
}

/// Number of cells that may receive a mine when the first click is at `(sx, sy)`:
/// `Empty` cells outside the safe zone.
pub open spec fn free_count(b: Seq<Vec<Cell>>, sx: int, sy: int) -> nat {
    count_cells(|x: int, y: int| cell_at(b, x, y).kind is Empty && !in_safe_zone(sx, sy, x, y))
}

/// Number of cells that hold a mine on `new` and did not on `old`.
pub open spec fn placed_count(old: Seq<Vec<Cell>>, new: Seq<Vec<Cell>>) -> nat {
    count_cells(|x: int, y: int| !(cell_at(old, x, y).kind is Mine) && cell_at(new, x, y).kind is Mine)
}

/// Every cell of the board is `Empty`.
pub open spec fn all_empty(b: Seq<Vec<Cell>>) -> bool {
    forall|x: int, y: int| in_bounds(x, y) ==> (#[trigger] cell_at(b, x, y)).kind is Empty
}

/// A covered, unflagged `Empty` cell.
pub open spec fn blank_cell() -> Cell {
    Cell { kind: CellType::Empty, revealed: false, flagged: false }
}

/// The board of a new game: every cell `Empty`, covered and unflagged.
pub open spec fn fresh_board(b: Seq<Vec<Cell>>) -> bool {
    &&& well_shaped(b)
    &&& forall|x: int, y: int|
        in_bounds(x, y) ==> #[trigger] cell_at(b, x, y) == blank_cell()
}

/// What generating at `(sx, sy)` did to the board `old`, giving `new`: covers
/// and flags are untouched; new mines lie only on `Empty` cells outside the
/// safe zone, and there are exactly `NUM_BOMBS` of them; every former `Empty`
/// cell that is not a mine now holds its neighbour count; other cells keep
/// what they held.
pub open spec fn generated_from(old: Seq<Vec<Cell>>, new: Seq<Vec<Cell>>, sx: int, sy: int) -> bool {
    &&& well_shaped(new)
    &&& placed_count(old, new) == NUM_BOMBS
    &&& forall|x: int, y: int|
        in_bounds(x, y) ==> {
            &&& (#[trigger] cell_at(new, x, y)).revealed == cell_at(old, x, y).revealed
            &&& cell_at(new, x, y).flagged == cell_at(old, x, y).flagged
            &&& cell_at(new, x, y).kind is Mine ==> cell_at(old, x, y).kind is Mine || (cell_at(
                old,
                x,
                y,
            ).kind is Empty && !in_safe_zone(sx, sy, x, y))
            &&& cell_at(old, x, y).kind is Mine ==> cell_at(new, x, y).kind is Mine
            &&& !(cell_at(new, x, y).kind is Mine) ==> cell_at(new, x, y).kind == if cell_at(
                old,
                x,
                y,
            ).kind is Empty {
                numbered_kind(new, x, y)
            } else {
                cell_at(old, x, y).kind
            }
        }
}

impl World {
    /// The world is in a state the game can reach: a board of the right shape,
    /// `num_flags` and `amt_numbers` counting the flags and the numbers on it,
    /// an all-`Empty` board before generation, and after generation exactly
    /// `NUM_BOMBS` mines with every other cell holding its neighbour count; and,
    /// until the board is shown, no cell both revealed and flagged.
    pub open spec fn wf(&self) -> bool {
        &&& well_shaped(self.grid@)
        &&& self.cell_size == CELL_SIZE
        &&& self.num_flags == flag_count(self.grid@)
        &&& self.amt_numbers == number_count(self.grid@)
        &&& self.generated ==> well_numbered(self.grid@) && mine_count(self.grid@) == NUM_BOMBS
        &&& !self.generated ==> all_empty(self.grid@)
        &&& !self.revealed ==> no_revealed_flag(self.grid@)
    }

    /// A new game with the given seed: an all-`Empty` covered board, nothing
    /// generated yet, and macroquad's generator seeded with `seed`.
    pub fn new(seed: u64) -> (w: Self)
        ensures
            w.wf(),
            fresh_board(w.grid@),
            w.cell_size == CELL_SIZE,
            !w.generated,
            !w.revealed,
            w.seed == seed,
            w.num_flags == 0,
            w.amt_numbers == 0,
            w.amt_revelead_numbers == 0,
    {
        let empty_grid = empty_grid();
        rng::srand(seed);
        proof {
            lemma_fresh_board_counts(empty_grid@);
        }
        World {
            grid: empty_grid,
            cell_size: CELL_SIZE,
            generated: false,
            revealed: false,
            seed,
            num_flags: 0,
            amt_numbers: 0,
            amt_revelead_numbers: 0,
        }
    }

    /// Places `NUM_BOMBS` mines at random outside the safe zone around
    /// `(safe_x, safe_y)`, then writes into every `Empty` cell with
    /// neighbouring mines their number, and records how many numbers it wrote.
    /// Needs at least `NUM_BOMBS` `Empty` cells outside the safe zone: with
    /// fewer the placement could never finish.
    pub fn generate(&mut self, safe_x: usize, safe_y: usize)
        requires
            well_shaped(old(self).grid@),
            safe_x <= isize::MAX - SAFE_RADIUS,
            safe_y <= isize::MAX - SAFE_RADIUS,
            free_count(old(self).grid@, safe_x as int, safe_y as int) >= NUM_BOMBS,
        ensures
            generated_from(old(self).grid@, final(self).grid@, safe_x as int, safe_y as int),
            final(self).amt_numbers == count_cells(
                |x: int, y: int|
                    cell_at(old(self).grid@, x, y).kind is Empty && cell_at(
                        final(self).grid@,
                        x,
                        y,
                    ).kind is Number,
            ),
            final(self).generated,
            final(self).cell_size == old(self).cell_size,
            final(self).revealed == old(self).revealed,
            final(self).seed == old(self).seed,
            final(self).num_flags == old(self).num_flags,
            final(self).amt_revelead_numbers == old(self).amt_revelead_numbers,
    {
        let ghost b0 = self.grid@;
        let excluded = safe_zone(safe_x, safe_y);
        proof {
            lemma_count_cells_ext(
                |x: int, y: int|
                    cell_at(b0, x, y).kind is Empty && !in_safe_zone(
                        safe_x as int,
                        safe_y as int,
                        x,
                        y,
                    ),
                |x: int, y: int| cell_at(b0, x, y).kind is Empty && !excluded@[y]@[x],
            );
        }
        place_mines(&mut self.grid, &excluded);
        let ghost m = self.grid@;
        let count_nums = write_numbers(&mut self.grid);
        self.amt_numbers = count_nums;
        self.generated = true;
        proof {
            lemma_generate_result(b0, m, self.grid@, safe_x as int, safe_y as int);
        }
    }
}

/// Putting together the placement of the mines (`b0` to `m`) and the writing
/// of the numbers (`m` to `b`).
proof fn lemma_generate_result(b0: Seq<Vec<Cell>>, m: Seq<Vec<Cell>>, b: Seq<Vec<Cell>>, sx: int, sy: int)
    requires
        well_shaped(b0),
        well_shaped(m),
        well_shaped(b),
        placed_count(b0, m) == NUM_BOMBS,
        forall|x: int, y: int|
            in_bounds(x, y) ==> {
                &&& (#[trigger] cell_at(m, x, y)).revealed == cell_at(b0, x, y).revealed
                &&& cell_at(m, x, y).flagged == cell_at(b0, x, y).flagged
                &&& cell_at(m, x, y).kind == cell_at(b0, x, y).kind || (cell_at(b0, x, y).kind is Empty
                    && !in_safe_zone(sx, sy, x, y) && cell_at(m, x, y).kind is Mine)
            },
        forall|x: int, y: int|
            in_bounds(x, y) ==> {
                &&& (#[trigger] cell_at(b, x, y)).revealed == cell_at(m, x, y).revealed
                &&& cell_at(b, x, y).flagged == cell_at(m, x, y).flagged
                &&& cell_at(b, x, y).kind == if cell_at(m, x, y).kind is Empty && neighbor_mines(m, x, y) > 0 {
                    CellType::Number(neighbor_mines(m, x, y) as u32)
                } else {
                    cell_at(m, x, y).kind
                }
            },
    ensures
        generated_from(b0, b, sx, sy),
        count_cells(|x: int, y: int| cell_at(m, x, y).kind is Empty && neighbor_mines(m, x, y) > 0)
            == count_cells(|x: int, y: int| cell_at(b0, x, y).kind is Empty && cell_at(b, x, y).kind is Number),
{
    assert forall|i: int, j: int| #[trigger] is_mine(b, i, j) == is_mine(m, i, j) by {
        if in_bounds(i, j) {
            assert(cell_at(b, i, j).kind == cell_at(m, i, j).kind || cell_at(b, i, j).kind is Number);
        }
    }
    assert forall|x: int, y: int| in_bounds(x, y) implies {
        &&& (#[trigger] cell_at(b, x, y)).revealed == cell_at(b0, x, y).revealed
        &&& cell_at(b, x, y).flagged == cell_at(b0, x, y).flagged
        &&& cell_at(b, x, y).kind is Mine ==> cell_at(b0, x, y).kind is Mine || (cell_at(
            b0,
            x,
            y,
        ).kind is Empty && !in_safe_zone(sx, sy, x, y))
        &&& cell_at(b0, x, y).kind is Mine ==> cell_at(b, x, y).kind is Mine
        &&& !(cell_at(b, x, y).kind is Mine) ==> cell_at(b, x, y).kind == if cell_at(
            b0,
            x,
            y,
        ).kind is Empty {
            numbered_kind(b, x, y)
        } else {
            cell_at(b0, x, y).kind
        }
    } by {
        assert(cell_at(m, x, y).revealed == cell_at(b0, x, y).revealed);
        lemma_neighbor_mines_same_mines(m, b, x, y);
    }
    lemma_count_cells_ext(
        |x: int, y: int| !(cell_at(b0, x, y).kind is Mine) && cell_at(m, x, y).kind is Mine,
        |x: int, y: int| !(cell_at(b0, x, y).kind is Mine) && cell_at(b, x, y).kind is Mine,
    );
    lemma_count_cells_ext(
        |x: int, y: int| cell_at(m, x, y).kind is Empty && neighbor_mines(m, x, y) > 0,
        |x: int, y: int| cell_at(b0, x, y).kind is Empty && cell_at(b, x, y).kind is Number,
    );
}

/// A board of `GRID_HEIGHT` rows of `GRID_WIDTH` covered, unflagged `Empty` cells.
fn empty_grid() -> (g: Vec<Vec<Cell>>)
    ensures
        fresh_board(g@),
{
    let mut grid: Vec<Vec<Cell>> = Vec::new();
    let mut y: usize = 0;
    while y < GRID_HEIGHT
        invariant
            y <= GRID_HEIGHT,
            grid@.len() == y,
            forall|j: int| 0 <= j < y ==> (#[trigger] grid@[j])@.len() == GRID_WIDTH,
            forall|i: int, j: int|
                0 <= i < GRID_WIDTH && 0 <= j < y ==> #[trigger] cell_at(grid@, i, j) == blank_cell(),
        decreases GRID_HEIGHT - y,
    {
        let mut row: Vec<Cell> = Vec::new();
        let mut x: usize = 0;
        while x < GRID_WIDTH
            invariant
                x <= GRID_WIDTH,
                row@.len() == x,
                forall|i: int|
                    0 <= i < x ==> #[trigger] row@[i] == blank_cell(),
            decreases GRID_WIDTH - x,
        {
            row.push(Cell::new(CellType::Empty));
            x += 1;
        }
        let ghost before = grid@;
        let ghost r = row;
        grid.push(row);
        proof {
            assert forall|j: int| 0 <= j < y implies #[trigger] grid@[j] == before[j] by {}
            assert(grid@[y as int] == r);
            assert forall|i: int, j: int|
                0 <= i < GRID_WIDTH && 0 <= j < y + 1 implies #[trigger] cell_at(grid@, i, j)
                == blank_cell() by {
                if j < y {
                    assert(grid@[j] == before[j]);
                    assert(cell_at(before, i, j) == blank_cell());
                } else {
                    assert(r@[i] == blank_cell());
                }
            }
        }
        y += 1;
    }
    grid
}

/// On a new board nothing is flagged and nothing holds a number.
proof fn lemma_fresh_board_counts(b: Seq<Vec<Cell>>)
    requires
        fresh_board(b),
    ensures
        flag_count(b) == 0,
        number_count(b) == 0,
        all_empty(b),
{
    assert forall|x: int, y: int| 0 <= x < GRID_WIDTH && 0 <= y < GRID_HEIGHT implies !(
    #[trigger] cell_at(b, x, y)).flagged by {}
    lemma_count_cells_none(|x: int, y: int| cell_at(b, x, y).flagged);
    lemma_count_cells_none(|x: int, y: int| cell_at(b, x, y).kind is Number);
}

/// The cells within `SAFE_RADIUS` of `(safe_x, safe_y)`, as a board of flags:
/// `true` exactly at the cells of the safe zone.
fn safe_zone(safe_x: usize, safe_y: usize) -> (mask: Vec<Vec<bool>>)
    requires
        safe_x <= isize::MAX - SAFE_RADIUS,
        safe_y <= isize::MAX - SAFE_RADIUS,
    ensures
        mask@.len() == GRID_HEIGHT,
        forall|y: int| 0 <= y < GRID_HEIGHT ==> (#[trigger] mask@[y])@.len() == GRID_WIDTH,
        forall|x: int, y: int|
            in_bounds(x, y) ==> #[trigger] mask@[y]@[x] == in_safe_zone(
                safe_x as int,
                safe_y as int,
                x,
                y,
            ),
{
    let mut mask: Vec<Vec<bool>> = Vec::new();
    let mut y: usize = 0;
    while y < GRID_HEIGHT
        invariant
            y <= GRID_HEIGHT,
            mask@.len() == y,
            forall|j: int| 0 <= j < y ==> (#[trigger] mask@[j])@.len() == GRID_WIDTH,
            forall|i: int, j: int| 0 <= i < GRID_WIDTH && 0 <= j < y ==> !#[trigger] mask@[j]@[i],
        decreases GRID_HEIGHT - y,
    {
        let mut row: Vec<bool> = Vec::new();
        let mut x: usize = 0;
        while x < GRID_WIDTH
            invariant
                x <= GRID_WIDTH,
                row@.len() == x,
                forall|i: int| 0 <= i < x ==> !#[trigger] row@[i],
            decreases GRID_WIDTH - x,
        {
            row.push(false);
            x += 1;
        }
        let ghost before = mask@;
        mask.push(row);
        proof {
            assert forall|j: int| 0 <= j < y implies #[trigger] mask@[j] == before[j] by {}
        }
        y += 1;
    }
    let ghost sx = safe_x as int;
    let ghost sy = safe_y as int;
    let mut dy: isize = -SAFE_RADIUS;
    while dy <= SAFE_RADIUS
        invariant
            sx <= isize::MAX - SAFE_RADIUS,
            sy <= isize::MAX - SAFE_RADIUS,
            sx == safe_x,
            sy == safe_y,
            -SAFE_RADIUS <= dy <= SAFE_RADIUS + 1,
            mask@.len() == GRID_HEIGHT,
            forall|j: int| 0 <= j < GRID_HEIGHT ==> (#[trigger] mask@[j])@.len() == GRID_WIDTH,
            forall|i: int, j: int|
                in_bounds(i, j) ==> #[trigger] mask@[j]@[i] == (in_safe_zone(sx, sy, i, j) && j - sy
                    < dy),
        decreases SAFE_RADIUS + 1 - dy,
    {
        let mut dx: isize = -SAFE_RADIUS;
        while dx <= SAFE_RADIUS
            invariant
                sx <= isize::MAX - SAFE_RADIUS,
                sy <= isize::MAX - SAFE_RADIUS,
                sx == safe_x,
                sy == safe_y,
                -SAFE_RADIUS <= dy <= SAFE_RADIUS,
                -SAFE_RADIUS <= dx <= SAFE_RADIUS + 1,
                mask@.len() == GRID_HEIGHT,
                forall|j: int| 0 <= j < GRID_HEIGHT ==> (#[trigger] mask@[j])@.len() == GRID_WIDTH,
                forall|i: int, j: int|
                    in_bounds(i, j) ==> #[trigger] mask@[j]@[i] == (in_safe_zone(sx, sy, i, j) && (j
                        - sy < dy || (j - sy == dy && i - sx < dx))),
            decreases SAFE_RADIUS + 1 - dx,
        {
            let nx = safe_x as isize + dx;
            let ny = safe_y as isize + dy;
            if is_in_bounds(nx, ny) {
                let ghost before = mask@;
                mask[ny as usize][nx as usize] = true;
                proof {
                    assert forall|i: int, j: int| in_bounds(i, j) && !(i == nx && j == ny) implies #[trigger] mask@[j]@[i]
                        == before[j]@[i] by {
                        if j != ny {
                            assert(mask@[j] == before[j]);
                        }
                    }
                    assert forall|j: int| 0 <= j < GRID_HEIGHT implies (#[trigger] mask@[j])@.len()
                        == GRID_WIDTH by {
                        if j != ny {
                            assert(mask@[j] == before[j]);
                        }
                    }
                }
            }
            dx += 1;
        }
        dy += 1;
    }
    mask
}

/// `g` is `b0` with mines added, only on cells that were `Empty` on `b0` and are
/// not marked in `mask`; nothing else has changed.
spec fn placement_ok(b0: Seq<Vec<Cell>>, g: Seq<Vec<Cell>>, mask: Seq<Vec<bool>>) -> bool {
    &&& well_shaped(g)
    &&& forall|x: int, y: int|
        in_bounds(x, y) ==> {
            &&& (#[trigger] cell_at(g, x, y)).revealed == cell_at(b0, x, y).revealed
            &&& cell_at(g, x, y).flagged == cell_at(b0, x, y).flagged
            &&& cell_at(g, x, y).kind == cell_at(b0, x, y).kind || (cell_at(b0, x, y).kind is Empty
                && !mask[y]@[x] && cell_at(g, x, y).kind is Mine)
        }
}

/// `new` is `old` with a mine on the cell `(x, y)`, nothing else changed.
pub open spec fn mine_put(old: Seq<Vec<Cell>>, new: Seq<Vec<Cell>>, x: int, y: int) -> bool {
    &&& well_shaped(new)
    &&& cell_at(new, x, y) == (Cell { kind: CellType::Mine, ..cell_at(old, x, y) })
    &&& forall|i: int, j: int|
        in_bounds(i, j) && !(i == x && j == y) ==> #[trigger] cell_at(new, i, j) == cell_at(old, i, j)
}

/// What is done with one drawn cell `(x, y)`: a mine goes there when the cell
/// is `Empty` and not marked in `excluded`; otherwise nothing changes.
/// Returns whether a mine was placed.
fn try_place_mine(grid: &mut Vec<Vec<Cell>>, excluded: &Vec<Vec<bool>>, x: usize, y: usize) -> (placed: bool)
    requires
        well_shaped(old(grid)@),
        excluded@.len() == GRID_HEIGHT,
        forall|j: int| 0 <= j < GRID_HEIGHT ==> (#[trigger] excluded@[j])@.len() == GRID_WIDTH,
        in_bounds(x as int, y as int),
    ensures
        placed == (cell_at(old(grid)@, x as int, y as int).kind is Empty && !excluded@[y as int]@[x as int]),
        placed ==> mine_put(old(grid)@, final(grid)@, x as int, y as int),
        !placed ==> final(grid)@ == old(grid)@,
{
    if grid[y][x].kind == CellType::Empty && !excluded[y][x] {
        let ghost g = grid@;
        grid[y][x].kind = CellType::Mine;
        proof {
            let g1 = grid@;
            assert forall|i: int, j: int|
                in_bounds(i, j) && !(i == x && j == y) implies #[trigger] cell_at(g1, i, j) == cell_at(
                g,
                i,
                j,
            ) by {
                if j != y {
                    assert(g1[j] == g[j]);
                }
            }
            assert forall|j: int| 0 <= j < GRID_HEIGHT implies (#[trigger] g1[j])@.len() == GRID_WIDTH by {
                if j != y {
                    assert(g1[j] == g[j]);
                }
            }
        }
        true
    } else {
        false
    }
}

/// A mine put on an `Empty` unmasked cell keeps the placement within its
/// bounds and adds one to the count of placed mines.
proof fn lemma_mine_put(
    b0: Seq<Vec<Cell>>,
    g: Seq<Vec<Cell>>,
    g1: Seq<Vec<Cell>>,
    mask: Seq<Vec<bool>>,
    x: int,
    y: int,
)
    requires
        placement_ok(b0, g, mask),
        in_bounds(x, y),
        cell_at(g, x, y).kind is Empty,
        !mask[y]@[x],
        mine_put(g, g1, x, y),
    ensures
        placement_ok(b0, g1, mask),
        placed_count(b0, g1) == placed_count(b0, g) + 1,
{
    assert(cell_at(g, x, y).kind == cell_at(b0, x, y).kind);
    lemma_count_cells_one_more(
        |i: int, j: int| !(cell_at(b0, i, j).kind is Mine) && cell_at(g, i, j).kind is Mine,
        |i: int, j: int| !(cell_at(b0, i, j).kind is Mine) && cell_at(g1, i, j).kind is Mine,
        x,
        y,
    );
}

/// Places `NUM_BOMBS` mines on cells that are `Empty` and not marked in
/// `excluded`, at positions drawn from macroquad's generator, a draw landing on
/// an unsuitable cell being drawn again. The draws are budgeted so that the
/// placement ends for every sequence of draws; should the budget (of `u64::MAX`
/// draws) ever run out, the remaining mines go on the first suitable cells in
/// row order.
fn place_mines(grid: &mut Vec<Vec<Cell>>, excluded: &Vec<Vec<bool>>)
    requires
        well_shaped(old(grid)@),
        excluded@.len() == GRID_HEIGHT,
        forall|y: int| 0 <= y < GRID_HEIGHT ==> (#[trigger] excluded@[y])@.len() == GRID_WIDTH,
        count_cells(|x: int, y: int| cell_at(old(grid)@, x, y).kind is Empty && !excluded@[y]@[x])
            >= NUM_BOMBS,
    ensures
        placement_ok(old(grid)@, final(grid)@, excluded@),
        placed_count(old(grid)@, final(grid)@) == NUM_BOMBS,
{
    let ghost b0 = grid@;
    let ghost mask = excluded@;
    proof {
        lemma_count_cells_none(
            |x: int, y: int| !(cell_at(b0, x, y).kind is Mine) && cell_at(b0, x, y).kind is Mine,
        );
    }
    let mut count: i32 = 0;
    let mut draws_left: u64 = u64::MAX;
    while count < NUM_BOMBS && draws_left > 0
        invariant
            placement_ok(b0, grid@, mask),
            mask == excluded@,
            mask.len() == GRID_HEIGHT,
            forall|y: int| 0 <= y < GRID_HEIGHT ==> (#[trigger] mask[y])@.len() == GRID_WIDTH,
            0 <= count <= NUM_BOMBS,
            count == placed_count(b0, grid@),
        decreases draws_left,
    {
        draws_left -= 1;
        let x = rng::gen_range(0, GRID_WIDTH as u64) as usize;
        let y = rng::gen_range(0, GRID_HEIGHT as u64) as usize;
        let ghost g = grid@;
        if try_place_mine(grid, excluded, x, y) {
            proof {
                lemma_mine_put(b0, g, grid@, mask, x as int, y as int);
            }
            count += 1;
        }
    }
    let mut y: usize = 0;
    while y < GRID_HEIGHT && count < NUM_BOMBS
        invariant
            placement_ok(b0, grid@, mask),
            mask == excluded@,
            mask.len() == GRID_HEIGHT,
            forall|j: int| 0 <= j < GRID_HEIGHT ==> (#[trigger] mask[j])@.len() == GRID_WIDTH,
            0 <= count <= NUM_BOMBS,
            count == placed_count(b0, grid@),
            y <= GRID_HEIGHT,
            count < NUM_BOMBS ==> forall|i: int, j: int|
                0 <= i < GRID_WIDTH && 0 <= j < y && cell_at(b0, i, j).kind is Empty && !mask[j]@[i]
                    ==> (#[trigger] cell_at(grid@, i, j)).kind is Mine,
        decreases GRID_HEIGHT - y,
    {
        let mut x: usize = 0;
        while x < GRID_WIDTH && count < NUM_BOMBS
            invariant
                placement_ok(b0, grid@, mask),
                mask == excluded@,
                mask.len() == GRID_HEIGHT,
                forall|j: int| 0 <= j < GRID_HEIGHT ==> (#[trigger] mask[j])@.len() == GRID_WIDTH,
                0 <= count <= NUM_BOMBS,
                count == placed_count(b0, grid@),
                y < GRID_HEIGHT,
                x <= GRID_WIDTH,
                count < NUM_BOMBS ==> forall|i: int, j: int|
                    0 <= i < GRID_WIDTH && (0 <= j < y || (j == y && 0 <= i < x)) && cell_at(
                        b0,
                        i,
                        j,
                    ).kind is Empty && !mask[j]@[i] ==> (#[trigger] cell_at(grid@, i, j)).kind is Mine,
            decreases GRID_WIDTH - x,
        {
            let ghost g = grid@;
            if try_place_mine(grid, excluded, x, y) {
                proof {
                    lemma_mine_put(b0, g, grid@, mask, x as int, y as int);
                }
                count += 1;
            } else {
                proof {
                    if cell_at(b0, x as int, y as int).kind is Empty && !mask[y as int]@[x as int] {
                        assert(cell_at(g, x as int, y as int).kind is Mine);
                    }
                }
            }
            x += 1;
        }
        y += 1;
    }
    proof {
        if count < NUM_BOMBS {
            let g = grid@;
            lemma_count_cells_mono(
                |x: int, y: int| cell_at(b0, x, y).kind is Empty && !mask[y]@[x],
                |x: int, y: int| !(cell_at(b0, x, y).kind is Mine) && cell_at(g, x, y).kind is Mine,
            );
            assert(false);
        }
    }
}

/// Writes into every `Empty` cell of `grid` with neighbouring mines the number
/// of these mines; returns how many cells it wrote into.
fn write_numbers(grid: &mut Vec<Vec<Cell>>) -> (count_nums: u32)
    requires
        well_shaped(old(grid)@),
    ensures
        well_shaped(final(grid)@),
        forall|x: int, y: int|
            in_bounds(x, y) ==> {
                &&& (#[trigger] cell_at(final(grid)@, x, y)).revealed == cell_at(old(grid)@, x, y).revealed
                &&& cell_at(final(grid)@, x, y).flagged == cell_at(old(grid)@, x, y).flagged
                &&& cell_at(final(grid)@, x, y).kind == if cell_at(old(grid)@, x, y).kind is Empty
                    && neighbor_mines(old(grid)@, x, y) > 0 {
                    CellType::Number(neighbor_mines(old(grid)@, x, y) as u32)
                } else {
                    cell_at(old(grid)@, x, y).kind
                }
            },
        count_nums == count_cells(
            |x: int, y: int|
                cell_at(old(grid)@, x, y).kind is Empty && neighbor_mines(old(grid)@, x, y) > 0,
        ),
{
    let ghost m = grid@;
    let mut count_nums: u32 = 0;
    let mut y: usize = 0;
    proof {
        lemma_count_cells_none(
            |i: int, j: int|
                (j < 0 || (j == 0 && i < 0)) && cell_at(m, i, j).kind is Empty && neighbor_mines(m, i, j) > 0,
        );
    }
    while y < GRID_HEIGHT
        invariant
            well_shaped(grid@),
            y <= GRID_HEIGHT,
            forall|i: int, j: int|
                in_bounds(i, j) ==> {
                    &&& (#[trigger] cell_at(grid@, i, j)).revealed == cell_at(m, i, j).revealed
                    &&& cell_at(grid@, i, j).flagged == cell_at(m, i, j).flagged
                    &&& cell_at(grid@, i, j).kind == if j < y && cell_at(m, i, j).kind is Empty
                        && neighbor_mines(m, i, j) > 0 {
                        CellType::Number(neighbor_mines(m, i, j) as u32)
                    } else {
                        cell_at(m, i, j).kind
                    }
                },
            count_nums == count_cells(
                |i: int, j: int|
                    (j < y || (j == y && i < 0)) && cell_at(m, i, j).kind is Empty
                        && neighbor_mines(m, i, j) > 0,
            ),
        decreases GRID_HEIGHT - y,
    {
        let mut x: usize = 0;
        while x < GRID_WIDTH
            invariant
                well_shaped(grid@),
                y < GRID_HEIGHT,
                x <= GRID_WIDTH,
                forall|i: int, j: int|
                    in_bounds(i, j) ==> {
                        &&& (#[trigger] cell_at(grid@, i, j)).revealed == cell_at(m, i, j).revealed
                        &&& cell_at(grid@, i, j).flagged == cell_at(m, i, j).flagged
                        &&& cell_at(grid@, i, j).kind == if (j < y || (j == y && i < x)) && cell_at(
                            m,
                            i,
                            j,
                        ).kind is Empty && neighbor_mines(m, i, j) > 0 {
                            CellType::Number(neighbor_mines(m, i, j) as u32)
                        } else {
                            cell_at(m, i, j).kind
                        }
                    },
                count_nums == count_cells(
                    |i: int, j: int|
                        (j < y || (j == y && i < x)) && cell_at(m, i, j).kind is Empty
                            && neighbor_mines(m, i, j) > 0,
                ),
            decreases GRID_WIDTH - x,
        {
            let ghost g = grid@;
            proof {
                assert forall|i: int, j: int| #[trigger] is_mine(g, i, j) == is_mine(m, i, j) by {
                    if in_bounds(i, j) {
                        assert(cell_at(g, i, j).kind == cell_at(m, i, j).kind || cell_at(g, i, j).kind is Number);
                    }
                }
                lemma_neighbor_mines_same_mines(g, m, x as int, y as int);
                lemma_neighbor_mines_bound(m, x as int, y as int);
                assert(cell_at(g, x as int, y as int).kind == cell_at(m, x as int, y as int).kind);
            }
            let n = get_num_neighbor_mines(grid, x, y);
            let ghost before = |i: int, j: int|
                (j < y || (j == y && i < x)) && cell_at(m, i, j).kind is Empty && neighbor_mines(m, i, j) > 0;
            let ghost after = |i: int, j: int|
                (j < y || (j == y && i < x + 1)) && cell_at(m, i, j).kind is Empty && neighbor_mines(m, i, j) > 0;
            if grid[y][x].kind == CellType::Empty && n > 0 {
                grid[y][x].kind = CellType::Number(n);
                proof {
                    let g1 = grid@;
                    assert forall|i: int, j: int|
                        in_bounds(i, j) && !(i == x && j == y) implies #[trigger] cell_at(g1, i, j)
                        == cell_at(g, i, j) by {
                        if j != y {
                            assert(g1[j] == g[j]);
                        }
                    }
                    assert forall|j: int| 0 <= j < GRID_HEIGHT implies (#[trigger] g1[j])@.len() == GRID_WIDTH by {
                        if j != y {
                            assert(g1[j] == g[j]);
                        }
                    }
                    lemma_count_cells_bound(after);
                    lemma_count_cells_one_more(before, after, x as int, y as int);
                }
                count_nums += 1;
            } else {
                proof {
                    lemma_count_cells_ext(before, after);
                }
            }
            x += 1;
        }
        proof {
            lemma_count_cells_ext(
                |i: int, j: int|
                    (j < y || (j == y && i < GRID_WIDTH)) && cell_at(m, i, j).kind is Empty
                        && neighbor_mines(m, i, j) > 0,
                |i: int, j: int|
                    (j < y + 1 || (j == y + 1 && i < 0)) && cell_at(m, i, j).kind is Empty
                        && neighbor_mines(m, i, j) > 0,
            );
        }
        y += 1;
    }
    proof {
        lemma_count_cells_ext(
            |i: int, j: int|
                (j < GRID_HEIGHT || (j == GRID_HEIGHT && i < 0)) && cell_at(m, i, j).kind is Empty
                    && neighbor_mines(m, i, j) > 0,
            |i: int, j: int| cell_at(m, i, j).kind is Empty && neighbor_mines(m, i, j) > 0,
        );
    }
    count_nums
}

/// Number of columns `x < n` within `SAFE_RADIUS` of column `sx`.
spec fn zone_cols(sx: int, n: int) -> int {
    let lo = if sx - SAFE_RADIUS > 0 {
        sx - SAFE_RADIUS
    } else {
        0
    };
    let hi = if sx + SAFE_RADIUS + 1 < n {
        sx + SAFE_RADIUS + 1
    } else {
        n
    };
    if hi > lo {
        hi - lo
    } else {
        0
    }
}

proof fn lemma_row_outside_zone(p: spec_fn(int, int) -> bool, sx: int, y: int, n: int)
    requires
        0 <= n,
        forall|x: int| 0 <= x < n && !(-SAFE_RADIUS <= x - sx <= SAFE_RADIUS) ==> #[trigger] p(x, y),
    ensures
        count_row(p, y, n) >= n - zone_cols(sx, n),
        zone_cols(sx, n) <= 2 * SAFE_RADIUS + 1,
    decreases n,
{
    if n > 0 {
        lemma_row_outside_zone(p, sx, y, n - 1);
    }
}

proof fn lemma_rows_outside_zone(p: spec_fn(int, int) -> bool, sx: int, m: int)
    requires
        0 <= m <= GRID_HEIGHT,
        forall|x: int, y: int|
            0 <= x < GRID_WIDTH && 0 <= y < GRID_HEIGHT && !(-SAFE_RADIUS <= x - sx <= SAFE_RADIUS)
                ==> #[trigger] p(x, y),
    ensures
        count_rows(p, m) >= 10 * m,
    decreases m,
{
    if m > 0 {
        lemma_rows_outside_zone(p, sx, m - 1);
        lemma_row_outside_zone(p, sx, m - 1, GRID_WIDTH as int);
    }
}

/// On an all-`Empty` board there is room for the mines wherever the first click is.
pub proof fn lemma_fresh_free_count(b: Seq<Vec<Cell>>, sx: int, sy: int)
    requires
        all_empty(b),
    ensures
        free_count(b, sx, sy) >= NUM_BOMBS,
{
    let p = |x: int, y: int| cell_at(b, x, y).kind is Empty && !in_safe_zone(sx, sy, x, y);
    assert forall|x: int, y: int|
        0 <= x < GRID_WIDTH && 0 <= y < GRID_HEIGHT && !(-SAFE_RADIUS <= x - sx <= SAFE_RADIUS)
        implies #[trigger] p(x, y) by {
        assert(cell_at(b, x, y).kind is Empty);
    }
    lemma_rows_outside_zone(p, sx, GRID_HEIGHT as int);
}

/// The first click is safe. When the mines are placed on a board that had
/// none, the cells around the click stay free of mines, so the clicked cell is
/// `Empty` and opens an area; the board holds exactly `NUM_BOMBS` mines and
/// every other cell its neighbour count; and the numbers written are all the
/// numbers on the board.
pub proof fn lemma_first_click_safe(old: Seq<Vec<Cell>>, new: Seq<Vec<Cell>>, sx: int, sy: int)
    requires
        well_shaped(old),
        all_empty(old),
        in_bounds(sx, sy),
        generated_from(old, new, sx, sy),
    ensures
        forall|x: int, y: int| in_safe_zone(sx, sy, x, y) ==> !#[trigger] is_mine(new, x, y),
        cell_at(new, sx, sy).kind is Empty,
        well_numbered(new),
        mine_count(new) == NUM_BOMBS,
        number_count(new) == count_cells(
            |x: int, y: int| cell_at(old, x, y).kind is Empty && cell_at(new, x, y).kind is Number,
        ),
{
    assert forall|x: int, y: int| in_safe_zone(sx, sy, x, y) implies !#[trigger] is_mine(new, x, y) by {
        if in_bounds(x, y) {
            assert(cell_at(old, x, y).kind is Empty);
        }
    }
    assert forall|x: int, y: int| in_bounds(x, y) implies #[trigger] cell_at(new, x, y).kind
        == numbered_kind(new, x, y) by {
        assert(cell_at(old, x, y).kind is Empty);
    }
    assert(neighbor_mines(new, sx, sy) == 0) by {
        assert(!is_mine(new, sx - 1, sy - 1));
        assert(!is_mine(new, sx, sy - 1));
        assert(!is_mine(new, sx + 1, sy - 1));
        assert(!is_mine(new, sx - 1, sy));
        assert(!is_mine(new, sx + 1, sy));
        assert(!is_mine(new, sx - 1, sy + 1));
        assert(!is_mine(new, sx, sy + 1));
        assert(!is_mine(new, sx + 1, sy + 1));
    }
    assert(!is_mine(new, sx, sy));
    assert(cell_at(new, sx, sy).kind == numbered_kind(new, sx, sy));
    lemma_count_cells_ext(
        |x: int, y: int| cell_at(new, x, y).kind is Mine,
        |x: int, y: int| !(cell_at(old, x, y).kind is Mine) && cell_at(new, x, y).kind is Mine,
    );
    lemma_count_cells_ext(
        |x: int, y: int| cell_at(new, x, y).kind is Number,
        |x: int, y: int| cell_at(old, x, y).kind is Empty && cell_at(new, x, y).kind is Number,
    );
}

/// Every cell that is not a mine is revealed.
pub open spec fn all_safe_revealed(b: Seq<Vec<Cell>>) -> bool {
    forall|x: int, y: int|
        in_bounds(x, y) ==> #[trigger] cell_at(b, x, y).kind is Mine || cell_at(b, x, y).revealed
}

/// Whether the game is won: every cell that is not a mine is revealed.
pub fn check_win(world: &World) -> (won: bool)
    requires
        well_shaped(world.grid@),
    ensures
        won == all_safe_revealed(world.grid@),
{
    let mut y: usize = 0;
    while y < GRID_HEIGHT
        invariant
            well_shaped(world.grid@),
            y <= GRID_HEIGHT,
            forall|i: int, j: int|
                0 <= i < GRID_WIDTH && 0 <= j < y ==> #[trigger] cell_at(world.grid@, i, j).kind is Mine
                    || cell_at(world.grid@, i, j).revealed,
        decreases GRID_HEIGHT - y,
    {
        let mut x: usize = 0;
        while x < GRID_WIDTH
            invariant
                well_shaped(world.grid@),
                y < GRID_HEIGHT,
                x <= GRID_WIDTH,
                forall|i: int, j: int|
                    0 <= i < GRID_WIDTH && (0 <= j < y || (j == y && i < x)) ==> #[trigger] cell_at(
                        world.grid@,
                        i,
                        j,
                    ).kind is Mine || cell_at(world.grid@, i, j).revealed,
            decreases GRID_WIDTH - x,
        {
            let cell = &world.grid[y][x];
            if cell.kind != CellType::Mine && !cell.revealed {
                proof {
                    assert(!(cell_at(world.grid@, x as int, y as int).kind is Mine));
                }
                return false;
            }
            x += 1;
        }
        y += 1;
    }
    true
}

/// Shows the whole board (after a loss): every cell revealed, and the world
/// marked as revealed. A well-formed world stays well formed.
pub fn reveal_board(world: &mut World)
    requires
        well_shaped(old(world).grid@),
    ensures
        well_shaped(final(world).grid@),
        final(world).revealed,
        forall|x: int, y: int|
            in_bounds(x, y) ==> {
                &&& (#[trigger] cell_at(final(world).grid@, x, y)).revealed
                &&& cell_at(final(world).grid@, x, y).kind == cell_at(old(world).grid@, x, y).kind
                &&& cell_at(final(world).grid@, x, y).flagged == cell_at(old(world).grid@, x, y).flagged
            },
        final(world).cell_size == old(world).cell_size,
        final(world).generated == old(world).generated,
        final(world).seed == old(world).seed,
        final(world).num_flags == old(world).num_flags,
        final(world).amt_numbers == old(world).amt_numbers,
        final(world).amt_revelead_numbers == old(world).amt_revelead_numbers,
        old(world).wf() ==> final(world).wf(),
{
    let ghost b0 = world.grid@;
    world.revealed = true;
    let mut y: usize = 0;
    while y < GRID_HEIGHT
        invariant
            well_shaped(world.grid@),
            world.revealed,
            world.cell_size == old(world).cell_size,
            world.generated == old(world).generated,
            world.seed == old(world).seed,
            world.num_flags == old(world).num_flags,
            world.amt_numbers == old(world).amt_numbers,
            world.amt_revelead_numbers == old(world).amt_revelead_numbers,
            b0 == old(world).grid@,
            y <= GRID_HEIGHT,
            forall|i: int, j: int|
                in_bounds(i, j) ==> {
                    &&& (#[trigger] cell_at(world.grid@, i, j)).revealed == (j < y || cell_at(
                        b0,
                        i,
                        j,
                    ).revealed)
                    &&& cell_at(world.grid@, i, j).kind == cell_at(b0, i, j).kind
                    &&& cell_at(world.grid@, i, j).flagged == cell_at(b0, i, j).flagged
                },
        decreases GRID_HEIGHT - y,
    {
        let mut x: usize = 0;
        while x < GRID_WIDTH
            invariant
                well_shaped(world.grid@),
                world.revealed,
                world.cell_size == old(world).cell_size,
                world.generated == old(world).generated,
                world.seed == old(world).seed,
                world.num_flags == old(world).num_flags,
                world.amt_numbers == old(world).amt_numbers,
                world.amt_revelead_numbers == old(world).amt_revelead_numbers,
                b0 == old(world).grid@,
                y < GRID_HEIGHT,
                x <= GRID_WIDTH,
                forall|i: int, j: int|
                    in_bounds(i, j) ==> {
                        &&& (#[trigger] cell_at(world.grid@, i, j)).revealed == (j < y || (j == y && i
                            < x) || cell_at(b0, i, j).revealed)
                        &&& cell_at(world.grid@, i, j).kind == cell_at(b0, i, j).kind
                        &&& cell_at(world.grid@, i, j).flagged == cell_at(b0, i, j).flagged
                    },
            decreases GRID_WIDTH - x,
        {
            let ghost g = world.grid@;
            world.grid[y][x].revealed = true;
            proof {
                let g1 = world.grid@;
                assert forall|i: int, j: int| in_bounds(i, j) && !(i == x && j == y) implies #[trigger] cell_at(g1, i, j)
                    == cell_at(g, i, j) by {
                    if j != y {
                        assert(g1[j] == g[j]);
                    }
                }
                assert forall|j: int| 0 <= j < GRID_HEIGHT implies (#[trigger] g1[j])@.len() == GRID_WIDTH by {
                    if j != y {
                        assert(g1[j] == g[j]);
                    }
                }
                assert(cell_at(g, x as int, y as int).kind == cell_at(b0, x as int, y as int).kind);
            }
            x += 1;
        }
        y += 1;
    }
    proof {
        lemma_same_kinds(b0, world.grid@);
        lemma_same_flags(b0, world.grid@);
        if old(world).wf() && !world.generated {
            assert forall|x: int, y: int| in_bounds(x, y) implies (#[trigger] cell_at(world.grid@, x, y)).kind is Empty by {
                assert(cell_at(b0, x, y).kind is Empty);
            }
        }
    }
}

/// The game is won exactly when no cell without a mine is still covered: one
/// covered cell without a mine, flagged or not, means it is not won, and a
/// board whose cells without a mine are all revealed is won.
pub proof fn lemma_won_exactly(b: Seq<Vec<Cell>>, x: int, y: int)
    ensures
        in_bounds(x, y) && !(cell_at(b, x, y).kind is Mine) && !cell_at(b, x, y).revealed
            ==> !all_safe_revealed(b),
        (forall|i: int, j: int|
            0 <= i < GRID_WIDTH && 0 <= j < GRID_HEIGHT && !(#[trigger] cell_at(b, i, j).kind is Mine)
                ==> cell_at(b, i, j).revealed) ==> all_safe_revealed(b),
{
}

/// The safe zone around `(sx, sy)` is the 5 × 5 square of the cells at most
/// 2 columns and at most 2 rows away: a cell 3 or more columns or rows away is
/// outside it.
pub proof fn lemma_safe_zone_square(sx: int, sy: int, x: int, y: int)
    ensures
        in_safe_zone(sx, sy, x, y) <==> (sx - 2 <= x <= sx + 2 && sy - 2 <= y <= sy + 2),
        (y - sy > 2 || sy - y > 2 || x - sx > 2 || sx - x > 2) ==> !in_safe_zone(sx, sy, x, y),
{
}

proof fn lemma_count_row_all(p: spec_fn(int, int) -> bool, y: int, n: int)
    requires
        0 <= n,
        forall|x: int| 0 <= x < n ==> #[trigger] p(x, y),
    ensures
        count_row(p, y, n) == n,
    decreases n,
{
    if n > 0 {
        lemma_count_row_all(p, y, n - 1);
    }
}

proof fn lemma_rows_outside_square(p: spec_fn(int, int) -> bool, sx: int, sy: int, m: int)
    requires
        0 <= m <= GRID_HEIGHT,
        forall|x: int, y: int|
            0 <= x < GRID_WIDTH && 0 <= y < GRID_HEIGHT && !in_safe_zone(sx, sy, x, y)
                ==> #[trigger] p(x, y),
    ensures
        count_rows(p, m) >= GRID_WIDTH * m - 5 * zone_cols(sy, m),
        zone_cols(sy, m) <= 2 * SAFE_RADIUS + 1,
    decreases m,
{
    if m > 0 {
        let y = m - 1;
        lemma_rows_outside_square(p, sx, sy, m - 1);
        if -SAFE_RADIUS <= y - sy <= SAFE_RADIUS {
            lemma_row_outside_zone(p, sx, y, GRID_WIDTH as int);
        } else {
            lemma_count_row_all(p, y, GRID_WIDTH as int);
        }
    }
}

/// The safe zone takes at most 25 cells: on an all-`Empty` board at least 200
/// of the 225 cells may receive a mine, wherever the first click is.
pub proof fn lemma_safe_zone_size(b: Seq<Vec<Cell>>, sx: int, sy: int)
    requires
        all_empty(b),
    ensures
        free_count(b, sx, sy) >= 200,
{
    let p = |x: int, y: int| cell_at(b, x, y).kind is Empty && !in_safe_zone(sx, sy, x, y);
    assert forall|x: int, y: int|
        0 <= x < GRID_WIDTH && 0 <= y < GRID_HEIGHT && !in_safe_zone(sx, sy, x, y)
        implies #[trigger] p(x, y) by {
        assert(cell_at(b, x, y).kind is Empty);
    }
    lemma_rows_outside_square(p, sx, sy, GRID_HEIGHT as int);
}

} // verus!
