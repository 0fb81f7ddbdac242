//! Opening a region of the board: revealing a cell and, through every revealed
//! `Empty` cell, its neighbours, as far as the empty area reaches.
use vstd::prelude::*;

use std::collections::VecDeque;

use crate::board::{
    adjacent, cell_at, hidden_count, in_bounds, is_in_bounds, is_mine, lemma_no_neighbor_mines,
    neighbor_mines, no_revealed_flag, numbered_kind, well_numbered, well_shaped, Cell, CellType,
};
use crate::count::lemma_count_cells_one_more;

verus! {

broadcast use vstd::std_specs::vecdeque::group_vec_dequeue_axioms;

/// The cell is revealed or carries a flag.
pub open spec fn revealed_or_flagged(b: Seq<Vec<Cell>>, x: int, y: int) -> bool {
    cell_at(b, x, y).revealed || cell_at(b, x, y).flagged
}

/// The cell was covered on `old` and is revealed on `new`.
pub open spec fn newly_revealed(old: Seq<Vec<Cell>>, new: Seq<Vec<Cell>>, x: int, y: int) -> bool {
    in_bounds(x, y) && !cell_at(old, x, y).revealed && cell_at(new, x, y).revealed
}

/// The cell was revealed between `old` and `new` and is `Empty`.
pub open spec fn opened(old: Seq<Vec<Cell>>, new: Seq<Vec<Cell>>, x: int, y: int) -> bool {
    newly_revealed(old, new, x, y) && cell_at(new, x, y).kind is Empty
}

/// `(x, y)` is one of the entries of the queue.
pub open spec fn in_queue(q: Seq<(usize, usize)>, x: int, y: int) -> bool {
    exists|i: int| 0 <= i < q.len() && (#[trigger] q[i]).0 == x && q[i].1 == y
}

/// `new` differs from `old` only in cells that became revealed: same shape,
/// same kinds, same flags, and nothing revealed got covered again.
pub open spec fn fill_frame(old: Seq<Vec<Cell>>, new: Seq<Vec<Cell>>) -> bool {
    &&& well_shaped(new)
    &&& forall|x: int, y: int|
        in_bounds(x, y) ==> {
            &&& (#[trigger] cell_at(new, x, y)).kind == cell_at(old, x, y).kind
            &&& cell_at(new, x, y).flagged == cell_at(old, x, y).flagged
            &&& cell_at(old, x, y).revealed ==> cell_at(new, x, y).revealed
        }
}

/// The fill went as far as it should: the start cell is revealed or flagged, and
/// every neighbour of every cell that the fill opened is revealed or flagged.
pub open spec fn fill_closed(old: Seq<Vec<Cell>>, new: Seq<Vec<Cell>>, sx: int, sy: int) -> bool {
    &&& revealed_or_flagged(new, sx, sy)
    &&& forall|x: int, y: int, nx: int, ny: int|
        #![trigger opened(old, new, x, y), revealed_or_flagged(new, nx, ny)]
        opened(old, new, x, y) && in_bounds(nx, ny) && adjacent(x, y, nx, ny) ==> revealed_or_flagged(
            new,
            nx,
            ny,
        )
}

/// Every cell that the fill revealed was unflagged, and is the start cell or the
/// neighbour `pred[c]` of a cell opened earlier (in the order `rank`).
pub open spec fn fill_ordered(
    old: Seq<Vec<Cell>>,
    new: Seq<Vec<Cell>>,
    sx: int,
    sy: int,
    rank: Map<(int, int), int>,
    pred: Map<(int, int), (int, int)>,
) -> bool {
    forall|x: int, y: int|
        #[trigger] newly_revealed(old, new, x, y) ==> {
            &&& !cell_at(new, x, y).flagged
            &&& (x == sx && y == sy) || {
                let d = pred[(x, y)];
                &&& opened(old, new, d.0, d.1)
                &&& adjacent(d.0, d.1, x, y)
                &&& rank[d] < rank[(x, y)]
            }
        }
}

/// The fill went no further than it should: every cell it revealed is reached
/// from the start cell through a chain of cells that it opened.
pub open spec fn fill_sound(old: Seq<Vec<Cell>>, new: Seq<Vec<Cell>>, sx: int, sy: int) -> bool {
    exists|rank: Map<(int, int), int>, pred: Map<(int, int), (int, int)>|
        fill_ordered(old, new, sx, sy, rank, pred)
}

/// `new` is what filling `old` from `(sx, sy)` gives: only covers removed,
/// exactly the cells reached from the start through opened cells.
pub open spec fn filled(old: Seq<Vec<Cell>>, new: Seq<Vec<Cell>>, sx: int, sy: int) -> bool {
    &&& fill_frame(old, new)
    &&& fill_closed(old, new, sx, sy)
    &&& fill_sound(old, new, sx, sy)
}

proof fn lemma_in_queue_push(q: Seq<(usize, usize)>, e: (usize, usize), x: int, y: int)
    requires
        in_queue(q, x, y) || (e.0 == x && e.1 == y),
    ensures
        in_queue(q.push(e), x, y),
{
    if e.0 == x && e.1 == y {
        assert(q.push(e)[q.len() as int] == e);
    } else {
        let i = choose|i: int| 0 <= i < q.len() && (#[trigger] q[i]).0 == x && q[i].1 == y;
        assert(q.push(e)[i] == q[i]);
    }
}

proof fn lemma_in_queue_pop(q: Seq<(usize, usize)>, x: int, y: int)
    requires
        q.len() > 0,
        in_queue(q, x, y),
        !(q[0].0 == x && q[0].1 == y),
    ensures
        in_queue(q.subrange(1, q.len() as int), x, y),
{
    let i = choose|i: int| 0 <= i < q.len() && (#[trigger] q[i]).0 == x && q[i].1 == y;
    assert(i != 0);
    assert(q.subrange(1, q.len() as int)[i - 1] == q[i]);
}

/// `(x, y)` is still to be visited: it waits in the queue, or it is the entry
/// just taken from the queue.
spec fn pending(q: Seq<(usize, usize)>, held: Option<(int, int)>, x: int, y: int) -> bool {
    in_queue(q, x, y) || held == Some((x, y))
}

/// What is known of the `i`-th entry of the queue and of the cell whose
/// visit put it there (`None` for the start cell).
spec fn entry_ok(
    b0: Seq<Vec<Cell>>,
    g: Seq<Vec<Cell>>,
    q: Seq<(usize, usize)>,
    par: Seq<Option<(int, int)>>,
    i: int,
    sx: int,
    sy: int,
) -> bool {
    &&& in_bounds(q[i].0 as int, q[i].1 as int)
    &&& par[i] is None ==> q[i].0 == sx && q[i].1 == sy
    &&& par[i] matches Some(d) ==> opened(b0, g, d.0, d.1) && adjacent(
        d.0,
        d.1,
        q[i].0 as int,
        q[i].1 as int,
    )
}

/// The invariant of the breadth-first fill, from the board `b0` it started on
/// to the current board `g`, with the queue `q` and the ghost record of the
/// order of the visits.
spec fn fill_inv(
    b0: Seq<Vec<Cell>>,
    g: Seq<Vec<Cell>>,
    q: Seq<(usize, usize)>,
    par: Seq<Option<(int, int)>>,
    rank: Map<(int, int), int>,
    pred: Map<(int, int), (int, int)>,
    counter: int,
    sx: int,
    sy: int,
    held: Option<(int, int)>,
) -> bool {
    &&& fill_frame(b0, g)
    &&& in_bounds(sx, sy)
    &&& par.len() == q.len()
    &&& forall|i: int| 0 <= i < q.len() ==> #[trigger] entry_ok(b0, g, q, par, i, sx, sy)
    &&& forall|x: int, y: int| #[trigger]
        newly_revealed(b0, g, x, y) ==> rank.dom().contains((x, y)) && rank[(x, y)] < counter
    &&& fill_ordered(b0, g, sx, sy, rank, pred)
    &&& revealed_or_flagged(g, sx, sy) || pending(q, held, sx, sy)
    &&& forall|x: int, y: int, nx: int, ny: int|
        #![trigger opened(b0, g, x, y), revealed_or_flagged(g, nx, ny)]
        opened(b0, g, x, y) && in_bounds(nx, ny) && adjacent(x, y, nx, ny) ==> revealed_or_flagged(g, nx, ny)
            || pending(q, held, nx, ny)
}

/// Taking the first entry off the queue: it becomes the held entry.
proof fn lemma_fill_pop(
    b0: Seq<Vec<Cell>>,
    g: Seq<Vec<Cell>>,
    q: Seq<(usize, usize)>,
    par: Seq<Option<(int, int)>>,
    rank: Map<(int, int), int>,
    pred: Map<(int, int), (int, int)>,
    counter: int,
    sx: int,
    sy: int,
)
    requires
        fill_inv(b0, g, q, par, rank, pred, counter, sx, sy, None),
        q.len() > 0,
    ensures
        fill_inv(
            b0,
            g,
            q.subrange(1, q.len() as int),
            par.subrange(1, par.len() as int),
            rank,
            pred,
            counter,
            sx,
            sy,
            Some((q[0].0 as int, q[0].1 as int)),
        ),
        entry_ok(b0, g, q, par, 0, sx, sy),
{
    let q1 = q.subrange(1, q.len() as int);
    let par1 = par.subrange(1, par.len() as int);
    let held = Some((q[0].0 as int, q[0].1 as int));
    assert(entry_ok(b0, g, q, par, 0, sx, sy));
    assert forall|i: int| 0 <= i < q1.len() implies #[trigger] entry_ok(
        b0,
        g,
        q1,
        par1,
        i,
        sx,
        sy,
    ) by {
        assert(entry_ok(b0, g, q, par, i + 1, sx, sy));
        assert(q1[i] == q[i + 1]);
        assert(par1[i] == par[i + 1]);
    }
    assert forall|nx: int, ny: int| pending(q, None, nx, ny) implies pending(q1, held, nx, ny) by {
        if !(q[0].0 == nx && q[0].1 == ny) {
            lemma_in_queue_pop(q, nx, ny);
        }
    }
}

/// The held entry was already revealed or flagged: it is dropped.
proof fn lemma_fill_skip(
    b0: Seq<Vec<Cell>>,
    g: Seq<Vec<Cell>>,
    q: Seq<(usize, usize)>,
    par: Seq<Option<(int, int)>>,
    rank: Map<(int, int), int>,
    pred: Map<(int, int), (int, int)>,
    counter: int,
    sx: int,
    sy: int,
    c: (int, int),
)
    requires
        fill_inv(b0, g, q, par, rank, pred, counter, sx, sy, Some(c)),
        revealed_or_flagged(g, c.0, c.1),
    ensures
        fill_inv(b0, g, q, par, rank, pred, counter, sx, sy, None),
{
}

/// The held entry `c` was covered and unflagged and has been revealed (`g1`);
/// if it is `Empty`, all its neighbours have been queued after it (`q1`).
proof fn lemma_fill_reveal(
    b0: Seq<Vec<Cell>>,
    g: Seq<Vec<Cell>>,
    g1: Seq<Vec<Cell>>,
    q: Seq<(usize, usize)>,
    q1: Seq<(usize, usize)>,
    par: Seq<Option<(int, int)>>,
    par1: Seq<Option<(int, int)>>,
    rank: Map<(int, int), int>,
    pred: Map<(int, int), (int, int)>,
    counter: int,
    sx: int,
    sy: int,
    c: (int, int),
    parent: Option<(int, int)>,
)
    requires
        fill_inv(b0, g, q, par, rank, pred, counter, sx, sy, Some(c)),
        in_bounds(c.0, c.1),
        !revealed_or_flagged(g, c.0, c.1),
        parent is None ==> c.0 == sx && c.1 == sy,
        parent matches Some(d) ==> opened(b0, g, d.0, d.1) && adjacent(d.0, d.1, c.0, c.1),
        well_shaped(g1),
        cell_at(g1, c.0, c.1) == (Cell { revealed: true, ..cell_at(g, c.0, c.1) }),
        forall|x: int, y: int|
            in_bounds(x, y) && !(x == c.0 && y == c.1) ==> #[trigger] cell_at(g1, x, y) == cell_at(
                g,
                x,
                y,
            ),
        q1.len() >= q.len(),
        q1.len() > q.len() ==> cell_at(g, c.0, c.1).kind is Empty,
        par1.len() == q1.len(),
        forall|i: int| 0 <= i < q.len() ==> #[trigger] q1[i] == q[i] && par1[i] == par[i],
        forall|i: int|
            q.len() <= i < q1.len() ==> {
                &&& in_bounds((#[trigger] q1[i]).0 as int, q1[i].1 as int)
                &&& adjacent(c.0, c.1, q1[i].0 as int, q1[i].1 as int)
                &&& par1[i] == Some(c)
            },
        cell_at(g, c.0, c.1).kind is Empty ==> forall|nx: int, ny: int|
            in_bounds(nx, ny) && #[trigger] adjacent(c.0, c.1, nx, ny) ==> in_queue(q1, nx, ny),
    ensures
        fill_inv(
            b0,
            g1,
            q1,
            par1,
            rank.insert(c, counter),
            pred.insert(
                c,
                match parent {
                    Some(d) => d,
                    None => (sx, sy),
                },
            ),
            counter + 1,
            sx,
            sy,
            None,
        ),
{
    let rank1 = rank.insert(c, counter);
    let pred1 = pred.insert(
        c,
        match parent {
            Some(d) => d,
            None => (sx, sy),
        },
    );
    assert(!cell_at(b0, c.0, c.1).revealed);
    assert forall|x: int, y: int| #[trigger] opened(b0, g, x, y) implies opened(b0, g1, x, y) by {
        if !(x == c.0 && y == c.1) {
            assert(cell_at(g1, x, y) == cell_at(g, x, y));
        }
    }
    assert forall|x: int, y: int| #[trigger] newly_revealed(b0, g1, x, y) implies (x == c.0 && y
        == c.1) || newly_revealed(b0, g, x, y) by {
        if !(x == c.0 && y == c.1) {
            assert(cell_at(g1, x, y) == cell_at(g, x, y));
        }
    }
    assert forall|x: int, y: int| in_bounds(x, y) && #[trigger] revealed_or_flagged(g, x, y) implies revealed_or_flagged(g1, x, y) by {
        if !(x == c.0 && y == c.1) {
            assert(cell_at(g1, x, y) == cell_at(g, x, y));
        }
    }
    assert(revealed_or_flagged(g1, c.0, c.1));
    // the frame
    assert forall|x: int, y: int| in_bounds(x, y) implies {
        &&& (#[trigger] cell_at(g1, x, y)).kind == cell_at(b0, x, y).kind
        &&& cell_at(g1, x, y).flagged == cell_at(b0, x, y).flagged
        &&& cell_at(b0, x, y).revealed ==> cell_at(g1, x, y).revealed
    } by {
        assert(cell_at(g, x, y).kind == cell_at(b0, x, y).kind);
    }
    // the queue entries
    assert forall|i: int| 0 <= i < q1.len() implies #[trigger] entry_ok(
        b0,
        g1,
        q1,
        par1,
        i,
        sx,
        sy,
    ) by {
        if i < q.len() {
            assert(entry_ok(b0, g, q, par, i, sx, sy));
            assert(q1[i] == q[i]);
        } else {
            assert(opened(b0, g1, c.0, c.1));
        }
    }
    // the ranks
    assert forall|x: int, y: int| #[trigger] newly_revealed(b0, g1, x, y) implies rank1.dom().contains(
        (x, y),
    ) && rank1[(x, y)] < counter + 1 by {
        if !(x == c.0 && y == c.1) {
            assert(newly_revealed(b0, g, x, y));
        }
    }
    assert forall|x: int, y: int| #[trigger] newly_revealed(b0, g1, x, y) implies {
        &&& !cell_at(g1, x, y).flagged
        &&& (x == sx && y == sy) || {
            let d = pred1[(x, y)];
            &&& opened(b0, g1, d.0, d.1)
            &&& adjacent(d.0, d.1, x, y)
            &&& rank1[d] < rank1[(x, y)]
        }
    } by {
        if x == c.0 && y == c.1 {
            if let Some(d) = parent {
                assert(newly_revealed(b0, g, d.0, d.1));
            }
        } else {
            assert(newly_revealed(b0, g, x, y));
            if !(x == sx && y == sy) {
                let d = pred[(x, y)];
                assert(newly_revealed(b0, g, d.0, d.1));
            }
        }
    }
    assert(fill_ordered(b0, g1, sx, sy, rank1, pred1));
    // what is still to visit
    assert forall|nx: int, ny: int| #[trigger] in_queue(q, nx, ny) implies in_queue(q1, nx, ny) by {
        let i = choose|i: int| 0 <= i < q.len() && (#[trigger] q[i]).0 == nx && q[i].1 == ny;
        assert(q1[i] == q[i]);
    }
    assert(revealed_or_flagged(g1, sx, sy) || pending(q1, None, sx, sy));
    assert forall|x: int, y: int, nx: int, ny: int|
        #![trigger opened(b0, g1, x, y), revealed_or_flagged(g1, nx, ny)]
        opened(b0, g1, x, y) && in_bounds(nx, ny) && adjacent(x, y, nx, ny) implies revealed_or_flagged(
        g1,
        nx,
        ny,
    ) || pending(q1, None, nx, ny) by {
        if x == c.0 && y == c.1 {
            assert(in_queue(q1, nx, ny));
        } else {
            assert(opened(b0, g, x, y)) by {
                assert(cell_at(g1, x, y) == cell_at(g, x, y));
            }
            assert(revealed_or_flagged(g, nx, ny) || pending(q, Some(c), nx, ny));
        }
    }
}

/// Queues, after the entries already there, every neighbour of `(x, y)`
/// that lies on the board.
fn push_neighbors(queue: &mut VecDeque<(usize, usize)>, x: usize, y: usize)
    requires
        in_bounds(x as int, y as int),
    ensures
        final(queue)@.len() >= old(queue)@.len(),
        forall|i: int| 0 <= i < old(queue)@.len() ==> #[trigger] final(queue)@[i] == old(queue)@[i],
        forall|i: int|
            old(queue)@.len() <= i < final(queue)@.len() ==> in_bounds(
                (#[trigger] final(queue)@[i]).0 as int,
                final(queue)@[i].1 as int,
            ) && adjacent(x as int, y as int, final(queue)@[i].0 as int, final(queue)@[i].1 as int),
        forall|nx: int, ny: int|
            in_bounds(nx, ny) && #[trigger] adjacent(x as int, y as int, nx, ny) ==> in_queue(
                final(queue)@,
                nx,
                ny,
            ),
{
    let ghost q0 = queue@;
    let mut dy: isize = -1;
    while dy <= 1
        invariant
            in_bounds(x as int, y as int),
            -1 <= dy <= 2,
            queue@.len() >= q0.len(),
            forall|i: int| 0 <= i < q0.len() ==> #[trigger] queue@[i] == q0[i],
            forall|i: int|
                q0.len() <= i < queue@.len() ==> in_bounds(
                    (#[trigger] queue@[i]).0 as int,
                    queue@[i].1 as int,
                ) && adjacent(x as int, y as int, queue@[i].0 as int, queue@[i].1 as int),
            forall|nx: int, ny: int|
                in_bounds(nx, ny) && #[trigger] adjacent(x as int, y as int, nx, ny) && ny - y < dy
                    ==> in_queue(queue@, nx, ny),
        decreases 2 - dy,
    {
        let mut dx: isize = -1;
        while dx <= 1
            invariant
                in_bounds(x as int, y as int),
                -1 <= dy <= 1,
                -1 <= dx <= 2,
                queue@.len() >= q0.len(),
                forall|i: int| 0 <= i < q0.len() ==> #[trigger] queue@[i] == q0[i],
                forall|i: int|
                    q0.len() <= i < queue@.len() ==> in_bounds(
                        (#[trigger] queue@[i]).0 as int,
                        queue@[i].1 as int,
                    ) && adjacent(x as int, y as int, queue@[i].0 as int, queue@[i].1 as int),
                forall|nx: int, ny: int|
                    in_bounds(nx, ny) && #[trigger] adjacent(x as int, y as int, nx, ny) && (ny - y
                        < dy || (ny - y == dy && nx - x < dx)) ==> in_queue(queue@, nx, ny),
            decreases 2 - dx,
        {
            let ghost qa = queue@;
            if !(dx == 0 && dy == 0) {
                let nx = x as isize + dx;
                let ny = y as isize + dy;
                if is_in_bounds(nx, ny) {
                    queue.push_back((nx as usize, ny as usize));
                    proof {
                        lemma_in_queue_push(qa, (nx as usize, ny as usize), nx as int, ny as int);
                        assert(queue@[qa.len() as int] == (nx as usize, ny as usize));
                        assert forall|i: int| 0 <= i < qa.len() implies #[trigger] queue@[i]
                            == qa[i] by {}
                    }
                }
            }
            proof {
                assert forall|mx: int, my: int|
                    in_bounds(mx, my) && #[trigger] adjacent(x as int, y as int, mx, my) && (my - y
                        < dy || (my - y == dy && mx - x < dx + 1)) implies in_queue(
                    queue@,
                    mx,
                    my,
                ) by {
                    if my - y == dy && mx - x == dx {
                        assert(in_queue(queue@, x + dx, y + dy));
                    } else {
                        assert(in_queue(qa, mx, my));
                        if queue@.len() > qa.len() {
                            lemma_in_queue_push(qa, queue@[qa.len() as int], mx, my);
                            assert(queue@ == qa.push(queue@[qa.len() as int]));
                        }
                    }
                }
            }
            dx += 1;
        }
        dy += 1;
    }
}

/// Reveals the cell `(start_x, start_y)` and, through every revealed `Empty`
/// cell, its neighbours, breadth first. Revealed and flagged cells are left as
/// they are and do not spread the fill.
pub fn flood_fill(grid: &mut Vec<Vec<Cell>>, start_x: usize, start_y: usize)
    requires
        well_shaped(old(grid)@),
        in_bounds(start_x as int, start_y as int),
    ensures
        fill_frame(old(grid)@, final(grid)@),
        fill_closed(old(grid)@, final(grid)@, start_x as int, start_y as int),
        fill_sound(old(grid)@, final(grid)@, start_x as int, start_y as int),
{
    let ghost b0 = grid@;
    let ghost sx = start_x as int;
    let ghost sy = start_y as int;
    let mut queue: VecDeque<(usize, usize)> = VecDeque::new();
    queue.push_back((start_x, start_y));
    let ghost mut parents: Seq<Option<(int, int)>> = seq![None];
    let ghost mut rank: Map<(int, int), int> = Map::empty();
    let ghost mut pred: Map<(int, int), (int, int)> = Map::empty();
    let ghost mut counter: int = 0;
    proof {
        assert(queue@[0] == (start_x, start_y));
        assert(entry_ok(b0, b0, queue@, parents, 0, sx, sy));
        assert(in_queue(queue@, sx, sy));
    }
    loop
        invariant
            fill_inv(b0, grid@, queue@, parents, rank, pred, counter, sx, sy, None),
            sx == start_x,
            sy == start_y,
        ensures
            queue@.len() == 0,
        decreases hidden_count(grid@), queue@.len(),
    {
        let ghost q = queue@;
        let ghost g = grid@;
        let ghost par0 = parents;
        match queue.pop_front() {
            None => {
                break ;
            },
            Some((x, y)) => {
                let ghost parent = parents[0];
                proof {
                    assert(q[0] == (x, y));
                    lemma_fill_pop(b0, g, q, par0, rank, pred, counter, sx, sy);
                    parents = parents.subrange(1, parents.len() as int);
                }
                let ghost qp = queue@;
                let ghost pp = parents;
                if !(grid[y][x].revealed || grid[y][x].flagged) {
                    grid[y][x].revealed = true;
                    let ghost g1 = grid@;
                    proof {
                        assert forall|cx: int, cy: int|
                            in_bounds(cx, cy) && !(cx == x && cy == y) implies #[trigger] cell_at(
                            g1,
                            cx,
                            cy,
                        ) == cell_at(g, cx, cy) by {
                            if cy != y {
                                assert(g1[cy] == g[cy]);
                            }
                        }
                        lemma_count_cells_one_more(
                            |cx: int, cy: int| !cell_at(g1, cx, cy).revealed,
                            |cx: int, cy: int| !cell_at(g, cx, cy).revealed,
                            x as int,
                            y as int,
                        );
                    }
                    if grid[y][x].kind == CellType::Empty {
                        push_neighbors(&mut queue, x, y);
                        proof {
                            parents = parents + Seq::new(
                                (queue@.len() - qp.len()) as nat,
                                |i: int| Some((x as int, y as int)),
                            );
                        }
                    }
                    proof {
                        lemma_fill_reveal(
                            b0,
                            g,
                            g1,
                            qp,
                            queue@,
                            pp,
                            parents,
                            rank,
                            pred,
                            counter,
                            sx,
                            sy,
                            (x as int, y as int),
                            parent,
                        );
                        rank = rank.insert((x as int, y as int), counter);
                        pred = pred.insert(
                            (x as int, y as int),
                            match parent {
                                Some(d) => d,
                                None => (sx, sy),
                            },
                        );
                        counter = counter + 1;
                    }
                } else {
                    proof {
                        lemma_fill_skip(
                            b0,
                            g,
                            qp,
                            pp,
                            rank,
                            pred,
                            counter,
                            sx,
                            sy,
                            (x as int, y as int),
                        );
                    }
                }
            },
        }
    }
    proof {
        assert forall|x: int, y: int| !in_queue(queue@, x, y) by {}
        assert(fill_ordered(b0, grid@, sx, sy, rank, pred));
    }
}

/// Filling a well-numbered board from a cell that is not a mine reveals no
/// mine: every cell it reveals is the start or touches an opened `Empty` cell,
/// and an `Empty` cell of such a board has no neighbouring mine.
pub proof fn lemma_fill_reveals_no_mine(old: Seq<Vec<Cell>>, new: Seq<Vec<Cell>>, sx: int, sy: int)
    requires
        well_numbered(old),
        filled(old, new, sx, sy),
        in_bounds(sx, sy),
        !is_mine(old, sx, sy),
    ensures
        forall|x: int, y: int| #[trigger] newly_revealed(old, new, x, y) ==> !is_mine(new, x, y),
{
    let (rank, pred) = choose|rank: Map<(int, int), int>, pred: Map<(int, int), (int, int)>|
        fill_ordered(old, new, sx, sy, rank, pred);
    assert forall|x: int, y: int| #[trigger] newly_revealed(old, new, x, y) implies !is_mine(new, x, y) by {
        assert(cell_at(new, x, y).kind == cell_at(old, x, y).kind);
        if !(x == sx && y == sy) {
            let d = pred[(x, y)];
            assert(opened(old, new, d.0, d.1));
            assert(cell_at(new, d.0, d.1).kind == cell_at(old, d.0, d.1).kind);
            assert(cell_at(old, d.0, d.1).kind == numbered_kind(old, d.0, d.1));
            assert(neighbor_mines(old, d.0, d.1) == 0);
            lemma_no_neighbor_mines(old, d.0, d.1, x, y);
        }
    }
}

/// A fill reveals no flagged cell: a board where no cell is both revealed and
/// flagged stays so.
pub proof fn lemma_fill_no_revealed_flag(old: Seq<Vec<Cell>>, new: Seq<Vec<Cell>>, sx: int, sy: int)
    requires
        filled(old, new, sx, sy),
        no_revealed_flag(old),
    ensures
        no_revealed_flag(new),
{
    let (rank, pred) = choose|rank: Map<(int, int), int>, pred: Map<(int, int), (int, int)>|
        fill_ordered(old, new, sx, sy, rank, pred);
    assert forall|x: int, y: int| in_bounds(x, y) implies !((#[trigger] cell_at(new, x, y)).revealed
        && cell_at(new, x, y).flagged) by {
        if !cell_at(old, x, y).revealed && cell_at(new, x, y).revealed {
            assert(newly_revealed(old, new, x, y));
        }
    }
}

/// After a fill, each of the eight cells around every cell the fill opened,
/// diagonal ones included, is revealed or flagged, as is the start cell.
pub proof fn lemma_fill_reaches_all_neighbours(old: Seq<Vec<Cell>>, new: Seq<Vec<Cell>>, sx: int, sy: int)
    requires
        filled(old, new, sx, sy),
    ensures
        revealed_or_flagged(new, sx, sy),
        forall|x: int, y: int, dx: int, dy: int|
            #![trigger opened(old, new, x, y), revealed_or_flagged(new, x + dx, y + dy)]
            opened(old, new, x, y) && -1 <= dx <= 1 && -1 <= dy <= 1 && in_bounds(x + dx, y + dy)
                ==> revealed_or_flagged(new, x + dx, y + dy),
{
    assert forall|x: int, y: int, dx: int, dy: int|
        #![trigger opened(old, new, x, y), revealed_or_flagged(new, x + dx, y + dy)]
        opened(old, new, x, y) && -1 <= dx <= 1 && -1 <= dy <= 1 && in_bounds(x + dx, y + dy)
        implies revealed_or_flagged(new, x + dx, y + dy) by {
        if !(dx == 0 && dy == 0) {
            assert(adjacent(x, y, x + dx, y + dy));
        }
    }
}

} // verus!
