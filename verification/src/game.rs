//! The rules of play: what a mouse click does to the world, and how the game
//! moves between its scenes from one frame to the next.
use vstd::prelude::*;

use crate::board::{
    cell_at, flag_count, in_bounds, lemma_same_flags, lemma_same_kinds, mine_count,
    no_revealed_flag, number_count, same_kinds, well_numbered, well_shaped, Cell, CellType,
};
use crate::count::{count_cells, lemma_count_cells_bound, lemma_count_cells_one_more};
use crate::fill::{
    filled, flood_fill, lemma_fill_no_revealed_flag, lemma_fill_reveals_no_mine, newly_revealed,
};
use crate::rng;
use crate::world::{
    all_empty, all_safe_revealed, check_win, fresh_board, generated_from, lemma_first_click_safe,
    lemma_fresh_free_count, reveal_board, World, CELL_SIZE, NUM_BOMBS,
};

verus! {

/// Seeds of new games are drawn below this bound.
pub const MAX_SEED: u64 = 99999;

/// The screen the game shows.
#[derive(Clone, Copy, Debug, PartialEq, Eq, Structural)]
pub enum Scene {
    StartMenu,
    Game,
    WinScreen,
    LooseScreen,
}

/// What the player did during one frame. A click is given as the cell under
/// the mouse, or `None` when the button was not pressed or the mouse was off
/// the board.
#[derive(Clone, Copy, Debug)]
pub struct FrameInput {
    pub left_click: Option<(usize, usize)>,
    pub right_click: Option<(usize, usize)>,
    pub space_pressed: bool,
    pub r_pressed: bool,
}

/// Nothing in the world changed.
pub open spec fn same_world(a: World, b: World) -> bool {
    &&& a.grid@ == b.grid@
    &&& a.cell_size == b.cell_size
    &&& a.generated == b.generated
    &&& a.revealed == b.revealed
    &&& a.seed == b.seed
    &&& a.num_flags == b.num_flags
    &&& a.amt_numbers == b.amt_numbers
    &&& a.amt_revelead_numbers == b.amt_revelead_numbers
}

/// `new` is `old` with the cell `(x, y)` revealed.
pub open spec fn revealed_one(old: Seq<Vec<Cell>>, new: Seq<Vec<Cell>>, x: int, y: int) -> bool {
    &&& well_shaped(new)
    &&& cell_at(new, x, y) == (Cell { revealed: true, ..cell_at(old, x, y) })
    &&& forall|i: int, j: int|
        in_bounds(i, j) && !(i == x && j == y) ==> #[trigger] cell_at(new, i, j) == cell_at(old, i, j)
}

/// `new` is `old` with the flag of the cell `(x, y)` toggled.
pub open spec fn flag_toggled(old: Seq<Vec<Cell>>, new: Seq<Vec<Cell>>, x: int, y: int) -> bool {
    &&& well_shaped(new)
    &&& cell_at(new, x, y) == (Cell { flagged: !cell_at(old, x, y).flagged, ..cell_at(old, x, y) })
    &&& forall|i: int, j: int|
        in_bounds(i, j) && !(i == x && j == y) ==> #[trigger] cell_at(new, i, j) == cell_at(old, i, j)
}

/// A left click on `(x, y)` loses: the board is generated and the cell is an
/// unflagged mine.
pub open spec fn loses(w: World, x: int, y: int) -> bool {
    &&& w.generated
    &&& !cell_at(w.grid@, x, y).flagged
    &&& cell_at(w.grid@, x, y).kind is Mine
}

/// The left click of this frame, if any, loses.
pub open spec fn left_loses(w: World, left: Option<(usize, usize)>) -> bool {
    match left {
        Some((x, y)) => loses(w, x as int, y as int),
        None => false,
    }
}

/// A left click on `(x, y)` counts a number: it lands on an unflagged number of
/// a generated board.
pub open spec fn left_counts_number(w: World, left: Option<(usize, usize)>) -> bool {
    match left {
        Some((x, y)) => w.generated && !cell_at(w.grid@, x as int, y as int).flagged && cell_at(
            w.grid@,
            x as int,
            y as int,
        ).kind is Number,
        None => false,
    }
}

/// What a left click on `(x, y)` that does not lose does to `w`, giving `w1`.
/// On a board not yet generated: the mines are placed around the click (some
/// `mid` board) and the fill starts at the click. On a flagged cell: nothing.
/// On an `Empty` cell: the fill starts there. On a number: it is revealed and
/// counted.
pub open spec fn left_clicked(w: World, w1: World, x: int, y: int) -> bool {
    &&& w1.cell_size == w.cell_size
    &&& w1.revealed == w.revealed
    &&& w1.seed == w.seed
    &&& w1.num_flags == w.num_flags
    &&& if !w.generated {
        &&& w1.generated
        &&& w1.amt_revelead_numbers == w.amt_revelead_numbers
        &&& exists|mid: Seq<Vec<Cell>>|
            {
                &&& generated_from(w.grid@, mid, x, y)
                &&& filled(mid, w1.grid@, x, y)
                &&& w1.amt_numbers == count_cells(
                    |i: int, j: int|
                        cell_at(w.grid@, i, j).kind is Empty && cell_at(mid, i, j).kind is Number,
                )
            }
    } else if cell_at(w.grid@, x, y).flagged {
        same_world(w, w1)
    } else {
        &&& w1.generated
        &&& w1.amt_numbers == w.amt_numbers
        &&& match cell_at(w.grid@, x, y).kind {
            CellType::Empty => filled(w.grid@, w1.grid@, x, y) && w1.amt_revelead_numbers
                == w.amt_revelead_numbers,
            CellType::Number(_) => revealed_one(w.grid@, w1.grid@, x, y) && w1.amt_revelead_numbers
                == w.amt_revelead_numbers + 1,
            CellType::Mine => same_world(w, w1),
        }
    }
}

/// What a right click on `(x, y)` does to `w`, giving `w1`: nothing on a
/// revealed cell; otherwise the flag is toggled and counted.
pub open spec fn right_clicked(w: World, w1: World, x: int, y: int) -> bool {
    if cell_at(w.grid@, x, y).revealed {
        same_world(w, w1)
    } else {
        &&& flag_toggled(w.grid@, w1.grid@, x, y)
        &&& w1.num_flags == if cell_at(w.grid@, x, y).flagged {
            w.num_flags - 1
        } else {
            w.num_flags + 1
        }
        &&& w1.cell_size == w.cell_size
        &&& w1.generated == w.generated
        &&& w1.revealed == w.revealed
        &&& w1.seed == w.seed
        &&& w1.amt_numbers == w.amt_numbers
        &&& w1.amt_revelead_numbers == w.amt_revelead_numbers
    }
}

/// What the left click of a frame, if any, does to `w`, giving `w1`.
pub open spec fn left_effect(w: World, w1: World, left: Option<(usize, usize)>) -> bool {
    match left {
        Some((x, y)) => left_clicked(w, w1, x as int, y as int),
        None => same_world(w, w1),
    }
}

/// What the right click of a frame, if any, does to `w1`, giving `w2`.
pub open spec fn right_effect(w1: World, w2: World, right: Option<(usize, usize)>) -> bool {
    match right {
        Some((x, y)) => right_clicked(w1, w2, x as int, y as int),
        None => same_world(w1, w2),
    }
}

/// What the clicks of a frame do to `w`, giving `w2`: nothing once the board
/// is revealed or when the left click loses; otherwise the left click, then
/// the right click, each where there is one.
pub open spec fn mouse_handled(
    w: World,
    w2: World,
    left: Option<(usize, usize)>,
    right: Option<(usize, usize)>,
) -> bool {
    if w.revealed || left_loses(w, left) {
        same_world(w, w2)
    } else {
        exists|w1: World| #[trigger] left_effect(w, w1, left) && #[trigger] right_effect(w1, w2, right)
    }
}

/// The scene the clicks of a frame lead to: the loss screen when the left
/// click loses on a board still in play, else none.
pub open spec fn mouse_result(w: World, left: Option<(usize, usize)>) -> Option<Scene> {
    if !w.revealed && left_loses(w, left) {
        Some(Scene::LooseScreen)
    } else {
        None
    }
}

/// The clicks of a frame name cells of the board.
pub open spec fn clicks_on_board(left: Option<(usize, usize)>, right: Option<(usize, usize)>) -> bool {
    &&& left matches Some((x, y)) ==> in_bounds(x as int, y as int)
    &&& right matches Some((x, y)) ==> in_bounds(x as int, y as int)
}

/// The count of left clicks on numbers has room for this frame's click.
pub open spec fn click_count_room(w: World, left: Option<(usize, usize)>) -> bool {
    !w.revealed && left_counts_number(w, left) ==> w.amt_revelead_numbers < u32::MAX
}

/// No revealed cell holds a mine.
pub open spec fn no_mine_revealed(b: Seq<Vec<Cell>>) -> bool {
    forall|x: int, y: int| in_bounds(x, y) && (#[trigger] cell_at(b, x, y)).revealed ==> !(cell_at(b, x, y).kind is Mine)
}

/// No cell is revealed.
pub open spec fn none_revealed(b: Seq<Vec<Cell>>) -> bool {
    forall|x: int, y: int| in_bounds(x, y) ==> !(#[trigger] cell_at(b, x, y)).revealed
}

/// The left click on `(gx, gy)`; returns whether it lost (the world is then unchanged).
fn left_click(world: &mut World, gx: usize, gy: usize) -> (lost: bool)
    requires
        old(world).wf(),
        !old(world).revealed,
        in_bounds(gx as int, gy as int),
        click_count_room(*old(world), Some((gx, gy))),
    ensures
        final(world).wf(),
        lost == loses(*old(world), gx as int, gy as int),
        lost ==> same_world(*old(world), *final(world)),
        !lost ==> left_clicked(*old(world), *final(world), gx as int, gy as int),
{
    let ghost w0 = *world;
    if !world.generated {
        proof {
            lemma_fresh_free_count(world.grid@, gx as int, gy as int);
        }
        world.generate(gx, gy);
        let ghost mid = world.grid@;
        proof {
            lemma_first_click_safe(w0.grid@, mid, gx as int, gy as int);
            lemma_same_flags(w0.grid@, mid);
        }
        flood_fill(&mut world.grid, gx, gy);
        proof {
            assert(no_revealed_flag(mid)) by {
                assert forall|x: int, y: int| in_bounds(x, y) implies !((#[trigger] cell_at(
                    mid,
                    x,
                    y,
                )).revealed && cell_at(mid, x, y).flagged) by {
                    assert(cell_at(w0.grid@, x, y).revealed == cell_at(mid, x, y).revealed);
                }
            }
            lemma_fill_no_revealed_flag(mid, world.grid@, gx as int, gy as int);
            lemma_same_kinds(mid, world.grid@);
            lemma_same_flags(mid, world.grid@);
            assert(generated_from(w0.grid@, mid, gx as int, gy as int) && filled(
                mid,
                world.grid@,
                gx as int,
                gy as int,
            ));
        }
    } else if !world.grid[gy][gx].flagged {
        match world.grid[gy][gx].kind {
            CellType::Mine => {
                return true;
            },
            CellType::Empty => {
                flood_fill(&mut world.grid, gx, gy);
                proof {
                    lemma_fill_no_revealed_flag(w0.grid@, world.grid@, gx as int, gy as int);
                    lemma_same_kinds(w0.grid@, world.grid@);
                    lemma_same_flags(w0.grid@, world.grid@);
                }
            },
            CellType::Number(_) => {
                world.grid[gy][gx].revealed = true;
                world.amt_revelead_numbers += 1;
                proof {
                    let g = w0.grid@;
                    let g1 = world.grid@;
                    assert forall|i: int, j: int|
                        in_bounds(i, j) && !(i == gx && j == gy) implies #[trigger] cell_at(g1, i, j)
                        == cell_at(g, i, j) by {
                        if j != gy {
                            assert(g1[j] == g[j]);
                        }
                    }
                    assert forall|j: int| 0 <= j < crate::board::GRID_HEIGHT implies (
                    #[trigger] g1[j])@.len() == crate::board::GRID_WIDTH by {
                        if j != gy {
                            assert(g1[j] == g[j]);
                        }
                    }
                    assert(same_kinds(g, g1));
                    lemma_same_kinds(g, g1);
                    lemma_same_flags(g, g1);
                }
            },
        }
    }
    false
}

/// The right click on `(gx, gy)`: toggles the flag of a covered cell.
fn right_click(world: &mut World, gx: usize, gy: usize)
    requires
        old(world).wf(),
        in_bounds(gx as int, gy as int),
    ensures
        final(world).wf(),
        right_clicked(*old(world), *final(world), gx as int, gy as int),
{
    if world.grid[gy][gx].revealed {
        return ;
    }
    let ghost g = world.grid@;
    if world.grid[gy][gx].flagged {
        world.grid[gy][gx].flagged = false;
        proof {
            lemma_toggle_frame(g, world.grid@, gx as int, gy as int);
            lemma_count_cells_one_more(
                |x: int, y: int| cell_at(world.grid@, x, y).flagged,
                |x: int, y: int| cell_at(g, x, y).flagged,
                gx as int,
                gy as int,
            );
        }
        world.num_flags -= 1;
    } else {
        world.grid[gy][gx].flagged = true;
        proof {
            lemma_toggle_frame(g, world.grid@, gx as int, gy as int);
            lemma_count_cells_one_more(
                |x: int, y: int| cell_at(g, x, y).flagged,
                |x: int, y: int| cell_at(world.grid@, x, y).flagged,
                gx as int,
                gy as int,
            );
            lemma_count_cells_bound(|x: int, y: int| cell_at(world.grid@, x, y).flagged);
        }
        world.num_flags += 1;
    }
}

/// Changing one field of one cell keeps the board's shape and the other cells.
proof fn lemma_toggle_frame(g: Seq<Vec<Cell>>, g1: Seq<Vec<Cell>>, x: int, y: int)
    requires
        well_shaped(g),
        in_bounds(x, y),
        g1.len() == g.len(),
        g1[y]@.len() == g[y]@.len(),
        forall|j: int| 0 <= j < g.len() && j != y ==> #[trigger] g1[j] == g[j],
        forall|i: int| 0 <= i < g[y]@.len() && i != x ==> #[trigger] g1[y]@[i] == g[y]@[i],
        cell_at(g1, x, y).kind == cell_at(g, x, y).kind,
    ensures
        well_shaped(g1),
        forall|i: int, j: int|
            in_bounds(i, j) && !(i == x && j == y) ==> #[trigger] cell_at(g1, i, j) == cell_at(g, i, j),
        same_kinds(g, g1),
        all_empty(g) ==> all_empty(g1),
        mine_count(g) == mine_count(g1),
        number_count(g) == number_count(g1),
        well_numbered(g) ==> well_numbered(g1),
{
    assert forall|j: int| 0 <= j < crate::board::GRID_HEIGHT implies (#[trigger] g1[j])@.len()
        == crate::board::GRID_WIDTH by {
        if j != y {
            assert(g1[j] == g[j]);
        }
    }
    assert forall|i: int, j: int|
        in_bounds(i, j) && !(i == x && j == y) implies #[trigger] cell_at(g1, i, j) == cell_at(
        g,
        i,
        j,
    ) by {
        if j != y {
            assert(g1[j] == g[j]);
        }
    }
    assert(same_kinds(g, g1));
    lemma_same_kinds(g, g1);
}

/// Applies the mouse clicks of one frame to the world. Once the board has been
/// revealed nothing happens. A left click on a board not yet generated places
/// the mines around it and opens the area it starts; later, it opens an
/// `Empty` cell's area, reveals and counts a number, does nothing on a flag,
/// and on a mine ends the game (the loss screen, nothing else done this frame).
/// A right click toggles the flag of a covered cell.
pub fn handle_mouse(
    world: &mut World,
    left: Option<(usize, usize)>,
    right: Option<(usize, usize)>,
) -> (next: Option<Scene>)
    requires
        old(world).wf(),
        clicks_on_board(left, right),
        click_count_room(*old(world), left),
    ensures
        final(world).wf(),
        next == mouse_result(*old(world), left),
        mouse_handled(*old(world), *final(world), left, right),
{
    if world.revealed {
        return None;
    }
    let ghost w0 = *world;
    if let Some((gx, gy)) = left {
        if left_click(world, gx, gy) {
            return Some(Scene::LooseScreen);
        }
    }
    let ghost w1 = *world;
    if let Some((gx, gy)) = right {
        right_click(world, gx, gy);
    }
    proof {
        assert(left_effect(w0, w1, left));
        assert(right_effect(w1, *world, right));
    }
    None
}

/// A world as a new game starts it: well formed, all `Empty`, covered and
/// unflagged, not generated, counters at zero, and a seed below `MAX_SEED`.
pub open spec fn new_game(w: World) -> bool {
    &&& w.wf()
    &&& fresh_board(w.grid@)
    &&& w.cell_size == CELL_SIZE
    &&& !w.generated
    &&& !w.revealed
    &&& w.seed < MAX_SEED
    &&& w.num_flags == 0
    &&& w.amt_numbers == 0
    &&& w.amt_revelead_numbers == 0
}

/// `w1` is `w` with the whole board shown: the world marked revealed and every
/// cell revealed, nothing else changed.
pub open spec fn board_shown(w: World, w1: World) -> bool {
    &&& well_shaped(w1.grid@)
    &&& w1.revealed
    &&& forall|x: int, y: int|
        in_bounds(x, y) ==> {
            &&& (#[trigger] cell_at(w1.grid@, x, y)).revealed
            &&& cell_at(w1.grid@, x, y).kind == cell_at(w.grid@, x, y).kind
            &&& cell_at(w1.grid@, x, y).flagged == cell_at(w.grid@, x, y).flagged
        }
    &&& w1.cell_size == w.cell_size
    &&& w1.generated == w.generated
    &&& w1.seed == w.seed
    &&& w1.num_flags == w.num_flags
    &&& w1.amt_numbers == w.amt_numbers
    &&& w1.amt_revelead_numbers == w.amt_revelead_numbers
}

/// The start menu: space starts a new game, else the menu stays.
pub open spec fn start_menu_done(w: World, w1: World, space_pressed: bool, next: Scene) -> bool {
    if space_pressed {
        next == Scene::Game && new_game(w1)
    } else {
        next == Scene::StartMenu && same_world(w, w1)
    }
}

/// A frame of play: the clicks are handled; a losing click shows the loss
/// screen; else `R` goes back to the start menu; else a board with every safe
/// cell revealed shows the victory screen; else play goes on.
pub open spec fn play_game_done(
    w: World,
    w1: World,
    left: Option<(usize, usize)>,
    right: Option<(usize, usize)>,
    r_pressed: bool,
    next: Scene,
) -> bool {
    &&& mouse_handled(w, w1, left, right)
    &&& next == match mouse_result(w, left) {
        Some(scene) => scene,
        None => if r_pressed {
            Scene::StartMenu
        } else if all_safe_revealed(w1.grid@) {
            Scene::WinScreen
        } else {
            Scene::Game
        },
    }
}

/// The victory screen: `R` goes back to the start menu, else it stays.
pub open spec fn win_menu_done(w: World, w1: World, r_pressed: bool, next: Scene) -> bool {
    &&& same_world(w, w1)
    &&& next == if r_pressed {
        Scene::StartMenu
    } else {
        Scene::WinScreen
    }
}

/// The loss screen: the whole board is shown; `R` goes back to the start
/// menu, else it stays.
pub open spec fn loose_menu_done(w: World, w1: World, r_pressed: bool, next: Scene) -> bool {
    &&& board_shown(w, w1)
    &&& next == if r_pressed {
        Scene::StartMenu
    } else {
        Scene::LooseScreen
    }
}

/// The start menu's decision: on space, a new game with a seed drawn from
/// macroquad's generator.
pub fn start_menu(world: &mut World, space_pressed: bool) -> (next: Scene)
    ensures
        start_menu_done(*old(world), *final(world), space_pressed, next),
{
    if space_pressed {
        let seed = rng::gen_range(0, MAX_SEED);
        *world = World::new(seed);
        return Scene::Game;
    }
    Scene::StartMenu
}

/// One frame of play.
pub fn play_game(
    world: &mut World,
    left: Option<(usize, usize)>,
    right: Option<(usize, usize)>,
    r_pressed: bool,
) -> (next: Scene)
    requires
        old(world).wf(),
        clicks_on_board(left, right),
        click_count_room(*old(world), left),
    ensures
        final(world).wf(),
        play_game_done(*old(world), *final(world), left, right, r_pressed, next),
{
    let next_scene = handle_mouse(world, left, right);
    if let Some(scene) = next_scene {
        return scene;
    }
    if r_pressed {
        return Scene::StartMenu;
    }
    if check_win(world) {
        return Scene::WinScreen;
    }
    Scene::Game
}

/// The victory screen's decision.
pub fn win_menu(r_pressed: bool) -> (next: Scene)
    ensures
        next == if r_pressed {
            Scene::StartMenu
        } else {
            Scene::WinScreen
        },
{
    if r_pressed {
        return Scene::StartMenu;
    }
    Scene::WinScreen
}

/// The loss screen's decision: the whole board is shown.
pub fn loose_menu(world: &mut World, r_pressed: bool) -> (next: Scene)
    requires
        well_shaped(old(world).grid@),
    ensures
        old(world).wf() ==> final(world).wf(),
        loose_menu_done(*old(world), *final(world), r_pressed, next),
{
    reveal_board(world);
    if r_pressed {
        return Scene::StartMenu;
    }
    Scene::LooseScreen
}

/// One frame of the game: the decision of the current scene on this frame's input.
pub fn step(scene: Scene, world: &mut World, input: FrameInput) -> (next: Scene)
    requires
        old(world).wf(),
        clicks_on_board(input.left_click, input.right_click),
        scene == Scene::Game ==> click_count_room(*old(world), input.left_click),
    ensures
        final(world).wf(),
        match scene {
            Scene::StartMenu => start_menu_done(*old(world), *final(world), input.space_pressed, next),
            Scene::Game => play_game_done(
                *old(world),
                *final(world),
                input.left_click,
                input.right_click,
                input.r_pressed,
                next,
            ),
            Scene::WinScreen => win_menu_done(*old(world), *final(world), input.r_pressed, next),
            Scene::LooseScreen => loose_menu_done(*old(world), *final(world), input.r_pressed, next),
        },
{
    match scene {
        Scene::StartMenu => start_menu(world, input.space_pressed),
        Scene::Game => play_game(world, input.left_click, input.right_click, input.r_pressed),
        Scene::WinScreen => win_menu(input.r_pressed),
        Scene::LooseScreen => loose_menu(world, input.r_pressed),
    }
}

/// How a cell is drawn beneath its flag.
#[derive(Clone, Copy, Debug, PartialEq, Eq, Structural)]
pub enum CellLook {
    /// A covered cell.
    Covered,
    /// A revealed, unflagged mine.
    Bomb,
    /// A revealed number.
    Number(u32),
    /// A revealed `Empty` cell.
    Open,
    /// A revealed, flagged mine: only the flag is drawn.
    Nothing,
}

/// The flag drawn over a flagged cell.
#[derive(Clone, Copy, Debug, PartialEq, Eq, Structural)]
pub enum FlagLook {
    /// During play.
    Plain,
    /// Once the board is shown, on a mine.
    Correct,
    /// Once the board is shown, on a cell without a mine.
    Wrong,
}

/// How a cell is drawn.
pub fn cell_look(cell: Cell) -> (look: CellLook)
    ensures
        look == if !cell.revealed {
            CellLook::Covered
        } else {
            match cell.kind {
                CellType::Mine => if cell.flagged {
                    CellLook::Nothing
                } else {
                    CellLook::Bomb
                },
                CellType::Number(n) => CellLook::Number(n),
                CellType::Empty => CellLook::Open,
            }
        },
{
    if !cell.revealed {
        CellLook::Covered
    } else {
        match cell.kind {
            CellType::Mine => {
                if !cell.flagged {
                    CellLook::Bomb
                } else {
                    CellLook::Nothing
                }
            },
            CellType::Number(n) => CellLook::Number(n),
            CellType::Empty => CellLook::Open,
        }
    }
}

/// The flag drawn over a cell, if any; `world_revealed` tells whether the
/// board has been shown.
pub fn flag_look(cell: Cell, world_revealed: bool) -> (look: Option<FlagLook>)
    ensures
        look == if !cell.flagged {
            None
        } else if !world_revealed {
            Some(FlagLook::Plain)
        } else if cell.kind is Mine {
            Some(FlagLook::Correct)
        } else {
            Some(FlagLook::Wrong)
        },
{
    if cell.flagged {
        if world_revealed {
            match cell.kind {
                CellType::Mine => Some(FlagLook::Correct),
                _ => Some(FlagLook::Wrong),
            }
        } else {
            Some(FlagLook::Plain)
        }
    } else {
        None
    }
}

/// The number of mines not yet flagged, as shown during play (negative when
/// there are more flags than mines).
pub fn bombs_remaining(world: &World) -> (n: i32)
    requires
        world.num_flags <= i32::MAX,
    ensures
        n == NUM_BOMBS - world.num_flags,
{
    NUM_BOMBS - world.num_flags as i32
}

/// Playing never uncovers a mine except by clicking one: from a board where no
/// revealed cell is a mine (and, before generation, nothing is revealed), the
/// clicks of a frame leave no revealed mine. The first click opens a
/// mine-free area, a fill stops at numbers, and a revealed number is no mine.
pub proof fn lemma_play_reveals_no_mine(
    w: World,
    w2: World,
    left: Option<(usize, usize)>,
    right: Option<(usize, usize)>,
)
    requires
        w.wf(),
        clicks_on_board(left, right),
        no_mine_revealed(w.grid@),
        !w.generated ==> none_revealed(w.grid@),
        mouse_handled(w, w2, left, right),
    ensures
        no_mine_revealed(w2.grid@),
{
    if !(w.revealed || left_loses(w, left)) {
        let w1 = choose|w1: World| #[trigger] left_effect(w, w1, left) && #[trigger] right_effect(w1, w2, right);
        assert(no_mine_revealed(w1.grid@)) by {
            if let Some((x, y)) = left {
                lemma_left_click_reveals_no_mine(w, w1, x as int, y as int);
            }
        }
        if let Some((x, y)) = right {
            if !cell_at(w1.grid@, x as int, y as int).revealed {
                assert forall|i: int, j: int| in_bounds(i, j) && (#[trigger] cell_at(w2.grid@, i, j)).revealed
                    implies !(cell_at(w2.grid@, i, j).kind is Mine) by {
                    if !(i == x && j == y) {
                        assert(cell_at(w2.grid@, i, j) == cell_at(w1.grid@, i, j));
                    }
                }
            }
        }
    }
}

proof fn lemma_left_click_reveals_no_mine(w: World, w1: World, x: int, y: int)
    requires
        w.wf(),
        in_bounds(x, y),
        no_mine_revealed(w.grid@),
        !w.generated ==> none_revealed(w.grid@),
        !loses(w, x, y),
        left_clicked(w, w1, x, y),
    ensures
        no_mine_revealed(w1.grid@),
{
    if !w.generated {
        let mid = choose|mid: Seq<Vec<Cell>>|
            {
                &&& generated_from(w.grid@, mid, x, y)
                &&& filled(mid, w1.grid@, x, y)
                &&& w1.amt_numbers == count_cells(
                    |i: int, j: int|
                        cell_at(w.grid@, i, j).kind is Empty && cell_at(mid, i, j).kind is Number,
                )
            };
        lemma_first_click_safe(w.grid@, mid, x, y);
        lemma_fill_reveals_no_mine(mid, w1.grid@, x, y);
        assert forall|i: int, j: int| in_bounds(i, j) && (#[trigger] cell_at(w1.grid@, i, j)).revealed
            implies !(cell_at(w1.grid@, i, j).kind is Mine) by {
            assert(!cell_at(w.grid@, i, j).revealed);
            assert(cell_at(mid, i, j).revealed == cell_at(w.grid@, i, j).revealed);
            assert(newly_revealed(mid, w1.grid@, i, j));
        }
    } else if !cell_at(w.grid@, x, y).flagged {
        match cell_at(w.grid@, x, y).kind {
            CellType::Empty => {
                lemma_fill_reveals_no_mine(w.grid@, w1.grid@, x, y);
                assert forall|i: int, j: int| in_bounds(i, j) && (#[trigger] cell_at(w1.grid@, i, j)).revealed
                    implies !(cell_at(w1.grid@, i, j).kind is Mine) by {
                    if cell_at(w.grid@, i, j).revealed {
                        assert(cell_at(w1.grid@, i, j).kind == cell_at(w.grid@, i, j).kind);
                    } else {
                        assert(newly_revealed(w.grid@, w1.grid@, i, j));
                    }
                }
            },
            CellType::Number(_) => {
                assert forall|i: int, j: int| in_bounds(i, j) && (#[trigger] cell_at(w1.grid@, i, j)).revealed
                    implies !(cell_at(w1.grid@, i, j).kind is Mine) by {
                    if !(i == x && j == y) {
                        assert(cell_at(w1.grid@, i, j) == cell_at(w.grid@, i, j));
                    }
                }
            },
            CellType::Mine => {},
        }
    }
}

/// Two right clicks on the same cell undo each other: the board, the flag
/// count and every other field come back to what they were.
pub proof fn lemma_right_click_twice(w: World, w1: World, w2: World, x: int, y: int)
    requires
        in_bounds(x, y),
        right_clicked(w, w1, x, y),
        right_clicked(w1, w2, x, y),
    ensures
        forall|i: int, j: int| in_bounds(i, j) ==> #[trigger] cell_at(w2.grid@, i, j) == cell_at(w.grid@, i, j),
        w2.num_flags == w.num_flags,
        w2.cell_size == w.cell_size,
        w2.generated == w.generated,
        w2.revealed == w.revealed,
        w2.seed == w.seed,
        w2.amt_numbers == w.amt_numbers,
        w2.amt_revelead_numbers == w.amt_revelead_numbers,
{
    if !cell_at(w.grid@, x, y).revealed {
        assert(!cell_at(w1.grid@, x, y).revealed);
        assert forall|i: int, j: int| in_bounds(i, j) implies #[trigger] cell_at(w2.grid@, i, j) == cell_at(w.grid@, i, j) by {
            if !(i == x && j == y) {
                assert(cell_at(w1.grid@, i, j) == cell_at(w.grid@, i, j));
            }
        }
    }
}

/// The colour a number is drawn in.
#[derive(Clone, Copy, Debug, PartialEq, Eq, Structural)]
pub enum NumberColor {
    DarkBlue,
    DarkGreen,
    Red,
    DarkPurple,
    Yellow,
    Lime,
    Pink,
    Orange,
    White,
}

/// The colour of the number `n`: one colour for each count from 1 to 8,
/// white otherwise.
pub fn number_color(n: u32) -> (c: NumberColor)
    ensures
        c == if n == 1 {
            NumberColor::DarkBlue
        } else if n == 2 {
            NumberColor::DarkGreen
        } else if n == 3 {
            NumberColor::Red
        } else if n == 4 {
            NumberColor::DarkPurple
        } else if n == 5 {
            NumberColor::Yellow
        } else if n == 6 {
            NumberColor::Lime
        } else if n == 7 {
            NumberColor::Pink
        } else if n == 8 {
            NumberColor::Orange
        } else {
            NumberColor::White
        },
{
    match n {
        1 => NumberColor::DarkBlue,
        2 => NumberColor::DarkGreen,
        3 => NumberColor::Red,
        4 => NumberColor::DarkPurple,
        5 => NumberColor::Yellow,
        6 => NumberColor::Lime,
        7 => NumberColor::Pink,
        8 => NumberColor::Orange,
        _ => NumberColor::White,
    }
}

/// The flag counter always equals the number of flags, and during play no cell
/// is both revealed and flagged: whatever the clicks of a frame do to a
/// well-formed world (as `mouse_handled` says, for every placement of the
/// mines), the result keeps both.
pub proof fn lemma_clicks_keep_flags(
    w: World,
    w2: World,
    left: Option<(usize, usize)>,
    right: Option<(usize, usize)>,
)
    requires
        w.wf(),
        clicks_on_board(left, right),
        mouse_handled(w, w2, left, right),
    ensures
        w2.num_flags == flag_count(w2.grid@),
        !w2.revealed ==> no_revealed_flag(w2.grid@),
        well_shaped(w2.grid@),
{
    if !(w.revealed || left_loses(w, left)) {
        let w1 = choose|w1: World| #[trigger] left_effect(w, w1, left) && #[trigger] right_effect(w1, w2, right);
        assert(w1.num_flags == flag_count(w1.grid@) && no_revealed_flag(w1.grid@) && well_shaped(w1.grid@)) by {
            if let Some((x, y)) = left {
                lemma_left_click_keeps_flags(w, w1, x as int, y as int);
            }
        }
        if let Some((x, y)) = right {
            if !cell_at(w1.grid@, x as int, y as int).revealed {
                let g1 = w1.grid@;
                let g2 = w2.grid@;
                assert forall|i: int, j: int| in_bounds(i, j) implies !((#[trigger] cell_at(g2, i, j)).revealed
                    && cell_at(g2, i, j).flagged) by {
                    if !(i == x && j == y) {
                        assert(cell_at(g2, i, j) == cell_at(g1, i, j));
                    }
                }
                if cell_at(g1, x as int, y as int).flagged {
                    lemma_count_cells_one_more(
                        |i: int, j: int| cell_at(g2, i, j).flagged,
                        |i: int, j: int| cell_at(g1, i, j).flagged,
                        x as int,
                        y as int,
                    );
                } else {
                    lemma_count_cells_one_more(
                        |i: int, j: int| cell_at(g1, i, j).flagged,
                        |i: int, j: int| cell_at(g2, i, j).flagged,
                        x as int,
                        y as int,
                    );
                }
            }
        }
    }
}

proof fn lemma_left_click_keeps_flags(w: World, w1: World, x: int, y: int)
    requires
        w.wf(),
        in_bounds(x, y),
        !w.revealed,
        !loses(w, x, y),
        left_clicked(w, w1, x, y),
    ensures
        w1.num_flags == flag_count(w1.grid@),
        no_revealed_flag(w1.grid@),
        well_shaped(w1.grid@),
{
    if !w.generated {
        let mid = choose|mid: Seq<Vec<Cell>>|
            {
                &&& generated_from(w.grid@, mid, x, y)
                &&& filled(mid, w1.grid@, x, y)
                &&& w1.amt_numbers == count_cells(
                    |i: int, j: int|
                        cell_at(w.grid@, i, j).kind is Empty && cell_at(mid, i, j).kind is Number,
                )
            };
        assert forall|i: int, j: int| in_bounds(i, j) implies !((#[trigger] cell_at(mid, i, j)).revealed
            && cell_at(mid, i, j).flagged) by {
            assert(cell_at(w.grid@, i, j).revealed == cell_at(mid, i, j).revealed);
        }
        assert forall|i: int, j: int| in_bounds(i, j) implies #[trigger] cell_at(w.grid@, i, j).flagged
            == cell_at(w1.grid@, i, j).flagged by {
            assert(cell_at(mid, i, j).flagged == cell_at(w.grid@, i, j).flagged);
            assert(cell_at(w1.grid@, i, j).flagged == cell_at(mid, i, j).flagged);
        }
        lemma_same_flags(w.grid@, w1.grid@);
        lemma_fill_no_revealed_flag(mid, w1.grid@, x, y);
    } else if !cell_at(w.grid@, x, y).flagged {
        match cell_at(w.grid@, x, y).kind {
            CellType::Empty => {
                lemma_same_flags(w.grid@, w1.grid@);
                lemma_fill_no_revealed_flag(w.grid@, w1.grid@, x, y);
            },
            CellType::Number(_) => {
                assert forall|i: int, j: int| in_bounds(i, j) implies #[trigger] cell_at(w.grid@, i, j).flagged
                    == cell_at(w1.grid@, i, j).flagged by {
                    if !(i == x && j == y) {
                        assert(cell_at(w1.grid@, i, j) == cell_at(w.grid@, i, j));
                    }
                }
                lemma_same_flags(w.grid@, w1.grid@);
                assert forall|i: int, j: int| in_bounds(i, j) implies !((#[trigger] cell_at(w1.grid@, i, j)).revealed
                    && cell_at(w1.grid@, i, j).flagged) by {
                    if !(i == x && j == y) {
                        assert(cell_at(w1.grid@, i, j) == cell_at(w.grid@, i, j));
                    }
                }
            },
            CellType::Mine => {},
        }
    }
}

} // verus!
