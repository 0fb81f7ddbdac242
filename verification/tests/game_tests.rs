use minesweeper::board::{get_num_neighbor_mines, Cell, CellType, GRID_HEIGHT, GRID_WIDTH};
use minesweeper::game::{
    bombs_remaining, cell_look, flag_look, handle_mouse, loose_menu, number_color, play_game,
    start_menu, step, win_menu, CellLook, FlagLook, FrameInput, NumberColor, Scene, MAX_SEED,
};
use minesweeper::world::{check_win, reveal_board, World, CELL_SIZE, NUM_BOMBS};

fn count(world: &World, f: impl Fn(&Cell) -> bool) -> usize {
    world.grid.iter().flatten().filter(|c| f(c)).count()
}

fn assert_consistent(world: &World) {
    assert_eq!(world.grid.len(), GRID_HEIGHT);
    for y in 0..GRID_HEIGHT {
        assert_eq!(world.grid[y].len(), GRID_WIDTH);
        for x in 0..GRID_WIDTH {
            let n = get_num_neighbor_mines(&world.grid, x, y);
            match world.grid[y][x].kind {
                CellType::Mine => {}
                CellType::Number(k) => assert_eq!(k, n),
                CellType::Empty => assert_eq!(n, 0),
            }
        }
    }
    assert_eq!(count(world, |c| c.flagged), world.num_flags as usize);
    assert_eq!(count(world, |c| matches!(c.kind, CellType::Number(_))), world.amt_numbers as usize);
}

fn generated(seed: u64, x: usize, y: usize) -> World {
    let mut w = World::new(seed);
    w.generate(x, y);
    w
}

#[test]
fn new_world_is_fresh() {
    let w = World::new(42);
    assert_eq!(w.seed, 42);
    assert_eq!(w.cell_size, CELL_SIZE);
    assert!(!w.generated);
    assert!(!w.revealed);
    assert_eq!(w.num_flags, 0);
    assert_eq!(w.amt_numbers, 0);
    assert_eq!(w.amt_revelead_numbers, 0);
    assert_eq!(w.grid.len(), GRID_HEIGHT);
    for row in &w.grid {
        assert_eq!(row.len(), GRID_WIDTH);
        for c in row {
            assert_eq!(c.kind, CellType::Empty);
            assert!(!c.revealed && !c.flagged);
        }
    }
}

#[test]
fn quarter_of_the_cells_are_mines() {
    assert_eq!(NUM_BOMBS, ((GRID_WIDTH * GRID_HEIGHT) as f64 * 0.25).round() as i32);
}

#[test]
fn generate_places_exactly_the_mines_away_from_the_click() {
    for seed in [0u64, 1, 7, 1234, 99998] {
        for &(sx, sy) in &[(0usize, 0usize), (7, 7), (14, 3), (2, 14)] {
            let w = generated(seed, sx, sy);
            assert!(w.generated);
            assert_eq!(count(&w, |c| c.kind == CellType::Mine), NUM_BOMBS as usize);
            for y in 0..GRID_HEIGHT {
                for x in 0..GRID_WIDTH {
                    let near = (x as isize - sx as isize).abs() <= 2 && (y as isize - sy as isize).abs() <= 2;
                    if near {
                        assert_ne!(w.grid[y][x].kind, CellType::Mine);
                    }
                }
            }
            assert_eq!(w.grid[sy][sx].kind, CellType::Empty);
            assert_consistent(&w);
        }
    }
}

#[test]
fn same_seed_same_board() {
    let a = generated(555, 4, 9);
    let b = generated(555, 4, 9);
    assert_eq!(a.grid, b.grid);
}

#[test]
fn mines_are_not_laid_in_row_order() {
    // the draws come from the generator: the mines are not simply the first
    // free cells of the board
    let w = generated(3, 14, 14);
    let mines_in_first_rows = w.grid[0..4].iter().flatten().filter(|c| c.kind == CellType::Mine).count();
    assert!(mines_in_first_rows < 56);
    let a = generated(10, 7, 7);
    let b = generated(11, 7, 7);
    assert_ne!(a.grid, b.grid);
}

#[test]
fn first_click_opens_an_area_and_no_mine() {
    for seed in [3u64, 17, 400, 98765] {
        let mut w = World::new(seed);
        let next = handle_mouse(&mut w, Some((6, 8)), None);
        assert_eq!(next, None);
        assert!(w.generated);
        assert!(w.grid[8][6].revealed);
        for dy in -1isize..=1 {
            for dx in -1isize..=1 {
                let x = (6 + dx) as usize;
                let y = (8 + dy) as usize;
                assert!(w.grid[y][x].revealed);
            }
        }
        assert_eq!(count(&w, |c| c.revealed && c.kind == CellType::Mine), 0);
        assert_consistent(&w);
    }
}

#[test]
fn right_click_toggles_flags() {
    let mut w = World::new(5);
    handle_mouse(&mut w, None, Some((3, 3)));
    assert!(w.grid[3][3].flagged);
    assert_eq!(w.num_flags, 1);
    assert_eq!(bombs_remaining(&w), NUM_BOMBS - 1);
    handle_mouse(&mut w, None, Some((4, 3)));
    assert_eq!(w.num_flags, 2);
    handle_mouse(&mut w, None, Some((3, 3)));
    assert!(!w.grid[3][3].flagged);
    assert_eq!(w.num_flags, 1);
    assert_consistent(&w);
}

#[test]
fn right_click_twice_restores_the_world() {
    let mut w = generated(8, 7, 7);
    let before = w.grid.clone();
    handle_mouse(&mut w, None, Some((0, 0)));
    handle_mouse(&mut w, None, Some((0, 0)));
    assert_eq!(w.grid, before);
    assert_eq!(w.num_flags, 0);
}

#[test]
fn right_click_on_a_revealed_cell_does_nothing() {
    let mut w = World::new(9);
    handle_mouse(&mut w, Some((7, 7)), None);
    let before = w.grid.clone();
    handle_mouse(&mut w, None, Some((7, 7)));
    assert_eq!(w.grid, before);
    assert_eq!(w.num_flags, 0);
}

fn find(w: &World, pred: impl Fn(CellType) -> bool) -> (usize, usize) {
    for y in 0..GRID_HEIGHT {
        for x in 0..GRID_WIDTH {
            if pred(w.grid[y][x].kind) && !w.grid[y][x].revealed {
                return (x, y);
            }
        }
    }
    panic!("no such cell");
}

#[test]
fn left_click_on_a_mine_loses_and_changes_nothing() {
    let mut w = generated(21, 0, 0);
    let (mx, my) = find(&w, |k| k == CellType::Mine);
    let before = w.grid.clone();
    let next = handle_mouse(&mut w, Some((mx, my)), Some((0, 14)));
    assert_eq!(next, Some(Scene::LooseScreen));
    assert_eq!(w.grid, before);
    assert_eq!(w.num_flags, 0);
}

#[test]
fn left_click_on_a_flagged_mine_does_nothing() {
    let mut w = generated(22, 0, 0);
    let (mx, my) = find(&w, |k| k == CellType::Mine);
    handle_mouse(&mut w, None, Some((mx, my)));
    let before = w.grid.clone();
    let next = handle_mouse(&mut w, Some((mx, my)), None);
    assert_eq!(next, None);
    assert_eq!(w.grid, before);
}

#[test]
fn left_click_on_a_number_counts_it() {
    let mut w = generated(23, 0, 0);
    let (nx, ny) = find(&w, |k| matches!(k, CellType::Number(_)));
    handle_mouse(&mut w, Some((nx, ny)), None);
    assert!(w.grid[ny][nx].revealed);
    assert_eq!(w.amt_revelead_numbers, 1);
    assert_eq!(count(&w, |c| c.revealed), 1);
    // clicking it again counts it again
    handle_mouse(&mut w, Some((nx, ny)), None);
    assert_eq!(w.amt_revelead_numbers, 2);
}

#[test]
fn revealed_world_ignores_clicks() {
    let mut w = generated(24, 7, 7);
    reveal_board(&mut w);
    let before = w.grid.clone();
    let (mx, my) = (0..GRID_HEIGHT)
        .flat_map(|y| (0..GRID_WIDTH).map(move |x| (x, y)))
        .find(|&(x, y)| w.grid[y][x].kind == CellType::Mine)
        .unwrap();
    let next = handle_mouse(&mut w, Some((mx, my)), Some((1, 1)));
    assert_eq!(next, None);
    assert_eq!(w.grid, before);
}

#[test]
fn reveal_board_shows_everything() {
    let mut w = generated(25, 3, 3);
    handle_mouse(&mut w, None, Some((14, 14)));
    reveal_board(&mut w);
    assert!(w.revealed);
    assert!(w.grid.iter().flatten().all(|c| c.revealed));
    assert!(w.grid[14][14].flagged);
    assert_eq!(w.num_flags, 1);
    assert_eq!(count(&w, |c| c.kind == CellType::Mine), NUM_BOMBS as usize);
}

#[test]
fn check_win_needs_every_safe_cell() {
    let mut w = generated(26, 7, 7);
    assert!(!check_win(&w));
    for y in 0..GRID_HEIGHT {
        for x in 0..GRID_WIDTH {
            if w.grid[y][x].kind != CellType::Mine {
                w.grid[y][x].revealed = true;
            }
        }
    }
    assert!(check_win(&w));
    let (x, y) = (0..GRID_HEIGHT)
        .flat_map(|y| (0..GRID_WIDTH).map(move |x| (x, y)))
        .find(|&(x, y)| w.grid[y][x].kind != CellType::Mine)
        .unwrap();
    w.grid[y][x].revealed = false;
    assert!(!check_win(&w));
}

#[test]
fn start_menu_starts_a_new_game_on_space() {
    let mut w = generated(27, 7, 7);
    assert_eq!(start_menu(&mut w, false), Scene::StartMenu);
    assert!(w.generated);
    let mut seeds = Vec::new();
    for _ in 0..5 {
        assert_eq!(start_menu(&mut w, true), Scene::Game);
        assert!(!w.generated);
        assert!(w.seed < MAX_SEED);
        assert_eq!(count(&w, |c| c.kind != CellType::Empty), 0);
        seeds.push(w.seed);
    }
    seeds.sort();
    seeds.dedup();
    assert!(seeds.len() > 1);
}

#[test]
fn play_game_scenes() {
    // R goes back to the menu
    let mut w = World::new(28);
    assert_eq!(play_game(&mut w, None, None, true), Scene::StartMenu);
    // play goes on
    let mut w = World::new(28);
    assert_eq!(play_game(&mut w, Some((7, 7)), None, false), Scene::Game);
    // a losing click wins over R
    let (mx, my) = find(&w, |k| k == CellType::Mine);
    assert_eq!(play_game(&mut w, Some((mx, my)), None, true), Scene::LooseScreen);
    // revealing every safe cell wins
    let mut w = World::new(29);
    play_game(&mut w, Some((0, 0)), None, false);
    let mut next = Scene::Game;
    for y in 0..GRID_HEIGHT {
        for x in 0..GRID_WIDTH {
            if w.grid[y][x].kind != CellType::Mine {
                next = play_game(&mut w, Some((x, y)), None, false);
            }
        }
    }
    assert_eq!(next, Scene::WinScreen);
}

#[test]
fn menus_after_the_game() {
    assert_eq!(win_menu(true), Scene::StartMenu);
    assert_eq!(win_menu(false), Scene::WinScreen);
    let mut w = generated(30, 1, 1);
    assert_eq!(loose_menu(&mut w, false), Scene::LooseScreen);
    assert!(w.revealed);
    assert!(w.grid.iter().flatten().all(|c| c.revealed));
    assert_eq!(loose_menu(&mut w, true), Scene::StartMenu);
}

#[test]
fn step_follows_the_scenes() {
    let none = FrameInput { left_click: None, right_click: None, space_pressed: false, r_pressed: false };
    let mut w = World::new(31);
    assert_eq!(step(Scene::StartMenu, &mut w, none), Scene::StartMenu);
    let space = FrameInput { space_pressed: true, ..none };
    assert_eq!(step(Scene::StartMenu, &mut w, space), Scene::Game);
    let click = FrameInput { left_click: Some((7, 7)), ..none };
    assert_eq!(step(Scene::Game, &mut w, click), Scene::Game);
    assert!(w.generated);
    let (mx, my) = find(&w, |k| k == CellType::Mine);
    let boom = FrameInput { left_click: Some((mx, my)), ..none };
    assert_eq!(step(Scene::Game, &mut w, boom), Scene::LooseScreen);
    assert_eq!(step(Scene::LooseScreen, &mut w, none), Scene::LooseScreen);
    assert!(w.revealed);
    let r = FrameInput { r_pressed: true, ..none };
    assert_eq!(step(Scene::LooseScreen, &mut w, r), Scene::StartMenu);
    assert_eq!(step(Scene::WinScreen, &mut w, none), Scene::WinScreen);
    assert_eq!(step(Scene::WinScreen, &mut w, r), Scene::StartMenu);
}

#[test]
fn looks_of_cells() {
    let covered = Cell::new(CellType::Mine);
    assert_eq!(cell_look(covered), CellLook::Covered);
    let mine = Cell { kind: CellType::Mine, revealed: true, flagged: false };
    assert_eq!(cell_look(mine), CellLook::Bomb);
    let flagged_mine = Cell { kind: CellType::Mine, revealed: true, flagged: true };
    assert_eq!(cell_look(flagged_mine), CellLook::Nothing);
    let num = Cell { kind: CellType::Number(4), revealed: true, flagged: false };
    assert_eq!(cell_look(num), CellLook::Number(4));
    let empty = Cell { kind: CellType::Empty, revealed: true, flagged: false };
    assert_eq!(cell_look(empty), CellLook::Open);

    assert_eq!(flag_look(empty, true), None);
    assert_eq!(flag_look(flagged_mine, false), Some(FlagLook::Plain));
    assert_eq!(flag_look(flagged_mine, true), Some(FlagLook::Correct));
    let flagged_empty = Cell { kind: CellType::Empty, revealed: false, flagged: true };
    assert_eq!(flag_look(flagged_empty, true), Some(FlagLook::Wrong));
}

#[test]
fn bombs_remaining_can_go_negative() {
    let mut w = World::new(32);
    assert_eq!(bombs_remaining(&w), 56);
    for y in 0..GRID_HEIGHT {
        for x in 0..5 {
            handle_mouse(&mut w, None, Some((x, y)));
        }
    }
    assert_eq!(w.num_flags, 75);
    assert_eq!(bombs_remaining(&w), 56 - 75);
}

#[test]
fn colours_of_numbers() {
    assert_eq!(number_color(1), NumberColor::DarkBlue);
    assert_eq!(number_color(2), NumberColor::DarkGreen);
    assert_eq!(number_color(3), NumberColor::Red);
    assert_eq!(number_color(4), NumberColor::DarkPurple);
    assert_eq!(number_color(5), NumberColor::Yellow);
    assert_eq!(number_color(6), NumberColor::Lime);
    assert_eq!(number_color(7), NumberColor::Pink);
    assert_eq!(number_color(8), NumberColor::Orange);
    assert_eq!(number_color(0), NumberColor::White);
    assert_eq!(number_color(9), NumberColor::White);
}

#[test]
fn no_cell_is_revealed_and_flagged_during_play() {
    for seed in [40u64, 41, 42] {
        let mut w = World::new(seed);
        // flags before the first click, some of them inside the area it opens
        handle_mouse(&mut w, None, Some((7, 8)));
        handle_mouse(&mut w, None, Some((0, 0)));
        handle_mouse(&mut w, Some((7, 7)), None);
        for y in 0..GRID_HEIGHT {
            for x in 0..GRID_WIDTH {
                if w.grid[y][x].kind != CellType::Mine {
                    handle_mouse(&mut w, Some((x, y)), Some(((x + 3) % GRID_WIDTH, y)));
                }
                assert_eq!(count(&w, |c| c.revealed && c.flagged), 0);
            }
        }
        assert_consistent(&w);
    }
}

#[test]
fn bombs_remaining_follows_the_flag_counter() {
    let mut w = World::new(42);
    w.num_flags = 60;
    assert_eq!(bombs_remaining(&w), -4);
    assert_eq!(w.seed, 42);
}
