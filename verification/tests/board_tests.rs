use minesweeper::board::{
    get_num_neighbor_mines, is_in_bounds, to_grid, Cell, CellType, GRID_HEIGHT, GRID_WIDTH,
};
use minesweeper::fill::flood_fill;

fn blank_grid() -> Vec<Vec<Cell>> {
    vec![vec![Cell::new(CellType::Empty); GRID_WIDTH]; GRID_HEIGHT]
}

fn with_mines(mines: &[(usize, usize)]) -> Vec<Vec<Cell>> {
    let mut grid = blank_grid();
    for &(x, y) in mines {
        grid[y][x].kind = CellType::Mine;
    }
    for y in 0..GRID_HEIGHT {
        for x in 0..GRID_WIDTH {
            let n = get_num_neighbor_mines(&grid, x, y);
            if grid[y][x].kind == CellType::Empty && n > 0 {
                grid[y][x].kind = CellType::Number(n);
            }
        }
    }
    grid
}

#[test]
fn cell_new_is_covered_and_unflagged() {
    let c = Cell::new(CellType::Number(3));
    assert_eq!(c.kind, CellType::Number(3));
    assert!(!c.revealed);
    assert!(!c.flagged);
}

#[test]
fn bounds_of_the_board() {
    assert!(is_in_bounds(0, 0));
    assert!(is_in_bounds(14, 14));
    assert!(is_in_bounds(7, 0));
    assert!(!is_in_bounds(15, 0));
    assert!(!is_in_bounds(0, 15));
    assert!(!is_in_bounds(-1, 3));
    assert!(!is_in_bounds(3, -1));
}

#[test]
fn to_grid_gives_cells_on_the_board_only() {
    assert_eq!(to_grid(3, 4), Some((3, 4)));
    assert_eq!(to_grid(14, 0), Some((14, 0)));
    assert_eq!(to_grid(15, 4), None);
    assert_eq!(to_grid(-1, 4), None);
    assert_eq!(to_grid(2, 20), None);
}

#[test]
fn neighbour_counts() {
    let grid = with_mines(&[(0, 0), (1, 0), (0, 1)]);
    assert_eq!(get_num_neighbor_mines(&grid, 1, 1), 3);
    assert_eq!(get_num_neighbor_mines(&grid, 0, 0), 2);
    assert_eq!(get_num_neighbor_mines(&grid, 2, 0), 1);
    assert_eq!(get_num_neighbor_mines(&grid, 2, 2), 0);
    assert_eq!(get_num_neighbor_mines(&grid, 14, 14), 0);
}

#[test]
fn neighbour_count_of_a_surrounded_cell_is_eight() {
    let mut mines = Vec::new();
    for y in 4..7 {
        for x in 4..7 {
            if !(x == 5 && y == 5) {
                mines.push((x, y));
            }
        }
    }
    let mut grid = blank_grid();
    for &(x, y) in &mines {
        grid[y][x].kind = CellType::Mine;
    }
    assert_eq!(get_num_neighbor_mines(&grid, 5, 5), 8);
    // the centre itself being a mine does not count for it
    grid[5][5].kind = CellType::Mine;
    assert_eq!(get_num_neighbor_mines(&grid, 5, 5), 8);
}

#[test]
fn neighbour_count_far_from_the_board_is_zero() {
    let grid = with_mines(&[(0, 0)]);
    assert_eq!(get_num_neighbor_mines(&grid, 100, 100), 0);
}

#[test]
fn fill_on_a_board_without_mines_reveals_everything() {
    let mut grid = blank_grid();
    flood_fill(&mut grid, 7, 7);
    for row in &grid {
        for c in row {
            assert!(c.revealed);
        }
    }
}

#[test]
fn fill_stops_at_numbers() {
    // a wall of mines in column 5 splits the board
    let mines: Vec<(usize, usize)> = (0..GRID_HEIGHT).map(|y| (5, y)).collect();
    let mut grid = with_mines(&mines);
    flood_fill(&mut grid, 0, 0);
    for y in 0..GRID_HEIGHT {
        for x in 0..GRID_WIDTH {
            let c = grid[y][x];
            if x <= 4 {
                assert!(c.revealed, "({}, {}) should be revealed", x, y);
            } else {
                assert!(!c.revealed, "({}, {}) should be covered", x, y);
            }
            if c.revealed {
                assert_ne!(c.kind, CellType::Mine);
            }
        }
    }
    assert_eq!(grid[0][4].kind, CellType::Number(2));
}

#[test]
fn fill_from_a_number_reveals_only_it() {
    let mut grid = with_mines(&[(3, 3)]);
    flood_fill(&mut grid, 4, 4);
    let revealed: usize = grid.iter().flatten().filter(|c| c.revealed).count();
    assert_eq!(revealed, 1);
    assert!(grid[4][4].revealed);
}

#[test]
fn fill_does_not_reveal_or_pass_flags() {
    let mut grid = blank_grid();
    // flags close the top-left 3x3 corner
    for i in 0..4 {
        grid[3][i].flagged = true;
        grid[i][3].flagged = true;
    }
    flood_fill(&mut grid, 0, 0);
    for y in 0..GRID_HEIGHT {
        for x in 0..GRID_WIDTH {
            let inside = x < 3 && y < 3;
            assert_eq!(grid[y][x].revealed, inside, "({}, {})", x, y);
        }
    }
    // a flagged start cell is left alone
    let mut grid = blank_grid();
    grid[6][6].flagged = true;
    flood_fill(&mut grid, 6, 6);
    assert!(grid.iter().flatten().all(|c| !c.revealed));
}

#[test]
fn fill_from_a_revealed_cell_does_nothing() {
    let mut grid = blank_grid();
    grid[2][2].revealed = true;
    flood_fill(&mut grid, 2, 2);
    let revealed: usize = grid.iter().flatten().filter(|c| c.revealed).count();
    assert_eq!(revealed, 1);
}
