# minesweeper

A Minesweeper game on a 15 × 15 board whose rules are a library verified with
Verus, and a small macroquad program that draws the board and reads the mouse
and keyboard.

- `src/board.rs`: cells, the board's geometry, neighbour counts of mines.
- `src/count.rs`: counting the cells of a board that satisfy a predicate.
- `src/fill.rs`: opening an area from a cell (breadth-first fill), with its
  exact characterisation.
- `src/world.rs`: the state of a game, its invariant, and the generation of the
  board at the first click (mines drawn from macroquad's generator, never near
  the click).
- `src/game.rs`: what the clicks of a frame do, the scenes and the step from
  one frame to the next, and what a cell looks like on screen.
- `src/rng.rs`: the calls into macroquad's random number generator.
- `app/main.rs`: the window, drawing, input and the main loop.
