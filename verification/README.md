# sudoku

A terminal Sudoku game with vim-style keys. The game logic is a library whose
behaviour is stated in `requires` / `ensures` contracts and proved with Verus;
the terminal front end is a thin program around it.

## Layout

- `src/board.rs`: cells, pencil marks and the 9x9 board, with conflict and
  solution checks.
- `src/search.rs`: the mathematical model of backtracking search: completions
  of a grid and how many solutions the search counts.
- `src/generator.rs`: filling a grid, counting solutions, carving a puzzle
  with a unique solution, difficulties and share codes.
- `src/app.rs`: the game state (cursor, modes, undo / redo, hints, winning,
  share card).
- `src/keys.rs`: which command a key press stands for, and carrying it out.
- `src/layout.rs`: board geometry, border and cell glyphs, highlight and ink
  of each cell.
- `src/base64.rs`, `src/text.rs`: encoding helpers.
- `app/`: terminal setup, the event loop, clipboard and ratatui drawing.
- `tests/`: tests of the library on concrete values.
