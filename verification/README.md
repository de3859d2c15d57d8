# tmine

Minesweeper in the terminal, played by typing a row letter, a column letter
and a command (`D` dig, `F` flag, `T` test, `P` pending; a row and a column
alone dig an unexplored cell or test an opened one), or with the mouse
(left click digs or tests, right click flags). `!Q`, `!P`, `!R`, `!N`, `!D`
quit, pause, resume, deal a new game, change the difficulty.

Layout:

- `src/` is the library, verified with Verus:
  - `cell.rs`, `level.rs`: cells and difficulty levels;
  - `game.rs`: the board, digging (`dig_cell`, with the region it opens),
    laying mines, counting, the end of a game; `game/model.rs` holds the
    mathematical model and its lemmas, `game/position.rs` the letters and
    screen positions;
  - `input.rs`: what each key or click does to the game and asks of the
    screen;
  - `timer.rs`: the clock of a game;
  - `laws.rs`: properties that span commands.
- `app/` is the terminal program: drawing, reading events, the clock thread.
- `tests/` runs the library on concrete boards.
