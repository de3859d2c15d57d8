pub mod model;
pub mod position;

use vstd::prelude::*;
use rand::Rng;
use crate::cell::{Cell, Status};
use crate::level::{level_of, lemma_level_sizes, Level};
use self::model::{
    box_hi, box_lo, chord_seeds, cols_of, count_box, flagged_at, flags_around,
    in_bounds, is_rect, count_row, lemma_count_box_bounds, lemma_count_box_bounds_any, lemma_count_row_bounds,
    lemma_progress_cells, lemma_progress_direct,
    lemma_progress_finish, lemma_progress_flood, lemma_progress_spread, lemma_progress_start,
    lemma_region_reseed, lemma_region_single, lemma_unopened_with_status, newly_opened,
    open_region, progress, spreads, unopened, unopened_at, with_status, count_all, mine_at,
    free_at, with_mine, with_count, mines_around, mine_near, lemma_count_box_change,
    lemma_count_box_const, lemma_count_box_same, lemma_count_row_empty, lemma_count_box_empty_cols, lemma_mines_around_same,
    lemma_count_prefix_le, lemma_count_box_pos, lemma_tables_ext, check_result, flag_rest, blown_at, opened_at, hidden_at,
    unexplored_at, };

verus! {

/// A number drawn at random in `[0, range)`.
///
/// Calls `rand::Rng::gen_range(0, range)` on the thread's generator. The
/// crate documents that the value lies in `[low, high)` and that the call
/// panics when `low >= high`; which value comes back is left to chance.
#[verifier::external_body]
fn get_rand(range: usize) -> (r: usize)
    requires
        range > 0,
    ensures
        r < range,
{
    let mut rng = rand::thread_rng();
    rng.gen_range(0, range)
}

/// How a finished check of the board came out.
#[derive(Clone, Copy, Debug, PartialEq, Eq, Structural)]
pub enum GameResult {
    /// Every cell without a mine is open.
    Success,
    /// A mine was opened.
    Failed,
    /// Neither yet.
    NotOver,
}

/// Where a game stands.
#[derive(Clone, Copy, Debug, PartialEq, Eq, Structural)]
pub enum GameStatus {
    NotStart,
    Started,
    Paused,
    Finished,
}

/// Largest number of cells of a board: what leaves room in a `usize` for the
/// cells together with the largest count of mines (an `i16`), as the end
/// check adds them.
pub const MAX_CELLS: usize = usize::MAX - 32767;

/// A game: its level, the mine field and what the player has found.
pub struct Game {
    /// The difficulty level and sizes.
    pub level: Level,
    /// The mine field, `mine_table[row][column]`.
    pub mine_table: Vec<Vec<Cell>>,
    /// Mines not flagged yet, as the player counts them.
    pub mines_left: i16,
    /// Where the game stands.
    pub status: GameStatus,
}

/// Commands that dig: `D`, and the shortcuts space and Enter.
pub open spec fn is_dig_cmd(c: char) -> bool {
    c == 'D' || c == ' ' || c == '\n'
}

/// Commands that test an opened cell: `T`, and the shortcuts Enter and space.
pub open spec fn is_test_cmd(c: char) -> bool {
    c == 'T' || c == '\n' || c == ' '
}

/// The mine field after command `cmd` on the cell in column `x`, row `y`.
///
/// An unexplored cell is flagged by `F`, marked pending by `P`, and dug by a
/// dig command, which opens it and, where it has no mine and no mine
/// around, every cell that the opening reaches. An opened cell is tested by a
/// test command: when as many cells around it are flagged as it has mines
/// around, every cell around it that is neither opened nor flagged is opened,
/// with all that the opening reaches. A flagged cell is dug by `D` (and
/// opened though flagged), unflagged by `F`, marked pending by `P`. A pending
/// cell is dug by a dig command, flagged by `F`, cleared by `P`. Any other
/// command, or a cell off the board, changes nothing.
pub open spec fn dig_table(t: Seq<Seq<Cell>>, x: int, y: int, cmd: char) -> Seq<Seq<Cell>> {
    if !in_bounds(t, y, x) {
        t
    } else {
        let c = t[y][x];
        match c.status {
            Status::Unexplored => if cmd == 'F' {
                with_status(t, y, x, Status::Flaged)
            } else if cmd == 'P' {
                with_status(t, y, x, Status::Pending)
            } else if is_dig_cmd(cmd) {
                open_region(t, set![(y, x)])
            } else {
                t
            },
            Status::Opened => if is_test_cmd(cmd) && c.surrnd_mines == flags_around(t, y, x) {
                open_region(t, chord_seeds(t, y, x))
            } else {
                t
            },
            Status::Flaged => if cmd == 'D' {
                open_region(t, set![(y, x)])
            } else if cmd == 'F' {
                with_status(t, y, x, Status::Unexplored)
            } else if cmd == 'P' {
                with_status(t, y, x, Status::Pending)
            } else {
                t
            },
            Status::Pending => if is_dig_cmd(cmd) {
                open_region(t, set![(y, x)])
            } else if cmd == 'F' {
                with_status(t, y, x, Status::Flaged)
            } else if cmd == 'P' {
                with_status(t, y, x, Status::Unexplored)
            } else {
                t
            },
        }
    }
}

/// How command `cmd` on `(x, y)` changes the count of mines left: flagging
/// an unexplored cell takes one, unflagging gives one back.
pub open spec fn dig_mines_delta(t: Seq<Seq<Cell>>, x: int, y: int, cmd: char) -> int {
    if in_bounds(t, y, x) && cmd == 'F' && t[y][x].status == Status::Unexplored {
        -1
    } else if in_bounds(t, y, x) && cmd == 'F' && t[y][x].status == Status::Flaged {
        1
    } else {
        0
    }
}

/// Orders the steps of a dig: a test comes before the digs it makes, a
/// flagged or pending cell before the dig of that cell as unexplored.
pub open spec fn dig_rank(t: Seq<Seq<Cell>>, x: int, y: int, cmd: char) -> int {
    if !in_bounds(t, y, x) {
        0
    } else if t[y][x].status == Status::Opened && is_test_cmd(cmd) {
        3
    } else if t[y][x].status == Status::Flaged || t[y][x].status == Status::Pending {
        1
    } else {
        0
    }
}

impl Game {
    /// The mine field as a table of cells.
    pub open spec fn table(&self) -> Seq<Seq<Cell>> {
        self.mine_table@.map_values(|row: Vec<Cell>| row@)
    }

    /// A board of `level.rows` rows of `level.cols` cells, at least one of
    /// each and at most `MAX_CELLS` in all, and a count of mines that is not
    /// negative.
    pub open spec fn wf(&self) -> bool {
        &&& 1 <= self.level.rows
        &&& 1 <= self.level.cols
        &&& self.level.rows <= MAX_CELLS
        &&& self.level.cols <= MAX_CELLS
        &&& self.level.rows * self.level.cols <= MAX_CELLS
        &&& 0 <= self.level.mines
        &&& self.mine_table@.len() == self.level.rows
        &&& forall|i: int| 0 <= i < self.level.rows ==> #[trigger] self.mine_table@[i]@.len() == self.level.cols
    }

    /// `self` is a game of difficulty `level` ready to play: `level.mines`
    /// mines laid, every cell unexplored, every cell without a mine knowing
    /// how many mines are around it, all mines left to find, not started.
    pub open spec fn is_fresh_game(&self, level: u8) -> bool {
        &&& self.wf()
        &&& self.level == level_of(level)
        &&& self.mines_left == self.level.mines
        &&& self.status == GameStatus::NotStart
        &&& count_all(self.table(), mine_at(self.table())) == self.level.mines
        &&& forall|i: int, j: int| #![trigger self.table()[i][j]]
            0 <= i < self.level.rows && 0 <= j < self.level.cols ==> {
                &&& self.table()[i][j].status == Status::Unexplored
                &&& self.table()[i][j].surrnd_mines == if self.table()[i][j].is_mine {
                    0
                } else {
                    mines_around(self.table(), i, j)
                }
            }
    }

    /// What a well-formed game says of its table.
    pub proof fn lemma_wf_table(&self)
        requires
            self.wf(),
        ensures
            is_rect(self.table(), self.level.rows as int, self.level.cols as int),
            cols_of(self.table()) == self.level.cols,
            forall|i: int, j: int| #![trigger self.table()[i][j]]
                0 <= i < self.level.rows && 0 <= j < self.level.cols ==> self.table()[i][j]
                    == self.mine_table@[i]@[j],
    {
        assert(self.mine_table@[0]@.len() == self.level.cols);
    }

    /// Sets the status of cell `(x, y)`.
    fn set_status(&mut self, x: usize, y: usize, s: Status)
        requires
            old(self).wf(),
            y < old(self).level.rows,
            x < old(self).level.cols,
        ensures
            final(self).wf(),
            final(self).table() == with_status(old(self).table(), y as int, x as int, s),
            final(self).level == old(self).level,
            final(self).mines_left == old(self).mines_left,
            final(self).status == old(self).status,
    {
        proof {
            self.lemma_wf_table();
        }
        let ghost t = self.table();
        self.mine_table[y][x].status = s;
        proof {
            let t2 = with_status(t, y as int, x as int, s);
            assert forall|i: int| 0 <= i < self.mine_table@.len() implies #[trigger] self.table()[i]
                =~= t2[i] by {}
            assert(self.table() =~= t2);
            assert forall|i: int| 0 <= i < self.level.rows implies #[trigger] self.mine_table@[i]@.len()
                == self.level.cols by {
                assert(self.table()[i].len() == t[i].len());
            }
        }
    }

    /// Carries out command `cmd` on the cell in column `x`, row `y`: see
    /// `dig_table` and `dig_mines_delta`.
    pub fn dig_cell(&mut self, x: &usize, y: &usize, cmd: &char)
        requires
            old(self).wf(),
            i16::MIN <= old(self).mines_left + dig_mines_delta(
                old(self).table(),
                *x as int,
                *y as int,
                *cmd,
            ) <= i16::MAX,
        ensures
            final(self).wf(),
            final(self).level == old(self).level,
            final(self).status == old(self).status,
            final(self).table() == dig_table(old(self).table(), *x as int, *y as int, *cmd),
            final(self).mines_left == old(self).mines_left + dig_mines_delta(
                old(self).table(),
                *x as int,
                *y as int,
                *cmd,
            ),
            unopened(final(self).table()) <= unopened(old(self).table()),
        decreases unopened(old(self).table()), dig_rank(old(self).table(), *x as int, *y as int, *cmd),
    {
        proof {
            self.lemma_wf_table();
        }
        if *x >= self.level.cols || *y >= self.level.rows {
            return ;
        }
        let x = *x;
        let y = *y;
        let ghost t0 = self.table();
        proof {
            lemma_unopened_with_status(t0, y as int, x as int, Status::Opened);
            lemma_unopened_with_status(t0, y as int, x as int, Status::Unexplored);
            lemma_unopened_with_status(t0, y as int, x as int, Status::Flaged);
            lemma_unopened_with_status(t0, y as int, x as int, Status::Pending);
        }
        match self.mine_table[y][x].status {
            Status::Unexplored => {
                match *cmd {
                    'F' => {
                        self.set_status(x, y, Status::Flaged);
                        self.mines_left = self.mines_left - 1;
                    },
                    'P' => {
                        self.set_status(x, y, Status::Pending);
                    },
                    'D' | ' ' | '\n' => {
                        self.set_status(x, y, Status::Opened);
                        proof {
                            self.lemma_wf_table();
                            assert(self.table()[y as int][x as int].is_mine == t0[y as int][x as int].is_mine);
                            assert(self.table()[y as int][x as int].surrnd_mines
                                == t0[y as int][x as int].surrnd_mines);
                        }
                        if self.mine_table[y][x].is_mine {
                            proof {
                                lemma_region_single(t0, y as int, x as int);
                            }
                            return ;
                        }
                        if self.mine_table[y][x].surrnd_mines == 0 {
                            self.open_around(x, y);
                            proof {
                                lemma_region_reseed(t0, y as int, x as int, Status::Opened);
                            }
                        } else {
                            proof {
                                lemma_region_single(t0, y as int, x as int);
                            }
                        }
                    },
                    _ => {},
                }
            },
            Status::Opened => {
                match *cmd {
                    'T' | '\n' | ' ' => {
                        self.test_around(x, y);
                    },
                    _ => {},
                }
            },
            Status::Flaged => {
                match *cmd {
                    'D' => {
                        self.set_status(x, y, Status::Unexplored);
                        self.dig_cell(&x, &y, &'D');
                        proof {
                            lemma_region_reseed(t0, y as int, x as int, Status::Unexplored);
                        }
                    },
                    'F' => {
                        self.set_status(x, y, Status::Unexplored);
                        self.mines_left = self.mines_left + 1;
                    },
                    'P' => {
                        self.set_status(x, y, Status::Pending);
                    },
                    _ => {},
                }
            },
            Status::Pending => {
                match *cmd {
                    'D' | '\n' | ' ' => {
                        self.set_status(x, y, Status::Unexplored);
                        self.dig_cell(&x, &y, &'D');
                        proof {
                            lemma_region_reseed(t0, y as int, x as int, Status::Unexplored);
                        }
                    },
                    'F' => {
                        self.set_status(x, y, Status::Flaged);
                    },
                    'P' => {
                        self.set_status(x, y, Status::Unexplored);
                    },
                    _ => {},
                }
            },
        }
    }

    /// After opening `(x, y)`, which holds no mine and has no mine around,
    /// digs the unexplored cells around it.
    fn open_around(&mut self, x: usize, y: usize)
        requires
            old(self).wf(),
            y < old(self).level.rows,
            x < old(self).level.cols,
            old(self).table()[y as int][x as int].status == Status::Opened,
            !old(self).table()[y as int][x as int].is_mine,
            old(self).table()[y as int][x as int].surrnd_mines == 0,
        ensures
            final(self).wf(),
            final(self).level == old(self).level,
            final(self).status == old(self).status,
            final(self).mines_left == old(self).mines_left,
            final(self).table() == open_region(old(self).table(), set![(y as int, x as int)]),
            unopened(final(self).table()) <= unopened(old(self).table()),
        decreases unopened(old(self).table()), 1int,
    {
        proof {
            self.lemma_wf_table();
        }
        let ghost t1 = self.table();
        let ghost s = (y as int, x as int);
        let ghost seeds = set![s];
        proof {
            lemma_progress_start(t1, seeds);
        }
        let rows = self.mine_table.len();
        let cols = self.mine_table[0].len();
        let min_x: usize = if x == 0 { 0 } else { x - 1 };
        let min_y: usize = if y == 0 { 0 } else { y - 1 };
        let max_x: usize = if x + 2 > cols { cols } else { x + 2 };
        let max_y: usize = if y + 2 > rows { rows } else { y + 2 };
        let mut yy = min_y;
        while yy < max_y
            invariant
                self.wf(),
                self.level == old(self).level,
                self.status == old(self).status,
                self.mines_left == old(self).mines_left,
                rows == self.level.rows,
                cols == self.level.cols,
                y < rows,
                x < cols,
                min_y == box_lo(y as int),
                min_x == box_lo(x as int),
                max_y == box_hi(y as int, rows as int),
                max_x == box_hi(x as int, cols as int),
                min_y <= yy <= max_y,
                t1 == old(self).table(),
                is_rect(t1, rows as int, cols as int),
                s == (y as int, x as int),
                seeds == set![s],
                in_bounds(t1, s.0, s.1),
                t1[s.0][s.1].status == Status::Opened,
                !t1[s.0][s.1].is_mine,
                t1[s.0][s.1].surrnd_mines == 0,
                progress(t1, seeds, self.table()),
                unopened(self.table()) <= unopened(t1),
                forall|n: (int, int)|
                    #[trigger] spreads(t1, s, n) && n.0 < yy ==> self.table()[n.0][n.1].status
                        == Status::Opened,
            decreases max_y - yy,
        {
            let mut xx = min_x;
            while xx < max_x
                invariant
                    self.wf(),
                    self.level == old(self).level,
                    self.status == old(self).status,
                    self.mines_left == old(self).mines_left,
                    rows == self.level.rows,
                    cols == self.level.cols,
                    y < rows,
                    x < cols,
                    min_y == box_lo(y as int),
                    min_x == box_lo(x as int),
                    max_y == box_hi(y as int, rows as int),
                    max_x == box_hi(x as int, cols as int),
                    min_y <= yy < max_y,
                    min_x <= xx <= max_x,
                    t1 == old(self).table(),
                    is_rect(t1, rows as int, cols as int),
                    s == (y as int, x as int),
                    seeds == set![s],
                    in_bounds(t1, s.0, s.1),
                    t1[s.0][s.1].status == Status::Opened,
                    !t1[s.0][s.1].is_mine,
                    t1[s.0][s.1].surrnd_mines == 0,
                    progress(t1, seeds, self.table()),
                    unopened(self.table()) <= unopened(t1),
                    forall|n: (int, int)|
                        #[trigger] spreads(t1, s, n) && (n.0 < yy || (n.0 == yy && n.1 < xx))
                            ==> self.table()[n.0][n.1].status == Status::Opened,
                decreases max_x - xx,
            {
                proof {
                    self.lemma_wf_table();
                }
                let ghost t = self.table();
                let ghost n = (yy as int, xx as int);
                proof {
                    lemma_progress_cells(t1, seeds, t, n.0, n.1);
                }
                if self.mine_table[yy][xx].status == Status::Unexplored && !(xx == x && yy == y) {
                    proof {
                        assert(spreads(t1, s, n));
                        lemma_count_box_bounds_any(unopened_at(t), 0, t.len() as int, 0, cols_of(t));
                    }
                    self.dig_cell(&xx, &yy, &'D');
                    proof {
                        lemma_progress_flood(t1, seeds, t, n, s);
                    }
                }
                proof {
                    let t2 = self.table();
                    assert forall|m: (int, int)|
                        #[trigger] spreads(t1, s, m) && (m.0 < yy || (m.0 == yy && m.1 < xx + 1))
                            implies t2[m.0][m.1].status == Status::Opened by {
                        if m != n {
                            assert(t[m.0][m.1].status == Status::Opened);
                        } else {
                            lemma_progress_cells(t1, seeds, t, m.0, m.1);
                        }
                    }
                }
                xx = xx + 1;
            }
            yy = yy + 1;
        }
        proof {
            let t = self.table();
            assert forall|p: (int, int)| #[trigger] seeds.contains(p) implies t[p.0][p.1].status
                == Status::Opened by {
                lemma_progress_cells(t1, seeds, t, p.0, p.1);
            }
            assert forall|c: (int, int), m: (int, int)|
                #[trigger] seeds.contains(c) && #[trigger] spreads(t1, c, m) implies t[m.0][m.1].status
                == Status::Opened by {
                assert(c == s);
            }
            lemma_progress_finish(t1, seeds, t);
        }
    }

    /// Tests the opened cell `(x, y)`: when as many cells around it are
    /// flagged as it has mines around, opens the others around it.
    fn test_around(&mut self, x: usize, y: usize)
        requires
            old(self).wf(),
            y < old(self).level.rows,
            x < old(self).level.cols,
            old(self).table()[y as int][x as int].status == Status::Opened,
        ensures
            final(self).wf(),
            final(self).level == old(self).level,
            final(self).status == old(self).status,
            final(self).mines_left == old(self).mines_left,
            final(self).table() == (if old(self).table()[y as int][x as int].surrnd_mines
                == flags_around(old(self).table(), y as int, x as int) {
                open_region(old(self).table(), chord_seeds(old(self).table(), y as int, x as int))
            } else {
                old(self).table()
            }),
            unopened(final(self).table()) <= unopened(old(self).table()),
        decreases unopened(old(self).table()), 2int,
    {
        proof {
            self.lemma_wf_table();
        }
        let ghost t0 = self.table();
        let rows = self.mine_table.len();
        let cols = self.mine_table[0].len();
        let min_x: usize = if x == 0 { 0 } else { x - 1 };
        let min_y: usize = if y == 0 { 0 } else { y - 1 };
        let max_x: usize = if x + 2 > cols { cols } else { x + 2 };
        let max_y: usize = if y + 2 > rows { rows } else { y + 2 };
        let ghost fl = flagged_at(t0);
        // count the flags in the box around (x, y)
        let mut sum_mines: i8 = 0;
        let mut yy = min_y;
        while yy < max_y
            invariant
                self.wf(),
                self.table() == t0,
                rows == self.level.rows,
                cols == self.level.cols,
                is_rect(t0, rows as int, cols as int),
                min_y == box_lo(y as int),
                min_x == box_lo(x as int),
                max_y == box_hi(y as int, rows as int),
                max_x == box_hi(x as int, cols as int),
                y < rows,
                x < cols,
                fl == flagged_at(t0),
                min_y <= yy <= max_y,
                sum_mines == count_box(fl, min_y as int, yy as int, min_x as int, max_x as int),
            decreases max_y - yy,
        {
            let mut xx = min_x;
            proof {
                lemma_count_box_bounds(fl, min_y as int, yy as int, min_x as int, max_x as int);
                assert((yy - min_y) * (max_x - min_x) <= 6) by (nonlinear_arith)
                    requires
                        yy - min_y <= 2,
                        max_x - min_x <= 3,
                        0 <= yy - min_y,
                        0 <= max_x - min_x,
                ;
            }
            while xx < max_x
                invariant
                    self.wf(),
                    self.table() == t0,
                    rows == self.level.rows,
                    cols == self.level.cols,
                    is_rect(t0, rows as int, cols as int),
                    min_x == box_lo(x as int),
                    max_x == box_hi(x as int, cols as int),
                    x < cols,
                    fl == flagged_at(t0),
                    min_y <= yy < max_y,
                    max_y <= rows,
                    min_x <= xx <= max_x,
                    count_box(fl, min_y as int, yy as int, min_x as int, max_x as int) <= 6,
                    0 <= count_box(fl, min_y as int, yy as int, min_x as int, max_x as int),
                    sum_mines == count_box(fl, min_y as int, yy as int, min_x as int, max_x as int)
                        + count_row(fl, yy as int, min_x as int, xx as int),
                decreases max_x - xx,
            {
                proof {
                    self.lemma_wf_table();
                    lemma_count_row_bounds(fl, yy as int, min_x as int, xx as int);
                }
                if self.mine_table[yy][xx].status == Status::Flaged {
                    sum_mines = sum_mines + 1;
                }
                xx = xx + 1;
            }
            yy = yy + 1;
        }
        if self.mine_table[y][x].surrnd_mines == sum_mines {
            let ghost seeds = chord_seeds(t0, y as int, x as int);
            proof {
                lemma_progress_start(t0, seeds);
            }
            let mut yy = min_y;
            while yy < max_y
                invariant
                    self.wf(),
                    self.level == old(self).level,
                    self.status == old(self).status,
                    self.mines_left == old(self).mines_left,
                    rows == self.level.rows,
                    cols == self.level.cols,
                    y < rows,
                    x < cols,
                    min_y == box_lo(y as int),
                    min_x == box_lo(x as int),
                    max_y == box_hi(y as int, rows as int),
                    max_x == box_hi(x as int, cols as int),
                    min_y <= yy <= max_y,
                    t0 == old(self).table(),
                    is_rect(t0, rows as int, cols as int),
                    seeds == chord_seeds(t0, y as int, x as int),
                    progress(t0, seeds, self.table()),
                    unopened(self.table()) <= unopened(t0),
                    forall|n: (int, int)|
                        #[trigger] seeds.contains(n) && n.0 < yy ==> self.table()[n.0][n.1].status
                            == Status::Opened,
                decreases max_y - yy,
            {
                let mut xx = min_x;
                while xx < max_x
                    invariant
                        self.wf(),
                        self.level == old(self).level,
                        self.status == old(self).status,
                        self.mines_left == old(self).mines_left,
                        rows == self.level.rows,
                        cols == self.level.cols,
                        y < rows,
                        x < cols,
                        min_y == box_lo(y as int),
                        min_x == box_lo(x as int),
                        max_y == box_hi(y as int, rows as int),
                        max_x == box_hi(x as int, cols as int),
                        min_y <= yy < max_y,
                        min_x <= xx <= max_x,
                        t0 == old(self).table(),
                        is_rect(t0, rows as int, cols as int),
                        seeds == chord_seeds(t0, y as int, x as int),
                        progress(t0, seeds, self.table()),
                        unopened(self.table()) <= unopened(t0),
                        forall|n: (int, int)|
                            #[trigger] seeds.contains(n) && (n.0 < yy || (n.0 == yy && n.1 < xx))
                                ==> self.table()[n.0][n.1].status == Status::Opened,
                    decreases max_x - xx,
                {
                    proof {
                        self.lemma_wf_table();
                    }
                    let ghost t = self.table();
                    let ghost n = (yy as int, xx as int);
                    proof {
                        lemma_progress_cells(t0, seeds, t, n.0, n.1);
                    }
                    if self.mine_table[yy][xx].status != Status::Flaged && !(xx == x && yy == y) {
                        if self.mine_table[yy][xx].surrnd_mines > 0 {
                            proof {
                                lemma_unopened_with_status(t, n.0, n.1, Status::Opened);
                                lemma_progress_direct(t0, seeds, t, n);
                            }
                            self.set_status(xx, yy, Status::Opened);
                        } else {
                            proof {
                                lemma_count_box_bounds_any(unopened_at(t), 0, t.len() as int, 0, cols_of(t));
                            }
                            self.dig_cell(&xx, &yy, &'D');
                            proof {
                                if t[n.0][n.1].status != Status::Opened {
                                    assert(seeds.contains(n));
                                    lemma_progress_flood(t0, seeds, t, n, n);
                                }
                            }
                        }
                    }
                    proof {
                        let t2 = self.table();
                        assert forall|m: (int, int)|
                            #[trigger] seeds.contains(m) && (m.0 < yy || (m.0 == yy && m.1 < xx + 1))
                                implies t2[m.0][m.1].status == Status::Opened by {
                            lemma_progress_cells(t0, seeds, t2, m.0, m.1);
                            if m != n {
                                assert(t[m.0][m.1].status == Status::Opened);
                                lemma_progress_cells(t0, seeds, t, m.0, m.1);
                            }
                        }
                    }
                    xx = xx + 1;
                }
                yy = yy + 1;
            }
            proof {
                let t = self.table();
                assert forall|p: (int, int)| #[trigger] seeds.contains(p) implies t[p.0][p.1].status
                    == Status::Opened by {}
                assert forall|c: (int, int), m: (int, int)|
                    #[trigger] seeds.contains(c) && #[trigger] spreads(t0, c, m) implies t[m.0][m.1].status
                    == Status::Opened by {
                    assert(newly_opened(t0, t, c));
                    lemma_progress_spread(t0, seeds, t, c, m);
                }
                lemma_progress_finish(t0, seeds, t);
            }
        }
    }

    /// A fresh game of difficulty `level` (see `level_of`): every cell
    /// unexplored, without mine or count, and all mines left to find.
    pub fn new(level: u8) -> (g: Game)
        requires
            level != 0,
        ensures
            g.wf(),
            g.level == level_of(level),
            g.mines_left == g.level.mines,
            g.status == GameStatus::NotStart,
            forall|i: int, j: int| #![trigger g.table()[i][j]]
                0 <= i < g.level.rows && 0 <= j < g.level.cols ==> g.table()[i][j] == Cell::fresh(),
    {
        let lv = Level::new(level);
        let mut table: Vec<Vec<Cell>> = Vec::new();
        let mut i: usize = 0;
        while i < lv.rows
            invariant
                lv == level_of(level),
                i <= lv.rows,
                table@.len() == i,
                forall|k: int| 0 <= k < i ==> #[trigger] table@[k]@.len() == lv.cols,
                forall|k: int, j: int| #![trigger table@[k]@[j]]
                    0 <= k < i && 0 <= j < lv.cols ==> table@[k]@[j] == Cell::fresh(),
            decreases lv.rows - i,
        {
            let mut row: Vec<Cell> = Vec::new();
            let mut j: usize = 0;
            while j < lv.cols
                invariant
                    lv == level_of(level),
                    j <= lv.cols,
                    row@.len() == j,
                    forall|k: int| 0 <= k < j ==> #[trigger] row@[k] == Cell::fresh(),
                decreases lv.cols - j,
            {
                row.push(Cell::new());
                j = j + 1;
            }
            table.push(row);
            i = i + 1;
        }
        let g = Game { level: lv, mine_table: table, mines_left: lv.mines, status: GameStatus::NotStart };
        proof {
            lemma_level_sizes(level);
            assert forall|i: int, j: int| #![trigger g.table()[i][j]]
                0 <= i < g.level.rows && 0 <= j < g.level.cols implies g.table()[i][j] == Cell::fresh() by {
                assert(table@[i]@[j] == Cell::fresh());
            }
        }
        g
    }

    /// Lays a mine in cell `(x, y)`.
    fn set_mine(&mut self, x: usize, y: usize)
        requires
            old(self).wf(),
            y < old(self).level.rows,
            x < old(self).level.cols,
        ensures
            final(self).wf(),
            final(self).table() == with_mine(old(self).table(), y as int, x as int),
            final(self).level == old(self).level,
            final(self).mines_left == old(self).mines_left,
            final(self).status == old(self).status,
    {
        proof {
            self.lemma_wf_table();
        }
        let ghost t = self.table();
        self.mine_table[y][x].is_mine = true;
        proof {
            let t2 = with_mine(t, y as int, x as int);
            assert forall|i: int| 0 <= i < self.mine_table@.len() implies #[trigger] self.table()[i]
                =~= t2[i] by {}
            assert(self.table() =~= t2);
            assert forall|i: int| 0 <= i < self.level.rows implies #[trigger] self.mine_table@[i]@.len()
                == self.level.cols by {
                assert(self.table()[i].len() == t[i].len());
            }
        }
    }

    /// Sets the count of mines around cell `(x, y)`.
    fn set_count(&mut self, x: usize, y: usize, n: i8)
        requires
            old(self).wf(),
            y < old(self).level.rows,
            x < old(self).level.cols,
        ensures
            final(self).wf(),
            final(self).table() == with_count(old(self).table(), y as int, x as int, n),
            final(self).level == old(self).level,
            final(self).mines_left == old(self).mines_left,
            final(self).status == old(self).status,
    {
        proof {
            self.lemma_wf_table();
        }
        let ghost t = self.table();
        self.mine_table[y][x].surrnd_mines = n;
        proof {
            let t2 = with_count(t, y as int, x as int, n);
            assert forall|i: int| 0 <= i < self.mine_table@.len() implies #[trigger] self.table()[i]
                =~= t2[i] by {}
            assert(self.table() =~= t2);
            assert forall|i: int| 0 <= i < self.level.rows implies #[trigger] self.mine_table@[i]@.len()
                == self.level.cols by {
                assert(self.table()[i].len() == t[i].len());
            }
        }
    }

    /// Lays a mine in the free cell that comes `k`-th, from zero, in reading
    /// order, and returns its position as (row, column).
    pub fn lay_mine_on_free(&mut self, k: usize) -> (pos: (usize, usize))
        requires
            old(self).wf(),
            k < count_all(old(self).table(), free_at(old(self).table())),
        ensures
            final(self).wf(),
            final(self).level == old(self).level,
            final(self).mines_left == old(self).mines_left,
            final(self).status == old(self).status,
            pos.0 < old(self).level.rows,
            pos.1 < old(self).level.cols,
            !old(self).table()[pos.0 as int][pos.1 as int].is_mine,
            count_box(free_at(old(self).table()), 0, pos.0 as int, 0, old(self).level.cols as int)
                + count_row(free_at(old(self).table()), pos.0 as int, 0, pos.1 as int) == k,
            final(self).table() == with_mine(old(self).table(), pos.0 as int, pos.1 as int),
    {
        proof {
            self.lemma_wf_table();
        }
        let ghost t = self.table();
        let ghost fr = free_at(t);
        let rows = self.level.rows;
        let cols = self.level.cols;
        let mut seen: usize = 0;
        let mut i: usize = 0;
        while i < rows
            invariant
                self.wf(),
                *self == *old(self),
                t == self.table(),
                fr == free_at(t),
                rows == self.level.rows,
                cols == self.level.cols,
                i <= rows,
                seen == count_box(fr, 0, i as int, 0, cols as int),
                seen <= k,
                k < count_all(t, fr),
            decreases rows - i,
        {
            let mut j: usize = 0;
            while j < cols
                invariant
                    self.wf(),
                    *self == *old(self),
                    t == self.table(),
                    fr == free_at(t),
                    rows == self.level.rows,
                    cols == self.level.cols,
                    i < rows,
                    j <= cols,
                    seen == count_box(fr, 0, i as int, 0, cols as int) + count_row(fr, i as int, 0, j as int),
                    seen <= k,
                    k < count_all(t, fr),
                decreases cols - j,
            {
                proof {
                    self.lemma_wf_table();
                }
                if !self.mine_table[i][j].is_mine {
                    if seen == k {
                        self.set_mine(j, i);
                        return (i, j);
                    }
                    seen = seen + 1;
                }
                j = j + 1;
            }
            i = i + 1;
        }
        proof {
            self.lemma_wf_table();
            assert(false);
        }
        (0, 0)
    }

    /// Empties the board and lays `level.mines` mines in cells drawn at
    /// random: each mine goes to a free cell drawn with equal chance among
    /// the free cells left. Every cell ends unexplored, without count.
    pub fn laying_mine(&mut self)
        requires
            old(self).wf(),
            old(self).level.mines <= old(self).level.rows * old(self).level.cols,
        ensures
            final(self).wf(),
            final(self).level == old(self).level,
            final(self).mines_left == old(self).mines_left,
            final(self).status == old(self).status,
            count_all(final(self).table(), mine_at(final(self).table())) == final(self).level.mines,
            forall|i: int, j: int| #![trigger final(self).table()[i][j]]
                0 <= i < final(self).level.rows && 0 <= j < final(self).level.cols
                    ==> final(self).table()[i][j].status == Status::Unexplored
                    && final(self).table()[i][j].surrnd_mines == 0,
    {
        proof {
            self.lemma_wf_table();
        }
        let rows = self.mine_table.len();
        let mut i: usize = 0;
        while i < rows
            invariant
                self.wf(),
                self.level == old(self).level,
                self.mines_left == old(self).mines_left,
                self.status == old(self).status,
                self.level.mines <= self.level.rows * self.level.cols,
                rows == self.level.rows,
                i <= rows,
                forall|a: int, b: int| #![trigger self.table()[a][b]]
                    0 <= a < i && 0 <= b < self.level.cols ==> self.table()[a][b] == Cell::fresh(),
            decreases rows - i,
        {
            let cols = self.mine_table[i].len();
            let mut j: usize = 0;
            while j < cols
                invariant
                    self.wf(),
                    self.level == old(self).level,
                    self.mines_left == old(self).mines_left,
                    self.status == old(self).status,
                    self.level.mines <= self.level.rows * self.level.cols,
                    rows == self.level.rows,
                    cols == self.level.cols,
                    i < rows,
                    j <= cols,
                    forall|a: int, b: int| #![trigger self.table()[a][b]]
                        (0 <= a < i && 0 <= b < self.level.cols) || (a == i && 0 <= b < j)
                            ==> self.table()[a][b] == Cell::fresh(),
                decreases cols - j,
            {
                proof {
                    self.lemma_wf_table();
                }
                let ghost t = self.table();
                self.mine_table[i][j].reset();
                proof {
                    assert forall|a: int| 0 <= a < self.mine_table@.len() implies #[trigger] self.table()[a]
                        =~= t.update(i as int, t[i as int].update(j as int, Cell::fresh()))[a] by {}
                    assert(self.table() =~= t.update(i as int, t[i as int].update(j as int, Cell::fresh())));
                    assert forall|a: int| 0 <= a < self.level.rows implies #[trigger] self.mine_table@[a]@.len()
                        == self.level.cols by {
                        assert(self.table()[a].len() == t[a].len());
                    }
                }
                j = j + 1;
            }
            i = i + 1;
        }
        proof {
            self.lemma_wf_table();
        }
        let ghost t0 = self.table();
        let total = self.level.rows * self.level.cols;
        proof {
            lemma_count_box_const(mine_at(t0), false, 0, t0.len() as int, 0, cols_of(t0));
            lemma_count_box_const(free_at(t0), true, 0, t0.len() as int, 0, cols_of(t0));
        }
        let mut left: i16 = self.level.mines;
        while left > 0
            invariant
                self.wf(),
                self.level == old(self).level,
                self.mines_left == old(self).mines_left,
                self.status == old(self).status,
                total == self.level.rows * self.level.cols,
                0 <= left <= self.level.mines <= total,
                count_all(self.table(), mine_at(self.table())) == self.level.mines - left,
                count_all(self.table(), free_at(self.table())) == total - (self.level.mines - left),
                forall|a: int, b: int| #![trigger self.table()[a][b]]
                    0 <= a < self.level.rows && 0 <= b < self.level.cols
                        ==> self.table()[a][b].status == Status::Unexplored
                        && self.table()[a][b].surrnd_mines == 0,
            decreases left,
        {
            proof {
                self.lemma_wf_table();
            }
            let ghost t = self.table();
            let free = total - (self.level.mines as usize - left as usize);
            let k = get_rand(free);
            let pos = self.lay_mine_on_free(k);
            proof {
                let t2 = self.table();
                self.lemma_wf_table();
                assert(t2[0].len() == t[0].len());
                lemma_count_box_change(mine_at(t), mine_at(t2), 0, t.len() as int, 0, cols_of(t), pos.0 as int, pos.1 as int);
                lemma_count_box_change(free_at(t), free_at(t2), 0, t.len() as int, 0, cols_of(t), pos.0 as int, pos.1 as int);
            }
            left = left - 1;
        }
    }

    /// Number of mines in the eight cells around column `x`, row `y`.
    pub fn calc_mines_1cell(&self, x: &usize, y: &usize) -> (n: i8)
        requires
            self.wf(),
            *x + 2 <= usize::MAX,
            *y + 2 <= usize::MAX,
        ensures
            n == mines_around(self.table(), *y as int, *x as int),
    {
        proof {
            self.lemma_wf_table();
        }
        let ghost t = self.table();
        let ghost p = mine_near(t, *y as int, *x as int);
        let max_y = self.mine_table.len();
        let max_x = if max_y > 0 { self.mine_table[0].len() } else { 0 };
        let min_x: usize = if *x == 0 { 0 } else { *x - 1 };
        let min_y: usize = if *y == 0 { 0 } else { *y - 1 };
        let hi_x: usize = if *x + 2 > max_x { max_x } else { *x + 2 };
        let hi_y: usize = if *y + 2 > max_y { max_y } else { *y + 2 };
        let end_y: usize = if hi_y < min_y { min_y } else { hi_y };
        let end_x: usize = if hi_x < min_x { min_x } else { hi_x };
        let mut sum: i8 = 0;
        let mut i = min_y;
        while i < hi_y
            invariant
                self.wf(),
                t == self.table(),
                p == mine_near(t, *y as int, *x as int),
                max_y == self.level.rows,
                max_x == self.level.cols,
                min_y == box_lo(*y as int),
                min_x == box_lo(*x as int),
                hi_y == box_hi(*y as int, max_y as int),
                hi_x == box_hi(*x as int, max_x as int),
                end_x == if hi_x < min_x { min_x } else { hi_x },
                min_y <= i <= end_y,
                end_y == if hi_y < min_y { min_y } else { hi_y },
                sum == count_box(p, min_y as int, i as int, min_x as int, hi_x as int),
            decreases hi_y - i,
        {
            let mut j = min_x;
            proof {
                lemma_count_box_bounds(p, min_y as int, i as int, min_x as int, end_x as int);
                assert(count_box(p, min_y as int, i as int, min_x as int, end_x as int)
                    == count_box(p, min_y as int, i as int, min_x as int, hi_x as int)) by {
                    if hi_x < min_x {
                        lemma_count_box_const(p, false, min_y as int, i as int, min_x as int, min_x as int);
                        lemma_count_box_empty_cols(p, min_y as int, i as int, min_x as int, hi_x as int);
                    }
                }
                assert((i - min_y) * (end_x - min_x) <= 6) by (nonlinear_arith)
                    requires
                        i - min_y <= 2,
                        end_x - min_x <= 3,
                        0 <= i - min_y,
                        0 <= end_x - min_x,
                ;
            }
            while j < hi_x
                invariant
                    self.wf(),
                    t == self.table(),
                    p == mine_near(t, *y as int, *x as int),
                    max_y == self.level.rows,
                    max_x == self.level.cols,
                    min_y <= i < hi_y,
                    hi_y <= max_y,
                    hi_x <= max_x,
                    min_x <= j <= end_x,
                    end_x == if hi_x < min_x { min_x } else { hi_x },
                    hi_x - min_x <= 3,
                    0 <= count_box(p, min_y as int, i as int, min_x as int, hi_x as int) <= 6,
                    sum == count_box(p, min_y as int, i as int, min_x as int, hi_x as int) + count_row(
                        p,
                        i as int,
                        min_x as int,
                        j as int,
                    ),
                decreases hi_x - j,
            {
                proof {
                    self.lemma_wf_table();
                    lemma_count_row_bounds(p, i as int, min_x as int, j as int);
                }
                if !(i == *y && j == *x) && self.mine_table[i][j].is_mine {
                    sum = sum + 1;
                }
                j = j + 1;
            }
            proof {
                if hi_x < min_x {
                    lemma_count_row_empty(p, i as int, min_x as int, hi_x as int);
                }
            }
            i = i + 1;
        }
        sum
    }

    /// Sets the count of mines around each cell that holds no mine.
    pub fn calc_surrnd_mines_all(&mut self)
        requires
            old(self).wf(),
        ensures
            final(self).wf(),
            final(self).level == old(self).level,
            final(self).mines_left == old(self).mines_left,
            final(self).status == old(self).status,
            forall|i: int, j: int| #![trigger final(self).table()[i][j]]
                0 <= i < old(self).level.rows && 0 <= j < old(self).level.cols ==> {
                    let c = old(self).table()[i][j];
                    let d = final(self).table()[i][j];
                    &&& d.is_mine == c.is_mine
                    &&& d.status == c.status
                    &&& d.surrnd_mines == if c.is_mine {
                        c.surrnd_mines as int
                    } else {
                        mines_around(old(self).table(), i, j)
                    }
                },
    {
        proof {
            self.lemma_wf_table();
        }
        let ghost t0 = self.table();
        let rows = self.mine_table.len();
        let mut i: usize = 0;
        while i < rows
            invariant
                self.wf(),
                self.level == old(self).level,
                self.mines_left == old(self).mines_left,
                self.status == old(self).status,
                t0 == old(self).table(),
                is_rect(t0, rows as int, self.level.cols as int),
                rows == self.level.rows,
                i <= rows,
                forall|a: int, b: int| #![trigger self.table()[a][b]]
                    0 <= a < rows && 0 <= b < self.level.cols ==> {
                        let c = t0[a][b];
                        let d = self.table()[a][b];
                        &&& d.is_mine == c.is_mine
                        &&& d.status == c.status
                        &&& d.surrnd_mines == if c.is_mine || a >= i {
                            c.surrnd_mines as int
                        } else {
                            mines_around(t0, a, b)
                        }
                    },
            decreases rows - i,
        {
            proof {
                self.lemma_wf_table();
            }
            let cols = self.mine_table[i].len();
            let mut j: usize = 0;
            while j < cols
                invariant
                    self.wf(),
                    self.level == old(self).level,
                    self.mines_left == old(self).mines_left,
                    self.status == old(self).status,
                    t0 == old(self).table(),
                    is_rect(t0, rows as int, self.level.cols as int),
                    rows == self.level.rows,
                    cols == self.level.cols,
                    i < rows,
                    j <= cols,
                    forall|a: int, b: int| #![trigger self.table()[a][b]]
                        0 <= a < rows && 0 <= b < self.level.cols ==> {
                            let c = t0[a][b];
                            let d = self.table()[a][b];
                            &&& d.is_mine == c.is_mine
                            &&& d.status == c.status
                            &&& d.surrnd_mines == if c.is_mine || a > i || (a == i && b >= j) {
                                c.surrnd_mines as int
                            } else {
                                mines_around(t0, a, b)
                            }
                        },
                decreases cols - j,
            {
                proof {
                    self.lemma_wf_table();
                }
                if !self.mine_table[i][j].is_mine {
                    let n = self.calc_mines_1cell(&j, &i);
                    proof {
                        let t = self.table();
                        assert forall|a: int, b: int| in_bounds(t0, a, b) implies (#[trigger] t0[a][b]).is_mine
                            == t[a][b].is_mine by {
                            assert(t[a][b] == self.table()[a][b]);
                        }
                        lemma_mines_around_same(t0, t, i as int, j as int);
                    }
                    self.set_count(j, i, n);
                }
                j = j + 1;
            }
            i = i + 1;
        }
    }

    /// A game of difficulty `level` ready to play: `level.mines` mines laid
    /// at random, every cell unexplored, every cell without a mine knowing
    /// how many mines are around it.
    pub fn new_game(level: u8) -> (g: Game)
        requires
            level != 0,
        ensures
            g.is_fresh_game(level),
    {
        let mut game = Game::new(level);
        proof {
            lemma_level_sizes(level);
        }
        game.laying_mine();
        let ghost t1 = game.table();
        game.calc_surrnd_mines_all();
        proof {
            let t2 = game.table();
            game.lemma_wf_table();
            assert forall|i: int, j: int| in_bounds(t1, i, j) implies (#[trigger] t1[i][j]).is_mine
                == t2[i][j].is_mine by {
                assert(t2[i][j] == game.table()[i][j]);
            }
            assert forall|i: int, j: int| #![trigger t2[i][j]]
                0 <= i < game.level.rows && 0 <= j < game.level.cols implies t2[i][j].surrnd_mines
                == if t2[i][j].is_mine { 0 } else { mines_around(t2, i, j) } by {
                lemma_mines_around_same(t1, t2, i, j);
            }
            assert forall|i: int, j: int| in_bounds(t1, i, j) implies #[trigger] mine_at(t1)(i, j)
                == mine_at(t2)(i, j) by {
                assert(t2[i][j] == game.table()[i][j]);
            }
            assert(t2[0].len() == t1[0].len());
            lemma_count_box_same(mine_at(t1), mine_at(t2), 0, t1.len() as int, 0, cols_of(t1));
        }
        game
    }

    /// Pauses the game.
    pub fn pause(&mut self)
        ensures
            final(self).status == GameStatus::Paused,
            final(self).level == old(self).level,
            final(self).mine_table == old(self).mine_table,
            final(self).mines_left == old(self).mines_left,
    {
        self.status = GameStatus::Paused;
    }

    /// Takes a paused game up again.
    pub fn resume(&mut self)
        ensures
            final(self).status == GameStatus::Started,
            final(self).level == old(self).level,
            final(self).mine_table == old(self).mine_table,
            final(self).mines_left == old(self).mines_left,
    {
        self.status = GameStatus::Started;
    }

    /// Checks whether the game is over (see `check_result`). When it is
    /// won, every cell still unexplored or pending is flagged, each
    /// unexplored one taking one from the mines left.
    pub fn success_check(&mut self) -> (r: GameResult)
        requires
            old(self).wf(),
            check_result(old(self).table(), old(self).level.mines as int) == GameResult::Success
                ==> old(self).mines_left - count_all(old(self).table(), unexplored_at(old(self).table()))
                >= i16::MIN,
        ensures
            final(self).wf(),
            final(self).level == old(self).level,
            final(self).status == old(self).status,
            r == check_result(old(self).table(), old(self).level.mines as int),
            final(self).table() == if r == GameResult::Success {
                flag_rest(old(self).table())
            } else {
                old(self).table()
            },
            final(self).mines_left == old(self).mines_left - if r == GameResult::Success {
                count_all(old(self).table(), unexplored_at(old(self).table()))
            } else {
                0
            },
    {
        proof {
            self.lemma_wf_table();
        }
        let ghost t0 = self.table();
        let ghost po = opened_at(t0);
        let ghost ph = hidden_at(t0);
        let ghost pb = blown_at(t0);
        let mut opened: usize = 0;
        let mut unexplored: usize = 0;
        let mut err_flaged: usize = 0;
        let cells_sum = self.level.rows * self.level.cols;
        let rows = self.mine_table.len();
        let mut i: usize = 0;
        while i < rows
            invariant
                self.wf(),
                *self == *old(self),
                t0 == self.table(),
                po == opened_at(t0),
                ph == hidden_at(t0),
                pb == blown_at(t0),
                rows == self.level.rows,
                i <= rows,
                opened == count_box(po, 0, i as int, 0, self.level.cols as int),
                unexplored == count_box(ph, 0, i as int, 0, self.level.cols as int),
                err_flaged == count_box(pb, 0, i as int, 0, self.level.cols as int),
            decreases rows - i,
        {
            proof {
                self.lemma_wf_table();
            }
            let cols = self.mine_table[i].len();
            let mut j: usize = 0;
            proof {
                lemma_count_prefix_le(po, rows as int, cols as int, i as int, 0);
                lemma_count_prefix_le(ph, rows as int, cols as int, i as int, 0);
                lemma_count_prefix_le(pb, rows as int, cols as int, i as int, 0);
                lemma_count_box_bounds(po, 0, rows as int, 0, cols as int);
                lemma_count_box_bounds(ph, 0, rows as int, 0, cols as int);
                lemma_count_box_bounds(pb, 0, rows as int, 0, cols as int);
            }
            while j < cols
                invariant
                    self.wf(),
                    *self == *old(self),
                    t0 == self.table(),
                    po == opened_at(t0),
                    ph == hidden_at(t0),
                    pb == blown_at(t0),
                    rows == self.level.rows,
                    cols == self.level.cols,
                    i < rows,
                    j <= cols,
                    opened == count_box(po, 0, i as int, 0, cols as int) + count_row(po, i as int, 0, j as int),
                    unexplored == count_box(ph, 0, i as int, 0, cols as int) + count_row(ph, i as int, 0, j as int),
                    err_flaged == count_box(pb, 0, i as int, 0, cols as int) + count_row(pb, i as int, 0, j as int),
                decreases cols - j,
            {
                proof {
                    self.lemma_wf_table();
                    lemma_count_prefix_le(po, rows as int, cols as int, i as int, j as int + 1);
                    lemma_count_prefix_le(ph, rows as int, cols as int, i as int, j as int + 1);
                    lemma_count_prefix_le(pb, rows as int, cols as int, i as int, j as int + 1);
                    lemma_count_box_bounds(po, 0, rows as int, 0, cols as int);
                    lemma_count_box_bounds(ph, 0, rows as int, 0, cols as int);
                    lemma_count_box_bounds(pb, 0, rows as int, 0, cols as int);
                    lemma_count_box_bounds_any(po, 0, i as int, 0, cols as int);
                    lemma_count_box_bounds_any(ph, 0, i as int, 0, cols as int);
                    lemma_count_box_bounds_any(pb, 0, i as int, 0, cols as int);
                    lemma_count_row_bounds(po, i as int, 0, j as int);
                    lemma_count_row_bounds(ph, i as int, 0, j as int);
                    lemma_count_row_bounds(pb, i as int, 0, j as int);
                }
                if self.mine_table[i][j].status == Status::Opened {
                    opened = opened + 1;
                }
                if self.mine_table[i][j].status == Status::Unexplored
                    || self.mine_table[i][j].status == Status::Pending {
                    unexplored = unexplored + 1;
                }
                if self.mine_table[i][j].is_mine && self.mine_table[i][j].status == Status::Opened {
                    err_flaged = err_flaged + 1;
                }
                j = j + 1;
            }
            proof {
                assert(count_box(po, 0, i as int + 1, 0, cols as int) == count_box(po, 0, i as int, 0, cols as int) + count_row(po, i as int, 0, cols as int));
            }
            i = i + 1;
        }
        proof {
            lemma_count_box_bounds(po, 0, rows as int, 0, self.level.cols as int);
        }
        // Failed
        if err_flaged > 0 {
            return GameResult::Failed;
        }
        // Not over: the opened cells and the mines do not make up the board
        if self.level.mines as usize + opened != cells_sum {
            return GameResult::NotOver;
        }
        // Won: flag whatever is left
        if unexplored > 0 {
            let ghost pu = unexplored_at(t0);
            let mut i: usize = 0;
            while i < rows
                invariant
                    self.wf(),
                    self.level == old(self).level,
                    self.status == old(self).status,
                    t0 == old(self).table(),
                    is_rect(t0, rows as int, self.level.cols as int),
                    pu == unexplored_at(t0),
                    rows == self.level.rows,
                    i <= rows,
                    old(self).mines_left - count_all(t0, pu) >= i16::MIN,
                    self.mines_left == old(self).mines_left - count_box(pu, 0, i as int, 0, self.level.cols as int),
                    forall|a: int, b: int| #![trigger self.table()[a][b]]
                        0 <= a < rows && 0 <= b < self.level.cols ==> self.table()[a][b] == if a < i
                            && hidden_at(t0)(a, b) {
                            Cell { status: Status::Flaged, ..t0[a][b] }
                        } else {
                            t0[a][b]
                        },
                decreases rows - i,
            {
                proof {
                    self.lemma_wf_table();
                }
                let cols = self.mine_table[i].len();
                let mut j: usize = 0;
                while j < cols
                    invariant
                        self.wf(),
                        self.level == old(self).level,
                        self.status == old(self).status,
                        t0 == old(self).table(),
                        is_rect(t0, rows as int, self.level.cols as int),
                        pu == unexplored_at(t0),
                        rows == self.level.rows,
                        cols == self.level.cols,
                        i < rows,
                        j <= cols,
                        old(self).mines_left - count_all(t0, pu) >= i16::MIN,
                        self.mines_left == old(self).mines_left - (count_box(pu, 0, i as int, 0, cols as int)
                            + count_row(pu, i as int, 0, j as int)),
                        forall|a: int, b: int| #![trigger self.table()[a][b]]
                            0 <= a < rows && 0 <= b < cols ==> self.table()[a][b] == if (a < i || (a == i
                                && b < j)) && hidden_at(t0)(a, b) {
                                Cell { status: Status::Flaged, ..t0[a][b] }
                            } else {
                                t0[a][b]
                            },
                    decreases cols - j,
                {
                    proof {
                        self.lemma_wf_table();
                        lemma_count_prefix_le(pu, rows as int, cols as int, i as int, j as int + 1);
                        assert(self.table()[i as int][j as int] == t0[i as int][j as int]);
                    }
                    if self.mine_table[i][j].status == Status::Unexplored
                        || self.mine_table[i][j].status == Status::Pending {
                        let ghost t = self.table();
                        self.dig_cell(&j, &i, &'F');
                        proof {
                            self.lemma_wf_table();
                            let t2 = self.table();
                            assert forall|a: int, b: int| #![trigger t2[a][b]]
                                0 <= a < rows && 0 <= b < cols implies t2[a][b] == if (a < i || (a == i
                                    && b < j + 1)) && hidden_at(t0)(a, b) {
                                    Cell { status: Status::Flaged, ..t0[a][b] }
                                } else {
                                    t0[a][b]
                                } by {}
                        }
                    }
                    j = j + 1;
                }
                proof {
                    assert(count_box(pu, 0, i as int + 1, 0, cols as int) == count_box(pu, 0, i as int, 0, cols as int) + count_row(pu, i as int, 0, cols as int));
                }
                i = i + 1;
            }
            proof {
                self.lemma_wf_table();
                let t = self.table();
                let f = flag_rest(t0);
                assert forall|a: int, b: int| in_bounds(t, a, b) implies #[trigger] t[a][b] == f[a][b] by {
                    assert(t[a][b] == self.table()[a][b]);
                }
                lemma_tables_ext(t, f);
            }
        } else {
            proof {
                let f = flag_rest(t0);
                lemma_count_box_pos(ph, 0, rows as int, 0, self.level.cols as int);
                assert forall|a: int, b: int| in_bounds(t0, a, b) implies #[trigger] t0[a][b] == f[a][b] by {
                    if hidden_at(t0)(a, b) {
                        assert(ph(a, b));
                    }
                }
                lemma_tables_ext(t0, f);
                lemma_count_box_pos(unexplored_at(t0), 0, rows as int, 0, self.level.cols as int);
                lemma_count_box_bounds_any(unexplored_at(t0), 0, rows as int, 0, self.level.cols as int);
                if count_all(t0, unexplored_at(t0)) > 0 {
                    let (a, b) = choose|a: int, b: int| 0 <= a < rows && 0 <= b < self.level.cols
                        && #[trigger] unexplored_at(t0)(a, b);
                    assert(ph(a, b));
                }
            }
        }
        GameResult::Success
    }

    /// Whether command `cmd` on `(x, y)` keeps the count of mines left
    /// within an `i16`, as `dig_cell` asks.
    pub fn dig_fits(&self, x: usize, y: usize, cmd: char) -> (b: bool)
        requires
            self.wf(),
        ensures
            b == (i16::MIN <= self.mines_left + dig_mines_delta(self.table(), x as int, y as int, cmd)
                <= i16::MAX),
    {
        proof {
            self.lemma_wf_table();
        }
        if x >= self.level.cols || y >= self.level.rows || cmd != 'F' {
            return true;
        }
        match self.mine_table[y][x].status {
            Status::Unexplored => self.mines_left > i16::MIN,
            Status::Flaged => self.mines_left < i16::MAX,
            _ => true,
        }
    }

    /// Whether checking the end of the game keeps the count of mines left
    /// within an `i16`: when the game is won, flagging its unexplored cells
    /// must not take the count below `i16::MIN`.
    pub fn end_fits(&self) -> (b: bool)
        requires
            self.wf(),
        ensures
            b == (check_result(self.table(), self.level.mines as int) == GameResult::Success
                ==> self.mines_left - count_all(self.table(), unexplored_at(self.table())) >= i16::MIN),
    {
        proof {
            self.lemma_wf_table();
        }
        let ghost t0 = self.table();
        let ghost po = opened_at(t0);
        let ghost pu = unexplored_at(t0);
        let ghost pb = blown_at(t0);
        let mut opened: usize = 0;
        let mut unexplored: usize = 0;
        let mut blown: usize = 0;
        let rows = self.level.rows;
        let cols = self.level.cols;
        let mut i: usize = 0;
        while i < rows
            invariant
                self.wf(),
                t0 == self.table(),
                po == opened_at(t0),
                pu == unexplored_at(t0),
                pb == blown_at(t0),
                rows == self.level.rows,
                cols == self.level.cols,
                i <= rows,
                opened == count_box(po, 0, i as int, 0, cols as int),
                unexplored == count_box(pu, 0, i as int, 0, cols as int),
                blown == count_box(pb, 0, i as int, 0, cols as int),
            decreases rows - i,
        {
            let mut j: usize = 0;
            while j < cols
                invariant
                    self.wf(),
                    t0 == self.table(),
                    po == opened_at(t0),
                    pu == unexplored_at(t0),
                    pb == blown_at(t0),
                    rows == self.level.rows,
                    cols == self.level.cols,
                    i < rows,
                    j <= cols,
                    opened == count_box(po, 0, i as int, 0, cols as int) + count_row(po, i as int, 0, j as int),
                    unexplored == count_box(pu, 0, i as int, 0, cols as int) + count_row(pu, i as int, 0, j as int),
                    blown == count_box(pb, 0, i as int, 0, cols as int) + count_row(pb, i as int, 0, j as int),
                decreases cols - j,
            {
                proof {
                    self.lemma_wf_table();
                    lemma_count_prefix_le(po, rows as int, cols as int, i as int, j as int + 1);
                    lemma_count_prefix_le(pu, rows as int, cols as int, i as int, j as int + 1);
                    lemma_count_prefix_le(pb, rows as int, cols as int, i as int, j as int + 1);
                    lemma_count_box_bounds(po, 0, rows as int, 0, cols as int);
                    lemma_count_box_bounds(pu, 0, rows as int, 0, cols as int);
                    lemma_count_box_bounds(pb, 0, rows as int, 0, cols as int);
                    lemma_count_box_bounds_any(po, 0, i as int, 0, cols as int);
                    lemma_count_box_bounds_any(pu, 0, i as int, 0, cols as int);
                    lemma_count_box_bounds_any(pb, 0, i as int, 0, cols as int);
                    lemma_count_row_bounds(po, i as int, 0, j as int);
                    lemma_count_row_bounds(pu, i as int, 0, j as int);
                    lemma_count_row_bounds(pb, i as int, 0, j as int);
                }
                let c = self.mine_table[i][j];
                if c.status == Status::Opened {
                    opened = opened + 1;
                }
                if c.status == Status::Unexplored {
                    unexplored = unexplored + 1;
                }
                if c.is_mine && c.status == Status::Opened {
                    blown = blown + 1;
                }
                j = j + 1;
            }
            proof {
                assert(count_box(po, 0, i as int + 1, 0, cols as int) == count_box(po, 0, i as int, 0, cols as int) + count_row(po, i as int, 0, cols as int));
            }
            i = i + 1;
        }
        proof {
            self.lemma_wf_table();
            lemma_count_box_bounds(po, 0, rows as int, 0, cols as int);
            lemma_count_box_bounds(pu, 0, rows as int, 0, cols as int);
            lemma_count_box_bounds_any(pb, 0, rows as int, 0, cols as int);
        }
        let won = blown == 0 && self.level.mines as usize + opened == rows * cols;
        // mines_left - unexplored >= i16::MIN, that is unexplored <= mines_left + 32768
        let room: usize = (self.mines_left as i32 + 32768) as usize;
        !won || unexplored <= room
    }
}

} // verus!
