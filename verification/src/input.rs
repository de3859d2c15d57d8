use vstd::prelude::*;
use vstd::utf8::encode_utf8;
use crate::cell::Status;
use crate::game::{dig_mines_delta, dig_table, Game, GameResult, GameStatus};
use crate::game::model::{check_result, count_all, flag_rest, unexplored_at};
use crate::game::position::{col_at, index_of_letter, menu_cmd, menu_y, panel_x, row_at, row_col_of};

verus! {

broadcast use {vstd::string::axiom_spec_iter, vstd::string::next_postcondition};

// ---------------------------------------------------------------------------
// Text helpers
// ---------------------------------------------------------------------------

/// Length in bytes, in UTF-8, of a text.
pub open spec fn byte_len(s: Seq<char>) -> int {
    encode_utf8(s).len() as int
}

/// An upper-case ASCII letter.
pub open spec fn is_upper(c: char) -> bool {
    'A' <= c <= 'Z'
}

/// `c` in upper case when it is an ASCII letter, else `c`.
pub open spec fn to_upper(c: char) -> char {
    if 'a' <= c <= 'z' {
        (c as u32 - 32) as char
    } else {
        c
    }
}

/// A text takes at least one byte per character, and exactly one for an
/// ASCII character.
pub proof fn lemma_byte_len(s: Seq<char>)
    ensures
        byte_len(s) >= s.len(),
        s.len() > 0 && (s[0] as u32) <= 0x7F ==> byte_len(s) == 1 + byte_len(s.drop_first()),
    decreases s.len(),
{
    if s.len() > 0 {
        lemma_byte_len(s.drop_first());
    }
}

/// `String::push`: the standard library documents that it appends the
/// character to the end of the string.
#[verifier::external_body]
fn push_char(s: &mut String, c: char)
    ensures
        final(s)@ == old(s)@.push(c),
{
    s.push(c);
}

/// `String::len`: the standard library documents it as the length of the
/// string in bytes, which is the length of its UTF-8 encoding.
#[verifier::external_body]
fn byte_length(s: &String) -> (n: usize)
    ensures
        n == byte_len(s@),
{
    s.len()
}

/// `String::pop`: the standard library documents that it removes the last
/// character, and leaves an empty string as it is.
#[verifier::external_body]
fn pop_char(s: &mut String)
    ensures
        final(s)@ == if old(s)@.len() > 0 {
            old(s)@.drop_last()
        } else {
            old(s)@
        },
{
    s.pop();
}

/// `String::clear`: the standard library documents that it removes all of
/// the contents.
#[verifier::external_body]
fn clear_string(s: &mut String)
    ensures
        final(s)@ == Seq::<char>::empty(),
{
    s.clear();
}

/// The character at position `n` of `s`, if any.
pub open spec fn char_at(s: Seq<char>, n: int) -> Option<char> {
    if 0 <= n < s.len() {
        Some(s[n])
    } else {
        None
    }
}

/// The first three characters of a text, where it has them.
fn first_chars(s: &String) -> (r: (Option<char>, Option<char>, Option<char>))
    ensures
        r.0 == char_at(s@, 0),
        r.1 == char_at(s@, 1),
        r.2 == char_at(s@, 2),
{
    let mut it = s.as_str().chars();
    let a = it.next();
    let b = it.next();
    let c = it.next();
    proof {
        if s@.len() >= 1 {
            assert(s@.drop_first() =~= s@.subrange(1, s@.len() as int));
        }
        if s@.len() >= 2 {
            assert(s@.drop_first().drop_first() =~= s@.subrange(2, s@.len() as int));
        }
    }
    (a, b, c)
}

/// `c` in upper case when it is an ASCII letter.
fn ascii_upper(c: char) -> (r: char)
    ensures
        r == to_upper(c),
{
    if 'a' <= c && c <= 'z' {
        let u: u32 = (c as u32) - 32;
        let b: u8 = u as u8;
        proof {
            assert(b as u32 == u);
        }
        b as char
    } else {
        c
    }
}

// ---------------------------------------------------------------------------
// What the screen must show after a key
// ---------------------------------------------------------------------------

/// A row or a column of the board to show highlighted.
#[derive(Clone, Copy, Debug, PartialEq, Eq, Structural)]
pub enum Highlight {
    Nothing,
    Row(u16),
    Col(u16),
}

/// Highlights to take back and put up, in this order: the highlight of row
/// `cancel_row` is removed, then that of column `cancel_col`, then row
/// `show_row` is highlighted; -1 stands for none.
#[derive(Clone, Copy, Debug, PartialEq, Eq, Structural)]
pub struct Redraw {
    pub cancel_row: i16,
    pub cancel_col: i16,
    pub show_row: i16,
}

/// What a command asks of the program beyond the board.
#[derive(Clone, Copy, Debug, PartialEq, Eq, Structural)]
pub enum Action {
    /// Nothing.
    Nothing,
    /// A cell command was carried out; the game, and its clock, started
    /// with it when `started`.
    Dug { started: bool },
    /// Quit the program.
    Quit,
    /// The game was paused: hide the board and stop the clock.
    Pause,
    /// The game was taken up again: show the board and run the clock.
    Resume,
    /// A new game of the same difficulty: show it and set the clock back.
    NewGame,
    /// Show the wrongly flagged cells.
    CheckErrors,
    /// Set the clock back and let the player choose another difficulty.
    ChangeDifficulty,
}

/// What the screen must do after Enter.
#[derive(Clone, Copy, Debug, PartialEq, Eq, Structural)]
pub struct EnterOutcome {
    /// What the command asks.
    pub action: Action,
    /// Highlights to take back.
    pub redraw: Redraw,
    /// The command line was cleared on a command too short to read, and
    /// must be shown empty.
    pub echo: bool,
}

/// No highlight to take back or put up.
pub open spec fn no_redraw() -> Redraw {
    Redraw { cancel_row: -1i16, cancel_col: -1i16, show_row: -1i16 }
}

/// A paused or finished game takes no cell commands and shows no highlight.
pub open spec fn is_idle(s: GameStatus) -> bool {
    s == GameStatus::Paused || s == GameStatus::Finished
}

/// A typed command is taken no longer once it holds three bytes, or two
/// when it is a program command (starting with `!`).
pub open spec fn key_accepted(cmd: Seq<char>) -> bool {
    cmd.len() == 0 || !((cmd[0] == '!' && byte_len(cmd) >= 2) || byte_len(cmd) >= 3)
}

/// What to highlight once `c` is typed and the command reads `cmd`: the
/// row that a first letter names, then the column that a second names.
pub open spec fn key_highlight(status: GameStatus, rows: int, cols: int, cmd: Seq<char>, c: char) -> Highlight {
    if is_idle(status) {
        Highlight::Nothing
    } else if byte_len(cmd) == 1 {
        if is_upper(cmd[0]) && index_of_letter(c, rows) != -1 {
            Highlight::Row(index_of_letter(c, rows) as u16)
        } else {
            Highlight::Nothing
        }
    } else if byte_len(cmd) == 2 {
        if is_upper(cmd[0]) && index_of_letter(c, cols) != -1 && cmd[0] as int - 65 < rows {
            Highlight::Col(index_of_letter(c, cols) as u16)
        } else {
            Highlight::Nothing
        }
    } else {
        Highlight::Nothing
    }
}

/// A character typed on the command line: appended in upper case unless the
/// command is full (then `None`: nothing is shown); otherwise the command
/// line is shown, and the highlight to put up is returned.
pub fn process_key_char(game: &Game, cmd: &mut String, c: &char) -> (h: Option<Highlight>)
    ensures
        key_accepted(old(cmd)@) ==> final(cmd)@ == old(cmd)@.push(to_upper(*c)) && h == Some(
            key_highlight(
                game.status,
                game.level.rows as int,
                game.level.cols as int,
                old(cmd)@.push(to_upper(*c)),
                *c,
            ),
        ),
        !key_accepted(old(cmd)@) ==> final(cmd)@ == old(cmd)@ && h == None::<Highlight>,
{
    let (first, _, _) = first_chars(cmd);
    if !cmd.as_str().is_empty() {
        let fc = first.unwrap();
        if fc == '!' && byte_length(cmd) >= 2 {
            return None;
        }
        if byte_length(cmd) >= 3 {
            return None;
        }
    }
    push_char(cmd, ascii_upper(*c));
    let (first, _, _) = first_chars(cmd);
    let c1 = first.unwrap();
    let game_is_pause_or_finished = game.status == GameStatus::Paused || game.status == GameStatus::Finished;
    if !game_is_pause_or_finished {
        let n = byte_length(cmd);
        if n == 1 {
            // a first letter names a row
            if 'A' <= c1 && c1 <= 'Z' {
                let row = game.get_row_from_char(c);
                if row != -1 {
                    return Some(Highlight::Row(row as u16));
                }
            }
        } else if n == 2 {
            // a second letter names a column
            if !('A' <= c1 && c1 <= 'Z') {
                return Some(Highlight::Nothing);
            }
            let col = game.get_col_from_char(c);
            let row = (c1 as u32 - 65) as usize;
            if col != -1 && row < game.level.rows {
                return Some(Highlight::Col(col as u16));
            }
        }
    }
    Some(Highlight::Nothing)
}


/// What to take back and put up when Backspace removes the last character
/// of `cmd`: with one letter typed, the highlight of its row goes; with two,
/// that of the column goes and the row is highlighted again.
pub open spec fn backspace_redraw(status: GameStatus, rows: int, cols: int, cmd: Seq<char>) -> Redraw {
    if cmd.len() == 0 || is_idle(status) || !is_upper(cmd[0]) {
        no_redraw()
    } else if byte_len(cmd) == 1 {
        Redraw { cancel_row: index_of_letter(cmd[0], rows) as i16, cancel_col: -1i16, show_row: -1i16 }
    } else if byte_len(cmd) == 2 && index_of_letter(cmd[1], cols) != -1 {
        Redraw {
            cancel_row: -1i16,
            cancel_col: index_of_letter(cmd[1], cols) as i16,
            show_row: index_of_letter(cmd[0], rows) as i16,
        }
    } else {
        no_redraw()
    }
}

/// Backspace: removes the last character of the command line, which is then
/// shown, and returns the highlights to take back and put up.
pub fn process_key_backspace(game: &Game, cmd: &mut String) -> (r: Redraw)
    ensures
        final(cmd)@ == if old(cmd)@.len() > 0 {
            old(cmd)@.drop_last()
        } else {
            old(cmd)@
        },
        r == backspace_redraw(game.status, game.level.rows as int, game.level.cols as int, old(cmd)@),
{
    let game_is_pause_or_finished = game.status == GameStatus::Paused || game.status == GameStatus::Finished;
    let mut r = Redraw { cancel_row: -1, cancel_col: -1, show_row: -1 };
    if !cmd.as_str().is_empty() && !game_is_pause_or_finished {
        let (first, second, _) = first_chars(cmd);
        let c1 = first.unwrap();
        // only a command that starts with a row letter highlights anything
        if 'A' <= c1 && c1 <= 'Z' {
            let n = byte_length(cmd);
            if n == 1 {
                // one letter: take back the highlight of its row
                let row = game.get_row_from_char(&c1);
                r = Redraw { cancel_row: row, cancel_col: -1, show_row: -1 };
            } else if n == 2 {
                proof {
                    lemma_byte_len(cmd@);
                    lemma_byte_len(cmd@.drop_first());
                }
                // two letters: take back the column, show the row again
                let c2 = second.unwrap();
                let col = game.get_col_from_char(&c2);
                let row = game.get_row_from_char(&c1);
                if col != -1 {
                    r = Redraw { cancel_row: -1, cancel_col: col, show_row: row };
                }
            }
        }
    }
    pop_char(cmd);
    r
}

/// Escape: takes back the highlights of what was typed and clears the
/// command line.
pub fn process_key_esc(game: &Game, cmd: &mut String) -> (r: Redraw)
    ensures
        final(cmd)@ == Seq::<char>::empty(),
        r == if is_idle(game.status) {
            no_redraw()
        } else {
            Redraw {
                cancel_row: row_col_of(old(cmd)@, game.level.rows as int, game.level.cols as int).0 as i16,
                cancel_col: row_col_of(old(cmd)@, game.level.rows as int, game.level.cols as int).1 as i16,
                show_row: -1i16,
            }
        },
{
    let game_is_pause_or_finished = game.status == GameStatus::Paused || game.status == GameStatus::Finished;
    let mut r = Redraw { cancel_row: -1, cancel_col: -1, show_row: -1 };
    if !game_is_pause_or_finished {
        let (row, col) = game.get_row_col_from_str(cmd);
        r = Redraw { cancel_row: row, cancel_col: col, show_row: -1 };
    }
    clear_string(cmd);
    r
}

/// The cell command in a typed command: its third character, or a dig
/// (space) when there is none.
pub open spec fn enter_cell_cmd(s: Seq<char>) -> char {
    if byte_len(s) >= 3 {
        s[2]
    } else {
        ' '
    }
}

/// The cell, as (column, row), that a typed command of two upper-case
/// letters names, if it lies on the board.
pub open spec fn enter_cell(s: Seq<char>, rows: int, cols: int) -> Option<(int, int)> {
    if byte_len(s) >= 2 && s.len() >= 2 && is_upper(s[0]) && is_upper(s[1]) && s[1] as int - 65
        < cols && s[0] as int - 65 < rows {
        Some((s[1] as int - 65, s[0] as int - 65))
    } else {
        None
    }
}

/// The letter of a program command (`!` and a letter).
pub open spec fn enter_bang(s: Seq<char>) -> Option<char> {
    if byte_len(s) >= 2 && s.len() >= 2 && s[0] == '!' {
        Some(s[1])
    } else {
        None
    }
}

/// `g1` is `g0` after command `c` on cell `(x, y)` and the status `status`.
pub open spec fn dug(g0: Game, g1: Game, x: int, y: int, c: char, status: GameStatus) -> bool {
    &&& g1.wf()
    &&& g1.level == g0.level
    &&& g1.table() == dig_table(g0.table(), x, y, c)
    &&& g1.mines_left == g0.mines_left + dig_mines_delta(g0.table(), x, y, c)
    &&& g1.status == status
}

/// A cell command starts the game when the game has not started and the
/// command digs.
pub open spec fn starts(status: GameStatus, c: char) -> bool {
    status == GameStatus::NotStart && (c == 'D' || c == ' ')
}

/// What a program command does to the game and asks of the program, over
/// the game before (`g0`) and after (`g1`): quit, pause a running game,
/// take up a paused one, deal a new game of the same difficulty, check the
/// flags, change the difficulty.
pub open spec fn program_cmd(g0: Game, g1: Game, c: char, a: Action) -> bool {
    if c == 'Q' {
        a == Action::Quit && g1 == g0
    } else if c == 'P' {
        if g0.status == GameStatus::Started {
            a == Action::Pause && g1 == (Game { status: GameStatus::Paused, ..g0 })
        } else {
            a == Action::Nothing && g1 == g0
        }
    } else if c == 'R' {
        if g0.status == GameStatus::Paused {
            a == Action::Resume && g1 == (Game { status: GameStatus::Started, ..g0 })
        } else {
            a == Action::Nothing && g1 == g0
        }
    } else if c == 'N' {
        a == Action::NewGame && if g0.level.level != 0 {
            g1.is_fresh_game(g0.level.level)
        } else {
            g1 == g0
        }
    } else if c == 'C' {
        a == Action::CheckErrors && g1 == g0
    } else if c == 'D' {
        a == Action::ChangeDifficulty && g1 == g0
    } else {
        a == Action::Nothing && g1 == g0
    }
}

/// What Enter asks of the game before it may run: a typed command of two
/// characters is not read as three bytes, and a cell command keeps the count
/// of mines left within an `i16`.
pub open spec fn enter_ok(g: Game, s: Seq<char>) -> bool {
    &&& !(s.len() == 2 && byte_len(s) >= 3)
    &&& enter_cell(s, g.level.rows as int, g.level.cols as int) matches Some(p) ==> (!is_idle(g.status)
        ==> i16::MIN <= g.mines_left + dig_mines_delta(g.table(), p.0, p.1, enter_cell_cmd(s)) <= i16::MAX)
}

/// Whether Enter may run on the typed command `cmd` (see `enter_ok`).
pub fn enter_fits(game: &Game, cmd: &String) -> (b: bool)
    requires
        game.wf(),
    ensures
        b == enter_ok(*game, cmd@),
{
    let n = byte_length(cmd);
    let (a, b, c) = first_chars(cmd);
    if b.is_some() && c.is_none() && n >= 3 {
        return false;
    }
    let game_is_pause_or_finished = game.status == GameStatus::Paused || game.status == GameStatus::Finished;
    if n >= 2 && a.is_some() && b.is_some() && !game_is_pause_or_finished {
        let c_y = a.unwrap();
        let c_x = b.unwrap();
        if 'A' <= c_y && c_y <= 'Z' && 'A' <= c_x && c_x <= 'Z' {
            let col = (c_x as u32 - 65) as usize;
            let row = (c_y as u32 - 65) as usize;
            if col < game.level.cols && row < game.level.rows {
                let c_cmd = if n >= 3 { c.unwrap() } else { ' ' };
                return game.dig_fits(col, row, c_cmd);
            }
        }
    }
    true
}

/// Enter: carries out the typed command and clears the command line.
///
/// Two upper-case letters name a row and a column; on a cell of the board,
/// unless the game is paused or finished, the third character (a dig when
/// there is none) is carried out on it, and a dig starts a game not started
/// yet. `!` and a letter is a program command (see `program_cmd`). Then,
/// unless the game was paused or finished, the highlights of what was
/// typed are taken back. A command too short to read is only cleared.
pub fn process_key_enter(game: &mut Game, cmd: &mut String) -> (out: EnterOutcome)
    requires
        old(game).wf(),
        enter_ok(*old(game), old(cmd)@),
    ensures
        final(game).wf(),
        final(cmd)@ == Seq::<char>::empty(),
        out.echo == (byte_len(old(cmd)@) >= 2 && old(cmd)@.len() < 2),
        out.echo ==> *final(game) == *old(game) && out.action == Action::Nothing && out.redraw
            == no_redraw(),
        !out.echo ==> ({
            let s = old(cmd)@;
            let g0 = *old(game);
            let g1 = *final(game);
            &&& enter_cell(s, g0.level.rows as int, g0.level.cols as int) matches Some(p) ==> !is_idle(
                g0.status,
            ) ==> {
                let c = enter_cell_cmd(s);
                &&& dug(g0, g1, p.0, p.1, c, if starts(g0.status, c) {
                    GameStatus::Started
                } else {
                    g0.status
                })
                &&& out.action == (Action::Dug { started: starts(g0.status, c) })
            }
            &&& enter_bang(s) matches Some(c) ==> program_cmd(g0, g1, c, out.action)
            &&& !(enter_cell(s, g0.level.rows as int, g0.level.cols as int) is Some && !is_idle(
                g0.status,
            )) && enter_bang(s) is None ==> g1 == g0 && out.action == Action::Nothing
            &&& out.redraw == if is_idle(g0.status) {
                no_redraw()
            } else if out.action == Action::NewGame || out.action == Action::ChangeDifficulty {
                Redraw { cancel_row: -1i16, cancel_col: -1i16, show_row: -1i16 }
            } else {
                Redraw {
                    cancel_row: row_col_of(s, g0.level.rows as int, g0.level.cols as int).0 as i16,
                    cancel_col: row_col_of(s, g0.level.rows as int, g0.level.cols as int).1 as i16,
                    show_row: -1i16,
                }
            }
        }),
{
    let ghost s = cmd@;
    let game_is_pause_or_finished = game.status == GameStatus::Paused || game.status == GameStatus::Finished;
    let n = byte_length(cmd);
    let mut action = Action::Nothing;
    if n >= 2 {
        let (a, b, c3) = first_chars(cmd);
        if a.is_none() || b.is_none() {
            // a command too short to read, such as one wide character
            clear_string(cmd);
            return EnterOutcome {
                action: Action::Nothing,
                redraw: Redraw { cancel_row: -1, cancel_col: -1, show_row: -1 },
                echo: true,
            };
        }
        let c_y = a.unwrap();  // the row letter
        let c_x = b.unwrap();  // the column letter
        let mut c_cmd = ' ';  // the cell command: D, F, P or T
        if n >= 3 {
            c_cmd = c3.unwrap();
        }
        if 'A' <= c_y && c_y <= 'Z' && 'A' <= c_x && c_x <= 'Z' {
            let col = (c_x as u32 - 65) as usize;
            let row = (c_y as u32 - 65) as usize;
            if col < game.level.cols && row < game.level.rows && !game_is_pause_or_finished {
                let started = game.status == GameStatus::NotStart && (c_cmd == 'D' || c_cmd == ' ');
                game.dig_cell(&col, &row, &c_cmd);
                if started {
                    game.status = GameStatus::Started;
                }
                action = Action::Dug { started };
            }
        }
        if c_y == '!' {
            action = program_command(game, cmd, c_x);
        }
    }
    let mut redraw = Redraw { cancel_row: -1, cancel_col: -1, show_row: -1 };
    if !game_is_pause_or_finished {
        let (row, col) = game.get_row_col_from_str(cmd);
        redraw = Redraw { cancel_row: row, cancel_col: col, show_row: -1 };
    }
    clear_string(cmd);
    EnterOutcome { action, redraw, echo: false }
}

/// Carries out program command `c` (see `program_cmd`), clearing the
/// command line for a new game or a change of difficulty.
fn program_command(game: &mut Game, cmd: &mut String, c: char) -> (a: Action)
    requires
        old(game).wf(),
    ensures
        final(game).wf(),
        program_cmd(*old(game), *final(game), c, a),
        (a == Action::NewGame || a == Action::ChangeDifficulty) ==> final(cmd)@ == Seq::<char>::empty(),
        !(a == Action::NewGame || a == Action::ChangeDifficulty) ==> final(cmd)@ == old(cmd)@,
        a == Action::NewGame <==> c == 'N',
        a == Action::ChangeDifficulty <==> c == 'D',
{
    match c {
        // quit the program
        'Q' => Action::Quit,
        // pause
        'P' => {
            if game.status == GameStatus::Started {
                game.pause();
                Action::Pause
            } else {
                Action::Nothing
            }
        },
        // take the game up again
        'R' => {
            if game.status == GameStatus::Paused {
                game.resume();
                Action::Resume
            } else {
                Action::Nothing
            }
        },
        // a new game of the same difficulty
        'N' => {
            let lv = game.level.level;
            if lv != 0 {
                *game = Game::new_game(lv);
            }
            clear_string(cmd);
            Action::NewGame
        },
        // show the wrong flags
        'C' => Action::CheckErrors,
        // change the difficulty
        'D' => {
            clear_string(cmd);
            Action::ChangeDifficulty
        },
        _ => Action::Nothing,
    }
}

/// The cell, as (column, row), under a click at screen column `col`, row
/// `row`, if the click falls on one.
pub open spec fn clicked_cell(g: Game, col: u16, row: u16) -> Option<(int, int)> {
    if row_at(row, g.level.rows) >= 0 && col_at(col, g.level.cols) >= 0 {
        Some((col_at(col, g.level.cols), row_at(row, g.level.rows)))
    } else {
        None
    }
}

/// What a left click asks of the game before it may run: a screen position
/// from (1, 1); and, off the board or in a paused or finished game, a side
/// panel within the screen and, in the column of the menu, a row not above
/// it.
pub open spec fn mouse_left_ok(g: Game, col: u16, row: u16) -> bool {
    &&& row >= 1
    &&& col >= 1
    &&& (clicked_cell(g, col, row) is None || is_idle(g.status)) ==> {
        &&& panel_x(g.level.cols as int) + 18 <= u16::MAX
        &&& 4 * g.level.cols + 6 <= usize::MAX
        &&& panel_x(g.level.cols as int) <= col <= panel_x(g.level.cols as int) + 18 ==> row >= menu_y(
            g.level.level,
        )
    }
}

/// Whether a left click at (`col`, `row`) may run (see `mouse_left_ok`).
pub fn mouse_left_fits(game: &Game, col: u16, row: u16) -> (b: bool)
    ensures
        b == mouse_left_ok(*game, col, row),
{
    if row < 1 || col < 1 {
        return false;
    }
    let mut g = Game { level: game.level, mine_table: Vec::new(), mines_left: game.mines_left, status: game.status };
    let (y, x) = g.pos_to_index(row, col);
    let game_is_pause_or_finished = game.status == GameStatus::Paused || game.status == GameStatus::Finished;
    if y >= 0 && x >= 0 && !game_is_pause_or_finished {
        return true;
    }
    if game.level.cols > (usize::MAX - 6) / 4 {
        return false;
    }
    let x_left = (4 * game.level.cols + 6) as u16;
    if x_left > u16::MAX - 18 {
        return false;
    }
    let y_quit: u16 = match game.level.level {
        1 => 12,
        2 => 14,
        _ => 16,
    };
    !(col >= x_left && col <= x_left + 18) || row >= y_quit
}

/// A left click at screen column `column`, row `row`: on a cell of the
/// board, unless the game is paused or finished, digs or tests it (as the
/// space command) and starts a game not started yet; elsewhere, carries out
/// the menu command under it (see `which_cmd_clicked` and `program_cmd`).
pub fn process_mouse_left(game: &mut Game, cmd: &mut String, column: &u16, row: &u16) -> (a: Action)
    requires
        old(game).wf(),
        mouse_left_ok(*old(game), *column, *row),
    ensures
        final(game).wf(),
        ({
            let g0 = *old(game);
            let g1 = *final(game);
            if clicked_cell(g0, *column, *row) is Some && !is_idle(g0.status) {
                let p = clicked_cell(g0, *column, *row)->0;
                &&& dug(g0, g1, p.0, p.1, ' ', if g0.status == GameStatus::NotStart {
                    GameStatus::Started
                } else {
                    g0.status
                })
                &&& a == (Action::Dug { started: g0.status == GameStatus::NotStart })
                &&& final(cmd)@ == old(cmd)@
            } else {
                let c = if panel_x(g0.level.cols as int) <= *column <= panel_x(g0.level.cols as int) + 18 {
                    menu_cmd(*row - menu_y(g0.level.level))
                } else {
                    'X'
                };
                &&& program_cmd(g0, g1, c, a)
                &&& (a == Action::NewGame || a == Action::ChangeDifficulty) ==> final(cmd)@
                    == Seq::<char>::empty()
                &&& !(a == Action::NewGame || a == Action::ChangeDifficulty) ==> final(cmd)@
                    == old(cmd)@
            }
        }),
{
    let game_is_pause_or_finished = game.status == GameStatus::Paused || game.status == GameStatus::Finished;
    let (y, x) = game.pos_to_index(*row, *column);
    if y >= 0 && x >= 0 && !game_is_pause_or_finished {
        // the first command starts the game
        let started = game.status == GameStatus::NotStart;
        if started {
            game.status = GameStatus::Started;
        }
        // a left click digs or tests, as space does
        game.dig_cell(&(x as usize), &(y as usize), &' ');
        return Action::Dug { started };
    }
    // a click on the menu
    let c = game.which_cmd_clicked(*column, *row);
    program_command(game, cmd, c)
}

/// What a right click asks of the game before it may run: a screen
/// position from (1, 1), and a flag that keeps the count of mines left
/// within an `i16`.
pub open spec fn mouse_right_ok(g: Game, col: u16, row: u16) -> bool {
    &&& row >= 1
    &&& col >= 1
    &&& clicked_cell(g, col, row) matches Some(p) ==> (!is_idle(g.status) ==> i16::MIN <= g.mines_left
        + dig_mines_delta(g.table(), p.0, p.1, 'F') <= i16::MAX)
}

/// Whether a right click at (`col`, `row`) may run (see `mouse_right_ok`).
pub fn mouse_right_fits(game: &Game, col: u16, row: u16) -> (b: bool)
    requires
        game.wf(),
    ensures
        b == mouse_right_ok(*game, col, row),
{
    if row < 1 || col < 1 {
        return false;
    }
    let y = if (row - 1) / 2 > game.level.rows as u16 || (row - 1) % 2 == 0 { -1i32 } else { ((row - 1) / 2) as i32 };
    let x = if (col - 1) / 4 > game.level.cols as u16 || (col - 1) % 4 == 0 { -1i32 } else { ((col - 1) / 4) as i32 };
    let game_is_pause_or_finished = game.status == GameStatus::Paused || game.status == GameStatus::Finished;
    if y >= 0 && x >= 0 && !game_is_pause_or_finished {
        return game.dig_fits(x as usize, y as usize, 'F');
    }
    true
}

/// A right click at screen column `column`, row `row`: on a cell of the
/// board, unless the game is paused or finished, flags or unflags it (as
/// the `F` command); returns whether it did.
pub fn process_mouse_right(game: &mut Game, column: &u16, row: &u16) -> (b: bool)
    requires
        old(game).wf(),
        mouse_right_ok(*old(game), *column, *row),
    ensures
        b == (clicked_cell(*old(game), *column, *row) is Some && !is_idle(old(game).status)),
        b ==> ({
            let p = clicked_cell(*old(game), *column, *row)->0;
            dug(*old(game), *final(game), p.0, p.1, 'F', old(game).status)
        }),
        !b ==> *final(game) == *old(game),
{
    let game_is_pause_or_finished = game.status == GameStatus::Paused || game.status == GameStatus::Finished;
    let (y, x) = game.pos_to_index(*row, *column);
    if y >= 0 && x >= 0 && !game_is_pause_or_finished {
        // a right click flags
        game.dig_cell(&(x as usize), &(y as usize), &'F');
        return true;
    }
    false
}

/// What the end check asks of the game before it may run: when the game is
/// won, flagging the unexplored cells keeps the count of mines left within
/// an `i16`.
pub open spec fn check_end_ok(g: Game) -> bool {
    check_result(g.table(), g.level.mines as int) == GameResult::Success ==> g.mines_left
        - count_all(g.table(), unexplored_at(g.table())) >= i16::MIN
}

/// Checks, after every event, whether the game is over (see
/// `Game::success_check`); a game won or lost is finished.
pub fn check_end(game: &mut Game) -> (r: GameResult)
    requires
        old(game).wf(),
        check_end_ok(*old(game)),
    ensures
        final(game).wf(),
        final(game).level == old(game).level,
        r == check_result(old(game).table(), old(game).level.mines as int),
        final(game).table() == if r == GameResult::Success {
            flag_rest(old(game).table())
        } else {
            old(game).table()
        },
        final(game).mines_left == old(game).mines_left - if r == GameResult::Success {
            count_all(old(game).table(), unexplored_at(old(game).table()))
        } else {
            0
        },
        final(game).status == if r == GameResult::NotOver {
            old(game).status
        } else {
            GameStatus::Finished
        },
{
    let r = game.success_check();
    if r != GameResult::NotOver {
        game.status = GameStatus::Finished;
    }
    r
}

} // verus!
