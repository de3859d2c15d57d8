//! Properties of the game that hold across commands and calls.

use vstd::prelude::*;
use crate::cell::{Cell, Status};
use crate::game::{dig_mines_delta, dig_table, is_dig_cmd, is_test_cmd, GameResult};
use crate::game::model::{
    adjacent, blown_at, check_result, chord_seeds, cols_of, count_all, flag_rest, flagged_at,
    flags_around, in_bounds, in_region, is_rect, lemma_count_box_change, lemma_count_box_pos,
    lemma_count_box_same, lemma_region_closed, lemma_region_seed, lemma_region_single,
    lemma_region_within, lemma_tables_ext, open_region, opened, same_field, spreads, mine_at, free_at, opened_at, unexplored_at, hidden_at, lemma_count_box_disjoint, lemma_count_box_mono, lemma_count_box_const,
    lemma_count_box_bounds_any, box_lo, box_hi, count_box, count_row, lemma_count_box_split,
    lemma_count_row_split, lemma_count_row_bounds, with_status,
};
use crate::game::position::{col_at, help_rows_of, index_of_letter, menu_y, row_at};
use crate::input::{
    program_cmd, Action,
    backspace_redraw, is_idle, is_upper, key_highlight, lemma_byte_len, to_upper,
    Highlight,
};
use crate::game::{Game, GameStatus};
use crate::timer::{net_secs, secs_between, Timer, TimerStatus, NANOS_PER_SEC};

verus! {

/// Opening a region keeps the shape of the table, its mines and its counts,
/// keeps every opened cell opened, and touches only the region.
proof fn lemma_open_region_frame(t: Seq<Seq<Cell>>, seeds: Set<(int, int)>)
    ensures
        same_field(t, open_region(t, seeds)),
        forall|i: int, j: int|
            in_bounds(t, i, j) ==> (#[trigger] open_region(t, seeds)[i][j] == t[i][j] || (
            open_region(t, seeds)[i][j] == opened(t[i][j]) && in_region(t, seeds, (i, j)))),
{
}

/// No command moves a mine or changes a count of mines around, and no
/// command closes an opened cell.
pub proof fn law_dig_keeps_field_and_opened(t: Seq<Seq<Cell>>, x: int, y: int, cmd: char)
    ensures
        same_field(t, dig_table(t, x, y, cmd)),
        forall|i: int, j: int|
            in_bounds(t, i, j) && t[i][j].status == Status::Opened ==> #[trigger] dig_table(
                t,
                x,
                y,
                cmd,
            )[i][j].status == Status::Opened,
{
    lemma_open_region_frame(t, set![(y, x)]);
    if in_bounds(t, y, x) {
        lemma_open_region_frame(t, chord_seeds(t, y, x));
    }
}

/// No command takes the flag of a cell other than the one it names:
/// digging and testing go around flags.
pub proof fn law_dig_keeps_other_flags(
    t: Seq<Seq<Cell>>,
    x: int,
    y: int,
    cmd: char,
    i: int,
    j: int,
)
    requires
        in_bounds(t, i, j),
        t[i][j].status == Status::Flaged,
        !(i == y && j == x),
    ensures
        dig_table(t, x, y, cmd)[i][j] == t[i][j],
{
    if in_region(t, set![(y, x)], (i, j)) {
        lemma_region_within(t, set![(y, x)], (i, j));
    }
    if in_bounds(t, y, x) && in_region(t, chord_seeds(t, y, x), (i, j)) {
        lemma_region_within(t, chord_seeds(t, y, x), (i, j));
    }
}

/// Flagging an unexplored cell twice, or marking it pending twice, leaves
/// the board and the count of mines left as they were.
pub proof fn law_mark_twice_restores(t: Seq<Seq<Cell>>, x: int, y: int, cmd: char)
    requires
        in_bounds(t, y, x),
        t[y][x].status == Status::Unexplored,
        cmd == 'F' || cmd == 'P',
    ensures
        dig_table(dig_table(t, x, y, cmd), x, y, cmd) == t,
        dig_mines_delta(t, x, y, cmd) + dig_mines_delta(dig_table(t, x, y, cmd), x, y, cmd) == 0,
{
    let t1 = dig_table(t, x, y, cmd);
    let t2 = dig_table(t1, x, y, cmd);
    assert(t1[y][x].status != Status::Unexplored);
    assert forall|i: int, j: int| in_bounds(t2, i, j) implies #[trigger] t2[i][j] == t[i][j] by {}
    lemma_tables_ext(t2, t);
}

/// Digging an unexplored cell that holds a mine loses the game.
pub proof fn law_digging_a_mine_loses(t: Seq<Seq<Cell>>, mines: int, x: int, y: int, cmd: char)
    requires
        is_rect(t, t.len() as int, cols_of(t)),
        in_bounds(t, y, x),
        t[y][x].status == Status::Unexplored,
        t[y][x].is_mine,
        is_dig_cmd(cmd),
    ensures
        check_result(dig_table(t, x, y, cmd), mines) == GameResult::Failed,
{
    lemma_region_single(t, y, x);
    let t2 = dig_table(t, x, y, cmd);
    assert(blown_at(t2)(y, x));
    lemma_count_box_pos(blown_at(t2), 0, t2.len() as int, 0, cols_of(t2));
}

/// Digging an unexplored cell without a mine and without mines around opens
/// every unexplored cell around it, and so on from each of them.
pub proof fn law_dig_spreads(t: Seq<Seq<Cell>>, x: int, y: int, cmd: char, i: int, j: int)
    requires
        in_bounds(t, y, x),
        t[y][x].status == Status::Unexplored,
        !t[y][x].is_mine,
        t[y][x].surrnd_mines == 0,
        is_dig_cmd(cmd),
        in_bounds(t, i, j),
        adjacent(i, j, y, x),
        t[i][j].status == Status::Unexplored,
    ensures
        dig_table(t, x, y, cmd)[i][j].status == Status::Opened,
{
    lemma_region_seed(t, set![(y, x)], (y, x));
    assert(spreads(t, (y, x), (i, j)));
    lemma_region_closed(t, set![(y, x)], (y, x), (i, j));
}

/// Testing an opened cell around which as many cells are flagged as it has
/// mines around opens every cell around it that is not flagged.
pub proof fn law_test_opens_around(t: Seq<Seq<Cell>>, x: int, y: int, cmd: char, i: int, j: int)
    requires
        in_bounds(t, y, x),
        t[y][x].status == Status::Opened,
        t[y][x].surrnd_mines == flags_around(t, y, x),
        is_test_cmd(cmd),
        in_bounds(t, i, j),
        adjacent(i, j, y, x),
        t[i][j].status != Status::Flaged,
    ensures
        dig_table(t, x, y, cmd)[i][j].status == Status::Opened,
{
    if t[i][j].status != Status::Opened {
        lemma_region_seed(t, chord_seeds(t, y, x), (i, j));
    }
}

/// Testing is for opened cells only: on any other cell it does nothing.
pub proof fn law_test_only_opened(t: Seq<Seq<Cell>>, x: int, y: int)
    requires
        in_bounds(t, y, x) ==> t[y][x].status != Status::Opened,
    ensures
        dig_table(t, x, y, 'T') == t,
        dig_mines_delta(t, x, y, 'T') == 0,
{
}

/// Flagging or unflagging a cell moves the count of mines left by one
/// against the number of flags, and every other command keeps both, except
/// three: marking a flagged cell pending, digging a flagged cell, and
/// flagging a pending cell change the flags but not the count.
pub proof fn law_flags_and_mines_left(t: Seq<Seq<Cell>>, x: int, y: int, cmd: char)
    requires
        is_rect(t, t.len() as int, cols_of(t)),
        in_bounds(t, y, x) ==> !(t[y][x].status == Status::Flaged && (cmd == 'P' || cmd == 'D')),
        in_bounds(t, y, x) ==> !(t[y][x].status == Status::Pending && cmd == 'F'),
    ensures
        count_all(dig_table(t, x, y, cmd), flagged_at(dig_table(t, x, y, cmd))) + dig_mines_delta(
            t,
            x,
            y,
            cmd,
        ) == count_all(t, flagged_at(t)),
{
    let t2 = dig_table(t, x, y, cmd);
    law_dig_keeps_field_and_opened(t, x, y, cmd);
    if t.len() > 0 {
        assert(t2[0].len() == t[0].len());
    }
    assert forall|i: int, j: int|
        0 <= i < t.len() && 0 <= j < cols_of(t) && !(i == y && j == x) implies #[trigger] flagged_at(t)(i, j)
        == flagged_at(t2)(i, j) by {
        assert(in_bounds(t, i, j));
        if t[i][j].status == Status::Flaged {
            law_dig_keeps_other_flags(t, x, y, cmd, i, j);
        } else {
            if in_region(t, set![(y, x)], (i, j)) {
                lemma_region_within(t, set![(y, x)], (i, j));
            }
            if in_bounds(t, y, x) && in_region(t, chord_seeds(t, y, x), (i, j)) {
                lemma_region_within(t, chord_seeds(t, y, x), (i, j));
            }
        }
    }
    lemma_count_box_change(flagged_at(t), flagged_at(t2), 0, t.len() as int, 0, cols_of(t), y, x);
    if in_bounds(t, y, x) {
        if in_region(t, set![(y, x)], (y, x)) {
            lemma_region_within(t, set![(y, x)], (y, x));
        }
        if in_region(t, chord_seeds(t, y, x), (y, x)) {
            lemma_region_within(t, chord_seeds(t, y, x), (y, x));
        }
    }
}

/// On a board with `mines` mines, the game is won exactly when every cell
/// without a mine is opened and no cell with a mine is.
pub proof fn law_won_iff_all_safe_opened(t: Seq<Seq<Cell>>, mines: int)
    requires
        is_rect(t, t.len() as int, cols_of(t)),
        count_all(t, mine_at(t)) == mines,
    ensures
        (check_result(t, mines) == GameResult::Success) <==> (forall|i: int, j: int|
            in_bounds(t, i, j) ==> (#[trigger] t[i][j].status == Status::Opened <==> !t[i][j].is_mine)),
{
    let rows = t.len() as int;
    let cols = cols_of(t);
    let all = |i: int, j: int| true;
    assert forall|ii: int, jj: int| 0 <= ii < rows && 0 <= jj < cols implies #[trigger] all(ii, jj)
        == (mine_at(t)(ii, jj) || free_at(t)(ii, jj)) && !(mine_at(t)(ii, jj) && free_at(t)(ii, jj)) by {}
    lemma_count_box_disjoint(mine_at(t), free_at(t), all, 0, rows, 0, cols);
    lemma_count_box_const(all, true, 0, rows, 0, cols);
    lemma_count_box_pos(blown_at(t), 0, rows, 0, cols);
    if forall|i: int, j: int|
        in_bounds(t, i, j) ==> (#[trigger] t[i][j].status == Status::Opened <==> !t[i][j].is_mine) {
        assert forall|ii: int, jj: int| 0 <= ii < rows && 0 <= jj < cols implies #[trigger] opened_at(t)(ii, jj)
            == free_at(t)(ii, jj) by {
            assert(in_bounds(t, ii, jj));
        }
        lemma_count_box_same(opened_at(t), free_at(t), 0, rows, 0, cols);
        if count_all(t, blown_at(t)) > 0 {
            let (a, b) = choose|a: int, b: int| 0 <= a < rows && 0 <= b < cols && #[trigger] blown_at(t)(a, b);
            assert(in_bounds(t, a, b));
        }
    }
    if check_result(t, mines) == GameResult::Success {
        assert forall|ii: int, jj: int| 0 <= ii < rows && 0 <= jj < cols && #[trigger] opened_at(t)(ii, jj)
            implies free_at(t)(ii, jj) by {
            if !free_at(t)(ii, jj) {
                assert(blown_at(t)(ii, jj));
            }
        }
        lemma_count_box_mono(opened_at(t), free_at(t), 0, rows, 0, cols);
        assert forall|i: int, j: int| in_bounds(t, i, j) implies (#[trigger] t[i][j].status
            == Status::Opened <==> !t[i][j].is_mine) by {
            if !t[i][j].is_mine && t[i][j].status != Status::Opened {
                assert(free_at(t)(i, j) && !opened_at(t)(i, j));
            }
            if t[i][j].is_mine && t[i][j].status == Status::Opened {
                assert(blown_at(t)(i, j));
            }
        }
    }
}

/// Checking the end of a game a second time gives the same answer and
/// changes nothing: a won board, once flagged, stays won, has nothing left
/// to flag, and no unexplored cell left to count off the mines left.
pub proof fn law_end_check_settles(t: Seq<Seq<Cell>>, mines: int)
    requires
        is_rect(t, t.len() as int, cols_of(t)),
    ensures
        ({
            let r1 = check_result(t, mines);
            let t1 = if r1 == GameResult::Success { flag_rest(t) } else { t };
            &&& check_result(t1, mines) == r1
            &&& (if check_result(t1, mines) == GameResult::Success { flag_rest(t1) } else { t1 }) == t1
            &&& check_result(t1, mines) == GameResult::Success ==> count_all(t1, unexplored_at(t1)) == 0
        }),
{
    let r1 = check_result(t, mines);
    if r1 == GameResult::Success {
        let t1 = flag_rest(t);
        let rows = t.len() as int;
        let cols = cols_of(t);
        if rows > 0 {
            assert(t1[0].len() == t[0].len());
        }
        assert(cols_of(t1) == cols);
        assert forall|ii: int, jj: int| 0 <= ii < rows && 0 <= jj < cols implies #[trigger] opened_at(t)(ii, jj)
            == opened_at(t1)(ii, jj) by {
            assert(in_bounds(t, ii, jj));
        }
        assert forall|ii: int, jj: int| 0 <= ii < rows && 0 <= jj < cols implies #[trigger] blown_at(t)(ii, jj)
            == blown_at(t1)(ii, jj) by {
            assert(in_bounds(t, ii, jj));
        }
        lemma_count_box_same(opened_at(t), opened_at(t1), 0, rows, 0, cols);
        lemma_count_box_same(blown_at(t), blown_at(t1), 0, rows, 0, cols);
        assert forall|i: int, j: int| in_bounds(t1, i, j) implies #[trigger] flag_rest(t1)[i][j] == t1[i][j] by {
            assert(!hidden_at(t1)(i, j));
        }
        lemma_tables_ext(flag_rest(t1), t1);
        lemma_count_box_pos(unexplored_at(t1), 0, rows, 0, cols);
        lemma_count_box_bounds_any(unexplored_at(t1), 0, rows, 0, cols);
        if count_all(t1, unexplored_at(t1)) > 0 {
            let (a, b) = choose|a: int, b: int| 0 <= a < rows && 0 <= b < cols && #[trigger] unexplored_at(t1)(a, b);
            assert(in_bounds(t, a, b));
        }
    }
}

/// A won board, once its unexplored and pending cells are flagged, has
/// every cell opened or flagged.
pub proof fn law_won_board_is_settled(t: Seq<Seq<Cell>>, i: int, j: int)
    requires
        in_bounds(t, i, j),
    ensures
        flag_rest(t)[i][j].status == Status::Opened || flag_rest(t)[i][j].status == Status::Flaged,
{
}

/// A click on any of the three screen columns where a cell is drawn, on its
/// row, names that cell.
pub proof fn law_click_finds_cell(col: int, row: int, k: int, rows: usize, cols: usize)
    requires
        0 <= row < rows <= u16::MAX,
        0 <= col < cols <= u16::MAX,
        -1 <= k <= 1,
        4 + 4 * col <= u16::MAX,
        2 + 2 * row <= u16::MAX,
    ensures
        row_at((2 + 2 * row) as u16, rows) == row,
        col_at((3 + 4 * col + k) as u16, cols) == col,
{
}

/// The clickable menu lies on the rows where the side panel draws it, for
/// every difficulty but 0.
pub proof fn law_menu_rows_match_panel(level: u8)
    requires
        level != 0,
    ensures
        help_rows_of(level).2 == menu_y(level),
{
}

/// Pausing a running game and taking it up again gives back the game as it
/// was.
pub proof fn law_pause_then_resume(g0: Game, g1: Game, g2: Game, a1: Action, a2: Action)
    requires
        g0.status == GameStatus::Started,
        program_cmd(g0, g1, 'P', a1),
        program_cmd(g1, g2, 'R', a2),
    ensures
        a1 == Action::Pause,
        a2 == Action::Resume,
        g2 == g0,
{
}

/// What typing a letter highlights, Backspace takes back: the row named by
/// a first letter, then the column named by a second, after which the row
/// is highlighted again.
pub proof fn law_backspace_takes_back_highlight(
    status: GameStatus,
    rows: int,
    cols: int,
    s: Seq<char>,
    c: char,
)
    requires
        !is_idle(status),
        s.len() <= 1,
        s.len() == 1 ==> is_upper(s[0]),
        is_upper(to_upper(c)),
    ensures
        ({
            let s2 = s.push(to_upper(c));
            let h = key_highlight(status, rows, cols, s2, c);
            let r = backspace_redraw(status, rows, cols, s2);
            &&& h matches Highlight::Row(a) ==> r.cancel_row == a
            &&& h matches Highlight::Col(a) ==> r.cancel_col == a && r.show_row == index_of_letter(s2[0], rows)
        }),
        s.push(to_upper(c)).drop_last() == s,
{
    let s2 = s.push(to_upper(c));
    lemma_byte_len(s2);
    lemma_byte_len(s2.drop_first());
    assert(s2.drop_last() =~= s);
    if s.len() == 1 {
        assert(s2.drop_first() =~= seq![to_upper(c)]);
        lemma_byte_len(seq![to_upper(c)].drop_first());
        assert(seq![to_upper(c)].drop_first() =~= Seq::<char>::empty());
    } else {
        assert(s2.drop_first() =~= Seq::<char>::empty());
    }
}

/// Pausing freezes the count: a running clock paused at `p` shows, at any
/// later reading, the seconds that it showed at `p`.
pub proof fn law_pause_freezes_count(t: Timer, p: u128, now: u128)
    requires
        t.is_running,
    ensures
        t.paused_at(p).elapsed_at(now) == t.elapsed_at(p),
{
}

/// Pauses are not counted: a clock started at `s`, paused at `p` and taken
/// up again at `r` shows at `now` the whole seconds since `s` less the whole
/// seconds from `p` to `r`.
pub proof fn law_pause_not_counted(t: Timer, s: u128, p: u128, r: u128, now: u128)
    ensures
        t.started_at(s).paused_at(p).resumed_at(r).elapsed_at(now) == net_secs(
            secs_between(now, s),
            secs_between(r, p),
        ),
{
}

/// Only flags count around a tested cell: where no cell in the box of nine
/// around `(y, x)` is flagged, the count of flags there is zero, whatever
/// other marks (pending, unexplored, opened) the cells bear.
pub proof fn law_only_flags_count(t: Seq<Seq<Cell>>, y: int, x: int)
    requires
        is_rect(t, t.len() as int, cols_of(t)),
        in_bounds(t, y, x),
        forall|i: int, j: int|
            in_bounds(t, i, j) && y - 1 <= i <= y + 1 && x - 1 <= j <= x + 1 ==> #[trigger] t[i][j].status
                != Status::Flaged,
    ensures
        flags_around(t, y, x) == 0,
{
    let (ilo, ihi, jlo, jhi) = (box_lo(y), box_hi(y, t.len() as int), box_lo(x), box_hi(x, cols_of(t)));
    lemma_count_box_pos(flagged_at(t), ilo, ihi, jlo, jhi);
    lemma_count_box_bounds_any(flagged_at(t), ilo, ihi, jlo, jhi);
    assert forall|ii: int, jj: int| ilo <= ii < ihi && jlo <= jj < jhi implies !#[trigger] flagged_at(t)(ii, jj) by {
        assert(t[ii].len() == cols_of(t));
        assert(in_bounds(t, ii, jj));
    }
}

/// A test compares the count of a cell with its flags alone: testing an
/// opened cell that has mines around but no flagged cell around changes
/// nothing, pending marks or not.
pub proof fn law_test_without_flags_changes_nothing(t: Seq<Seq<Cell>>, x: int, y: int, cmd: char)
    requires
        is_rect(t, t.len() as int, cols_of(t)),
        in_bounds(t, y, x),
        t[y][x].status == Status::Opened,
        t[y][x].surrnd_mines != 0,
        is_test_cmd(cmd),
        forall|i: int, j: int|
            in_bounds(t, i, j) && y - 1 <= i <= y + 1 && x - 1 <= j <= x + 1 ==> #[trigger] t[i][j].status
                != Status::Flaged,
    ensures
        dig_table(t, x, y, cmd) == t,
{
    law_only_flags_count(t, y, x);
}

/// Marking an unexplored cell pending changes the count of flags around no
/// cell.
pub proof fn law_pending_mark_keeps_flag_counts(t: Seq<Seq<Cell>>, x: int, y: int, i: int, j: int)
    requires
        is_rect(t, t.len() as int, cols_of(t)),
        in_bounds(t, y, x),
        t[y][x].status == Status::Unexplored,
        in_bounds(t, i, j),
    ensures
        flags_around(dig_table(t, x, y, 'P'), i, j) == flags_around(t, i, j),
{
    let t2 = dig_table(t, x, y, 'P');
    assert(t2 == with_status(t, y, x, Status::Pending));
    assert(t2.len() == t.len());
    assert(t[0].len() == cols_of(t));
    assert(cols_of(t2) == cols_of(t));
    let (ilo, ihi, jlo, jhi) = (box_lo(i), box_hi(i, t.len() as int), box_lo(j), box_hi(j, cols_of(t)));
    assert forall|ii: int, jj: int| ilo <= ii < ihi && jlo <= jj < jhi implies #[trigger] flagged_at(t)(ii, jj)
        == flagged_at(t2)(ii, jj) by {
        assert(t[ii].len() == cols_of(t));
    }
    lemma_count_box_same(flagged_at(t), flagged_at(t2), ilo, ihi, jlo, jhi);
}

/// The rank, from zero, of cell `(i, j)` among the free cells of `t` in
/// reading order: the draw that lays the next mine on it.
pub open spec fn free_rank(t: Seq<Seq<Cell>>, i: int, j: int) -> int {
    count_box(free_at(t), 0, i, 0, cols_of(t)) + count_row(free_at(t), i, 0, j)
}

/// A free cell ranks below every reading position after it.
proof fn lemma_rank_below(t: Seq<Seq<Cell>>, i: int, j: int, i2: int, j2: int)
    requires
        is_rect(t, t.len() as int, cols_of(t)),
        in_bounds(t, i, j),
        !t[i][j].is_mine,
        i < i2 <= t.len() || (i == i2 && j < j2 <= cols_of(t)),
        0 <= j2 <= cols_of(t),
    ensures
        free_rank(t, i, j) + 1 <= count_box(free_at(t), 0, i2, 0, cols_of(t)) + count_row(free_at(t), i2, 0, j2),
{
    let p = free_at(t);
    let c = cols_of(t);
    assert(t[i].len() == c);
    lemma_count_row_split(p, i, 0, j + 1, c);
    lemma_count_row_bounds(p, i, j + 1, c);
    lemma_count_row_bounds(p, i2, 0, j2);
    assert(count_row(p, i, 0, j + 1) == count_row(p, i, 0, j) + 1);
    if i == i2 {
        lemma_count_row_split(p, i, 0, j + 1, j2);
        lemma_count_row_bounds(p, i, j + 1, j2);
    } else {
        lemma_count_box_split(p, 0, i + 1, i2, 0, c);
        lemma_count_box_bounds_any(p, i + 1, i2, 0, c);
    }
}

/// Every free cell has a draw that lays the next mine on it, and no other
/// free cell has the same draw: the ranks of the free cells are draws below
/// the number of free cells, one to each cell.
pub proof fn law_every_free_cell_has_a_draw(t: Seq<Seq<Cell>>, i: int, j: int, i2: int, j2: int)
    requires
        is_rect(t, t.len() as int, cols_of(t)),
        in_bounds(t, i, j),
        !t[i][j].is_mine,
        in_bounds(t, i2, j2),
        !t[i2][j2].is_mine,
        (i, j) != (i2, j2),
    ensures
        0 <= free_rank(t, i, j) < count_all(t, free_at(t)),
        free_rank(t, i, j) != free_rank(t, i2, j2),
{
    lemma_count_box_bounds_any(free_at(t), 0, i, 0, cols_of(t));
    lemma_count_row_bounds(free_at(t), i, 0, j);
    lemma_rank_below(t, i, j, t.len() as int, 0);
    assert(t[i2].len() == cols_of(t));
    if i < i2 || (i == i2 && j < j2) {
        lemma_rank_below(t, i, j, i2, j2);
    } else {
        lemma_rank_below(t, i2, j2, i, j);
    }
}

/// While the clock runs, the seconds it shows never go down as time goes
/// on: a later reading shows at least what an earlier one showed.
pub proof fn law_running_count_grows(t: Timer, n1: u128, n2: u128)
    requires
        t.is_running,
        n1 <= n2,
    ensures
        t.elapsed_at(n1) <= t.elapsed_at(n2),
{
    if n1 >= t.start_time {
        vstd::arithmetic::div_mod::lemma_div_is_ordered(
            n1 - t.start_time,
            n2 - t.start_time,
            NANOS_PER_SEC as int,
        );
    }
}

/// A clock started at `s` shows, at any later instant `n`, the whole seconds
/// from `s` to `n`: the time before the start is not counted.
pub proof fn law_start_counts_from_start(t: Timer, s: u128, n: u128)
    requires
        s <= n,
        (n - s) / (NANOS_PER_SEC as int) <= u64::MAX,
    ensures
        t.started_at(s).elapsed_at(n) == (n - s) / (NANOS_PER_SEC as int),
{
}

/// Taking up again at `r` a clock paused at `p` counts the whole seconds
/// from `p` to `r` as paused, on top of the earlier pauses.
pub proof fn law_resume_counts_the_pause(t: Timer, p: u128, r: u128)
    requires
        p <= r,
        t.pause_duration + (r - p) / (NANOS_PER_SEC as int) <= u64::MAX,
    ensures
        t.paused_at(p).resumed_at(r).pause_duration == t.pause_duration + (r - p) / (NANOS_PER_SEC as int),
        t.paused_at(p).resumed_at(r).is_running,
{
}

/// Every order or check of the clock at `now` records `now` as the latest
/// instant, so that the next reading is never taken as earlier.
pub proof fn law_step_records_instant(t: Timer, order: TimerStatus, now: u128)
    ensures
        t.stepped_at(order, now).0.latest == now,
{
}

} // verus!
