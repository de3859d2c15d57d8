use tmine::cell::{Cell, CellLook, Status};
use tmine::game::{Game, GameResult, GameStatus};
use tmine::level::{level_choice_of, read_level_choice, Level, LevelChoice};

/// A game on the board drawn by `rows` ('*' a mine, '.' none), with the
/// counts of mines around filled in.
fn board(rows: &[&str]) -> Game {
    let mut table = Vec::new();
    let mut mines = 0;
    for r in rows {
        let mut row = Vec::new();
        for ch in r.chars() {
            let is_mine = ch == '*';
            if is_mine {
                mines += 1;
            }
            row.push(Cell { is_mine, surrnd_mines: 0, status: Status::Unexplored });
        }
        table.push(row);
    }
    let level = Level {
        level: 1,
        rows: rows.len(),
        cols: rows[0].len(),
        mines,
        width: 0,
        height: 0,
    };
    let mut g = Game { level, mine_table: table, mines_left: mines, status: GameStatus::NotStart };
    g.calc_surrnd_mines_all();
    g
}

fn statuses(g: &Game) -> Vec<String> {
    g.mine_table
        .iter()
        .map(|r| {
            r.iter()
                .map(|c| match c.status {
                    Status::Opened => 'O',
                    Status::Flaged => 'F',
                    Status::Unexplored => 'U',
                    Status::Pending => 'P',
                })
                .collect()
        })
        .collect()
}

#[test]
fn cell_new_and_reset() {
    let c = Cell::new();
    assert!(!c.is_mine);
    assert_eq!(c.surrnd_mines, 0);
    assert_eq!(c.status, Status::Unexplored);
    let mut d = Cell { is_mine: true, surrnd_mines: 3, status: Status::Flaged };
    d.reset();
    assert_eq!(d, Cell::new());
}

#[test]
fn cell_looks() {
    let mut c = Cell { is_mine: false, surrnd_mines: 0, status: Status::Opened };
    assert_eq!(c.look(), CellLook::Clear);
    c.surrnd_mines = 3;
    assert_eq!(c.look(), CellLook::Count(3));
    c.surrnd_mines = -1;
    assert_eq!(c.look(), CellLook::Nothing);
    c.is_mine = true;
    assert_eq!(c.look(), CellLook::Mine);
    c.status = Status::Flaged;
    assert_eq!(c.look(), CellLook::Flag);
    c.status = Status::Pending;
    assert_eq!(c.look(), CellLook::Question);
    c.status = Status::Unexplored;
    assert_eq!(c.look(), CellLook::Hidden);
}

#[test]
fn levels() {
    let l1 = Level::new(1);
    assert_eq!((l1.level, l1.rows, l1.cols, l1.mines, l1.width, l1.height), (1, 8, 10, 7, 67, 20));
    let l2 = Level::new(2);
    assert_eq!((l2.level, l2.rows, l2.cols, l2.mines, l2.width, l2.height), (2, 9, 14, 15, 83, 22));
    let l3 = Level::new(3);
    assert_eq!((l3.level, l3.rows, l3.cols, l3.mines, l3.width, l3.height), (3, 15, 20, 40, 107, 34));
    let l4 = Level::new(4);
    assert_eq!((l4.level, l4.rows, l4.cols, l4.mines, l4.width, l4.height), (4, 19, 26, 99, 131, 42));
    // an unknown difficulty is the beginner's
    assert_eq!(Level::new(9), l1);
}

#[test]
fn fresh_game() {
    let g = Game::new(3);
    assert_eq!(g.level, Level::new(3));
    assert_eq!(g.mines_left, 40);
    assert_eq!(g.status, GameStatus::NotStart);
    assert_eq!(g.mine_table.len(), 15);
    for r in &g.mine_table {
        assert_eq!(r.len(), 20);
        for c in r {
            assert_eq!(*c, Cell::new());
        }
    }
}

#[test]
fn new_game_lays_the_mines_and_counts() {
    for lv in 1..=4u8 {
        let g = Game::new_game(lv);
        let mines: i16 = g.mine_table.iter().flatten().filter(|c| c.is_mine).count() as i16;
        assert_eq!(mines, g.level.mines);
        assert_eq!(g.mines_left, g.level.mines);
        for i in 0..g.level.rows {
            for j in 0..g.level.cols {
                let c = g.mine_table[i][j];
                assert_eq!(c.status, Status::Unexplored);
                if c.is_mine {
                    assert_eq!(c.surrnd_mines, 0);
                } else {
                    let mut n = 0;
                    for a in i.saturating_sub(1)..(i + 2).min(g.level.rows) {
                        for b in j.saturating_sub(1)..(j + 2).min(g.level.cols) {
                            if (a, b) != (i, j) && g.mine_table[a][b].is_mine {
                                n += 1;
                            }
                        }
                    }
                    assert_eq!(c.surrnd_mines, n);
                }
            }
        }
    }
}

#[test]
fn laying_mines_on_a_full_board() {
    // as many mines as cells: every cell gets one
    let mut g = board(&["...", "..."]);
    g.level.mines = 6;
    g.laying_mine();
    assert!(g.mine_table.iter().flatten().all(|c| c.is_mine && c.status == Status::Unexplored));
    // no mines at all
    g.level.mines = 0;
    g.laying_mine();
    assert!(g.mine_table.iter().flatten().all(|c| *c == Cell::new()));
}

#[test]
fn mines_go_to_the_free_cell_of_the_given_rank() {
    // free cells in reading order: (0,1) (0,2) (1,0) (1,2) (2,0) (2,1)
    let mut g = board(&["*..", ".*.", "..*"]);
    assert_eq!(g.lay_mine_on_free(0), (0, 1));
    assert!(g.mine_table[0][1].is_mine);
    // (0,1) is taken now: rank 0 is (0,2)
    assert_eq!(g.lay_mine_on_free(0), (0, 2));
    // free now: (1,0) (1,2) (2,0) (2,1)
    assert_eq!(g.lay_mine_on_free(3), (2, 1));
    assert_eq!(g.lay_mine_on_free(1), (1, 2));
    assert_eq!(g.lay_mine_on_free(1), (2, 0));
    assert_eq!(g.lay_mine_on_free(0), (1, 0));
    assert!(g.mine_table.iter().flatten().all(|c| c.is_mine));
    // nothing else of the cells changes
    assert!(g.mine_table.iter().flatten().all(|c| c.status == Status::Unexplored));
}

#[test]
fn counts_of_mines_around() {
    let g = board(&["*..", "...", "..*"]);
    assert_eq!(g.calc_mines_1cell(&1, &1), 2);
    assert_eq!(g.calc_mines_1cell(&1, &0), 1);
    assert_eq!(g.calc_mines_1cell(&2, &0), 0);
    // a mine does not count itself
    assert_eq!(g.calc_mines_1cell(&0, &0), 0);
    // off the board nothing is counted but the neighbours on it
    assert_eq!(g.calc_mines_1cell(&3, &3), 1);
    assert_eq!(g.calc_mines_1cell(&9, &9), 0);
    let counts: Vec<Vec<i8>> = g.mine_table.iter().map(|r| r.iter().map(|c| c.surrnd_mines).collect()).collect();
    assert_eq!(counts, vec![vec![0, 1, 0], vec![1, 2, 1], vec![0, 1, 0]]);
}

#[test]
fn dig_floods_from_an_empty_cell() {
    let mut g = board(&["*...", "....", "...."]);
    g.dig_cell(&3, &2, &'D');
    assert_eq!(statuses(&g), vec!["UOOO", "OOOO", "OOOO"]);
    assert_eq!(g.mines_left, 1);
}

#[test]
fn dig_stops_at_counts_and_skips_flags() {
    let mut g = board(&["..*..", ".....", "....."]);
    g.dig_cell(&0, &2, &'F');
    g.dig_cell(&4, &2, &'P');
    g.dig_cell(&0, &0, &' ');
    // the flag and the pending mark stop the flood; the counts are opened
    // but spread no further
    assert_eq!(statuses(&g), vec!["OOUOO", "OOOOO", "FOOOP"]);
    // a mine is opened alone
    g.dig_cell(&2, &0, &'\n');
    assert_eq!(g.mine_table[0][2].status, Status::Opened);
}

#[test]
fn dig_a_counted_cell_opens_only_it() {
    let mut g = board(&["*..", "...", "..."]);
    g.dig_cell(&1, &1, &'D');
    assert_eq!(statuses(&g), vec!["UUU", "UOU", "UUU"]);
}

#[test]
fn flag_pending_and_unflag() {
    let mut g = board(&["*..", "..."]);
    g.dig_cell(&0, &0, &'F');
    assert_eq!(g.mine_table[0][0].status, Status::Flaged);
    assert_eq!(g.mines_left, 0);
    g.dig_cell(&0, &0, &'F');
    assert_eq!(g.mine_table[0][0].status, Status::Unexplored);
    assert_eq!(g.mines_left, 1);
    g.dig_cell(&0, &0, &'P');
    assert_eq!(g.mine_table[0][0].status, Status::Pending);
    g.dig_cell(&0, &0, &'F');
    assert_eq!(g.mine_table[0][0].status, Status::Flaged);
    // flagging a pending cell does not count
    assert_eq!(g.mines_left, 1);
    g.dig_cell(&0, &0, &'P');
    assert_eq!(g.mine_table[0][0].status, Status::Pending);
    g.dig_cell(&0, &0, &'P');
    assert_eq!(g.mine_table[0][0].status, Status::Unexplored);
    // other commands, and cells off the board, change nothing
    g.dig_cell(&0, &0, &'X');
    g.dig_cell(&0, &0, &'T');
    g.dig_cell(&5, &0, &'F');
    g.dig_cell(&0, &5, &'D');
    assert_eq!(statuses(&g), vec!["UUU", "UUU"]);
    assert_eq!(g.mines_left, 1);
}

#[test]
fn dig_a_flagged_or_pending_cell() {
    let mut g = board(&["*..", "...", "..."]);
    g.dig_cell(&2, &2, &'F');
    // a flagged cell is dug only by D
    g.dig_cell(&2, &2, &' ');
    assert_eq!(g.mine_table[2][2].status, Status::Flaged);
    g.dig_cell(&2, &2, &'D');
    assert_eq!(statuses(&g), vec!["UOO", "OOO", "OOO"]);
    let mut g = board(&["*..", "...", "..."]);
    g.dig_cell(&2, &2, &'P');
    g.dig_cell(&2, &2, &'\n');
    assert_eq!(statuses(&g), vec!["UOO", "OOO", "OOO"]);
}

#[test]
fn test_opens_around_when_flags_match() {
    let mut g = board(&["*..", "...", "..."]);
    g.dig_cell(&1, &1, &'D');
    // no flag yet: the test does nothing
    g.dig_cell(&1, &1, &'T');
    assert_eq!(statuses(&g), vec!["UUU", "UOU", "UUU"]);
    g.dig_cell(&0, &0, &'F');
    g.dig_cell(&1, &1, &'T');
    assert_eq!(statuses(&g), vec!["FOO", "OOO", "OOO"]);
}

#[test]
fn test_with_a_wrong_flag_opens_the_mine() {
    let mut g = board(&["*..", "...", "..."]);
    g.dig_cell(&1, &1, &'D');
    g.dig_cell(&2, &2, &'F');
    g.dig_cell(&1, &1, &' ');
    assert_eq!(g.mine_table[0][0].status, Status::Opened);
    assert_eq!(g.success_check(), GameResult::Failed);
}

#[test]
fn test_is_only_for_opened_cells() {
    let mut g = board(&["*..", "...", "..."]);
    g.dig_cell(&0, &0, &'F');
    g.dig_cell(&1, &1, &'T');
    g.dig_cell(&0, &0, &'T');
    assert_eq!(statuses(&g), vec!["FUU", "UUU", "UUU"]);
}

#[test]
fn success_check_outcomes() {
    let mut g = board(&["*..", "...", "..."]);
    assert_eq!(g.success_check(), GameResult::NotOver);
    g.dig_cell(&0, &0, &'P');
    g.dig_cell(&2, &2, &'D');
    // all cells without a mine are opened: won, and the pending mine flagged
    assert_eq!(g.success_check(), GameResult::Success);
    assert_eq!(statuses(&g), vec!["FOO", "OOO", "OOO"]);
    assert_eq!(g.mines_left, 1);
    let mut g = board(&["*..", "...", ".*."]);
    g.dig_cell(&2, &0, &'D');
    g.dig_cell(&1, &0, &'D');
    g.dig_cell(&0, &1, &'D');
    g.dig_cell(&1, &1, &'D');
    g.dig_cell(&2, &1, &'D');
    g.dig_cell(&0, &2, &'D');
    g.dig_cell(&2, &2, &'D');
    // the unexplored mines are flagged and counted off
    assert_eq!(g.success_check(), GameResult::Success);
    assert_eq!(g.mines_left, 0);
    assert_eq!(g.mine_table[2][1].status, Status::Flaged);
    // digging a mine loses
    let mut g = board(&["*..", "...", "..."]);
    g.dig_cell(&0, &0, &'D');
    assert_eq!(g.success_check(), GameResult::Failed);
}

#[test]
fn pause_and_resume() {
    let mut g = board(&["*."]);
    g.pause();
    assert_eq!(g.status, GameStatus::Paused);
    g.resume();
    assert_eq!(g.status, GameStatus::Started);
}

#[test]
fn dig_fits_tells_the_overflow() {
    let mut g = board(&["*."]);
    g.mines_left = i16::MIN;
    assert!(!g.dig_fits(0, 0, 'F'));
    assert!(g.dig_fits(0, 0, 'D'));
    g.dig_cell(&1, &0, &'P');
    assert!(g.dig_fits(1, 0, 'F'));
    g.mines_left = i16::MAX;
    assert!(g.dig_fits(0, 0, 'F'));
}

#[test]
fn cells_shown_after_a_loss() {
    let mine = |status| Cell { is_mine: true, surrnd_mines: 0, status };
    let free = |status| Cell { is_mine: false, surrnd_mines: 1, status };
    assert!(mine(Status::Unexplored).shown_as_mine());
    assert!(mine(Status::Pending).shown_as_mine());
    assert!(!mine(Status::Flaged).shown_as_mine());
    assert!(!mine(Status::Opened).shown_as_mine());
    assert!(!free(Status::Unexplored).shown_as_mine());
    assert!(free(Status::Flaged).wrongly_flagged());
    assert!(!mine(Status::Flaged).wrongly_flagged());
    assert!(!free(Status::Pending).wrongly_flagged());
}

#[test]
fn level_choices() {
    assert_eq!(read_level_choice(&String::from("3\n")), LevelChoice::Level(3));
    assert_eq!(read_level_choice(&String::from("  1 \r\n")), LevelChoice::Level(1));
    assert_eq!(read_level_choice(&String::from("+4\n")), LevelChoice::Level(4));
    assert_eq!(read_level_choice(&String::from("0\n")), LevelChoice::Quit);
    assert_eq!(read_level_choice(&String::from("5\n")), LevelChoice::OutOfRange);
    assert_eq!(read_level_choice(&String::from("-1\n")), LevelChoice::OutOfRange);
    assert_eq!(read_level_choice(&String::from("x\n")), LevelChoice::Unreadable);
    assert_eq!(read_level_choice(&String::from("\n")), LevelChoice::Unreadable);
    assert_eq!(read_level_choice(&String::from("99999\n")), LevelChoice::Unreadable);
    assert_eq!(read_level_choice(&String::from("-0\n")), LevelChoice::Quit);
    assert_eq!(read_level_choice(&String::from("007\n")), LevelChoice::OutOfRange);
    assert_eq!(read_level_choice(&String::from("\u{3000}2\u{a0}")), LevelChoice::Level(2));
    assert_eq!(read_level_choice(&String::from("+\n")), LevelChoice::Unreadable);
    assert_eq!(read_level_choice(&String::from("- 3\n")), LevelChoice::Unreadable);
    assert_eq!(read_level_choice(&String::from("3 4\n")), LevelChoice::Unreadable);
    assert_eq!(read_level_choice(&String::from("-32768\n")), LevelChoice::OutOfRange);
    assert_eq!(level_choice_of(Some(2)), LevelChoice::Level(2));
    assert_eq!(level_choice_of(Some(0)), LevelChoice::Quit);
    assert_eq!(level_choice_of(Some(-7)), LevelChoice::OutOfRange);
    assert_eq!(level_choice_of(None), LevelChoice::Unreadable);
}
