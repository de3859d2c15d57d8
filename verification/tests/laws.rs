use tmine::cell::{Cell, Status};
use tmine::game::{Game, GameResult, GameStatus};
use tmine::level::Level;

fn board(rows: &[&str]) -> Game {
    let mut table = Vec::new();
    let mut mines = 0;
    for r in rows {
        let mut row = Vec::new();
        for ch in r.chars() {
            let is_mine = ch == '*';
            if is_mine {
                mines += 1;
            }
            row.push(Cell { is_mine, surrnd_mines: 0, status: Status::Unexplored });
        }
        table.push(row);
    }
    let level = Level { level: 1, rows: rows.len(), cols: rows[0].len(), mines, width: 0, height: 0 };
    let mut g = Game { level, mine_table: table, mines_left: mines, status: GameStatus::NotStart };
    g.calc_surrnd_mines_all();
    g
}

fn flags(g: &Game) -> i16 {
    g.mine_table.iter().flatten().filter(|c| c.status == Status::Flaged).count() as i16
}

#[test]
fn law_dig_keeps_field_and_opened() {
    let mut g = board(&["*..", ".*.", "..."]);
    let before = g.mine_table.clone();
    g.dig_cell(&2, &0, &'D');
    let opened = g.mine_table.clone();
    for cmd in ['D', 'F', 'P', 'T', ' ', '\n', 'X'] {
        for y in 0..3 {
            for x in 0..3 {
                g.dig_cell(&x, &y, &cmd);
            }
        }
    }
    for i in 0..3 {
        for j in 0..3 {
            assert_eq!(g.mine_table[i][j].is_mine, before[i][j].is_mine);
            assert_eq!(g.mine_table[i][j].surrnd_mines, before[i][j].surrnd_mines);
            if opened[i][j].status == Status::Opened {
                assert_eq!(g.mine_table[i][j].status, Status::Opened);
            }
        }
    }
}

#[test]
fn law_dig_keeps_other_flags() {
    let mut g = board(&["....", "....", "...*"]);
    g.dig_cell(&1, &1, &'F');
    g.dig_cell(&0, &0, &'D');
    assert_eq!(g.mine_table[1][1].status, Status::Flaged);
    g.dig_cell(&0, &1, &'T');
    assert_eq!(g.mine_table[1][1].status, Status::Flaged);
}

#[test]
fn law_mark_twice_restores() {
    let mut g = board(&["*..", "..."]);
    let before = g.mine_table.clone();
    g.dig_cell(&0, &0, &'F');
    g.dig_cell(&0, &0, &'F');
    assert_eq!(g.mine_table, before);
    assert_eq!(g.mines_left, 1);
    g.dig_cell(&2, &1, &'P');
    g.dig_cell(&2, &1, &'P');
    assert_eq!(g.mine_table, before);
}

#[test]
fn law_digging_a_mine_loses() {
    let mut g = board(&["..*", "..."]);
    g.dig_cell(&2, &0, &' ');
    assert_eq!(g.success_check(), GameResult::Failed);
}

#[test]
fn law_dig_spreads() {
    let mut g = board(&["....", "....", "...*"]);
    g.dig_cell(&0, &0, &'D');
    for (i, j) in [(0, 1), (1, 0), (1, 1)] {
        assert_eq!(g.mine_table[i][j].status, Status::Opened);
    }
}

#[test]
fn law_test_opens_around() {
    let mut g = board(&["*..", "...", "..."]);
    g.dig_cell(&1, &0, &'D');
    g.dig_cell(&0, &0, &'F');
    g.dig_cell(&1, &0, &'\n');
    for (i, j) in [(0, 2), (1, 0), (1, 1), (1, 2)] {
        assert_eq!(g.mine_table[i][j].status, Status::Opened);
    }
}

#[test]
fn law_test_only_opened() {
    let mut g = board(&["*..", "..."]);
    g.dig_cell(&1, &1, &'P');
    let before = g.mine_table.clone();
    for y in 0..2 {
        for x in 0..3 {
            g.dig_cell(&x, &y, &'T');
        }
    }
    assert_eq!(g.mine_table, before);
}

#[test]
fn law_flags_and_mines_left() {
    let mut g = board(&["*..", "..*"]);
    let total = g.mines_left + flags(&g);
    for (x, y, cmd) in [(0, 0, 'F'), (2, 1, 'F'), (1, 0, 'D'), (0, 0, 'F'), (2, 1, 'T'), (1, 1, 'P')] {
        g.dig_cell(&x, &y, &cmd);
        assert_eq!(g.mines_left + flags(&g), total);
    }
    // the three exceptions: a flag marked pending, a pending cell flagged,
    // a flagged cell dug
    g.dig_cell(&2, &1, &'P');
    assert_eq!(g.mines_left + flags(&g), total - 1);
}

#[test]
fn law_won_iff_all_safe_opened() {
    let mut g = board(&["*.", "..", ".*"]);
    for (x, y) in [(1, 0), (0, 1), (1, 1), (0, 2)] {
        assert_eq!(g.clone_status_check(), GameResult::NotOver);
        g.dig_cell(&x, &y, &'D');
    }
    assert_eq!(g.success_check(), GameResult::Success);
    // every cell is now opened or flagged
    assert!(g.mine_table.iter().flatten().all(|c| c.status == Status::Opened || c.status == Status::Flaged));
}

trait CheckCopy {
    fn clone_status_check(&self) -> GameResult;
}

impl CheckCopy for Game {
    fn clone_status_check(&self) -> GameResult {
        let mut copy = Game {
            level: self.level,
            mine_table: self.mine_table.clone(),
            mines_left: self.mines_left,
            status: self.status,
        };
        copy.success_check()
    }
}

#[test]
fn law_end_check_settles() {
    for rows in [&["*.", ".."][..], &["*.", ".*"][..]] {
        let mut g = board(rows);
        g.dig_cell(&1, &0, &'D');
        g.dig_cell(&0, &1, &'D');
        g.dig_cell(&1, &1, &'D');
        let r1 = g.success_check();
        let (table, left) = (g.mine_table.clone(), g.mines_left);
        assert_eq!(g.success_check(), r1);
        assert_eq!(g.mine_table, table);
        assert_eq!(g.mines_left, left);
    }
    let mut g = board(&["*.", ".."]);
    let r1 = g.success_check();
    assert_eq!(r1, GameResult::NotOver);
    assert_eq!(g.success_check(), r1);
}
