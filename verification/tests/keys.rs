use tmine::cell::{Cell, Status};
use tmine::game::{Game, GameResult, GameStatus};
use tmine::input::{
    check_end, enter_fits, mouse_left_fits, mouse_right_fits, process_key_backspace,
    process_key_char, process_key_enter, process_key_esc, process_mouse_left,
    process_mouse_right, Action, Highlight, Redraw,
};
use tmine::level::Level;

fn board(rows: &[&str]) -> Game {
    let mut table = Vec::new();
    let mut mines = 0;
    for r in rows {
        let mut row = Vec::new();
        for ch in r.chars() {
            let is_mine = ch == '*';
            if is_mine {
                mines += 1;
            }
            row.push(Cell { is_mine, surrnd_mines: 0, status: Status::Unexplored });
        }
        table.push(row);
    }
    let level = Level { level: 1, rows: rows.len(), cols: rows[0].len(), mines, width: 0, height: 0 };
    let mut g = Game { level, mine_table: table, mines_left: mines, status: GameStatus::NotStart };
    g.calc_surrnd_mines_all();
    g
}

fn redraw(cancel_row: i16, cancel_col: i16, show_row: i16) -> Redraw {
    Redraw { cancel_row, cancel_col, show_row }
}

#[test]
fn typing_highlights_row_then_column() {
    let g = Game::new(1);
    let mut cmd = String::new();
    assert_eq!(process_key_char(&g, &mut cmd, &'c'), Some(Highlight::Row(2)));
    assert_eq!(cmd, "C");
    assert_eq!(process_key_char(&g, &mut cmd, &'e'), Some(Highlight::Col(4)));
    assert_eq!(cmd, "CE");
    assert_eq!(process_key_char(&g, &mut cmd, &'f'), Some(Highlight::Nothing));
    assert_eq!(cmd, "CEF");
    // a full command takes no more
    assert_eq!(process_key_char(&g, &mut cmd, &'x'), None);
    assert_eq!(cmd, "CEF");
}

#[test]
fn typing_outside_the_board() {
    let g = Game::new(1);
    let mut cmd = String::new();
    assert_eq!(process_key_char(&g, &mut cmd, &'z'), Some(Highlight::Nothing));
    assert_eq!(process_key_char(&g, &mut cmd, &'a'), Some(Highlight::Nothing));
    let mut cmd = String::new();
    assert_eq!(process_key_char(&g, &mut cmd, &'!'), Some(Highlight::Nothing));
    assert_eq!(process_key_char(&g, &mut cmd, &'q'), Some(Highlight::Nothing));
    // a program command takes two characters only
    assert_eq!(process_key_char(&g, &mut cmd, &'x'), None);
    assert_eq!(cmd, "!Q");
}

#[test]
fn typing_in_a_paused_game_highlights_nothing() {
    let mut g = Game::new(1);
    g.pause();
    let mut cmd = String::new();
    assert_eq!(process_key_char(&g, &mut cmd, &'c'), Some(Highlight::Nothing));
    assert_eq!(cmd, "C");
}

#[test]
fn typing_a_wide_character_counts_its_bytes() {
    let g = Game::new(1);
    let mut cmd = String::new();
    process_key_char(&g, &mut cmd, &'é');
    process_key_char(&g, &mut cmd, &'a');
    assert_eq!(cmd, "éA");
    // three bytes: full
    assert_eq!(process_key_char(&g, &mut cmd, &'b'), None);
}

#[test]
fn law_backspace_takes_back_highlights() {
    let g = Game::new(1);
    let mut cmd = String::new();
    process_key_char(&g, &mut cmd, &'c');
    process_key_char(&g, &mut cmd, &'e');
    assert_eq!(process_key_backspace(&g, &mut cmd), redraw(-1, 4, 2));
    assert_eq!(cmd, "C");
    assert_eq!(process_key_backspace(&g, &mut cmd), redraw(2, -1, -1));
    assert_eq!(cmd, "");
    assert_eq!(process_key_backspace(&g, &mut cmd), redraw(-1, -1, -1));
    assert_eq!(cmd, "");
}

#[test]
fn escape_takes_back_and_clears() {
    let g = Game::new(1);
    let mut cmd = String::from("CE");
    assert_eq!(process_key_esc(&g, &mut cmd), redraw(2, 4, -1));
    assert_eq!(cmd, "");
}

#[test]
fn enter_digs_and_starts() {
    let mut g = board(&["*...", "....", "...."]);
    let mut cmd = String::from("CD");
    assert!(enter_fits(&g, &cmd));
    let out = process_key_enter(&mut g, &mut cmd);
    assert_eq!(out.action, Action::Dug { started: true });
    assert_eq!(out.redraw, redraw(2, 3, -1));
    assert!(!out.echo);
    assert_eq!(cmd, "");
    assert_eq!(g.status, GameStatus::Started);
    assert_eq!(g.mine_table[2][3].status, Status::Opened);
    assert_eq!(g.mine_table[0][1].status, Status::Opened);
    // a flag does not start a game
    let mut g = board(&["*...", "....", "...."]);
    let mut cmd = String::from("AAF");
    let out = process_key_enter(&mut g, &mut cmd);
    assert_eq!(out.action, Action::Dug { started: false });
    assert_eq!(g.status, GameStatus::NotStart);
    assert_eq!(g.mine_table[0][0].status, Status::Flaged);
    assert_eq!(g.mines_left, 0);
}

#[test]
fn enter_off_the_board_or_paused_does_nothing() {
    let mut g = board(&["*...", "....", "...."]);
    let mut cmd = String::from("ZZ");
    let out = process_key_enter(&mut g, &mut cmd);
    assert_eq!(out.action, Action::Nothing);
    assert_eq!(out.redraw, redraw(-1, -1, -1));
    g.pause();
    let mut cmd = String::from("AB");
    let out = process_key_enter(&mut g, &mut cmd);
    assert_eq!(out.action, Action::Nothing);
    assert_eq!(out.redraw, redraw(-1, -1, -1));
    assert_eq!(g.mine_table[0][1].status, Status::Unexplored);
    // a single letter is only cleared
    let mut cmd = String::from("A");
    let out = process_key_enter(&mut g, &mut cmd);
    assert_eq!(out.action, Action::Nothing);
    assert_eq!(cmd, "");
    // one wide character reads as too short
    let mut cmd = String::from("é");
    let out = process_key_enter(&mut g, &mut cmd);
    assert!(out.echo);
    assert_eq!(cmd, "");
}

#[test]
fn enter_program_commands() {
    let mut g = Game::new_game(1);
    let mut cmd = String::from("!P");
    assert_eq!(process_key_enter(&mut g, &mut cmd).action, Action::Nothing);
    g.status = GameStatus::Started;
    let mut cmd = String::from("!P");
    assert_eq!(process_key_enter(&mut g, &mut cmd).action, Action::Pause);
    assert_eq!(g.status, GameStatus::Paused);
    let mut cmd = String::from("!R");
    assert_eq!(process_key_enter(&mut g, &mut cmd).action, Action::Resume);
    assert_eq!(g.status, GameStatus::Started);
    let mut cmd = String::from("!C");
    assert_eq!(process_key_enter(&mut g, &mut cmd).action, Action::CheckErrors);
    let mut cmd = String::from("!Q");
    assert_eq!(process_key_enter(&mut g, &mut cmd).action, Action::Quit);
    let mut cmd = String::from("!D");
    assert_eq!(process_key_enter(&mut g, &mut cmd).action, Action::ChangeDifficulty);
    let mut cmd = String::from("!X");
    assert_eq!(process_key_enter(&mut g, &mut cmd).action, Action::Nothing);
    let mut cmd = String::from("!N");
    assert_eq!(process_key_enter(&mut g, &mut cmd).action, Action::NewGame);
    assert_eq!(g.status, GameStatus::NotStart);
    assert_eq!(g.level, Level::new(1));
    assert_eq!(g.mines_left, 7);
}

#[test]
fn enter_refuses_what_would_overflow() {
    let mut g = board(&["*."]);
    g.mines_left = i16::MIN;
    assert!(!enter_fits(&g, &String::from("AAF")));
    assert!(enter_fits(&g, &String::from("AAD")));
    // two characters read as three bytes
    assert!(!enter_fits(&g, &String::from("Aé")));
}

#[test]
fn mouse_left_digs_and_clicks_the_menu() {
    let mut g = board(&["*...", "....", "...."]);
    let mut cmd = String::new();
    let (x, y) = Game::pos_from_index(3, 2);
    assert!(mouse_left_fits(&g, x, y));
    assert_eq!(process_mouse_left(&mut g, &mut cmd, &x, &y), Action::Dug { started: true });
    assert_eq!(g.mine_table[2][3].status, Status::Opened);
    assert_eq!(g.status, GameStatus::Started);
    // the menu of a 3 x 4 board starts at column 22
    let (x, _) = g.get_help_pos();
    assert_eq!(process_mouse_left(&mut g, &mut cmd, &x, &13), Action::Pause);
    assert_eq!(process_mouse_left(&mut g, &mut cmd, &x, &14), Action::Resume);
    assert_eq!(process_mouse_left(&mut g, &mut cmd, &x, &12), Action::Quit);
    assert_eq!(process_mouse_left(&mut g, &mut cmd, &x, &17), Action::Nothing);
    // off the menu
    assert_eq!(process_mouse_left(&mut g, &mut cmd, &1, &1), Action::Nothing);
    // a click above the menu, in its column, cannot be handled
    assert!(!mouse_left_fits(&g, x, 5));
    assert!(!mouse_left_fits(&g, 0, 5));
}

#[test]
fn mouse_right_flags() {
    let mut g = board(&["*...", "....", "...."]);
    let (x, y) = Game::pos_from_index(0, 0);
    assert!(mouse_right_fits(&g, x, y));
    assert!(process_mouse_right(&mut g, &x, &y));
    assert_eq!(g.mine_table[0][0].status, Status::Flaged);
    assert_eq!(g.mines_left, 0);
    assert!(!process_mouse_right(&mut g, &1, &1));
    g.mines_left = i16::MAX;
    assert!(!mouse_right_fits(&g, x, y));
}

#[test]
fn end_check_finishes_the_game() {
    let mut g = board(&["*.", ".."]);
    assert_eq!(check_end(&mut g), GameResult::NotOver);
    assert_eq!(g.status, GameStatus::NotStart);
    g.dig_cell(&1, &1, &'D');
    g.dig_cell(&1, &0, &'D');
    g.dig_cell(&0, &1, &'D');
    assert_eq!(check_end(&mut g), GameResult::Success);
    assert_eq!(g.status, GameStatus::Finished);
    assert_eq!(g.mine_table[0][0].status, Status::Flaged);
    assert_eq!(g.mines_left, 0);
}

fn enter(g: &mut Game, text: &str) -> Action {
    let mut cmd = String::new();
    for c in text.chars() {
        process_key_char(g, &mut cmd, &c);
    }
    assert!(enter_fits(g, &cmd));
    process_key_enter(g, &mut cmd).action
}

#[test]
fn readme_commands() {
    // rows A..C, columns A..E; the only mine in row A, column A
    let mut g = board(&["*....", ".....", "....."]);
    // CEF flags row C column E, CEF again takes the flag back
    enter(&mut g, "cef");
    assert_eq!(g.mine_table[2][4].status, Status::Flaged);
    enter(&mut g, "CEF");
    assert_eq!(g.mine_table[2][4].status, Status::Unexplored);
    // CEP marks it pending, CEP again clears it
    enter(&mut g, "CEP");
    assert_eq!(g.mine_table[2][4].status, Status::Pending);
    enter(&mut g, "CEP");
    assert_eq!(g.mine_table[2][4].status, Status::Unexplored);
    // BB (short for BBD) digs a cell next to the mine: only it opens
    assert_eq!(enter(&mut g, "BB"), Action::Dug { started: true });
    assert_eq!(g.mine_table[1][1].status, Status::Opened);
    assert_eq!(g.mine_table[2][4].status, Status::Unexplored);
    // BBT tests it: no flag around yet, nothing happens
    enter(&mut g, "BBT");
    assert_eq!(g.mine_table[0][1].status, Status::Unexplored);
    // flag the mine, then BB on the opened cell is a test: all around open
    enter(&mut g, "AAF");
    enter(&mut g, "BB");
    for (i, j) in [(0, 1), (0, 2), (1, 0), (1, 2), (2, 0), (2, 1), (2, 2)] {
        assert_eq!(g.mine_table[i][j].status, Status::Opened);
    }
    // CED digs row C column E
    enter(&mut g, "CED");
    assert_eq!(g.mine_table[2][4].status, Status::Opened);
    assert_eq!(check_end(&mut g), GameResult::Success);
}

#[test]
fn readme_mouse() {
    let mut g = board(&["*....", ".....", "....."]);
    let mut cmd = String::new();
    // a left click on an unexplored cell digs it
    let (x, y) = Game::pos_from_index(1, 1);
    process_mouse_left(&mut g, &mut cmd, &x, &y);
    assert_eq!(g.mine_table[1][1].status, Status::Opened);
    // a right click flags
    let (mx, my) = Game::pos_from_index(0, 0);
    process_mouse_right(&mut g, &mx, &my);
    assert_eq!(g.mine_table[0][0].status, Status::Flaged);
    // a left click on an opened cell tests it
    process_mouse_left(&mut g, &mut cmd, &x, &y);
    assert_eq!(g.mine_table[0][1].status, Status::Opened);
    assert_eq!(g.mine_table[2][2].status, Status::Opened);
}
