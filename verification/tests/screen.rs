use tmine::game::{Game, GameStatus};
use tmine::timer::{Timer, TimerStatus, NANOS_PER_SEC};

#[test]
fn letters_name_rows_and_columns() {
    let g = Game::new(1); // 8 rows, 10 columns
    assert_eq!(g.get_row_from_char(&'C'), 2);
    assert_eq!(g.get_row_from_char(&'c'), 2);
    assert_eq!(g.get_row_from_char(&'H'), 7);
    assert_eq!(g.get_row_from_char(&'I'), -1);
    assert_eq!(g.get_row_from_char(&'!'), -1);
    assert_eq!(g.get_row_from_char(&'é'), -1);
    assert_eq!(g.get_col_from_char(&'J'), 9);
    assert_eq!(g.get_col_from_char(&'j'), 9);
    assert_eq!(g.get_col_from_char(&'K'), -1);
}

#[test]
fn commands_name_cells() {
    let g = Game::new(1);
    assert_eq!(g.get_row_col_from_str(&String::from("CE")), (2, 4));
    assert_eq!(g.get_row_col_from_str(&String::from("CED")), (2, 4));
    assert_eq!(g.get_row_col_from_str(&String::from("C")), (2, -1));
    assert_eq!(g.get_row_col_from_str(&String::from("")), (-1, -1));
    // the row letter must be upper case
    assert_eq!(g.get_row_col_from_str(&String::from("ce")), (-1, -1));
    assert_eq!(g.get_row_col_from_str(&String::from("!Q")), (-1, -1));
    assert_eq!(g.get_row_col_from_str(&String::from("Zz")), (-1, -1));
    assert_eq!(g.get_row_col_from_str(&String::from("AZ")), (0, -1));
}

#[test]
fn panel_positions() {
    let g = Game::new(1);
    assert_eq!(g.get_cmd_pos(), (46, 18));
    assert_eq!(g.get_help_pos(), (46, 4));
    assert_eq!(g.get_stat_mine_pos(), (46, 0));
    assert_eq!(g.get_stat_time_pos(), (46, 1));
    assert_eq!(g.get_table_mid_pos(), (21, 8));
    let g = Game::new(4);
    assert_eq!(g.get_cmd_pos(), (110, 40));
}

#[test]
fn cell_screen_positions() {
    assert_eq!(Game::pos_from_index(0, 0), (3, 2));
    assert_eq!(Game::pos_from_index(2, 3), (11, 8));
    let mut g = Game::new(1);
    // back from the screen to the cell
    assert_eq!(g.pos_to_index(8, 11), (3, 2));
    assert_eq!(g.pos_to_index(2, 3), (0, 0));
    // on the lines of the grid
    assert_eq!(g.pos_to_index(7, 11), (-1, 2));
    assert_eq!(g.pos_to_index(8, 13), (3, -1));
    // one row past the board still counts; two do not
    assert_eq!(g.pos_to_index(18, 3), (8, 0));
    assert_eq!(g.pos_to_index(20, 3), (-1, 0));
}

#[test]
fn menu_clicks() {
    let mut g = Game::new(1);
    assert_eq!(g.which_cmd_clicked(46, 12), 'Q');
    assert_eq!(g.which_cmd_clicked(50, 13), 'P');
    assert_eq!(g.which_cmd_clicked(60, 14), 'R');
    assert_eq!(g.which_cmd_clicked(64, 15), 'N');
    assert_eq!(g.which_cmd_clicked(46, 16), 'D');
    assert_eq!(g.which_cmd_clicked(46, 17), 'X');
    assert_eq!(g.which_cmd_clicked(45, 12), 'X');
    assert_eq!(g.which_cmd_clicked(65, 12), 'X');
    let mut g = Game::new(2);
    assert_eq!(g.which_cmd_clicked(62, 14), 'Q');
    let mut g = Game::new(3);
    assert_eq!(g.which_cmd_clicked(86, 16), 'Q');
    assert_eq!(g.which_cmd_clicked(86, 20), 'D');
}

#[test]
fn panel_rows() {
    assert_eq!(Game::new(1).help_rows(), (6, 11, 12));
    assert_eq!(Game::new(2).help_rows(), (6, 11, 14));
    assert_eq!(Game::new(3).help_rows(), (7, 13, 16));
    assert_eq!(Game::new(4).help_rows(), (7, 13, 16));
}

#[test]
fn law_menu_rows_match_panel_on_every_level() {
    for lv in 1..=4u8 {
        let mut g = Game::new(lv);
        let (_, _, quit) = g.help_rows();
        let (x, _) = g.get_help_pos();
        let cmds: Vec<char> = (0..5).map(|k| g.which_cmd_clicked(x, quit + k)).collect();
        assert_eq!(cmds, vec!['Q', 'P', 'R', 'N', 'D']);
    }
}

#[test]
fn law_click_finds_cell_on_every_cell() {
    let mut g = Game::new(4);
    for r in 0..19u16 {
        for c in 0..26u16 {
            let (x, y) = Game::pos_from_index(c, r);
            for dx in [x - 1, x, x + 1] {
                assert_eq!(g.pos_to_index(y, dx), (r as i16, c as i16));
            }
            // the grid line left of the cell names no column
            assert_eq!(g.pos_to_index(y, x - 2).1, -1);
        }
    }
}

#[test]
fn timer_runs_pauses_and_stops() {
    let mut t = Timer::new();
    assert!(!t.is_running);
    assert_eq!(t.pause_duration, 0);
    t.start();
    assert!(t.is_running);
    assert_eq!(t.get_elapsed(), 0);
    t.pause();
    assert!(!t.is_running);
    assert_eq!(t.get_elapsed(), 0);
    t.resume();
    assert!(t.is_running);
    t.stop();
    assert!(!t.is_running);
    assert_eq!(t.pause_duration, 0);
    let d = Timer::default();
    assert!(!d.is_running);
    assert_eq!(TimerStatus::Start, TimerStatus::Start);
    assert_ne!(TimerStatus::Start, TimerStatus::Stop);
}

#[test]
fn timer_counts_pauses() {
    let mut t = Timer::new();
    t.add_pause(5);
    t.add_pause(7);
    assert_eq!(t.pause_duration, 12);
    assert_eq!(t.played_of(20), 8);
    assert_eq!(t.played_of(3), 0);
    t.add_pause(u64::MAX);
    assert_eq!(t.pause_duration, u64::MAX);
}

#[test]
fn game_status_values() {
    assert_ne!(GameStatus::Paused, GameStatus::Finished);
}

#[test]
fn timer_steps() {
    let mut t = Timer::new();
    // a stopped clock shows nothing
    assert!(!t.step(TimerStatus::NotStart));
    assert!(!t.step(TimerStatus::Start));
    assert!(t.is_running);
    assert!(!t.step(TimerStatus::Pause));
    assert!(!t.is_running);
    t.step(TimerStatus::Resume);
    assert!(t.is_running);
    assert!(!t.step(TimerStatus::Stop));
    assert!(!t.is_running);
    assert_eq!(t.pause_duration, 0);
    // an update is due after a full second while the clock runs
    let n = NANOS_PER_SEC;
    let mut t = Timer::new();
    assert!(!t.tick_at(5 * n));
    t.start_at(0);
    assert!(!t.tick_at(n - 1));
    assert!(t.tick_at(n));
    assert_eq!(t.last, n);
    assert!(t.tick_at(3 * n));
    assert_eq!(t.last, 2 * n);
    assert!(t.tick_at(3 * n));
    assert!(!t.tick_at(3 * n));
    assert_eq!(t.last, 3 * n);
}

#[test]
fn timer_steps_at_given_instants() {
    let n = NANOS_PER_SEC;
    let mut t = Timer::new();
    // started five seconds after it was made: the shown time catches up
    assert!(t.step_at(TimerStatus::Start, 5 * n));
    assert_eq!(t.start_time, 5 * n);
    assert_eq!(t.last, n);
    assert!(!t.step_at(TimerStatus::Pause, 6 * n));
    assert_eq!(t.pause_time, 6 * n);
    assert!(!t.is_running);
    assert!(t.step_at(TimerStatus::Resume, 8 * n + 1));
    assert_eq!(t.pause_duration, 2);
    assert_eq!(t.last, 2 * n);
    assert!(!t.step_at(TimerStatus::NotStart, 2 * n + 5));
    assert_eq!(t.last, 2 * n);
    assert!(!t.step_at(TimerStatus::Stop, 9 * n));
    assert_eq!(t.last, 9 * n);
    assert_eq!(t.pause_duration, 0);
    assert!(!t.is_running);
}

#[test]
fn timer_counts_time_less_pauses() {
    let n = NANOS_PER_SEC;
    let mut t = Timer::new();
    t.start_at(2 * n);
    assert_eq!(t.elapsed_at_time(7 * n + 500), 5);
    t.pause_at(10 * n);
    // while paused the count stands at the pause, whatever the clock says
    assert_eq!(t.elapsed_at_time(0), 8);
    assert_eq!(t.elapsed_at_time(100 * n), 8);
    assert_eq!(t.get_elapsed(), 8);
    // a pause of two and a half seconds counts two
    t.resume_at(12 * n + n / 2);
    assert_eq!(t.pause_duration, 2);
    assert!(t.is_running);
    assert_eq!(t.elapsed_at_time(20 * n), 16);
    t.stop_at(30 * n);
    assert!(!t.is_running);
    assert_eq!(t.start_time, 30 * n);
    assert_eq!(t.pause_time, 30 * n);
    assert_eq!(t.last, 30 * n);
    assert_eq!(t.get_elapsed(), 0);
    assert_eq!(Timer::secs_from(n, 2 * n), 0);
    assert_eq!(Timer::secs_from(3 * n - 1, 0), 2);
}

#[test]
fn law_pause_freezes_count_on_values() {
    let n = NANOS_PER_SEC;
    let mut t = Timer::new();
    t.start_at(0);
    let before = t.elapsed_at_time(5 * n + 7);
    assert_eq!(before, 5);
    t.pause_at(5 * n + 7);
    assert_eq!(t.elapsed_at_time(50 * n), before);
    assert_eq!(t.elapsed_at_time(0), before);
}

#[test]
fn law_pause_not_counted_on_values() {
    let n = NANOS_PER_SEC;
    let mut t = Timer::new();
    t.start_at(n);
    t.pause_at(4 * n);
    t.resume_at(7 * n + n / 2);
    assert_eq!(t.elapsed_at_time(10 * n), 9 - 3);
}
