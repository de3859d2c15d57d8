use vstd::prelude::*;
use crate::game::Game;

verus! {

broadcast use {vstd::string::axiom_spec_iter, vstd::string::next_postcondition};

/// The number of the letter `c` in the alphabet, from 0, upper or lower
/// case alike; -1 for any other character.
pub open spec fn letter_index(c: char) -> int {
    if 'A' <= c <= 'Z' {
        c as int - 'A' as int
    } else if 'a' <= c <= 'z' {
        c as int - 'a' as int
    } else {
        -1
    }
}

/// The index that letter `c` names among `n` rows or columns, or -1 when it
/// is no letter or names none of them.
pub open spec fn index_of_letter(c: char, n: int) -> int {
    if 0 <= letter_index(c) < n {
        letter_index(c)
    } else {
        -1
    }
}

/// The (row, column) that a typed command names: the first character names
/// the row and must be an upper-case letter, the second names the column.
pub open spec fn row_col_of(s: Seq<char>, rows: int, cols: int) -> (int, int) {
    if s.len() == 0 || !('A' <= s[0] <= 'Z') {
        (-1, -1)
    } else if s.len() == 1 {
        (index_of_letter(s[0], rows), -1)
    } else {
        (index_of_letter(s[0], rows), index_of_letter(s[1], cols))
    }
}

/// The board row under screen row `row` (from 1), or -1 on a line of the
/// grid or below the board; one row past the last still counts.
pub open spec fn row_at(row: u16, rows: usize) -> int {
    if (row - 1) / 2 > (rows as u16) || (row - 1) % 2 == 0 {
        -1
    } else {
        (row - 1) / 2
    }
}

/// The board column under screen column `col` (from 1), or -1 on a line of
/// the grid or right of the board; one column past the last still counts.
pub open spec fn col_at(col: u16, cols: usize) -> int {
    if (col - 1) / 4 > (cols as u16) || (col - 1) % 4 == 0 {
        -1
    } else {
        (col - 1) / 4
    }
}

/// The screen column where the side panel starts.
pub open spec fn panel_x(cols: int) -> u16 {
    (4 * cols + 6) as u16
}

/// The screen row of the first entry of the clickable command menu
/// (`!Q-Quit`), by difficulty.
pub open spec fn menu_y(level: u8) -> u16 {
    if level == 1 {
        12
    } else if level == 2 {
        14
    } else {
        16
    }
}

/// The command letters of the menu, from its first row down.
pub open spec fn menu_cmd(k: int) -> char {
    if k == 0 {
        'Q'
    } else if k == 1 {
        'P'
    } else if k == 2 {
        'R'
    } else if k == 3 {
        'N'
    } else if k == 4 {
        'D'
    } else {
        'X'
    }
}

/// The panel rows of `help_rows` for difficulty `level`: the list of
/// commands starts two rows below the help title at the two easier levels
/// and three rows below it at the others; the mouse hints, shown from the
/// second level on, and the clickable menu follow it.
pub open spec fn help_rows_of(level: u8) -> (u16, u16, u16) {
    if level <= 1 {
        (6, 11, 12)
    } else if level == 2 {
        (6, 11, 14)
    } else {
        (7, 13, 16)
    }
}

/// The index that letter `c` names among `n`, as `index_of_letter`.
fn letter_to_index(c: char, n: usize) -> (r: i16)
    ensures
        r == index_of_letter(c, n as int),
{
    let idx: u32 = if 'A' <= c && c <= 'Z' {
        (c as u32) - 65
    } else if 'a' <= c && c <= 'z' {
        (c as u32) - 97
    } else {
        return -1;
    };
    if idx as usize >= n {
        return -1;
    }
    idx as i16
}

impl Game {
    /// The row that letter `c` names, or -1.
    pub fn get_row_from_char(&self, c: &char) -> (r: i16)
        ensures
            r == index_of_letter(*c, self.level.rows as int),
    {
        letter_to_index(*c, self.level.rows)
    }

    /// The column that letter `c` names, or -1.
    pub fn get_col_from_char(&self, c: &char) -> (r: i16)
        ensures
            r == index_of_letter(*c, self.level.cols as int),
    {
        letter_to_index(*c, self.level.cols)
    }

    /// The (row, column) that the typed command `cmd` names, -1 for a part
    /// that names none (see `row_col_of`).
    pub fn get_row_col_from_str(&self, cmd: &String) -> (r: (i16, i16))
        ensures
            r.0 == row_col_of(cmd@, self.level.rows as int, self.level.cols as int).0,
            r.1 == row_col_of(cmd@, self.level.rows as int, self.level.cols as int).1,
    {
        let mut it = cmd.as_str().chars();
        let first = it.next();
        let c1 = match first {
            Some(c) => c,
            None => {
                return (-1, -1);
            },
        };
        if !('A' <= c1 && c1 <= 'Z') {
            return (-1, -1);
        }
        match it.next() {
            None => (self.get_row_from_char(&c1), -1),
            Some(c2) => (self.get_row_from_char(&c1), self.get_col_from_char(&c2)),
        }
    }

    /// Where the prompt for commands is shown, as (column, row): right of
    /// the board, below its last row.
    pub fn get_cmd_pos(&self) -> (p: (u16, u16))
        requires
            4 * self.level.cols + 6 <= usize::MAX,
            (self.level.rows + 1) * 2 <= usize::MAX,
        ensures
            p.0 == panel_x(self.level.cols as int),
            p.1 == ((self.level.rows + 1) * 2) as u16,
    {
        ((4 * self.level.cols + 6) as u16, ((self.level.rows + 1) * 2) as u16)
    }

    /// Where the help is shown, as (column, row).
    pub fn get_help_pos(&self) -> (p: (u16, u16))
        requires
            4 * self.level.cols + 6 <= usize::MAX,
        ensures
            p == (panel_x(self.level.cols as int), 4u16),
    {
        ((4 * self.level.cols + 6) as u16, 4)
    }

    /// Where the count of mines left is shown, as (column, row).
    pub fn get_stat_mine_pos(&self) -> (p: (u16, u16))
        requires
            4 * self.level.cols + 6 <= usize::MAX,
        ensures
            p == (panel_x(self.level.cols as int), 0u16),
    {
        ((4 * self.level.cols + 6) as u16, 0)
    }

    /// Where the time played is shown, as (column, row).
    pub fn get_stat_time_pos(&self) -> (p: (u16, u16))
        requires
            4 * self.level.cols + 6 <= usize::MAX,
        ensures
            p == (panel_x(self.level.cols as int), 1u16),
    {
        ((4 * self.level.cols + 6) as u16, 1)
    }

    /// The middle of the board on screen, as (column, row), where the end of
    /// a game is announced.
    pub fn get_table_mid_pos(&self) -> (p: (u16, u16))
        requires
            4 * self.level.cols + 3 <= usize::MAX,
        ensures
            p == (((4 * self.level.cols + 3) / 2) as u16, self.level.rows as u16),
    {
        (((4 * self.level.cols + 3) / 2) as u16, (self.level.rows) as u16)
    }

    /// The screen position, as (column, row), of the cell in column `col`,
    /// row `row`: four screen columns and two screen rows per cell.
    pub fn pos_from_index(col: u16, row: u16) -> (p: (u16, u16))
        requires
            3 + 4 * col <= u16::MAX,
            2 + row * 2 <= u16::MAX,
        ensures
            p == ((3 + 4 * col) as u16, (2 + row * 2) as u16),
    {
        ((3 + 4 * col), (2 + row * 2))
    }

    /// The cell under the screen position in column `col`, row `row`, as
    /// (row, column), -1 for a part that falls on a line of the grid or
    /// beyond the board. A row one past the last still counts as a row.
    pub fn pos_to_index(&mut self, row: u16, col: u16) -> (r: (i16, i16))
        requires
            row >= 1,
            col >= 1,
        ensures
            *final(self) == *old(self),
            r.0 == row_at(row, old(self).level.rows),
            r.1 == col_at(col, old(self).level.cols),
    {
        let y = (row - 1) / 2;
        let x = (col - 1) / 4;
        // a remainder of zero means the position is on a line of the grid
        let y_re = (row - 1) % 2;
        let x_re = (col - 1) % 4;

        let y_ = if y > self.level.rows as u16 || y_re == 0 {
            -1
        } else {
            y as i16
        };
        let x_ = if x > self.level.cols as u16 || x_re == 0 {
            -1
        } else {
            x as i16
        };
        (y_, x_)
    }

    /// The command of the clickable menu under the screen position in
    /// column `col`, row `row`, or 'X' where there is none.
    pub fn which_cmd_clicked(&mut self, col: u16, row: u16) -> (c: char)
        requires
            panel_x(old(self).level.cols as int) + 18 <= u16::MAX,
            4 * old(self).level.cols + 6 <= usize::MAX,
            panel_x(old(self).level.cols as int) <= col <= panel_x(old(self).level.cols as int) + 18
                ==> row >= menu_y(old(self).level.level),
        ensures
            *final(self) == *old(self),
            c == if panel_x(old(self).level.cols as int) <= col <= panel_x(old(self).level.cols as int)
                + 18 {
                menu_cmd(row - menu_y(old(self).level.level))
            } else {
                'X'
            },
    {
        let x_left = (4 * self.level.cols + 6) as u16;
        let x_right: u16 = x_left + 18;
        // the row of the Quit entry
        let y_quit: u16 = match self.level.level {
            1 => 12,
            2 => 14,
            _ => 16,
        };
        if !(col >= x_left && col <= x_right) {
            return 'X';
        }
        match row - y_quit {
            0 => 'Q',
            1 => 'P',
            2 => 'R',
            3 => 'N',
            4 => 'D',
            _ => 'X',
        }
    }

    /// The rows of the side panel that change with the difficulty, as
    /// (title of the command list, first row of the mouse hints, first row
    /// of the clickable menu).
    pub fn help_rows(&self) -> (r: (u16, u16, u16))
        ensures
            r == help_rows_of(self.level.level),
    {
        let y3: u16 = 4;
        let mut y3_ = y3 + 3;
        if self.level.level <= 2 {
            y3_ = y3 + 2;
        }
        let title = y3_;
        if self.level.level > 1 {
            if self.level.level > 2 {
                y3_ = y3_ + 1;
            }
            let mouse = y3_ + 5;
            y3_ = y3_ + 2;
            return (title, mouse, y3_ + 6);
        }
        (title, y3_ + 5, y3_ + 6)
    }
}

} // verus!
