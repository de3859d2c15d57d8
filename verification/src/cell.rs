use vstd::prelude::*;

verus! {

/// What the player knows of a cell.
#[derive(Clone, Copy, Debug, PartialEq, Eq, Structural)]
pub enum Status {
    /// Dug open.
    Opened,
    /// Marked as a mine.
    Flaged,
    /// Not explored yet.
    Unexplored,
    /// Marked with a question mark.
    Pending,
}

/// One cell of the mine field.
#[derive(Clone, Copy, Debug, PartialEq, Eq, Structural)]
pub struct Cell {
    /// Whether the cell holds a mine.
    pub is_mine: bool,
    /// How many of the surrounding cells hold a mine.
    pub surrnd_mines: i8,
    /// What the player knows of the cell.
    pub status: Status,
}

/// How a cell is drawn on the board.
#[derive(Clone, Copy, Debug, PartialEq, Eq, Structural)]
pub enum CellLook {
    /// Opened, no mine and no mine around: an empty shaded box.
    Clear,
    /// Opened, no mine, with this many mines around.
    Count(i8),
    /// Opened, no mine, with a count below zero: nothing is drawn.
    Nothing,
    /// Opened and holding a mine.
    Mine,
    /// Flagged as a mine.
    Flag,
    /// Marked with a question mark.
    Question,
    /// Not explored: blank.
    Hidden,
}

impl Cell {
    /// The cell of a fresh board: no mine, no count, not explored.
    pub open spec fn fresh() -> Cell {
        Cell { is_mine: false, surrnd_mines: 0, status: Status::Unexplored }
    }

    pub fn new() -> (c: Cell)
        ensures
            c == Cell::fresh(),
    {
        Cell { is_mine: false, surrnd_mines: 0, status: Status::Unexplored }
    }

    /// Puts the cell back in the state of a fresh board.
    pub fn reset(&mut self)
        ensures
            *final(self) == Cell::fresh(),
    {
        self.is_mine = false;
        self.surrnd_mines = 0;
        self.status = Status::Unexplored;
    }

    /// How the cell is drawn.
    pub open spec fn spec_look(self) -> CellLook {
        match self.status {
            Status::Opened => if self.is_mine {
                CellLook::Mine
            } else if self.surrnd_mines == 0 {
                CellLook::Clear
            } else if self.surrnd_mines > 0 {
                CellLook::Count(self.surrnd_mines)
            } else {
                CellLook::Nothing
            },
            Status::Flaged => CellLook::Flag,
            Status::Pending => CellLook::Question,
            Status::Unexplored => CellLook::Hidden,
        }
    }

    /// After a loss, the cell is shown as a mine: it holds one, is not
    /// opened, and is not rightly flagged.
    pub fn shown_as_mine(&self) -> (b: bool)
        ensures
            b == (self.is_mine && self.status != Status::Opened && self.status != Status::Flaged),
    {
        if self.status == Status::Opened || (self.status == Status::Flaged && self.is_mine) {
            return false;
        }
        self.is_mine
    }

    /// The cell is flagged but holds no mine.
    pub fn wrongly_flagged(&self) -> (b: bool)
        ensures
            b == (self.status == Status::Flaged && !self.is_mine),
    {
        self.status == Status::Flaged && !self.is_mine
    }

    /// How the cell is drawn, plain or highlighted.
    pub fn look(&self) -> (l: CellLook)
        ensures
            l == self.spec_look(),
    {
        match self.status {
            Status::Opened => {
                if self.is_mine {
                    CellLook::Mine
                } else if self.surrnd_mines == 0 {
                    CellLook::Clear
                } else if self.surrnd_mines > 0 {
                    CellLook::Count(self.surrnd_mines)
                } else {
                    CellLook::Nothing
                }
            },
            Status::Flaged => CellLook::Flag,
            Status::Pending => CellLook::Question,
            Status::Unexplored => CellLook::Hidden,
        }
    }
}

} // verus!
