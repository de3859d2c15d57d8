use vstd::prelude::*;

verus! {

/// A difficulty level and the size of the board and of the screen it asks for.
#[derive(Clone, Copy, Debug, PartialEq, Eq, Structural)]
pub struct Level {
    /// The difficulty, 1 (beginner) to 4 (advanced).
    pub level: u8,
    /// Rows of the board.
    pub rows: usize,
    /// Columns of the board.
    pub cols: usize,
    /// Mines laid on the board.
    pub mines: i16,
    /// Screen width the board and its side panel need.
    pub width: u16,
    /// Screen height the board needs.
    pub height: u16,
}

/// Columns kept right of the board for the side panel.
pub const WIDTH_OFFSET: u16 = 24;

/// Rows kept below the board.
pub const HEIGHT_OFFSET: u16 = 4;

/// The level of a difficulty: rows, columns and mines per difficulty, and
/// the screen size, four columns per board column plus the frame and the side
/// panel, two rows per board row plus the margins. An unknown difficulty is
/// the beginner's.
pub open spec fn level_of(lv: u8) -> Level {
    let (level, rows, cols, mines) = if lv == 2 {
        (2u8, 9usize, 14usize, 15i16)
    } else if lv == 3 {
        (3u8, 15usize, 20usize, 40i16)
    } else if lv == 4 {
        (4u8, 19usize, 26usize, 99i16)
    } else {
        (1u8, 8usize, 10usize, 7i16)
    };
    Level {
        level,
        rows,
        cols,
        mines,
        width: (cols * 4 + 3 + WIDTH_OFFSET) as u16,
        height: (rows * 2 + HEIGHT_OFFSET) as u16,
    }
}

/// Every level has a board of at most 19 rows and 26 columns, and fewer
/// mines than cells.
pub proof fn lemma_level_sizes(lv: u8)
    ensures
        1 <= level_of(lv).rows <= 19,
        1 <= level_of(lv).cols <= 26,
        level_of(lv).rows * level_of(lv).cols <= 494,
        0 < level_of(lv).mines < level_of(lv).rows * level_of(lv).cols,
        1 <= level_of(lv).level <= 4,
{
    if lv == 2 {
        assert(level_of(lv).rows * level_of(lv).cols == 9 * 14);
    } else if lv == 3 {
        assert(level_of(lv).rows * level_of(lv).cols == 15 * 20);
    } else if lv == 4 {
        assert(level_of(lv).rows * level_of(lv).cols == 19 * 26);
    } else {
        assert(level_of(lv).rows * level_of(lv).cols == 8 * 10);
    }
}

impl Level {
    /// The level of difficulty `level`. Difficulty 0 means that the player
    /// picks one; that choice is made by the caller, who passes it here.
    pub fn new(level: u8) -> (lv: Level)
        requires
            level != 0,
        ensures
            lv == level_of(level),
    {
        let width_offset: u16 = WIDTH_OFFSET;
        let height_offset: u16 = HEIGHT_OFFSET;
        match level {
            2 => Level {
                level,
                rows: 9,
                cols: 14,
                mines: 15,
                width: 14 * 4 + 3 + width_offset,
                height: 9 * 2 + height_offset,
            },
            3 => Level {
                level,
                rows: 15,
                cols: 20,
                mines: 40,
                width: 20 * 4 + 3 + width_offset,
                height: 15 * 2 + height_offset,
            },
            4 => Level {
                level,
                rows: 19,
                cols: 26,
                mines: 99,
                width: 26 * 4 + 3 + width_offset,
                height: 19 * 2 + height_offset,
            },
            _ => Level {
                level: 1,
                rows: 8,
                cols: 10,
                mines: 7,
                width: 10 * 4 + 3 + width_offset,
                height: 8 * 2 + height_offset,
            },
        }
    }
}


/// Whether `c` is white space: the characters of the Unicode property
/// White_Space, as `char::is_whitespace` has them.
pub open spec fn is_white(c: char) -> bool {
    let u = c as int;
    ||| 0x9 <= u <= 0xd
    ||| u == 0x20
    ||| u == 0x85
    ||| u == 0xa0
    ||| u == 0x1680
    ||| 0x2000 <= u <= 0x200a
    ||| u == 0x2028
    ||| u == 0x2029
    ||| u == 0x202f
    ||| u == 0x205f
    ||| u == 0x3000
}

/// `s` without the white space it begins with.
pub open spec fn trim_start(s: Seq<char>) -> Seq<char>
    decreases s.len(),
{
    if s.len() > 0 && is_white(s[0]) {
        trim_start(s.drop_first())
    } else {
        s
    }
}

/// `s` without the white space it ends with.
pub open spec fn trim_end(s: Seq<char>) -> Seq<char>
    decreases s.len(),
{
    if s.len() > 0 && is_white(s.last()) {
        trim_end(s.drop_last())
    } else {
        s
    }
}

/// `s` without its leading and trailing white space.
pub open spec fn trimmed(s: Seq<char>) -> Seq<char> {
    trim_end(trim_start(s))
}

/// Whether `c` is one of the ASCII digits `0` to `9`.
pub open spec fn is_digit(c: char) -> bool {
    '0' as int <= c as int <= '9' as int
}

/// The number that the decimal digits `s` write.
pub open spec fn digits_value(s: Seq<char>) -> int
    decreases s.len(),
{
    if s.len() == 0 {
        0
    } else {
        digits_value(s.drop_last()) * 10 + (s.last() as int - '0' as int)
    }
}

/// The number that `s` writes in decimal, with an optional sign `+` or `-`
/// before at least one digit and nothing else, where it lies in the range of
/// an `i16`; `None` for any other text.
pub open spec fn decimal_i16(s: Seq<char>) -> Option<i16> {
    let signed = s.len() > 0 && (s[0] == '-' || s[0] == '+');
    let d = if signed { s.drop_first() } else { s };
    let v = if signed && s[0] == '-' { -digits_value(d) } else { digits_value(d) };
    if d.len() > 0 && (forall|i: int| 0 <= i < d.len() ==> #[trigger] is_digit(d[i])) && i16::MIN <= v
        <= i16::MAX {
        Some(v as i16)
    } else {
        None
    }
}

/// `str::trim`: the text without its leading and trailing white space, as
/// the Unicode property White_Space has it.
#[verifier::external_body]
fn trim_line(s: &str) -> (r: &str)
    ensures
        r@ == trimmed(s@),
{
    s.trim()
}

/// `str::parse::<i16>`, its error taken as `None`: the number written in
/// decimal with an optional sign, where it fits an `i16`.
#[verifier::external_body]
fn parse_i16(s: &str) -> (r: Option<i16>)
    ensures
        r == decimal_i16(s@),
{
    s.parse::<i16>().ok()
}

/// What the player chose when asked for a difficulty.
#[derive(Clone, Copy, Debug, PartialEq, Eq, Structural)]
pub enum LevelChoice {
    /// A difficulty, 1 to 4.
    Level(u8),
    /// 0: leave the program.
    Quit,
    /// A number outside 0 to 4: ask again.
    OutOfRange,
    /// No number: say so and ask again.
    Unreadable,
}

/// The choice that the number read, if any, makes.
pub open spec fn choice_of(n: Option<i16>) -> LevelChoice {
    match n {
        None => LevelChoice::Unreadable,
        Some(v) => if v == 0 {
            LevelChoice::Quit
        } else if 1 <= v <= 4 {
            LevelChoice::Level(v as u8)
        } else {
            LevelChoice::OutOfRange
        },
    }
}

/// The choice that the number read, if any, makes (see `choice_of`).
pub fn level_choice_of(n: Option<i16>) -> (c: LevelChoice)
    ensures
        c == choice_of(n),
{
    match n {
        None => LevelChoice::Unreadable,
        Some(v) => {
            if v == 0 {
                LevelChoice::Quit
            } else if 1 <= v && v <= 4 {
                LevelChoice::Level(v as u8)
            } else {
                LevelChoice::OutOfRange
            }
        },
    }
}

/// The choice that a line typed by the player makes: the number on it,
/// white space around it left out.
pub fn read_level_choice(line: &String) -> (c: LevelChoice)
    ensures
        c == choice_of(decimal_i16(trimmed(line@))),
{
    let t = trim_line(line.as_str());
    level_choice_of(parse_i16(t))
}

} // verus!
