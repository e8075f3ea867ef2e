//! What the screen shows, decided as plain values.
//!
//! Drawing is left to the program around the library. What is drawn is
//! decided here: the symbol and color of each cell, the numbers of the header,
//! the message of the overlay, and how a centered box divides its area.

use vstd::prelude::*;
use crate::app::Status;
use crate::board::{Board, CellState};

verus! {

/// The colors that the board is drawn in.
#[derive(Debug, Clone, Copy, PartialEq, Eq, Structural)]
pub enum Tint {
    DarkGray,
    Gray,
    Red,
    Blue,
    Green,
    Magenta,
    LightRed,
    Cyan,
    Yellow,
    LightMagenta,
}

/// How one cell is drawn.
#[derive(Debug, Clone, PartialEq, Eq)]
pub struct Glyph {
    /// The characters that stand for the cell.
    pub symbol: Vec<char>,
    /// The color of the symbol.
    pub tint: Tint,
    /// Whether the symbol is drawn bold.
    pub bold: bool,
    /// Whether the cell is set off as the one under the cursor.
    pub highlight: bool,
}

/// The decimal digit `d` as a character.
pub open spec fn digit(d: int) -> char {
    ((48 + d) as u8) as char
}

/// The number `n` in decimal digits.
pub open spec fn decimal(n: u8) -> Seq<char> {
    if n < 10 {
        seq![digit(n as int)]
    } else if n < 100 {
        seq![digit(n as int / 10), digit(n as int % 10)]
    } else {
        seq![digit(n as int / 100), digit((n as int / 10) % 10), digit(n as int % 10)]
    }
}

/// The symbol of a cell: a filled square if hidden, a flag if flagged, a
/// centered dot if revealed with no mine around, else its number.
pub open spec fn symbol_of(cell: CellState) -> Seq<char> {
    match cell {
        CellState::Hidden => seq!['\u{25A0}'],
        CellState::Flagged => seq!['\u{2691}'],
        CellState::Revealed(n) => if n == 0 {
            seq!['\u{00B7}']
        } else {
            decimal(n)
        },
    }
}

/// The color of a cell: dark gray if hidden, red if flagged, gray for a zero,
/// and one color for each number; numbers from eight on share the last.
pub open spec fn tint_of(cell: CellState) -> Tint {
    match cell {
        CellState::Hidden => Tint::DarkGray,
        CellState::Flagged => Tint::Red,
        CellState::Revealed(n) => if n == 0 {
            Tint::Gray
        } else if n == 1 {
            Tint::Blue
        } else if n == 2 {
            Tint::Green
        } else if n == 3 {
            Tint::Red
        } else if n == 4 {
            Tint::Magenta
        } else if n == 5 {
            Tint::LightRed
        } else if n == 6 {
            Tint::Cyan
        } else if n == 7 {
            Tint::Yellow
        } else {
            Tint::LightMagenta
        },
    }
}

/// Whether a cell's symbol is bold: the numbers above zero are.
pub open spec fn bold_of(cell: CellState) -> bool {
    cell matches CellState::Revealed(n) && n > 0
}

/// The digits of `n`.
fn decimal_digits(n: u8) -> (out: Vec<char>)
    ensures
        out@ == decimal(n),
{
    let mut out: Vec<char> = Vec::new();
    if n >= 100 {
        out.push((48u8 + n / 100) as char);
    }
    if n >= 10 {
        out.push((48u8 + (n / 10) % 10) as char);
    }
    out.push((48u8 + n % 10) as char);
    assert(out@ =~= decimal(n));
    out
}

/// Map a cell to its symbol and color. The cell is not highlighted.
pub fn cell_symbol_and_style(cell: CellState) -> (g: Glyph)
    ensures
        g.symbol@ == symbol_of(cell),
        g.tint == tint_of(cell),
        g.bold == bold_of(cell),
        !g.highlight,
{
    match cell {
        CellState::Hidden => Glyph {
            symbol: vec!['\u{25A0}'],
            tint: Tint::DarkGray,
            bold: false,
            highlight: false,
        },
        CellState::Flagged => Glyph {
            symbol: vec!['\u{2691}'],
            tint: Tint::Red,
            bold: false,
            highlight: false,
        },
        CellState::Revealed(n) => {
            if n == 0 {
                Glyph { symbol: vec!['\u{00B7}'], tint: Tint::Gray, bold: false, highlight: false }
            } else {
                let tint = if n == 1 {
                    Tint::Blue
                } else if n == 2 {
                    Tint::Green
                } else if n == 3 {
                    Tint::Red
                } else if n == 4 {
                    Tint::Magenta
                } else if n == 5 {
                    Tint::LightRed
                } else if n == 6 {
                    Tint::Cyan
                } else if n == 7 {
                    Tint::Yellow
                } else {
                    Tint::LightMagenta
                };
                Glyph { symbol: decimal_digits(n), tint, bold: true, highlight: false }
            }
        },
    }
}

/// The glyphs of the whole board, row by row; the cell under the cursor, if
/// there is one, is highlighted.
pub fn board_glyphs(board: &Board, cursor: Option<(usize, usize)>) -> (rows: Vec<Vec<Glyph>>)
    requires
        board.wf(),
    ensures
        rows@.len() == board@.height,
        forall|y: int| 0 <= y < board@.height ==> (#[trigger] rows@[y])@.len() == board@.width,
        forall|x: int, y: int|
            board@.in_bounds(x, y) ==> {
                let g = #[trigger] rows@[y]@[x];
                &&& g.symbol@ == symbol_of(board@.cell(x, y))
                &&& g.tint == tint_of(board@.cell(x, y))
                &&& g.bold == bold_of(board@.cell(x, y))
                &&& g.highlight == (cursor == Some((x as usize, y as usize)))
            },
{
    let width = board.width();
    let height = board.height();
    let mut rows: Vec<Vec<Glyph>> = Vec::new();
    let mut y: usize = 0;
    while y < height
        invariant
            board.wf(),
            width == board@.width,
            height == board@.height,
            y <= height,
            rows@.len() == y,
            forall|r: int| 0 <= r < y ==> (#[trigger] rows@[r])@.len() == width,
            forall|c: int, r: int|
                0 <= c < width && 0 <= r < y ==> {
                    let g = #[trigger] rows@[r]@[c];
                    &&& g.symbol@ == symbol_of(board@.cell(c, r))
                    &&& g.tint == tint_of(board@.cell(c, r))
                    &&& g.bold == bold_of(board@.cell(c, r))
                    &&& g.highlight == (cursor == Some((c as usize, r as usize)))
                },
        decreases height - y,
    {
        let mut row: Vec<Glyph> = Vec::new();
        let mut x: usize = 0;
        while x < width
            invariant
                board.wf(),
                width == board@.width,
                height == board@.height,
                y < height,
                x <= width,
                row@.len() == x,
                forall|c: int|
                    0 <= c < x ==> {
                        let g = #[trigger] row@[c];
                        &&& g.symbol@ == symbol_of(board@.cell(c, y as int))
                        &&& g.tint == tint_of(board@.cell(c, y as int))
                        &&& g.bold == bold_of(board@.cell(c, y as int))
                        &&& g.highlight == (cursor == Some((c as usize, y)))
                    },
            decreases width - x,
        {
            let mut g = cell_symbol_and_style(board.cell_at(x, y));
            if let Some((cx, cy)) = cursor {
                if cx == x && cy == y {
                    g.highlight = true;
                }
            }
            row.push(g);
            x += 1;
        }
        rows.push(row);
        y += 1;
    }
    rows
}

/// The number of mines not yet flagged, as the header shows it: never below
/// zero, however many flags are set.
pub fn mines_left(mines_total: usize, flags: usize) -> (left: usize)
    ensures
        left == if flags <= mines_total {
            mines_total - flags
        } else {
            0
        },
{
    mines_total.saturating_sub(flags)
}

/// The elapsed time as minutes and seconds, as the header shows it.
pub fn clock_face(elapsed_secs: u64) -> (face: (u64, u64))
    ensures
        face.0 == elapsed_secs / 60,
        face.1 == elapsed_secs % 60,
        face.0 * 60 + face.1 == elapsed_secs,
{
    (elapsed_secs / 60, elapsed_secs % 60)
}

/// The message that the overlay shows for a status, if it shows one.
pub open spec fn overlay_text(status: Status) -> Option<&'static str> {
    match status {
        Status::Win => Some("You win! Press R to restart or D to change difficulty"),
        Status::Lose => Some("Boom! You lost. Press R to restart or D to change difficulty"),
        Status::Playing => None,
    }
}

/// The message of the overlay that ends a game; none while the game goes on.
pub fn overlay_message(status: Status) -> (message: Option<&'static str>)
    ensures
        message == overlay_text(status),
{
    match status {
        Status::Win => Some("You win! Press R to restart or D to change difficulty"),
        Status::Lose => Some("Boom! You lost. Press R to restart or D to change difficulty"),
        Status::Playing => None,
    }
}

/// The three percentages into which a box that takes `percent` of a length,
/// centered, divides that length: the margin before it, the box, and the
/// margin after it. The margins are equal and rounded down.
pub fn centered_percentages(percent: u16) -> (parts: (u16, u16, u16))
    requires
        percent <= 100,
    ensures
        parts.0 == (100 - percent) / 2,
        parts.1 == percent,
        parts.2 == (100 - percent) / 2,
        parts.0 + parts.1 + parts.2 <= 100,
{
    ((100 - percent) / 2, percent, (100 - percent) / 2)
}

} // verus!
