//! What the `otp` subcommands print: the time bar beside a code, and key
//! URIs as QR codes drawn with block characters.
use crate::error::PassrsError;
use crate::style::{bold, fg_green, fg_red, no_bold, reset};
use crate::text::{decimal, format_decimal, push_str};
use vstd::prelude::*;

verus! {

/// `n` copies of the character `c`.
pub open spec fn repeated(c: char, n: nat) -> Seq<char> {
    Seq::new(n, |_i: int| c)
}

fn push_repeated(s: &mut String, c: char, n: u64)
    ensures
        final(s)@ == old(s)@ + repeated(c, n as nat),
{
    let ghost start = s@;
    let mut i: u64 = 0;
    while i < n
        invariant
            i <= n,
            s@ == start + repeated(c, i as nat),
        decreases n - i,
    {
        s.push(c);
        assert(start + repeated(c, i as nat).push(c) =~= start + repeated(c, (i + 1) as nat));
        i += 1;
    }
}

/// The line that shows a TOTP code `code` with a bar of the time left: at
/// clock reading `now` (seconds), a code of period `period` lasts `d` more
/// seconds; the bar has a red dash for each second gone plus one, a green
/// `<`, and a green `=` for each second left but one (a fresh code: a bold
/// `<` and 29 `=`).
pub open spec fn code_bar_spec(code: Seq<char>, period: u64, now: u64) -> Seq<char> {
    let duration = period - now % period;
    let elapsed = period - duration;
    let remaining = duration % (period as int);
    let head = code + " lasts "@ + decimal(duration as nat) + "s      |"@;
    if elapsed == 0 {
        head + "\u{1b}[38;5;2m"@ + "\u{1b}[1m"@ + "<"@ + "\u{1b}[21m"@ + repeated('=', 29) + "\u{1b}[m"@ + "|"@
    } else {
        head + "\u{1b}[38;5;1m"@ + repeated('-', (elapsed + 1) as nat) + "\u{1b}[38;5;2m"@ + "\u{1b}[1m"@
            + "<"@ + "\u{1b}[m"@ + "\u{1b}[38;5;2m"@ + repeated('=', (remaining - 1) as nat) + "\u{1b}[m"@
            + "|"@
    }
}

/// The line that shows `code` with the time it has left, for a code of
/// `period` seconds at clock reading `now`.
pub fn code_bar(code: &str, period: u64, now: u64) -> (r: String)
    requires
        period > 0,
    ensures
        r@ == code_bar_spec(code@, period, now),
{
    let duration = period - now % period;
    let elapsed = period - duration;
    let remaining = duration % period;
    let mut m = code.to_owned();
    push_str(&mut m, " lasts ");
    let d = format_decimal(duration);
    push_str(&mut m, d.as_str());
    push_str(&mut m, "s      |");
    let green = fg_green();
    let z = reset();
    if elapsed == 0 {
        push_str(&mut m, green.as_str());
        let b = bold();
        push_str(&mut m, b.as_str());
        push_str(&mut m, "<");
        let nb = no_bold();
        push_str(&mut m, nb.as_str());
        push_repeated(&mut m, '=', 29);
        push_str(&mut m, z.as_str());
        push_str(&mut m, "|");
    } else {
        assert(remaining == duration && remaining >= 1) by {
            vstd::arithmetic::div_mod::lemma_small_mod(duration as nat, period as nat);
        }
        let red = fg_red();
        push_str(&mut m, red.as_str());
        push_repeated(&mut m, '-', elapsed + 1);
        push_str(&mut m, green.as_str());
        let b = bold();
        push_str(&mut m, b.as_str());
        push_str(&mut m, "<");
        push_str(&mut m, z.as_str());
        push_str(&mut m, green.as_str());
        push_repeated(&mut m, '=', remaining - 1);
        push_str(&mut m, z.as_str());
        push_str(&mut m, "|");
    }
    m
}

/// One character cell of a QR code drawn in the terminal: a character with a
/// foreground and a background colour (SGR numbers).
#[derive(Debug, Clone, Copy, PartialEq, Eq, Structural)]
pub struct Cell {
    pub ch: char,
    pub fg: u8,
    pub bg: u8,
}

/// The text that writes a cell: its colours, its character, then a reset.
pub open spec fn cell_text(c: Cell) -> Seq<char> {
    "\u{1b}["@ + decimal(c.fg as nat) + ";"@ + decimal(c.bg as nat) + "m"@ + seq![c.ch] + "\u{1b}[0;0m"@
}

/// The text that writes a row of cells: the texts of its cells, in order.
pub open spec fn row_text(row: Seq<Cell>) -> Seq<char>
    decreases row.len(),
{
    if row.len() == 0 {
        Seq::empty()
    } else {
        row_text(row.drop_last()) + cell_text(row.last())
    }
}

impl Cell {
    /// A blank cell: a space in black on white.
    pub fn blank() -> (c: Cell)
        ensures
            c == (Cell { ch: ' ', fg: 30, bg: 47 }),
    {
        Cell { ch: ' ', fg: 30, bg: 47 }
    }

    /// How the cell is written to the terminal.
    pub fn render(&self) -> (r: String)
        ensures
            r@ == cell_text(*self),
    {
        let mut m = "\u{1b}[".to_owned();
        let f = format_decimal(self.fg as u64);
        push_str(&mut m, f.as_str());
        push_str(&mut m, ";");
        let b = format_decimal(self.bg as u64);
        push_str(&mut m, b.as_str());
        push_str(&mut m, "m");
        m.push(self.ch);
        push_str(&mut m, "\u{1b}[0;0m");
        m
    }
}

/// The colours of a module: (foreground, background) for a dark one and a
/// light one.
pub open spec fn module_colors(dark: bool) -> (u8, u8) {
    if dark {
        (30, 40)
    } else {
        (37, 47)
    }
}

/// The grid of cells that draws a QR code of `width` modules a side (its
/// modules row by row in `dark`): a border of blank cells, and one cell for
/// two rows of modules, a lower half block coloured by the lower module with
/// the upper module's colour in front.
pub open spec fn qr_cell(width: nat, dark: Seq<bool>, row: int, col: int) -> Cell {
    let x = col - 1;
    let top = 2 * (row - 1);
    if 1 <= row && 0 <= x < width && 0 <= top < width && top * width + x < dark.len() {
        let bottom_i = top * width + x;
        let fg_even = if width % 2 == 0 {
            module_colors(dark[bottom_i]).0
        } else {
            37u8
        };
        let fg = if top + 1 < width && (top + 1) * width + x < dark.len() {
            module_colors(dark[(top + 1) * width + x]).0
        } else {
            fg_even
        };
        Cell { ch: '\u{2584}', fg, bg: module_colors(dark[bottom_i]).1 }
    } else {
        Cell { ch: ' ', fg: 30, bg: 47 }
    }
}

/// The grid that draws a QR code of `width` modules a side, whose modules,
/// row by row, are dark where `dark` holds.
pub fn qr_grid(width: usize, dark: &Vec<bool>) -> (rows: Vec<Vec<Cell>>)
    requires
        dark@.len() == width * width,
    ensures
        rows@.len() == width / 2 + 2,
        forall|r: int| 0 <= r < rows@.len() ==> (#[trigger] rows@[r])@.len() == width + 2,
        forall|r: int, c: int|
            0 <= r < rows@.len() && 0 <= c < width + 2 ==> (#[trigger] rows@[r]@[c]) == qr_cell(
                width as nat,
                dark@,
                r,
                c,
            ),
{
    let n = dark.len();
    assert(width + 2 <= usize::MAX) by (nonlinear_arith)
        requires
            width * width == n,
            n <= usize::MAX,
            usize::MAX >= 0xffff_ffff,
    ;
    let n_rows = width / 2 + 2;
    let mut rows: Vec<Vec<Cell>> = Vec::new();
    let mut r: usize = 0;
    while r < n_rows
        invariant
            r <= n_rows == width / 2 + 2,
            dark@.len() == width * width,
            width * width <= usize::MAX,
            width + 2 <= usize::MAX,
            rows@.len() == r,
            forall|k: int| 0 <= k < r ==> (#[trigger] rows@[k])@.len() == width + 2,
            forall|k: int, c: int|
                0 <= k < r && 0 <= c < width + 2 ==> (#[trigger] rows@[k]@[c]) == qr_cell(
                    width as nat,
                    dark@,
                    k,
                    c,
                ),
        decreases n_rows - r,
    {
        let mut row: Vec<Cell> = Vec::new();
        let mut c: usize = 0;
        while c < width + 2
            invariant
                c <= width + 2,
                r < n_rows == width / 2 + 2,
                dark@.len() == width * width,
                width * width <= usize::MAX,
                width + 2 <= usize::MAX,
                row@.len() == c,
                forall|k: int| 0 <= k < c ==> row@[k] == qr_cell(width as nat, dark@, r as int, k),
            decreases width + 2 - c,
        {
            let mut cell = Cell::blank();
            if r >= 1 && c >= 1 && c - 1 < width && 2 * (r - 1) < width {
                let x = c - 1;
                let top = 2 * (r - 1);
                proof {
                    assert(top * width + x < width * width) by (nonlinear_arith)
                        requires
                            top < width,
                            x < width,
                    ;
                    assert(top * width <= top * width + x);
                }
                let bottom = dark[top * width + x];
                let colors: (u8, u8) = if bottom {
                    (30, 40)
                } else {
                    (37, 47)
                };
                let mut fg: u8 = if width % 2 == 0 {
                    colors.0
                } else {
                    37
                };
                if top + 1 < width {
                    proof {
                        assert((top + 1) * width + x < width * width) by (nonlinear_arith)
                            requires
                                top + 1 < width,
                                x < width,
                        ;
                    }
                    fg = if dark[(top + 1) * width + x] {
                        30
                    } else {
                        37
                    };
                }
                cell = Cell { ch: '\u{2584}', fg, bg: colors.1 };
            }
            row.push(cell);
            c += 1;
        }
        rows.push(row);
        r += 1;
    }
    rows
}

/// Encodes `data` as a QR code (`qrcode::QrCode::new`, error correction level
/// M), giving its width and its modules row by row (dark or light); or the
/// text of the error where the data does not fit.
pub uninterp spec fn qr_code_of(data: Seq<u8>) -> Result<(usize, Seq<bool>), Seq<char>>;

/// Calls `qrcode::QrCode::new` on `data` and reads its width and modules.
/// Trusted: the result is `qr_code_of(data)`, and a code of width `w` has
/// `w * w` modules (its canvas is square).
#[verifier::external_body]
fn qr_encode(data: &[u8]) -> (r: Result<(usize, Vec<bool>), String>)
    ensures
        match r {
            Ok(q) => qr_code_of(data@) == Ok::<(usize, Seq<bool>), Seq<char>>((q.0, q.1@)) && q.1@.len()
                == q.0 * q.0,
            Err(e) => qr_code_of(data@) == Err::<(usize, Seq<bool>), Seq<char>>(e@),
        },
{
    match qrcode::QrCode::new(data) {
        Ok(code) => Ok((
            code.width(),
            code.to_colors().into_iter().map(|c| c == qrcode::Color::Dark).collect(),
        )),
        Err(e) => Err(format!("{}", e)),
    }
}

/// The grid that draws `data` as a QR code, or the error of encoding it.
pub fn qr_rows(data: &[u8]) -> (r: Result<Vec<Vec<Cell>>, PassrsError>)
    ensures
        qr_code_of(data@) matches Err(e) ==> (r matches Err(PassrsError::Plain(m)) && m@ == e),
        qr_code_of(data@) matches Ok(q) ==> (r matches Ok(rows) && rows@.len() == q.0 / 2 + 2 && forall|
            i: int,
            c: int,
        |
            0 <= i < rows@.len() && 0 <= c < q.0 + 2 ==> c < rows@[i]@.len() && (#[trigger] rows@[i]@[c])
                == qr_cell(q.0 as nat, q.1, i, c)),
{
    match qr_encode(data) {
        Ok((width, dark)) => Ok(qr_grid(width, &dark)),
        Err(e) => Err(PassrsError::Plain(e)),
    }
}

/// The lines that draw a grid of cells: one line per row, each the text of its
/// cells.
pub fn render_rows(rows: &Vec<Vec<Cell>>) -> (r: Vec<String>)
    ensures
        r@.len() == rows@.len(),
        forall|i: int| 0 <= i < rows@.len() ==> (#[trigger] r@[i])@ == row_text(rows@[i]@),
{
    let mut out: Vec<String> = Vec::new();
    let mut i: usize = 0;
    while i < rows.len()
        invariant
            i <= rows@.len(),
            out@.len() == i,
            forall|k: int| 0 <= k < i ==> (#[trigger] out@[k])@ == row_text(rows@[k]@),
        decreases rows.len() - i,
    {
        let mut line = String::new();
        let row = &rows[i];
        let mut c: usize = 0;
        while c < row.len()
            invariant
                c <= row@.len(),
                line@ == row_text(row@.subrange(0, c as int)),
            decreases row.len() - c,
        {
            let cell = row[c].render();
            push_str(&mut line, cell.as_str());
            proof {
                assert(row@.subrange(0, c + 1).drop_last() =~= row@.subrange(0, c as int));
            }
            c += 1;
        }
        assert(row@.subrange(0, row@.len() as int) =~= row@);
        out.push(line);
        i += 1;
    }
    out
}

} // verus!
