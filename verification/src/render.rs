use vstd::prelude::*;

verus! {

use vstd::string::StringSliceAdditionalSpecFns;
use vstd::utf8::encode_utf8;
use crate::fmt::{dec_bytes, dec_digits};
use crate::highlight::HighlightTable;
use crate::line_table::LineTable;
use crate::session::Session;

/// Blank cell content.
pub const SP: u8 = 32;

/// The overflow indicator drawn in the last cell of a too-long row.
pub const OVERFLOW_MARK: u8 = 62;

/// The gutter glyph for a row past the end of the buffer.
pub const TILDE: u8 = 126;

/// How one character cell is styled on screen.
#[derive(PartialEq, Eq, Structural, Clone, Copy, Debug)]
pub enum CellStyle {
    Plain,
    Gutter,
    Match,
    Overflow,
    Status,
    Prompt,
}

/// One character cell of the screen grid: a byte column and its style.
#[derive(PartialEq, Eq, Structural, Clone, Copy, Debug)]
pub struct Cell {
    pub ch: u8,
    pub style: CellStyle,
}

/// The expected content of cell `c` of a single-line label showing
/// `text`: the text's bytes left-aligned, truncated to `width`, with an
/// overflow mark in the final cell when the text does not fit.
pub open spec fn label_cell(text: Seq<u8>, width: int, style: CellStyle, c: int) -> Cell {
    if text.len() > width && c == width - 1 {
        Cell { ch: OVERFLOW_MARK, style: CellStyle::Overflow }
    } else if c < text.len() {
        Cell { ch: text[c], style }
    } else {
        Cell { ch: SP, style }
    }
}

/// The gutter width for a buffer of `lines` lines: the digit count of the
/// highest line number plus one.
pub open spec fn gutter_width(lines: int) -> int {
    dec_bytes(lines as nat).len() as int + 1
}

/// Whether some highlight range of the line starting at `b0` paints the
/// byte at absolute offset `bi`, under horizontal scroll `sx`: a range is
/// drawn only when its on-screen start column is not left of column 0.
pub open spec fn hl_hit(ranges: Seq<(usize, usize)>, b0: int, sx: int, bi: int) -> bool {
    exists|k: int|
        0 <= k < ranges.len() && (#[trigger] ranges[k]).0 - b0 >= sx && ranges[k].0 <= bi
            < ranges[k].1
}

/// The expected content of cell `(h, c)` of the file area: a line-number
/// gutter, one spacer column, then the line's text shifted left by the
/// horizontal scroll, with highlighted ranges restyled and an overflow
/// mark when the visible tail does not fit.  Rows past the last line show
/// only the `~` gutter glyph.
pub open spec fn file_cell(
    t: LineTable,
    hl: Seq<Seq<(usize, usize)>>,
    bytes: Seq<u8>,
    sy: int,
    sx: int,
    width: int,
    h: int,
    c: int,
) -> Cell {
    let lines = t.spec_len();
    let gw = gutter_width(lines);
    let ln = sy + h;
    if c < gw {
        if ln < lines {
            let d = dec_bytes((ln + 1) as nat);
            if c < d.len() {
                Cell { ch: d[c], style: CellStyle::Gutter }
            } else {
                Cell { ch: SP, style: CellStyle::Gutter }
            }
        } else {
            if c == 0 {
                Cell { ch: TILDE, style: CellStyle::Gutter }
            } else {
                Cell { ch: SP, style: CellStyle::Gutter }
            }
        }
    } else if c == gw {
        Cell { ch: SP, style: CellStyle::Plain }
    } else {
        let cc = c - gw - 1;
        let cw = width - gw - 1;
        if ln < lines {
            let b = t.spec_bounds(ln);
            let rem = b.1 - b.0 - sx;
            let bi = b.0 + sx + cc;
            if rem > 0 && cc < rem {
                if rem > cw && cc == cw - 1 {
                    Cell { ch: OVERFLOW_MARK, style: CellStyle::Overflow }
                } else {
                    Cell {
                        ch: bytes[bi],
                        style: if hl_hit(hl[ln], b.0, sx, bi) {
                            CellStyle::Match
                        } else {
                            CellStyle::Plain
                        },
                    }
                }
            } else {
                Cell { ch: SP, style: CellStyle::Plain }
            }
        } else {
            Cell { ch: SP, style: CellStyle::Plain }
        }
    }
}

/// A fixed-size character grid, the render target: `height` rows of
/// `width` cells each.
pub struct Grid {
    width: usize,
    height: usize,
    rows: Vec<Vec<Cell>>,
}

impl Grid {
    pub closed spec fn spec_width(&self) -> int {
        self.width as int
    }

    pub closed spec fn spec_height(&self) -> int {
        self.height as int
    }

    pub closed spec fn cells(&self) -> Seq<Seq<Cell>> {
        self.rows@.map_values(|r: Vec<Cell>| r@)
    }

    pub open spec fn wf(&self) -> bool {
        &&& self.cells().len() == self.spec_height()
        &&& forall|h: int|
            0 <= h < self.spec_height() ==> (#[trigger] self.cells()[h]).len() == self.spec_width()
    }

    pub fn width(&self) -> (r: usize)
        ensures
            r == self.spec_width(),
    {
        self.width
    }

    pub fn height(&self) -> (r: usize)
        ensures
            r == self.spec_height(),
    {
        self.height
    }

    /// The rows of the grid, top to bottom.
    pub fn get_rows(&self) -> (r: &Vec<Vec<Cell>>)
        ensures
            r@.map_values(|row: Vec<Cell>| row@) == self.cells(),
    {
        &self.rows
    }
}

/// Render one label row: `text` truncated to `width` with the overflow
/// mark, every cell in `style`.
fn label_row(text: &str, width: usize, style: CellStyle) -> (row: Vec<Cell>)
    ensures
        row@.len() == width,
        forall|c: int|
            0 <= c < width ==> #[trigger] row@[c] == label_cell(
                text.spec_bytes(),
                width as int,
                style,
                c,
            ),
{
    let bytes = text.as_bytes_vec();
    let mut row: Vec<Cell> = Vec::new();
    let mut c: usize = 0;
    while c < width
        invariant
            bytes@ == text.spec_bytes(),
            c <= width,
            row@.len() == c,
            forall|i: int|
                0 <= i < c ==> #[trigger] row@[i] == label_cell(
                    text.spec_bytes(),
                    width as int,
                    style,
                    i,
                ),
        decreases width - c,
    {
        let cell = if bytes.len() > width && c == width - 1 {
            Cell { ch: OVERFLOW_MARK, style: CellStyle::Overflow }
        } else if c < bytes.len() {
            Cell { ch: bytes[c], style }
        } else {
            Cell { ch: SP, style }
        };
        row.push(cell);
        c = c + 1;
    }
    row
}

/// Whether some highlight range of this line paints byte `bi`, per
/// `hl_hit`.
fn hl_hit_at(ranges: &Vec<(usize, usize)>, b0: usize, sx: usize, bi: usize) -> (r: bool)
    requires
        forall|k: int| 0 <= k < ranges@.len() ==> b0 <= (#[trigger] ranges@[k]).0,
    ensures
        r == hl_hit(ranges@, b0 as int, sx as int, bi as int),
{
    let n = ranges.len();
    let mut k: usize = 0;
    while k < n
        invariant
            n == ranges@.len(),
            k <= n,
            forall|j: int| 0 <= j < ranges@.len() ==> b0 <= (#[trigger] ranges@[j]).0,
            forall|j: int|
                0 <= j < k ==> !((#[trigger] ranges@[j]).0 - b0 >= sx && ranges@[j].0 <= bi
                    < ranges@[j].1),
        decreases n - k,
    {
        let rg = ranges[k];
        if rg.0 - b0 >= sx && rg.0 <= bi && bi < rg.1 {
            return true;
        }
        k = k + 1;
    }
    false
}

/// Render one row of the file area, per `file_cell`.
fn file_row(
    t: &LineTable,
    hl: &HighlightTable,
    bytes: &Vec<u8>,
    sy: usize,
    sx: usize,
    width: usize,
    h: usize,
) -> (row: Vec<Cell>)
    requires
        t.wf(),
        hl.wf(*t),
        t.spec_buffer_len() == bytes@.len(),
    ensures
        row@.len() == width,
        forall|c: int|
            0 <= c < width ==> #[trigger] row@[c] == file_cell(
                *t,
                hl.lines(),
                bytes@,
                sy as int,
                sx as int,
                width as int,
                h as int,
                c,
            ),
{
    let lines = t.len();
    let has_line = h < lines && sy < lines - h;
    let digits = if has_line {
        dec_digits(sy + h + 1)
    } else {
        dec_digits(lines)
    };
    let gd = dec_digits(lines);
    // Clamp the gutter width to the grid: cells beyond `width` do not
    // exist, so the clamp never changes a rendered cell.
    let gw_eff = if gd.len() >= width {
        width
    } else {
        gd.len() + 1
    };
    let ghost gw = gutter_width(t.spec_len());
    let mut row: Vec<Cell> = Vec::new();
    let mut c: usize = 0;
    while c < width
        invariant
            t.wf(),
            hl.wf(*t),
            t.spec_buffer_len() == bytes@.len(),
            lines == t.spec_len(),
            has_line <==> sy + h < lines,
            has_line ==> digits@ == dec_bytes((sy + h + 1) as nat),
            gd@ == dec_bytes(lines as nat),
            gw == gd@.len() + 1,
            gw_eff as int == if gw <= width { gw } else { width as int },
            c <= width,
            row@.len() == c,
            forall|i: int|
                0 <= i < c ==> #[trigger] row@[i] == file_cell(
                    *t,
                    hl.lines(),
                    bytes@,
                    sy as int,
                    sx as int,
                    width as int,
                    h as int,
                    i,
                ),
        decreases width - c,
    {
        let cell = if c < gw_eff {
            if has_line {
                if c < digits.len() {
                    Cell { ch: digits[c], style: CellStyle::Gutter }
                } else {
                    Cell { ch: SP, style: CellStyle::Gutter }
                }
            } else {
                if c == 0 {
                    Cell { ch: TILDE, style: CellStyle::Gutter }
                } else {
                    Cell { ch: SP, style: CellStyle::Gutter }
                }
            }
        } else if c == gw_eff {
            Cell { ch: SP, style: CellStyle::Plain }
        } else {
            let cc = c - gw_eff - 1;
            let cw = width - gw_eff - 1;
            if has_line {
                let ln = sy + h;
                let b = t.get_bounds(ln);
                let span = b.1 - b.0;
                if sx < span && cc < span - sx {
                    let rem = span - sx;
                    let bi = b.0 + sx + cc;
                    if rem > cw && cc == cw - 1 {
                        Cell { ch: OVERFLOW_MARK, style: CellStyle::Overflow }
                    } else {
                        let hit = hl_hit_at(hl.line(ln), b.0, sx, bi);
                        Cell {
                            ch: bytes[bi],
                            style: if hit {
                                CellStyle::Match
                            } else {
                                CellStyle::Plain
                            },
                        }
                    }
                } else {
                    Cell { ch: SP, style: CellStyle::Plain }
                }
            } else {
                Cell { ch: SP, style: CellStyle::Plain }
            }
        };
        row.push(cell);
        c = c + 1;
    }
    row
}

/// Project the session onto a `width` by `height` grid: the file area
/// with its line-number gutter on top, then one status row and one prompt
/// row.  A read-only projection: the session is not changed.
pub fn ui(sess: &Session, width: usize, height: usize) -> (g: Grid)
    requires
        sess.wf(),
    ensures
        g.wf(),
        g.spec_width() == width,
        g.spec_height() == height,
        forall|h: int, c: int|
            0 <= h < height - 2 && 0 <= c < width ==> #[trigger] g.cells()[h][c] == file_cell(
                sess.spec_table(),
                sess.spec_highlight().lines(),
                sess.spec_buffer_bytes(),
                sess.spec_scroll().0,
                sess.spec_scroll().1,
                width as int,
                h,
                c,
            ),
        height >= 2 ==> forall|c: int|
            0 <= c < width ==> #[trigger] g.cells()[height - 2][c] == label_cell(
                encode_utf8(sess.spec_status()),
                width as int,
                CellStyle::Status,
                c,
            ),
        height >= 1 ==> forall|c: int|
            0 <= c < width ==> #[trigger] g.cells()[height - 1][c] == label_cell(
                encode_utf8(sess.spec_prompt()),
                width as int,
                CellStyle::Prompt,
                c,
            ),
{
    let bytes = sess.get_buffer().as_str().as_bytes_vec();
    let t = sess.get_line_table();
    let hl = sess.get_highlight();
    let scroll = sess.get_scroll();
    let mut rows: Vec<Vec<Cell>> = Vec::new();
    let file_h = if height >= 2 {
        height - 2
    } else {
        0
    };
    let mut h: usize = 0;
    while h < file_h
        invariant
            sess.wf(),
            bytes@ == sess.spec_buffer_bytes(),
            *t == sess.spec_table(),
            *hl == sess.spec_highlight(),
            (scroll.0 as int, scroll.1 as int) == sess.spec_scroll(),
            file_h <= height,
            h <= file_h,
            rows@.len() == h,
            forall|i: int, c: int|
                0 <= i < h && 0 <= c < width ==> (#[trigger] rows@[i]@[c]) == file_cell(
                    sess.spec_table(),
                    sess.spec_highlight().lines(),
                    sess.spec_buffer_bytes(),
                    sess.spec_scroll().0,
                    sess.spec_scroll().1,
                    width as int,
                    i,
                    c,
                ),
            forall|i: int| 0 <= i < h ==> (#[trigger] rows@[i]@).len() == width,
        decreases file_h - h,
    {
        let row = file_row(t, hl, &bytes, scroll.0, scroll.1, width, h);
        rows.push(row);
        h = h + 1;
    }
    if height >= 2 {
        rows.push(label_row(sess.get_status().as_str(), width, CellStyle::Status));
    }
    if height >= 1 {
        rows.push(label_row(sess.get_prompt().as_str(), width, CellStyle::Prompt));
    }
    let g = Grid { width, height, rows };
    g
}

/// Scrolling past the last line leaves nothing but gutter rows: every
/// file-area cell of such a row is the `~` glyph in column 0, a gutter
/// blank elsewhere in the gutter, or an empty plain cell; no content byte
/// is drawn.
pub proof fn lemma_past_end_row(
    t: LineTable,
    hl: Seq<Seq<(usize, usize)>>,
    bytes: Seq<u8>,
    sy: int,
    sx: int,
    width: int,
    h: int,
    c: int,
)
    requires
        sy >= t.spec_len(),
        h >= 0,
        0 <= c < width,
    ensures
        file_cell(t, hl, bytes, sy, sx, width, h, c) == if c < gutter_width(t.spec_len()) {
            if c == 0 {
                Cell { ch: TILDE, style: CellStyle::Gutter }
            } else {
                Cell { ch: SP, style: CellStyle::Gutter }
            }
        } else {
            Cell { ch: SP, style: CellStyle::Plain }
        },
        file_cell(t, hl, bytes, sy, sx, width, h, c).style != CellStyle::Match,
        file_cell(t, hl, bytes, sy, sx, width, h, c).ch != TILDE ==> file_cell(
            t,
            hl,
            bytes,
            sy,
            sx,
            width,
            h,
            c,
        ).ch == SP,
{
}

} // verus!
