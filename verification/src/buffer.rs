//! Double buffering and cell-level diffing for flicker-free rendering.
//!
//! Two complete snapshots of the screen are kept; comparing them cell by
//! cell yields the minimal list of updates to send to the terminal.
use vstd::prelude::*;
use crate::style::{Color, TextStyle};
use crate::unicode::{char_cols, char_width, chars_of};

verus! {

/// Style attributes that can be applied to a cell.
#[derive(Clone, Copy, Debug, PartialEq, Eq, Structural)]
pub struct CellStyle {
    /// Bold text
    pub bold: bool,
    /// Italic text
    pub italic: bool,
    /// Underlined text
    pub underline: bool,
    /// Strikethrough text
    pub strikethrough: bool,
}

/// A single terminal cell: a character and its visual properties.
#[derive(Clone, Copy, Debug, PartialEq, Eq, Structural)]
pub struct Cell {
    /// The character displayed in this cell
    pub char: char,
    /// Foreground color
    pub fg: Option<Color>,
    /// Background color
    pub bg: Option<Color>,
    /// Additional styling attributes
    pub style: CellStyle,
}

/// The style with no attribute set.
pub open spec fn plain_style() -> CellStyle {
    CellStyle { bold: false, italic: false, underline: false, strikethrough: false }
}

/// A cell holding `c` with no colors and no attributes.
pub open spec fn plain_cell(c: char) -> Cell {
    Cell { char: c, fg: None, bg: None, style: plain_style() }
}

/// The empty cell: a space with no styling.
pub open spec fn blank_cell() -> Cell {
    plain_cell(' ')
}

impl Default for CellStyle {
    fn default() -> (s: Self)
        ensures
            s == plain_style(),
    {
        CellStyle { bold: false, italic: false, underline: false, strikethrough: false }
    }
}

impl Default for Cell {
    fn default() -> (c: Self)
        ensures
            c == blank_cell(),
    {
        Cell::empty()
    }
}

/// The attributes of a text style as cell attributes (unset means off).
pub open spec fn style_of_text(t: TextStyle) -> CellStyle {
    CellStyle {
        bold: t.bold == Some(true),
        italic: t.italic == Some(true),
        underline: t.underline == Some(true),
        strikethrough: t.strikethrough == Some(true),
    }
}

fn flag(b: Option<bool>) -> (r: bool)
    ensures
        r == (b == Some(true)),
{
    match b {
        Some(v) => v,
        None => false,
    }
}

impl CellStyle {
    /// The style attributes of a text style.
    pub fn from_text_style(text_style: &TextStyle) -> (s: CellStyle)
        ensures
            s == style_of_text(*text_style),
    {
        CellStyle {
            bold: flag(text_style.bold),
            italic: flag(text_style.italic),
            underline: flag(text_style.underline),
            strikethrough: flag(text_style.strikethrough),
        }
    }

    /// Attribute-wise union of two styles.
    pub fn merge_with(self, other: &CellStyle) -> (s: CellStyle)
        ensures
            s == (CellStyle {
                bold: self.bold || other.bold,
                italic: self.italic || other.italic,
                underline: self.underline || other.underline,
                strikethrough: self.strikethrough || other.strikethrough,
            }),
    {
        CellStyle {
            bold: self.bold || other.bold,
            italic: self.italic || other.italic,
            underline: self.underline || other.underline,
            strikethrough: self.strikethrough || other.strikethrough,
        }
    }
}

impl Cell {
    /// A cell holding `c` with default styling.
    pub fn new(c: char) -> (r: Cell)
        ensures
            r == plain_cell(c),
    {
        Cell { char: c, fg: None, bg: None, style: CellStyle::default() }
    }

    /// A space with no styling.
    pub fn empty() -> (r: Cell)
        ensures
            r == blank_cell(),
    {
        Cell::new(' ')
    }

    /// Sets the foreground color.
    pub fn with_fg(self, color: Color) -> (r: Cell)
        ensures
            r == (Cell { fg: Some(color), ..self }),
    {
        Cell { fg: Some(color), ..self }
    }

    /// Sets the background color.
    pub fn with_bg(self, color: Color) -> (r: Cell)
        ensures
            r == (Cell { bg: Some(color), ..self }),
    {
        Cell { bg: Some(color), ..self }
    }

    /// Sets the style attributes.
    pub fn with_style(self, style: CellStyle) -> (r: Cell)
        ensures
            r == (Cell { style, ..self }),
    {
        Cell { style, ..self }
    }
}

/// The whole terminal screen as a grid of cells, row by row.
pub struct ScreenBuffer {
    cells: Vec<Vec<Cell>>,
    width: u16,
    height: u16,
}

/// A grid of `height` rows of `width` cells each.
pub open spec fn grid_shaped(rows: Seq<Seq<Cell>>, width: nat, height: nat) -> bool {
    &&& rows.len() == height
    &&& forall|y: int| 0 <= y < height ==> (#[trigger] rows[y]).len() == width
}

/// A grid of the given shape whose every cell is blank.
pub open spec fn blank_grid(width: nat, height: nat) -> Seq<Seq<Cell>> {
    Seq::new(height, |y: int| Seq::new(width, |x: int| blank_cell()))
}

impl ScreenBuffer {
    /// The rows always have the buffer's width and height.
    pub open spec fn wf(&self) -> bool {
        grid_shaped(self.rows(), self.spec_width() as nat, self.spec_height() as nat)
    }

    /// The rows of cells, top to bottom.
    pub closed spec fn rows(&self) -> Seq<Seq<Cell>> {
        self.cells@.map_values(|r: Vec<Cell>| r@)
    }

    /// Width in columns.
    pub closed spec fn spec_width(&self) -> u16 {
        self.width
    }

    /// Height in rows.
    pub closed spec fn spec_height(&self) -> u16 {
        self.height
    }

    /// The cell at column `x`, row `y`.
    pub open spec fn cell(&self, x: int, y: int) -> Cell {
        self.rows()[y][x]
    }

    /// Whether `(x, y)` lies inside the buffer.
    pub open spec fn in_bounds(&self, x: int, y: int) -> bool {
        0 <= x < self.spec_width() && 0 <= y < self.spec_height()
    }

    /// A buffer of the given size whose every cell is empty.
    pub fn new(width: u16, height: u16) -> (b: ScreenBuffer)
        ensures
            b.wf(),
            b.spec_width() == width,
            b.spec_height() == height,
            b.rows() == blank_grid(width as nat, height as nat),
    {
        let mut cells: Vec<Vec<Cell>> = Vec::new();
        let mut y: u16 = 0;
        while y < height
            invariant
                y <= height,
                cells@.len() == y,
                forall|j: int| 0 <= j < y ==> (#[trigger] cells@[j])@ == Seq::new(width as nat, |x: int| blank_cell()),
            decreases height - y,
        {
            cells.push(blank_row(width));
            y = y + 1;
        }
        let b = ScreenBuffer { cells, width, height };
        assert(b.rows() =~= blank_grid(width as nat, height as nat));
        b
    }

    /// The cell at `(x, y)`, or `None` outside the buffer.
    pub fn get_cell(&self, x: u16, y: u16) -> (r: Option<&Cell>)
        requires
            self.wf(),
        ensures
            self.in_bounds(x as int, y as int) ==> r == Some(&self.cell(x as int, y as int)),
            !self.in_bounds(x as int, y as int) ==> r is None,
    {
        if x >= self.width || y >= self.height {
            return None;
        }
        assert(self.cells@[y as int]@ == self.rows()[y as int]);
        Some(&self.cells[y as usize][x as usize])
    }

    /// Writes `cell` at `(x, y)`; does nothing outside the buffer.
    pub fn set_cell(&mut self, x: u16, y: u16, cell: Cell)
        requires
            old(self).wf(),
        ensures
            final(self).wf(),
            final(self).spec_width() == old(self).spec_width(),
            final(self).spec_height() == old(self).spec_height(),
            old(self).in_bounds(x as int, y as int) ==> final(self).rows() == old(self).rows().update(
                y as int,
                old(self).rows()[y as int].update(x as int, cell),
            ),
            !old(self).in_bounds(x as int, y as int) ==> final(self).rows() == old(self).rows(),
    {
        if x < self.width && y < self.height {
            assert(self.cells@[y as int]@ == self.rows()[y as int]);
            self.cells[y as usize].set(x as usize, cell);
            assert(self.rows() =~= old(self).rows().update(
                y as int,
                old(self).rows()[y as int].update(x as int, cell),
            ));
        }
    }

    /// A mutable reference to the cell at `(x, y)`, or `None` outside the buffer.
    pub fn get_cell_mut(&mut self, x: u16, y: u16) -> (r: Option<&mut Cell>)
        requires
            old(self).wf(),
        ensures
            old(self).in_bounds(x as int, y as int) ==> {
                &&& r is Some
                &&& *r->Some_0 == old(self).cell(x as int, y as int)
                &&& final(self).spec_width() == old(self).spec_width()
                &&& final(self).spec_height() == old(self).spec_height()
                &&& final(self).rows() == old(self).rows().update(
                    y as int,
                    old(self).rows()[y as int].update(x as int, *final(r->Some_0)),
                )
            },
            !old(self).in_bounds(x as int, y as int) ==> r is None && *final(self) == *old(self),
    {
        if x >= self.width || y >= self.height {
            return None;
        }
        assert(self.cells@[y as int]@ == self.rows()[y as int]);
        Some(&mut self.cells[y as usize][x as usize])
    }

    /// Sets every cell to the empty cell, keeping the dimensions.
    pub fn clear(&mut self)
        requires
            old(self).wf(),
        ensures
            final(self).wf(),
            final(self).spec_width() == old(self).spec_width(),
            final(self).spec_height() == old(self).spec_height(),
            final(self).rows() == blank_grid(old(self).spec_width() as nat, old(self).spec_height() as nat),
    {
        let n = self.cells.len();
        let mut y: usize = 0;
        while y < n
            invariant
                n == self.cells@.len(),
                y <= n,
                self.wf(),
                self.spec_width() == old(self).spec_width(),
                self.spec_height() == old(self).spec_height(),
                forall|j: int| 0 <= j < y ==> (#[trigger] self.rows()[j]) == Seq::new(self.spec_width() as nat, |x: int| blank_cell()),
            decreases n - y,
        {
            let row = blank_row(self.width);
            let ghost prev = self.rows();
            let ghost rv = row@;
            self.cells.set(y, row);
            assert(self.rows() =~= prev.update(y as int, rv));
            y = y + 1;
        }
        assert(self.rows() =~= blank_grid(old(self).spec_width() as nat, old(self).spec_height() as nat));
    }

    /// Resizes to new dimensions: cells inside both the old and the new
    /// size are kept, new cells are empty, the rest is dropped.
    pub fn resize(&mut self, width: u16, height: u16)
        requires
            old(self).wf(),
        ensures
            final(self).wf(),
            final(self).spec_width() == width,
            final(self).spec_height() == height,
            final(self).rows() == resized(
                old(self).rows(),
                old(self).spec_width() as nat,
                old(self).spec_height() as nat,
                width as nat,
                height as nat,
            ),
    {
        let ghost old_rows = self.rows();
        let old_height = self.height;
        if (height as usize) < self.cells.len() {
            self.cells.truncate(height as usize);
        }
        let keep = self.cells.len();
        assert(keep as int == if old_height < height { old_height as int } else { height as int });
        let mut y: usize = 0;
        while y < keep
            invariant
                keep as int == if old_height < height { old_height as int } else { height as int },
                old_height == old(self).spec_height(),
                old_rows == old(self).rows(),
                keep == self.cells@.len(),
                keep <= old_rows.len(),
                keep <= height,
                y <= keep,
                old_rows.len() == old_height,
                forall|j: int| 0 <= j < old_height ==> (#[trigger] old_rows[j]).len() == old(self).spec_width(),
                forall|j: int| y <= j < keep ==> (#[trigger] self.rows()[j]) == old_rows[j],
                forall|j: int| 0 <= j < y ==> (#[trigger] self.rows()[j]) == Seq::new(
                    width as nat,
                    |x: int| if x < old(self).spec_width() { old_rows[j][x] } else { blank_cell() },
                ),
            decreases keep - y,
        {
            let ghost prev = self.rows();
            let mut row: Vec<Cell> = Vec::new();
            std::mem::swap(&mut row, &mut self.cells[y]);
            assert(row@ == prev[y as int]);
            resize_row(&mut row, width);
            let ghost rv = row@;
            self.cells.set(y, row);
            assert(self.rows() =~= prev.update(y as int, rv));
            y = y + 1;
        }
        while self.cells.len() < height as usize
            invariant
                keep as int == if old_height < height { old_height as int } else { height as int },
                old_height == old(self).spec_height(),
                old_rows == old(self).rows(),
                keep <= self.cells@.len() <= height,
                forall|j: int| 0 <= j < keep ==> (#[trigger] self.rows()[j]) == Seq::new(
                    width as nat,
                    |x: int| if x < old(self).spec_width() { old_rows[j][x] } else { blank_cell() },
                ),
                forall|j: int| keep <= j < self.cells@.len() ==> (#[trigger] self.rows()[j]) == Seq::new(width as nat, |x: int| blank_cell()),
            decreases height - self.cells@.len(),
        {
            let ghost prev = self.rows();
            let row = blank_row(width);
            let ghost rv = row@;
            self.cells.push(row);
            assert(self.rows() =~= prev.push(rv));
        }
        let ghost target = resized(
            old_rows,
            old(self).spec_width() as nat,
            old(self).spec_height() as nat,
            width as nat,
            height as nat,
        );
        assert(self.cells@.len() == height);
        assert forall|j: int| 0 <= j < height implies #[trigger] self.rows()[j] =~= target[j] by {
            if j < keep {
                assert(j < old_height);
            } else {
                assert(self.rows()[j] == Seq::new(width as nat, |x: int| blank_cell()));
            }
        }
        assert(self.rows() =~= target);
        self.width = width;
        self.height = height;
        assert(self.rows() =~~= resized(
            old_rows,
            old(self).spec_width() as nat,
            old(self).spec_height() as nat,
            width as nat,
            height as nat,
        ));
    }

    /// Writes `cell` into every position of the rectangle at `(x, y)` of
    /// size `width` by `height` that lies inside the buffer.
    pub fn fill_rect(&mut self, x: u16, y: u16, width: u16, height: u16, cell: Cell)
        requires
            old(self).wf(),
            width == 0 || height == 0 || (x + width <= u16::MAX + 1 && y + height <= u16::MAX + 1),
        ensures
            final(self).wf(),
            final(self).spec_width() == old(self).spec_width(),
            final(self).spec_height() == old(self).spec_height(),
            final(self).rows() == filled(old(self).rows(), x as int, y as int, width as int, height as int, cell),
    {
        let ghost start = self.rows();
        assert(start =~~= fill_progress(start, x as int, y as int, width as int, height as int, cell, 0, 0));
        let mut dy: u16 = 0;
        while dy < height
            invariant
                width == 0 || height == 0 || (x + width <= u16::MAX + 1 && y + height <= u16::MAX + 1),
                dy <= height,
                self.wf(),
                self.spec_width() == old(self).spec_width(),
                self.spec_height() == old(self).spec_height(),
                start == old(self).rows(),
                self.rows() == fill_progress(start, x as int, y as int, width as int, height as int, cell, dy as int, 0),
            decreases height - dy,
        {
            let mut dx: u16 = 0;
            while dx < width
                invariant
                    width == 0 || height == 0 || (x + width <= u16::MAX + 1 && y + height <= u16::MAX + 1),
                    dy < height,
                    dx <= width,
                    self.wf(),
                    self.spec_width() == old(self).spec_width(),
                    self.spec_height() == old(self).spec_height(),
                    start == old(self).rows(),
                    self.rows() == fill_progress(start, x as int, y as int, width as int, height as int, cell, dy as int, dx as int),
                decreases width - dx,
            {
                let ghost before = self.rows();
                self.set_cell(x + dx, y + dy, cell);
                assert(self.rows() =~~= fill_progress(start, x as int, y as int, width as int, height as int, cell, dy as int, dx + 1));
                dx = dx + 1;
            }
            assert(fill_progress(start, x as int, y as int, width as int, height as int, cell, dy as int, width as int) =~~= fill_progress(start, x as int, y as int, width as int, height as int, cell, dy + 1, 0));
            dy = dy + 1;
        }
    }

    /// `rows` after writing `cs` at column `x` of row `y` (no change when
    /// the row lies outside the buffer).
    pub open spec fn written(&self, x: int, y: int, cs: Seq<char>, fg: Option<Color>, bg: Option<Color>, st: CellStyle) -> Seq<Seq<Cell>> {
        if 0 <= y < self.spec_height() {
            self.rows().update(y, paint(self.rows()[y], x, cs, fg, bg, st))
        } else {
            self.rows()
        }
    }

    /// Writes one character at column `cur` of row `y` (and the blank after
    /// a two-column character).
    fn paint_one(&mut self, cur: u16, y: u16, c: char, w: usize, fg: Option<Color>, bg: Option<Color>, st: CellStyle)
        requires
            old(self).wf(),
            cur + w <= old(self).spec_width(),
            w == char_cols(c),
        ensures
            final(self).wf(),
            final(self).spec_width() == old(self).spec_width(),
            final(self).spec_height() == old(self).spec_height(),
            y < old(self).spec_height() ==> final(self).rows() == old(self).rows().update(
                y as int,
                paint_step(old(self).rows()[y as int], cur as int, c, fg, bg, st),
            ),
            y >= old(self).spec_height() ==> final(self).rows() == old(self).rows(),
    {
        let ghost rows0 = self.rows();
        let cell = Cell { char: c, fg, bg, style: st };
        self.set_cell(cur, y, cell);
        let ghost rows1 = self.rows();
        proof {
            if y < rows0.len() {
                assert(rows0[y as int].len() == self.spec_width());
                assert(rows1 =~= rows0.update(y as int, put(rows0[y as int], cur as int, cell)));
            }
        }
        if w == 2 && (cur as u32) + 1 < self.width as u32 {
            self.set_cell(cur + 1, y, Cell { char: ' ', fg, bg, style: st });
            proof {
                if y < rows0.len() {
                    assert(self.rows() =~= rows0.update(y as int, put(put(rows0[y as int], cur as int, cell), cur + 1, Cell { char: ' ', fg, bg, style: st })));
                }
            }
        }
    }

    pub(crate) fn paint_chars(&mut self, x: u16, y: u16, cs: &Vec<char>, fg: Option<Color>, bg: Option<Color>, st: CellStyle)
        requires
            old(self).wf(),
            !write_overflows(x as int, old(self).spec_width() as int, cs@),
        ensures
            final(self).wf(),
            final(self).spec_width() == old(self).spec_width(),
            final(self).spec_height() == old(self).spec_height(),
            final(self).rows() == old(self).written(x as int, y as int, cs@, fg, bg, st),
    {
        let width = self.width;
        let mut cur: u16 = x;
        let mut i: usize = 0;
        let ghost target = old(self).written(x as int, y as int, cs@, fg, bg, st);
        assert(cs@.skip(0) =~= cs@);
        proof {
            if y < self.spec_height() {
                assert(target =~= old(self).rows().update(y as int, target[y as int]));
                assert(self.rows() =~= old(self).rows().update(y as int, self.rows()[y as int]));
                if cs@.len() == 0 {
                    assert(target[y as int] == self.rows()[y as int]);
                }
            }
        }
        while i < cs.len()
            invariant
                old(self).wf(),
                i <= cs@.len(),
                width == self.spec_width(),
                self.wf(),
                self.spec_width() == old(self).spec_width(),
                self.spec_height() == old(self).spec_height(),
                !write_overflows(cur as int, width as int, cs@.skip(i as int)),
                target == old(self).written(x as int, y as int, cs@, fg, bg, st),
                y < self.spec_height() ==> {
                    &&& self.rows() == old(self).rows().update(y as int, self.rows()[y as int])
                    &&& target == old(self).rows().update(y as int, target[y as int])
                    &&& target[y as int] == paint(self.rows()[y as int], cur as int, cs@.skip(i as int), fg, bg, st)
                    &&& (i == cs@.len() ==> target[y as int] == self.rows()[y as int])
                },
                y >= self.spec_height() ==> self.rows() == old(self).rows(),
            ensures
                self.wf(),
                self.spec_width() == old(self).spec_width(),
                self.spec_height() == old(self).spec_height(),
                y < self.spec_height() ==> self.rows() == target,
                y >= self.spec_height() ==> self.rows() == old(self).rows(),
            decreases cs@.len() - i,
        {
            let c = cs[i];
            let w = char_width(c);
            let ghost rest = cs@.skip(i as int);
            assert(rest[0] == c);
            assert(rest.drop_first() =~= cs@.skip(i + 1));
            if (cur as u32) + (w as u32) > width as u32 {
                proof {
                    if y < self.spec_height() {
                        assert(self.rows()[y as int].len() == width);
                        assert(paint(self.rows()[y as int], cur as int, rest, fg, bg, st) == self.rows()[y as int]);
                        assert(target[y as int] == self.rows()[y as int]);
                    }
                }
                break;
            }
            let ghost rows0 = self.rows();
            self.paint_one(cur, y, c, w, fg, bg, st);
            proof {
                if y < self.spec_height() {
                    assert(rows0[y as int].len() == width);
                    let v = paint_step(rows0[y as int], cur as int, c, fg, bg, st);
                    assert(self.rows() == rows0.update(y as int, v));
                    assert(rows0 == old(self).rows().update(y as int, rows0[y as int]));
                    assert(rows0.update(y as int, v) =~= old(self).rows().update(y as int, v));
                    assert(self.rows()[y as int] == v);
                    assert(paint(rows0[y as int], cur as int, rest, fg, bg, st) == paint(v, cur + w, rest.drop_first(), fg, bg, st));
                    assert(target[y as int] == paint(v, cur + w, cs@.skip(i + 1), fg, bg, st));
                    if i + 1 == cs@.len() {
                        assert(cs@.skip(i + 1).len() == 0);
                    }
                }
            }
            cur = cur + w as u16;
            i = i + 1;
        }
    }

    /// Whether `text` can be written from column `x` (see `write_str`)
    /// without a column position passing `u16::MAX` before the text stops.
    pub fn write_fits(&self, x: u16, text: &str) -> (b: bool)
        ensures
            b == !write_overflows(x as int, self.spec_width() as int, text@),
    {
        let cs = chars_of(text);
        chars_fit(x, self.width, &cs)
    }

    /// Writes `text` from `(x, y)` with the given colors, one cell per
    /// column of display width; a wide character's second column gets a
    /// space, and the text is cut at the first character that does not fit.
    pub fn write_str(&mut self, x: u16, y: u16, text: &str, fg: Option<Color>, bg: Option<Color>)
        requires
            old(self).wf(),
            !write_overflows(x as int, old(self).spec_width() as int, text@),
        ensures
            final(self).wf(),
            final(self).spec_width() == old(self).spec_width(),
            final(self).spec_height() == old(self).spec_height(),
            final(self).rows() == old(self).written(x as int, y as int, text@, fg, bg, plain_style()),
    {
        let cs = chars_of(text);
        self.paint_chars(x, y, &cs, fg, bg, CellStyle::default());
    }

    /// Writes `text` as `write_str` does when that keeps the column
    /// positions within `u16` (see `write_fits`), and says whether it
    /// wrote; otherwise the buffer is left as it was.
    pub fn try_write_str(&mut self, x: u16, y: u16, text: &str, fg: Option<Color>, bg: Option<Color>) -> (wrote: bool)
        requires
            old(self).wf(),
        ensures
            wrote == !write_overflows(x as int, old(self).spec_width() as int, text@),
            final(self).wf(),
            final(self).spec_width() == old(self).spec_width(),
            final(self).spec_height() == old(self).spec_height(),
            wrote ==> final(self).rows() == old(self).written(x as int, y as int, text@, fg, bg, plain_style()),
            !wrote ==> final(self).rows() == old(self).rows(),
    {
        if self.write_fits(x, text) {
            self.write_str(x, y, text, fg, bg);
            true
        } else {
            false
        }
    }

    /// Writes `text` from `(x, y)` with the colors and attributes of
    /// `text_style` (none when absent), as `write_str` does.
    pub fn write_styled_str(&mut self, x: u16, y: u16, text: &str, text_style: Option<&TextStyle>)
        requires
            old(self).wf(),
            !write_overflows(x as int, old(self).spec_width() as int, text@),
        ensures
            final(self).wf(),
            final(self).spec_width() == old(self).spec_width(),
            final(self).spec_height() == old(self).spec_height(),
            final(self).rows() == match text_style {
                Some(t) => old(self).written(x as int, y as int, text@, t.color, t.background, style_of_text(*t)),
                None => old(self).written(x as int, y as int, text@, None, None, plain_style()),
            },
    {
        let cs = chars_of(text);
        match text_style {
            Some(t) => {
                let st = CellStyle::from_text_style(t);
                self.paint_chars(x, y, &cs, t.color, t.background, st);
            },
            None => {
                self.paint_chars(x, y, &cs, None, None, CellStyle::default());
            },
        }
    }

    /// The buffer's dimensions as `(width, height)`.
    pub fn dimensions(&self) -> (r: (u16, u16))
        ensures
            r == (self.spec_width(), self.spec_height()),
    {
        (self.width, self.height)
    }
}

/// Whether `cs` can be written from column `x` of a row `width` wide
/// without a column position passing `u16::MAX` (see `write_overflows`).
pub fn chars_fit(x: u16, width: u16, cs: &Vec<char>) -> (b: bool)
    ensures
        b == !write_overflows(x as int, width as int, cs@),
{
    let limit: u32 = width as u32;
    let mut cur: u32 = x as u32;
    let mut i: usize = 0;
    assert(cs@.skip(0) =~= cs@);
    while i < cs.len()
        invariant
            i <= cs@.len(),
            cur <= u16::MAX,
            limit == width,
            write_overflows(x as int, width as int, cs@) == write_overflows(cur as int, width as int, cs@.skip(i as int)),
        decreases cs@.len() - i,
    {
        let w = char_width(cs[i]) as u32;
        let ghost rest = cs@.skip(i as int);
        assert(rest[0] == cs@[i as int]);
        assert(rest.drop_first() =~= cs@.skip(i + 1));
        if cur + w > 65535 {
            return false;
        }
        if cur + w > limit {
            return true;
        }
        cur = cur + w;
        i = i + 1;
    }
    assert(cs@.skip(i as int).len() == 0);
    true
}

/// `row` with cell `i` replaced by `c` when `i` lies inside it.
pub open spec fn put(row: Seq<Cell>, i: int, c: Cell) -> Seq<Cell> {
    if 0 <= i < row.len() {
        row.update(i, c)
    } else {
        row
    }
}

/// `row` after writing `cs` from column `pos` with the given colors and
/// attributes: each character takes its display width; a two-column
/// character also blanks the column after it; writing stops at the first
/// character that does not fit.
pub open spec fn paint(
    row: Seq<Cell>,
    pos: int,
    cs: Seq<char>,
    fg: Option<Color>,
    bg: Option<Color>,
    st: CellStyle,
) -> Seq<Cell>
    decreases cs.len(),
{
    if cs.len() == 0 {
        row
    } else {
        let w = char_cols(cs[0]);
        if pos + w > row.len() {
            row
        } else {
            paint(paint_step(row, pos, cs[0], fg, bg, st), pos + w, cs.drop_first(), fg, bg, st)
        }
    }
}

/// `row` after writing `c` at column `pos` (and blanking the next column
/// when `c` is two columns wide).
pub open spec fn paint_step(row: Seq<Cell>, pos: int, c: char, fg: Option<Color>, bg: Option<Color>, st: CellStyle) -> Seq<Cell> {
    let r1 = put(row, pos, Cell { char: c, fg, bg, style: st });
    if char_cols(c) == 2 && pos + 1 < row.len() {
        put(r1, pos + 1, Cell { char: ' ', fg, bg, style: st })
    } else {
        r1
    }
}

/// Whether writing `cs` from column `pos` on a row `width` wide would step
/// a column position past `u16::MAX` before it stops.
pub open spec fn write_overflows(pos: int, width: int, cs: Seq<char>) -> bool
    decreases cs.len(),
{
    if cs.len() == 0 {
        false
    } else {
        let w = char_cols(cs[0]);
        if pos + w > u16::MAX {
            true
        } else if pos + w > width {
            false
        } else {
            write_overflows(pos + w, width, cs.drop_first())
        }
    }
}

/// `rows` with the rectangle at `(x, y)` of size `fw` by `fh` set to `cell`
/// row by row, up to row `done_rows` of the rectangle and, in that row, up
/// to column `done_cols`.
pub open spec fn fill_progress(
    rows: Seq<Seq<Cell>>,
    x: int,
    y: int,
    fw: int,
    fh: int,
    cell: Cell,
    done_rows: int,
    done_cols: int,
) -> Seq<Seq<Cell>> {
    Seq::new(
        rows.len(),
        |j: int|
            Seq::new(
                rows[j].len(),
                |i: int|
                    if x <= i < x + fw && y <= j < y + fh && (j < y + done_rows || (j == y
                        + done_rows && i < x + done_cols)) {
                        cell
                    } else {
                        rows[j][i]
                    },
            ),
    )
}

/// `rows` with every cell of the rectangle at `(x, y)` of size `fw` by `fh`
/// (as far as it lies inside) set to `cell`.
pub open spec fn filled(rows: Seq<Seq<Cell>>, x: int, y: int, fw: int, fh: int, cell: Cell) -> Seq<Seq<Cell>> {
    fill_progress(rows, x, y, fw, fh, cell, fh, 0)
}

/// A grid of `width` by `height` keeping the cells of `rows` that lie
/// inside both it and the old `old_width` by `old_height` grid, and empty
/// cells elsewhere.
pub open spec fn resized(rows: Seq<Seq<Cell>>, old_width: nat, old_height: nat, width: nat, height: nat) -> Seq<Seq<Cell>> {
    Seq::new(
        height,
        |y: int|
            Seq::new(
                width,
                |x: int|
                    if y < old_height && x < old_width {
                        rows[y][x]
                    } else {
                        blank_cell()
                    },
            ),
    )
}

/// An update to a single cell.
#[derive(Clone, Copy, Debug, PartialEq, Eq, Structural)]
pub enum CellUpdate {
    /// Put `cell` at `(x, y)`
    Single { x: u16, y: u16, cell: Cell },
}

/// Whether the cell at `(x, y)` must change to turn `front` into `back`.
pub open spec fn cell_changed(front: ScreenBuffer, back: ScreenBuffer, x: int, y: int) -> bool {
    back.in_bounds(x, y) && front.cell(x, y) != back.cell(x, y)
}

/// The updates for the first `n` columns of row `y`, left to right.
pub open spec fn row_updates(front: ScreenBuffer, back: ScreenBuffer, y: int, n: int) -> Seq<CellUpdate>
    decreases n,
{
    if n <= 0 {
        Seq::empty()
    } else {
        row_updates(front, back, y, n - 1) + if cell_changed(front, back, n - 1, y) {
            seq![CellUpdate::Single { x: (n - 1) as u16, y: y as u16, cell: back.cell(n - 1, y) }]
        } else {
            Seq::empty()
        }
    }
}

/// The updates for the first `m` rows of `front`, in row-major order.
pub open spec fn grid_updates(front: ScreenBuffer, back: ScreenBuffer, m: int) -> Seq<CellUpdate>
    decreases m,
{
    if m <= 0 {
        Seq::empty()
    } else {
        grid_updates(front, back, m - 1) + row_updates(front, back, m - 1, front.spec_width() as int)
    }
}

/// Two screen buffers: `front` is what the terminal shows, `back` is the
/// next frame being drawn.
pub struct DoubleBuffer {
    front: ScreenBuffer,
    back: ScreenBuffer,
}

impl DoubleBuffer {
    /// The buffer currently on screen.
    pub closed spec fn front(&self) -> ScreenBuffer {
        self.front
    }

    /// The buffer being drawn.
    pub closed spec fn back(&self) -> ScreenBuffer {
        self.back
    }

    /// Both buffers are well formed.
    pub open spec fn wf(&self) -> bool {
        self.front().wf() && self.back().wf()
    }

    /// Two empty buffers of the given size.
    pub fn new(width: u16, height: u16) -> (d: DoubleBuffer)
        ensures
            d.wf(),
            d.front().spec_width() == width && d.front().spec_height() == height,
            d.back().spec_width() == width && d.back().spec_height() == height,
            d.front().rows() == blank_grid(width as nat, height as nat),
            d.back().rows() == blank_grid(width as nat, height as nat),
    {
        DoubleBuffer { front: ScreenBuffer::new(width, height), back: ScreenBuffer::new(width, height) }
    }

    /// Exchanges the two buffers: the frame just drawn becomes the one on screen.
    pub fn swap(&mut self)
        ensures
            final(self).front() == old(self).back(),
            final(self).back() == old(self).front(),
    {
        std::mem::swap(&mut self.front, &mut self.back);
    }

    /// Mutable access to the buffer being drawn.
    pub fn back_buffer_mut(&mut self) -> (b: &mut ScreenBuffer)
        ensures
            *b == old(self).back(),
            final(self).front() == old(self).front(),
            final(self).back() == *final(b),
    {
        &mut self.back
    }

    /// Empties both buffers, keeping their dimensions.
    pub fn reset(&mut self)
        requires
            old(self).wf(),
        ensures
            final(self).wf(),
            final(self).front().spec_width() == old(self).front().spec_width(),
            final(self).front().spec_height() == old(self).front().spec_height(),
            final(self).back().spec_width() == old(self).back().spec_width(),
            final(self).back().spec_height() == old(self).back().spec_height(),
            final(self).front().rows() == blank_grid(old(self).front().spec_width() as nat, old(self).front().spec_height() as nat),
            final(self).back().rows() == blank_grid(old(self).back().spec_width() as nat, old(self).back().spec_height() as nat),
    {
        self.front.clear();
        self.back.clear();
    }

    /// Resizes both buffers, keeping the cells that still fit.
    pub fn resize(&mut self, width: u16, height: u16)
        requires
            old(self).wf(),
        ensures
            final(self).wf(),
            final(self).front().spec_width() == width && final(self).front().spec_height() == height,
            final(self).back().spec_width() == width && final(self).back().spec_height() == height,
            final(self).front().rows() == resized(old(self).front().rows(), old(self).front().spec_width() as nat, old(self).front().spec_height() as nat, width as nat, height as nat),
            final(self).back().rows() == resized(old(self).back().rows(), old(self).back().spec_width() as nat, old(self).back().spec_height() as nat, width as nat, height as nat),
    {
        self.front.resize(width, height);
        self.back.resize(width, height);
    }

    /// Empties the buffer being drawn.
    pub fn clear_back(&mut self)
        requires
            old(self).wf(),
        ensures
            final(self).wf(),
            final(self).front() == old(self).front(),
            final(self).back().spec_width() == old(self).back().spec_width(),
            final(self).back().spec_height() == old(self).back().spec_height(),
            final(self).back().rows() == blank_grid(old(self).back().spec_width() as nat, old(self).back().spec_height() as nat),
    {
        self.back.clear();
    }

    /// The updates that turn the screen into the new frame: one per cell of
    /// the front buffer whose counterpart in the back buffer differs, in
    /// row-major order, carrying the back buffer's cell.
    pub fn diff(&self) -> (updates: Vec<CellUpdate>)
        requires
            self.wf(),
        ensures
            updates@ == grid_updates(self.front(), self.back(), self.front().spec_height() as int),
    {
        let mut updates: Vec<CellUpdate> = Vec::new();
        let (width, height) = self.front.dimensions();
        let mut y: u16 = 0;
        while y < height
            invariant
                self.wf(),
                width == self.front().spec_width(),
                height == self.front().spec_height(),
                y <= height,
                updates@ == grid_updates(self.front(), self.back(), y as int),
            decreases height - y,
        {
            let mut x: u16 = 0;
            let ghost before = updates@;
            while x < width
                invariant
                    self.wf(),
                    width == self.front().spec_width(),
                    height == self.front().spec_height(),
                    y < height,
                    x <= width,
                    before == grid_updates(self.front(), self.back(), y as int),
                    updates@ == before + row_updates(self.front(), self.back(), y as int, x as int),
                decreases width - x,
            {
                let front_cell = self.front.get_cell(x, y);
                let back_cell = self.back.get_cell(x, y);
                let ghost prev = updates@;
                match (front_cell, back_cell) {
                    (Some(f), Some(b)) => {
                        if *f != *b {
                            updates.push(CellUpdate::Single { x, y, cell: *b });
                        }
                    },
                    _ => {},
                }
                assert(updates@ =~= before + row_updates(self.front(), self.back(), y as int, x + 1));
                x = x + 1;
            }
            y = y + 1;
        }
        updates
    }
}

/// `rows` after one update (an update outside the grid changes nothing).
pub open spec fn apply_update(rows: Seq<Seq<Cell>>, u: CellUpdate) -> Seq<Seq<Cell>> {
    match u {
        CellUpdate::Single { x, y, cell } => if y < rows.len() {
            rows.update(y as int, put(rows[y as int], x as int, cell))
        } else {
            rows
        },
    }
}

/// `rows` after the updates, applied in order.
pub open spec fn apply_updates(rows: Seq<Seq<Cell>>, us: Seq<CellUpdate>) -> Seq<Seq<Cell>>
    decreases us.len(),
{
    if us.len() == 0 {
        rows
    } else {
        apply_update(apply_updates(rows, us.drop_last()), us.last())
    }
}

/// The grid whose rows before `m`, and whose first `n` cells of row `m`,
/// come from `b`; every other cell comes from `f`.
pub open spec fn mixed(f: Seq<Seq<Cell>>, b: Seq<Seq<Cell>>, m: int, n: int) -> Seq<Seq<Cell>> {
    Seq::new(
        f.len(),
        |j: int| Seq::new(f[j].len(), |i: int| if j < m || (j == m && i < n) { b[j][i] } else { f[j][i] }),
    )
}

proof fn lemma_apply_updates_concat(rows: Seq<Seq<Cell>>, a: Seq<CellUpdate>, b: Seq<CellUpdate>)
    ensures
        apply_updates(rows, a + b) == apply_updates(apply_updates(rows, a), b),
    decreases b.len(),
{
    if b.len() == 0 {
        assert(a + b =~= a);
    } else {
        assert((a + b).drop_last() =~= a + b.drop_last());
        assert((a + b).last() == b.last());
        lemma_apply_updates_concat(rows, a, b.drop_last());
    }
}

proof fn lemma_row_updates_apply(front: ScreenBuffer, back: ScreenBuffer, y: int, n: int)
    requires
        front.wf(),
        back.wf(),
        front.spec_width() == back.spec_width(),
        front.spec_height() == back.spec_height(),
        0 <= y < front.spec_height(),
        0 <= n <= front.spec_width(),
    ensures
        apply_updates(mixed(front.rows(), back.rows(), y, 0), row_updates(front, back, y, n))
            == mixed(front.rows(), back.rows(), y, n),
    decreases n,
{
    let f = front.rows();
    let b = back.rows();
    if n == 0 {
        assert(row_updates(front, back, y, 0) =~= Seq::<CellUpdate>::empty());
    } else {
        lemma_row_updates_apply(front, back, y, n - 1);
        let prev = row_updates(front, back, y, n - 1);
        let tail = if cell_changed(front, back, n - 1, y) {
            seq![CellUpdate::Single { x: (n - 1) as u16, y: y as u16, cell: back.cell(n - 1, y) }]
        } else {
            Seq::empty()
        };
        lemma_apply_updates_concat(mixed(f, b, y, 0), prev, tail);
        assert(f[y].len() == front.spec_width());
        assert(b[y].len() == front.spec_width());
        if cell_changed(front, back, n - 1, y) {
            assert(tail.drop_last() =~= Seq::<CellUpdate>::empty());
            let mm = mixed(f, b, y, n - 1);
            let u = CellUpdate::Single { x: (n - 1) as u16, y: y as u16, cell: back.cell(n - 1, y) };
            assert(tail.last() == u);
            assert(apply_updates(mm, tail.drop_last()) == mm);
            assert(apply_updates(mm, tail) == apply_update(mm, u));
            assert(((n - 1) as u16) as int == n - 1);
            assert((y as u16) as int == y);
            assert(mm[y].len() == front.spec_width());
            assert(apply_update(mm, u) == mm.update(y, mm[y].update(n - 1, b[y][n - 1])));
            assert(mm.update(y, mm[y].update(n - 1, b[y][n - 1])) =~~= mixed(f, b, y, n));
        } else {
            assert(tail =~= Seq::<CellUpdate>::empty());
            assert(mixed(f, b, y, n - 1) =~~= mixed(f, b, y, n));
        }
    }
}

proof fn lemma_grid_updates_apply(front: ScreenBuffer, back: ScreenBuffer, m: int)
    requires
        front.wf(),
        back.wf(),
        front.spec_width() == back.spec_width(),
        front.spec_height() == back.spec_height(),
        0 <= m <= front.spec_height(),
    ensures
        apply_updates(front.rows(), grid_updates(front, back, m)) == mixed(front.rows(), back.rows(), m, 0),
    decreases m,
{
    let f = front.rows();
    let b = back.rows();
    if m == 0 {
        assert(f =~~= mixed(f, b, 0, 0));
    } else {
        lemma_grid_updates_apply(front, back, m - 1);
        lemma_apply_updates_concat(f, grid_updates(front, back, m - 1), row_updates(front, back, m - 1, front.spec_width() as int));
        lemma_row_updates_apply(front, back, m - 1, front.spec_width() as int);
        assert forall|j: int| 0 <= j < f.len() implies #[trigger] f[j].len() == front.spec_width() by {}
        assert(mixed(f, b, m - 1, front.spec_width() as int) =~~= mixed(f, b, m, 0));
    }
}

/// Sending the diff of two equally sized buffers to a screen that shows
/// the front buffer leaves it showing the back buffer.
pub proof fn lemma_diff_turns_front_into_back(front: ScreenBuffer, back: ScreenBuffer)
    requires
        front.wf(),
        back.wf(),
        front.spec_width() == back.spec_width(),
        front.spec_height() == back.spec_height(),
    ensures
        apply_updates(front.rows(), grid_updates(front, back, front.spec_height() as int)) == back.rows(),
{
    lemma_grid_updates_apply(front, back, front.spec_height() as int);
    let f = front.rows();
    let b = back.rows();
    assert forall|j: int| 0 <= j < f.len() implies #[trigger] f[j].len() == b[j].len() by {}
    assert(mixed(f, b, front.spec_height() as int, 0) =~~= b);
}

/// Buffers that hold the same cells produce no updates.
pub proof fn lemma_diff_of_equal_buffers_is_empty(front: ScreenBuffer, back: ScreenBuffer, m: int)
    requires
        front.wf(),
        back.wf(),
        front.spec_width() == back.spec_width(),
        front.spec_height() == back.spec_height(),
        front.rows() == back.rows(),
        0 <= m <= front.spec_height(),
    ensures
        grid_updates(front, back, m) == Seq::<CellUpdate>::empty(),
    decreases m,
{
    if m > 0 {
        lemma_diff_of_equal_buffers_is_empty(front, back, m - 1);
        lemma_row_updates_unchanged(front, back, m - 1, front.spec_width() as int);
        assert(grid_updates(front, back, m) =~= Seq::<CellUpdate>::empty());
    }
}

proof fn lemma_row_updates_unchanged(front: ScreenBuffer, back: ScreenBuffer, y: int, n: int)
    requires
        front.rows() == back.rows(),
    ensures
        row_updates(front, back, y, n) == Seq::<CellUpdate>::empty(),
    decreases n,
{
    if n > 0 {
        lemma_row_updates_unchanged(front, back, y, n - 1);
        assert(row_updates(front, back, y, n) =~= Seq::<CellUpdate>::empty());
    }
}

proof fn lemma_row_updates_single(front: ScreenBuffer, back: ScreenBuffer, x: int, y: int, n: int)
    requires
        forall|i: int| 0 <= i < n && i != x ==> !#[trigger] cell_changed(front, back, i, y),
        0 <= x ==> cell_changed(front, back, x, y),
    ensures
        row_updates(front, back, y, n) == (if 0 <= x < n {
            seq![CellUpdate::Single { x: x as u16, y: y as u16, cell: back.cell(x, y) }]
        } else {
            Seq::<CellUpdate>::empty()
        }),
    decreases n,
{
    if n > 0 {
        lemma_row_updates_single(front, back, x, y, n - 1);
        if n - 1 != x {
            assert(!cell_changed(front, back, n - 1, y));
        }
        assert(row_updates(front, back, y, n) =~= (if 0 <= x < n {
            seq![CellUpdate::Single { x: x as u16, y: y as u16, cell: back.cell(x, y) }]
        } else {
            Seq::<CellUpdate>::empty()
        }));
    }
}

proof fn lemma_grid_updates_single(front: ScreenBuffer, back: ScreenBuffer, x: int, y: int, m: int)
    requires
        0 <= x < front.spec_width(),
        0 <= y,
        m <= front.spec_height(),
        cell_changed(front, back, x, y),
        forall|i: int, j: int| (i != x || j != y) ==> !#[trigger] cell_changed(front, back, i, j),
    ensures
        grid_updates(front, back, m) == (if y < m {
            seq![CellUpdate::Single { x: x as u16, y: y as u16, cell: back.cell(x, y) }]
        } else {
            Seq::<CellUpdate>::empty()
        }),
    decreases m,
{
    if m > 0 {
        lemma_grid_updates_single(front, back, x, y, m - 1);
        let w = front.spec_width() as int;
        if m - 1 == y {
            lemma_row_updates_single(front, back, x, y, w);
        } else {
            lemma_row_updates_single(front, back, -1, m - 1, w);
        }
        assert(grid_updates(front, back, m) =~= (if y < m {
            seq![CellUpdate::Single { x: x as u16, y: y as u16, cell: back.cell(x, y) }]
        } else {
            Seq::<CellUpdate>::empty()
        }));
    }
}

/// When the back buffer differs from the front buffer in a single cell,
/// the diff is that one cell, carrying the back buffer's content.
pub proof fn lemma_diff_of_one_changed_cell(front: ScreenBuffer, back: ScreenBuffer, x: int, y: int)
    requires
        front.wf(),
        back.wf(),
        front.spec_width() == back.spec_width(),
        front.spec_height() == back.spec_height(),
        0 <= x < front.spec_width(),
        0 <= y < front.spec_height(),
        front.cell(x, y) != back.cell(x, y),
        forall|i: int, j: int| (i != x || j != y) && back.in_bounds(i, j) ==> #[trigger] back.cell(i, j) == front.cell(i, j),
    ensures
        grid_updates(front, back, front.spec_height() as int)
            == seq![CellUpdate::Single { x: x as u16, y: y as u16, cell: back.cell(x, y) }],
{
    assert forall|i: int, j: int| (i != x || j != y) implies !#[trigger] cell_changed(front, back, i, j) by {
        if back.in_bounds(i, j) {
            assert(back.cell(i, j) == front.cell(i, j));
        }
    }
    lemma_grid_updates_single(front, back, x, y, front.spec_height() as int);
}

/// Rows `a` and `b` agree cell by cell, except cells that carry attributes
/// `sa` in `a` where `b` has the same cell with attributes `sb`.
pub open spec fn same_but_attributes(a: Seq<Cell>, b: Seq<Cell>, sa: CellStyle, sb: CellStyle) -> bool {
    &&& a.len() == b.len()
    &&& forall|i: int| 0 <= i < a.len() ==> #[trigger] a[i] == b[i] || (a[i] == Cell { style: sa, ..b[i] } && b[i].style == sb)
}

/// Putting a cell keeps the row's length and its other cells.
pub proof fn lemma_put_keeps_length(row: Seq<Cell>, i: int, c: Cell)
    ensures
        put(row, i, c).len() == row.len(),
        forall|k: int| 0 <= k < row.len() && k != i ==> #[trigger] put(row, i, c)[k] == row[k],
        0 <= i < row.len() ==> put(row, i, c)[i] == c,
{
}

proof fn lemma_paint_keeps_same_but_attributes(
    a: Seq<Cell>,
    b: Seq<Cell>,
    pos: int,
    cs: Seq<char>,
    fg: Option<Color>,
    bg: Option<Color>,
    sa: CellStyle,
    sb: CellStyle,
)
    requires
        same_but_attributes(a, b, sa, sb),
    ensures
        same_but_attributes(paint(a, pos, cs, fg, bg, sa), paint(b, pos, cs, fg, bg, sb), sa, sb),
    decreases cs.len(),
{
    if cs.len() > 0 {
        let w = char_cols(cs[0]);
        if pos + w <= a.len() {
            let a1 = paint_step(a, pos, cs[0], fg, bg, sa);
            let b1 = paint_step(b, pos, cs[0], fg, bg, sb);
            let ca = Cell { char: cs[0], fg, bg, style: sa };
            let cb = Cell { char: cs[0], fg, bg, style: sb };
            let sp_a = Cell { char: ' ', fg, bg, style: sa };
            let sp_b = Cell { char: ' ', fg, bg, style: sb };
            lemma_put_keeps_length(a, pos, ca);
            lemma_put_keeps_length(b, pos, cb);
            lemma_put_keeps_length(put(a, pos, ca), pos + 1, sp_a);
            lemma_put_keeps_length(put(b, pos, cb), pos + 1, sp_b);
            assert(a1.len() == a.len());
            assert(b1.len() == b.len());
            assert(same_but_attributes(a1, b1, sa, sb)) by {
                assert forall|i: int| 0 <= i < a1.len() implies #[trigger] a1[i] == b1[i] || (a1[i] == Cell { style: sa, ..b1[i] } && b1[i].style == sb) by {
                    if i == pos || (char_cols(cs[0]) == 2 && i == pos + 1) {
                    } else {
                        assert(a1[i] == a[i] && b1[i] == b[i]);
                    }
                }
            }
            lemma_paint_keeps_same_but_attributes(a1, b1, pos + w, cs.drop_first(), fg, bg, sa, sb);
        }
    }
}

/// Writing text with attributes `st` touches the same cells, with the same
/// characters and colors, as writing it without attributes: each cell of
/// the two results is either the same or differs only in carrying `st`
/// where the other carries no attribute.
pub proof fn lemma_styled_write_matches_plain_write(
    buf: ScreenBuffer,
    x: int,
    y: int,
    cs: Seq<char>,
    fg: Option<Color>,
    bg: Option<Color>,
    st: CellStyle,
)
    requires
        buf.wf(),
    ensures
        ({
            let styled = buf.written(x, y, cs, fg, bg, st);
            let plain = buf.written(x, y, cs, fg, bg, plain_style());
            &&& styled.len() == plain.len()
            &&& forall|j: int| 0 <= j < styled.len() ==> same_but_attributes(#[trigger] styled[j], plain[j], st, plain_style())
        }),
{
    let styled = buf.written(x, y, cs, fg, bg, st);
    let plain = buf.written(x, y, cs, fg, bg, plain_style());
    assert forall|j: int| 0 <= j < styled.len() implies same_but_attributes(#[trigger] styled[j], plain[j], st, plain_style()) by {
        let row = buf.rows()[j];
        assert(same_but_attributes(row, row, st, plain_style()));
        if j == y {
            lemma_paint_keeps_same_but_attributes(row, row, x, cs, fg, bg, st, plain_style());
        }
    }
}

/// Painting one-column characters from `pos` with attributes `sa` gives the
/// row painted with `sb`, except that the cells from `lo` up to the end of
/// the text carry `sa`.
proof fn lemma_paint_single_width_restyled(
    ra: Seq<Cell>,
    rb: Seq<Cell>,
    lo: int,
    pos: int,
    cs: Seq<char>,
    fg: Option<Color>,
    bg: Option<Color>,
    sa: CellStyle,
    sb: CellStyle,
)
    requires
        ra.len() == rb.len(),
        0 <= lo <= pos,
        forall|i: int| 0 <= i < cs.len() ==> char_cols(#[trigger] cs[i]) == 1,
        forall|k: int| 0 <= k < ra.len() ==> #[trigger] ra[k] == (if lo <= k < pos { Cell { style: sa, ..rb[k] } } else { rb[k] }),
    ensures
        paint(ra, pos, cs, fg, bg, sa).len() == ra.len(),
        paint(rb, pos, cs, fg, bg, sb).len() == rb.len(),
        forall|k: int| 0 <= k < ra.len() ==> #[trigger] paint(ra, pos, cs, fg, bg, sa)[k] == (if lo <= k < pos + cs.len() {
            Cell { style: sa, ..paint(rb, pos, cs, fg, bg, sb)[k] }
        } else {
            paint(rb, pos, cs, fg, bg, sb)[k]
        }),
    decreases cs.len(),
{
    if cs.len() > 0 && pos + char_cols(cs[0]) <= ra.len() {
        assert(char_cols(cs[0]) == 1);
        let c = cs[0];
        let sta = paint_step(ra, pos, c, fg, bg, sa);
        let stb = paint_step(rb, pos, c, fg, bg, sb);
        assert(sta == put(ra, pos, Cell { char: c, fg, bg, style: sa }));
        assert(stb == put(rb, pos, Cell { char: c, fg, bg, style: sb }));
        lemma_put_keeps_length(ra, pos, Cell { char: c, fg, bg, style: sa });
        lemma_put_keeps_length(rb, pos, Cell { char: c, fg, bg, style: sb });
        assert forall|i: int| 0 <= i < cs.drop_first().len() implies char_cols(#[trigger] cs.drop_first()[i]) == 1 by {
            assert(cs.drop_first()[i] == cs[i + 1]);
        }
        assert forall|k: int| 0 <= k < sta.len() implies #[trigger] sta[k] == (if lo <= k < pos + 1 { Cell { style: sa, ..stb[k] } } else { stb[k] }) by {
            if k != pos {
                assert(sta[k] == ra[k] && stb[k] == rb[k]);
                assert(ra[k] == (if lo <= k < pos { Cell { style: sa, ..rb[k] } } else { rb[k] }));
            }
        }
        lemma_paint_single_width_restyled(sta, stb, lo, pos + 1, cs.drop_first(), fg, bg, sa, sb);
    }
}

/// Law: for text of one-column characters, `write_styled_str` gives the
/// buffer that `write_str` gives with the text style's colors (none when
/// there is no style), except that every cell written (row `y`, from column
/// `x` for the text's length, up to the buffer's edge) carries the text
/// style's attributes.
pub proof fn lemma_styled_write_is_restyled_plain_write(buf: ScreenBuffer, x: u16, y: u16, text: Seq<char>, text_style: Option<TextStyle>)
    requires
        buf.wf(),
        forall|i: int| 0 <= i < text.len() ==> char_cols(#[trigger] text[i]) == 1,
    ensures
        ({
            let (fg, bg, st) = match text_style {
                Some(t) => (t.color, t.background, style_of_text(t)),
                None => (None, None, plain_style()),
            };
            let styled = buf.written(x as int, y as int, text, fg, bg, st);
            let plain = buf.written(x as int, y as int, text, fg, bg, plain_style());
            &&& styled.len() == plain.len()
            &&& forall|j: int| 0 <= j < styled.len() ==> #[trigger] styled[j].len() == plain[j].len()
            &&& forall|j: int, k: int| 0 <= j < styled.len() && 0 <= k < styled[j].len() ==> #[trigger] styled[j][k] == (if j == y && x <= k < x + text.len() {
                Cell { style: st, ..plain[j][k] }
            } else {
                plain[j][k]
            })
        }),
{
    let (fg, bg, st) = match text_style {
        Some(t) => (t.color, t.background, style_of_text(t)),
        None => (None, None, plain_style()),
    };
    if 0 <= y < buf.spec_height() {
        let row = buf.rows()[y as int];
        lemma_paint_single_width_restyled(row, row, x as int, x as int, text, fg, bg, st, plain_style());
    }
}

/// A row of `width` empty cells.
fn blank_row(width: u16) -> (r: Vec<Cell>)
    ensures
        r@ == Seq::new(width as nat, |x: int| blank_cell()),
{
    let mut row: Vec<Cell> = Vec::new();
    let mut x: u16 = 0;
    while x < width
        invariant
            x <= width,
            row@ == Seq::new(x as nat, |i: int| blank_cell()),
        decreases width - x,
    {
        row.push(Cell::empty());
        x = x + 1;
        assert(row@ =~= Seq::new(x as nat, |i: int| blank_cell()));
    }
    row
}

/// Resizes one row to `width` cells, padding with empty cells.
fn resize_row(row: &mut Vec<Cell>, width: u16)
    ensures
        final(row)@ == Seq::new(
            width as nat,
            |x: int| if x < old(row)@.len() { old(row)@[x] } else { blank_cell() },
        ),
{
    if (width as usize) < row.len() {
        row.truncate(width as usize);
    }
    let keep = row.len();
    while row.len() < width as usize
        invariant
            keep <= row@.len() <= width,
            keep == if old(row)@.len() < width { old(row)@.len() } else { width as nat },
            forall|x: int| 0 <= x < keep ==> #[trigger] row@[x] == old(row)@[x],
            forall|x: int| keep <= x < row@.len() ==> #[trigger] row@[x] == blank_cell(),
        decreases width - row@.len(),
    {
        row.push(Cell::empty());
    }
    assert(row@ =~= Seq::new(
        width as nat,
        |x: int| if x < old(row)@.len() { old(row)@[x] } else { blank_cell() },
    ));
}

} // verus!
