//! Drawing render nodes into a screen buffer: rectangles and clipping,
//! where a scrolled node lands, the clip its children get, and the border
//! and background an element paints.
use vstd::prelude::*;
use crate::buffer::{Cell, CellStyle, ScreenBuffer, paint, plain_style, style_of_text, write_overflows};
use crate::unicode::{chars_of, chars_width, column_slice, columns_of, display_width, slice_columns};
use crate::layout::{RenderNode, RenderNodeType, TextSpan, border_offset_of, padding_of};
use crate::style::{Border, BorderEdges, BorderStyle, Color, Overflow, Spacing, Style, TextAlign};

verus! {

/// A rectangle of cells: its top-left corner and its size.
#[derive(Debug, Clone, Copy, PartialEq, Eq, Structural)]
pub struct Rect {
    pub x: u16,
    pub y: u16,
    pub width: u16,
    pub height: u16,
}

/// `a + b`, held at `u16::MAX`.
pub open spec fn add_held(a: int, b: int) -> int {
    if a + b > 65535 { 65535 } else { a + b }
}

/// The smaller of two integers.
pub open spec fn min_of(a: int, b: int) -> int {
    if a <= b { a } else { b }
}

/// The larger of two integers.
pub open spec fn max_of(a: int, b: int) -> int {
    if a >= b { a } else { b }
}

/// The column just right of a rectangle (held at `u16::MAX`).
pub open spec fn right_of(r: Rect) -> int {
    add_held(r.x as int, r.width as int)
}

/// The row just below a rectangle (held at `u16::MAX`).
pub open spec fn bottom_of(r: Rect) -> int {
    add_held(r.y as int, r.height as int)
}

/// Whether the cell `(x, y)` lies in the rectangle.
pub open spec fn inside(r: Rect, x: int, y: int) -> bool {
    r.x <= x < right_of(r) && r.y <= y < bottom_of(r)
}

/// Whether two rectangles share a cell.
pub open spec fn overlap(a: Rect, b: Rect) -> bool {
    a.x < right_of(b) && b.x < right_of(a) && a.y < bottom_of(b) && b.y < bottom_of(a)
}

/// The common part of two rectangles, of no width or height when they
/// share no cell.
pub open spec fn common(a: Rect, b: Rect) -> Rect {
    let x = max_of(a.x as int, b.x as int);
    let y = max_of(a.y as int, b.y as int);
    let r = min_of(right_of(a), right_of(b));
    let bt = min_of(bottom_of(a), bottom_of(b));
    Rect {
        x: x as u16,
        y: y as u16,
        width: (if r > x { r - x } else { 0 }) as u16,
        height: (if bt > y { bt - y } else { 0 }) as u16,
    }
}

/// The smallest rectangle holding both: from the smaller corner to the
/// larger right column and bottom row.
pub open spec fn hull(a: Rect, b: Rect) -> Rect {
    let x = min_of(a.x as int, b.x as int);
    let y = min_of(a.y as int, b.y as int);
    Rect {
        x: x as u16,
        y: y as u16,
        width: (max_of(right_of(a), right_of(b)) - x) as u16,
        height: (max_of(bottom_of(a), bottom_of(b)) - y) as u16,
    }
}

/// Whether two rectangles touch side by side without overlapping: one's
/// right column is the other's left and their rows overlap, or one's
/// bottom row is the other's top and their columns overlap.
pub open spec fn touching(a: Rect, b: Rect) -> bool {
    ((right_of(a) == b.x || right_of(b) == a.x) && !(bottom_of(a) <= b.y || bottom_of(b) <= a.y))
        || ((bottom_of(a) == b.y || bottom_of(b) == a.y) && !(right_of(a) <= b.x || right_of(b) <= a.x))
}

impl Rect {
    /// The rectangle with the given corner and size.
    pub fn new(x: u16, y: u16, width: u16, height: u16) -> (r: Rect)
        ensures
            r == (Rect { x, y, width, height }),
    {
        Rect { x, y, width, height }
    }

    /// The rectangle at the origin with no size.
    pub fn empty() -> (r: Rect)
        ensures
            r == (Rect { x: 0, y: 0, width: 0, height: 0 }),
    {
        Rect { x: 0, y: 0, width: 0, height: 0 }
    }

    /// The column just right of the rectangle.
    pub fn right(&self) -> (r: u16)
        ensures
            r == right_of(*self),
    {
        self.x.saturating_add(self.width)
    }

    /// The row just below the rectangle.
    pub fn bottom(&self) -> (b: u16)
        ensures
            b == bottom_of(*self),
    {
        self.y.saturating_add(self.height)
    }

    /// Whether the cell `(x, y)` lies in the rectangle.
    pub fn contains_point(&self, x: u16, y: u16) -> (b: bool)
        ensures
            b == inside(*self, x as int, y as int),
    {
        x >= self.x && x < self.right() && y >= self.y && y < self.bottom()
    }

    /// Whether the two rectangles share a cell.
    pub fn intersects(&self, other: &Rect) -> (b: bool)
        ensures
            b == overlap(*self, *other),
    {
        self.x < other.right() && other.x < self.right() && self.y < other.bottom() && other.y < self.bottom()
    }

    /// The smallest rectangle holding both (see `hull`).
    pub fn union(&self, other: &Rect) -> (r: Rect)
        ensures
            r == hull(*self, *other),
    {
        let x = if self.x <= other.x { self.x } else { other.x };
        let y = if self.y <= other.y { self.y } else { other.y };
        let r1 = self.right();
        let r2 = other.right();
        let b1 = self.bottom();
        let b2 = other.bottom();
        let r = if r1 >= r2 { r1 } else { r2 };
        let bt = if b1 >= b2 { b1 } else { b2 };
        Rect { x, y, width: r - x, height: bt - y }
    }

    /// The common part of the two rectangles (see `common`).
    pub fn intersection(&self, other: &Rect) -> (r: Rect)
        ensures
            r == common(*self, *other),
    {
        let x = if self.x >= other.x { self.x } else { other.x };
        let y = if self.y >= other.y { self.y } else { other.y };
        let r1 = self.right();
        let r2 = other.right();
        let b1 = self.bottom();
        let b2 = other.bottom();
        let r = if r1 <= r2 { r1 } else { r2 };
        let bt = if b1 <= b2 { b1 } else { b2 };
        Rect { x, y, width: if r > x { r - x } else { 0 }, height: if bt > y { bt - y } else { 0 } }
    }
}

/// A cell shares a point with both rectangles exactly when it lies in
/// their common part.
pub proof fn lemma_common_is_intersection(a: Rect, b: Rect, x: int, y: int)
    ensures
        inside(common(a, b), x, y) <==> inside(a, x, y) && inside(b, x, y),
{
}

/// The characters of a border: corners and edges.
#[derive(Debug, Clone, Copy, PartialEq, Eq, Structural)]
pub struct BorderGlyphs {
    pub top_left: char,
    pub top: char,
    pub top_right: char,
    pub left: char,
    pub right: char,
    pub bottom_left: char,
    pub bottom: char,
    pub bottom_right: char,
}

/// The characters each border style draws with.
pub open spec fn glyphs_of(style: BorderStyle) -> BorderGlyphs {
    match style {
        BorderStyle::Single => BorderGlyphs {
            top_left: '┌', top: '─', top_right: '┐', left: '│', right: '│',
            bottom_left: '└', bottom: '─', bottom_right: '┘',
        },
        BorderStyle::Double => BorderGlyphs {
            top_left: '╔', top: '═', top_right: '╗', left: '║', right: '║',
            bottom_left: '╚', bottom: '═', bottom_right: '╝',
        },
        BorderStyle::Thick => BorderGlyphs {
            top_left: '┏', top: '━', top_right: '┓', left: '┃', right: '┃',
            bottom_left: '┗', bottom: '━', bottom_right: '┛',
        },
        BorderStyle::Rounded => BorderGlyphs {
            top_left: '╭', top: '─', top_right: '╮', left: '│', right: '│',
            bottom_left: '╰', bottom: '─', bottom_right: '╯',
        },
        BorderStyle::Dashed => BorderGlyphs {
            top_left: '┌', top: '╌', top_right: '┐', left: '╎', right: '╎',
            bottom_left: '└', bottom: '╌', bottom_right: '┘',
        },
    }
}

/// The characters a border style draws with (see `glyphs_of`).
pub fn border_glyphs(style: BorderStyle) -> (g: BorderGlyphs)
    ensures
        g == glyphs_of(style),
{
    match style {
        BorderStyle::Single => BorderGlyphs {
            top_left: '┌', top: '─', top_right: '┐', left: '│', right: '│',
            bottom_left: '└', bottom: '─', bottom_right: '┘',
        },
        BorderStyle::Double => BorderGlyphs {
            top_left: '╔', top: '═', top_right: '╗', left: '║', right: '║',
            bottom_left: '╚', bottom: '═', bottom_right: '╝',
        },
        BorderStyle::Thick => BorderGlyphs {
            top_left: '┏', top: '━', top_right: '┓', left: '┃', right: '┃',
            bottom_left: '┗', bottom: '━', bottom_right: '┛',
        },
        BorderStyle::Rounded => BorderGlyphs {
            top_left: '╭', top: '─', top_right: '╮', left: '│', right: '│',
            bottom_left: '╰', bottom: '─', bottom_right: '╯',
        },
        BorderStyle::Dashed => BorderGlyphs {
            top_left: '┌', top: '╌', top_right: '┐', left: '╎', right: '╎',
            bottom_left: '└', bottom: '╌', bottom_right: '┘',
        },
    }
}

/// Whether an edge set holds the edge or corner with the given bit.
pub open spec fn has_edge(edges: BorderEdges, bit: u8) -> bool {
    edges.spec_bits() & bit == bit
}

/// What an element paints: where it is drawn (`x`, `y`, its size), the
/// part of it that is visible (`area`), the border it draws (only an
/// enabled border of an element at least two cells wide and high), the
/// background of its border cells, and the background it fills with.
#[derive(Debug, Clone, Copy, PartialEq, Eq, Structural)]
pub struct ElementPaint {
    pub x: u16,
    pub y: u16,
    pub width: u16,
    pub height: u16,
    pub area: Rect,
    pub border: Option<Border>,
    pub border_bg: Option<Color>,
    pub fill: Option<Color>,
}

/// The character a border row draws at column `x`: a corner where its
/// corner is enabled, the edge between the corners, a space at a corner
/// that is not enabled.
pub open spec fn row_glyph(p: ElementPaint, corner_left: bool, corner_right: bool, left: char, mid: char, right: char, x: int) -> char {
    let rx2 = p.x + p.width - 1;
    if x == p.x && x >= p.area.x && corner_left {
        left
    } else if x == rx2 && x < right_of(p.area) && corner_right {
        right
    } else if x != p.x && x != rx2 {
        mid
    } else {
        ' '
    }
}

/// The character the border puts at `(x, y)`, if it puts one there: the
/// top and bottom rows across the visible columns, the left and right
/// columns between them, and a corner alone where its two edges are
/// missing; only within the visible part.
pub open spec fn border_glyph_at(p: ElementPaint, b: Border, x: int, y: int) -> Option<char> {
    let g = glyphs_of(b.style);
    let e = b.edges;
    let rx2 = p.x + p.width - 1;
    let by = p.y + p.height - 1;
    let l = p.area.x as int;
    let r = right_of(p.area);
    let t = p.area.y as int;
    let bt = bottom_of(p.area);
    let in_cols = l <= x < r;
    if y == p.y && has_edge(e, 1) && t == p.y && p.area.height > 0 && in_cols {
        Some(row_glyph(p, has_edge(e, 16), has_edge(e, 32), g.top_left, g.top, g.top_right, x))
    } else if y == by && has_edge(e, 4) && by < bt && by >= t && in_cols {
        Some(row_glyph(p, has_edge(e, 128), has_edge(e, 64), g.bottom_left, g.bottom, g.bottom_right, x))
    } else if max_of(t, p.y + 1) <= y < min_of(bt, by) && x == p.x && has_edge(e, 8) && l <= p.x < r {
        Some(g.left)
    } else if max_of(t, p.y + 1) <= y < min_of(bt, by) && x == rx2 && has_edge(e, 2) && l <= rx2 < r {
        Some(g.right)
    } else if x == p.x && y == p.y && !has_edge(e, 1) && !has_edge(e, 8) && has_edge(e, 16) && in_cols && t <= y < bt {
        Some(g.top_left)
    } else if x == rx2 && y == p.y && !has_edge(e, 1) && !has_edge(e, 2) && has_edge(e, 32) && in_cols && t <= y < bt {
        Some(g.top_right)
    } else if x == p.x && y == by && !has_edge(e, 4) && !has_edge(e, 8) && has_edge(e, 128) && in_cols && t <= y < bt {
        Some(g.bottom_left)
    } else if x == rx2 && y == by && !has_edge(e, 4) && !has_edge(e, 2) && has_edge(e, 64) && in_cols && t <= y < bt {
        Some(g.bottom_right)
    } else {
        None
    }
}

/// Whether `(x, y)` is on the outer ring of the element.
pub open spec fn on_ring(p: ElementPaint, x: int, y: int) -> bool {
    (y == p.y || y == p.y + p.height - 1) || (x == p.x || x == p.x + p.width - 1)
}

/// The cell at `(x, y)` after the element paints over `old`: first the
/// border character (colored, on the border background; a space keeps no
/// color), then the fill: on the ring of a bordered element only a missing
/// background is filled in, elsewhere the cell becomes a blank on the fill.
pub open spec fn painted_cell(p: ElementPaint, x: int, y: int, old: Cell) -> Cell {
    let c1 = match p.border {
        Some(b) => match border_glyph_at(p, b, x, y) {
            Some(ch) => Cell {
                char: ch,
                fg: if ch != ' ' { Some(b.color) } else { None },
                bg: p.border_bg,
                style: plain_style(),
            },
            None => old,
        },
        None => old,
    };
    match p.fill {
        Some(bg) => if p.border is Some && on_ring(p, x, y) {
            if c1.bg is None { Cell { bg: Some(bg), ..c1 } } else { c1 }
        } else {
            Cell { char: ' ', fg: None, bg: Some(bg), style: plain_style() }
        },
        None => c1,
    }
}

/// Whether the element's border coordinates fit in `u16`.
pub open spec fn paint_fits(p: ElementPaint) -> bool {
    p.border is Some ==> p.x + p.width <= 65535 && p.y + p.height <= 65535 && p.width > 1 && p.height > 1
}

/// The character a border row draws at column `x` (see `row_glyph`).
fn row_glyph_exec(p: &ElementPaint, corner_left: bool, corner_right: bool, left: char, mid: char, right: char, x: u16) -> (c: char)
    requires
        paint_fits(*p),
        p.border is Some,
    ensures
        c == row_glyph(*p, corner_left, corner_right, left, mid, right, x as int),
{
    let rx2 = p.x + p.width - 1;
    if x == p.x && x >= p.area.x && corner_left {
        left
    } else if x == rx2 && x < p.area.right() && corner_right {
        right
    } else if x != p.x && x != rx2 {
        mid
    } else {
        ' '
    }
}

/// The character the border puts at `(x, y)` (see `border_glyph_at`).
fn border_glyph_exec(p: &ElementPaint, b: &Border, x: u16, y: u16) -> (r: Option<char>)
    requires
        paint_fits(*p),
        p.border == Some(*b),
    ensures
        r == border_glyph_at(*p, *b, x as int, y as int),
{
    let g = border_glyphs(b.style);
    let e = b.edges;
    let top = e.contains(BorderEdges::top());
    let right_edge = e.contains(BorderEdges::right());
    let bottom = e.contains(BorderEdges::bottom());
    let left_edge = e.contains(BorderEdges::left());
    let tl = e.contains(BorderEdges::top_left());
    let tr = e.contains(BorderEdges::top_right());
    let br = e.contains(BorderEdges::bottom_right());
    let bl = e.contains(BorderEdges::bottom_left());
    let rx2 = p.x + p.width - 1;
    let by = p.y + p.height - 1;
    let l = p.area.x;
    let r = p.area.right();
    let t = p.area.y;
    let bt = p.area.bottom();
    let in_cols = l <= x && x < r;
    let side_lo = if t >= p.y + 1 { t } else { p.y + 1 };
    let side_hi = if bt <= by { bt } else { by };
    let in_side_rows = side_lo <= y && y < side_hi;
    if y == p.y && top && t == p.y && p.area.height > 0 && in_cols {
        Some(row_glyph_exec(p, tl, tr, g.top_left, g.top, g.top_right, x))
    } else if y == by && bottom && by < bt && by >= t && in_cols {
        Some(row_glyph_exec(p, bl, br, g.bottom_left, g.bottom, g.bottom_right, x))
    } else if in_side_rows && x == p.x && left_edge && l <= p.x && p.x < r {
        Some(g.left)
    } else if in_side_rows && x == rx2 && right_edge && l <= rx2 && rx2 < r {
        Some(g.right)
    } else if x == p.x && y == p.y && !top && !left_edge && tl && in_cols && t <= y && y < bt {
        Some(g.top_left)
    } else if x == rx2 && y == p.y && !top && !right_edge && tr && in_cols && t <= y && y < bt {
        Some(g.top_right)
    } else if x == p.x && y == by && !bottom && !left_edge && bl && in_cols && t <= y && y < bt {
        Some(g.bottom_left)
    } else if x == rx2 && y == by && !bottom && !right_edge && br && in_cols && t <= y && y < bt {
        Some(g.bottom_right)
    } else {
        None
    }
}

/// The cell at `(x, y)` after the element paints over `old` (see
/// `painted_cell`).
fn paint_cell(p: &ElementPaint, x: u16, y: u16, old: Cell) -> (c: Cell)
    requires
        paint_fits(*p),
    ensures
        c == painted_cell(*p, x as int, y as int, old),
{
    let c1 = match &p.border {
        Some(b) => match border_glyph_exec(p, b, x, y) {
            Some(ch) => Cell {
                char: ch,
                fg: if ch != ' ' { Some(b.color) } else { None },
                bg: p.border_bg,
                style: crate::buffer::CellStyle { bold: false, italic: false, underline: false, strikethrough: false },
            },
            None => old,
        },
        None => old,
    };
    match p.fill {
        Some(bg) => {
            let ring = p.border.is_some() && ((y == p.y || y == p.y + p.height - 1) || (x == p.x || x == p.x + p.width - 1));
            if ring {
                if c1.bg.is_none() { Cell { bg: Some(bg), ..c1 } } else { c1 }
            } else {
                Cell {
                    char: ' ',
                    fg: None,
                    bg: Some(bg),
                    style: crate::buffer::CellStyle { bold: false, italic: false, underline: false, strikethrough: false },
                }
            }
        },
        None => c1,
    }
}

/// Paints an element's border and background into the buffer: every cell
/// of the buffer in the visible part becomes `painted_cell` of what it held,
/// every other cell keeps what it held.
pub fn paint_element(buffer: &mut ScreenBuffer, p: &ElementPaint)
    requires
        old(buffer).wf(),
        paint_fits(*p),
    ensures
        final(buffer).wf(),
        final(buffer).spec_width() == old(buffer).spec_width(),
        final(buffer).spec_height() == old(buffer).spec_height(),
        forall|x: int, y: int| #[trigger] old(buffer).in_bounds(x, y) ==> final(buffer).cell(x, y) == (if inside(p.area, x, y) {
            painted_cell(*p, x, y, old(buffer).cell(x, y))
        } else {
            old(buffer).cell(x, y)
        }),
{
    let ghost start = *buffer;
    let top = p.area.y;
    let bt = p.area.bottom();
    let l = p.area.x;
    let r = p.area.right();
    let mut y = top;
    while y < bt
        invariant
            buffer.wf(),
            start.wf(),
            buffer.spec_width() == start.spec_width(),
            buffer.spec_height() == start.spec_height(),
            paint_fits(*p),
            top == p.area.y,
            bt == bottom_of(p.area),
            l == p.area.x,
            r == right_of(p.area),
            top <= y <= bt,
            forall|px: int, py: int| #[trigger] start.in_bounds(px, py) ==> buffer.cell(px, py) == (if inside(p.area, px, py) && py < y {
                painted_cell(*p, px, py, start.cell(px, py))
            } else {
                start.cell(px, py)
            }),
        decreases bt - y,
    {
        let mut x = l;
        while x < r
            invariant
                buffer.wf(),
                start.wf(),
                buffer.spec_width() == start.spec_width(),
                buffer.spec_height() == start.spec_height(),
                paint_fits(*p),
                top == p.area.y,
                bt == bottom_of(p.area),
                l == p.area.x,
                r == right_of(p.area),
                top <= y < bt,
                l <= x <= r || r < l,
                forall|px: int, py: int| #[trigger] start.in_bounds(px, py) ==> buffer.cell(px, py) == (if inside(p.area, px, py) && (py < y || (py == y && px < x)) {
                    painted_cell(*p, px, py, start.cell(px, py))
                } else {
                    start.cell(px, py)
                }),
            decreases r - x,
        {
            let current = buffer.get_cell(x, y);
            match current {
                Some(c) => {
                    let old_cell = *c;
                    let next = paint_cell(p, x, y, old_cell);
                    let ghost before = *buffer;
                    buffer.set_cell(x, y, next);
                    assert forall|px: int, py: int| #[trigger] start.in_bounds(px, py) implies buffer.cell(px, py) == (if inside(p.area, px, py) && (py < y || (py == y && px < x + 1)) {
                        painted_cell(*p, px, py, start.cell(px, py))
                    } else {
                        start.cell(px, py)
                    }) by {
                        if px == x && py == y {
                            assert(before.cell(px, py) == start.cell(px, py));
                        } else {
                            assert(buffer.cell(px, py) == before.cell(px, py));
                        }
                    }
                },
                None => {},
            }
            x = x + 1;
        }
        y = y + 1;
    }
}

/// The row a node is drawn at before clamping: its row less the scroll
/// offset of its ancestors.
pub open spec fn shown_row(node: RenderNode, scroll: i16) -> int {
    node.y - scroll
}

/// How many rows a node covers when drawn: wrapped text covers at least
/// its lines (their count taken modulo 2^16).
pub open spec fn visual_height(node: RenderNode) -> int {
    match node.node_type {
        RenderNodeType::TextWrapped(lines) => max_of(node.height as int, (lines@.len() % 65536) as int),
        RenderNodeType::RichTextWrapped(lines) => max_of(node.height as int, (lines@.len() % 65536) as int),
        _ => node.height as int,
    }
}

/// The row a node is drawn from: its shown row, 0 when that is above the
/// screen (taken modulo 2^16).
pub open spec fn drawn_row(node: RenderNode, scroll: i16) -> u16 {
    let ry = shown_row(node, scroll);
    if ry < 0 { 0 } else { (ry % 65536) as u16 }
}

/// The part of the screen a node covers: the rows above the screen are
/// cut off, and a node wholly above it covers nothing.
pub open spec fn node_rect(node: RenderNode, scroll: i16) -> Rect {
    let ry = shown_row(node, scroll);
    let vh = visual_height(node);
    if ry < 0 {
        if ry + vh > 0 {
            Rect { x: node.x, y: 0, width: node.width, height: (ry + vh) as u16 }
        } else {
            Rect { x: 0, y: 0, width: 0, height: 0 }
        }
    } else {
        Rect { x: node.x, y: (ry % 65536) as u16, width: node.width, height: vh as u16 }
    }
}

/// Whether a style clips its children (overflow hidden, scroll or auto).
pub open spec fn clips(style: Option<Style>) -> bool {
    match style {
        Some(s) => s.overflow == Some(Overflow::Hidden) || s.overflow == Some(Overflow::Scroll)
            || s.overflow == Some(Overflow::Auto),
        None => false,
    }
}

/// A node's padding box: inside its border, the rows above the screen cut
/// off.
pub open spec fn padding_box(node: RenderNode, scroll: i16) -> Rect {
    let bo = border_offset_of(node.style);
    let ry = shown_row(node, scroll);
    let pby: int = if ry + bo > 0 { (ry + bo) % 65536 } else { 0 };
    let pbw: int = if node.width > 2 * bo { node.width - 2 * bo } else { 0 };
    let pbh: int = if ry + bo < 0 {
        let below = ry + node.height;
        if below > bo { min_of(below - bo, node.height - 2 * bo) } else { 0 }
    } else if node.height > 2 * bo {
        node.height - 2 * bo
    } else {
        0
    };
    Rect { x: (node.x + bo) as u16, y: pby as u16, width: pbw as u16, height: pbh as u16 }
}

/// The clip a node's children get: for a clipping node its padding box
/// within the clip, otherwise the clip unchanged.
pub open spec fn child_clip(node: RenderNode, scroll: i16, clip: Rect) -> Rect {
    if clips(node.style) {
        common(padding_box(node, scroll), clip)
    } else {
        clip
    }
}

/// The background a node's style gives, else the inherited one.
pub open spec fn own_or_inherited(style: Option<Style>, parent_bg: Option<Color>) -> Option<Color> {
    match style {
        Some(s) => if s.background is Some { s.background } else { parent_bg },
        None => parent_bg,
    }
}

/// What an element paints (see `ElementPaint`).
pub open spec fn element_paint(node: RenderNode, scroll: i16, clip: Rect, parent_bg: Option<Color>) -> ElementPaint {
    let nb = node_rect(node, scroll);
    ElementPaint {
        x: node.x,
        y: drawn_row(node, scroll),
        width: node.width,
        height: node.height,
        area: common(nb, common(nb, clip)),
        border: match node.style {
            Some(s) => match s.border {
                Some(b) => if b.enabled && node.width > 1 && node.height > 1 { Some(b) } else { None },
                None => None,
            },
            None => None,
        },
        border_bg: own_or_inherited(node.style, parent_bg),
        fill: match node.style {
            Some(s) => s.background,
            None => None,
        },
    }
}

/// Whether a node has room for content inside its padding and border.
pub open spec fn has_content_room(node: RenderNode) -> bool {
    let p = padding_of(node.style);
    let b = border_offset_of(node.style);
    node.width > p.left + p.right + 2 * b && node.height > p.top + p.bottom + 2 * b
}

/// A `u16` read as an `i16` (two's complement).
pub open spec fn as_i16(v: u16) -> int {
    if v < 32768 { v as int } else { v - 65536 }
}

/// The scroll offset a node's children are drawn with: the node's own
/// scroll added when it scrolls.
pub open spec fn child_scroll(node: RenderNode, scroll: i16) -> int {
    if node.scrollable { scroll + as_i16(node.scroll_y) } else { scroll as int }
}

/// What an element hands its children: their clip, the background they
/// inherit, the scroll offset they are drawn with, and whether the
/// element's scrollbars are to be drawn after them.
#[derive(Debug, Clone, Copy, PartialEq, Eq, Structural)]
pub struct ChildPass {
    pub clip: Rect,
    pub background: Option<Color>,
    pub scroll_offset: i16,
    pub scrollbars: bool,
}

/// Whether an element's drawing stays within the integer types: its
/// border coordinates, its padding box corner, its padding sums and its
/// children's scroll offset.
pub open spec fn render_ok(node: RenderNode, scroll: i16, clip: Rect, parent_bg: Option<Color>) -> bool {
    let p = padding_of(node.style);
    let b = border_offset_of(node.style);
    overlap(node_rect(node, scroll), clip) ==> {
        &&& paint_fits(element_paint(node, scroll, clip, parent_bg))
        &&& clips(node.style) ==> node.x + b <= 65535
        &&& p.left + p.right + 2 * b <= 65535
        &&& p.top + p.bottom + 2 * b <= 65535
        &&& has_content_room(node) && node.scrollable ==> -32768 <= child_scroll(node, scroll) <= 32767
    }
}

/// What an element drawn with the given clip, inherited background and
/// scroll hands its children: nothing when it has no room for content.
pub open spec fn child_pass(node: RenderNode, scroll: i16, clip: Rect, parent_bg: Option<Color>) -> Option<ChildPass> {
    if has_content_room(node) {
        Some(ChildPass {
            clip: child_clip(node, scroll, clip),
            background: match node.style {
                Some(s) => if s.background is Some { s.background } else { parent_bg },
                None => parent_bg,
            },
            scroll_offset: child_scroll(node, scroll) as i16,
            scrollbars: node.scrollable && match node.style {
                Some(s) => match s.show_scrollbar {
                    Some(v) => v,
                    None => true,
                },
                None => true,
            },
        })
    } else {
        None
    }
}

/// The part of the screen a node covers (see `node_rect`), with the row it
/// is drawn from and its unclamped shown row.
pub fn node_bounds(node: &RenderNode, scroll: i16) -> (r: (Rect, u16, i32))
    ensures
        r.0 == node_rect(*node, scroll),
        r.1 == drawn_row(*node, scroll),
        r.2 == shown_row(*node, scroll),
{
    let ry: i32 = node.y as i32 - scroll as i32;
    let vh: u16 = match &node.node_type {
        RenderNodeType::TextWrapped(lines) => {
            let n = (lines.len() % 65536) as u16;
            if node.height >= n { node.height } else { n }
        },
        RenderNodeType::RichTextWrapped(lines) => {
            let n = (lines.len() % 65536) as u16;
            if node.height >= n { node.height } else { n }
        },
        _ => node.height,
    };
    let row: u16 = if ry < 0 { 0 } else if ry > 65535 { (ry - 65536) as u16 } else { ry as u16 };
    let rect = if ry < 0 {
        if ry + (vh as i32) > 0 {
            Rect { x: node.x, y: 0, width: node.width, height: (ry + vh as i32) as u16 }
        } else {
            Rect { x: 0, y: 0, width: 0, height: 0 }
        }
    } else {
        Rect { x: node.x, y: row, width: node.width, height: vh }
    };
    (rect, row, ry)
}

/// A node's padding box (see `padding_box`).
pub fn node_padding_box(node: &RenderNode, scroll: i16) -> (r: Rect)
    requires
        node.x + border_offset_of(node.style) <= 65535,
    ensures
        r == padding_box(*node, scroll),
{
    let bo: u16 = match &node.style {
        Some(style) => match &style.border {
            Some(b) => if b.enabled { 1 } else { 0 },
            None => 0,
        },
        None => 0,
    };
    let ry: i32 = node.y as i32 - scroll as i32;
    let pbx = node.x + bo;
    let shifted: i32 = ry + bo as i32;
    let pby: u16 = if shifted <= 0 { 0 } else if shifted > 65535 { (shifted - 65536) as u16 } else { shifted as u16 };
    let pbw: u16 = node.width.saturating_sub(bo * 2);
    let pbh: u16 = if shifted < 0 {
        let below: i32 = ry + node.height as i32;
        if below > bo as i32 {
            let a: i32 = below - bo as i32;
            let c: i32 = node.height as i32 - (bo as i32) * 2;
            assert(0 < a <= 65535);
            (if a <= c { a } else { c }) as u16
        } else {
            0
        }
    } else {
        node.height.saturating_sub(bo * 2)
    };
    Rect { x: pbx, y: pby, width: pbw, height: pbh }
}

/// The clip a node's children get (see `child_clip`).
pub fn children_clip(node: &RenderNode, scroll: i16, clip: &Rect) -> (r: Rect)
    requires
        clips(node.style) ==> node.x + border_offset_of(node.style) <= 65535,
    ensures
        r == child_clip(*node, scroll, *clip),
{
    let clipping = match &node.style {
        Some(style) => match style.overflow {
            Some(Overflow::Hidden) => true,
            Some(Overflow::Scroll) => true,
            Some(Overflow::Auto) => true,
            _ => false,
        },
        None => false,
    };
    if clipping {
        node_padding_box(node, scroll).intersection(clip)
    } else {
        *clip
    }
}

/// Draws an element (not its children): when it shows within the clip, its
/// border and background are painted as `paint_element` says and what its
/// children get is returned (`child_pass`); otherwise nothing is drawn and
/// `None` is returned.
pub fn render_element(node: &RenderNode, buffer: &mut ScreenBuffer, clip: &Rect, parent_bg: Option<Color>, scroll: i16) -> (r: Option<ChildPass>)
    requires
        old(buffer).wf(),
        render_ok(*node, scroll, *clip, parent_bg),
    ensures
        final(buffer).wf(),
        final(buffer).spec_width() == old(buffer).spec_width(),
        final(buffer).spec_height() == old(buffer).spec_height(),
        !overlap(node_rect(*node, scroll), *clip) ==> r is None && final(buffer).rows() == old(buffer).rows(),
        overlap(node_rect(*node, scroll), *clip) ==> {
            let p = element_paint(*node, scroll, *clip, parent_bg);
            &&& r == child_pass(*node, scroll, *clip, parent_bg)
            &&& forall|x: int, y: int| #[trigger] old(buffer).in_bounds(x, y) ==> final(buffer).cell(x, y) == (if inside(p.area, x, y) {
                painted_cell(p, x, y, old(buffer).cell(x, y))
            } else {
                old(buffer).cell(x, y)
            })
        },
{
    let (bounds, row, _shown) = node_bounds(node, scroll);
    if !bounds.intersects(clip) {
        return None;
    }
    let element_clip = bounds.intersection(clip);
    let kids_clip = children_clip(node, scroll, clip);
    let (border, fill, border_bg, padding, bo): (Option<Border>, Option<Color>, Option<Color>, Spacing, u16) = match &node.style {
        Some(style) => {
            let border = match &style.border {
                Some(b) => if b.enabled && node.width > 1 && node.height > 1 { Some(*b) } else { None },
                None => None,
            };
            let bo: u16 = match &style.border {
                Some(b) => if b.enabled { 1 } else { 0 },
                None => 0,
            };
            let padding = match style.padding {
                Some(p) => p,
                None => Spacing { top: 0, right: 0, bottom: 0, left: 0 },
            };
            let border_bg = if style.background.is_some() { style.background } else { parent_bg };
            (border, style.background, border_bg, padding, bo)
        },
        None => (None, None, parent_bg, Spacing { top: 0, right: 0, bottom: 0, left: 0 }, 0),
    };
    let paint = ElementPaint {
        x: node.x,
        y: row,
        width: node.width,
        height: node.height,
        area: bounds.intersection(&element_clip),
        border,
        border_bg,
        fill,
    };
    paint_element(buffer, &paint);
    let content_width = node.width.saturating_sub(padding.left + padding.right + bo * 2);
    let content_height = node.height.saturating_sub(padding.top + padding.bottom + bo * 2);
    if content_width > 0 && content_height > 0 {
        let offset: i16 = if node.scrollable {
            let own: i16 = if node.scroll_y < 32768 { node.scroll_y as i16 } else { (node.scroll_y as i32 - 65536) as i16 };
            scroll + own
        } else {
            scroll
        };
        let show = match &node.style {
            Some(s) => match s.show_scrollbar {
                Some(v) => v,
                None => true,
            },
            None => true,
        };
        Some(ChildPass { clip: kids_clip, background: fill_or(fill, parent_bg), scroll_offset: offset, scrollbars: node.scrollable && show })
    } else {
        None
    }
}

/// The fill color if there is one, else the inherited background.
fn fill_or(fill: Option<Color>, parent_bg: Option<Color>) -> (r: Option<Color>)
    ensures
        r == (if fill is Some { fill } else { parent_bg }),
{
    if fill.is_some() { fill } else { parent_bg }
}

/// How far text of `content` columns is moved right to align it in
/// `width` columns: not at all for left (or no) alignment, half the free
/// columns (rounded down) for center, all of them for right.
pub open spec fn align_shift(align: Option<TextAlign>, width: u16, content: u16) -> u16 {
    let free: int = if width > content { width - content } else { 0 };
    match align {
        Some(TextAlign::Center) => (free / 2) as u16,
        Some(TextAlign::Right) => free as u16,
        _ => 0,
    }
}

/// How far text is moved right to align it (see `align_shift`).
pub fn align_offset(align: Option<TextAlign>, width: u16, content: u16) -> (r: u16)
    ensures
        r == align_shift(align, width, content),
{
    let free = width.saturating_sub(content);
    match align {
        Some(TextAlign::Center) => free / 2,
        Some(TextAlign::Right) => free,
        _ => 0,
    }
}

/// The columns of a piece of text starting at column `x` and `columns`
/// wide that show within the clip's columns: the first and last-but-one
/// visible column of the text and the screen column it is drawn from;
/// `None` when no column shows.  The text's width is taken modulo 2^16.
pub open spec fn span_window(x: u16, columns: usize, clip: Rect) -> Option<(usize, usize, u16)> {
    let w = columns % 65536;
    if x + w > clip.x && x < right_of(clip) {
        let start: int = if x < clip.x { clip.x - x } else { 0 };
        let end: int = if x + w > right_of(clip) { right_of(clip) - x } else { columns as int };
        if start < end {
            Some((start as usize, end as usize, max_of(x as int, clip.x as int) as u16))
        } else {
            None
        }
    } else {
        None
    }
}

/// The visible columns of a piece of text (see `span_window`).
pub fn visible_span(x: u16, columns: usize, clip: &Rect) -> (r: Option<(usize, usize, u16)>)
    requires
        x + columns % 65536 <= 65535,
    ensures
        r == span_window(x, columns, *clip),
{
    let w: u16 = (columns % 65536) as u16;
    let right = clip.right();
    if x + w > clip.x && x < right {
        let start: usize = if x < clip.x { (clip.x - x) as usize } else { 0 };
        let end: usize = if x + w > right { (right - x) as usize } else { columns };
        if start < end {
            Some((start, end, if x >= clip.x { x } else { clip.x }))
        } else {
            None
        }
    } else {
        None
    }
}

/// The lines of wrapped text drawn from row `row` (its shown row
/// `shown`): those scrolled above the screen are skipped, the rest go one
/// per row, and the lines are drawn whose row lies within the clip's rows,
/// from the first line below the clip's top up to the first line at or
/// past its bottom.  The result is the first and last-but-one line index.
pub open spec fn line_window(shown: int, row: u16, count: usize, clip: Rect) -> (usize, usize) {
    let skip: int = if shown < 0 { -shown } else { 0 };
    let first: int = min_of(skip, count as int);
    let lo: int = if row >= clip.y { first } else { min_of(first + (clip.y - row), count as int) };
    let hi: int = if row >= bottom_of(clip) { first } else { min_of(first + (bottom_of(clip) - row), count as int) };
    (lo as usize, max_of(lo, hi) as usize)
}

/// The lines of wrapped text that are drawn (see `line_window`).
pub fn visible_lines(shown: i32, row: u16, count: usize, clip: &Rect) -> (r: (usize, usize))
    requires
        shown < 0 ==> row == 0,
    ensures
        r == line_window(shown as int, row, count, *clip),
{
    let skip: usize = if shown < 0 { (0i64 - shown as i64) as usize } else { 0 };
    let first: usize = if skip <= count { skip } else { count };
    let top = clip.y;
    let bottom = clip.bottom();
    let lo: usize = if row >= top {
        first
    } else {
        let gap = (top - row) as usize;
        if gap <= count - first { first + gap } else { count }
    };
    let hi: usize = if row >= bottom {
        first
    } else {
        let gap = (bottom - row) as usize;
        if gap <= count - first { first + gap } else { count }
    };
    (lo, if lo >= hi { lo } else { hi })
}

/// The order children are drawn in: by layer, the earlier child first
/// among children of one layer.
pub open spec fn drawn_before(z: Seq<i32>, a: int, b: int) -> bool {
    z[a] < z[b] || (z[a] == z[b] && a < b)
}

/// Whether `order` lists every index below `z.len()` once, in drawing
/// order.
pub open spec fn is_draw_order(z: Seq<i32>, order: Seq<usize>) -> bool {
    &&& order.len() == z.len()
    &&& forall|p: int| 0 <= p < order.len() ==> #[trigger] order[p] < z.len()
    &&& forall|p: int, q: int| 0 <= p < q < order.len() ==> drawn_before(z, order[p] as int, order[q] as int)
    &&& forall|k: usize| k < z.len() ==> #[trigger] order.contains(k)
}

/// `s` with child `i` placed after every child whose layer is not above
/// its own (a stable insertion by layer).
pub open spec fn insert_by_layer(z: Seq<i32>, s: Seq<usize>, i: usize) -> Seq<usize>
    decreases s.len(),
{
    if s.len() == 0 {
        seq![i]
    } else if !(z[i as int] < z[s.last() as int]) {
        s.push(i)
    } else {
        insert_by_layer(z, s.drop_last(), i).push(s.last())
    }
}

/// The first `k` children sorted by layer, stably.
pub open spec fn layer_order(z: Seq<i32>, k: int) -> Seq<usize>
    decreases k,
{
    if k <= 0 {
        Seq::empty()
    } else {
        insert_by_layer(z, layer_order(z, k - 1), (k - 1) as usize)
    }
}

proof fn lemma_insert_by_layer_at(z: Seq<i32>, s: Seq<usize>, i: usize, pos: int)
    requires
        0 <= pos <= s.len(),
        forall|p: int| 0 <= p < pos ==> !(z[i as int] < z[#[trigger] s[p] as int]),
        forall|p: int| pos <= p < s.len() ==> z[i as int] < z[#[trigger] s[p] as int],
    ensures
        insert_by_layer(z, s, i) == s.insert(pos, i),
    decreases s.len(),
{
    if s.len() == 0 {
        assert(s.insert(pos, i) =~= seq![i]);
    } else if pos == s.len() {
        assert(!(z[i as int] < z[s[s.len() - 1] as int]));
        assert(s.insert(pos, i) =~= s.push(i));
    } else {
        assert(z[i as int] < z[s[s.len() - 1] as int]);
        let t = s.drop_last();
        lemma_insert_by_layer_at(z, t, i, pos);
        assert(s.insert(pos, i) =~= t.insert(pos, i).push(s.last()));
    }
}

/// The order in which children with layers `z` are drawn: sorted by
/// layer, keeping the children's order within a layer.
pub fn draw_order(z: &Vec<i32>) -> (order: Vec<usize>)
    ensures
        is_draw_order(z@, order@),
        order@ == layer_order(z@, z@.len() as int),
{
    let n = z.len();
    let mut order: Vec<usize> = Vec::new();
    let mut i: usize = 0;
    while i < n
        invariant
            n == z@.len(),
            i <= n,
            order@.len() == i,
            forall|p: int| 0 <= p < order@.len() ==> #[trigger] order@[p] < i,
            forall|p: int, q: int| 0 <= p < q < order@.len() ==> drawn_before(z@, order@[p] as int, order@[q] as int),
            forall|k: usize| k < i ==> #[trigger] order@.contains(k),
            order@ == layer_order(z@, i as int),
        decreases n - i,
    {
        let zi = z[i];
        let mut pos: usize = 0;
        while pos < order.len() && z[order[pos]] <= zi
            invariant
                n == z@.len(),
                i < n,
                zi == z@[i as int],
                pos <= order@.len(),
                forall|p: int| 0 <= p < order@.len() ==> #[trigger] order@[p] < i,
                forall|p: int| 0 <= p < pos ==> z@[#[trigger] order@[p] as int] <= zi,
            decreases order@.len() - pos,
        {
            pos = pos + 1;
        }
        proof {
            assert forall|p: int| pos <= p < order@.len() implies zi < z@[#[trigger] order@[p] as int] by {
                if p > pos {
                    assert(drawn_before(z@, order@[pos as int] as int, order@[p] as int));
                }
            }
            lemma_insert_by_layer_at(z@, order@, i, pos as int);
        }
        let ghost before = order@;
        order.insert(pos, i);
        proof {
            assert forall|p: int, q: int| 0 <= p < q < order@.len() implies drawn_before(z@, order@[p] as int, order@[q] as int) by {
                if q < pos {
                    assert(order@[p] == before[p] && order@[q] == before[q]);
                } else if q == pos {
                    assert(order@[p] == before[p]);
                    assert(z@[before[p] as int] <= zi);
                } else if p == pos {
                    assert(order@[q] == before[q - 1]);
                    assert(pos < before.len());
                    assert(!(z@[before[pos as int] as int] <= zi));
                    if q - 1 > pos {
                        assert(drawn_before(z@, before[pos as int] as int, before[q - 1] as int));
                    }
                } else if p < pos {
                    assert(order@[p] == before[p] && order@[q] == before[q - 1]);
                } else {
                    assert(order@[p] == before[p - 1] && order@[q] == before[q - 1]);
                }
            }
            assert forall|k: usize| k < i + 1 implies #[trigger] order@.contains(k) by {
                if k == i {
                    assert(order@[pos as int] == k);
                } else {
                    assert(before.contains(k));
                    let p0 = choose|p: int| 0 <= p < before.len() && before[p] == k;
                    if p0 < pos {
                        assert(order@[p0] == k);
                    } else {
                        assert(order@[p0 + 1] == k);
                    }
                }
            }
        }
        i = i + 1;
    }
    order
}

/// An element paints nothing outside the clip it is drawn with.
pub proof fn lemma_paint_stays_in_clip(node: RenderNode, scroll: i16, clip: Rect, parent_bg: Option<Color>, x: int, y: int)
    requires
        inside(element_paint(node, scroll, clip, parent_bg).area, x, y),
    ensures
        inside(clip, x, y),
        inside(node_rect(node, scroll), x, y),
{
    let nb = node_rect(node, scroll);
    lemma_common_is_intersection(nb, common(nb, clip), x, y);
    lemma_common_is_intersection(nb, clip, x, y);
}

/// The clip an element hands its children lies within its own clip; for a
/// clipping element it also lies within its padding box.
pub proof fn lemma_child_clip_within(node: RenderNode, scroll: i16, clip: Rect, x: int, y: int)
    requires
        inside(child_clip(node, scroll, clip), x, y),
    ensures
        inside(clip, x, y),
        clips(node.style) ==> inside(padding_box(node, scroll), x, y),
{
    if clips(node.style) {
        lemma_common_is_intersection(padding_box(node, scroll), clip, x, y);
    }
}

/// The text alignment of a node's text style.
pub open spec fn text_align_of(node: RenderNode) -> Option<TextAlign> {
    match node.text_style {
        Some(t) => t.align,
        None => None,
    }
}

/// The pen a node's text is written with (foreground, background,
/// attributes): its text style, the inherited background filling in a
/// missing one; without a text style, its text color on its own or the
/// inherited background.
pub open spec fn text_pen(node: RenderNode, parent_bg: Option<Color>) -> (Option<Color>, Option<Color>, CellStyle) {
    match node.text_style {
        Some(t) => (t.color, if t.background is Some { t.background } else { parent_bg }, style_of_text(t)),
        None => (node.text_color, own_or_inherited(node.style, parent_bg), plain_style()),
    }
}

/// `rows` after writing the characters `cs`, laid out from column `x` of
/// row `row`, with the given pen, keeping only the columns within the clip
/// (see `span_window` and `column_slice`); a row outside `rows` is left
/// alone.
pub open spec fn rows_with_line(rows: Seq<Seq<Cell>>, x: u16, row: u16, cs: Seq<char>, clip: Rect, fg: Option<Color>, bg: Option<Color>, st: CellStyle) -> Seq<Seq<Cell>> {
    match span_window(x, columns_of(cs) as usize, clip) {
        Some((s, e, rx)) => if row < rows.len() {
            rows.update(row as int, paint(rows[row as int], rx as int, column_slice(cs, 0, s as int, e as int), fg, bg, st))
        } else {
            rows
        },
        None => rows,
    }
}

/// Whether writing such a line stays within `u16`.
pub open spec fn line_fits(width: u16, x: u16, cs: Seq<char>, clip: Rect) -> bool {
    &&& 3 * cs.len() <= usize::MAX
    &&& x + columns_of(cs) % 65536 <= 65535
    &&& match span_window(x, columns_of(cs) as usize, clip) {
        Some((s, e, rx)) => !write_overflows(rx as int, width as int, column_slice(cs, 0, s as int, e as int)),
        None => true,
    }
}

/// Writes the characters `cs`, laid out from column `x` of row `row`, with
/// the given pen, keeping only the columns within the clip (see
/// `rows_with_line`).
pub fn write_clipped_line(buffer: &mut ScreenBuffer, x: u16, row: u16, cs: &Vec<char>, clip: &Rect, fg: Option<Color>, bg: Option<Color>, st: CellStyle)
    requires
        old(buffer).wf(),
        line_fits(old(buffer).spec_width(), x, cs@, *clip),
    ensures
        final(buffer).wf(),
        final(buffer).spec_width() == old(buffer).spec_width(),
        final(buffer).spec_height() == old(buffer).spec_height(),
        final(buffer).rows() == rows_with_line(old(buffer).rows(), x, row, cs@, *clip, fg, bg, st),
{
    let columns = chars_width(cs);
    match visible_span(x, columns, clip) {
        Some((start, end, rx)) => {
            let part = slice_columns(cs, start, end);
            buffer.paint_chars(rx, row, &part, fg, bg, st);
        },
        None => {},
    }
}

/// The column a node's text starts at: its column moved right by its
/// alignment within its width.
pub open spec fn text_start(node: RenderNode, columns: nat) -> int {
    node.x + align_shift(text_align_of(node), node.width, (columns % 65536) as u16)
}

/// Whether drawing a text node stays within the integer types.
pub open spec fn text_ok(node: RenderNode, scroll: i16, clip: Rect, width: u16) -> bool {
    match node.node_type {
        RenderNodeType::Text(t) => {
            &&& 3 * t@.len() <= usize::MAX
            &&& overlap(node_rect(node, scroll), clip) ==> {
                &&& text_start(node, columns_of(t@)) <= 65535
                &&& line_fits(width, text_start(node, columns_of(t@)) as u16, t@, clip)
            }
        },
        _ => false,
    }
}

/// `rows` after a text node is drawn: when it shows within the clip, and
/// its line (at its aligned start, as wide as the text) does too, the line
/// is written with the node's pen (see `rows_with_line`).
pub open spec fn text_rows(rows: Seq<Seq<Cell>>, node: RenderNode, clip: Rect, parent_bg: Option<Color>, scroll: i16) -> Seq<Seq<Cell>> {
    let t = node.node_type->Text_0;
    let x = text_start(node, columns_of(t@));
    let row = drawn_row(node, scroll);
    let line = Rect { x: x as u16, y: row, width: (columns_of(t@) % 65536) as u16, height: 1 };
    let pen = text_pen(node, parent_bg);
    if overlap(node_rect(node, scroll), clip) && overlap(line, clip) {
        rows_with_line(rows, x as u16, row, t@, clip, pen.0, pen.1, pen.2)
    } else {
        rows
    }
}

/// Draws a text node: when it shows within the clip, and its line (at its
/// aligned start, as wide as the text) does too, the line is written with
/// the node's pen as `rows_with_line` says; otherwise nothing is drawn.
pub fn render_text(node: &RenderNode, buffer: &mut ScreenBuffer, clip: &Rect, parent_bg: Option<Color>, scroll: i16)
    requires
        old(buffer).wf(),
        text_ok(*node, scroll, *clip, old(buffer).spec_width()),
    ensures
        final(buffer).wf(),
        final(buffer).spec_width() == old(buffer).spec_width(),
        final(buffer).spec_height() == old(buffer).spec_height(),
        final(buffer).rows() == text_rows(old(buffer).rows(), *node, *clip, parent_bg, scroll),
{
    let (bounds, row, _shown) = node_bounds(node, scroll);
    if !bounds.intersects(clip) {
        return;
    }
    match &node.node_type {
        RenderNodeType::Text(text) => {
            let cs = chars_of(text.as_str());
            let columns = chars_width(&cs);
            let tw: u16 = (columns % 65536) as u16;
            let align = match &node.text_style {
                Some(t) => t.align,
                None => None,
            };
            let x = node.x + align_offset(align, node.width, tw);
            let line = Rect { x, y: row, width: tw, height: 1 };
            if !line.intersects(clip) {
                return;
            }
            match &node.text_style {
                Some(t) => {
                    let bg = if t.background.is_some() { t.background } else { parent_bg };
                    let st = CellStyle::from_text_style(t);
                    write_clipped_line(buffer, x, row, &cs, clip, t.color, bg, st);
                },
                None => {
                    let bg = match &node.style {
                        Some(s) => if s.background.is_some() { s.background } else { parent_bg },
                        None => parent_bg,
                    };
                    write_clipped_line(buffer, x, row, &cs, clip, node.text_color, bg, CellStyle::default());
                },
            }
        },
        _ => {},
    }
}

/// The first line of wrapped text that is laid out: the lines scrolled
/// above the screen are skipped.
pub open spec fn first_shown_line(shown: int, count: int) -> int {
    min_of(if shown < 0 { -shown } else { 0 }, count)
}

/// The column line `cs` of a node's wrapped text starts at: the node's
/// column moved right by the node's alignment within its width.
pub open spec fn line_start(node: RenderNode, cs: Seq<char>) -> int {
    node.x + align_shift(text_align_of(node), node.width, (columns_of(cs) % 65536) as u16)
}

/// `rows` after drawing the lines of wrapped text from the first drawn one
/// (see `line_window`) up to line `k`: line `j` goes on row `row + j - first`
/// at its aligned start, written when its extent meets the clip.
pub open spec fn wrapped_written(
    rows: Seq<Seq<Cell>>,
    node: RenderNode,
    lines: Seq<String>,
    scroll: i16,
    clip: Rect,
    fg: Option<Color>,
    bg: Option<Color>,
    st: CellStyle,
    k: int,
) -> Seq<Seq<Cell>>
    decreases k,
{
    let shown = shown_row(node, scroll);
    let row = drawn_row(node, scroll);
    let lo = line_window(shown, row, lines.len() as usize, clip).0;
    if k <= lo || k <= 0 {
        rows
    } else {
        let prev = wrapped_written(rows, node, lines, scroll, clip, fg, bg, st, k - 1);
        let cs = lines[k - 1]@;
        let y = row + (k - 1 - first_shown_line(shown, lines.len() as int));
        let x = line_start(node, cs);
        if overlap(Rect { x: x as u16, y: y as u16, width: (columns_of(cs) % 65536) as u16, height: 1 }, clip) {
            rows_with_line(prev, x as u16, y as u16, cs, clip, fg, bg, st)
        } else {
            prev
        }
    }
}

/// Whether drawing a node's wrapped text stays within the integer types.
pub open spec fn wrapped_ok(node: RenderNode, scroll: i16, clip: Rect, width: u16) -> bool {
    match node.node_type {
        RenderNodeType::TextWrapped(lines) => {
            let (lo, hi) = line_window(shown_row(node, scroll), drawn_row(node, scroll), lines@.len() as usize, clip);
            overlap(node_rect(node, scroll), clip) ==> forall|k: int| lo <= k < hi ==> {
                &&& 3 * (#[trigger] lines@[k])@.len() <= usize::MAX
                &&& line_start(node, lines@[k]@) <= 65535
                &&& line_fits(width, line_start(node, lines@[k]@) as u16, lines@[k]@, clip)
            }
        },
        _ => false,
    }
}

/// `rows` after a node's wrapped text is drawn: when the node shows within
/// the clip, its lines as `wrapped_written` says.
pub open spec fn wrapped_rows(rows: Seq<Seq<Cell>>, node: RenderNode, clip: Rect, parent_bg: Option<Color>, scroll: i16) -> Seq<Seq<Cell>> {
    let lines = node.node_type->TextWrapped_0@;
    let pen = text_pen(node, parent_bg);
    let hi = line_window(shown_row(node, scroll), drawn_row(node, scroll), lines.len() as usize, clip).1;
    if overlap(node_rect(node, scroll), clip) {
        wrapped_written(rows, node, lines, scroll, clip, pen.0, pen.1, pen.2, hi as int)
    } else {
        rows
    }
}

/// Draws a node's wrapped text: when the node shows within the clip, the
/// lines of `line_window` are drawn one per row as `wrapped_written` says;
/// otherwise nothing is drawn.
#[verifier::spinoff_prover]
pub fn render_wrapped_text(node: &RenderNode, buffer: &mut ScreenBuffer, clip: &Rect, parent_bg: Option<Color>, scroll: i16)
    requires
        old(buffer).wf(),
        wrapped_ok(*node, scroll, *clip, old(buffer).spec_width()),
    ensures
        final(buffer).wf(),
        final(buffer).spec_width() == old(buffer).spec_width(),
        final(buffer).spec_height() == old(buffer).spec_height(),
        final(buffer).rows() == wrapped_rows(old(buffer).rows(), *node, *clip, parent_bg, scroll),
{
    let (bounds, row, shown) = node_bounds(node, scroll);
    if !bounds.intersects(clip) {
        return;
    }
    let (fg, bg, st): (Option<Color>, Option<Color>, CellStyle) = match &node.text_style {
        Some(t) => (t.color, if t.background.is_some() { t.background } else { parent_bg }, CellStyle::from_text_style(t)),
        None => (
            node.text_color,
            match &node.style {
                Some(s) => if s.background.is_some() { s.background } else { parent_bg },
                None => parent_bg,
            },
            CellStyle::default(),
        ),
    };
    let align = match &node.text_style {
        Some(t) => t.align,
        None => None,
    };
    match &node.node_type {
        RenderNodeType::TextWrapped(lines) => {
            let count = lines.len();
            let (lo, hi) = visible_lines(shown, row, count, clip);
            let skip: usize = if shown < 0 { (0i64 - shown as i64) as usize } else { 0 };
            let first: usize = if skip <= count { skip } else { count };
            let ghost rows0 = buffer.rows();
            let mut k = lo;
            while k < hi
                invariant
                    buffer.wf(),
                    buffer.spec_width() == old(buffer).spec_width(),
                    buffer.spec_height() == old(buffer).spec_height(),
                    rows0 == old(buffer).rows(),
                    node.node_type == RenderNodeType::TextWrapped(*lines),
                    count == lines@.len(),
                    (lo, hi) == line_window(shown as int, row, count, *clip),
                    shown == shown_row(*node, scroll),
                    row == drawn_row(*node, scroll),
                    first == first_shown_line(shown as int, count as int),
                    align == text_align_of(*node),
                    lo <= k <= hi,
                    overlap(node_rect(*node, scroll), *clip),
                    wrapped_ok(*node, scroll, *clip, old(buffer).spec_width()),
                    buffer.rows() == wrapped_written(rows0, *node, lines@, scroll, *clip, fg, bg, st, k as int),
                decreases hi - k,
            {
                let cs = chars_of(lines[k].as_str());
                let columns = chars_width(&cs);
                let w: u16 = (columns % 65536) as u16;
                let x = node.x + align_offset(align, node.width, w);
                let y = row + (k - first) as u16;
                if (Rect { x, y, width: w, height: 1 }).intersects(clip) {
                    write_clipped_line(buffer, x, y, &cs, clip, fg, bg, st);
                }
                k = k + 1;
            }
        },
        _ => {},
    }
}

/// The width of a line of spans: the sum of the spans' widths, each
/// taken modulo 2^16.
pub open spec fn spans_width(spans: Seq<TextSpan>) -> int
    decreases spans.len(),
{
    if spans.len() == 0 {
        0
    } else {
        spans_width(spans.drop_last()) + columns_of(spans.last().content@) % 65536
    }
}

/// The pen a span is written with: its own style, the inherited background
/// filling in a missing one; without a style, no color on the inherited
/// background.
pub open spec fn span_pen(span: TextSpan, parent_bg: Option<Color>) -> (Option<Color>, Option<Color>, CellStyle) {
    match span.style {
        Some(t) => (t.color, if t.background is Some { t.background } else { parent_bg }, style_of_text(t)),
        None => (None, parent_bg, plain_style()),
    }
}

/// `rows` after writing the first `k` spans one after another from column
/// `x` of row `row`, each with its pen and clipped to the clip's columns.
pub open spec fn spans_written(rows: Seq<Seq<Cell>>, spans: Seq<TextSpan>, x: int, row: u16, clip: Rect, parent_bg: Option<Color>, k: int) -> Seq<Seq<Cell>>
    decreases k,
{
    if k <= 0 {
        rows
    } else {
        let prev = spans_written(rows, spans, x, row, clip, parent_bg, k - 1);
        let pen = span_pen(spans[k - 1], parent_bg);
        rows_with_line(prev, (x + spans_width(spans.take(k - 1))) as u16, row, spans[k - 1].content@, clip, pen.0, pen.1, pen.2)
    }
}

/// Whether writing a line of spans from column `x` stays within the
/// integer types.
pub open spec fn spans_fit(width: u16, x: int, spans: Seq<TextSpan>, clip: Rect) -> bool {
    &&& x + spans_width(spans) <= 65535
    &&& forall|k: int| 0 <= k < spans.len() ==> {
        &&& 3 * (#[trigger] spans[k]).content@.len() <= usize::MAX
        &&& line_fits(width, (x + spans_width(spans.take(k))) as u16, spans[k].content@, clip)
    }
}

/// The width of the first `k` spans never exceeds that of all of them.
pub proof fn lemma_spans_width_grows(spans: Seq<TextSpan>, k: int)
    requires
        0 <= k <= spans.len(),
    ensures
        0 <= spans_width(spans.take(k)) <= spans_width(spans),
    decreases spans.len() - k,
{
    if k < spans.len() {
        lemma_spans_width_grows(spans, k + 1);
        assert(spans.take(k + 1).drop_last() =~= spans.take(k));
    } else {
        assert(spans.take(k) =~= spans);
    }
    lemma_spans_width_nonneg(spans.take(k));
}

proof fn lemma_spans_width_nonneg(spans: Seq<TextSpan>)
    ensures
        spans_width(spans) >= 0,
    decreases spans.len(),
{
    if spans.len() > 0 {
        lemma_spans_width_nonneg(spans.drop_last());
    }
}

/// Writes a line of spans one after another from column `x` of row `row`
/// (see `spans_written`).
pub fn write_spans(buffer: &mut ScreenBuffer, x: u16, row: u16, spans: &Vec<TextSpan>, clip: &Rect, parent_bg: Option<Color>)
    requires
        old(buffer).wf(),
        spans_fit(old(buffer).spec_width(), x as int, spans@, *clip),
    ensures
        final(buffer).wf(),
        final(buffer).spec_width() == old(buffer).spec_width(),
        final(buffer).spec_height() == old(buffer).spec_height(),
        final(buffer).rows() == spans_written(old(buffer).rows(), spans@, x as int, row, *clip, parent_bg, spans@.len() as int),
{
    let ghost rows0 = buffer.rows();
    let n = spans.len();
    let mut current: u16 = x;
    let mut k: usize = 0;
    assert(spans@.take(0) =~= Seq::<TextSpan>::empty());
    while k < n
        invariant
            buffer.wf(),
            buffer.spec_width() == old(buffer).spec_width(),
            buffer.spec_height() == old(buffer).spec_height(),
            rows0 == old(buffer).rows(),
            n == spans@.len(),
            k <= n,
            spans_fit(old(buffer).spec_width(), x as int, spans@, *clip),
            current == x + spans_width(spans@.take(k as int)),
            buffer.rows() == spans_written(rows0, spans@, x as int, row, *clip, parent_bg, k as int),
        decreases n - k,
    {
        let span = &spans[k];
        let cs = chars_of(span.content.as_str());
        let columns = chars_width(&cs);
        let (fg, bg, st): (Option<Color>, Option<Color>, CellStyle) = match &span.style {
            Some(t) => (t.color, if t.background.is_some() { t.background } else { parent_bg }, CellStyle::from_text_style(t)),
            None => (None, parent_bg, CellStyle::default()),
        };
        write_clipped_line(buffer, current, row, &cs, clip, fg, bg, st);
        proof {
            lemma_spans_width_grows(spans@, k + 1);
            assert(spans@.take(k + 1).drop_last() =~= spans@.take(k as int));
        }
        current = current + (columns % 65536) as u16;
        k = k + 1;
    }
}

/// Whether drawing a node's line of spans stays within the integer types.
pub open spec fn rich_ok(node: RenderNode, scroll: i16, clip: Rect, width: u16) -> bool {
    &&& node.node_type is RichText
    &&& overlap(node_rect(node, scroll), clip) ==> {
        let spans = node.node_type->RichText_0@;
        let x = node.x + align_shift(text_align_of(node), node.width, spans_width(spans) as u16);
        &&& spans_width(spans) <= 65535
        &&& x <= 65535
        &&& spans_fit(width, x, spans, clip)
    }
}

/// `rows` after a node's line of spans is drawn: when the node shows
/// within the clip and the line (at its aligned start, as wide as its
/// spans) does too, the spans as `spans_written` says.
pub open spec fn rich_rows(rows: Seq<Seq<Cell>>, node: RenderNode, clip: Rect, parent_bg: Option<Color>, scroll: i16) -> Seq<Seq<Cell>> {
    let spans = node.node_type->RichText_0@;
    let x = node.x + align_shift(text_align_of(node), node.width, spans_width(spans) as u16);
    let row = drawn_row(node, scroll);
    let line = Rect { x: x as u16, y: row, width: spans_width(spans) as u16, height: 1 };
    if overlap(node_rect(node, scroll), clip) && overlap(line, clip) {
        spans_written(rows, spans, x, row, clip, parent_bg, spans.len() as int)
    } else {
        rows
    }
}

/// Draws a node's line of spans: when the node shows within the clip and
/// the line (at its aligned start, as wide as its spans) does too, the
/// spans are written as `spans_written` says; otherwise nothing is drawn.
pub fn render_rich_text(node: &RenderNode, buffer: &mut ScreenBuffer, clip: &Rect, parent_bg: Option<Color>, scroll: i16)
    requires
        old(buffer).wf(),
        rich_ok(*node, scroll, *clip, old(buffer).spec_width()),
    ensures
        final(buffer).wf(),
        final(buffer).spec_width() == old(buffer).spec_width(),
        final(buffer).spec_height() == old(buffer).spec_height(),
        final(buffer).rows() == rich_rows(old(buffer).rows(), *node, *clip, parent_bg, scroll),
{
    let (bounds, row, _shown) = node_bounds(node, scroll);
    if !bounds.intersects(clip) {
        return;
    }
    match &node.node_type {
        RenderNodeType::RichText(spans) => {
            let total = spans_total(spans);
            let align = match &node.text_style {
                Some(t) => t.align,
                None => None,
            };
            let x = node.x + align_offset(align, node.width, total);
            if (Rect { x, y: row, width: total, height: 1 }).intersects(clip) {
                write_spans(buffer, x, row, spans, clip, parent_bg);
            }
        },
        _ => {},
    }
}

/// The width of a line of spans (see `spans_width`).
pub fn spans_total(spans: &Vec<TextSpan>) -> (w: u16)
    requires
        spans_width(spans@) <= 65535,
        forall|k: int| 0 <= k < spans@.len() ==> 3 * (#[trigger] spans@[k]).content@.len() <= usize::MAX,
    ensures
        w == spans_width(spans@),
{
    let n = spans.len();
    let mut total: u16 = 0;
    let mut k: usize = 0;
    assert(spans@.take(0) =~= Seq::<TextSpan>::empty());
    while k < n
        invariant
            n == spans@.len(),
            k <= n,
            spans_width(spans@) <= 65535,
            forall|j: int| 0 <= j < spans@.len() ==> 3 * (#[trigger] spans@[j]).content@.len() <= usize::MAX,
            total == spans_width(spans@.take(k as int)),
        decreases n - k,
    {
        let w = display_width(spans[k].content.as_str());
        proof {
            lemma_spans_width_grows(spans@, k + 1);
            assert(spans@.take(k + 1).drop_last() =~= spans@.take(k as int));
        }
        total = total + (w % 65536) as u16;
        k = k + 1;
    }
    assert(spans@.take(n as int) =~= spans@);
    total
}

/// `rows` after drawing the lines of wrapped spans from the first drawn one
/// (see `line_window`) up to line `k`: line `j` goes on row
/// `row + j - first` at its aligned start, written when its extent meets
/// the clip.
pub open spec fn rich_wrapped_written(
    rows: Seq<Seq<Cell>>,
    node: RenderNode,
    lines: Seq<Vec<TextSpan>>,
    scroll: i16,
    clip: Rect,
    parent_bg: Option<Color>,
    k: int,
) -> Seq<Seq<Cell>>
    decreases k,
{
    let shown = shown_row(node, scroll);
    let row = drawn_row(node, scroll);
    let lo = line_window(shown, row, lines.len() as usize, clip).0;
    if k <= lo || k <= 0 {
        rows
    } else {
        let prev = rich_wrapped_written(rows, node, lines, scroll, clip, parent_bg, k - 1);
        let spans = lines[k - 1]@;
        let y = row + (k - 1 - first_shown_line(shown, lines.len() as int));
        let x = node.x + align_shift(text_align_of(node), node.width, spans_width(spans) as u16);
        if overlap(Rect { x: x as u16, y: y as u16, width: spans_width(spans) as u16, height: 1 }, clip) {
            spans_written(prev, spans, x, y as u16, clip, parent_bg, spans.len() as int)
        } else {
            prev
        }
    }
}

/// Whether drawing a node's wrapped spans stays within the integer types.
pub open spec fn rich_wrapped_ok(node: RenderNode, scroll: i16, clip: Rect, width: u16) -> bool {
    match node.node_type {
        RenderNodeType::RichTextWrapped(lines) => {
            let (lo, hi) = line_window(shown_row(node, scroll), drawn_row(node, scroll), lines@.len() as usize, clip);
            overlap(node_rect(node, scroll), clip) ==> forall|k: int| lo <= k < hi ==> {
                let spans = (#[trigger] lines@[k])@;
                let x = node.x + align_shift(text_align_of(node), node.width, spans_width(spans) as u16);
                &&& spans_width(spans) <= 65535
                &&& x <= 65535
                &&& spans_fit(width, x, spans, clip)
            }
        },
        _ => false,
    }
}

/// `rows` after a node's wrapped lines of spans are drawn: when the node
/// shows within the clip, its lines as `rich_wrapped_written` says.
pub open spec fn rich_wrapped_rows(rows: Seq<Seq<Cell>>, node: RenderNode, clip: Rect, parent_bg: Option<Color>, scroll: i16) -> Seq<Seq<Cell>> {
    let lines = node.node_type->RichTextWrapped_0@;
    let hi = line_window(shown_row(node, scroll), drawn_row(node, scroll), lines.len() as usize, clip).1;
    if overlap(node_rect(node, scroll), clip) {
        rich_wrapped_written(rows, node, lines, scroll, clip, parent_bg, hi as int)
    } else {
        rows
    }
}

/// Draws a node's wrapped lines of spans: when the node shows within the
/// clip, the lines of `line_window` are drawn one per row as
/// `rich_wrapped_written` says; otherwise nothing is drawn.
#[verifier::spinoff_prover]
#[verifier::rlimit(40)]
pub fn render_rich_wrapped_text(node: &RenderNode, buffer: &mut ScreenBuffer, clip: &Rect, parent_bg: Option<Color>, scroll: i16)
    requires
        old(buffer).wf(),
        rich_wrapped_ok(*node, scroll, *clip, old(buffer).spec_width()),
    ensures
        final(buffer).wf(),
        final(buffer).spec_width() == old(buffer).spec_width(),
        final(buffer).spec_height() == old(buffer).spec_height(),
        final(buffer).rows() == rich_wrapped_rows(old(buffer).rows(), *node, *clip, parent_bg, scroll),
{
    let (bounds, row, shown) = node_bounds(node, scroll);
    if !bounds.intersects(clip) {
        return;
    }
    let align = match &node.text_style {
        Some(t) => t.align,
        None => None,
    };
    match &node.node_type {
        RenderNodeType::RichTextWrapped(lines) => {
            let count = lines.len();
            let (lo, hi) = visible_lines(shown, row, count, clip);
            let skip: usize = if shown < 0 { (0i64 - shown as i64) as usize } else { 0 };
            let first: usize = if skip <= count { skip } else { count };
            let ghost rows0 = buffer.rows();
            let mut k = lo;
            while k < hi
                invariant
                    buffer.wf(),
                    buffer.spec_width() == old(buffer).spec_width(),
                    buffer.spec_height() == old(buffer).spec_height(),
                    rows0 == old(buffer).rows(),
                    node.node_type == RenderNodeType::RichTextWrapped(*lines),
                    count == lines@.len(),
                    (lo, hi) == line_window(shown as int, row, count, *clip),
                    shown == shown_row(*node, scroll),
                    row == drawn_row(*node, scroll),
                    first == first_shown_line(shown as int, count as int),
                    align == text_align_of(*node),
                    lo <= k <= hi,
                    overlap(node_rect(*node, scroll), *clip),
                    rich_wrapped_ok(*node, scroll, *clip, old(buffer).spec_width()),
                    buffer.rows() == rich_wrapped_written(rows0, *node, lines@, scroll, *clip, parent_bg, k as int),
                decreases hi - k,
            {
                let y = row + (k - first) as u16;
                write_aligned_spans(buffer, node.x, node.width, align, y, &lines[k], clip, parent_bg);
                k = k + 1;
            }
        },
        _ => {},
    }
}

/// Writes a line of spans aligned within `width` columns from column `x`
/// of row `y`, when the line's extent meets the clip.
fn write_aligned_spans(buffer: &mut ScreenBuffer, x: u16, width: u16, align: Option<TextAlign>, y: u16, spans: &Vec<TextSpan>, clip: &Rect, parent_bg: Option<Color>)
    requires
        old(buffer).wf(),
        spans_width(spans@) <= 65535,
        x + align_shift(align, width, spans_width(spans@) as u16) <= 65535,
        spans_fit(old(buffer).spec_width(), x + align_shift(align, width, spans_width(spans@) as u16), spans@, *clip),
    ensures
        final(buffer).wf(),
        final(buffer).spec_width() == old(buffer).spec_width(),
        final(buffer).spec_height() == old(buffer).spec_height(),
        ({
            let sx = x + align_shift(align, width, spans_width(spans@) as u16);
            final(buffer).rows() == if overlap(Rect { x: sx as u16, y, width: spans_width(spans@) as u16, height: 1 }, *clip) {
                spans_written(old(buffer).rows(), spans@, sx, y, *clip, parent_bg, spans@.len() as int)
            } else {
                old(buffer).rows()
            }
        }),
{
    proof {
        assert forall|j: int| 0 <= j < spans@.len() implies 3 * (#[trigger] spans@[j]).content@.len() <= usize::MAX by {
            assert(spans_fit(old(buffer).spec_width(), x + align_shift(align, width, spans_width(spans@) as u16), spans@, *clip));
        }
    }
    let total = spans_total(spans);
    let sx = x + align_offset(align, width, total);
    if (Rect { x: sx, y, width: total, height: 1 }).intersects(clip) {
        write_spans(buffer, sx, y, spans, clip, parent_bg);
    }
}

/// Where a node's scrollbar goes: its column (the node's last), its first
/// row (the node's row less a positive scroll, held at 0), its length (the
/// node's height), and the thumb's first row and length, from the thumb's
/// offset and length that the caller computed.
#[derive(Debug, Clone, Copy, PartialEq, Eq, Structural)]
pub struct ScrollbarPlace {
    pub x: u16,
    pub y: u16,
    pub length: u16,
    pub thumb_y: u16,
    pub thumb_length: u16,
}

/// The row a node's scrollbar starts at.
pub open spec fn scrollbar_row(node: RenderNode, scroll: i16) -> int {
    if scroll > 0 { if node.y > scroll { node.y - scroll } else { 0 } } else { node.y as int }
}

/// Whether a node draws a scrollbar: its content is taller than it, it is
/// more than two rows high (an `Auto` overflow shows none otherwise
/// either).
pub open spec fn shows_scrollbar(node: RenderNode) -> bool {
    node.content_height > node.height && node.height > 2
}

/// The scrollbar of a node (see `ScrollbarPlace`).
pub open spec fn scrollbar_place(node: RenderNode, scroll: i16, thumb_offset: u16, thumb_length: u16) -> ScrollbarPlace {
    let y = scrollbar_row(node, scroll);
    ScrollbarPlace {
        x: (node.x + (if node.width > 0 { node.width - 1 } else { 0 })) as u16,
        y: y as u16,
        length: node.height,
        thumb_y: (y + thumb_offset) as u16,
        thumb_length,
    }
}

/// The cell a scrollbar puts at `(x, y)`, if it puts one there: within the
/// clip, on its column and rows, a block on the thumb and a bar elsewhere,
/// in bright black.
pub open spec fn scrollbar_cell_at(p: ScrollbarPlace, clip: Rect, x: int, y: int) -> Option<Cell> {
    if x == p.x && p.y <= y < p.y + p.length && inside(clip, x, y) {
        let ch = if p.thumb_y <= y < p.thumb_y + p.thumb_length { '█' } else { '│' };
        Some(Cell { char: ch, fg: Some(Color::BrightBlack), bg: None, style: plain_style() })
    } else {
        None
    }
}

/// Whether a node's scrollbar coordinates fit in `u16`.
pub open spec fn scrollbar_fits(node: RenderNode, scroll: i16, thumb_offset: u16, thumb_length: u16) -> bool {
    let y = scrollbar_row(node, scroll);
    &&& node.x + node.width <= 65536
    &&& y + node.height <= 65535
    &&& y + thumb_offset + thumb_length <= 65535
}

/// Draws a scrolling node's scrollbar within the part of the clip the node
/// covers, given the thumb's offset and length (which the caller computes
/// from the node's height, content height and scroll position).  Nothing
/// is drawn unless the node `shows_scrollbar`.
pub fn render_scrollbar(node: &RenderNode, buffer: &mut ScreenBuffer, clip: &Rect, scroll: i16, thumb_offset: u16, thumb_length: u16)
    requires
        old(buffer).wf(),
        shows_scrollbar(*node) ==> scrollbar_fits(*node, scroll, thumb_offset, thumb_length),
    ensures
        final(buffer).wf(),
        final(buffer).spec_width() == old(buffer).spec_width(),
        final(buffer).spec_height() == old(buffer).spec_height(),
        forall|x: int, y: int| #[trigger] old(buffer).in_bounds(x, y) ==> final(buffer).cell(x, y) == (if shows_scrollbar(*node) {
            match scrollbar_cell_at(scrollbar_place(*node, scroll, thumb_offset, thumb_length), common(node_rect(*node, scroll), *clip), x, y) {
                Some(c) => c,
                None => old(buffer).cell(x, y),
            }
        } else {
            old(buffer).cell(x, y)
        }),
{
    if !(node.content_height > node.height && node.height > 2) {
        return;
    }
    let (bounds, _row, _shown) = node_bounds(node, scroll);
    let area = bounds.intersection(clip);
    let y0: u16 = if scroll > 0 { node.y.saturating_sub(scroll as u16) } else { node.y };
    let place = ScrollbarPlace {
        x: node.x + node.width.saturating_sub(1),
        y: y0,
        length: node.height,
        thumb_y: y0 + thumb_offset,
        thumb_length,
    };
    let ghost start = *buffer;
    let end = y0 + node.height;
    let mut y = y0;
    while y < end
        invariant
            buffer.wf(),
            start.wf(),
            buffer.spec_width() == start.spec_width(),
            buffer.spec_height() == start.spec_height(),
            place == scrollbar_place(*node, scroll, thumb_offset, thumb_length),
            area == common(node_rect(*node, scroll), *clip),
            y0 == place.y,
            end == place.y + place.length,
            scrollbar_fits(*node, scroll, thumb_offset, thumb_length),
            y0 <= y <= end,
            forall|px: int, py: int| #[trigger] start.in_bounds(px, py) ==> buffer.cell(px, py) == (if py < y {
                match scrollbar_cell_at(place, area, px, py) {
                    Some(c) => c,
                    None => start.cell(px, py),
                }
            } else {
                start.cell(px, py)
            }),
        decreases end - y,
    {
        if area.contains_point(place.x, y) {
            let ch = if y >= place.thumb_y && y < place.thumb_y + place.thumb_length { '█' } else { '│' };
            let cell = Cell {
                char: ch,
                fg: Some(Color::BrightBlack),
                bg: None,
                style: CellStyle { bold: false, italic: false, underline: false, strikethrough: false },
            };
            let ghost before = *buffer;
            buffer.set_cell(place.x, y, cell);
            assert forall|px: int, py: int| #[trigger] start.in_bounds(px, py) implies buffer.cell(px, py) == (if py < y + 1 {
                match scrollbar_cell_at(place, area, px, py) {
                    Some(c) => c,
                    None => start.cell(px, py),
                }
            } else {
                start.cell(px, py)
            }) by {
                if px == place.x && py == y {
                } else {
                    assert(buffer.cell(px, py) == before.cell(px, py));
                }
            }
        }
        y = y + 1;
    }
}

/// Whether two rectangles touch side by side (see `touching`).
pub fn are_adjacent(a: &Rect, b: &Rect) -> (r: bool)
    ensures
        r == touching(*a, *b),
{
    (a.right() == b.x || b.right() == a.x) && !(a.bottom() <= b.y || b.bottom() <= a.y)
        || (a.bottom() == b.y || b.bottom() == a.y) && !(a.right() <= b.x || b.right() <= a.x)
}

/// Whether region `a` comes before region `b` by row, then column.
pub open spec fn region_before(a: Rect, b: Rect) -> bool {
    a.y < b.y || (a.y == b.y && a.x < b.x)
}

/// `s` with `r` placed after every region not after it (a stable
/// insertion by row, then column).
pub open spec fn insert_region(s: Seq<Rect>, r: Rect) -> Seq<Rect>
    decreases s.len(),
{
    if s.len() == 0 {
        seq![r]
    } else if !region_before(r, s.last()) {
        s.push(r)
    } else {
        insert_region(s.drop_last(), r).push(s.last())
    }
}

/// The regions sorted by row, then column, keeping the order of regions at
/// the same place.
pub open spec fn sort_regions(rs: Seq<Rect>) -> Seq<Rect>
    decreases rs.len(),
{
    if rs.len() == 0 {
        Seq::empty()
    } else {
        insert_region(sort_regions(rs.drop_last()), rs.last())
    }
}

/// Merging sorted regions, up to region `k` (`k >= 1`): the regions closed
/// so far and the one being grown, which takes in each next region that
/// overlaps or touches it.
pub open spec fn merge_prefix(rs: Seq<Rect>, k: int) -> (Seq<Rect>, Rect)
    decreases k,
{
    if k <= 1 {
        (Seq::empty(), rs[0])
    } else {
        let (done, cur) = merge_prefix(rs, k - 1);
        let r = rs[k - 1];
        if overlap(cur, r) || touching(cur, r) { (done, hull(cur, r)) } else { (done.push(cur), r) }
    }
}

/// The regions merged: sorted by row and column, each grown over the
/// regions after it that overlap or touch it.
pub open spec fn merged_regions(rs: Seq<Rect>) -> Seq<Rect> {
    let s = sort_regions(rs);
    if s.len() == 0 {
        Seq::empty()
    } else {
        let (done, cur) = merge_prefix(s, s.len() as int);
        done.push(cur)
    }
}

proof fn lemma_insert_region_len(s: Seq<Rect>, r: Rect)
    ensures
        insert_region(s, r).len() == s.len() + 1,
    decreases s.len(),
{
    if s.len() > 0 && region_before(r, s.last()) {
        lemma_insert_region_len(s.drop_last(), r);
    }
}

proof fn lemma_sort_regions_len(rs: Seq<Rect>)
    ensures
        sort_regions(rs).len() == rs.len(),
    decreases rs.len(),
{
    if rs.len() > 0 {
        lemma_sort_regions_len(rs.drop_last());
        lemma_insert_region_len(sort_regions(rs.drop_last()), rs.last());
    }
}

/// `s` with `r` inserted at `pos` is the stable insertion when every region
/// before `pos` is not after `r` and every one from `pos` on is.
proof fn lemma_insert_at(s: Seq<Rect>, r: Rect, pos: int)
    requires
        0 <= pos <= s.len(),
        forall|i: int| 0 <= i < pos ==> !region_before(r, #[trigger] s[i]),
        forall|i: int| pos <= i < s.len() ==> region_before(r, #[trigger] s[i]),
    ensures
        insert_region(s, r) == s.insert(pos, r),
    decreases s.len(),
{
    if s.len() == 0 {
        assert(s.insert(pos, r) =~= seq![r]);
    } else if pos == s.len() {
        assert(!region_before(r, s[s.len() - 1]));
        assert(s.insert(pos, r) =~= s.push(r));
    } else {
        assert(region_before(r, s[s.len() - 1]));
        let t = s.drop_last();
        lemma_insert_at(t, r, pos);
        assert(s.insert(pos, r) =~= t.insert(pos, r).push(s.last()));
    }
}

/// Sorts regions by row, then column, keeping the order of regions at the
/// same place (see `sort_regions`).
fn sort_by_position(regions: &Vec<Rect>) -> (r: Vec<Rect>)
    ensures
        r@ == sort_regions(regions@),
{
    let n = regions.len();
    let mut out: Vec<Rect> = Vec::new();
    let mut k: usize = 0;
    assert(regions@.take(0) =~= Seq::<Rect>::empty());
    while k < n
        invariant
            n == regions@.len(),
            k <= n,
            out@ == sort_regions(regions@.take(k as int)),
            forall|i: int, j: int| 0 <= i < j < out@.len() ==> !region_before(#[trigger] out@[j], #[trigger] out@[i]),
        decreases n - k,
    {
        let r = regions[k];
        let mut pos: usize = out.len();
        while pos > 0 && (r.y < out[pos - 1].y || (r.y == out[pos - 1].y && r.x < out[pos - 1].x))
            invariant
                pos <= out@.len(),
                forall|i: int| pos <= i < out@.len() ==> region_before(r, #[trigger] out@[i]),
                forall|i: int, j: int| 0 <= i < j < out@.len() ==> !region_before(#[trigger] out@[j], #[trigger] out@[i]),
            decreases pos,
        {
            pos = pos - 1;
        }
        proof {
            assert forall|i: int| 0 <= i < pos implies !region_before(r, #[trigger] out@[i]) by {
                if i < pos - 1 {
                    assert(!region_before(out@[pos - 1], out@[i]));
                }
            }
            lemma_insert_at(out@, r, pos as int);
        }
        let ghost before = out@;
        out.insert(pos, r);
        proof {
            assert forall|i: int, j: int| 0 <= i < j < out@.len() implies !region_before(#[trigger] out@[j], #[trigger] out@[i]) by {
                if j < pos {
                    assert(out@[i] == before[i] && out@[j] == before[j]);
                } else if j == pos {
                    assert(out@[i] == before[i]);
                    assert(!region_before(r, before[i]));
                } else if i == pos {
                    assert(out@[j] == before[j - 1]);
                    assert(region_before(r, before[j - 1]));
                } else if i < pos {
                    assert(out@[i] == before[i] && out@[j] == before[j - 1]);
                } else {
                    assert(out@[i] == before[i - 1] && out@[j] == before[j - 1]);
                }
            }
            let t = regions@.take(k + 1);
            assert(t.drop_last() =~= regions@.take(k as int));
            assert(t.last() == r);
        }
        k = k + 1;
    }
    assert(regions@.take(n as int) =~= regions@);
    out
}

/// Merges regions to redraw (see `merged_regions`): sorted by row, then
/// column, each region grows over the following ones that overlap or
/// touch it.
pub fn merge_regions(regions: Vec<Rect>) -> (r: Vec<Rect>)
    ensures
        r@ == merged_regions(regions@),
{
    proof {
        lemma_sort_regions_len(regions@);
    }
    if regions.len() == 0 {
        return Vec::new();
    }
    let sorted = sort_by_position(&regions);
    let n = sorted.len();
    let mut merged: Vec<Rect> = Vec::new();
    let mut current = sorted[0];
    let mut k: usize = 1;
    while k < n
        invariant
            n == sorted@.len(),
            1 <= k <= n,
            merge_prefix(sorted@, k as int) == (merged@, current),
        decreases n - k,
    {
        let region = sorted[k];
        if current.intersects(&region) || are_adjacent(&current, &region) {
            current = current.union(&region);
        } else {
            merged.push(current);
            current = region;
        }
        k = k + 1;
    }
    merged.push(current);
    merged
}

impl RenderNode {
    /// The rectangle the node covers.
    pub fn bounds(&self) -> (r: Rect)
        ensures
            r == (Rect { x: self.x, y: self.y, width: self.width, height: self.height }),
    {
        Rect { x: self.x, y: self.y, width: self.width, height: self.height }
    }
}

proof fn lemma_hull_covers(a: Rect, b: Rect, x: int, y: int)
    requires
        inside(a, x, y) || inside(b, x, y),
    ensures
        inside(hull(a, b), x, y),
{
}

proof fn lemma_insert_region_keeps(s: Seq<Rect>, r: Rect)
    ensures
        insert_region(s, r).contains(r),
        forall|i: int| 0 <= i < s.len() ==> insert_region(s, r).contains(#[trigger] s[i]),
    decreases s.len(),
{
    let t = insert_region(s, r);
    if s.len() == 0 {
        assert(t[0] == r);
    } else if !region_before(r, s.last()) {
        assert(t[s.len() as int] == r);
        assert forall|i: int| 0 <= i < s.len() implies t.contains(#[trigger] s[i]) by {
            assert(t[i] == s[i]);
        }
    } else {
        let d = s.drop_last();
        lemma_insert_region_keeps(d, r);
        let u = insert_region(d, r);
        assert(t == u.push(s.last()));
        let j0 = choose|j: int| 0 <= j < u.len() && u[j] == r;
        assert(t[j0] == r);
        assert forall|i: int| 0 <= i < s.len() implies t.contains(#[trigger] s[i]) by {
            if i == s.len() - 1 {
                assert(t[u.len() as int] == s[i]);
            } else {
                assert(d[i] == s[i]);
                assert(u.contains(d[i]));
                let j = choose|j: int| 0 <= j < u.len() && u[j] == d[i];
                assert(t[j] == s[i]);
            }
        }
    }
}

proof fn lemma_sort_regions_keeps(rs: Seq<Rect>)
    ensures
        forall|i: int| 0 <= i < rs.len() ==> sort_regions(rs).contains(#[trigger] rs[i]),
    decreases rs.len(),
{
    if rs.len() > 0 {
        let d = rs.drop_last();
        lemma_sort_regions_keeps(d);
        let sd = sort_regions(d);
        lemma_insert_region_keeps(sd, rs.last());
        let t = sort_regions(rs);
        assert forall|i: int| 0 <= i < rs.len() implies t.contains(#[trigger] rs[i]) by {
            if i < rs.len() - 1 {
                assert(d[i] == rs[i]);
                assert(sd.contains(d[i]));
                let j = choose|j: int| 0 <= j < sd.len() && sd[j] == d[i];
                assert(t.contains(sd[j]));
            }
        }
    }
}

proof fn lemma_merge_prefix_covers(s: Seq<Rect>, k: int, i: int, x: int, y: int)
    requires
        1 <= k <= s.len(),
        0 <= i < k,
        inside(s[i], x, y),
    ensures
        inside(merge_prefix(s, k).1, x, y)
            || exists|j: int| 0 <= j < merge_prefix(s, k).0.len() && inside(#[trigger] merge_prefix(s, k).0[j], x, y),
    decreases k,
{
    if k > 1 {
        let (done, cur) = merge_prefix(s, k - 1);
        let r = s[k - 1];
        let (nd, nc) = merge_prefix(s, k);
        if i == k - 1 {
            if overlap(cur, r) || touching(cur, r) {
                lemma_hull_covers(cur, r, x, y);
                assert(inside(nc, x, y));
            } else {
                assert(nc == r);
            }
        } else {
            lemma_merge_prefix_covers(s, k - 1, i, x, y);
            if inside(cur, x, y) {
                if overlap(cur, r) || touching(cur, r) {
                    lemma_hull_covers(cur, r, x, y);
                    assert(inside(nc, x, y));
                } else {
                    assert(nd == done.push(cur));
                    assert(nd[done.len() as int] == cur);
                    assert(inside(nd[done.len() as int], x, y));
                }
            } else {
                let j = choose|j: int| 0 <= j < done.len() && inside(#[trigger] done[j], x, y);
                if overlap(cur, r) || touching(cur, r) {
                    assert(nd == done);
                    assert(inside(nd[j], x, y));
                } else {
                    assert(nd == done.push(cur));
                    assert(nd[j] == done[j]);
                    assert(inside(nd[j], x, y));
                }
            }
        }
    }
}

/// Merging the regions to redraw loses no cell: every cell of a region
/// lies in some merged region.
pub proof fn lemma_merged_regions_cover(rs: Seq<Rect>, i: int, x: int, y: int)
    requires
        0 <= i < rs.len(),
        inside(rs[i], x, y),
    ensures
        exists|j: int| 0 <= j < merged_regions(rs).len() && inside(#[trigger] merged_regions(rs)[j], x, y),
{
    lemma_sort_regions_keeps(rs);
    lemma_sort_regions_len(rs);
    let s = sort_regions(rs);
    assert(s.contains(rs[i]));
    let p = choose|p: int| 0 <= p < s.len() && s[p] == rs[i];
    lemma_merge_prefix_covers(s, s.len() as int, p, x, y);
    let (done, cur) = merge_prefix(s, s.len() as int);
    let m = done.push(cur);
    assert(merged_regions(rs) == m);
    if inside(cur, x, y) {
        assert(m[done.len() as int] == cur);
    } else {
        let j = choose|j: int| 0 <= j < done.len() && inside(done[j], x, y);
        assert(m[j] == done[j]);
    }
}

/// `rows` with each cell replaced by `f` of its column, row and content.
pub open spec fn map_cells(rows: Seq<Seq<Cell>>, f: spec_fn(int, int, Cell) -> Cell) -> Seq<Seq<Cell>> {
    Seq::new(rows.len(), |y: int| Seq::new(rows[y].len(), |x: int| f(x, y, rows[y][x])))
}

/// `rows` after an element paints them (see `painted_cell`).
pub open spec fn paint_rows(rows: Seq<Seq<Cell>>, p: ElementPaint) -> Seq<Seq<Cell>> {
    map_cells(rows, |x: int, y: int, c: Cell| if inside(p.area, x, y) { painted_cell(p, x, y, c) } else { c })
}

/// `rows` after a node's scrollbar is drawn with the given clip (no change
/// unless the node `shows_scrollbar`).
pub open spec fn scrollbar_rows(rows: Seq<Seq<Cell>>, node: RenderNode, clip: Rect, scroll: i16, thumb_offset: u16, thumb_length: u16) -> Seq<Seq<Cell>> {
    map_cells(rows, |x: int, y: int, c: Cell| if shows_scrollbar(node) {
        match scrollbar_cell_at(scrollbar_place(node, scroll, thumb_offset, thumb_length), common(node_rect(node, scroll), clip), x, y) {
            Some(d) => d,
            None => c,
        }
    } else {
        c
    })
}

/// A buffer whose every cell is `f` of the cell of another buffer of the
/// same size holds `map_cells` of its rows.
pub proof fn lemma_cells_to_rows(a: ScreenBuffer, b: ScreenBuffer, f: spec_fn(int, int, Cell) -> Cell)
    requires
        a.wf(),
        b.wf(),
        a.spec_width() == b.spec_width(),
        a.spec_height() == b.spec_height(),
        forall|x: int, y: int| #[trigger] a.in_bounds(x, y) ==> b.cell(x, y) == f(x, y, a.cell(x, y)),
    ensures
        b.rows() == map_cells(a.rows(), f),
{
    let m = map_cells(a.rows(), f);
    assert forall|y: int| 0 <= y < b.rows().len() implies #[trigger] b.rows()[y] == m[y] by {
        assert forall|x: int| 0 <= x < b.rows()[y].len() implies #[trigger] b.rows()[y][x] == m[y][x] by {
            assert(a.in_bounds(x, y));
        }
        assert(b.rows()[y] =~= m[y]);
    }
    assert(b.rows() =~= m);
}

} // verus!
