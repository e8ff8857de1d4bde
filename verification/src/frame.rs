//! Where drawing can change the screen: within the clip it is given, and
//! in the one column right of it, where a character two columns wide that
//! starts in the clip's last column puts its second half.
use vstd::prelude::*;
use crate::buffer::{Cell, CellStyle, lemma_put_keeps_length, paint, paint_step, put};
use crate::draw::{child_draw_order, drawn_children, drawn_rows};
use crate::layout::{RenderNode, RenderNodeType, TextSpan};
use crate::tree::{RenderTree, is_node, kids};
use crate::render::{
    Rect, align_shift, bottom_of, child_clip, child_pass, common, drawn_row, element_paint, first_shown_line, inside,
    lemma_common_is_intersection, lemma_paint_stays_in_clip, line_start, line_window, node_rect, overlap, paint_rows,
    right_of, rich_rows, rich_wrapped_rows, rich_wrapped_written, rows_with_line, scrollbar_cell_at, scrollbar_place,
    scrollbar_rows, shown_row, span_pen, span_window, spans_width, spans_written, text_align_of, text_pen, text_rows,
    text_start, wrapped_rows, wrapped_written,
};
use crate::style::Color;
use crate::unicode::{char_cols, column_slice, columns_of};

verus! {

/// Whether drawing with `clip` may change the cell at `(x, y)`: the clip
/// has width, the cell lies in its rows, and its column lies in the clip,
/// or (when `wide` characters may be drawn) just right of it.
pub open spec fn in_frame(clip: Rect, x: int, y: int, wide: bool) -> bool {
    &&& clip.width > 0
    &&& clip.y <= y < bottom_of(clip)
    &&& clip.x <= x
    &&& (x < right_of(clip) || (wide && x == right_of(clip)))
}

/// Whether column `x` lies in the clip's columns, or (when `wide`) just
/// right of them.
pub open spec fn in_columns(clip: Rect, x: int, wide: bool) -> bool {
    &&& clip.width > 0
    &&& clip.x <= x
    &&& (x < right_of(clip) || (wide && x == right_of(clip)))
}

/// Every character takes at most one column.
pub open spec fn single_width(cs: Seq<char>) -> bool {
    forall|i: int| 0 <= i < cs.len() ==> char_cols(#[trigger] cs[i]) <= 1
}

/// A line whose drawing stays in the frame: narrower than 2^16 columns,
/// and of single-column characters unless `wide`.
pub open spec fn line_in_frame(cs: Seq<char>, wide: bool) -> bool {
    columns_of(cs) < 65536 && (wide || single_width(cs))
}

/// `after` has the shape of `before`, and the cells outside the frame of
/// `clip` are those of `before`.
pub open spec fn same_outside(before: Seq<Seq<Cell>>, after: Seq<Seq<Cell>>, clip: Rect, wide: bool) -> bool {
    &&& after.len() == before.len()
    &&& forall|y: int| 0 <= y < before.len() ==> (#[trigger] after[y]).len() == before[y].len()
    &&& forall|y: int, x: int|
        0 <= y < before.len() && 0 <= x < before[y].len() && !in_frame(clip, x, y, wide) ==> #[trigger] after[y][x] == before[y][x]
}

/// Keeping the cells outside the frame carries over a chain of drawings,
/// and from a frame to any frame holding it.
pub proof fn lemma_same_outside_chain(a: Seq<Seq<Cell>>, b: Seq<Seq<Cell>>, c: Seq<Seq<Cell>>, c1: Rect, c2: Rect, clip: Rect, wide: bool)
    requires
        same_outside(a, b, c1, wide),
        same_outside(b, c, c2, wide),
        forall|x: int, y: int| in_frame(c1, x, y, wide) ==> in_frame(clip, x, y, wide),
        forall|x: int, y: int| in_frame(c2, x, y, wide) ==> in_frame(clip, x, y, wide),
    ensures
        same_outside(a, c, clip, wide),
{
    assert forall|y: int, x: int|
        0 <= y < a.len() && 0 <= x < a[y].len() && !in_frame(clip, x, y, wide) implies #[trigger] c[y][x] == a[y][x] by {
        assert(!in_frame(c1, x, y, wide));
        assert(!in_frame(c2, x, y, wide));
        assert(b[y][x] == a[y][x]);
        assert(b[y].len() == a[y].len());
        assert(c[y][x] == b[y][x]);
    }
}

/// The width of characters is that of the first plus that of the rest.
pub proof fn lemma_columns_from_first(cs: Seq<char>)
    requires
        cs.len() > 0,
    ensures
        columns_of(cs) == char_cols(cs[0]) + columns_of(cs.drop_first()),
    decreases cs.len(),
{
    assert(columns_of(cs) == columns_of(cs.drop_last()) + char_cols(cs.last()));
    if cs.len() == 1 {
        assert(cs.drop_last().len() == 0);
        assert(cs.drop_first().len() == 0);
        assert(columns_of(cs.drop_last()) == 0);
        assert(columns_of(cs.drop_first()) == 0);
        assert(cs.last() == cs[0]);
    } else {
        lemma_columns_from_first(cs.drop_last());
        assert(cs.drop_last().drop_first() =~= cs.drop_first().drop_last());
        assert(cs.drop_first().last() == cs.last());
        assert(cs.drop_last()[0] == cs[0]);
        assert(columns_of(cs.drop_first()) == columns_of(cs.drop_first().drop_last()) + char_cols(cs.drop_first().last()));
    }
}

/// Painting `cs` from `pos` changes only the columns from `pos` up to the
/// column its last character starts at, or one past it when `wide`
/// characters may be drawn.
pub proof fn lemma_paint_frame(row: Seq<Cell>, pos: int, cs: Seq<char>, fg: Option<Color>, bg: Option<Color>, st: CellStyle, wide: bool)
    requires
        wide || single_width(cs),
    ensures
        paint(row, pos, cs, fg, bg, st).len() == row.len(),
        forall|i: int| 0 <= i < row.len() && (cs.len() == 0 || i < pos || i > pos + columns_of(cs.drop_last()) + (if wide { 1int } else { 0 }))
            ==> #[trigger] paint(row, pos, cs, fg, bg, st)[i] == row[i],
    decreases cs.len(),
{
    if cs.len() > 0 {
        let w = char_cols(cs[0]);
        if pos + w <= row.len() {
            let c0 = Cell { char: cs[0], fg, bg, style: st };
            let r0 = put(row, pos, c0);
            let r1 = paint_step(row, pos, cs[0], fg, bg, st);
            let sp = Cell { char: ' ', fg, bg, style: st };
            lemma_put_keeps_length(row, pos, c0);
            lemma_put_keeps_length(r0, pos + 1, sp);
            assert(r1.len() == row.len());
            assert(forall|i: int| 0 <= i < row.len() && i != pos && i != pos + 1 ==> #[trigger] r1[i] == row[i]);
            assert(forall|i: int| 0 <= i < row.len() && i == pos + 1 && w != 2 ==> #[trigger] r1[i] == row[i]);
            let rest = cs.drop_first();
            if !wide {
                assert(char_cols(cs[0]) <= 1);
                assert forall|i: int| 0 <= i < rest.len() implies char_cols(#[trigger] rest[i]) <= 1 by {
                    assert(rest[i] == cs[i + 1]);
                }
            }
            lemma_paint_frame(r1, pos + w, rest, fg, bg, st, wide);
            if rest.len() > 0 {
                lemma_columns_from_first(cs.drop_last());
                assert(cs.drop_last().drop_first() =~= rest.drop_last());
                assert(cs.drop_last()[0] == cs[0]);
            }
        }
    }
}

/// The characters kept from column `start` to column `end` start no later
/// than the column before `end`: from the first kept character's column
/// (at least `start`) to the last one's is the width of all but the last.
pub proof fn lemma_slice_ends_before(cs: Seq<char>, col: int, start: int, end: int)
    ensures
        column_slice(cs, col, start, end).len() > 0 ==> (if col > start { col } else { start })
            + columns_of(column_slice(cs, col, start, end).drop_last()) <= end - 1,
    decreases cs.len(),
{
    if cs.len() > 0 && col < end {
        let w = char_cols(cs[0]);
        let rest = column_slice(cs.drop_first(), col + w, start, end);
        lemma_slice_ends_before(cs.drop_first(), col + w, start, end);
        if col >= start {
            let sl = seq![cs[0]] + rest;
            assert(column_slice(cs, col, start, end) == sl);
            if rest.len() > 0 {
                lemma_columns_from_first(sl.drop_last());
                assert(sl.drop_last().drop_first() =~= rest.drop_last());
                assert(sl.drop_last()[0] == cs[0]);
            } else {
                assert(sl.drop_last() =~= Seq::<char>::empty());
            }
        }
    }
}

/// The characters kept from a line of single-column characters are
/// single-column too.
pub proof fn lemma_slice_single_width(cs: Seq<char>, col: int, start: int, end: int)
    requires
        single_width(cs),
    ensures
        single_width(column_slice(cs, col, start, end)),
    decreases cs.len(),
{
    if cs.len() > 0 && col < end {
        let rest = cs.drop_first();
        assert forall|i: int| 0 <= i < rest.len() implies char_cols(#[trigger] rest[i]) <= 1 by {
            assert(rest[i] == cs[i + 1]);
        }
        lemma_slice_single_width(rest, col + char_cols(cs[0]), start, end);
        let sl = column_slice(rest, col + char_cols(cs[0]), start, end);
        if col >= start {
            let whole = seq![cs[0]] + sl;
            assert forall|i: int| 0 <= i < whole.len() implies char_cols(#[trigger] whole[i]) <= 1 by {
                if i > 0 {
                    assert(whole[i] == sl[i - 1]);
                }
            }
        }
    }
}

/// Writing a clipped line changes only cells of its row that lie in the
/// clip, or just right of it when `wide`, when the line stays in the frame.
pub proof fn lemma_line_frame(
    rows: Seq<Seq<Cell>>,
    x: u16,
    row: u16,
    cs: Seq<char>,
    clip: Rect,
    fg: Option<Color>,
    bg: Option<Color>,
    st: CellStyle,
    wide: bool,
)
    requires
        line_in_frame(cs, wide),
    ensures
        ({
            let r = rows_with_line(rows, x, row, cs, clip, fg, bg, st);
            &&& r.len() == rows.len()
            &&& forall|y: int| 0 <= y < rows.len() ==> (#[trigger] r[y]).len() == rows[y].len()
            &&& forall|y: int, i: int|
                0 <= y < rows.len() && 0 <= i < rows[y].len() && !(y == row && in_columns(clip, i, wide))
                    ==> #[trigger] r[y][i] == rows[y][i]
        }),
{
    let columns = columns_of(cs) as usize;
    match span_window(x, columns, clip) {
        Some((s, e, rx)) => {
            if row < rows.len() {
                let sl = column_slice(cs, 0, s as int, e as int);
                if !wide {
                    lemma_slice_single_width(cs, 0, s as int, e as int);
                }
                lemma_paint_frame(rows[row as int], rx as int, sl, fg, bg, st, wide);
                lemma_slice_ends_before(cs, 0, s as int, e as int);
                assert(rx == x + s);
                assert(x + e <= right_of(clip));
                assert(rx >= clip.x);
                assert(clip.width > 0);
                let r = rows_with_line(rows, x, row, cs, clip, fg, bg, st);
                assert forall|i: int| 0 <= i < rows[row as int].len() && !in_columns(clip, i, wide)
                    implies #[trigger] r[row as int][i] == rows[row as int][i] by {
                    if sl.len() > 0 {
                        assert(i < rx || i > rx + columns_of(sl.drop_last()) + (if wide { 1int } else { 0 }));
                    }
                }
            }
        },
        None => {},
    }
}

/// A line of one row overlapping the clip lies in the clip's rows.
pub proof fn lemma_line_row_in_clip(line: Rect, clip: Rect)
    requires
        line.height == 1,
        overlap(line, clip),
    ensures
        clip.y <= line.y < bottom_of(clip),
{
}

/// Writing a clipped line on a row of the clip keeps the cells outside
/// the clip's frame.
pub proof fn lemma_line_in_frame(
    rows: Seq<Seq<Cell>>,
    x: u16,
    row: u16,
    cs: Seq<char>,
    clip: Rect,
    fg: Option<Color>,
    bg: Option<Color>,
    st: CellStyle,
    wide: bool,
)
    requires
        line_in_frame(cs, wide),
        clip.y <= row < bottom_of(clip),
    ensures
        same_outside(rows, rows_with_line(rows, x, row, cs, clip, fg, bg, st), clip, wide),
{
    lemma_line_frame(rows, x, row, cs, clip, fg, bg, st, wide);
}

/// Every line of a node's text stays in the frame (see `line_in_frame`).
pub open spec fn lines_narrow(n: RenderNode, wide: bool) -> bool {
    match n.node_type {
        RenderNodeType::Element => true,
        RenderNodeType::Text(t) => line_in_frame(t@, wide),
        RenderNodeType::TextWrapped(ls) => forall|k: int| 0 <= k < ls@.len() ==> line_in_frame((#[trigger] ls@[k])@, wide),
        RenderNodeType::RichText(sp) => spans_narrow(sp@, wide),
        RenderNodeType::RichTextWrapped(ls) => forall|k: int| 0 <= k < ls@.len() ==> spans_narrow((#[trigger] ls@[k])@, wide),
    }
}

/// Every span stays in the frame (see `line_in_frame`).
pub open spec fn spans_narrow(spans: Seq<TextSpan>, wide: bool) -> bool {
    forall|k: int| 0 <= k < spans.len() ==> line_in_frame((#[trigger] spans[k]).content@, wide)
}

pub proof fn lemma_spans_in_frame(
    rows: Seq<Seq<Cell>>,
    spans: Seq<TextSpan>,
    x: int,
    row: u16,
    clip: Rect,
    parent_bg: Option<Color>,
    k: int,
    wide: bool,
)
    requires
        spans_narrow(spans, wide),
        k <= spans.len(),
        clip.y <= row < bottom_of(clip),
    ensures
        same_outside(rows, spans_written(rows, spans, x, row, clip, parent_bg, k), clip, wide),
    decreases k,
{
    if k > 0 {
        lemma_spans_in_frame(rows, spans, x, row, clip, parent_bg, k - 1, wide);
        let prev = spans_written(rows, spans, x, row, clip, parent_bg, k - 1);
        let pen = span_pen(spans[k - 1], parent_bg);
        assert(line_in_frame(spans[k - 1].content@, wide));
        lemma_line_in_frame(prev, (x + spans_width(spans.take(k - 1))) as u16, row, spans[k - 1].content@, clip, pen.0, pen.1, pen.2, wide);
        lemma_same_outside_chain(rows, prev, spans_written(rows, spans, x, row, clip, parent_bg, k), clip, clip, clip, wide);
    }
}

pub proof fn lemma_wrapped_in_frame(
    rows: Seq<Seq<Cell>>,
    node: RenderNode,
    lines: Seq<String>,
    scroll: i16,
    clip: Rect,
    fg: Option<Color>,
    bg: Option<Color>,
    st: CellStyle,
    k: int,
    wide: bool,
)
    requires
        forall|j: int| 0 <= j < lines.len() ==> line_in_frame((#[trigger] lines[j])@, wide),
        k <= lines.len(),
    ensures
        same_outside(rows, wrapped_written(rows, node, lines, scroll, clip, fg, bg, st, k), clip, wide),
    decreases k,
{
    let shown = shown_row(node, scroll);
    let row = drawn_row(node, scroll);
    let lo = line_window(shown, row, lines.len() as usize, clip).0;
    if !(k <= lo || k <= 0) {
        lemma_wrapped_in_frame(rows, node, lines, scroll, clip, fg, bg, st, k - 1, wide);
        let prev = wrapped_written(rows, node, lines, scroll, clip, fg, bg, st, k - 1);
        let cs = lines[k - 1]@;
        let y = row + (k - 1 - first_shown_line(shown, lines.len() as int));
        let x = line_start(node, cs);
        let line = Rect { x: x as u16, y: y as u16, width: (columns_of(cs) % 65536) as u16, height: 1 };
        if overlap(line, clip) {
            lemma_line_row_in_clip(line, clip);
            lemma_line_in_frame(prev, x as u16, y as u16, cs, clip, fg, bg, st, wide);
            lemma_same_outside_chain(rows, prev, wrapped_written(rows, node, lines, scroll, clip, fg, bg, st, k), clip, clip, clip, wide);
        }
    }
}

pub proof fn lemma_rich_wrapped_in_frame(
    rows: Seq<Seq<Cell>>,
    node: RenderNode,
    lines: Seq<Vec<TextSpan>>,
    scroll: i16,
    clip: Rect,
    parent_bg: Option<Color>,
    k: int,
    wide: bool,
)
    requires
        forall|j: int| 0 <= j < lines.len() ==> spans_narrow((#[trigger] lines[j])@, wide),
        k <= lines.len(),
    ensures
        same_outside(rows, rich_wrapped_written(rows, node, lines, scroll, clip, parent_bg, k), clip, wide),
    decreases k,
{
    let shown = shown_row(node, scroll);
    let row = drawn_row(node, scroll);
    let lo = line_window(shown, row, lines.len() as usize, clip).0;
    if !(k <= lo || k <= 0) {
        lemma_rich_wrapped_in_frame(rows, node, lines, scroll, clip, parent_bg, k - 1, wide);
        let prev = rich_wrapped_written(rows, node, lines, scroll, clip, parent_bg, k - 1);
        let spans = lines[k - 1]@;
        let y = row + (k - 1 - first_shown_line(shown, lines.len() as int));
        let x = node.x + align_shift(text_align_of(node), node.width, spans_width(spans) as u16);
        let line = Rect { x: x as u16, y: y as u16, width: spans_width(spans) as u16, height: 1 };
        if overlap(line, clip) {
            lemma_line_row_in_clip(line, clip);
            lemma_spans_in_frame(prev, spans, x, y as u16, clip, parent_bg, spans.len() as int, wide);
            lemma_same_outside_chain(rows, prev, rich_wrapped_written(rows, node, lines, scroll, clip, parent_bg, k), clip, clip, clip, wide);
        }
    }
}

/// Drawing a node's text keeps the cells outside the clip's frame.
pub proof fn lemma_text_in_frame(rows: Seq<Seq<Cell>>, node: RenderNode, clip: Rect, parent_bg: Option<Color>, scroll: i16, wide: bool)
    requires
        lines_narrow(node, wide),
        !(node.node_type is Element),
    ensures
        same_outside(rows, match node.node_type {
            RenderNodeType::Text(_) => text_rows(rows, node, clip, parent_bg, scroll),
            RenderNodeType::TextWrapped(_) => wrapped_rows(rows, node, clip, parent_bg, scroll),
            RenderNodeType::RichText(_) => rich_rows(rows, node, clip, parent_bg, scroll),
            _ => rich_wrapped_rows(rows, node, clip, parent_bg, scroll),
        }, clip, wide),
{
    match node.node_type {
        RenderNodeType::Text(t) => {
            let x = text_start(node, columns_of(t@));
            let row = drawn_row(node, scroll);
            let line = Rect { x: x as u16, y: row, width: (columns_of(t@) % 65536) as u16, height: 1 };
            let pen = text_pen(node, parent_bg);
            if overlap(node_rect(node, scroll), clip) && overlap(line, clip) {
                lemma_line_row_in_clip(line, clip);
                lemma_line_in_frame(rows, x as u16, row, t@, clip, pen.0, pen.1, pen.2, wide);
            }
        },
        RenderNodeType::TextWrapped(ls) => {
            let pen = text_pen(node, parent_bg);
            let hi = line_window(shown_row(node, scroll), drawn_row(node, scroll), ls@.len() as usize, clip).1;
            if overlap(node_rect(node, scroll), clip) {
                lemma_wrapped_in_frame(rows, node, ls@, scroll, clip, pen.0, pen.1, pen.2, hi as int, wide);
            }
        },
        RenderNodeType::RichText(sp) => {
            let spans = sp@;
            let x = node.x + align_shift(text_align_of(node), node.width, spans_width(spans) as u16);
            let row = drawn_row(node, scroll);
            let line = Rect { x: x as u16, y: row, width: spans_width(spans) as u16, height: 1 };
            if overlap(node_rect(node, scroll), clip) && overlap(line, clip) {
                lemma_line_row_in_clip(line, clip);
                lemma_spans_in_frame(rows, spans, x, row, clip, parent_bg, spans.len() as int, wide);
            }
        },
        RenderNodeType::RichTextWrapped(ls) => {
            let hi = line_window(shown_row(node, scroll), drawn_row(node, scroll), ls@.len() as usize, clip).1;
            if overlap(node_rect(node, scroll), clip) {
                lemma_rich_wrapped_in_frame(rows, node, ls@, scroll, clip, parent_bg, hi as int, wide);
            }
        },
        _ => {},
    }
}

/// A cell inside the clip lies in its frame.
pub proof fn lemma_inside_in_frame(clip: Rect, x: int, y: int, wide: bool)
    requires
        inside(clip, x, y),
    ensures
        in_frame(clip, x, y, wide),
{
}

/// An element's border and background keep the cells outside the clip.
pub proof fn lemma_paint_in_frame(rows: Seq<Seq<Cell>>, node: RenderNode, scroll: i16, clip: Rect, parent_bg: Option<Color>, wide: bool)
    ensures
        same_outside(rows, paint_rows(rows, element_paint(node, scroll, clip, parent_bg)), clip, wide),
{
    let p = element_paint(node, scroll, clip, parent_bg);
    let after = paint_rows(rows, p);
    assert forall|y: int, x: int|
        0 <= y < rows.len() && 0 <= x < rows[y].len() && !in_frame(clip, x, y, wide) implies #[trigger] after[y][x] == rows[y][x] by {
        if inside(p.area, x, y) {
            lemma_paint_stays_in_clip(node, scroll, clip, parent_bg, x, y);
        }
    }
}

/// A scrollbar keeps the cells outside the clip.
pub proof fn lemma_scrollbar_in_frame(rows: Seq<Seq<Cell>>, node: RenderNode, clip: Rect, scroll: i16, thumb_offset: u16, thumb_length: u16, wide: bool)
    ensures
        same_outside(rows, scrollbar_rows(rows, node, clip, scroll, thumb_offset, thumb_length), clip, wide),
{
    let after = scrollbar_rows(rows, node, clip, scroll, thumb_offset, thumb_length);
    let area = common(node_rect(node, scroll), clip);
    assert forall|y: int, x: int|
        0 <= y < rows.len() && 0 <= x < rows[y].len() && !in_frame(clip, x, y, wide) implies #[trigger] after[y][x] == rows[y][x] by {
        lemma_common_is_intersection(node_rect(node, scroll), clip, x, y);
        if inside(area, x, y) {
            lemma_inside_in_frame(clip, x, y, wide);
        }
        assert(scrollbar_cell_at(scrollbar_place(node, scroll, thumb_offset, thumb_length), area, x, y) is None);
    }
}

/// The frame of the clip an element hands its children lies in the frame
/// of its own clip.
pub proof fn lemma_child_frame_within(node: RenderNode, scroll: i16, clip: Rect, x: int, y: int, wide: bool)
    requires
        in_frame(child_clip(node, scroll, clip), x, y, wide),
    ensures
        in_frame(clip, x, y, wide),
{
}

/// Every line of text in the tree stays in the frame (see `line_in_frame`).
pub open spec fn tree_lines_narrow(t: RenderTree, wide: bool) -> bool {
    forall|j: int| 0 <= j < t.nodes@.len() ==> lines_narrow(#[trigger] t.nodes@[j], wide)
}

/// Drawing the children of node `i` keeps the cells outside the clip's
/// frame.
pub proof fn lemma_children_in_frame(
    t: RenderTree,
    i: int,
    order: Seq<usize>,
    k: int,
    rows: Seq<Seq<Cell>>,
    clip: Rect,
    bg: Option<Color>,
    scroll: i16,
    thumbs: Seq<(u16, u16)>,
    wide: bool,
)
    requires
        t.wf(),
        tree_lines_narrow(t, wide),
    ensures
        same_outside(rows, drawn_children(t, i, order, k, rows, clip, bg, scroll, thumbs), clip, wide),
    decreases t.nodes@.len() - i, 0int, order.len() - k,
{
    if is_node(t, i) && i < t.children@.len() && 0 <= k < order.len() {
        let ci = order[k] as int;
        let next = if 0 <= ci < kids(t, i).len() && i < kids(t, i)[ci] && kids(t, i)[ci] < t.nodes@.len() {
            lemma_drawn_in_frame(t, kids(t, i)[ci] as int, rows, clip, bg, scroll, thumbs, wide);
            drawn_rows(t, kids(t, i)[ci] as int, rows, clip, bg, scroll, thumbs)
        } else {
            rows
        };
        lemma_children_in_frame(t, i, order, k + 1, next, clip, bg, scroll, thumbs, wide);
        lemma_same_outside_chain(rows, next, drawn_children(t, i, order, k, rows, clip, bg, scroll, thumbs), clip, clip, clip, wide);
    }
}

/// Drawing a subtree changes no cell outside the frame of its clip (see
/// `in_frame`) when every line of text in the tree stays in that frame:
/// with `wide`, the frame takes in the column just right of the clip, where
/// a character two columns wide that starts in the clip's last column
/// draws its second half; without it, the text must be of single-column
/// characters and the frame is the clip itself.
pub proof fn lemma_drawn_in_frame(
    t: RenderTree,
    i: int,
    rows: Seq<Seq<Cell>>,
    clip: Rect,
    bg: Option<Color>,
    scroll: i16,
    thumbs: Seq<(u16, u16)>,
    wide: bool,
)
    requires
        t.wf(),
        tree_lines_narrow(t, wide),
    ensures
        same_outside(rows, drawn_rows(t, i, rows, clip, bg, scroll, thumbs), clip, wide),
    decreases t.nodes@.len() - i, 1int, 0int,
{
    if is_node(t, i) && i < t.children@.len() {
        let n = t.nodes@[i];
        assert(lines_narrow(n, wide));
        match n.node_type {
            RenderNodeType::Element => {
                if overlap(node_rect(n, scroll), clip) {
                    let r1 = paint_rows(rows, element_paint(n, scroll, clip, bg));
                    lemma_paint_in_frame(rows, n, scroll, clip, bg, wide);
                    match child_pass(n, scroll, clip, bg) {
                        Some(pass) => {
                            let r2 = drawn_children(t, i, child_draw_order(t, i), 0, r1, pass.clip, pass.background, pass.scroll_offset, thumbs);
                            lemma_children_in_frame(t, i, child_draw_order(t, i), 0, r1, pass.clip, pass.background, pass.scroll_offset, thumbs, wide);
                            assert forall|x: int, y: int| in_frame(pass.clip, x, y, wide) implies in_frame(clip, x, y, wide) by {
                                lemma_child_frame_within(n, scroll, clip, x, y, wide);
                            }
                            lemma_same_outside_chain(rows, r1, r2, clip, pass.clip, clip, wide);
                            if pass.scrollbars {
                                let r3 = scrollbar_rows(r2, n, clip, scroll, thumbs[i].0, thumbs[i].1);
                                lemma_scrollbar_in_frame(r2, n, clip, scroll, thumbs[i].0, thumbs[i].1, wide);
                                lemma_same_outside_chain(rows, r2, r3, clip, clip, clip, wide);
                            }
                        },
                        None => {},
                    }
                }
            },
            _ => {
                lemma_text_in_frame(rows, n, clip, bg, scroll, wide);
            },
        }
    }
}

/// Drawing a subtree whose text is of single-column characters (each
/// line narrower than 2^16 columns) changes no cell outside its clip.
pub proof fn lemma_single_width_text_stays_in_clip(
    t: RenderTree,
    i: int,
    rows: Seq<Seq<Cell>>,
    clip: Rect,
    bg: Option<Color>,
    scroll: i16,
    thumbs: Seq<(u16, u16)>,
)
    requires
        t.wf(),
        tree_lines_narrow(t, false),
    ensures
        ({
            let drawn = drawn_rows(t, i, rows, clip, bg, scroll, thumbs);
            &&& drawn.len() == rows.len()
            &&& forall|y: int| 0 <= y < rows.len() ==> (#[trigger] drawn[y]).len() == rows[y].len()
            &&& forall|y: int, x: int| 0 <= y < rows.len() && 0 <= x < rows[y].len() && !inside(clip, x, y)
                ==> #[trigger] drawn[y][x] == rows[y][x]
        }),
{
    lemma_drawn_in_frame(t, i, rows, clip, bg, scroll, thumbs, false);
}

/// Drawing a subtree changes no cell outside its clip but in the column
/// just right of it, when every line of text in the tree is narrower than
/// 2^16 columns.
pub proof fn lemma_drawing_stays_near_clip(
    t: RenderTree,
    i: int,
    rows: Seq<Seq<Cell>>,
    clip: Rect,
    bg: Option<Color>,
    scroll: i16,
    thumbs: Seq<(u16, u16)>,
)
    requires
        t.wf(),
        tree_lines_narrow(t, true),
    ensures
        ({
            let drawn = drawn_rows(t, i, rows, clip, bg, scroll, thumbs);
            &&& drawn.len() == rows.len()
            &&& forall|y: int| 0 <= y < rows.len() ==> (#[trigger] drawn[y]).len() == rows[y].len()
            &&& forall|y: int, x: int| 0 <= y < rows.len() && 0 <= x < rows[y].len()
                && !(inside(clip, x, y) || (clip.width > 0 && x == right_of(clip) && clip.y <= y < bottom_of(clip)))
                ==> #[trigger] drawn[y][x] == rows[y][x]
        }),
{
    lemma_drawn_in_frame(t, i, rows, clip, bg, scroll, thumbs, true);
}

} // verus!
