//! Tests that drawing stays within the integer types: for a clipped line
//! of text, a line of spans, each kind of node, a scrollbar and a whole
//! subtree, a check that holds exactly when the drawing function's
//! precondition does, so that a caller can test before it draws.
use vstd::prelude::*;
use crate::buffer::{ScreenBuffer, chars_fit};
use crate::draw::{child_draw_order, child_layers, draw_children_ok, draw_ok, drawn_rows, render_node_to_buffer};
use crate::layout::{RenderNode, RenderNodeType, TextSpan, border_offset_of, padding_of};
use crate::render::{
    ChildPass, Rect, align_offset, align_shift, child_pass, children_clip, child_scroll, clips, draw_order, drawn_row,
    element_paint, has_content_room, lemma_spans_width_grows, line_fits, line_start, line_window, node_bounds, node_rect,
    overlap, render_ok, rich_ok, rich_wrapped_ok, scrollbar_fits, scrollbar_row, shown_row, spans_fit, spans_width,
    text_align_of, text_ok, visible_lines, visible_span, wrapped_ok,
};
use crate::style::{Color, Overflow, TextAlign};
use crate::tree::{RenderTree, kids};
use crate::unicode::{chars_of, chars_width, slice_columns};

verus! {

/// The alignment of a node's text (see `text_align_of`).
fn text_align(node: &RenderNode) -> (a: Option<TextAlign>)
    ensures
        a == text_align_of(*node),
{
    match &node.text_style {
        Some(t) => t.align,
        None => None,
    }
}

/// Whether writing `cs` from column `x` within the clip stays within the
/// integer types (see `line_fits`).
pub fn line_fits_check(width: u16, x: u16, cs: &Vec<char>, clip: &Rect) -> (b: bool)
    ensures
        b == line_fits(width, x, cs@, *clip),
{
    if cs.len() > usize::MAX / 3 {
        return false;
    }
    let columns = chars_width(cs);
    if x as u64 + (columns % 65536) as u64 > 65535 {
        return false;
    }
    match visible_span(x, columns, clip) {
        Some((s, e, rx)) => {
            let part = slice_columns(cs, s, e);
            chars_fit(rx, width, &part)
        },
        None => true,
    }
}

/// Whether one line of a node's text fits: its characters can be counted,
/// its aligned start is a column, and the line can be written from there.
pub open spec fn text_line_ok(node: RenderNode, width: u16, clip: Rect, cs: Seq<char>) -> bool {
    &&& 3 * cs.len() <= usize::MAX
    &&& line_start(node, cs) <= 65535
    &&& line_fits(width, line_start(node, cs) as u16, cs, clip)
}

fn text_line_fits(node: &RenderNode, width: u16, clip: &Rect, text: &str) -> (b: bool)
    ensures
        b == text_line_ok(*node, width, *clip, text@),
{
    let cs = chars_of(text);
    if cs.len() > usize::MAX / 3 {
        return false;
    }
    let columns = chars_width(&cs);
    let start: u32 = node.x as u32 + align_offset(text_align(node), node.width, (columns % 65536) as u16) as u32;
    if start > 65535 {
        return false;
    }
    line_fits_check(width, start as u16, &cs, clip)
}

/// Whether drawing a text node stays within the integer types (see
/// `text_ok`).
pub fn text_fits(node: &RenderNode, scroll: i16, clip: &Rect, width: u16) -> (b: bool)
    ensures
        b == text_ok(*node, scroll, *clip, width),
{
    match &node.node_type {
        RenderNodeType::Text(t) => {
            let (bounds, _row, _shown) = node_bounds(node, scroll);
            if bounds.intersects(clip) {
                text_line_fits(node, width, clip, t.as_str())
            } else {
                let cs = chars_of(t.as_str());
                cs.len() <= usize::MAX / 3
            }
        },
        _ => false,
    }
}

/// Whether drawing a node's wrapped text stays within the integer types
/// (see `wrapped_ok`).
pub fn wrapped_fits(node: &RenderNode, scroll: i16, clip: &Rect, width: u16) -> (b: bool)
    ensures
        b == wrapped_ok(*node, scroll, *clip, width),
{
    match &node.node_type {
        RenderNodeType::TextWrapped(lines) => {
            let (bounds, row, shown) = node_bounds(node, scroll);
            if !bounds.intersects(clip) {
                return true;
            }
            let (lo, hi) = visible_lines(shown, row, lines.len(), clip);
            let mut k: usize = lo;
            while k < hi
                invariant
                    (lo, hi) == line_window(shown_row(*node, scroll), drawn_row(*node, scroll), lines@.len() as usize, *clip),
                    node.node_type == RenderNodeType::TextWrapped(*lines),
                    overlap(node_rect(*node, scroll), *clip),
                    lo <= k <= hi,
                    hi <= lines@.len(),
                    forall|j: int| lo <= j < k ==> text_line_ok(*node, width, *clip, (#[trigger] lines@[j])@),
                decreases hi - k,
            {
                if !text_line_fits(node, width, clip, lines[k].as_str()) {
                    let ghost cs = lines@[k as int]@;
                    assert(!(3 * cs.len() <= usize::MAX && line_start(*node, cs) <= 65535
                        && line_fits(width, line_start(*node, cs) as u16, cs, *clip)));
                    assert(overlap(node_rect(*node, scroll), *clip));
                    return false;
                }
                k = k + 1;
            }
            assert forall|j: int| lo <= j < hi implies {
                &&& 3 * (#[trigger] lines@[j])@.len() <= usize::MAX
                &&& line_start(*node, lines@[j]@) <= 65535
                &&& line_fits(width, line_start(*node, lines@[j]@) as u16, lines@[j]@, *clip)
            } by {
                assert(text_line_ok(*node, width, *clip, lines@[j]@));
            }
            true
        },
        _ => false,
    }
}

/// Whether a line of spans fits when written from its node's aligned
/// start: its width and start are columns, and each span can be written.
pub open spec fn span_line_ok(node: RenderNode, width: u16, clip: Rect, spans: Seq<TextSpan>) -> bool {
    let x = node.x + align_shift(text_align_of(node), node.width, spans_width(spans) as u16);
    &&& spans_width(spans) <= 65535
    &&& x <= 65535
    &&& spans_fit(width, x, spans, clip)
}

/// The width of a line of spans, when every span's characters can be
/// counted and the width is a column count.
fn spans_width_checked(spans: &Vec<TextSpan>) -> (r: Option<u16>)
    ensures
        r matches Some(w) ==> w == spans_width(spans@),
        r is None ==> spans_width(spans@) > 65535 || exists|k: int| 0 <= k < spans@.len() && 3 * (#[trigger] spans@[k]).content@.len() > usize::MAX,
{
    let n = spans.len();
    let mut total: u32 = 0;
    let mut k: usize = 0;
    assert(spans@.take(0) =~= Seq::<TextSpan>::empty());
    while k < n
        invariant
            n == spans@.len(),
            k <= n,
            total == spans_width(spans@.take(k as int)),
            total <= 65535,
        decreases n - k,
    {
        let cs = chars_of(spans[k].content.as_str());
        if cs.len() > usize::MAX / 3 {
            assert(3 * spans@[k as int].content@.len() > usize::MAX);
            return None;
        }
        let columns = chars_width(&cs);
        let next: u32 = total + (columns % 65536) as u32;
        proof {
            assert(spans@.take(k + 1).drop_last() =~= spans@.take(k as int));
            lemma_spans_width_grows(spans@, k + 1);
        }
        if next > 65535 {
            return None;
        }
        total = next;
        k = k + 1;
    }
    assert(spans@.take(n as int) =~= spans@);
    Some(total as u16)
}

/// Whether writing a line of spans from column `x` stays within the
/// integer types (see `spans_fit`).
pub fn spans_fit_check(width: u16, x: u32, spans: &Vec<TextSpan>, clip: &Rect) -> (b: bool)
    ensures
        b == spans_fit(width, x as int, spans@, *clip),
{
    proof {
        lemma_spans_width_grows(spans@, 0);
        assert(spans@.take(0) =~= Seq::<TextSpan>::empty());
    }
    if x > 65535 {
        return false;
    }
    let n = spans.len();
    let mut total: u32 = 0;
    let mut k: usize = 0;
    while k < n
        invariant
            n == spans@.len(),
            k <= n,
            total == spans_width(spans@.take(k as int)),
            x + total <= 65535,
            forall|j: int| 0 <= j < k ==> {
                &&& 3 * (#[trigger] spans@[j]).content@.len() <= usize::MAX
                &&& line_fits(width, (x + spans_width(spans@.take(j))) as u16, spans@[j].content@, *clip)
            },
        decreases n - k,
    {
        let cs = chars_of(spans[k].content.as_str());
        if cs.len() > usize::MAX / 3 {
            assert(3 * spans@[k as int].content@.len() > usize::MAX);
            return false;
        }
        if !line_fits_check(width, (x + total) as u16, &cs, clip) {
            assert(!line_fits(width, (x + spans_width(spans@.take(k as int))) as u16, spans@[k as int].content@, *clip));
            return false;
        }
        let columns = chars_width(&cs);
        let next: u32 = total + (columns % 65536) as u32;
        proof {
            assert(spans@.take(k + 1).drop_last() =~= spans@.take(k as int));
            lemma_spans_width_grows(spans@, k + 1);
        }
        if x + next > 65535 {
            return false;
        }
        total = next;
        k = k + 1;
    }
    assert(spans@.take(n as int) =~= spans@);
    true
}

fn span_line_fits(node: &RenderNode, width: u16, clip: &Rect, spans: &Vec<TextSpan>) -> (b: bool)
    ensures
        b == span_line_ok(*node, width, *clip, spans@),
{
    match spans_width_checked(spans) {
        Some(w) => {
            let x: u32 = node.x as u32 + align_offset(text_align(node), node.width, w) as u32;
            if x > 65535 {
                return false;
            }
            spans_fit_check(width, x, spans, clip)
        },
        None => false,
    }
}

/// Whether drawing a node's line of spans stays within the integer types
/// (see `rich_ok`).
pub fn rich_fits(node: &RenderNode, scroll: i16, clip: &Rect, width: u16) -> (b: bool)
    ensures
        b == rich_ok(*node, scroll, *clip, width),
{
    match &node.node_type {
        RenderNodeType::RichText(spans) => {
            let (bounds, _row, _shown) = node_bounds(node, scroll);
            if !bounds.intersects(clip) {
                return true;
            }
            span_line_fits(node, width, clip, spans)
        },
        _ => false,
    }
}

/// Whether drawing a node's wrapped lines of spans stays within the
/// integer types (see `rich_wrapped_ok`).
pub fn rich_wrapped_fits(node: &RenderNode, scroll: i16, clip: &Rect, width: u16) -> (b: bool)
    ensures
        b == rich_wrapped_ok(*node, scroll, *clip, width),
{
    match &node.node_type {
        RenderNodeType::RichTextWrapped(lines) => {
            let (bounds, row, shown) = node_bounds(node, scroll);
            if !bounds.intersects(clip) {
                return true;
            }
            let (lo, hi) = visible_lines(shown, row, lines.len(), clip);
            let mut k: usize = lo;
            while k < hi
                invariant
                    (lo, hi) == line_window(shown_row(*node, scroll), drawn_row(*node, scroll), lines@.len() as usize, *clip),
                    node.node_type == RenderNodeType::RichTextWrapped(*lines),
                    overlap(node_rect(*node, scroll), *clip),
                    lo <= k <= hi,
                    hi <= lines@.len(),
                    forall|j: int| lo <= j < k ==> span_line_ok(*node, width, *clip, (#[trigger] lines@[j])@),
                decreases hi - k,
            {
                if !span_line_fits(node, width, clip, &lines[k]) {
                    let ghost spans = lines@[k as int]@;
                    let ghost x = node.x + align_shift(text_align_of(*node), node.width, spans_width(spans) as u16);
                    assert(!(spans_width(spans) <= 65535 && x <= 65535 && spans_fit(width, x, spans, *clip)));
                    assert(overlap(node_rect(*node, scroll), *clip));
                    return false;
                }
                k = k + 1;
            }
            assert forall|j: int| lo <= j < hi implies {
                let spans = (#[trigger] lines@[j])@;
                let x = node.x + align_shift(text_align_of(*node), node.width, spans_width(spans) as u16);
                &&& spans_width(spans) <= 65535
                &&& x <= 65535
                &&& spans_fit(width, x, spans, *clip)
            } by {
                assert(span_line_ok(*node, width, *clip, lines@[j]@));
            }
            true
        },
        _ => false,
    }
}

/// Whether drawing an element stays within the integer types (see
/// `render_ok`).
pub fn element_fits(node: &RenderNode, scroll: i16, clip: &Rect, parent_bg: Option<Color>) -> (b: bool)
    ensures
        b == render_ok(*node, scroll, *clip, parent_bg),
{
    let (bounds, row, _shown) = node_bounds(node, scroll);
    if !bounds.intersects(clip) {
        return true;
    }
    let (bordered, bo, padding, clipping) = match &node.style {
        Some(style) => {
            let bordered = match &style.border {
                Some(b) => b.enabled && node.width > 1 && node.height > 1,
                None => false,
            };
            let bo: u32 = match &style.border {
                Some(b) => if b.enabled { 1 } else { 0 },
                None => 0,
            };
            let padding = match style.padding {
                Some(p) => p,
                None => crate::style::Spacing { top: 0, right: 0, bottom: 0, left: 0 },
            };
            let clipping = match style.overflow {
                Some(Overflow::Hidden) => true,
                Some(Overflow::Scroll) => true,
                Some(Overflow::Auto) => true,
                _ => false,
            };
            (bordered, bo, padding, clipping)
        },
        None => (false, 0u32, crate::style::Spacing { top: 0, right: 0, bottom: 0, left: 0 }, false),
    };
    assert(bo == border_offset_of(node.style));
    assert(padding == padding_of(node.style));
    assert(clipping == clips(node.style));
    assert(bordered == (element_paint(*node, scroll, *clip, parent_bg).border is Some));
    if bordered && (node.x as u32 + node.width as u32 > 65535 || row as u32 + node.height as u32 > 65535) {
        return false;
    }
    if clipping && node.x as u32 + bo > 65535 {
        return false;
    }
    let horizontal: u32 = padding.left as u32 + padding.right as u32 + 2 * bo;
    let vertical: u32 = padding.top as u32 + padding.bottom as u32 + 2 * bo;
    if horizontal > 65535 || vertical > 65535 {
        return false;
    }
    let room = (node.width as u32) > horizontal && (node.height as u32) > vertical;
    assert(room == has_content_room(*node));
    if room && node.scrollable {
        let own: i32 = if node.scroll_y < 32768 { node.scroll_y as i32 } else { node.scroll_y as i32 - 65536 };
        let offset: i32 = scroll as i32 + own;
        assert(offset == child_scroll(*node, scroll));
        if offset < -32768 || offset > 32767 {
            return false;
        }
    }
    true
}

/// What an element hands its children (see `child_pass`), without drawing
/// it.
pub fn child_pass_of(node: &RenderNode, scroll: i16, clip: &Rect, parent_bg: Option<Color>) -> (r: Option<ChildPass>)
    requires
        render_ok(*node, scroll, *clip, parent_bg),
        overlap(node_rect(*node, scroll), *clip),
    ensures
        r == child_pass(*node, scroll, *clip, parent_bg),
{
    let kids_clip = children_clip(node, scroll, clip);
    let (fill, padding, bo, show): (Option<Color>, crate::style::Spacing, u16, bool) = match &node.style {
        Some(style) => {
            let bo: u16 = match &style.border {
                Some(b) => if b.enabled { 1 } else { 0 },
                None => 0,
            };
            let padding = match style.padding {
                Some(p) => p,
                None => crate::style::Spacing { top: 0, right: 0, bottom: 0, left: 0 },
            };
            let show = match style.show_scrollbar {
                Some(v) => v,
                None => true,
            };
            (style.background, padding, bo, show)
        },
        None => (None, crate::style::Spacing { top: 0, right: 0, bottom: 0, left: 0 }, 0, true),
    };
    let content_width = node.width.saturating_sub(padding.left + padding.right + bo * 2);
    let content_height = node.height.saturating_sub(padding.top + padding.bottom + bo * 2);
    if content_width > 0 && content_height > 0 {
        let offset: i16 = if node.scrollable {
            let own: i16 = if node.scroll_y < 32768 { node.scroll_y as i16 } else { (node.scroll_y as i32 - 65536) as i16 };
            scroll + own
        } else {
            scroll
        };
        let background = if fill.is_some() { fill } else { parent_bg };
        Some(ChildPass { clip: kids_clip, background, scroll_offset: offset, scrollbars: node.scrollable && show })
    } else {
        None
    }
}

/// Whether a node's scrollbar coordinates fit in `u16` (see
/// `scrollbar_fits`).
pub fn scrollbar_fits_check(node: &RenderNode, scroll: i16, thumb_offset: u16, thumb_length: u16) -> (b: bool)
    ensures
        b == scrollbar_fits(*node, scroll, thumb_offset, thumb_length),
{
    let y: i32 = if scroll > 0 {
        if node.y as i32 > scroll as i32 { node.y as i32 - scroll as i32 } else { 0 }
    } else {
        node.y as i32
    };
    assert(y == scrollbar_row(*node, scroll));
    node.x as i64 + node.width as i64 <= 65536 && y as i64 + node.height as i64 <= 65535
        && y as i64 + thumb_offset as i64 + thumb_length as i64 <= 65535
}

impl RenderTree {
    /// Whether drawing the subtree at `i` stays within the integer types
    /// (see `draw_ok`).
    fn subtree_fits(&self, i: usize, clip: &Rect, bg: Option<Color>, scroll: i16, width: u16, thumbs: &Vec<(u16, u16)>) -> (b: bool)
        requires
            self.wf(),
            i < self.nodes@.len(),
            thumbs@.len() == self.nodes@.len(),
        ensures
            b == draw_ok(*self, i as int, *clip, bg, scroll, width, thumbs@),
        decreases self.nodes@.len() - i, 1int,
    {
        let node = &self.nodes[i];
        match &node.node_type {
            RenderNodeType::Element => {
                if !element_fits(node, scroll, clip, bg) {
                    return false;
                }
                let (bounds, _row, _shown) = node_bounds(node, scroll);
                if !bounds.intersects(clip) {
                    return true;
                }
                match child_pass_of(node, scroll, clip, bg) {
                    Some(p) => {
                        let zs = self.children_layers(i);
                        let order = draw_order(&zs);
                        let n = order.len();
                        let mut q: usize = 0;
                        while q < n
                            invariant
                                self.wf(),
                                i < self.nodes@.len(),
                                thumbs@.len() == self.nodes@.len(),
                                *node == self.nodes@[i as int],
                                node.node_type is Element,
                                render_ok(*node, scroll, *clip, bg),
                                overlap(node_rect(*node, scroll), *clip),
                                child_pass(*node, scroll, *clip, bg) == Some(p),
                                n == order@.len(),
                                order@ == child_draw_order(*self, i as int),
                                zs@ == child_layers(*self, i as int),
                                q <= n,
                                draw_children_ok(*self, i as int, order@, 0, p.clip, p.background, p.scroll_offset, width, thumbs@)
                                    == draw_children_ok(*self, i as int, order@, q as int, p.clip, p.background, p.scroll_offset, width, thumbs@),
                            decreases n - q,
                        {
                            let ci = order[q];
                            if ci < self.children[i].len() {
                                let c = self.children[i][ci];
                                assert(c == kids(*self, i as int)[ci as int]);
                                if !self.subtree_fits(c, &p.clip, p.background, p.scroll_offset, width, thumbs) {
                                    assert(i < c);
                                    assert(!draw_children_ok(*self, i as int, order@, q as int, p.clip, p.background, p.scroll_offset, width, thumbs@));
                                    return false;
                                }
                            }
                            q = q + 1;
                        }
                        if p.scrollbars && node.content_height > node.height && node.height > 2 {
                            let (offset, length) = thumbs[i];
                            scrollbar_fits_check(node, scroll, offset, length)
                        } else {
                            true
                        }
                    },
                    None => true,
                }
            },
            RenderNodeType::Text(_) => text_fits(node, scroll, clip, width),
            RenderNodeType::TextWrapped(_) => wrapped_fits(node, scroll, clip, width),
            RenderNodeType::RichText(_) => rich_fits(node, scroll, clip, width),
            RenderNodeType::RichTextWrapped(_) => rich_wrapped_fits(node, scroll, clip, width),
        }
    }
}

/// Whether the subtree at `node` can be drawn into a buffer `width`
/// columns wide, within the clip, with the inherited background
/// `parent_bg` and the scrollbar thumbs `thumbs` (see
/// `render_node_to_buffer`), without leaving the integer types.
pub fn draw_fits(tree: &RenderTree, node: usize, clip: &Rect, parent_bg: Option<Color>, width: u16, thumbs: &Vec<(u16, u16)>) -> (b: bool)
    requires
        tree.wf(),
        node < tree.nodes@.len(),
        thumbs@.len() == tree.nodes@.len(),
    ensures
        b == draw_ok(*tree, node as int, *clip, parent_bg, 0, width, thumbs@),
{
    tree.subtree_fits(node, clip, parent_bg, 0, width, thumbs)
}

/// Draws the subtree at `node` as `render_node_to_buffer` does when that
/// stays within the integer types (see `draw_fits`), and says whether it
/// drew; otherwise the buffer is left as it was.
pub fn try_render_node_to_buffer(
    tree: &RenderTree,
    node: usize,
    buffer: &mut ScreenBuffer,
    clip: &Rect,
    parent_bg: Option<Color>,
    thumbs: &Vec<(u16, u16)>,
) -> (drew: bool)
    requires
        tree.wf(),
        node < tree.nodes@.len(),
        old(buffer).wf(),
        thumbs@.len() == tree.nodes@.len(),
    ensures
        drew == draw_ok(*tree, node as int, *clip, parent_bg, 0, old(buffer).spec_width(), thumbs@),
        final(buffer).wf(),
        final(buffer).spec_width() == old(buffer).spec_width(),
        final(buffer).spec_height() == old(buffer).spec_height(),
        drew ==> final(buffer).rows() == drawn_rows(*tree, node as int, old(buffer).rows(), *clip, parent_bg, 0, thumbs@),
        !drew ==> final(buffer).rows() == old(buffer).rows(),
{
    let (width, _height) = buffer.dimensions();
    if draw_fits(tree, node, clip, parent_bg, width, thumbs) {
        render_node_to_buffer(tree, node, buffer, clip, parent_bg, thumbs);
        true
    } else {
        false
    }
}

} // verus!
