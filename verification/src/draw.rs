//! Drawing a whole subtree of the render tree into a screen buffer: each
//! node as `render` draws it, an element's children after it in layer
//! order with the clip, background and scroll it hands them, and its
//! scrollbar last.
use vstd::prelude::*;
use crate::buffer::{Cell, ScreenBuffer};
use crate::layout::RenderNodeType;
use crate::render::{
    Rect, child_pass, common, draw_order, element_paint, inside, is_draw_order, layer_order, lemma_cells_to_rows, node_rect,
    overlap, paint_rows, painted_cell, render_element, render_ok, render_rich_text, render_rich_wrapped_text,
    render_scrollbar, render_text, render_wrapped_text, rich_ok, rich_rows, rich_wrapped_ok, rich_wrapped_rows,
    scrollbar_cell_at, scrollbar_fits, scrollbar_place, scrollbar_rows, shows_scrollbar, text_ok, text_rows, wrapped_ok,
    wrapped_rows,
};
use crate::style::Color;
use crate::tree::{RenderTree, is_node, kids};

verus! {

/// The layers of node `i`'s children, in order.
pub open spec fn child_layers(t: RenderTree, i: int) -> Seq<i32> {
    Seq::new(kids(t, i).len(), |k: int| t.nodes@[kids(t, i)[k] as int].z_index)
}

/// The positions of node `i`'s children in the order they are drawn.
pub open spec fn child_draw_order(t: RenderTree, i: int) -> Seq<usize> {
    layer_order(child_layers(t, i), kids(t, i).len() as int)
}

/// `rows` after the subtree at `i` is drawn with the given clip, inherited
/// background and scroll: an element that shows within the clip paints
/// itself, then (when it has room) its children in layer order with what
/// it hands them, then its scrollbar when it scrolls and shows one (with
/// the thumb given for it in `thumbs`); text is drawn as `render` says.
pub open spec fn drawn_rows(
    t: RenderTree,
    i: int,
    rows: Seq<Seq<Cell>>,
    clip: Rect,
    bg: Option<Color>,
    scroll: i16,
    thumbs: Seq<(u16, u16)>,
) -> Seq<Seq<Cell>>
    decreases t.nodes@.len() - i, 1int, 0int,
{
    if is_node(t, i) && i < t.children@.len() {
        let n = t.nodes@[i];
        match n.node_type {
            RenderNodeType::Element => if overlap(node_rect(n, scroll), clip) {
                let r1 = paint_rows(rows, element_paint(n, scroll, clip, bg));
                match child_pass(n, scroll, clip, bg) {
                    Some(pass) => {
                        let r2 = drawn_children(t, i, child_draw_order(t, i), 0, r1, pass.clip, pass.background, pass.scroll_offset, thumbs);
                        if pass.scrollbars { scrollbar_rows(r2, n, clip, scroll, thumbs[i].0, thumbs[i].1) } else { r2 }
                    },
                    None => r1,
                }
            } else {
                rows
            },
            RenderNodeType::Text(_) => text_rows(rows, n, clip, bg, scroll),
            RenderNodeType::TextWrapped(_) => wrapped_rows(rows, n, clip, bg, scroll),
            RenderNodeType::RichText(_) => rich_rows(rows, n, clip, bg, scroll),
            RenderNodeType::RichTextWrapped(_) => rich_wrapped_rows(rows, n, clip, bg, scroll),
        }
    } else {
        rows
    }
}

/// `rows` after the children of node `i` at positions `order[k..]` are
/// drawn one after another.
pub open spec fn drawn_children(
    t: RenderTree,
    i: int,
    order: Seq<usize>,
    k: int,
    rows: Seq<Seq<Cell>>,
    clip: Rect,
    bg: Option<Color>,
    scroll: i16,
    thumbs: Seq<(u16, u16)>,
) -> Seq<Seq<Cell>>
    decreases t.nodes@.len() - i, 0int, order.len() - k,
{
    if is_node(t, i) && i < t.children@.len() && 0 <= k < order.len() {
        let ci = order[k] as int;
        let next = if 0 <= ci < kids(t, i).len() && i < kids(t, i)[ci] && kids(t, i)[ci] < t.nodes@.len() {
            drawn_rows(t, kids(t, i)[ci] as int, rows, clip, bg, scroll, thumbs)
        } else {
            rows
        };
        drawn_children(t, i, order, k + 1, next, clip, bg, scroll, thumbs)
    } else {
        rows
    }
}

/// Whether drawing the subtree at `i` stays within the integer types, node
/// by node (see `render_ok`, `text_ok`, `wrapped_ok`, `rich_ok`,
/// `rich_wrapped_ok` and `scrollbar_fits`).
pub open spec fn draw_ok(t: RenderTree, i: int, clip: Rect, bg: Option<Color>, scroll: i16, width: u16, thumbs: Seq<(u16, u16)>) -> bool
    decreases t.nodes@.len() - i, 1int, 0int,
{
    if is_node(t, i) && i < t.children@.len() {
        let n = t.nodes@[i];
        match n.node_type {
            RenderNodeType::Element => {
                &&& render_ok(n, scroll, clip, bg)
                &&& overlap(node_rect(n, scroll), clip) ==> match child_pass(n, scroll, clip, bg) {
                    Some(pass) => {
                        &&& draw_children_ok(t, i, child_draw_order(t, i), 0, pass.clip, pass.background, pass.scroll_offset, width, thumbs)
                        &&& pass.scrollbars && shows_scrollbar(n) ==> scrollbar_fits(n, scroll, thumbs[i].0, thumbs[i].1)
                    },
                    None => true,
                }
            },
            RenderNodeType::Text(_) => text_ok(n, scroll, clip, width),
            RenderNodeType::TextWrapped(_) => wrapped_ok(n, scroll, clip, width),
            RenderNodeType::RichText(_) => rich_ok(n, scroll, clip, width),
            RenderNodeType::RichTextWrapped(_) => rich_wrapped_ok(n, scroll, clip, width),
        }
    } else {
        true
    }
}

/// Whether drawing the children of node `i` at positions `order[k..]`
/// stays within the integer types.
pub open spec fn draw_children_ok(
    t: RenderTree,
    i: int,
    order: Seq<usize>,
    k: int,
    clip: Rect,
    bg: Option<Color>,
    scroll: i16,
    width: u16,
    thumbs: Seq<(u16, u16)>,
) -> bool
    decreases t.nodes@.len() - i, 0int, order.len() - k,
{
    if is_node(t, i) && i < t.children@.len() && 0 <= k < order.len() {
        let ci = order[k] as int;
        &&& (0 <= ci < kids(t, i).len() && i < kids(t, i)[ci] && kids(t, i)[ci] < t.nodes@.len()
            ==> draw_ok(t, kids(t, i)[ci] as int, clip, bg, scroll, width, thumbs))
        &&& draw_children_ok(t, i, order, k + 1, clip, bg, scroll, width, thumbs)
    } else {
        true
    }
}

impl RenderTree {
    /// The layers of node `i`'s children (see `child_layers`).
    pub(crate) fn children_layers(&self, i: usize) -> (zs: Vec<i32>)
        requires
            self.wf(),
            i < self.nodes@.len(),
        ensures
            zs@ == child_layers(*self, i as int),
    {
        let m = self.children[i].len();
        let mut zs: Vec<i32> = Vec::new();
        let mut k: usize = 0;
        while k < m
            invariant
                self.wf(),
                i < self.nodes@.len(),
                m == kids(*self, i as int).len(),
                k <= m,
                zs@ == child_layers(*self, i as int).take(k as int),
            decreases m - k,
        {
            let c = self.children[i][k];
            assert(c == kids(*self, i as int)[k as int]);
            zs.push(self.nodes[c].z_index);
            assert(zs@ =~= child_layers(*self, i as int).take(k + 1));
            k = k + 1;
        }
        assert(zs@ =~= child_layers(*self, i as int));
        zs
    }

    /// Draws the subtree at `i` (see `drawn_rows`).
    fn draw_subtree(&self, i: usize, buffer: &mut ScreenBuffer, clip: &Rect, bg: Option<Color>, scroll: i16, thumbs: &Vec<(u16, u16)>)
        requires
            self.wf(),
            i < self.nodes@.len(),
            old(buffer).wf(),
            thumbs@.len() == self.nodes@.len(),
            draw_ok(*self, i as int, *clip, bg, scroll, old(buffer).spec_width(), thumbs@),
        ensures
            final(buffer).wf(),
            final(buffer).spec_width() == old(buffer).spec_width(),
            final(buffer).spec_height() == old(buffer).spec_height(),
            final(buffer).rows() == drawn_rows(*self, i as int, old(buffer).rows(), *clip, bg, scroll, thumbs@),
        decreases self.nodes@.len() - i, 1int,
    {
        let node = &self.nodes[i];
        match &node.node_type {
            RenderNodeType::Element => {
                let ghost start = *buffer;
                let pass = render_element(node, buffer, clip, bg, scroll);
                proof {
                    if overlap(node_rect(*node, scroll), *clip) {
                        let p = element_paint(*node, scroll, *clip, bg);
                        lemma_cells_to_rows(start, *buffer, |x: int, y: int, c: Cell| if inside(p.area, x, y) { painted_cell(p, x, y, c) } else { c });
                    }
                }
                match pass {
                    Some(p) => {
                        let zs = self.children_layers(i);
                        let order = draw_order(&zs);
                        let ghost r1 = buffer.rows();
                        let n = order.len();
                        let mut q: usize = 0;
                        while q < n
                            invariant
                                self.wf(),
                                i < self.nodes@.len(),
                                buffer.wf(),
                                buffer.spec_width() == old(buffer).spec_width(),
                                buffer.spec_height() == old(buffer).spec_height(),
                                thumbs@.len() == self.nodes@.len(),
                                n == order@.len(),
                                order@ == child_draw_order(*self, i as int),
                                zs@ == child_layers(*self, i as int),
                                is_draw_order(zs@, order@),
                                q <= n,
                                draw_children_ok(*self, i as int, order@, q as int, p.clip, p.background, p.scroll_offset, old(buffer).spec_width(), thumbs@),
                                drawn_children(*self, i as int, order@, 0, r1, p.clip, p.background, p.scroll_offset, thumbs@)
                                    == drawn_children(*self, i as int, order@, q as int, buffer.rows(), p.clip, p.background, p.scroll_offset, thumbs@),
                            decreases n - q,
                        {
                            let ci = order[q];
                            assert(ci < zs@.len());
                            let c = self.children[i][ci];
                            assert(c == kids(*self, i as int)[ci as int]);
                            self.draw_subtree(c, buffer, &p.clip, p.background, p.scroll_offset, thumbs);
                            q = q + 1;
                        }
                        if p.scrollbars {
                            let ghost s2 = *buffer;
                            let (offset, length) = thumbs[i];
                            render_scrollbar(node, buffer, clip, scroll, offset, length);
                            proof {
                                lemma_cells_to_rows(s2, *buffer, |x: int, y: int, c: Cell| if shows_scrollbar(*node) {
                                    match scrollbar_cell_at(scrollbar_place(*node, scroll, offset, length), common(node_rect(*node, scroll), *clip), x, y) {
                                        Some(d) => d,
                                        None => c,
                                    }
                                } else {
                                    c
                                });
                            }
                        }
                    },
                    None => {},
                }
            },
            RenderNodeType::Text(_) => render_text(node, buffer, clip, bg, scroll),
            RenderNodeType::TextWrapped(_) => render_wrapped_text(node, buffer, clip, bg, scroll),
            RenderNodeType::RichText(_) => render_rich_text(node, buffer, clip, bg, scroll),
            RenderNodeType::RichTextWrapped(_) => render_rich_wrapped_text(node, buffer, clip, bg, scroll),
        }
    }
}

/// Draws the subtree at `node` into the buffer within the clip, with the
/// inherited background `parent_bg` and no scroll (see `drawn_rows`);
/// `thumbs` holds, for each node, the offset and length of its scrollbar's
/// thumb.
pub fn render_node_to_buffer(tree: &RenderTree, node: usize, buffer: &mut ScreenBuffer, clip: &Rect, parent_bg: Option<Color>, thumbs: &Vec<(u16, u16)>)
    requires
        tree.wf(),
        node < tree.nodes@.len(),
        old(buffer).wf(),
        thumbs@.len() == tree.nodes@.len(),
        draw_ok(*tree, node as int, *clip, parent_bg, 0, old(buffer).spec_width(), thumbs@),
    ensures
        final(buffer).wf(),
        final(buffer).spec_width() == old(buffer).spec_width(),
        final(buffer).spec_height() == old(buffer).spec_height(),
        final(buffer).rows() == drawn_rows(*tree, node as int, old(buffer).rows(), *clip, parent_bg, 0, thumbs@),
{
    tree.draw_subtree(node, buffer, clip, parent_bg, 0, thumbs);
}

} // verus!
