//! Render nodes: their own geometry, style state and scrolling, how free
//! space is distributed between children, and how focus cycles.
use vstd::prelude::*;
use crate::style::{
    Border, BorderEdges, BorderStyle, Color, Dimension, JustifyContent, Overflow, Position, Spacing, Style,
    TextStyle, style_merge, unset_style,
};
use crate::div::DivStyles;

verus! {

/// A piece of text with one style.
#[derive(Debug, Clone, PartialEq)]
pub struct TextSpan {
    /// The text
    pub content: String,
    /// Its style
    pub style: Option<TextStyle>,
    /// Whether this span draws the cursor
    pub is_cursor: bool,
}

/// What a render node draws.
#[derive(Debug, Clone, PartialEq)]
pub enum RenderNodeType {
    /// A container that can have children and styling
    Element,
    /// One line of text
    Text(String),
    /// Text wrapped over several lines
    TextWrapped(Vec<String>),
    /// A line of styled spans
    RichText(Vec<TextSpan>),
    /// Styled spans wrapped over several lines
    RichTextWrapped(Vec<Vec<TextSpan>>),
}

/// A node of the render tree: what it draws, where and how large it is,
/// its styles and interaction state, and its scroll position.  The links
/// to parent and children and the event handlers are kept by the tree.
#[derive(Debug)]
pub struct RenderNode {
    /// What the node draws
    pub node_type: RenderNodeType,
    /// Column of the top-left corner
    pub x: u16,
    /// Row of the top-left corner
    pub y: u16,
    /// Width in cells
    pub width: u16,
    /// Height in cells
    pub height: u16,
    /// Style in effect
    pub style: Option<Style>,
    /// Text color
    pub text_color: Option<Color>,
    /// Text style
    pub text_style: Option<TextStyle>,
    /// Styles for the normal, focused and hovered states
    pub styles: DivStyles,
    /// Whether the node can take focus
    pub focusable: bool,
    /// Whether the node has focus
    pub focused: bool,
    /// Whether the pointer is over the node
    pub hovered: bool,
    /// Whether the node must be redrawn
    pub dirty: bool,
    /// Layering order
    pub z_index: i32,
    /// Positioning mode
    pub position_type: Position,
    /// Vertical scroll offset
    pub scroll_y: u16,
    /// Width of the content
    pub content_width: u16,
    /// Height of the content
    pub content_height: u16,
    /// Whether the node scrolls
    pub scrollable: bool,
}

/// The focus style every focusable node gets: a yellow single-line border
/// on all edges.
pub open spec fn default_focus_style() -> Style {
    Style {
        border: Some(Border { enabled: true, style: BorderStyle::Single, color: Color::Yellow, edges: BorderEdges { bits: 255 } }),
        ..unset_style()
    }
}

/// The style in effect for a state: the base style, under the focus style
/// when focused (the default focus style of focusable nodes, under the
/// node's own), under the hover style when hovered.
pub open spec fn state_style(styles: DivStyles, focusable: bool, focused: bool, hovered: bool) -> Option<Style> {
    let focus_overlay = if focused {
        style_merge(if focusable { Some(default_focus_style()) } else { None }, styles.focus)
    } else {
        None
    };
    let hover_overlay = if hovered { styles.hover } else { None };
    style_merge(style_merge(styles.base, focus_overlay), hover_overlay)
}

/// A node of the given type at the origin, of no size, with no style,
/// not focusable, relatively positioned, marked for drawing.
pub open spec fn fresh_node(node_type: RenderNodeType) -> RenderNode {
    RenderNode {
        node_type,
        x: 0,
        y: 0,
        width: 0,
        height: 0,
        style: None,
        text_color: None,
        text_style: None,
        styles: DivStyles { base: None, focus: None, hover: None },
        focusable: false,
        focused: false,
        hovered: false,
        dirty: true,
        z_index: 0,
        position_type: Position::Relative,
        scroll_y: 0,
        content_width: 0,
        content_height: 0,
        scrollable: false,
    }
}

/// The node after taking `style`: fixed sizes set its width and height,
/// and its position mode and layer come from the style (relative and 0
/// when unset).
pub open spec fn with_computed_style(n: RenderNode, style: Option<Style>) -> RenderNode {
    match style {
        Some(s) => RenderNode {
            width: match s.width {
                Some(Dimension::Fixed(w)) => w,
                _ => n.width,
            },
            height: match s.height {
                Some(Dimension::Fixed(h)) => h,
                _ => n.height,
            },
            position_type: match s.position {
                Some(p) => p,
                None => Position::Relative,
            },
            z_index: match s.z_index {
                Some(z) => z,
                None => 0,
            },
            style,
            ..n
        },
        None => RenderNode { position_type: Position::Relative, z_index: 0, style, ..n },
    }
}

/// How far a node can scroll down: the content height beyond its own
/// height.
pub open spec fn max_scroll(n: RenderNode) -> int {
    if n.content_height > n.height { n.content_height - n.height } else { 0 }
}

/// A `u16` read as the `i16` with the same bits.
pub open spec fn as_signed(v: u16) -> int {
    if v < 32768 { v as int } else { v - 65536 }
}

/// An `i16` read as the `u16` with the same bits.
pub open spec fn as_unsigned(v: int) -> int {
    if v < 0 { v + 65536 } else { v }
}

/// The scroll offset after scrolling by `delta`: the sum, no less than 0
/// and no more than the maximum offset, computed on the offsets' `i16`
/// readings.
pub open spec fn scrolled(n: RenderNode, delta: i16) -> int {
    let sum = as_signed(n.scroll_y) + delta;
    let low = if sum > 0 { sum } else { 0 };
    let m = as_signed(max_scroll(n) as u16);
    as_unsigned(if low < m { low } else { m })
}

impl RenderNode {
    /// A node of the given type (see `fresh_node`).
    pub fn new(node_type: RenderNodeType) -> (n: RenderNode)
        ensures
            n == fresh_node(node_type),
    {
        RenderNode {
            node_type,
            x: 0,
            y: 0,
            width: 0,
            height: 0,
            style: None,
            text_color: None,
            text_style: None,
            styles: DivStyles { base: None, focus: None, hover: None },
            focusable: false,
            focused: false,
            hovered: false,
            dirty: true,
            z_index: 0,
            position_type: Position::Relative,
            scroll_y: 0,
            content_width: 0,
            content_height: 0,
            scrollable: false,
        }
    }

    /// A container node.
    pub fn element() -> (n: RenderNode)
        ensures
            n == fresh_node(RenderNodeType::Element),
    {
        Self::new(RenderNodeType::Element)
    }

    /// A node with one line of text.
    pub fn text(content: String) -> (n: RenderNode)
        ensures
            n == fresh_node(RenderNodeType::Text(content)),
    {
        Self::new(RenderNodeType::Text(content))
    }

    /// A node with text wrapped over the given lines.
    pub fn text_wrapped(lines: Vec<String>) -> (n: RenderNode)
        ensures
            n == fresh_node(RenderNodeType::TextWrapped(lines)),
    {
        Self::new(RenderNodeType::TextWrapped(lines))
    }

    /// Moves the node.
    pub fn set_position(&mut self, x: u16, y: u16)
        ensures
            *final(self) == (RenderNode { x, y, ..*old(self) }),
    {
        self.x = x;
        self.y = y;
    }

    /// Resizes the node.
    pub fn set_size(&mut self, width: u16, height: u16)
        ensures
            *final(self) == (RenderNode { width, height, ..*old(self) }),
    {
        self.width = width;
        self.height = height;
    }

    /// Marks the node for drawing.
    pub fn mark_dirty(&mut self)
        ensures
            *final(self) == (RenderNode { dirty: true, ..*old(self) }),
    {
        self.dirty = true;
    }

    /// Marks the node as drawn.
    pub fn clear_dirty(&mut self)
        ensures
            *final(self) == (RenderNode { dirty: false, ..*old(self) }),
    {
        self.dirty = false;
    }

    /// The style in effect for a state (see `state_style`).
    pub fn compose_state_style(styles: &DivStyles, focusable: bool, focused: bool, hovered: bool) -> (r: Option<Style>)
        ensures
            r == state_style(*styles, focusable, focused, hovered),
    {
        let base = styles.base;
        let focus_overlay = if focused {
            let default_focus = if focusable { Some(Style::default_focus()) } else { None };
            Style::merge(default_focus, styles.focus)
        } else {
            None
        };
        let hover_overlay = if hovered { styles.hover } else { None };
        let with_focus = Style::merge(base, focus_overlay);
        Style::merge(with_focus, hover_overlay)
    }

    /// Takes `style` as the style in effect (see `with_computed_style`).
    pub fn apply_computed_style(&mut self, style: Option<Style>)
        ensures
            *final(self) == with_computed_style(*old(self), style),
    {
        match style {
            Some(s) => {
                match s.width {
                    Some(Dimension::Fixed(w)) => {
                        self.width = w;
                    },
                    _ => {},
                }
                match s.height {
                    Some(Dimension::Fixed(h)) => {
                        self.height = h;
                    },
                    _ => {},
                }
                self.position_type = match s.position {
                    Some(p) => p,
                    None => Position::Relative,
                };
                self.z_index = match s.z_index {
                    Some(z) => z,
                    None => 0,
                };
            },
            None => {
                self.position_type = Position::Relative;
                self.z_index = 0;
            },
        }
        self.style = style;
    }

    /// Recomputes the style for the node's focus and hover state, and
    /// marks the node for drawing when the style changed.
    pub fn refresh_state_style(&mut self)
        ensures
            ({
                let new_style = state_style(old(self).styles, old(self).focusable, old(self).focused, old(self).hovered);
                let applied = with_computed_style(*old(self), new_style);
                *final(self) == (if old(self).style != new_style { RenderNode { dirty: true, ..applied } } else { applied })
            }),
    {
        let new_style = Self::compose_state_style(&self.styles, self.focusable, self.focused, self.hovered);
        let needs_dirty = !same_style(&self.style, &new_style);
        self.apply_computed_style(new_style);
        if needs_dirty {
            self.mark_dirty();
        }
    }


    /// Takes the scrolling behaviour from the style's overflow: scroll and
    /// auto make the node scroll, and focusable unless it handles clicks;
    /// any other overflow stops it scrolling.  A node without a style is
    /// left as it is.
    pub fn apply_overflow(&mut self, has_click_handler: bool)
        ensures
            *final(self) == (match old(self).style {
                None => *old(self),
                Some(s) => if s.overflow == Some(Overflow::Scroll) || s.overflow == Some(Overflow::Auto) {
                    RenderNode { scrollable: true, focusable: old(self).focusable || !has_click_handler, ..*old(self) }
                } else {
                    RenderNode { scrollable: false, ..*old(self) }
                },
            }),
    {
        match self.style {
            Some(s) => match s.overflow {
                Some(Overflow::Scroll) | Some(Overflow::Auto) => {
                    self.scrollable = true;
                    if !self.focusable && !has_click_handler {
                        self.focusable = true;
                    }
                },
                _ => {
                    self.scrollable = false;
                },
            },
            None => {},
        }
    }

    /// Whether the node positions absolute children: it is absolutely or
    /// fixed positioned.
    pub fn is_positioned(&self) -> (b: bool)
        ensures
            b == (self.position_type is Absolute || self.position_type is Fixed),
    {
        match self.position_type {
            Position::Absolute | Position::Fixed => true,
            _ => false,
        }
    }

    /// How far the node can scroll down.
    pub fn get_max_scroll_y(&self) -> (m: u16)
        ensures
            m == max_scroll(*self),
    {
        if self.content_height > self.height { self.content_height - self.height } else { 0 }
    }

    /// Scrolls a scrollable node by `delta_y` rows, within its range;
    /// returns whether the offset changed.  Other nodes do not scroll.
    pub fn update_scroll(&mut self, delta_y: i16) -> (changed: bool)
        requires
            old(self).scrollable ==> i16::MIN <= as_signed(old(self).scroll_y) + delta_y <= i16::MAX,
        ensures
            !old(self).scrollable ==> *final(self) == *old(self) && !changed,
            old(self).scrollable ==> *final(self) == (RenderNode { scroll_y: scrolled(*old(self), delta_y) as u16, ..*old(self) })
                && changed == (scrolled(*old(self), delta_y) != old(self).scroll_y),
    {
        if !self.scrollable {
            return false;
        }
        let old_scroll_y = self.scroll_y;
        let max_scroll_y = self.get_max_scroll_y();
        let sum = signed_of(self.scroll_y) + delta_y;
        let low = if sum > 0 { sum } else { 0 };
        let m = signed_of(max_scroll_y);
        let clamped = if low < m { low } else { m };
        self.scroll_y = unsigned_of(clamped);
        self.scroll_y != old_scroll_y
    }

    /// Sets the scroll offset of a scrollable node, at most its maximum.
    pub fn set_scroll_y(&mut self, y: u16)
        ensures
            !old(self).scrollable ==> *final(self) == *old(self),
            old(self).scrollable ==> *final(self) == (RenderNode {
                scroll_y: if y < max_scroll(*old(self)) { y } else { max_scroll(*old(self)) as u16 },
                ..*old(self)
            }),
    {
        if !self.scrollable {
            return;
        }
        let max_scroll_y = self.get_max_scroll_y();
        self.scroll_y = if y < max_scroll_y { y } else { max_scroll_y };
    }
}

/// Whether two optional styles are equal.
fn same_style(a: &Option<Style>, b: &Option<Style>) -> (r: bool)
    ensures
        r == (*a == *b),
{
    match (a, b) {
        (Some(x), Some(y)) => *x == *y,
        (None, None) => true,
        _ => false,
    }
}

/// The `i16` with the same bits as `v`.
fn signed_of(v: u16) -> (r: i16)
    ensures
        r == as_signed(v),
{
    if v < 32768 {
        v as i16
    } else {
        ((v - 32768) as i16) - 32767 - 1
    }
}

/// The `u16` with the same bits as `v`.
fn unsigned_of(v: i16) -> (r: u16)
    ensures
        r == as_unsigned(v as int),
{
    if v >= 0 {
        v as u16
    } else {
        ((v + 32767 + 1) as u16) + 32768
    }
}


/// `v` moved by the signed offset `d`, held within `0..=u16::MAX`.
pub open spec fn shift_clamped(v: int, d: int) -> int {
    if v + d < 0 { 0 } else if v + d > 65535 { 65535 } else { v + d }
}

/// `v` moved by `d`, held within `0..=u16::MAX` (as `u16::saturating_add_signed`).
fn saturating_add_signed(v: u16, d: i16) -> (r: u16)
    ensures
        r == shift_clamped(v as int, d as int),
{
    if d >= 0 {
        let up = d as u16;
        if v > 65535 - up { 65535 } else { v + up }
    } else {
        let down: u16 = if d == -32768 { 32768 } else { (-d) as u16 };
        if v < down { 0 } else { v - down }
    }
}

/// Where an absolutely positioned child goes in a container: `left` (or
/// else `right`) fixes the column from that edge, `top` (or else `bottom`)
/// the row; each held within `u16`.  A child without a style keeps its
/// place.
pub open spec fn absolute_position(
    child: RenderNode,
    container_x: u16,
    container_y: u16,
    container_width: u16,
    container_height: u16,
) -> (u16, u16) {
    match child.style {
        None => (child.x, child.y),
        Some(style) => {
            let x: int = match style.left {
                Some(l) => shift_clamped(container_x as int, l as int),
                None => match style.right {
                    Some(r) => {
                        let edge: int = container_x + container_width;
                        let base: int = if edge > child.width { edge - child.width } else { 0 };
                        shift_clamped(base, -(r as int))
                    },
                    None => container_x as int,
                },
            };
            let y: int = match style.top {
                Some(t) => shift_clamped(container_y as int, t as int),
                None => match style.bottom {
                    Some(b) => {
                        let edge: int = container_y + container_height;
                        let base: int = if edge > child.height { edge - child.height } else { 0 };
                        shift_clamped(base, -(b as int))
                    },
                    None => container_y as int,
                },
            };
            (x as u16, y as u16)
        },
    }
}

/// Law: an absolutely positioned child's column is set by its own edges:
/// `left` puts it that many columns right of the container's left edge;
/// else `right` puts its right edge that many columns left of the
/// container's right edge; else it sits at the container's left edge.
/// Its row is set likewise by `top`, else `bottom`, else the top edge.  Each
/// holds where the place found lies within `u16`.
pub proof fn lemma_absolute_edges(child: RenderNode, cx: u16, cy: u16, cw: u16, ch: u16)
    requires
        child.style is Some,
    ensures
        ({
            let s = child.style.unwrap();
            let (x, y) = absolute_position(child, cx, cy, cw, ch);
            &&& s.left is Some && 0 <= cx + s.left.unwrap() && cx + s.left.unwrap() <= 65535 ==> x == cx + s.left.unwrap()
            &&& s.left is None && s.right is Some && cx + cw >= child.width
                && 0 <= cx + cw - child.width - s.right.unwrap() && cx + cw - child.width - s.right.unwrap() <= 65535
                ==> x + child.width + s.right.unwrap() == cx + cw
            &&& s.left is None && s.right is None ==> x == cx
            &&& s.top is Some && 0 <= cy + s.top.unwrap() && cy + s.top.unwrap() <= 65535 ==> y == cy + s.top.unwrap()
            &&& s.top is None && s.bottom is Some && cy + ch >= child.height
                && 0 <= cy + ch - child.height - s.bottom.unwrap() && cy + ch - child.height - s.bottom.unwrap() <= 65535
                ==> y + child.height + s.bottom.unwrap() == cy + ch
            &&& s.top is None && s.bottom is None ==> y == cy
        }),
{
}

/// Law: the row of an absolutely positioned child does not depend on its
/// horizontal offsets or width, and its column does not depend on its
/// vertical offsets or height.
pub proof fn lemma_absolute_axes_independent(a: RenderNode, b: RenderNode, cx: u16, cy: u16, cw: u16, ch: u16)
    requires
        a.style is Some,
        b.style is Some,
    ensures
        a.style.unwrap().top == b.style.unwrap().top && a.style.unwrap().bottom == b.style.unwrap().bottom
            && a.height == b.height
            ==> absolute_position(a, cx, cy, cw, ch).1 == absolute_position(b, cx, cy, cw, ch).1,
        a.style.unwrap().left == b.style.unwrap().left && a.style.unwrap().right == b.style.unwrap().right
            && a.width == b.width
            ==> absolute_position(a, cx, cy, cw, ch).0 == absolute_position(b, cx, cy, cw, ch).0,
{
}

/// used fit, and an offset from the far edge can be negated.
pub open spec fn absolute_position_ok(
    child: RenderNode,
    container_x: u16,
    container_y: u16,
    container_width: u16,
    container_height: u16,
) -> bool {
    match child.style {
        None => true,
        Some(style) => {
            &&& (style.left is None && style.right is Some) ==> (container_x + container_width <= 65535
                && style.right.unwrap() != i16::MIN)
            &&& (style.top is None && style.bottom is Some) ==> (container_y + container_height <= 65535
                && style.bottom.unwrap() != i16::MIN)
        },
    }
}

/// A child's extent as its container sees it.
#[derive(Debug, Clone, Copy, PartialEq, Eq, Structural)]
pub struct ChildExtent {
    /// Column of its top-left corner
    pub x: u16,
    /// Row of its top-left corner
    pub y: u16,
    /// Width
    pub width: u16,
    /// Height
    pub height: u16,
    /// Its positioning mode
    pub position_type: Position,
}

/// How far the flow children reach right of and below `(x, y)`: the
/// largest right and bottom edges, for children starting at or after the
/// node's corner and ending after it; absolute and fixed children do not
/// count.  `None` when an edge passes `u16::MAX`.
pub open spec fn children_reach(children: Seq<ChildExtent>, k: int, x: u16, y: u16) -> Option<(int, int)>
    decreases k,
{
    if k <= 0 {
        Some((0, 0))
    } else {
        match children_reach(children, k - 1, x, y) {
            None => None,
            Some((mx, my)) => {
                let c = children[k - 1];
                if c.position_type is Absolute || c.position_type is Fixed {
                    Some((mx, my))
                } else if c.x + c.width > 65535 || c.y + c.height > 65535 {
                    None
                } else {
                    let right: int = c.x + c.width;
                    let bottom: int = c.y + c.height;
                    let mx2: int = if c.x >= x && right > x && right - x > mx { right - x } else { mx };
                    let my2: int = if c.y >= y && bottom > y && bottom - y > my { bottom - y } else { my };
                    Some((mx2, my2))
                }
            },
        }
    }
}

/// The padding and border around a node's content, from its style.
pub open spec fn padding_of(style: Option<Style>) -> Spacing {
    match style {
        Some(s) => match s.padding {
            Some(p) => p,
            None => Spacing { top: 0, right: 0, bottom: 0, left: 0 },
        },
        None => Spacing { top: 0, right: 0, bottom: 0, left: 0 },
    }
}

/// 1 when the node's style has an enabled border, else 0.
pub open spec fn border_offset_of(style: Option<Style>) -> int {
    match style {
        Some(s) => match s.border {
            Some(b) => if b.enabled { 1 } else { 0 },
            None => 0,
        },
        None => 0,
    }
}

/// The size of a node's content: its own size, or as far as its flow
/// children reach when further, plus the padding and border on that side.
pub open spec fn content_dimensions(n: RenderNode, children: Seq<ChildExtent>) -> Option<(u16, u16)> {
    if children.len() == 0 {
        Some((n.width, n.height))
    } else {
        match children_reach(children, children.len() as int, n.x, n.y) {
            None => None,
            Some((mx, my)) => {
                let p = padding_of(n.style);
                let b = border_offset_of(n.style);
                let mx2: int = if mx > n.width { mx + p.right + b } else { mx };
                let my2: int = if my > n.height { my + p.bottom + b } else { my };
                if mx2 > 65535 || my2 > 65535 {
                    None
                } else {
                    Some((
                        (if n.width >= mx2 { n.width as int } else { mx2 }) as u16,
                        (if n.height >= my2 { n.height as int } else { my2 }) as u16,
                    ))
                }
            },
        }
    }
}

impl RenderNode {
    /// Places an absolutely positioned child (see `absolute_position`).
    pub fn position_absolute_child(
        &self,
        child: &mut RenderNode,
        container_x: u16,
        container_y: u16,
        container_width: u16,
        container_height: u16,
    )
        requires
            absolute_position_ok(*old(child), container_x, container_y, container_width, container_height),
        ensures
            ({
                let (x, y) = absolute_position(*old(child), container_x, container_y, container_width, container_height);
                *final(child) == (RenderNode { x, y, ..*old(child) })
            }),
    {
        match child.style {
            Some(style) => {
                let mut x = container_x;
                let mut y = container_y;
                match style.left {
                    Some(left) => {
                        x = saturating_add_signed(container_x, left);
                    },
                    None => match style.right {
                        Some(right) => {
                            let edge = container_x + container_width;
                            let base = if edge > child.width { edge - child.width } else { 0 };
                            x = saturating_add_signed(base, -right);
                        },
                        None => {},
                    },
                }
                match style.top {
                    Some(top) => {
                        y = saturating_add_signed(container_y, top);
                    },
                    None => match style.bottom {
                        Some(bottom) => {
                            let edge = container_y + container_height;
                            let base = if edge > child.height { edge - child.height } else { 0 };
                            y = saturating_add_signed(base, -bottom);
                        },
                        None => {},
                    },
                }
                child.set_position(x, y);
            },
            None => {},
        }
    }

    /// Sets the content size from the node and its children's extents (see
    /// `content_dimensions`).
    pub fn calculate_content_dimensions(&mut self, children: &Vec<ChildExtent>)
        requires
            content_dimensions(*old(self), children@) is Some,
        ensures
            ({
                let (w, h) = content_dimensions(*old(self), children@).unwrap();
                *final(self) == (RenderNode { content_width: w, content_height: h, ..*old(self) })
            }),
    {
        let n = children.len();
        if n == 0 {
            self.content_width = self.width;
            self.content_height = self.height;
            return;
        }
        let padding = match self.style {
            Some(s) => match s.padding {
                Some(p) => p,
                None => Spacing::all(0),
            },
            None => Spacing::all(0),
        };
        let border_offset: u16 = match self.style {
            Some(s) => match s.border {
                Some(b) => if b.enabled { 1 } else { 0 },
                None => 0,
            },
            None => 0,
        };
        let mut max_x: u16 = 0;
        let mut max_y: u16 = 0;
        let mut i: usize = 0;
        while i < n
            invariant
                n == children@.len(),
                i <= n,
                children_reach(children@, n as int, self.x, self.y) is Some,
                children_reach(children@, i as int, self.x, self.y) == Some((max_x as int, max_y as int)),
            decreases n - i,
        {
            proof {
                lemma_reach_some(children@, i + 1, n as int, self.x, self.y);
            }
            let c = children[i];
            match c.position_type {
                Position::Absolute | Position::Fixed => {},
                Position::Relative => {
                    let child_right = c.x + c.width;
                    let child_bottom = c.y + c.height;
                    if c.x >= self.x && child_right > self.x {
                        let reach = child_right - self.x;
                        if reach > max_x {
                            max_x = reach;
                        }
                    }
                    if c.y >= self.y && child_bottom > self.y {
                        let reach = child_bottom - self.y;
                        if reach > max_y {
                            max_y = reach;
                        }
                    }
                },
            }
            i = i + 1;
        }
        if max_x > self.width {
            max_x = max_x + padding.right + border_offset;
        }
        if max_y > self.height {
            max_y = max_y + padding.bottom + border_offset;
        }
        self.content_width = if self.width >= max_x { self.width } else { max_x };
        self.content_height = if self.height >= max_y { self.height } else { max_y };
    }
}

proof fn lemma_reach_some(children: Seq<ChildExtent>, j: int, k: int, x: u16, y: u16)
    requires
        0 <= j <= k,
        children_reach(children, k, x, y) is Some,
    ensures
        children_reach(children, j, x, y) is Some,
    decreases k - j,
{
    if j < k {
        lemma_reach_some(children, j, k - 1, x, y);
    }
}

/// The content of a node is never smaller than the node: scrolling can
/// only reveal more, never less.
pub proof fn lemma_content_covers_node(n: RenderNode, children: Seq<ChildExtent>)
    requires
        content_dimensions(n, children) is Some,
    ensures
        content_dimensions(n, children).unwrap().0 >= n.width,
        content_dimensions(n, children).unwrap().1 >= n.height,
{
}

/// Scrolling keeps the offset of a node whose offset and maximum fit in
/// `i16` within `[0, maximum]`.
pub proof fn lemma_scroll_stays_in_range(n: RenderNode, delta: i16)
    requires
        n.scroll_y < 32768,
        max_scroll(n) < 32768,
        i16::MIN <= n.scroll_y + delta <= i16::MAX,
    ensures
        0 <= scrolled(n, delta) <= max_scroll(n),
{
}

/// Law: scrolling moves the offset by exactly `delta` when that stays in
/// the node's range; past the top it stops at 0, past the bottom at the
/// maximum offset (for offsets whose `i16` readings are their values).
pub proof fn lemma_scroll_moves_by_delta(n: RenderNode, delta: i16)
    requires
        n.scroll_y < 32768,
        max_scroll(n) < 32768,
    ensures
        0 <= n.scroll_y + delta <= max_scroll(n) ==> scrolled(n, delta) == n.scroll_y + delta,
        n.scroll_y + delta < 0 ==> scrolled(n, delta) == 0,
        n.scroll_y + delta > max_scroll(n) ==> scrolled(n, delta) == max_scroll(n),
{
}

/// Law: scrolling further down never leaves the offset higher up:
/// `scrolled` grows with `delta`.
pub proof fn lemma_scroll_monotone(n: RenderNode, d1: i16, d2: i16)
    requires
        n.scroll_y < 32768,
        max_scroll(n) < 32768,
        d1 <= d2,
    ensures
        scrolled(n, d1) <= scrolled(n, d2),
{
}

/// Whether `calculate_justify_offsets` can divide by the item count it
/// reads as `u16` for a mode: a nonzero divisor, and no overflow.
pub open spec fn justify_ok(justify: JustifyContent, item_count: usize) -> bool {
    match justify {
        JustifyContent::SpaceBetween => item_count > 1 ==> item_count % 65536 >= 2,
        JustifyContent::SpaceAround => item_count > 0 ==> item_count % 65536 != 0,
        JustifyContent::SpaceEvenly => item_count > 0 ==> item_count % 65536 != 65535,
        _ => true,
    }
}

/// The leading offset and the spacing between items for a mode: start,
/// end and center leave `gap` between items; space-between spreads the
/// free space between items; space-around puts half a share before the
/// first; space-evenly puts a share before each item too.  The item count
/// is read as `u16`.
pub open spec fn justify_offsets(justify: JustifyContent, available: u16, item_count: usize, gap: u16) -> (u16, u16) {
    let c: int = (item_count % 65536) as int;
    let a: int = available as int;
    match justify {
        JustifyContent::Start => (0, gap),
        JustifyContent::End => (available, gap),
        JustifyContent::Center => ((a / 2) as u16, gap),
        JustifyContent::SpaceBetween => if item_count > 1 { (0, (a / (c - 1)) as u16) } else { (0, gap) },
        JustifyContent::SpaceAround => if item_count > 0 {
            let s = a / c;
            ((s / 2) as u16, s as u16)
        } else {
            (0, gap)
        },
        JustifyContent::SpaceEvenly => if item_count > 0 {
            let s = a / (c + 1);
            (s as u16, s as u16)
        } else {
            (0, gap)
        },
    }
}

/// The item count read as `u16`.
fn count_as_u16(n: usize) -> (r: u16)
    ensures
        r == n % 65536,
{
    (n % 65536) as u16
}

/// The leading offset and the spacing between items for a distribution
/// mode (see `justify_offsets`).
pub fn calculate_justify_offsets(justify: JustifyContent, available_space: u16, item_count: usize, gap: u16) -> (r: (u16, u16))
    requires
        justify_ok(justify, item_count),
    ensures
        r == justify_offsets(justify, available_space, item_count, gap),
{
    match justify {
        JustifyContent::Start => (0, gap),
        JustifyContent::End => (available_space, gap),
        JustifyContent::Center => (available_space / 2, gap),
        JustifyContent::SpaceBetween => {
            if item_count > 1 {
                let spacing = available_space / (count_as_u16(item_count) - 1);
                (0, spacing)
            } else {
                (0, gap)
            }
        },
        JustifyContent::SpaceAround => {
            if item_count > 0 {
                let spacing = available_space / count_as_u16(item_count);
                (spacing / 2, spacing)
            } else {
                (0, gap)
            }
        },
        JustifyContent::SpaceEvenly => {
            if item_count > 0 {
                let spacing = available_space / (count_as_u16(item_count) + 1);
                (spacing, spacing)
            } else {
                (0, gap)
            }
        },
    }
}

/// The distributing modes never hand out more than the free space: the
/// leading offset plus the spacing between each pair of neighbours is at
/// most `available` (for fewer than 65536 items).
pub proof fn lemma_justify_fits(justify: JustifyContent, available: u16, item_count: usize, gap: u16)
    requires
        2 <= item_count < 65536 || (item_count == 1 && !(justify is SpaceBetween)),
        justify is SpaceBetween || justify is SpaceAround || justify is SpaceEvenly,
    ensures
        justify_offsets(justify, available, item_count, gap).0 + justify_offsets(justify, available, item_count, gap).1
            * (item_count - 1) <= available,
{
    let a = available as int;
    let c = item_count as int;
    assert(item_count % 65536 == item_count);
    match justify {
        JustifyContent::SpaceBetween => {
            assert((a / (c - 1)) * (c - 1) <= a) by (nonlinear_arith)
                requires
                    c >= 2,
                    a >= 0,
            ;
        },
        JustifyContent::SpaceAround => {
            let s = a / c;
            assert(s * c <= a && s >= 0) by (nonlinear_arith)
                requires
                    c >= 1,
                    a >= 0,
                    s == a / c,
            ;
            assert(s / 2 + s * (c - 1) <= s * c) by (nonlinear_arith)
                requires
                    s >= 0,
                    c >= 1,
            ;
        },
        JustifyContent::SpaceEvenly => {
            let s = a / (c + 1);
            assert(s * (c + 1) <= a && s >= 0) by (nonlinear_arith)
                requires
                    c >= 1,
                    a >= 0,
                    s == a / (c + 1),
            ;
            assert(s + s * (c - 1) <= s * (c + 1)) by (nonlinear_arith)
                requires
                    s >= 0,
                    c >= 1,
            ;
        },
        _ => {},
    }
}

/// The index focus moves to on "next" among `count` focusable nodes: the
/// one after the focused one, wrapping around, or the first when none is
/// focused; `None` when there are none.
pub fn next_focus_index(current: Option<usize>, count: usize) -> (r: Option<usize>)
    requires
        current matches Some(i) ==> i < count,
    ensures
        count == 0 ==> r is None,
        count > 0 ==> r == Some(match current {
            Some(i) => ((i + 1) % (count as int)) as usize,
            None => 0usize,
        }),
{
    if count == 0 {
        return None;
    }
    match current {
        Some(i) => Some((i + 1) % count),
        None => Some(0),
    }
}

/// The index focus moves to on "previous" among `count` focusable nodes:
/// the one before the focused one, wrapping around, or the last when none
/// is focused; `None` when there are none.
pub fn prev_focus_index(current: Option<usize>, count: usize) -> (r: Option<usize>)
    requires
        current matches Some(i) ==> i < count,
    ensures
        count == 0 ==> r is None,
        count > 0 ==> r == Some(match current {
            Some(i) => if i == 0 { (count - 1) as usize } else { (i - 1) as usize },
            None => (count - 1) as usize,
        }),
{
    if count == 0 {
        return None;
    }
    match current {
        Some(i) => Some(if i == 0 { count - 1 } else { i - 1 }),
        None => Some(count - 1),
    }
}

/// Moving focus to the next node and then to the previous one comes back
/// to where it was, and the other way round.
pub proof fn lemma_focus_next_prev_inverse(i: usize, count: usize)
    requires
        i < count,
    ensures
        ({
            let n = ((i + 1) % (count as int)) as usize;
            (if n == 0 { count - 1 } else { n - 1 }) == i
        }),
        ({
            let p: int = if i == 0 { count - 1 } else { i - 1 };
            (p + 1) % (count as int) == i
        }),
{
    vstd::arithmetic::div_mod::lemma_mod_self_0(count as int);
    if i + 1 < count {
        vstd::arithmetic::div_mod::lemma_small_mod((i + 1) as nat, count as nat);
    }
    if i > 0 {
        vstd::arithmetic::div_mod::lemma_small_mod(i as nat, count as nat);
    }
}

/// The smaller of two `u16`s.
pub open spec fn min16(a: u16, b: u16) -> u16 {
    if a <= b { a } else { b }
}

/// The larger of two `u16`s.
pub open spec fn max16(a: u16, b: u16) -> u16 {
    if a >= b { a } else { b }
}

/// Whether a node's text style sets an alignment.
pub open spec fn has_text_align(n: RenderNode) -> bool {
    match n.text_style {
        Some(t) => t.align is Some,
        None => false,
    }
}

/// A node's width in a parent of width `parent_width`: a percentage takes
/// `scaled` (that percentage of the parent, computed by the caller) but at
/// least 1; a fixed width is taken as it is; content takes the intrinsic
/// width within the parent; auto keeps the width the parent gave; with no
/// width set, the intrinsic width within the parent, unless the node's
/// text is aligned and the parent already gave it at least its intrinsic
/// width.
pub open spec fn resolved_width(n: RenderNode, parent_width: u16, intrinsic: u16, scaled: u16) -> u16 {
    let content = min16(intrinsic, parent_width);
    let unset = if has_text_align(n) && n.width >= intrinsic { n.width } else { content };
    match n.style {
        Some(s) => match s.width {
            Some(Dimension::Percentage(_)) => max16(scaled, 1),
            Some(Dimension::Fixed(w)) => w,
            Some(Dimension::Content) => content,
            Some(Dimension::Auto) => n.width,
            None => unset,
        },
        None => unset,
    }
}

/// A node's height in a parent of height `parent_height`, as for the width
/// but with no exception for aligned text.
pub open spec fn resolved_height(n: RenderNode, parent_height: u16, intrinsic: u16, scaled: u16) -> u16 {
    let content = min16(intrinsic, parent_height);
    match n.style {
        Some(s) => match s.height {
            Some(Dimension::Percentage(_)) => max16(scaled, 1),
            Some(Dimension::Fixed(h)) => h,
            Some(Dimension::Content) => content,
            Some(Dimension::Auto) => n.height,
            None => content,
        },
        None => content,
    }
}

/// The root's width in the viewport: every choice held within the
/// viewport, auto filling it.
pub open spec fn root_width(n: RenderNode, viewport_width: u16, intrinsic: u16, scaled: u16) -> u16 {
    match n.style {
        Some(s) => match s.width {
            Some(Dimension::Fixed(w)) => min16(w, viewport_width),
            Some(Dimension::Percentage(_)) => min16(max16(scaled, 1), viewport_width),
            Some(Dimension::Auto) => viewport_width,
            _ => min16(intrinsic, viewport_width),
        },
        None => min16(intrinsic, viewport_width),
    }
}

/// The root's height in the viewport: as for the width, except that with
/// `unclamped` (inline rendering) it is not held within the viewport.
pub open spec fn root_height(n: RenderNode, viewport_height: u16, unclamped: bool, intrinsic: u16, scaled: u16) -> u16 {
    let hold = |h: u16| if unclamped { h } else { min16(h, viewport_height) };
    match n.style {
        Some(s) => match s.height {
            Some(Dimension::Fixed(h)) => hold(h),
            Some(Dimension::Percentage(_)) => hold(max16(scaled, 1)),
            Some(Dimension::Auto) => viewport_height,
            _ => hold(intrinsic),
        },
        None => hold(intrinsic),
    }
}

/// The width a text node is wrapped at in a parent of width
/// `parent_width`: its fixed width, else its width within the parent;
/// `None` for other nodes.
pub open spec fn text_wrap_width(n: RenderNode, parent_width: u16) -> Option<u16> {
    match n.node_type {
        RenderNodeType::Text(_) | RenderNodeType::RichText(_) => Some(match n.style {
            Some(s) => match s.width {
                Some(Dimension::Fixed(w)) => w,
                _ => min16(n.width, parent_width),
            },
            None => min16(n.width, parent_width),
        }),
        _ => None,
    }
}

impl RenderNode {
    /// Takes its width and height in a parent of the given size (see
    /// `resolved_width` and `resolved_height`), from its intrinsic size and
    /// its percentages of the parent (`scaled`, computed by the caller).
    pub fn resolve_dimensions(&mut self, parent_width: u16, parent_height: u16, intrinsic: (u16, u16), scaled: (u16, u16))
        ensures
            *final(self) == (RenderNode {
                width: resolved_width(*old(self), parent_width, intrinsic.0, scaled.0),
                height: resolved_height(*old(self), parent_height, intrinsic.1, scaled.1),
                ..*old(self)
            }),
    {
        let (iw, ih) = intrinsic;
        let content_w = if iw <= parent_width { iw } else { parent_width };
        let content_h = if ih <= parent_height { ih } else { parent_height };
        let aligned = match &self.text_style {
            Some(t) => t.align.is_some(),
            None => false,
        };
        let unset_w = if aligned && self.width >= iw { self.width } else { content_w };
        let (w, h): (u16, u16) = match &self.style {
            Some(s) => (
                match s.width {
                    Some(Dimension::Percentage(_)) => if scaled.0 >= 1 { scaled.0 } else { 1 },
                    Some(Dimension::Fixed(w)) => w,
                    Some(Dimension::Content) => content_w,
                    Some(Dimension::Auto) => self.width,
                    None => unset_w,
                },
                match s.height {
                    Some(Dimension::Percentage(_)) => if scaled.1 >= 1 { scaled.1 } else { 1 },
                    Some(Dimension::Fixed(h)) => h,
                    Some(Dimension::Content) => content_h,
                    Some(Dimension::Auto) => self.height,
                    None => content_h,
                },
            ),
            None => (unset_w, content_h),
        };
        self.width = w;
        self.height = h;
    }

    /// Places the root at the origin with its size in the viewport (see
    /// `root_width` and `root_height`).
    pub fn resolve_root_dimensions(&mut self, viewport_width: u16, viewport_height: u16, unclamped: bool, intrinsic: (u16, u16), scaled: (u16, u16))
        ensures
            *final(self) == (RenderNode {
                x: 0,
                y: 0,
                width: root_width(*old(self), viewport_width, intrinsic.0, scaled.0),
                height: root_height(*old(self), viewport_height, unclamped, intrinsic.1, scaled.1),
                ..*old(self)
            }),
    {
        self.set_position(0, 0);
        let (iw, ih) = intrinsic;
        let at_least_one_w = if scaled.0 >= 1 { scaled.0 } else { 1 };
        let at_least_one_h = if scaled.1 >= 1 { scaled.1 } else { 1 };
        let (w, h): (u16, u16) = match &self.style {
            Some(s) => (
                match s.width {
                    Some(Dimension::Fixed(w)) => if w <= viewport_width { w } else { viewport_width },
                    Some(Dimension::Percentage(_)) => if at_least_one_w <= viewport_width { at_least_one_w } else { viewport_width },
                    Some(Dimension::Auto) => viewport_width,
                    _ => if iw <= viewport_width { iw } else { viewport_width },
                },
                match s.height {
                    Some(Dimension::Fixed(h)) => hold_height(h, viewport_height, unclamped),
                    Some(Dimension::Percentage(_)) => hold_height(at_least_one_h, viewport_height, unclamped),
                    Some(Dimension::Auto) => viewport_height,
                    _ => hold_height(ih, viewport_height, unclamped),
                },
            ),
            None => (if iw <= viewport_width { iw } else { viewport_width }, hold_height(ih, viewport_height, unclamped)),
        };
        self.width = w;
        self.height = h;
    }

    /// The width the node's text is wrapped at (see `text_wrap_width`).
    pub fn wrap_width_in(&self, parent_width: u16) -> (r: Option<u16>)
        ensures
            r == text_wrap_width(*self, parent_width),
    {
        let within = if self.width <= parent_width { self.width } else { parent_width };
        match &self.node_type {
            RenderNodeType::Text(_) | RenderNodeType::RichText(_) => Some(match &self.style {
                Some(s) => match s.width {
                    Some(Dimension::Fixed(w)) => w,
                    _ => within,
                },
                None => within,
            }),
            _ => None,
        }
    }
}

/// `h`, held within the viewport unless `unclamped`.
fn hold_height(h: u16, viewport_height: u16, unclamped: bool) -> (r: u16)
    ensures
        r == (if unclamped { h } else { min16(h, viewport_height) }),
{
    if unclamped || h <= viewport_height { h } else { viewport_height }
}

} // verus!
