//! Containers: the styles a div has in its normal, focused and hovered states.
use vstd::prelude::*;
use crate::style::{
    AlignItems, AlignSelf, Border, BorderEdges, BorderStyle, Color, Dimension, Direction, JustifyContent, Overflow,
    Position, Spacing, Style, WrapMode, unset_style,
};

verus! {

/// Style configuration for a div in different states.
#[derive(Clone, Copy, Debug, PartialEq, Eq, Structural)]
pub struct DivStyles {
    /// Style in the normal state
    pub base: Option<Style>,
    /// Style applied when focused
    pub focus: Option<Style>,
    /// Style applied when hovered
    pub hover: Option<Style>,
}

impl Default for DivStyles {
    fn default() -> (s: Self)
        ensures
            s == (DivStyles { base: None, focus: None, hover: None }),
    {
        DivStyles { base: None, focus: None, hover: None }
    }
}

/// A container: its children, its styles in each state, and whether it
/// can take focus and currently has focus or the pointer.  Its event
/// handlers are kept by whoever runs it.
pub struct Div<T> {
    /// Child nodes
    pub children: Vec<T>,
    /// Styles for the normal, focused and hovered states
    pub styles: DivStyles,
    /// Whether the div can take focus
    pub focusable: bool,
    /// Whether the div has focus
    pub focused: bool,
    /// Whether the pointer is over the div
    pub hovered: bool,
}

/// The base style of a div, or an empty one.
pub open spec fn div_base<T>(d: Div<T>) -> Style {
    match d.styles.base {
        Some(s) => s,
        None => unset_style(),
    }
}

/// The focus style of a div, or an empty one.
pub open spec fn div_focus<T>(d: Div<T>) -> Style {
    match d.styles.focus {
        Some(s) => s,
        None => unset_style(),
    }
}

/// The div with `s` as its base style.
pub open spec fn with_div_base<T>(d: Div<T>, s: Style) -> Div<T> {
    Div { styles: DivStyles { base: Some(s), ..d.styles }, ..d }
}

/// The style a div shows: its focus style while focused (when it has one),
/// else its hover style while hovered (when it has one), else its base
/// style.
pub open spec fn shown_style(styles: DivStyles, focused: bool, hovered: bool) -> Option<Style> {
    if focused && styles.focus is Some {
        styles.focus
    } else if hovered && styles.hover is Some {
        styles.hover
    } else {
        styles.base
    }
}

impl<T> Div<T> {
    /// An empty div: no children, no styles, not focusable.
    pub fn new() -> (d: Self)
        ensures
            d.children@.len() == 0,
            d.styles == (DivStyles { base: None, focus: None, hover: None }),
            !d.focusable,
            !d.focused,
            !d.hovered,
    {
        Div {
            children: Vec::new(),
            styles: DivStyles { base: None, focus: None, hover: None },
            focusable: false,
            focused: false,
            hovered: false,
        }
    }

    /// Replaces the children.
    pub fn children(self, children: Vec<T>) -> (d: Self)
        ensures
            d == (Div { children, ..self }),
    {
        let mut d = self;
        d.children = children;
        d
    }

    /// Adds a child after the others.
    pub fn child(self, child: T) -> (d: Self)
        ensures
            d.children@ == self.children@.push(child),
            d.styles == self.styles,
            d.focusable == self.focusable,
            d.focused == self.focused,
            d.hovered == self.hovered,
    {
        let mut d = self;
        d.children.push(child);
        d
    }

    /// Sets whether the div can take focus.
    pub fn focusable(self, focusable: bool) -> (d: Self)
        ensures
            d == (Div { focusable, ..self }),
    {
        let mut d = self;
        d.focusable = focusable;
        d
    }

    fn base_or_unset(&self) -> (s: Style)
        ensures
            s == div_base(*self),
    {
        match self.styles.base {
            Some(s) => s,
            None => Style::default(),
        }
    }

    fn set_base(self, style: Style) -> (d: Self)
        ensures
            d == with_div_base(self, style),
    {
        let mut d = self;
        d.styles.base = Some(style);
        d
    }

    fn set_focus(self, style: Style) -> (d: Self)
        ensures
            d == (Div { styles: DivStyles { focus: Some(style), ..self.styles }, ..self }),
    {
        let mut d = self;
        d.styles.focus = Some(style);
        d
    }

    /// Sets the layout direction.
    pub fn direction(self, direction: Direction) -> (d: Self)
        ensures
            d == with_div_base(self, Style { direction: Some(direction), ..div_base(self) }),
    {
        let mut style = self.base_or_unset();
        style.direction = Some(direction);
        self.set_base(style)
    }

    /// Sets the positioning mode.
    pub fn position(self, position: Position) -> (d: Self)
        ensures
            d == with_div_base(self, Style { position: Some(position), ..div_base(self) }),
    {
        let mut style = self.base_or_unset();
        style.position = Some(position);
        self.set_base(style)
    }

    /// Sets the overflow behavior.
    pub fn overflow(self, overflow: Overflow) -> (d: Self)
        ensures
            d == with_div_base(self, Style { overflow: Some(overflow), ..div_base(self) }),
    {
        let mut style = self.base_or_unset();
        style.overflow = Some(overflow);
        self.set_base(style)
    }

    /// Sets the inner padding.
    pub fn padding(self, padding: Spacing) -> (d: Self)
        ensures
            d == with_div_base(self, Style { padding: Some(padding), ..div_base(self) }),
    {
        let mut style = self.base_or_unset();
        style.padding = Some(padding);
        self.set_base(style)
    }

    /// Sets the outer margin.
    pub fn margin(self, margin: Spacing) -> (d: Self)
        ensures
            d == with_div_base(self, Style { margin: Some(margin), ..div_base(self) }),
    {
        let mut style = self.base_or_unset();
        style.margin = Some(margin);
        self.set_base(style)
    }

    /// Sets the gap between children.
    pub fn gap(self, gap: u16) -> (d: Self)
        ensures
            d == with_div_base(self, Style { gap: Some(gap), ..div_base(self) }),
    {
        let mut style = self.base_or_unset();
        style.gap = Some(gap);
        self.set_base(style)
    }

    /// Sets how children wrap.
    pub fn wrap(self, wrap: WrapMode) -> (d: Self)
        ensures
            d == with_div_base(self, Style { wrap: Some(wrap), ..div_base(self) }),
    {
        let mut style = self.base_or_unset();
        style.wrap = Some(wrap);
        self.set_base(style)
    }

    /// Sets a fixed width.
    pub fn width(self, width: u16) -> (d: Self)
        ensures
            d == with_div_base(self, Style { width: Some(Dimension::Fixed(width)), ..div_base(self) }),
    {
        let mut style = self.base_or_unset();
        style.width = Some(Dimension::Fixed(width));
        self.set_base(style)
    }

    /// Sets the width dimension.
    pub fn width_dim(self, width: Dimension) -> (d: Self)
        ensures
            d == with_div_base(self, Style { width: Some(width), ..div_base(self) }),
    {
        let mut style = self.base_or_unset();
        style.width = Some(width);
        self.set_base(style)
    }

    /// Sets a fixed height.
    pub fn height(self, height: u16) -> (d: Self)
        ensures
            d == with_div_base(self, Style { height: Some(Dimension::Fixed(height)), ..div_base(self) }),
    {
        let mut style = self.base_or_unset();
        style.height = Some(Dimension::Fixed(height));
        self.set_base(style)
    }

    /// Sets the height dimension.
    pub fn height_dim(self, height: Dimension) -> (d: Self)
        ensures
            d == with_div_base(self, Style { height: Some(height), ..div_base(self) }),
    {
        let mut style = self.base_or_unset();
        style.height = Some(height);
        self.set_base(style)
    }

    /// Makes the width automatic.
    pub fn width_auto(self) -> (d: Self)
        ensures
            d == with_div_base(self, Style { width: Some(Dimension::Auto), ..div_base(self) }),
    {
        let mut style = self.base_or_unset();
        style.width = Some(Dimension::Auto);
        self.set_base(style)
    }

    /// Makes the height automatic.
    pub fn height_auto(self) -> (d: Self)
        ensures
            d == with_div_base(self, Style { height: Some(Dimension::Auto), ..div_base(self) }),
    {
        let mut style = self.base_or_unset();
        style.height = Some(Dimension::Auto);
        self.set_base(style)
    }

    /// Sizes the height to the content.
    pub fn height_content(self) -> (d: Self)
        ensures
            d == with_div_base(self, Style { height: Some(Dimension::Content), ..div_base(self) }),
    {
        let mut style = self.base_or_unset();
        style.height = Some(Dimension::Content);
        self.set_base(style)
    }

    /// Sizes the width to the content.
    pub fn width_content(self) -> (d: Self)
        ensures
            d == with_div_base(self, Style { width: Some(Dimension::Content), ..div_base(self) }),
    {
        let mut style = self.base_or_unset();
        style.width = Some(Dimension::Content);
        self.set_base(style)
    }

    /// Sets the minimum width.
    pub fn min_width(self, width: u16) -> (d: Self)
        ensures
            d == with_div_base(self, Style { min_width: Some(width), ..div_base(self) }),
    {
        let mut style = self.base_or_unset();
        style.min_width = Some(width);
        self.set_base(style)
    }

    /// Sets the minimum height.
    pub fn min_height(self, height: u16) -> (d: Self)
        ensures
            d == with_div_base(self, Style { min_height: Some(height), ..div_base(self) }),
    {
        let mut style = self.base_or_unset();
        style.min_height = Some(height);
        self.set_base(style)
    }

    /// Sets the maximum width.
    pub fn max_width(self, width: u16) -> (d: Self)
        ensures
            d == with_div_base(self, Style { max_width: Some(width), ..div_base(self) }),
    {
        let mut style = self.base_or_unset();
        style.max_width = Some(width);
        self.set_base(style)
    }

    /// Sets the maximum height.
    pub fn max_height(self, height: u16) -> (d: Self)
        ensures
            d == with_div_base(self, Style { max_height: Some(height), ..div_base(self) }),
    {
        let mut style = self.base_or_unset();
        style.max_height = Some(height);
        self.set_base(style)
    }

    /// Sets the background color.
    pub fn background(self, color: Color) -> (d: Self)
        ensures
            d == with_div_base(self, Style { background: Some(color), ..div_base(self) }),
    {
        let mut style = self.base_or_unset();
        style.background = Some(color);
        self.set_base(style)
    }

    /// Sets a white border of the given style on all edges.
    pub fn border(self, border: BorderStyle) -> (d: Self)
        ensures
            d == with_div_base(self, Style { border: Some(Border { enabled: true, style: border, color: Color::White, edges: BorderEdges { bits: 255 } }), ..div_base(self) }),
    {
        let mut style = self.base_or_unset();
        style.border = Some(Border::with_style(border, Color::White));
        self.set_base(style)
    }

    /// Sets the border.
    pub fn border_with(self, border: Border) -> (d: Self)
        ensures
            d == with_div_base(self, Style { border: Some(border), ..div_base(self) }),
    {
        let mut style = self.base_or_unset();
        style.border = Some(border);
        self.set_base(style)
    }

    /// Sets a single-line border of the given color on all edges.
    pub fn border_color(self, color: Color) -> (d: Self)
        ensures
            d == with_div_base(self, Style { border: Some(Border { enabled: true, style: BorderStyle::Single, color, edges: BorderEdges { bits: 255 } }), ..div_base(self) }),
    {
        let mut style = self.base_or_unset();
        style.border = Some(Border::new(color));
        self.set_base(style)
    }

    /// Sets a white border of the given style on all edges.
    pub fn border_style(self, border_style: BorderStyle) -> (d: Self)
        ensures
            d == with_div_base(self, Style { border: Some(Border { enabled: true, style: border_style, color: Color::White, edges: BorderEdges { bits: 255 } }), ..div_base(self) }),
    {
        let mut style = self.base_or_unset();
        style.border = Some(Border::with_style(border_style, Color::White));
        self.set_base(style)
    }

    /// Sets a border of the given style and color on all edges.
    pub fn border_style_with_color(self, border_style: BorderStyle, color: Color) -> (d: Self)
        ensures
            d == with_div_base(self, Style { border: Some(Border { enabled: true, style: border_style, color, edges: BorderEdges { bits: 255 } }), ..div_base(self) }),
    {
        let mut style = self.base_or_unset();
        style.border = Some(Border::with_style(border_style, color));
        self.set_base(style)
    }

    /// Limits the border to `edges`; a white single-line border when there was none.
    pub fn border_edges(self, edges: BorderEdges) -> (d: Self)
        ensures
            d == with_div_base(self, Style { border: Some(match div_base(self).border { Some(b) => Border { edges, ..b }, None => Border { enabled: true, style: BorderStyle::Single, color: Color::White, edges } }), ..div_base(self) }),
    {
        let mut style = self.base_or_unset();
        style.border = Some(match style.border {
            Some(b) => Border { edges, ..b },
            None => Border::with_edges(BorderStyle::Single, Color::White, edges),
        });
        self.set_base(style)
    }

    /// Sets whether a scrollbar is shown.
    pub fn show_scrollbar(self, show: bool) -> (d: Self)
        ensures
            d == with_div_base(self, Style { show_scrollbar: Some(show), ..div_base(self) }),
    {
        let mut style = self.base_or_unset();
        style.show_scrollbar = Some(show);
        self.set_base(style)
    }

    /// Positions the div absolutely.
    pub fn absolute_position(self) -> (d: Self)
        ensures
            d == with_div_base(self, Style { position: Some(Position::Absolute), ..div_base(self) }),
    {
        let mut style = self.base_or_unset();
        style.position = Some(Position::Absolute);
        self.set_base(style)
    }

    /// Positions the div absolutely at `(x, y)`.
    pub fn absolute(self, x: u16, y: u16) -> (d: Self)
        ensures
            d == with_div_base(self, Style { position: Some(Position::Absolute), x: Some(x), y: Some(y), ..div_base(self) }),
    {
        let mut style = self.base_or_unset();
        style.position = Some(Position::Absolute);
        style.x = Some(x);
        style.y = Some(y);
        self.set_base(style)
    }

    /// Sets the absolute column.
    pub fn x(self, x: u16) -> (d: Self)
        ensures
            d == with_div_base(self, Style { x: Some(x), ..div_base(self) }),
    {
        let mut style = self.base_or_unset();
        style.x = Some(x);
        self.set_base(style)
    }

    /// Sets the absolute row.
    pub fn y(self, y: u16) -> (d: Self)
        ensures
            d == with_div_base(self, Style { y: Some(y), ..div_base(self) }),
    {
        let mut style = self.base_or_unset();
        style.y = Some(y);
        self.set_base(style)
    }

    /// Sets the top offset.
    pub fn top(self, top: i16) -> (d: Self)
        ensures
            d == with_div_base(self, Style { top: Some(top), ..div_base(self) }),
    {
        let mut style = self.base_or_unset();
        style.top = Some(top);
        self.set_base(style)
    }

    /// Sets the right offset.
    pub fn right(self, right: i16) -> (d: Self)
        ensures
            d == with_div_base(self, Style { right: Some(right), ..div_base(self) }),
    {
        let mut style = self.base_or_unset();
        style.right = Some(right);
        self.set_base(style)
    }

    /// Sets the bottom offset.
    pub fn bottom(self, bottom: i16) -> (d: Self)
        ensures
            d == with_div_base(self, Style { bottom: Some(bottom), ..div_base(self) }),
    {
        let mut style = self.base_or_unset();
        style.bottom = Some(bottom);
        self.set_base(style)
    }

    /// Sets the left offset.
    pub fn left(self, left: i16) -> (d: Self)
        ensures
            d == with_div_base(self, Style { left: Some(left), ..div_base(self) }),
    {
        let mut style = self.base_or_unset();
        style.left = Some(left);
        self.set_base(style)
    }

    /// Sets the layering order.
    pub fn z_index(self, z: i32) -> (d: Self)
        ensures
            d == with_div_base(self, Style { z_index: Some(z), ..div_base(self) }),
    {
        let mut style = self.base_or_unset();
        style.z_index = Some(z);
        self.set_base(style)
    }

    /// Sets how children are distributed along the main axis.
    pub fn justify_content(self, justify: JustifyContent) -> (d: Self)
        ensures
            d == with_div_base(self, Style { justify_content: Some(justify), ..div_base(self) }),
    {
        let mut style = self.base_or_unset();
        style.justify_content = Some(justify);
        self.set_base(style)
    }

    /// Sets how children are aligned on the cross axis.
    pub fn align_items(self, align: AlignItems) -> (d: Self)
        ensures
            d == with_div_base(self, Style { align_items: Some(align), ..div_base(self) }),
    {
        let mut style = self.base_or_unset();
        style.align_items = Some(align);
        self.set_base(style)
    }

    /// Overrides the cross-axis alignment of the parent for this div.
    pub fn align_self(self, align: AlignSelf) -> (d: Self)
        ensures
            d == with_div_base(self, Style { align_self: Some(align), ..div_base(self) }),
    {
        let mut style = self.base_or_unset();
        style.align_self = Some(align);
        self.set_base(style)
    }

    /// Sets the style while focused.
    pub fn focus_style(self, style: Style) -> (d: Self)
        ensures
            d == (Div { styles: DivStyles { focus: Some(style), ..self.styles }, ..self }),
    {
        self.set_focus(style)
    }

    /// Sets the border while focused, keeping the rest of the focus style.
    pub fn focus_border_with(self, border: Border) -> (d: Self)
        ensures
            d == (Div { styles: DivStyles { focus: Some(Style { border: Some(border), ..div_focus(self) }), ..self.styles }, ..self }),
    {
        let mut style = match self.styles.focus {
            Some(s) => s,
            None => Style::default(),
        };
        style.border = Some(border);
        self.set_focus(style)
    }

    /// Sets a single-line border of the given color while focused.
    pub fn focus_border(self, color: Color) -> (d: Self)
        ensures
            d == (Div {
                styles: DivStyles {
                    focus: Some(Style {
                        border: Some(Border { enabled: true, style: BorderStyle::Single, color, edges: BorderEdges { bits: 255 } }),
                        ..div_focus(self)
                    }),
                    ..self.styles
                },
                ..self
            }),
    {
        self.focus_border_with(Border::new(color))
    }

    /// Sets a border of the given style and color while focused.
    pub fn focus_border_style(self, border_style: BorderStyle, color: Color) -> (d: Self)
        ensures
            d == (Div {
                styles: DivStyles {
                    focus: Some(Style {
                        border: Some(Border { enabled: true, style: border_style, color, edges: BorderEdges { bits: 255 } }),
                        ..div_focus(self)
                    }),
                    ..self.styles
                },
                ..self
            }),
    {
        self.focus_border_with(Border::with_style(border_style, color))
    }

    /// Sets the style while hovered.
    pub fn hover_style(self, style: Style) -> (d: Self)
        ensures
            d == (Div { styles: DivStyles { hover: Some(style), ..self.styles }, ..self }),
    {
        let mut d = self;
        d.styles.hover = Some(style);
        d
    }

    /// Sets the base style.
    pub fn style(self, style: Style) -> (d: Self)
        ensures
            d == with_div_base(self, style),
    {
        self.set_base(style)
    }

    /// The style the div shows now (see `shown_style`).
    pub fn active_style(&self) -> (s: Option<&Style>)
        ensures
            match s {
                Some(r) => shown_style(self.styles, self.focused, self.hovered) == Some(*r),
                None => shown_style(self.styles, self.focused, self.hovered) is None,
            },
    {
        if self.focused && self.styles.focus.is_some() {
            self.styles.focus.as_ref()
        } else if self.hovered && self.styles.hover.is_some() {
            self.styles.hover.as_ref()
        } else {
            self.styles.base.as_ref()
        }
    }
}

impl<T> Default for Div<T> {
    fn default() -> (d: Self)
        ensures
            d.children@.len() == 0,
            d.styles == (DivStyles { base: None, focus: None, hover: None }),
            !d.focusable,
            !d.focused,
            !d.hovered,
    {
        Self::new()
    }
}

/// A focused div with a focus style shows it whatever else holds; an
/// unfocused, unhovered div shows its base style.
pub proof fn lemma_focus_style_wins(styles: DivStyles, hovered: bool)
    ensures
        styles.focus is Some ==> shown_style(styles, true, hovered) == styles.focus,
        shown_style(styles, false, false) == styles.base,
{
}

/// Wraps an element for method chaining and hands it back unchanged.
pub struct ElementBuilder<T> {
    element: T,
}

impl<T> ElementBuilder<T> {
    /// The element the builder holds.
    pub closed spec fn element(&self) -> T {
        self.element
    }

    /// A builder holding `element`.
    pub fn new(element: T) -> (b: Self)
        ensures
            b.element() == element,
    {
        ElementBuilder { element }
    }

    /// The element held.
    pub fn build(self) -> (e: T)
        ensures
            e == self.element(),
    {
        self.element
    }
}

} // verus!
