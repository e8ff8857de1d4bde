use rxtui::div::{Div, DivStyles};
use rxtui::style::{
    AlignItems, Border, BorderEdges, BorderStyle, Color, Dimension, Direction, JustifyContent, Position, Spacing,
    Style,
};

#[test]
fn new_div_is_empty() {
    let d: Div<u8> = Div::new();
    assert!(d.children.is_empty());
    assert!(d.styles.base.is_none() && d.styles.focus.is_none() && d.styles.hover.is_none());
    assert!(!d.focusable && !d.focused && !d.hovered);
}

#[test]
fn children_are_kept_in_order() {
    let d = Div::new().child(1u8).child(2).children(vec![7, 8, 9]).child(10);
    assert_eq!(d.children, vec![7, 8, 9, 10]);
}

#[test]
fn layout_builders_fill_the_base_style() {
    let d: Div<u8> = Div::new()
        .direction(Direction::Horizontal)
        .padding(Spacing::all(1))
        .gap(2)
        .width(40)
        .height_auto()
        .justify_content(JustifyContent::SpaceBetween)
        .align_items(AlignItems::Center)
        .background(Color::Blue);
    let s = d.styles.base.unwrap();
    assert_eq!(s.direction, Some(Direction::Horizontal));
    assert_eq!(s.padding, Some(Spacing::all(1)));
    assert_eq!(s.gap, Some(2));
    assert_eq!(s.width, Some(Dimension::Fixed(40)));
    assert_eq!(s.height, Some(Dimension::Auto));
    assert_eq!(s.justify_content, Some(JustifyContent::SpaceBetween));
    assert_eq!(s.align_items, Some(AlignItems::Center));
    assert_eq!(s.background, Some(Color::Blue));
    assert_eq!(s.border, None);
}

#[test]
fn border_builders() {
    let d: Div<u8> = Div::new().border(BorderStyle::Double);
    assert_eq!(d.styles.base.unwrap().border, Some(Border::with_style(BorderStyle::Double, Color::White)));
    let d: Div<u8> = Div::new().border_color(Color::Red).border_edges(BorderEdges::top());
    let b = d.styles.base.unwrap().border.unwrap();
    assert_eq!(b.color, Color::Red);
    assert_eq!(b.edges, BorderEdges::top());
    let d: Div<u8> = Div::new().border_edges(BorderEdges::left());
    assert_eq!(d.styles.base.unwrap().border, Some(Border::with_edges(BorderStyle::Single, Color::White, BorderEdges::left())));
}

#[test]
fn absolute_sets_position_and_coordinates() {
    let d: Div<u8> = Div::new().absolute(3, 4).z_index(5);
    let s = d.styles.base.unwrap();
    assert_eq!(s.position, Some(Position::Absolute));
    assert_eq!((s.x, s.y), (Some(3), Some(4)));
    assert_eq!(s.z_index, Some(5));
}

#[test]
fn focus_border_keeps_the_rest_of_the_focus_style() {
    let d: Div<u8> = Div::new().focus_style(Style::default().background(Color::Green)).focus_border(Color::Yellow);
    let f = d.styles.focus.unwrap();
    assert_eq!(f.background, Some(Color::Green));
    assert_eq!(f.border, Some(Border::new(Color::Yellow)));
}

#[test]
fn active_style_prefers_focus_then_hover() {
    let styles = DivStyles {
        base: Some(Style::default().gap(1)),
        focus: Some(Style::default().gap(2)),
        hover: Some(Style::default().gap(3)),
    };
    let mut d: Div<u8> = Div::new();
    d.styles = styles;
    assert_eq!(d.active_style().unwrap().gap, Some(1));
    d.hovered = true;
    assert_eq!(d.active_style().unwrap().gap, Some(3));
    d.focused = true;
    assert_eq!(d.active_style().unwrap().gap, Some(2));
    d.styles.focus = None;
    assert_eq!(d.active_style().unwrap().gap, Some(3));
}
