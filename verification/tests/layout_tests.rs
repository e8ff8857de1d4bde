use rxtui::div::{DivStyles, ElementBuilder};
use rxtui::layout::{
    calculate_justify_offsets, ChildExtent, next_focus_index, prev_focus_index, RenderNode, RenderNodeType,
};
use rxtui::style::{Border, Color, Dimension, JustifyContent, Position, Style};

#[test]
fn justify_offsets_for_each_mode() {
    assert_eq!(calculate_justify_offsets(JustifyContent::Start, 12, 3, 1), (0, 1));
    assert_eq!(calculate_justify_offsets(JustifyContent::End, 12, 3, 1), (12, 1));
    assert_eq!(calculate_justify_offsets(JustifyContent::Center, 11, 3, 1), (5, 1));
    assert_eq!(calculate_justify_offsets(JustifyContent::SpaceBetween, 12, 3, 1), (0, 6));
    assert_eq!(calculate_justify_offsets(JustifyContent::SpaceBetween, 12, 1, 1), (0, 1));
    assert_eq!(calculate_justify_offsets(JustifyContent::SpaceAround, 12, 3, 1), (2, 4));
    assert_eq!(calculate_justify_offsets(JustifyContent::SpaceAround, 12, 0, 1), (0, 1));
    assert_eq!(calculate_justify_offsets(JustifyContent::SpaceEvenly, 12, 3, 1), (3, 3));
    assert_eq!(calculate_justify_offsets(JustifyContent::SpaceEvenly, 12, 0, 2), (0, 2));
}

#[test]
fn distributed_space_fits() {
    for count in 1usize..6 {
        for mode in [JustifyContent::SpaceAround, JustifyContent::SpaceEvenly] {
            let (off, sp) = calculate_justify_offsets(mode, 17, count, 0);
            assert!(off as usize + sp as usize * (count - 1) <= 17);
        }
    }
    let (off, sp) = calculate_justify_offsets(JustifyContent::SpaceBetween, 17, 4, 0);
    assert!(off as usize + sp as usize * 3 <= 17);
}

#[test]
fn focus_cycles() {
    assert_eq!(next_focus_index(None, 3), Some(0));
    assert_eq!(next_focus_index(Some(2), 3), Some(0));
    assert_eq!(next_focus_index(Some(0), 3), Some(1));
    assert_eq!(prev_focus_index(None, 3), Some(2));
    assert_eq!(prev_focus_index(Some(0), 3), Some(2));
    assert_eq!(prev_focus_index(Some(2), 3), Some(1));
    assert_eq!(next_focus_index(None, 0), None);
    assert_eq!(prev_focus_index(None, 0), None);
    for i in 0..4 {
        let n = next_focus_index(Some(i), 4).unwrap();
        assert_eq!(prev_focus_index(Some(n), 4), Some(i));
    }
}

#[test]
fn new_nodes_start_empty() {
    let n = RenderNode::element();
    assert_eq!(n.node_type, RenderNodeType::Element);
    assert_eq!((n.x, n.y, n.width, n.height), (0, 0, 0, 0));
    assert!(n.dirty);
    assert_eq!(n.position_type, Position::Relative);
    let t = RenderNode::text("hi".to_string());
    assert_eq!(t.node_type, RenderNodeType::Text("hi".to_string()));
    let w = RenderNode::text_wrapped(vec!["a".to_string(), "b".to_string()]);
    assert!(matches!(w.node_type, RenderNodeType::TextWrapped(ref l) if l.len() == 2));
}

#[test]
fn position_size_and_dirty_flags() {
    let mut n = RenderNode::element();
    n.set_position(3, 4);
    n.set_size(10, 2);
    assert_eq!((n.x, n.y, n.width, n.height), (3, 4, 10, 2));
    n.clear_dirty();
    assert!(!n.dirty);
    n.mark_dirty();
    assert!(n.dirty);
}

#[test]
fn state_style_layers_focus_and_hover() {
    let styles = DivStyles {
        base: Some(Style::default().background(Color::Black)),
        focus: Some(Style::default().background(Color::Blue)),
        hover: Some(Style::default().background(Color::Red)),
    };
    let plain = RenderNode::compose_state_style(&styles, true, false, false).unwrap();
    assert_eq!(plain.background, Some(Color::Black));
    assert_eq!(plain.border, None);
    let focused = RenderNode::compose_state_style(&styles, true, true, false).unwrap();
    assert_eq!(focused.background, Some(Color::Blue));
    assert_eq!(focused.border, Some(Border::new(Color::Yellow)));
    let not_focusable = RenderNode::compose_state_style(&styles, false, true, false).unwrap();
    assert_eq!(not_focusable.border, None);
    let hovered = RenderNode::compose_state_style(&styles, true, true, true).unwrap();
    assert_eq!(hovered.background, Some(Color::Red));
    assert_eq!(hovered.border, Some(Border::new(Color::Yellow)));
    assert_eq!(RenderNode::compose_state_style(&DivStyles::default(), true, false, true), None);
}

#[test]
fn refresh_state_style_applies_sizes_and_marks_changes() {
    let mut n = RenderNode::element();
    n.styles.base = Some(
        Style::default().width(Dimension::Fixed(12)).height(Dimension::Auto).position(Position::Absolute).z_index(4),
    );
    n.clear_dirty();
    n.refresh_state_style();
    assert!(n.dirty);
    assert_eq!(n.width, 12);
    assert_eq!(n.height, 0);
    assert_eq!(n.position_type, Position::Absolute);
    assert_eq!(n.z_index, 4);
    assert!(n.is_positioned());
    n.clear_dirty();
    n.refresh_state_style();
    assert!(!n.dirty);
    n.apply_computed_style(None);
    assert_eq!(n.position_type, Position::Relative);
    assert!(!n.is_positioned());
}

#[test]
fn scrolling_is_clamped() {
    let mut n = RenderNode::element();
    n.height = 5;
    n.content_height = 12;
    assert!(!n.update_scroll(3));
    assert_eq!(n.scroll_y, 0);
    n.scrollable = true;
    assert_eq!(n.get_max_scroll_y(), 7);
    assert!(n.update_scroll(3));
    assert_eq!(n.scroll_y, 3);
    assert!(n.update_scroll(10));
    assert_eq!(n.scroll_y, 7);
    assert!(!n.update_scroll(1));
    assert!(n.update_scroll(-20));
    assert_eq!(n.scroll_y, 0);
    n.set_scroll_y(100);
    assert_eq!(n.scroll_y, 7);
    n.set_scroll_y(2);
    assert_eq!(n.scroll_y, 2);
}

#[test]
fn element_builder_hands_back_its_element() {
    let b = ElementBuilder::new(Style::default().gap(3));
    assert_eq!(b.build().gap, Some(3));
}

#[test]
fn absolute_children_are_placed_from_the_given_edges() {
    let parent = RenderNode::element();
    let mut child = RenderNode::element();
    child.width = 4;
    child.height = 2;
    child.style = Some(Style::default().left(3).top(-5));
    parent.position_absolute_child(&mut child, 10, 2, 20, 8);
    assert_eq!((child.x, child.y), (13, 0));
    child.style = Some(Style::default().right(2).bottom(1));
    parent.position_absolute_child(&mut child, 10, 2, 20, 8);
    assert_eq!((child.x, child.y), (24, 7));
    child.style = Some(Style::default());
    parent.position_absolute_child(&mut child, 10, 2, 20, 8);
    assert_eq!((child.x, child.y), (10, 2));
    let mut unstyled = RenderNode::element();
    unstyled.set_position(7, 7);
    parent.position_absolute_child(&mut unstyled, 10, 2, 20, 8);
    assert_eq!((unstyled.x, unstyled.y), (7, 7));
}

#[test]
fn content_size_follows_the_children() {
    let mut n = RenderNode::element();
    n.set_size(10, 5);
    n.style = Some(Style::default().padding(rxtui::style::Spacing { top: 0, right: 1, bottom: 1, left: 0 }).border(Color::White));
    let children = vec![
        ChildExtent { x: 0, y: 0, width: 12, height: 3, position_type: Position::Relative },
        ChildExtent { x: 0, y: 0, width: 50, height: 50, position_type: Position::Absolute },
    ];
    n.calculate_content_dimensions(&children);
    assert_eq!((n.content_width, n.content_height), (14, 5));
    let mut leaf = RenderNode::element();
    leaf.set_size(3, 4);
    leaf.calculate_content_dimensions(&Vec::new());
    assert_eq!((leaf.content_width, leaf.content_height), (3, 4));
}

#[test]
fn overflow_decides_scrolling() {
    use_overflow(rxtui::style::Overflow::Scroll, false, true, true);
    use_overflow(rxtui::style::Overflow::Auto, true, true, false);
    use_overflow(rxtui::style::Overflow::Hidden, false, false, false);
    let mut n = RenderNode::element();
    n.scrollable = true;
    n.apply_overflow(false);
    assert!(n.scrollable);
}

fn use_overflow(overflow: rxtui::style::Overflow, clicks: bool, scrolls: bool, focusable: bool) {
    let mut n = RenderNode::element();
    n.style = Some(Style::default().overflow(overflow));
    n.apply_overflow(clicks);
    assert_eq!(n.scrollable, scrolls);
    assert_eq!(n.focusable, focusable);
}
