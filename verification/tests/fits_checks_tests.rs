use rxtui::flow::{
    flow_positions_fit, flow_wrap, group_into_lines, group_lines_checked, justify_line, layout_children_with_wrap,
    line_layout_fits, line_offsets_checked, place_children_in_line, place_prefix_fits, wrap_layout_fits, ChildBox,
    FlowItem, FlowLine, LineChild,
};
use rxtui::intrinsic::{
    element_intrinsic_size, element_size_fits, wrapped_intrinsic_size, wrapped_size_fits, MeasuredChild,
};
use rxtui::layout::RenderNode;
use rxtui::style::{AlignItems, AlignSelf, Dimension, Direction, JustifyContent, Spacing, Style, WrapMode};
use rxtui::tree::RenderTree;

fn items(sizes: &[(u16, u16)]) -> Vec<FlowItem> {
    sizes.iter().map(|&(main, cross)| FlowItem { main, cross, align_self: AlignSelf::Auto }).collect()
}

fn boxes(sizes: &[(u16, u16)]) -> Vec<ChildBox> {
    sizes.iter().map(|&(width, height)| ChildBox { width, height, align_self: AlignSelf::Auto }).collect()
}

fn line_children(sizes: &[(u16, u16)]) -> Vec<LineChild> {
    sizes
        .iter()
        .map(|&(main, cross)| LineChild { main, cross, align_self: AlignSelf::Auto, absolute: false, auto: false, text: false })
        .collect()
}

fn measured(sizes: &[(u16, u16)]) -> Vec<MeasuredChild> {
    sizes.iter().map(|&(width, height)| MeasuredChild { width, height, in_flow: true }).collect()
}

fn element(x: u16, y: u16, width: u16, height: u16) -> RenderNode {
    let mut n = RenderNode::element();
    n.x = x;
    n.y = y;
    n.width = width;
    n.height = height;
    n
}

#[test]
fn grouping_check_gives_the_lines_or_nothing() {
    let it = items(&[(4, 1), (4, 2), (4, 1)]);
    assert_eq!(group_lines_checked(&it, 10, 1), Some(group_into_lines(&it, 10, 1)));
    assert_eq!(group_lines_checked(&items(&[(40000, 1), (40000, 1)]), 65535, 0), None);
}

#[test]
fn line_offset_check_matches_justify_line() {
    let line = FlowLine { start: 0, end: 2, main: 8, cross: 2 };
    let checked = line_offsets_checked(&line, 20, 1, 0, JustifyContent::Center);
    assert_eq!(checked, Some(justify_line(&line, 20, 1, 0, JustifyContent::Center)));
    assert_eq!(checked, Some((5, 1)));
    assert_eq!(line_offsets_checked(&line, 20, 1, 65530, JustifyContent::End), None);
}

#[test]
fn placing_check_refuses_positions_past_the_largest_u16() {
    let it = items(&[(4, 1), (4, 1)]);
    let line = FlowLine { start: 0, end: 2, main: 8, cross: 1 };
    assert!(place_prefix_fits(&it, &line, 0, 1, 0, AlignItems::Start));
    assert!(!place_prefix_fits(&it, &line, 65533, 1, 0, AlignItems::Start));
}

#[test]
fn flow_check_admits_ordinary_flows_and_refuses_overflowing_ones() {
    let it = items(&[(4, 1), (4, 2), (4, 1)]);
    assert!(flow_positions_fit(&it, 0, 0, 10, 1, JustifyContent::Start, AlignItems::Start));
    assert_eq!(flow_wrap(&it, 0, 0, 10, 1, JustifyContent::Start, AlignItems::Start), vec![(0, 0), (5, 0), (0, 3)]);
    assert!(!flow_positions_fit(&it, 65530, 0, 10, 1, JustifyContent::Start, AlignItems::Start));
}

#[test]
fn wrap_layout_check_admits_what_layout_children_with_wrap_takes() {
    let children = boxes(&[(4, 1), (4, 2), (4, 1)]);
    assert!(wrap_layout_fits(0, 0, &None, &children, Direction::Horizontal, 10, 10, Spacing::all(0), 0, 1));
    let ps = layout_children_with_wrap(0, 0, &None, &children, Direction::Horizontal, 10, 10, Spacing::all(0), 0, 1);
    assert_eq!(ps, vec![(0, 0), (5, 0), (0, 3)]);
    assert!(!wrap_layout_fits(65530, 0, &None, &children, Direction::Horizontal, 10, 10, Spacing::all(0), 0, 1));
}

#[test]
fn line_layout_check_admits_what_place_children_in_line_takes() {
    let children = line_children(&[(3, 1), (4, 1)]);
    assert!(line_layout_fits(0, 0, &None, &children, Direction::Horizontal, 20, 3, Spacing::all(0), 0, 1));
    let ps = place_children_in_line(0, 0, &None, &children, Direction::Horizontal, 20, 3, Spacing::all(0), 0, 1);
    assert_eq!(ps.iter().map(|p| p.unwrap().x).collect::<Vec<_>>(), vec![0, 4]);
    assert!(!line_layout_fits(65533, 0, &None, &children, Direction::Horizontal, 20, 3, Spacing::all(0), 0, 1));
}

#[test]
fn wrapped_size_check_admits_ordinary_packings() {
    let children = measured(&[(4, 1), (4, 2), (4, 1)]);
    assert!(wrapped_size_fits(&children, Direction::Horizontal, 10, Spacing::all(0), 0, 1));
    assert_eq!(wrapped_intrinsic_size(&children, Direction::Horizontal, 10, Spacing::all(0), 0, 1), (10, 4));
}

#[test]
fn wrapped_size_check_refuses_lengths_past_the_largest_u16() {
    let wide = measured(&[(40000, 1), (40000, 1)]);
    assert!(!wrapped_size_fits(&wide, Direction::Horizontal, 65535, Spacing::all(0), 0, 0));
    let tall = measured(&[(5, 40000), (5, 40000)]);
    assert!(!wrapped_size_fits(&tall, Direction::Horizontal, 5, Spacing::all(0), 0, 0));
    let gaps = measured(&[(5, 1), (5, 1), (5, 1)]);
    assert!(!wrapped_size_fits(&gaps, Direction::Horizontal, 5, Spacing::all(0), 0, 40000));
}

#[test]
fn element_size_check_follows_padding_and_wrapping() {
    let children = measured(&[(4, 1), (4, 2), (4, 1)]);
    let wrapping = Some(Style::default().direction(Direction::Horizontal).width(Dimension::Fixed(10)).wrap(WrapMode::Wrap).gap(1));
    assert!(element_size_fits(&wrapping, &children, None));
    assert_eq!(element_intrinsic_size(&wrapping, &children, None), (10, 4));
    let padded = Some(Style::default().padding(Spacing { top: 0, right: 40000, bottom: 0, left: 40000 }));
    assert!(!element_size_fits(&padded, &children, None));
    assert!(element_size_fits(&padded, &vec![], None));
}

#[test]
fn checked_layout_lays_out_as_layout_node_does() {
    let mut t = RenderTree::new();
    let mut root = element(3, 1, 30, 20);
    root.style = Some(Style::default().padding(Spacing::all(1)));
    let r = t.add_node(root);
    let a = t.add_node(element(0, 0, 6, 2));
    let b = t.add_node(element(0, 0, 6, 3));
    t.add_child(r, a);
    t.add_child(r, b);
    t.set_root(r);
    assert!(t.layout_node_checked(r));
    assert_eq!((t.nodes[a].x, t.nodes[a].y), (4, 2));
    assert_eq!((t.nodes[b].x, t.nodes[b].y), (4, 4));
    assert_eq!((t.nodes[a].width, t.nodes[a].height), (6, 2));
    assert_eq!((t.nodes[b].width, t.nodes[b].height), (6, 3));
    assert_eq!((t.nodes[r].x, t.nodes[r].y), (3, 1));
}

#[test]
fn checked_layout_leaves_the_tree_when_a_coordinate_overflows() {
    let mut t = RenderTree::new();
    let r = t.add_node(element(0, 65533, 10, 10));
    let a = t.add_node(element(7, 7, 4, 4));
    let b = t.add_node(element(8, 8, 4, 4));
    t.add_child(r, a);
    t.add_child(r, b);
    t.set_root(r);
    assert!(!t.layout_node_checked(r));
    assert_eq!((t.nodes[a].x, t.nodes[a].y), (7, 7));
    assert_eq!((t.nodes[b].x, t.nodes[b].y), (8, 8));
}

#[test]
fn checked_layout_refuses_and_restores_after_moving_the_first_child() {
    let mut t = RenderTree::new();
    let r = t.add_node(element(0, 65533, 10, 10));
    let a = t.add_node(element(7, 7, 4, 4));
    t.add_child(r, a);
    t.set_root(r);
    assert!(t.layout_node_checked(r));
    assert_eq!((t.nodes[a].x, t.nodes[a].y), (0, 65533));
}
