use rxtui::layout::{RenderNode, RenderNodeType, TextSpan};
use rxtui::render::Rect;
use rxtui::style::{Color, Direction, Overflow, Spacing, Style};
use rxtui::tree::{FocusChange, RenderTree};

fn element(x: u16, y: u16, width: u16, height: u16) -> RenderNode {
    let mut n = RenderNode::element();
    n.x = x;
    n.y = y;
    n.width = width;
    n.height = height;
    n
}

/// root(0) -> a(1) -> a1(2), root -> b(3); a1 and b are focusable.
fn sample() -> RenderTree {
    let mut t = RenderTree::new();
    let root = t.add_node(element(0, 0, 20, 10));
    let a = t.add_node(element(0, 0, 10, 5));
    let mut leaf = element(1, 1, 4, 2);
    leaf.focusable = true;
    let a1 = t.add_node(leaf);
    let mut right = element(10, 0, 10, 5);
    right.focusable = true;
    let b = t.add_node(right);
    t.add_child(root, a);
    t.add_child(a, a1);
    t.add_child(root, b);
    t.set_root(root);
    t
}

#[test]
fn focusable_nodes_in_depth_first_order() {
    let t = sample();
    assert_eq!(t.collect_focusable_nodes(), vec![2, 3]);
    assert_eq!(t.find_first_focusable_global(), Some(2));
    assert_eq!(t.find_first_focusable_in(3), Some(3));
    assert_eq!(t.find_first_focusable_in(1), Some(2));
    assert_eq!(t.collect_nodes(), vec![0, 1, 2, 3]);
}

#[test]
fn focus_cycles_forward_and_back() {
    let mut t = sample();
    assert_eq!(t.focus_next(), FocusChange { blurred: None, focused: Some(2) });
    assert!(t.nodes[2].focused);
    assert_eq!(t.focus_next(), FocusChange { blurred: Some(2), focused: Some(3) });
    assert!(!t.nodes[2].focused);
    assert!(t.nodes[3].focused);
    assert_eq!(t.focus_next(), FocusChange { blurred: Some(3), focused: Some(2) });
    assert_eq!(t.focus_prev(), FocusChange { blurred: Some(2), focused: Some(3) });
    assert_eq!(t.get_focused_node(), Some(3));
    let mut fresh = sample();
    assert_eq!(fresh.focus_prev(), FocusChange { blurred: None, focused: Some(3) });
}

#[test]
fn focusing_the_focused_node_changes_nothing() {
    let mut t = sample();
    t.set_focused_node(Some(2));
    t.pending_focus_clear = true;
    assert_eq!(t.set_focused_node(Some(2)), FocusChange { blurred: None, focused: None });
    assert!(t.pending_focus_clear);
    assert_eq!(t.set_focused_node(None), FocusChange { blurred: Some(2), focused: None });
    assert!(!t.pending_focus_clear);
    assert!(!t.nodes[2].focused);
}

#[test]
fn focused_node_takes_the_focus_border() {
    let mut t = sample();
    t.set_focused_node(Some(2));
    let border = t.nodes[2].style.and_then(|s| s.border).unwrap();
    assert!(border.enabled);
    assert_eq!(border.color, Color::Yellow);
    assert!(t.nodes[2].dirty);
}

#[test]
fn hovering_moves_between_nodes() {
    let mut t = sample();
    t.nodes[1].styles.hover = Some(Style::default().background(Color::Red));
    t.set_hovered_node(Some(1));
    assert!(t.nodes[1].hovered);
    assert_eq!(t.nodes[1].style.and_then(|s| s.background), Some(Color::Red));
    t.set_hovered_node(Some(3));
    assert!(!t.nodes[1].hovered);
    assert_eq!(t.nodes[1].style, None);
    assert!(t.nodes[3].hovered);
    assert_eq!(t.hovered, Some(3));
}

#[test]
fn clicks_find_the_deepest_node() {
    let t = sample();
    assert_eq!(t.find_node_at(2, 2), Some(2));
    assert_eq!(t.find_node_at(8, 4), Some(1));
    assert_eq!(t.find_node_at(12, 1), Some(3));
    assert_eq!(t.find_node_at(15, 8), Some(0));
    assert_eq!(t.find_node_at(30, 30), None);
    assert_eq!(RenderTree::new().find_node_at(0, 0), None);
}

#[test]
fn text_is_transparent_to_clicks() {
    let mut t = RenderTree::new();
    let root = t.add_node(element(0, 0, 10, 3));
    let mut label = RenderNode::text("Hello".to_string());
    label.width = 5;
    label.height = 1;
    let text = t.add_node(label);
    t.add_child(root, text);
    t.set_root(root);
    assert_eq!(t.find_node_at(1, 0), Some(0));
}

#[test]
fn hidden_overflow_clips_clicks_and_scroll_shifts_them() {
    let mut t = RenderTree::new();
    let mut frame = element(0, 0, 5, 5);
    frame.style = Some(Style::default().overflow(Overflow::Hidden));
    let root = t.add_node(frame);
    let child = t.add_node(element(0, 0, 10, 10));
    t.add_child(root, child);
    t.set_root(root);
    assert_eq!(t.find_node_at(2, 2), Some(1));
    assert_eq!(t.find_node_at(7, 7), None);
    let mut s = RenderTree::new();
    let mut scroller = element(0, 0, 10, 4);
    scroller.scrollable = true;
    scroller.scroll_y = 3;
    let top = s.add_node(scroller);
    let inner = s.add_node(element(0, 4, 10, 2));
    s.add_child(top, inner);
    s.set_root(top);
    assert_eq!(s.find_node_at(0, 1), Some(1));
    assert_eq!(s.find_node_at(0, 3), Some(0));
}

#[test]
fn dirty_regions_and_clearing() {
    let mut t = sample();
    assert_eq!(t.collect_dirty_regions(), vec![Rect::new(0, 0, 20, 10)]);
    t.clear_all_dirty();
    assert!(t.nodes.iter().all(|n| !n.dirty));
    assert_eq!(t.collect_dirty_regions(), Vec::<Rect>::new());
    t.nodes[3].dirty = true;
    t.nodes[2].dirty = true;
    assert_eq!(t.collect_dirty_regions(), vec![Rect::new(10, 0, 10, 5), Rect::new(1, 1, 4, 2)]);
    let d = RenderTree::default();
    assert_eq!(d.root, None);
}

#[test]
fn well_formedness_and_scroll_checks() {
    let mut t = sample();
    assert!(t.is_well_formed());
    assert!(t.hit_test_fits());
    t.children[2].push(1);
    assert!(!t.is_well_formed());
    let mut s = RenderTree::new();
    let mut a = element(0, 0, 1, 1);
    a.scrollable = true;
    a.scroll_y = 30000;
    let mut b = element(0, 0, 1, 1);
    b.scrollable = true;
    b.scroll_y = 30000;
    let ia = s.add_node(a);
    let ib = s.add_node(b);
    s.add_child(ia, ib);
    s.set_root(ia);
    assert!(s.is_well_formed());
    assert!(!s.hit_test_fits());
    s.nodes[1].scroll_y = 100;
    assert!(s.hit_test_fits());
}

#[test]
fn layout_stacks_children_inside_padding_and_border() {
    let mut t = RenderTree::new();
    let mut root = element(3, 1, 30, 20);
    root.style = Some(Style::default().padding(rxtui::style::Spacing::all(1)).border(Color::White));
    let r = t.add_node(root);
    let a = t.add_node(element(0, 0, 6, 2));
    let mut row = element(0, 0, 10, 3);
    row.style = Some(Style::default().direction(rxtui::style::Direction::Horizontal));
    let b = t.add_node(row);
    let b1 = t.add_node(element(0, 0, 4, 1));
    let b2 = t.add_node(element(0, 0, 5, 1));
    t.add_child(r, a);
    t.add_child(r, b);
    t.add_child(b, b1);
    t.add_child(b, b2);
    t.set_root(r);
    t.layout_node(r);
    assert_eq!((t.nodes[a].x, t.nodes[a].y), (5, 3));
    assert_eq!((t.nodes[b].x, t.nodes[b].y), (5, 5));
    assert_eq!((t.nodes[b1].x, t.nodes[b1].y), (5, 5));
    assert_eq!((t.nodes[b2].x, t.nodes[b2].y), (9, 5));
    assert_eq!((t.nodes[r].x, t.nodes[r].y), (3, 1));
}

#[test]
fn debug_string_of_an_empty_tree() {
    let t = RenderTree::new();
    assert_eq!(t.debug_string(), "=== Render Tree ===\n(empty)\n==================\n");
}

#[test]
fn debug_string_lists_nodes_by_depth() {
    let mut t = RenderTree::new();
    let mut root = element(0, 0, 20, 10);
    root.dirty = false;
    let mut style = Style::default();
    style.background = Some(Color::Rgb(1, 2, 30));
    style.direction = Some(Direction::Horizontal);
    style.padding = Some(Spacing { top: 1, right: 2, bottom: 3, left: 4 });
    style.overflow = Some(Overflow::Visible);
    root.style = Some(style);
    let root = t.add_node(root);
    let mut text = RenderNode::text("a\nb".to_string());
    text.x = 1;
    text.y = 2;
    text.width = 3;
    text.height = 1;
    text.text_color = Some(Color::Red);
    let text = t.add_node(text);
    let mut wrapped = RenderNode::text_wrapped(vec!["one".to_string(), "two".to_string()]);
    wrapped.dirty = false;
    let wrapped = t.add_node(wrapped);
    let span = |s: &str| TextSpan { content: s.to_string(), style: None, is_cursor: false };
    let mut rich = RenderNode::new(RenderNodeType::RichTextWrapped(vec![vec![span("x"), span("y")], vec![span("z")]]));
    rich.dirty = false;
    let rich = t.add_node(rich);
    t.add_child(root, text);
    t.add_child(root, wrapped);
    t.add_child(wrapped, rich);
    t.set_root(root);
    let expected = [
        "=== Render Tree ===\n",
        "Div @ (0, 0) [20x10] bg:Rgb(1, 2, 30) dir:Horizontal pad:(1,2,3,4) overflow:None\n",
        "  Text @ (1, 2) [3x1]: \"a\\nb\" color:Red [DIRTY]\n",
        "  TextWrapped @ (0, 0) [0x0]: 2 lines\n    \"one\"\n    \"two\"\n",
        "    RichTextWrapped @ (0, 0) [0x0]: 2 lines\n",
        "      Line 1: 2 spans\n        \"x\"\n        \"y\"\n",
        "      Line 2: 1 spans\n        \"z\"\n",
        "==================\n",
    ]
    .concat();
    assert_eq!(t.debug_string(), expected);
}
