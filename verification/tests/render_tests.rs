use rxtui::buffer::ScreenBuffer;
use rxtui::draw::render_node_to_buffer;
use rxtui::fits::{draw_fits, line_fits_check, try_render_node_to_buffer};
use rxtui::tree::RenderTree;
use rxtui::layout::{RenderNode, RenderNodeType, TextSpan};
use rxtui::render::{
    align_offset, are_adjacent, border_glyphs, draw_order, merge_regions, render_element, render_rich_text,
    render_rich_wrapped_text, render_scrollbar, render_text, render_wrapped_text, visible_lines, visible_span, Rect,
};
use rxtui::style::{Border, BorderEdges, BorderStyle, Color, Overflow, Spacing, Style, TextAlign, TextStyle};
use rxtui::unicode::{display_width, substring_by_columns};

/// Builds a tree of the nodes, linked by `(parent, child)` positions, and
/// draws it from the first node.
fn render_tree(nodes: Vec<RenderNode>, links: &[(usize, usize)], buffer: &mut ScreenBuffer, clip: &Rect) {
    let mut tree = RenderTree::new();
    for n in nodes {
        tree.add_node(n);
    }
    for &(p, c) in links {
        tree.add_child(p, c);
    }
    tree.set_root(0);
    let thumbs = vec![(0u16, 0u16); tree.nodes.len()];
    render_node_to_buffer(&tree, 0, buffer, clip, None, &thumbs);
}

fn element(x: u16, y: u16, width: u16, height: u16, style: Option<Style>) -> RenderNode {
    let mut n = RenderNode::element();
    n.x = x;
    n.y = y;
    n.width = width;
    n.height = height;
    n.style = style;
    n
}

fn text(content: &str, x: u16, y: u16, width: u16) -> RenderNode {
    let mut n = RenderNode::text(content.to_string());
    n.x = x;
    n.y = y;
    n.width = width;
    n.height = 1;
    n
}

#[test]
fn test_text_inherits_parent_background() {
    let parent = element(0, 0, 10, 3, Some(Style::default().background(Color::Blue)));
    let text_node = text("Hello", 0, 0, 5);
    let mut buffer = ScreenBuffer::new(10, 3);
    render_tree(vec![parent, text_node], &[(0, 1)], &mut buffer, &Rect::new(0, 0, 10, 3));
    for x in 0..5 {
        assert_eq!(buffer.get_cell(x, 0).unwrap().bg, Some(Color::Blue), "Text at position {x} should have blue background");
    }
    assert_eq!(buffer.get_cell(0, 0).unwrap().char, 'H');
}

#[test]
fn test_text_own_background_takes_precedence() {
    let parent = element(0, 0, 10, 3, Some(Style::default().background(Color::Blue)));
    let mut text_node = text("Hello", 0, 0, 5);
    text_node.style = Some(Style::default().background(Color::Red));
    let mut buffer = ScreenBuffer::new(10, 3);
    render_tree(vec![parent, text_node], &[(0, 1)], &mut buffer, &Rect::new(0, 0, 10, 3));
    for x in 0..5 {
        assert_eq!(buffer.get_cell(x, 0).unwrap().bg, Some(Color::Red), "Text at position {x} should have red background");
    }
}

#[test]
fn test_multi_level_background_inheritance() {
    let grandparent = element(0, 0, 15, 5, Some(Style::default().background(Color::Blue)));
    let parent = element(1, 1, 10, 3, None);
    let text_node = text("Hello", 1, 1, 5);
    let mut buffer = ScreenBuffer::new(15, 5);
    render_tree(vec![grandparent, parent, text_node], &[(0, 1), (1, 2)], &mut buffer, &Rect::new(0, 0, 15, 5));
    for x in 2..7 {
        assert_eq!(
            buffer.get_cell(x, 2).unwrap().bg,
            Some(Color::Blue),
            "Text at position {x} should inherit blue background from grandparent"
        );
    }
    assert_eq!(buffer.get_cell(1, 1).unwrap().bg, Some(Color::Blue));
}

#[test]
fn test_border_background_inheritance() {
    let parent = element(0, 0, 10, 5, Some(Style::default().background(Color::Blue)));
    let child = element(1, 1, 5, 3, Some(Style::default().border(Color::White)));
    let mut buffer = ScreenBuffer::new(10, 5);
    render_tree(vec![parent, child], &[(0, 1)], &mut buffer, &Rect::new(0, 0, 10, 5));
    for x in 1..6 {
        assert_eq!(buffer.get_cell(x, 1).unwrap().bg, Some(Color::Blue), "Top border at position {x} should have blue background");
    }
    for y in 1..4 {
        assert_eq!(buffer.get_cell(1, y).unwrap().bg, Some(Color::Blue), "Left border at position y={y} should have blue background");
    }
    assert_eq!(buffer.get_cell(1, 1).unwrap().char, '┌');
    assert_eq!(buffer.get_cell(3, 1).unwrap().char, '─');
    assert_eq!(buffer.get_cell(5, 3).unwrap().char, '┘');
    assert_eq!(buffer.get_cell(1, 2).unwrap().char, '│');
    assert_eq!(buffer.get_cell(1, 1).unwrap().fg, Some(Color::White));
}

#[test]
fn test_border_uses_element_bg_when_available() {
    let parent = element(0, 0, 10, 5, Some(Style::default().background(Color::Blue)));
    let child = element(1, 1, 5, 3, Some(Style::default().background(Color::Red).border(Color::White)));
    let mut buffer = ScreenBuffer::new(10, 5);
    render_tree(vec![parent, child], &[(0, 1)], &mut buffer, &Rect::new(0, 0, 10, 5));
    for x in 1..6 {
        assert_eq!(buffer.get_cell(x, 1).unwrap().bg, Some(Color::Red));
    }
    for y in 1..4 {
        assert_eq!(buffer.get_cell(1, y).unwrap().bg, Some(Color::Red));
    }
    assert_eq!(buffer.get_cell(2, 2).unwrap().char, ' ');
    assert_eq!(buffer.get_cell(2, 2).unwrap().bg, Some(Color::Red));
}

#[test]
fn test_selective_border_edges_background() {
    let parent = element(0, 0, 10, 5, Some(Style::default().background(Color::Blue)));
    let border = Border::with_edges(BorderStyle::Single, Color::White, BorderEdges::top().union(BorderEdges::bottom()));
    let child = element(1, 1, 5, 3, Some(Style { background: Some(Color::Red), border: Some(border), ..Style::default() }));
    let mut buffer = ScreenBuffer::new(10, 5);
    render_tree(vec![parent, child], &[(0, 1)], &mut buffer, &Rect::new(0, 0, 10, 5));
    for x in 1..6 {
        assert_eq!(buffer.get_cell(x, 1).unwrap().bg, Some(Color::Red), "Top border row at x={x} should have red background, even empty corners");
        assert_eq!(buffer.get_cell(x, 3).unwrap().bg, Some(Color::Red), "Bottom border row at x={x} should have red background, even empty corners");
    }
    assert_eq!(buffer.get_cell(1, 1).unwrap().char, ' ');
    assert_eq!(buffer.get_cell(1, 1).unwrap().fg, None);
    assert_eq!(buffer.get_cell(2, 1).unwrap().char, '─');
}

#[test]
fn test_element_with_own_bg_overrides_inheritance() {
    let grandparent = element(0, 0, 15, 5, Some(Style::default().background(Color::Blue)));
    let parent = element(1, 1, 10, 3, Some(Style::default().background(Color::Red)));
    let text_node = text("Hello", 1, 1, 5);
    let mut buffer = ScreenBuffer::new(15, 5);
    render_tree(vec![grandparent, parent, text_node], &[(0, 1), (1, 2)], &mut buffer, &Rect::new(0, 0, 15, 5));
    for x in 2..7 {
        assert_eq!(buffer.get_cell(x, 2).unwrap().bg, Some(Color::Red));
    }
    assert_eq!(buffer.get_cell(1, 1).unwrap().bg, Some(Color::Red));
}

#[test]
fn test_text_center_alignment() {
    let container = element(0, 0, 10, 1, None);
    let mut hi = text("Hi", 0, 0, 10);
    hi.text_style = Some(TextStyle { align: Some(TextAlign::Center), ..TextStyle::default() });
    let mut buffer = ScreenBuffer::new(20, 10);
    render_tree(vec![container, hi], &[(0, 1)], &mut buffer, &Rect::new(0, 0, 20, 10));
    assert_eq!(buffer.get_cell(4, 0).unwrap().char, 'H', "Expected 'H' at position 4");
    assert_eq!(buffer.get_cell(5, 0).unwrap().char, 'i', "Expected 'i' at position 5");
}

#[test]
fn test_text_right_alignment() {
    let container = element(0, 0, 10, 1, None);
    let mut end = text("End", 0, 0, 10);
    end.text_style = Some(TextStyle { align: Some(TextAlign::Right), ..TextStyle::default() });
    let mut buffer = ScreenBuffer::new(20, 10);
    render_tree(vec![container, end], &[(0, 1)], &mut buffer, &Rect::new(0, 0, 20, 10));
    assert_eq!(buffer.get_cell(7, 0).unwrap().char, 'E');
    assert_eq!(buffer.get_cell(8, 0).unwrap().char, 'n');
    assert_eq!(buffer.get_cell(9, 0).unwrap().char, 'd');
}

#[test]
fn rect_intersection_and_points() {
    let a = Rect::new(0, 0, 10, 5);
    let b = Rect::new(6, 3, 10, 10);
    assert!(a.intersects(&b));
    assert_eq!(a.intersection(&b), Rect::new(6, 3, 4, 2));
    assert_eq!(a.right(), 10);
    assert_eq!(b.bottom(), 13);
    assert!(a.contains_point(9, 4));
    assert!(!a.contains_point(10, 4));
    let far = Rect::new(20, 20, 2, 2);
    assert!(!a.intersects(&far));
    assert_eq!(a.intersection(&far), Rect::new(20, 20, 0, 0));
    assert_eq!(Rect::new(65530, 0, 100, 1).right(), u16::MAX);
    assert_eq!(Rect::empty(), Rect::new(0, 0, 0, 0));
}

#[test]
fn hidden_overflow_clips_children_to_the_padding_box() {
    let style = Style::default().overflow(Overflow::Hidden).border(Color::White).padding(Spacing::all(1));
    let parent = element(2, 2, 8, 6, Some(style));
    let mut buffer = ScreenBuffer::new(20, 20);
    let pass = render_element(&parent, &mut buffer, &Rect::new(0, 0, 20, 20), None, 0).unwrap();
    assert_eq!(pass.clip, Rect::new(3, 3, 6, 4));
    let child = text("ABCDEFGHIJ", 3, 3, 10);
    render_text(&child, &mut buffer, &pass.clip, pass.background, pass.scroll_offset);
    assert_eq!(buffer.get_cell(3, 3).unwrap().char, 'A');
    assert_eq!(buffer.get_cell(8, 3).unwrap().char, 'F');
    assert_eq!(buffer.get_cell(9, 3).unwrap().char, '│');
}

#[test]
fn visible_overflow_passes_the_clip_through() {
    let parent = element(0, 0, 4, 4, Some(Style::default()));
    let mut buffer = ScreenBuffer::new(10, 10);
    let clip = Rect::new(0, 0, 10, 10);
    let pass = render_element(&parent, &mut buffer, &clip, Some(Color::Green), 0).unwrap();
    assert_eq!(pass.clip, clip);
    assert_eq!(pass.background, Some(Color::Green));
    assert_eq!(buffer.get_cell(0, 0).unwrap().bg, None);
}

#[test]
fn nodes_outside_the_clip_draw_nothing() {
    let node = element(10, 10, 3, 3, Some(Style::default().background(Color::Red)));
    let mut buffer = ScreenBuffer::new(20, 20);
    assert_eq!(render_element(&node, &mut buffer, &Rect::new(0, 0, 5, 5), None, 0), None);
    assert_eq!(buffer.get_cell(10, 10).unwrap().bg, None);
}

#[test]
fn no_children_without_content_room() {
    let style = Style::default().border(Color::White).padding(Spacing::all(1));
    let node = element(0, 0, 4, 4, Some(style));
    let mut buffer = ScreenBuffer::new(10, 10);
    assert_eq!(render_element(&node, &mut buffer, &Rect::new(0, 0, 10, 10), None, 0), None);
    assert_eq!(buffer.get_cell(0, 0).unwrap().char, '┌');
}

#[test]
fn scrolling_shifts_children_and_hides_rows_above() {
    let mut node = element(0, 0, 10, 5, Some(Style::default().overflow(Overflow::Scroll)));
    node.scrollable = true;
    node.scroll_y = 2;
    let mut buffer = ScreenBuffer::new(10, 10);
    let pass = render_element(&node, &mut buffer, &Rect::new(0, 0, 10, 10), None, 0).unwrap();
    assert_eq!(pass.scroll_offset, 2);
    assert!(pass.scrollbars);
    let line = text("Top", 0, 1, 3);
    render_text(&line, &mut buffer, &pass.clip, pass.background, pass.scroll_offset);
    assert_eq!(buffer.get_cell(0, 0).unwrap().char, ' ');
    let below = text("Low", 0, 3, 3);
    render_text(&below, &mut buffer, &pass.clip, pass.background, pass.scroll_offset);
    assert_eq!(buffer.get_cell(0, 1).unwrap().char, 'L');
}

#[test]
fn wrapped_text_skips_scrolled_lines_and_stops_at_the_clip() {
    let mut node = RenderNode::text_wrapped(vec!["one".to_string(), "two".to_string(), "three".to_string(), "four".to_string()]);
    node.x = 0;
    node.y = 1;
    node.width = 5;
    node.height = 4;
    let mut buffer = ScreenBuffer::new(10, 10);
    render_wrapped_text(&node, &mut buffer, &Rect::new(0, 0, 10, 3), None, 2);
    assert_eq!(buffer.get_cell(0, 0).unwrap().char, 't');
    assert_eq!(buffer.get_cell(1, 0).unwrap().char, 'w');
    assert_eq!(buffer.get_cell(0, 1).unwrap().char, 't');
    assert_eq!(buffer.get_cell(2, 1).unwrap().char, 'r');
    assert_eq!(buffer.get_cell(0, 2).unwrap().char, 'f');
    assert_eq!(buffer.get_cell(0, 3).unwrap().char, ' ');
    assert_eq!(visible_lines(-1, 0, 4, &Rect::new(0, 0, 10, 3)), (1, 4));
    assert_eq!(visible_lines(0, 5, 4, &Rect::new(0, 0, 10, 3)), (0, 0));
    assert_eq!(visible_lines(0, 1, 4, &Rect::new(0, 2, 10, 2)), (1, 3));
}

#[test]
fn rich_text_spans_keep_their_styles() {
    let spans = vec![
        TextSpan { content: "ab".to_string(), style: Some(TextStyle { color: Some(Color::Red), ..TextStyle::default() }), is_cursor: false },
        TextSpan { content: "cd".to_string(), style: None, is_cursor: false },
    ];
    let mut node = RenderNode::new(RenderNodeType::RichText(spans));
    node.width = 8;
    node.height = 1;
    node.text_style = Some(TextStyle { align: Some(TextAlign::Right), ..TextStyle::default() });
    let mut buffer = ScreenBuffer::new(10, 2);
    render_rich_text(&node, &mut buffer, &Rect::new(0, 0, 7, 2), Some(Color::Blue), 0);
    assert_eq!(buffer.get_cell(4, 0).unwrap().char, 'a');
    assert_eq!(buffer.get_cell(4, 0).unwrap().fg, Some(Color::Red));
    assert_eq!(buffer.get_cell(4, 0).unwrap().bg, Some(Color::Blue));
    assert_eq!(buffer.get_cell(6, 0).unwrap().char, 'c');
    assert_eq!(buffer.get_cell(6, 0).unwrap().fg, None);
    assert_eq!(buffer.get_cell(7, 0).unwrap().char, ' ');
}

#[test]
fn rich_wrapped_lines_go_one_per_row() {
    let line = |s: &str| vec![TextSpan { content: s.to_string(), style: None, is_cursor: false }];
    let mut node = RenderNode::new(RenderNodeType::RichTextWrapped(vec![line("xy"), line("z")]));
    node.width = 4;
    node.height = 2;
    node.text_style = Some(TextStyle { align: Some(TextAlign::Center), ..TextStyle::default() });
    let mut buffer = ScreenBuffer::new(6, 3);
    render_rich_wrapped_text(&node, &mut buffer, &Rect::new(0, 0, 6, 3), None, 0);
    assert_eq!(buffer.get_cell(1, 0).unwrap().char, 'x');
    assert_eq!(buffer.get_cell(2, 0).unwrap().char, 'y');
    assert_eq!(buffer.get_cell(1, 1).unwrap().char, 'z');
}

#[test]
fn columns_widths_and_slices() {
    assert_eq!(display_width("héllo"), 5);
    assert_eq!(display_width("日本"), 4);
    assert_eq!(substring_by_columns("Hello", 1, 4), "ell");
    assert_eq!(substring_by_columns("日本語", 2, 4), "本");
    assert_eq!(substring_by_columns("日本語", 1, 4), "本");
    assert_eq!(visible_span(3, 5, &Rect::new(5, 0, 2, 1)), Some((2, 4, 5)));
    assert_eq!(visible_span(3, 5, &Rect::new(8, 0, 2, 1)), None);
    assert_eq!(visible_span(3, 5, &Rect::new(0, 0, 20, 1)), Some((0, 5, 3)));
    assert_eq!(align_offset(Some(TextAlign::Center), 10, 3), 3);
    assert_eq!(align_offset(Some(TextAlign::Right), 10, 3), 7);
    assert_eq!(align_offset(None, 10, 3), 0);
    assert_eq!(align_offset(Some(TextAlign::Right), 2, 3), 0);
}

#[test]
fn children_are_drawn_by_layer_then_in_order() {
    assert_eq!(draw_order(&vec![0, 2, -1, 2, 0]), vec![2, 0, 4, 1, 3]);
    assert_eq!(draw_order(&vec![]), Vec::<usize>::new());
    assert_eq!(border_glyphs(BorderStyle::Rounded).top_left, '╭');
    assert_eq!(border_glyphs(BorderStyle::Double).bottom, '═');
}

#[test]
fn scrollbar_track_and_thumb() {
    let mut node = element(0, 0, 5, 4, Some(Style::default().overflow(Overflow::Scroll)));
    node.scrollable = true;
    node.content_height = 8;
    let mut buffer = ScreenBuffer::new(10, 10);
    render_scrollbar(&node, &mut buffer, &Rect::new(0, 0, 10, 10), 0, 2, 2);
    assert_eq!(buffer.get_cell(4, 0).unwrap().char, '│');
    assert_eq!(buffer.get_cell(4, 1).unwrap().char, '│');
    assert_eq!(buffer.get_cell(4, 2).unwrap().char, '█');
    assert_eq!(buffer.get_cell(4, 3).unwrap().char, '█');
    assert_eq!(buffer.get_cell(4, 3).unwrap().fg, Some(Color::BrightBlack));
    assert_eq!(buffer.get_cell(4, 4).unwrap().char, ' ');
    let mut short = element(0, 0, 5, 4, None);
    short.content_height = 4;
    let mut untouched = ScreenBuffer::new(10, 10);
    render_scrollbar(&short, &mut untouched, &Rect::new(0, 0, 10, 10), 0, 0, 1);
    assert_eq!(untouched.get_cell(4, 0).unwrap().char, ' ');
}

#[test]
fn scrollbar_is_clipped() {
    let mut node = element(0, 0, 5, 4, None);
    node.content_height = 9;
    let mut buffer = ScreenBuffer::new(10, 10);
    render_scrollbar(&node, &mut buffer, &Rect::new(0, 0, 10, 2), 0, 0, 1);
    assert_eq!(buffer.get_cell(4, 0).unwrap().char, '█');
    assert_eq!(buffer.get_cell(4, 1).unwrap().char, '│');
    assert_eq!(buffer.get_cell(4, 2).unwrap().char, ' ');
}

#[test]
fn regions_merge_when_they_touch_or_overlap() {
    let a = Rect::new(0, 0, 2, 2);
    let b = Rect::new(2, 0, 2, 2);
    let c = Rect::new(10, 10, 1, 1);
    assert!(are_adjacent(&a, &b));
    assert!(!are_adjacent(&a, &c));
    assert!(are_adjacent(&Rect::new(0, 0, 2, 2), &Rect::new(1, 2, 3, 1)));
    assert_eq!(merge_regions(vec![c, b, a]), vec![Rect::new(0, 0, 4, 2), c]);
    assert_eq!(merge_regions(vec![]), Vec::<Rect>::new());
    assert_eq!(merge_regions(vec![Rect::new(0, 0, 3, 3), Rect::new(1, 1, 1, 1)]), vec![Rect::new(0, 0, 3, 3)]);
    assert_eq!(Rect::new(0, 0, 2, 2).union(&Rect::new(5, 1, 1, 4)), Rect::new(0, 0, 6, 5));
    let mut node = RenderNode::element();
    node.x = 3;
    node.width = 4;
    assert_eq!(node.bounds(), Rect::new(3, 0, 4, 0));
}

#[test]
fn children_draw_in_layer_order() {
    let parent = element(0, 0, 10, 3, None);
    let mut top = element(0, 0, 4, 1, Some(Style::default().background(Color::Red)));
    top.z_index = 2;
    let bottom = element(2, 0, 4, 1, Some(Style::default().background(Color::Green)));
    let mut buffer = ScreenBuffer::new(10, 3);
    render_tree(vec![parent, top, bottom], &[(0, 1), (0, 2)], &mut buffer, &Rect::new(0, 0, 10, 3));
    assert_eq!(buffer.get_cell(3, 0).unwrap().bg, Some(Color::Red));
    assert_eq!(buffer.get_cell(5, 0).unwrap().bg, Some(Color::Green));
}

#[test]
fn scrolling_parent_shifts_its_children_and_draws_its_scrollbar() {
    let mut parent = element(0, 0, 6, 3, Some(Style::default().overflow(Overflow::Scroll)));
    parent.scrollable = true;
    parent.scroll_y = 1;
    parent.content_height = 6;
    let line = text("Row", 0, 2, 3);
    let mut tree = RenderTree::new();
    tree.add_node(parent);
    tree.add_node(line);
    tree.add_child(0, 1);
    tree.set_root(0);
    let mut buffer = ScreenBuffer::new(8, 4);
    let thumbs = vec![(1u16, 1u16), (0, 0)];
    render_node_to_buffer(&tree, 0, &mut buffer, &Rect::new(0, 0, 8, 4), None, &thumbs);
    assert_eq!(buffer.get_cell(0, 1).unwrap().char, 'R');
    assert_eq!(buffer.get_cell(5, 0).unwrap().char, '│');
    assert_eq!(buffer.get_cell(5, 1).unwrap().char, '█');
}

fn tree_of(nodes: Vec<RenderNode>, links: &[(usize, usize)]) -> RenderTree {
    let mut tree = RenderTree::new();
    for n in nodes {
        tree.add_node(n);
    }
    for &(p, c) in links {
        tree.add_child(p, c);
    }
    tree.set_root(0);
    tree
}

#[test]
fn draw_fits_an_ordinary_tree_and_draws_it() {
    let tree = tree_of(
        vec![element(0, 0, 10, 3, Some(Style::default().border(Color::Cyan))), text("hi", 1, 1, 2)],
        &[(0, 1)],
    );
    let thumbs = vec![(0u16, 0u16); 2];
    let clip = Rect::new(0, 0, 10, 3);
    assert!(draw_fits(&tree, 0, &clip, None, 10, &thumbs));
    let mut buffer = ScreenBuffer::new(10, 3);
    assert!(try_render_node_to_buffer(&tree, 0, &mut buffer, &clip, None, &thumbs));
    assert_eq!(buffer.get_cell(1, 1).unwrap().char, 'h');
    assert_eq!(buffer.get_cell(0, 0).unwrap().char, '\u{250c}');
}

#[test]
fn a_border_past_the_last_column_does_not_fit() {
    let tree = tree_of(vec![element(65530, 0, 10, 3, Some(Style::default().border(Color::Cyan)))], &[]);
    let thumbs = vec![(0u16, 0u16); 1];
    let clip = Rect::new(65530, 0, 5, 3);
    assert!(!draw_fits(&tree, 0, &clip, None, 10, &thumbs));
    let mut buffer = ScreenBuffer::new(10, 3);
    assert!(!try_render_node_to_buffer(&tree, 0, &mut buffer, &clip, None, &thumbs));
    assert_eq!(buffer.get_cell(0, 0).unwrap().char, ' ');
}

#[test]
fn clipped_lines_fit_unless_they_pass_the_last_column() {
    let clip = Rect::new(0, 0, 10, 1);
    assert!(line_fits_check(10, 0, &"hello".chars().collect(), &clip));
    assert!(!line_fits_check(10, 65534, &"hello".chars().collect(), &clip));
}

#[test]
fn drawing_stays_in_the_clip_but_for_a_wide_last_character() {
    let mut buffer = ScreenBuffer::new(6, 2);
    buffer.write_str(0, 0, "xxxxxx", None, None);
    buffer.write_str(0, 1, "xxxxxx", None, None);
    render_tree(vec![text("ab\u{65e5}", 0, 0, 4)], &[], &mut buffer, &Rect::new(0, 0, 3, 1));
    assert_eq!(buffer.get_cell(0, 0).unwrap().char, 'a');
    assert_eq!(buffer.get_cell(2, 0).unwrap().char, '\u{65e5}');
    assert_eq!(buffer.get_cell(3, 0).unwrap().char, ' ');
    assert_eq!(buffer.get_cell(4, 0).unwrap().char, 'x');
    assert_eq!(buffer.get_cell(5, 0).unwrap().char, 'x');
    for x in 0..6u16 {
        assert_eq!(buffer.get_cell(x, 1).unwrap().char, 'x');
    }
}

#[test]
fn single_width_text_never_leaves_the_clip() {
    let mut buffer = ScreenBuffer::new(6, 1);
    buffer.write_str(0, 0, "xxxxxx", None, None);
    render_tree(vec![text("hello", 1, 0, 5)], &[], &mut buffer, &Rect::new(2, 0, 2, 1));
    let row: String = (0..6u16).map(|x| buffer.get_cell(x, 0).unwrap().char).collect();
    assert_eq!(row, "xxelxx");
}
