use rxtui::intrinsic::{text_content_size, text_intrinsic_size, text_measure_wrap_width, wrapped_text_size};
use rxtui::layout::{RenderNode, RenderNodeType, TextSpan};
use rxtui::style::{Color, Dimension, Style, TextAlign, TextStyle, TextWrap};
use rxtui::text_wrap::restyle_lines;

fn span(content: &str, color: Option<Color>, is_cursor: bool) -> TextSpan {
    TextSpan { content: content.to_string(), style: color.map(|c| TextStyle { color: Some(c), ..TextStyle::default() }), is_cursor }
}

fn lines(v: &[&str]) -> Vec<String> {
    v.iter().map(|s| s.to_string()).collect()
}

fn wrapping(mode: TextWrap) -> Option<TextStyle> {
    Some(TextStyle { wrap: Some(mode), ..TextStyle::default() })
}

#[test]
fn text_becomes_wrapped_lines() {
    let mut node = RenderNode::text("hello world".to_string());
    node.text_style = wrapping(TextWrap::Word);
    node.apply_text_wrapping(6, lines(&["hello", "world!"]));
    assert_eq!(node.node_type, RenderNodeType::TextWrapped(lines(&["hello", "world!"])));
    assert_eq!(node.height, 2);
    assert_eq!(node.width, 6);
}

#[test]
fn text_without_wrapping_is_left_alone() {
    let mut node = RenderNode::text("hello world".to_string());
    node.width = 11;
    node.apply_text_wrapping(6, lines(&["hello", "world"]));
    assert_eq!(node.node_type, RenderNodeType::Text("hello world".to_string()));
    assert_eq!(node.width, 11);
    let mut no_room = RenderNode::text("hi".to_string());
    no_room.text_style = wrapping(TextWrap::Character);
    no_room.apply_text_wrapping(0, lines(&["h", "i"]));
    assert_eq!(no_room.node_type, RenderNodeType::Text("hi".to_string()));
    let mut no_wrap = RenderNode::text("hi".to_string());
    no_wrap.text_style = wrapping(TextWrap::NoWrap);
    no_wrap.apply_text_wrapping(1, lines(&["h", "i"]));
    assert_eq!(no_wrap.node_type, RenderNodeType::Text("hi".to_string()));
}

#[test]
fn spans_are_cut_along_lines_keeping_their_styles() {
    let spans = vec![span("ab", Some(Color::Red), false), span("cde", None, true)];
    let mut node = RenderNode::new(RenderNodeType::RichText(spans.clone()));
    node.text_style = wrapping(TextWrap::Character);
    node.apply_text_wrapping(3, lines(&["abc", "de"]));
    let expected = vec![
        vec![span("ab", Some(Color::Red), false), span("c", None, true)],
        vec![span("de", None, true)],
    ];
    assert_eq!(node.node_type, RenderNodeType::RichTextWrapped(expected));
    assert_eq!(node.height, 2);
    assert_eq!(node.width, 3);
}

#[test]
fn restyling_drops_characters_past_the_text() {
    let spans = vec![span("ab", None, false)];
    let out = restyle_lines(&spans, &lines(&["a", "bXY", "Z"]));
    assert_eq!(out, vec![vec![span("a", None, false)], vec![span("b", None, false)]]);
    assert_eq!(restyle_lines(&spans, &lines(&[])), Vec::<Vec<TextSpan>>::new());
}

#[test]
fn spans_with_no_text_left_stay_unwrapped() {
    let spans = vec![span("", None, false)];
    let mut node = RenderNode::new(RenderNodeType::RichText(spans.clone()));
    node.text_style = wrapping(TextWrap::Word);
    node.apply_text_wrapping(4, lines(&[""]));
    assert_eq!(node.node_type, RenderNodeType::RichText(spans));
}

#[test]
fn text_sizes_as_measured() {
    assert_eq!(text_content_size(&RenderNodeType::Text("héllo".to_string())), (5, 1));
    assert_eq!(text_content_size(&RenderNodeType::TextWrapped(lines(&["ab", "abcd", "a"]))), (4, 3));
    assert_eq!(
        text_content_size(&RenderNodeType::RichText(vec![span("ab", None, false), span("日本", None, false)])),
        (6, 1)
    );
    assert_eq!(
        text_content_size(&RenderNodeType::RichTextWrapped(vec![vec![span("abc", None, false)], vec![span("a", None, false), span("bcde", None, false)]])),
        (5, 2)
    );
    assert_eq!(text_content_size(&RenderNodeType::Element), (0, 0));
    assert_eq!(wrapped_text_size(&lines(&["abcdef", "ab"]), 4), (4, 2));
    assert_eq!(wrapped_text_size(&lines(&["ab"]), 4), (2, 1));
}

#[test]
fn measuring_wraps_at_the_fixed_width_or_the_hint() {
    let mut node = RenderNode::text("hello".to_string());
    assert_eq!(text_measure_wrap_width(&node, Some((8, 2))), None);
    node.text_style = wrapping(TextWrap::Word);
    assert_eq!(text_measure_wrap_width(&node, Some((8, 2))), Some(8));
    assert_eq!(text_measure_wrap_width(&node, None), None);
    node.style = Some(Style::default().width(Dimension::Fixed(3)));
    assert_eq!(text_measure_wrap_width(&node, Some((8, 2))), Some(3));
}

#[test]
fn dimensions_resolve_against_the_parent() {
    let mut node = RenderNode::element();
    node.style = Some(Style::default().width(Dimension::Percentage(0.5f32.to_bits())).height(Dimension::Content));
    node.resolve_dimensions(40, 10, (30, 20), (0, 0));
    assert_eq!((node.width, node.height), (1, 10));
    let mut fixed = RenderNode::element();
    fixed.width = 9;
    fixed.style = Some(Style::default().width(Dimension::Auto).height(Dimension::Fixed(7)));
    fixed.resolve_dimensions(40, 5, (3, 3), (0, 0));
    assert_eq!((fixed.width, fixed.height), (9, 7));
    let mut aligned = RenderNode::text("Hi".to_string());
    aligned.width = 10;
    aligned.text_style = Some(TextStyle { align: Some(TextAlign::Center), ..TextStyle::default() });
    aligned.resolve_dimensions(20, 5, (2, 1), (0, 0));
    assert_eq!((aligned.width, aligned.height), (10, 1));
    let mut plain = RenderNode::text("Hi".to_string());
    plain.width = 10;
    plain.resolve_dimensions(20, 5, (2, 1), (0, 0));
    assert_eq!((plain.width, plain.height), (2, 1));
    assert_eq!(plain.wrap_width_in(1), Some(1));
    assert_eq!(RenderNode::element().wrap_width_in(5), None);
}

#[test]
fn root_fills_or_fits_the_viewport() {
    let mut root = RenderNode::element();
    root.x = 4;
    root.style = Some(Style::default().width(Dimension::Auto).height(Dimension::Fixed(50)));
    root.resolve_root_dimensions(80, 24, false, (10, 10), (0, 0));
    assert_eq!((root.x, root.y, root.width, root.height), (0, 0, 80, 24));
    root.resolve_root_dimensions(80, 24, true, (10, 10), (0, 0));
    assert_eq!(root.height, 50);
    let mut plain = RenderNode::element();
    plain.resolve_root_dimensions(80, 24, false, (100, 30), (0, 0));
    assert_eq!((plain.width, plain.height), (80, 24));
    plain.resolve_root_dimensions(80, 24, true, (100, 30), (0, 0));
    assert_eq!((plain.width, plain.height), (80, 30));
}

#[test]
fn text_is_wrapped_at_its_own_width() {
    let mut node = RenderNode::text("hello world".to_string());
    node.text_style = wrapping(TextWrap::WordBreak);
    let applied = node.wrap_text_to(5);
    assert_eq!(applied, Some(lines(&["hello", "world"])));
    assert_eq!(node.node_type, RenderNodeType::TextWrapped(lines(&["hello", "world"])));
    assert_eq!(node.height, 2);
    assert_eq!(node.width, 5);
    let mut plain = RenderNode::text("hello world".to_string());
    assert_eq!(plain.wrap_text_to(5), None);
    assert_eq!(plain.node_type, RenderNodeType::Text("hello world".to_string()));
}

#[test]
fn spans_are_wrapped_along_their_joined_text() {
    let mut node = RenderNode::new(RenderNodeType::RichText(vec![span("abc", Some(Color::Red), false), span("def", None, false)]));
    node.text_style = wrapping(TextWrap::Character);
    let applied = node.wrap_text_to(4);
    assert_eq!(applied, Some(lines(&["abcd", "ef"])));
    match &node.node_type {
        RenderNodeType::RichTextWrapped(ls) => {
            assert_eq!(ls.len(), 2);
            assert_eq!(ls[0][0].content, "abc");
            assert_eq!(ls[0][1].content, "d");
            assert_eq!(ls[1][0].content, "ef");
        },
        _ => panic!("expected wrapped spans"),
    }
    assert_eq!(node.height, 2);
    assert_eq!(node.width, 4);
}

#[test]
fn text_measures_wrapped_at_the_width_it_is_given() {
    let mut node = RenderNode::text("hello world".to_string());
    node.text_style = wrapping(TextWrap::WordBreak);
    assert_eq!(text_intrinsic_size(&node, Some((5, 0))), (5, 2));
    assert_eq!(text_intrinsic_size(&node, None), (11, 1));
    assert_eq!(text_intrinsic_size(&node, Some((20, 0))), (11, 1));
}

#[test]
fn sizing_in_a_parent_resolves_then_wraps_at_the_new_width() {
    let mut node = RenderNode::text("hello world".to_string());
    node.text_style = wrapping(TextWrap::WordBreak);
    let applied = node.size_within_parent(5, 10, (11, 1), (0, 0));
    assert_eq!(applied, Some(lines(&["hello", "world"])));
    assert_eq!(node.node_type, RenderNodeType::TextWrapped(lines(&["hello", "world"])));
    assert_eq!(node.height, 2);
}

#[test]
fn a_fixed_width_sets_where_text_wraps() {
    let mut node = RenderNode::text("ab cd ef".to_string());
    node.text_style = wrapping(TextWrap::WordBreak);
    node.style = Some(Style { width: Some(Dimension::Fixed(5)), ..Style::default() });
    let applied = node.size_within_parent(40, 10, (8, 1), (0, 0));
    assert_eq!(applied, Some(lines(&["ab cd", "ef"])));
    assert_eq!(node.width, 5);
}

#[test]
fn sizing_without_wrapping_only_resolves() {
    let mut node = RenderNode::text("hello world".to_string());
    assert_eq!(node.size_within_parent(5, 10, (11, 1), (0, 0)), None);
    assert_eq!((node.width, node.height), (5, 1));
    assert_eq!(node.node_type, RenderNodeType::Text("hello world".to_string()));
}
