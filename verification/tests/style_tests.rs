use rxtui::style::{
    Border, BorderEdges, BorderStyle, Color, Dimension, Spacing, Style, TextAlign, TextStyle, TextWrap,
};

#[test]
fn test_hex_color_parsing() {
    assert_eq!(Color::from_hex("0").unwrap(), Color::Rgb(0, 0, 0));
    assert_eq!(Color::from_hex("#F").unwrap(), Color::Rgb(255, 255, 255));
    assert_eq!(Color::from_hex("8").unwrap(), Color::Rgb(136, 136, 136));

    assert_eq!(Color::from_hex("#F00").unwrap(), Color::Rgb(255, 0, 0));
    assert_eq!(Color::from_hex("0F0").unwrap(), Color::Rgb(0, 255, 0));
    assert_eq!(Color::from_hex("#00F").unwrap(), Color::Rgb(0, 0, 255));
    assert_eq!(Color::from_hex("F53").unwrap(), Color::Rgb(255, 85, 51));

    assert_eq!(Color::from_hex("#FF5733").unwrap(), Color::Rgb(255, 87, 51));
    assert_eq!(Color::from_hex("2ECC71").unwrap(), Color::Rgb(46, 204, 113));
    assert_eq!(Color::from_hex("#3498DB").unwrap(), Color::Rgb(52, 152, 219));

    assert_eq!(Color::from_hex("#abc").unwrap(), Color::Rgb(170, 187, 204));
    assert_eq!(Color::from_hex("#ABC").unwrap(), Color::Rgb(170, 187, 204));
    assert_eq!(Color::from_hex("aaBBcc").unwrap(), Color::Rgb(170, 187, 204));

    assert!(Color::from_hex("").is_err());
    assert!(Color::from_hex("12").is_err());
    assert!(Color::from_hex("1234").is_err());
    assert!(Color::from_hex("12345").is_err());
    assert!(Color::from_hex("1234567").is_err());
    assert!(Color::from_hex("GGG").is_err());
    assert!(Color::from_hex("#GGGGGG").is_err());
}

#[test]
fn test_hex_panic_method() {
    let color = Color::hex("#FF5733");
    assert_eq!(color, Color::Rgb(255, 87, 51));
}

#[test]
fn test_rgb_constructor() {
    assert_eq!(Color::rgb(255, 165, 0), Color::Rgb(255, 165, 0));
    assert_eq!(Color::rgb(0, 0, 0), Color::Rgb(0, 0, 0));
    assert_eq!(Color::rgb(255, 255, 255), Color::Rgb(255, 255, 255));
}

#[test]
fn hex_errors_name_the_fault() {
    assert_eq!(Color::from_hex("12"), Err("Hex color must be 1, 3, or 6 digits"));
    assert_eq!(Color::from_hex("GGG"), Err("Invalid hex digit"));
    assert_eq!(Color::from_hex("#GGGGGG"), Err("Invalid hex color format"));
    assert_eq!(Color::from_hex("G"), Err("Invalid hex digit"));
    assert_eq!(Color::from_hex("0\u{e9}000"), Err("Invalid hex color format"));
    assert_eq!(Color::from_hex("#\u{e9}\u{e9}\u{e9}"), Err("Invalid hex color format"));
    assert_eq!(Color::from_hex("\u{e9}a"), Err("Invalid hex digit"));
}

#[test]
fn hex_digits_parse_in_both_cases() {
    assert_eq!(rxtui::style::parse_hex_digit('a'), Ok(10));
    assert_eq!(rxtui::style::parse_hex_digit('F'), Ok(15));
    assert_eq!(rxtui::style::parse_hex_digit('7'), Ok(7));
    assert!(rxtui::style::parse_hex_digit('g').is_err());
}

#[test]
fn spacing_constructors() {
    assert_eq!(Spacing::all(2), Spacing { top: 2, right: 2, bottom: 2, left: 2 });
    assert_eq!(Spacing::vertical(3), Spacing { top: 3, right: 0, bottom: 3, left: 0 });
    assert_eq!(Spacing::horizontal(1), Spacing { top: 0, right: 1, bottom: 0, left: 1 });
}

#[test]
fn border_constructors() {
    let b = Border::new(Color::Red);
    assert!(b.enabled);
    assert_eq!(b.style, BorderStyle::Single);
    assert_eq!(b.edges, BorderEdges::all());
    assert!(!Border::none().enabled);
    let e = Border::with_edges(BorderStyle::Double, Color::Blue, BorderEdges::top());
    assert_eq!(e.edges, BorderEdges::top());
    assert_eq!(Border::with_style(BorderStyle::Rounded, Color::Green).style, BorderStyle::Rounded);
}

#[test]
fn border_edges_set_operations() {
    let tb = BorderEdges::top().union(BorderEdges::bottom());
    assert_eq!(tb, BorderEdges::horizontal());
    assert!(BorderEdges::all().contains(BorderEdges::corners()));
    assert!(BorderEdges::edges().intersects(BorderEdges::left()));
    assert!(!BorderEdges::edges().intersects(BorderEdges::corners()));
    assert!(BorderEdges::empty().is_empty());
    assert_eq!(BorderEdges::all().difference(BorderEdges::corners()), BorderEdges::edges());
    let mut e = BorderEdges::empty();
    e.insert(BorderEdges::right());
    assert!(e.contains(BorderEdges::right()));
    e.remove(BorderEdges::right());
    assert!(e.is_empty());
    assert_eq!(BorderEdges::from_bits_retain(0b1010).bits(), 0b1010);
}

#[test]
fn style_merge_overlay_wins_and_base_fills_in() {
    let base = Style::default().background(Color::Red).width(Dimension::Fixed(10));
    let top = Style::default().background(Color::Blue).padding(Spacing::all(1));
    let merged = Style::merge(Some(base), Some(top)).unwrap();
    assert_eq!(merged.background, Some(Color::Blue));
    assert_eq!(merged.width, Some(Dimension::Fixed(10)));
    assert_eq!(merged.padding, Some(Spacing::all(1)));
    assert_eq!(Style::merge(Some(base), None), Some(base));
    assert_eq!(Style::merge(None, Some(top)), Some(top));
    assert_eq!(Style::merge(None, None), None);
}

#[test]
fn style_merge_overlays_spacing_sizes_and_offsets() {
    let base = Style::default().background(Color::Red);
    let mut top = Style::default();
    top.margin = Some(Spacing::all(1));
    top.min_width = Some(5);
    top.max_height = Some(7);
    top.border_color = Some(Color::Green);
    top.x = Some(3);
    let merged = Style::merge(Some(base), Some(top)).unwrap();
    let mut expected = Style::default().background(Color::Red);
    expected.margin = Some(Spacing::all(1));
    expected.min_width = Some(5);
    expected.max_height = Some(7);
    expected.border_color = Some(Color::Green);
    expected.x = Some(3);
    assert_eq!(merged, expected);
}

#[test]
fn style_merge_is_associative_on_an_example() {
    let a = Style::default().background(Color::Red).gap(1);
    let b = Style::default().gap(2).z_index(3);
    let c = Style::default().background(Color::Green).top(4);
    let left = Style::merge(Style::merge(Some(a), Some(b)), Some(c));
    let right = Style::merge(Some(a), Style::merge(Some(b), Some(c)));
    assert_eq!(left, right);
}

#[test]
fn style_merge_with_itself_changes_nothing() {
    let a = Style::default().background(Color::Cyan).left(2);
    assert_eq!(Style::merge(Some(a), Some(a)), Some(a));
}

#[test]
fn text_style_merge_overlay_wins() {
    let base = TextStyle::default().color(Color::Red).bold(true);
    let top = TextStyle::default().color(Color::Blue).italic(true);
    let m = TextStyle::merge(Some(base), Some(top)).unwrap();
    assert_eq!(m.color, Some(Color::Blue));
    assert_eq!(m.bold, Some(true));
    assert_eq!(m.italic, Some(true));
    assert_eq!(TextStyle::merge(Some(base), Some(base)), Some(base));
}

#[test]
fn text_style_builder_shortcuts() {
    let s = TextStyle::builder().color(Color::Green).strong().emphasis().wrap(TextWrap::Word).align(TextAlign::Center).build();
    assert_eq!(s.color, Some(Color::Green));
    assert_eq!(s.bold, Some(true));
    assert_eq!(s.italic, Some(true));
    assert_eq!(s.wrap, Some(TextWrap::Word));
    assert_eq!(s.align, Some(TextAlign::Center));
}

#[test]
fn style_builder_builds_what_was_set() {
    let s = Style::builder().background(Color::Black).gap(2).border(Color::Red).build();
    assert_eq!(s.background, Some(Color::Black));
    assert_eq!(s.gap, Some(2));
    assert_eq!(s.border, Some(Border::new(Color::Red)));
    assert_eq!(s.width, None);
}

#[test]
fn default_focus_is_a_yellow_border() {
    let f = Style::default_focus();
    assert_eq!(f.border, Some(Border::new(Color::Yellow)));
    assert_eq!(f.background, None);
}
