use rxtui::config::{draw_strategy, DrawStrategy, InlineConfig, InlineHeight, RenderConfig, TerminalMode};
use rxtui::effect::Effect;
use rxtui::inline::{InlineOp, InlineState};
use rxtui::shimmer::{color_to_rgb, ShimmerSpeed, ShimmerText};
use rxtui::style::Color;

#[test]
fn shimmer_speeds() {
    assert_eq!(ShimmerSpeed::slow(), ShimmerSpeed { frame_delay_ms: 80, phase_step: 1 });
    assert_eq!(ShimmerSpeed::medium(), ShimmerSpeed { frame_delay_ms: 50, phase_step: 1 });
    assert_eq!(ShimmerSpeed::fast(), ShimmerSpeed { frame_delay_ms: 33, phase_step: 2 });
    assert_eq!(ShimmerSpeed::default(), ShimmerSpeed::medium());
    assert_eq!(ShimmerSpeed::new(10, 0).phase_step, 1);
    assert_eq!(ShimmerSpeed { frame_delay_ms: 0, phase_step: 0 }.frame_delay(), 1);
    assert_eq!(ShimmerSpeed { frame_delay_ms: 0, phase_step: 0 }.phase_step(), 1);
    assert_eq!(ShimmerSpeed::fast().frame_delay(), 33);
}

#[test]
fn shimmer_defaults_and_builders() {
    let s = ShimmerText::new("Loading...".to_string());
    assert_eq!(s.highlight_band, 6);
    assert_eq!(s.base_color, (70, 90, 130));
    assert_eq!(s.highlight_color, (210, 225, 255));
    assert_eq!(s.speed, ShimmerSpeed::medium());
    let s = s.speed(ShimmerSpeed::fast()).highlight_band(0).gradient(Color::Rgb(60, 80, 130), Color::BrightWhite);
    assert_eq!(s.highlight_band, 1);
    assert_eq!(s.base_color, (60, 80, 130));
    assert_eq!(s.highlight_color, (255, 255, 255));
    let s = s.base_color(Color::Red).highlight_color(Color::Cyan);
    assert_eq!(s.base_color, (205, 49, 49));
    assert_eq!(s.highlight_color, (17, 168, 205));
}

#[test]
fn shimmer_phase_advances_around_the_text() {
    let s = ShimmerText::new("abcd".to_string()).speed(ShimmerSpeed::fast());
    assert_eq!(s.char_count(), 4);
    assert_eq!(s.update(0), Some(2));
    assert_eq!(s.update(3), Some(1));
    assert_eq!(ShimmerText::new(String::new()).update(5), None);
}

#[test]
fn shimmer_band_distance() {
    let s = ShimmerText::new("abcdefghij".to_string()).highlight_band(3);
    assert_eq!(s.circular_distance(1, 9, 10), 2);
    assert_eq!(s.circular_distance(2, 5, 10), 3);
    assert_eq!(s.band_distance(4, 2, 10), Some(0));
    assert_eq!(s.band_distance(7, 2, 10), Some(3));
    assert_eq!(s.band_distance(0, 8, 10), Some(0));
    assert_eq!(s.band_distance(6, 8, 10), Some(2));
}

#[test]
fn color_table() {
    assert_eq!(color_to_rgb(Color::Black), (0, 0, 0));
    assert_eq!(color_to_rgb(Color::White), (229, 229, 229));
    assert_eq!(color_to_rgb(Color::BrightBlack), (102, 102, 102));
    assert_eq!(color_to_rgb(Color::Rgb(1, 2, 3)), (1, 2, 3));
}

#[test]
fn render_config_presets() {
    let d = RenderConfig::default();
    assert!(d.double_buffering && d.terminal_optimizations && d.cell_diffing);
    assert_eq!(d.poll_duration_ms, 100);
    let g = RenderConfig::debug();
    assert!(!g.double_buffering && !g.terminal_optimizations && !g.cell_diffing);
    assert_eq!(g.poll_duration_ms, 50);
}

#[test]
fn inline_config_defaults() {
    let c = InlineConfig::default();
    assert_eq!(c.height, InlineHeight::Content { max: None });
    assert!(!c.cursor_visible);
    assert!(c.preserve_on_exit);
    assert!(!c.mouse_capture);
    assert_eq!(InlineHeight::default(), InlineHeight::Content { max: None });
    assert_eq!(TerminalMode::default(), TerminalMode::AlternateScreen);
}

#[test]
fn inline_heights() {
    assert_eq!(InlineHeight::Fixed(10).layout_height(40), 10);
    assert_eq!(InlineHeight::Content { max: None }.layout_height(40), 40);
    assert!(InlineHeight::Content { max: Some(3) }.is_unclamped());
    assert!(!InlineHeight::Fill { min: 3 }.is_unclamped());
    assert_eq!(InlineHeight::Fixed(0).render_height(7), 1);
    assert_eq!(InlineHeight::Content { max: Some(5) }.render_height(7), 5);
    assert_eq!(InlineHeight::Content { max: None }.render_height(7), 7);
    assert_eq!(InlineHeight::Content { max: None }.render_height(0), 1);
    assert_eq!(InlineHeight::Fill { min: 10 }.render_height(7), 10);
    assert_eq!(InlineHeight::Fill { min: 3 }.render_height(7), 7);
}

#[test]
fn draw_strategies() {
    let mut c = RenderConfig::default();
    assert_eq!(draw_strategy(TerminalMode::AlternateScreen, c), DrawStrategy::DiffOptimized);
    c.terminal_optimizations = false;
    assert_eq!(draw_strategy(TerminalMode::AlternateScreen, c), DrawStrategy::DiffDirect);
    c.cell_diffing = false;
    assert_eq!(draw_strategy(TerminalMode::AlternateScreen, c), DrawStrategy::FullBuffer);
    assert_eq!(draw_strategy(TerminalMode::AlternateScreen, RenderConfig::debug()), DrawStrategy::Direct);
    let ic = InlineConfig::default();
    assert_eq!(draw_strategy(TerminalMode::Inline(ic), RenderConfig::debug()), DrawStrategy::Inline(ic));
}

#[test]
fn no_effects() {
    assert!(Effect::none().is_empty());
}

#[test]
fn inline_reserve_then_settle() {
    let mut st = InlineState::new();
    assert_eq!(st.terminal_size, (80, 24));
    let (h, ops) = st.reserve_space((100, 5), 8);
    assert_eq!(h, 5);
    assert_eq!(ops.len(), 6);
    assert_eq!(ops[5], InlineOp::MoveUp(5));
    assert!(ops[..5].iter().all(|o| *o == InlineOp::Newline));
    assert_eq!(st.terminal_size, (100, 5));
    let ops = st.settle_origin((0, 0), h);
    assert!(st.initialized);
    assert_eq!(st.reserved_height, 5);
    assert_eq!(ops.len(), 11);
    assert_eq!(ops[0], InlineOp::MoveTo(0, 0));
    assert_eq!(ops[1], InlineOp::ClearLine);
    assert_eq!(ops[8], InlineOp::MoveTo(0, 4));
    assert_eq!(ops[10], InlineOp::MoveTo(0, 0));
}

#[test]
fn inline_reserve_nothing() {
    let mut st = InlineState::new();
    let (h, ops) = st.reserve_space((80, 24), 0);
    assert_eq!(h, 0);
    assert!(ops.is_empty());
}

#[test]
fn inline_expand_scrolls_the_origin_up() {
    let mut st = InlineState::new();
    st.reserve_space((80, 10), 3);
    st.settle_origin((0, 6), 3);
    let ops = st.expand_space(2);
    assert!(ops.is_empty());
    assert_eq!(st.reserved_height, 3);
    let ops = st.expand_space(6);
    assert_eq!(st.reserved_height, 6);
    assert_eq!(st.origin_row, 4);
    assert_eq!(ops[0], InlineOp::MoveTo(0, 9));
    assert_eq!(&ops[1..4], &[InlineOp::Newline, InlineOp::Newline, InlineOp::Newline]);
    assert_eq!(&ops[4..], &[
        InlineOp::MoveTo(0, 7),
        InlineOp::ClearLine,
        InlineOp::MoveTo(0, 8),
        InlineOp::ClearLine,
        InlineOp::MoveTo(0, 9),
        InlineOp::ClearLine,
    ]);
}

#[test]
fn inline_translate_row() {
    let mut st = InlineState::new();
    st.settle_origin((0, 10), 4);
    assert_eq!(st.translate_row(9), None);
    assert_eq!(st.translate_row(10), Some(0));
    assert_eq!(st.translate_row(13), Some(3));
    assert_eq!(st.translate_row(14), None);
    assert_eq!(st.move_to_origin(), vec![InlineOp::MoveTo(0, 10)]);
    assert_eq!(st.move_to_end(), vec![InlineOp::MoveTo(0, 14), InlineOp::Newline]);
}

#[test]
fn band_distance_is_at_most_half_the_text() {
    let s = ShimmerText::new("abcdefg".to_string()).highlight_band(1);
    for phase in 0..7 {
        for index in 0..7 {
            assert!(s.band_distance(index, phase, 7).unwrap() <= 3);
        }
    }
}
