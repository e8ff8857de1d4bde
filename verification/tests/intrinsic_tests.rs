use rxtui::intrinsic::{
    container_frame, element_intrinsic_size, intrinsic_child_hint, measure_child, standard_intrinsic_size,
    wrapped_child_hint, wrapped_constraint, wrapped_intrinsic_size, ContainerFrame, MeasuredChild,
};
use rxtui::style::{Color, Dimension, Direction, Position, Spacing, Style, WrapMode};

fn child(width: u16, height: u16) -> MeasuredChild {
    MeasuredChild { width, height, in_flow: true }
}

#[test]
fn vertical_stack_adds_heights_gaps_padding_and_border() {
    let children = vec![child(10, 2), child(6, 3)];
    let size = standard_intrinsic_size(&children, Direction::Vertical, Spacing::all(1), 2, 1);
    assert_eq!(size, (14, 10));
}

#[test]
fn absolute_children_add_length_but_no_gap() {
    let children = vec![child(3, 1), MeasuredChild { width: 4, height: 5, in_flow: false }, child(2, 2)];
    let size = standard_intrinsic_size(&children, Direction::Horizontal, Spacing::all(0), 0, 2);
    assert_eq!(size, (11, 5));
}

#[test]
fn stacked_sums_saturate_at_the_largest_u16() {
    let children = vec![child(60000, 1), child(60000, 1)];
    let size = standard_intrinsic_size(&children, Direction::Horizontal, Spacing::all(0), 2, 0);
    assert_eq!(size, (u16::MAX, 3));
}

#[test]
fn wrapped_rows_break_at_the_constraint() {
    let children = vec![child(4, 1), child(4, 2), child(4, 1)];
    let size = wrapped_intrinsic_size(&children, Direction::Horizontal, 10, Spacing::all(0), 0, 1);
    assert_eq!(size, (10, 4));
}

#[test]
fn wrapped_columns_break_at_the_constraint() {
    let children = vec![child(2, 3), child(5, 3)];
    let size = wrapped_intrinsic_size(&children, Direction::Vertical, 5, Spacing::all(1), 0, 0);
    assert_eq!(size, (9, 7));
}

#[test]
fn a_child_longer_than_the_constraint_keeps_its_own_row() {
    let children = vec![child(12, 1), child(3, 1)];
    let size = wrapped_intrinsic_size(&children, Direction::Horizontal, 10, Spacing::all(0), 0, 0);
    assert_eq!(size, (10, 2));
}

#[test]
fn wrap_constraint_is_fixed_length_less_frame() {
    let style = Some(Style::default().width(Dimension::Fixed(20)));
    assert_eq!(wrapped_constraint(&style, Direction::Horizontal, Spacing::all(2), 2, None), 14);
    assert_eq!(wrapped_constraint(&None, Direction::Vertical, Spacing::all(0), 0, Some((3, 8))), 8);
    assert_eq!(wrapped_constraint(&None, Direction::Horizontal, Spacing::all(0), 0, None), u16::MAX);
    assert_eq!(wrapped_child_hint(Direction::Horizontal, 14, Some((1, 9))), Some((14, 9)));
    assert_eq!(wrapped_child_hint(Direction::Vertical, 14, None), Some((0, 14)));
}

#[test]
fn child_hint_takes_fixed_sides_less_frame() {
    let style = Some(Style::default().width(Dimension::Fixed(20)));
    assert_eq!(intrinsic_child_hint(&style, Spacing::all(2), 2, Some((50, 7))), Some((14, 7)));
    assert_eq!(intrinsic_child_hint(&None, Spacing::all(2), 2, Some((50, 7))), Some((50, 7)));
    let tiny = Some(Style::default().width(Dimension::Fixed(3)).height(Dimension::Fixed(30)));
    assert_eq!(intrinsic_child_hint(&tiny, Spacing::all(2), 2, None), Some((0, 24)));
}

#[test]
fn frame_defaults_and_wrapping() {
    assert_eq!(
        container_frame(&None),
        ContainerFrame { direction: Direction::Vertical, padding: Spacing::all(0), border_size: 0, gap: 0, wraps: false }
    );
    let style = Some(
        Style::default()
            .direction(Direction::Horizontal)
            .width(Dimension::Fixed(10))
            .wrap(WrapMode::Wrap)
            .gap(2)
            .border(Color::White),
    );
    let f = container_frame(&style);
    assert_eq!(f.direction, Direction::Horizontal);
    assert_eq!(f.border_size, 2);
    assert_eq!(f.gap, 2);
    assert!(f.wraps);
    let no_fixed = Some(Style::default().direction(Direction::Horizontal).wrap(WrapMode::Wrap));
    assert!(!container_frame(&no_fixed).wraps);
}

#[test]
fn measured_child_takes_fixed_and_scaled_sizes() {
    let fixed = Some(Style::default().width(Dimension::Fixed(7)));
    assert_eq!(measure_child((3, 4), &fixed, None, (0, 0)), child(7, 4));
    let pct = Some(Style::default().width(Dimension::Percentage(0.5f32.to_bits())));
    assert_eq!(measure_child((3, 4), &pct, Some((40, 10)), (20, 5)), child(20, 4));
    assert_eq!(measure_child((3, 4), &pct, None, (20, 5)), child(3, 4));
    let absolute = Some(Style::default().position(Position::Absolute));
    assert_eq!(measure_child((3, 4), &absolute, None, (0, 0)), MeasuredChild { width: 3, height: 4, in_flow: false });
}

#[test]
fn element_size_picks_wrapping_or_stacking() {
    assert_eq!(element_intrinsic_size(&None, &vec![], None), (0, 0));
    let wrapping = Some(
        Style::default().direction(Direction::Horizontal).width(Dimension::Fixed(10)).wrap(WrapMode::Wrap).gap(1),
    );
    let children = vec![child(4, 1), child(4, 2), child(4, 1)];
    assert_eq!(element_intrinsic_size(&wrapping, &children, None), (10, 4));
    let stacking = Some(Style::default().direction(Direction::Horizontal).gap(1));
    assert_eq!(element_intrinsic_size(&stacking, &children, None), (14, 2));
}
