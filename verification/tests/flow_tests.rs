use rxtui::flow::{
    flow_wrap, group_into_lines, justify_line, layout_children_with_wrap, place_children_in_line, ChildBox, FlowItem, FlowLine,
    LineChild, Placement,
};
use rxtui::style::{AlignItems, AlignSelf, Direction, JustifyContent, Spacing, Style};

fn boxes(sizes: &[(u16, u16)]) -> Vec<ChildBox> {
    sizes.iter().map(|&(width, height)| ChildBox { width, height, align_self: AlignSelf::Auto }).collect()
}

fn items(sizes: &[(u16, u16)]) -> Vec<FlowItem> {
    sizes.iter().map(|&(main, cross)| FlowItem { main, cross, align_self: AlignSelf::Auto }).collect()
}

#[test]
fn rows_break_where_the_next_child_would_not_fit() {
    let lines = group_into_lines(&items(&[(4, 1), (4, 2), (4, 1)]), 10, 1);
    assert_eq!(
        lines,
        vec![FlowLine { start: 0, end: 2, main: 8, cross: 2 }, FlowLine { start: 2, end: 3, main: 4, cross: 1 }]
    );
}

#[test]
fn a_child_wider_than_the_row_gets_a_row_of_its_own() {
    let lines = group_into_lines(&items(&[(12, 1), (3, 1)]), 10, 0);
    assert_eq!(
        lines,
        vec![FlowLine { start: 0, end: 1, main: 12, cross: 1 }, FlowLine { start: 1, end: 2, main: 3, cross: 1 }]
    );
    assert!(group_into_lines(&Vec::new(), 10, 0).is_empty());
}

#[test]
fn horizontal_wrap_positions() {
    let children = boxes(&[(4, 1), (4, 2), (4, 1)]);
    let ps = layout_children_with_wrap(0, 0, &None, &children, Direction::Horizontal, 10, 10, Spacing::all(0), 0, 1);
    assert_eq!(ps, vec![(0, 0), (5, 0), (0, 3)]);
}

#[test]
fn padding_and_border_move_the_start() {
    let children = boxes(&[(2, 1)]);
    let ps = layout_children_with_wrap(3, 4, &None, &children, Direction::Horizontal, 10, 10, Spacing::all(1), 1, 0);
    assert_eq!(ps, vec![(5, 6)]);
}

#[test]
fn justify_and_align_in_rows() {
    let style = Some(Style { justify_content: Some(JustifyContent::SpaceBetween), align_items: Some(AlignItems::End), ..Style::default() });
    let children = boxes(&[(4, 1), (4, 2), (4, 1)]);
    let ps = layout_children_with_wrap(0, 0, &style, &children, Direction::Horizontal, 10, 10, Spacing::all(0), 0, 1);
    assert_eq!(ps, vec![(0, 1), (6, 0), (0, 3)]);
}

#[test]
fn align_self_overrides_the_container() {
    let style = Some(Style { align_items: Some(AlignItems::End), ..Style::default() });
    let mut children = boxes(&[(2, 1), (2, 3)]);
    children[0].align_self = AlignSelf::Start;
    let ps = layout_children_with_wrap(0, 0, &style, &children, Direction::Horizontal, 10, 10, Spacing::all(0), 0, 0);
    assert_eq!(ps, vec![(0, 0), (2, 0)]);
    children[0].align_self = AlignSelf::Center;
    let ps = layout_children_with_wrap(0, 0, &style, &children, Direction::Horizontal, 10, 10, Spacing::all(0), 0, 0);
    assert_eq!(ps, vec![(0, 1), (2, 0)]);
}

#[test]
fn vertical_wrap_fills_columns() {
    let children = boxes(&[(3, 4), (1, 4), (2, 4)]);
    let ps = layout_children_with_wrap(0, 0, &None, &children, Direction::Vertical, 20, 9, Spacing::all(0), 0, 1);
    assert_eq!(ps, vec![(0, 0), (0, 5), (4, 0)]);
}

#[test]
fn line_offsets_per_mode() {
    let line = FlowLine { start: 0, end: 3, main: 9, cross: 1 };
    assert_eq!(justify_line(&line, 20, 1, 2, JustifyContent::Start), (2, 1));
    assert_eq!(justify_line(&line, 20, 1, 2, JustifyContent::End), (11, 1));
    assert_eq!(justify_line(&line, 20, 1, 2, JustifyContent::Center), (6, 1));
    assert_eq!(justify_line(&line, 20, 1, 2, JustifyContent::SpaceBetween), (2, 5));
    assert_eq!(justify_line(&line, 20, 1, 2, JustifyContent::SpaceAround), (3, 4));
    assert_eq!(justify_line(&line, 20, 1, 2, JustifyContent::SpaceEvenly), (4, 3));
}

#[test]
fn every_child_is_placed_once() {
    let its = items(&[(3, 1), (5, 2), (1, 1), (7, 3), (2, 2)]);
    let ps = flow_wrap(&its, 0, 0, 8, 1, JustifyContent::Center, AlignItems::Center);
    assert_eq!(ps.len(), its.len());
}

fn line_children(sizes: &[(u16, u16)], direction: Direction) -> Vec<LineChild> {
    sizes
        .iter()
        .map(|&(width, height)| {
            let (main, cross) = match direction {
                Direction::Horizontal => (width, height),
                Direction::Vertical => (height, width),
            };
            LineChild { main, cross, align_self: AlignSelf::Auto, absolute: false, auto: false, text: false }
        })
        .collect()
}

fn row_xs(justify: JustifyContent) -> Vec<u16> {
    let style = Some(Style { justify_content: Some(justify), ..Style::default() });
    let children = line_children(&[(3, 1), (3, 1), (3, 1)], Direction::Horizontal);
    place_children_in_line(0, 0, &style, &children, Direction::Horizontal, 20, 3, Spacing::all(0), 0, 0)
        .iter()
        .map(|p| p.unwrap().x)
        .collect()
}

fn row_ys(align: AlignItems, selves: [AlignSelf; 3]) -> Vec<u16> {
    let style = Some(Style { align_items: Some(align), ..Style::default() });
    let mut children = line_children(&[(3, 2), (3, 4), (3, 6)], Direction::Horizontal);
    for (c, a) in children.iter_mut().zip(selves) {
        c.align_self = a;
    }
    place_children_in_line(0, 0, &style, &children, Direction::Horizontal, 10, 10, Spacing::all(0), 0, 0)
        .iter()
        .map(|p| p.unwrap().y)
        .collect()
}

#[test]
fn test_justify_content_start() {
    assert_eq!(row_xs(JustifyContent::Start), vec![0, 3, 6]);
}

#[test]
fn test_justify_content_center() {
    assert_eq!(row_xs(JustifyContent::Center), vec![5, 8, 11]);
}

#[test]
fn test_justify_content_end() {
    assert_eq!(row_xs(JustifyContent::End), vec![11, 14, 17]);
}

#[test]
fn test_justify_content_space_between() {
    assert_eq!(row_xs(JustifyContent::SpaceBetween), vec![0, 8, 16]);
}

#[test]
fn test_align_items_center() {
    assert_eq!(row_ys(AlignItems::Center, [AlignSelf::Auto; 3]), vec![4, 3, 2]);
}

#[test]
fn test_align_items_end() {
    assert_eq!(row_ys(AlignItems::End, [AlignSelf::Auto; 3]), vec![8, 6, 4]);
}

#[test]
fn test_align_self_override() {
    assert_eq!(row_ys(AlignItems::Start, [AlignSelf::Auto, AlignSelf::Center, AlignSelf::End]), vec![0, 3, 4]);
}

#[test]
fn test_wrap_with_justify_content() {
    let style = Some(Style { justify_content: Some(JustifyContent::Center), ..Style::default() });
    let children = boxes(&[(8, 2), (8, 2), (8, 2), (8, 2), (8, 2)]);
    let ps = layout_children_with_wrap(0, 0, &style, &children, Direction::Horizontal, 25, 10, Spacing::all(0), 0, 0);
    assert_eq!(ps.len(), 5);
    assert_eq!(ps[0], (0, 0));
    assert_eq!(ps[3], (4, 2));
    assert_eq!(ps[4], (12, 2));
}

#[test]
fn test_wrap_with_align_items() {
    let style = Some(Style { align_items: Some(AlignItems::Center), ..Style::default() });
    let children = boxes(&[(8, 2), (8, 4), (8, 2), (8, 3), (8, 1)]);
    let ps = layout_children_with_wrap(0, 0, &style, &children, Direction::Horizontal, 25, 10, Spacing::all(0), 0, 1);
    assert_eq!(ps[0].1, 1);
    assert_eq!(ps[1].1, 0);
    assert_eq!(ps[2].1, 5);
    assert_eq!(ps[3].1, 5);
    assert_eq!(ps[4].1, 9);
}

#[test]
fn test_wrap_with_space_between() {
    let style = Some(Style { justify_content: Some(JustifyContent::SpaceBetween), ..Style::default() });
    let children = boxes(&[(8, 2), (8, 2), (8, 2), (10, 2), (10, 2)]);
    let ps = layout_children_with_wrap(0, 0, &style, &children, Direction::Horizontal, 30, 10, Spacing::all(0), 0, 0);
    assert_eq!(ps[0].0, 0);
    assert_eq!(ps[2].0, 22);
    assert_eq!(ps[3].0, 0);
    assert_eq!(ps[4].0, 20);
}

#[test]
fn automatic_children_share_the_free_length() {
    let mut children = line_children(&[(2, 4), (2, 0), (2, 0)], Direction::Vertical);
    children[1].auto = true;
    children[2].auto = true;
    let ps = place_children_in_line(2, 1, &None, &children, Direction::Vertical, 10, 14, Spacing::all(1), 1, 0);
    let ps: Vec<Placement> = ps.into_iter().map(|p| p.unwrap()).collect();
    assert_eq!(ps[0], Placement { size: 4, x: 4, y: 3 });
    assert_eq!(ps[1], Placement { size: 5, x: 4, y: 7 });
    assert_eq!(ps[2], Placement { size: 5, x: 4, y: 12 });
}

#[test]
fn automatic_text_keeps_its_length_and_absolute_children_are_skipped() {
    let mut children = line_children(&[(2, 1), (3, 1), (9, 9)], Direction::Horizontal);
    children[0].auto = true;
    children[0].text = true;
    children[2].absolute = true;
    let style = Some(Style { justify_content: Some(JustifyContent::SpaceEvenly), ..Style::default() });
    let ps = place_children_in_line(0, 0, &style, &children, Direction::Horizontal, 11, 1, Spacing::all(0), 0, 0);
    assert_eq!(ps[0], Some(Placement { size: 2, x: 2, y: 0 }));
    assert_eq!(ps[1], Some(Placement { size: 3, x: 6, y: 0 }));
    assert_eq!(ps[2], None);
}
