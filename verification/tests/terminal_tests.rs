use rxtui::buffer::{Cell, CellStyle, CellUpdate, DoubleBuffer, ScreenBuffer};
use rxtui::style::Color;
use rxtui::terminal::{last_column_unique_check, Run, TerminalCommand, TerminalOp, TerminalRenderer, TextAttribute, UpdateBatcher};

#[test]
fn test_update_batcher_single_cell() {
    let updates = vec![CellUpdate::Single {
        x: 5,
        y: 10,
        cell: Cell { char: 'A', fg: Some(Color::Red), bg: Some(Color::Blue), style: CellStyle::default() },
    }];

    let batcher = UpdateBatcher::new(updates);
    let commands = batcher.optimize();

    assert_eq!(commands.len(), 4);
    assert!(matches!(commands[0], TerminalCommand::MoveTo(5, 10)));
    assert!(matches!(commands[1], TerminalCommand::SetColors { fg: Some(Color::Red), bg: Some(Color::Blue) }));
    assert!(matches!(commands[2], TerminalCommand::SetStyle(_)));
    assert!(matches!(commands[3], TerminalCommand::Print(ref s) if s == "A"));
}

#[test]
fn test_update_batcher_consecutive_cells_same_style() {
    let style = CellStyle::default();
    let updates = vec![
        CellUpdate::Single { x: 0, y: 0, cell: Cell { char: 'H', fg: Some(Color::Green), bg: None, style: style.clone() } },
        CellUpdate::Single { x: 1, y: 0, cell: Cell { char: 'e', fg: Some(Color::Green), bg: None, style: style.clone() } },
        CellUpdate::Single { x: 2, y: 0, cell: Cell { char: 'l', fg: Some(Color::Green), bg: None, style: style.clone() } },
        CellUpdate::Single { x: 3, y: 0, cell: Cell { char: 'l', fg: Some(Color::Green), bg: None, style: style.clone() } },
        CellUpdate::Single { x: 4, y: 0, cell: Cell { char: 'o', fg: Some(Color::Green), bg: None, style } },
    ];

    let batcher = UpdateBatcher::new(updates);
    let commands = batcher.optimize();

    assert_eq!(commands.len(), 4);
    assert!(matches!(commands[0], TerminalCommand::MoveTo(0, 0)));
    assert!(matches!(commands[3], TerminalCommand::Print(ref s) if s == "Hello"));
}

#[test]
fn test_update_batcher_different_styles() {
    let updates = vec![
        CellUpdate::Single { x: 0, y: 0, cell: Cell { char: 'A', fg: Some(Color::Red), bg: None, style: CellStyle::default() } },
        CellUpdate::Single { x: 1, y: 0, cell: Cell { char: 'B', fg: Some(Color::Blue), bg: None, style: CellStyle::default() } },
    ];

    let batcher = UpdateBatcher::new(updates);
    let commands = batcher.optimize();

    assert_eq!(commands.len(), 8);

    assert!(matches!(commands[0], TerminalCommand::MoveTo(0, 0)));
    assert!(matches!(commands[1], TerminalCommand::SetColors { fg: Some(Color::Red), bg: None }));
    assert!(matches!(commands[2], TerminalCommand::SetStyle(_)));
    assert!(matches!(commands[3], TerminalCommand::Print(ref s) if s == "A"));

    assert!(matches!(commands[4], TerminalCommand::MoveTo(1, 0)));
    assert!(matches!(commands[5], TerminalCommand::SetColors { fg: Some(Color::Blue), bg: None }));
    assert!(matches!(commands[6], TerminalCommand::SetStyle(_)));
    assert!(matches!(commands[7], TerminalCommand::Print(ref s) if s == "B"));
}

#[test]
fn test_update_batcher_sorting() {
    let updates = vec![
        CellUpdate::Single { x: 5, y: 2, cell: Cell::new('C') },
        CellUpdate::Single { x: 0, y: 0, cell: Cell::new('A') },
        CellUpdate::Single { x: 3, y: 1, cell: Cell::new('B') },
    ];

    let batcher = UpdateBatcher::new(updates);
    let commands = batcher.optimize();

    assert!(matches!(commands[0], TerminalCommand::MoveTo(0, 0)));
}

#[test]
fn test_run_can_append() {
    let cell1 = Cell { char: 'A', fg: Some(Color::Red), bg: Some(Color::Blue), style: CellStyle::default() };

    let run = Run::new(5, 10, cell1.clone());

    let cell2 = Cell { char: 'B', fg: Some(Color::Red), bg: Some(Color::Blue), style: CellStyle::default() };
    assert!(run.can_append(6, 10, &cell2));

    assert!(!run.can_append(6, 11, &cell2));

    assert!(!run.can_append(8, 10, &cell2));

    let cell3 = Cell { char: 'C', fg: Some(Color::Green), bg: Some(Color::Blue), style: CellStyle::default() };
    assert!(!run.can_append(6, 10, &cell3));
}

#[test]
fn test_run_with_bold_style() {
    let style = CellStyle { bold: true, ..Default::default() };

    let updates = vec![CellUpdate::Single { x: 0, y: 0, cell: Cell { char: 'B', fg: None, bg: None, style } }];

    let batcher = UpdateBatcher::new(updates);
    let commands = batcher.optimize();

    let has_bold_style = commands.iter().any(|cmd| matches!(cmd, TerminalCommand::SetStyle(style) if style.bold));
    assert!(has_bold_style);
}

#[test]
fn test_terminal_command_types() {
    let move_cmd = TerminalCommand::MoveTo(10, 20);
    assert!(matches!(move_cmd, TerminalCommand::MoveTo(10, 20)));

    let color_cmd = TerminalCommand::SetColors { fg: Some(Color::Red), bg: Some(Color::Blue) };
    assert!(matches!(color_cmd, TerminalCommand::SetColors { fg: Some(Color::Red), bg: Some(Color::Blue) }));

    let print_cmd = TerminalCommand::Print("Hello".to_string());
    assert!(matches!(print_cmd, TerminalCommand::Print(ref s) if s == "Hello"));

    let reset_cmd = TerminalCommand::Reset;
    assert!(matches!(reset_cmd, TerminalCommand::Reset));
}

#[test]
fn test_empty_updates() {
    let updates = vec![];
    let batcher = UpdateBatcher::new(updates);
    let commands = batcher.optimize();
    assert!(commands.is_empty());
}

#[test]
fn test_multiple_runs_different_lines() {
    let updates = vec![
        CellUpdate::Single { x: 0, y: 0, cell: Cell::new('A') },
        CellUpdate::Single { x: 1, y: 0, cell: Cell::new('B') },
        CellUpdate::Single { x: 0, y: 1, cell: Cell::new('C') },
        CellUpdate::Single { x: 1, y: 1, cell: Cell::new('D') },
    ];

    let batcher = UpdateBatcher::new(updates);
    let runs = batcher.group_into_runs();

    assert_eq!(runs.len(), 2);
    assert_eq!(runs[0].cells.len(), 2);
    assert_eq!(runs[1].cells.len(), 2);
}

#[test]
fn styled_run_ends_with_a_reset() {
    let style = CellStyle { italic: true, ..CellStyle::default() };
    let commands = UpdateBatcher::new(vec![CellUpdate::Single { x: 2, y: 3, cell: Cell::new('i').with_style(style) }]).optimize();
    assert_eq!(commands.len(), 5);
    assert!(matches!(commands[4], TerminalCommand::Reset));
}

#[test]
fn updates_at_one_position_keep_their_order() {
    let updates = vec![
        CellUpdate::Single { x: 1, y: 0, cell: Cell::new('x') },
        CellUpdate::Single { x: 0, y: 0, cell: Cell::new('a') },
        CellUpdate::Single { x: 1, y: 0, cell: Cell::new('y') },
    ];
    let sorted = rxtui::terminal::sort_updates(updates);
    assert_eq!(
        sorted,
        vec![
            CellUpdate::Single { x: 0, y: 0, cell: Cell::new('a') },
            CellUpdate::Single { x: 1, y: 0, cell: Cell::new('x') },
            CellUpdate::Single { x: 1, y: 0, cell: Cell::new('y') },
        ]
    );
}

#[test]
fn run_into_commands_prints_its_characters() {
    let mut run = Run::new(3, 4, Cell::new('a').with_fg(Color::Cyan));
    run.cells.push(Cell::new('b').with_fg(Color::Cyan));
    let cmds = run.into_commands();
    assert_eq!(cmds.len(), 4);
    assert!(matches!(cmds[0], TerminalCommand::MoveTo(3, 4)));
    assert!(matches!(cmds[1], TerminalCommand::SetColors { fg: Some(Color::Cyan), bg: None }));
    assert!(matches!(cmds[3], TerminalCommand::Print(ref s) if s == "ab"));
}

#[test]
fn renderer_skips_settings_already_in_effect() {
    let mut r = TerminalRenderer::new(false);
    let ops = r.apply_command(TerminalCommand::MoveTo(1, 2));
    assert!(matches!(ops[..], [TerminalOp::MoveTo(1, 2)]));
    let ops = r.apply_command(TerminalCommand::MoveTo(1, 2));
    assert!(ops.is_empty());
    let ops = r.apply_command(TerminalCommand::SetColors { fg: Some(Color::Red), bg: None });
    assert!(matches!(ops[..], [TerminalOp::SetForeground(Some(Color::Red))]));
    let ops = r.apply_command(TerminalCommand::SetColors { fg: Some(Color::Red), bg: None });
    assert!(ops.is_empty());
    let bold = CellStyle { bold: true, ..CellStyle::default() };
    let ops = r.apply_command(TerminalCommand::SetStyle(bold));
    assert!(matches!(ops[..], [TerminalOp::ResetAttributes, TerminalOp::SetAttribute(TextAttribute::Bold)]));
    let ops = r.apply_command(TerminalCommand::SetStyle(bold));
    assert!(ops.is_empty());
}

#[test]
fn printing_moves_the_tracked_cursor_by_bytes() {
    let mut r = TerminalRenderer::new(false);
    r.apply_command(TerminalCommand::MoveTo(2, 0));
    r.apply_command(TerminalCommand::Print("h\u{e9}".to_string()));
    assert_eq!(r.current_pos, Some((5, 0)));
    let ops = r.apply_command(TerminalCommand::MoveTo(5, 0));
    assert!(ops.is_empty());
}

#[test]
fn reset_restores_defaults() {
    let mut r = TerminalRenderer::new(true);
    r.apply_command(TerminalCommand::SetColors { fg: Some(Color::Red), bg: Some(Color::Blue) });
    let ops = r.reset();
    assert!(matches!(ops[..], [TerminalOp::ResetColor, TerminalOp::ResetAttributes]));
    assert_eq!(r.current_fg, None);
    assert_eq!(r.current_bg, None);
    assert_eq!(r.current_style, CellStyle::default());
}

#[test]
fn clear_screen_forgets_the_state() {
    let mut r = TerminalRenderer::new(false);
    r.apply_command(TerminalCommand::MoveTo(4, 4));
    let ops = r.clear_screen();
    assert!(matches!(ops[..], [TerminalOp::ClearAll, TerminalOp::MoveTo(0, 0), TerminalOp::ResetColor, TerminalOp::ResetAttributes]));
    assert_eq!(r.current_pos, None);
}

#[test]
fn apply_updates_without_updates_sends_nothing() {
    let mut r = TerminalRenderer::new(true);
    assert!(r.apply_updates(Vec::new()).is_empty());
    let mut r = TerminalRenderer::new(false);
    assert!(r.apply_updates(Vec::new()).is_empty());
}

#[test]
fn apply_updates_synchronized_wraps_batched_commands() {
    let mut r = TerminalRenderer::new(true);
    let ops = r.apply_updates(vec![
        CellUpdate::Single { x: 1, y: 0, cell: Cell::new('b') },
        CellUpdate::Single { x: 0, y: 0, cell: Cell::new('a') },
    ]);
    assert!(matches!(ops.first(), Some(TerminalOp::Print(s)) if s == "\u{1b}[?2026h"));
    assert!(matches!(ops.last(), Some(TerminalOp::Print(s)) if s == "\u{1b}[?2026l"));
    assert!(matches!(ops[1], TerminalOp::MoveTo(0, 0)));
    assert!(ops.iter().any(|o| matches!(o, TerminalOp::Print(s) if s == "ab")));
    assert_eq!(r.current_pos, Some((2, 0)));
}

#[test]
fn apply_updates_direct_draws_each_cell_then_resets() {
    let mut r = TerminalRenderer::new(false);
    let ops = r.apply_updates(vec![CellUpdate::Single { x: 3, y: 1, cell: Cell::new('z').with_fg(Color::Green) }]);
    assert!(matches!(
        ops[..],
        [
            TerminalOp::MoveTo(3, 1),
            TerminalOp::ResetAttributes,
            TerminalOp::SetForeground(Some(Color::Green)),
            TerminalOp::Print(_),
            TerminalOp::ResetColor,
            TerminalOp::ResetAttributes
        ]
    ));
    assert_eq!(r.current_pos, None);
}

#[test]
fn draw_full_buffer_draws_every_cell() {
    let r = TerminalRenderer::new(false);
    let mut buffer = ScreenBuffer::new(2, 2);
    buffer.set_cell(1, 1, Cell::new('q'));
    let ops = r.draw_full_buffer(&buffer);
    let moves = ops.iter().filter(|o| matches!(o, TerminalOp::MoveTo(_, _))).count();
    assert_eq!(moves, 4);
    assert!(matches!(ops[ops.len() - 3], TerminalOp::Print(ref s) if s == "q"));
}

#[test]
fn diff_then_batch_round_trip() {
    let mut db = DoubleBuffer::new(6, 2);
    db.back_buffer_mut().write_str(1, 1, "hey", Some(Color::Magenta), None);
    let commands = UpdateBatcher::new(db.diff()).optimize();
    assert!(matches!(commands[0], TerminalCommand::MoveTo(1, 1)));
    assert!(matches!(commands[3], TerminalCommand::Print(ref s) if s == "hey"));
}

#[test]
fn batching_ignores_the_order_positions_arrive_in() {
    let a = CellUpdate::Single { x: 0, y: 1, cell: Cell::new('a') };
    let b = CellUpdate::Single { x: 1, y: 1, cell: Cell::new('b') };
    let c = CellUpdate::Single { x: 4, y: 0, cell: Cell::new('c').with_fg(Color::Red) };
    let first = UpdateBatcher::new(vec![a, b, c]).optimize();
    let second = UpdateBatcher::new(vec![c, b, a]).optimize();
    assert_eq!(format!("{:?}", first), format!("{:?}", second));
    assert!(matches!(first[0], TerminalCommand::MoveTo(4, 0)));
}

#[test]
fn direct_drawing_clears_then_draws_each_cell() {
    let mut buffer = ScreenBuffer::new(2, 1);
    buffer.set_cell(1, 0, Cell::new('x').with_fg(Color::Red));
    let ops = rxtui::terminal::draw_direct_ops(&buffer);
    assert_eq!(ops.len(), 7);
    assert!(matches!(ops[..4], [TerminalOp::ClearAll, TerminalOp::MoveTo(0, 0), TerminalOp::Print(_), TerminalOp::MoveTo(1, 0)]));
    assert!(matches!(&ops[2], TerminalOp::Print(s) if s == " "));
    assert!(matches!(ops[4], TerminalOp::SetForeground(Some(Color::Red))));
    assert!(matches!(&ops[5], TerminalOp::Print(s) if s == "x"));
    assert!(matches!(ops[6], TerminalOp::ResetColor));
}

#[test]
fn last_column_updates_must_be_unique() {
    let at = |x: u16, y: u16, c: char| CellUpdate::Single { x, y, cell: Cell::new(c) };
    assert!(last_column_unique_check(&vec![at(65535, 0, 'a'), at(65535, 1, 'b'), at(3, 0, 'c'), at(3, 0, 'd')]));
    assert!(!last_column_unique_check(&vec![at(65535, 2, 'a'), at(1, 2, 'b'), at(65535, 2, 'c')]));
    assert!(last_column_unique_check(&vec![]));
}
