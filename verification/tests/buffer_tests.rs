use rxtui::buffer::{Cell, CellStyle, CellUpdate, DoubleBuffer, ScreenBuffer};
use rxtui::style::{Color, TextStyle};

#[test]
fn test_double_buffer_diff_empty() {
    let db = DoubleBuffer::new(10, 5);
    let updates = db.diff();
    assert!(updates.is_empty());
}

#[test]
fn test_double_buffer_diff_single_change() {
    let mut db = DoubleBuffer::new(10, 5);

    db.back_buffer_mut().set_cell(2, 1, Cell::new('A'));
    db.swap();

    db.back_buffer_mut().set_cell(2, 1, Cell::new('A'));

    db.back_buffer_mut().set_cell(2, 1, Cell::new('H').with_fg(Color::Red));

    let updates = db.diff();
    assert_eq!(updates.len(), 1);

    db.swap();

    db.back_buffer_mut().set_cell(2, 1, Cell::new('H').with_fg(Color::Red));

    let updates = db.diff();
    assert_eq!(updates.len(), 0);
}

#[test]
fn test_screen_buffer_write_str() {
    let mut buffer = ScreenBuffer::new(20, 5);
    buffer.write_str(2, 1, "Hello", Some(Color::Green), Some(Color::Black));

    assert_eq!(buffer.get_cell(2, 1).unwrap().char, 'H');
    assert_eq!(buffer.get_cell(3, 1).unwrap().char, 'e');
    assert_eq!(buffer.get_cell(6, 1).unwrap().char, 'o');
    assert_eq!(buffer.get_cell(2, 1).unwrap().fg, Some(Color::Green));
    assert_eq!(buffer.get_cell(2, 1).unwrap().bg, Some(Color::Black));
}

#[test]
fn test_no_flicker_scenario() {
    let mut db = DoubleBuffer::new(20, 5);

    for i in 0..11 {
        db.back_buffer_mut().set_cell(i, 0, Cell::new(' ').with_bg(Color::Blue));
    }
    db.back_buffer_mut().write_str(0, 0, "Hello World", Some(Color::White), Some(Color::Blue));
    let updates1 = db.diff();
    assert_eq!(updates1.len(), 11);
    db.swap();

    db.clear_back();

    for i in 0..12 {
        db.back_buffer_mut().set_cell(i, 0, Cell::new(' ').with_bg(Color::Blue));
    }
    db.back_buffer_mut().write_str(0, 0, "Hello Rust!", Some(Color::White), Some(Color::Blue));

    let updates2 = db.diff();

    let mut actual_changes = 0;
    for update in &updates2 {
        match update {
            CellUpdate::Single { .. } => actual_changes += 1,
        }
    }

    assert!(actual_changes == 6);
}

#[test]
fn diff_reports_changes_in_row_major_order() {
    let mut db = DoubleBuffer::new(4, 3);
    db.back_buffer_mut().set_cell(3, 0, Cell::new('a'));
    db.back_buffer_mut().set_cell(0, 2, Cell::new('c'));
    db.back_buffer_mut().set_cell(1, 1, Cell::new('b'));
    let updates = db.diff();
    assert_eq!(
        updates,
        vec![
            CellUpdate::Single { x: 3, y: 0, cell: Cell::new('a') },
            CellUpdate::Single { x: 1, y: 1, cell: Cell::new('b') },
            CellUpdate::Single { x: 0, y: 2, cell: Cell::new('c') },
        ]
    );
}

#[test]
fn applying_the_diff_to_the_front_gives_the_back() {
    let mut db = DoubleBuffer::new(5, 2);
    db.back_buffer_mut().write_str(0, 0, "hi", Some(Color::Red), None);
    db.back_buffer_mut().set_cell(4, 1, Cell::new('!').with_bg(Color::Blue));
    let updates = db.diff();
    let mut front = ScreenBuffer::new(5, 2);
    for u in &updates {
        match u {
            CellUpdate::Single { x, y, cell } => front.set_cell(*x, *y, *cell),
        }
    }
    db.swap();
    db.clear_back();
    db.back_buffer_mut().write_str(0, 0, "hi", Some(Color::Red), None);
    db.back_buffer_mut().set_cell(4, 1, Cell::new('!').with_bg(Color::Blue));
    assert!(db.diff().is_empty());
    assert_eq!(front.get_cell(0, 0), db.back_buffer_mut().get_cell(0, 0));
    assert_eq!(front.get_cell(4, 1).copied(), Some(Cell::new('!').with_bg(Color::Blue)));
}

#[test]
fn get_cell_outside_the_buffer_is_none() {
    let buffer = ScreenBuffer::new(3, 2);
    assert!(buffer.get_cell(3, 0).is_none());
    assert!(buffer.get_cell(0, 2).is_none());
    assert_eq!(buffer.get_cell(2, 1).copied(), Some(Cell::empty()));
}

#[test]
fn set_cell_outside_is_ignored() {
    let mut buffer = ScreenBuffer::new(3, 2);
    buffer.set_cell(5, 5, Cell::new('x'));
    for y in 0..2 {
        for x in 0..3 {
            assert_eq!(buffer.get_cell(x, y).copied(), Some(Cell::empty()));
        }
    }
}

#[test]
fn write_str_clips_at_the_right_edge() {
    let mut buffer = ScreenBuffer::new(4, 1);
    buffer.write_str(2, 0, "abc", None, None);
    assert_eq!(buffer.get_cell(2, 0).unwrap().char, 'a');
    assert_eq!(buffer.get_cell(3, 0).unwrap().char, 'b');
}

#[test]
fn resize_keeps_the_overlap_and_blanks_the_rest() {
    let mut buffer = ScreenBuffer::new(2, 2);
    buffer.set_cell(1, 1, Cell::new('z'));
    buffer.resize(3, 1);
    assert_eq!(buffer.dimensions(), (3, 1));
    assert_eq!(buffer.get_cell(1, 0).copied(), Some(Cell::empty()));
    buffer.resize(3, 3);
    assert_eq!(buffer.get_cell(1, 1).copied(), Some(Cell::empty()));
}

#[test]
fn fill_rect_fills_only_the_rectangle() {
    let mut buffer = ScreenBuffer::new(4, 4);
    buffer.fill_rect(1, 1, 2, 2, Cell::new('#'));
    assert_eq!(buffer.get_cell(1, 1).unwrap().char, '#');
    assert_eq!(buffer.get_cell(2, 2).unwrap().char, '#');
    assert_eq!(buffer.get_cell(0, 0).unwrap().char, ' ');
    assert_eq!(buffer.get_cell(3, 3).unwrap().char, ' ');
}

#[test]
fn clear_blanks_every_cell() {
    let mut buffer = ScreenBuffer::new(2, 2);
    buffer.write_str(0, 0, "ab", Some(Color::Red), None);
    buffer.clear();
    assert_eq!(buffer.get_cell(0, 0).copied(), Some(Cell::empty()));
    assert_eq!(buffer.get_cell(1, 0).copied(), Some(Cell::empty()));
}

#[test]
fn write_styled_str_takes_colors_and_attributes() {
    let mut buffer = ScreenBuffer::new(5, 1);
    let style = TextStyle::default().color(Color::Yellow).bold(true).underline(true);
    buffer.write_styled_str(0, 0, "ok", Some(&style));
    let cell = buffer.get_cell(1, 0).copied().unwrap();
    assert_eq!(cell.char, 'k');
    assert_eq!(cell.fg, Some(Color::Yellow));
    assert_eq!(cell.bg, None);
    assert!(cell.style.bold);
    assert!(cell.style.underline);
    assert!(!cell.style.italic);
}

#[test]
fn cell_style_merge_keeps_attributes_of_both() {
    let a = CellStyle { bold: true, ..CellStyle::default() };
    let b = CellStyle { italic: true, ..CellStyle::default() };
    let m = a.merge_with(&b);
    assert!(m.bold && m.italic && !m.underline && !m.strikethrough);
}

#[test]
fn cell_builders_set_their_fields() {
    let style = CellStyle { strikethrough: true, ..CellStyle::default() };
    let c = Cell::new('q').with_fg(Color::Red).with_bg(Color::Blue).with_style(style);
    assert_eq!(c.char, 'q');
    assert_eq!(c.fg, Some(Color::Red));
    assert_eq!(c.bg, Some(Color::Blue));
    assert_eq!(c.style, style);
    assert_eq!(Cell::empty(), Cell::new(' '));
}

#[test]
fn double_buffer_reset_makes_every_cell_differ_until_redrawn() {
    let mut db = DoubleBuffer::new(2, 1);
    db.back_buffer_mut().write_str(0, 0, "ab", None, None);
    db.swap();
    db.resize(3, 1);
    db.reset();
    db.clear_back();
    assert_eq!(db.back_buffer_mut().dimensions(), (3, 1));
    assert!(db.diff().is_empty());
}

#[test]
fn wide_characters_take_two_columns() {
    let mut buffer = ScreenBuffer::new(5, 1);
    buffer.write_str(0, 0, "\u{4e2d}a", Some(Color::Red), None);
    assert_eq!(buffer.get_cell(0, 0).unwrap().char, '\u{4e2d}');
    assert_eq!(buffer.get_cell(1, 0).unwrap().char, ' ');
    assert_eq!(buffer.get_cell(1, 0).unwrap().fg, Some(Color::Red));
    assert_eq!(buffer.get_cell(2, 0).unwrap().char, 'a');
}

#[test]
fn control_characters_take_no_column() {
    let mut buffer = ScreenBuffer::new(5, 1);
    buffer.write_str(0, 0, "a\u{7}b", None, None);
    assert_eq!(buffer.get_cell(0, 0).unwrap().char, 'a');
    assert_eq!(buffer.get_cell(1, 0).unwrap().char, 'b');
    assert_eq!(buffer.get_cell(2, 0).unwrap().char, ' ');
}

#[test]
fn wide_character_that_does_not_fit_stops_the_write() {
    let mut buffer = ScreenBuffer::new(3, 1);
    buffer.write_str(1, 0, "a\u{4e2d}", None, None);
    assert_eq!(buffer.get_cell(1, 0).unwrap().char, 'a');
    assert_eq!(buffer.get_cell(2, 0).unwrap().char, ' ');
}

#[test]
fn char_widths() {
    assert_eq!(rxtui::unicode::char_width('a'), 1);
    assert_eq!(rxtui::unicode::char_width('\u{4e2d}'), 2);
    assert_eq!(rxtui::unicode::char_width('\n'), 0);
}

#[test]
fn write_fits_stops_at_the_last_column() {
    let narrow = ScreenBuffer::new(10, 1);
    assert!(narrow.write_fits(0, "hello"));
    assert!(narrow.write_fits(8, "\u{65e5}\u{672c}\u{8a9e}"));
    let wide = ScreenBuffer::new(65535, 1);
    assert!(wide.write_fits(65534, "a"));
    assert!(!wide.write_fits(65534, "\u{65e5}"));
    assert!(!wide.write_fits(65535, "a"));
}

#[test]
fn styled_and_plain_writes_touch_the_same_cells() {
    let mut plain = ScreenBuffer::new(8, 1);
    let mut styled = ScreenBuffer::new(8, 1);
    let mut ts = TextStyle::default();
    ts.color = Some(Color::Red);
    ts.bold = Some(true);
    plain.write_str(1, 0, "ab", Some(Color::Red), None);
    styled.write_styled_str(1, 0, "ab", Some(&ts));
    for x in 0..8u16 {
        let p = plain.get_cell(x, 0).unwrap();
        let s = styled.get_cell(x, 0).unwrap();
        assert_eq!(p.char, s.char);
        assert_eq!(p.fg, s.fg);
        assert_eq!(p.bg, s.bg);
    }
    assert!(styled.get_cell(1, 0).unwrap().style.bold);
    assert!(!plain.get_cell(1, 0).unwrap().style.bold);
    assert!(!styled.get_cell(0, 0).unwrap().style.bold);
}

#[test]
fn one_changed_cell_gives_one_update() {
    let mut db = DoubleBuffer::new(6, 3);
    db.back_buffer_mut().set_cell(4, 2, Cell::new('Z'));
    let updates = db.diff();
    assert_eq!(updates.len(), 1);
    assert_eq!(updates[0], CellUpdate::Single { x: 4, y: 2, cell: Cell::new('Z') });
}

#[test]
fn try_write_str_writes_only_what_fits() {
    let mut wide = ScreenBuffer::new(65535, 1);
    assert!(wide.try_write_str(65533, 0, "ab", None, None));
    assert_eq!(wide.get_cell(65533, 0).unwrap().char, 'a');
    assert!(!wide.try_write_str(65534, 0, "\u{65e5}", None, None));
    assert_eq!(wide.get_cell(65534, 0).unwrap().char, 'b');
}
