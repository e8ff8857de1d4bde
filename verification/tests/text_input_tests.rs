use rxtui::style::{Border, BorderStyle, Color, Dimension, Overflow, Spacing, TextStyle, TextWrap};
use rxtui::layout::TextSpan;
use rxtui::text_input::{apply_content_style, key_message, InputDisplay, KeyName, TextInput, TextInputEvent, TextInputMsg, TextInputState};

fn state(content: &str, cursor: usize, focused: bool) -> TextInputState {
    TextInputState {
        focused,
        content: content.to_string(),
        cursor_position: cursor,
        selection_start: None,
        selection_end: None,
    }
}

fn changed(events: &[TextInputEvent]) -> Vec<String> {
    events
        .iter()
        .filter_map(|e| match e {
            TextInputEvent::Changed(s) => Some(s.clone()),
            _ => None,
        })
        .collect()
}

#[test]
fn typing_inserts_at_the_cursor_and_reports_the_change() {
    let input = TextInput::new();
    let (s, events) = input.update(state("hllo", 1, true), TextInputMsg::CharInput('e'));
    assert_eq!(s.content, "hello");
    assert_eq!(s.cursor_position, 2);
    assert_eq!(changed(&events), vec!["hello".to_string()]);
}

#[test]
fn typing_while_unfocused_does_nothing() {
    let input = TextInput::new();
    let (s, events) = input.update(state("abc", 1, false), TextInputMsg::CharInput('x'));
    assert_eq!(s.content, "abc");
    assert_eq!(s.cursor_position, 1);
    assert!(events.is_empty());
}

#[test]
fn backspace_undoes_typing() {
    let input = TextInput::new();
    let start = state("wrd", 1, true);
    let (typed, _) = input.update(start.clone(), TextInputMsg::CharInput('o'));
    let (back, events) = input.update(typed, TextInputMsg::Backspace);
    assert_eq!(back.content, start.content);
    assert_eq!(back.cursor_position, start.cursor_position);
    assert_eq!(changed(&events), vec!["wrd".to_string()]);
}

#[test]
fn backspace_at_start_and_delete_at_end_do_nothing() {
    let input = TextInput::new();
    let (s, events) = input.update(state("ab", 0, true), TextInputMsg::Backspace);
    assert_eq!(s.content, "ab");
    assert!(events.is_empty());
    let (s, events) = input.update(state("ab", 2, true), TextInputMsg::Delete);
    assert_eq!(s.content, "ab");
    assert!(events.is_empty());
}

#[test]
fn delete_removes_the_character_under_the_cursor() {
    let input = TextInput::new();
    let (s, events) = input.update(state("abc", 1, true), TextInputMsg::Delete);
    assert_eq!(s.content, "ac");
    assert_eq!(s.cursor_position, 1);
    assert_eq!(changed(&events), vec!["ac".to_string()]);
}

#[test]
fn focus_moves_the_cursor_to_the_end() {
    let input = TextInput::new();
    let (s, events) = input.update(state("h\u{e9}llo", 0, false), TextInputMsg::Focused);
    assert!(s.focused);
    assert_eq!(s.cursor_position, 5);
    assert!(events.is_empty());
}

#[test]
fn blur_clears_the_selection_and_reports_it() {
    let input = TextInput::new();
    let mut st = state("abc", 1, true);
    st.selection_start = Some(0);
    st.selection_end = Some(2);
    let (s, events) = input.update(st, TextInputMsg::Blurred);
    assert!(!s.focused);
    assert_eq!(s.selection_start, None);
    assert_eq!(s.selection_end, None);
    assert!(matches!(events[..], [TextInputEvent::Blurred]));
}

#[test]
fn typing_replaces_the_selection() {
    let input = TextInput::new();
    let mut st = state("hello world", 0, true);
    st.selection_start = Some(11);
    st.selection_end = Some(6);
    let (s, events) = input.update(st, TextInputMsg::CharInput('!'));
    assert_eq!(s.content, "hello !");
    assert_eq!(s.cursor_position, 7);
    assert_eq!(s.selection_start, None);
    assert_eq!(changed(&events), vec!["hello !".to_string()]);
}

#[test]
fn deleting_with_a_selection_removes_only_the_selection() {
    let input = TextInput::new();
    let mut st = state("abcdef", 5, true);
    st.selection_start = Some(1);
    st.selection_end = Some(3);
    let (s, events) = input.update(st, TextInputMsg::DeleteToLineEnd);
    assert_eq!(s.content, "adef");
    assert_eq!(s.cursor_position, 1);
    assert_eq!(changed(&events), vec!["adef".to_string()]);
}

#[test]
fn an_empty_selection_deletes_nothing_and_reports_nothing() {
    let input = TextInput::new();
    let mut st = state("abc", 3, true);
    st.selection_start = Some(2);
    st.selection_end = Some(2);
    let (s, events) = input.update(st, TextInputMsg::Backspace);
    assert_eq!(s.content, "abc");
    assert_eq!(s.cursor_position, 2);
    assert_eq!(s.selection_start, None);
    assert!(events.is_empty());
}

#[test]
fn word_navigation() {
    let input = TextInput::new();
    assert_eq!(input.find_word_boundary_left("hello world", 11), 6);
    assert_eq!(input.find_word_boundary_left("hello world", 6), 0);
    assert_eq!(input.find_word_boundary_left("foo, bar", 5), 0);
    assert_eq!(input.find_word_boundary_left("", 0), 0);
    assert_eq!(input.find_word_boundary_right("hello world", 0), 6);
    assert_eq!(input.find_word_boundary_right("foo, bar", 0), 5);
    assert_eq!(input.find_word_boundary_right("abc", 7), 3);
    let (s, _) = input.update(state("one two three", 13, true), TextInputMsg::CursorWordLeft);
    assert_eq!(s.cursor_position, 8);
    let (s, _) = input.update(state("one two three", 0, true), TextInputMsg::CursorWordRight);
    assert_eq!(s.cursor_position, 4);
}

#[test]
fn delete_word_backward_and_forward() {
    let input = TextInput::new();
    let (s, events) = input.update(state("one two three", 13, true), TextInputMsg::DeleteWordBackward);
    assert_eq!(s.content, "one two ");
    assert_eq!(s.cursor_position, 8);
    assert_eq!(changed(&events), vec!["one two ".to_string()]);
    let (s, events) = input.update(state("one two three", 4, true), TextInputMsg::DeleteWordForward);
    assert_eq!(s.content, "one three");
    assert_eq!(s.cursor_position, 4);
    assert_eq!(changed(&events), vec!["one three".to_string()]);
    let (s, events) = input.update(state("abc", 0, true), TextInputMsg::DeleteWordBackward);
    assert_eq!(s.content, "abc");
    assert!(events.is_empty());
    let (s, events) = input.update(state("abc", 3, true), TextInputMsg::DeleteWordForward);
    assert_eq!(s.content, "abc");
    assert!(events.is_empty());
}

#[test]
fn delete_to_line_start_and_end() {
    let input = TextInput::new();
    let (s, events) = input.update(state("abcdef", 2, true), TextInputMsg::DeleteToLineStart);
    assert_eq!(s.content, "cdef");
    assert_eq!(s.cursor_position, 0);
    assert_eq!(changed(&events), vec!["cdef".to_string()]);
    let (s, events) = input.update(state("abcdef", 2, true), TextInputMsg::DeleteToLineEnd);
    assert_eq!(s.content, "ab");
    assert_eq!(s.cursor_position, 2);
    assert_eq!(changed(&events), vec!["ab".to_string()]);
    let (s, events) = input.update(state("abcdef", 6, true), TextInputMsg::DeleteToLineEnd);
    assert_eq!(s.content, "abcdef");
    assert!(events.is_empty());
    let (_, events) = input.update(state("abcdef", 0, true), TextInputMsg::DeleteToLineStart);
    assert!(events.is_empty());
}

#[test]
fn cursor_moves_stay_within_the_content() {
    let input = TextInput::new();
    let (s, _) = input.update(state("ab", 0, true), TextInputMsg::CursorLeft);
    assert_eq!(s.cursor_position, 0);
    let (s, _) = input.update(state("ab", 2, true), TextInputMsg::CursorRight);
    assert_eq!(s.cursor_position, 2);
    let (s, _) = input.update(state("ab", 1, true), TextInputMsg::CursorHome);
    assert_eq!(s.cursor_position, 0);
    let (s, _) = input.update(state("ab", 0, true), TextInputMsg::CursorEnd);
    assert_eq!(s.cursor_position, 2);
}

#[test]
fn submit_reports_and_optionally_clears() {
    let input = TextInput::new();
    let (s, events) = input.update(state("query", 5, true), TextInputMsg::Submit);
    assert_eq!(s.content, "query");
    assert!(matches!(events[..], [TextInputEvent::Submitted]));
    let clearing = TextInput::new().clear_on_submit(true);
    let (s, events) = clearing.update(state("query", 5, false), TextInputMsg::Submit);
    assert_eq!(s.content, "");
    assert_eq!(s.cursor_position, 0);
    assert!(matches!(events[..], [TextInputEvent::Submitted, TextInputEvent::Changed(ref c)] if c.is_empty()));
}

#[test]
fn clear_empties_even_when_unfocused() {
    let input = TextInput::new();
    let (s, events) = input.update(state("abc", 2, false), TextInputMsg::Clear);
    assert_eq!(s.content, "");
    assert_eq!(s.cursor_position, 0);
    assert_eq!(changed(&events), vec![String::new()]);
    let (_, events) = input.update(state("", 0, true), TextInputMsg::Clear);
    assert!(events.is_empty());
}

#[test]
fn selection_and_clipboard_messages_change_nothing() {
    let input = TextInput::new();
    for msg in [
        TextInputMsg::SelectAll,
        TextInputMsg::SelectLeft,
        TextInputMsg::Copy,
        TextInputMsg::Paste("x".to_string()),
    ] {
        let (s, events) = input.update(state("abc", 1, true), msg);
        assert_eq!(s.content, "abc");
        assert_eq!(s.cursor_position, 1);
        assert!(events.is_empty());
    }
}

#[test]
fn default_input_styles() {
    let input = TextInput::new();
    let base = input.styles.base.unwrap();
    assert_eq!(base.padding, Some(Spacing::horizontal(1)));
    assert_eq!(base.width, Some(Dimension::Fixed(30)));
    assert_eq!(base.height, Some(Dimension::Fixed(3)));
    assert_eq!(base.border, Some(Border::new(Color::Cyan)));
    assert_eq!(base.overflow, Some(Overflow::Hidden));
    assert_eq!(input.placeholder_style.unwrap().color, Some(Color::BrightBlack));
    assert_eq!(input.placeholder_style.unwrap().italic, Some(true));
    assert_eq!(input.content_style.unwrap().color, Some(Color::White));
    assert_eq!(input.cursor_style.unwrap().background, Some(Color::White));
    assert_eq!(input.selection_style.unwrap().background, Some(Color::Blue));
    assert!(input.focusable);
    assert_eq!(input.wrap, Some(TextWrap::WordBreak));
    assert!(!input.password_mode);
    assert!(!input.clear_on_submit);
}

#[test]
fn builders_start_from_the_defaults() {
    let input = TextInput::new()
        .border(Color::Yellow)
        .width(50)
        .focus_border(Color::Green)
        .focus_background(Color::Rgb(0, 50, 0))
        .placeholder_color(Color::Blue)
        .placeholder_italic(false);
    let base = input.styles.base.unwrap();
    assert_eq!(base.border.unwrap().color, Color::Yellow);
    assert_eq!(base.width, Some(Dimension::Fixed(50)));
    assert_eq!(base.height, Some(Dimension::Fixed(3)));
    let focus = input.styles.focus.unwrap();
    assert_eq!(focus.border, Some(Border::new(Color::Green)));
    assert_eq!(focus.background, Some(Color::Rgb(0, 50, 0)));
    let p = input.placeholder_style.unwrap();
    assert_eq!(p.color, Some(Color::Blue));
    assert_eq!(p.italic, Some(false));
    let styled = TextInput::new().border_style(BorderStyle::Double, Color::Red);
    assert_eq!(styled.styles.base.unwrap().border.unwrap().style, BorderStyle::Double);
}

#[test]
fn cursor_color_picks_a_contrasting_text_color() {
    let dark = TextInput::new().cursor_color(Color::Blue).cursor_style.unwrap();
    assert_eq!(dark.background, Some(Color::Blue));
    assert_eq!(dark.color, Some(Color::White));
    let light = TextInput::new().cursor_color(Color::Yellow).cursor_style.unwrap();
    assert_eq!(light.color, Some(Color::Black));
}

#[test]
fn display_shows_placeholder_content_or_cursor() {
    let input = TextInput::new().placeholder("Enter your name...".to_string());
    match input.view(&state("", 0, false)) {
        InputDisplay::Placeholder { text, style } => {
            assert_eq!(text, "Enter your name...");
            assert_eq!(style.color, Some(Color::BrightBlack));
        },
        _ => panic!("expected the placeholder"),
    }
    match input.view(&state("bob", 3, false)) {
        InputDisplay::Content { text, style } => {
            assert_eq!(text, "bob");
            assert_eq!(style.color, Some(Color::White));
            assert_eq!(style.wrap, Some(TextWrap::WordBreak));
        },
        _ => panic!("expected the content"),
    }
    match input.view(&state("bob", 1, true)) {
        InputDisplay::WithCursor { text, cursor, .. } => {
            assert_eq!(text, "bob");
            assert_eq!(cursor, 1);
        },
        _ => panic!("expected the cursor"),
    }
    match input.view(&state("", 0, true)) {
        InputDisplay::WithCursor { text, cursor, wrap, content_style, .. } => {
            assert_eq!(text, "");
            assert_eq!(cursor, 0);
            assert_eq!(wrap, Some(TextWrap::WordBreak));
            assert_eq!(content_style.unwrap().color, Some(Color::White));
        },
        _ => panic!("expected the cursor alone"),
    }
    assert!(matches!(TextInput::new().view(&state("", 0, false)), InputDisplay::Blank));
}

#[test]
fn password_mode_masks_each_character() {
    let input = TextInput::new().password(true);
    match input.view(&state("s\u{e9}cret", 2, true)) {
        InputDisplay::WithCursor { text, .. } => assert_eq!(text, "\u{2022}".repeat(6)),
        _ => panic!("expected masked content"),
    }
}

#[test]
fn content_style_over_default() {
    let input = TextInput::new().content_style(TextStyle::default().bold(true));
    match input.view(&state("x", 1, false)) {
        InputDisplay::Content { style, .. } => {
            assert_eq!(style.bold, Some(true));
            assert_eq!(style.color, Some(Color::White));
        },
        _ => panic!("expected the content"),
    }
}

#[test]
fn every_message_keeps_the_cursor_inside_the_content() {
    let input = TextInput::new().clear_on_submit(true);
    let msgs = vec![
        TextInputMsg::Focused,
        TextInputMsg::CharInput('a'),
        TextInputMsg::CharInput(' '),
        TextInputMsg::CharInput('b'),
        TextInputMsg::CursorWordLeft,
        TextInputMsg::CursorLeft,
        TextInputMsg::Delete,
        TextInputMsg::CursorEnd,
        TextInputMsg::DeleteWordBackward,
        TextInputMsg::CursorHome,
        TextInputMsg::DeleteToLineEnd,
        TextInputMsg::CharInput('z'),
        TextInputMsg::CursorWordRight,
        TextInputMsg::Backspace,
        TextInputMsg::Backspace,
        TextInputMsg::Submit,
        TextInputMsg::Blurred,
    ];
    let mut st = TextInputState::default();
    for msg in msgs {
        assert!(rxtui::text_input::can_update(&st, &msg));
        st = input.update(st, msg).0;
        assert!(st.cursor_position <= st.content.chars().count());
    }
    assert!(!st.focused);
    assert_eq!(st.content, "");
}

#[test]
fn can_update_refuses_what_would_read_past_the_end() {
    let mut st = state("ab", 5, true);
    assert!(!rxtui::text_input::can_update(&st, &TextInputMsg::Backspace));
    assert!(!rxtui::text_input::can_update(&st, &TextInputMsg::CursorWordLeft));
    assert!(rxtui::text_input::can_update(&st, &TextInputMsg::Delete));
    st.cursor_position = 1;
    st.selection_start = Some(0);
    st.selection_end = Some(9);
    assert!(!rxtui::text_input::can_update(&st, &TextInputMsg::CharInput('x')));
    st.focused = false;
    assert!(rxtui::text_input::can_update(&st, &TextInputMsg::CharInput('x')));
}

fn bound(key: KeyName, ctrl: bool, alt: bool, meta: bool) -> Option<String> {
    key_message(key, ctrl, alt, meta).map(|m| format!("{:?}", m))
}

#[test]
fn plain_keys_edit_and_move() {
    assert_eq!(bound(KeyName::Backspace, false, false, false), Some("Backspace".to_string()));
    assert_eq!(bound(KeyName::Delete, false, false, false), Some("Delete".to_string()));
    assert_eq!(bound(KeyName::Left, false, false, false), Some("CursorLeft".to_string()));
    assert_eq!(bound(KeyName::Right, false, false, false), Some("CursorRight".to_string()));
    assert_eq!(bound(KeyName::Home, false, false, false), Some("CursorHome".to_string()));
    assert_eq!(bound(KeyName::End, false, false, false), Some("CursorEnd".to_string()));
    assert_eq!(bound(KeyName::Enter, false, false, false), Some("Submit".to_string()));
    assert_eq!(bound(KeyName::Char('x'), false, false, false), Some("CharInput('x')".to_string()));
    assert_eq!(bound(KeyName::Up, false, false, false), None);
    assert_eq!(bound(KeyName::Tab, false, false, false), None);
}

#[test]
fn control_keys_give_line_commands() {
    assert_eq!(bound(KeyName::Char('a'), true, false, false), Some("CursorHome".to_string()));
    assert_eq!(bound(KeyName::Char('e'), true, false, false), Some("CursorEnd".to_string()));
    assert_eq!(bound(KeyName::Char('b'), true, false, false), Some("CursorLeft".to_string()));
    assert_eq!(bound(KeyName::Char('f'), true, false, false), Some("CursorRight".to_string()));
    assert_eq!(bound(KeyName::Char('w'), true, false, false), Some("DeleteWordBackward".to_string()));
    assert_eq!(bound(KeyName::Char('u'), true, false, false), Some("DeleteToLineStart".to_string()));
    assert_eq!(bound(KeyName::Char('k'), true, false, false), Some("DeleteToLineEnd".to_string()));
    assert_eq!(bound(KeyName::Char('x'), true, false, false), None);
}

#[test]
fn alt_and_command_keys_give_word_commands() {
    assert_eq!(bound(KeyName::Char('b'), false, true, false), Some("CursorWordLeft".to_string()));
    assert_eq!(bound(KeyName::Char('f'), false, true, false), Some("CursorWordRight".to_string()));
    assert_eq!(bound(KeyName::Char('d'), false, true, false), Some("DeleteWordForward".to_string()));
    assert_eq!(bound(KeyName::Backspace, false, true, false), Some("DeleteWordBackward".to_string()));
    assert_eq!(bound(KeyName::Delete, false, true, false), Some("DeleteWordForward".to_string()));
    assert_eq!(bound(KeyName::Backspace, false, false, true), Some("DeleteToLineStart".to_string()));
    assert_eq!(bound(KeyName::Char('a'), false, false, true), None);
    assert_eq!(bound(KeyName::Char('w'), true, true, false), None);
}

#[test]
fn content_style_goes_to_spans_without_a_background() {
    let mut cursor = TextStyle::default();
    cursor.background = Some(Color::White);
    let mut tinted = TextStyle::default();
    tinted.color = Some(Color::Blue);
    let mut spans = vec![
        TextSpan { content: "ab".to_string(), style: None, is_cursor: false },
        TextSpan { content: "c".to_string(), style: Some(cursor), is_cursor: true },
        TextSpan { content: "d".to_string(), style: Some(tinted), is_cursor: false },
    ];
    let mut content = TextStyle::default();
    content.color = Some(Color::Green);
    apply_content_style(&mut spans, content);
    assert_eq!(spans[0].style, Some(content));
    assert_eq!(spans[1].style, Some(cursor));
    assert_eq!(spans[2].style, Some(content));
    assert_eq!(spans[0].content, "ab");
    assert!(spans[1].is_cursor);
}
