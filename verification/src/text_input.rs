//! The text input component: its editing state machine and its styling.
use vstd::prelude::*;
use crate::unicode::{chars_of, string_from_chars, push_char, is_whitespace, is_ascii_punctuation, is_white_space, is_ascii_punct};
use crate::style::{
    Border, BorderEdges, BorderStyle, Color, Dimension, Overflow, Position, Spacing, Style, TextStyle, TextWrap,
    unset_style, unset_text_style, text_style_merge,
};
use crate::div::DivStyles;
use crate::layout::TextSpan;

verus! {

/// Messages the text input reacts to.
#[derive(Debug, Clone)]
pub enum TextInputMsg {
    /// Gained focus
    Focused,
    /// Lost focus
    Blurred,
    /// A character was typed
    CharInput(char),
    /// Backspace key pressed
    Backspace,
    /// Delete key pressed
    Delete,
    /// Delete the word before the cursor (Ctrl+W, Alt+Backspace)
    DeleteWordBackward,
    /// Delete the word after the cursor (Alt+D, Alt+Delete)
    DeleteWordForward,
    /// Delete from the line start to the cursor (Ctrl+U, Command+Backspace)
    DeleteToLineStart,
    /// Delete from the cursor to the line end (Ctrl+K)
    DeleteToLineEnd,
    /// Cursor one left (Left, Ctrl+B)
    CursorLeft,
    /// Cursor one right (Right, Ctrl+F)
    CursorRight,
    /// Cursor to the start (Home, Ctrl+A)
    CursorHome,
    /// Cursor to the end (End, Ctrl+E)
    CursorEnd,
    /// Cursor to the start of the previous word (Alt+B)
    CursorWordLeft,
    /// Cursor to the start of the next word (Alt+F)
    CursorWordRight,
    /// Selection operations
    SelectLeft,
    SelectRight,
    SelectAll,
    SelectWord,
    ClearSelection,
    /// Edit operations
    Cut,
    Copy,
    Paste(String),
    /// Submit (Enter key)
    Submit,
    /// Clear the content
    Clear,
}

/// State of a text input.
#[derive(Debug, Clone)]
pub struct TextInputState {
    /// Whether the input is focused
    pub focused: bool,
    /// The content
    pub content: String,
    /// Cursor position, in characters
    pub cursor_position: usize,
    /// Start of the selection
    pub selection_start: Option<usize>,
    /// End of the selection
    pub selection_end: Option<usize>,
}

/// Abstract form of a text input's state.
pub ghost struct InputView {
    pub focused: bool,
    pub content: Seq<char>,
    pub cursor: int,
    pub selection_start: Option<usize>,
    pub selection_end: Option<usize>,
}

impl View for TextInputState {
    type V = InputView;

    open spec fn view(&self) -> InputView {
        InputView {
            focused: self.focused,
            content: self.content@,
            cursor: self.cursor_position as int,
            selection_start: self.selection_start,
            selection_end: self.selection_end,
        }
    }
}

impl Default for TextInputState {
    fn default() -> (s: Self)
        ensures
            s@ == (InputView { focused: false, content: Seq::empty(), cursor: 0, selection_start: None, selection_end: None }),
    {
        TextInputState { focused: false, content: String::new(), cursor_position: 0, selection_start: None, selection_end: None }
    }
}

/// A character that is neither white space nor ASCII punctuation.
pub open spec fn is_word_char(c: char) -> bool {
    !is_white_space(c) && !is_ascii_punct(c)
}

/// From `p`, step left while the character at `p` is white space.
pub open spec fn skip_space_back(cs: Seq<char>, p: int) -> int
    decreases p,
{
    if p > 0 && is_white_space(cs[p]) {
        skip_space_back(cs, p - 1)
    } else {
        p
    }
}

/// From `p`, step left while the character before `p` is a word character.
pub open spec fn skip_word_back(cs: Seq<char>, p: int) -> int
    decreases p,
{
    if p > 0 && is_word_char(cs[p - 1]) {
        skip_word_back(cs, p - 1)
    } else {
        p
    }
}

/// The start of the word left of `pos`: skip the white space just before
/// it, then the word characters before that.
pub open spec fn word_left(cs: Seq<char>, pos: int) -> int {
    if pos == 0 {
        0
    } else {
        skip_word_back(cs, skip_space_back(cs, pos - 1))
    }
}

/// From `p`, step right over word characters.
pub open spec fn skip_word_fwd(cs: Seq<char>, p: int) -> int
    decreases cs.len() - p,
{
    if 0 <= p < cs.len() && is_word_char(cs[p]) {
        skip_word_fwd(cs, p + 1)
    } else {
        p
    }
}

/// From `p`, step right over white space and punctuation.
pub open spec fn skip_sep_fwd(cs: Seq<char>, p: int) -> int
    decreases cs.len() - p,
{
    if 0 <= p < cs.len() && !is_word_char(cs[p]) {
        skip_sep_fwd(cs, p + 1)
    } else {
        p
    }
}

/// The start of the next word right of `pos`: skip the rest of the current
/// word, then the separators after it; the end of the text from there on.
pub open spec fn word_right(cs: Seq<char>, pos: int) -> int {
    if pos >= cs.len() {
        cs.len() as int
    } else {
        skip_sep_fwd(cs, skip_word_fwd(cs, pos))
    }
}

/// `cs` without the characters in `[a, b)`.
pub open spec fn remove_range(cs: Seq<char>, a: int, b: int) -> Seq<char> {
    cs.subrange(0, a) + cs.subrange(b, cs.len() as int)
}

/// A key of the keyboard, as the input's bindings name it.
#[derive(Debug, Clone, Copy, PartialEq, Eq, Structural)]
pub enum KeyName {
    /// A printable character
    Char(char),
    Backspace,
    Delete,
    Enter,
    Left,
    Right,
    Up,
    Down,
    Home,
    End,
    PageUp,
    PageDown,
    Tab,
    BackTab,
    Esc,
}

/// The message a focused input binds to a key pressed with the given
/// modifiers, if any.  Plain keys edit and move; Ctrl and Alt give the
/// Emacs-style line and word commands; Meta (Command) with Backspace
/// deletes to the start of the line.  A binding matches its modifiers
/// exactly: a key with other modifiers held is not bound.
pub open spec fn key_binding(key: KeyName, ctrl: bool, alt: bool, meta: bool) -> Option<TextInputMsg> {
    if !ctrl && !alt && !meta {
        match key {
            KeyName::Char(c) => Some(TextInputMsg::CharInput(c)),
            KeyName::Backspace => Some(TextInputMsg::Backspace),
            KeyName::Delete => Some(TextInputMsg::Delete),
            KeyName::Left => Some(TextInputMsg::CursorLeft),
            KeyName::Right => Some(TextInputMsg::CursorRight),
            KeyName::Home => Some(TextInputMsg::CursorHome),
            KeyName::End => Some(TextInputMsg::CursorEnd),
            KeyName::Enter => Some(TextInputMsg::Submit),
            _ => None,
        }
    } else if ctrl && !alt && !meta {
        match key {
            KeyName::Char('a') => Some(TextInputMsg::CursorHome),
            KeyName::Char('e') => Some(TextInputMsg::CursorEnd),
            KeyName::Char('b') => Some(TextInputMsg::CursorLeft),
            KeyName::Char('f') => Some(TextInputMsg::CursorRight),
            KeyName::Char('w') => Some(TextInputMsg::DeleteWordBackward),
            KeyName::Char('u') => Some(TextInputMsg::DeleteToLineStart),
            KeyName::Char('k') => Some(TextInputMsg::DeleteToLineEnd),
            _ => None,
        }
    } else if alt && !ctrl && !meta {
        match key {
            KeyName::Char('b') => Some(TextInputMsg::CursorWordLeft),
            KeyName::Char('f') => Some(TextInputMsg::CursorWordRight),
            KeyName::Char('d') => Some(TextInputMsg::DeleteWordForward),
            KeyName::Backspace => Some(TextInputMsg::DeleteWordBackward),
            KeyName::Delete => Some(TextInputMsg::DeleteWordForward),
            _ => None,
        }
    } else if meta && !ctrl && !alt {
        match key {
            KeyName::Backspace => Some(TextInputMsg::DeleteToLineStart),
            _ => None,
        }
    } else {
        None
    }
}

/// The message bound to a key with the given modifiers held.
pub fn key_message(key: KeyName, ctrl: bool, alt: bool, meta: bool) -> (m: Option<TextInputMsg>)
    ensures
        m == key_binding(key, ctrl, alt, meta),
{
    if !ctrl && !alt && !meta {
        match key {
            KeyName::Char(c) => Some(TextInputMsg::CharInput(c)),
            KeyName::Backspace => Some(TextInputMsg::Backspace),
            KeyName::Delete => Some(TextInputMsg::Delete),
            KeyName::Left => Some(TextInputMsg::CursorLeft),
            KeyName::Right => Some(TextInputMsg::CursorRight),
            KeyName::Home => Some(TextInputMsg::CursorHome),
            KeyName::End => Some(TextInputMsg::CursorEnd),
            KeyName::Enter => Some(TextInputMsg::Submit),
            _ => None,
        }
    } else if ctrl && !alt && !meta {
        match key {
            KeyName::Char('a') => Some(TextInputMsg::CursorHome),
            KeyName::Char('e') => Some(TextInputMsg::CursorEnd),
            KeyName::Char('b') => Some(TextInputMsg::CursorLeft),
            KeyName::Char('f') => Some(TextInputMsg::CursorRight),
            KeyName::Char('w') => Some(TextInputMsg::DeleteWordBackward),
            KeyName::Char('u') => Some(TextInputMsg::DeleteToLineStart),
            KeyName::Char('k') => Some(TextInputMsg::DeleteToLineEnd),
            _ => None,
        }
    } else if alt && !ctrl && !meta {
        match key {
            KeyName::Char('b') => Some(TextInputMsg::CursorWordLeft),
            KeyName::Char('f') => Some(TextInputMsg::CursorWordRight),
            KeyName::Char('d') => Some(TextInputMsg::DeleteWordForward),
            KeyName::Backspace => Some(TextInputMsg::DeleteWordBackward),
            KeyName::Delete => Some(TextInputMsg::DeleteWordForward),
            _ => None,
        }
    } else if meta && !ctrl && !alt {
        match key {
            KeyName::Backspace => Some(TextInputMsg::DeleteToLineStart),
            _ => None,
        }
    } else {
        None
    }
}

/// What a text input reports to its owner after a message.
#[derive(Debug, Clone)]
pub enum TextInputEvent {
    /// The content changed; carries the new content
    Changed(String),
    /// Enter was pressed
    Submitted,
    /// The input lost focus
    Blurred,
}

/// Abstract form of a text input event.
pub ghost enum InputEvent {
    Changed(Seq<char>),
    Submitted,
    Blurred,
}

impl View for TextInputEvent {
    type V = InputEvent;

    open spec fn view(&self) -> InputEvent {
        match self {
            TextInputEvent::Changed(s) => InputEvent::Changed(s@),
            TextInputEvent::Submitted => InputEvent::Submitted,
            TextInputEvent::Blurred => InputEvent::Blurred,
        }
    }
}

/// The views of a list of events.
pub open spec fn events_view(es: Seq<TextInputEvent>) -> Seq<InputEvent> {
    es.map_values(|e: TextInputEvent| e@)
}

/// Both ends of the selection lie within the content, when both are set.
pub open spec fn selection_fits(s: InputView) -> bool {
    match (s.selection_start, s.selection_end) {
        (Some(a), Some(b)) => a <= s.content.len() && b <= s.content.len(),
        _ => true,
    }
}

/// A state every message can be applied to: the cursor and the selection
/// lie within the content.
pub open spec fn input_wf(s: InputView) -> bool {
    &&& 0 <= s.cursor <= s.content.len()
    &&& selection_fits(s)
}

/// The state after deleting the selected text: when both ends are set, the
/// characters between them go, the cursor moves to the lower end and the
/// selection is cleared; otherwise nothing changes.
pub open spec fn without_selection(s: InputView) -> InputView {
    match (s.selection_start, s.selection_end) {
        (Some(a), Some(b)) => {
            let lo: int = if a < b { a as int } else { b as int };
            let hi: int = if a < b { b as int } else { a as int };
            InputView {
                content: remove_range(s.content, lo, hi),
                cursor: lo,
                selection_start: None,
                selection_end: None,
                ..s
            }
        },
        _ => s,
    }
}

/// `s` with the selection cleared.
pub open spec fn unselected(s: InputView) -> InputView {
    InputView { selection_start: None, selection_end: None, ..s }
}

/// `s` with empty content, the cursor at 0 and no selection.
pub open spec fn cleared(s: InputView) -> InputView {
    InputView { content: Seq::empty(), cursor: 0, selection_start: None, selection_end: None, ..s }
}

/// Whether a focused input can take `msg` without reading past the end
/// of its content.
pub open spec fn update_ok(s: InputView, msg: TextInputMsg) -> bool {
    s.focused ==> match msg {
        TextInputMsg::CharInput(_) | TextInputMsg::Delete | TextInputMsg::DeleteWordForward
        | TextInputMsg::DeleteToLineEnd => s.selection_start is Some ==> selection_fits(s),
        TextInputMsg::Backspace | TextInputMsg::DeleteWordBackward | TextInputMsg::DeleteToLineStart => {
            if s.selection_start is Some {
                selection_fits(s)
            } else {
                s.cursor > 0 ==> s.cursor <= s.content.len()
            }
        },
        TextInputMsg::CursorWordLeft => s.cursor >= 2 ==> s.cursor <= s.content.len(),
        _ => true,
    }
}

/// Typing `ch` into a focused input.
pub open spec fn char_step(s: InputView, ch: char) -> InputView {
    let t = if s.selection_start is Some { without_selection(s) } else { s };
    if t.cursor <= t.content.len() {
        InputView { content: t.content.insert(t.cursor, ch), cursor: t.cursor + 1, ..t }
    } else {
        t
    }
}

/// A deleting message on a focused input without a selection.
pub open spec fn delete_step(s: InputView, msg: TextInputMsg) -> InputView {
    let len = s.content.len() as int;
    match msg {
        TextInputMsg::Backspace => if s.cursor > 0 {
            InputView { content: s.content.remove(s.cursor - 1), cursor: s.cursor - 1, ..s }
        } else {
            s
        },
        TextInputMsg::Delete => if s.cursor < len {
            InputView { content: s.content.remove(s.cursor), ..s }
        } else {
            s
        },
        TextInputMsg::DeleteWordBackward => if s.cursor == 0 {
            s
        } else {
            let p = word_left(s.content, s.cursor);
            InputView { content: remove_range(s.content, p, s.cursor), cursor: p, ..s }
        },
        TextInputMsg::DeleteWordForward => if s.cursor < len {
            InputView { content: remove_range(s.content, s.cursor, word_right(s.content, s.cursor)), ..s }
        } else {
            s
        },
        TextInputMsg::DeleteToLineStart => if s.cursor != 0 {
            InputView { content: remove_range(s.content, 0, s.cursor), cursor: 0, ..s }
        } else {
            s
        },
        TextInputMsg::DeleteToLineEnd => if s.cursor < len {
            InputView { content: s.content.take(s.cursor), ..s }
        } else {
            s
        },
        _ => s,
    }
}

/// A cursor movement on a focused input.
pub open spec fn cursor_step(s: InputView, msg: TextInputMsg) -> InputView {
    let len = s.content.len() as int;
    match msg {
        TextInputMsg::CursorLeft => if s.cursor > 0 { unselected(InputView { cursor: s.cursor - 1, ..s }) } else { s },
        TextInputMsg::CursorRight => unselected(InputView { cursor: if s.cursor < len { s.cursor + 1 } else { s.cursor }, ..s }),
        TextInputMsg::CursorHome => unselected(InputView { cursor: 0, ..s }),
        TextInputMsg::CursorEnd => unselected(InputView { cursor: len, ..s }),
        TextInputMsg::CursorWordLeft => unselected(InputView { cursor: word_left(s.content, s.cursor), ..s }),
        TextInputMsg::CursorWordRight => unselected(InputView { cursor: word_right(s.content, s.cursor), ..s }),
        _ => s,
    }
}

/// Whether a message deletes text (and so deletes the selection instead,
/// when one is started).
pub open spec fn is_deletion(msg: TextInputMsg) -> bool {
    msg is Backspace || msg is Delete || msg is DeleteWordBackward || msg is DeleteWordForward
        || msg is DeleteToLineStart || msg is DeleteToLineEnd
}

/// Whether a message moves the cursor.
pub open spec fn is_movement(msg: TextInputMsg) -> bool {
    msg is CursorLeft || msg is CursorRight || msg is CursorHome || msg is CursorEnd
        || msg is CursorWordLeft || msg is CursorWordRight
}

/// The state after a message.  Editing and cursor messages act only while
/// focused; submitting and clearing act always.
pub open spec fn input_next(clear_on_submit: bool, s: InputView, msg: TextInputMsg) -> InputView {
    match msg {
        TextInputMsg::Focused => InputView { focused: true, cursor: s.content.len() as int, ..s },
        TextInputMsg::Blurred => unselected(InputView { focused: false, ..s }),
        TextInputMsg::CharInput(ch) => if s.focused { char_step(s, ch) } else { s },
        TextInputMsg::Submit => if clear_on_submit { cleared(s) } else { s },
        TextInputMsg::Clear => cleared(s),
        _ => if !s.focused {
            s
        } else if is_deletion(msg) {
            if s.selection_start is Some { without_selection(s) } else { delete_step(s, msg) }
        } else if is_movement(msg) {
            cursor_step(s, msg)
        } else {
            s
        },
    }
}

/// The change notice between two states: the new content, when it differs
/// from the old, and nothing otherwise.
pub open spec fn change_notice(before: InputView, after: InputView) -> Seq<InputEvent> {
    if after.content != before.content {
        seq![InputEvent::Changed(after.content)]
    } else {
        Seq::empty()
    }
}

/// The events of a message, in order: loss of focus or submission, then
/// the change notice.
pub open spec fn input_events(clear_on_submit: bool, s: InputView, msg: TextInputMsg) -> Seq<InputEvent> {
    let told = match msg {
        TextInputMsg::Blurred => seq![InputEvent::Blurred],
        TextInputMsg::Submit => seq![InputEvent::Submitted],
        _ => Seq::empty(),
    };
    told + change_notice(s, input_next(clear_on_submit, s, msg))
}

/// The state and the events after a message.
pub open spec fn input_step(clear_on_submit: bool, s: InputView, msg: TextInputMsg) -> (InputView, Seq<InputEvent>) {
    (input_next(clear_on_submit, s, msg), input_events(clear_on_submit, s, msg))
}

/// A single-line text input: its placeholder, its styles and how it
/// behaves on submit.  Keys reach it as messages through `key_message`;
/// the callbacks and extra key handlers of the component are held by
/// whoever runs it, and fed from the events `update` returns.
pub struct TextInput {
    /// Text shown while the content is empty
    pub placeholder: Option<String>,
    /// Style of the placeholder
    pub placeholder_style: Option<TextStyle>,
    /// Style of the content
    pub content_style: Option<TextStyle>,
    /// Style of the character under the cursor
    pub cursor_style: Option<TextStyle>,
    /// Style of selected text
    pub selection_style: Option<TextStyle>,
    /// Container styles: normal, focused, hovered
    pub styles: DivStyles,
    /// Whether the input can take focus
    pub focusable: bool,
    /// How the content wraps
    pub wrap: Option<TextWrap>,
    /// Whether the content is masked
    pub password_mode: bool,
    /// Whether submitting clears the content
    pub clear_on_submit: bool,
}

/// The characters of `cs` without those in `[a, b)`.
fn remove_chars(cs: &Vec<char>, a: usize, b: usize) -> (r: Vec<char>)
    requires
        a <= b <= cs@.len(),
    ensures
        r@ == remove_range(cs@, a as int, b as int),
{
    let mut r: Vec<char> = Vec::new();
    let n = cs.len();
    let mut i: usize = 0;
    while i < a
        invariant
            a <= b <= n,
            n == cs@.len(),
            i <= a,
            r@ == cs@.subrange(0, i as int),
        decreases a - i,
    {
        r.push(cs[i]);
        assert(cs@.subrange(0, i + 1) =~= cs@.subrange(0, i as int).push(cs@[i as int]));
        i = i + 1;
    }
    let mut j: usize = b;
    while j < n
        invariant
            a <= b <= j <= n,
            n == cs@.len(),
            r@ == cs@.subrange(0, a as int) + cs@.subrange(b as int, j as int),
        decreases n - j,
    {
        r.push(cs[j]);
        assert(cs@.subrange(b as int, j + 1) =~= cs@.subrange(b as int, j as int).push(cs@[j as int]));
        assert(r@ =~= cs@.subrange(0, a as int) + cs@.subrange(b as int, j + 1));
        j = j + 1;
    }
    r
}

/// Whether `a` and `b` hold the same characters in the same order.
fn same_chars(a: &Vec<char>, b: &Vec<char>) -> (r: bool)
    ensures
        r == (a@ == b@),
{
    if a.len() != b.len() {
        return false;
    }
    let mut i: usize = 0;
    while i < a.len()
        invariant
            a@.len() == b@.len(),
            i <= a@.len(),
            forall|k: int| 0 <= k < i ==> a@[k] == b@[k],
        decreases a.len() - i,
    {
        if a[i] != b[i] {
            return false;
        }
        i = i + 1;
    }
    assert(a@ =~= b@);
    true
}

impl TextInput {
    /// Deletes the selected text when both ends of the selection are set.
    pub fn delete_selection(&self, state: &mut TextInputState)
        requires
            selection_fits(old(state)@),
        ensures
            final(state)@ == without_selection(old(state)@),
    {
        match (state.selection_start, state.selection_end) {
            (Some(a), Some(b)) => {
                let (start, end) = if a < b { (a, b) } else { (b, a) };
                let chars = chars_of(state.content.as_str());
                let kept = remove_chars(&chars, start, end);
                state.content = string_from_chars(&kept);
                state.cursor_position = start;
                state.selection_start = None;
                state.selection_end = None;
            },
            _ => {},
        }
    }

    /// The start of the word left of `pos` in `text`.
    pub fn find_word_boundary_left(&self, text: &str, pos: usize) -> (r: usize)
        requires
            !(pos >= 2 && pos > text@.len()),
        ensures
            r == word_left(text@, pos as int),
    {
        let chars = chars_of(text);
        if pos == 0 {
            return 0;
        }
        let mut new_pos = pos - 1;
        while new_pos > 0 && is_whitespace(chars[new_pos])
            invariant
                new_pos < pos,
                new_pos < chars@.len() || new_pos == 0,
                chars@ == text@,
                skip_space_back(chars@, new_pos as int) == skip_space_back(chars@, pos - 1),
            decreases new_pos,
        {
            new_pos = new_pos - 1;
        }
        let ghost mid = new_pos;
        while new_pos > 0 && !is_whitespace(chars[new_pos - 1]) && !is_ascii_punctuation(chars[new_pos - 1])
            invariant
                new_pos <= mid,
                mid < chars@.len() || mid == 0,
                chars@ == text@,
                skip_word_back(chars@, new_pos as int) == skip_word_back(chars@, mid as int),
            decreases new_pos,
        {
            new_pos = new_pos - 1;
        }
        new_pos
    }

    /// The start of the next word right of `pos` in `text`.
    pub fn find_word_boundary_right(&self, text: &str, pos: usize) -> (r: usize)
        ensures
            r == word_right(text@, pos as int),
    {
        let chars = chars_of(text);
        let len = chars.len();
        if pos >= len {
            return len;
        }
        let mut new_pos = pos;
        while new_pos < len && !is_whitespace(chars[new_pos]) && !is_ascii_punctuation(chars[new_pos])
            invariant
                len == chars@.len(),
                chars@ == text@,
                pos <= new_pos <= len,
                skip_word_fwd(chars@, new_pos as int) == skip_word_fwd(chars@, pos as int),
            decreases len - new_pos,
        {
            new_pos = new_pos + 1;
        }
        let ghost mid = new_pos;
        while new_pos < len && (is_whitespace(chars[new_pos]) || is_ascii_punctuation(chars[new_pos]))
            invariant
                len == chars@.len(),
                chars@ == text@,
                mid <= new_pos <= len,
                skip_sep_fwd(chars@, new_pos as int) == skip_sep_fwd(chars@, mid as int),
            decreases len - new_pos,
        {
            new_pos = new_pos + 1;
        }
        new_pos
    }

    /// Deletes from the start of the word left of the cursor up to the
    /// cursor, and moves the cursor there.
    pub fn delete_word_backward(&self, state: &mut TextInputState)
        requires
            old(state).cursor_position > 0 ==> old(state).cursor_position <= old(state).content@.len(),
        ensures
            final(state)@ == (if old(state).cursor_position == 0 {
                old(state)@
            } else {
                let p = word_left(old(state).content@, old(state).cursor_position as int);
                InputView {
                    content: remove_range(old(state).content@, p, old(state).cursor_position as int),
                    cursor: p,
                    ..old(state)@
                }
            }),
    {
        if state.cursor_position == 0 {
            return;
        }
        let new_pos = self.find_word_boundary_left(state.content.as_str(), state.cursor_position);
        proof {
            lemma_word_moves_stay_in_text(state.content@, state.cursor_position as int);
        }
        let chars = chars_of(state.content.as_str());
        let kept = remove_chars(&chars, new_pos, state.cursor_position);
        state.content = string_from_chars(&kept);
        state.cursor_position = new_pos;
    }

    /// Deletes from the cursor up to the start of the next word.
    pub fn delete_word_forward(&self, state: &mut TextInputState)
        ensures
            final(state)@ == (if old(state).cursor_position < old(state).content@.len() {
                InputView {
                    content: remove_range(
                        old(state).content@,
                        old(state).cursor_position as int,
                        word_right(old(state).content@, old(state).cursor_position as int),
                    ),
                    ..old(state)@
                }
            } else {
                old(state)@
            }),
    {
        let chars = chars_of(state.content.as_str());
        let char_count = chars.len();
        if state.cursor_position >= char_count {
            return;
        }
        let new_pos = self.find_word_boundary_right(state.content.as_str(), state.cursor_position);
        proof {
            lemma_word_moves_stay_in_text(state.content@, state.cursor_position as int);
        }
        let kept = remove_chars(&chars, state.cursor_position, new_pos);
        state.content = string_from_chars(&kept);
    }

    /// Deletes everything before the cursor and moves the cursor to 0.
    pub fn delete_to_line_start(&self, state: &mut TextInputState)
        requires
            old(state).cursor_position > 0 ==> old(state).cursor_position <= old(state).content@.len(),
        ensures
            final(state)@ == (if old(state).cursor_position == 0 {
                old(state)@
            } else {
                InputView {
                    content: remove_range(old(state).content@, 0, old(state).cursor_position as int),
                    cursor: 0,
                    ..old(state)@
                }
            }),
    {
        if state.cursor_position == 0 {
            return;
        }
        let chars = chars_of(state.content.as_str());
        let kept = remove_chars(&chars, 0, state.cursor_position);
        state.content = string_from_chars(&kept);
        state.cursor_position = 0;
    }

    /// Deletes everything from the cursor on.
    pub fn delete_to_line_end(&self, state: &mut TextInputState)
        ensures
            final(state)@ == (if old(state).cursor_position < old(state).content@.len() {
                InputView { content: old(state).content@.take(old(state).cursor_position as int), ..old(state)@ }
            } else {
                old(state)@
            }),
    {
        let chars = chars_of(state.content.as_str());
        let char_count = chars.len();
        if state.cursor_position >= char_count {
            return;
        }
        let kept = remove_chars(&chars, state.cursor_position, char_count);
        assert(remove_range(chars@, state.cursor_position as int, char_count as int) =~= chars@.take(state.cursor_position as int));
        state.content = string_from_chars(&kept);
    }

    /// Applies one message: returns the new state and what the owner is
    /// told (content changes, submission, loss of focus), in order.
    pub fn update(&self, state: TextInputState, msg: TextInputMsg) -> (r: (TextInputState, Vec<TextInputEvent>))
        requires
            update_ok(state@, msg),
            state.content@.len() < usize::MAX,
        ensures
            r.0@ == input_step(self.clear_on_submit, state@, msg).0,
            events_view(r.1@) == input_step(self.clear_on_submit, state@, msg).1,
    {
        let ghost start = state@;
        let mut state = state;
        let mut events: Vec<TextInputEvent> = Vec::new();
        let before = chars_of(state.content.as_str());
        match msg {
            TextInputMsg::Focused => {
                state.focused = true;
                state.cursor_position = chars_of(state.content.as_str()).len();
            },
            TextInputMsg::Blurred => {
                state.focused = false;
                state.selection_start = None;
                state.selection_end = None;
                events.push(TextInputEvent::Blurred);
            },
            TextInputMsg::CharInput(ch) => {
                if state.focused {
                    if state.selection_start.is_some() {
                        self.delete_selection(&mut state);
                    }
                    let char_pos = state.cursor_position;
                    let mut chars = chars_of(state.content.as_str());
                    if char_pos <= chars.len() {
                        chars.insert(char_pos, ch);
                        state.content = string_from_chars(&chars);
                        state.cursor_position = char_pos + 1;
                    }
                }
            },
            TextInputMsg::Backspace => {
                if state.focused {
                    if state.selection_start.is_some() {
                        self.delete_selection(&mut state);
                    } else if state.cursor_position > 0 {
                        let mut chars = chars_of(state.content.as_str());
                        chars.remove(state.cursor_position - 1);
                        state.content = string_from_chars(&chars);
                        state.cursor_position = state.cursor_position - 1;
                    }
                }
            },
            TextInputMsg::Delete => {
                if state.focused {
                    if state.selection_start.is_some() {
                        self.delete_selection(&mut state);
                    } else {
                        let mut chars = chars_of(state.content.as_str());
                        if state.cursor_position < chars.len() {
                            chars.remove(state.cursor_position);
                            state.content = string_from_chars(&chars);
                        }
                    }
                }
            },
            TextInputMsg::DeleteWordBackward => {
                if state.focused {
                    if state.selection_start.is_some() {
                        self.delete_selection(&mut state);
                    } else {
                        self.delete_word_backward(&mut state);
                    }
                }
            },
            TextInputMsg::DeleteWordForward => {
                if state.focused {
                    if state.selection_start.is_some() {
                        self.delete_selection(&mut state);
                    } else {
                        self.delete_word_forward(&mut state);
                    }
                }
            },
            TextInputMsg::DeleteToLineStart => {
                if state.focused {
                    if state.selection_start.is_some() {
                        self.delete_selection(&mut state);
                    } else {
                        self.delete_to_line_start(&mut state);
                    }
                }
            },
            TextInputMsg::DeleteToLineEnd => {
                if state.focused {
                    if state.selection_start.is_some() {
                        self.delete_selection(&mut state);
                    } else {
                        self.delete_to_line_end(&mut state);
                    }
                }
            },
            TextInputMsg::CursorLeft => {
                if state.focused && state.cursor_position > 0 {
                    state.cursor_position = state.cursor_position - 1;
                    state.selection_start = None;
                    state.selection_end = None;
                }
            },
            TextInputMsg::CursorRight => {
                if state.focused {
                    let char_count = chars_of(state.content.as_str()).len();
                    if state.cursor_position < char_count {
                        state.cursor_position = state.cursor_position + 1;
                    }
                    state.selection_start = None;
                    state.selection_end = None;
                }
            },
            TextInputMsg::CursorHome => {
                if state.focused {
                    state.cursor_position = 0;
                    state.selection_start = None;
                    state.selection_end = None;
                }
            },
            TextInputMsg::CursorEnd => {
                if state.focused {
                    state.cursor_position = chars_of(state.content.as_str()).len();
                    state.selection_start = None;
                    state.selection_end = None;
                }
            },
            TextInputMsg::CursorWordLeft => {
                if state.focused {
                    state.cursor_position = self.find_word_boundary_left(state.content.as_str(), state.cursor_position);
                    state.selection_start = None;
                    state.selection_end = None;
                }
            },
            TextInputMsg::CursorWordRight => {
                if state.focused {
                    state.cursor_position = self.find_word_boundary_right(state.content.as_str(), state.cursor_position);
                    state.selection_start = None;
                    state.selection_end = None;
                }
            },
            TextInputMsg::SelectLeft | TextInputMsg::SelectRight | TextInputMsg::SelectAll
            | TextInputMsg::SelectWord | TextInputMsg::ClearSelection => {},
            TextInputMsg::Cut | TextInputMsg::Copy | TextInputMsg::Paste(_) => {},
            TextInputMsg::Submit => {
                events.push(TextInputEvent::Submitted);
                if self.clear_on_submit {
                    state.content = String::new();
                    state.cursor_position = 0;
                    state.selection_start = None;
                    state.selection_end = None;
                }
            },
            TextInputMsg::Clear => {
                state.content = String::new();
                state.cursor_position = 0;
                state.selection_start = None;
                state.selection_end = None;
            },
        }
        let after = chars_of(state.content.as_str());
        if !same_chars(&before, &after) {
            events.push(TextInputEvent::Changed(state.content.clone()));
        }
        assert(events_view(events@) =~= input_step(self.clear_on_submit, start, msg).1);
        (state, events)
    }
}


/// The container style a text input starts with: horizontal padding of 1,
/// 30 by 3 cells, a cyan single-line border on all edges, overflow hidden.
pub open spec fn default_input_style() -> Style {
    Style {
        padding: Some(Spacing { top: 0, right: 1, bottom: 0, left: 1 }),
        width: Some(Dimension::Fixed(30)),
        height: Some(Dimension::Fixed(3)),
        border: Some(Border { enabled: true, style: BorderStyle::Single, color: Color::Cyan, edges: BorderEdges { bits: 255 } }),
        overflow: Some(Overflow::Hidden),
        ..unset_style()
    }
}

/// Placeholder text starts italic and grey.
pub open spec fn default_placeholder_text() -> TextStyle {
    TextStyle { color: Some(Color::BrightBlack), italic: Some(true), ..unset_text_style() }
}

/// Content text starts white.
pub open spec fn default_content_text() -> TextStyle {
    TextStyle { color: Some(Color::White), ..unset_text_style() }
}

/// The cursor starts black on white.
pub open spec fn default_cursor_text() -> TextStyle {
    TextStyle { color: Some(Color::Black), background: Some(Color::White), ..unset_text_style() }
}

/// Selected text starts white on blue.
pub open spec fn default_selection_text() -> TextStyle {
    TextStyle { color: Some(Color::White), background: Some(Color::Blue), ..unset_text_style() }
}

/// The base container style, or the default one when none is set.
pub open spec fn base_style(t: TextInput) -> Style {
    match t.styles.base {
        Some(s) => s,
        None => default_input_style(),
    }
}

/// The focus style, or an empty one when none is set.
pub open spec fn focus_base(t: TextInput) -> Style {
    match t.styles.focus {
        Some(s) => s,
        None => unset_style(),
    }
}

/// The hover style, or an empty one when none is set.
pub open spec fn hover_base(t: TextInput) -> Style {
    match t.styles.hover {
        Some(s) => s,
        None => unset_style(),
    }
}

/// The input with `s` as its base container style.
pub open spec fn with_base(t: TextInput, s: Style) -> TextInput {
    TextInput { styles: DivStyles { base: Some(s), ..t.styles }, ..t }
}

/// The input with `s` as its focus style.
pub open spec fn with_focus(t: TextInput, s: Style) -> TextInput {
    TextInput { styles: DivStyles { focus: Some(s), ..t.styles }, ..t }
}

/// The input with `s` as its hover style.
pub open spec fn with_hover(t: TextInput, s: Style) -> TextInput {
    TextInput { styles: DivStyles { hover: Some(s), ..t.styles }, ..t }
}

/// `b` recolored and enabled; a new single-line border on all edges when
/// there was none.
pub open spec fn recolored(b: Option<Border>, color: Color) -> Border {
    match b {
        Some(b) => Border { color, enabled: true, ..b },
        None => Border { enabled: true, style: BorderStyle::Single, color, edges: BorderEdges { bits: 255 } },
    }
}

/// `b` limited to `edges`; a new white border when there was none.
pub open spec fn with_border_edges(b: Option<Border>, edges: BorderEdges) -> Border {
    match b {
        Some(b) => Border { edges, ..b },
        None => Border { enabled: true, style: BorderStyle::Single, color: Color::White, edges },
    }
}

/// The text color that contrasts with a cursor of the given color.
pub open spec fn contrast_color(color: Color) -> Color {
    match color {
        Color::Black | Color::Blue | Color::Red | Color::Magenta => Color::White,
        _ => Color::Black,
    }
}

/// A text input with the default styles: no placeholder, focusable,
/// word-break wrapping, plain (not masked), not cleared on submit.
pub open spec fn default_text_input() -> TextInput {
    TextInput {
        placeholder: None,
        placeholder_style: Some(default_placeholder_text()),
        content_style: Some(default_content_text()),
        cursor_style: Some(default_cursor_text()),
        selection_style: Some(default_selection_text()),
        styles: DivStyles { base: Some(default_input_style()), focus: None, hover: None },
        focusable: true,
        wrap: Some(TextWrap::WordBreak),
        password_mode: false,
        clear_on_submit: false,
    }
}

impl Default for TextInput {
    fn default() -> (t: Self)
        ensures
            t == default_text_input(),
    {
        TextInput::new()
    }
}

fn recolor(b: Option<Border>, color: Color) -> (r: Border)
    ensures
        r == recolored(b, color),
{
    let mut border = match b {
        Some(b) => b,
        None => Border::new(color),
    };
    border.color = color;
    border.enabled = true;
    border
}

impl TextInput {
    fn default_style() -> (s: Style)
        ensures
            s == default_input_style(),
    {
        let mut s = Style::default();
        s.padding = Some(Spacing::horizontal(1));
        s.width = Some(Dimension::Fixed(30));
        s.height = Some(Dimension::Fixed(3));
        s.border = Some(Border::with_edges(BorderStyle::Single, Color::Cyan, BorderEdges::all()));
        s.overflow = Some(Overflow::Hidden);
        s
    }

    fn default_placeholder_style() -> (s: TextStyle)
        ensures
            s == default_placeholder_text(),
    {
        let mut s = TextStyle::default();
        s.color = Some(Color::BrightBlack);
        s.italic = Some(true);
        s
    }

    fn default_content_style() -> (s: TextStyle)
        ensures
            s == default_content_text(),
    {
        let mut s = TextStyle::default();
        s.color = Some(Color::White);
        s
    }

    fn default_cursor_style() -> (s: TextStyle)
        ensures
            s == default_cursor_text(),
    {
        let mut s = TextStyle::default();
        s.color = Some(Color::Black);
        s.background = Some(Color::White);
        s
    }

    fn default_selection_style() -> (s: TextStyle)
        ensures
            s == default_selection_text(),
    {
        let mut s = TextStyle::default();
        s.color = Some(Color::White);
        s.background = Some(Color::Blue);
        s
    }

    /// A text input with the default styles: no placeholder, focusable,
    /// word-break wrapping, plain (not masked), not cleared on submit.
    pub fn new() -> (t: TextInput)
        ensures
            t == default_text_input(),
    {
        TextInput {
            placeholder: None,
            placeholder_style: Some(Self::default_placeholder_style()),
            content_style: Some(Self::default_content_style()),
            cursor_style: Some(Self::default_cursor_style()),
            selection_style: Some(Self::default_selection_style()),
            styles: DivStyles { base: Some(Self::default_style()), focus: None, hover: None },
            focusable: true,
            wrap: Some(TextWrap::WordBreak),
            password_mode: false,
            clear_on_submit: false,
        }
    }

    /// Sets the placeholder shown while the content is empty.
    pub fn placeholder(self, text: String) -> (r: Self)
        ensures
            r == (TextInput { placeholder: Some(text), ..self }),
    {
        let mut t = self;
        t.placeholder = Some(text);
        t
    }

    /// Sets whether the input can take focus.
    pub fn focusable(self, focusable: bool) -> (r: Self)
        ensures
            r == (TextInput { focusable, ..self }),
    {
        let mut t = self;
        t.focusable = focusable;
        t
    }

    /// Masks the content when `password` is set.
    pub fn password(self, password: bool) -> (r: Self)
        ensures
            r == (TextInput { password_mode: password, ..self }),
    {
        let mut t = self;
        t.password_mode = password;
        t
    }

    /// Clears the content on submit when `clear` is set.
    pub fn clear_on_submit(self, clear: bool) -> (r: Self)
        ensures
            r == (TextInput { clear_on_submit: clear, ..self }),
    {
        let mut t = self;
        t.clear_on_submit = clear;
        t
    }

    fn base_or_default(&self) -> (s: Style)
        ensures
            s == base_style(*self),
    {
        match self.styles.base {
            Some(s) => s,
            None => Self::default_style(),
        }
    }

    fn focus_or_default(&self) -> (s: Style)
        ensures
            s == focus_base(*self),
    {
        match self.styles.focus {
            Some(s) => s,
            None => Style::default(),
        }
    }

    fn hover_or_default(&self) -> (s: Style)
        ensures
            s == hover_base(*self),
    {
        match self.styles.hover {
            Some(s) => s,
            None => Style::default(),
        }
    }

    fn set_base(self, style: Style) -> (r: Self)
        ensures
            r == with_base(self, style),
    {
        let mut t = self;
        t.styles.base = Some(style);
        t
    }

    fn set_focus(self, style: Style) -> (r: Self)
        ensures
            r == with_focus(self, style),
    {
        let mut t = self;
        t.styles.focus = Some(style);
        t
    }

    fn set_hover(self, style: Style) -> (r: Self)
        ensures
            r == with_hover(self, style),
    {
        let mut t = self;
        t.styles.hover = Some(style);
        t
    }

    /// Sets the background color.
    pub fn background(self, color: Color) -> (r: Self)
        ensures
            r == with_base(self, Style { background: Some(color), ..base_style(self) }),
    {
        let mut style = self.base_or_default();
        style.background = Some(color);
        self.set_base(style)
    }

    /// Sets the border color and enables the border; a single-line border on all edges when there was none.
    pub fn border(self, color: Color) -> (r: Self)
        ensures
            r == with_base(self, Style { border: Some(recolored(base_style(self).border, color)), ..base_style(self) }),
    {
        let mut style = self.base_or_default();
        style.border = Some(recolor(style.border, color));
        self.set_base(style)
    }

    /// Sets an enabled border of the given style and color on all edges.
    pub fn border_style(self, border_style: BorderStyle, color: Color) -> (r: Self)
        ensures
            r == with_base(self, Style { border: Some(Border { enabled: true, style: border_style, color, edges: BorderEdges { bits: 255 } }), ..base_style(self) }),
    {
        let mut style = self.base_or_default();
        style.border = Some(Border::with_style(border_style, color));
        self.set_base(style)
    }

    /// Sets which border edges are drawn; a white border when there was none.
    pub fn border_edges(self, edges: BorderEdges) -> (r: Self)
        ensures
            r == with_base(self, Style { border: Some(with_border_edges(base_style(self).border, edges)), ..base_style(self) }),
    {
        let mut style = self.base_or_default();
        let b = match style.border { Some(b) => b, None => Border::new(Color::White) };
        style.border = Some(Border { edges, ..b });
        self.set_base(style)
    }

    /// Sets an enabled border with every property given.
    pub fn border_full(self, border_style: BorderStyle, color: Color, edges: BorderEdges) -> (r: Self)
        ensures
            r == with_base(self, Style { border: Some(Border { enabled: true, style: border_style, color, edges }), ..base_style(self) }),
    {
        let mut style = self.base_or_default();
        style.border = Some(Border::with_edges(border_style, color, edges));
        self.set_base(style)
    }

    /// Sets the inner padding.
    pub fn padding(self, padding: Spacing) -> (r: Self)
        ensures
            r == with_base(self, Style { padding: Some(padding), ..base_style(self) }),
    {
        let mut style = self.base_or_default();
        style.padding = Some(padding);
        self.set_base(style)
    }

    /// Sets a fixed width.
    pub fn width(self, width: u16) -> (r: Self)
        ensures
            r == with_base(self, Style { width: Some(Dimension::Fixed(width)), ..base_style(self) }),
    {
        let mut style = self.base_or_default();
        style.width = Some(Dimension::Fixed(width));
        self.set_base(style)
    }

    /// Sets the width dimension.
    pub fn width_dim(self, width: Dimension) -> (r: Self)
        ensures
            r == with_base(self, Style { width: Some(width), ..base_style(self) }),
    {
        let mut style = self.base_or_default();
        style.width = Some(width);
        self.set_base(style)
    }

    /// Makes the width automatic.
    pub fn width_auto(self) -> (r: Self)
        ensures
            r == with_base(self, Style { width: Some(Dimension::Auto), ..base_style(self) }),
    {
        let mut style = self.base_or_default();
        style.width = Some(Dimension::Auto);
        self.set_base(style)
    }

    /// Sizes the width to the content.
    pub fn width_content(self) -> (r: Self)
        ensures
            r == with_base(self, Style { width: Some(Dimension::Content), ..base_style(self) }),
    {
        let mut style = self.base_or_default();
        style.width = Some(Dimension::Content);
        self.set_base(style)
    }

    /// Sets a fixed height.
    pub fn height(self, height: u16) -> (r: Self)
        ensures
            r == with_base(self, Style { height: Some(Dimension::Fixed(height)), ..base_style(self) }),
    {
        let mut style = self.base_or_default();
        style.height = Some(Dimension::Fixed(height));
        self.set_base(style)
    }

    /// Sets the height dimension.
    pub fn height_dim(self, height: Dimension) -> (r: Self)
        ensures
            r == with_base(self, Style { height: Some(height), ..base_style(self) }),
    {
        let mut style = self.base_or_default();
        style.height = Some(height);
        self.set_base(style)
    }

    /// Makes the height automatic.
    pub fn height_auto(self) -> (r: Self)
        ensures
            r == with_base(self, Style { height: Some(Dimension::Auto), ..base_style(self) }),
    {
        let mut style = self.base_or_default();
        style.height = Some(Dimension::Auto);
        self.set_base(style)
    }

    /// Sizes the height to the content.
    pub fn height_content(self) -> (r: Self)
        ensures
            r == with_base(self, Style { height: Some(Dimension::Content), ..base_style(self) }),
    {
        let mut style = self.base_or_default();
        style.height = Some(Dimension::Content);
        self.set_base(style)
    }

    /// Sets the positioning mode.
    pub fn position(self, position: Position) -> (r: Self)
        ensures
            r == with_base(self, Style { position: Some(position), ..base_style(self) }),
    {
        let mut style = self.base_or_default();
        style.position = Some(position);
        self.set_base(style)
    }

    /// Positions the input absolutely.
    pub fn absolute(self) -> (r: Self)
        ensures
            r == with_base(self, Style { position: Some(Position::Absolute), ..base_style(self) }),
    {
        let mut style = self.base_or_default();
        style.position = Some(Position::Absolute);
        self.set_base(style)
    }

    /// Sets the top offset.
    pub fn top(self, top: i16) -> (r: Self)
        ensures
            r == with_base(self, Style { top: Some(top), ..base_style(self) }),
    {
        let mut style = self.base_or_default();
        style.top = Some(top);
        self.set_base(style)
    }

    /// Sets the right offset.
    pub fn right(self, right: i16) -> (r: Self)
        ensures
            r == with_base(self, Style { right: Some(right), ..base_style(self) }),
    {
        let mut style = self.base_or_default();
        style.right = Some(right);
        self.set_base(style)
    }

    /// Sets the bottom offset.
    pub fn bottom(self, bottom: i16) -> (r: Self)
        ensures
            r == with_base(self, Style { bottom: Some(bottom), ..base_style(self) }),
    {
        let mut style = self.base_or_default();
        style.bottom = Some(bottom);
        self.set_base(style)
    }

    /// Sets the left offset.
    pub fn left(self, left: i16) -> (r: Self)
        ensures
            r == with_base(self, Style { left: Some(left), ..base_style(self) }),
    {
        let mut style = self.base_or_default();
        style.left = Some(left);
        self.set_base(style)
    }

    /// Sets the layering order.
    pub fn z_index(self, z_index: i32) -> (r: Self)
        ensures
            r == with_base(self, Style { z_index: Some(z_index), ..base_style(self) }),
    {
        let mut style = self.base_or_default();
        style.z_index = Some(z_index);
        self.set_base(style)
    }

    /// Sets the style applied while focused.
    pub fn focus_style(self, style: Style) -> (r: Self)
        ensures
            r == with_focus(self, style),
    {
        self.set_focus(style)
    }

    /// Sets the style applied while hovered.
    pub fn hover_style(self, style: Style) -> (r: Self)
        ensures
            r == with_hover(self, style),
    {
        self.set_hover(style)
    }

    /// Sets the focus border color and enables it.
    pub fn focus_border(self, color: Color) -> (r: Self)
        ensures
            r == with_focus(self, Style { border: Some(recolored(focus_base(self).border, color)), ..focus_base(self) }),
    {
        let mut style = self.focus_or_default();
        style.border = Some(recolor(style.border, color));
        self.set_focus(style)
    }

    /// Sets the focus border style and color, on all edges.
    pub fn focus_border_style(self, border_style: BorderStyle, color: Color) -> (r: Self)
        ensures
            r == with_focus(self, Style { border: Some(Border { enabled: true, style: border_style, color, edges: BorderEdges { bits: 255 } }), ..focus_base(self) }),
    {
        let mut style = self.focus_or_default();
        style.border = Some(Border::with_style(border_style, color));
        self.set_focus(style)
    }

    /// Sets the focus background color.
    pub fn focus_background(self, color: Color) -> (r: Self)
        ensures
            r == with_focus(self, Style { background: Some(color), ..focus_base(self) }),
    {
        let mut style = self.focus_or_default();
        style.background = Some(color);
        self.set_focus(style)
    }

    /// Sets the focus padding.
    pub fn focus_padding(self, padding: Spacing) -> (r: Self)
        ensures
            r == with_focus(self, Style { padding: Some(padding), ..focus_base(self) }),
    {
        let mut style = self.focus_or_default();
        style.padding = Some(padding);
        self.set_focus(style)
    }

    /// Sets the hover border color and enables it.
    pub fn hover_border(self, color: Color) -> (r: Self)
        ensures
            r == with_hover(self, Style { border: Some(recolored(hover_base(self).border, color)), ..hover_base(self) }),
    {
        let mut style = self.hover_or_default();
        style.border = Some(recolor(style.border, color));
        self.set_hover(style)
    }

    /// Sets the hover border style and color, on all edges.
    pub fn hover_border_style(self, border_style: BorderStyle, color: Color) -> (r: Self)
        ensures
            r == with_hover(self, Style { border: Some(Border { enabled: true, style: border_style, color, edges: BorderEdges { bits: 255 } }), ..hover_base(self) }),
    {
        let mut style = self.hover_or_default();
        style.border = Some(Border::with_style(border_style, color));
        self.set_hover(style)
    }

    /// Sets the hover background color.
    pub fn hover_background(self, color: Color) -> (r: Self)
        ensures
            r == with_hover(self, Style { background: Some(color), ..hover_base(self) }),
    {
        let mut style = self.hover_or_default();
        style.background = Some(color);
        self.set_hover(style)
    }

    /// Sets the hover padding.
    pub fn hover_padding(self, padding: Spacing) -> (r: Self)
        ensures
            r == with_hover(self, Style { padding: Some(padding), ..hover_base(self) }),
    {
        let mut style = self.hover_or_default();
        style.padding = Some(padding);
        self.set_hover(style)
    }

    /// Sets the placeholder text style.
    pub fn placeholder_style(self, style: TextStyle) -> (r: Self)
        ensures
            r == (TextInput { placeholder_style: Some(style), ..self }),
    {
        let mut t = self;
        t.placeholder_style = Some(style);
        t
    }

    /// Sets the placeholder text's color, starting from the default placeholder style.
    pub fn placeholder_color(self, color: Color) -> (r: Self)
        ensures
            r == (TextInput {
                placeholder_style: Some(TextStyle { color: Some(color), ..(match self.placeholder_style { Some(s) => s, None => default_placeholder_text() }) }),
                ..self
            }),
    {
        let mut style = match self.placeholder_style {
            Some(s) => s,
            None => Self::default_placeholder_style(),
        };
        style.color = Some(color);
        let mut t = self;
        t.placeholder_style = Some(style);
        t
    }

    /// Sets the placeholder text's background, starting from the default placeholder style.
    pub fn placeholder_background(self, color: Color) -> (r: Self)
        ensures
            r == (TextInput {
                placeholder_style: Some(TextStyle { background: Some(color), ..(match self.placeholder_style { Some(s) => s, None => default_placeholder_text() }) }),
                ..self
            }),
    {
        let mut style = match self.placeholder_style {
            Some(s) => s,
            None => Self::default_placeholder_style(),
        };
        style.background = Some(color);
        let mut t = self;
        t.placeholder_style = Some(style);
        t
    }

    /// Sets the placeholder text's bold, starting from the default placeholder style.
    pub fn placeholder_bold(self, bold: bool) -> (r: Self)
        ensures
            r == (TextInput {
                placeholder_style: Some(TextStyle { bold: Some(bold), ..(match self.placeholder_style { Some(s) => s, None => default_placeholder_text() }) }),
                ..self
            }),
    {
        let mut style = match self.placeholder_style {
            Some(s) => s,
            None => Self::default_placeholder_style(),
        };
        style.bold = Some(bold);
        let mut t = self;
        t.placeholder_style = Some(style);
        t
    }

    /// Sets the placeholder text's italic, starting from the default placeholder style.
    pub fn placeholder_italic(self, italic: bool) -> (r: Self)
        ensures
            r == (TextInput {
                placeholder_style: Some(TextStyle { italic: Some(italic), ..(match self.placeholder_style { Some(s) => s, None => default_placeholder_text() }) }),
                ..self
            }),
    {
        let mut style = match self.placeholder_style {
            Some(s) => s,
            None => Self::default_placeholder_style(),
        };
        style.italic = Some(italic);
        let mut t = self;
        t.placeholder_style = Some(style);
        t
    }

    /// Sets the placeholder text's underline, starting from the default placeholder style.
    pub fn placeholder_underline(self, underline: bool) -> (r: Self)
        ensures
            r == (TextInput {
                placeholder_style: Some(TextStyle { underline: Some(underline), ..(match self.placeholder_style { Some(s) => s, None => default_placeholder_text() }) }),
                ..self
            }),
    {
        let mut style = match self.placeholder_style {
            Some(s) => s,
            None => Self::default_placeholder_style(),
        };
        style.underline = Some(underline);
        let mut t = self;
        t.placeholder_style = Some(style);
        t
    }

    /// Sets the content text style.
    pub fn content_style(self, style: TextStyle) -> (r: Self)
        ensures
            r == (TextInput { content_style: Some(style), ..self }),
    {
        let mut t = self;
        t.content_style = Some(style);
        t
    }

    /// Sets the content text's color, starting from the default content style.
    pub fn content_color(self, color: Color) -> (r: Self)
        ensures
            r == (TextInput {
                content_style: Some(TextStyle { color: Some(color), ..(match self.content_style { Some(s) => s, None => default_content_text() }) }),
                ..self
            }),
    {
        let mut style = match self.content_style {
            Some(s) => s,
            None => Self::default_content_style(),
        };
        style.color = Some(color);
        let mut t = self;
        t.content_style = Some(style);
        t
    }

    /// Sets the content text's background, starting from the default content style.
    pub fn content_background(self, color: Color) -> (r: Self)
        ensures
            r == (TextInput {
                content_style: Some(TextStyle { background: Some(color), ..(match self.content_style { Some(s) => s, None => default_content_text() }) }),
                ..self
            }),
    {
        let mut style = match self.content_style {
            Some(s) => s,
            None => Self::default_content_style(),
        };
        style.background = Some(color);
        let mut t = self;
        t.content_style = Some(style);
        t
    }

    /// Sets the content text's bold, starting from the default content style.
    pub fn content_bold(self, bold: bool) -> (r: Self)
        ensures
            r == (TextInput {
                content_style: Some(TextStyle { bold: Some(bold), ..(match self.content_style { Some(s) => s, None => default_content_text() }) }),
                ..self
            }),
    {
        let mut style = match self.content_style {
            Some(s) => s,
            None => Self::default_content_style(),
        };
        style.bold = Some(bold);
        let mut t = self;
        t.content_style = Some(style);
        t
    }

    /// Sets the content text's italic, starting from the default content style.
    pub fn content_italic(self, italic: bool) -> (r: Self)
        ensures
            r == (TextInput {
                content_style: Some(TextStyle { italic: Some(italic), ..(match self.content_style { Some(s) => s, None => default_content_text() }) }),
                ..self
            }),
    {
        let mut style = match self.content_style {
            Some(s) => s,
            None => Self::default_content_style(),
        };
        style.italic = Some(italic);
        let mut t = self;
        t.content_style = Some(style);
        t
    }

    /// Sets the content text's underline, starting from the default content style.
    pub fn content_underline(self, underline: bool) -> (r: Self)
        ensures
            r == (TextInput {
                content_style: Some(TextStyle { underline: Some(underline), ..(match self.content_style { Some(s) => s, None => default_content_text() }) }),
                ..self
            }),
    {
        let mut style = match self.content_style {
            Some(s) => s,
            None => Self::default_content_style(),
        };
        style.underline = Some(underline);
        let mut t = self;
        t.content_style = Some(style);
        t
    }

    /// Sets the cursor text style.
    pub fn cursor_style(self, style: TextStyle) -> (r: Self)
        ensures
            r == (TextInput { cursor_style: Some(style), ..self }),
    {
        let mut t = self;
        t.cursor_style = Some(style);
        t
    }

    /// Sets the selection text style.
    pub fn selection_style(self, style: TextStyle) -> (r: Self)
        ensures
            r == (TextInput { selection_style: Some(style), ..self }),
    {
        let mut t = self;
        t.selection_style = Some(style);
        t
    }

    /// Sets the selection text's background, starting from the default selection style.
    pub fn selection_color(self, color: Color) -> (r: Self)
        ensures
            r == (TextInput {
                selection_style: Some(TextStyle { background: Some(color), ..(match self.selection_style { Some(s) => s, None => default_selection_text() }) }),
                ..self
            }),
    {
        let mut style = match self.selection_style {
            Some(s) => s,
            None => Self::default_selection_style(),
        };
        style.background = Some(color);
        let mut t = self;
        t.selection_style = Some(style);
        t
    }

    /// Sets the cursor's background color, and a text color that contrasts
    /// with it: white on black, blue, red or magenta, black otherwise.
    pub fn cursor_color(self, color: Color) -> (r: Self)
        ensures
            r == (TextInput {
                cursor_style: Some(TextStyle {
                    background: Some(color),
                    color: Some(contrast_color(color)),
                    ..(match self.cursor_style { Some(s) => s, None => default_cursor_text() })
                }),
                ..self
            }),
    {
        let mut style = match self.cursor_style {
            Some(s) => s,
            None => Self::default_cursor_style(),
        };
        style.background = Some(color);
        style.color = Some(match color {
            Color::Black | Color::Blue | Color::Red | Color::Magenta => Color::White,
            _ => Color::Black,
        });
        let mut t = self;
        t.cursor_style = Some(style);
        t
    }

    /// Sets how the content wraps.
    pub fn wrap(self, wrap: TextWrap) -> (r: Self)
        ensures
            r == (TextInput { wrap: Some(wrap), ..self }),
    {
        let mut t = self;
        t.wrap = Some(wrap);
        t
    }
}


/// What a text input shows inside its container.
pub enum InputDisplay {
    /// The content with the cursor drawn at `cursor` in `cursor_style`;
    /// `content_style`, when set, styles the rest
    WithCursor {
        text: String,
        cursor: usize,
        cursor_style: TextStyle,
        wrap: Option<TextWrap>,
        content_style: Option<TextStyle>,
    },
    /// The content, without a cursor
    Content { text: String, style: TextStyle },
    /// The placeholder
    Placeholder { text: String, style: TextStyle },
    /// Nothing
    Blank,
}

/// Abstract form of what a text input shows.
pub ghost enum DisplayView {
    WithCursor {
        text: Seq<char>,
        cursor: usize,
        cursor_style: TextStyle,
        wrap: Option<TextWrap>,
        content_style: Option<TextStyle>,
    },
    Content { text: Seq<char>, style: TextStyle },
    Placeholder { text: Seq<char>, style: TextStyle },
    Blank,
}

impl View for InputDisplay {
    type V = DisplayView;

    open spec fn view(&self) -> DisplayView {
        match self {
            InputDisplay::WithCursor { text, cursor, cursor_style, wrap, content_style } => DisplayView::WithCursor {
                text: text@,
                cursor: *cursor,
                cursor_style: *cursor_style,
                wrap: *wrap,
                content_style: *content_style,
            },
            InputDisplay::Content { text, style } => DisplayView::Content { text: text@, style: *style },
            InputDisplay::Placeholder { text, style } => DisplayView::Placeholder { text: text@, style: *style },
            InputDisplay::Blank => DisplayView::Blank,
        }
    }
}

/// The content as shown: one bullet per character in password mode.
pub open spec fn shown_text(t: TextInput, content: Seq<char>) -> Seq<char> {
    if t.password_mode {
        Seq::new(content.len(), |i: int| '\u{2022}')
    } else {
        content
    }
}

/// What a text input shows for a state: when focused, the (masked)
/// content, empty or not, with the cursor; when not
/// focused, the content in the content style (over the default one) with
/// the input's wrapping; when empty and not focused, the placeholder in the
/// placeholder style (over the default one), if there is one.
pub open spec fn input_display(t: TextInput, s: InputView) -> DisplayView {
    let cursor_style = match t.cursor_style {
        Some(c) => c,
        None => default_cursor_text(),
    };
    if s.focused {
        DisplayView::WithCursor {
            text: shown_text(t, s.content),
            cursor: s.cursor as usize,
            cursor_style,
            wrap: t.wrap,
            content_style: t.content_style,
        }
    } else if s.content.len() > 0 {
        let merged = text_style_merge(Some(default_content_text()), t.content_style).unwrap();
        DisplayView::Content {
            text: shown_text(t, s.content),
            style: match t.wrap {
                Some(w) => TextStyle { wrap: Some(w), ..merged },
                None => merged,
            },
        }
    } else {
        match t.placeholder {
            Some(p) => DisplayView::Placeholder {
                text: p@,
                style: text_style_merge(Some(default_placeholder_text()), t.placeholder_style).unwrap(),
            },
            None => DisplayView::Blank,
        }
    }
}

/// `n` bullets.
fn bullets(n: usize) -> (s: String)
    ensures
        s@ == Seq::new(n as nat, |i: int| '\u{2022}'),
{
    let mut s = String::new();
    let mut i: usize = 0;
    while i < n
        invariant
            i <= n,
            s@ == Seq::new(i as nat, |k: int| '\u{2022}'),
        decreases n - i,
    {
        push_char(&mut s, '\u{2022}');
        assert(s@ =~= Seq::new((i + 1) as nat, |k: int| '\u{2022}'));
        i = i + 1;
    }
    s
}

impl TextInput {
    /// What the input shows for `state`.
    pub fn view(&self, state: &TextInputState) -> (d: InputDisplay)
        ensures
            d@ == input_display(*self, state@),
    {
        let cursor_style = match self.cursor_style {
            Some(c) => c,
            None => Self::default_cursor_style(),
        };
        let count = chars_of(state.content.as_str()).len();
        if count > 0 || state.focused {
            let display_content = if self.password_mode {
                bullets(count)
            } else {
                state.content.clone()
            };
            if state.focused {
                InputDisplay::WithCursor {
                    text: display_content,
                    cursor: state.cursor_position,
                    cursor_style,
                    wrap: self.wrap,
                    content_style: self.content_style,
                }
            } else {
                let merged = TextStyle::merge(Some(Self::default_content_style()), self.content_style);
                let mut style = match merged {
                    Some(m) => m,
                    None => TextStyle::default(),
                };
                match self.wrap {
                    Some(w) => {
                        style.wrap = Some(w);
                    },
                    None => {},
                }
                InputDisplay::Content { text: display_content, style }
            }
        } else {
            match &self.placeholder {
                Some(p) => {
                    let merged = TextStyle::merge(Some(Self::default_placeholder_style()), self.placeholder_style);
                    let style = match merged {
                        Some(m) => m,
                        None => TextStyle::default(),
                    };
                    InputDisplay::Placeholder { text: p.clone(), style }
                },
                None => InputDisplay::Blank,
            }
        }
    }
}


/// Whether a span of the focused display takes the content style: it has
/// no background of its own (the cursor span has one).
pub open spec fn takes_content_style(span: TextSpan) -> bool {
    match span.style {
        None => true,
        Some(st) => st.background is None,
    }
}

/// Gives `content_style` to every span of a focused input's display that
/// has no background of its own, leaving the others (the cursor) as they
/// are.
pub fn apply_content_style(spans: &mut Vec<TextSpan>, content_style: TextStyle)
    ensures
        final(spans)@.len() == old(spans)@.len(),
        forall|k: int| 0 <= k < old(spans)@.len() ==> #[trigger] final(spans)@[k] == (if takes_content_style(old(spans)@[k]) {
            TextSpan { style: Some(content_style), ..old(spans)@[k] }
        } else {
            old(spans)@[k]
        }),
{
    let n = spans.len();
    let mut k: usize = 0;
    while k < n
        invariant
            n == old(spans)@.len(),
            spans@.len() == n,
            k <= n,
            forall|j: int| 0 <= j < k ==> #[trigger] spans@[j] == (if takes_content_style(old(spans)@[j]) {
                TextSpan { style: Some(content_style), ..old(spans)@[j] }
            } else {
                old(spans)@[j]
            }),
            forall|j: int| k <= j < n ==> #[trigger] spans@[j] == old(spans)@[j],
        decreases n - k,
    {
        let takes = match &spans[k].style {
            None => true,
            Some(st) => st.background.is_none(),
        };
        if takes {
            spans[k].style = Some(content_style);
        }
        k = k + 1;
    }
}

/// Whether `update` can take `msg` in `state` (see `update_ok`): a focused
/// input must not be asked to delete a selection or a character past the
/// end of its content.
pub fn can_update(state: &TextInputState, msg: &TextInputMsg) -> (b: bool)
    ensures
        b == update_ok(state@, *msg),
{
    if !state.focused {
        return true;
    }
    let len = chars_of(state.content.as_str()).len();
    let fits = match (state.selection_start, state.selection_end) {
        (Some(a), Some(b)) => a <= len && b <= len,
        _ => true,
    };
    match msg {
        TextInputMsg::CharInput(_) | TextInputMsg::Delete | TextInputMsg::DeleteWordForward
        | TextInputMsg::DeleteToLineEnd => state.selection_start.is_none() || fits,
        TextInputMsg::Backspace | TextInputMsg::DeleteWordBackward | TextInputMsg::DeleteToLineStart => {
            if state.selection_start.is_some() {
                fits
            } else {
                state.cursor_position == 0 || state.cursor_position <= len
            }
        },
        TextInputMsg::CursorWordLeft => state.cursor_position < 2 || state.cursor_position <= len,
        _ => true,
    }
}

proof fn lemma_skip_space_back_bounds(cs: Seq<char>, p: int)
    requires
        0 <= p,
    ensures
        0 <= skip_space_back(cs, p) <= p,
    decreases p,
{
    if p > 0 && is_white_space(cs[p]) {
        lemma_skip_space_back_bounds(cs, p - 1);
    }
}

proof fn lemma_skip_word_back_bounds(cs: Seq<char>, p: int)
    requires
        0 <= p,
    ensures
        0 <= skip_word_back(cs, p) <= p,
    decreases p,
{
    if p > 0 && is_word_char(cs[p - 1]) {
        lemma_skip_word_back_bounds(cs, p - 1);
    }
}

proof fn lemma_skip_word_fwd_bounds(cs: Seq<char>, p: int)
    requires
        0 <= p <= cs.len(),
    ensures
        p <= skip_word_fwd(cs, p) <= cs.len(),
    decreases cs.len() - p,
{
    if 0 <= p < cs.len() && is_word_char(cs[p]) {
        lemma_skip_word_fwd_bounds(cs, p + 1);
    }
}

proof fn lemma_skip_sep_fwd_bounds(cs: Seq<char>, p: int)
    requires
        0 <= p <= cs.len(),
    ensures
        p <= skip_sep_fwd(cs, p) <= cs.len(),
    decreases cs.len() - p,
{
    if 0 <= p < cs.len() && !is_word_char(cs[p]) {
        lemma_skip_sep_fwd_bounds(cs, p + 1);
    }
}

/// Moving a word left never moves right, nor before the start; moving a
/// word right from within the text never moves left, nor past the end.
pub proof fn lemma_word_moves_stay_in_text(cs: Seq<char>, p: int)
    requires
        0 <= p,
    ensures
        0 <= word_left(cs, p) <= p,
        p <= cs.len() ==> p <= word_right(cs, p) <= cs.len(),
{
    if p > 0 {
        lemma_skip_space_back_bounds(cs, p - 1);
        lemma_skip_word_back_bounds(cs, skip_space_back(cs, p - 1));
    }
    if p < cs.len() {
        lemma_skip_word_fwd_bounds(cs, p);
        lemma_skip_sep_fwd_bounds(cs, skip_word_fwd(cs, p));
    }
}

proof fn lemma_space_back_run(cs: Seq<char>, p: int)
    requires
        0 <= p < cs.len(),
    ensures
        0 <= skip_space_back(cs, p) <= p,
        forall|i: int| skip_space_back(cs, p) < i <= p ==> is_white_space(#[trigger] cs[i]),
        skip_space_back(cs, p) == 0 || !is_white_space(cs[skip_space_back(cs, p)]),
    decreases p,
{
    if p > 0 {
        if is_white_space(cs[p]) {
            lemma_space_back_run(cs, p - 1);
        }
    }
}

proof fn lemma_word_back_run(cs: Seq<char>, p: int)
    requires
        0 <= p <= cs.len(),
    ensures
        0 <= skip_word_back(cs, p) <= p,
        forall|i: int| skip_word_back(cs, p) <= i < p ==> !is_white_space(#[trigger] cs[i]) && !is_ascii_punct(cs[i]),
        skip_word_back(cs, p) == 0 || is_white_space(cs[skip_word_back(cs, p) - 1]) || is_ascii_punct(cs[skip_word_back(cs, p) - 1]),
    decreases p,
{
    if p > 0 {
        if !is_white_space(cs[p - 1]) && !is_ascii_punct(cs[p - 1]) {
            lemma_word_back_run(cs, p - 1);
        }
    }
}

proof fn lemma_word_fwd_run(cs: Seq<char>, p: int)
    requires
        0 <= p <= cs.len(),
    ensures
        p <= skip_word_fwd(cs, p) <= cs.len(),
        forall|i: int| p <= i < skip_word_fwd(cs, p) ==> !is_white_space(#[trigger] cs[i]) && !is_ascii_punct(cs[i]),
        skip_word_fwd(cs, p) == cs.len() || is_white_space(cs[skip_word_fwd(cs, p)]) || is_ascii_punct(cs[skip_word_fwd(cs, p)]),
    decreases cs.len() - p,
{
    if p < cs.len() {
        if !is_white_space(cs[p]) && !is_ascii_punct(cs[p]) {
            lemma_word_fwd_run(cs, p + 1);
        }
    }
}

proof fn lemma_sep_fwd_run(cs: Seq<char>, p: int)
    requires
        0 <= p <= cs.len(),
    ensures
        p <= skip_sep_fwd(cs, p) <= cs.len(),
        forall|i: int| p <= i < skip_sep_fwd(cs, p) ==> is_white_space(#[trigger] cs[i]) || is_ascii_punct(cs[i]),
        skip_sep_fwd(cs, p) == cs.len() || (!is_white_space(cs[skip_sep_fwd(cs, p)]) && !is_ascii_punct(cs[skip_sep_fwd(cs, p)])),
    decreases cs.len() - p,
{
    if p < cs.len() {
        if is_white_space(cs[p]) || is_ascii_punct(cs[p]) {
            lemma_sep_fwd_run(cs, p + 1);
        }
    }
}

/// `r` starts the word found left of `pos` through `s`: the characters
/// from `r` to `s` are neither white space nor ASCII punctuation, the one
/// before `r` (if any) is; `s` is the last character before `pos` that is
/// not white space (or the first character), and only white space follows
/// it up to `pos`.
pub open spec fn word_start_through(cs: Seq<char>, pos: int, r: int, s: int) -> bool {
    &&& 0 <= r <= s < pos
    &&& forall|i: int| r <= i < s ==> !is_white_space(#[trigger] cs[i]) && !is_ascii_punct(cs[i])
    &&& forall|i: int| s < i < pos ==> is_white_space(#[trigger] cs[i])
    &&& s == 0 || !is_white_space(cs[s])
    &&& r == 0 || is_white_space(cs[r - 1]) || is_ascii_punct(cs[r - 1])
}

/// Law: moving a word left from `pos` (Alt+B, and where Ctrl+W deletes
/// from) skips the white space just before `pos`, then lands at the start
/// of the run of characters that are neither white space nor ASCII
/// punctuation: punctuation and white space both end a word.
pub proof fn lemma_word_left_lands_on_word_start(cs: Seq<char>, pos: int)
    requires
        0 < pos <= cs.len(),
    ensures
        exists|s: int| #[trigger] word_start_through(cs, pos, word_left(cs, pos), s),
{
    lemma_space_back_run(cs, pos - 1);
    let s = skip_space_back(cs, pos - 1);
    lemma_word_back_run(cs, s);
    assert(word_start_through(cs, pos, word_left(cs, pos), s));
}

/// `s` ends the word that starts at `pos`, and `r` the separators after
/// it: the characters from `pos` to `s` are neither white space nor ASCII
/// punctuation, those from `s` to `r` are, and neither run could go on.
pub open spec fn word_then_separators(cs: Seq<char>, pos: int, s: int, r: int) -> bool {
    &&& pos <= s <= r <= cs.len()
    &&& forall|i: int| pos <= i < s ==> !is_white_space(#[trigger] cs[i]) && !is_ascii_punct(cs[i])
    &&& forall|i: int| s <= i < r ==> is_white_space(#[trigger] cs[i]) || is_ascii_punct(cs[i])
    &&& s == cs.len() || is_white_space(cs[s]) || is_ascii_punct(cs[s])
    &&& r == cs.len() || (!is_white_space(cs[r]) && !is_ascii_punct(cs[r]))
}

/// Law: moving a word right from `pos` (Alt+F, and where Alt+D deletes to)
/// passes the rest of the word at `pos`, then the white space and ASCII
/// punctuation after it, landing on the next word or the end of the text.
pub proof fn lemma_word_right_lands_after_separators(cs: Seq<char>, pos: int)
    requires
        0 <= pos < cs.len(),
    ensures
        exists|s: int| #[trigger] word_then_separators(cs, pos, s, word_right(cs, pos)),
{
    lemma_word_fwd_run(cs, pos);
    let s = skip_word_fwd(cs, pos);
    lemma_sep_fwd_run(cs, s);
    assert(word_then_separators(cs, pos, s, word_right(cs, pos)));
}

/// Every message can be applied to a well-formed input (its cursor and
/// selection inside the content), and leaves it well-formed.
pub proof fn lemma_update_keeps_input_well_formed(clear_on_submit: bool, s: InputView, msg: TextInputMsg)
    requires
        input_wf(s),
    ensures
        update_ok(s, msg),
        input_wf(input_step(clear_on_submit, s, msg).0),
{
    lemma_word_moves_stay_in_text(s.content, s.cursor);
    let len = s.content.len() as int;
    match (s.selection_start, s.selection_end) {
        (Some(a), Some(b)) => {
            let lo: int = if a < b { a as int } else { b as int };
            let hi: int = if a < b { b as int } else { a as int };
            assert(remove_range(s.content, lo, hi).len() == len - (hi - lo));
        },
        _ => {},
    }
    if s.cursor > 0 {
        let p = word_left(s.content, s.cursor);
        assert(remove_range(s.content, p, s.cursor).len() == len - (s.cursor - p));
        assert(remove_range(s.content, 0, s.cursor).len() == len - s.cursor);
    }
    if s.cursor < len {
        let q = word_right(s.content, s.cursor);
        assert(remove_range(s.content, s.cursor, q).len() == len - (q - s.cursor));
    }
}

/// Typing a character into a focused input without a selection, then
/// pressing backspace, gives back the state typed into; each step reports
/// the content it left.
pub proof fn lemma_backspace_undoes_typing(clear_on_submit: bool, s: InputView, ch: char)
    requires
        input_wf(s),
        s.focused,
        s.selection_start is None,
    ensures
        input_step(clear_on_submit, s, TextInputMsg::CharInput(ch)).1
            == seq![InputEvent::Changed(s.content.insert(s.cursor, ch))],
        input_step(clear_on_submit, input_step(clear_on_submit, s, TextInputMsg::CharInput(ch)).0, TextInputMsg::Backspace).0 == s,
        input_step(clear_on_submit, input_step(clear_on_submit, s, TextInputMsg::CharInput(ch)).0, TextInputMsg::Backspace).1
            == seq![InputEvent::Changed(s.content)],
{
    let typed = input_step(clear_on_submit, s, TextInputMsg::CharInput(ch)).0;
    assert(typed.content == s.content.insert(s.cursor, ch));
    assert(typed.content.remove(s.cursor) =~= s.content);
}

/// A message reports a change of content exactly when it changes the
/// content, once, and the report carries the new content.
pub proof fn lemma_change_reported_exactly_when_content_changes(
    clear_on_submit: bool,
    s: InputView,
    msg: TextInputMsg,
)
    ensures
        ({
            let (t, events) = input_step(clear_on_submit, s, msg);
            &&& (exists|i: int| 0 <= i < events.len() && #[trigger] events[i] is Changed) <==> t.content != s.content
            &&& forall|i: int| 0 <= i < events.len() && #[trigger] events[i] is Changed ==> events[i] == InputEvent::Changed(t.content) && i == events.len() - 1
        }),
{
    let (t, events) = input_step(clear_on_submit, s, msg);
    if t.content != s.content {
        assert(events[events.len() - 1] is Changed);
    }
}

} // verus!
