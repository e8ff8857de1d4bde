//! Characters: display width, classes, and conversions between strings
//! and character vectors.
use vstd::prelude::*;

verus! {

/// What `unicode_width::UnicodeWidthChar::width` returns for a character.
pub uninterp spec fn unicode_width_of(c: char) -> Option<usize>;

/// Calls `unicode_width::UnicodeWidthChar::width`.  Its result is named by
/// `unicode_width_of`; the crate's source shows that printable ASCII
/// (`' '` up to `'~'`) is one column wide, that the C0 and C1 control
/// characters (below U+0020 and U+007F up to U+009F) have no width, that
/// every character from U+00A0 on has one, and that it is at most three
/// columns (the table holds
/// widths 0 to 2, plus the single width 3 of U+17D8).
#[verifier::external_body]
fn unicode_width(c: char) -> (r: Option<usize>)
    ensures
        r == unicode_width_of(c),
        (' ' <= c && c <= '~') ==> r == Some(1usize),
        (c < ' ' || ('\u{7f}' <= c && c < '\u{a0}')) ==> r is None,
        c >= '\u{a0}' ==> r is Some,
        r matches Some(w) ==> w <= 3,
{
    unicode_width::UnicodeWidthChar::width(c)
}

/// Columns a character occupies on screen (control characters take none).
pub open spec fn char_cols(c: char) -> nat {
    match unicode_width_of(c) {
        Some(w) => w as nat,
        None => 0,
    }
}

/// The number of terminal columns `c` occupies: its Unicode display width,
/// or 0 for a control character.
pub fn char_width(c: char) -> (w: usize)
    ensures
        w == char_cols(c),
        w <= 3,
        (' ' <= c && c <= '~') ==> w == 1,
{
    match unicode_width(c) {
        Some(w) => w,
        None => 0,
    }
}

/// Collects the characters of a string.
pub fn chars_of(s: &str) -> (v: Vec<char>)
    ensures
        v@ == s@,
{
    let mut v: Vec<char> = Vec::new();
    for c in it: s.chars()
        invariant
            v@ == it.seq().take(it.index() as int),
    {
        v.push(c);
    }
    v
}

/// Calls `String::push`.
#[verifier::external_body]
pub(crate) fn push_char(s: &mut String, c: char)
    ensures
        final(s)@ == old(s)@.push(c),
{
    s.push(c);
}

/// The string made of the given characters.
pub fn string_from_chars(cs: &Vec<char>) -> (s: String)
    ensures
        s@ == cs@,
{
    let mut s = String::new();
    let n = cs.len();
    let mut i: usize = 0;
    while i < n
        invariant
            n == cs@.len(),
            i <= n,
            s@ == cs@.take(i as int),
        decreases n - i,
    {
        push_char(&mut s, cs[i]);
        assert(cs@.take(i + 1) =~= cs@.take(i as int).push(cs@[i as int]));
        i = i + 1;
    }
    assert(cs@.take(n as int) =~= cs@);
    s
}

/// Unicode `White_Space`: the characters `char::is_whitespace` accepts.
pub open spec fn is_white_space(c: char) -> bool {
    ('\u{9}' <= c && c <= '\u{d}') || c == ' ' || c == '\u{85}' || c == '\u{a0}' || c == '\u{1680}'
        || ('\u{2000}' <= c && c <= '\u{200a}') || c == '\u{2028}' || c == '\u{2029}' || c == '\u{202f}'
        || c == '\u{205f}' || c == '\u{3000}'
}

/// ASCII punctuation: `!` to `/`, `:` to `@`, `[` to `` ` ``, `{` to `~`.
pub open spec fn is_ascii_punct(c: char) -> bool {
    ('!' <= c && c <= '/') || (':' <= c && c <= '@') || ('[' <= c && c <= '`') || ('{' <= c && c <= '~')
}

/// Whether `c` has the Unicode `White_Space` property.
pub fn is_whitespace(c: char) -> (b: bool)
    ensures
        b == is_white_space(c),
{
    ('\u{9}' <= c && c <= '\u{d}') || c == ' ' || c == '\u{85}' || c == '\u{a0}' || c == '\u{1680}'
        || ('\u{2000}' <= c && c <= '\u{200a}') || c == '\u{2028}' || c == '\u{2029}' || c == '\u{202f}'
        || c == '\u{205f}' || c == '\u{3000}'
}

/// Whether `c` is an ASCII punctuation character.
pub fn is_ascii_punctuation(c: char) -> (b: bool)
    ensures
        b == is_ascii_punct(c),
{
    ('!' <= c && c <= '/') || (':' <= c && c <= '@') || ('[' <= c && c <= '`') || ('{' <= c && c <= '~')
}

/// Columns a sequence of characters occupies: the sum of their widths.
pub open spec fn columns_of(cs: Seq<char>) -> nat
    decreases cs.len(),
{
    if cs.len() == 0 {
        0
    } else {
        columns_of(cs.drop_last()) + char_cols(cs.last())
    }
}

/// The number of terminal columns `s` occupies: the sum of its
/// characters' widths.
pub fn display_width(s: &str) -> (w: usize)
    requires
        3 * s@.len() <= usize::MAX,
    ensures
        w == columns_of(s@),
{
    let cs = chars_of(s);
    chars_width(&cs)
}

/// The number of terminal columns the characters occupy.
pub fn chars_width(cs: &Vec<char>) -> (w: usize)
    requires
        3 * cs@.len() <= usize::MAX,
    ensures
        w == columns_of(cs@),
        w <= 3 * cs@.len(),
{
    let n = cs.len();
    let mut total: usize = 0;
    let mut i: usize = 0;
    while i < n
        invariant
            n == cs@.len(),
            3 * n <= usize::MAX,
            i <= n,
            total == columns_of(cs@.take(i as int)),
            total <= 3 * i,
        decreases n - i,
    {
        let w = char_width(cs[i]);
        assert(cs@.take(i + 1).drop_last() =~= cs@.take(i as int));
        total = total + w;
        i = i + 1;
    }
    assert(cs@.take(n as int) =~= cs@);
    total
}

/// The characters of `cs`, the first standing at column `col`, that start
/// at a column from `start` up to (not including) `end`; nothing past the
/// first character starting at or after `end` is taken.
pub open spec fn column_slice(cs: Seq<char>, col: int, start: int, end: int) -> Seq<char>
    decreases cs.len(),
{
    if cs.len() == 0 || col >= end {
        Seq::empty()
    } else {
        let rest = column_slice(cs.drop_first(), col + char_cols(cs[0]), start, end);
        if col >= start { seq![cs[0]] + rest } else { rest }
    }
}

/// The part of `s` that starts at a display column from `start` up to (not
/// including) `end` (see `column_slice`).
pub fn substring_by_columns(s: &str, start: usize, end: usize) -> (r: String)
    requires
        3 * s@.len() <= usize::MAX,
    ensures
        r@ == column_slice(s@, 0, start as int, end as int),
{
    let cs = chars_of(s);
    let part = slice_columns(&cs, start, end);
    string_from_chars(&part)
}

/// The characters that start at a display column from `start` up to (not
/// including) `end` (see `column_slice`).
pub fn slice_columns(cs: &Vec<char>, start: usize, end: usize) -> (r: Vec<char>)
    requires
        3 * cs@.len() <= usize::MAX,
    ensures
        r@ == column_slice(cs@, 0, start as int, end as int),
{
    let n = cs.len();
    let mut out: Vec<char> = Vec::new();
    let mut col: usize = 0;
    let mut i: usize = 0;
    assert(cs@.skip(0) =~= cs@);
    while i < n && col < end
        invariant
            n == cs@.len(),
            3 * n <= usize::MAX,
            i <= n,
            col <= 3 * i,
            column_slice(cs@, 0, start as int, end as int) == out@ + column_slice(cs@.skip(i as int), col as int, start as int, end as int),
        decreases n - i,
    {
        let c = cs[i];
        let w = char_width(c);
        let ghost rest = cs@.skip(i as int);
        assert(rest[0] == c);
        assert(rest.drop_first() =~= cs@.skip(i + 1));
        let ghost tail = column_slice(cs@.skip(i + 1), col + w, start as int, end as int);
        if col >= start {
            out.push(c);
            assert(seq![c] + tail == column_slice(rest, col as int, start as int, end as int));
            assert(out@ =~= (out@.drop_last() + seq![c]));
            assert((out@.drop_last() + seq![c]) + tail =~= out@.drop_last() + (seq![c] + tail));
        }
        col = col + w;
        i = i + 1;
    }
    proof {
        let rest = cs@.skip(i as int);
        if i == n {
            assert(rest.len() == 0);
        }
        assert(column_slice(rest, col as int, start as int, end as int) =~= Seq::<char>::empty());
        assert(out@ + Seq::<char>::empty() =~= out@);
    }
    out
}

} // verus!
