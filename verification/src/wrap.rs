//! Breaking text into lines of a given width: at any character, at the
//! spaces between words, or at spaces with over-long words broken too.  A
//! line break in the text always ends a line.
use vstd::prelude::*;
use crate::style::TextWrap;
use crate::unicode::{char_cols, char_width, chars_of, chars_width, columns_of, string_from_chars};

verus! {

/// The state of wrapping: the finished lines and the line being filled.
pub type Filled = (Seq<Seq<char>>, Seq<char>);

/// Adds `c` to the line being filled when it fits in `w` columns (or the
/// line is empty); otherwise the line is finished and `c` starts the next.
pub open spec fn add_char(done: Seq<Seq<char>>, line: Seq<char>, c: char, w: nat) -> Filled {
    if line.len() == 0 || columns_of(line.push(c)) <= w {
        (done, line.push(c))
    } else {
        (done.push(line), seq![c])
    }
}

/// Adds the characters of `cs` one by one (see `add_char`).
pub open spec fn pack_chars(done: Seq<Seq<char>>, line: Seq<char>, cs: Seq<char>, w: nat) -> Filled
    decreases cs.len(),
{
    if cs.len() == 0 {
        (done, line)
    } else {
        let (d, l) = pack_chars(done, line, cs.drop_last(), w);
        add_char(d, l, cs.last(), w)
    }
}

/// Places a word: after the line's words, a space between, when it fits;
/// otherwise the line is finished and the word starts the next one, broken
/// into pieces of `w` columns when it is wider than that and `breaking`.
pub open spec fn place_word(done: Seq<Seq<char>>, line: Seq<char>, word: Seq<char>, w: nat, breaking: bool) -> Filled {
    if word.len() == 0 {
        (done, line)
    } else if line.len() == 0 && columns_of(word) <= w {
        (done, word)
    } else if line.len() > 0 && columns_of(line.push(' ') + word) <= w {
        (done, line.push(' ') + word)
    } else {
        let d = if line.len() > 0 { done.push(line) } else { done };
        if columns_of(word) <= w || !breaking {
            (d, word)
        } else {
            pack_chars(d, Seq::empty(), word, w)
        }
    }
}

/// The state after the characters of `cs` when wrapping at any character.
pub open spec fn char_fold(cs: Seq<char>, w: nat) -> Filled
    decreases cs.len(),
{
    if cs.len() == 0 {
        (Seq::empty(), Seq::empty())
    } else {
        let (d, l) = char_fold(cs.drop_last(), w);
        if cs.last() == '\n' {
            (d.push(l), Seq::empty())
        } else {
            add_char(d, l, cs.last(), w)
        }
    }
}

/// The state after the characters of `cs` when wrapping at words, with the
/// word being read: a space ends a word, a line break ends the line.
pub open spec fn word_fold(cs: Seq<char>, w: nat, breaking: bool) -> (Seq<Seq<char>>, Seq<char>, Seq<char>)
    decreases cs.len(),
{
    if cs.len() == 0 {
        (Seq::empty(), Seq::empty(), Seq::empty())
    } else {
        let (d, l, word) = word_fold(cs.drop_last(), w, breaking);
        let c = cs.last();
        if c == ' ' {
            let (d2, l2) = place_word(d, l, word, w, breaking);
            (d2, l2, Seq::empty())
        } else if c == '\n' {
            let (d2, l2) = place_word(d, l, word, w, breaking);
            (d2.push(l2), Seq::empty(), Seq::empty())
        } else {
            (d, l, word.push(c))
        }
    }
}

/// The lines `cs` is wrapped into at width `w`: without wrapping, the text
/// as it is; by character, greedily filled lines; by word, words separated
/// by single spaces, filled greedily, a word too wide for a line standing
/// alone on it (or broken into pieces with `WordBreak`).
pub open spec fn wrap_lines(cs: Seq<char>, w: nat, mode: TextWrap) -> Seq<Seq<char>> {
    match mode {
        TextWrap::NoWrap => seq![cs],
        TextWrap::Character => {
            let (d, l) = char_fold(cs, w);
            d.push(l)
        },
        TextWrap::Word => {
            let (d, l, word) = word_fold(cs, w, false);
            let (d2, l2) = place_word(d, l, word, w, false);
            d2.push(l2)
        },
        TextWrap::WordBreak => {
            let (d, l, word) = word_fold(cs, w, true);
            let (d2, l2) = place_word(d, l, word, w, true);
            d2.push(l2)
        },
    }
}

/// A line fits in `w` columns, or holds a single character.
pub open spec fn fits_or_single(line: Seq<char>, w: nat) -> bool {
    columns_of(line) <= w || line.len() == 1
}

/// Every line fits (see `fits_or_single`).
pub open spec fn all_fit(lines: Seq<Seq<char>>, w: nat) -> bool {
    forall|k: int| 0 <= k < lines.len() ==> fits_or_single(#[trigger] lines[k], w)
}

proof fn lemma_push_fits(lines: Seq<Seq<char>>, line: Seq<char>, w: nat)
    requires
        all_fit(lines, w),
        fits_or_single(line, w),
    ensures
        all_fit(lines.push(line), w),
{
    assert forall|k: int| 0 <= k < lines.push(line).len() implies fits_or_single(#[trigger] lines.push(line)[k], w) by {
        if k < lines.len() {
            assert(lines.push(line)[k] == lines[k]);
        }
    }
}

proof fn lemma_add_char_fits(done: Seq<Seq<char>>, line: Seq<char>, c: char, w: nat)
    requires
        all_fit(done, w),
        fits_or_single(line, w),
    ensures
        all_fit(add_char(done, line, c, w).0, w),
        fits_or_single(add_char(done, line, c, w).1, w),
{
    if !(line.len() == 0 || columns_of(line.push(c)) <= w) {
        lemma_push_fits(done, line, w);
    }
}

proof fn lemma_pack_fits(done: Seq<Seq<char>>, line: Seq<char>, cs: Seq<char>, w: nat)
    requires
        all_fit(done, w),
        fits_or_single(line, w),
    ensures
        all_fit(pack_chars(done, line, cs, w).0, w),
        fits_or_single(pack_chars(done, line, cs, w).1, w),
    decreases cs.len(),
{
    if cs.len() > 0 {
        lemma_pack_fits(done, line, cs.drop_last(), w);
        let (d, l) = pack_chars(done, line, cs.drop_last(), w);
        lemma_add_char_fits(d, l, cs.last(), w);
    }
}

proof fn lemma_place_fits(done: Seq<Seq<char>>, line: Seq<char>, word: Seq<char>, w: nat)
    requires
        all_fit(done, w),
        fits_or_single(line, w),
    ensures
        all_fit(place_word(done, line, word, w, true).0, w),
        fits_or_single(place_word(done, line, word, w, true).1, w),
{
    if word.len() > 0 && !(line.len() == 0 && columns_of(word) <= w) && !(line.len() > 0 && columns_of(line.push(' ') + word) <= w) {
        let d = if line.len() > 0 { done.push(line) } else { done };
        if line.len() > 0 {
            lemma_push_fits(done, line, w);
        }
        if columns_of(word) > w {
            lemma_pack_fits(d, Seq::empty(), word, w);
        }
    }
}

proof fn lemma_char_fold_fits(cs: Seq<char>, w: nat)
    ensures
        all_fit(char_fold(cs, w).0, w),
        fits_or_single(char_fold(cs, w).1, w),
    decreases cs.len(),
{
    if cs.len() > 0 {
        lemma_char_fold_fits(cs.drop_last(), w);
        let (d, l) = char_fold(cs.drop_last(), w);
        if cs.last() == '\n' {
            lemma_push_fits(d, l, w);
        } else {
            lemma_add_char_fits(d, l, cs.last(), w);
        }
    }
}

proof fn lemma_word_fold_fits(cs: Seq<char>, w: nat)
    ensures
        all_fit(word_fold(cs, w, true).0, w),
        fits_or_single(word_fold(cs, w, true).1, w),
    decreases cs.len(),
{
    if cs.len() > 0 {
        lemma_word_fold_fits(cs.drop_last(), w);
        let (d, l, word) = word_fold(cs.drop_last(), w, true);
        let c = cs.last();
        if c == ' ' || c == '\n' {
            lemma_place_fits(d, l, word, w);
            if c == '\n' {
                let (d2, l2) = place_word(d, l, word, w, true);
                lemma_push_fits(d2, l2, w);
            }
        }
    }
}

/// Wrapping by character, or by word with over-long words broken, keeps
/// every line within the width: each is at most `w` columns wide, or is a
/// single character wider than that.
pub proof fn lemma_wrapped_lines_fit(cs: Seq<char>, w: nat, mode: TextWrap)
    requires
        mode is Character || mode is WordBreak,
    ensures
        all_fit(wrap_lines(cs, w, mode), w),
{
    if mode is Character {
        lemma_char_fold_fits(cs, w);
        let (d, l) = char_fold(cs, w);
        lemma_push_fits(d, l, w);
    } else {
        lemma_word_fold_fits(cs, w);
        let (d, l, word) = word_fold(cs, w, true);
        lemma_place_fits(d, l, word, w);
        let (d2, l2) = place_word(d, l, word, w, true);
        lemma_push_fits(d2, l2, w);
    }
}

/// The number of line breaks (`'\n'`) in `cs`.
pub open spec fn line_breaks(cs: Seq<char>) -> nat
    decreases cs.len(),
{
    if cs.len() == 0 {
        0
    } else {
        line_breaks(cs.drop_last()) + if cs.last() == '\n' { 1nat } else { 0nat }
    }
}

/// No character of `cs` is a line break.
pub open spec fn unbroken(cs: Seq<char>) -> bool {
    forall|i: int| 0 <= i < cs.len() ==> #[trigger] cs[i] != '\n'
}

/// No line holds a line break.
pub open spec fn all_unbroken(lines: Seq<Seq<char>>) -> bool {
    forall|k: int| 0 <= k < lines.len() ==> unbroken(#[trigger] lines[k])
}

proof fn lemma_push_unbroken(lines: Seq<Seq<char>>, line: Seq<char>)
    requires
        all_unbroken(lines),
        unbroken(line),
    ensures
        all_unbroken(lines.push(line)),
{
    assert forall|k: int| 0 <= k < lines.push(line).len() implies unbroken(#[trigger] lines.push(line)[k]) by {
        if k < lines.len() {
            assert(lines.push(line)[k] == lines[k]);
        }
    }
}

proof fn lemma_add_char_keeps(done: Seq<Seq<char>>, line: Seq<char>, c: char, w: nat)
    requires
        all_unbroken(done),
        unbroken(line),
        c != '\n',
    ensures
        add_char(done, line, c, w).0.len() >= done.len(),
        all_unbroken(add_char(done, line, c, w).0),
        unbroken(add_char(done, line, c, w).1),
{
    assert(unbroken(line.push(c)));
    assert(unbroken(seq![c]));
    if !(line.len() == 0 || columns_of(line.push(c)) <= w) {
        lemma_push_unbroken(done, line);
    }
}

proof fn lemma_pack_keeps(done: Seq<Seq<char>>, line: Seq<char>, cs: Seq<char>, w: nat)
    requires
        all_unbroken(done),
        unbroken(line),
        unbroken(cs),
    ensures
        pack_chars(done, line, cs, w).0.len() >= done.len(),
        all_unbroken(pack_chars(done, line, cs, w).0),
        unbroken(pack_chars(done, line, cs, w).1),
    decreases cs.len(),
{
    if cs.len() > 0 {
        assert(unbroken(cs.drop_last()));
        lemma_pack_keeps(done, line, cs.drop_last(), w);
        let (d, l) = pack_chars(done, line, cs.drop_last(), w);
        assert(cs.last() == cs[cs.len() - 1]);
        lemma_add_char_keeps(d, l, cs.last(), w);
    }
}

proof fn lemma_place_keeps(done: Seq<Seq<char>>, line: Seq<char>, word: Seq<char>, w: nat, breaking: bool)
    requires
        all_unbroken(done),
        unbroken(line),
        unbroken(word),
    ensures
        place_word(done, line, word, w, breaking).0.len() >= done.len(),
        all_unbroken(place_word(done, line, word, w, breaking).0),
        unbroken(place_word(done, line, word, w, breaking).1),
{
    assert(unbroken(line.push(' ') + word)) by {
        assert forall|i: int| 0 <= i < (line.push(' ') + word).len() implies #[trigger] (line.push(' ') + word)[i] != '\n' by {
            if i < line.len() + 1 {
                assert((line.push(' ') + word)[i] == line.push(' ')[i]);
            } else {
                assert((line.push(' ') + word)[i] == word[i - line.len() - 1]);
            }
        }
    }
    if line.len() > 0 {
        lemma_push_unbroken(done, line);
    }
    let d = if line.len() > 0 { done.push(line) } else { done };
    lemma_pack_keeps(d, Seq::empty(), word, w);
}

proof fn lemma_char_fold_counts(cs: Seq<char>, w: nat)
    ensures
        char_fold(cs, w).0.len() >= line_breaks(cs),
        all_unbroken(char_fold(cs, w).0),
        unbroken(char_fold(cs, w).1),
    decreases cs.len(),
{
    if cs.len() > 0 {
        lemma_char_fold_counts(cs.drop_last(), w);
        let (d, l) = char_fold(cs.drop_last(), w);
        if cs.last() == '\n' {
            lemma_push_unbroken(d, l);
        } else {
            lemma_add_char_keeps(d, l, cs.last(), w);
        }
    }
}

proof fn lemma_word_fold_counts(cs: Seq<char>, w: nat, breaking: bool)
    ensures
        word_fold(cs, w, breaking).0.len() >= line_breaks(cs),
        all_unbroken(word_fold(cs, w, breaking).0),
        unbroken(word_fold(cs, w, breaking).1),
        unbroken(word_fold(cs, w, breaking).2),
    decreases cs.len(),
{
    if cs.len() > 0 {
        lemma_word_fold_counts(cs.drop_last(), w, breaking);
        let (d, l, word) = word_fold(cs.drop_last(), w, breaking);
        let c = cs.last();
        if c == ' ' || c == '\n' {
            lemma_place_keeps(d, l, word, w, breaking);
            if c == '\n' {
                let (d2, l2) = place_word(d, l, word, w, breaking);
                lemma_push_unbroken(d2, l2);
            }
        } else {
            assert(unbroken(word.push(c)));
        }
    }
}

/// Law: when text is wrapped (by character or by word), every line break
/// in it ends a line, so there is at least one line more than it has line
/// breaks (an empty line between two breaks is kept), and no line holds a
/// line break.
pub proof fn lemma_every_break_ends_a_line(cs: Seq<char>, w: nat, mode: TextWrap)
    requires
        !(mode is NoWrap),
    ensures
        wrap_lines(cs, w, mode).len() >= line_breaks(cs) + 1,
        all_unbroken(wrap_lines(cs, w, mode)),
{
    if mode is Character {
        lemma_char_fold_counts(cs, w);
        let (d, l) = char_fold(cs, w);
        lemma_push_unbroken(d, l);
    } else {
        let breaking = mode is WordBreak;
        lemma_word_fold_counts(cs, w, breaking);
        let (d, l, word) = word_fold(cs, w, breaking);
        lemma_place_keeps(d, l, word, w, breaking);
        let (d2, l2) = place_word(d, l, word, w, breaking);
        lemma_push_unbroken(d2, l2);
    }
}

/// The views of lines held as strings.
pub open spec fn string_views(v: Seq<String>) -> Seq<Seq<char>> {
    v.map_values(|s: String| s@)
}

/// The views of lines held as vectors of characters.
pub open spec fn char_lines(v: Seq<Vec<char>>) -> Seq<Seq<char>> {
    v.map_values(|l: Vec<char>| l@)
}

/// Every line holds at most `cap` characters.
pub open spec fn lines_within(lines: Seq<Seq<char>>, cap: nat) -> bool {
    forall|k: int| 0 <= k < lines.len() ==> (#[trigger] lines[k]).len() <= cap
}

proof fn lemma_columns_push(s: Seq<char>, c: char)
    ensures
        columns_of(s.push(c)) == columns_of(s) + char_cols(c),
{
    assert(s.push(c).drop_last() =~= s);
}

proof fn lemma_columns_concat(a: Seq<char>, b: Seq<char>)
    ensures
        columns_of(a + b) == columns_of(a) + columns_of(b),
    decreases b.len(),
{
    if b.len() == 0 {
        assert(a + b =~= a);
    } else {
        lemma_columns_concat(a, b.drop_last());
        assert((a + b).drop_last() =~= a + b.drop_last());
        assert((a + b).last() == b.last());
    }
}

/// Finishes the line being filled: it joins the finished lines and a new,
/// empty one is started.
fn finish_line(done: &mut Vec<Vec<char>>, line: &mut Vec<char>, Ghost(cap): Ghost<nat>)
    requires
        lines_within(char_lines(old(done)@), cap),
        old(line)@.len() <= cap,
    ensures
        lines_within(char_lines(final(done)@), cap),
        char_lines(final(done)@) == char_lines(old(done)@).push(old(line)@),
        final(line)@ == Seq::<char>::empty(),
{
    let mut finished: Vec<char> = Vec::new();
    std::mem::swap(&mut finished, line);
    done.push(finished);
    assert(char_lines(done@) =~= char_lines(old(done)@).push(old(line)@));
    assert forall|k: int| 0 <= k < char_lines(done@).len() implies (#[trigger] char_lines(done@)[k]).len() <= cap by {
        if k < old(done)@.len() {
            assert(char_lines(done@)[k] == char_lines(old(done)@)[k]);
        }
    }
}

/// See `add_char`.
fn add_char_exec(done: &mut Vec<Vec<char>>, line: &mut Vec<char>, c: char, w: u16, Ghost(cap): Ghost<nat>)
    requires
        3 * (old(line)@.len() + 1) <= usize::MAX,
        lines_within(char_lines(old(done)@), cap),
        old(line)@.len() + 1 <= cap,
    ensures
        lines_within(char_lines(final(done)@), cap),
        (char_lines(final(done)@), final(line)@) == add_char(char_lines(old(done)@), old(line)@, c, w as nat),
        final(line)@.len() <= old(line)@.len() + 1,
{
    proof {
        lemma_columns_push(line@, c);
    }
    if line.len() == 0 || chars_width(line) + char_width(c) <= w as usize {
        assert(line@.len() == 0 || columns_of(line@.push(c)) <= w);
        line.push(c);
    } else {
        finish_line(done, line, Ghost(cap));
        line.push(c);
        assert(line@ =~= seq![c]);
    }
}

/// See `pack_chars`.
fn pack_chars_exec(done: &mut Vec<Vec<char>>, line: &mut Vec<char>, cs: &Vec<char>, w: u16, Ghost(cap): Ghost<nat>)
    requires
        3 * (old(line)@.len() + cs@.len() + 1) <= usize::MAX,
        lines_within(char_lines(old(done)@), cap),
        old(line)@.len() + cs@.len() <= cap,
    ensures
        lines_within(char_lines(final(done)@), cap),
        (char_lines(final(done)@), final(line)@) == pack_chars(char_lines(old(done)@), old(line)@, cs@, w as nat),
        final(line)@.len() <= old(line)@.len() + cs@.len(),
{
    let ghost d0 = char_lines(done@);
    let ghost l0 = line@;
    let mut i: usize = 0;
    assert(cs@.take(0) =~= Seq::<char>::empty());
    while i < cs.len()
        invariant
            i <= cs@.len(),
            3 * (l0.len() + cs@.len() + 1) <= usize::MAX,
            line@.len() <= l0.len() + i,
            l0.len() + cs@.len() <= cap,
            lines_within(char_lines(done@), cap),
            (char_lines(done@), line@) == pack_chars(d0, l0, cs@.take(i as int), w as nat),
        decreases cs@.len() - i,
    {
        add_char_exec(done, line, cs[i], w, Ghost(cap));
        assert(cs@.take(i + 1).drop_last() =~= cs@.take(i as int));
        i = i + 1;
    }
    assert(cs@.take(i as int) =~= cs@);
}

/// See `place_word`.
fn place_word_exec(done: &mut Vec<Vec<char>>, line: &mut Vec<char>, word: Vec<char>, w: u16, breaking: bool, Ghost(cap): Ghost<nat>)
    requires
        3 * (old(line)@.len() + word@.len() + 2) <= usize::MAX,
        lines_within(char_lines(old(done)@), cap),
        old(line)@.len() + word@.len() + 1 <= cap,
    ensures
        lines_within(char_lines(final(done)@), cap),
        (char_lines(final(done)@), final(line)@) == place_word(char_lines(old(done)@), old(line)@, word@, w as nat, breaking),
        final(line)@.len() <= old(line)@.len() + word@.len() + 1,
{
    let ghost d0 = char_lines(done@);
    let ghost l0 = line@;
    if word.len() == 0 {
        return;
    }
    let word_cols = chars_width(&word);
    if line.len() == 0 && word_cols <= w as usize {
        *line = word;
        return;
    }
    let mut joined: Vec<char> = Vec::new();
    if line.len() > 0 {
        let line_cols = chars_width(line);
        proof {
            lemma_columns_push(line@, ' ');
            lemma_columns_concat(line@.push(' '), word@);
        }
        if line_cols + char_width(' ') + word_cols <= w as usize {
            line.push(' ');
            let mut k: usize = 0;
            let ghost base = line@;
            while k < word.len()
                invariant
                    k <= word@.len(),
                    line@ == base + word@.take(k as int),
                decreases word@.len() - k,
            {
                line.push(word[k]);
                assert(word@.take(k + 1) =~= word@.take(k as int).push(word@[k as int]));
                k = k + 1;
            }
            assert(word@.take(k as int) =~= word@);
            return;
        }
        finish_line(done, line, Ghost(cap));
    }
    let ghost d = if l0.len() > 0 { d0.push(l0) } else { d0 };
    assert(char_lines(done@) == d);
    assert(line@ == Seq::<char>::empty());
    assert(!(l0.len() == 0 && columns_of(word@) <= w as nat));
    assert(!(l0.len() > 0 && columns_of(l0.push(' ') + word@) <= w as nat));
    if word_cols <= w as usize || !breaking {
        *line = word;
    } else {
        pack_chars_exec(done, line, &word, w, Ghost(cap));
    }
}

/// Breaks `text` into lines of `width` columns as `mode` says (see
/// `wrap_lines`).
pub fn wrap_text(text: &str, width: u16, mode: TextWrap) -> (lines: Vec<String>)
    requires
        3 * (text@.len() + 2) <= usize::MAX,
    ensures
        string_views(lines@) == wrap_lines(text@, width as nat, mode),
        forall|k: int| 0 <= k < lines@.len() ==> (#[trigger] lines@[k])@.len() <= text@.len() + 1,
{
    let cs = chars_of(text);
    let mut done: Vec<Vec<char>> = Vec::new();
    let mut line: Vec<char> = Vec::new();
    let n = cs.len();
    let ghost w = width as nat;
    let ghost cap = (n + 1) as nat;
    match mode {
        TextWrap::NoWrap => {
            done.push(cs);
            assert(char_lines(done@) =~= wrap_lines(text@, w, mode));
            assert(char_lines(done@)[0] == text@);
        },
        TextWrap::Character => {
            let mut i: usize = 0;
            assert(cs@.take(0) =~= Seq::<char>::empty());
            while i < n
                invariant
                    n == cs@.len(),
                    w == width as nat,
                    cap == n + 1,
                    lines_within(char_lines(done@), cap),
                    3 * (n + 2) <= usize::MAX,
                    i <= n,
                    line@.len() <= i,
                    (char_lines(done@), line@) == char_fold(cs@.take(i as int), w),
                decreases n - i,
            {
                let c = cs[i];
                let ghost prev = cs@.take(i as int);
                let ghost next = cs@.take(i + 1);
                assert(next.drop_last() =~= prev);
                assert(next.last() == c);
                assert(next.len() > 0);
                let ghost st = char_fold(prev, w);
                assert(st == (char_lines(done@), line@));
                assert(char_fold(next, w) == (if c == '\n' { (st.0.push(st.1), Seq::<char>::empty()) } else { add_char(st.0, st.1, c, w) }));
                if c == '\n' {
                    finish_line(&mut done, &mut line, Ghost(cap));
                    assert(char_lines(done@) == st.0.push(st.1));
                    assert(line@ == Seq::<char>::empty());
                } else {
                    add_char_exec(&mut done, &mut line, c, width, Ghost(cap));
                    assert((char_lines(done@), line@) == add_char(st.0, st.1, c, w));
                }
                assert((char_lines(done@), line@) == char_fold(next, w));
                i = i + 1;
            }
            assert(cs@.take(i as int) =~= cs@);
            finish_line(&mut done, &mut line, Ghost(cap));
        },
        _ => {
            let breaking = match mode {
                TextWrap::WordBreak => true,
                _ => false,
            };
            let mut word: Vec<char> = Vec::new();
            let mut i: usize = 0;
            assert(cs@.take(0) =~= Seq::<char>::empty());
            while i < n
                invariant
                    n == cs@.len(),
                    w == width as nat,
                    cap == n + 1,
                    lines_within(char_lines(done@), cap),
                    3 * (n + 2) <= usize::MAX,
                    i <= n,
                    line@.len() + word@.len() <= i,
                    breaking == (mode is WordBreak),
                    (char_lines(done@), line@, word@) == word_fold(cs@.take(i as int), w, breaking),
                decreases n - i,
            {
                let c = cs[i];
                let ghost next = cs@.take(i + 1);
                assert(next.drop_last() =~= cs@.take(i as int));
                assert(next.last() == c);
                assert(next.len() > 0);
                if c == ' ' || c == '\n' {
                    let mut finished_word: Vec<char> = Vec::new();
                    std::mem::swap(&mut finished_word, &mut word);
                    place_word_exec(&mut done, &mut line, finished_word, width, breaking, Ghost(cap));
                    if c == '\n' {
                        finish_line(&mut done, &mut line, Ghost(cap));
                    }
                } else {
                    word.push(c);
                }
                assert((char_lines(done@), line@, word@) == word_fold(next, w, breaking));
                i = i + 1;
            }
            assert(cs@.take(i as int) =~= cs@);
            place_word_exec(&mut done, &mut line, word, width, breaking, Ghost(cap));
            finish_line(&mut done, &mut line, Ghost(cap));
        },
    }
    let mut lines: Vec<String> = Vec::new();
    let m = done.len();
    let mut k: usize = 0;
    while k < m
        invariant
            m == done@.len(),
            k <= m,
            lines@.len() == k,
            string_views(lines@) == char_lines(done@).take(k as int),
            lines_within(char_lines(done@), (text@.len() + 1) as nat),
        decreases m - k,
    {
        let ghost prev = lines@;
        let s = string_from_chars(&done[k]);
        lines.push(s);
        assert(lines@ == prev.push(s));
        assert forall|j: int| 0 <= j <= k implies #[trigger] string_views(lines@)[j] == char_lines(done@).take(k + 1)[j] by {
            if j < k {
                assert(lines@[j] == prev[j]);
                assert(string_views(prev)[j] == char_lines(done@).take(k as int)[j]);
            }
        }
        assert(string_views(lines@) =~= char_lines(done@).take(k + 1));
        k = k + 1;
    }
    assert(char_lines(done@).take(m as int) =~= char_lines(done@));
    assert forall|k: int| 0 <= k < lines@.len() implies (#[trigger] lines@[k])@.len() <= text@.len() + 1 by {
        assert(string_views(lines@)[k] == lines@[k]@);
        assert(char_lines(done@)[k].len() <= text@.len() + 1);
    }
    lines
}

} // verus!
