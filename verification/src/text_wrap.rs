//! Wrapping a text node: once its text has been broken into lines, the
//! node becomes wrapped text, and styled spans are cut along the lines so
//! that every piece keeps the style of the span it came from.
use vstd::prelude::*;
use crate::layout::{resolved_height, resolved_width, RenderNode, RenderNodeType, TextSpan};
use crate::style::{Dimension, TextStyle, TextWrap};
use crate::unicode::{chars_of, columns_of, display_width, push_char, string_from_chars};
use crate::wrap::{string_views, wrap_lines, wrap_text};

verus! {

/// For each character of the spans' text, the index of the span it
/// belongs to.
pub open spec fn span_labels(spans: Seq<TextSpan>) -> Seq<usize>
    decreases spans.len(),
{
    if spans.len() == 0 {
        Seq::empty()
    } else {
        span_labels(spans.drop_last()) + Seq::new(spans.last().content@.len(), |i: int| (spans.len() - 1) as usize)
    }
}

proof fn lemma_labels_in_range(spans: Seq<TextSpan>)
    ensures
        forall|i: int| 0 <= i < span_labels(spans).len() ==> (#[trigger] span_labels(spans)[i]) < spans.len(),
    decreases spans.len(),
{
    if spans.len() > 0 {
        let front = spans.drop_last();
        lemma_labels_in_range(front);
        let a = span_labels(front);
        let b = Seq::new(spans.last().content@.len(), |i: int| (spans.len() - 1) as usize);
        assert(span_labels(spans) == a + b);
        assert forall|i: int| 0 <= i < span_labels(spans).len() implies (#[trigger] span_labels(spans)[i]) < spans.len() by {
            if i < a.len() {
                assert(span_labels(spans)[i] == a[i]);
            } else {
                assert(span_labels(spans)[i] == b[i - a.len()]);
            }
        }
    }
}

/// The run being gathered, as a list of at most one run.
pub open spec fn close_run(cur: Option<(usize, Seq<char>)>) -> Seq<(usize, Seq<char>)> {
    match cur {
        Some(c) => seq![c],
        None => Seq::empty(),
    }
}

/// Cutting a line, from its character `p` on, into runs of characters
/// that come from one span: character `p` of the line is character
/// `off + p` of the whole text; characters past the end of the text are
/// dropped; `cur` is the run being gathered.
pub open spec fn runs_from(line: Seq<char>, p: int, off: int, labels: Seq<usize>, cur: Option<(usize, Seq<char>)>) -> Seq<(usize, Seq<char>)>
    decreases line.len() - p,
{
    if p >= line.len() || p < 0 {
        close_run(cur)
    } else if off + p < labels.len() {
        let l = labels[off + p];
        match cur {
            Some((ci, cs)) => if ci == l {
                runs_from(line, p + 1, off, labels, Some((ci, cs.push(line[p]))))
            } else {
                seq![(ci, cs)] + runs_from(line, p + 1, off, labels, Some((l, seq![line[p]])))
            },
            None => runs_from(line, p + 1, off, labels, Some((l, seq![line[p]]))),
        }
    } else {
        runs_from(line, p + 1, off, labels, cur)
    }
}

/// Whether `out` holds the runs as spans: each with the run's characters
/// and the style and cursor flag of the span they come from.
pub open spec fn spans_match(out: Seq<TextSpan>, runs: Seq<(usize, Seq<char>)>, spans: Seq<TextSpan>) -> bool {
    &&& out.len() == runs.len()
    &&& forall|j: int| 0 <= j < out.len() ==> {
        &&& (#[trigger] out[j]).content@ == runs[j].1
        &&& out[j].style == spans[runs[j].0 as int].style
        &&& out[j].is_cursor == spans[runs[j].0 as int].is_cursor
    }
}

/// The spans of one line (see `runs_from` and `spans_match`).
fn line_spans(line: &Vec<char>, off: usize, labels: &Vec<usize>, spans: &Vec<TextSpan>) -> (r: Vec<TextSpan>)
    requires
        labels@ == span_labels(spans@),
        off + line@.len() <= usize::MAX,
    ensures
        spans_match(r@, runs_from(line@, 0, off as int, labels@, None), spans@),
{
    proof {
        lemma_labels_in_range(spans@);
    }
    let n = line.len();
    let mut out: Vec<TextSpan> = Vec::new();
    let ghost mut done: Seq<(usize, Seq<char>)> = Seq::empty();
    let mut cur_idx: Option<usize> = None;
    let mut cur: Vec<char> = Vec::new();
    let mut p: usize = 0;
    while p < n
        invariant
            n == line@.len(),
            p <= n,
            off + n <= usize::MAX,
            labels@ == span_labels(spans@),
            forall|i: int| 0 <= i < labels@.len() ==> (#[trigger] labels@[i]) < spans@.len(),
            cur_idx matches Some(ci) ==> ci < spans@.len(),
            done + runs_from(line@, p as int, off as int, labels@, match cur_idx {
                Some(ci) => Some((ci, cur@)),
                None => None,
            }) == runs_from(line@, 0, off as int, labels@, None),
            spans_match(out@, done, spans@),
        decreases n - p,
    {
        let c = line[p];
        if off + p < labels.len() {
            let l = labels[off + p];
            let same = match cur_idx {
                Some(ci) => ci == l,
                None => false,
            };
            if same {
                cur.push(c);
            } else {
                match cur_idx {
                    Some(ci) => {
                        let piece = TextSpan { content: string_from_chars(&cur), style: spans[ci].style, is_cursor: spans[ci].is_cursor };
                        let ghost out_before = out@;
                        out.push(piece);
                        proof {
                            let old_done = done;
                            done = done.push((ci, cur@));
                            assert(old_done + (seq![(ci, cur@)] + runs_from(line@, p + 1, off as int, labels@, Some((l, seq![c]))))
                                =~= done + runs_from(line@, p + 1, off as int, labels@, Some((l, seq![c]))));
                            assert forall|j: int| 0 <= j < out@.len() implies {
                                &&& (#[trigger] out@[j]).content@ == done[j].1
                                &&& out@[j].style == spans@[done[j].0 as int].style
                                &&& out@[j].is_cursor == spans@[done[j].0 as int].is_cursor
                            } by {
                                if j < old_done.len() {
                                    assert(out@[j] == out_before[j]);
                                }
                            }
                        }
                    },
                    None => {},
                }
                cur_idx = Some(l);
                cur = Vec::new();
                cur.push(c);
            }
        }
        p = p + 1;
    }
    match cur_idx {
        Some(ci) => {
            let piece = TextSpan { content: string_from_chars(&cur), style: spans[ci].style, is_cursor: spans[ci].is_cursor };
            out.push(piece);
            proof {
                done = done.push((ci, cur@));
            }
        },
        None => {},
    }
    proof {
        assert(done =~= runs_from(line@, 0, off as int, labels@, None));
    }
    out
}

/// The labels of the spans' characters (see `span_labels`).
fn build_labels(spans: &Vec<TextSpan>) -> (r: Vec<usize>)
    ensures
        r@ == span_labels(spans@),
{
    let n = spans.len();
    let mut labels: Vec<usize> = Vec::new();
    let mut k: usize = 0;
    assert(spans@.take(0) =~= Seq::<TextSpan>::empty());
    while k < n
        invariant
            n == spans@.len(),
            k <= n,
            labels@ == span_labels(spans@.take(k as int)),
        decreases n - k,
    {
        let cs = chars_of(spans[k].content.as_str());
        let m = cs.len();
        let ghost start = labels@;
        let mut j: usize = 0;
        while j < m
            invariant
                j <= m,
                labels@ == start + Seq::new(j as nat, |i: int| k),
            decreases m - j,
        {
            labels.push(k);
            assert(labels@ =~= start + Seq::new((j + 1) as nat, |i: int| k));
            j = j + 1;
        }
        proof {
            let t = spans@.take(k + 1);
            assert(t.drop_last() =~= spans@.take(k as int));
            assert(t.last() == spans@[k as int]);
            assert(Seq::new(m as nat, |i: int| k) =~= Seq::new(t.last().content@.len(), |i: int| (t.len() - 1) as usize));
        }
        k = k + 1;
    }
    assert(spans@.take(n as int) =~= spans@);
    labels
}

/// Where line `k` starts in the whole text: the characters of the lines
/// before it.
pub open spec fn line_offset(lines: Seq<String>, k: int) -> int
    decreases k,
{
    if k <= 0 {
        0
    } else {
        line_offset(lines, k - 1) + lines[k - 1]@.len()
    }
}

/// The runs of the first `k` lines, leaving out lines with no run.
pub open spec fn kept_runs(lines: Seq<String>, labels: Seq<usize>, k: int) -> Seq<Seq<(usize, Seq<char>)>>
    decreases k,
{
    if k <= 0 {
        Seq::empty()
    } else {
        let prev = kept_runs(lines, labels, k - 1);
        let r = runs_from(lines[k - 1]@, 0, line_offset(lines, k - 1), labels, None);
        if r.len() > 0 { prev.push(r) } else { prev }
    }
}

/// Whether `out` holds, line by line, the runs as spans.
pub open spec fn lines_match(out: Seq<Vec<TextSpan>>, runs: Seq<Seq<(usize, Seq<char>)>>, spans: Seq<TextSpan>) -> bool {
    &&& out.len() == runs.len()
    &&& forall|j: int| 0 <= j < out.len() ==> spans_match((#[trigger] out[j])@, runs[j], spans)
}

proof fn lemma_line_offset_grows(lines: Seq<String>, j: int, k: int)
    requires
        0 <= j <= k,
    ensures
        line_offset(lines, j) <= line_offset(lines, k),
    decreases k - j,
{
    if j < k {
        lemma_line_offset_grows(lines, j, k - 1);
    }
}

/// Cuts the spans along the wrapped lines of their text (see `kept_runs`
/// and `lines_match`).
pub fn restyle_lines(spans: &Vec<TextSpan>, lines: &Vec<String>) -> (r: Vec<Vec<TextSpan>>)
    requires
        line_offset(lines@, lines@.len() as int) <= usize::MAX,
    ensures
        lines_match(r@, kept_runs(lines@, span_labels(spans@), lines@.len() as int), spans@),
{
    let labels = build_labels(spans);
    let n = lines.len();
    let mut out: Vec<Vec<TextSpan>> = Vec::new();
    let mut off: usize = 0;
    let mut k: usize = 0;
    while k < n
        invariant
            n == lines@.len(),
            k <= n,
            labels@ == span_labels(spans@),
            line_offset(lines@, n as int) <= usize::MAX,
            off == line_offset(lines@, k as int),
            lines_match(out@, kept_runs(lines@, labels@, k as int), spans@),
        decreases n - k,
    {
        let cs = chars_of(lines[k].as_str());
        proof {
            lemma_line_offset_grows(lines@, k + 1, n as int);
        }
        let pieces = line_spans(&cs, off, &labels, spans);
        if pieces.len() > 0 {
            let ghost before = out@;
            out.push(pieces);
            proof {
                assert forall|j: int| 0 <= j < out@.len() implies spans_match((#[trigger] out@[j])@, kept_runs(lines@, labels@, k + 1)[j], spans@) by {
                    if j < before.len() {
                        assert(out@[j] == before[j]);
                    }
                }
            }
        }
        off = off + cs.len();
        k = k + 1;
    }
    out
}

/// Whether a node's text style asks for wrapping.
pub open spec fn wrap_enabled(n: RenderNode) -> bool {
    match n.text_style {
        Some(t) => match t.wrap {
            Some(m) => m != TextWrap::NoWrap,
            None => false,
        },
        None => false,
    }
}

/// The width of a line of runs: the sum of the runs' widths, each taken
/// modulo 2^16.
pub open spec fn runs_width(runs: Seq<(usize, Seq<char>)>) -> int
    decreases runs.len(),
{
    if runs.len() == 0 {
        0
    } else {
        runs_width(runs.drop_last()) + columns_of(runs.last().1) % 65536
    }
}

/// The widest of the lines of runs.
pub open spec fn max_runs_width(lines: Seq<Seq<(usize, Seq<char>)>>) -> int
    decreases lines.len(),
{
    if lines.len() == 0 {
        0
    } else {
        let rest = max_runs_width(lines.drop_last());
        let last = runs_width(lines.last());
        if rest >= last { rest } else { last }
    }
}

proof fn lemma_spans_width_of_runs(out: Seq<TextSpan>, runs: Seq<(usize, Seq<char>)>, spans: Seq<TextSpan>)
    requires
        spans_match(out, runs, spans),
    ensures
        crate::render::spans_width(out) == runs_width(runs),
    decreases out.len(),
{
    if out.len() > 0 {
        let o2 = out.drop_last();
        let r2 = runs.drop_last();
        assert(spans_match(o2, r2, spans)) by {
            assert forall|j: int| 0 <= j < o2.len() implies {
                &&& (#[trigger] o2[j]).content@ == r2[j].1
                &&& o2[j].style == spans[r2[j].0 as int].style
                &&& o2[j].is_cursor == spans[r2[j].0 as int].is_cursor
            } by {
                assert(o2[j] == out[j]);
                assert(r2[j] == runs[j]);
            }
        }
        lemma_spans_width_of_runs(o2, r2, spans);
        assert(out.last() == out[out.len() - 1]);
    }
}

/// What measuring wrapped spans needs: each piece can be counted and each
/// line is at most `u16::MAX` wide.
pub open spec fn runs_ok(lines: Seq<Seq<(usize, Seq<char>)>>) -> bool {
    forall|j: int| 0 <= j < lines.len() ==> {
        &&& runs_width(#[trigger] lines[j]) <= 65535
        &&& forall|q: int| 0 <= q < lines[j].len() ==> 3 * (#[trigger] lines[j][q]).1.len() <= usize::MAX
    }
}

/// Whether wrapping a node with the given lines stays within the integer
/// types.
pub open spec fn wrapping_ok(n: RenderNode, available_width: u16, wrapped: Seq<String>) -> bool {
    wrap_enabled(n) && available_width > 0 ==> match n.node_type {
        RenderNodeType::Text(_) => forall|k: int| 0 <= k < wrapped.len() ==> 3 * (#[trigger] wrapped[k])@.len() <= usize::MAX,
        RenderNodeType::RichText(spans) => {
            &&& line_offset(wrapped, wrapped.len() as int) <= usize::MAX
            &&& runs_ok(kept_runs(wrapped, span_labels(spans@), wrapped.len() as int))
        },
        _ => true,
    }
}

/// Whether the lines a node's text wraps into at `available_width` (see
/// `wrap_lines`) can be applied within the integer types (see
/// `wrapping_ok`), whatever strings hold them.
pub open spec fn wrapped_lines_fit(n: RenderNode, available_width: u16) -> bool {
    forall|ls: Seq<String>| string_views(ls) == wrap_lines(node_text_of(n), available_width as nat, wrap_mode_of(n))
        ==> #[trigger] wrapping_ok(n, available_width, ls)
}

proof fn lemma_line_offset_views(a: Seq<String>, b: Seq<String>, k: int)
    requires
        string_views(a) == string_views(b),
        0 <= k <= a.len(),
    ensures
        line_offset(a, k) == line_offset(b, k),
    decreases k,
{
    assert(a.len() == string_views(a).len() && b.len() == string_views(b).len());
    if k > 0 {
        lemma_line_offset_views(a, b, k - 1);
        assert(string_views(a)[k - 1] == a[k - 1]@);
        assert(string_views(b)[k - 1] == b[k - 1]@);
    }
}

proof fn lemma_kept_runs_views(a: Seq<String>, b: Seq<String>, labels: Seq<usize>, k: int)
    requires
        string_views(a) == string_views(b),
        0 <= k <= a.len(),
    ensures
        kept_runs(a, labels, k) == kept_runs(b, labels, k),
    decreases k,
{
    assert(a.len() == string_views(a).len() && b.len() == string_views(b).len());
    if k > 0 {
        lemma_kept_runs_views(a, b, labels, k - 1);
        lemma_line_offset_views(a, b, k - 1);
        assert(string_views(a)[k - 1] == a[k - 1]@);
        assert(string_views(b)[k - 1] == b[k - 1]@);
    }
}

/// Whether wrapping with some lines fits depends on the lines' text alone.
proof fn lemma_wrapping_ok_views(n: RenderNode, w: u16, a: Seq<String>, b: Seq<String>)
    requires
        string_views(a) == string_views(b),
    ensures
        wrapping_ok(n, w, a) == wrapping_ok(n, w, b),
{
    assert(a.len() == string_views(a).len());
    assert(b.len() == string_views(b).len());
    assert(a.len() == b.len());
    assert forall|k: int| 0 <= k < a.len() implies (#[trigger] a[k])@ == b[k]@ by {
        assert(string_views(a)[k] == a[k]@);
        assert(string_views(b)[k] == b[k]@);
    }
    lemma_line_offset_views(a, b, a.len() as int);
    match n.node_type {
        RenderNodeType::RichText(spans) => {
            lemma_kept_runs_views(a, b, span_labels(spans@), a.len() as int);
        },
        RenderNodeType::Text(_) => {
            if forall|k: int| 0 <= k < a.len() ==> 3 * (#[trigger] a[k])@.len() <= usize::MAX {
                assert forall|k: int| 0 <= k < b.len() implies 3 * (#[trigger] b[k])@.len() <= usize::MAX by {
                    assert(a[k]@ == b[k]@);
                }
            }
            if forall|k: int| 0 <= k < b.len() ==> 3 * (#[trigger] b[k])@.len() <= usize::MAX {
                assert forall|k: int| 0 <= k < a.len() implies 3 * (#[trigger] a[k])@.len() <= usize::MAX by {
                    assert(a[k]@ == b[k]@);
                }
            }
        },
        _ => {},
    }
}

/// `after` is `before` wrapped at `available_width` into the lines
/// `wrapped` (see `RenderNode::apply_text_wrapping`).
pub open spec fn wrapped_into(before: RenderNode, after: RenderNode, available_width: u16, wrapped: Seq<String>) -> bool {
    match before.node_type {
        RenderNodeType::Text(_) => if wrap_enabled(before) && available_width > 0 {
            &&& after.node_type matches RenderNodeType::TextWrapped(ls) && ls@ == wrapped
            &&& after == (RenderNode {
                node_type: after.node_type,
                height: (wrapped.len() % 65536) as u16,
                width: (crate::intrinsic::max_columns(wrapped) % 65536) as u16,
                ..before
            })
        } else {
            after == before
        },
        RenderNodeType::RichText(spans) => {
            let runs = kept_runs(wrapped, span_labels(spans@), wrapped.len() as int);
            if wrap_enabled(before) && available_width > 0 && runs.len() > 0 {
                &&& after.node_type matches RenderNodeType::RichTextWrapped(out) && lines_match(out@, runs, spans@)
                &&& after == (RenderNode {
                    node_type: after.node_type,
                    height: (runs.len() % 65536) as u16,
                    width: max_runs_width(runs) as u16,
                    ..before
                })
            } else {
                after == before
            }
        },
        _ => after == before,
    }
}

impl RenderNode {
    /// Wraps the node's text at `available_width`, given `wrapped`, its
    /// text broken into lines at that width.  Only a text or span node
    /// whose text style asks for wrapping, with some width available,
    /// changes.  Text becomes the wrapped lines, as high as their number and
    /// as wide as the widest.  Spans are cut along the lines into pieces
    /// that keep their span's style and cursor flag (`restyle_lines`);
    /// lines with no piece are left out; when some line is left, the node
    /// becomes those lines of spans, as high as their number and as wide as
    /// the widest.  Counts and widths are taken modulo 2^16.
    pub fn apply_text_wrapping(&mut self, available_width: u16, wrapped: Vec<String>)
        requires
            wrapping_ok(*old(self), available_width, wrapped@),
        ensures
            wrapped_into(*old(self), *final(self), available_width, wrapped@),
    {
        let enabled = match &self.text_style {
            Some(t) => match t.wrap {
                Some(TextWrap::NoWrap) => false,
                Some(_) => true,
                None => false,
            },
            None => false,
        };
        if !enabled || available_width == 0 {
            return;
        }
        let lines_of_spans = match &self.node_type {
            RenderNodeType::Text(_) => {
                let width = (crate::intrinsic::widest_line(&wrapped) % 65536) as u16;
                let height = (wrapped.len() % 65536) as u16;
                self.node_type = RenderNodeType::TextWrapped(wrapped);
                self.height = height;
                self.width = width;
                return;
            },
            RenderNodeType::RichText(spans) => restyle_lines(spans, &wrapped),
            _ => {
                return;
            },
        };
        let ghost spans = old(self).node_type->RichText_0@;
        let ghost runs = kept_runs(wrapped@, span_labels(spans), wrapped@.len() as int);
        let n = lines_of_spans.len();
        if n == 0 {
            return;
        }
        let mut best: u16 = 0;
        let mut k: usize = 0;
        while k < n
            invariant
                n == lines_of_spans@.len(),
                k <= n,
                lines_match(lines_of_spans@, runs, spans),
                runs_ok(runs),
                best == max_runs_width(runs.take(k as int)),
            decreases n - k,
        {
            proof {
                lemma_spans_width_of_runs(lines_of_spans@[k as int]@, runs[k as int], spans);
                assert forall|q: int| 0 <= q < lines_of_spans@[k as int]@.len() implies 3 * (#[trigger] lines_of_spans@[k as int]@[q]).content@.len() <= usize::MAX by {
                    assert(lines_of_spans@[k as int]@[q].content@ == runs[k as int][q].1);
                }
                assert(runs.take(k + 1).drop_last() =~= runs.take(k as int));
            }
            let w = crate::render::spans_total(&lines_of_spans[k]);
            if w > best {
                best = w;
            }
            k = k + 1;
        }
        assert(runs.take(n as int) =~= runs);
        self.height = (n % 65536) as u16;
        self.width = best;
        self.node_type = RenderNodeType::RichTextWrapped(lines_of_spans);
    }
}

/// The characters of the runs, one run after another.
pub open spec fn run_chars(runs: Seq<(usize, Seq<char>)>) -> Seq<char>
    decreases runs.len(),
{
    if runs.len() == 0 {
        Seq::empty()
    } else {
        runs[0].1 + run_chars(runs.drop_first())
    }
}

/// Where the part of a line that lies within the text ends: the line's
/// end, or earlier where the text runs out.
pub open spec fn text_end(line: Seq<char>, off: int, labels: Seq<usize>) -> int {
    if labels.len() - off < line.len() { if labels.len() - off > 0 { labels.len() - off } else { 0 } } else { line.len() as int }
}

proof fn lemma_runs_from_chars(line: Seq<char>, p: int, off: int, labels: Seq<usize>, cur: Option<(usize, Seq<char>)>)
    requires
        0 <= off,
        0 <= p <= line.len(),
        cur matches Some((ci, cs)) ==> cs.len() > 0,
    ensures
        run_chars(runs_from(line, p, off, labels, cur)) == (match cur {
            Some((ci, cs)) => cs,
            None => Seq::empty(),
        }) + line.subrange(p, if p <= text_end(line, off, labels) { text_end(line, off, labels) } else { p }),
    decreases line.len() - p,
{
    let end = text_end(line, off, labels);
    let prefix: Seq<char> = match cur {
        Some((ci, cs)) => cs,
        None => Seq::empty(),
    };
    if p >= line.len() {
        match cur {
            Some(c) => {
                assert(close_run(cur) == seq![c]);
                assert(seq![c].drop_first() =~= Seq::<(usize, Seq<char>)>::empty());
                assert(run_chars(seq![c]) == c.1 + run_chars(Seq::<(usize, Seq<char>)>::empty()));
                assert(c.1 + Seq::<char>::empty() =~= c.1);
            },
            None => {},
        }
        assert(line.subrange(p, p) =~= Seq::<char>::empty());
        assert(prefix + Seq::<char>::empty() =~= prefix);
    } else if off + p < labels.len() {
        let l = labels[off + p];
        let c = line[p];
        assert(p < end);
        match cur {
            Some((ci, cs)) => {
                if ci == l {
                    lemma_runs_from_chars(line, p + 1, off, labels, Some((ci, cs.push(c))));
                    assert(cs.push(c) + line.subrange(p + 1, end) =~= cs + line.subrange(p, end));
                } else {
                    lemma_runs_from_chars(line, p + 1, off, labels, Some((l, seq![c])));
                    let rest = runs_from(line, p + 1, off, labels, Some((l, seq![c])));
                    let all = seq![(ci, cs)] + rest;
                    assert(all.drop_first() =~= rest);
                    assert(all[0] == (ci, cs));
                    assert(run_chars(all) == cs + run_chars(rest));
                    assert(cs + (seq![c] + line.subrange(p + 1, end)) =~= cs + line.subrange(p, end));
                }
            },
            None => {
                lemma_runs_from_chars(line, p + 1, off, labels, Some((l, seq![c])));
                assert(seq![c] + line.subrange(p + 1, end) =~= Seq::<char>::empty() + line.subrange(p, end));
            },
        }
    } else {
        assert(p >= end);
        lemma_runs_from_chars(line, p + 1, off, labels, cur);
        assert(line.subrange(p + 1, p + 1) =~= line.subrange(p, p));
    }
}

/// Cutting a line into pieces keeps its characters: the pieces' characters,
/// one after another, are the line's characters up to where the text runs
/// out.
pub proof fn lemma_pieces_keep_line(line: Seq<char>, off: int, labels: Seq<usize>)
    requires
        0 <= off,
    ensures
        run_chars(runs_from(line, 0, off, labels, None)) == line.subrange(0, text_end(line, off, labels)),
{
    lemma_runs_from_chars(line, 0, off, labels, None);
    assert(Seq::<char>::empty() + line.subrange(0, text_end(line, off, labels)) =~= line.subrange(0, text_end(line, off, labels)));
}

/// The contents of spans, one after another.
pub open spec fn spans_text(spans: Seq<TextSpan>) -> Seq<char>
    decreases spans.len(),
{
    if spans.len() == 0 {
        Seq::empty()
    } else {
        spans_text(spans.drop_last()) + spans.last().content@
    }
}

/// The text a node wraps: its text, or its spans' contents joined.
pub open spec fn node_text_of(n: RenderNode) -> Seq<char> {
    match n.node_type {
        RenderNodeType::Text(t) => t@,
        RenderNodeType::RichText(spans) => spans_text(spans@),
        _ => Seq::empty(),
    }
}

/// How a node's text style asks its text to wrap.
pub open spec fn wrap_mode_of(n: RenderNode) -> TextWrap {
    match n.text_style {
        Some(t) => match t.wrap {
            Some(m) => m,
            None => TextWrap::NoWrap,
        },
        None => TextWrap::NoWrap,
    }
}

proof fn lemma_runs_width_grows(runs: Seq<(usize, Seq<char>)>, q: int)
    requires
        0 <= q <= runs.len(),
    ensures
        runs_width(runs.take(q)) <= runs_width(runs),
    decreases runs.len() - q,
{
    if q < runs.len() {
        lemma_runs_width_grows(runs, q + 1);
        assert(runs.take(q + 1).drop_last() =~= runs.take(q));
    } else {
        assert(runs.take(q) =~= runs);
    }
}

/// Whether one line of runs, held as spans, can be measured (see
/// `runs_ok`).
fn line_runs_fit(line: &Vec<TextSpan>, Ghost(runs): Ghost<Seq<(usize, Seq<char>)>>, Ghost(spans): Ghost<Seq<TextSpan>>) -> (b: bool)
    requires
        spans_match(line@, runs, spans),
    ensures
        b == (runs_width(runs) <= 65535 && forall|q: int| 0 <= q < runs.len() ==> 3 * (#[trigger] runs[q]).1.len() <= usize::MAX),
{
    let n = line.len();
    let mut total: u32 = 0;
    let mut q: usize = 0;
    assert(runs.take(0) =~= Seq::<(usize, Seq<char>)>::empty());
    while q < n
        invariant
            n == line@.len(),
            n == runs.len(),
            spans_match(line@, runs, spans),
            q <= n,
            total == runs_width(runs.take(q as int)),
            total <= 65535,
            forall|j: int| 0 <= j < q ==> 3 * (#[trigger] runs[j]).1.len() <= usize::MAX,
        decreases n - q,
    {
        let cs = chars_of(line[q].content.as_str());
        assert(line@[q as int].content@ == runs[q as int].1);
        if cs.len() > usize::MAX / 3 {
            return false;
        }
        let w = display_width(line[q].content.as_str());
        proof {
            assert(runs.take(q + 1).drop_last() =~= runs.take(q as int));
            lemma_runs_width_grows(runs, q + 1);
        }
        let next: u32 = total + (w % 65536) as u32;
        if next > 65535 {
            return false;
        }
        total = next;
        q = q + 1;
    }
    assert(runs.take(n as int) =~= runs);
    true
}

impl RenderNode {
    /// Wraps the node's text at `available_width` in its text style's mode
    /// (see `wrap_text`) and applies the lines (see `apply_text_wrapping`),
    /// returning them.  Only a text or span node whose text style asks for
    /// wrapping, with some width available, is wrapped; a span node whose
    /// wrapped lines could not be measured within the integer types is left
    /// as it is, and `None` is returned whenever nothing was applied.
    pub fn wrap_text_to(&mut self, available_width: u16) -> (lines: Option<Vec<String>>)
        requires
            3 * (node_text_of(*old(self)).len() + 2) <= usize::MAX,
        ensures
            match lines {
                Some(ls) => {
                    &&& string_views(ls@) == wrap_lines(node_text_of(*old(self)), available_width as nat, wrap_mode_of(*old(self)))
                    &&& wrapped_into(*old(self), *final(self), available_width, ls@)
                },
                None => *final(self) == *old(self),
            },
            wrap_enabled(*old(self)) && available_width > 0 && old(self).node_type is Text ==> lines is Some,
            wrap_enabled(*old(self)) && available_width > 0 && old(self).node_type is RichText
                ==> (lines is Some <==> wrapped_lines_fit(*old(self), available_width)),
            !(wrap_enabled(*old(self)) && available_width > 0 && (old(self).node_type is Text || old(self).node_type is RichText))
                ==> lines is None,
    {
        let mode = match &self.text_style {
            Some(t) => match t.wrap {
                Some(m) => m,
                None => TextWrap::NoWrap,
            },
            None => TextWrap::NoWrap,
        };
        let enabled = match mode {
            TextWrap::NoWrap => false,
            _ => true,
        };
        if !enabled || available_width == 0 {
            return None;
        }
        let text: String = match &self.node_type {
            RenderNodeType::Text(t) => t.clone(),
            RenderNodeType::RichText(spans) => {
                let mut joined = String::new();
                let mut k: usize = 0;
                assert(spans@.take(0) =~= Seq::<TextSpan>::empty());
                while k < spans.len()
                    invariant
                        k <= spans@.len(),
                        joined@ == spans_text(spans@.take(k as int)),
                    decreases spans@.len() - k,
                {
                    let cs = chars_of(spans[k].content.as_str());
                    let ghost base = joined@;
                    let mut j: usize = 0;
                    while j < cs.len()
                        invariant
                            j <= cs@.len(),
                            joined@ == base + cs@.take(j as int),
                        decreases cs@.len() - j,
                    {
                        push_char(&mut joined, cs[j]);
                        assert(cs@.take(j + 1) =~= cs@.take(j as int).push(cs@[j as int]));
                        j = j + 1;
                    }
                    assert(cs@.take(j as int) =~= cs@);
                    assert(spans@.take(k + 1).drop_last() =~= spans@.take(k as int));
                    k = k + 1;
                }
                assert(spans@.take(k as int) =~= spans@);
                joined
            },
            _ => {
                return None;
            },
        };
        assert(text@ == node_text_of(*old(self)));
        let wrapped = wrap_text(text.as_str(), available_width, mode);
        let fits = match &self.node_type {
            RenderNodeType::Text(_) => {
                assert(forall|k: int| 0 <= k < wrapped@.len() ==> 3 * (#[trigger] wrapped@[k])@.len() <= usize::MAX);
                true
            },
            RenderNodeType::RichText(spans) => {
                let n = wrapped.len();
                let mut total: usize = 0;
                let mut k: usize = 0;
                let mut ok = true;
                while k < n
                    invariant
                        n == wrapped@.len(),
                        k <= n,
                        ok ==> total == line_offset(wrapped@, k as int),
                        !ok ==> line_offset(wrapped@, n as int) > usize::MAX,
                    decreases n - k,
                {
                    if ok {
                        let l = chars_of(wrapped[k].as_str()).len();
                        if total > usize::MAX - l {
                            proof {
                                lemma_line_offset_grows(wrapped@, k + 1, n as int);
                            }
                            ok = false;
                        } else {
                            total = total + l;
                        }
                    }
                    k = k + 1;
                }
                if !ok {
                    false
                } else {
                    let out = restyle_lines(spans, &wrapped);
                    let ghost runs = kept_runs(wrapped@, span_labels(spans@), wrapped@.len() as int);
                    let m = out.len();
                    let mut j: usize = 0;
                    let mut all = true;
                    while j < m
                        invariant
                            m == out@.len(),
                            lines_match(out@, runs, spans@),
                            j <= m,
                            all == (forall|i: int| 0 <= i < j ==> {
                                &&& runs_width(#[trigger] runs[i]) <= 65535
                                &&& forall|q: int| 0 <= q < runs[i].len() ==> 3 * (#[trigger] runs[i][q]).1.len() <= usize::MAX
                            }),
                        decreases m - j,
                    {
                        let line_ok = line_runs_fit(&out[j], Ghost(runs[j as int]), Ghost(spans@));
                        all = all && line_ok;
                        j = j + 1;
                    }
                    all
                }
            },
            _ => false,
        };
        assert(fits == wrapping_ok(*old(self), available_width, wrapped@));
        proof {
            if fits {
                assert forall|ls: Seq<String>| string_views(ls) == wrap_lines(node_text_of(*old(self)), available_width as nat, wrap_mode_of(*old(self)))
                    implies #[trigger] wrapping_ok(*old(self), available_width, ls) by {
                    lemma_wrapping_ok_views(*old(self), available_width, wrapped@, ls);
                }
            }
        }
        if fits {
            self.apply_text_wrapping(available_width, wrapped.clone());
            Some(wrapped)
        } else {
            None
        }
    }
}

/// The width a node's text wraps at inside a parent `parent_width` wide:
/// its fixed width, else its own width held to the parent's.
pub open spec fn text_wrap_width(n: RenderNode, parent_width: u16) -> u16 {
    let own = if n.width <= parent_width { n.width } else { parent_width };
    match n.style {
        Some(s) => match s.width {
            Some(Dimension::Fixed(w)) => w,
            _ => own,
        },
        None => own,
    }
}

/// The node with its width and height taken in a parent of the given size
/// (see `resolved_width` and `resolved_height`).
pub open spec fn sized_in_parent(n: RenderNode, parent_width: u16, parent_height: u16, intrinsic: (u16, u16), scaled: (u16, u16)) -> RenderNode {
    RenderNode {
        width: resolved_width(n, parent_width, intrinsic.0, scaled.0),
        height: resolved_height(n, parent_height, intrinsic.1, scaled.1),
        ..n
    }
}

impl RenderNode {
    /// Sizes the node inside its parent, as layout does before it places
    /// the node's children: takes its width and height (see
    /// `resolve_dimensions`), then wraps its text at `text_wrap_width` of
    /// the resized node (see `wrap_text_to`), returning the lines applied.
    pub fn size_within_parent(
        &mut self,
        parent_width: u16,
        parent_height: u16,
        intrinsic: (u16, u16),
        scaled: (u16, u16),
    ) -> (lines: Option<Vec<String>>)
        requires
            3 * (node_text_of(*old(self)).len() + 2) <= usize::MAX,
        ensures
            ({
                let sized = sized_in_parent(*old(self), parent_width, parent_height, intrinsic, scaled);
                let w = text_wrap_width(sized, parent_width);
                &&& match lines {
                    Some(ls) => {
                        &&& string_views(ls@) == wrap_lines(node_text_of(sized), w as nat, wrap_mode_of(sized))
                        &&& wrapped_into(sized, *final(self), w, ls@)
                    },
                    None => *final(self) == sized,
                }
                &&& wrap_enabled(sized) && w > 0 && sized.node_type is Text ==> lines is Some
                &&& wrap_enabled(sized) && w > 0 && sized.node_type is RichText
                    ==> (lines is Some <==> wrapped_lines_fit(sized, w))
                &&& !(wrap_enabled(sized) && w > 0 && (sized.node_type is Text || sized.node_type is RichText))
                    ==> lines is None
            }),
    {
        self.resolve_dimensions(parent_width, parent_height, intrinsic, scaled);
        let own = if self.width <= parent_width { self.width } else { parent_width };
        let w = match &self.style {
            Some(s) => match s.width {
                Some(Dimension::Fixed(fw)) => fw,
                _ => own,
            },
            None => own,
        };
        self.wrap_text_to(w)
    }
}

} // verus!
