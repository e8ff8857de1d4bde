//! Wrapped flow layout: children laid out along a main axis, broken into
//! lines where the next child would pass the available length, each line
//! distributed by the justification mode and each child aligned across it.
use vstd::prelude::*;
use crate::style::{AlignItems, AlignSelf, Direction, JustifyContent, Spacing, Style};
use crate::layout::{calculate_justify_offsets, justify_offsets, justify_ok};

verus! {

/// A child as the flow sees it: its length along the main axis, its
/// length across it, and its own cross-axis alignment.
#[derive(Debug, Clone, Copy, PartialEq, Eq, Structural)]
pub struct FlowItem {
    /// Length along the main axis
    pub main: u16,
    /// Length across the main axis
    pub cross: u16,
    /// The child's own alignment
    pub align_self: AlignSelf,
}

/// A line of the flow: the children from `start` up to `end`, their total
/// main length without gaps, and the largest cross length among them.
#[derive(Debug, Clone, Copy, PartialEq, Eq, Structural)]
pub struct FlowLine {
    /// First child of the line
    pub start: usize,
    /// One past the last child of the line
    pub end: usize,
    /// Sum of the children's main lengths
    pub main: u16,
    /// Largest cross length
    pub cross: u16,
}

/// The lines closed so far while grouping, and the line being filled: where
/// it starts, its main length without and with gaps, its cross length.
pub ghost struct Grouping {
    pub lines: Seq<FlowLine>,
    pub start: int,
    pub main: int,
    pub with_gaps: int,
    pub cross: int,
}

/// The largest `u16`.
pub open spec fn top() -> int {
    65535
}

/// Grouping after child `i`: it joins the current line unless the line
/// already has length and the child, after a gap, would pass `limit`; then
/// the line is closed and the child starts the next one.  `None` when a
/// length passes `u16::MAX`.
pub open spec fn group_step(g: Grouping, i: int, it: FlowItem, limit: int, gap: int) -> Option<Grouping> {
    let if_added: int = if g.main > 0 { g.with_gaps + gap + it.main } else { it.main as int };
    if if_added > top() {
        None
    } else if g.main > 0 && if_added > limit {
        Some(
            Grouping {
                lines: g.lines.push(FlowLine { start: g.start as usize, end: i as usize, main: g.main as u16, cross: g.cross as u16 }),
                start: i,
                main: it.main as int,
                with_gaps: it.main as int,
                cross: it.cross as int,
            },
        )
    } else if g.main + it.main > top() {
        None
    } else {
        Some(
            Grouping {
                main: g.main + it.main,
                with_gaps: if_added,
                cross: if g.cross >= it.cross { g.cross } else { it.cross as int },
                ..g
            },
        )
    }
}

/// Grouping after the first `k` children.
pub open spec fn group_prefix(items: Seq<FlowItem>, k: int, limit: int, gap: int) -> Option<Grouping>
    decreases k,
{
    if k <= 0 {
        Some(Grouping { lines: Seq::empty(), start: 0, main: 0, with_gaps: 0, cross: 0 })
    } else {
        match group_prefix(items, k - 1, limit, gap) {
            Some(g) => group_step(g, k - 1, items[k - 1], limit, gap),
            None => None,
        }
    }
}

/// The lines of the flow: the grouping of all children, with the line
/// being filled closed at the end (when it holds any child).
pub open spec fn group_lines(items: Seq<FlowItem>, limit: int, gap: int) -> Option<Seq<FlowLine>> {
    match group_prefix(items, items.len() as int, limit, gap) {
        Some(g) => Some(
            if g.start < items.len() {
                g.lines.push(FlowLine { start: g.start as usize, end: items.len() as usize, main: g.main as u16, cross: g.cross as u16 })
            } else {
                g.lines
            },
        ),
        None => None,
    }
}

/// Where a line starts along the main axis and the spacing after each of
/// its children but the last, from its free length (the available length
/// less its children and gaps): start, end and center keep `gap`;
/// space-between spreads the free length and the gaps over the spaces
/// between children; space-around and space-evenly add a share of it to
/// each gap, and put half a share, or a share, before the first child.
/// Counts are read as `u16`.  `None` when a value passes `u16::MAX` or a
/// divisor is 0.
pub open spec fn line_offsets(line: FlowLine, limit: int, gap: int, start: int, justify: JustifyContent) -> Option<(int, int)> {
    let count: int = line.end - line.start;
    let c: int = count % 65536;
    let total_gaps: int = if count > 1 { gap * (c - 1) } else { 0 };
    let with_gaps: int = line.main + total_gaps;
    if count > 1 && (c == 0 || total_gaps > top()) {
        None
    } else if with_gaps > top() {
        None
    } else {
        let available: int = if limit > with_gaps { limit - with_gaps } else { 0 };
        match justify {
            JustifyContent::Start => Some((start, gap)),
            JustifyContent::End => if start + available > top() { None } else { Some((start + available, gap)) },
            JustifyContent::Center => if start + available / 2 > top() { None } else { Some((start + available / 2, gap)) },
            JustifyContent::SpaceBetween => if count > 1 {
                let t: int = (count - 1) % 65536;
                if t == 0 || gap * t > top() || available + gap * t > top() {
                    None
                } else {
                    Some((start, (available + gap * t) / t))
                }
            } else {
                Some((start, gap))
            },
            JustifyContent::SpaceAround => if count > 0 {
                if c == 0 {
                    None
                } else {
                    let sp = available / c;
                    if start + sp / 2 > top() || gap + sp > top() { None } else { Some((start + sp / 2, gap + sp)) }
                }
            } else {
                Some((start, gap))
            },
            JustifyContent::SpaceEvenly => if count > 0 {
                if c + 1 > top() {
                    None
                } else {
                    let sp = available / (c + 1);
                    if start + sp > top() || gap + sp > top() { None } else { Some((start + sp, gap + sp)) }
                }
            } else {
                Some((start, gap))
            },
        }
    }
}

/// The alignment a child takes: its own, or the container's for `Auto`.
pub open spec fn effective_align(a: AlignSelf, items: AlignItems) -> AlignItems {
    match a {
        AlignSelf::Auto => items,
        AlignSelf::Start => AlignItems::Start,
        AlignSelf::Center => AlignItems::Center,
        AlignSelf::End => AlignItems::End,
    }
}

/// The positions `(main, cross)` of the first `j` children of a line that
/// starts at `start` with `spacing` between children, at `cross` across,
/// and the main position reached.  Each child is aligned within the
/// line's cross length.  `None` when a value passes `u16::MAX`.
pub open spec fn place_prefix(
    items: Seq<FlowItem>,
    line: FlowLine,
    j: int,
    start: int,
    spacing: int,
    cross: int,
    align: AlignItems,
) -> Option<(Seq<(u16, u16)>, int)>
    decreases j,
{
    if j <= 0 {
        Some((Seq::empty(), start))
    } else {
        match place_prefix(items, line, j - 1, start, spacing, cross, align) {
            None => None,
            Some((ps, cur)) => {
                let i: int = line.start + j - 1;
                let it = items[i];
                let space: int = if line.cross > it.cross { line.cross - it.cross } else { 0 };
                let cross_pos: int = match effective_align(it.align_self, align) {
                    AlignItems::Start => cross,
                    AlignItems::Center => cross + space / 2,
                    AlignItems::End => cross + space,
                };
                let after: int = cur + it.main;
                if cross_pos > top() || after > top() {
                    None
                } else if i < line.end - 1 {
                    if after + spacing > top() {
                        None
                    } else {
                        Some((ps.push((cur as u16, cross_pos as u16)), after + spacing))
                    }
                } else {
                    Some((ps.push((cur as u16, cross_pos as u16)), after))
                }
            },
        }
    }
}

/// The positions of the children of the first `m` lines, the lines one
/// after the other across the main axis with `gap` between them, and the
/// cross position reached.
pub open spec fn place_lines(
    items: Seq<FlowItem>,
    lines: Seq<FlowLine>,
    m: int,
    start_main: int,
    start_cross: int,
    limit: int,
    gap: int,
    justify: JustifyContent,
    align: AlignItems,
) -> Option<(Seq<(u16, u16)>, int)>
    decreases m,
{
    if m <= 0 {
        Some((Seq::empty(), start_cross))
    } else {
        match place_lines(items, lines, m - 1, start_main, start_cross, limit, gap, justify, align) {
            None => None,
            Some((ps, cur)) => {
                let line = lines[m - 1];
                match line_offsets(line, limit, gap, start_main, justify) {
                    None => None,
                    Some((s0, sp)) => match place_prefix(items, line, line.end - line.start, s0, sp, cur, align) {
                        None => None,
                        Some((lp, _)) => if line.cross + gap > top() || cur + line.cross + gap > top() {
                            None
                        } else {
                            Some((ps + lp, cur + line.cross + gap))
                        },
                    },
                }
            },
        }
    }
}

/// The positions `(main, cross)` of all children of a wrapped flow that
/// starts at `(start_main, start_cross)` and has `limit` along the main
/// axis; `None` when a value passes `u16::MAX` or a divisor is 0.
pub open spec fn flow_positions(
    items: Seq<FlowItem>,
    start_main: int,
    start_cross: int,
    limit: int,
    gap: int,
    justify: JustifyContent,
    align: AlignItems,
) -> Option<Seq<(u16, u16)>> {
    match group_lines(items, limit, gap) {
        None => None,
        Some(lines) => match place_lines(items, lines, lines.len() as int, start_main, start_cross, limit, gap, justify, align) {
            Some((ps, _)) => Some(ps),
            None => None,
        },
    }
}


/// Groups the children into lines (see `group_lines`).
pub fn group_into_lines(items: &Vec<FlowItem>, limit: u16, gap: u16) -> (lines: Vec<FlowLine>)
    requires
        group_lines(items@, limit as int, gap as int) is Some,
    ensures
        lines@ == group_lines(items@, limit as int, gap as int).unwrap(),
{
    let n = items.len();
    let mut lines: Vec<FlowLine> = Vec::new();
    let mut start: usize = 0;
    let mut main: u16 = 0;
    let mut with_gaps: u16 = 0;
    let mut cross: u16 = 0;
    let mut i: usize = 0;
    while i < n
        invariant
            n == items@.len(),
            i <= n,
            start <= i,
            group_prefix(items@, n as int, limit as int, gap as int) is Some,
            group_prefix(items@, i as int, limit as int, gap as int) == Some(
                Grouping { lines: lines@, start: start as int, main: main as int, with_gaps: with_gaps as int, cross: cross as int },
            ),
        decreases n - i,
    {
        proof {
            lemma_group_prefix_some(items@, i + 1, n as int, limit as int, gap as int);
        }
        let it = items[i];
        let if_added: u16 = if main > 0 { with_gaps + gap + it.main } else { it.main };
        if main > 0 && if_added > limit {
            lines.push(FlowLine { start, end: i, main, cross });
            start = i;
            main = it.main;
            with_gaps = it.main;
            cross = it.cross;
        } else {
            main = main + it.main;
            with_gaps = if_added;
            cross = if cross >= it.cross { cross } else { it.cross };
        }
        i = i + 1;
    }
    if start < n {
        lines.push(FlowLine { start, end: n, main, cross });
    }
    lines
}

/// Where a line starts along the main axis and the spacing between its
/// children (see `line_offsets`).
pub fn justify_line(line: &FlowLine, limit: u16, gap: u16, start: u16, justify: JustifyContent) -> (r: (u16, u16))
    requires
        line.start <= line.end,
        line_offsets(*line, limit as int, gap as int, start as int, justify) is Some,
    ensures
        line_offsets(*line, limit as int, gap as int, start as int, justify) == Some((r.0 as int, r.1 as int)),
{
    let count = line.end - line.start;
    let c: u16 = (count % 65536) as u16;
    let total_gaps: u16 = if count > 1 { gap * (c - 1) } else { 0 };
    let with_gaps: u16 = line.main + total_gaps;
    let available: u16 = if limit > with_gaps { limit - with_gaps } else { 0 };
    match justify {
        JustifyContent::Start => (start, gap),
        JustifyContent::End => (start + available, gap),
        JustifyContent::Center => (start + available / 2, gap),
        JustifyContent::SpaceBetween => {
            if count > 1 {
                let t: u16 = ((count - 1) % 65536) as u16;
                let spacing = (available + gap * t) / t;
                (start, spacing)
            } else {
                (start, gap)
            }
        },
        JustifyContent::SpaceAround => {
            if count > 0 {
                let spacing = available / c;
                (start + spacing / 2, gap + spacing)
            } else {
                (start, gap)
            }
        },
        JustifyContent::SpaceEvenly => {
            if count > 0 {
                let spacing = available / (c + 1);
                (start + spacing, gap + spacing)
            } else {
                (start, gap)
            }
        },
    }
}

/// Places the children of one line (see `place_prefix`), appending their
/// positions to `out`.
fn place_line(
    items: &Vec<FlowItem>,
    line: &FlowLine,
    start: u16,
    spacing: u16,
    cross: u16,
    align: AlignItems,
    out: &mut Vec<(u16, u16)>,
)
    requires
        line.start <= line.end <= items@.len(),
        place_prefix(items@, *line, line.end - line.start, start as int, spacing as int, cross as int, align) is Some,
    ensures
        final(out)@ == old(out)@ + place_prefix(items@, *line, line.end - line.start, start as int, spacing as int, cross as int, align).unwrap().0,
{
    let ghost base = out@;
    let count = line.end - line.start;
    let mut cur: u16 = start;
    let mut j: usize = 0;
    while j < count
        invariant
            line.start <= line.end <= items@.len(),
            count == line.end - line.start,
            j <= count,
            place_prefix(items@, *line, count as int, start as int, spacing as int, cross as int, align) is Some,
            ({
                let r = place_prefix(items@, *line, j as int, start as int, spacing as int, cross as int, align);
                r is Some && out@ == base + r.unwrap().0 && cur as int == r.unwrap().1
            }),
        decreases count - j,
    {
        proof {
            lemma_place_prefix_some(items@, *line, j + 1, count as int, start as int, spacing as int, cross as int, align);
        }
        let i = line.start + j;
        let it = items[i];
        let space: u16 = if line.cross > it.cross { line.cross - it.cross } else { 0 };
        let eff = match it.align_self {
            AlignSelf::Auto => align,
            AlignSelf::Start => AlignItems::Start,
            AlignSelf::Center => AlignItems::Center,
            AlignSelf::End => AlignItems::End,
        };
        let cross_pos: u16 = match eff {
            AlignItems::Start => cross,
            AlignItems::Center => cross + space / 2,
            AlignItems::End => cross + space,
        };
        let ghost before = out@;
        out.push((cur, cross_pos));
        cur = cur + it.main;
        if i < line.end - 1 {
            cur = cur + spacing;
        }
        proof {
            let prev = place_prefix(items@, *line, j as int, start as int, spacing as int, cross as int, align).unwrap();
            assert(out@ =~= base + prev.0.push((prev.1 as u16, cross_pos)));
        }
        j = j + 1;
    }
}

/// The positions `(main, cross)` of the children of a wrapped flow (see
/// `flow_positions`).
pub fn flow_wrap(
    items: &Vec<FlowItem>,
    start_main: u16,
    start_cross: u16,
    limit: u16,
    gap: u16,
    justify: JustifyContent,
    align: AlignItems,
) -> (ps: Vec<(u16, u16)>)
    requires
        flow_positions(items@, start_main as int, start_cross as int, limit as int, gap as int, justify, align) is Some,
    ensures
        ps@ == flow_positions(items@, start_main as int, start_cross as int, limit as int, gap as int, justify, align).unwrap(),
{
    let lines = group_into_lines(items, limit, gap);
    let n_items = items.len();
    proof {
        assert(items@.len() == n_items);
        lemma_lines_in_range(items@, limit as int, gap as int);
    }
    let m = lines.len();
    let mut out: Vec<(u16, u16)> = Vec::new();
    let mut cur: u16 = start_cross;
    let mut k: usize = 0;
    while k < m
        invariant
            m == lines@.len(),
            k <= m,
            forall|q: int| 0 <= q < m ==> (#[trigger] lines@[q]).start <= lines@[q].end <= items@.len(),
            place_lines(items@, lines@, m as int, start_main as int, start_cross as int, limit as int, gap as int, justify, align) is Some,
            ({
                let r = place_lines(items@, lines@, k as int, start_main as int, start_cross as int, limit as int, gap as int, justify, align);
                r is Some && out@ == r.unwrap().0 && cur as int == r.unwrap().1
            }),
        decreases m - k,
    {
        proof {
            lemma_place_lines_some(items@, lines@, k + 1, m as int, start_main as int, start_cross as int, limit as int, gap as int, justify, align);
        }
        let line = lines[k];
        let (s0, sp) = justify_line(&line, limit, gap, start_main, justify);
        place_line(items, &line, s0, sp, cur, align, &mut out);
        cur = cur + (line.cross + gap);
        k = k + 1;
    }
    out
}



/// The lines of a flow (see `group_lines`), `None` exactly when
/// `group_lines` is.
pub fn group_lines_checked(items: &Vec<FlowItem>, limit: u16, gap: u16) -> (r: Option<Vec<FlowLine>>)
    ensures
        match group_lines(items@, limit as int, gap as int) {
            None => r is None,
            Some(ls) => r matches Some(v) && v@ == ls,
        },
{
    let n = items.len();
    let mut lines: Vec<FlowLine> = Vec::new();
    let mut start: usize = 0;
    let mut main: u16 = 0;
    let mut with_gaps: u16 = 0;
    let mut cross: u16 = 0;
    let mut i: usize = 0;
    while i < n
        invariant
            n == items@.len(),
            i <= n,
            start <= i,
            group_prefix(items@, i as int, limit as int, gap as int) == Some(
                Grouping { lines: lines@, start: start as int, main: main as int, with_gaps: with_gaps as int, cross: cross as int },
            ),
        decreases n - i,
    {
        let it = items[i];
        let if_added: u32 = if main > 0 { with_gaps as u32 + gap as u32 + it.main as u32 } else { it.main as u32 };
        if if_added > 65535 || (!(main > 0 && if_added > limit as u32) && main as u32 + it.main as u32 > 65535) {
            proof {
                if group_prefix(items@, n as int, limit as int, gap as int) is Some {
                    lemma_group_prefix_some(items@, i + 1, n as int, limit as int, gap as int);
                }
            }
            return None;
        }
        if main > 0 && if_added > limit as u32 {
            lines.push(FlowLine { start, end: i, main, cross });
            start = i;
            main = it.main;
            with_gaps = it.main;
            cross = it.cross;
        } else {
            main = main + it.main;
            with_gaps = if_added as u16;
            cross = if cross >= it.cross { cross } else { it.cross };
        }
        i = i + 1;
    }
    if start < n {
        lines.push(FlowLine { start, end: n, main, cross });
    }
    Some(lines)
}

/// Where a line starts and its spacing (see `line_offsets`), `None`
/// exactly when `line_offsets` is.
pub fn line_offsets_checked(line: &FlowLine, limit: u16, gap: u16, start: u16, justify: JustifyContent) -> (r: Option<(u16, u16)>)
    requires
        line.start <= line.end,
    ensures
        match line_offsets(*line, limit as int, gap as int, start as int, justify) {
            None => r is None,
            Some(v) => r matches Some(w) && v == (w.0 as int, w.1 as int),
        },
{
    let count: usize = line.end - line.start;
    let c: u64 = (count % 65536) as u64;
    let total_gaps: u64 = if count > 1 {
        if c == 0 {
            return None;
        }
        assert(gap as u64 * (c - 1) <= 65535 * 65535) by (nonlinear_arith)
            requires
                gap <= 65535,
                1 <= c <= 65535,
        ;
        gap as u64 * (c - 1)
    } else {
        0
    };
    if total_gaps > 65535 {
        return None;
    }
    let with_gaps: u64 = line.main as u64 + total_gaps;
    if with_gaps > 65535 {
        return None;
    }
    let available: u64 = if limit as u64 > with_gaps { limit as u64 - with_gaps } else { 0 };
    let st: u64 = start as u64;
    let g: u64 = gap as u64;
    match justify {
        JustifyContent::Start => Some((start, gap)),
        JustifyContent::End => if st + available > 65535 { None } else { Some(((st + available) as u16, gap)) },
        JustifyContent::Center => if st + available / 2 > 65535 { None } else { Some(((st + available / 2) as u16, gap)) },
        JustifyContent::SpaceBetween => if count > 1 {
            let t: u64 = ((count - 1) % 65536) as u64;
            if t == 0 {
                return None;
            }
            assert(g * t <= 65535 * 65535) by (nonlinear_arith)
                requires
                    g <= 65535,
                    t <= 65535,
            ;
            if g * t > 65535 || available + g * t > 65535 {
                None
            } else {
                Some((start, ((available + g * t) / t) as u16))
            }
        } else {
            Some((start, gap))
        },
        JustifyContent::SpaceAround => if count > 0 {
            if c == 0 {
                None
            } else {
                let sp = available / c;
                if st + sp / 2 > 65535 || g + sp > 65535 { None } else { Some(((st + sp / 2) as u16, (g + sp) as u16)) }
            }
        } else {
            Some((start, gap))
        },
        JustifyContent::SpaceEvenly => if count > 0 {
            if c + 1 > 65535 {
                None
            } else {
                let sp = available / (c + 1);
                if st + sp > 65535 || g + sp > 65535 { None } else { Some(((st + sp) as u16, (g + sp) as u16)) }
            }
        } else {
            Some((start, gap))
        },
    }
}

/// Whether the children of one line can be placed (see `place_prefix`).
pub fn place_prefix_fits(items: &Vec<FlowItem>, line: &FlowLine, start: u16, spacing: u16, cross: u16, align: AlignItems) -> (b: bool)
    requires
        line.start <= line.end <= items@.len(),
    ensures
        b == place_prefix(items@, *line, line.end - line.start, start as int, spacing as int, cross as int, align) is Some,
{
    let count = line.end - line.start;
    let mut cur: u32 = start as u32;
    let mut j: usize = 0;
    while j < count
        invariant
            line.start <= line.end <= items@.len(),
            count == line.end - line.start,
            j <= count,
            cur <= 65535,
            place_prefix(items@, *line, j as int, start as int, spacing as int, cross as int, align) matches Some((_, c)) && c == cur,
        decreases count - j,
    {
        let i = line.start + j;
        let it = items[i];
        let space: u16 = if line.cross > it.cross { line.cross - it.cross } else { 0 };
        let eff = match it.align_self {
            AlignSelf::Auto => align,
            AlignSelf::Start => AlignItems::Start,
            AlignSelf::Center => AlignItems::Center,
            AlignSelf::End => AlignItems::End,
        };
        let cross_pos: u32 = match eff {
            AlignItems::Start => cross as u32,
            AlignItems::Center => cross as u32 + (space / 2) as u32,
            AlignItems::End => cross as u32 + space as u32,
        };
        let after: u32 = cur + it.main as u32;
        let next: u32 = if i < line.end - 1 { after + spacing as u32 } else { after };
        if cross_pos > 65535 || after > 65535 || next > 65535 {
            proof {
                if place_prefix(items@, *line, count as int, start as int, spacing as int, cross as int, align) is Some {
                    lemma_place_prefix_some(items@, *line, j + 1, count as int, start as int, spacing as int, cross as int, align);
                }
            }
            return false;
        }
        cur = next;
        j = j + 1;
    }
    true
}

/// Whether the children of a wrapped flow can be placed (see
/// `flow_positions`), so that `flow_wrap` can be called.
pub fn flow_positions_fit(
    items: &Vec<FlowItem>,
    start_main: u16,
    start_cross: u16,
    limit: u16,
    gap: u16,
    justify: JustifyContent,
    align: AlignItems,
) -> (b: bool)
    ensures
        b == flow_positions(items@, start_main as int, start_cross as int, limit as int, gap as int, justify, align) is Some,
{
    let lines = match group_lines_checked(items, limit, gap) {
        Some(ls) => ls,
        None => {
            return false;
        },
    };
    let n_items = items.len();
    proof {
        assert(items@.len() == n_items);
        lemma_lines_in_range(items@, limit as int, gap as int);
    }
    let m = lines.len();
    let mut cur: u32 = start_cross as u32;
    let mut k: usize = 0;
    while k < m
        invariant
            m == lines@.len(),
            lines@ == group_lines(items@, limit as int, gap as int).unwrap(),
            group_lines(items@, limit as int, gap as int) is Some,
            k <= m,
            forall|q: int| 0 <= q < m ==> (#[trigger] lines@[q]).start <= lines@[q].end <= items@.len(),
            cur <= 65535,
            place_lines(items@, lines@, k as int, start_main as int, start_cross as int, limit as int, gap as int, justify, align)
                matches Some((_, c)) && c == cur,
        decreases m - k,
    {
        let line = lines[k];
        assert(line.start <= line.end <= items@.len());
        let fail = match line_offsets_checked(&line, limit, gap, start_main, justify) {
            None => true,
            Some((s0, sp)) => !place_prefix_fits(items, &line, s0, sp, cur as u16, align)
                || line.cross as u32 + gap as u32 > 65535 || cur + line.cross as u32 + gap as u32 > 65535,
        };
        if fail {
            proof {
                if place_lines(items@, lines@, m as int, start_main as int, start_cross as int, limit as int, gap as int, justify, align) is Some {
                    lemma_place_lines_some(items@, lines@, k + 1, m as int, start_main as int, start_cross as int, limit as int, gap as int, justify, align);
                }
            }
            return false;
        }
        cur = cur + line.cross as u32 + gap as u32;
        k = k + 1;
    }
    true
}

/// Whether the children of a wrapping container can be positioned (see
/// `wrap_layout`), so that `layout_children_with_wrap` can be called.
pub fn wrap_layout_fits(
    x: u16,
    y: u16,
    style: &Option<Style>,
    children: &Vec<ChildBox>,
    direction: Direction,
    content_width: u16,
    content_height: u16,
    padding: Spacing,
    border_offset: u16,
    gap: u16,
) -> (b: bool)
    ensures
        b == wrap_layout(x, y, *style, children@, direction, content_width, content_height, padding, border_offset, gap) is Some,
{
    let sx: u32 = x as u32 + padding.left as u32 + border_offset as u32;
    let sy: u32 = y as u32 + padding.top as u32 + border_offset as u32;
    if sx > 65535 || sy > 65535 {
        return false;
    }
    let justify = match style {
        Some(s) => match s.justify_content {
            Some(j) => j,
            None => JustifyContent::Start,
        },
        None => JustifyContent::Start,
    };
    let align = match style {
        Some(s) => match s.align_items {
            Some(a) => a,
            None => AlignItems::Start,
        },
        None => AlignItems::Start,
    };
    let n = children.len();
    let mut items: Vec<FlowItem> = Vec::new();
    let mut i: usize = 0;
    while i < n
        invariant
            n == children@.len(),
            i <= n,
            items@ == flow_items(children@, direction).take(i as int),
        decreases n - i,
    {
        let c = children[i];
        let item = match direction {
            Direction::Horizontal => FlowItem { main: c.width, cross: c.height, align_self: c.align_self },
            Direction::Vertical => FlowItem { main: c.height, cross: c.width, align_self: c.align_self },
        };
        items.push(item);
        assert(items@ =~= flow_items(children@, direction).take(i + 1));
        i = i + 1;
    }
    assert(items@ =~= flow_items(children@, direction));
    match direction {
        Direction::Horizontal => flow_positions_fit(&items, sx as u16, sy as u16, content_width, gap, justify, align),
        Direction::Vertical => flow_positions_fit(&items, sy as u16, sx as u16, content_height, gap, justify, align),
    }
}

/// A laid-out child of a wrapping container: its size and its own
/// cross-axis alignment.
#[derive(Debug, Clone, Copy, PartialEq, Eq, Structural)]
pub struct ChildBox {
    /// Width in cells
    pub width: u16,
    /// Height in cells
    pub height: u16,
    /// The child's own alignment
    pub align_self: AlignSelf,
}

/// The children as flow items along a direction: widths along a row,
/// heights down a column.
pub open spec fn flow_items(children: Seq<ChildBox>, direction: Direction) -> Seq<FlowItem> {
    children.map_values(|c: ChildBox| match direction {
        Direction::Horizontal => FlowItem { main: c.width, cross: c.height, align_self: c.align_self },
        Direction::Vertical => FlowItem { main: c.height, cross: c.width, align_self: c.align_self },
    })
}

/// The justification of a container's style, start when unset.
pub open spec fn justify_of(style: Option<Style>) -> JustifyContent {
    match style {
        Some(s) => match s.justify_content {
            Some(j) => j,
            None => JustifyContent::Start,
        },
        None => JustifyContent::Start,
    }
}

/// The cross-axis alignment of a container's style, start when unset.
pub open spec fn align_of(style: Option<Style>) -> AlignItems {
    match style {
        Some(s) => match s.align_items {
            Some(a) => a,
            None => AlignItems::Start,
        },
        None => AlignItems::Start,
    }
}

/// The positions `(x, y)` of the children of a wrapping container at
/// `(x, y)`: the flow starts inside its padding and border; rows run left
/// to right and wrap downwards for a horizontal container, columns run top
/// to bottom and wrap rightwards for a vertical one.  `None` when a value
/// passes `u16::MAX` or a divisor is 0.
pub open spec fn wrap_layout(
    x: u16,
    y: u16,
    style: Option<Style>,
    children: Seq<ChildBox>,
    direction: Direction,
    content_width: u16,
    content_height: u16,
    padding: Spacing,
    border_offset: u16,
    gap: u16,
) -> Option<Seq<(u16, u16)>> {
    let sx: int = x + padding.left + border_offset;
    let sy: int = y + padding.top + border_offset;
    if sx > top() || sy > top() {
        None
    } else {
        let items = flow_items(children, direction);
        match direction {
            Direction::Horizontal => flow_positions(items, sx, sy, content_width as int, gap as int, justify_of(style), align_of(style)),
            Direction::Vertical => match flow_positions(items, sy, sx, content_height as int, gap as int, justify_of(style), align_of(style)) {
                Some(ps) => Some(ps.map_values(|p: (u16, u16)| (p.1, p.0))),
                None => None,
            },
        }
    }
}


/// A child of a container that lays its children out in one line, after
/// its sizes were worked out: its length along the line and across it,
/// its own alignment, whether it is positioned absolutely (outside the
/// line), whether its length is automatic, and whether it is text (text
/// keeps its own length even when automatic).
#[derive(Debug, Clone, Copy, PartialEq, Eq, Structural)]
pub struct LineChild {
    /// Length along the line
    pub main: u16,
    /// Length across the line
    pub cross: u16,
    /// The child's own alignment
    pub align_self: AlignSelf,
    /// Positioned absolutely or fixed, outside the line
    pub absolute: bool,
    /// Automatic length along the line
    pub auto: bool,
    /// A text node
    pub text: bool,
}

/// Where a child of a line went: its length along the line and its
/// position.
#[derive(Debug, Clone, Copy, PartialEq, Eq, Structural)]
pub struct Placement {
    /// Length along the line
    pub size: u16,
    /// Column
    pub x: u16,
    /// Row
    pub y: u16,
}

/// The lengths the children in the line already have (automatic children
/// that are not text have none yet), added up and held at `u16::MAX`.
pub open spec fn used_space(children: Seq<LineChild>, k: int) -> int
    decreases k,
{
    if k <= 0 {
        0
    } else {
        let prev = used_space(children, k - 1);
        let c = children[k - 1];
        if c.absolute || (c.auto && !c.text) {
            prev
        } else if prev + c.main > top() {
            top()
        } else {
            prev + c.main
        }
    }
}

/// The number of children with an automatic length among the first `k`.
pub open spec fn auto_count(children: Seq<LineChild>, k: int) -> int
    decreases k,
{
    if k <= 0 {
        0
    } else {
        auto_count(children, k - 1) + if !children[k - 1].absolute && children[k - 1].auto { 1int } else { 0 }
    }
}

/// The number of children in the line among the first `k`.
pub open spec fn line_count(children: Seq<LineChild>, k: int) -> int
    decreases k,
{
    if k <= 0 {
        0
    } else {
        line_count(children, k - 1) + if children[k - 1].absolute { 0int } else { 1 }
    }
}

/// A child's length in the line: the automatic share for an automatic
/// child that is not text, its own length otherwise.
pub open spec fn line_size(c: LineChild, share: int) -> int {
    if c.auto && !c.text { share } else { c.main as int }
}

/// The total length of the first `k` children in the line; `None` when it
/// passes `u16::MAX`.
pub open spec fn line_total(children: Seq<LineChild>, k: int, share: int) -> Option<int>
    decreases k,
{
    if k <= 0 {
        Some(0)
    } else {
        match line_total(children, k - 1, share) {
            None => None,
            Some(t) => {
                let c = children[k - 1];
                if c.absolute {
                    Some(t)
                } else if t + line_size(c, share) > top() {
                    None
                } else {
                    Some(t + line_size(c, share))
                }
            },
        }
    }
}

/// Whether a child of the line comes after child `k`.
pub open spec fn line_child_after(children: Seq<LineChild>, k: int) -> bool {
    exists|j: int| k < j < children.len() && !(#[trigger] children[j]).absolute
}

/// The line's geometry: the length of the content along and across the
/// line, where its content starts along and across, the automatic share,
/// the leading offset and the spacing.
pub ghost struct LineFrame {
    pub cross_len: int,
    pub main_start: int,
    pub cross_start: int,
    pub share: int,
    pub offset: int,
    pub spacing: int,
}

/// The geometry of a line of children in a container at `(x, y)`: the
/// free length is shared among the automatic children, the rest of it is
/// distributed by the justification.  `None` when a value passes
/// `u16::MAX` or a divisor is 0.
pub open spec fn line_frame(
    x: u16,
    y: u16,
    style: Option<Style>,
    children: Seq<LineChild>,
    direction: Direction,
    content_width: u16,
    content_height: u16,
    padding: Spacing,
    border_offset: u16,
    gap: u16,
) -> Option<LineFrame> {
    let n = children.len() as int;
    let main_len: int = match direction {
        Direction::Vertical => content_height as int,
        Direction::Horizontal => content_width as int,
    };
    let cross_len: int = match direction {
        Direction::Vertical => content_width as int,
        Direction::Horizontal => content_height as int,
    };
    let used = used_space(children, n);
    let available: int = if main_len > used { main_len - used } else { 0 };
    let ac = auto_count(children, n);
    let rc = line_count(children, n);
    let gaps: int = if rc > 1 { gap * (rc % 65536 - 1) } else { 0 };
    let sx: int = x + padding.left + border_offset;
    let sy: int = y + padding.top + border_offset;
    if ac > 0 && ac % 65536 == 0 {
        None
    } else if rc > 1 && (rc % 65536 == 0 || gaps > top()) {
        None
    } else if sx > top() || sy > top() {
        None
    } else {
        let share: int = if ac > 0 { available / (ac % 65536) } else { 0 };
        match line_total(children, n, share) {
            None => None,
            Some(total) => if total + gaps > top() || !justify_ok(justify_of(style), rc as usize) {
                None
            } else {
                let free: int = if main_len > total + gaps { main_len - (total + gaps) } else { 0 };
                let (offset, spacing) = justify_offsets(justify_of(style), free as u16, rc as usize, gap);
                Some(
                    LineFrame {
                        cross_len,
                        main_start: match direction {
                            Direction::Vertical => sy,
                            Direction::Horizontal => sx,
                        },
                        cross_start: match direction {
                            Direction::Vertical => sx,
                            Direction::Horizontal => sy,
                        },
                        share,
                        offset: offset as int,
                        spacing: spacing as int,
                    },
                )
            },
        }
    }
}

/// The placements of the first `k` children and the offset reached: each
/// child of the line is aligned across it and follows the one before,
/// with the spacing after every child but the last (after the last too
/// for space-around and space-evenly); absolute children get none.
pub open spec fn line_placements(
    children: Seq<LineChild>,
    k: int,
    f: LineFrame,
    direction: Direction,
    justify: JustifyContent,
    align: AlignItems,
) -> Option<(Seq<Option<Placement>>, int)>
    decreases k,
{
    if k <= 0 {
        Some((Seq::empty(), f.offset))
    } else {
        match line_placements(children, k - 1, f, direction, justify, align) {
            None => None,
            Some((ps, offset)) => {
                let c = children[k - 1];
                if c.absolute {
                    Some((ps.push(None), offset))
                } else {
                    let size = line_size(c, f.share);
                    let space: int = if f.cross_len > c.cross { f.cross_len - c.cross } else { 0 };
                    let cross_pos: int = match effective_align(c.align_self, align) {
                        AlignItems::Start => f.cross_start,
                        AlignItems::Center => f.cross_start + space / 2,
                        AlignItems::End => f.cross_start + space,
                    };
                    let main_pos: int = f.main_start + offset;
                    let after: int = offset + size;
                    let spaced = line_child_after(children, k - 1) || justify is SpaceAround || justify is SpaceEvenly;
                    let next: int = if spaced { after + f.spacing } else { after };
                    if cross_pos > top() || main_pos > top() || after > top() || next > top() {
                        None
                    } else {
                        let p = match direction {
                            Direction::Vertical => Placement { size: size as u16, x: cross_pos as u16, y: main_pos as u16 },
                            Direction::Horizontal => Placement { size: size as u16, x: main_pos as u16, y: cross_pos as u16 },
                        };
                        Some((ps.push(Some(p)), next))
                    }
                }
            },
        }
    }
}

/// Where the children of a one-line container go (see `line_frame` and
/// `line_placements`).
pub open spec fn line_layout(
    x: u16,
    y: u16,
    style: Option<Style>,
    children: Seq<LineChild>,
    direction: Direction,
    content_width: u16,
    content_height: u16,
    padding: Spacing,
    border_offset: u16,
    gap: u16,
) -> Option<Seq<Option<Placement>>> {
    match line_frame(x, y, style, children, direction, content_width, content_height, padding, border_offset, gap) {
        None => None,
        Some(f) => match line_placements(children, children.len() as int, f, direction, justify_of(style), align_of(style)) {
            Some((ps, _)) => Some(ps),
            None => None,
        },
    }
}


proof fn lemma_line_placements_some(
    children: Seq<LineChild>,
    j: int,
    k: int,
    f: LineFrame,
    direction: Direction,
    justify: JustifyContent,
    align: AlignItems,
)
    requires
        0 <= j <= k,
        line_placements(children, k, f, direction, justify, align) is Some,
    ensures
        line_placements(children, j, f, direction, justify, align) is Some,
    decreases k - j,
{
    if j < k {
        lemma_line_placements_some(children, j, k - 1, f, direction, justify, align);
    }
}

proof fn lemma_line_total_some(children: Seq<LineChild>, j: int, k: int, share: int)
    requires
        0 <= j <= k,
        line_total(children, k, share) is Some,
    ensures
        line_total(children, j, share) is Some,
    decreases k - j,
{
    if j < k {
        lemma_line_total_some(children, j, k - 1, share);
    }
}

proof fn lemma_used_space_bounded(children: Seq<LineChild>, k: int)
    ensures
        0 <= used_space(children, k) <= top(),
    decreases k,
{
    if k > 0 {
        lemma_used_space_bounded(children, k - 1);
    }
}

proof fn lemma_counts_bounded(children: Seq<LineChild>, k: int)
    requires
        0 <= k <= children.len(),
    ensures
        0 <= auto_count(children, k) <= k,
        0 <= line_count(children, k) <= k,
    decreases k,
{
    if k > 0 {
        lemma_counts_bounded(children, k - 1);
    }
}

/// Places the children of a one-line container (see `line_layout`):
/// automatic children share the free length, the line is justified and
/// each child aligned across it.  Absolute children get no placement.
pub fn place_children_in_line(
    x: u16,
    y: u16,
    style: &Option<Style>,
    children: &Vec<LineChild>,
    direction: Direction,
    content_width: u16,
    content_height: u16,
    padding: Spacing,
    border_offset: u16,
    gap: u16,
) -> (ps: Vec<Option<Placement>>)
    requires
        line_layout(x, y, *style, children@, direction, content_width, content_height, padding, border_offset, gap) is Some,
    ensures
        ps@ == line_layout(x, y, *style, children@, direction, content_width, content_height, padding, border_offset, gap).unwrap(),
{
    let ghost cs = children@;
    let ghost f = line_frame(x, y, *style, cs, direction, content_width, content_height, padding, border_offset, gap).unwrap();
    let n = children.len();
    let main_len: u16 = match direction {
        Direction::Vertical => content_height,
        Direction::Horizontal => content_width,
    };
    let cross_len: u16 = match direction {
        Direction::Vertical => content_width,
        Direction::Horizontal => content_height,
    };
    let mut used: u16 = 0;
    let mut autos: usize = 0;
    let mut rel: usize = 0;
    let mut last_rel: usize = 0;
    let mut i: usize = 0;
    proof {
        lemma_counts_bounded(cs, n as int);
    }
    while i < n
        invariant
            cs == children@,
            n == cs.len(),
            i <= n,
            used as int == used_space(cs, i as int),
            autos as int == auto_count(cs, i as int),
            rel as int == line_count(cs, i as int),
            autos <= i,
            rel <= i,
            rel > 0 ==> last_rel < i && !cs[last_rel as int].absolute && !line_child_after(cs.take(i as int), last_rel as int),
            rel == 0 ==> forall|j: int| 0 <= j < i ==> (#[trigger] cs[j]).absolute,
        decreases n - i,
    {
        let c = children[i];
        proof {
            lemma_used_space_bounded(cs, i as int);
        }
        if !c.absolute {
            if !(c.auto && !c.text) {
                used = if used > 65535 - c.main { 65535 } else { used + c.main };
            }
            if c.auto {
                autos = autos + 1;
            }
            rel = rel + 1;
            last_rel = i;
        }
        proof {
            let t = cs.take(i + 1);
            if rel > 0 {
                assert forall|j: int| last_rel < j < t.len() implies (#[trigger] t[j]).absolute by {
                    if j < i {
                        assert(t[j] == cs.take(i as int)[j]);
                        assert(!(exists|jj: int| last_rel < jj < cs.take(i as int).len() && !(#[trigger] cs.take(i as int)[jj]).absolute));
                        assert(!(last_rel < j < cs.take(i as int).len() && !cs.take(i as int)[j].absolute));
                    }
                }
                assert(!line_child_after(t, last_rel as int));
            }
        }
        i = i + 1;
    }
    assert(cs.take(n as int) =~= cs);
    let available: u16 = if main_len > used { main_len - used } else { 0 };
    let share: u16 = if autos > 0 { available / ((autos % 65536) as u16) } else { 0 };
    let mut total: u16 = 0;
    let mut k: usize = 0;
    proof {
        lemma_line_total_some(cs, 0, n as int, share as int);
    }
    while k < n
        invariant
            cs == children@,
            n == cs.len(),
            k <= n,
            line_total(cs, n as int, share as int) is Some,
            line_total(cs, k as int, share as int) == Some(total as int),
        decreases n - k,
    {
        proof {
            lemma_line_total_some(cs, k + 1, n as int, share as int);
        }
        let c = children[k];
        if !c.absolute {
            let size = if c.auto && !c.text { share } else { c.main };
            total = total + size;
        }
        k = k + 1;
    }
    let gaps: u16 = if rel > 1 { gap * (((rel % 65536) as u16) - 1) } else { 0 };
    let total_used = total + gaps;
    let free: u16 = if main_len > total_used { main_len - total_used } else { 0 };
    let justify = match style {
        Some(s) => match s.justify_content {
            Some(j) => j,
            None => JustifyContent::Start,
        },
        None => JustifyContent::Start,
    };
    let align = match style {
        Some(s) => match s.align_items {
            Some(a) => a,
            None => AlignItems::Start,
        },
        None => AlignItems::Start,
    };
    let (offset0, spacing) = calculate_justify_offsets(justify, free, rel, gap);
    let sx = x + padding.left + border_offset;
    let sy = y + padding.top + border_offset;
    let (main_start, cross_start) = match direction {
        Direction::Vertical => (sy, sx),
        Direction::Horizontal => (sx, sy),
    };
    assert(f == LineFrame {
        cross_len: cross_len as int,
        main_start: main_start as int,
        cross_start: cross_start as int,
        share: share as int,
        offset: offset0 as int,
        spacing: spacing as int,
    });
    let mut ps: Vec<Option<Placement>> = Vec::new();
    let mut offset: u16 = offset0;
    let mut j: usize = 0;
    while j < n
        invariant
            cs == children@,
            n == cs.len(),
            j <= n,
            rel > 0 ==> last_rel < n && !cs[last_rel as int].absolute && !line_child_after(cs, last_rel as int),
            rel == 0 ==> forall|q: int| 0 <= q < n ==> (#[trigger] cs[q]).absolute,
            f.cross_len == cross_len,
            f.main_start == main_start,
            f.cross_start == cross_start,
            f.share == share,
            f.spacing == spacing,
            line_placements(cs, n as int, f, direction, justify, align) is Some,
            line_placements(cs, j as int, f, direction, justify, align) == Some((ps@, offset as int)),
        decreases n - j,
    {
        proof {
            lemma_line_placements_some(cs, j + 1, n as int, f, direction, justify, align);
        }
        let c = children[j];
        if c.absolute {
            ps.push(None);
        } else {
            let size = if c.auto && !c.text { share } else { c.main };
            let space: u16 = if cross_len > c.cross { cross_len - c.cross } else { 0 };
            let eff = match c.align_self {
                AlignSelf::Auto => align,
                AlignSelf::Start => AlignItems::Start,
                AlignSelf::Center => AlignItems::Center,
                AlignSelf::End => AlignItems::End,
            };
            let cross_pos: u16 = match eff {
                AlignItems::Start => cross_start,
                AlignItems::Center => cross_start + space / 2,
                AlignItems::End => cross_start + space,
            };
            let main_pos = main_start + offset;
            let p = match direction {
                Direction::Vertical => Placement { size, x: cross_pos, y: main_pos },
                Direction::Horizontal => Placement { size, x: main_pos, y: cross_pos },
            };
            ps.push(Some(p));
            offset = offset + size;
            let is_last = rel > 0 && last_rel == j;
            proof {
                if rel > 0 {
                    if last_rel == j {
                        assert(!line_child_after(cs, j as int));
                    } else if last_rel < j {
                        assert(!line_child_after(cs, last_rel as int));
                        assert(last_rel < j < cs.len() && !cs[j as int].absolute);
                        assert(false);
                    } else {
                        assert(j < last_rel < cs.len() && !cs[last_rel as int].absolute);
                        assert(line_child_after(cs, j as int));
                    }
                }
            }
            if !is_last {
                offset = offset + spacing;
            } else {
                match justify {
                    JustifyContent::SpaceAround | JustifyContent::SpaceEvenly => {
                        offset = offset + spacing;
                    },
                    _ => {},
                }
            }
        }
        j = j + 1;
    }
    ps
}


/// The lengths the line's children already use, how many are automatic,
/// how many are in the line, and the last of them.
fn line_counts(children: &Vec<LineChild>) -> (r: (u16, usize, usize, usize))
    ensures
        r.0 as int == used_space(children@, children@.len() as int),
        r.1 as int == auto_count(children@, children@.len() as int),
        r.2 as int == line_count(children@, children@.len() as int),
        r.1 <= children@.len(),
        r.2 <= children@.len(),
        r.2 > 0 ==> r.3 < children@.len() && !children@[r.3 as int].absolute && !line_child_after(children@, r.3 as int),
        r.2 == 0 ==> forall|j: int| 0 <= j < children@.len() ==> (#[trigger] children@[j]).absolute,
{
    let ghost cs = children@;
    let n = children.len();
    let mut used: u16 = 0;
    let mut autos: usize = 0;
    let mut rel: usize = 0;
    let mut last_rel: usize = 0;
    let mut i: usize = 0;
    while i < n
        invariant
            cs == children@,
            n == cs.len(),
            i <= n,
            used as int == used_space(cs, i as int),
            autos as int == auto_count(cs, i as int),
            rel as int == line_count(cs, i as int),
            autos <= i,
            rel <= i,
            rel > 0 ==> last_rel < i && !cs[last_rel as int].absolute && !line_child_after(cs.take(i as int), last_rel as int),
            rel == 0 ==> forall|j: int| 0 <= j < i ==> (#[trigger] cs[j]).absolute,
        decreases n - i,
    {
        let c = children[i];
        proof {
            lemma_used_space_bounded(cs, i as int);
        }
        if !c.absolute {
            if !(c.auto && !c.text) {
                used = if used > 65535 - c.main { 65535 } else { used + c.main };
            }
            if c.auto {
                autos = autos + 1;
            }
            rel = rel + 1;
            last_rel = i;
        }
        proof {
            let t = cs.take(i + 1);
            if rel > 0 {
                assert forall|j: int| last_rel < j < t.len() implies (#[trigger] t[j]).absolute by {
                    if j < i {
                        assert(t[j] == cs.take(i as int)[j]);
                        assert(!(exists|jj: int| last_rel < jj < cs.take(i as int).len() && !(#[trigger] cs.take(i as int)[jj]).absolute));
                        assert(!(last_rel < j < cs.take(i as int).len() && !cs.take(i as int)[j].absolute));
                    }
                }
                assert(!line_child_after(t, last_rel as int));
            }
        }
        i = i + 1;
    }
    assert(cs.take(n as int) =~= cs);
    (used, autos, rel, last_rel)
}

/// The geometry of a line (see `line_frame`) as `(cross length, main
/// start, cross start, share, offset, spacing)`, `None` exactly when
/// `line_frame` is.
fn line_frame_values(
    x: u16,
    y: u16,
    style: &Option<Style>,
    children: &Vec<LineChild>,
    direction: Direction,
    content_width: u16,
    content_height: u16,
    padding: Spacing,
    border_offset: u16,
    gap: u16,
) -> (r: Option<(u16, u16, u16, u16, u16, u16)>)
    ensures
        match line_frame(x, y, *style, children@, direction, content_width, content_height, padding, border_offset, gap) {
            None => r is None,
            Some(f) => r matches Some(v) && f == (LineFrame {
                cross_len: v.0 as int,
                main_start: v.1 as int,
                cross_start: v.2 as int,
                share: v.3 as int,
                offset: v.4 as int,
                spacing: v.5 as int,
            }),
        },
{
    let ghost cs = children@;
    let n = children.len();
    let main_len: u16 = match direction {
        Direction::Vertical => content_height,
        Direction::Horizontal => content_width,
    };
    let cross_len: u16 = match direction {
        Direction::Vertical => content_width,
        Direction::Horizontal => content_height,
    };
    let (used, autos, rel, _last) = line_counts(children);
    if autos > 0 && autos % 65536 == 0 {
        return None;
    }
    let rc16: u64 = (rel % 65536) as u64;
    if rel > 1 && rc16 == 0 {
        return None;
    }
    let gaps_wide: u64 = if rel > 1 {
        assert(gap as u64 * (rc16 - 1) <= 65535 * 65535) by (nonlinear_arith)
            requires
                gap <= 65535,
                1 <= rc16 <= 65535,
        ;
        gap as u64 * (rc16 - 1)
    } else {
        0
    };
    if gaps_wide > 65535 {
        return None;
    }
    let sx: u32 = x as u32 + padding.left as u32 + border_offset as u32;
    let sy: u32 = y as u32 + padding.top as u32 + border_offset as u32;
    if sx > 65535 || sy > 65535 {
        return None;
    }
    let available: u16 = if main_len > used { main_len - used } else { 0 };
    let share: u16 = if autos > 0 { available / ((autos % 65536) as u16) } else { 0 };
    let mut total: u32 = 0;
    let mut k: usize = 0;
    while k < n
        invariant
            cs == children@,
            n == cs.len(),
            k <= n,
            total <= 65535,
            line_total(cs, k as int, share as int) == Some(total as int),
            line_frame(x, y, *style, cs, direction, content_width, content_height, padding, border_offset, gap) is Some
                ==> line_total(cs, n as int, share as int) is Some,
        decreases n - k,
    {
        let c = children[k];
        if !c.absolute {
            let size = if c.auto && !c.text { share } else { c.main };
            if total + size as u32 > 65535 {
                proof {
                    if line_total(cs, n as int, share as int) is Some {
                        lemma_line_total_some(cs, k + 1, n as int, share as int);
                    }
                }
                return None;
            }
            total = total + size as u32;
        }
        k = k + 1;
    }
    let gaps: u16 = gaps_wide as u16;
    if total + gaps as u32 > 65535 {
        return None;
    }
    let justify = match style {
        Some(s) => match s.justify_content {
            Some(j) => j,
            None => JustifyContent::Start,
        },
        None => JustifyContent::Start,
    };
    let justified = match justify {
        JustifyContent::SpaceBetween => !(rel > 1) || rel % 65536 >= 2,
        JustifyContent::SpaceAround => !(rel > 0) || rel % 65536 != 0,
        JustifyContent::SpaceEvenly => !(rel > 0) || rel % 65536 != 65535,
        _ => true,
    };
    if !justified {
        return None;
    }
    let total_used: u16 = total as u16 + gaps;
    let free: u16 = if main_len > total_used { main_len - total_used } else { 0 };
    let (offset0, spacing) = calculate_justify_offsets(justify, free, rel, gap);
    let (main_start, cross_start): (u16, u16) = match direction {
        Direction::Vertical => (sy as u16, sx as u16),
        Direction::Horizontal => (sx as u16, sy as u16),
    };
    Some((cross_len, main_start, cross_start, share, offset0, spacing))
}

/// Whether the children of a one-line container can be placed within
/// `u16` (see `line_layout`), so that `place_children_in_line` can be
/// called.
pub fn line_layout_fits(
    x: u16,
    y: u16,
    style: &Option<Style>,
    children: &Vec<LineChild>,
    direction: Direction,
    content_width: u16,
    content_height: u16,
    padding: Spacing,
    border_offset: u16,
    gap: u16,
) -> (b: bool)
    ensures
        b == line_layout(x, y, *style, children@, direction, content_width, content_height, padding, border_offset, gap) is Some,
{
    let ghost cs = children@;
    let (cross_len, main_start, cross_start, share, offset0, spacing) = match line_frame_values(
        x, y, style, children, direction, content_width, content_height, padding, border_offset, gap,
    ) {
        Some(v) => v,
        None => {
            return false;
        },
    };
    let ghost f = line_frame(x, y, *style, cs, direction, content_width, content_height, padding, border_offset, gap).unwrap();
    let (_used, _autos, rel, last_rel) = line_counts(children);
    let justify = match style {
        Some(s) => match s.justify_content {
            Some(j) => j,
            None => JustifyContent::Start,
        },
        None => JustifyContent::Start,
    };
    let align = match style {
        Some(s) => match s.align_items {
            Some(a) => a,
            None => AlignItems::Start,
        },
        None => AlignItems::Start,
    };
    let n = children.len();
    assert(justify == justify_of(*style));
    assert(align == align_of(*style));
    let mut offset: u32 = offset0 as u32;
    let mut j: usize = 0;
    while j < n
        invariant
            cs == children@,
            n == cs.len(),
            j <= n,
            rel > 0 ==> last_rel < n && !cs[last_rel as int].absolute && !line_child_after(cs, last_rel as int),
            rel == 0 ==> forall|q: int| 0 <= q < n ==> (#[trigger] cs[q]).absolute,
            f.cross_len == cross_len,
            f.main_start == main_start,
            f.cross_start == cross_start,
            f.share == share,
            f.spacing == spacing,
            offset <= 65535,
            line_placements(cs, j as int, f, direction, justify, align) matches Some((_, o)) && o == offset,
            (line_layout(x, y, *style, cs, direction, content_width, content_height, padding, border_offset, gap) is Some)
                == (line_placements(cs, n as int, f, direction, justify, align) is Some),
        decreases n - j,
    {
        let c = children[j];
        if !c.absolute {
            let size = if c.auto && !c.text { share } else { c.main };
            let space: u16 = if cross_len > c.cross { cross_len - c.cross } else { 0 };
            let eff = match c.align_self {
                AlignSelf::Auto => align,
                AlignSelf::Start => AlignItems::Start,
                AlignSelf::Center => AlignItems::Center,
                AlignSelf::End => AlignItems::End,
            };
            let cross_pos: u32 = match eff {
                AlignItems::Start => cross_start as u32,
                AlignItems::Center => cross_start as u32 + (space / 2) as u32,
                AlignItems::End => cross_start as u32 + space as u32,
            };
            let main_pos: u32 = main_start as u32 + offset;
            let after: u32 = offset + size as u32;
            let is_last = rel > 0 && last_rel == j;
            proof {
                if rel > 0 {
                    if last_rel == j {
                        assert(!line_child_after(cs, j as int));
                    } else if last_rel < j {
                        assert(!line_child_after(cs, last_rel as int));
                        assert(last_rel < j < cs.len() && !cs[j as int].absolute);
                        assert(false);
                    } else {
                        assert(j < last_rel < cs.len() && !cs[last_rel as int].absolute);
                        assert(line_child_after(cs, j as int));
                    }
                }
            }
            let spaced = !is_last || match justify {
                JustifyContent::SpaceAround | JustifyContent::SpaceEvenly => true,
                _ => false,
            };
            let next: u32 = if spaced { after + spacing as u32 } else { after };
            if cross_pos > 65535 || main_pos > 65535 || after > 65535 || next > 65535 {
                proof {
                    if line_placements(cs, n as int, f, direction, justify, align) is Some {
                        lemma_line_placements_some(cs, j + 1, n as int, f, direction, justify, align);
                    }
                }
                return false;
            }
            offset = next;
        }
        j = j + 1;
    }
    true
}

/// A one-line layout gives each child one entry: none for an absolute
/// child, a placement for every other, and every automatic child that is
/// not text gets the same length.
pub proof fn lemma_line_places_each_child(
    children: Seq<LineChild>,
    k: int,
    f: LineFrame,
    direction: Direction,
    justify: JustifyContent,
    align: AlignItems,
)
    requires
        0 <= k <= children.len(),
        line_placements(children, k, f, direction, justify, align) is Some,
    ensures
        ({
            let ps = line_placements(children, k, f, direction, justify, align).unwrap().0;
            &&& ps.len() == k
            &&& forall|i: int| 0 <= i < k ==> ((#[trigger] ps[i]) is None <==> children[i].absolute)
            &&& forall|i: int|
                0 <= i < k && !children[i].absolute && children[i].auto && !children[i].text ==> (#[trigger] ps[i]).unwrap().size
                    == f.share as u16
        }),
    decreases k,
{
    if k > 0 {
        lemma_line_placements_some(children, k - 1, k, f, direction, justify, align);
        lemma_line_places_each_child(children, k - 1, f, direction, justify, align);
        let prev = line_placements(children, k - 1, f, direction, justify, align).unwrap().0;
        let ps = line_placements(children, k, f, direction, justify, align).unwrap().0;
        assert forall|i: int| 0 <= i < k - 1 implies ps[i] == prev[i] by {}
    }
}

/// Positions the children of a wrapping container (see `wrap_layout`).
pub fn layout_children_with_wrap(
    x: u16,
    y: u16,
    style: &Option<Style>,
    children: &Vec<ChildBox>,
    direction: Direction,
    content_width: u16,
    content_height: u16,
    padding: Spacing,
    border_offset: u16,
    gap: u16,
) -> (ps: Vec<(u16, u16)>)
    requires
        wrap_layout(x, y, *style, children@, direction, content_width, content_height, padding, border_offset, gap) is Some,
    ensures
        ps@ == wrap_layout(x, y, *style, children@, direction, content_width, content_height, padding, border_offset, gap).unwrap(),
{
    let start_x = x + padding.left + border_offset;
    let start_y = y + padding.top + border_offset;
    let justify = match style {
        Some(s) => match s.justify_content {
            Some(j) => j,
            None => JustifyContent::Start,
        },
        None => JustifyContent::Start,
    };
    let align = match style {
        Some(s) => match s.align_items {
            Some(a) => a,
            None => AlignItems::Start,
        },
        None => AlignItems::Start,
    };
    let n = children.len();
    let mut items: Vec<FlowItem> = Vec::new();
    let mut i: usize = 0;
    while i < n
        invariant
            n == children@.len(),
            i <= n,
            items@ == flow_items(children@, direction).take(i as int),
        decreases n - i,
    {
        let c = children[i];
        let item = match direction {
            Direction::Horizontal => FlowItem { main: c.width, cross: c.height, align_self: c.align_self },
            Direction::Vertical => FlowItem { main: c.height, cross: c.width, align_self: c.align_self },
        };
        items.push(item);
        assert(items@ =~= flow_items(children@, direction).take(i + 1));
        i = i + 1;
    }
    assert(items@ =~= flow_items(children@, direction));
    match direction {
        Direction::Horizontal => flow_wrap(&items, start_x, start_y, content_width, gap, justify, align),
        Direction::Vertical => {
            let ps = flow_wrap(&items, start_y, start_x, content_height, gap, justify, align);
            let ghost full = ps@;
            let m = ps.len();
            let mut out: Vec<(u16, u16)> = Vec::new();
            let mut k: usize = 0;
            while k < m
                invariant
                    m == ps@.len(),
                    k <= m,
                    out@ == ps@.take(k as int).map_values(|p: (u16, u16)| (p.1, p.0)),
                decreases m - k,
            {
                let (a, b) = ps[k];
                out.push((b, a));
                assert(out@ =~= ps@.take(k + 1).map_values(|p: (u16, u16)| (p.1, p.0)));
                k = k + 1;
            }
            assert(ps@.take(m as int) =~= ps@);
            out
        },
    }
}


/// Lines that cover the children `0..n` one after the other.
pub open spec fn covers(lines: Seq<FlowLine>, n: int) -> bool {
    &&& lines.len() == 0 ==> n == 0
    &&& lines.len() > 0 ==> lines[0].start == 0 && lines.last().end == n
    &&& forall|q: int| 0 <= q < lines.len() - 1 ==> (#[trigger] lines[q]).end == lines[q + 1].start
    &&& forall|q: int| 0 <= q < lines.len() ==> (#[trigger] lines[q]).start <= lines[q].end
}

proof fn lemma_group_prefix_covers(items: Seq<FlowItem>, k: int, limit: int, gap: int)
    requires
        0 <= k <= items.len(),
        items.len() <= usize::MAX,
        group_prefix(items, k, limit, gap) is Some,
    ensures
        ({
            let g = group_prefix(items, k, limit, gap).unwrap();
            &&& k > 0 ==> g.start < k
            &&& k == 0 ==> g.start == 0
            &&& covers(g.lines, g.start)
        }),
    decreases k,
{
    if k > 0 {
        lemma_group_prefix_some(items, k - 1, k, limit, gap);
        lemma_group_prefix_covers(items, k - 1, limit, gap);
        let g = group_prefix(items, k - 1, limit, gap).unwrap();
        let h = group_prefix(items, k, limit, gap).unwrap();
        if h.lines.len() > g.lines.len() {
            let nl = FlowLine { start: g.start as usize, end: (k - 1) as usize, main: g.main as u16, cross: g.cross as u16 };
            assert(h.lines == g.lines.push(nl));
            assert forall|q: int| 0 <= q < h.lines.len() - 1 implies (#[trigger] h.lines[q]).end == h.lines[q + 1].start by {
                if q < g.lines.len() - 1 {
                    assert(h.lines[q] == g.lines[q] && h.lines[q + 1] == g.lines[q + 1]);
                }
            }
            assert forall|q: int| 0 <= q < h.lines.len() implies (#[trigger] h.lines[q]).start <= h.lines[q].end by {
                if q < g.lines.len() {
                    assert(h.lines[q] == g.lines[q]);
                }
            }
        }
    }
}

proof fn lemma_group_lines_cover(items: Seq<FlowItem>, limit: int, gap: int)
    requires
        items.len() <= usize::MAX,
        group_lines(items, limit, gap) is Some,
    ensures
        covers(group_lines(items, limit, gap).unwrap(), items.len() as int),
{
    let n = items.len() as int;
    lemma_group_prefix_covers(items, n, limit, gap);
    let g = group_prefix(items, n, limit, gap).unwrap();
    let ls = group_lines(items, limit, gap).unwrap();
    if g.start < n {
        let nl = FlowLine { start: g.start as usize, end: n as usize, main: g.main as u16, cross: g.cross as u16 };
        assert(ls == g.lines.push(nl));
        assert forall|q: int| 0 <= q < ls.len() - 1 implies (#[trigger] ls[q]).end == ls[q + 1].start by {
            if q < g.lines.len() - 1 {
                assert(ls[q] == g.lines[q] && ls[q + 1] == g.lines[q + 1]);
            }
        }
        assert forall|q: int| 0 <= q < ls.len() implies (#[trigger] ls[q]).start <= ls[q].end by {
            if q < g.lines.len() {
                assert(ls[q] == g.lines[q]);
            }
        }
    }
}

proof fn lemma_place_prefix_len(
    items: Seq<FlowItem>,
    line: FlowLine,
    j: int,
    start: int,
    spacing: int,
    cross: int,
    align: AlignItems,
)
    requires
        0 <= j,
        place_prefix(items, line, j, start, spacing, cross, align) is Some,
    ensures
        place_prefix(items, line, j, start, spacing, cross, align).unwrap().0.len() == j,
    decreases j,
{
    if j > 0 {
        lemma_place_prefix_some(items, line, j - 1, j, start, spacing, cross, align);
        lemma_place_prefix_len(items, line, j - 1, start, spacing, cross, align);
    }
}

proof fn lemma_place_lines_len(
    items: Seq<FlowItem>,
    lines: Seq<FlowLine>,
    m: int,
    start_main: int,
    start_cross: int,
    limit: int,
    gap: int,
    justify: JustifyContent,
    align: AlignItems,
)
    requires
        0 <= m <= lines.len(),
        lines.len() > 0 ==> lines[0].start == 0,
        forall|q: int| 0 <= q < lines.len() - 1 ==> (#[trigger] lines[q]).end == lines[q + 1].start,
        forall|q: int| 0 <= q < lines.len() ==> (#[trigger] lines[q]).start <= lines[q].end,
        place_lines(items, lines, m, start_main, start_cross, limit, gap, justify, align) is Some,
    ensures
        place_lines(items, lines, m, start_main, start_cross, limit, gap, justify, align).unwrap().0.len() == (if m == 0 {
            0
        } else {
            lines[m - 1].end as int
        }),
    decreases m,
{
    if m > 0 {
        lemma_place_lines_some(items, lines, m - 1, m, start_main, start_cross, limit, gap, justify, align);
        lemma_place_lines_len(items, lines, m - 1, start_main, start_cross, limit, gap, justify, align);
        let prev = place_lines(items, lines, m - 1, start_main, start_cross, limit, gap, justify, align).unwrap();
        let line = lines[m - 1];
        let (s0, sp) = line_offsets(line, limit, gap, start_main, justify).unwrap();
        lemma_place_prefix_len(items, line, line.end - line.start, s0, sp, prev.1, align);
        if m > 1 {
            assert(lines[m - 2].end == lines[m - 1].start);
        }
    }
}

/// A wrapped flow places every child exactly once: it gives as many
/// positions as there are children.
pub proof fn lemma_flow_places_every_child(
    items: Seq<FlowItem>,
    start_main: int,
    start_cross: int,
    limit: int,
    gap: int,
    justify: JustifyContent,
    align: AlignItems,
)
    requires
        items.len() <= usize::MAX,
        flow_positions(items, start_main, start_cross, limit, gap, justify, align) is Some,
    ensures
        flow_positions(items, start_main, start_cross, limit, gap, justify, align).unwrap().len() == items.len(),
{
    let lines = group_lines(items, limit, gap).unwrap();
    lemma_group_lines_cover(items, limit, gap);
    lemma_place_lines_len(items, lines, lines.len() as int, start_main, start_cross, limit, gap, justify, align);
}


/// Within a line, each child starts where the one before it ends plus the
/// line's spacing, and the first starts at the line's start: children of a
/// line never overlap along the main axis.
pub proof fn lemma_line_children_follow(
    items: Seq<FlowItem>,
    line: FlowLine,
    j: int,
    start: int,
    spacing: int,
    cross: int,
    align: AlignItems,
)
    requires
        0 <= j <= line.end - line.start,
        line.end <= items.len(),
        0 <= start <= top(),
        0 <= spacing,
        place_prefix(items, line, j, start, spacing, cross, align) is Some,
    ensures
        ({
            let (ps, cur) = place_prefix(items, line, j, start, spacing, cross, align).unwrap();
            &&& 0 <= cur <= top()
            &&& ps.len() == j
            &&& j > 0 ==> ps[0].0 == start
            &&& forall|t: int| 0 < t < j ==> (#[trigger] ps[t]).0 == ps[t - 1].0 + items[line.start + t - 1].main + spacing
            &&& cur == (if j == 0 {
                start
            } else {
                ps[j - 1].0 + items[line.start + j - 1].main + (if j < line.end - line.start { spacing } else { 0 })
            })
        }),
    decreases j,
{
    if j > 0 {
        lemma_place_prefix_some(items, line, j - 1, j, start, spacing, cross, align);
        lemma_line_children_follow(items, line, j - 1, start, spacing, cross, align);
        let (prev, pcur) = place_prefix(items, line, j - 1, start, spacing, cross, align).unwrap();
        let (ps, cur) = place_prefix(items, line, j, start, spacing, cross, align).unwrap();
        assert forall|t: int| 0 < t < j implies (#[trigger] ps[t]).0 == ps[t - 1].0 + items[line.start + t - 1].main + spacing by {
            if t < j - 1 {
                assert(ps[t] == prev[t] && ps[t - 1] == prev[t - 1]);
            } else {
                assert(ps[t - 1] == prev[t - 1]);
            }
        }
    }
}

proof fn lemma_group_prefix_bounds(items: Seq<FlowItem>, k: int, limit: int, gap: int)
    requires
        0 <= k <= items.len(),
        items.len() <= usize::MAX,
        group_prefix(items, k, limit, gap) is Some,
    ensures
        ({
            let g = group_prefix(items, k, limit, gap).unwrap();
            &&& 0 <= g.start <= k
            &&& forall|q: int| 0 <= q < g.lines.len() ==> (#[trigger] g.lines[q]).start <= g.lines[q].end <= k
        }),
    decreases k,
{
    if k > 0 {
        lemma_group_prefix_some(items, k - 1, k, limit, gap);
        lemma_group_prefix_bounds(items, k - 1, limit, gap);
        let g = group_prefix(items, k - 1, limit, gap).unwrap();
        let h = group_prefix(items, k, limit, gap).unwrap();
        assert forall|q: int| 0 <= q < h.lines.len() implies (#[trigger] h.lines[q]).start <= h.lines[q].end <= k by {
            if q < g.lines.len() {
                assert(h.lines[q] == g.lines[q]);
            }
        }
    }
}

proof fn lemma_lines_in_range(items: Seq<FlowItem>, limit: int, gap: int)
    requires
        items.len() <= usize::MAX,
        group_lines(items, limit, gap) is Some,
    ensures
        forall|q: int|
            0 <= q < group_lines(items, limit, gap).unwrap().len() ==> (#[trigger] group_lines(items, limit, gap).unwrap()[q]).start
                <= group_lines(items, limit, gap).unwrap()[q].end <= items.len(),
{
    lemma_group_prefix_bounds(items, items.len() as int, limit, gap);
    let g = group_prefix(items, items.len() as int, limit, gap).unwrap();
    let ls = group_lines(items, limit, gap).unwrap();
    assert forall|q: int| 0 <= q < ls.len() implies (#[trigger] ls[q]).start <= ls[q].end <= items.len() by {
        if q < g.lines.len() {
            assert(ls[q] == g.lines[q]);
        }
    }
}

proof fn lemma_group_prefix_some(items: Seq<FlowItem>, j: int, k: int, limit: int, gap: int)
    requires
        0 <= j <= k,
        group_prefix(items, k, limit, gap) is Some,
    ensures
        group_prefix(items, j, limit, gap) is Some,
    decreases k - j,
{
    if j < k {
        lemma_group_prefix_some(items, j, k - 1, limit, gap);
    }
}

proof fn lemma_place_prefix_some(
    items: Seq<FlowItem>,
    line: FlowLine,
    j: int,
    k: int,
    start: int,
    spacing: int,
    cross: int,
    align: AlignItems,
)
    requires
        0 <= j <= k,
        place_prefix(items, line, k, start, spacing, cross, align) is Some,
    ensures
        place_prefix(items, line, j, start, spacing, cross, align) is Some,
    decreases k - j,
{
    if j < k {
        lemma_place_prefix_some(items, line, j, k - 1, start, spacing, cross, align);
    }
}

proof fn lemma_place_lines_some(
    items: Seq<FlowItem>,
    lines: Seq<FlowLine>,
    j: int,
    k: int,
    start_main: int,
    start_cross: int,
    limit: int,
    gap: int,
    justify: JustifyContent,
    align: AlignItems,
)
    requires
        0 <= j <= k,
        place_lines(items, lines, k, start_main, start_cross, limit, gap, justify, align) is Some,
    ensures
        place_lines(items, lines, j, start_main, start_cross, limit, gap, justify, align) is Some,
    decreases k - j,
{
    if j < k {
        lemma_place_lines_some(items, lines, j, k - 1, start_main, start_cross, limit, gap, justify, align);
    }
}

} // verus!
