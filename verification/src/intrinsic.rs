//! Intrinsic sizes of containers: how large a container is for its
//! content, from the sizes of its children, stacked along its direction or
//! wrapped into rows or columns.
use vstd::prelude::*;
use crate::style::{Dimension, Direction, Position, Spacing, Style, TextWrap, WrapMode};
use crate::layout::{RenderNode, RenderNodeType, TextSpan};
use crate::render::{spans_total, spans_width};
use crate::unicode::{columns_of, display_width};
use crate::wrap::{string_views, wrap_lines, wrap_text};

verus! {

/// The largest `u16`.
pub open spec fn cap() -> int {
    65535
}

/// `a + b`, held at `u16::MAX`.
pub open spec fn sat_add(a: int, b: int) -> int {
    if a + b > cap() { cap() } else { a + b }
}

/// `v`, no more than `u16::MAX`.
pub open spec fn min_cap(v: int) -> int {
    if v > cap() { cap() } else { v }
}

/// `a - b`, held at 0.
pub open spec fn sat_sub(a: int, b: int) -> int {
    if a > b { a - b } else { 0 }
}

/// The larger of two integers.
pub open spec fn max_of(a: int, b: int) -> int {
    if a >= b { a } else { b }
}

/// A child's size as its container measures it, and whether it takes part
/// in the flow (absolute and fixed children do not).
#[derive(Debug, Clone, Copy, PartialEq, Eq, Structural)]
pub struct MeasuredChild {
    /// Width
    pub width: u16,
    /// Height
    pub height: u16,
    /// Takes part in the flow
    pub in_flow: bool,
}

/// The fixed width of a style, if any.
pub open spec fn fixed_width(style: Option<Style>) -> Option<u16> {
    match style {
        Some(s) => match s.width {
            Some(Dimension::Fixed(w)) => Some(w),
            _ => None,
        },
        None => None,
    }
}

/// The fixed height of a style, if any.
pub open spec fn fixed_height(style: Option<Style>) -> Option<u16> {
    match style {
        Some(s) => match s.height {
            Some(Dimension::Fixed(h)) => Some(h),
            _ => None,
        },
        None => None,
    }
}

/// Whether the padding sums with the border fit in `u16`.
pub open spec fn frame_fits(padding: Spacing, border_size: u16) -> bool {
    &&& padding.left + padding.right + border_size <= cap()
    &&& padding.top + padding.bottom + border_size <= cap()
}

/// The size hint a container hands its children: its fixed sizes less
/// padding and border where it has them, the hint it got otherwise (0 for
/// a missing side once one side is fixed).
pub open spec fn child_hint(style: Option<Style>, padding: Spacing, border_size: u16, hint: Option<(u16, u16)>) -> Option<(u16, u16)> {
    let cw = |w: u16| sat_sub(w as int, padding.left + padding.right + border_size) as u16;
    let ch = |h: u16| sat_sub(h as int, padding.top + padding.bottom + border_size) as u16;
    match (fixed_width(style), fixed_height(style)) {
        (Some(w), Some(h)) => Some((cw(w), ch(h))),
        (Some(w), None) => Some((cw(w), match hint { Some((_, h)) => h, None => 0 })),
        (None, Some(h)) => Some((match hint { Some((w, _)) => w, None => 0 }, ch(h))),
        (None, None) => hint,
    }
}

/// The size hint a container hands its children (see `child_hint`).
pub fn intrinsic_child_hint(style: &Option<Style>, padding: Spacing, border_size: u16, hint: Option<(u16, u16)>) -> (r: Option<(u16, u16)>)
    requires
        frame_fits(padding, border_size),
    ensures
        r == child_hint(*style, padding, border_size, hint),
{
    let fw: Option<u16> = match style {
        Some(s) => match s.width {
            Some(Dimension::Fixed(w)) => Some(w),
            _ => None,
        },
        None => None,
    };
    let fh: Option<u16> = match style {
        Some(s) => match s.height {
            Some(Dimension::Fixed(h)) => Some(h),
            _ => None,
        },
        None => None,
    };
    let horizontal = padding.left + padding.right + border_size;
    let vertical = padding.top + padding.bottom + border_size;
    match (fw, fh) {
        (Some(w), Some(h)) => Some((
            if w > horizontal { w - horizontal } else { 0 },
            if h > vertical { h - vertical } else { 0 },
        )),
        (Some(w), None) => Some((
            if w > horizontal { w - horizontal } else { 0 },
            match hint {
                Some((_, h)) => h,
                None => 0,
            },
        )),
        (None, Some(h)) => Some((
            match hint {
                Some((w, _)) => w,
                None => 0,
            },
            if h > vertical { h - vertical } else { 0 },
        )),
        (None, None) => hint,
    }
}

/// Stacking the first `k` children: the widths and heights added up (held
/// at `u16::MAX`), the largest width and height, and the number of
/// children in the flow (held at `u16::MAX`).
pub open spec fn stack(children: Seq<MeasuredChild>, k: int, direction: Direction) -> (int, int, int, int, int)
    decreases k,
{
    if k <= 0 {
        (0, 0, 0, 0, 0)
    } else {
        let (tw, th, mw, mh, n) = stack(children, k - 1, direction);
        let c = children[k - 1];
        let n2 = if c.in_flow { sat_add(n, 1) } else { n };
        match direction {
            Direction::Horizontal => (sat_add(tw, c.width as int), th, mw, max_of(mh, c.height as int), n2),
            Direction::Vertical => (tw, sat_add(th, c.height as int), max_of(mw, c.width as int), mh, n2),
        }
    }
}

/// The intrinsic size of a container that stacks its children: along its
/// direction the children's lengths and the gaps between those in the
/// flow, across it the largest child; then padding and border; every sum
/// held at `u16::MAX`.
pub open spec fn stacked_size(
    children: Seq<MeasuredChild>,
    direction: Direction,
    padding: Spacing,
    border_size: u16,
    gap: u16,
) -> (u16, u16) {
    let (tw, th, mw, mh, n) = stack(children, children.len() as int, direction);
    let gaps: int = if gap > 0 && n > 1 { if gap * (n - 1) > cap() { cap() } else { gap * (n - 1) } } else { 0 };
    let cw: int = match direction {
        Direction::Horizontal => sat_add(tw, gaps),
        Direction::Vertical => mw,
    };
    let ch: int = match direction {
        Direction::Horizontal => mh,
        Direction::Vertical => sat_add(th, gaps),
    };
    (
        sat_add(sat_add(cw, padding.left + padding.right), border_size as int) as u16,
        sat_add(sat_add(ch, padding.top + padding.bottom), border_size as int) as u16,
    )
}

proof fn lemma_stack_largest(children: Seq<MeasuredChild>, k: int, direction: Direction)
    requires
        0 <= k <= children.len(),
    ensures
        ({
            let (tw, th, mw, mh, n) = stack(children, k, direction);
            &&& direction is Vertical ==> forall|j: int| 0 <= j < k ==> (#[trigger] children[j]).width <= mw
            &&& direction is Vertical ==> (k == 0 ==> mw == 0) && (k > 0 ==> exists|j: int| 0 <= j < k && (#[trigger] children[j]).width == mw)
            &&& direction is Horizontal ==> forall|j: int| 0 <= j < k ==> (#[trigger] children[j]).height <= mh
            &&& direction is Horizontal ==> (k == 0 ==> mh == 0) && (k > 0 ==> exists|j: int| 0 <= j < k && (#[trigger] children[j]).height == mh)
            &&& direction is Vertical ==> forall|j: int| 0 <= j < k ==> (#[trigger] children[j]).height <= th || th == cap()
            &&& direction is Horizontal ==> forall|j: int| 0 <= j < k ==> (#[trigger] children[j]).width <= tw || tw == cap()
            &&& 0 <= tw && 0 <= th
        }),
    decreases k,
{
    if k > 0 {
        lemma_stack_largest(children, k - 1, direction);
        let (tw, th, mw, mh, n) = stack(children, k - 1, direction);
        let c = children[k - 1];
        match direction {
            Direction::Vertical => {
                if mw >= c.width as int && k - 1 > 0 {
                    let j = choose|j: int| 0 <= j < k - 1 && (#[trigger] children[j]).width == mw;
                    assert(children[j].width == mw);
                }
            },
            Direction::Horizontal => {
                if mh >= c.height as int && k - 1 > 0 {
                    let j = choose|j: int| 0 <= j < k - 1 && (#[trigger] children[j]).height == mh;
                    assert(children[j].height == mh);
                }
            },
        }
    }
}

/// Law: a stacking container is as wide (vertically) or as tall
/// (horizontally) as its widest (tallest) child plus padding and border,
/// held at `u16::MAX`: no narrower than any child, and as wide as one of
/// them (as the padding and border alone without children).  Along its
/// direction it is at least as long as each child plus padding and
/// border, also held at `u16::MAX`.
pub proof fn lemma_stacked_size_holds_every_child(
    children: Seq<MeasuredChild>,
    direction: Direction,
    padding: Spacing,
    border_size: u16,
    gap: u16,
)
    ensures
        ({
            let (w, h) = stacked_size(children, direction, padding, border_size, gap);
            let across_w: int = padding.left + padding.right + border_size;
            let across_h: int = padding.top + padding.bottom + border_size;
            &&& direction is Vertical ==> forall|j: int| 0 <= j < children.len() ==>
                w >= min_cap((#[trigger] children[j]).width + across_w) && h >= min_cap(children[j].height + across_h)
            &&& direction is Vertical && children.len() > 0 ==> exists|j: int| 0 <= j < children.len()
                && w == min_cap((#[trigger] children[j]).width + across_w)
            &&& direction is Horizontal ==> forall|j: int| 0 <= j < children.len() ==>
                h >= min_cap((#[trigger] children[j]).height + across_h) && w >= min_cap(children[j].width + across_w)
            &&& direction is Horizontal && children.len() > 0 ==> exists|j: int| 0 <= j < children.len()
                && h == min_cap((#[trigger] children[j]).height + across_h)
            &&& direction is Vertical && children.len() == 0 ==> w == min_cap(across_w)
            &&& direction is Horizontal && children.len() == 0 ==> h == min_cap(across_h)
        }),
{
    let k = children.len() as int;
    lemma_stack_largest(children, k, direction);
    lemma_stack_bounded(children, k, direction);
    let (tw, th, mw, mh, n) = stack(children, k, direction);
    match direction {
        Direction::Vertical => {
            if k > 0 {
                let j = choose|j: int| 0 <= j < k && (#[trigger] children[j]).width == mw;
                assert(children[j].width == mw);
            }
        },
        Direction::Horizontal => {
            if k > 0 {
                let j = choose|j: int| 0 <= j < k && (#[trigger] children[j]).height == mh;
                assert(children[j].height == mh);
            }
        },
    }
}

proof fn lemma_stack_bounded(children: Seq<MeasuredChild>, k: int, direction: Direction)
    ensures
        ({
            let (tw, th, mw, mh, n) = stack(children, k, direction);
            0 <= tw <= cap() && 0 <= th <= cap() && 0 <= mw <= cap() && 0 <= mh <= cap() && 0 <= n <= cap()
        }),
    decreases k,
{
    if k > 0 {
        lemma_stack_bounded(children, k - 1, direction);
    }
}

/// `a * b`, held at `u16::MAX` (as `u16::saturating_mul`).
fn saturating_mul(a: u16, b: u16) -> (r: u16)
    ensures
        r == (if a * b > cap() { cap() } else { a * b }),
{
    assert((a as int) * (b as int) <= 65535 * 65535) by (nonlinear_arith)
        requires
            a <= 65535,
            b <= 65535,
    ;
    let wide: u32 = (a as u32) * (b as u32);
    if wide > 65535 { 65535 } else { wide as u16 }
}

/// The intrinsic size of a container that stacks its children (see
/// `stacked_size`).
pub fn standard_intrinsic_size(
    children: &Vec<MeasuredChild>,
    direction: Direction,
    padding: Spacing,
    border_size: u16,
    gap: u16,
) -> (r: (u16, u16))
    requires
        padding.left + padding.right <= cap(),
        padding.top + padding.bottom <= cap(),
    ensures
        r == stacked_size(children@, direction, padding, border_size, gap),
{
    let mut total_width: u16 = 0;
    let mut total_height: u16 = 0;
    let mut max_width: u16 = 0;
    let mut max_height: u16 = 0;
    let mut relative_children: u16 = 0;
    let n = children.len();
    let mut i: usize = 0;
    while i < n
        invariant
            n == children@.len(),
            i <= n,
            stack(children@, i as int, direction) == (
                total_width as int,
                total_height as int,
                max_width as int,
                max_height as int,
                relative_children as int,
            ),
        decreases n - i,
    {
        let c = children[i];
        if c.in_flow {
            relative_children = relative_children.saturating_add(1);
        }
        match direction {
            Direction::Horizontal => {
                total_width = total_width.saturating_add(c.width);
                max_height = if max_height >= c.height { max_height } else { c.height };
            },
            Direction::Vertical => {
                total_height = total_height.saturating_add(c.height);
                max_width = if max_width >= c.width { max_width } else { c.width };
            },
        }
        i = i + 1;
    }
    let gap_total: u16 = if gap > 0 && relative_children > 1 {
        saturating_mul(gap, relative_children - 1)
    } else {
        0
    };
    let content_width = match direction {
        Direction::Horizontal => total_width.saturating_add(gap_total),
        Direction::Vertical => max_width,
    };
    let content_height = match direction {
        Direction::Horizontal => max_height,
        Direction::Vertical => total_height.saturating_add(gap_total),
    };
    let final_width = content_width.saturating_add(padding.left + padding.right).saturating_add(border_size);
    let final_height = content_height.saturating_add(padding.top + padding.bottom).saturating_add(border_size);
    (final_width, final_height)
}


/// The length a wrapping container wraps at: its fixed width (for rows) or
/// height (for columns) less padding and border, else the hint's, else
/// `u16::MAX`.
pub open spec fn wrap_constraint(style: Option<Style>, direction: Direction, padding: Spacing, border_size: u16, hint: Option<(u16, u16)>) -> u16 {
    match direction {
        Direction::Horizontal => match fixed_width(style) {
            Some(w) => sat_sub(w as int, padding.left + padding.right + border_size) as u16,
            None => match hint {
                Some((w, _)) => w,
                None => 65535,
            },
        },
        Direction::Vertical => match fixed_height(style) {
            Some(h) => sat_sub(h as int, padding.top + padding.bottom + border_size) as u16,
            None => match hint {
                Some((_, h)) => h,
                None => 65535,
            },
        },
    }
}

/// Whether the padding and border used by `wrap_constraint` fit in `u16`.
pub open spec fn wrap_constraint_ok(style: Option<Style>, direction: Direction, padding: Spacing, border_size: u16) -> bool {
    match direction {
        Direction::Horizontal => fixed_width(style) is Some ==> padding.left + padding.right + border_size <= cap(),
        Direction::Vertical => fixed_height(style) is Some ==> padding.top + padding.bottom + border_size <= cap(),
    }
}

/// The length a wrapping container wraps at (see `wrap_constraint`).
pub fn wrapped_constraint(style: &Option<Style>, direction: Direction, padding: Spacing, border_size: u16, hint: Option<(u16, u16)>) -> (c: u16)
    requires
        wrap_constraint_ok(*style, direction, padding, border_size),
    ensures
        c == wrap_constraint(*style, direction, padding, border_size, hint),
{
    match direction {
        Direction::Horizontal => {
            let fw: Option<u16> = match style {
                Some(s) => match s.width {
                    Some(Dimension::Fixed(w)) => Some(w),
                    _ => None,
                },
                None => None,
            };
            match fw {
                Some(w) => {
                    let frame = padding.left + padding.right + border_size;
                    if w > frame { w - frame } else { 0 }
                },
                None => match hint {
                    Some((w, _)) => w,
                    None => 65535,
                },
            }
        },
        Direction::Vertical => {
            let fh: Option<u16> = match style {
                Some(s) => match s.height {
                    Some(Dimension::Fixed(h)) => Some(h),
                    _ => None,
                },
                None => None,
            };
            match fh {
                Some(h) => {
                    let frame = padding.top + padding.bottom + border_size;
                    if h > frame { h - frame } else { 0 }
                },
                None => match hint {
                    Some((_, h)) => h,
                    None => 65535,
                },
            }
        },
    }
}

/// The hint a wrapping container hands its children: the length it wraps
/// at along its direction, the hint's length (or 0) across.
pub fn wrapped_child_hint(direction: Direction, constraint: u16, hint: Option<(u16, u16)>) -> (r: Option<(u16, u16)>)
    ensures
        r == (match direction {
            Direction::Horizontal => Some((constraint, match hint { Some((_, h)) => h, None => 0u16 })),
            Direction::Vertical => Some((match hint { Some((w, _)) => w, None => 0u16 }, constraint)),
        }),
{
    match direction {
        Direction::Horizontal => Some((constraint, match hint {
            Some((_, h)) => h,
            None => 0,
        })),
        Direction::Vertical => Some((match hint {
            Some((w, _)) => w,
            None => 0,
        }, constraint)),
    }
}

/// Packing children into rows (or columns): the largest cross length of
/// each closed row, and the length, largest cross length and emptiness of
/// the row being filled.
pub ghost struct Packing {
    pub rows: Seq<int>,
    pub len: int,
    pub cross: int,
    pub nonempty: bool,
}

/// Packing one more child: when the row has length and the child, after a
/// gap, would pass `limit`, the row is closed and the child starts the
/// next; otherwise it joins the row (after a gap unless the row is empty).
/// `None` when a length passes `u16::MAX`.
pub open spec fn pack_step(p: Packing, main: int, cross: int, limit: int, gap: int) -> Option<Packing> {
    if p.len > 0 && p.len + gap + main > cap() {
        None
    } else if p.len > 0 && p.len + gap + main > limit {
        Some(Packing { rows: p.rows.push(p.cross), len: main, cross, nonempty: true })
    } else {
        let l1: int = if p.nonempty { p.len + gap } else { p.len };
        if l1 > cap() || l1 + main > cap() {
            None
        } else {
            Some(Packing { rows: p.rows, len: l1 + main, cross: max_of(p.cross, cross), nonempty: true })
        }
    }
}

/// The children's lengths along and across a direction.
pub open spec fn main_cross(c: MeasuredChild, direction: Direction) -> (int, int) {
    match direction {
        Direction::Horizontal => (c.width as int, c.height as int),
        Direction::Vertical => (c.height as int, c.width as int),
    }
}

/// Packing the first `k` children.
pub open spec fn pack_prefix(children: Seq<MeasuredChild>, k: int, direction: Direction, limit: int, gap: int) -> Option<Packing>
    decreases k,
{
    if k <= 0 {
        Some(Packing { rows: Seq::empty(), len: 0, cross: 0, nonempty: false })
    } else {
        match pack_prefix(children, k - 1, direction, limit, gap) {
            None => None,
            Some(p) => {
                let (m, c) = main_cross(children[k - 1], direction);
                pack_step(p, m, c, limit, gap)
            },
        }
    }
}

/// The sum of the first `k` row lengths; `None` when a partial sum passes
/// `u16::MAX`.
pub open spec fn rows_sum(rows: Seq<int>, k: int) -> Option<int>
    decreases k,
{
    if k <= 0 {
        Some(0)
    } else {
        match rows_sum(rows, k - 1) {
            None => None,
            Some(t) => if t + rows[k - 1] > cap() { None } else { Some(t + rows[k - 1]) },
        }
    }
}

/// The intrinsic size of a wrapping container: along its direction the
/// length it wraps at, across it the rows' largest cross lengths and the
/// gaps between rows; then padding and border, held at `u16::MAX`.  `None`
/// when a length passes `u16::MAX`.
pub open spec fn wrapped_size(
    children: Seq<MeasuredChild>,
    direction: Direction,
    constraint: u16,
    padding: Spacing,
    border_size: u16,
    gap: u16,
) -> Option<(u16, u16)> {
    match pack_prefix(children, children.len() as int, direction, constraint as int, gap as int) {
        None => None,
        Some(p) => {
            let rows = if p.nonempty { p.rows.push(p.cross) } else { p.rows };
            let between: int = (if rows.len() >= 1 { rows.len() - 1 } else { 0 }) % 65536;
            match rows_sum(rows, rows.len() as int) {
                None => None,
                Some(t) => if between * gap > cap() || t + between * gap > cap() {
                    None
                } else {
                    let across: int = t + between * gap;
                    let (w, h): (int, int) = match direction {
                        Direction::Horizontal => (constraint as int, across),
                        Direction::Vertical => (across, constraint as int),
                    };
                    Some((
                        sat_add(sat_add(w, padding.left + padding.right), border_size as int) as u16,
                        sat_add(sat_add(h, padding.top + padding.bottom), border_size as int) as u16,
                    ))
                },
            }
        },
    }
}

proof fn lemma_pack_prefix_some(children: Seq<MeasuredChild>, j: int, k: int, direction: Direction, limit: int, gap: int)
    requires
        0 <= j <= k,
        pack_prefix(children, k, direction, limit, gap) is Some,
    ensures
        pack_prefix(children, j, direction, limit, gap) is Some,
    decreases k - j,
{
    if j < k {
        lemma_pack_prefix_some(children, j, k - 1, direction, limit, gap);
    }
}

proof fn lemma_pack_prefix_bounded(children: Seq<MeasuredChild>, k: int, direction: Direction, limit: int, gap: int)
    requires
        0 <= gap,
        pack_prefix(children, k, direction, limit, gap) is Some,
    ensures
        ({
            let p = pack_prefix(children, k, direction, limit, gap).unwrap();
            &&& 0 <= p.len <= cap()
            &&& 0 <= p.cross <= cap()
            &&& forall|q: int| 0 <= q < p.rows.len() ==> 0 <= #[trigger] p.rows[q] <= cap()
        }),
    decreases k,
{
    if k > 0 {
        lemma_pack_prefix_some(children, k - 1, k, direction, limit, gap);
        lemma_pack_prefix_bounded(children, k - 1, direction, limit, gap);
        let p = pack_prefix(children, k - 1, direction, limit, gap).unwrap();
        let q = pack_prefix(children, k, direction, limit, gap).unwrap();
        assert forall|i: int| 0 <= i < q.rows.len() implies 0 <= #[trigger] q.rows[i] <= cap() by {
            if i < p.rows.len() {
                assert(q.rows[i] == p.rows[i]);
            }
        }
    }
}

proof fn lemma_rows_sum_some(rows: Seq<int>, j: int, k: int)
    requires
        0 <= j <= k,
        rows_sum(rows, k) is Some,
    ensures
        rows_sum(rows, j) is Some,
    decreases k - j,
{
    if j < k {
        lemma_rows_sum_some(rows, j, k - 1);
    }
}

/// The intrinsic size of a wrapping container (see `wrapped_size`).
pub fn wrapped_intrinsic_size(
    children: &Vec<MeasuredChild>,
    direction: Direction,
    constraint: u16,
    padding: Spacing,
    border_size: u16,
    gap: u16,
) -> (r: (u16, u16))
    requires
        padding.left + padding.right <= cap(),
        padding.top + padding.bottom <= cap(),
        wrapped_size(children@, direction, constraint, padding, border_size, gap) is Some,
    ensures
        r == wrapped_size(children@, direction, constraint, padding, border_size, gap).unwrap(),
{
    let n = children.len();
    let mut rows: Vec<u16> = Vec::new();
    let mut len: u16 = 0;
    let mut cross: u16 = 0;
    let mut nonempty = false;
    let mut i: usize = 0;
    assert(rows@.map_values(|r: u16| r as int) =~= Seq::<int>::empty());
    while i < n
        invariant
            n == children@.len(),
            i <= n,
            pack_prefix(children@, n as int, direction, constraint as int, gap as int) is Some,
            pack_prefix(children@, i as int, direction, constraint as int, gap as int) == Some(
                Packing { rows: rows@.map_values(|r: u16| r as int), len: len as int, cross: cross as int, nonempty },
            ),
        decreases n - i,
    {
        proof {
            lemma_pack_prefix_some(children@, i + 1, n as int, direction, constraint as int, gap as int);
        }
        let child = children[i];
        let (m, c) = match direction {
            Direction::Horizontal => (child.width, child.height),
            Direction::Vertical => (child.height, child.width),
        };
        let ghost old_rows = rows@;
        let ghost old_cross = cross;
        if len > 0 && len + gap + m > constraint {
            rows.push(cross);
            len = m;
            cross = c;
            nonempty = true;
            assert(rows@.map_values(|r: u16| r as int) =~= old_rows.map_values(|r: u16| r as int).push(old_cross as int));
        } else {
            if nonempty {
                len = len + gap;
            }
            len = len + m;
            cross = if cross >= c { cross } else { c };
            nonempty = true;
        }
        i = i + 1;
    }
    let ghost packed_rows = rows@;
    if nonempty {
        rows.push(cross);
        assert(rows@.map_values(|r: u16| r as int) =~= packed_rows.map_values(|r: u16| r as int).push(cross as int));
    }
    let ghost all_rows: Seq<int> = rows@.map_values(|r: u16| r as int);
    let count = rows.len();
    let mut total: u16 = 0;
    let mut k: usize = 0;
    while k < count
        invariant
            count == rows@.len(),
            all_rows == rows@.map_values(|r: u16| r as int),
            k <= count,
            rows_sum(all_rows, count as int) is Some,
            rows_sum(all_rows, k as int) == Some(total as int),
        decreases count - k,
    {
        proof {
            lemma_rows_sum_some(all_rows, k + 1, count as int);
        }
        total = total + rows[k];
        k = k + 1;
    }
    let between_rows: usize = if count >= 1 { count - 1 } else { 0 };
    assert(between_rows as u16 == between_rows % 65536) by (bit_vector);
    let between: u16 = #[verifier::truncate] (between_rows as u16);
    let across: u16 = total + between * gap;
    let (w, h): (u16, u16) = match direction {
        Direction::Horizontal => (constraint, across),
        Direction::Vertical => (across, constraint),
    };
    (
        w.saturating_add(padding.left + padding.right).saturating_add(border_size),
        h.saturating_add(padding.top + padding.bottom).saturating_add(border_size),
    )
}

/// Whether the intrinsic size of a wrapping container stays within `u16`
/// (`wrapped_size` is `Some`), so that `wrapped_intrinsic_size` may be
/// called.
pub fn wrapped_size_fits(
    children: &Vec<MeasuredChild>,
    direction: Direction,
    constraint: u16,
    padding: Spacing,
    border_size: u16,
    gap: u16,
) -> (b: bool)
    ensures
        b == wrapped_size(children@, direction, constraint, padding, border_size, gap) is Some,
{
    let n = children.len();
    let mut rows: Vec<u16> = Vec::new();
    let mut len: u16 = 0;
    let mut cross: u16 = 0;
    let mut nonempty = false;
    let mut i: usize = 0;
    assert(rows@.map_values(|r: u16| r as int) =~= Seq::<int>::empty());
    while i < n
        invariant
            n == children@.len(),
            i <= n,
            pack_prefix(children@, i as int, direction, constraint as int, gap as int) == Some(
                Packing { rows: rows@.map_values(|r: u16| r as int), len: len as int, cross: cross as int, nonempty },
            ),
        decreases n - i,
    {
        let child = children[i];
        let (m, c) = match direction {
            Direction::Horizontal => (child.width, child.height),
            Direction::Vertical => (child.height, child.width),
        };
        let ghost old_rows = rows@;
        let ghost old_cross = cross;
        let next: u32 = len as u32 + gap as u32 + m as u32;
        if len > 0 && next > 65535 {
            proof {
                if pack_prefix(children@, n as int, direction, constraint as int, gap as int) is Some {
                    lemma_pack_prefix_some(children@, i + 1, n as int, direction, constraint as int, gap as int);
                }
            }
            return false;
        }
        if len > 0 && next > constraint as u32 {
            rows.push(cross);
            len = m;
            cross = c;
            nonempty = true;
            assert(rows@.map_values(|r: u16| r as int) =~= old_rows.map_values(|r: u16| r as int).push(old_cross as int));
        } else {
            let l1: u32 = if nonempty { len as u32 + gap as u32 } else { len as u32 };
            if l1 > 65535 || l1 + m as u32 > 65535 {
                proof {
                    if pack_prefix(children@, n as int, direction, constraint as int, gap as int) is Some {
                        lemma_pack_prefix_some(children@, i + 1, n as int, direction, constraint as int, gap as int);
                    }
                }
                return false;
            }
            len = (l1 + m as u32) as u16;
            cross = if cross >= c { cross } else { c };
            nonempty = true;
        }
        i = i + 1;
    }
    let ghost packed_rows = rows@;
    if nonempty {
        rows.push(cross);
        assert(rows@.map_values(|r: u16| r as int) =~= packed_rows.map_values(|r: u16| r as int).push(cross as int));
    }
    let ghost all_rows: Seq<int> = rows@.map_values(|r: u16| r as int);
    let count = rows.len();
    let between_rows: usize = if count >= 1 { count - 1 } else { 0 };
    assert(between_rows as u16 == between_rows % 65536) by (bit_vector);
    let between: u16 = #[verifier::truncate] (between_rows as u16);
    assert(between as u64 * gap as u64 <= 65535 * 65535) by (nonlinear_arith)
        requires
            between <= 65535,
            gap <= 65535,
    ;
    let spread: u64 = between as u64 * gap as u64;
    assert(wrapped_size(children@, direction, constraint, padding, border_size, gap) is Some <==> (
        rows_sum(all_rows, count as int) is Some
            && spread <= cap()
            && rows_sum(all_rows, count as int).unwrap() + spread <= cap()));
    let mut total: u32 = 0;
    let mut k: usize = 0;
    while k < count
        invariant
            count == rows@.len(),
            all_rows == rows@.map_values(|r: u16| r as int),
            k <= count,
            total <= 65535,
            rows_sum(all_rows, k as int) == Some(total as int),
            wrapped_size(children@, direction, constraint, padding, border_size, gap) is Some ==> rows_sum(all_rows, count as int) is Some,
        decreases count - k,
    {
        if total + rows[k] as u32 > 65535 {
            proof {
                if rows_sum(all_rows, count as int) is Some {
                    lemma_rows_sum_some(all_rows, k + 1, count as int);
                }
            }
            return false;
        }
        total = total + rows[k] as u32;
        k = k + 1;
    }
    spread <= 65535 && total as u64 + spread <= 65535
}

/// What an element's measuring reads from its style: its direction
/// (vertical by default), padding (none by default), border thickness (2
/// with an enabled border, else 0), gap (0 by default), and whether it wraps
/// (wrap mode `Wrap` with a fixed length along its direction).
#[derive(Debug, Clone, Copy, PartialEq, Eq, Structural)]
pub struct ContainerFrame {
    pub direction: Direction,
    pub padding: Spacing,
    pub border_size: u16,
    pub gap: u16,
    pub wraps: bool,
}

/// The frame an element's style gives it (see `ContainerFrame`).
pub open spec fn frame_of(style: Option<Style>) -> ContainerFrame {
    match style {
        None => ContainerFrame {
            direction: Direction::Vertical,
            padding: Spacing { top: 0, right: 0, bottom: 0, left: 0 },
            border_size: 0,
            gap: 0,
            wraps: false,
        },
        Some(s) => {
            let direction = match s.direction {
                Some(d) => d,
                None => Direction::Vertical,
            };
            let fixed_along = match direction {
                Direction::Horizontal => fixed_width(style) is Some,
                Direction::Vertical => fixed_height(style) is Some,
            };
            ContainerFrame {
                direction,
                padding: match s.padding {
                    Some(p) => p,
                    None => Spacing { top: 0, right: 0, bottom: 0, left: 0 },
                },
                border_size: match s.border {
                    Some(b) => if b.enabled { 2 } else { 0 },
                    None => 0,
                },
                gap: match s.gap {
                    Some(g) => g,
                    None => 0,
                },
                wraps: s.wrap == Some(WrapMode::Wrap) && fixed_along,
            }
        },
    }
}

/// The frame an element's style gives it (see `frame_of`).
pub fn container_frame(style: &Option<Style>) -> (f: ContainerFrame)
    ensures
        f == frame_of(*style),
{
    match style {
        None => ContainerFrame {
            direction: Direction::Vertical,
            padding: Spacing { top: 0, right: 0, bottom: 0, left: 0 },
            border_size: 0,
            gap: 0,
            wraps: false,
        },
        Some(s) => {
            let direction = match s.direction {
                Some(d) => d,
                None => Direction::Vertical,
            };
            let fixed_along = match direction {
                Direction::Horizontal => match s.width {
                    Some(Dimension::Fixed(_)) => true,
                    _ => false,
                },
                Direction::Vertical => match s.height {
                    Some(Dimension::Fixed(_)) => true,
                    _ => false,
                },
            };
            let wrap_mode = match s.wrap {
                Some(WrapMode::Wrap) => true,
                _ => false,
            };
            ContainerFrame {
                direction,
                padding: match s.padding {
                    Some(p) => p,
                    None => Spacing { top: 0, right: 0, bottom: 0, left: 0 },
                },
                border_size: match &s.border {
                    Some(b) => if b.enabled { 2 } else { 0 },
                    None => 0,
                },
                gap: match s.gap {
                    Some(g) => g,
                    None => 0,
                },
                wraps: wrap_mode && fixed_along,
            }
        },
    }
}

/// A child as its container measures it: its own fixed width and height
/// replace its intrinsic ones; a percentage, where the container has a
/// hint, takes the matching side of `scaled` (the percentage of the hint,
/// which the caller computes); it is in the flow unless positioned
/// absolutely or fixed.
pub open spec fn measured(intrinsic: (u16, u16), style: Option<Style>, hint: Option<(u16, u16)>, scaled: (u16, u16)) -> MeasuredChild {
    let (w0, h0) = intrinsic;
    match style {
        None => MeasuredChild { width: w0, height: h0, in_flow: true },
        Some(s) => MeasuredChild {
            width: match s.width {
                Some(Dimension::Fixed(w)) => w,
                Some(Dimension::Percentage(_)) => if hint is Some { scaled.0 } else { w0 },
                _ => w0,
            },
            height: match s.height {
                Some(Dimension::Fixed(h)) => h,
                Some(Dimension::Percentage(_)) => if hint is Some { scaled.1 } else { h0 },
                _ => h0,
            },
            in_flow: !(s.position == Some(Position::Absolute) || s.position == Some(Position::Fixed)),
        },
    }
}

/// A child as its container measures it (see `measured`).
pub fn measure_child(intrinsic: (u16, u16), style: &Option<Style>, hint: Option<(u16, u16)>, scaled: (u16, u16)) -> (c: MeasuredChild)
    ensures
        c == measured(intrinsic, *style, hint, scaled),
{
    let (w0, h0) = intrinsic;
    match style {
        None => MeasuredChild { width: w0, height: h0, in_flow: true },
        Some(s) => {
            let width = match s.width {
                Some(Dimension::Fixed(w)) => w,
                Some(Dimension::Percentage(_)) => if hint.is_some() { scaled.0 } else { w0 },
                _ => w0,
            };
            let height = match s.height {
                Some(Dimension::Fixed(h)) => h,
                Some(Dimension::Percentage(_)) => if hint.is_some() { scaled.1 } else { h0 },
                _ => h0,
            };
            let positioned = match s.position {
                Some(Position::Absolute) => true,
                Some(Position::Fixed) => true,
                _ => false,
            };
            MeasuredChild { width, height, in_flow: !positioned }
        },
    }
}

/// Whether an element's measuring stays within `u16`: with children, its
/// padding sums fit, and when it wraps, the packing of its children does.
pub open spec fn element_size_ok(style: Option<Style>, children: Seq<MeasuredChild>, hint: Option<(u16, u16)>) -> bool {
    let f = frame_of(style);
    children.len() > 0 ==> {
        &&& f.padding.left + f.padding.right <= cap()
        &&& f.padding.top + f.padding.bottom <= cap()
        &&& f.wraps ==> {
            &&& wrap_constraint_ok(style, f.direction, f.padding, f.border_size)
            &&& wrapped_size(
                children,
                f.direction,
                wrap_constraint(style, f.direction, f.padding, f.border_size, hint),
                f.padding,
                f.border_size,
                f.gap,
            ) is Some
        }
    }
}

/// Whether an element's measuring stays within `u16` (`element_size_ok`),
/// so that `element_intrinsic_size` may be called.
pub fn element_size_fits(style: &Option<Style>, children: &Vec<MeasuredChild>, hint: Option<(u16, u16)>) -> (b: bool)
    ensures
        b == element_size_ok(*style, children@, hint),
{
    if children.len() == 0 {
        return true;
    }
    let f = container_frame(style);
    let across_h: u32 = f.padding.left as u32 + f.padding.right as u32;
    let across_v: u32 = f.padding.top as u32 + f.padding.bottom as u32;
    if across_h > 65535 || across_v > 65535 {
        return false;
    }
    if !f.wraps {
        return true;
    }
    let along: u32 = match f.direction {
        Direction::Horizontal => across_h,
        Direction::Vertical => across_v,
    };
    if along + f.border_size as u32 > 65535 {
        return false;
    }
    let constraint = wrapped_constraint(style, f.direction, f.padding, f.border_size, hint);
    wrapped_size_fits(children, f.direction, constraint, f.padding, f.border_size, f.gap)
}

/// The intrinsic size of an element from its measured children: nothing
/// without children; the wrapped size when it wraps; the stacked size
/// otherwise.
pub open spec fn element_size(style: Option<Style>, children: Seq<MeasuredChild>, hint: Option<(u16, u16)>) -> (u16, u16) {
    let f = frame_of(style);
    if children.len() == 0 {
        (0, 0)
    } else if f.wraps {
        wrapped_size(
            children,
            f.direction,
            wrap_constraint(style, f.direction, f.padding, f.border_size, hint),
            f.padding,
            f.border_size,
            f.gap,
        ).unwrap()
    } else {
        stacked_size(children, f.direction, f.padding, f.border_size, f.gap)
    }
}

/// The intrinsic size of an element from its measured children (see
/// `element_size`).
pub fn element_intrinsic_size(style: &Option<Style>, children: &Vec<MeasuredChild>, hint: Option<(u16, u16)>) -> (r: (u16, u16))
    requires
        element_size_ok(*style, children@, hint),
    ensures
        r == element_size(*style, children@, hint),
{
    if children.len() == 0 {
        return (0, 0);
    }
    let f = container_frame(style);
    if f.wraps {
        let constraint = wrapped_constraint(style, f.direction, f.padding, f.border_size, hint);
        wrapped_intrinsic_size(children, f.direction, constraint, f.padding, f.border_size, f.gap)
    } else {
        standard_intrinsic_size(children, f.direction, f.padding, f.border_size, f.gap)
    }
}

/// The widest of the lines, in columns.
pub open spec fn max_columns(lines: Seq<String>) -> nat
    decreases lines.len(),
{
    if lines.len() == 0 {
        0
    } else {
        let rest = max_columns(lines.drop_last());
        let last = columns_of(lines.last()@);
        if rest >= last { rest } else { last }
    }
}

/// The widest of the lines of spans.
pub open spec fn max_spans_width(lines: Seq<Vec<TextSpan>>) -> int
    decreases lines.len(),
{
    if lines.len() == 0 {
        0
    } else {
        let rest = max_spans_width(lines.drop_last());
        let last = spans_width(lines.last()@);
        if rest >= last { rest } else { last }
    }
}

/// The size of text already laid out, as its node measures it: one line
/// of text is as wide as its columns and one row high; wrapped text as
/// wide as its widest line and as high as its lines; a line of spans as
/// wide as its spans; wrapped spans as wide as the widest line.  Widths and
/// counts are taken modulo 2^16.  An element has no text size.
pub open spec fn text_size(node_type: RenderNodeType) -> (u16, u16) {
    match node_type {
        RenderNodeType::Text(t) => ((columns_of(t@) % 65536) as u16, 1),
        RenderNodeType::TextWrapped(lines) => ((max_columns(lines@) % 65536) as u16, (lines@.len() % 65536) as u16),
        RenderNodeType::RichText(spans) => (spans_width(spans@) as u16, 1),
        RenderNodeType::RichTextWrapped(lines) => (max_spans_width(lines@) as u16, (lines@.len() % 65536) as u16),
        RenderNodeType::Element => (0, 0),
    }
}

/// Whether measuring text stays within the integer types: no string too
/// long to count, no line of spans wider than `u16::MAX`.
pub open spec fn text_size_ok(node_type: RenderNodeType) -> bool {
    match node_type {
        RenderNodeType::Text(t) => 3 * t@.len() <= usize::MAX,
        RenderNodeType::TextWrapped(lines) => forall|k: int| 0 <= k < lines@.len() ==> 3 * (#[trigger] lines@[k])@.len() <= usize::MAX,
        RenderNodeType::RichText(spans) => spans_ok(spans@),
        RenderNodeType::RichTextWrapped(lines) => forall|k: int| 0 <= k < lines@.len() ==> spans_ok((#[trigger] lines@[k])@),
        RenderNodeType::Element => true,
    }
}

/// Whether a line of spans can be measured in `u16`.
pub open spec fn spans_ok(spans: Seq<TextSpan>) -> bool {
    &&& spans_width(spans) <= 65535
    &&& forall|k: int| 0 <= k < spans.len() ==> 3 * (#[trigger] spans[k]).content@.len() <= usize::MAX
}

/// The widest of the lines, in columns (see `max_columns`).
pub(crate) fn widest_line(lines: &Vec<String>) -> (w: usize)
    requires
        forall|k: int| 0 <= k < lines@.len() ==> 3 * (#[trigger] lines@[k])@.len() <= usize::MAX,
    ensures
        w == max_columns(lines@),
{
    let n = lines.len();
    let mut best: usize = 0;
    let mut k: usize = 0;
    while k < n
        invariant
            n == lines@.len(),
            k <= n,
            forall|j: int| 0 <= j < lines@.len() ==> 3 * (#[trigger] lines@[j])@.len() <= usize::MAX,
            best == max_columns(lines@.take(k as int)),
        decreases n - k,
    {
        let w = display_width(lines[k].as_str());
        assert(lines@.take(k + 1).drop_last() =~= lines@.take(k as int));
        if w > best {
            best = w;
        }
        k = k + 1;
    }
    assert(lines@.take(n as int) =~= lines@);
    best
}

/// The size of text already laid out (see `text_size`).
pub fn text_content_size(node_type: &RenderNodeType) -> (r: (u16, u16))
    requires
        text_size_ok(*node_type),
    ensures
        r == text_size(*node_type),
{
    match node_type {
        RenderNodeType::Text(t) => ((display_width(t.as_str()) % 65536) as u16, 1),
        RenderNodeType::TextWrapped(lines) => ((widest_line(lines) % 65536) as u16, (lines.len() % 65536) as u16),
        RenderNodeType::RichText(spans) => (spans_total(spans), 1),
        RenderNodeType::RichTextWrapped(lines) => {
            let n = lines.len();
            let mut best: u16 = 0;
            let mut k: usize = 0;
            while k < n
                invariant
                    n == lines@.len(),
                    k <= n,
                    forall|j: int| 0 <= j < lines@.len() ==> spans_ok((#[trigger] lines@[j])@),
                    best == max_spans_width(lines@.take(k as int)),
                decreases n - k,
            {
                assert(spans_ok(lines@[k as int]@));
                let w = spans_total(&lines[k]);
                assert(lines@.take(k + 1).drop_last() =~= lines@.take(k as int));
                if w > best {
                    best = w;
                }
                k = k + 1;
            }
            assert(lines@.take(n as int) =~= lines@);
            (best, (n % 65536) as u16)
        },
        RenderNodeType::Element => (0, 0),
    }
}

/// The width a one-line text node is wrapped at when measured: when its
/// text style asks for wrapping, its fixed width, else the hint's width;
/// `None` when it is not wrapped.
pub open spec fn measure_wrap_width(node: RenderNode, hint: Option<(u16, u16)>) -> Option<u16> {
    let wraps = match node.text_style {
        Some(t) => match t.wrap {
            Some(m) => m != TextWrap::NoWrap,
            None => false,
        },
        None => false,
    };
    if wraps {
        match fixed_width(node.style) {
            Some(w) => Some(w),
            None => match hint {
                Some((w, _)) => Some(w),
                None => None,
            },
        }
    } else {
        None
    }
}

/// The width a text node is wrapped at when measured (see
/// `measure_wrap_width`).
pub fn text_measure_wrap_width(node: &RenderNode, hint: Option<(u16, u16)>) -> (r: Option<u16>)
    ensures
        r == measure_wrap_width(*node, hint),
{
    let wraps = match &node.text_style {
        Some(t) => match t.wrap {
            Some(TextWrap::NoWrap) => false,
            Some(_) => true,
            None => false,
        },
        None => false,
    };
    if wraps {
        let fixed: Option<u16> = match &node.style {
            Some(s) => match s.width {
                Some(Dimension::Fixed(w)) => Some(w),
                _ => None,
            },
            None => None,
        };
        match fixed {
            Some(w) => Some(w),
            None => match hint {
                Some((w, _)) => Some(w),
                None => None,
            },
        }
    } else {
        None
    }
}

/// The size of text wrapped at `width` into `lines`: its widest line (at
/// most `width`) by the number of lines (both modulo 2^16).
pub fn wrapped_text_size(lines: &Vec<String>, width: u16) -> (r: (u16, u16))
    requires
        forall|k: int| 0 <= k < lines@.len() ==> 3 * (#[trigger] lines@[k])@.len() <= usize::MAX,
    ensures
        r == ({
            let w = (max_columns(lines@) % 65536) as u16;
            (if w <= width { w } else { width }, (lines@.len() % 65536) as u16)
        }),
{
    let w = (widest_line(lines) % 65536) as u16;
    (if w <= width { w } else { width }, (lines.len() % 65536) as u16)
}

/// The widest of lines of characters, in columns.
pub open spec fn widest_of(lines: Seq<Seq<char>>) -> nat
    decreases lines.len(),
{
    if lines.len() == 0 {
        0
    } else {
        let rest = widest_of(lines.drop_last());
        let last = columns_of(lines.last());
        if rest >= last { rest } else { last }
    }
}

proof fn lemma_widest_of_views(lines: Seq<String>)
    ensures
        widest_of(string_views(lines)) == max_columns(lines),
    decreases lines.len(),
{
    if lines.len() > 0 {
        lemma_widest_of_views(lines.drop_last());
        assert(string_views(lines).drop_last() =~= string_views(lines.drop_last()));
        assert(string_views(lines).last() == lines.last()@);
    }
}

/// How a node's text style asks its text to wrap, `NoWrap` when unset.
pub open spec fn text_wrap_mode(node: RenderNode) -> TextWrap {
    match node.text_style {
        Some(t) => match t.wrap {
            Some(m) => m,
            None => TextWrap::NoWrap,
        },
        None => TextWrap::NoWrap,
    }
}

/// The size a text node measures: wrapped at its measuring width (see
/// `measure_wrap_width`), its widest line (at most that width) by its
/// number of lines; unwrapped, its width by one row (widths and counts
/// modulo 2^16).
pub open spec fn text_intrinsic(node: RenderNode, hint: Option<(u16, u16)>) -> (u16, u16) {
    match measure_wrap_width(node, hint) {
        Some(w) => {
            let ls = wrap_lines(node.node_type->Text_0@, w as nat, text_wrap_mode(node));
            let widest = (widest_of(ls) % 65536) as u16;
            (if widest <= w { widest } else { w }, (ls.len() % 65536) as u16)
        },
        None => text_size(node.node_type),
    }
}

/// The size a text node measures, wrapping its text when it asks to be
/// wrapped and a width is known (see `text_intrinsic`).
pub fn text_intrinsic_size(node: &RenderNode, hint: Option<(u16, u16)>) -> (r: (u16, u16))
    requires
        node.node_type is Text,
        3 * (node.node_type->Text_0@.len() + 2) <= usize::MAX,
    ensures
        r == text_intrinsic(*node, hint),
{
    let mode = match &node.text_style {
        Some(t) => match t.wrap {
            Some(m) => m,
            None => TextWrap::NoWrap,
        },
        None => TextWrap::NoWrap,
    };
    match &node.node_type {
        RenderNodeType::Text(text) => match text_measure_wrap_width(node, hint) {
            Some(w) => {
                let lines = wrap_text(text.as_str(), w, mode);
                proof {
                    lemma_widest_of_views(lines@);
                }
                wrapped_text_size(&lines, w)
            },
            None => text_content_size(&node.node_type),
        },
        _ => (0, 0),
    }
}

} // verus!
