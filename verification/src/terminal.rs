//! Turning cell updates into a short list of terminal commands, and the
//! renderer's bookkeeping of what the terminal currently has set.
use vstd::prelude::*;
use vstd::seq_lib::*;
use crate::buffer::{Cell, CellStyle, CellUpdate, ScreenBuffer, plain_style};
use crate::style::Color;
use crate::unicode::push_char;

verus! {

broadcast use vstd::seq_lib::group_seq_properties;

/// Screen position of an update as one number ordered top-to-bottom, then
/// left-to-right.
pub open spec fn update_key(u: CellUpdate) -> int {
    match u {
        CellUpdate::Single { x, y, .. } => y as int * 65536 + x as int,
    }
}

/// The predicate "the update is at position key `k`".
pub open spec fn at_key(k: int) -> spec_fn(CellUpdate) -> bool {
    |u: CellUpdate| update_key(u) == k
}

/// Updates in top-to-bottom, left-to-right order.
pub open spec fn sorted_by_position(s: Seq<CellUpdate>) -> bool {
    forall|i: int, j: int| 0 <= i < j < s.len() ==> update_key(s[i]) <= update_key(s[j])
}

/// `a` and `b` hold the same updates for every position, in the same
/// relative order.
pub open spec fn same_per_position(a: Seq<CellUpdate>, b: Seq<CellUpdate>) -> bool {
    forall|k: int| #[trigger] a.filter(at_key(k)) == b.filter(at_key(k))
}

fn key_of(u: &CellUpdate) -> (k: u32)
    ensures
        k as int == update_key(*u),
{
    match u {
        CellUpdate::Single { x, y, .. } => (*y as u32) * 65536 + (*x as u32),
    }
}

proof fn lemma_insert_keeps_positions(out: Seq<CellUpdate>, p: int, e: CellUpdate, k: int)
    requires
        0 <= p <= out.len(),
        forall|i: int| p <= i < out.len() ==> update_key(out[i]) > update_key(e),
    ensures
        out.insert(p, e).filter(at_key(k)) == if update_key(e) == k {
            out.filter(at_key(k)).push(e)
        } else {
            out.filter(at_key(k))
        },
{
    let pre = out.subrange(0, p);
    let post = out.subrange(p, out.len() as int);
    assert(out =~= pre + post);
    assert(out.insert(p, e) =~= pre.push(e) + post);
    Seq::filter_distributes_over_add(pre, post, at_key(k));
    Seq::filter_distributes_over_add(pre.push(e), post, at_key(k));
    pre.lemma_filter_push(e, at_key(k));
    if update_key(e) == k {
        assert forall|i: int| 0 <= i < post.len() implies !at_key(k)(post[i]) by {
            assert(post[i] == out[p + i]);
        }
        post.lemma_all_neg_filter_empty(at_key(k));
        assert(pre.filter(at_key(k)) + post.filter(at_key(k)) =~= pre.filter(at_key(k)));
        assert(pre.filter(at_key(k)).push(e) + post.filter(at_key(k)) =~= pre.filter(at_key(k)).push(e));
    }
}

/// The updates sorted by position, top-to-bottom then left-to-right;
/// updates at the same position keep their relative order.
pub fn sort_updates(updates: Vec<CellUpdate>) -> (out: Vec<CellUpdate>)
    ensures
        out@.len() == updates@.len(),
        sorted_by_position(out@),
        same_per_position(out@, updates@),
{
    let mut out: Vec<CellUpdate> = Vec::new();
    let n = updates.len();
    let mut i: usize = 0;
    while i < n
        invariant
            n == updates@.len(),
            i <= n,
            out@.len() == i,
            sorted_by_position(out@),
            same_per_position(out@, updates@.take(i as int)),
        decreases n - i,
    {
        let e = updates[i];
        let ke = key_of(&e);
        let mut p: usize = out.len();
        while p > 0 && key_of(&out[p - 1]) > ke
            invariant
                p <= out@.len(),
                forall|j: int| p <= j < out@.len() ==> update_key(out@[j]) > ke,
            decreases p,
        {
            p = p - 1;
        }
        let ghost old_out = out@;
        proof {
            assert forall|j: int| 0 <= j < p implies update_key(old_out[j]) <= ke by {
                if p > 0 {
                    assert(update_key(old_out[p - 1]) <= ke);
                }
            }
        }
        out.insert(p, e);
        proof {
            assert(updates@.take(i + 1) =~= updates@.take(i as int).push(e));
            assert forall|k: int| #[trigger] out@.filter(at_key(k)) == updates@.take(i + 1).filter(at_key(k)) by {
                lemma_insert_keeps_positions(old_out, p as int, e, k);
                updates@.take(i as int).lemma_filter_push(e, at_key(k));
                assert(old_out.filter(at_key(k)) == updates@.take(i as int).filter(at_key(k)));
            }
            assert forall|a: int, b: int| 0 <= a < b < out@.len() implies update_key(out@[a]) <= update_key(out@[b]) by {
                if a < p && b == p {
                } else if a == p {
                } else {
                }
            }
        }
        i = i + 1;
    }
    assert(updates@.take(n as int) =~= updates@);
    out
}

/// A terminal command produced by batching.
#[derive(Debug, Clone)]
pub enum TerminalCommand {
    /// Move the cursor
    MoveTo(u16, u16),
    /// Set foreground and background colors
    SetColors { fg: Option<Color>, bg: Option<Color> },
    /// Print text at the cursor
    Print(String),
    /// Set style attributes
    SetStyle(CellStyle),
    /// Reset all styling
    Reset,
}

/// Abstract form of a terminal command.
pub ghost enum CommandView {
    MoveTo(u16, u16),
    SetColors(Option<Color>, Option<Color>),
    Print(Seq<char>),
    SetStyle(CellStyle),
    Reset,
}

impl View for TerminalCommand {
    type V = CommandView;

    open spec fn view(&self) -> CommandView {
        match self {
            TerminalCommand::MoveTo(x, y) => CommandView::MoveTo(*x, *y),
            TerminalCommand::SetColors { fg, bg } => CommandView::SetColors(*fg, *bg),
            TerminalCommand::Print(s) => CommandView::Print(s@),
            TerminalCommand::SetStyle(st) => CommandView::SetStyle(*st),
            TerminalCommand::Reset => CommandView::Reset,
        }
    }
}

/// A run of cells printed left to right from `(x, y)` with one style.
pub struct Run {
    pub x: u16,
    pub y: u16,
    pub cells: Vec<Cell>,
    pub fg: Option<Color>,
    pub bg: Option<Color>,
    pub style: CellStyle,
}

/// Abstract form of a run.
pub ghost struct RunView {
    pub x: u16,
    pub y: u16,
    pub cells: Seq<Cell>,
    pub fg: Option<Color>,
    pub bg: Option<Color>,
    pub style: CellStyle,
}

impl View for Run {
    type V = RunView;

    open spec fn view(&self) -> RunView {
        RunView { x: self.x, y: self.y, cells: self.cells@, fg: self.fg, bg: self.bg, style: self.style }
    }
}

/// The single-cell updates a run stands for.
pub open spec fn run_updates(r: RunView) -> Seq<CellUpdate> {
    Seq::new(r.cells.len(), |i: int| CellUpdate::Single { x: (r.x + i) as u16, y: r.y, cell: r.cells[i] })
}

/// A run holds at least one cell, all of them in its colors and style, and
/// it ends inside the row.
pub open spec fn run_uniform(r: RunView) -> bool {
    &&& r.cells.len() > 0
    &&& r.x + r.cells.len() <= u16::MAX + 1
    &&& forall|i: int| 0 <= i < r.cells.len() ==> {
        &&& (#[trigger] r.cells[i]).fg == r.fg
        &&& r.cells[i].bg == r.bg
        &&& r.cells[i].style == r.style
    }
}

/// Whether update `u` continues run `r`: same row, the next column, same
/// colors and style.
pub open spec fn joins(r: RunView, u: CellUpdate) -> bool {
    match u {
        CellUpdate::Single { x, y, cell } => y == r.y && x == r.x + r.cells.len() && cell.fg == r.fg
            && cell.bg == r.bg && cell.style == r.style,
    }
}

/// The first update of a run.
pub open spec fn first_update(r: RunView) -> CellUpdate {
    CellUpdate::Single { x: r.x, y: r.y, cell: r.cells[0] }
}

/// `runs` split `us` into maximal runs: read in order they give back `us`,
/// each is uniform, and no run could have taken the first update of the next.
pub open spec fn runs_partition(runs: Seq<RunView>, us: Seq<CellUpdate>) -> bool {
    &&& runs.map_values(|r: RunView| run_updates(r)).flatten() == us
    &&& forall|i: int| 0 <= i < runs.len() ==> run_uniform(#[trigger] runs[i])
    &&& forall|i: int| 0 <= i < runs.len() - 1 ==> !joins(#[trigger] runs[i], first_update(runs[i + 1]))
}

/// The column of an update.
pub open spec fn update_x(u: CellUpdate) -> u16 {
    match u {
        CellUpdate::Single { x, .. } => x,
    }
}

/// The row of an update.
pub open spec fn update_y(u: CellUpdate) -> u16 {
    match u {
        CellUpdate::Single { y, .. } => y,
    }
}

/// No update in the last column is followed by one in the same row (the
/// next column's number would not fit in a `u16`).
pub open spec fn no_row_overflow(us: Seq<CellUpdate>) -> bool {
    forall|i: int| 0 <= i < us.len() - 1 ==> (update_x(#[trigger] us[i]) == u16::MAX ==> update_y(us[i + 1]) != update_y(us[i]))
}

proof fn lemma_flatten_map_push(runs: Seq<RunView>, r: RunView)
    ensures
        runs.push(r).map_values(|v: RunView| run_updates(v)).flatten() == runs.map_values(
            |v: RunView| run_updates(v),
        ).flatten() + run_updates(r),
{
    let f = |v: RunView| run_updates(v);
    assert(runs.push(r).map_values(f) =~= runs.map_values(f).push(run_updates(r)));
    runs.map_values(f).lemma_flatten_push(run_updates(r));
}

impl Run {
    /// The commands that draw this run.
    pub fn into_commands(self) -> (cmds: Vec<TerminalCommand>)
        ensures
            cmds@.map_values(|c: TerminalCommand| c@) == run_commands(self@),
    {
        let has_styles = self.style != CellStyle::default();
        let mut text = String::new();
        let n = self.cells.len();
        let mut i: usize = 0;
        while i < n
            invariant
                n == self.cells@.len(),
                i <= n,
                text@ == self.cells@.take(i as int).map_values(|c: Cell| c.char),
            decreases n - i,
        {
            push_char(&mut text, self.cells[i].char);
            assert(self.cells@.take(i + 1).map_values(|c: Cell| c.char) =~= self.cells@.take(i as int).map_values(|c: Cell| c.char).push(self.cells@[i as int].char));
            i = i + 1;
        }
        assert(self.cells@.take(n as int) =~= self.cells@);
        let mut cmds: Vec<TerminalCommand> = Vec::new();
        cmds.push(TerminalCommand::MoveTo(self.x, self.y));
        cmds.push(TerminalCommand::SetColors { fg: self.fg, bg: self.bg });
        cmds.push(TerminalCommand::SetStyle(self.style));
        cmds.push(TerminalCommand::Print(text));
        if has_styles {
            cmds.push(TerminalCommand::Reset);
        }
        assert(cmds@.map_values(|c: TerminalCommand| c@) =~= run_commands(self@));
        cmds
    }

    /// A run holding one cell at `(x, y)`, in that cell's colors and style.
    pub fn new(x: u16, y: u16, cell: Cell) -> (r: Run)
        ensures
            r@ == (RunView { x, y, cells: seq![cell], fg: cell.fg, bg: cell.bg, style: cell.style }),
    {
        let mut cells: Vec<Cell> = Vec::new();
        cells.push(cell);
        Run { x, y, cells, fg: cell.fg, bg: cell.bg, style: cell.style }
    }

    /// Whether `cell` at `(x, y)` continues this run: same row, the next
    /// column, same colors and style.
    pub fn can_append(&self, x: u16, y: u16, cell: &Cell) -> (b: bool)
        requires
            y == self.y ==> self.x + self.cells@.len() <= u16::MAX,
        ensures
            b == joins(self@, CellUpdate::Single { x, y, cell: *cell }),
    {
        if y != self.y || x as usize != self.x as usize + self.cells.len() {
            return false;
        }
        cell.fg == self.fg && cell.bg == self.bg && cell.style == self.style
    }
}

/// The commands that draw a run: move to its start, set its colors and
/// style, print its characters, and reset when it used any attribute.
pub open spec fn run_commands(r: RunView) -> Seq<CommandView> {
    seq![
        CommandView::MoveTo(r.x, r.y),
        CommandView::SetColors(r.fg, r.bg),
        CommandView::SetStyle(r.style),
        CommandView::Print(r.cells.map_values(|c: Cell| c.char)),
    ] + if r.style != plain_style() {
        seq![CommandView::Reset]
    } else {
        Seq::empty()
    }
}

/// The commands for a sequence of runs, one run after the other.
pub open spec fn commands_for_runs(runs: Seq<RunView>) -> Seq<CommandView> {
    runs.map_values(|r: RunView| run_commands(r)).flatten()
}

/// Whether each update in the last column has no other update at its
/// position (two such updates would make the batcher step past the last
/// column of their row).
pub open spec fn last_column_unique(us: Seq<CellUpdate>) -> bool {
    forall|k: int| k % 65536 == 65535 ==> (#[trigger] us.filter(at_key(k))).len() <= 1
}


/// Updates `i` and `j` (`i` first) share a position in the last column.
pub open spec fn last_column_pair(us: Seq<CellUpdate>, i: int, j: int) -> bool {
    &&& 0 <= i < j < us.len()
    &&& update_x(us[i]) == u16::MAX
    &&& update_key(us[i]) == update_key(us[j])
}

proof fn lemma_filter_counts(s: Seq<CellUpdate>, p: spec_fn(CellUpdate) -> bool)
    ensures
        s.filter(p).len() >= 1 <==> exists|i: int| 0 <= i < s.len() && p(#[trigger] s[i]),
        s.filter(p).len() >= 2 <==> exists|i: int, j: int| 0 <= i < j < s.len() && p(#[trigger] s[i]) && p(#[trigger] s[j]),
    decreases s.len(),
{
    if s.len() == 0 {
        assert(s.filter(p) =~= Seq::<CellUpdate>::empty()) by {
            reveal(Seq::filter);
        }
    } else {
        let t = s.drop_last();
        let last = s.last();
        lemma_filter_counts(t, p);
        assert(t.push(last) =~= s);
        t.lemma_filter_push(last, p);
        if exists|i: int| 0 <= i < s.len() && p(#[trigger] s[i]) {
            let i = choose|i: int| 0 <= i < s.len() && p(#[trigger] s[i]);
            if i < t.len() {
                assert(t[i] == s[i]);
            }
        }
        if exists|i: int, j: int| 0 <= i < j < s.len() && p(#[trigger] s[i]) && p(#[trigger] s[j]) {
            let (i, j) = choose|i: int, j: int| 0 <= i < j < s.len() && p(#[trigger] s[i]) && p(#[trigger] s[j]);
            assert(t[i] == s[i]);
            if j < t.len() {
                assert(t[j] == s[j]);
            }
        }
        if t.filter(p).len() >= 1 {
            let i = choose|i: int| 0 <= i < t.len() && p(#[trigger] t[i]);
            assert(s[i] == t[i]);
        }
        if t.filter(p).len() >= 2 {
            let (i, j) = choose|i: int, j: int| 0 <= i < j < t.len() && p(#[trigger] t[i]) && p(#[trigger] t[j]);
            assert(s[i] == t[i] && s[j] == t[j]);
        }
    }
}

/// Each update in the last column has no other update at its position
/// exactly when no two updates share a position there.
pub proof fn lemma_last_column_unique_pairs(us: Seq<CellUpdate>)
    ensures
        last_column_unique(us) <==> !exists|i: int, j: int| last_column_pair(us, i, j),
{
    if exists|i: int, j: int| last_column_pair(us, i, j) {
        let (i, j) = choose|i: int, j: int| last_column_pair(us, i, j);
        let k = update_key(us[i]);
        let y = update_y(us[i]) as int;
        assert(k == y * 65536 + 65535);
        assert((y * 65536 + 65535) % 65536 == 65535) by (nonlinear_arith)
            requires
                0 <= y,
        ;
        lemma_filter_counts(us, at_key(k));
        assert(at_key(k)(us[i]) && at_key(k)(us[j]));
    }
    if !last_column_unique(us) {
        let k = choose|k: int| k % 65536 == 65535 && !((#[trigger] us.filter(at_key(k))).len() <= 1);
        lemma_filter_counts(us, at_key(k));
        let (i, j) = choose|i: int, j: int| 0 <= i < j < us.len() && at_key(k)(#[trigger] us[i]) && at_key(k)(#[trigger] us[j]);
        let x = update_x(us[i]) as int;
        let y = update_y(us[i]) as int;
        assert(update_key(us[i]) == y * 65536 + x);
        assert((y * 65536 + x) % 65536 == x) by (nonlinear_arith)
            requires
                0 <= y,
                0 <= x < 65536,
        ;
        assert(last_column_pair(us, i, j));
    }
}

/// Whether each update in the last column has no other update at its
/// position (see `last_column_unique`).
pub fn last_column_unique_check(us: &Vec<CellUpdate>) -> (b: bool)
    ensures
        b == last_column_unique(us@),
{
    let n = us.len();
    let mut i: usize = 0;
    while i < n
        invariant
            n == us@.len(),
            i <= n,
            forall|a: int, c: int| 0 <= a < i && #[trigger] last_column_pair(us@, a, c) ==> false,
        decreases n - i,
    {
        let CellUpdate::Single { x, y, .. } = us[i];
        if x == 65535 {
            let mut j: usize = i + 1;
            while j < n
                invariant
                    n == us@.len(),
                    i < n,
                    i < j <= n,
                    update_x(us@[i as int]) == u16::MAX,
                    x == update_x(us@[i as int]),
                    y == update_y(us@[i as int]),
                    forall|c: int| i < c < j ==> !#[trigger] last_column_pair(us@, i as int, c),
                decreases n - j,
            {
                let CellUpdate::Single { x: ox, y: oy, .. } = us[j];
                if ox == x && oy == y {
                    assert(last_column_pair(us@, i as int, j as int));
                    proof {
                        lemma_last_column_unique_pairs(us@);
                    }
                    return false;
                }
                assert(update_key(us@[j as int]) != update_key(us@[i as int])) by (nonlinear_arith)
                    requires
                        update_key(us@[j as int]) == oy * 65536 + ox,
                        update_key(us@[i as int]) == y * 65536 + x,
                        ox != x || oy != y,
                        ox < 65536,
                        x < 65536,
                        0 <= oy,
                        0 <= y,
                ;
                j = j + 1;
            }
        }
        i = i + 1;
    }
    proof {
        lemma_last_column_unique_pairs(us@);
    }
    true
}

proof fn lemma_filter_first(s: Seq<CellUpdate>, p: spec_fn(CellUpdate) -> bool)
    requires
        s.len() > 0,
    ensures
        s.filter(p) == (if p(s[0]) { seq![s[0]] + s.drop_first().filter(p) } else { s.drop_first().filter(p) }),
{
    assert(s =~= seq![s[0]] + s.drop_first());
    Seq::filter_distributes_over_add(seq![s[0]], s.drop_first(), p);
    let e = Seq::<CellUpdate>::empty();
    assert(seq![s[0]] =~= e.push(s[0]));
    e.lemma_filter_push(s[0], p);
    e.filter_lemma(p);
    assert(e.filter(p) =~= e);
    if p(s[0]) {
        assert(e.filter(p).push(s[0]) =~= seq![s[0]]);
    }
    assert(e.filter(p) + s.drop_first().filter(p) =~= s.drop_first().filter(p));
}

proof fn lemma_nonempty_filter_at(s: Seq<CellUpdate>, i: int)
    requires
        0 <= i < s.len(),
    ensures
        s.filter(at_key(update_key(s[i]))).len() > 0,
{
    s.filter_lemma(at_key(update_key(s[i])));
    assert(s.filter(at_key(update_key(s[i]))).contains(s[i]));
}

proof fn lemma_empty_filter_below(s: Seq<CellUpdate>, k: int)
    requires
        sorted_by_position(s),
        s.len() > 0,
        k < update_key(s[0]),
    ensures
        s.filter(at_key(k)).len() == 0,
{
    assert forall|i: int| 0 <= i < s.len() implies !at_key(k)(s[i]) by {
        if i > 0 {
            assert(update_key(s[0]) <= update_key(s[i]));
        }
    }
    s.lemma_all_neg_filter_empty(at_key(k));
}

/// Two orderings of updates that are both sorted by position and agree at
/// every position are the same: sorting by position is determined by the
/// updates at each position and their order.
pub proof fn lemma_sorted_by_position_unique(a: Seq<CellUpdate>, b: Seq<CellUpdate>)
    requires
        sorted_by_position(a),
        sorted_by_position(b),
        same_per_position(a, b),
    ensures
        a == b,
    decreases a.len() + b.len(),
{
    if a.len() == 0 || b.len() == 0 {
        if b.len() > 0 {
            lemma_nonempty_filter_at(b, 0);
            a.filter_lemma(at_key(update_key(b[0])));
            assert(a.filter(at_key(update_key(b[0]))) == b.filter(at_key(update_key(b[0]))));
        }
        if a.len() > 0 {
            lemma_nonempty_filter_at(a, 0);
            b.filter_lemma(at_key(update_key(a[0])));
            assert(a.filter(at_key(update_key(a[0]))) == b.filter(at_key(update_key(a[0]))));
        }
        assert(a =~= b);
    } else {
        let ka = update_key(a[0]);
        let kb = update_key(b[0]);
        if kb < ka {
            lemma_nonempty_filter_at(b, 0);
            lemma_empty_filter_below(a, kb);
            assert(a.filter(at_key(kb)) == b.filter(at_key(kb)));
        }
        if ka < kb {
            lemma_nonempty_filter_at(a, 0);
            lemma_empty_filter_below(b, ka);
            assert(a.filter(at_key(ka)) == b.filter(at_key(ka)));
        }
        assert(ka == kb);
        lemma_filter_first(a, at_key(ka));
        lemma_filter_first(b, at_key(ka));
        assert(a.filter(at_key(ka)) == b.filter(at_key(ka)));
        assert(a.filter(at_key(ka))[0] == a[0]);
        assert(b.filter(at_key(ka))[0] == b[0]);
        let a2 = a.drop_first();
        let b2 = b.drop_first();
        assert forall|k: int| #[trigger] a2.filter(at_key(k)) == b2.filter(at_key(k)) by {
            lemma_filter_first(a, at_key(k));
            lemma_filter_first(b, at_key(k));
            assert(a.filter(at_key(k)) == b.filter(at_key(k)));
            if at_key(k)(a[0]) {
                assert(a2.filter(at_key(k)) =~= a.filter(at_key(k)).drop_first());
                assert(b2.filter(at_key(k)) =~= b.filter(at_key(k)).drop_first());
            }
        }
        assert forall|i: int, j: int| 0 <= i < j < a2.len() implies update_key(a2[i]) <= update_key(a2[j]) by {
            assert(a2[i] == a[i + 1] && a2[j] == a[j + 1]);
        }
        assert forall|i: int, j: int| 0 <= i < j < b2.len() implies update_key(b2[i]) <= update_key(b2[j]) by {
            assert(b2[i] == b[i + 1] && b2[j] == b[j + 1]);
        }
        lemma_sorted_by_position_unique(a2, b2);
        assert(a =~= seq![a[0]] + a2);
        assert(b =~= seq![b[0]] + b2);
    }
}


/// The updates the runs stand for, in order.
pub open spec fn runs_updates(runs: Seq<RunView>) -> Seq<CellUpdate> {
    runs.map_values(|r: RunView| run_updates(r)).flatten()
}

proof fn lemma_runs_updates_first(runs: Seq<RunView>)
    requires
        runs.len() > 0,
    ensures
        runs_updates(runs) == run_updates(runs[0]) + runs_updates(runs.drop_first()),
{
    let f = |r: RunView| run_updates(r);
    assert(runs.map_values(f).drop_first() =~= runs.drop_first().map_values(f));
}

proof fn lemma_partition_rest(runs: Seq<RunView>, us: Seq<CellUpdate>)
    requires
        runs.len() > 0,
        runs_partition(runs, us),
    ensures
        runs_partition(runs.drop_first(), us.skip(run_updates(runs[0]).len() as int)),
        us == run_updates(runs[0]) + us.skip(run_updates(runs[0]).len() as int),
{
    lemma_runs_updates_first(runs);
    let rest = runs.drop_first();
    assert(us.skip(run_updates(runs[0]).len() as int) =~= runs_updates(rest));
    assert forall|i: int| 0 <= i < rest.len() implies run_uniform(#[trigger] rest[i]) by {
        assert(rest[i] == runs[i + 1]);
    }
    assert forall|i: int| 0 <= i < rest.len() - 1 implies !joins(#[trigger] rest[i], first_update(rest[i + 1])) by {
        assert(rest[i] == runs[i + 1] && rest[i + 1] == runs[i + 2]);
    }
}

/// A sequence of updates splits into maximal runs in only one way.
pub proof fn lemma_runs_partition_unique(r1: Seq<RunView>, r2: Seq<RunView>, us: Seq<CellUpdate>)
    requires
        runs_partition(r1, us),
        runs_partition(r2, us),
    ensures
        r1 == r2,
    decreases us.len(),
{
    if r1.len() == 0 || r2.len() == 0 {
        if r1.len() > 0 {
            lemma_runs_updates_first(r1);
            assert(run_uniform(r1[0]));
        }
        if r2.len() > 0 {
            lemma_runs_updates_first(r2);
            assert(run_uniform(r2[0]));
        }
        assert(r1 =~= r2);
    } else {
        let x1 = r1[0];
        let x2 = r2[0];
        assert(run_uniform(x1) && run_uniform(x2));
        let u1 = run_updates(x1);
        let u2 = run_updates(x2);
        let l1 = u1.len() as int;
        let l2 = u2.len() as int;
        lemma_partition_rest(r1, us);
        lemma_partition_rest(r2, us);
        assert(us[0] == u1[0] && us[0] == u2[0]);
        assert(x1.x == x2.x && x1.y == x2.y && x1.cells[0] == x2.cells[0]);
        assert(x1.fg == x2.fg && x1.bg == x2.bg && x1.style == x2.style);
        if l1 < l2 {
            lemma_runs_updates_first(r1.drop_first());
            assert(us.skip(l1).len() > 0);
            assert(r1.len() > 1);
            assert(first_update(r1[1]) == us[l1]);
            assert(us[l1] == u2[l1]);
            assert(run_uniform(x2));
            assert(x2.cells[l1].fg == x2.fg && x2.cells[l1].bg == x2.bg && x2.cells[l1].style == x2.style);
            assert(joins(x1, first_update(r1[1])));
        }
        if l2 < l1 {
            lemma_runs_updates_first(r2.drop_first());
            assert(us.skip(l2).len() > 0);
            assert(r2.len() > 1);
            assert(first_update(r2[1]) == us[l2]);
            assert(us[l2] == u1[l2]);
            assert(x1.cells[l2].fg == x1.fg && x1.cells[l2].bg == x1.bg && x1.cells[l2].style == x1.style);
            assert(joins(x2, first_update(r2[1])));
        }
        assert(l1 == l2);
        assert forall|i: int| 0 <= i < l1 implies x1.cells[i] == x2.cells[i] by {
            assert(us[i] == u1[i] && us[i] == u2[i]);
        }
        assert(x1.cells =~= x2.cells);
        assert(x1 == x2);
        lemma_runs_partition_unique(r1.drop_first(), r2.drop_first(), us.skip(l1));
        assert(r1 =~= seq![x1] + r1.drop_first());
        assert(r2 =~= seq![x2] + r2.drop_first());
    }
}

/// Batching depends only on the updates at each position and their order
/// there, not on the order positions arrive in: two update lists that
/// agree at every position are sorted and split into the same runs, and so
/// give the same commands.
pub proof fn lemma_batching_ignores_arrival_order(
    a: Seq<CellUpdate>,
    b: Seq<CellUpdate>,
    sa: Seq<CellUpdate>,
    runs_a: Seq<RunView>,
    sb: Seq<CellUpdate>,
    runs_b: Seq<RunView>,
)
    requires
        same_per_position(a, b),
        sorted_by_position(sa),
        same_per_position(sa, a),
        runs_partition(runs_a, sa),
        sorted_by_position(sb),
        same_per_position(sb, b),
        runs_partition(runs_b, sb),
    ensures
        sa == sb,
        runs_a == runs_b,
        commands_for_runs(runs_a) == commands_for_runs(runs_b),
{
    assert forall|k: int| #[trigger] sa.filter(at_key(k)) == sb.filter(at_key(k)) by {
        assert(sa.filter(at_key(k)) == a.filter(at_key(k)));
        assert(a.filter(at_key(k)) == b.filter(at_key(k)));
        assert(sb.filter(at_key(k)) == b.filter(at_key(k)));
    }
    lemma_sorted_by_position_unique(sa, sb);
    lemma_runs_partition_unique(runs_a, runs_b, sa);
}

proof fn lemma_filter_two(s: Seq<CellUpdate>, p: spec_fn(CellUpdate) -> bool, i: int)
    requires
        0 <= i < s.len() - 1,
        p(s[i]),
        p(s[i + 1]),
    ensures
        s.filter(p).len() >= 2,
{
    let a = s.take(i);
    let two = Seq::<CellUpdate>::empty().push(s[i]).push(s[i + 1]);
    let b = s.skip(i + 2);
    assert(s =~= a + two + b);
    Seq::filter_distributes_over_add(a + two, b, p);
    Seq::filter_distributes_over_add(a, two, p);
    Seq::<CellUpdate>::empty().lemma_filter_push(s[i], p);
    Seq::<CellUpdate>::empty().push(s[i]).lemma_filter_push(s[i + 1], p);
    reveal(Seq::filter);
    assert(Seq::<CellUpdate>::empty().filter(p) =~= Seq::<CellUpdate>::empty());
}

proof fn lemma_sorted_no_row_overflow(s: Seq<CellUpdate>, us: Seq<CellUpdate>)
    requires
        sorted_by_position(s),
        same_per_position(s, us),
        last_column_unique(us),
    ensures
        no_row_overflow(s),
{
    assert forall|i: int| 0 <= i < s.len() - 1 && update_x(#[trigger] s[i]) == u16::MAX implies update_y(s[i + 1]) != update_y(s[i]) by {
        if update_y(s[i + 1]) == update_y(s[i]) {
            let k = update_key(s[i]);
            assert(update_key(s[i]) <= update_key(s[i + 1]));
            assert(update_key(s[i + 1]) == k);
            assert(k % 65536 == 65535);
            lemma_filter_two(s, at_key(k), i);
            assert(s.filter(at_key(k)) == us.filter(at_key(k)));
        }
    }
}

fn append_run_commands(cmds: &mut Vec<TerminalCommand>, run: Run)
    ensures
        final(cmds)@.map_values(|c: TerminalCommand| c@) == old(cmds)@.map_values(|c: TerminalCommand| c@)
            + run_commands(run@),
{
    let ghost before = cmds@.map_values(|c: TerminalCommand| c@);
    let mut sub = run.into_commands();
    let ghost sub_view = sub@.map_values(|c: TerminalCommand| c@);
    cmds.append(&mut sub);
    assert(cmds@.map_values(|c: TerminalCommand| c@) =~= before + sub_view);
}

proof fn lemma_commands_push(runs: Seq<RunView>, r: RunView)
    ensures
        commands_for_runs(runs.push(r)) == commands_for_runs(runs) + run_commands(r),
{
    let f = |v: RunView| run_commands(v);
    assert(runs.push(r).map_values(f) =~= runs.map_values(f).push(run_commands(r)));
    runs.map_values(f).lemma_flatten_push(run_commands(r));
}

/// Batches cell updates into terminal commands.
pub struct UpdateBatcher {
    /// The updates to process
    pub updates: Vec<CellUpdate>,
}

impl UpdateBatcher {
    /// A batcher over the given updates.
    pub fn new(updates: Vec<CellUpdate>) -> (b: UpdateBatcher)
        ensures
            b.updates@ == updates@,
    {
        UpdateBatcher { updates }
    }

    /// The commands that draw all updates: sorted top-to-bottom then
    /// left-to-right (updates at one position keep their order), grouped
    /// into maximal runs, and each run turned into its commands.
    pub fn optimize(self) -> (cmds: Vec<TerminalCommand>)
        requires
            last_column_unique(self.updates@),
        ensures
            exists|s: Seq<CellUpdate>, runs: Seq<RunView>|
                {
                    &&& sorted_by_position(s)
                    &&& same_per_position(s, self.updates@)
                    &&& runs_partition(runs, s)
                    &&& cmds@.map_values(|c: TerminalCommand| c@) == commands_for_runs(runs)
                },
    {
        let sorted = sort_updates(self.updates);
        proof {
            lemma_sorted_no_row_overflow(sorted@, self.updates@);
        }
        let batcher = UpdateBatcher { updates: sorted };
        let runs = batcher.group_into_runs();
        let ghost views = runs@.map_values(|r: Run| r@);
        let mut runs = runs;
        let mut cmds: Vec<TerminalCommand> = Vec::new();
        let n = runs.len();
        let mut i: usize = 0;
        assert(views.take(0) =~= Seq::<RunView>::empty());
        assert(commands_for_runs(Seq::<RunView>::empty()) =~= Seq::<CommandView>::empty());
        while i < n
            invariant
                n == views.len(),
                n == runs@.len(),
                i <= n,
                forall|j: int| i <= j < n ==> (#[trigger] runs@[j])@ == views[j],
                cmds@.map_values(|c: TerminalCommand| c@) == commands_for_runs(views.take(i as int)),
            decreases n - i,
        {
            let mut run = Run { x: 0, y: 0, cells: Vec::new(), fg: None, bg: None, style: CellStyle::default() };
            std::mem::swap(&mut run, &mut runs[i]);
            assert(run@ == views[i as int]);
            append_run_commands(&mut cmds, run);
            proof {
                assert(views.take(i + 1) =~= views.take(i as int).push(views[i as int]));
                lemma_commands_push(views.take(i as int), views[i as int]);
            }
            i = i + 1;
        }
        assert(views.take(n as int) =~= views);
        cmds
    }

    /// Groups the updates, in their order, into maximal runs of consecutive
    /// cells in one row with the same colors and style.
    #[verifier::spinoff_prover]
    pub fn group_into_runs(self) -> (runs: Vec<Run>)
        requires
            no_row_overflow(self.updates@),
        ensures
            runs_partition(runs@.map_values(|r: Run| r@), self.updates@),
    {
        let updates = self.updates;
        let mut runs: Vec<Run> = Vec::new();
        let n = updates.len();
        let mut i: usize = 0;
        while i < n
            invariant
                n == updates@.len(),
                i <= n,
                no_row_overflow(updates@),
                i > 0 <==> runs@.len() > 0,
                i > 0 ==> {
                    let last = runs@.last()@;
                    &&& last.x + last.cells.len() == update_x(updates@[i - 1]) + 1
                    &&& last.y == update_y(updates@[i - 1])
                },
                runs_partition(runs@.map_values(|r: Run| r@), updates@.take(i as int)),
            decreases n - i,
        {
            let u = updates[i];
            let ghost views = runs@.map_values(|r: Run| r@);
            let ghost done = updates@.take(i as int);
            assert(updates@.take(i + 1) =~= done.push(u));
            match u {
                CellUpdate::Single { x, y, cell } => {
                    let k = runs.len();
                    let append = if k > 0 {
                        proof {
                            let last = runs@.last()@;
                            if y == last.y {
                                assert(update_x(updates@[i - 1]) != u16::MAX);
                            }
                        }
                        runs[k - 1].can_append(x, y, &cell)
                    } else {
                        false
                    };
                    if append {
                        let ghost lv = views.last();
                        runs[k - 1].cells.push(cell);
                        proof {
                            let nv = runs@.map_values(|r: Run| r@);
                            let lv2 = RunView { cells: lv.cells.push(cell), ..lv };
                            assert(nv =~= views.drop_last().push(lv2));
                            assert(views =~= views.drop_last().push(lv));
                            assert(run_updates(lv2) =~= run_updates(lv).push(u));
                            lemma_flatten_map_push(views.drop_last(), lv);
                            lemma_flatten_map_push(views.drop_last(), lv2);
                            assert(nv.map_values(|r: RunView| run_updates(r)).flatten() =~= done.push(u));
                            assert(run_uniform(lv2));
                            assert forall|j: int| 0 <= j < nv.len() - 1 implies !joins(#[trigger] nv[j], first_update(nv[j + 1])) by {
                                if j + 1 == nv.len() - 1 {
                                    assert(first_update(nv[j + 1]) == first_update(views[j + 1]));
                                }
                            }
                        }
                    } else {
                        let r = Run::new(x, y, cell);
                        let ghost rv = r@;
                        runs.push(r);
                        proof {
                            let nv = runs@.map_values(|r: Run| r@);
                            assert(nv =~= views.push(rv));
                            assert(run_updates(rv) =~= seq![u]);
                            lemma_flatten_map_push(views, rv);
                            assert(nv.map_values(|r: RunView| run_updates(r)).flatten() =~= done.push(u));
                            assert forall|j: int| 0 <= j < nv.len() - 1 implies !joins(#[trigger] nv[j], first_update(nv[j + 1])) by {
                                if j + 1 == nv.len() - 1 {
                                    assert(first_update(rv) == u);
                                }
                            }
                        }
                    }
                },
            }
            i = i + 1;
        }
        assert(updates@.take(n as int) =~= updates@);
        runs
    }
}

/// A text attribute the terminal can switch on.
#[derive(Clone, Copy, Debug, PartialEq, Eq, Structural)]
pub enum TextAttribute {
    Bold,
    Italic,
    Underlined,
    CrossedOut,
}

/// One low-level operation sent to the terminal.
#[derive(Debug, Clone)]
pub enum TerminalOp {
    /// Move the cursor to `(x, y)`
    MoveTo(u16, u16),
    /// Set the foreground color (`None`: the terminal's default)
    SetForeground(Option<Color>),
    /// Set the background color (`None`: the terminal's default)
    SetBackground(Option<Color>),
    /// Switch an attribute on
    SetAttribute(TextAttribute),
    /// Switch every attribute off
    ResetAttributes,
    /// Restore the default colors
    ResetColor,
    /// Print text at the cursor
    Print(String),
    /// Clear the whole screen
    ClearAll,
}

/// Abstract form of a terminal operation.
pub ghost enum OpView {
    MoveTo(u16, u16),
    SetForeground(Option<Color>),
    SetBackground(Option<Color>),
    SetAttribute(TextAttribute),
    ResetAttributes,
    ResetColor,
    Print(Seq<char>),
    ClearAll,
}

impl View for TerminalOp {
    type V = OpView;

    open spec fn view(&self) -> OpView {
        match self {
            TerminalOp::MoveTo(x, y) => OpView::MoveTo(*x, *y),
            TerminalOp::SetForeground(c) => OpView::SetForeground(*c),
            TerminalOp::SetBackground(c) => OpView::SetBackground(*c),
            TerminalOp::SetAttribute(a) => OpView::SetAttribute(*a),
            TerminalOp::ResetAttributes => OpView::ResetAttributes,
            TerminalOp::ResetColor => OpView::ResetColor,
            TerminalOp::Print(s) => OpView::Print(s@),
            TerminalOp::ClearAll => OpView::ClearAll,
        }
    }
}

/// The views of a list of operations.
pub open spec fn ops_view(ops: Seq<TerminalOp>) -> Seq<OpView> {
    ops.map_values(|o: TerminalOp| o@)
}

/// The attributes of `style` switched on, in the order bold, italic,
/// underline, strikethrough.
pub open spec fn attribute_ops(style: CellStyle) -> Seq<OpView> {
    (if style.bold { seq![OpView::SetAttribute(TextAttribute::Bold)] } else { Seq::empty() })
        + (if style.italic { seq![OpView::SetAttribute(TextAttribute::Italic)] } else { Seq::empty() })
        + (if style.underline { seq![OpView::SetAttribute(TextAttribute::Underlined)] } else { Seq::empty() })
        + (if style.strikethrough { seq![OpView::SetAttribute(TextAttribute::CrossedOut)] } else { Seq::empty() })
}

/// Operations that draw one cell's style without relying on what was set
/// before: reset attributes, then its colors and attributes.
pub open spec fn cell_style_ops(cell: Cell) -> Seq<OpView> {
    seq![OpView::ResetAttributes]
        + (if cell.fg is Some { seq![OpView::SetForeground(cell.fg)] } else { Seq::empty() })
        + (if cell.bg is Some { seq![OpView::SetBackground(cell.bg)] } else { Seq::empty() })
        + attribute_ops(cell.style)
}

/// Operations that draw one cell at `(x, y)`.
pub open spec fn cell_ops(x: u16, y: u16, cell: Cell) -> Seq<OpView> {
    seq![OpView::MoveTo(x, y)] + cell_style_ops(cell) + seq![OpView::Print(seq![cell.char])]
}

/// Operations that draw each update on its own, in order.
pub open spec fn updates_ops(us: Seq<CellUpdate>) -> Seq<OpView>
    decreases us.len(),
{
    if us.len() == 0 {
        Seq::empty()
    } else {
        updates_ops(us.drop_last()) + match us.last() {
            CellUpdate::Single { x, y, cell } => cell_ops(x, y, cell),
        }
    }
}

/// Restores default colors and attributes.
pub open spec fn reset_ops() -> Seq<OpView> {
    seq![OpView::ResetColor, OpView::ResetAttributes]
}

/// Renders cell updates to the terminal as operations, and tracks what the
/// terminal currently has set so that repeated settings are not sent again.
#[derive(Clone, Copy, Debug)]
pub struct TerminalRenderer {
    /// Cursor position, when known
    pub current_pos: Option<(u16, u16)>,
    /// Foreground color in effect
    pub current_fg: Option<Color>,
    /// Background color in effect
    pub current_bg: Option<Color>,
    /// Attributes in effect
    pub current_style: CellStyle,
    /// Whether the terminal supports synchronized output
    pub supports_synchronized: bool,
}

/// Length in bytes of the UTF-8 encoding of `text`, as `str::len` reports it.
pub open spec fn utf8_len(text: Seq<char>) -> int {
    (vstd::utf8::encode_utf8(text).len() as usize) as int
}

/// Whether a command can be applied in state `st` without the tracked
/// column passing `u16::MAX`.
pub open spec fn command_fits(st: TerminalRenderer, cmd: CommandView) -> bool {
    match cmd {
        CommandView::Print(text) => match st.current_pos {
            Some((x, y)) => x + utf8_len(text) % 65536 <= u16::MAX,
            None => true,
        },
        _ => true,
    }
}

/// The state and operations after applying a command.
pub open spec fn command_step(st: TerminalRenderer, cmd: CommandView) -> (TerminalRenderer, Seq<OpView>) {
    match cmd {
        CommandView::MoveTo(x, y) => if st.current_pos == Some((x, y)) {
            (st, Seq::empty())
        } else {
            (TerminalRenderer { current_pos: Some((x, y)), ..st }, seq![OpView::MoveTo(x, y)])
        },
        CommandView::SetColors(fg, bg) => (
            TerminalRenderer { current_fg: fg, current_bg: bg, ..st },
            (if fg != st.current_fg { seq![OpView::SetForeground(fg)] } else { Seq::empty() })
                + (if bg != st.current_bg { seq![OpView::SetBackground(bg)] } else { Seq::empty() }),
        ),
        CommandView::Print(text) => (
            TerminalRenderer {
                current_pos: match st.current_pos {
                    Some((x, y)) => Some(((x + utf8_len(text) % 65536) as u16, y)),
                    None => None,
                },
                ..st
            },
            seq![OpView::Print(text)],
        ),
        CommandView::SetStyle(style) => if style != st.current_style {
            (TerminalRenderer { current_style: style, ..st }, seq![OpView::ResetAttributes] + attribute_ops(style))
        } else {
            (st, Seq::empty())
        },
        CommandView::Reset => (
            TerminalRenderer { current_fg: None, current_bg: None, current_style: plain_style(), ..st },
            seq![OpView::ResetColor, OpView::ResetAttributes],
        ),
    }
}

/// Whether a sequence of commands can be applied one after the other from
/// state `st` without the tracked column passing `u16::MAX`.
pub open spec fn commands_fit(st: TerminalRenderer, cmds: Seq<CommandView>) -> bool
    decreases cmds.len(),
{
    cmds.len() == 0 || (command_fits(st, cmds[0]) && commands_fit(command_step(st, cmds[0]).0, cmds.drop_first()))
}

/// The state and the operations after applying commands one after the
/// other from state `st`.
pub open spec fn commands_steps(st: TerminalRenderer, cmds: Seq<CommandView>) -> (TerminalRenderer, Seq<OpView>)
    decreases cmds.len(),
{
    if cmds.len() == 0 {
        (st, Seq::empty())
    } else {
        let first = command_step(st, cmds[0]);
        let rest = commands_steps(first.0, cmds.drop_first());
        (rest.0, first.1 + rest.1)
    }
}

/// Whether the batched commands for `us` can be applied from state `st`,
/// however the sorted updates are split into runs.
pub open spec fn batch_fits(st: TerminalRenderer, us: Seq<CellUpdate>) -> bool {
    forall|s: Seq<CellUpdate>, runs: Seq<RunView>|
        #![trigger runs_partition(runs, s), same_per_position(s, us)]
        sorted_by_position(s) && same_per_position(s, us) && runs_partition(runs, s)
            ==> commands_fit(st, commands_for_runs(runs))
}

/// The text that starts a synchronized update.
pub open spec fn sync_begin() -> Seq<char> {
    "\u{1b}[?2026h"@
}

/// The text that ends a synchronized update.
pub open spec fn sync_end() -> Seq<char> {
    "\u{1b}[?2026l"@
}

/// Operations that clear the screen and home the cursor with default
/// colors and attributes.
pub open spec fn clear_ops() -> Seq<OpView> {
    seq![OpView::ClearAll, OpView::MoveTo(0, 0), OpView::ResetColor, OpView::ResetAttributes]
}

#[verifier::spinoff_prover]
#[verifier::rlimit(30)]
fn push_cell_ops(ops: &mut Vec<TerminalOp>, x: u16, y: u16, cell: Cell)
    ensures
        ops_view(final(ops)@) == ops_view(old(ops)@) + cell_ops(x, y, cell),
{
    let ghost start = ops_view(ops@);
    let ghost fg_part: Seq<OpView> = if cell.fg is Some { seq![OpView::SetForeground(cell.fg)] } else { Seq::empty() };
    let ghost bg_part: Seq<OpView> = if cell.bg is Some { seq![OpView::SetBackground(cell.bg)] } else { Seq::empty() };
    ops.push(TerminalOp::MoveTo(x, y));
    ops.push(TerminalOp::ResetAttributes);
    assert(ops_view(ops@) =~= start + seq![OpView::MoveTo(x, y), OpView::ResetAttributes]);
    match cell.fg {
        Some(_) => ops.push(TerminalOp::SetForeground(cell.fg)),
        None => {},
    }
    assert(ops_view(ops@) =~= start + seq![OpView::MoveTo(x, y), OpView::ResetAttributes] + fg_part);
    match cell.bg {
        Some(_) => ops.push(TerminalOp::SetBackground(cell.bg)),
        None => {},
    }
    let ghost mid = ops_view(ops@);
    assert(mid =~= start + seq![OpView::MoveTo(x, y), OpView::ResetAttributes] + fg_part + bg_part);
    push_attribute_ops(ops, cell.style);
    let mut text = String::new();
    push_char(&mut text, cell.char);
    assert(text@ =~= seq![cell.char]);
    let ghost before_print = ops_view(ops@);
    ops.push(TerminalOp::Print(text));
    assert(ops_view(ops@) =~= before_print.push(OpView::Print(seq![cell.char])));
    assert(cell_ops(x, y, cell) =~= seq![OpView::MoveTo(x, y), OpView::ResetAttributes] + fg_part + bg_part
        + attribute_ops(cell.style) + seq![OpView::Print(seq![cell.char])]);
    assert(ops_view(ops@) =~= start + cell_ops(x, y, cell));
}

fn direct_ops(updates: &Vec<CellUpdate>) -> (ops: Vec<TerminalOp>)
    ensures
        ops_view(ops@) == updates_ops(updates@) + reset_ops(),
{
    let mut ops: Vec<TerminalOp> = Vec::new();
    let n = updates.len();
    let mut i: usize = 0;
    while i < n
        invariant
            n == updates@.len(),
            i <= n,
            ops_view(ops@) == updates_ops(updates@.take(i as int)),
        decreases n - i,
    {
        let u = updates[i];
        match u {
            CellUpdate::Single { x, y, cell } => push_cell_ops(&mut ops, x, y, cell),
        }
        assert(updates@.take(i + 1).drop_last() =~= updates@.take(i as int));
        i = i + 1;
    }
    assert(updates@.take(n as int) =~= updates@);
    let ghost body = ops_view(ops@);
    ops.push(TerminalOp::ResetColor);
    ops.push(TerminalOp::ResetAttributes);
    assert(ops_view(ops@) =~= body + reset_ops());
    ops
}

fn full_buffer_ops(buffer: &ScreenBuffer) -> (ops: Vec<TerminalOp>)
    requires
        buffer.wf(),
    ensures
        ops_view(ops@) == updates_ops(all_cells(*buffer, buffer.spec_height() as int)) + reset_ops(),
{
    let mut ops: Vec<TerminalOp> = Vec::new();
    let (width, height) = buffer.dimensions();
    let mut y: u16 = 0;
    while y < height
        invariant
            buffer.wf(),
            width == buffer.spec_width(),
            height == buffer.spec_height(),
            y <= height,
            ops_view(ops@) == updates_ops(all_cells(*buffer, y as int)),
        decreases height - y,
    {
        let mut x: u16 = 0;
        while x < width
            invariant
                buffer.wf(),
                width == buffer.spec_width(),
                height == buffer.spec_height(),
                y < height,
                x <= width,
                ops_view(ops@) == updates_ops(all_cells(*buffer, y as int) + row_cells(*buffer, y as int, x as int)),
            decreases width - x,
        {
            match buffer.get_cell(x, y) {
                Some(cell) => {
                    let c = *cell;
                    push_cell_ops(&mut ops, x, y, c);
                },
                None => {},
            }
            proof {
                let prev = all_cells(*buffer, y as int) + row_cells(*buffer, y as int, x as int);
                let u = CellUpdate::Single { x, y, cell: buffer.cell(x as int, y as int) };
                assert(all_cells(*buffer, y as int) + row_cells(*buffer, y as int, x + 1) =~= prev.push(u));
                assert(prev.push(u).drop_last() =~= prev);
            }
            x = x + 1;
        }
        assert(all_cells(*buffer, y + 1) =~= all_cells(*buffer, y as int) + row_cells(*buffer, y as int, width as int));
        y = y + 1;
    }
    let ghost body = ops_view(ops@);
    ops.push(TerminalOp::ResetColor);
    ops.push(TerminalOp::ResetAttributes);
    assert(ops_view(ops@) =~= body + reset_ops());
    ops
}

/// The first `n` cells of row `y` as updates, left to right.
pub open spec fn row_cells(b: ScreenBuffer, y: int, n: int) -> Seq<CellUpdate> {
    Seq::new(n as nat, |x: int| CellUpdate::Single { x: x as u16, y: y as u16, cell: b.cell(x, y) })
}

/// The cells of the first `m` rows as updates, in row-major order.
pub open spec fn all_cells(b: ScreenBuffer, m: int) -> Seq<CellUpdate>
    decreases m,
{
    if m <= 0 {
        Seq::empty()
    } else {
        all_cells(b, m - 1) + row_cells(b, m - 1, b.spec_width() as int)
    }
}

fn push_attribute_ops(ops: &mut Vec<TerminalOp>, style: CellStyle)
    ensures
        ops_view(final(ops)@) == ops_view(old(ops)@) + attribute_ops(style),
{
    let ghost start = ops_view(ops@);
    if style.bold {
        ops.push(TerminalOp::SetAttribute(TextAttribute::Bold));
    }
    if style.italic {
        ops.push(TerminalOp::SetAttribute(TextAttribute::Italic));
    }
    if style.underline {
        ops.push(TerminalOp::SetAttribute(TextAttribute::Underlined));
    }
    if style.strikethrough {
        ops.push(TerminalOp::SetAttribute(TextAttribute::CrossedOut));
    }
    assert(ops_view(ops@) =~= start + attribute_ops(style));
}

impl TerminalRenderer {
    /// A renderer that knows nothing of the terminal yet: no position,
    /// default colors and attributes.  Whether the terminal supports
    /// synchronized output is detected by the caller.
    pub fn new(supports_synchronized: bool) -> (s: TerminalRenderer)
        ensures
            s == (TerminalRenderer {
                current_pos: None,
                current_fg: None,
                current_bg: None,
                current_style: plain_style(),
                supports_synchronized,
            }),
    {
        TerminalRenderer {
            current_pos: None,
            current_fg: None,
            current_bg: None,
            current_style: CellStyle::default(),
            supports_synchronized,
        }
    }

    /// Whether `cmd` can be applied without the tracked column passing
    /// `u16::MAX`.
    pub fn can_apply(&self, cmd: &TerminalCommand) -> (b: bool)
        ensures
            b == command_fits(*self, cmd@),
    {
        match cmd {
            TerminalCommand::Print(text) => match self.current_pos {
                Some((x, _)) => (x as usize) + text.as_str().len() % 65536 <= 65535,
                None => true,
            },
            _ => true,
        }
    }

    /// Applies one command: emits only the operations that change what the
    /// terminal has set, and records the new settings.  Printing moves the
    /// tracked cursor right by the text's length in bytes.
    pub fn apply_command(&mut self, cmd: TerminalCommand) -> (ops: Vec<TerminalOp>)
        requires
            command_fits(*old(self), cmd@),
        ensures
            *final(self) == command_step(*old(self), cmd@).0,
            ops_view(ops@) == command_step(*old(self), cmd@).1,
    {
        let mut ops: Vec<TerminalOp> = Vec::new();
        match cmd {
            TerminalCommand::MoveTo(x, y) => {
                let same = match self.current_pos {
                    Some((cx, cy)) => cx == x && cy == y,
                    None => false,
                };
                if !same {
                    ops.push(TerminalOp::MoveTo(x, y));
                    self.current_pos = Some((x, y));
                }
            },
            TerminalCommand::SetColors { fg, bg } => {
                ops = self.set_colors(fg, bg);
            },
            TerminalCommand::Print(text) => {
                let n = text.as_str().len();
                match self.current_pos {
                    Some((x, y)) => {
                        self.current_pos = Some((x + (n % 65536) as u16, y));
                    },
                    None => {},
                }
                ops.push(TerminalOp::Print(text));
            },
            TerminalCommand::SetStyle(style) => {
                ops = self.set_style(style);
            },
            TerminalCommand::Reset => {
                ops.push(TerminalOp::ResetColor);
                ops.push(TerminalOp::ResetAttributes);
                self.current_fg = None;
                self.current_bg = None;
                self.current_style = CellStyle::default();
            },
        }
        assert(ops_view(ops@) =~= command_step(*old(self), cmd@).1);
        ops
    }

    /// Sets the colors, sending only those that differ from what is in
    /// effect (`None`: the terminal's default).
    pub fn set_colors(&mut self, fg: Option<Color>, bg: Option<Color>) -> (ops: Vec<TerminalOp>)
        ensures
            *final(self) == command_step(*old(self), CommandView::SetColors(fg, bg)).0,
            ops_view(ops@) == command_step(*old(self), CommandView::SetColors(fg, bg)).1,
    {
        let mut ops: Vec<TerminalOp> = Vec::new();
        if fg != self.current_fg {
            ops.push(TerminalOp::SetForeground(fg));
            self.current_fg = fg;
        }
        if bg != self.current_bg {
            ops.push(TerminalOp::SetBackground(bg));
            self.current_bg = bg;
        }
        assert(ops_view(ops@) =~= command_step(*old(self), CommandView::SetColors(fg, bg)).1);
        ops
    }

    /// Sets the attributes when they differ from those in effect: all off,
    /// then those of `style` on.
    pub fn set_style(&mut self, style: CellStyle) -> (ops: Vec<TerminalOp>)
        ensures
            *final(self) == command_step(*old(self), CommandView::SetStyle(style)).0,
            ops_view(ops@) == command_step(*old(self), CommandView::SetStyle(style)).1,
    {
        let mut ops: Vec<TerminalOp> = Vec::new();
        if style != self.current_style {
            ops.push(TerminalOp::ResetAttributes);
            push_attribute_ops(&mut ops, style);
            self.current_style = style;
        }
        assert(ops_view(ops@) =~= command_step(*old(self), CommandView::SetStyle(style)).1);
        ops
    }

    /// The operations that draw a cell's style without relying on what was
    /// set before (see `cell_style_ops`); the tracked state is not used.
    pub fn apply_cell_style(&self, cell: &Cell) -> (ops: Vec<TerminalOp>)
        ensures
            ops_view(ops@) == cell_style_ops(*cell),
    {
        let mut ops: Vec<TerminalOp> = Vec::new();
        ops.push(TerminalOp::ResetAttributes);
        match cell.fg {
            Some(_) => ops.push(TerminalOp::SetForeground(cell.fg)),
            None => {},
        }
        match cell.bg {
            Some(_) => ops.push(TerminalOp::SetBackground(cell.bg)),
            None => {},
        }
        proof {
            let fg_part: Seq<OpView> = if cell.fg is Some { seq![OpView::SetForeground(cell.fg)] } else { Seq::empty() };
            let bg_part: Seq<OpView> = if cell.bg is Some { seq![OpView::SetBackground(cell.bg)] } else { Seq::empty() };
            assert(ops_view(ops@) =~= seq![OpView::ResetAttributes] + fg_part + bg_part);
        }
        push_attribute_ops(&mut ops, cell.style);
        ops
    }

    /// Resets colors and attributes to the terminal's defaults.
    pub fn reset(&mut self) -> (ops: Vec<TerminalOp>)
        ensures
            *final(self) == command_step(*old(self), CommandView::Reset).0,
            ops_view(ops@) == command_step(*old(self), CommandView::Reset).1,
    {
        self.apply_command(TerminalCommand::Reset)
    }

    /// Clears the screen and forgets what was set: no known position,
    /// default colors and attributes.
    pub fn clear_screen(&mut self) -> (ops: Vec<TerminalOp>)
        ensures
            ops_view(ops@) == clear_ops(),
            *final(self) == (TerminalRenderer {
                current_pos: None,
                current_fg: None,
                current_bg: None,
                current_style: plain_style(),
                ..*old(self)
            }),
    {
        let mut ops: Vec<TerminalOp> = Vec::new();
        ops.push(TerminalOp::ClearAll);
        ops.push(TerminalOp::MoveTo(0, 0));
        ops.push(TerminalOp::ResetColor);
        ops.push(TerminalOp::ResetAttributes);
        self.current_pos = None;
        self.current_fg = None;
        self.current_bg = None;
        self.current_style = CellStyle::default();
        assert(ops_view(ops@) =~= clear_ops());
        ops
    }

    /// Operations that draw each update on its own, then restore the
    /// default colors and attributes; the tracked state is not used.
    pub fn apply_updates_direct(&self, updates: Vec<CellUpdate>) -> (ops: Vec<TerminalOp>)
        ensures
            ops_view(ops@) == updates_ops(updates@) + reset_ops(),
    {
        direct_ops(&updates)
    }

    /// Operations that draw every cell of `buffer`, row by row, each on its
    /// own, then restore the default colors and attributes.
    pub fn draw_full_buffer(&self, buffer: &ScreenBuffer) -> (ops: Vec<TerminalOp>)
        requires
            buffer.wf(),
        ensures
            ops_view(ops@) == updates_ops(all_cells(*buffer, buffer.spec_height() as int)) + reset_ops(),
    {
        full_buffer_ops(buffer)
    }

    /// Applies cell updates.  Nothing is sent for no updates.  A terminal
    /// with synchronized output gets the batched commands, applied through
    /// the tracked state, between the texts that begin and end a
    /// synchronized update; any other terminal gets each cell on its own.
    pub fn apply_updates(&mut self, updates: Vec<CellUpdate>) -> (ops: Vec<TerminalOp>)
        requires
            old(self).supports_synchronized ==> last_column_unique(updates@) && batch_fits(*old(self), updates@),
        ensures
            updates@.len() == 0 ==> ops@.len() == 0 && *final(self) == *old(self),
            updates@.len() > 0 && !old(self).supports_synchronized ==> ops_view(ops@) == updates_ops(updates@)
                + reset_ops() && *final(self) == *old(self),
            updates@.len() > 0 && old(self).supports_synchronized ==> exists|s: Seq<CellUpdate>, runs: Seq<RunView>|
                {
                    &&& sorted_by_position(s)
                    &&& same_per_position(s, updates@)
                    &&& runs_partition(runs, s)
                    &&& ops_view(ops@) == seq![OpView::Print(sync_begin())]
                        + commands_steps(*old(self), commands_for_runs(runs)).1 + seq![OpView::Print(sync_end())]
                    &&& *final(self) == commands_steps(*old(self), commands_for_runs(runs)).0
                },
    {
        if updates.len() == 0 {
            return Vec::new();
        }
        if self.supports_synchronized {
            self.apply_updates_synchronized(updates)
        } else {
            direct_ops(&updates)
        }
    }

    /// The batched commands for the updates, applied through the tracked
    /// state, between the texts that begin and end a synchronized update.
    pub fn apply_updates_synchronized(&mut self, updates: Vec<CellUpdate>) -> (ops: Vec<TerminalOp>)
        requires
            last_column_unique(updates@),
            batch_fits(*old(self), updates@),
        ensures
            exists|s: Seq<CellUpdate>, runs: Seq<RunView>|
                {
                    &&& sorted_by_position(s)
                    &&& same_per_position(s, updates@)
                    &&& runs_partition(runs, s)
                    &&& ops_view(ops@) == seq![OpView::Print(sync_begin())]
                        + commands_steps(*old(self), commands_for_runs(runs)).1 + seq![OpView::Print(sync_end())]
                    &&& *final(self) == commands_steps(*old(self), commands_for_runs(runs)).0
                },
    {
        let mut ops: Vec<TerminalOp> = Vec::new();
        ops.push(TerminalOp::Print("\u{1b}[?2026h".to_string()));
        let ghost begin = ops_view(ops@);
        assert(begin =~= seq![OpView::Print(sync_begin())]);
        let mut body = self.apply_updates_optimized(updates);
        ops.append(&mut body);
        let ghost middle = ops_view(ops@);
        ops.push(TerminalOp::Print("\u{1b}[?2026l".to_string()));
        assert(ops_view(ops@) =~= middle.push(OpView::Print(sync_end())));
        ops
    }

    /// The batched commands for the updates (see `UpdateBatcher::optimize`),
    /// applied one after the other through the tracked state.
    pub fn apply_updates_optimized(&mut self, updates: Vec<CellUpdate>) -> (ops: Vec<TerminalOp>)
        requires
            last_column_unique(updates@),
            batch_fits(*old(self), updates@),
        ensures
            exists|s: Seq<CellUpdate>, runs: Seq<RunView>|
                {
                    &&& sorted_by_position(s)
                    &&& same_per_position(s, updates@)
                    &&& runs_partition(runs, s)
                    &&& ops_view(ops@) == commands_steps(*old(self), commands_for_runs(runs)).1
                    &&& *final(self) == commands_steps(*old(self), commands_for_runs(runs)).0
                },
    {
        let ghost us = updates@;
        let ghost st0 = *self;
        let cmds = UpdateBatcher::new(updates).optimize();
        let ghost cv = cmds@.map_values(|c: TerminalCommand| c@);
        let ghost (ws, wruns) = choose|s: Seq<CellUpdate>, runs: Seq<RunView>|
            {
                &&& sorted_by_position(s)
                &&& same_per_position(s, us)
                &&& runs_partition(runs, s)
                &&& cv == commands_for_runs(runs)
            };
        assert(commands_fit(st0, cv));
        let mut ops: Vec<TerminalOp> = Vec::new();
        let mut cmds = cmds;
        let n = cmds.len();
        let mut i: usize = 0;
        assert(cv.skip(0) =~= cv);
        while i < n
            invariant
                n == cv.len(),
                i <= n,
                cmds@.map_values(|c: TerminalCommand| c@) == cv.skip(i as int),
                commands_fit(*self, cv.skip(i as int)),
                commands_steps(*self, cv.skip(i as int)).0 == commands_steps(st0, cv).0,
                ops_view(ops@) + commands_steps(*self, cv.skip(i as int)).1 == commands_steps(st0, cv).1,
            decreases n - i,
        {
            let ghost rest = cv.skip(i as int);
            let ghost before = *self;
            let ghost ops_before = ops_view(ops@);
            let cmd = cmds.remove(0);
            assert(cmd@ == rest[0]);
            let mut step_ops = self.apply_command(cmd);
            proof {
                assert(cv.skip(i + 1) =~= rest.drop_first());
                assert(cmds@.map_values(|c: TerminalCommand| c@) =~= rest.drop_first());
            }
            ops.append(&mut step_ops);
            proof {
                assert(ops_view(ops@) =~= ops_before + command_step(before, rest[0]).1);
                assert(ops_view(ops@) + commands_steps(*self, cv.skip(i + 1)).1 =~= ops_before + commands_steps(before, rest).1);
            }
            i = i + 1;
        }
        proof {
            assert(cv.skip(n as int) =~= Seq::<CommandView>::empty());
            assert(ops_view(ops@) =~= commands_steps(st0, commands_for_runs(wruns)).1);
        }
        ops
    }
}

/// Repeating a cursor, color or style command right after itself sends
/// nothing the second time and leaves the tracked state as it was.
pub proof fn lemma_repeated_command_is_silent(st: TerminalRenderer, cmd: CommandView)
    requires
        cmd is MoveTo || cmd is SetColors || cmd is SetStyle,
    ensures
        command_step(command_step(st, cmd).0, cmd).1 == Seq::<OpView>::empty(),
        command_step(command_step(st, cmd).0, cmd).0 == command_step(st, cmd).0,
{
    assert(command_step(command_step(st, cmd).0, cmd).1 =~= Seq::<OpView>::empty());
}

/// Operations that draw one cell as the debugging path draws it: move
/// there, set the colors it has, print its character, and restore the
/// default colors when it set any.
pub open spec fn plain_cell_ops(x: u16, y: u16, cell: Cell) -> Seq<OpView> {
    seq![OpView::MoveTo(x, y)]
        + (if cell.fg is Some { seq![OpView::SetForeground(cell.fg)] } else { Seq::empty() })
        + (if cell.bg is Some { seq![OpView::SetBackground(cell.bg)] } else { Seq::empty() })
        + seq![OpView::Print(seq![cell.char])]
        + (if cell.fg is Some || cell.bg is Some { seq![OpView::ResetColor] } else { Seq::empty() })
}

/// The plain operations for a sequence of cell updates, in order.
pub open spec fn plain_updates_ops(us: Seq<CellUpdate>) -> Seq<OpView>
    decreases us.len(),
{
    if us.len() == 0 {
        Seq::empty()
    } else {
        plain_updates_ops(us.drop_last()) + match us.last() {
            CellUpdate::Single { x, y, cell } => plain_cell_ops(x, y, cell),
        }
    }
}

fn push_plain_cell_ops(ops: &mut Vec<TerminalOp>, x: u16, y: u16, cell: Cell)
    ensures
        ops_view(final(ops)@) == ops_view(old(ops)@) + plain_cell_ops(x, y, cell),
{
    let ghost start = ops_view(ops@);
    let ghost fg_part: Seq<OpView> = if cell.fg is Some { seq![OpView::SetForeground(cell.fg)] } else { Seq::empty() };
    let ghost bg_part: Seq<OpView> = if cell.bg is Some { seq![OpView::SetBackground(cell.bg)] } else { Seq::empty() };
    let ghost reset_part: Seq<OpView> = if cell.fg is Some || cell.bg is Some { seq![OpView::ResetColor] } else { Seq::empty() };
    ops.push(TerminalOp::MoveTo(x, y));
    assert(ops_view(ops@) =~= start + seq![OpView::MoveTo(x, y)]);
    match cell.fg {
        Some(_) => ops.push(TerminalOp::SetForeground(cell.fg)),
        None => {},
    }
    assert(ops_view(ops@) =~= start + seq![OpView::MoveTo(x, y)] + fg_part);
    match cell.bg {
        Some(_) => ops.push(TerminalOp::SetBackground(cell.bg)),
        None => {},
    }
    assert(ops_view(ops@) =~= start + seq![OpView::MoveTo(x, y)] + fg_part + bg_part);
    let mut text = String::new();
    push_char(&mut text, cell.char);
    assert(text@ =~= seq![cell.char]);
    ops.push(TerminalOp::Print(text));
    assert(ops_view(ops@) =~= start + seq![OpView::MoveTo(x, y)] + fg_part + bg_part + seq![OpView::Print(seq![cell.char])]);
    if cell.fg.is_some() || cell.bg.is_some() {
        ops.push(TerminalOp::ResetColor);
    }
    assert(ops_view(ops@) =~= start + (seq![OpView::MoveTo(x, y)] + fg_part + bg_part + seq![OpView::Print(seq![cell.char])] + reset_part));
}

/// The operations that draw `buffer` without diffing or batching: clear
/// the screen, then every cell row by row, each on its own with its colors
/// (see `plain_cell_ops`).
pub fn draw_direct_ops(buffer: &ScreenBuffer) -> (ops: Vec<TerminalOp>)
    requires
        buffer.wf(),
    ensures
        ops_view(ops@) == seq![OpView::ClearAll] + plain_updates_ops(all_cells(*buffer, buffer.spec_height() as int)),
{
    let mut ops: Vec<TerminalOp> = Vec::new();
    ops.push(TerminalOp::ClearAll);
    let (width, height) = buffer.dimensions();
    let mut y: u16 = 0;
    assert(ops_view(ops@) =~= seq![OpView::ClearAll] + plain_updates_ops(all_cells(*buffer, 0)));
    while y < height
        invariant
            buffer.wf(),
            width == buffer.spec_width(),
            height == buffer.spec_height(),
            y <= height,
            ops_view(ops@) == seq![OpView::ClearAll] + plain_updates_ops(all_cells(*buffer, y as int)),
        decreases height - y,
    {
        let mut x: u16 = 0;
        while x < width
            invariant
                buffer.wf(),
                width == buffer.spec_width(),
                height == buffer.spec_height(),
                y < height,
                x <= width,
                ops_view(ops@) == seq![OpView::ClearAll] + plain_updates_ops(all_cells(*buffer, y as int) + row_cells(*buffer, y as int, x as int)),
            decreases width - x,
        {
            let ghost before = ops_view(ops@);
            match buffer.get_cell(x, y) {
                Some(cell) => {
                    let c = *cell;
                    push_plain_cell_ops(&mut ops, x, y, c);
                },
                None => {},
            }
            proof {
                let prev = all_cells(*buffer, y as int) + row_cells(*buffer, y as int, x as int);
                let u = CellUpdate::Single { x, y, cell: buffer.cell(x as int, y as int) };
                assert(all_cells(*buffer, y as int) + row_cells(*buffer, y as int, x + 1) =~= prev.push(u));
                assert(prev.push(u).drop_last() =~= prev);
                assert(ops_view(ops@) =~= seq![OpView::ClearAll] + plain_updates_ops(prev.push(u)));
            }
            x = x + 1;
        }
        assert(all_cells(*buffer, y + 1) =~= all_cells(*buffer, y as int) + row_cells(*buffer, y as int, width as int));
        y = y + 1;
    }
    ops
}

} // verus!
