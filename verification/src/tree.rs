//! The render tree: nodes held in one vector, each with the indices of its
//! children (always after it), a root, and the focused and hovered nodes.
//! Focus moves through the focusable nodes in depth-first order; clicks
//! find the deepest node under the pointer.
use vstd::prelude::*;
use crate::layout::{RenderNode, RenderNodeType, border_offset_of, padding_of, state_style, with_computed_style};
use crate::render::{Rect, as_i16, clips, common, inside, merge_regions, merged_regions};
use crate::style::{Direction, Overflow, Spacing};

verus! {

/// The render tree.  Node `i`'s children are `children[i]`, in order; a
/// child always comes after its parent, so the links form no cycle.
pub struct RenderTree {
    pub nodes: Vec<RenderNode>,
    pub children: Vec<Vec<usize>>,
    pub root: Option<usize>,
    pub focused: Option<usize>,
    pub hovered: Option<usize>,
    pub pending_focus_clear: bool,
}

/// Whether `i` is a node of the tree.
pub open spec fn is_node(t: RenderTree, i: int) -> bool {
    0 <= i < t.nodes@.len()
}

/// The children of node `i`.
pub open spec fn kids(t: RenderTree, i: int) -> Seq<usize> {
    t.children@[i]@
}

impl RenderTree {
    /// Every node has a list of children, each child after its parent, and
    /// the root, focused and hovered nodes are nodes of the tree.
    pub open spec fn wf(&self) -> bool {
        &&& self.nodes@.len() == self.children@.len()
        &&& forall|i: int, k: int| is_node(*self, i) && 0 <= k < kids(*self, i).len() ==> i < #[trigger] kids(*self, i)[k] < self.nodes@.len()
        &&& self.root matches Some(r) ==> r < self.nodes@.len()
        &&& self.focused matches Some(f) ==> f < self.nodes@.len()
        &&& self.hovered matches Some(h) ==> h < self.nodes@.len()
    }
}

/// The nodes of the subtree at `i` in depth-first order, each before its
/// children.
pub open spec fn preorder(t: RenderTree, i: int) -> Seq<usize>
    decreases t.nodes@.len() - i, 1int, 0int,
{
    if is_node(t, i) && i < t.children@.len() {
        seq![i as usize] + preorder_from(t, i, 0)
    } else {
        Seq::empty()
    }
}

/// The subtrees of node `i`'s children from child `k` on, in depth-first
/// order.
pub open spec fn preorder_from(t: RenderTree, i: int, k: int) -> Seq<usize>
    decreases t.nodes@.len() - i, 0int, t.children@[i]@.len() - k,
{
    if is_node(t, i) && i < t.children@.len() && 0 <= k < t.children@[i]@.len() {
        let c = t.children@[i]@[k] as int;
        let rest = preorder_from(t, i, k + 1);
        if i < c && c < t.nodes@.len() { preorder(t, c) + rest } else { rest }
    } else {
        Seq::empty()
    }
}

/// The focusable nodes of the subtree at `i`, in depth-first order.
pub open spec fn focus_order(t: RenderTree, i: int) -> Seq<usize>
    decreases t.nodes@.len() - i, 1int, 0int,
{
    if is_node(t, i) && i < t.children@.len() {
        (if t.nodes@[i].focusable { seq![i as usize] } else { Seq::empty() }) + focus_order_from(t, i, 0)
    } else {
        Seq::empty()
    }
}

/// The focusable nodes of the subtrees of node `i`'s children from child
/// `k` on.
pub open spec fn focus_order_from(t: RenderTree, i: int, k: int) -> Seq<usize>
    decreases t.nodes@.len() - i, 0int, t.children@[i]@.len() - k,
{
    if is_node(t, i) && i < t.children@.len() && 0 <= k < t.children@[i]@.len() {
        let c = t.children@[i]@[k] as int;
        let rest = focus_order_from(t, i, k + 1);
        if i < c && c < t.nodes@.len() { focus_order(t, c) + rest } else { rest }
    } else {
        Seq::empty()
    }
}

/// The focusable nodes of the tree in tab order.
pub open spec fn tab_order(t: RenderTree) -> Seq<usize> {
    match t.root {
        Some(r) => focus_order(t, r as int),
        None => Seq::empty(),
    }
}

impl RenderTree {
    /// An empty tree.
    pub fn new() -> (t: RenderTree)
        ensures
            t.wf(),
            t.nodes@.len() == 0,
            t.root is None,
            t.focused is None,
            t.hovered is None,
            !t.pending_focus_clear,
    {
        RenderTree { nodes: Vec::new(), children: Vec::new(), root: None, focused: None, hovered: None, pending_focus_clear: false }
    }

    /// Adds a node with no children and returns its index.
    pub fn add_node(&mut self, node: RenderNode) -> (i: usize)
        requires
            old(self).wf(),
        ensures
            final(self).wf(),
            i == old(self).nodes@.len(),
            final(self).nodes@ == old(self).nodes@.push(node),
            final(self).children@.len() == old(self).children@.len() + 1,
            forall|j: int| 0 <= j < old(self).children@.len() ==> #[trigger] final(self).children@[j] == old(self).children@[j],
            final(self).children@[i as int]@.len() == 0,
            final(self).root == old(self).root,
            final(self).focused == old(self).focused,
            final(self).hovered == old(self).hovered,
            final(self).pending_focus_clear == old(self).pending_focus_clear,
    {
        let i = self.nodes.len();
        self.nodes.push(node);
        self.children.push(Vec::new());
        proof {
            assert forall|p: int, k: int| is_node(*self, p) && 0 <= k < kids(*self, p).len() implies p < #[trigger] kids(*self, p)[k] < self.nodes@.len() by {
                if p < i {
                    assert(kids(*self, p) == kids(*old(self), p));
                }
            }
        }
        i
    }

    /// Appends `child` to the children of `parent`; the child must come
    /// after its parent.
    pub fn add_child(&mut self, parent: usize, child: usize)
        requires
            old(self).wf(),
            parent < child < old(self).nodes@.len(),
        ensures
            final(self).wf(),
            final(self).nodes@ == old(self).nodes@,
            final(self).children@.len() == old(self).children@.len(),
            final(self).children@[parent as int]@ == old(self).children@[parent as int]@.push(child),
            forall|j: int| 0 <= j < old(self).children@.len() && j != parent ==> #[trigger] final(self).children@[j] == old(self).children@[j],
            final(self).root == old(self).root,
            final(self).focused == old(self).focused,
            final(self).hovered == old(self).hovered,
            final(self).pending_focus_clear == old(self).pending_focus_clear,
    {
        self.children[parent].push(child);
        proof {
            assert forall|p: int, k: int| is_node(*self, p) && 0 <= k < kids(*self, p).len() implies p < #[trigger] kids(*self, p)[k] < self.nodes@.len() by {
                if p != parent {
                    assert(kids(*self, p) == kids(*old(self), p));
                } else if k < kids(*old(self), p).len() {
                    assert(kids(*self, p)[k] == kids(*old(self), p)[k]);
                }
            }
        }
    }

    /// Makes node `root` the root of the tree.
    pub fn set_root(&mut self, root: usize)
        requires
            old(self).wf(),
            root < old(self).nodes@.len(),
        ensures
            final(self).wf(),
            *final(self) == (RenderTree { root: Some(root), ..*old(self) }),
    {
        self.root = Some(root);
        proof {
            assert forall|p: int, k: int| is_node(*self, p) && 0 <= k < kids(*self, p).len() implies p < #[trigger] kids(*self, p)[k] < self.nodes@.len() by {
                assert(kids(*self, p) == kids(*old(self), p));
            }
        }
    }

    /// The focused node.
    pub fn get_focused_node(&self) -> (r: Option<usize>)
        ensures
            r == self.focused,
    {
        self.focused
    }

    /// The focusable nodes of the subtree at `i` in depth-first order (see
    /// `focus_order`).
    fn collect_focusable(&self, i: usize, out: &mut Vec<usize>)
        requires
            self.wf(),
            i < self.nodes@.len(),
        ensures
            final(out)@ == old(out)@ + focus_order(*self, i as int),
        decreases self.nodes@.len() - i, 1int,
    {
        if self.nodes[i].focusable {
            out.push(i);
        }
        let ghost mid = out@;
        let n = self.children[i].len();
        let mut k: usize = 0;
        while k < n
            invariant
                self.wf(),
                i < self.nodes@.len(),
                n == kids(*self, i as int).len(),
                k <= n,
                mid + focus_order_from(*self, i as int, 0) == out@ + focus_order_from(*self, i as int, k as int),
            decreases n - k,
        {
            let c = self.children[i][k];
            assert(c == kids(*self, i as int)[k as int]);
            let ghost before = out@;
            self.collect_focusable(c, out);
            assert(before + (focus_order(*self, c as int) + focus_order_from(*self, i as int, k + 1))
                =~= (before + focus_order(*self, c as int)) + focus_order_from(*self, i as int, k + 1));
            k = k + 1;
        }
        assert(focus_order_from(*self, i as int, n as int) =~= Seq::<usize>::empty());
        assert(out@ =~= out@ + Seq::<usize>::empty());
    }

    /// The focusable nodes in tab order (see `tab_order`).
    pub fn collect_focusable_nodes(&self) -> (r: Vec<usize>)
        requires
            self.wf(),
        ensures
            r@ == tab_order(*self),
    {
        let mut out: Vec<usize> = Vec::new();
        match self.root {
            Some(root) => {
                self.collect_focusable(root, &mut out);
                assert(out@ =~= tab_order(*self));
            },
            None => {},
        }
        out
    }
}

/// The first focusable node of the subtree at `i`, if any.
pub open spec fn first_focusable(t: RenderTree, i: int) -> Option<usize> {
    let o = focus_order(t, i);
    if o.len() > 0 { Some(o[0]) } else { None }
}

/// A node after its style is recomputed for its focus and hover state (as
/// `refresh_state_style` does).
pub open spec fn refreshed(n: RenderNode) -> RenderNode {
    let new_style = state_style(n.styles, n.focusable, n.focused, n.hovered);
    let applied = with_computed_style(n, new_style);
    if n.style != new_style { RenderNode { dirty: true, ..applied } } else { applied }
}

/// The nodes after focus moves from `from` to `to`: the node losing focus
/// is unfocused, then the node gaining it is focused, each with its style
/// recomputed.
pub open spec fn focus_moved(nodes: Seq<RenderNode>, from: Option<usize>, to: Option<usize>) -> Seq<RenderNode> {
    let a = match from {
        Some(o) => nodes.update(o as int, refreshed(RenderNode { focused: false, ..nodes[o as int] })),
        None => nodes,
    };
    match to {
        Some(n) => a.update(n as int, refreshed(RenderNode { focused: true, ..a[n as int] })),
        None => a,
    }
}

/// The nodes after the pointer moves from over `from` to over `to`.
pub open spec fn hover_moved(nodes: Seq<RenderNode>, from: Option<usize>, to: Option<usize>) -> Seq<RenderNode> {
    let a = match from {
        Some(o) => nodes.update(o as int, refreshed(RenderNode { hovered: false, ..nodes[o as int] })),
        None => nodes,
    };
    match to {
        Some(n) => a.update(n as int, refreshed(RenderNode { hovered: true, ..a[n as int] })),
        None => a,
    }
}

/// Which nodes' blur and focus handlers a change of focus calls.
#[derive(Debug, Clone, Copy, PartialEq, Eq, Structural)]
pub struct FocusChange {
    /// The node that lost focus
    pub blurred: Option<usize>,
    /// The node that gained focus
    pub focused: Option<usize>,
}

/// The position of the first `v` in `s`.
pub open spec fn first_index(s: Seq<usize>, v: usize) -> Option<int>
    decreases s.len(),
{
    if s.len() == 0 {
        None
    } else {
        match first_index(s.drop_last(), v) {
            Some(p) => Some(p),
            None => if s.last() == v { Some(s.len() - 1) } else { None },
        }
    }
}

proof fn lemma_first_index_in_range(s: Seq<usize>, v: usize)
    ensures
        first_index(s, v) matches Some(p) ==> 0 <= p < s.len() && s[p] == v,
    decreases s.len(),
{
    if s.len() > 0 {
        lemma_first_index_in_range(s.drop_last(), v);
    }
}

/// Where focus goes on "next": the tab-order node after the focused one
/// (wrapping), or the first when the focused node is not in the order.
pub open spec fn next_in_tab_order(t: RenderTree) -> Option<usize> {
    let order = tab_order(t);
    if order.len() == 0 {
        None
    } else {
        let pos = match t.focused {
            Some(f) => first_index(order, f),
            None => None,
        };
        Some(order[match pos {
            Some(p) => (p + 1) % (order.len() as int),
            None => 0,
        }])
    }
}

/// Where focus goes on "previous": the tab-order node before the focused
/// one (wrapping), or the last when the focused node is not in the order.
pub open spec fn prev_in_tab_order(t: RenderTree) -> Option<usize> {
    let order = tab_order(t);
    if order.len() == 0 {
        None
    } else {
        let pos = match t.focused {
            Some(f) => first_index(order, f),
            None => None,
        };
        Some(order[match pos {
            Some(p) => if p == 0 { order.len() - 1 } else { p - 1 },
            None => order.len() - 1,
        }])
    }
}

proof fn lemma_focus_order_in_tree(t: RenderTree, i: int)
    requires
        t.wf(),
    ensures
        forall|j: int| 0 <= j < focus_order(t, i).len() ==> (#[trigger] focus_order(t, i)[j]) < t.nodes@.len(),
    decreases t.nodes@.len() - i, 1int, 0int,
{
    if is_node(t, i) {
        lemma_focus_order_from_in_tree(t, i, 0);
        let a: Seq<usize> = if t.nodes@[i].focusable { seq![i as usize] } else { Seq::empty() };
        let b = focus_order_from(t, i, 0);
        assert(focus_order(t, i) == a + b);
        assert forall|j: int| 0 <= j < focus_order(t, i).len() implies (#[trigger] focus_order(t, i)[j]) < t.nodes@.len() by {
            if j < a.len() {
                assert(focus_order(t, i)[j] == a[j]);
            } else {
                assert(focus_order(t, i)[j] == b[j - a.len()]);
            }
        }
    }
}

proof fn lemma_focus_order_from_in_tree(t: RenderTree, i: int, k: int)
    requires
        t.wf(),
        is_node(t, i),
    ensures
        forall|j: int| 0 <= j < focus_order_from(t, i, k).len() ==> (#[trigger] focus_order_from(t, i, k)[j]) < t.nodes@.len(),
    decreases t.nodes@.len() - i, 0int, t.children@[i]@.len() - k,
{
    if 0 <= k < t.children@[i]@.len() {
        let c = t.children@[i]@[k] as int;
        lemma_focus_order_from_in_tree(t, i, k + 1);
        if i < c && c < t.nodes@.len() {
            lemma_focus_order_in_tree(t, c);
            let a = focus_order(t, c);
            let b = focus_order_from(t, i, k + 1);
            assert(focus_order_from(t, i, k) == a + b);
            assert forall|j: int| 0 <= j < focus_order_from(t, i, k).len() implies (#[trigger] focus_order_from(t, i, k)[j]) < t.nodes@.len() by {
                if j < a.len() {
                    assert(focus_order_from(t, i, k)[j] == a[j]);
                } else {
                    assert(focus_order_from(t, i, k)[j] == b[j - a.len()]);
                }
            }
        } else {
            assert(focus_order_from(t, i, k) == focus_order_from(t, i, k + 1));
        }
    }
}

impl RenderTree {
    /// Sets node `i`'s focus flag and recomputes its style.
    fn set_focus_flag(&mut self, i: usize, value: bool)
        requires
            old(self).wf(),
            i < old(self).nodes@.len(),
        ensures
            final(self).wf(),
            final(self).nodes@ == old(self).nodes@.update(i as int, refreshed(RenderNode { focused: value, ..old(self).nodes@[i as int] })),
            final(self).children == old(self).children,
            final(self).root == old(self).root,
            final(self).focused == old(self).focused,
            final(self).hovered == old(self).hovered,
            final(self).pending_focus_clear == old(self).pending_focus_clear,
    {
        self.nodes[i].focused = value;
        self.nodes[i].refresh_state_style();
        proof {
            assert forall|p: int, k: int| is_node(*self, p) && 0 <= k < kids(*self, p).len() implies p < #[trigger] kids(*self, p)[k] < self.nodes@.len() by {
                assert(kids(*self, p) == kids(*old(self), p));
            }
        }
    }

    /// Sets node `i`'s hover flag and recomputes its style.
    fn set_hover_flag(&mut self, i: usize, value: bool)
        requires
            old(self).wf(),
            i < old(self).nodes@.len(),
        ensures
            final(self).wf(),
            final(self).nodes@ == old(self).nodes@.update(i as int, refreshed(RenderNode { hovered: value, ..old(self).nodes@[i as int] })),
            final(self).children == old(self).children,
            final(self).root == old(self).root,
            final(self).focused == old(self).focused,
            final(self).hovered == old(self).hovered,
            final(self).pending_focus_clear == old(self).pending_focus_clear,
    {
        self.nodes[i].hovered = value;
        self.nodes[i].refresh_state_style();
        proof {
            assert forall|p: int, k: int| is_node(*self, p) && 0 <= k < kids(*self, p).len() implies p < #[trigger] kids(*self, p)[k] < self.nodes@.len() by {
                assert(kids(*self, p) == kids(*old(self), p));
            }
        }
    }

    fn first_focusable_in(&self, i: usize) -> (r: Option<usize>)
        requires
            self.wf(),
            i < self.nodes@.len(),
        ensures
            r == first_focusable(*self, i as int),
        decreases self.nodes@.len() - i, 1int,
    {
        if self.nodes[i].focusable {
            return Some(i);
        }
        let n = self.children[i].len();
        let mut k: usize = 0;
        while k < n
            invariant
                self.wf(),
                i < self.nodes@.len(),
                !self.nodes@[i as int].focusable,
                n == kids(*self, i as int).len(),
                k <= n,
                focus_order_from(*self, i as int, 0) == focus_order_from(*self, i as int, k as int),
            decreases n - k,
        {
            let c = self.children[i][k];
            assert(c == kids(*self, i as int)[k as int]);
            match self.first_focusable_in(c) {
                Some(f) => {
                    assert(focus_order(*self, i as int) =~= focus_order(*self, c as int) + focus_order_from(*self, i as int, k + 1));
                    return Some(f);
                },
                None => {},
            }
            assert(focus_order_from(*self, i as int, k as int) =~= focus_order_from(*self, i as int, k + 1));
            k = k + 1;
        }
        assert(focus_order(*self, i as int) =~= Seq::<usize>::empty());
        None
    }

    /// The first focusable node of the subtree at `node`, in depth-first
    /// order.
    pub fn find_first_focusable_in(&self, node: usize) -> (r: Option<usize>)
        requires
            self.wf(),
            node < self.nodes@.len(),
        ensures
            r == first_focusable(*self, node as int),
    {
        self.first_focusable_in(node)
    }

    /// The first focusable node of the tree, in depth-first order.
    pub fn find_first_focusable_global(&self) -> (r: Option<usize>)
        requires
            self.wf(),
        ensures
            r == (match self.root {
                Some(root) => first_focusable(*self, root as int),
                None => None,
            }),
    {
        match self.root {
            Some(root) => self.first_focusable_in(root),
            None => None,
        }
    }

    /// Moves focus to `node` (or clears it): unless `node` already has
    /// focus, the focused node is unfocused and `node` focused, each with
    /// its style recomputed (`focus_moved`), a pending clear is dropped, and
    /// the nodes whose blur and focus handlers are due are returned.
    pub fn set_focused_node(&mut self, node: Option<usize>) -> (change: FocusChange)
        requires
            old(self).wf(),
            node matches Some(n) ==> n < old(self).nodes@.len(),
        ensures
            final(self).wf(),
            (old(self).focused is Some && old(self).focused == node) ==> *final(self) == *old(self)
                && change == (FocusChange { blurred: None, focused: None }),
            !(old(self).focused is Some && old(self).focused == node) ==> {
                &&& final(self).nodes@ == focus_moved(old(self).nodes@, old(self).focused, node)
                &&& final(self).children == old(self).children
                &&& final(self).root == old(self).root
                &&& final(self).hovered == old(self).hovered
                &&& final(self).focused == node
                &&& !final(self).pending_focus_clear
                &&& change == (FocusChange { blurred: old(self).focused, focused: node })
            },
    {
        let same = match (self.focused, node) {
            (Some(a), Some(b)) => a == b,
            _ => false,
        };
        if same {
            return FocusChange { blurred: None, focused: None };
        }
        let previous = self.focused;
        match previous {
            Some(o) => self.set_focus_flag(o, false),
            None => {},
        }
        match node {
            Some(n) => self.set_focus_flag(n, true),
            None => {},
        }
        self.pending_focus_clear = false;
        self.focused = node;
        proof {
            assert forall|p: int, k: int| is_node(*self, p) && 0 <= k < kids(*self, p).len() implies p < #[trigger] kids(*self, p)[k] < self.nodes@.len() by {
                assert(kids(*self, p) == kids(*old(self), p));
            }
        }
        FocusChange { blurred: previous, focused: node }
    }

    /// Moves the pointer from over the hovered node to over `node`: unless
    /// it is the same node, the hovered node loses its hover and `node`
    /// gains it, each with its style recomputed (`hover_moved`).
    pub fn set_hovered_node(&mut self, node: Option<usize>)
        requires
            old(self).wf(),
            node matches Some(n) ==> n < old(self).nodes@.len(),
        ensures
            final(self).wf(),
            (old(self).hovered is Some && old(self).hovered == node) ==> *final(self) == *old(self),
            !(old(self).hovered is Some && old(self).hovered == node) ==> *final(self) == (RenderTree {
                nodes: final(self).nodes,
                hovered: node,
                ..*old(self)
            }) && final(self).nodes@ == hover_moved(old(self).nodes@, old(self).hovered, node),
    {
        let same = match (self.hovered, node) {
            (Some(a), Some(b)) => a == b,
            _ => false,
        };
        if same {
            return;
        }
        match self.hovered {
            Some(o) => self.set_hover_flag(o, false),
            None => {},
        }
        match node {
            Some(n) => self.set_hover_flag(n, true),
            None => {},
        }
        self.hovered = node;
        proof {
            assert forall|p: int, k: int| is_node(*self, p) && 0 <= k < kids(*self, p).len() implies p < #[trigger] kids(*self, p)[k] < self.nodes@.len() by {
                assert(kids(*self, p) == kids(*old(self), p));
            }
        }
    }

    /// The position of the focused node in `order`.
    fn position_of(order: &Vec<usize>, v: usize) -> (r: Option<usize>)
        ensures
            r matches Some(p) ==> first_index(order@, v) == Some(p as int),
            r is None ==> first_index(order@, v) is None,
    {
        let n = order.len();
        let mut k: usize = 0;
        assert(order@.take(0) =~= Seq::<usize>::empty());
        while k < n
            invariant
                n == order@.len(),
                k <= n,
                first_index(order@.take(k as int), v) is None,
            decreases n - k,
        {
            assert(order@.take(k + 1).drop_last() =~= order@.take(k as int));
            if order[k] == v {
                proof {
                    assert(first_index(order@.take(k + 1), v) == Some(k as int));
                    lemma_first_index_prefix(order@, v, k + 1);
                }
                return Some(k);
            }
            k = k + 1;
        }
        assert(order@.take(n as int) =~= order@);
        None
    }

    /// Moves focus to the next focusable node in tab order (see
    /// `next_in_tab_order`); nothing changes when there is none.
    pub fn focus_next(&mut self) -> (change: FocusChange)
        requires
            old(self).wf(),
        ensures
            final(self).wf(),
            next_in_tab_order(*old(self)) is None ==> *final(self) == *old(self)
                && change == (FocusChange { blurred: None, focused: None }),
            next_in_tab_order(*old(self)) matches Some(n) ==> {
                let moved = !(old(self).focused == Some(n));
                &&& moved ==> final(self).nodes@ == focus_moved(old(self).nodes@, old(self).focused, Some(n))
                    && final(self).focused == Some(n) && !final(self).pending_focus_clear
                    && change == (FocusChange { blurred: old(self).focused, focused: Some(n) })
                &&& !moved ==> *final(self) == *old(self) && change == (FocusChange { blurred: None, focused: None })
                &&& final(self).children == old(self).children
                &&& final(self).root == old(self).root
                &&& final(self).hovered == old(self).hovered
            },
    {
        let order = self.collect_focusable_nodes();
        if order.len() == 0 {
            return FocusChange { blurred: None, focused: None };
        }
        let pos = match self.focused {
            Some(f) => Self::position_of(&order, f),
            None => None,
        };
        proof {
            lemma_focus_order_in_tree(*self, self.root.unwrap() as int);
            match self.focused {
                Some(f) => lemma_first_index_in_range(order@, f),
                None => {},
            }
        }
        let next = match pos {
            Some(p) => (p + 1) % order.len(),
            None => 0,
        };
        self.set_focused_node(Some(order[next]))
    }

    /// Moves focus to the previous focusable node in tab order (see
    /// `prev_in_tab_order`); nothing changes when there is none.
    pub fn focus_prev(&mut self) -> (change: FocusChange)
        requires
            old(self).wf(),
        ensures
            final(self).wf(),
            prev_in_tab_order(*old(self)) is None ==> *final(self) == *old(self)
                && change == (FocusChange { blurred: None, focused: None }),
            prev_in_tab_order(*old(self)) matches Some(n) ==> {
                let moved = !(old(self).focused == Some(n));
                &&& moved ==> final(self).nodes@ == focus_moved(old(self).nodes@, old(self).focused, Some(n))
                    && final(self).focused == Some(n) && !final(self).pending_focus_clear
                    && change == (FocusChange { blurred: old(self).focused, focused: Some(n) })
                &&& !moved ==> *final(self) == *old(self) && change == (FocusChange { blurred: None, focused: None })
                &&& final(self).children == old(self).children
                &&& final(self).root == old(self).root
                &&& final(self).hovered == old(self).hovered
            },
    {
        let order = self.collect_focusable_nodes();
        if order.len() == 0 {
            return FocusChange { blurred: None, focused: None };
        }
        let pos = match self.focused {
            Some(f) => Self::position_of(&order, f),
            None => None,
        };
        proof {
            lemma_focus_order_in_tree(*self, self.root.unwrap() as int);
            match self.focused {
                Some(f) => lemma_first_index_in_range(order@, f),
                None => {},
            }
        }
        let prev = match pos {
            Some(p) => if p == 0 { order.len() - 1 } else { p - 1 },
            None => order.len() - 1,
        };
        self.set_focused_node(Some(order[prev]))
    }
}

/// The first `v` of a prefix of `s` is the first `v` of `s`.
proof fn lemma_first_index_prefix(s: Seq<usize>, v: usize, k: int)
    requires
        0 <= k <= s.len(),
        first_index(s.take(k), v) is Some,
    ensures
        first_index(s, v) == first_index(s.take(k), v),
    decreases s.len() - k,
{
    if k < s.len() {
        assert(s.take(k + 1).drop_last() =~= s.take(k));
        lemma_first_index_prefix(s, v, k + 1);
    } else {
        assert(s.take(k) =~= s);
    }
}

/// Whether a node draws plain text (clicks pass through it).
pub open spec fn is_text_node(n: RenderNode) -> bool {
    n.node_type is Text || n.node_type is TextWrapped
}

/// The row a node is hit-tested at: its row less a positive scroll (held
/// at 0).
pub open spec fn hit_row(n: RenderNode, scroll: int) -> int {
    if scroll > 0 { if n.y > scroll { n.y - scroll } else { 0 } } else { n.y as int }
}

/// The rectangle a node is hit-tested in.
pub open spec fn hit_rect(n: RenderNode, scroll: int) -> Rect {
    Rect { x: n.x, y: hit_row(n, scroll) as u16, width: n.width, height: n.height }
}

/// Whether the point lies on the node and within the clip, if there is one.
pub open spec fn hit_clickable(n: RenderNode, x: int, y: int, clip: Option<Rect>, scroll: int) -> bool {
    inside(hit_rect(n, scroll), x, y) && match clip {
        Some(c) => inside(c, x, y),
        None => true,
    }
}

/// The clip a node's children are hit-tested in: a clipping node's
/// rectangle within the clip, otherwise the clip unchanged.
pub open spec fn hit_child_clip(n: RenderNode, clip: Option<Rect>, scroll: int) -> Option<Rect> {
    if clips(n.style) {
        Some(match clip {
            Some(c) => common(hit_rect(n, scroll), c),
            None => hit_rect(n, scroll),
        })
    } else {
        clip
    }
}

/// The scroll a node's children are hit-tested with.
pub open spec fn hit_child_scroll(n: RenderNode, scroll: int) -> int {
    if n.scrollable { scroll + as_i16(n.scroll_y) } else { scroll }
}

/// The node at `(x, y)` in the subtree at `i`: the first child subtree (in
/// order) that has one, skipping text found there, else `i` itself when
/// the point is on it, within the clip, and it is not text.
pub open spec fn hit(t: RenderTree, i: int, x: int, y: int, clip: Option<Rect>, scroll: int) -> Option<usize>
    decreases t.nodes@.len() - i, 1int, 0int,
{
    if is_node(t, i) && i < t.children@.len() {
        let n = t.nodes@[i];
        match hit_from(t, i, 0, x, y, hit_child_clip(n, clip, scroll), hit_child_scroll(n, scroll)) {
            Some(f) => Some(f),
            None => if hit_clickable(n, x, y, clip, scroll) && !is_text_node(n) { Some(i as usize) } else { None },
        }
    } else {
        None
    }
}

/// The node at `(x, y)` in the subtrees of node `i`'s children from child
/// `k` on.
pub open spec fn hit_from(t: RenderTree, i: int, k: int, x: int, y: int, clip: Option<Rect>, scroll: int) -> Option<usize>
    decreases t.nodes@.len() - i, 0int, t.children@[i]@.len() - k,
{
    if is_node(t, i) && i < t.children@.len() && 0 <= k < t.children@[i]@.len() {
        let c = t.children@[i]@[k] as int;
        if i < c && c < t.nodes@.len() {
            match hit(t, c, x, y, clip, scroll) {
                Some(f) => if f < t.nodes@.len() && is_text_node(t.nodes@[f as int]) {
                    hit_from(t, i, k + 1, x, y, clip, scroll)
                } else {
                    Some(f)
                },
                None => hit_from(t, i, k + 1, x, y, clip, scroll),
            }
        } else {
            hit_from(t, i, k + 1, x, y, clip, scroll)
        }
    } else {
        None
    }
}

/// Whether every scroll offset met while hit-testing the subtree at `i`
/// fits in `i16`.
pub open spec fn scroll_ok(t: RenderTree, i: int, scroll: int) -> bool
    decreases t.nodes@.len() - i, 1int, 0int,
{
    if is_node(t, i) && i < t.children@.len() {
        let n = t.nodes@[i];
        &&& -32768 <= hit_child_scroll(n, scroll) <= 32767
        &&& scroll_ok_from(t, i, 0, hit_child_scroll(n, scroll))
    } else {
        true
    }
}

/// Whether every scroll offset met while hit-testing the subtrees of node
/// `i`'s children from child `k` on fits in `i16`.
pub open spec fn scroll_ok_from(t: RenderTree, i: int, k: int, scroll: int) -> bool
    decreases t.nodes@.len() - i, 0int, t.children@[i]@.len() - k,
{
    if is_node(t, i) && i < t.children@.len() && 0 <= k < t.children@[i]@.len() {
        let c = t.children@[i]@[k] as int;
        &&& (i < c && c < t.nodes@.len() ==> scroll_ok(t, c, scroll))
        &&& scroll_ok_from(t, i, k + 1, scroll)
    } else {
        true
    }
}

/// The nodes of the tree in depth-first order.
pub open spec fn tree_order(t: RenderTree) -> Seq<usize> {
    match t.root {
        Some(r) => preorder(t, r as int),
        None => Seq::empty(),
    }
}

/// The rectangles of the nodes in `order` that are marked for drawing.
pub open spec fn dirty_rects(t: RenderTree, order: Seq<usize>) -> Seq<Rect>
    decreases order.len(),
{
    if order.len() == 0 {
        Seq::empty()
    } else {
        let prev = dirty_rects(t, order.drop_last());
        let n = t.nodes@[order.last() as int];
        if n.dirty { prev.push(Rect { x: n.x, y: n.y, width: n.width, height: n.height }) } else { prev }
    }
}

proof fn lemma_preorder_in_tree(t: RenderTree, i: int)
    requires
        t.wf(),
    ensures
        forall|j: int| 0 <= j < preorder(t, i).len() ==> (#[trigger] preorder(t, i)[j]) < t.nodes@.len(),
    decreases t.nodes@.len() - i, 1int, 0int,
{
    if is_node(t, i) {
        lemma_preorder_from_in_tree(t, i, 0);
        let a: Seq<usize> = seq![i as usize];
        let b = preorder_from(t, i, 0);
        assert(preorder(t, i) == a + b);
        assert forall|j: int| 0 <= j < preorder(t, i).len() implies (#[trigger] preorder(t, i)[j]) < t.nodes@.len() by {
            if j < a.len() {
                assert(preorder(t, i)[j] == a[j]);
            } else {
                assert(preorder(t, i)[j] == b[j - a.len()]);
            }
        }
    }
}

proof fn lemma_preorder_from_in_tree(t: RenderTree, i: int, k: int)
    requires
        t.wf(),
        is_node(t, i),
    ensures
        forall|j: int| 0 <= j < preorder_from(t, i, k).len() ==> (#[trigger] preorder_from(t, i, k)[j]) < t.nodes@.len(),
    decreases t.nodes@.len() - i, 0int, t.children@[i]@.len() - k,
{
    if 0 <= k < t.children@[i]@.len() {
        let c = t.children@[i]@[k] as int;
        lemma_preorder_from_in_tree(t, i, k + 1);
        if i < c && c < t.nodes@.len() {
            lemma_preorder_in_tree(t, c);
            let a = preorder(t, c);
            let b = preorder_from(t, i, k + 1);
            assert(preorder_from(t, i, k) == a + b);
            assert forall|j: int| 0 <= j < preorder_from(t, i, k).len() implies (#[trigger] preorder_from(t, i, k)[j]) < t.nodes@.len() by {
                if j < a.len() {
                    assert(preorder_from(t, i, k)[j] == a[j]);
                } else {
                    assert(preorder_from(t, i, k)[j] == b[j - a.len()]);
                }
            }
        } else {
            assert(preorder_from(t, i, k) == preorder_from(t, i, k + 1));
        }
    }
}

impl RenderTree {
    fn hit_node(&self, i: usize, x: u16, y: u16, clip: Option<Rect>, scroll: i16) -> (r: Option<usize>)
        requires
            self.wf(),
            i < self.nodes@.len(),
            scroll_ok(*self, i as int, scroll as int),
        ensures
            r == hit(*self, i as int, x as int, y as int, clip, scroll as int),
            r matches Some(f) ==> f < self.nodes@.len(),
        decreases self.nodes@.len() - i, 1int,
    {
        let node = &self.nodes[i];
        let row: u16 = if scroll > 0 { node.y.saturating_sub(scroll as u16) } else { node.y };
        let bounds = Rect { x: node.x, y: row, width: node.width, height: node.height };
        let clickable = bounds.contains_point(x, y) && match clip {
            Some(c) => c.contains_point(x, y),
            None => true,
        };
        let clipping = match &node.style {
            Some(s) => match s.overflow {
                Some(Overflow::Hidden) => true,
                Some(Overflow::Scroll) => true,
                Some(Overflow::Auto) => true,
                _ => false,
            },
            None => false,
        };
        let child_clip = if clipping {
            Some(match clip {
                Some(c) => bounds.intersection(&c),
                None => bounds,
            })
        } else {
            clip
        };
        let child_scroll: i16 = if node.scrollable {
            let own: i16 = if node.scroll_y < 32768 { node.scroll_y as i16 } else { (node.scroll_y as i32 - 65536) as i16 };
            scroll + own
        } else {
            scroll
        };
        let text = match &node.node_type {
            RenderNodeType::Text(_) => true,
            RenderNodeType::TextWrapped(_) => true,
            _ => false,
        };
        let n = self.children[i].len();
        let mut k: usize = 0;
        while k < n
            invariant
                self.wf(),
                i < self.nodes@.len(),
                n == kids(*self, i as int).len(),
                k <= n,
                child_clip == hit_child_clip(self.nodes@[i as int], clip, scroll as int),
                child_scroll == hit_child_scroll(self.nodes@[i as int], scroll as int),
                scroll_ok_from(*self, i as int, k as int, child_scroll as int),
                hit_from(*self, i as int, 0, x as int, y as int, child_clip, child_scroll as int)
                    == hit_from(*self, i as int, k as int, x as int, y as int, child_clip, child_scroll as int),
            decreases n - k,
        {
            let c = self.children[i][k];
            assert(c == kids(*self, i as int)[k as int]);
            match self.hit_node(c, x, y, child_clip, child_scroll) {
                Some(f) => {
                    let found_text = match &self.nodes[f].node_type {
                        RenderNodeType::Text(_) => true,
                        RenderNodeType::TextWrapped(_) => true,
                        _ => false,
                    };
                    if !found_text {
                        return Some(f);
                    }
                },
                None => {},
            }
            k = k + 1;
        }
        if clickable && !text {
            Some(i)
        } else {
            None
        }
    }

    /// The node at `(x, y)`, for a click: the deepest node under the point
    /// whose clipping ancestors let it show there, children before parents,
    /// text never (see `hit`).
    pub fn find_node_at(&self, x: u16, y: u16) -> (r: Option<usize>)
        requires
            self.wf(),
            self.root matches Some(root) ==> scroll_ok(*self, root as int, 0),
        ensures
            r == (match self.root {
                Some(root) => hit(*self, root as int, x as int, y as int, None, 0),
                None => None,
            }),
    {
        match self.root {
            Some(root) => self.hit_node(root, x, y, None, 0),
            None => None,
        }
    }

    /// The nodes of the subtree at `i` in depth-first order.
    fn collect_subtree(&self, i: usize, out: &mut Vec<usize>)
        requires
            self.wf(),
            i < self.nodes@.len(),
        ensures
            final(out)@ == old(out)@ + preorder(*self, i as int),
        decreases self.nodes@.len() - i, 1int,
    {
        out.push(i);
        let ghost mid = out@;
        let n = self.children[i].len();
        let mut k: usize = 0;
        while k < n
            invariant
                self.wf(),
                i < self.nodes@.len(),
                n == kids(*self, i as int).len(),
                k <= n,
                mid + preorder_from(*self, i as int, 0) == out@ + preorder_from(*self, i as int, k as int),
            decreases n - k,
        {
            let c = self.children[i][k];
            assert(c == kids(*self, i as int)[k as int]);
            let ghost before = out@;
            self.collect_subtree(c, out);
            assert(before + (preorder(*self, c as int) + preorder_from(*self, i as int, k + 1))
                =~= (before + preorder(*self, c as int)) + preorder_from(*self, i as int, k + 1));
            k = k + 1;
        }
        assert(preorder_from(*self, i as int, n as int) =~= Seq::<usize>::empty());
        assert(out@ =~= old(out)@ + preorder(*self, i as int));
    }

    /// The nodes of the tree in depth-first order (see `tree_order`).
    pub fn collect_nodes(&self) -> (r: Vec<usize>)
        requires
            self.wf(),
        ensures
            r@ == tree_order(*self),
            forall|j: int| 0 <= j < r@.len() ==> (#[trigger] r@[j]) < self.nodes@.len(),
    {
        let mut out: Vec<usize> = Vec::new();
        match self.root {
            Some(root) => {
                self.collect_subtree(root, &mut out);
                assert(out@ =~= tree_order(*self));
                proof {
                    lemma_preorder_in_tree(*self, root as int);
                }
            },
            None => {},
        }
        out
    }

    /// The regions to redraw: the rectangles of the tree's nodes marked for
    /// drawing, in depth-first order, merged (see `merge_regions`).
    pub fn collect_dirty_regions(&self) -> (r: Vec<Rect>)
        requires
            self.wf(),
        ensures
            r@ == merged_regions(dirty_rects(*self, tree_order(*self))),
    {
        let order = self.collect_nodes();
        let n = order.len();
        let mut rects: Vec<Rect> = Vec::new();
        let mut k: usize = 0;
        assert(order@.take(0) =~= Seq::<usize>::empty());
        while k < n
            invariant
                self.wf(),
                n == order@.len(),
                k <= n,
                forall|j: int| 0 <= j < order@.len() ==> (#[trigger] order@[j]) < self.nodes@.len(),
                rects@ == dirty_rects(*self, order@.take(k as int)),
            decreases n - k,
        {
            let i = order[k];
            assert(order@.take(k + 1).drop_last() =~= order@.take(k as int));
            let node = &self.nodes[i];
            if node.dirty {
                rects.push(node.bounds());
            }
            k = k + 1;
        }
        assert(order@.take(n as int) =~= order@);
        merge_regions(rects)
    }

    /// Marks every node of the tree as drawn.
    pub fn clear_all_dirty(&mut self)
        requires
            old(self).wf(),
        ensures
            final(self).wf(),
            final(self).nodes@.len() == old(self).nodes@.len(),
            forall|i: int| 0 <= i < old(self).nodes@.len() ==> #[trigger] final(self).nodes@[i] == (if tree_order(*old(self)).contains(i as usize) {
                RenderNode { dirty: false, ..old(self).nodes@[i] }
            } else {
                old(self).nodes@[i]
            }),
            final(self).children == old(self).children,
            final(self).root == old(self).root,
            final(self).focused == old(self).focused,
            final(self).hovered == old(self).hovered,
            final(self).pending_focus_clear == old(self).pending_focus_clear,
    {
        let order = self.collect_nodes();
        let ghost start = self.nodes@;
        let total = self.nodes.len();
        let n = order.len();
        let mut k: usize = 0;
        while k < n
            invariant
                self.wf(),
                n == order@.len(),
                k <= n,
                order@ == tree_order(*old(self)),
                forall|j: int| 0 <= j < order@.len() ==> (#[trigger] order@[j]) < self.nodes@.len(),
                self.nodes@.len() == start.len(),
                total == start.len(),
                start == old(self).nodes@,
                self.children == old(self).children,
                self.root == old(self).root,
                self.focused == old(self).focused,
                self.hovered == old(self).hovered,
                self.pending_focus_clear == old(self).pending_focus_clear,
                forall|i: int| 0 <= i < start.len() ==> #[trigger] self.nodes@[i] == (if order@.take(k as int).contains(i as usize) {
                    RenderNode { dirty: false, ..start[i] }
                } else {
                    start[i]
                }),
            decreases n - k,
        {
            let i = order[k];
            let ghost before = *self;
            self.nodes[i].dirty = false;
            proof {
                let pre = order@.take(k as int);
                let pre1 = order@.take(k + 1);
                assert(pre1 =~= pre.push(i));
                assert forall|p: int| 0 <= p < start.len() implies #[trigger] self.nodes@[p] == (if pre1.contains(p as usize) {
                    RenderNode { dirty: false, ..start[p] }
                } else {
                    start[p]
                }) by {
                    if p == i as int {
                        assert(pre1[k as int] == i);
                    } else {
                        assert(pre1[k as int] == i);
                        assert(p as usize != i);
                        if pre1.contains(p as usize) {
                            let q = choose|q: int| 0 <= q < pre1.len() && #[trigger] pre1[q] == p as usize;
                            assert(q < k);
                            assert(pre[q] == p as usize);
                        }
                        if pre.contains(p as usize) {
                            let q = choose|q: int| 0 <= q < pre.len() && #[trigger] pre[q] == p as usize;
                            assert(pre1[q] == p as usize);
                        }
                    }
                }
                assert forall|p: int, j: int| is_node(*self, p) && 0 <= j < kids(*self, p).len() implies p < #[trigger] kids(*self, p)[j] < self.nodes@.len() by {
                    assert(kids(*self, p) == kids(before, p));
                    assert(is_node(before, p));
                }
            }
            k = k + 1;
        }
        assert(order@.take(n as int) =~= order@);
    }
}

impl Default for RenderTree {
    fn default() -> (t: Self)
        ensures
            t.wf(),
            t.nodes@.len() == 0,
            t.root is None,
            t.focused is None,
            t.hovered is None,
            !t.pending_focus_clear,
    {
        RenderTree::new()
    }
}

/// Whether two trees have the same links, root, and focusable nodes.
pub open spec fn same_tab_structure(a: RenderTree, b: RenderTree) -> bool {
    &&& a.children@ == b.children@
    &&& a.root == b.root
    &&& a.nodes@.len() == b.nodes@.len()
    &&& forall|j: int| 0 <= j < a.nodes@.len() ==> (#[trigger] a.nodes@[j]).focusable == b.nodes@[j].focusable
}

proof fn lemma_focus_order_same(a: RenderTree, b: RenderTree, i: int)
    requires
        same_tab_structure(a, b),
    ensures
        focus_order(a, i) == focus_order(b, i),
    decreases a.nodes@.len() - i, 1int, 0int,
{
    if is_node(a, i) && i < a.children@.len() {
        lemma_focus_order_from_same(a, b, i, 0);
        assert(a.nodes@[i].focusable == b.nodes@[i].focusable);
    }
}

proof fn lemma_focus_order_from_same(a: RenderTree, b: RenderTree, i: int, k: int)
    requires
        same_tab_structure(a, b),
        is_node(a, i),
        i < a.children@.len(),
    ensures
        focus_order_from(a, i, k) == focus_order_from(b, i, k),
    decreases a.nodes@.len() - i, 0int, a.children@[i]@.len() - k,
{
    if 0 <= k < a.children@[i]@.len() {
        let c = a.children@[i]@[k] as int;
        lemma_focus_order_from_same(a, b, i, k + 1);
        if i < c && c < a.nodes@.len() {
            lemma_focus_order_same(a, b, c);
        }
    }
}

/// Moving focus between nodes changes no node's focusability.
pub proof fn lemma_focus_moved_keeps_focusable(nodes: Seq<RenderNode>, from: Option<usize>, to: Option<usize>)
    requires
        from matches Some(o) ==> o < nodes.len(),
        to matches Some(n) ==> n < nodes.len(),
    ensures
        focus_moved(nodes, from, to).len() == nodes.len(),
        forall|j: int| 0 <= j < nodes.len() ==> (#[trigger] focus_moved(nodes, from, to)[j]).focusable == nodes[j].focusable,
{
}

/// Whether no node appears twice in `s`.
pub open spec fn no_repeats(s: Seq<usize>) -> bool {
    forall|i: int, j: int| 0 <= i < j < s.len() ==> s[i] != s[j]
}

proof fn lemma_first_index_of_unique(s: Seq<usize>, q: int)
    requires
        no_repeats(s),
        0 <= q < s.len(),
    ensures
        first_index(s, s[q]) == Some(q),
    decreases s.len(),
{
    let d = s.drop_last();
    if q < s.len() - 1 {
        assert(no_repeats(d));
        lemma_first_index_of_unique(d, q);
        assert(d[q] == s[q]);
    } else {
        lemma_first_index_absent(d, s[q]);
    }
}

proof fn lemma_first_index_absent(s: Seq<usize>, v: usize)
    requires
        forall|i: int| 0 <= i < s.len() ==> s[i] != v,
    ensures
        first_index(s, v) is None,
    decreases s.len(),
{
    if s.len() > 0 {
        lemma_first_index_absent(s.drop_last(), v);
    }
}

/// Moving focus to the next node and then back to the previous one
/// returns it to where it was, when every focusable node appears once in
/// tab order and the focused node is one of them: whatever the move did to
/// the nodes' styles, the links, root and focusable nodes are unchanged.
pub proof fn lemma_focus_next_then_prev(t: RenderTree, moved: RenderTree)
    requires
        t.wf(),
        no_repeats(tab_order(t)),
        t.focused matches Some(f) && tab_order(t).contains(f),
        same_tab_structure(t, moved),
        moved.focused == next_in_tab_order(t),
    ensures
        prev_in_tab_order(moved) == t.focused,
{
    let o = tab_order(t);
    match t.root {
        Some(r) => lemma_focus_order_same(t, moved, r as int),
        None => {},
    }
    assert(tab_order(moved) == o);
    let f = t.focused.unwrap();
    let p0 = choose|p: int| 0 <= p < o.len() && o[p] == f;
    lemma_first_index_of_unique(o, p0);
    let n = o.len() as int;
    let q = (p0 + 1) % n;
    assert(0 <= q < n);
    lemma_first_index_of_unique(o, q);
    assert(moved.focused == Some(o[q]));
    let back: int = if q == 0 { n - 1 } else { q - 1 };
    if p0 + 1 < n {
        assert(q == p0 + 1) by (nonlinear_arith)
            requires
                q == (p0 + 1) % n,
                0 <= p0 + 1 < n,
        ;
    } else {
        assert(q == 0) by (nonlinear_arith)
            requires
                q == (p0 + 1) % n,
                p0 + 1 == n,
                n > 0,
        ;
    }
    assert(back == p0);
}

/// Moving focus back and then forward again returns it to where it was,
/// under the same conditions.
pub proof fn lemma_focus_prev_then_next(t: RenderTree, moved: RenderTree)
    requires
        t.wf(),
        no_repeats(tab_order(t)),
        t.focused matches Some(f) && tab_order(t).contains(f),
        same_tab_structure(t, moved),
        moved.focused == prev_in_tab_order(t),
    ensures
        next_in_tab_order(moved) == t.focused,
{
    let o = tab_order(t);
    match t.root {
        Some(r) => lemma_focus_order_same(t, moved, r as int),
        None => {},
    }
    assert(tab_order(moved) == o);
    let f = t.focused.unwrap();
    let p0 = choose|p: int| 0 <= p < o.len() && o[p] == f;
    lemma_first_index_of_unique(o, p0);
    let n = o.len() as int;
    let q: int = if p0 == 0 { n - 1 } else { p0 - 1 };
    lemma_first_index_of_unique(o, q);
    assert(moved.focused == Some(o[q]));
    if p0 == 0 {
        assert((q + 1) % n == 0) by (nonlinear_arith)
            requires
                q + 1 == n,
                n > 0,
        ;
    } else {
        assert((q + 1) % n == q + 1) by (nonlinear_arith)
            requires
                0 <= q + 1 < n,
        ;
    }
    assert((q + 1) % n == p0);
}

impl RenderTree {
    /// Whether the tree is well formed (see `wf`).
    pub fn is_well_formed(&self) -> (b: bool)
        ensures
            b == self.wf(),
    {
        let len = self.nodes.len();
        if self.children.len() != len {
            return false;
        }
        match self.root {
            Some(r) => if r >= len { return false; },
            None => {},
        }
        match self.focused {
            Some(f) => if f >= len { return false; },
            None => {},
        }
        match self.hovered {
            Some(h) => if h >= len { return false; },
            None => {},
        }
        let mut i: usize = 0;
        while i < len
            invariant
                len == self.nodes@.len(),
                self.children@.len() == len,
                i <= len,
                forall|p: int, k: int| 0 <= p < i && 0 <= k < kids(*self, p).len() ==> p < #[trigger] kids(*self, p)[k] < len,
            decreases len - i,
        {
            let m = self.children[i].len();
            let mut k: usize = 0;
            while k < m
                invariant
                    len == self.nodes@.len(),
                    self.children@.len() == len,
                    i < len,
                    m == kids(*self, i as int).len(),
                    k <= m,
                    forall|p: int, j: int| 0 <= p < i && 0 <= j < kids(*self, p).len() ==> p < #[trigger] kids(*self, p)[j] < len,
                    forall|j: int| 0 <= j < k ==> i < #[trigger] kids(*self, i as int)[j] < len,
                decreases m - k,
            {
                let c = self.children[i][k];
                assert(c == kids(*self, i as int)[k as int]);
                if c <= i || c >= len {
                    return false;
                }
                k = k + 1;
            }
            i = i + 1;
        }
        true
    }

    fn scroll_fits(&self, i: usize, scroll: i16) -> (b: bool)
        requires
            self.wf(),
            i < self.nodes@.len(),
        ensures
            b == scroll_ok(*self, i as int, scroll as int),
        decreases self.nodes@.len() - i, 1int,
    {
        let node = &self.nodes[i];
        let child_scroll: i32 = if node.scrollable {
            let own: i32 = if node.scroll_y < 32768 { node.scroll_y as i32 } else { node.scroll_y as i32 - 65536 };
            scroll as i32 + own
        } else {
            scroll as i32
        };
        if child_scroll < -32768 || child_scroll > 32767 {
            return false;
        }
        let cs = child_scroll as i16;
        let n = self.children[i].len();
        let mut k: usize = 0;
        while k < n
            invariant
                self.wf(),
                i < self.nodes@.len(),
                n == kids(*self, i as int).len(),
                k <= n,
                cs == hit_child_scroll(self.nodes@[i as int], scroll as int),
                scroll_ok_from(*self, i as int, 0, cs as int) == scroll_ok_from(*self, i as int, k as int, cs as int),
            decreases n - k,
        {
            let c = self.children[i][k];
            assert(c == kids(*self, i as int)[k as int]);
            if !self.scroll_fits(c, cs) {
                return false;
            }
            k = k + 1;
        }
        true
    }

    /// Whether hit-testing from the root keeps every scroll offset within
    /// `i16` (see `scroll_ok`), so that `find_node_at` may be called.
    pub fn hit_test_fits(&self) -> (b: bool)
        requires
            self.wf(),
        ensures
            b == (self.root matches Some(root) ==> scroll_ok(*self, root as int, 0)),
    {
        match self.root {
            Some(root) => self.scroll_fits(root, 0),
            None => true,
        }
    }
}

/// The direction a node stacks its children in: its style's, else
/// vertical.
pub open spec fn layout_direction(n: RenderNode) -> Direction {
    match n.style {
        Some(s) => match s.direction {
            Some(d) => d,
            None => Direction::Vertical,
        },
        None => Direction::Vertical,
    }
}

/// Where a child goes when its parent stacks it `offset` cells along the
/// direction from the parent's content corner (inside padding and border).
pub open spec fn stack_origin(p: RenderNode, direction: Direction, offset: int) -> (int, int) {
    let pad = padding_of(p.style);
    let bo = border_offset_of(p.style);
    match direction {
        Direction::Vertical => (p.x + pad.left + bo, p.y + pad.top + bo + offset),
        Direction::Horizontal => (p.x + pad.left + bo + offset, p.y + pad.top + bo),
    }
}

/// The nodes after the subtree at `i` is laid out by stacking, for the
/// children lists `ch`: its children in its own direction (see
/// `stacked_children`); `None` when a coordinate passes `u16::MAX`.
pub open spec fn laid_out(ch: Seq<Vec<usize>>, i: int, nodes: Seq<RenderNode>) -> Option<Seq<RenderNode>>
    decreases ch.len() - i, 1int, 0int,
{
    if 0 <= i < ch.len() && nodes.len() == ch.len() {
        stacked_children(ch, i, layout_direction(nodes[i]), 0, nodes, 0)
    } else {
        Some(nodes)
    }
}

/// The nodes after the children of node `i` from child `k` on are stacked
/// in `direction` from `offset` on: each is placed at `stack_origin`, the
/// offset grows by its height (vertically) or width (horizontally), and
/// its own subtree is laid out.
pub open spec fn stacked_children(ch: Seq<Vec<usize>>, i: int, direction: Direction, k: int, nodes: Seq<RenderNode>, offset: int) -> Option<Seq<RenderNode>>
    decreases ch.len() - i, 0int, ch[i]@.len() - k,
{
    if 0 <= i < ch.len() && 0 <= k < ch[i]@.len() && nodes.len() == ch.len() {
        let c = ch[i]@[k] as int;
        if i < c && c < ch.len() {
            let (x, y) = stack_origin(nodes[i], direction, offset);
            if x > 65535 || y > 65535 {
                None
            } else {
                let placed = nodes.update(c, RenderNode { x: x as u16, y: y as u16, ..nodes[c] });
                let grow: int = match direction {
                    Direction::Vertical => placed[c].height as int,
                    Direction::Horizontal => placed[c].width as int,
                };
                if offset + grow > 65535 {
                    None
                } else {
                    match laid_out(ch, c, placed) {
                        None => None,
                        Some(after) => stacked_children(ch, i, direction, k + 1, after, offset + grow),
                    }
                }
            }
        } else {
            stacked_children(ch, i, direction, k + 1, nodes, offset)
        }
    } else {
        Some(nodes)
    }
}

/// Laying out the subtree at `i` leaves the nodes up to `i` as they were.
proof fn lemma_laid_out_keeps_front(ch: Seq<Vec<usize>>, i: int, nodes: Seq<RenderNode>)
    requires
        laid_out(ch, i, nodes) is Some,
    ensures
        laid_out(ch, i, nodes).unwrap().len() == nodes.len(),
        forall|j: int| 0 <= j <= i && j < nodes.len() ==> #[trigger] laid_out(ch, i, nodes).unwrap()[j] == nodes[j],
    decreases ch.len() - i, 1int, 0int,
{
    if 0 <= i < ch.len() && nodes.len() == ch.len() {
        lemma_stacked_keeps_front(ch, i, layout_direction(nodes[i]), 0, nodes, 0);
    }
}

proof fn lemma_stacked_keeps_front(ch: Seq<Vec<usize>>, i: int, direction: Direction, k: int, nodes: Seq<RenderNode>, offset: int)
    requires
        stacked_children(ch, i, direction, k, nodes, offset) is Some,
    ensures
        stacked_children(ch, i, direction, k, nodes, offset).unwrap().len() == nodes.len(),
        forall|j: int| 0 <= j <= i && j < nodes.len() ==> #[trigger] stacked_children(ch, i, direction, k, nodes, offset).unwrap()[j] == nodes[j],
    decreases ch.len() - i, 0int, ch[i]@.len() - k,
{
    if 0 <= i < ch.len() && 0 <= k < ch[i]@.len() && nodes.len() == ch.len() {
        let c = ch[i]@[k] as int;
        if i < c && c < ch.len() {
            let (x, y) = stack_origin(nodes[i], direction, offset);
            let placed = nodes.update(c, RenderNode { x: x as u16, y: y as u16, ..nodes[c] });
            let grow: int = match direction {
                Direction::Vertical => placed[c].height as int,
                Direction::Horizontal => placed[c].width as int,
            };
            lemma_laid_out_keeps_front(ch, c, placed);
            let after = laid_out(ch, c, placed).unwrap();
            lemma_stacked_keeps_front(ch, i, direction, k + 1, after, offset + grow);
        } else {
            lemma_stacked_keeps_front(ch, i, direction, k + 1, nodes, offset);
        }
    }
}

/// `b` is `a` with at most the nodes' positions changed.
pub open spec fn same_but_positions(a: Seq<RenderNode>, b: Seq<RenderNode>) -> bool {
    &&& a.len() == b.len()
    &&& forall|j: int| 0 <= j < a.len() ==> #[trigger] b[j] == (RenderNode { x: b[j].x, y: b[j].y, ..a[j] })
}

impl RenderTree {
    /// Stacks the children of node `i` in `direction` and lays out their
    /// subtrees (see `stacked_children`), stopping with `false` where a
    /// coordinate would pass `u16::MAX`; only positions change.
    fn try_stack_children(&mut self, i: usize, direction: Direction) -> (ok: bool)
        requires
            old(self).wf(),
            i < old(self).nodes@.len(),
        ensures
            final(self).wf(),
            ok == stacked_children(old(self).children@, i as int, direction, 0, old(self).nodes@, 0) is Some,
            ok ==> final(self).nodes@ == stacked_children(old(self).children@, i as int, direction, 0, old(self).nodes@, 0).unwrap(),
            same_but_positions(old(self).nodes@, final(self).nodes@),
            final(self).children == old(self).children,
            final(self).root == old(self).root,
            final(self).focused == old(self).focused,
            final(self).hovered == old(self).hovered,
            final(self).pending_focus_clear == old(self).pending_focus_clear,
        decreases old(self).nodes@.len() - i, 0int,
    {
        let ghost shape = *old(self);
        let padding = match &self.nodes[i].style {
            Some(s) => match s.padding {
                Some(p) => p,
                None => Spacing { top: 0, right: 0, bottom: 0, left: 0 },
            },
            None => Spacing { top: 0, right: 0, bottom: 0, left: 0 },
        };
        let bo: u16 = match &self.nodes[i].style {
            Some(s) => match &s.border {
                Some(b) => if b.enabled { 1 } else { 0 },
                None => 0,
            },
            None => 0,
        };
        let n = self.children[i].len();
        let mut offset: u16 = 0;
        let mut k: usize = 0;
        assert(same_but_positions(shape.nodes@, self.nodes@));
        while k < n
            invariant
                self.wf(),
                shape.wf(),
                i < self.nodes@.len(),
                self.nodes@.len() == shape.nodes@.len(),
                self.children == shape.children,
                self.root == shape.root,
                self.focused == shape.focused,
                self.hovered == shape.hovered,
                self.pending_focus_clear == shape.pending_focus_clear,
                shape == *old(self),
                n == kids(shape, i as int).len(),
                k <= n,
                padding == padding_of(self.nodes@[i as int].style),
                bo == border_offset_of(self.nodes@[i as int].style),
                same_but_positions(shape.nodes@, self.nodes@),
                stacked_children(shape.children@, i as int, direction, 0, shape.nodes@, 0)
                    == stacked_children(shape.children@, i as int, direction, k as int, self.nodes@, offset as int),
            decreases n - k,
        {
            let c = self.children[i][k];
            assert(c == kids(shape, i as int)[k as int]);
            let ghost before = self.nodes@;
            let ox: u32 = self.nodes[i].x as u32 + padding.left as u32 + bo as u32;
            let oy: u32 = self.nodes[i].y as u32 + padding.top as u32 + bo as u32;
            let (x, y): (u32, u32) = match direction {
                Direction::Vertical => (ox, oy + offset as u32),
                Direction::Horizontal => (ox + offset as u32, oy),
            };
            if x > 65535 || y > 65535 {
                return false;
            }
            self.nodes[c].set_position(x as u16, y as u16);
            let grow = match direction {
                Direction::Vertical => self.nodes[c].height,
                Direction::Horizontal => self.nodes[c].width,
            };
            proof {
                assert(self.nodes@ == before.update(c as int, RenderNode { x: x as u16, y: y as u16, ..before[c as int] }));
                assert forall|j: int| 0 <= j < shape.nodes@.len() implies #[trigger] self.nodes@[j] == (RenderNode { x: self.nodes@[j].x, y: self.nodes@[j].y, ..shape.nodes@[j] }) by {
                    assert(before[j] == (RenderNode { x: before[j].x, y: before[j].y, ..shape.nodes@[j] }));
                }
                assert forall|p: int, j: int| is_node(*self, p) && 0 <= j < kids(*self, p).len() implies p < #[trigger] kids(*self, p)[j] < self.nodes@.len() by {
                    assert(kids(*self, p) == kids(shape, p));
                }
            }
            if offset as u32 + grow as u32 > 65535 {
                return false;
            }
            offset = offset + grow;
            let ghost placed = self.nodes@;
            let fits = self.try_layout_subtree(c);
            proof {
                assert forall|j: int| 0 <= j < shape.nodes@.len() implies #[trigger] self.nodes@[j] == (RenderNode { x: self.nodes@[j].x, y: self.nodes@[j].y, ..shape.nodes@[j] }) by {
                    assert(placed[j] == (RenderNode { x: placed[j].x, y: placed[j].y, ..shape.nodes@[j] }));
                    assert(self.nodes@[j] == (RenderNode { x: self.nodes@[j].x, y: self.nodes@[j].y, ..placed[j] }));
                }
            }
            if !fits {
                return false;
            }
            proof {
                lemma_laid_out_keeps_front(shape.children@, c as int, placed);
                assert(self.nodes@[i as int] == placed[i as int]);
            }
            k = k + 1;
        }
        true
    }

    /// Lays out the subtree at `i` by stacking (see `laid_out`), stopping
    /// with `false` where a coordinate would pass `u16::MAX`; only positions
    /// change.
    fn try_layout_subtree(&mut self, i: usize) -> (ok: bool)
        requires
            old(self).wf(),
            i < old(self).nodes@.len(),
        ensures
            final(self).wf(),
            ok == laid_out(old(self).children@, i as int, old(self).nodes@) is Some,
            ok ==> final(self).nodes@ == laid_out(old(self).children@, i as int, old(self).nodes@).unwrap(),
            same_but_positions(old(self).nodes@, final(self).nodes@),
            final(self).children == old(self).children,
            final(self).root == old(self).root,
            final(self).focused == old(self).focused,
            final(self).hovered == old(self).hovered,
            final(self).pending_focus_clear == old(self).pending_focus_clear,
        decreases old(self).nodes@.len() - i, 1int,
    {
        let direction = match &self.nodes[i].style {
            Some(s) => match s.direction {
                Some(d) => d,
                None => Direction::Vertical,
            },
            None => Direction::Vertical,
        };
        self.try_stack_children(i, direction)
    }

    /// Lays out the subtree at `i` by stacking its children in its own
    /// direction, each subtree in turn (see `laid_out`); only the nodes'
    /// positions change.
    pub fn layout_node(&mut self, i: usize)
        requires
            old(self).wf(),
            i < old(self).nodes@.len(),
            laid_out(old(self).children@, i as int, old(self).nodes@) is Some,
        ensures
            final(self).wf(),
            final(self).nodes@ == laid_out(old(self).children@, i as int, old(self).nodes@).unwrap(),
            same_but_positions(old(self).nodes@, final(self).nodes@),
            final(self).children == old(self).children,
            final(self).root == old(self).root,
            final(self).focused == old(self).focused,
            final(self).hovered == old(self).hovered,
            final(self).pending_focus_clear == old(self).pending_focus_clear,
    {
        let _ = self.try_layout_subtree(i);
    }

    /// Lays out the subtree at `i` as `layout_node` does where every
    /// coordinate fits in `u16` (`true`); otherwise leaves the tree as it
    /// was (`false`).
    pub fn layout_node_checked(&mut self, i: usize) -> (ok: bool)
        requires
            old(self).wf(),
            i < old(self).nodes@.len(),
        ensures
            final(self).wf(),
            ok == laid_out(old(self).children@, i as int, old(self).nodes@) is Some,
            ok ==> final(self).nodes@ == laid_out(old(self).children@, i as int, old(self).nodes@).unwrap(),
            !ok ==> final(self).nodes@ == old(self).nodes@,
            same_but_positions(old(self).nodes@, final(self).nodes@),
            final(self).children == old(self).children,
            final(self).root == old(self).root,
            final(self).focused == old(self).focused,
            final(self).hovered == old(self).hovered,
            final(self).pending_focus_clear == old(self).pending_focus_clear,
    {
        let n = self.nodes.len();
        let mut saved: Vec<(u16, u16)> = Vec::new();
        let mut j: usize = 0;
        while j < n
            invariant
                n == self.nodes@.len(),
                j <= n,
                saved@.len() == j,
                forall|q: int| 0 <= q < j ==> #[trigger] saved@[q] == (self.nodes@[q].x, self.nodes@[q].y),
            decreases n - j,
        {
            saved.push((self.nodes[j].x, self.nodes[j].y));
            j = j + 1;
        }
        let ghost before = *self;
        let ok = self.try_layout_subtree(i);
        if !ok {
            let mut j: usize = 0;
            while j < n
                invariant
                    self.wf(),
                    before.wf(),
                    n == self.nodes@.len(),
                    n == before.nodes@.len(),
                    j <= n,
                    saved@.len() == n,
                    forall|q: int| 0 <= q < n ==> #[trigger] saved@[q] == (before.nodes@[q].x, before.nodes@[q].y),
                    same_but_positions(before.nodes@, self.nodes@),
                    forall|q: int| 0 <= q < j ==> #[trigger] self.nodes@[q] == before.nodes@[q],
                    self.children == before.children,
                    self.root == before.root,
                    self.focused == before.focused,
                    self.hovered == before.hovered,
                    self.pending_focus_clear == before.pending_focus_clear,
                decreases n - j,
            {
                let (x, y) = saved[j];
                let ghost prev = self.nodes@;
                self.nodes[j].set_position(x, y);
                proof {
                    assert(self.nodes@ == prev.update(j as int, RenderNode { x, y, ..prev[j as int] }));
                    assert(prev[j as int] == (RenderNode { x: prev[j as int].x, y: prev[j as int].y, ..before.nodes@[j as int] }));
                    assert forall|q: int| 0 <= q < n implies #[trigger] self.nodes@[q] == (RenderNode { x: self.nodes@[q].x, y: self.nodes@[q].y, ..before.nodes@[q] }) by {
                        assert(prev[q] == (RenderNode { x: prev[q].x, y: prev[q].y, ..before.nodes@[q] }));
                    }
                    assert forall|p: int, k: int| is_node(*self, p) && 0 <= k < kids(*self, p).len() implies p < #[trigger] kids(*self, p)[k] < self.nodes@.len() by {
                        assert(kids(*self, p) == kids(before, p));
                    }
                }
                j = j + 1;
            }
            assert(self.nodes@ =~= before.nodes@);
            assert forall|q: int| 0 <= q < n implies #[trigger] self.nodes@[q] == (RenderNode { x: self.nodes@[q].x, y: self.nodes@[q].y, ..before.nodes@[q] }) by {
                assert(self.nodes@[q] == before.nodes@[q]);
            }
        }
        ok
    }
}

} // verus!
