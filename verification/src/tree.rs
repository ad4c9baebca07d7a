use vstd::prelude::*;
use crate::axis::Axis;
use crate::button::Button;
use crate::debug_highlight::DebugHighlight;
use crate::math::{Rect, Size};

verus! {

/// The type-erased view a node owns: a closed polymorphic interface over
/// the view types the toolkit knows.
pub enum ViewValue {
    /// A container stacking its children along one axis.
    Stack(Axis),
    /// A leaf that only asks for a fixed size.
    Spacer(Size),
    Button(Button),
    /// A container that overlays interaction markers on its descendants.
    DebugHighlight(DebugHighlight),
}

/// The concrete view type of a call or node: reconciliation only matches a
/// call to a node of the same kind.
#[derive(Copy, Clone, Debug, PartialEq, Eq, Structural)]
pub enum ViewKind {
    Stack,
    Spacer,
    Button,
    DebugHighlight,
}

pub open spec fn kind_of(v: ViewValue) -> ViewKind {
    match v {
        ViewValue::Stack(_) => ViewKind::Stack,
        ViewValue::Spacer(_) => ViewKind::Spacer,
        ViewValue::Button(_) => ViewKind::Button,
        ViewValue::DebugHighlight(_) => ViewKind::DebugHighlight,
    }
}

/// Containers may hold children; leaves never do.
pub open spec fn is_container_kind(k: ViewKind) -> bool {
    k is Stack || k is DebugHighlight
}

impl ViewValue {
    pub fn kind(&self) -> (r: ViewKind)
        ensures
            r == kind_of(*self),
    {
        match self {
            ViewValue::Stack(_) => ViewKind::Stack,
            ViewValue::Spacer(_) => ViewKind::Spacer,
            ViewValue::Button(_) => ViewKind::Button,
            ViewValue::DebugHighlight(_) => ViewKind::DebugHighlight,
        }
    }
}

/// The persistent arena of view nodes, stored column-wise so each frame can
/// rewrite one aspect of a node in place. A node's identity is its index;
/// indices are stable for as long as reconciliation keeps matching the node,
/// and a removed slot is never handed out again.
///
/// The tree invariant `wf` keeps every child id strictly greater than its
/// parent's id (children are always created after their parent), which is
/// what lets every pass walk the tree with a terminating recursion.
#[verifier::ext_equal]
pub struct Tree {
    /// Whether the slot currently holds a live node.
    pub alive: Vec<bool>,
    /// The owning parent; `None` only for the root.
    pub parent: Vec<Option<usize>>,
    /// Child ids in paint/traversal order.
    pub children: Vec<Vec<usize>>,
    /// The explicit reconciliation key, if the call gave one.
    pub key: Vec<Option<u64>>,
    /// The owned view value.
    pub views: Vec<ViewValue>,
    /// Cached size from the last layout pass.
    pub size: Vec<Option<Size>>,
    /// Cached parent-relative rect from the last placement.
    pub rect: Vec<Option<Rect>>,
    /// Whether the current frame's call sequence has visited the node.
    pub visited: Vec<bool>,
}

impl Tree {
    /// Number of slots ever allocated (live or removed).
    pub open spec fn n(self) -> int {
        self.alive.len() as int
    }

    pub open spec fn kids(self, i: int) -> Seq<usize> {
        self.children@[i]@
    }

    pub open spec fn same_len(self) -> bool {
        &&& self.parent.len() == self.n()
        &&& self.children.len() == self.n()
        &&& self.key.len() == self.n()
        &&& self.views.len() == self.n()
        &&& self.size.len() == self.n()
        &&& self.rect.len() == self.n()
        &&& self.visited.len() == self.n()
    }

    /// What it means for `c` to stand as a child of `i`: created later than
    /// its parent, live, and pointing back at `i` as its one parent.
    pub open spec fn child_ok(self, i: int, c: int) -> bool {
        &&& i < c < self.n()
        &&& self.alive@[c]
        &&& self.parent@[c] == Some(i as usize)
    }

    /// The tree invariant: one live root at slot 0; every live non-root node
    /// has exactly one live parent with a smaller id; child lists hold live,
    /// later-created nodes that point back at their parent, without
    /// duplicates; leaves are childless. Strictly increasing ids along every
    /// edge mean no node is its own ancestor.
    pub open spec fn wf(self) -> bool {
        &&& self.same_len()
        &&& self.n() >= 1
        &&& self.alive@[0]
        &&& self.parent@[0] is None
        &&& forall|i: int|
            0 < i < self.n() && self.alive@[i] ==> (self.parent@[i] is Some && 0 <= (
            #[trigger] self.parent@[i])->0 < i && self.alive@[self.parent@[i]->0 as int])
        &&& forall|i: int, k: int|
            0 <= i < self.n() && self.alive@[i] && 0 <= k < self.kids(i).len() ==> self.child_ok(
                i,
                #[trigger] self.kids(i)[k] as int,
            )
        &&& forall|i: int, k1: int, k2: int|
            0 <= i < self.n() && self.alive@[i] && 0 <= k1 < k2 < self.kids(i).len() ==> (
            #[trigger] self.kids(i)[k1]) != (#[trigger] self.kids(i)[k2])
        &&& forall|i: int|
            0 <= i < self.n() && self.alive@[i] && !is_container_kind(
                kind_of(#[trigger] self.views@[i]),
            ) ==> self.kids(i).len() == 0
    }

    /// A fresh tree: one live root container, no children yet.
    pub fn new(root_axis: Axis) -> (r: Tree)
        ensures
            r.wf(),
            r.n() == 1,
            r.kids(0).len() == 0,
            kind_of(r.views@[0]) is Stack,
            !r.visited@[0],
    {
        Tree {
            alive: vec![true],
            parent: vec![None],
            children: vec![Vec::new()],
            key: vec![None],
            views: vec![ViewValue::Stack(root_axis)],
            size: vec![None],
            rect: vec![None],
            visited: vec![false],
        }
    }

    /// `wf` cares only about liveness, links and view kinds: any change that
    /// keeps those (marking a node visited, caching a size or a rect,
    /// updating a view without changing its kind) preserves it.
    pub proof fn lemma_wf_preserved(t0: Tree, t1: Tree)
        requires
            t0.wf(),
            t1.same_len(),
            t1.alive@ == t0.alive@,
            t1.parent@ == t0.parent@,
            t1.children@ == t0.children@,
            t1.views.len() == t0.views.len(),
            forall|i: int|
                0 <= i < t0.n() ==> kind_of(#[trigger] t1.views@[i]) == kind_of(t0.views@[i]),
        ensures
            t1.wf(),
    {
        assert(t1.n() == t0.n());
        assert forall|i: int| 0 < i < t1.n() && t1.alive@[i] implies (t1.parent@[i] is Some && 0 <= (
            t1.parent@[i])->0 < i && t1.alive@[t1.parent@[i]->0 as int]) by {
            assert(t0.alive@[i]);
        }
        assert forall|i: int, k: int|
            0 <= i < t1.n() && t1.alive@[i] && 0 <= k < t1.kids(i).len() implies t1.child_ok(
                i, t1.kids(i)[k] as int) by {
            assert(t1.kids(i) == t0.kids(i));
            assert(t0.child_ok(i, t0.kids(i)[k] as int));
        }
        assert forall|i: int, k1: int, k2: int|
            0 <= i < t1.n() && t1.alive@[i] && 0 <= k1 < k2 < t1.kids(i).len() implies t1.kids(i)[k1]
                != t1.kids(i)[k2] by {
            assert(t1.kids(i) == t0.kids(i));
        }
        assert forall|i: int|
            0 <= i < t1.n() && t1.alive@[i] && !is_container_kind(
                kind_of(t1.views@[i]),
            ) implies t1.kids(i).len() == 0 by {
            assert(t1.kids(i) == t0.kids(i));
            assert(kind_of(t1.views@[i]) == kind_of(t0.views@[i]));
        }
    }

    /// A removed node stands in no live node's child list, so no pass that
    /// walks child lists from the root — layout, hit-testing, rendering —
    /// can reach it.
    pub proof fn lemma_removed_node_unreachable(self, i: int, p: int, k: int)
        requires
            self.wf(),
            0 <= p < self.n(),
            self.alive@[p],
            0 <= k < self.kids(p).len(),
            0 <= i < self.n(),
            !self.alive@[i],
        ensures
            self.kids(p)[k] != i,
    {
        assert(self.child_ok(p, self.kids(p)[k] as int));
    }

    /// How many slots the arena holds.
    pub fn len(&self) -> (r: usize)
        ensures
            r == self.n(),
    {
        self.alive.len()
    }

    /// Whether `id` names a live node.
    pub fn is_alive(&self, id: usize) -> (r: bool)
        ensures
            r == (id < self.n() && self.alive@[id as int]),
    {
        id < self.alive.len() && self.alive[id]
    }

    /// The cached rect of a node, if placement has run for it; a stale or
    /// dead id reads as absent.
    pub fn rect_of(&self, id: usize) -> (r: Option<Rect>)
        requires
            self.same_len(),
        ensures
            r == (if id < self.n() && self.alive@[id as int] {
                self.rect@[id as int]
            } else {
                Option::<Rect>::None
            }),
    {
        if id < self.rect.len() && id < self.alive.len() && self.alive[id] {
            self.rect[id]
        } else {
            None
        }
    }

    /// The cached size of a node, if layout has run for it.
    pub fn size_of(&self, id: usize) -> (r: Option<Size>)
        requires
            self.same_len(),
        ensures
            r == (if id < self.n() && self.alive@[id as int] {
                self.size@[id as int]
            } else {
                Option::<Size>::None
            }),
    {
        if id < self.size.len() && id < self.alive.len() && self.alive[id] {
            self.size[id]
        } else {
            None
        }
    }
}

} // verus!
