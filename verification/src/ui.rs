use vstd::prelude::*;
use crate::axis::Axis;
use crate::button::{Button, ButtonResponse, ButtonState, spec_update_transition};
use crate::debug_highlight::DebugHighlight;
use crate::math::Size;
use crate::tree::{Tree, ViewKind, ViewValue, is_container_kind, kind_of};

verus! {

/// A usage error in the declarative call sequence: a programming mistake in
/// the calling application, reported loudly instead of being merged away.
#[derive(Copy, Clone, Debug, PartialEq, Eq, Structural)]
pub enum UiError {
    /// Two sibling calls at the same nesting level gave the same explicit key.
    DuplicateKey,
    /// `end` without a matching `begin`, or a frame finished with scopes
    /// still open.
    MismatchedScope,
}

/// The per-scope cursor while a frame's call sequence runs: which node the
/// scope belongs to, how far the previous frame's child list has been
/// consumed, the children list being rebuilt, and the explicit keys seen so
/// far at this nesting level.
#[verifier::ext_equal]
pub struct FrameCursor {
    pub id: usize,
    pub cursor: usize,
    pub new_children: Vec<usize>,
    pub keys: Vec<u64>,
}

/// One more, saturating: frame statistics never wrap.
pub open spec fn spec_bump(x: usize) -> usize {
    if x < usize::MAX {
        (x + 1) as usize
    } else {
        x
    }
}

fn bump(x: usize) -> (r: usize)
    ensures
        r == spec_bump(x),
{
    if x < usize::MAX {
        x + 1
    } else {
        x
    }
}

fn keys_contain(keys: &Vec<u64>, k: u64) -> (r: bool)
    ensures
        r == keys@.contains(k),
{
    let mut i: usize = 0;
    while i < keys.len()
        invariant
            i <= keys.len(),
            forall|m: int| 0 <= m < i ==> keys@[m] != k,
        decreases keys.len() - i,
    {
        if keys[i] == k {
            return true;
        }
        i += 1;
    }
    false
}

fn opt_u64_eq(a: Option<u64>, b: Option<u64>) -> (r: bool)
    ensures
        r == (a == b),
{
    match (a, b) {
        (Option::None, Option::None) => true,
        (Option::Some(x), Option::Some(y)) => x == y,
        _ => false,
    }
}

/// A tree that is exactly a root holding one unkeyed spacer per entry of
/// `sizes`, in order: the shape one `spacer_row` frame leaves behind.
pub open spec fn spacer_row_shape(t: Tree, sizes: Seq<Size>) -> bool {
    &&& t.kids(0).len() == sizes.len()
    &&& (forall|k: int|
        0 <= k < sizes.len() ==> kind_of(t.views@[(#[trigger] t.kids(0)[k]) as int]) is Spacer
            && t.key@[t.kids(0)[k] as int] is None)
    &&& (forall|i: int|
        0 < i < t.n() && (#[trigger] t.alive@[i]) ==> t.kids(0).contains(i as usize))
}

/// The reconciler: owns the persistent node tree and, while a frame's call
/// sequence runs, the stack of open scopes. Each call is matched against the
/// previous frame's node at the same (scope, position) with the same view
/// kind and explicit key; matches update the node in place, everything else
/// creates a fresh node, and nodes the sequence never visits are removed at
/// the end of the frame.
#[verifier::ext_equal]
pub struct Ui {
    pub tree: Tree,
    pub frames: Vec<FrameCursor>,
    /// Nodes created by the current/last frame.
    pub created: usize,
    /// Nodes matched and updated in place by the current/last frame.
    pub updated: usize,
    /// Nodes removed at the end of the last frame.
    pub removed: usize,
}

impl Ui {
    /// Whether a frame's call sequence is currently running.
    pub open spec fn in_frame(self) -> bool {
        self.frames.len() > 0
    }

    /// The innermost open scope.
    pub open spec fn top(self) -> FrameCursor {
        self.frames@.last()
    }

    pub open spec fn on_stack(self, i: int) -> bool {
        exists|j: int| 0 <= j < self.frames.len() && (#[trigger] self.frames@[j]).id == i
    }

    /// What must hold of every entry already rebuilt into scope `p`'s child
    /// list: a live, visited node created after `p` that points back at `p`.
    pub open spec fn entry_ok(self, p: int, c: int) -> bool {
        &&& p < c < self.tree.n()
        &&& self.tree.alive@[c]
        &&& self.tree.visited@[c]
        &&& self.tree.parent@[c] == Some(p as usize)
    }

    pub open spec fn frame_ok(self, j: int) -> bool {
        let f = self.frames@[j];
        &&& 0 <= f.id < self.tree.n()
        &&& self.tree.alive@[f.id as int]
        &&& self.tree.visited@[f.id as int]
        &&& is_container_kind(kind_of(self.tree.views@[f.id as int]))
        &&& f.cursor <= self.tree.kids(f.id as int).len()
        &&& forall|m: int|
            0 <= m < f.new_children.len() ==> self.entry_ok(
                f.id as int,
                (#[trigger] f.new_children@[m]) as int,
            )
        &&& forall|m1: int, m2: int|
            0 <= m1 < m2 < f.new_children.len() ==> f.new_children@[m1] != f.new_children@[m2]
    }

    /// A visited node's parent was visited first: calls only happen inside
    /// an open scope, and a scope's node was itself shown by a call.
    pub open spec fn visited_parent_ok(self) -> bool {
        forall|i: int|
            0 < i < self.tree.n() && self.tree.alive@[i] && (#[trigger] self.tree.visited@[i])
                ==> self.tree.parent@[i] is Some && self.tree.visited@[self.tree.parent@[i]->0 as int]
    }

    /// Every visited node whose scope has already closed (or that never
    /// opened one) carries only visited children — except, transiently, the
    /// node `except` while a single call is mid-flight.
    pub open spec fn closed_kids_visited_except(self, except: int) -> bool {
        forall|i: int, k: int|
            0 <= i < self.tree.n() && i != except && self.tree.alive@[i] && self.tree.visited@[i]
                && !self.on_stack(i) && 0 <= k < self.tree.kids(i).len()
                ==> self.tree.visited@[#[trigger] self.tree.kids(i)[k] as int]
    }

    /// Everything `wf` demands apart from the closed-scope clause.
    pub open spec fn wf_base(self) -> bool {
        &&& self.tree.wf()
        &&& is_container_kind(kind_of(self.tree.views@[0]))
        &&& (self.frames.len() == 0 ==> (forall|i: int|
            0 <= i < self.tree.n() ==> !(#[trigger] self.tree.visited@[i])))
        &&& (self.frames.len() > 0 ==> {
            &&& self.frames@[0].id == 0
            &&& forall|j: int| 0 <= j < self.frames.len() ==> self.frame_ok(j)
            &&& forall|j1: int, j2: int|
                0 <= j1 < j2 < self.frames.len() ==> self.frames@[j1].id != self.frames@[j2].id
            &&& self.visited_parent_ok()
            &&& self.removed == 0
            &&& self.created < self.tree.n()
        })
    }

    /// The reconciler invariant: the tree invariant, plus the bookkeeping of
    /// the open scopes while a frame runs.
    pub open spec fn wf(self) -> bool {
        &&& self.wf_base()
        &&& self.closed_kids_visited_except(-1)
    }

    /// A fresh reconciler over a tree holding only a root container.
    pub fn new(root_axis: Axis) -> (r: Ui)
        ensures
            r.wf(),
            !r.in_frame(),
            r.tree.n() == 1,
    {
        Ui { tree: Tree::new(root_axis), frames: Vec::new(), created: 0, updated: 0, removed: 0 }
    }

    /// Open a new frame: reset the statistics and the root scope. Every
    /// frame's call sequence must run between `begin_frame` and `end_frame`.
    pub fn begin_frame(&mut self)
        requires
            old(self).wf(),
            !old(self).in_frame(),
        ensures
            final(self).wf(),
            final(self).in_frame(),
            final(self).frames.len() == 1,
            final(self).top().id == 0,
            final(self).top().cursor == 0,
            final(self).top().new_children@ == Seq::<usize>::empty(),
            final(self).top().keys@ == Seq::<u64>::empty(),
            final(self).created == 0,
            final(self).updated == 0,
            final(self).removed == 0,
            final(self).tree.n() == old(self).tree.n(),
            final(self).tree.alive@ == old(self).tree.alive@,
            final(self).tree.parent@ == old(self).tree.parent@,
            final(self).tree.children@ == old(self).tree.children@,
            final(self).tree.key@ == old(self).tree.key@,
            final(self).tree.views@ == old(self).tree.views@,
            final(self).tree.size@ == old(self).tree.size@,
            final(self).tree.rect@ == old(self).tree.rect@,
            final(self).tree.visited@ == old(self).tree.visited@.update(0, true),
    {
        self.created = 0;
        self.updated = 0;
        self.removed = 0;
        self.tree.visited[0] = true;
        let root = FrameCursor { id: 0, cursor: 0, new_children: Vec::new(), keys: Vec::new() };
        self.frames.push(root);
        proof {
            Tree::lemma_wf_preserved(old(self).tree, self.tree);
            assert(self.frames@[0].id == 0);
            assert(self.on_stack(0));
            assert forall|j: int| 0 <= j < self.frames.len() implies self.frame_ok(j) by {
                assert(j == 0);
            }
            assert forall|i: int, k: int|
                0 <= i < self.tree.n() && i != -1 && self.tree.alive@[i] && self.tree.visited@[i]
                    && !self.on_stack(i) && 0 <= k < self.tree.kids(i).len() implies self.tree.visited@[
                self.tree.kids(i)[k] as int] by {
                assert(i != 0);
                assert(!old(self).tree.visited@[i]);
                assert(false);
            }
        }
    }

    /// The node the current call would match: the previous frame's child of
    /// the open scope at the cursor position, provided it has not been
    /// claimed by an earlier call this frame and carries the same view kind
    /// and the same explicit key.
    pub open spec fn match_candidate(self, kind: ViewKind, key: Option<u64>) -> Option<usize> {
        let f = self.top();
        let t = self.tree;
        if f.cursor < t.kids(f.id as int).len() {
            let c = t.kids(f.id as int)[f.cursor as int];
            if !t.visited@[c as int] && kind_of(t.views@[c as int]) == kind && t.key@[c as int]
                == key {
                Some(c)
            } else {
                None
            }
        } else {
            None
        }
    }

    /// Consume one call position of the innermost scope: report the matched
    /// node if the previous frame's node there fits, claim it (visit it,
    /// rebuild it into the child list), or consume the position for a
    /// fresh node. A duplicate explicit key at this nesting level is a usage
    /// error and changes nothing.
    fn probe(&mut self, kind: ViewKind, key: Option<u64>) -> (r: Result<Option<usize>, UiError>)
        requires
            old(self).wf(),
            old(self).in_frame(),
        ensures
            final(self).in_frame(),
            final(self).frames.len() == old(self).frames.len(),
            forall|j: int|
                0 <= j < old(self).frames.len() - 1 ==> final(self).frames@[j] == old(self).frames@[j],
            final(self).top().id == old(self).top().id,
            final(self).created == old(self).created,
            final(self).removed == old(self).removed,
            match r {
                Result::Err(e) => {
                    &&& e is DuplicateKey
                    &&& key is Some
                    &&& old(self).top().keys@.contains(key->0)
                    &&& final(self).tree == old(self).tree
                    &&& final(self).frames@ == old(self).frames@
                    &&& final(self).updated == old(self).updated
                    &&& final(self).wf()
                },
                Result::Ok(opt) => {
                    &&& (key is Some ==> !old(self).top().keys@.contains(key->0))
                    &&& final(self).top().keys@ == (if key is Some {
                        old(self).top().keys@.push(key->0)
                    } else {
                        old(self).top().keys@
                    })
                    &&& match opt {
                        Option::Some(c) => {
                            &&& old(self).match_candidate(kind, key) == Some(c)
                            &&& c < old(self).tree.n()
                            &&& old(self).tree.alive@[c as int]
                            &&& !old(self).tree.visited@[c as int]
                            &&& kind_of(old(self).tree.views@[c as int]) == kind
                            &&& final(self).tree.n() == old(self).tree.n()
                            &&& final(self).tree.alive@ == old(self).tree.alive@
                            &&& final(self).tree.parent@ == old(self).tree.parent@
                            &&& final(self).tree.children@ == old(self).tree.children@
                            &&& final(self).tree.key@ == old(self).tree.key@
                            &&& final(self).tree.views@ == old(self).tree.views@
                            &&& final(self).tree.size@ == old(self).tree.size@
                            &&& final(self).tree.rect@ == old(self).tree.rect@
                            &&& final(self).tree.visited@ == old(self).tree.visited@.update(
                                c as int,
                                true,
                            )
                            &&& final(self).top().cursor == old(self).top().cursor + 1
                            &&& final(self).top().new_children@ == old(self).top().new_children@.push(c)
                            &&& final(self).updated == spec_bump(old(self).updated)
                            &&& final(self).wf_base()
                            &&& final(self).closed_kids_visited_except(c as int)
                        },
                        Option::None => {
                            &&& old(self).match_candidate(kind, key) is None
                            &&& final(self).tree == old(self).tree
                            &&& final(self).top().cursor == (if old(self).top().cursor < old(self).tree.kids(old(self).top().id as int).len() {
                                old(self).top().cursor + 1
                            } else {
                                old(self).top().cursor as int
                            })
                            &&& final(self).top().new_children@ == old(self).top().new_children@
                            &&& final(self).updated == old(self).updated
                            &&& final(self).wf()
                        },
                    }
                },
            },
    {
        proof {
            assert(old(self).frame_ok(old(self).frames.len() - 1));
        }
        let mut f = match self.frames.pop() {
            Option::Some(f) => f,
            Option::None => vstd::pervasive::unreached(),
        };
        if let Option::Some(k) = key {
            if keys_contain(&f.keys, k) {
                self.frames.push(f);
                proof {
                    assert(self.frames@ =~= old(self).frames@);
                    assert(self.tree == old(self).tree);
                    assert(self.updated == old(self).updated);
                    assert(old(self).top().keys@.contains(k));
                    assert forall|j: int| 0 <= j < self.frames.len() implies self.frame_ok(j) by {
                        assert(self.frames@[j] == old(self).frames@[j]);
                        assert(old(self).frame_ok(j));
                    }
                    assert(self.visited_parent_ok()) by {
                        assert(old(self).visited_parent_ok());
                    }
                    assert forall|i: int, k2: int|
                        0 <= i < self.tree.n() && i != -1 && self.tree.alive@[i]
                            && self.tree.visited@[i] && !self.on_stack(i) && 0 <= k2
                            < self.tree.kids(i).len() implies self.tree.visited@[self.tree.kids(i)[k2] as int] by {
                        assert forall|j: int|
                            0 <= j < old(self).frames.len() && old(self).frames@[j].id
                                == i implies false by {
                            assert(self.frames@[j].id == i);
                            assert(self.on_stack(i));
                        }
                        assert(!old(self).on_stack(i));
                    }
                    assert(self.wf());
                }
                return Result::Err(UiError::DuplicateKey);
            }
            f.keys.push(k);
        }
        let p = f.id;
        let klen = self.tree.children[p].len();
        let mut res: Option<usize> = Option::None;
        if f.cursor < klen {
            let c = self.tree.children[p][f.cursor];
            proof {
                assert(old(self).tree.kids(p as int)[f.cursor as int] == c);
                assert(old(self).tree.child_ok(p as int, c as int));
            }
            f.cursor = f.cursor + 1;
            let vk = self.tree.views[c].kind();
            let keq = opt_u64_eq(self.tree.key[c], key);
            if !self.tree.visited[c] && vk == kind && keq {
                self.tree.visited[c] = true;
                f.new_children.push(c);
                self.updated = bump(self.updated);
                res = Option::Some(c);
            }
        }
        self.frames.push(f);
        proof {
            let pre = *old(self);
            let fl = pre.frames.len() as int;
            assert(self.frames@ =~= pre.frames@.update(fl - 1, self.frames@[fl - 1]));
            match res {
                Option::Some(c) => {
                    let ci = c as int;
                    Tree::lemma_wf_preserved(pre.tree, self.tree);
                    assert forall|j: int| 0 <= j < self.frames.len() implies self.frame_ok(j) by {
                        assert(pre.frame_ok(j));
                        if j < fl - 1 {
                            assert(self.frames@[j] == pre.frames@[j]);
                        } else {
                            assert forall|m: int|
                                0 <= m < self.top().new_children.len() implies self.entry_ok(
                                self.top().id as int,
                                self.top().new_children@[m] as int,
                            ) by {
                                if m < pre.top().new_children.len() {
                                    assert(pre.entry_ok(
                                        pre.top().id as int,
                                        pre.top().new_children@[m] as int,
                                    ));
                                } else {
                                    assert(self.top().new_children@[m] == c);
                                }
                            }
                            assert forall|m1: int, m2: int|
                                0 <= m1 < m2 < self.top().new_children.len() implies self.top().new_children@[m1]
                                != self.top().new_children@[m2] by {
                                if m2 == self.top().new_children.len() - 1 {
                                    assert(pre.entry_ok(
                                        pre.top().id as int,
                                        pre.top().new_children@[m1] as int,
                                    ));
                                    assert(pre.tree.visited@[pre.top().new_children@[m1] as int]);
                                    assert(!pre.tree.visited@[ci]);
                                }
                            }
                        }
                    }
                    assert forall|i: int|
                        0 < i < self.tree.n() && self.tree.alive@[i]
                            && self.tree.visited@[i] implies self.tree.parent@[i] is Some
                        && self.tree.visited@[self.tree.parent@[i]->0 as int] by {
                        if i == ci {
                            assert(self.tree.parent@[i] == Some(p));
                            assert(pre.tree.visited@[p as int]);
                        } else {
                            assert(pre.tree.visited@[i]);
                        }
                    }
                    assert forall|i: int, k2: int|
                        0 <= i < self.tree.n() && i != ci && self.tree.alive@[i]
                            && self.tree.visited@[i] && !self.on_stack(i) && 0 <= k2 < self.tree.kids(
                            i,
                        ).len() implies self.tree.visited@[self.tree.kids(i)[k2] as int] by {
                        assert(pre.tree.visited@[i]);
                        assert forall|j: int|
                            0 <= j < pre.frames.len() && pre.frames@[j].id == i implies false by {
                            assert(self.frames@[j].id == i);
                            assert(self.on_stack(i));
                        }
                        assert(!pre.on_stack(i));
                        assert(pre.tree.visited@[pre.tree.kids(i)[k2] as int]);
                    }
                    assert(final(self).closed_kids_visited_except(ci));
                },
                Option::None => {
                    assert(self.tree == pre.tree);
                    assert forall|j: int| 0 <= j < self.frames.len() implies self.frame_ok(j) by {
                        assert(pre.frame_ok(j));
                        if j < fl - 1 {
                            assert(self.frames@[j] == pre.frames@[j]);
                        }
                    }
                    assert forall|i: int, k2: int|
                        0 <= i < self.tree.n() && i != -1 && self.tree.alive@[i]
                            && self.tree.visited@[i] && !self.on_stack(i) && 0 <= k2 < self.tree.kids(
                            i,
                        ).len() implies self.tree.visited@[self.tree.kids(i)[k2] as int] by {
                        assert forall|j: int|
                            0 <= j < pre.frames.len() && pre.frames@[j].id == i implies false by {
                            assert(self.frames@[j].id == i);
                            assert(self.on_stack(i));
                        }
                        assert(!pre.on_stack(i));
                    }
                    assert(final(self).wf());
                },
            }
        }
        Result::Ok(res)
    }

    /// Append a fresh node for a call nothing matched: a new identity,
    /// adopted into the innermost scope with the builder's view value.
    fn create_node(&mut self, view: ViewValue, key: Option<u64>) -> (id: usize)
        requires
            old(self).wf(),
            old(self).in_frame(),
        ensures
            final(self).wf(),
            final(self).in_frame(),
            final(self).frames.len() == old(self).frames.len(),
            forall|j: int|
                0 <= j < old(self).frames.len() - 1 ==> final(self).frames@[j] == old(self).frames@[j],
            final(self).top().id == old(self).top().id,
            final(self).top().cursor == old(self).top().cursor,
            final(self).top().keys@ == old(self).top().keys@,
            final(self).top().new_children@ == old(self).top().new_children@.push(
                old(self).tree.n() as usize,
            ),
            id == old(self).tree.n(),
            final(self).tree.n() == old(self).tree.n() + 1,
            final(self).tree.alive@ == old(self).tree.alive@.push(true),
            final(self).tree.parent@ == old(self).tree.parent@.push(Some(old(self).top().id)),
            final(self).tree.key@ == old(self).tree.key@.push(key),
            final(self).tree.views@ == old(self).tree.views@.push(view),
            final(self).tree.size@ == old(self).tree.size@.push(None),
            final(self).tree.rect@ == old(self).tree.rect@.push(None),
            final(self).tree.visited@ == old(self).tree.visited@.push(true),
            final(self).tree.kids(id as int) == Seq::<usize>::empty(),
            forall|i: int|
                0 <= i < old(self).tree.n() ==> final(self).tree.kids(i) == old(self).tree.kids(i),
            final(self).created == old(self).created + 1,
            final(self).updated == old(self).updated,
            final(self).removed == old(self).removed,
    {
        proof {
            assert(old(self).frame_ok(old(self).frames.len() - 1));
        }
        let mut f = match self.frames.pop() {
            Option::Some(f) => f,
            Option::None => vstd::pervasive::unreached(),
        };
        let p = f.id;
        let id = self.tree.alive.len();
        self.tree.alive.push(true);
        self.tree.parent.push(Option::Some(p));
        self.tree.children.push(Vec::new());
        self.tree.key.push(key);
        self.tree.views.push(view);
        self.tree.size.push(Option::None);
        self.tree.rect.push(Option::None);
        self.tree.visited.push(true);
        f.new_children.push(id);
        self.frames.push(f);
        self.created = self.created + 1;
        proof {
            let pre = *old(self);
            let fl = pre.frames.len() as int;
            let ni = id as int;
            assert(self.frames@ =~= pre.frames@.update(fl - 1, self.frames@[fl - 1]));
            assert(self.tree.kids(ni) =~= Seq::<usize>::empty());
            assert forall|i: int| 0 <= i < pre.tree.n() implies self.tree.kids(i) == pre.tree.kids(
                i,
            ) by {
                assert(self.tree.children@[i] == pre.tree.children@[i]);
            }
            assert forall|i: int| 0 < i < self.tree.n() && self.tree.alive@[i] implies (
            self.tree.parent@[i] is Some && 0 <= (self.tree.parent@[i])->0 < i
                && self.tree.alive@[self.tree.parent@[i]->0 as int]) by {
                if i < ni {
                    assert(pre.tree.alive@[i]);
                } else {
                    assert(self.tree.parent@[i] == Some(p));
                    assert(pre.tree.alive@[p as int]);
                }
            }
            assert forall|i: int, k: int|
                0 <= i < self.tree.n() && self.tree.alive@[i] && 0 <= k < self.tree.kids(
                    i,
                ).len() implies self.tree.child_ok(i, self.tree.kids(i)[k] as int) by {
                if i < ni {
                    assert(self.tree.kids(i) == pre.tree.kids(i));
                    assert(pre.tree.child_ok(i, pre.tree.kids(i)[k] as int));
                }
            }
            assert forall|i: int, k1: int, k2: int|
                0 <= i < self.tree.n() && self.tree.alive@[i] && 0 <= k1 < k2 < self.tree.kids(
                    i,
                ).len() implies self.tree.kids(i)[k1] != self.tree.kids(i)[k2] by {
                if i < ni {
                    assert(self.tree.kids(i) == pre.tree.kids(i));
                }
            }
            assert forall|i: int|
                0 <= i < self.tree.n() && self.tree.alive@[i] && !is_container_kind(
                    kind_of(self.tree.views@[i]),
                ) implies self.tree.kids(i).len() == 0 by {
                if i < ni {
                    assert(self.tree.kids(i) == pre.tree.kids(i));
                    assert(self.tree.views@[i] == pre.tree.views@[i]);
                }
            }
            assert(self.tree.wf());
            assert forall|j: int| 0 <= j < self.frames.len() implies self.frame_ok(j) by {
                assert(pre.frame_ok(j));
                if j < fl - 1 {
                    assert(self.frames@[j] == pre.frames@[j]);
                    assert(self.tree.kids(self.frames@[j].id as int) == pre.tree.kids(
                        pre.frames@[j].id as int,
                    ));
                } else {
                    assert(self.tree.kids(self.top().id as int) == pre.tree.kids(
                        pre.top().id as int,
                    ));
                    assert forall|m: int|
                        0 <= m < self.top().new_children.len() implies self.entry_ok(
                        self.top().id as int,
                        self.top().new_children@[m] as int,
                    ) by {
                        if m < pre.top().new_children.len() {
                            assert(pre.entry_ok(
                                pre.top().id as int,
                                pre.top().new_children@[m] as int,
                            ));
                        } else {
                            assert(self.top().new_children@[m] == id);
                        }
                    }
                    assert forall|m1: int, m2: int|
                        0 <= m1 < m2 < self.top().new_children.len() implies self.top().new_children@[m1]
                        != self.top().new_children@[m2] by {
                        if m2 == self.top().new_children.len() - 1 {
                            assert(pre.entry_ok(
                                pre.top().id as int,
                                pre.top().new_children@[m1] as int,
                            ));
                        }
                    }
                }
            }
            assert forall|i: int|
                0 < i < self.tree.n() && self.tree.alive@[i]
                    && self.tree.visited@[i] implies self.tree.parent@[i] is Some
                && self.tree.visited@[self.tree.parent@[i]->0 as int] by {
                if i == ni {
                    assert(self.tree.parent@[i] == Some(p));
                    assert(pre.tree.visited@[p as int]);
                } else {
                    assert(pre.tree.visited@[i]);
                }
            }
            assert forall|i: int, k2: int|
                0 <= i < self.tree.n() && i != -1 && self.tree.alive@[i] && self.tree.visited@[i]
                    && !self.on_stack(i) && 0 <= k2 < self.tree.kids(i).len() implies self.tree.visited@[
                self.tree.kids(i)[k2] as int] by {
                assert(i != ni);
                assert forall|j: int|
                    0 <= j < pre.frames.len() && pre.frames@[j].id == i implies false by {
                    assert(self.frames@[j].id == i);
                    assert(self.on_stack(i));
                }
                assert(!pre.on_stack(i));
                assert(self.tree.kids(i) == pre.tree.kids(i));
                assert(pre.tree.visited@[pre.tree.kids(i)[k2] as int]);
            }
            assert(self.wf());
        }
        id
    }

    /// Rewriting one claimed leaf node's view (to a value of the same kind)
    /// disturbs nothing the reconciler invariant watches.
    proof fn lemma_leaf_update_wf(pre: Ui, post: Ui, c: int, v: ViewValue)
        requires
            pre.wf_base(),
            pre.closed_kids_visited_except(c),
            pre.in_frame(),
            0 <= c < pre.tree.n(),
            pre.tree.alive@[c],
            !is_container_kind(kind_of(pre.tree.views@[c])),
            kind_of(v) == kind_of(pre.tree.views@[c]),
            post.tree.views@ == pre.tree.views@.update(c, v),
            post.tree.alive@ == pre.tree.alive@,
            post.tree.parent@ == pre.tree.parent@,
            post.tree.children@ == pre.tree.children@,
            post.tree.key@ == pre.tree.key@,
            post.tree.size@ == pre.tree.size@,
            post.tree.rect@ == pre.tree.rect@,
            post.tree.visited@ == pre.tree.visited@,
            post.frames@ == pre.frames@,
            post.created == pre.created,
            post.removed == pre.removed,
        ensures
            post.wf(),
    {
        assert(post.tree.same_len());
        Tree::lemma_wf_preserved(pre.tree, post.tree);
        assert(kind_of(post.tree.views@[0]) == kind_of(pre.tree.views@[0]));
        assert forall|j: int| 0 <= j < post.frames.len() implies post.frame_ok(j) by {
            assert(pre.frame_ok(j));
            assert(post.frames@[j] == pre.frames@[j]);
            assert(pre.frames@[j].id != c);
            assert(post.tree.views@[pre.frames@[j].id as int] == pre.tree.views@[pre.frames@[j].id as int]);
            assert forall|m: int|
                0 <= m < post.frames@[j].new_children.len() implies post.entry_ok(
                post.frames@[j].id as int,
                post.frames@[j].new_children@[m] as int,
            ) by {
                assert(pre.entry_ok(pre.frames@[j].id as int, pre.frames@[j].new_children@[m] as int));
            }
        }
        assert(post.visited_parent_ok()) by {
            assert(pre.visited_parent_ok());
        }
        assert forall|i: int, k2: int|
            0 <= i < post.tree.n() && i != -1 && post.tree.alive@[i] && post.tree.visited@[i]
                && !post.on_stack(i) && 0 <= k2 < post.tree.kids(i).len() implies post.tree.visited@[
            post.tree.kids(i)[k2] as int] by {
            assert forall|j: int|
                0 <= j < pre.frames.len() && pre.frames@[j].id == i implies false by {
                assert(post.frames@[j].id == i);
                assert(post.on_stack(i));
            }
            assert(!pre.on_stack(i));
            if i != c {
                assert(pre.tree.visited@[pre.tree.kids(i)[k2] as int]);
            } else {
                assert(pre.tree.kids(c).len() == 0);
            }
        }
        assert(post.wf());
    }

    /// Opening a scope on a freshly claimed container node (its view
    /// rewritten in kind, a new cursor pushed) re-establishes the invariant.
    proof fn lemma_begin_container_wf(pre: Ui, post: Ui, c: int, v: ViewValue)
        requires
            pre.wf_base(),
            pre.closed_kids_visited_except(c),
            pre.in_frame(),
            0 <= c < pre.tree.n(),
            pre.tree.alive@[c],
            pre.tree.visited@[c],
            is_container_kind(kind_of(pre.tree.views@[c])),
            kind_of(v) == kind_of(pre.tree.views@[c]),
            forall|j: int| 0 <= j < pre.frames.len() ==> (#[trigger] pre.frames@[j]).id != c,
            post.tree.views@ == pre.tree.views@.update(c, v),
            post.tree.alive@ == pre.tree.alive@,
            post.tree.parent@ == pre.tree.parent@,
            post.tree.children@ == pre.tree.children@,
            post.tree.key@ == pre.tree.key@,
            post.tree.size@ == pre.tree.size@,
            post.tree.rect@ == pre.tree.rect@,
            post.tree.visited@ == pre.tree.visited@,
            post.frames@.len() == pre.frames@.len() + 1,
            forall|j: int| 0 <= j < pre.frames.len() ==> post.frames@[j] == pre.frames@[j],
            post.frames@.last().id == c,
            post.frames@.last().cursor == 0,
            post.frames@.last().new_children@ == Seq::<usize>::empty(),
            post.created == pre.created,
            post.removed == pre.removed,
        ensures
            post.wf(),
    {
        assert(post.tree.same_len());
        Tree::lemma_wf_preserved(pre.tree, post.tree);
        assert(post.frames@[0] == pre.frames@[0]);
        assert forall|j: int| 0 <= j < post.frames.len() implies post.frame_ok(j) by {
            if j < pre.frames.len() {
                assert(pre.frame_ok(j));
                assert(post.frames@[j] == pre.frames@[j]);
                assert(pre.frames@[j].id != c);
                assert(post.tree.views@[pre.frames@[j].id as int] == pre.tree.views@[pre.frames@[j].id as int]);
                assert forall|m: int|
                    0 <= m < post.frames@[j].new_children.len() implies post.entry_ok(
                    post.frames@[j].id as int,
                    post.frames@[j].new_children@[m] as int,
                ) by {
                    assert(pre.entry_ok(pre.frames@[j].id as int, pre.frames@[j].new_children@[m] as int));
                }
            } else {
                assert(post.frames@[j] == post.frames@.last());
            }
        }
        assert forall|j1: int, j2: int|
            0 <= j1 < j2 < post.frames.len() implies post.frames@[j1].id != post.frames@[j2].id by {
            if j2 < pre.frames.len() {
                assert(pre.frames@[j1].id != pre.frames@[j2].id);
            } else {
                assert(pre.frames@[j1].id != c);
            }
        }
        assert(post.visited_parent_ok()) by {
            assert(pre.visited_parent_ok());
        }
        assert forall|i: int, k2: int|
            0 <= i < post.tree.n() && i != -1 && post.tree.alive@[i] && post.tree.visited@[i]
                && !post.on_stack(i) && 0 <= k2 < post.tree.kids(i).len() implies post.tree.visited@[
            post.tree.kids(i)[k2] as int] by {
            assert forall|j: int|
                0 <= j < pre.frames.len() && pre.frames@[j].id == i implies false by {
                assert(post.frames@[j].id == i);
                assert(post.on_stack(i));
            }
            assert(!pre.on_stack(i));
            assert(i != c) by {
                assert(post.frames@[post.frames@.len() - 1].id == c);
                if i == c {
                    assert(post.on_stack(i));
                }
            }
            assert(pre.tree.visited@[pre.tree.kids(i)[k2] as int]);
        }
        assert(post.wf());
    }

    /// Everything one button call does: the duplicate-key error changes
    /// nothing; a match adopts the builder into the existing node at the
    /// cursor (the response reports its pre-update state, or `Disabled` when
    /// the builder disables it, suppressing a pending click); anything else
    /// appends a fresh node holding the builder.
    pub open spec fn spec_show_button(
        pre: Ui,
        post: Ui,
        builder: Button,
        key: Option<u64>,
        r: Result<ButtonResponse, UiError>,
    ) -> bool {
        &&& post.in_frame()
        &&& post.frames.len() == pre.frames.len()
        &&& post.top().id == pre.top().id
        &&& post.removed == pre.removed
        &&& match r {
            Result::Err(e) => {
                &&& e is DuplicateKey
                &&& key is Some
                &&& pre.top().keys@.contains(key->0)
                &&& post.tree == pre.tree
                &&& post.frames@ == pre.frames@
                &&& post.created == pre.created
            },
            Result::Ok(resp) => {
                &&& (key is Some ==> !pre.top().keys@.contains(key->0))
                &&& post.top().keys@ == (if key is Some {
                    pre.top().keys@.push(key->0)
                } else {
                    pre.top().keys@
                })
                &&& match pre.match_candidate(ViewKind::Button, key) {
                    Option::Some(c) => {
                        &&& pre.tree.views@[c as int] is Button
                        &&& resp == (ButtonResponse {
                            state: if builder.disabled {
                                ButtonState::Disabled
                            } else {
                                pre.tree.views@[c as int]->Button_0.state
                            },
                        })
                        &&& post.created == pre.created
                        &&& post.tree.n() == pre.tree.n()
                        &&& post.tree.alive@ == pre.tree.alive@
                        &&& post.tree.parent@ == pre.tree.parent@
                        &&& post.tree.children@ == pre.tree.children@
                        &&& post.tree.key@ == pre.tree.key@
                        &&& post.tree.size@ == pre.tree.size@
                        &&& post.tree.rect@ == pre.tree.rect@
                        &&& post.tree.visited@ == pre.tree.visited@.update(c as int, true)
                        &&& post.tree.views@ == pre.tree.views@.update(
                            c as int,
                            ViewValue::Button(
                                Button {
                                    state: spec_update_transition(
                                        pre.tree.views@[c as int]->Button_0.state,
                                        builder.disabled,
                                    ),
                                    ..builder
                                },
                            ),
                        )
                        &&& post.top().cursor == pre.top().cursor + 1
                        &&& post.top().new_children@ == pre.top().new_children@.push(c)
                        &&& post.updated == spec_bump(pre.updated)
                    },
                    Option::None => {
                        &&& resp == (ButtonResponse { state: builder.state })
                        &&& post.created == pre.created + 1
                        &&& post.tree.n() == pre.tree.n() + 1
                        &&& post.tree.views@ == pre.tree.views@.push(ViewValue::Button(builder))
                        &&& post.tree.alive@ == pre.tree.alive@.push(true)
                        &&& post.tree.parent@ == pre.tree.parent@.push(Some(pre.top().id))
                        &&& post.tree.key@ == pre.tree.key@.push(key)
                        &&& post.tree.kids(pre.tree.n()) == Seq::<usize>::empty()
                        &&& post.top().new_children@ == pre.top().new_children@.push(
                            pre.tree.n() as usize,
                        )
                        &&& post.updated == pre.updated
                    },
                }
            },
        }
    }

    /// Show a button at the current call position. A match against the
    /// previous frame adopts the builder's arguments into the existing node
    /// (keeping its interaction state, which the response reports); anything
    /// else creates a fresh node. A duplicate explicit key at this nesting
    /// level is reported as a usage error and changes nothing.
    pub fn show_button(&mut self, builder: Button, key: Option<u64>) -> (r: Result<
        ButtonResponse,
        UiError,
    >)
        requires
            old(self).wf(),
            old(self).in_frame(),
        ensures
            final(self).wf(),
            Ui::spec_show_button(*old(self), *final(self), builder, key, r),
    {
        let r = self.probe(ViewKind::Button, key);
        match r {
            Result::Err(e) => Result::Err(e),
            Result::Ok(Option::Some(c)) => {
                let ghost mid = *self;
                let prior: ButtonState = match &self.tree.views[c] {
                    ViewValue::Button(b) => b.state,
                    _ => vstd::pervasive::unreached(),
                };
                let new_state = if builder.disabled {
                    ButtonState::Disabled
                } else if matches!(prior, ButtonState::Clicked) {
                    ButtonState::Hovered
                } else if matches!(prior, ButtonState::Disabled) {
                    ButtonState::Idle
                } else {
                    prior
                };
                let resp = ButtonResponse {
                    state: if builder.disabled {
                        ButtonState::Disabled
                    } else {
                        prior
                    },
                };
                self.tree.views[c] = ViewValue::Button(Button { state: new_state, ..builder });
                proof {
                    Ui::lemma_leaf_update_wf(
                        mid,
                        *self,
                        c as int,
                        self.tree.views@[c as int],
                    );
                }
                Result::Ok(resp)
            },
            Result::Ok(Option::None) => {
                let resp = ButtonResponse { state: builder.state };
                let _ = self.create_node(ViewValue::Button(builder), key);
                Result::Ok(resp)
            },
        }
    }

    /// Show a button without an explicit key.
    pub fn button(&mut self, builder: Button) -> (r: Result<ButtonResponse, UiError>)
        requires
            old(self).wf(),
            old(self).in_frame(),
        ensures
            final(self).wf(),
            r is Ok,
            Ui::spec_show_button(*old(self), *final(self), builder, None, r),
    {
        let r = self.show_button(builder, Option::None);
        proof {
            assert(r is Ok);
        }
        r
    }

    /// Show a button under an explicit reconciliation key. Two sibling calls
    /// with the same key are a usage error: the second call changes nothing
    /// and the two are never merged into one node's state.
    pub fn button_keyed(&mut self, builder: Button, key: u64) -> (r: Result<
        ButtonResponse,
        UiError,
    >)
        requires
            old(self).wf(),
            old(self).in_frame(),
        ensures
            final(self).wf(),
            r is Err <==> old(self).top().keys@.contains(key),
            Ui::spec_show_button(*old(self), *final(self), builder, Some(key), r),
    {
        self.show_button(builder, Option::Some(key))
    }

    /// Show a leaf that only occupies a fixed size.
    pub fn spacer(&mut self, size: Size) -> (r: Result<(), UiError>)
        requires
            old(self).wf(),
            old(self).in_frame(),
        ensures
            final(self).wf(),
            final(self).in_frame(),
            r is Ok,
            final(self).frames.len() == old(self).frames.len(),
            final(self).top().id == old(self).top().id,
            final(self).removed == old(self).removed,
            final(self).top().keys@ == old(self).top().keys@,
            match old(self).match_candidate(ViewKind::Spacer, None) {
                Option::Some(c) => {
                    &&& final(self).created == old(self).created
                    &&& final(self).tree.n() == old(self).tree.n()
                    &&& final(self).tree.views@ == old(self).tree.views@.update(
                        c as int,
                        ViewValue::Spacer(size),
                    )
                    &&& final(self).tree.visited@ == old(self).tree.visited@.update(c as int, true)
                    &&& final(self).tree.alive@ == old(self).tree.alive@
                    &&& final(self).tree.children@ == old(self).tree.children@
                    &&& final(self).tree.key@ == old(self).tree.key@
                    &&& final(self).tree.parent@ == old(self).tree.parent@
                    &&& final(self).top().cursor == old(self).top().cursor + 1
                    &&& final(self).top().new_children@ == old(self).top().new_children@.push(c)
                },
                Option::None => {
                    &&& final(self).created == old(self).created + 1
                    &&& final(self).tree.n() == old(self).tree.n() + 1
                    &&& final(self).tree.views@ == old(self).tree.views@.push(
                        ViewValue::Spacer(size),
                    )
                    &&& final(self).tree.alive@ == old(self).tree.alive@.push(true)
                    &&& final(self).tree.key@ == old(self).tree.key@.push(None)
                    &&& final(self).tree.parent@ == old(self).tree.parent@.push(
                        Some(old(self).top().id),
                    )
                    &&& final(self).tree.visited@ == old(self).tree.visited@.push(true)
                    &&& (forall|i: int|
                        0 <= i < old(self).tree.n() ==> final(self).tree.kids(i) == old(self).tree.kids(i))
                    &&& final(self).tree.kids(old(self).tree.n()) == Seq::<usize>::empty()
                    &&& final(self).top().new_children@ == old(self).top().new_children@.push(
                        old(self).tree.n() as usize,
                    )
                },
            },
    {
        let r = self.probe(ViewKind::Spacer, Option::None);
        match r {
            Result::Err(e) => vstd::pervasive::unreached(),
            Result::Ok(Option::Some(c)) => {
                let ghost mid = *self;
                self.tree.views[c] = ViewValue::Spacer(size);
                proof {
                    Ui::lemma_leaf_update_wf(mid, *self, c as int, self.tree.views@[c as int]);
                }
                Result::Ok(())
            },
            Result::Ok(Option::None) => {
                let _ = self.create_node(ViewValue::Spacer(size), Option::None);
                Result::Ok(())
            },
        }
    }

    /// Show one whole frame holding a row of fixed-size leaves. Its contract
    /// is the reconciliation-idempotence law in executable form: the frame
    /// always leaves the tree holding the root and exactly one spacer per
    /// entry of `sizes`, in order — and re-run on a tree that already has
    /// that shape (the result of the same call sequence with unchanged
    /// arguments), it creates no node and removes no node: it only updates
    /// the existing nodes in place.
    pub fn spacer_row(&mut self, sizes: &Vec<Size>) -> (r: Result<(), UiError>)
        requires
            old(self).wf(),
            !old(self).in_frame(),
        ensures
            final(self).wf(),
            !final(self).in_frame(),
            r is Ok,
            final(self).tree.kids(0).len() == sizes@.len(),
            forall|k: int|
                0 <= k < sizes@.len() ==> final(self).tree.views@[(#[trigger] final(self).tree.kids(0)[k]) as int] == ViewValue::Spacer(sizes@[k]),
            spacer_row_shape(final(self).tree, sizes@),
            spacer_row_shape(old(self).tree, sizes@) ==> final(self).created == 0 && final(self).removed == 0 && final(self).tree.n() == old(self).tree.n(),
    {
        self.begin_frame();
        let ghost h = spacer_row_shape(old(self).tree, sizes@);
        let ghost kids0 = old(self).tree.kids(0);
        let mut k: usize = 0;
        while k < sizes.len()
            invariant
                old(self).wf(),
                kids0 == old(self).tree.kids(0),
                h == spacer_row_shape(old(self).tree, sizes@),
                self.wf(),
                self.in_frame(),
                self.frames.len() == 1,
                self.top().id == 0,
                k <= sizes@.len(),
                self.top().new_children@.len() == k,
                forall|j: int|
                    0 <= j < k ==> self.tree.views@[(#[trigger] self.top().new_children@[j]) as int]
                        == ViewValue::Spacer(sizes@[j]) && self.tree.key@[self.top().new_children@[j] as int] is None,
                forall|i: int|
                    0 <= i < self.tree.n() ==> ((#[trigger] self.tree.visited@[i]) <==> (i == 0
                        || self.top().new_children@.contains(i as usize))),
                self.tree.n() >= old(self).tree.n(),
                forall|i: int|
                    0 <= i < old(self).tree.n() && !(#[trigger] self.tree.visited@[i])
                        ==> self.tree.views@[i] == old(self).tree.views@[i] && self.tree.key@[i]
                        == old(self).tree.key@[i],
                forall|i: int|
                    0 <= i < old(self).tree.n() ==> (#[trigger] self.tree.alive@[i]) == old(self).tree.alive@[i],
                self.tree.kids(0) == kids0,
                h ==> self.created == 0 && self.tree.n() == old(self).tree.n()
                    && self.top().cursor == k && self.top().new_children@ == kids0.take(k as int),
            decreases sizes@.len() - k,
        {
            let ghost pre = *self;
            proof {
                if h {
                    let c = kids0[k as int];
                    assert(old(self).tree.child_ok(0, c as int));
                    assert(!pre.top().new_children@.contains(c)) by {
                        if pre.top().new_children@.contains(c) {
                            let j = choose|j: int|
                                0 <= j < pre.top().new_children@.len()
                                    && pre.top().new_children@[j] == c;
                            assert(kids0.take(k as int)[j] == kids0[j]);
                            assert(kids0[j] == kids0[k as int]);
                        }
                    }
                    assert(!pre.tree.visited@[c as int]);
                    assert(pre.tree.views@[c as int] == old(self).tree.views@[c as int]);
                    assert(pre.match_candidate(ViewKind::Spacer, None) == Some(c));
                }
            }
            let _ = self.spacer(sizes[k]);
            proof {
                let nc0 = pre.top().new_children@;
                let nc1 = self.top().new_children@;
                let c = nc1.last();
                assert(nc1 == nc0.push(c));
                assert forall|i: usize| #[trigger] nc1.contains(i) implies (nc0.contains(i) || i
                    == c) by {
                    let j = choose|j: int| 0 <= j < nc1.len() && nc1[j] == i;
                    if j < nc0.len() {
                        assert(nc0[j] == i);
                    }
                }
                assert forall|i: usize| nc0.contains(i) implies #[trigger] nc1.contains(i) by {
                    let j = choose|j: int| 0 <= j < nc0.len() && nc0[j] == i;
                    assert(nc1[j] == i);
                }
                assert(nc1.contains(c));
                assert(pre.frame_ok(0));
                assert(!nc0.contains(c)) by {
                    match pre.match_candidate(ViewKind::Spacer, None) {
                        Option::Some(m) => {
                            assert(!pre.tree.visited@[m as int]);
                        },
                        Option::None => {
                            assert(c == pre.tree.n() as usize);
                            if nc0.contains(c) {
                                let j = choose|j: int| 0 <= j < nc0.len() && nc0[j] == c;
                                assert(pre.entry_ok(0, nc0[j] as int));
                            }
                        },
                    }
                }
                assert forall|j: int|
                    0 <= j < k + 1 implies self.tree.views@[(nc1[j]) as int] == ViewValue::Spacer(
                    sizes@[j],
                ) && self.tree.key@[nc1[j] as int] is None by {
                    if j < k {
                        assert(nc1[j] == nc0[j]);
                        assert(nc0.contains(nc0[j]));
                        assert(nc0[j] != c);
                        assert(pre.entry_ok(0, nc0[j] as int));
                        assert(self.tree.views@[nc0[j] as int] == pre.tree.views@[nc0[j] as int]);
                        assert(self.tree.key@[nc0[j] as int] == pre.tree.key@[nc0[j] as int]);
                    } else {
                        assert(nc1[j] == c);
                    }
                }
                if h {
                    assert(nc1 =~= kids0.take((k + 1) as int)) by {
                        assert(nc0 == kids0.take(k as int));
                        assert(kids0[k as int] == c);
                    }
                }
            }
            k += 1;
        }
        let ghost pre_end = *self;
        let r = self.end_frame();
        proof {
            let nc = pre_end.top().new_children@;
            assert(final(self).tree.kids(0) == nc);
            assert forall|i: int|
                0 < i < self.tree.n() && (#[trigger] self.tree.alive@[i]) implies self.tree.kids(
                0,
            ).contains(i as usize) by {
                assert(pre_end.tree.visited@[i]);
            }
            assert(spacer_row_shape(self.tree, sizes@));
            if h {
                assert forall|i: int|
                    0 < i < pre_end.tree.n() && pre_end.tree.alive@[i] implies #[trigger] pre_end.tree.visited@[i] by {
                    assert(old(self).tree.alive@[i]);
                    assert(kids0.contains(i as usize));
                    assert(nc =~= kids0) by {
                        assert(nc == kids0.take(sizes@.len() as int));
                        assert(kids0.len() == sizes@.len());
                    }
                }
                assert(self.removed == 0);
            }
        }
        r
    }

    /// Everything opening one container scope does: a duplicate key errors
    /// and changes nothing; a match adopts the view value into the existing
    /// node and opens a scope on it; anything else appends a fresh node
    /// holding the view and opens a scope on that. Children shown until the
    /// matching `end` become the scope node's children.
    pub open spec fn spec_begin_container(
        pre: Ui,
        post: Ui,
        view: ViewValue,
        key: Option<u64>,
        r: Result<(), UiError>,
    ) -> bool {
        &&& post.in_frame()
        &&& post.removed == pre.removed
        &&& match r {
            Result::Err(e) => {
                &&& e is DuplicateKey
                &&& key is Some
                &&& pre.top().keys@.contains(key->0)
                &&& post.tree == pre.tree
                &&& post.frames@ == pre.frames@
                &&& post.created == pre.created
            },
            Result::Ok(_) => {
                &&& (key is Some ==> !pre.top().keys@.contains(key->0))
                &&& post.frames.len() == pre.frames.len() + 1
                &&& post.top().cursor == 0
                &&& post.top().new_children@ == Seq::<usize>::empty()
                &&& match pre.match_candidate(kind_of(view), key) {
                    Option::Some(c) => {
                        &&& post.top().id == c
                        &&& post.created == pre.created
                        &&& post.tree.n() == pre.tree.n()
                        &&& post.tree.views@ == pre.tree.views@.update(c as int, view)
                        &&& post.tree.visited@ == pre.tree.visited@.update(c as int, true)
                        &&& post.tree.alive@ == pre.tree.alive@
                        &&& post.tree.children@ == pre.tree.children@
                        &&& post.frames@[pre.frames.len() - 1].cursor == pre.top().cursor + 1
                        &&& post.frames@[pre.frames.len() - 1].new_children@
                            == pre.top().new_children@.push(c)
                    },
                    Option::None => {
                        &&& post.top().id == pre.tree.n()
                        &&& post.created == pre.created + 1
                        &&& post.tree.n() == pre.tree.n() + 1
                        &&& post.tree.views@ == pre.tree.views@.push(view)
                        &&& post.tree.alive@ == pre.tree.alive@.push(true)
                        &&& post.frames@[pre.frames.len() - 1].new_children@
                            == pre.top().new_children@.push(pre.tree.n() as usize)
                    },
                }
            },
        }
    }

    fn begin_container(&mut self, view: ViewValue, key: Option<u64>) -> (r: Result<(), UiError>)
        requires
            old(self).wf(),
            old(self).in_frame(),
            is_container_kind(kind_of(view)),
        ensures
            final(self).wf(),
            Ui::spec_begin_container(*old(self), *final(self), view, key, r),
    {
        let kind = view.kind();
        let r = self.probe(kind, key);
        match r {
            Result::Err(e) => Result::Err(e),
            Result::Ok(Option::Some(c)) => {
                let ghost mid = *self;
                self.tree.views[c] = view;
                self.frames.push(
                    FrameCursor { id: c, cursor: 0, new_children: Vec::new(), keys: Vec::new() },
                );
                proof {
                    assert forall|j: int|
                        0 <= j < mid.frames.len() implies (#[trigger] mid.frames@[j]).id != c by {
                        assert(old(self).frame_ok(j));
                        assert(old(self).tree.visited@[old(self).frames@[j].id as int]);
                        assert(!old(self).tree.visited@[c as int]);
                        assert(mid.frames@[j].id == old(self).frames@[j].id);
                    }
                    Ui::lemma_begin_container_wf(mid, *self, c as int, self.tree.views@[c as int]);
                }
                Result::Ok(())
            },
            Result::Ok(Option::None) => {
                let ghost pre2 = *self;
                let id = self.create_node(view, key);
                let ghost mid = *self;
                self.frames.push(
                    FrameCursor { id, cursor: 0, new_children: Vec::new(), keys: Vec::new() },
                );
                proof {
                    assert(mid.closed_kids_visited_except(id as int));
                    assert forall|j: int|
                        0 <= j < mid.frames.len() implies (#[trigger] mid.frames@[j]).id != id by {
                        assert(pre2.frame_ok(j));
                        assert(mid.frames@[j].id == pre2.frames@[j].id || j == mid.frames.len() - 1);
                        assert(pre2.frames@[j].id < pre2.tree.n());
                    }
                    assert(mid.tree.views@ == mid.tree.views@.update(id as int, view)) by {
                        assert(mid.tree.views@[id as int] == view);
                        assert(mid.tree.views@ =~= mid.tree.views@.update(id as int, view));
                    }
                    Ui::lemma_begin_container_wf(mid, *self, id as int, view);
                }
                Result::Ok(())
            },
        }
    }

    /// Open a stack container along `axis`; children shown until the
    /// matching `end` become its children.
    pub fn begin_stack(&mut self, axis: Axis) -> (r: Result<(), UiError>)
        requires
            old(self).wf(),
            old(self).in_frame(),
        ensures
            final(self).wf(),
            r is Ok,
            Ui::spec_begin_container(*old(self), *final(self), ViewValue::Stack(axis), None, r),
    {
        let r = self.begin_container(ViewValue::Stack(axis), Option::None);
        match r {
            Result::Ok(_) => Result::Ok(()),
            Result::Err(_) => vstd::pervasive::unreached(),
        }
    }

    /// Open a stack container under an explicit reconciliation key.
    pub fn begin_stack_keyed(&mut self, axis: Axis, key: u64) -> (r: Result<(), UiError>)
        requires
            old(self).wf(),
            old(self).in_frame(),
        ensures
            final(self).wf(),
            r is Err <==> old(self).top().keys@.contains(key),
            Ui::spec_begin_container(
                *old(self),
                *final(self),
                ViewValue::Stack(axis),
                Some(key),
                r,
            ),
    {
        self.begin_container(ViewValue::Stack(axis), Option::Some(key))
    }

    /// Open a debug-highlight overlay: its children lay out untouched while
    /// it records interaction markers over them for the render pass.
    pub fn begin_debug_highlight(&mut self, builder: DebugHighlight) -> (r: Result<(), UiError>)
        requires
            old(self).wf(),
            old(self).in_frame(),
        ensures
            final(self).wf(),
            r is Ok,
            Ui::spec_begin_container(
                *old(self),
                *final(self),
                ViewValue::DebugHighlight(builder),
                None,
                r,
            ),
    {
        let r = self.begin_container(ViewValue::DebugHighlight(builder), Option::None);
        match r {
            Result::Ok(_) => Result::Ok(()),
            Result::Err(_) => vstd::pervasive::unreached(),
        }
    }

    /// Abort every scope the call sequence left open, committing what each
    /// had built so far: the recovery for a mismatched begin/end, so a
    /// malformed frame degrades instead of wedging the reconciler.
    pub fn abort_open_scopes(&mut self)
        requires
            old(self).wf(),
            old(self).in_frame(),
        ensures
            final(self).wf(),
            final(self).in_frame(),
            final(self).frames.len() == 1,
            final(self).created == old(self).created,
            final(self).updated == old(self).updated,
            final(self).removed == old(self).removed,
    {
        while self.frames.len() > 1
            invariant
                self.wf(),
                self.in_frame(),
                self.created == old(self).created,
                self.updated == old(self).updated,
                self.removed == old(self).removed,
            decreases self.frames.len(),
        {
            let r = self.end();
            proof {
                assert(r is Ok);
            }
        }
    }

    /// Close the innermost open scope, committing the children the frame's
    /// calls rebuilt for it. `end` without a matching `begin` is a usage
    /// error.
    pub fn end(&mut self) -> (r: Result<(), UiError>)
        requires
            old(self).wf(),
            old(self).in_frame(),
        ensures
            final(self).wf(),
            final(self).in_frame(),
            final(self).created == old(self).created,
            final(self).updated == old(self).updated,
            final(self).removed == old(self).removed,
            match r {
                Result::Err(e) => {
                    &&& e is MismatchedScope
                    &&& old(self).frames.len() == 1
                    &&& final(self).tree == old(self).tree
                    &&& final(self).frames@ == old(self).frames@
                },
                Result::Ok(_) => {
                    &&& old(self).frames.len() > 1
                    &&& final(self).frames@ == old(self).frames@.drop_last()
                    &&& final(self).tree.children@ == old(self).tree.children@.update(
                        old(self).top().id as int,
                        old(self).top().new_children,
                    )
                    &&& final(self).tree.kids(old(self).top().id as int) == old(self).top().new_children@
                    &&& final(self).tree.alive@ == old(self).tree.alive@
                    &&& final(self).tree.parent@ == old(self).tree.parent@
                    &&& final(self).tree.key@ == old(self).tree.key@
                    &&& final(self).tree.views@ == old(self).tree.views@
                    &&& final(self).tree.size@ == old(self).tree.size@
                    &&& final(self).tree.rect@ == old(self).tree.rect@
                    &&& final(self).tree.visited@ == old(self).tree.visited@
                },
            },
    {
        if self.frames.len() <= 1 {
            return Result::Err(UiError::MismatchedScope);
        }
        let f = match self.frames.pop() {
            Option::Some(f) => f,
            Option::None => vstd::pervasive::unreached(),
        };
        let p = f.id;
        proof {
            assert(old(self).frame_ok(old(self).frames.len() - 1));
        }
        self.tree.children[p] = f.new_children;
        proof {
            let pre = *old(self);
            let pi = p as int;
            let fl = pre.frames.len() as int;
            assert(self.frames@ == pre.frames@.drop_last());
            assert(self.tree.kids(pi) == pre.top().new_children@);
            assert forall|j1: int, j2: int|
                0 <= j1 < j2 < fl implies pre.frames@[j1].id != pre.frames@[j2].id by {}
            assert forall|i: int| 0 < i < self.tree.n() && self.tree.alive@[i] implies (
            self.tree.parent@[i] is Some && 0 <= (self.tree.parent@[i])->0 < i
                && self.tree.alive@[self.tree.parent@[i]->0 as int]) by {
                assert(pre.tree.alive@[i]);
            }
            assert forall|i: int, k: int|
                0 <= i < self.tree.n() && self.tree.alive@[i] && 0 <= k < self.tree.kids(
                    i,
                ).len() implies self.tree.child_ok(i, self.tree.kids(i)[k] as int) by {
                if i == pi {
                    assert(pre.entry_ok(pi, pre.top().new_children@[k] as int));
                } else {
                    assert(self.tree.kids(i) == pre.tree.kids(i));
                    assert(pre.tree.child_ok(i, pre.tree.kids(i)[k] as int));
                }
            }
            assert forall|i: int, k1: int, k2: int|
                0 <= i < self.tree.n() && self.tree.alive@[i] && 0 <= k1 < k2 < self.tree.kids(
                    i,
                ).len() implies self.tree.kids(i)[k1] != self.tree.kids(i)[k2] by {
                if i == pi {
                    assert(pre.frame_ok(fl - 1));
                } else {
                    assert(self.tree.kids(i) == pre.tree.kids(i));
                }
            }
            assert forall|i: int|
                0 <= i < self.tree.n() && self.tree.alive@[i] && !is_container_kind(
                    kind_of(self.tree.views@[i]),
                ) implies self.tree.kids(i).len() == 0 by {
                assert(pre.frame_ok(fl - 1));
                if i != pi {
                    assert(self.tree.kids(i) == pre.tree.kids(i));
                }
            }
            assert(self.tree.wf());
            assert forall|j: int| 0 <= j < self.frames.len() implies self.frame_ok(j) by {
                assert(pre.frame_ok(j));
                assert(self.frames@[j] == pre.frames@[j]);
                assert(pre.frames@[j].id != pre.frames@[fl - 1].id);
                assert(self.tree.kids(self.frames@[j].id as int) == pre.tree.kids(
                    pre.frames@[j].id as int,
                ));
                assert forall|m: int|
                    0 <= m < self.frames@[j].new_children.len() implies self.entry_ok(
                    self.frames@[j].id as int,
                    self.frames@[j].new_children@[m] as int,
                ) by {
                    assert(pre.entry_ok(pre.frames@[j].id as int, pre.frames@[j].new_children@[m] as int));
                }
            }
            assert(self.visited_parent_ok()) by {
                assert(pre.visited_parent_ok());
            }
            assert forall|i: int, k2: int|
                0 <= i < self.tree.n() && i != -1 && self.tree.alive@[i] && self.tree.visited@[i]
                    && !self.on_stack(i) && 0 <= k2 < self.tree.kids(i).len() implies self.tree.visited@[
                self.tree.kids(i)[k2] as int] by {
                if i == pi {
                    assert(pre.frame_ok(fl - 1));
                    assert(pre.entry_ok(pi, pre.top().new_children@[k2] as int));
                } else {
                    assert forall|j: int|
                        0 <= j < fl - 1 && pre.frames@[j].id == i implies false by {
                        assert(self.frames@[j].id == i);
                        assert(self.on_stack(i));
                    }
                    assert(!pre.on_stack(i));
                    assert(self.tree.kids(i) == pre.tree.kids(i));
                    assert(pre.tree.visited@[pre.tree.kids(i)[k2] as int]);
                }
            }
            assert(self.wf());
        }
        Result::Ok(())
    }

    /// Close the frame: the root's rebuilt child list is committed, and
    /// every node the frame's call sequence did not visit is removed
    /// (removal is deferred to exactly this point). A frame finished while
    /// inner scopes are still open is a usage error and changes nothing.
    pub fn end_frame(&mut self) -> (r: Result<(), UiError>)
        requires
            old(self).wf(),
            old(self).in_frame(),
        ensures
            final(self).wf(),
            final(self).created == old(self).created,
            final(self).updated == old(self).updated,
            match r {
                Result::Err(e) => {
                    &&& e is MismatchedScope
                    &&& old(self).frames.len() != 1
                    &&& final(self).in_frame()
                    &&& final(self).tree == old(self).tree
                    &&& final(self).frames@ == old(self).frames@
                    &&& final(self).removed == old(self).removed
                },
                Result::Ok(_) => {
                    &&& old(self).frames.len() == 1
                    &&& !final(self).in_frame()
                    &&& final(self).tree.n() == old(self).tree.n()
                    &&& final(self).tree.parent@ == old(self).tree.parent@
                    &&& final(self).tree.key@ == old(self).tree.key@
                    &&& final(self).tree.views@ == old(self).tree.views@
                    &&& final(self).tree.size@ == old(self).tree.size@
                    &&& final(self).tree.rect@ == old(self).tree.rect@
                    &&& final(self).tree.children@ == old(self).tree.children@.update(
                        0,
                        old(self).top().new_children,
                    )
                    &&& final(self).tree.kids(0) == old(self).top().new_children@
                    &&& forall|i: int|
                        0 <= i < old(self).tree.n() ==> final(self).tree.alive@[i] == (old(self).tree.alive@[i] && (i == 0 || old(self).tree.visited@[i]))
                    &&& forall|i: int|
                        0 <= i < old(self).tree.n() ==> !(#[trigger] final(self).tree.visited@[i])
                    &&& ((final(self).removed == 0) <==> (forall|i: int|
                        0 < i < old(self).tree.n() && old(self).tree.alive@[i] ==> old(self).tree.visited@[i]))
                },
            },
    {
        if self.frames.len() != 1 {
            return Result::Err(UiError::MismatchedScope);
        }
        let f = match self.frames.pop() {
            Option::Some(f) => f,
            Option::None => vstd::pervasive::unreached(),
        };
        proof {
            assert(old(self).frame_ok(0));
            assert(f.id == 0);
        }
        self.tree.children[0] = f.new_children;
        self.tree.visited[0] = false;
        let ghost mid = self.tree;
        let n = self.tree.alive.len();
        let mut i: usize = 1;
        while i < n
            invariant
                1 <= i <= n,
                n == self.tree.alive.len(),
                self.tree.visited.len() == n,
                self.tree.parent@ == mid.parent@,
                self.tree.children@ == mid.children@,
                self.tree.key@ == mid.key@,
                self.tree.views@ == mid.views@,
                self.tree.size@ == mid.size@,
                self.tree.rect@ == mid.rect@,
                mid.alive.len() == n,
                mid.visited.len() == n,
                forall|j: int|
                    0 <= j < i ==> self.tree.alive@[j] == (mid.alive@[j] && (j == 0
                        || mid.visited@[j])),
                forall|j: int| i <= j < n ==> self.tree.alive@[j] == mid.alive@[j],
                forall|j: int| 0 <= j < i ==> !(#[trigger] self.tree.visited@[j]),
                forall|j: int| i <= j < n ==> self.tree.visited@[j] == mid.visited@[j],
                self.removed <= i - 1,
                (self.removed == 0 <==> (forall|j: int|
                    1 <= j < i && mid.alive@[j] ==> mid.visited@[j])),
                (self.removed != 0 ==> (exists|j: int|
                    1 <= j < i && mid.alive@[j] && !mid.visited@[j])),
                self.frames.len() == 0,
                self.created == old(self).created,
                self.updated == old(self).updated,
            decreases n - i,
        {
            let a = self.tree.alive[i];
            let v = self.tree.visited[i];
            if a && !v {
                self.tree.alive[i] = false;
                self.removed = self.removed + 1;
            }
            self.tree.visited[i] = false;
            proof {
                let ii = i as int;
                if a && !v {
                    assert(mid.alive@[ii] && !mid.visited@[ii]);
                    assert(!(forall|j: int|
                        1 <= j < ii + 1 && mid.alive@[j] ==> mid.visited@[j]));
                } else {
                    if self.removed != 0 {
                        let j0 = choose|j: int| 1 <= j < ii && mid.alive@[j] && !mid.visited@[j];
                        assert(1 <= j0 < ii + 1 && mid.alive@[j0] && !mid.visited@[j0]);
                        assert(!(forall|j: int|
                            1 <= j < ii + 1 && mid.alive@[j] ==> mid.visited@[j]));
                    }
                }
            }
            i += 1;
        }
        proof {
            let pre = *old(self);
            assert(mid.alive@ == pre.tree.alive@);
            assert forall|j: int| 1 <= j < n implies mid.visited@[j] == pre.tree.visited@[j] by {}
            assert(mid.children@ == pre.tree.children@.update(0, pre.top().new_children));
            assert(self.tree.kids(0) == pre.top().new_children@);
            assert(self.tree.same_len());
            assert(self.tree.alive@[0]);
            assert forall|i2: int| 0 < i2 < self.tree.n() && self.tree.alive@[i2] implies (
            self.tree.parent@[i2] is Some && 0 <= (self.tree.parent@[i2])->0 < i2
                && self.tree.alive@[self.tree.parent@[i2]->0 as int]) by {
                assert(pre.tree.alive@[i2]);
                assert(pre.tree.visited@[i2]);
                let pp = pre.tree.parent@[i2]->0 as int;
                assert(pre.tree.alive@[pp]);
                if pp != 0 {
                    assert(pre.tree.visited@[pp]);
                }
            }
            assert forall|i2: int, k: int|
                0 <= i2 < self.tree.n() && self.tree.alive@[i2] && 0 <= k < self.tree.kids(
                    i2,
                ).len() implies self.tree.child_ok(i2, self.tree.kids(i2)[k] as int) by {
                if i2 == 0 {
                    assert(pre.entry_ok(0, pre.top().new_children@[k] as int));
                    let c = pre.top().new_children@[k] as int;
                    assert(pre.tree.visited@[c]);
                    assert(self.tree.alive@[c]);
                } else {
                    assert(self.tree.kids(i2) == pre.tree.kids(i2));
                    assert(pre.tree.child_ok(i2, pre.tree.kids(i2)[k] as int));
                    let c = pre.tree.kids(i2)[k] as int;
                    assert(pre.tree.visited@[i2]);
                    assert(!pre.on_stack(i2)) by {
                        if pre.on_stack(i2) {
                            let j = choose|j: int|
                                0 <= j < pre.frames.len() && (#[trigger] pre.frames@[j]).id == i2;
                            assert(pre.frames@[0].id == 0);
                        }
                    }
                    assert(pre.tree.visited@[c]);
                    assert(self.tree.alive@[c]);
                }
            }
            assert forall|i2: int, k1: int, k2: int|
                0 <= i2 < self.tree.n() && self.tree.alive@[i2] && 0 <= k1 < k2 < self.tree.kids(
                    i2,
                ).len() implies self.tree.kids(i2)[k1] != self.tree.kids(i2)[k2] by {
                if i2 == 0 {
                    assert(pre.frame_ok(0));
                } else {
                    assert(self.tree.kids(i2) == pre.tree.kids(i2));
                    assert(pre.tree.alive@[i2]);
                }
            }
            assert forall|i2: int|
                0 <= i2 < self.tree.n() && self.tree.alive@[i2] && !is_container_kind(
                    kind_of(self.tree.views@[i2]),
                ) implies self.tree.kids(i2).len() == 0 by {
                assert(pre.frame_ok(0));
                if i2 != 0 {
                    assert(self.tree.kids(i2) == pre.tree.kids(i2));
                    assert(pre.tree.alive@[i2]);
                    assert(self.tree.views@[i2] == pre.tree.views@[i2]);
                }
            }
            assert(self.tree.wf());
            assert(is_container_kind(kind_of(self.tree.views@[0])));
            assert((self.removed == 0) <==> (forall|j: int|
                1 <= j < n && mid.alive@[j] ==> mid.visited@[j]));
            assert(((forall|j: int| 1 <= j < n && mid.alive@[j] ==> mid.visited@[j]) <==> (
            forall|j: int| 0 < j < pre.tree.n() && pre.tree.alive@[j] ==> pre.tree.visited@[j])))
                by {
                if (forall|j: int| 1 <= j < n && mid.alive@[j] ==> mid.visited@[j]) {
                    assert forall|j: int|
                        0 < j < pre.tree.n() && pre.tree.alive@[j] implies pre.tree.visited@[j] by {
                        assert(mid.alive@[j] == pre.tree.alive@[j]);
                        assert(mid.visited@[j] == pre.tree.visited@[j]);
                    }
                } else {
                    let j0 = choose|j: int| 1 <= j < n && mid.alive@[j] && !mid.visited@[j];
                    assert(pre.tree.alive@[j0] && !pre.tree.visited@[j0]);
                }
            }
            assert(self.wf());
            assert(self.tree.n() == pre.tree.n());
            assert(self.tree.parent@ == pre.tree.parent@);
            assert(self.tree.key@ == pre.tree.key@);
            assert(self.tree.views@ == pre.tree.views@);
            assert(self.tree.size@ == pre.tree.size@);
            assert(self.tree.rect@ == pre.tree.rect@);
            assert(self.tree.children@ == pre.tree.children@.update(0, pre.top().new_children));
            assert forall|i2: int| 0 <= i2 < pre.tree.n() implies self.tree.alive@[i2] == (
            pre.tree.alive@[i2] && (i2 == 0 || pre.tree.visited@[i2])) by {
                if i2 >= 1 {
                    assert(mid.alive@[i2] == pre.tree.alive@[i2]);
                    assert(mid.visited@[i2] == pre.tree.visited@[i2]);
                    assert(self.tree.alive@[i2] == (mid.alive@[i2] && mid.visited@[i2]));
                } else {
                    assert(self.tree.alive@[0] == mid.alive@[0]);
                }
            }
            assert forall|i2: int| 0 <= i2 < pre.tree.n() implies !self.tree.visited@[i2] by {}
            assert((self.removed == 0) <==> (forall|j: int|
                0 < j < pre.tree.n() && pre.tree.alive@[j] ==> pre.tree.visited@[j]));
        }
        Result::Ok(())
    }
}

} // verus!
