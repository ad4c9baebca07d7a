use vstd::prelude::*;
use crate::axis::Axis;
use crate::button::spec_button_size;
use crate::label::label_chars;
use crate::math::{Rect, Size, Space, sat_add, sat_add_spec};
use crate::tree::{Tree, ViewValue, ViewKind};

verus! {

/// The size the constraint solver gives a node: leaves ask for their content
/// (a spacer's fixed size, a button's label row plus margin), a stack sums
/// its children along its axis and takes the maximum across it, a debug
/// highlight takes the componentwise maximum of its children — and every
/// answer is clamped into the space's own bounds.
pub open spec fn spec_layout(t: Tree, id: int, space: Space) -> Size
    decreases t.n() - id, t.kids(id).len() + 1,
{
    if 0 <= id < t.n() {
        match t.views@[id] {
            ViewValue::Spacer(sz) => space.spec_fit(sz),
            ViewValue::Button(b) => space.spec_fit(spec_button_size(label_chars(b.label), b.margin)),
            ViewValue::Stack(axis) => {
                let szs = spec_child_sizes(t, id, t.kids(id).len() as int, space.spec_loosen());
                space.spec_fit(
                    axis.spec_pack(spec_sum_main(axis, szs), spec_max_cross(axis, szs)),
                )
            },
            ViewValue::DebugHighlight(_) => {
                let szs = spec_child_sizes(t, id, t.kids(id).len() as int, space);
                space.spec_fit(spec_max_size(szs))
            },
        }
    } else {
        Size { width: 0, height: 0 }
    }
}

/// The sizes of the first `k` children of `id`, each solved under
/// `child_space`.
pub open spec fn spec_child_sizes(t: Tree, id: int, k: int, child_space: Space) -> Seq<Size>
    decreases t.n() - id, k,
{
    if 0 <= id < t.n() && 0 < k <= t.kids(id).len() {
        let c = t.kids(id)[k - 1] as int;
        let prev = spec_child_sizes(t, id, k - 1, child_space);
        if id < c < t.n() {
            prev.push(spec_layout(t, c, child_space))
        } else {
            prev.push(Size { width: 0, height: 0 })
        }
    } else {
        Seq::empty()
    }
}

/// Saturating sum of the sizes' components along `axis`.
pub open spec fn spec_sum_main(axis: Axis, szs: Seq<Size>) -> u32
    decreases szs.len(),
{
    if szs.len() == 0 {
        0u32
    } else {
        sat_add_spec(spec_sum_main(axis, szs.drop_last()), axis.spec_main(szs.last()))
    }
}

/// Maximum of the sizes' components across `axis`.
pub open spec fn spec_max_cross(axis: Axis, szs: Seq<Size>) -> u32
    decreases szs.len(),
{
    if szs.len() == 0 {
        0u32
    } else {
        let rest = spec_max_cross(axis, szs.drop_last());
        if axis.spec_cross(szs.last()) > rest {
            axis.spec_cross(szs.last())
        } else {
            rest
        }
    }
}

/// Componentwise maximum of the sizes.
pub open spec fn spec_max_size(szs: Seq<Size>) -> Size
    decreases szs.len(),
{
    if szs.len() == 0 {
        Size { width: 0, height: 0 }
    } else {
        spec_max_size(szs.drop_last()).spec_max(szs.last())
    }
}

/// Where a stack places its `k`-th child: at the running main-axis offset
/// (the saturating sum of the earlier children's main sizes), origin on the
/// cross axis, with the child's own solved size.
pub open spec fn spec_stack_child_rect(t: Tree, id: int, axis: Axis, k: int, cs: Space) -> Rect {
    let off = spec_sum_main(axis, spec_child_sizes(t, id, k, cs));
    let ssz = spec_layout(t, t.kids(id)[k] as int, cs);
    Rect {
        x: if axis is Horizontal {
            off
        } else {
            0u32
        },
        y: if axis is Vertical {
            off
        } else {
            0u32
        },
        width: ssz.width,
        height: ssz.height,
    }
}

/// Whether `d` lies in the subtree rooted at `a`: walking `d`'s parent
/// chain (which strictly decreases, by the tree invariant) reaches `a`.
pub open spec fn in_subtree(t: Tree, a: int, d: int) -> bool
    decreases (if d > 0 {
        d
    } else {
        0
    }),
{
    if d == a {
        true
    } else if 0 < d < t.n() {
        match t.parent@[d] {
            Some(p) => if (p as int) < d {
                in_subtree(t, a, p as int)
            } else {
                false
            },
            None => false,
        }
    } else {
        false
    }
}

/// Membership depends only on the parent column.
pub proof fn lemma_in_subtree_congruent(t0: Tree, t1: Tree, a: int, d: int)
    requires
        t1.parent@ == t0.parent@,
        t1.alive.len() == t0.alive.len(),
    ensures
        in_subtree(t0, a, d) == in_subtree(t1, a, d),
    decreases (if d > 0 {
        d
    } else {
        0
    }),
{
    if d != a && 0 < d < t0.n() {
        match t0.parent@[d] {
            Some(p) => {
                if (p as int) < d {
                    lemma_in_subtree_congruent(t0, t1, a, p as int);
                }
            },
            None => {},
        }
    }
}

/// Ancestor chains only descend in id, so nothing with a smaller id than
/// `a` lies in `a`'s subtree.
pub proof fn lemma_not_in_subtree_below(t: Tree, a: int, i: int)
    requires
        i < a,
    ensures
        !in_subtree(t, a, i),
    decreases (if i > 0 {
        i
    } else {
        0
    }),
{
    if 0 < i < t.n() {
        match t.parent@[i] {
            Some(p) => {
                if (p as int) < i {
                    lemma_not_in_subtree_below(t, a, p as int);
                }
            },
            None => {},
        }
    }
}

/// A child's subtree lies inside its parent's.
pub proof fn lemma_subtree_of_child(t: Tree, id: int, c: int, i: int)
    requires
        0 <= id < t.n(),
        id < c < t.n(),
        t.parent@[c] == Some(id as usize),
        in_subtree(t, c, i),
    ensures
        in_subtree(t, id, i),
    decreases (if i > 0 {
        i
    } else {
        0
    }),
{
    if i == c {
        assert(in_subtree(t, id, id));
        assert(in_subtree(t, id, c));
    } else if i != id {
        if 0 < i < t.n() {
            match t.parent@[i] {
                Some(p) => {
                    if (p as int) < i {
                        assert(in_subtree(t, c, p as int));
                        lemma_subtree_of_child(t, id, c, p as int);
                    } else {
                        assert(!in_subtree(t, c, i));
                    }
                },
                None => {
                    assert(!in_subtree(t, c, i));
                },
            }
        } else {
            assert(!in_subtree(t, c, i));
        }
    }
}

/// A sibling of `c` under the same parent is outside `c`'s subtree.
pub proof fn lemma_sibling_not_in_subtree(t: Tree, id: int, c: int, s: int)
    requires
        0 <= id < t.n(),
        id < c < t.n(),
        id < s < t.n(),
        s != c,
        t.parent@[s] == Some(id as usize),
    ensures
        !in_subtree(t, c, s),
{
    lemma_not_in_subtree_below(t, c, id);
}

/// `spec_layout` reads only the tree's structure (liveness, child lists,
/// views): passes that rewrite caches or visit flags do not change it.
pub proof fn lemma_layout_congruent(t0: Tree, t1: Tree, id: int, space: Space)
    requires
        t1.alive@ == t0.alive@,
        t1.children@ == t0.children@,
        t1.views@ == t0.views@,
    ensures
        spec_layout(t0, id, space) == spec_layout(t1, id, space),
    decreases t0.n() - id, t0.kids(id).len() + 1,
{
    assert(t1.n() == t0.n());
    if 0 <= id < t0.n() {
        assert(t1.kids(id) == t0.kids(id));
        match t0.views@[id] {
            ViewValue::Stack(axis) => {
                lemma_child_sizes_congruent(
                    t0,
                    t1,
                    id,
                    t0.kids(id).len() as int,
                    space.spec_loosen(),
                );
            },
            ViewValue::DebugHighlight(_) => {
                lemma_child_sizes_congruent(t0, t1, id, t0.kids(id).len() as int, space);
            },
            _ => {},
        }
    }
}

pub proof fn lemma_child_sizes_congruent(t0: Tree, t1: Tree, id: int, k: int, child_space: Space)
    requires
        t1.alive@ == t0.alive@,
        t1.children@ == t0.children@,
        t1.views@ == t0.views@,
    ensures
        spec_child_sizes(t0, id, k, child_space) == spec_child_sizes(t1, id, k, child_space),
    decreases t0.n() - id, k,
{
    assert(t1.n() == t0.n());
    if 0 <= id < t0.n() {
        assert(t1.kids(id) == t0.kids(id));
        if 0 < k <= t0.kids(id).len() {
            lemma_child_sizes_congruent(t0, t1, id, k - 1, child_space);
            let c = t0.kids(id)[k - 1] as int;
            if id < c < t0.n() {
                lemma_layout_congruent(t0, t1, c, child_space);
            }
        }
    }
}

/// Solve one node's size under `space`, caching the result and placing the
/// node's children (parent-relative rects). A node is solved at most once
/// per frame: the whole pass runs this once, from the root.
pub fn layout_node(tree: &mut Tree, id: usize, space: Space) -> (r: Size)
    requires
        old(tree).wf(),
        id < old(tree).n(),
        old(tree).alive@[id as int],
        space.wf(),
    ensures
        final(tree).wf(),
        final(tree).n() == old(tree).n(),
        final(tree).alive@ == old(tree).alive@,
        final(tree).parent@ == old(tree).parent@,
        final(tree).children@ == old(tree).children@,
        final(tree).key@ == old(tree).key@,
        final(tree).views@ == old(tree).views@,
        final(tree).visited@ == old(tree).visited@,
        r == spec_layout(*old(tree), id as int, space),
        final(tree).size@[id as int] == Some(r),
        forall|i: int|
            0 <= i < old(tree).n() && !in_subtree(*old(tree), id as int, i) ==> final(tree).size@[i] == old(tree).size@[i] && final(tree).rect@[i] == old(tree).rect@[i],
        final(tree).rect@[id as int] == old(tree).rect@[id as int],
        (match old(tree).views@[id as int] {
            ViewValue::Stack(axis) => forall|k: int|
                0 <= k < old(tree).kids(id as int).len() ==> final(tree).rect@[(#[trigger] old(tree).kids(id as int)[k]) as int] == Some(
                    spec_stack_child_rect(*old(tree), id as int, axis, k, space.spec_loosen()),
                ),
            ViewValue::DebugHighlight(_) => forall|k: int|
                0 <= k < old(tree).kids(id as int).len() ==> final(tree).rect@[(#[trigger] old(tree).kids(id as int)[k]) as int] == Some(
                    Rect {
                        x: 0u32,
                        y: 0u32,
                        width: spec_layout(
                            *old(tree),
                            old(tree).kids(id as int)[k] as int,
                            space,
                        ).width,
                        height: spec_layout(
                            *old(tree),
                            old(tree).kids(id as int)[k] as int,
                            space,
                        ).height,
                    },
                ),
            _ => true,
        }),
    decreases old(tree).n() - id,
{
    let kind = tree.views[id].kind();
    match kind {
        ViewKind::Spacer => {
            let sz = match &tree.views[id] {
                ViewValue::Spacer(s) => *s,
                _ => vstd::pervasive::unreached(),
            };
            let r = space.fit(sz);
            tree.size[id] = Some(r);
            proof {
                Tree::lemma_wf_preserved(*old(tree), *tree);
            }
            r
        },
        ViewKind::Button => {
            let r = match &tree.views[id] {
                ViewValue::Button(b) => b.layout(space),
                _ => vstd::pervasive::unreached(),
            };
            tree.size[id] = Some(r);
            proof {
                Tree::lemma_wf_preserved(*old(tree), *tree);
            }
            r
        },
        ViewKind::Stack => {
            let axis = match &tree.views[id] {
                ViewValue::Stack(a) => *a,
                _ => vstd::pervasive::unreached(),
            };
            let child_space = space.loosen();
            let count = tree.children[id].len();
            let ghost t0 = *tree;
            let mut main_sum: u32 = 0;
            let mut cross_max: u32 = 0;
            let mut k: usize = 0;
            while k < count
                invariant
                    t0 == *old(tree),
                    t0.wf(),
                    id < t0.n(),
                    t0.alive@[id as int],
                    space.wf(),
                    child_space == space.spec_loosen(),
                    count == t0.kids(id as int).len(),
                    k <= count,
                    tree.wf(),
                    tree.n() == t0.n(),
                    tree.alive@ == t0.alive@,
                    tree.parent@ == t0.parent@,
                    tree.children@ == t0.children@,
                    tree.key@ == t0.key@,
                    tree.views@ == t0.views@,
                    tree.visited@ == t0.visited@,
                    forall|i: int|
                        0 <= i < t0.n() && !in_subtree(t0, id as int, i) ==> tree.size@[i]
                            == t0.size@[i] && tree.rect@[i] == t0.rect@[i],
                    tree.size@[id as int] == t0.size@[id as int],
                    tree.rect@[id as int] == t0.rect@[id as int],
                    tree.parent@ == t0.parent@,
                    forall|j: int|
                        0 <= j < k ==> tree.rect@[(#[trigger] t0.kids(id as int)[j]) as int]
                            == Some(
                            spec_stack_child_rect(t0, id as int, axis, j, child_space),
                        ),
                    main_sum == spec_sum_main(
                        axis,
                        spec_child_sizes(t0, id as int, k as int, child_space),
                    ),
                    cross_max == spec_max_cross(
                        axis,
                        spec_child_sizes(t0, id as int, k as int, child_space),
                    ),
                decreases count - k,
            {
                let c = tree.children[id][k];
                proof {
                    assert(t0.child_ok(id as int, c as int));
                }
                let ghost tpre = *tree;
                let s = layout_node(tree, c, child_space);
                let rect = Rect {
                    x: if axis.is_horizontal() {
                        main_sum
                    } else {
                        0
                    },
                    y: if axis.is_vertical() {
                        main_sum
                    } else {
                        0
                    },
                    width: s.width,
                    height: s.height,
                };
                tree.rect[c] = Some(rect);
                main_sum = sat_add(main_sum, axis.main(s));
                let cr = axis.cross(s);
                if cr > cross_max {
                    cross_max = cr;
                }
                proof {
                    Tree::lemma_wf_preserved(tpre, *tree);
                    lemma_layout_congruent(tpre, t0, c as int, child_space);
                    assert(spec_child_sizes(t0, id as int, (k + 1) as int, child_space)
                        == spec_child_sizes(t0, id as int, k as int, child_space).push(
                        spec_layout(t0, c as int, child_space),
                    ));
                    assert(spec_child_sizes(t0, id as int, (k + 1) as int, child_space).drop_last()
                        =~= spec_child_sizes(t0, id as int, k as int, child_space));
                    assert forall|i: int|
                        0 <= i < t0.n() && !in_subtree(t0, id as int, i) implies tree.size@[i]
                        == t0.size@[i] && tree.rect@[i] == t0.rect@[i] by {
                        lemma_in_subtree_congruent(t0, tpre, c as int, i);
                        if in_subtree(tpre, c as int, i) {
                            lemma_subtree_of_child(tpre, id as int, c as int, i);
                            lemma_in_subtree_congruent(tpre, t0, id as int, i);
                        }
                        assert(i != c as int);
                    }
                    assert(!in_subtree(tpre, c as int, id as int)) by {
                        lemma_not_in_subtree_below(tpre, c as int, id as int);
                    }
                    assert forall|j: int|
                        0 <= j < k + 1 implies tree.rect@[(t0.kids(id as int)[j]) as int] == Some(
                        spec_stack_child_rect(t0, id as int, axis, j, child_space),
                    ) by {
                        let sj = t0.kids(id as int)[j] as int;
                        assert(t0.child_ok(id as int, sj));
                        if j < k {
                            assert(sj != c as int);
                            lemma_sibling_not_in_subtree(tpre, id as int, c as int, sj);
                            assert(tpre.rect@[sj] == Some(
                                spec_stack_child_rect(t0, id as int, axis, j, child_space),
                            ));
                        }
                    }
                }
                k += 1;
            }
            let r = space.fit(axis.pack(main_sum, cross_max));
            tree.size[id] = Some(r);
            proof {
                Tree::lemma_wf_preserved(*old(tree), *tree);
            }
            r
        },
        ViewKind::DebugHighlight => {
            let count = tree.children[id].len();
            let ghost t0 = *tree;
            let mut acc = Size { width: 0, height: 0 };
            let mut k: usize = 0;
            while k < count
                invariant
                    t0 == *old(tree),
                    t0.wf(),
                    id < t0.n(),
                    t0.alive@[id as int],
                    space.wf(),
                    count == t0.kids(id as int).len(),
                    k <= count,
                    tree.wf(),
                    tree.n() == t0.n(),
                    tree.alive@ == t0.alive@,
                    tree.parent@ == t0.parent@,
                    tree.children@ == t0.children@,
                    tree.key@ == t0.key@,
                    tree.views@ == t0.views@,
                    tree.visited@ == t0.visited@,
                    forall|i: int|
                        0 <= i < t0.n() && !in_subtree(t0, id as int, i) ==> tree.size@[i]
                            == t0.size@[i] && tree.rect@[i] == t0.rect@[i],
                    tree.size@[id as int] == t0.size@[id as int],
                    tree.rect@[id as int] == t0.rect@[id as int],
                    tree.parent@ == t0.parent@,
                    forall|j: int|
                        0 <= j < k ==> tree.rect@[(#[trigger] t0.kids(id as int)[j]) as int]
                            == Some(
                            Rect {
                                x: 0u32,
                                y: 0u32,
                                width: spec_layout(
                                    t0,
                                    t0.kids(id as int)[j] as int,
                                    space,
                                ).width,
                                height: spec_layout(
                                    t0,
                                    t0.kids(id as int)[j] as int,
                                    space,
                                ).height,
                            },
                        ),
                    acc == spec_max_size(spec_child_sizes(t0, id as int, k as int, space)),
                decreases count - k,
            {
                let c = tree.children[id][k];
                proof {
                    assert(t0.child_ok(id as int, c as int));
                }
                let ghost tpre = *tree;
                let s = layout_node(tree, c, space);
                tree.rect[c] = Some(Rect { x: 0, y: 0, width: s.width, height: s.height });
                acc = acc.max_size(s);
                proof {
                    Tree::lemma_wf_preserved(tpre, *tree);
                    lemma_layout_congruent(tpre, t0, c as int, space);
                    assert(spec_child_sizes(t0, id as int, (k + 1) as int, space)
                        == spec_child_sizes(t0, id as int, k as int, space).push(
                        spec_layout(t0, c as int, space),
                    ));
                    assert(spec_child_sizes(t0, id as int, (k + 1) as int, space).drop_last()
                        =~= spec_child_sizes(t0, id as int, k as int, space));
                    assert forall|i: int|
                        0 <= i < t0.n() && !in_subtree(t0, id as int, i) implies tree.size@[i]
                        == t0.size@[i] && tree.rect@[i] == t0.rect@[i] by {
                        lemma_in_subtree_congruent(t0, tpre, c as int, i);
                        if in_subtree(tpre, c as int, i) {
                            lemma_subtree_of_child(tpre, id as int, c as int, i);
                            lemma_in_subtree_congruent(tpre, t0, id as int, i);
                        }
                        assert(i != c as int);
                    }
                    assert(!in_subtree(tpre, c as int, id as int)) by {
                        lemma_not_in_subtree_below(tpre, c as int, id as int);
                    }
                    assert forall|j: int|
                        0 <= j < k + 1 implies tree.rect@[(t0.kids(id as int)[j]) as int] == Some(
                        Rect {
                            x: 0u32,
                            y: 0u32,
                            width: spec_layout(t0, t0.kids(id as int)[j] as int, space).width,
                            height: spec_layout(t0, t0.kids(id as int)[j] as int, space).height,
                        },
                    ) by {
                        let sj = t0.kids(id as int)[j] as int;
                        assert(t0.child_ok(id as int, sj));
                        if j < k {
                            assert(sj != c as int);
                            lemma_sibling_not_in_subtree(tpre, id as int, c as int, sj);
                        }
                    }
                }
                k += 1;
            }
            let r = space.fit(acc);
            tree.size[id] = Some(r);
            proof {
                Tree::lemma_wf_preserved(*old(tree), *tree);
            }
            r
        },
    }
}

/// Run the layout stage for a frame: solve the root under `space` and place
/// it at the origin. Positions are parent-relative; absolute positions come
/// from summing offsets top-down in later passes.
pub fn layout_frame(tree: &mut Tree, space: Space) -> (r: Size)
    requires
        old(tree).wf(),
        space.wf(),
    ensures
        final(tree).wf(),
        final(tree).n() == old(tree).n(),
        final(tree).alive@ == old(tree).alive@,
        final(tree).parent@ == old(tree).parent@,
        final(tree).children@ == old(tree).children@,
        final(tree).key@ == old(tree).key@,
        final(tree).views@ == old(tree).views@,
        final(tree).visited@ == old(tree).visited@,
        r == spec_layout(*old(tree), 0, space),
        final(tree).size@[0] == Some(r),
        final(tree).rect@[0] == Some(Rect { x: 0u32, y: 0u32, width: r.width, height: r.height }),
{
    let r = layout_node(tree, 0, space);
    tree.rect[0] = Some(Rect { x: 0, y: 0, width: r.width, height: r.height });
    proof {
        Tree::lemma_wf_preserved(*old(tree), *tree);
    }
    r
}

} // verus!
