use vstd::prelude::*;
use crate::input::InputState;
use crate::math::{Rect, sat_add, sat_add_spec};
use crate::style::{Palette, Rgba, StyleKind};
use crate::tree::{Tree, ViewValue};

verus! {

/// The overlay colors a debug highlight paints over focused, hovered and
/// selected descendants.
#[derive(Copy, Clone, Debug, PartialEq, Eq, Structural)]
pub struct DebugHighlightStyle {
    pub focus: Rgba,
    pub hover: Rgba,
    pub selection: Rgba,
}

impl DebugHighlightStyle {
    /// The stock overlay colors (translucent magenta / yellow / cyan).
    pub fn default(_palette: &Palette) -> (r: DebugHighlightStyle)
        ensures
            r == (DebugHighlightStyle {
                focus: Rgba { red: 0x88, green: 0x00, blue: 0x88, alpha: 0x88 },
                hover: Rgba { red: 0x88, green: 0x88, blue: 0x00, alpha: 0x88 },
                selection: Rgba { red: 0x00, green: 0x88, blue: 0x88, alpha: 0x88 },
            }),
    {
        DebugHighlightStyle {
            focus: Rgba { red: 0x88, green: 0x00, blue: 0x88, alpha: 0x88 },
            hover: Rgba { red: 0x88, green: 0x88, blue: 0x00, alpha: 0x88 },
            selection: Rgba { red: 0x00, green: 0x88, blue: 0x88, alpha: 0x88 },
        }
    }
}

/// A deferred debug-highlight style.
#[derive(Copy, Clone, Debug, PartialEq, Eq, Structural)]
pub enum DebugHighlightClass {
    Plain,
}

impl DebugHighlightClass {
    pub fn resolve(self, palette: &Palette) -> (r: DebugHighlightStyle)
        ensures
            r == spec_resolve_highlight(self, *palette),
    {
        match self {
            DebugHighlightClass::Plain => DebugHighlightStyle::default(palette),
        }
    }
}

pub open spec fn spec_resolve_highlight(class: DebugHighlightClass, palette: Palette) -> DebugHighlightStyle {
    match class {
        DebugHighlightClass::Plain => DebugHighlightStyle {
            focus: Rgba { red: 0x88, green: 0x00, blue: 0x88, alpha: 0x88 },
            hover: Rgba { red: 0x88, green: 0x88, blue: 0x00, alpha: 0x88 },
            selection: Rgba { red: 0x00, green: 0x88, blue: 0x88, alpha: 0x88 },
        },
    }
}

/// One recorded descendant: where it sits (relative to the highlight node's
/// parent) and which interaction flags it held when layout ran.
#[derive(Copy, Clone, Debug, PartialEq, Eq, Structural)]
pub struct Marker {
    pub rect: Rect,
    pub focused: bool,
    pub hovered: bool,
    pub selected: bool,
}

/// A debug overlay view: lays its children out untouched, records a marker
/// for every descendant, and paints the interaction flags over them at draw
/// time.
#[derive(Debug)]
pub struct DebugHighlight {
    pub markers: Vec<Marker>,
    pub class: StyleKind<DebugHighlightClass, DebugHighlightStyle>,
}

impl DebugHighlight {
    pub fn class(self, class: DebugHighlightClass) -> (r: DebugHighlight)
        ensures
            r.class == StyleKind::<DebugHighlightClass, DebugHighlightStyle>::Deferred(class),
            r.markers == self.markers,
    {
        DebugHighlight { class: StyleKind::Deferred(class), ..self }
    }

    pub fn style(self, style: DebugHighlightStyle) -> (r: DebugHighlight)
        ensures
            r.class == StyleKind::<DebugHighlightClass, DebugHighlightStyle>::Direct(style),
            r.markers == self.markers,
    {
        DebugHighlight { class: StyleKind::Direct(style), ..self }
    }
}

/// Start building a debug highlight with the stock deferred style.
pub fn debug_highlight() -> (r: DebugHighlight)
    ensures
        r.markers@ =~= Seq::<Marker>::empty(),
        r.class == StyleKind::<DebugHighlightClass, DebugHighlightStyle>::Deferred(
            DebugHighlightClass::Plain,
        ),
{
    DebugHighlight { markers: Vec::new(), class: StyleKind::Deferred(DebugHighlightClass::Plain) }
}


/// The marker one queue entry contributes: the node's rect shifted by the
/// accumulated offset carried with it, and its interaction flags. A node
/// whose rect was never placed contributes nothing (and, below, enqueues no
/// children: its whole subtree is skipped).
pub open spec fn spec_entry_marker(t: Tree, e: (usize, u32, u32), inp: InputState) -> Seq<Marker> {
    if 0 <= e.0 < t.n() {
        match t.rect@[e.0 as int] {
            Some(rc) => seq![
                Marker {
                    rect: rc.spec_translate(e.1, e.2),
                    focused: inp.focused == Some(e.0),
                    hovered: inp.hovered == Some(e.0),
                    selected: inp.selection == Some(e.0),
                },
            ],
            None => Seq::empty(),
        }
    } else {
        Seq::empty()
    }
}

/// The first `k` children of `id` as queue entries, all carrying the same
/// accumulated offset.
pub open spec fn spec_children_entries(t: Tree, id: int, k: int, ox: u32, oy: u32) -> Seq<
    (usize, u32, u32),
>
    decreases k,
{
    if 0 <= id < t.n() && 0 < k <= t.kids(id).len() {
        spec_children_entries(t, id, k - 1, ox, oy).push((t.kids(id)[k - 1], ox, oy))
    } else {
        Seq::empty()
    }
}

/// What one entry enqueues: its children, with the offset advanced by its
/// own origin — or nothing when its rect is absent.
pub open spec fn spec_entry_next(t: Tree, e: (usize, u32, u32)) -> Seq<(usize, u32, u32)> {
    if 0 <= e.0 < t.n() {
        match t.rect@[e.0 as int] {
            Some(rc) => spec_children_entries(
                t,
                e.0 as int,
                t.kids(e.0 as int).len() as int,
                sat_add_spec(e.1, rc.x),
                sat_add_spec(e.2, rc.y),
            ),
            None => Seq::empty(),
        }
    } else {
        Seq::empty()
    }
}

/// The markers one queue level contributes, in entry order.
pub open spec fn spec_level_markers(t: Tree, level: Seq<(usize, u32, u32)>, inp: InputState) -> Seq<
    Marker,
>
    decreases level.len(),
{
    if level.len() == 0 {
        Seq::empty()
    } else {
        spec_level_markers(t, level.drop_last(), inp) + spec_entry_marker(t, level.last(), inp)
    }
}

/// The next queue level: everything this level's entries enqueue, in order.
pub open spec fn spec_next_level(t: Tree, level: Seq<(usize, u32, u32)>) -> Seq<(usize, u32, u32)>
    decreases level.len(),
{
    if level.len() == 0 {
        Seq::empty()
    } else {
        spec_next_level(t, level.drop_last()) + spec_entry_next(t, level.last())
    }
}

/// The smallest node id on a level (0 for an empty level).
pub open spec fn spec_level_min(level: Seq<(usize, u32, u32)>) -> int
    decreases level.len(),
{
    if level.len() == 0 {
        0
    } else if level.len() == 1 {
        level.last().0 as int
    } else {
        let m = spec_level_min(level.drop_last());
        if (level.last().0 as int) < m {
            level.last().0 as int
        } else {
            m
        }
    }
}

/// The markers of a whole queue walk, level by level — breadth-first: all of
/// one level's markers before any of the next level's. This terminates
/// because every child's id is strictly greater than its parent's, so the
/// smallest id per level strictly grows.
pub open spec fn spec_bfs_markers(t: Tree, level: Seq<(usize, u32, u32)>, inp: InputState) -> Seq<
    Marker,
>
    decreases t.n() - spec_level_min(level),
{
    if level.len() > 0 && 0 <= spec_level_min(level) && spec_level_min(level) < spec_level_min(
        spec_next_level(t, level),
    ) && spec_level_min(spec_next_level(t, level)) <= t.n() {
        spec_level_markers(t, level, inp) + spec_bfs_markers(t, spec_next_level(t, level), inp)
    } else if level.len() > 0 {
        spec_level_markers(t, level, inp)
    } else {
        Seq::empty()
    }
}

/// The level minimum bounds every entry on the level.
pub proof fn lemma_level_min_le(level: Seq<(usize, u32, u32)>, j: int)
    requires
        0 <= j < level.len(),
    ensures
        spec_level_min(level) <= level[j].0 as int,
    decreases level.len(),
{
    if level.len() > 1 && j < level.len() - 1 {
        lemma_level_min_le(level.drop_last(), j);
    }
}

/// The level minimum is one of the level's entries.
pub proof fn lemma_level_min_member(level: Seq<(usize, u32, u32)>)
    requires
        level.len() > 0,
    ensures
        exists|j: int| 0 <= j < level.len() && (#[trigger] level[j]).0 as int == spec_level_min(
            level,
        ),
    decreases level.len(),
{
    if level.len() == 1 {
        assert(level[0].0 as int == spec_level_min(level));
    } else {
        lemma_level_min_member(level.drop_last());
        let j0 = choose|j: int|
            0 <= j < level.drop_last().len() && (#[trigger] level.drop_last()[j]).0 as int
                == spec_level_min(level.drop_last());
        assert(level[j0].0 == level.drop_last()[j0].0);
        if (level.last().0 as int) < spec_level_min(level.drop_last()) {
            assert(level[level.len() - 1].0 as int == spec_level_min(level));
        }
    }
}

/// Every entry a level enqueues is a live node with an id strictly greater
/// than something on the level, hence greater than the level's minimum.
pub proof fn lemma_next_level_ok(t: Tree, level: Seq<(usize, u32, u32)>)
    requires
        t.wf(),
        forall|j: int|
            0 <= j < level.len() ==> (#[trigger] level[j]).0 < t.n() && t.alive@[level[j].0 as int],
    ensures
        forall|j2: int|
            0 <= j2 < spec_next_level(t, level).len() ==> (#[trigger] spec_next_level(t, level)[j2]).0
                < t.n() && t.alive@[spec_next_level(t, level)[j2].0 as int] && spec_level_min(level)
                < spec_next_level(t, level)[j2].0 as int,
    decreases level.len(),
{
    if level.len() > 0 {
        lemma_next_level_ok(t, level.drop_last());
        let rest = spec_next_level(t, level.drop_last());
        let e = level.last();
        assert(level[level.len() - 1] == e);
        assert forall|j2: int|
            0 <= j2 < spec_next_level(t, level).len() implies (#[trigger] spec_next_level(
            t,
            level,
        )[j2]).0 < t.n() && t.alive@[spec_next_level(t, level)[j2].0 as int] && spec_level_min(
            level,
        ) < spec_next_level(t, level)[j2].0 as int by {
            if j2 < rest.len() {
                assert(spec_next_level(t, level)[j2] == rest[j2]);
                assert(spec_level_min(level.drop_last()) < rest[j2].0 as int);
                if level.len() > 1 {
                    assert(spec_level_min(level) <= spec_level_min(level.drop_last()));
                }
            } else {
                let own = spec_entry_next(t, e);
                let k2 = j2 - rest.len();
                assert(spec_next_level(t, level)[j2] == own[k2]);
                match t.rect@[e.0 as int] {
                    Some(rc) => {
                        lemma_children_entries_len(
                            t,
                            e.0 as int,
                            t.kids(e.0 as int).len() as int,
                            sat_add_spec(e.1, rc.x),
                            sat_add_spec(e.2, rc.y),
                        );
                        lemma_children_entries_member(
                            t,
                            e.0 as int,
                            t.kids(e.0 as int).len() as int,
                            k2,
                            sat_add_spec(e.1, rc.x),
                            sat_add_spec(e.2, rc.y),
                        );
                        assert(t.child_ok(e.0 as int, t.kids(e.0 as int)[k2] as int));
                        lemma_level_min_le(level, level.len() - 1);
                    },
                    None => {
                        assert(own.len() == 0);
                    },
                }
            }
        }
    }
}

/// The first `k` child entries are exactly the first `k` children.
pub proof fn lemma_children_entries_len(t: Tree, id: int, k: int, ox: u32, oy: u32)
    requires
        0 <= id < t.n(),
        0 <= k <= t.kids(id).len(),
    ensures
        spec_children_entries(t, id, k, ox, oy).len() == k,
    decreases k,
{
    if k > 0 {
        lemma_children_entries_len(t, id, k - 1, ox, oy);
    }
}

/// The `j`-th child entry is the `j`-th child, carrying the given offset.
pub proof fn lemma_children_entries_member(t: Tree, id: int, k: int, j: int, ox: u32, oy: u32)
    requires
        0 <= id < t.n(),
        0 <= k <= t.kids(id).len(),
        0 <= j < k,
    ensures
        spec_children_entries(t, id, k, ox, oy).len() == k,
        spec_children_entries(t, id, k, ox, oy)[j] == (t.kids(id)[j], ox, oy),
    decreases k,
{
    lemma_children_entries_len(t, id, k, ox, oy);
    if j < k - 1 {
        lemma_children_entries_member(t, id, k - 1, j, ox, oy);
    } else {
        lemma_children_entries_len(t, id, k - 1, ox, oy);
    }
}

/// The marker walk reads only placement and structure: passes that rewrite
/// views or caches elsewhere do not change what a queue walk records.
pub proof fn lemma_children_entries_congruent(t0: Tree, t1: Tree, id: int, k: int, ox: u32, oy: u32)
    requires
        t1.alive.len() == t0.alive.len(),
        t1.children@ == t0.children@,
    ensures
        spec_children_entries(t0, id, k, ox, oy) == spec_children_entries(t1, id, k, ox, oy),
    decreases k,
{
    assert(t1.n() == t0.n());
    if 0 <= id < t0.n() {
        assert(t1.kids(id) == t0.kids(id));
        if 0 < k <= t0.kids(id).len() {
            lemma_children_entries_congruent(t0, t1, id, k - 1, ox, oy);
        }
    }
}

pub proof fn lemma_level_congruent(
    t0: Tree,
    t1: Tree,
    level: Seq<(usize, u32, u32)>,
    inp: InputState,
)
    requires
        t1.alive.len() == t0.alive.len(),
        t1.children@ == t0.children@,
        t1.rect@ == t0.rect@,
    ensures
        spec_level_markers(t0, level, inp) == spec_level_markers(t1, level, inp),
        spec_next_level(t0, level) == spec_next_level(t1, level),
    decreases level.len(),
{
    assert(t1.n() == t0.n());
    if level.len() > 0 {
        lemma_level_congruent(t0, t1, level.drop_last(), inp);
        let e = level.last();
        if 0 <= e.0 < t0.n() {
            match t0.rect@[e.0 as int] {
                Some(rc) => {
                    lemma_children_entries_congruent(
                        t0,
                        t1,
                        e.0 as int,
                        t0.kids(e.0 as int).len() as int,
                        sat_add_spec(e.1, rc.x),
                        sat_add_spec(e.2, rc.y),
                    );
                },
                None => {},
            }
        }
    }
}

pub proof fn lemma_bfs_congruent(t0: Tree, t1: Tree, level: Seq<(usize, u32, u32)>, inp: InputState)
    requires
        t1.alive.len() == t0.alive.len(),
        t1.children@ == t0.children@,
        t1.rect@ == t0.rect@,
    ensures
        spec_bfs_markers(t0, level, inp) == spec_bfs_markers(t1, level, inp),
    decreases t0.n() - spec_level_min(level),
{
    lemma_level_congruent(t0, t1, level, inp);
    if level.len() > 0 && 0 <= spec_level_min(level) && spec_level_min(level) < spec_level_min(
        spec_next_level(t0, level),
    ) && spec_level_min(spec_next_level(t0, level)) <= t0.n() {
        lemma_bfs_congruent(t0, t1, spec_next_level(t0, level), inp);
    }
}

/// After layout has placed rects, walk the tree once and hand every debug
/// highlight the markers of its subtree, gathered with a queue, level by
/// level (breadth-first): one marker per descendant with a cached rect,
/// shifted by the accumulated offsets so it is absolute relative to the
/// highlight's parent, carrying that descendant's interaction flags;
/// rect-less descendants and their whole subtrees are skipped. The list is
/// rebuilt wholesale on every pass, so markers never go stale; a highlight
/// whose own rect is absent is skipped and keeps what it had.
pub fn collect_highlights(tree: &mut Tree, inp: &InputState)
    requires
        old(tree).wf(),
    ensures
        final(tree).wf(),
        final(tree).n() == old(tree).n(),
        final(tree).alive@ == old(tree).alive@,
        final(tree).parent@ == old(tree).parent@,
        final(tree).children@ == old(tree).children@,
        final(tree).key@ == old(tree).key@,
        final(tree).size@ == old(tree).size@,
        final(tree).rect@ == old(tree).rect@,
        final(tree).visited@ == old(tree).visited@,
        forall|i: int|
            0 <= i < old(tree).n() && !(old(tree).views@[i] is DebugHighlight) ==> final(tree).views@[i] == old(tree).views@[i],
        forall|i: int|
            0 <= i < old(tree).n() && old(tree).alive@[i] && (#[trigger] old(tree).views@[i]) is DebugHighlight ==> (match old(tree).rect@[i] {
                Some(rd) => final(tree).views@[i] is DebugHighlight && final(tree).views@[i]->DebugHighlight_0.class == old(tree).views@[i]->DebugHighlight_0.class
                    && final(tree).views@[i]->DebugHighlight_0.markers@ == spec_bfs_markers(
                    *old(tree),
                    spec_children_entries(*old(tree), i, old(tree).kids(i).len() as int, rd.x, rd.y),
                    *inp,
                ),
                None => final(tree).views@[i] == old(tree).views@[i],
            }),
{
    let n = tree.alive.len();
    let mut d: usize = 0;
    while d < n
        invariant
            n == old(tree).n(),
            tree.wf(),
            d <= n,
            tree.n() == old(tree).n(),
            tree.alive@ == old(tree).alive@,
            tree.parent@ == old(tree).parent@,
            tree.children@ == old(tree).children@,
            tree.key@ == old(tree).key@,
            tree.size@ == old(tree).size@,
            tree.rect@ == old(tree).rect@,
            tree.visited@ == old(tree).visited@,
            forall|i: int|
                0 <= i < n && !(old(tree).views@[i] is DebugHighlight) ==> tree.views@[i] == old(tree).views@[i],
            forall|i: int| d <= i < n ==> tree.views@[i] == old(tree).views@[i],
            forall|i: int|
                0 <= i < d && old(tree).alive@[i] && (#[trigger] old(tree).views@[i]) is DebugHighlight ==> (match old(tree).rect@[i] {
                    Some(rd) => tree.views@[i] is DebugHighlight
                        && tree.views@[i]->DebugHighlight_0.class == old(tree).views@[i]->DebugHighlight_0.class
                        && tree.views@[i]->DebugHighlight_0.markers@ == spec_bfs_markers(
                        *old(tree),
                        spec_children_entries(
                            *old(tree),
                            i,
                            old(tree).kids(i).len() as int,
                            rd.x,
                            rd.y,
                        ),
                        *inp,
                    ),
                    None => tree.views@[i] == old(tree).views@[i],
                }),
        decreases n - d,
    {
        let is_dh = tree.alive[d] && matches!(&tree.views[d], ViewValue::DebugHighlight(_));
        if is_dh {
            let class = match &tree.views[d] {
                ViewValue::DebugHighlight(dh) => dh.class,
                _ => vstd::pervasive::unreached(),
            };
            match tree.rect[d] {
                Option::Some(rd) => {
                    let out = gather_markers(tree, d, rd, inp);
                    let ghost mid = *tree;
                    tree.views[d] = ViewValue::DebugHighlight(
                        DebugHighlight { markers: out, class },
                    );
                    proof {
                        Tree::lemma_wf_preserved(mid, *tree);
                        lemma_children_entries_congruent(
                            mid,
                            *old(tree),
                            d as int,
                            old(tree).kids(d as int).len() as int,
                            rd.x,
                            rd.y,
                        );
                        lemma_bfs_congruent(
                            mid,
                            *old(tree),
                            spec_children_entries(
                                *old(tree),
                                d as int,
                                old(tree).kids(d as int).len() as int,
                                rd.x,
                                rd.y,
                            ),
                            *inp,
                        );
                    }
                },
                Option::None => {
                    // A highlight whose own rect was never placed keeps its
                    // previous markers: the lookup reads as absent and the
                    // pass skips this node gracefully.
                },
            }
        }
        d += 1;
    }
}

/// One highlight's queue walk: seed the queue with the highlight's children
/// at its own origin, then take each level in turn — a marker per placed
/// entry, its children enqueued behind the whole level (FIFO).
fn gather_markers(tree: &Tree, d: usize, rd: Rect, inp: &InputState) -> (out: Vec<Marker>)
    requires
        tree.wf(),
        d < tree.n(),
        tree.alive@[d as int],
        tree.rect@[d as int] == Some(rd),
    ensures
        out@ == spec_bfs_markers(
            *tree,
            spec_children_entries(*tree, d as int, tree.kids(d as int).len() as int, rd.x, rd.y),
            *inp,
        ),
{
    let mut out: Vec<Marker> = Vec::new();
    let mut level: Vec<(usize, u32, u32)> = Vec::new();
    let count = tree.children[d].len();
    let mut j: usize = 0;
    while j < count
        invariant
            tree.wf(),
            d < tree.n(),
            tree.alive@[d as int],
            j <= count,
            count == tree.kids(d as int).len(),
            level@ == spec_children_entries(*tree, d as int, j as int, rd.x, rd.y),
            forall|m: int|
                0 <= m < level@.len() ==> (#[trigger] level@[m]).0 < tree.n()
                    && tree.alive@[level@[m].0 as int],
        decreases count - j,
    {
        let c = tree.children[d][j];
        proof {
            assert(tree.child_ok(d as int, c as int));
        }
        level.push((c, rd.x, rd.y));
        j += 1;
    }
    let ghost seed = level@;
    while level.len() > 0
        invariant
            tree.wf(),
            forall|m: int|
                0 <= m < level@.len() ==> (#[trigger] level@[m]).0 < tree.n()
                    && tree.alive@[level@[m].0 as int],
            spec_bfs_markers(*tree, seed, *inp) == out@ + spec_bfs_markers(*tree, level@, *inp),
        decreases (if level@.len() == 0 {
            0int
        } else {
            tree.n() + 1 - spec_level_min(level@)
        }),
    {
        let ghost lv = level@;
        let ghost out0 = out@;
        let mut next: Vec<(usize, u32, u32)> = Vec::new();
        let llen = level.len();
        let mut j2: usize = 0;
        while j2 < llen
            invariant
                tree.wf(),
                j2 <= llen,
                llen == lv.len(),
                level@ == lv,
                forall|m: int|
                    0 <= m < lv.len() ==> (#[trigger] lv[m]).0 < tree.n()
                        && tree.alive@[lv[m].0 as int],
                out@ == out0 + spec_level_markers(*tree, lv.take(j2 as int), *inp),
                next@ == spec_next_level(*tree, lv.take(j2 as int)),
                forall|m: int|
                    0 <= m < next@.len() ==> (#[trigger] next@[m]).0 < tree.n()
                        && tree.alive@[next@[m].0 as int],
            decreases llen - j2,
        {
            let e = level[j2];
            let ghost next0 = next@;
            match tree.rect[e.0] {
                Option::Some(rc) => {
                    let mk = Marker {
                        rect: rc.translate(e.1, e.2),
                        focused: inp.is_focused(e.0),
                        hovered: inp.is_hovered(e.0),
                        selected: (match inp.selection() {
                            Option::Some(sel) => sel == e.0,
                            Option::None => false,
                        }),
                    };
                    out.push(mk);
                    let nox = sat_add(e.1, rc.x);
                    let noy = sat_add(e.2, rc.y);
                    let ccount = tree.children[e.0].len();
                    let mut k: usize = 0;
                    while k < ccount
                        invariant
                            tree.wf(),
                            e.0 < tree.n(),
                            tree.alive@[e.0 as int],
                            k <= ccount,
                            ccount == tree.kids(e.0 as int).len(),
                            nox == sat_add_spec(e.1, tree.rect@[e.0 as int]->0.x),
                            noy == sat_add_spec(e.2, tree.rect@[e.0 as int]->0.y),
                            tree.rect@[e.0 as int] is Some,
                            next@ == next0 + spec_children_entries(
                                *tree,
                                e.0 as int,
                                k as int,
                                nox,
                                noy,
                            ),
                            forall|m: int|
                                0 <= m < next@.len() ==> (#[trigger] next@[m]).0 < tree.n()
                                    && tree.alive@[next@[m].0 as int],
                        decreases ccount - k,
                    {
                        let c2 = tree.children[e.0][k];
                        proof {
                            assert(tree.child_ok(e.0 as int, c2 as int));
                            assert((next0 + spec_children_entries(
                                *tree,
                                e.0 as int,
                                (k + 1) as int,
                                nox,
                                noy,
                            )) =~= next@.push((c2, nox, noy)));
                        }
                        next.push((c2, nox, noy));
                        k += 1;
                    }
                },
                Option::None => {
                },
            }
            proof {
                let lj = lv.take((j2 + 1) as int);
                assert(lj.drop_last() =~= lv.take(j2 as int));
                assert(lj.last() == lv[j2 as int]);
                assert(lv[j2 as int] == e);
                assert(out@ =~= (out0 + spec_level_markers(*tree, lj, *inp)));
                assert(next@ =~= spec_next_level(*tree, lj));
            }
            j2 += 1;
        }
        proof {
            assert(lv.take(llen as int) =~= lv);
            lemma_next_level_ok(*tree, lv);
            assert(next@ == spec_next_level(*tree, lv));
            lemma_level_min_member(lv);
            if next.len() > 0 {
                lemma_level_min_member(next@);
                let jm = choose|jx: int|
                    0 <= jx < next@.len() && (#[trigger] next@[jx]).0 as int == spec_level_min(
                        next@,
                    );
                assert(spec_level_min(lv) < spec_level_min(next@));
                assert(spec_level_min(next@) <= tree.n());
                assert(spec_bfs_markers(*tree, lv, *inp) == spec_level_markers(*tree, lv, *inp)
                    + spec_bfs_markers(*tree, next@, *inp));
            } else {
                assert(next@ =~= Seq::<(usize, u32, u32)>::empty());
                assert(spec_level_min(spec_next_level(*tree, lv)) == 0);
                assert(spec_level_min(lv) >= 0) by {
                    let jm = choose|jx: int|
                        0 <= jx < lv.len() && (#[trigger] lv[jx]).0 as int == spec_level_min(lv);
                }
                assert(spec_bfs_markers(*tree, lv, *inp) == spec_level_markers(*tree, lv, *inp));
                assert(spec_bfs_markers(*tree, next@, *inp) =~= Seq::<Marker>::empty());
            }
        }
        level = next;
    }
    proof {
        assert(spec_bfs_markers(*tree, level@, *inp) =~= Seq::<Marker>::empty());
        assert(out@ =~= spec_bfs_markers(*tree, seed, *inp));
    }
    out
}

} // verus!
