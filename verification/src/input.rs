use vstd::prelude::*;
use crate::button::{Button, spec_event_handled, spec_event_transition};
use crate::tree::{Tree, ViewValue};
use crate::view::ViewEvent;

verus! {

/// The per-frame interaction state: which node the pointer rests on, which
/// holds focus, which holds the selection. At most one node holds each.
/// Focus and selection are advisory flags other views read; only the router
/// and these setters mutate them.
pub struct InputState {
    pub hovered: Option<usize>,
    pub focused: Option<usize>,
    pub selection: Option<usize>,
}

impl InputState {
    pub fn new() -> (r: InputState)
        ensures
            r.hovered is None,
            r.focused is None,
            r.selection is None,
    {
        InputState { hovered: None, focused: None, selection: None }
    }

    pub fn is_hovered(&self, id: usize) -> (r: bool)
        ensures
            r == (self.hovered == Some(id)),
    {
        match self.hovered {
            Option::Some(h) => h == id,
            Option::None => false,
        }
    }

    pub fn is_focused(&self, id: usize) -> (r: bool)
        ensures
            r == (self.focused == Some(id)),
    {
        match self.focused {
            Option::Some(h) => h == id,
            Option::None => false,
        }
    }

    pub fn selection(&self) -> (r: Option<usize>)
        ensures
            r == self.selection,
    {
        self.selection
    }

    /// Hand focus to a node (or clear it). Only one node holds focus.
    pub fn set_focus(&mut self, id: Option<usize>)
        ensures
            final(self).focused == id,
            final(self).hovered == old(self).hovered,
            final(self).selection == old(self).selection,
    {
        self.focused = id;
    }

    /// Hand the selection to a node (or clear it). Only one node holds it.
    pub fn set_selection(&mut self, id: Option<usize>)
        ensures
            final(self).selection == id,
            final(self).hovered == old(self).hovered,
            final(self).focused == old(self).focused,
    {
        self.selection = id;
    }
}

/// Whether a view declares interest in pointer events.
pub open spec fn spec_wants_mouse(v: ViewValue) -> bool {
    v is Button
}

/// The deepest node under the pointer whose declared interest matches
/// pointer events, walking children topmost-painted first. A node whose
/// rect was never placed (a stale entry) hides its whole subtree.
pub open spec fn spec_hit(t: Tree, id: int, ox: u32, oy: u32, x: u32, y: u32) -> Option<usize>
    decreases t.n() - id, t.kids(id).len() + 1,
{
    if 0 <= id < t.n() {
        match t.rect@[id] {
            Some(rc) => {
                let abs = rc.spec_translate(ox, oy);
                if abs.spec_contains(x, y) {
                    let sub = spec_hit_children(t, id, t.kids(id).len() as int, abs.x, abs.y, x, y);
                    if sub is Some {
                        sub
                    } else if spec_wants_mouse(t.views@[id]) {
                        Some(id as usize)
                    } else {
                        None
                    }
                } else {
                    None
                }
            },
            None => None,
        }
    } else {
        None
    }
}

pub open spec fn spec_hit_children(t: Tree, id: int, k: int, ox: u32, oy: u32, x: u32, y: u32) -> Option<
    usize,
>
    decreases t.n() - id, k,
{
    if 0 <= id < t.n() && 0 < k <= t.kids(id).len() {
        let c = t.kids(id)[k - 1] as int;
        let hit = if id < c < t.n() {
            spec_hit(t, c, ox, oy, x, y)
        } else {
            None
        };
        if hit is Some {
            hit
        } else {
            spec_hit_children(t, id, k - 1, ox, oy, x, y)
        }
    } else {
        None
    }
}

fn hit_node(tree: &Tree, id: usize, ox: u32, oy: u32, x: u32, y: u32) -> (r: Option<usize>)
    requires
        tree.wf(),
        id < tree.n(),
        tree.alive@[id as int],
    ensures
        r == spec_hit(*tree, id as int, ox, oy, x, y),
        r is Some ==> r->0 < tree.n() && tree.alive@[r->0 as int],
    decreases tree.n() - id,
{
    let rc = match tree.rect[id] {
        Option::Some(rc) => rc,
        Option::None => {
            return Option::None;
        },
    };
    let abs = rc.translate(ox, oy);
    if !abs.contains_point(x, y) {
        return Option::None;
    }
    let count = tree.children[id].len();
    let mut k: usize = count;
    while k > 0
        invariant
            tree.wf(),
            id < tree.n(),
            tree.alive@[id as int],
            k <= count,
            count == tree.kids(id as int).len(),
            tree.rect@[id as int] is Some,
            rc == tree.rect@[id as int]->0,
            abs == rc.spec_translate(ox, oy),
            abs.spec_contains(x, y),
            spec_hit_children(*tree, id as int, count as int, abs.x, abs.y, x, y)
                == spec_hit_children(*tree, id as int, k as int, abs.x, abs.y, x, y),
        decreases k,
    {
        let c = tree.children[id][k - 1];
        proof {
            assert(tree.child_ok(id as int, c as int));
        }
        let sub = hit_node(tree, c, abs.x, abs.y, x, y);
        if let Option::Some(h) = sub {
            proof {
                assert(spec_hit_children(*tree, id as int, k as int, abs.x, abs.y, x, y) == Some(
                    h,
                ));
            }
            return Option::Some(h);
        }
        k -= 1;
    }
    let wants = match &tree.views[id] {
        ViewValue::Button(_) => true,
        _ => false,
    };
    if wants {
        Option::Some(id)
    } else {
        Option::None
    }
}

/// Hit-test the whole tree from the root at the origin.
pub fn hit_test(tree: &Tree, x: u32, y: u32) -> (r: Option<usize>)
    requires
        tree.wf(),
    ensures
        r == spec_hit(*tree, 0, 0, 0, x, y),
        r is Some ==> r->0 < tree.n() && tree.alive@[r->0 as int],
{
    hit_node(tree, 0, 0, 0, x, y)
}

/// Only interaction state may differ between the two view columns: every
/// changed slot held a button and still holds the same button, with only
/// its `state` rewritten.
pub open spec fn only_button_states_changed(v0: Seq<ViewValue>, v1: Seq<ViewValue>) -> bool {
    &&& v0.len() == v1.len()
    &&& forall|i: int|
        0 <= i < v0.len() ==> (#[trigger] v1[i]) == v0[i] || (v0[i] is Button && v1[i] is Button
            && v1[i]->Button_0 == (Button { state: v1[i]->Button_0.state, ..v0[i]->Button_0 })
            && ((v0[i]->Button_0.state is Disabled) <==> (v1[i]->Button_0.state is Disabled)))
}

/// Deliver one event to a node, bubbling to its ancestors while each node
/// either lacks interest or answers `Bubble`. Buttons take the event
/// through their own state machine; every other view lets it pass.
pub fn dispatch_event(tree: &mut Tree, id: usize, event: ViewEvent)
    requires
        old(tree).wf(),
        id < old(tree).n(),
        old(tree).alive@[id as int],
    ensures
        final(tree).wf(),
        final(tree).n() == old(tree).n(),
        final(tree).alive@ == old(tree).alive@,
        final(tree).parent@ == old(tree).parent@,
        final(tree).children@ == old(tree).children@,
        final(tree).key@ == old(tree).key@,
        final(tree).size@ == old(tree).size@,
        final(tree).rect@ == old(tree).rect@,
        final(tree).visited@ == old(tree).visited@,
        only_button_states_changed(old(tree).views@, final(tree).views@),
        forall|i: int|
            id < i < old(tree).n() ==> final(tree).views@[i] == old(tree).views@[i],
        old(tree).views@[id as int] is Button ==> final(tree).views@[id as int]
            == ViewValue::Button(
            Button {
                state: spec_event_transition(old(tree).views@[id as int]->Button_0.state, event),
                ..old(tree).views@[id as int]->Button_0
            },
        ),
        (old(tree).views@[id as int] is Button && spec_event_handled(
            old(tree).views@[id as int]->Button_0.state,
            event,
        ) is Sink) ==> (forall|i: int|
            0 <= i < old(tree).n() && i != id ==> final(tree).views@[i] == old(tree).views@[i]),
    decreases id,
{
    let is_button = match &tree.views[id] {
        ViewValue::Button(_) => true,
        _ => false,
    };
    let mut bubble = true;
    if is_button {
        let v = tree.views.remove(id);
        match v {
            ViewValue::Button(mut b) => {
                let h = b.event(event);
                bubble = matches!(h, crate::view::Handled::Bubble);
                tree.views.insert(id, ViewValue::Button(b));
                proof {
                    assert(tree.views@ =~= old(tree).views@.update(
                        id as int,
                        tree.views@[id as int],
                    ));
                }
            },
            _ => vstd::pervasive::unreached(),
        }
    }
    proof {
        Tree::lemma_wf_preserved(*old(tree), *tree);
    }
    if bubble && id > 0 {
        let p = match tree.parent[id] {
            Option::Some(p) => p,
            Option::None => vstd::pervasive::unreached(),
        };
        let ghost mid = *tree;
        dispatch_event(tree, p, event);
        proof {
            assert forall|i: int|
                0 <= i < old(tree).views@.len() implies (#[trigger] tree.views@[i]) == old(tree).views@[i] || (old(tree).views@[i] is Button && tree.views@[i] is Button
                && tree.views@[i]->Button_0 == (Button {
                state: tree.views@[i]->Button_0.state,
                ..old(tree).views@[i]->Button_0
            }) && ((old(tree).views@[i]->Button_0.state is Disabled) <==> (
            tree.views@[i]->Button_0.state is Disabled))) by {
                assert(only_button_states_changed(mid.views@, tree.views@));
                if tree.views@[i] != mid.views@[i] {
                    assert(mid.views@[i] is Button);
                }
            }
            assert(p < id);
            assert(tree.views@[id as int] == mid.views@[id as int]);
        }
    }
}

/// Route a pointer move: hit-test the committed rects, send `MouseLeave`
/// to the node the pointer left and `MouseEntered` to the one it reached,
/// and record the new hover target.
pub fn pointer_move(tree: &mut Tree, input: &mut InputState, x: u32, y: u32)
    requires
        old(tree).wf(),
    ensures
        final(tree).wf(),
        final(tree).n() == old(tree).n(),
        final(tree).alive@ == old(tree).alive@,
        final(tree).parent@ == old(tree).parent@,
        final(tree).children@ == old(tree).children@,
        final(tree).key@ == old(tree).key@,
        final(tree).size@ == old(tree).size@,
        final(tree).rect@ == old(tree).rect@,
        final(tree).visited@ == old(tree).visited@,
        only_button_states_changed(old(tree).views@, final(tree).views@),
        final(input).hovered == spec_hit(*old(tree), 0, 0, 0, x, y),
        final(input).focused == old(input).focused,
        final(input).selection == old(input).selection,
        spec_hit(*old(tree), 0, 0, 0, x, y) == old(input).hovered ==> final(tree).views@ == old(tree).views@,
        (match spec_hit(*old(tree), 0, 0, 0, x, y) {
            Some(nh) => (Some(nh) != old(input).hovered && old(tree).views@[nh as int] is Button
                && !(old(tree).views@[nh as int]->Button_0.state is Disabled)) ==> (final(tree).views@[nh as int] is Button
                && final(tree).views@[nh as int]->Button_0.state is Hovered),
            None => true,
        }),
        (match old(input).hovered {
            Some(h) => (spec_hit(*old(tree), 0, 0, 0, x, y) != Some(h) && h < old(tree).n() && old(tree).alive@[h as int] && old(tree).views@[h as int] is Button && (match spec_hit(
                *old(tree),
                0,
                0,
                0,
                x,
                y,
            ) {
                Some(nh) => old(tree).views@[nh as int] is Button && !(
                old(tree).views@[nh as int]->Button_0.state is Disabled) && nh != h,
                None => true,
            })) ==> final(tree).views@[h as int] == ViewValue::Button(
                Button {
                    state: spec_event_transition(
                        old(tree).views@[h as int]->Button_0.state,
                        ViewEvent::MouseLeave,
                    ),
                    ..old(tree).views@[h as int]->Button_0
                },
            ),
            None => true,
        }),
    {
        let hit = hit_test(tree, x, y);
        let same = match (hit, input.hovered) {
            (Option::Some(a), Option::Some(b)) => a == b,
            (Option::None, Option::None) => true,
            _ => false,
        };
        if !same {
            let ghost t0 = *tree;
            if let Option::Some(old_h) = input.hovered {
                if tree.is_alive(old_h) {
                    dispatch_event(tree, old_h, ViewEvent::MouseLeave);
                }
            }
            let ghost t1 = *tree;
            if let Option::Some(new_h) = hit {
                dispatch_event(tree, new_h, ViewEvent::MouseEntered);
                proof {
                    let nhi = new_h as int;
                    if old(tree).views@[nhi] is Button && !(
                    old(tree).views@[nhi]->Button_0.state is Disabled) {
                        assert(only_button_states_changed(t0.views@, t1.views@));
                        assert(t1.views@[nhi] is Button);
                        assert(!(t1.views@[nhi]->Button_0.state is Disabled));
                        assert(tree.views@[nhi]->Button_0.state is Hovered);
                        if let Option::Some(h) = old(input).hovered {
                            if h != new_h && h < old(tree).n() && old(tree).alive@[h as int] && old(tree).views@[h as int] is Button {
                                assert(spec_event_handled(
                                    t1.views@[nhi]->Button_0.state,
                                    ViewEvent::MouseEntered,
                                ) is Sink);
                                assert(tree.views@[h as int] == t1.views@[h as int]);
                            }
                        }
                    }
                }
            }
            proof {
                assert forall|i: int|
                    0 <= i < old(tree).views@.len() implies (#[trigger] tree.views@[i]) == old(tree).views@[i] || (old(tree).views@[i] is Button && tree.views@[i] is Button
                    && tree.views@[i]->Button_0 == (Button {
                    state: tree.views@[i]->Button_0.state,
                    ..old(tree).views@[i]->Button_0
                })) by {
                    assert(only_button_states_changed(t0.views@, t1.views@));
                    assert(only_button_states_changed(t1.views@, tree.views@));
                    if tree.views@[i] != t1.views@[i] {
                        assert(t1.views@[i] is Button);
                    }
                }
            }
            input.hovered = hit;
        } else {
            input.hovered = hit;
        }
    }

/// Route a pointer-button press: the hovered node receives `MouseHeld`
/// with the pointer inside it.
pub fn pointer_down(tree: &mut Tree, input: &InputState)
    requires
        old(tree).wf(),
    ensures
        final(tree).wf(),
        final(tree).n() == old(tree).n(),
        final(tree).alive@ == old(tree).alive@,
        final(tree).parent@ == old(tree).parent@,
        final(tree).children@ == old(tree).children@,
        final(tree).key@ == old(tree).key@,
        final(tree).size@ == old(tree).size@,
        final(tree).rect@ == old(tree).rect@,
        final(tree).visited@ == old(tree).visited@,
        only_button_states_changed(old(tree).views@, final(tree).views@),
        (match input.hovered {
            Some(h) => h < old(tree).n() && old(tree).alive@[h as int] && old(tree).views@[h as int] is Button ==> final(tree).views@[h as int] == ViewValue::Button(
                Button {
                    state: spec_event_transition(
                        old(tree).views@[h as int]->Button_0.state,
                        ViewEvent::MouseHeld { inside: true },
                    ),
                    ..old(tree).views@[h as int]->Button_0
                },
            ),
            None => final(tree).views@ == old(tree).views@,
        }),
    {
        match input.hovered {
            Option::Some(h) => {
                if tree.is_alive(h) {
                    dispatch_event(tree, h, ViewEvent::MouseHeld { inside: true });
                }
            },
            Option::None => {
            },
        }
    }

/// Route a pointer-button release: the hovered node receives
/// `MouseClicked` with the pointer inside it.
pub fn pointer_up(tree: &mut Tree, input: &InputState)
    requires
        old(tree).wf(),
    ensures
        final(tree).wf(),
        final(tree).n() == old(tree).n(),
        final(tree).alive@ == old(tree).alive@,
        final(tree).parent@ == old(tree).parent@,
        final(tree).children@ == old(tree).children@,
        final(tree).key@ == old(tree).key@,
        final(tree).size@ == old(tree).size@,
        final(tree).rect@ == old(tree).rect@,
        final(tree).visited@ == old(tree).visited@,
        only_button_states_changed(old(tree).views@, final(tree).views@),
        (match input.hovered {
            Some(h) => h < old(tree).n() && old(tree).alive@[h as int] && old(tree).views@[h as int] is Button ==> final(tree).views@[h as int] == ViewValue::Button(
                Button {
                    state: spec_event_transition(
                        old(tree).views@[h as int]->Button_0.state,
                        ViewEvent::MouseClicked { inside: true },
                    ),
                    ..old(tree).views@[h as int]->Button_0
                },
            ),
            None => final(tree).views@ == old(tree).views@,
        }),
    {
        match input.hovered {
            Option::Some(h) => {
                if tree.is_alive(h) {
                    dispatch_event(tree, h, ViewEvent::MouseClicked { inside: true });
                }
            },
            Option::None => {
            },
        }
    }

} // verus!
