use too::axis::Axis;
use too::button::{button, ButtonResponse};
use too::input::{hit_test, pointer_down, pointer_move, pointer_up, InputState};
use too::layout::layout_frame;
use too::math::{Size, Space};
use too::ui::Ui;

fn loose(w: u32, h: u32) -> Space {
    Space::new(Size::new(0, 0), Size::new(w, h))
}

struct Harness {
    ui: Ui,
    input: InputState,
}

impl Harness {
    fn new() -> Harness {
        Harness { ui: Ui::new(Axis::Vertical), input: InputState::new() }
    }

    /// One frame showing a single button; returns its response.
    fn frame(&mut self, disabled: bool) -> ButtonResponse {
        self.ui.begin_frame();
        let resp = self.ui.button(button("go").disabled_if(disabled)).unwrap();
        self.ui.end_frame().unwrap();
        layout_frame(&mut self.ui.tree, loose(40, 10));
        resp
    }
}

// Label "go" with the stock symmetric margin of one cell: the button sits at
// the origin with width 4 and height 1, so (1, 0) is inside it.

#[test]
fn button_state_machine_full_cycle() {
    let mut h = Harness::new();
    let r0 = h.frame(false);
    assert!(!r0.clicked() && !r0.hovered() && !r0.held() && !r0.disabled());

    // Pointer enters the button's rect.
    pointer_move(&mut h.ui.tree, &mut h.input, 1, 0);
    let r1 = h.frame(false);
    assert!(r1.hovered());

    // Pointer pressed inside.
    pointer_down(&mut h.ui.tree, &h.input);
    let r2 = h.frame(false);
    assert!(r2.held());

    // Released inside: a click, reported exactly once.
    pointer_up(&mut h.ui.tree, &h.input);
    let r3 = h.frame(false);
    assert!(r3.clicked());

    // Next frame with no new event: the click decays to hovered.
    let r4 = h.frame(false);
    assert!(r4.hovered());
    assert!(!r4.clicked());

    // Pointer leaves: back to rest.
    pointer_move(&mut h.ui.tree, &mut h.input, 30, 9);
    let r5 = h.frame(false);
    assert!(!r5.hovered() && !r5.held() && !r5.clicked());
}

#[test]
fn disabling_after_pointer_up_suppresses_the_click() {
    let mut h = Harness::new();
    h.frame(false);
    pointer_move(&mut h.ui.tree, &mut h.input, 1, 0);
    h.frame(false);
    pointer_down(&mut h.ui.tree, &h.input);
    pointer_up(&mut h.ui.tree, &h.input);
    // The click completed, but this frame disables the button: the response
    // must not report it.
    let r = h.frame(true);
    assert!(!r.clicked());
    assert!(r.disabled());
}

#[test]
fn disabled_suppresses_click() {
    let mut h = Harness::new();
    h.frame(false);
    pointer_move(&mut h.ui.tree, &mut h.input, 1, 0);
    h.frame(false);

    // Disable it while hovered, then press and release inside. A disabling
    // update reports Disabled at once.
    let rd = h.frame(true);
    assert!(rd.disabled());
    assert!(!rd.hovered());
    pointer_down(&mut h.ui.tree, &h.input);
    pointer_up(&mut h.ui.tree, &h.input);
    let r = h.frame(true);
    assert!(r.disabled());
    assert!(!r.clicked());

    // Clearing the flag resets the state to rest; the response reports the
    // pre-update state, so the reset shows on the following frame.
    let r2 = h.frame(false);
    assert!(r2.disabled());
    let r3 = h.frame(false);
    assert!(!r3.disabled() && !r3.clicked() && !r3.hovered());
}

#[test]
fn hit_test_finds_deepest_interactive_node() {
    let mut h = Harness::new();
    h.frame(false);
    let id = h.ui.tree.children[0][0];
    assert_eq!(hit_test(&h.ui.tree, 1, 0), Some(id));
    // The root stack itself has no pointer interest.
    assert_eq!(hit_test(&h.ui.tree, 30, 9), None);
}

#[test]
fn hover_tracking_follows_pointer() {
    let mut h = Harness::new();
    h.frame(false);
    let id = h.ui.tree.children[0][0];
    pointer_move(&mut h.ui.tree, &mut h.input, 1, 0);
    assert_eq!(h.input.hovered, Some(id));
    pointer_move(&mut h.ui.tree, &mut h.input, 30, 9);
    assert_eq!(h.input.hovered, None);
}

#[test]
fn focus_and_selection_are_single_slots() {
    let mut input = InputState::new();
    input.set_focus(Some(3));
    assert!(input.is_focused(3));
    assert!(!input.is_focused(4));
    input.set_focus(Some(4));
    assert!(!input.is_focused(3));
    input.set_selection(Some(9));
    assert_eq!(input.selection(), Some(9));
    input.set_selection(None);
    assert_eq!(input.selection(), None);
}
