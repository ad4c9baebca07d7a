use too::axis::Axis;
use too::button::button;
use too::layout::layout_frame;
use too::math::{Size, Space};
use too::tree::ViewValue;
use too::ui::{Ui, UiError};

fn sz(w: u32, h: u32) -> Size {
    Size::new(w, h)
}

fn loose(w: u32, h: u32) -> Space {
    Space::new(sz(0, 0), sz(w, h))
}

#[test]
fn vertical_stack_sums_main_and_maxes_cross() {
    // Two children sized 5 and 7 along the main (vertical) axis with cross
    // sizes 3 and 4: the container asks for (main=12, cross=4).
    let mut ui = Ui::new(Axis::Vertical);
    ui.begin_frame();
    ui.spacer(sz(3, 5)).unwrap();
    ui.spacer(sz(4, 7)).unwrap();
    ui.end_frame().unwrap();
    let size = layout_frame(&mut ui.tree, loose(100, 100));
    assert_eq!(size, sz(4, 12));
}

#[test]
fn stack_size_is_clamped_into_space() {
    let mut ui = Ui::new(Axis::Vertical);
    ui.begin_frame();
    ui.spacer(sz(3, 5)).unwrap();
    ui.spacer(sz(4, 7)).unwrap();
    ui.end_frame().unwrap();
    let size = layout_frame(&mut ui.tree, loose(100, 10));
    assert_eq!(size, sz(4, 10));
}

#[test]
fn reconcile_same_sequence_is_idempotent() {
    let mut ui = Ui::new(Axis::Vertical);
    for frame in 0..3 {
        ui.begin_frame();
        ui.begin_stack(Axis::Horizontal).unwrap();
        ui.button(button("a")).unwrap();
        ui.button(button("b")).unwrap();
        ui.end().unwrap();
        ui.spacer(sz(2, 2)).unwrap();
        ui.end_frame().unwrap();
        if frame == 0 {
            assert_eq!(ui.created, 4);
            assert_eq!(ui.removed, 0);
        } else {
            // Re-running the unchanged call sequence: only updates.
            assert_eq!(ui.created, 0);
            assert_eq!(ui.removed, 0);
            assert_eq!(ui.updated, 4);
        }
    }
}

#[test]
fn unvisited_node_is_removed_at_end_of_frame() {
    let mut ui = Ui::new(Axis::Vertical);
    ui.begin_frame();
    ui.spacer(sz(1, 1)).unwrap();
    ui.spacer(sz(2, 2)).unwrap();
    ui.end_frame().unwrap();
    assert_eq!(ui.created, 2);
    let second = ui.tree.children[0][1];

    ui.begin_frame();
    ui.spacer(sz(1, 1)).unwrap();
    ui.end_frame().unwrap();
    assert_eq!(ui.created, 0);
    assert_eq!(ui.removed, 1);
    assert!(!ui.tree.alive[second]);
    // The removed node no longer appears under the root.
    assert_eq!(ui.tree.children[0].len(), 1);
    // Stale identities read as absent instead of failing the frame.
    assert!(!ui.tree.is_alive(second));
    assert_eq!(ui.tree.rect_of(second), None);
    assert_eq!(ui.tree.size_of(second), None);
    assert_eq!(ui.tree.rect_of(9999), None);
}

#[test]
fn type_change_at_same_position_recreates() {
    let mut ui = Ui::new(Axis::Vertical);
    ui.begin_frame();
    ui.spacer(sz(1, 1)).unwrap();
    ui.end_frame().unwrap();

    ui.begin_frame();
    ui.button(button("x")).unwrap();
    ui.end_frame().unwrap();
    // Not a match: the old node is removed and a fresh one created.
    assert_eq!(ui.created, 1);
    assert_eq!(ui.removed, 1);
}

#[test]
fn duplicate_keys_at_same_level_error() {
    let mut ui = Ui::new(Axis::Vertical);
    ui.begin_frame();
    assert!(ui.button_keyed(button("a"), 7).is_ok());
    let r = ui.button_keyed(button("b"), 7);
    assert!(matches!(r, Err(UiError::DuplicateKey)));
    // A different key is still fine, and so is the same key one level deeper.
    assert!(ui.button_keyed(button("c"), 8).is_ok());
    ui.begin_stack(Axis::Horizontal).unwrap();
    assert!(ui.button_keyed(button("d"), 7).is_ok());
    ui.end().unwrap();
    ui.end_frame().unwrap();
}

#[test]
fn mismatched_scopes_error() {
    let mut ui = Ui::new(Axis::Vertical);
    ui.begin_frame();
    let r = ui.end();
    assert!(matches!(r, Err(UiError::MismatchedScope)));
    ui.begin_stack(Axis::Horizontal).unwrap();
    let r2 = ui.end_frame();
    assert!(matches!(r2, Err(UiError::MismatchedScope)));
    ui.end().unwrap();
    ui.end_frame().unwrap();
}

#[test]
fn matched_button_keeps_its_identity() {
    let mut ui = Ui::new(Axis::Vertical);
    ui.begin_frame();
    ui.button(button("hello")).unwrap();
    ui.end_frame().unwrap();
    let id = ui.tree.children[0][0];

    ui.begin_frame();
    ui.button(button("world")).unwrap();
    ui.end_frame().unwrap();
    assert_eq!(ui.tree.children[0][0], id);
    match &ui.tree.views[id] {
        ViewValue::Button(_) => {}
        _ => panic!("expected a button node"),
    }
}

#[test]
fn spacer_row_replay_creates_and_removes_nothing() {
    let mut ui = Ui::new(Axis::Horizontal);
    let sizes = vec![sz(1, 1), sz(2, 3), sz(4, 4)];
    ui.spacer_row(&sizes).unwrap();
    assert_eq!(ui.created, 3);
    ui.spacer_row(&sizes).unwrap();
    assert_eq!(ui.created, 0);
    assert_eq!(ui.removed, 0);
    assert_eq!(ui.updated, 3);
    // A shorter row on the next frame drops exactly the extra node.
    let fewer = vec![sz(1, 1), sz(2, 3)];
    ui.spacer_row(&fewer).unwrap();
    assert_eq!(ui.created, 0);
    assert_eq!(ui.removed, 1);
}
