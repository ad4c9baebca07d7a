use too::button::{button, Button, ButtonClass, ButtonState, ButtonStyle};
use too::math::{Margin, Size, Space};
use too::style::{Rgba, StyleKind};
use too::view::{Align, Handled, ViewEvent};

fn loose(w: u32, h: u32) -> Space {
    Space::new(Size::new(0, 0), Size::new(w, h))
}

#[test]
fn builder_defaults_and_setters() {
    let b = button("ok");
    assert_eq!(b.margin, Margin::symmetric(1, 0));
    assert_eq!(b.state, ButtonState::Idle);
    assert!(!b.disabled);
    assert_eq!(b.main, Align::Min);
    assert_eq!(b.cross, Align::Min);

    let styled = button("ok")
        .text_horizontal_align(Align::Center)
        .text_vertical_align(Align::Max)
        .margin(Margin::new(2, 2, 1, 1))
        .class(ButtonClass::Danger);
    assert_eq!(styled.main, Align::Center);
    assert_eq!(styled.cross, Align::Max);
    assert_eq!(styled.margin, Margin::new(2, 2, 1, 1));
    assert!(matches!(styled.class, StyleKind::Deferred(ButtonClass::Danger)));

    let direct = ButtonStyle { text_color: Rgba::opaque(1, 2, 3), background: Rgba::opaque(4, 5, 6) };
    let b2 = button("ok").style(direct);
    assert!(matches!(b2.class, StyleKind::Direct(s) if s == direct));
}

#[test]
fn disabled_if_forces_state() {
    let b = button("x").disabled_if(true);
    assert!(b.disabled);
    assert_eq!(b.state, ButtonState::Disabled);
    let b2 = b.disabled_if(false);
    assert!(!b2.disabled);
    assert_eq!(b2.state, ButtonState::Idle);
}

#[test]
fn layout_measures_label_plus_margin() {
    let b = button("hello");
    // Five label cells plus one margin cell on each side, one row tall.
    assert_eq!(b.layout(loose(40, 10)), Size::new(7, 1));
    // Clamped when the space is narrower.
    assert_eq!(b.layout(loose(4, 10)), Size::new(4, 1));
    assert!(b.interactive());
    assert!(b.interests().mouse_inside);
}

#[test]
fn event_transitions_match_the_state_machine() {
    let mut b = button("x");
    assert_eq!(b.event(ViewEvent::MouseEntered), Handled::Sink);
    assert_eq!(b.state, ButtonState::Hovered);
    assert_eq!(b.event(ViewEvent::MouseHeld { inside: true }), Handled::Sink);
    assert_eq!(b.state, ButtonState::Held);
    assert_eq!(b.event(ViewEvent::MouseClicked { inside: true }), Handled::Sink);
    assert_eq!(b.state, ButtonState::Clicked);
    assert_eq!(b.event(ViewEvent::MouseLeave), Handled::Sink);
    assert_eq!(b.state, ButtonState::Idle);
    // Events a button does not react to bubble and change nothing.
    assert_eq!(b.event(ViewEvent::MouseMove { x: 1, y: 1 }), Handled::Bubble);
    assert_eq!(b.state, ButtonState::Idle);
    assert_eq!(b.event(ViewEvent::MouseHeld { inside: false }), Handled::Bubble);
    // A disabled button consumes nothing.
    let mut d = button("x").disabled_if(true);
    assert_eq!(d.event(ViewEvent::MouseClicked { inside: true }), Handled::Bubble);
    assert_eq!(d.state, ButtonState::Disabled);
}

#[test]
fn update_reports_prior_state_and_decays_click() {
    let mut b = button("x");
    b.event(ViewEvent::MouseClicked { inside: true });
    let resp = b.update(button("x"));
    assert!(resp.clicked());
    assert_eq!(b.state, ButtonState::Hovered);
    let resp2 = b.update(button("x"));
    assert!(resp2.hovered());
    // The disabled flag overrides, and clearing it rests the state.
    let resp3 = b.update(button("x").disabled_if(true));
    assert!(resp3.disabled());
    assert_eq!(b.state, ButtonState::Disabled);
    let resp4 = b.update(button("x"));
    assert!(resp4.disabled());
    assert_eq!(b.state, ButtonState::Idle);
}

#[test]
fn disabling_update_suppresses_a_pending_click() {
    // Pointer-up landed inside last frame, then the builder disables the
    // button: the click must not be reported.
    let mut b = button("x");
    b.event(ViewEvent::MouseClicked { inside: true });
    assert_eq!(b.state, ButtonState::Clicked);
    let resp = b.update(button("x").disabled_if(true));
    assert!(!resp.clicked());
    assert!(resp.disabled());
    assert_eq!(b.state, ButtonState::Disabled);
}

#[test]
fn default_button_state_is_idle() {
    assert_eq!(ButtonState::default(), ButtonState::Idle);
}

#[test]
fn update_adopts_builder_arguments() {
    let mut b: Button = button("old");
    b.event(ViewEvent::MouseEntered);
    b.update(button("new").margin(Margin::new(0, 0, 0, 0)));
    assert_eq!(b.margin, Margin::new(0, 0, 0, 0));
    // State survives the argument swap.
    assert_eq!(b.state, ButtonState::Hovered);
    assert_eq!(b.layout(loose(40, 10)), Size::new(3, 1));
}
