use vstd::prelude::*;
use vstd::string::StrSliceExecFns;
use crate::label::{Label, label_chars, label_from, label_str};
use crate::math::{Margin, Size, Space, sat_add_spec};
use crate::style::{Palette, Rgba, StyleKind};
use crate::view::{Align, Handled, Interest, ViewEvent};

verus! {

/// The interaction state of a button node. `Clicked` is a one-frame,
/// edge-triggered signal: it decays to `Hovered` on the next frame's update.
#[derive(Copy, Clone, Debug, PartialEq, Eq, Structural)]
pub enum ButtonState {
    Hovered,
    Held,
    Clicked,
    Disabled,
    Idle,
}

impl Default for ButtonState {
    fn default() -> (r: Self)
        ensures
            r is Idle,
    {
        ButtonState::Idle
    }
}

/// The resolved look of a button: what the render pass actually paints.
#[derive(Copy, Clone, Debug, PartialEq, Eq, Structural)]
pub struct ButtonStyle {
    pub text_color: Rgba,
    pub background: Rgba,
}

/// A deferred button style: which rule resolves (palette, state) to a
/// `ButtonStyle` at render time.
#[derive(Copy, Clone, Debug, PartialEq, Eq, Structural)]
pub enum ButtonClass {
    Plain,
    Success,
    Info,
    Warning,
    Danger,
}

pub open spec fn spec_common(
    palette: Palette,
    state: ButtonState,
    primary: Rgba,
    text_color: Rgba,
) -> ButtonStyle {
    match state {
        ButtonState::Hovered => ButtonStyle { text_color, background: palette.accent },
        ButtonState::Held => ButtonStyle { text_color, background: palette.secondary },
        ButtonState::Clicked => ButtonStyle { text_color, background: palette.primary },
        ButtonState::Disabled => ButtonStyle {
            text_color: palette.outline,
            background: palette.surface,
        },
        ButtonState::Idle => ButtonStyle { text_color, background: primary },
    }
}

/// The foreground the tinted classes use: on a dark palette the theme's
/// background reads better over a bright tint.
pub open spec fn spec_tinted_fg(palette: Palette) -> Rgba {
    if palette.dark {
        palette.background
    } else {
        palette.foreground
    }
}

impl ButtonStyle {
    fn common(palette: &Palette, state: ButtonState, primary: Rgba, text_color: Rgba) -> (r:
        ButtonStyle)
        ensures
            r == spec_common(*palette, state, primary, text_color),
    {
        let mut text_color = text_color;
        let background = match state {
            ButtonState::Hovered => palette.accent,
            ButtonState::Held => palette.secondary,
            ButtonState::Clicked => palette.primary,
            ButtonState::Disabled => {
                text_color = palette.outline;
                palette.surface
            },
            ButtonState::Idle => primary,
        };
        ButtonStyle { text_color, background }
    }

    /// The stock look: outline-colored at rest, themed foreground text.
    pub fn default(palette: &Palette, state: ButtonState) -> (r: ButtonStyle)
        ensures
            r == spec_common(*palette, state, palette.outline, palette.foreground),
    {
        Self::common(palette, state, palette.outline, palette.foreground)
    }

    pub fn success(palette: &Palette, state: ButtonState) -> (r: ButtonStyle)
        ensures
            r == spec_common(*palette, state, palette.success, spec_tinted_fg(*palette)),
    {
        let fg = if palette.is_dark() {
            palette.background
        } else {
            palette.foreground
        };
        Self::common(palette, state, palette.success, fg)
    }

    pub fn info(palette: &Palette, state: ButtonState) -> (r: ButtonStyle)
        ensures
            r == spec_common(*palette, state, palette.info, spec_tinted_fg(*palette)),
    {
        let fg = if palette.is_dark() {
            palette.background
        } else {
            palette.foreground
        };
        Self::common(palette, state, palette.info, fg)
    }

    pub fn warning(palette: &Palette, state: ButtonState) -> (r: ButtonStyle)
        ensures
            r == spec_common(*palette, state, palette.warning, spec_tinted_fg(*palette)),
    {
        let fg = if palette.is_dark() {
            palette.background
        } else {
            palette.foreground
        };
        Self::common(palette, state, palette.warning, fg)
    }

    pub fn danger(palette: &Palette, state: ButtonState) -> (r: ButtonStyle)
        ensures
            r == spec_common(*palette, state, palette.danger, spec_tinted_fg(*palette)),
    {
        let fg = if palette.is_dark() {
            palette.background
        } else {
            palette.foreground
        };
        Self::common(palette, state, palette.danger, fg)
    }
}

/// What a deferred class resolves to for a given palette and state.
pub open spec fn spec_resolve_class(class: ButtonClass, palette: Palette, state: ButtonState) -> ButtonStyle {
    match class {
        ButtonClass::Plain => spec_common(palette, state, palette.outline, palette.foreground),
        ButtonClass::Success => spec_common(palette, state, palette.success, spec_tinted_fg(palette)),
        ButtonClass::Info => spec_common(palette, state, palette.info, spec_tinted_fg(palette)),
        ButtonClass::Warning => spec_common(palette, state, palette.warning, spec_tinted_fg(palette)),
        ButtonClass::Danger => spec_common(palette, state, palette.danger, spec_tinted_fg(palette)),
    }
}

impl ButtonClass {
    /// Resolve this deferred class against the palette and the node's
    /// current interaction state.
    pub fn resolve(self, palette: &Palette, state: ButtonState) -> (r: ButtonStyle)
        ensures
            r == spec_resolve_class(self, *palette, state),
    {
        match self {
            ButtonClass::Plain => ButtonStyle::default(palette, state),
            ButtonClass::Success => ButtonStyle::success(palette, state),
            ButtonClass::Info => ButtonStyle::info(palette, state),
            ButtonClass::Warning => ButtonStyle::warning(palette, state),
            ButtonClass::Danger => ButtonStyle::danger(palette, state),
        }
    }
}

/// A declarative button: the immediate-mode call's arguments, and — once
/// adopted into the tree — the node's persistent interaction state.
pub struct Button {
    pub label: Label,
    pub margin: Margin,
    pub state: ButtonState,
    pub disabled: bool,
    pub main: Align,
    pub cross: Align,
    pub class: StyleKind<ButtonClass, ButtonStyle>,
}

/// Start building a button with the given label.
pub fn button(label: &str) -> (r: Button)
    ensures
        label_chars(r.label) == label@,
        r.margin == Margin::spec_symmetric(1, 0),
        r.state is Idle,
        !r.disabled,
        r.main is Min,
        r.cross is Min,
        r.class == StyleKind::<ButtonClass, ButtonStyle>::Deferred(ButtonClass::Plain),
{
    Button::new(label)
}

impl Button {
    pub fn new(label: &str) -> (r: Button)
        ensures
            label_chars(r.label) == label@,
            r.margin == Margin::spec_symmetric(1, 0),
            r.state is Idle,
            !r.disabled,
            r.main is Min,
            r.cross is Min,
            r.class == StyleKind::<ButtonClass, ButtonStyle>::Deferred(ButtonClass::Plain),
    {
        Button {
            label: label_from(label),
            margin: Margin::symmetric(1, 0),
            state: ButtonState::Idle,
            disabled: false,
            main: Align::Min,
            cross: Align::Min,
            class: StyleKind::Deferred(ButtonClass::Plain),
        }
    }

    pub fn text_horizontal_align(self, justify: Align) -> (r: Button)
        ensures
            r == (Button { main: justify, ..self }),
    {
        Button { main: justify, ..self }
    }

    pub fn text_vertical_align(self, justify: Align) -> (r: Button)
        ensures
            r == (Button { cross: justify, ..self }),
    {
        Button { cross: justify, ..self }
    }

    pub fn margin(self, margin: Margin) -> (r: Button)
        ensures
            r == (Button { margin, ..self }),
    {
        Button { margin, ..self }
    }

    /// Mark the button disabled. A disabled node still renders and still
    /// occupies layout space; only event consumption is suppressed.
    pub fn disabled_if(self, disabled: bool) -> (r: Button)
        ensures
            r.disabled == disabled,
            r.state == (if disabled {
                ButtonState::Disabled
            } else {
                ButtonState::Idle
            }),
            r.label == self.label,
            r.margin == self.margin,
            r.main == self.main,
            r.cross == self.cross,
            r.class == self.class,
    {
        let state = if disabled {
            ButtonState::Disabled
        } else {
            ButtonState::Idle
        };
        Button { disabled, state, ..self }
    }

    pub fn class(self, class: ButtonClass) -> (r: Button)
        ensures
            r == (Button { class: StyleKind::<ButtonClass, ButtonStyle>::Deferred(class), ..self }),
    {
        Button { class: StyleKind::Deferred(class), ..self }
    }

    pub fn style(self, style: ButtonStyle) -> (r: Button)
        ensures
            r == (Button { class: StyleKind::<ButtonClass, ButtonStyle>::Direct(style), ..self }),
    {
        Button { class: StyleKind::Direct(style), ..self }
    }

    /// Buttons take part in input routing.
    pub fn interactive(&self) -> (r: bool)
        ensures
            r,
    {
        true
    }

    pub fn interests(&self) -> (r: Interest)
        ensures
            r == (Interest { mouse_inside: true }),
    {
        Interest::mouse()
    }

    /// Adopt a new frame's arguments into this node's state. The response
    /// reports the state the events of the frame before left behind —
    /// unless the builder disables the button, which suppresses any pending
    /// click and reports `Disabled` at once. Then `Clicked` decays to
    /// `Hovered` (a click is a one-frame signal) and the `disabled` flag
    /// forces or clears `Disabled`.
    pub fn update(&mut self, builder: Button) -> (r: ButtonResponse)
        ensures
            r.state == (if builder.disabled {
                ButtonState::Disabled
            } else {
                old(self).state
            }),
            final(self).state == spec_update_transition(old(self).state, builder.disabled),
            final(self).label == builder.label,
            final(self).margin == builder.margin,
            final(self).disabled == builder.disabled,
            final(self).main == builder.main,
            final(self).cross == builder.cross,
            final(self).class == builder.class,
    {
        self.label = builder.label;
        self.class = builder.class;
        self.margin = builder.margin;
        self.disabled = builder.disabled;
        self.main = builder.main;
        self.cross = builder.cross;

        let state = if self.disabled {
            ButtonState::Disabled
        } else {
            self.state
        };
        if let ButtonState::Clicked = self.state {
            self.state = ButtonState::Hovered;
        }
        if self.disabled {
            self.state = ButtonState::Disabled;
        } else if matches!(self.state, ButtonState::Disabled) {
            self.state = ButtonState::Idle;
        }
        ButtonResponse { state }
    }

    /// React to a routed pointer event. A disabled button consumes nothing:
    /// events bubble and the state stays `Disabled`.
    pub fn event(&mut self, event: ViewEvent) -> (r: Handled)
        ensures
            final(self).state == spec_event_transition(old(self).state, event),
            r == spec_event_handled(old(self).state, event),
            final(self).label == old(self).label,
            final(self).margin == old(self).margin,
            final(self).disabled == old(self).disabled,
            final(self).main == old(self).main,
            final(self).cross == old(self).cross,
            final(self).class == old(self).class,
    {
        if matches!(self.state, ButtonState::Disabled) {
            return Handled::Bubble;
        }
        self.state = match event {
            ViewEvent::MouseClicked { inside: true } => ButtonState::Clicked,
            ViewEvent::MouseHeld { inside: true } => ButtonState::Held,
            ViewEvent::MouseEntered => ButtonState::Hovered,
            ViewEvent::MouseLeave => ButtonState::Idle,
            _ => {
                return Handled::Bubble;
            },
        };
        Handled::Sink
    }

    /// The size this button asks for: one row of label text, widened by its
    /// margin, clamped into the space it was granted.
    pub fn layout(&self, space: Space) -> (r: Size)
        requires
            space.wf(),
        ensures
            r == space.spec_fit(spec_button_size(label_chars(self.label), self.margin)),
    {
        let text = label_str(&self.label);
        let n = text.unicode_len();
        let width: u32 = if n > u32::MAX as usize {
            u32::MAX
        } else {
            n as u32
        };
        space.fit(self.margin.grow(Size { width, height: 1 }))
    }
}

/// Which state the frame-boundary update leaves a button in.
pub open spec fn spec_update_transition(state: ButtonState, disabled: bool) -> ButtonState {
    if disabled {
        ButtonState::Disabled
    } else if state is Clicked {
        ButtonState::Hovered
    } else if state is Disabled {
        ButtonState::Idle
    } else {
        state
    }
}

/// Re-running the frame-boundary update with unchanged arguments moves
/// nothing: after one update, a second with the same `disabled` flag leaves
/// the state where it is. Re-running an unchanged frame only updates, and
/// updating is stable.
pub proof fn lemma_update_transition_stable(state: ButtonState, disabled: bool)
    ensures
        spec_update_transition(spec_update_transition(state, disabled), disabled)
            == spec_update_transition(state, disabled),
{
}

/// Which state a pointer event moves a button to. Disabled overrides all
/// transitions; events that the button does not react to leave it unchanged.
pub open spec fn spec_event_transition(state: ButtonState, event: ViewEvent) -> ButtonState {
    if state is Disabled {
        state
    } else {
        match event {
            ViewEvent::MouseClicked { inside: true } => ButtonState::Clicked,
            ViewEvent::MouseHeld { inside: true } => ButtonState::Held,
            ViewEvent::MouseEntered => ButtonState::Hovered,
            ViewEvent::MouseLeave => ButtonState::Idle,
            _ => state,
        }
    }
}

/// Disabled overrides all transitions: while a button is disabled no event
/// moves it, and every event bubbles on to the ancestors unconsumed.
pub proof fn lemma_disabled_overrides(event: ViewEvent)
    ensures
        spec_event_transition(ButtonState::Disabled, event) == ButtonState::Disabled,
        spec_event_handled(ButtonState::Disabled, event) == Handled::Bubble,
{
}

/// Whether a button sinks an event (stops propagation) or lets it bubble.
pub open spec fn spec_event_handled(state: ButtonState, event: ViewEvent) -> Handled {
    if state is Disabled {
        Handled::Bubble
    } else {
        match event {
            ViewEvent::MouseClicked { inside: true } => Handled::Sink,
            ViewEvent::MouseHeld { inside: true } => Handled::Sink,
            ViewEvent::MouseEntered => Handled::Sink,
            ViewEvent::MouseLeave => Handled::Sink,
            _ => Handled::Bubble,
        }
    }
}

/// The size a button's content asks for before clamping: the label on one
/// row, widened by the margin.
pub open spec fn spec_button_size(label: Seq<char>, margin: Margin) -> Size {
    let width = if label.len() > u32::MAX {
        u32::MAX as u32
    } else {
        label.len() as u32
    };
    Size {
        width: sat_add_spec(width, sat_add_spec(margin.left, margin.right)),
        height: sat_add_spec(1, sat_add_spec(margin.top, margin.bottom)),
    }
}

/// What an immediate-mode button call reports for this frame: the caller
/// branches on it synchronously, no deferred callback.
#[derive(Copy, Clone, Debug, PartialEq, Eq, Structural)]
pub struct ButtonResponse {
    pub state: ButtonState,
}

impl ButtonResponse {
    pub fn clicked(&self) -> (r: bool)
        ensures
            r == (self.state is Clicked),
    {
        matches!(self.state, ButtonState::Clicked)
    }

    pub fn hovered(&self) -> (r: bool)
        ensures
            r == (self.state is Hovered),
    {
        matches!(self.state, ButtonState::Hovered)
    }

    pub fn held(&self) -> (r: bool)
        ensures
            r == (self.state is Held),
    {
        matches!(self.state, ButtonState::Held)
    }

    pub fn disabled(&self) -> (r: bool)
        ensures
            r == (self.state is Disabled),
    {
        matches!(self.state, ButtonState::Disabled)
    }
}

} // verus!
