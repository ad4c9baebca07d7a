use vstd::prelude::*;

verus! {

/// An input event as delivered to a single view by the router. `inside`
/// reports whether the pointer was inside the view's rect when the button
/// changed.
#[derive(Copy, Clone, Debug, PartialEq, Eq, Structural)]
pub enum ViewEvent {
    MouseEntered,
    MouseLeave,
    MouseHeld { inside: bool },
    MouseClicked { inside: bool },
    MouseMove { x: u32, y: u32 },
}

/// A view's verdict on an event: sink it (stop propagation) or let it
/// bubble to the parent.
#[derive(Copy, Clone, Debug, PartialEq, Eq, Structural)]
pub enum Handled {
    Sink,
    Bubble,
}

/// The event classes a node declares it wants routed to it.
#[derive(Copy, Clone, Debug, PartialEq, Eq, Structural)]
pub struct Interest {
    pub mouse_inside: bool,
}

impl Interest {
    /// No events wanted.
    pub fn empty() -> (r: Interest)
        ensures
            r == (Interest { mouse_inside: false }),
    {
        Interest { mouse_inside: false }
    }

    /// Pointer events while the pointer is inside the node's rect.
    pub fn mouse() -> (r: Interest)
        ensures
            r == (Interest { mouse_inside: true }),
    {
        Interest { mouse_inside: true }
    }
}

/// Alignment of content along one dimension of its container.
#[derive(Copy, Clone, Debug, PartialEq, Eq, Structural)]
pub enum Align {
    Min,
    Center,
    Max,
}

} // verus!
