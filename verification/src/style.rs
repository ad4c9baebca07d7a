use vstd::prelude::*;

verus! {

/// A color with an alpha channel. Color math (blending, luminance) is the
/// renderer backend's business; the pipeline only carries these values.
#[derive(Copy, Clone, Debug, PartialEq, Eq, Structural)]
pub struct Rgba {
    pub red: u8,
    pub green: u8,
    pub blue: u8,
    pub alpha: u8,
}

impl Rgba {
    pub fn new(red: u8, green: u8, blue: u8, alpha: u8) -> (r: Rgba)
        ensures
            r == (Rgba { red, green, blue, alpha }),
    {
        Rgba { red, green, blue, alpha }
    }

    pub fn opaque(red: u8, green: u8, blue: u8) -> (r: Rgba)
        ensures
            r == (Rgba { red, green, blue, alpha: 255u8 }),
    {
        Rgba { red, green, blue, alpha: 255 }
    }
}

/// The fixed set of named color roles a theme provides. Deferred styles are
/// pure functions of (palette, interaction state).
#[derive(Copy, Clone, Debug, PartialEq, Eq, Structural)]
pub struct Palette {
    pub primary: Rgba,
    pub secondary: Rgba,
    pub accent: Rgba,
    pub surface: Rgba,
    pub foreground: Rgba,
    pub background: Rgba,
    pub outline: Rgba,
    pub success: Rgba,
    pub info: Rgba,
    pub warning: Rgba,
    pub danger: Rgba,
    pub dark: bool,
}

impl Palette {
    /// Whether this palette is a dark theme.
    pub fn is_dark(&self) -> (r: bool)
        ensures
            r == self.dark,
    {
        self.dark
    }
}

/// A style value is either a direct, fully-resolved record, or a deferred
/// class resolved lazily at render time from the palette and the current
/// interaction state — so a hovered button restyles without the reconciler
/// re-running.
#[derive(Copy, Clone, Debug, PartialEq, Eq, Structural)]
pub enum StyleKind<C, S> {
    Deferred(C),
    Direct(S),
}

} // verus!
