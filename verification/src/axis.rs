use vstd::prelude::*;
use crate::math::Size;

verus! {

/// A direction such as horizontal or vertical. Containers that arrange
/// children along one direction implement their stacking logic once,
/// parameterized by this tag: `main` and `cross` project a 2d quantity onto
/// the axis's components, `pack` rebuilds the 2d quantity from them.
#[derive(Copy, Clone, Debug, PartialEq, Eq, Structural)]
pub enum Axis {
    Horizontal,
    Vertical,
}

impl Default for Axis {
    /// The default direction is horizontal.
    fn default() -> (r: Self)
        ensures
            r is Horizontal,
    {
        Axis::Horizontal
    }
}

impl Axis {
    pub open spec fn spec_main(self, size: Size) -> u32 {
        match self {
            Axis::Horizontal => size.width,
            Axis::Vertical => size.height,
        }
    }

    pub open spec fn spec_cross(self, size: Size) -> u32 {
        match self {
            Axis::Horizontal => size.height,
            Axis::Vertical => size.width,
        }
    }

    pub open spec fn spec_pack(self, main: u32, cross: u32) -> Size {
        match self {
            Axis::Horizontal => Size { width: main, height: cross },
            Axis::Vertical => Size { width: cross, height: main },
        }
    }

    /// The component of `size` along this axis.
    pub fn main(&self, size: Size) -> (r: u32)
        ensures
            r == self.spec_main(size),
    {
        match self {
            Axis::Horizontal => size.width,
            Axis::Vertical => size.height,
        }
    }

    /// The component of `size` across this axis.
    pub fn cross(&self, size: Size) -> (r: u32)
        ensures
            r == self.spec_cross(size),
    {
        match self {
            Axis::Horizontal => size.height,
            Axis::Vertical => size.width,
        }
    }

    /// Rebuild a size from its main and cross components, ordered by axis.
    pub fn pack(&self, main: u32, cross: u32) -> (r: Size)
        ensures
            r == self.spec_pack(main, cross),
    {
        match self {
            Axis::Horizontal => Size { width: main, height: cross },
            Axis::Vertical => Size { width: cross, height: main },
        }
    }

    /// Split a size into its (main, cross) components for this axis.
    pub fn unpack(&self, size: Size) -> (r: (u32, u32))
        ensures
            r.0 == self.spec_main(size),
            r.1 == self.spec_cross(size),
    {
        match self {
            Axis::Horizontal => (size.width, size.height),
            Axis::Vertical => (size.height, size.width),
        }
    }

    pub fn is_vertical(&self) -> (r: bool)
        ensures
            r == (self is Vertical),
    {
        matches!(self, Axis::Vertical)
    }

    pub fn is_horizontal(&self) -> (r: bool)
        ensures
            r == (self is Horizontal),
    {
        matches!(self, Axis::Horizontal)
    }

    /// The other direction.
    pub fn flip(self) -> (r: Axis)
        ensures
            self is Horizontal ==> r is Vertical,
            self is Vertical ==> r is Horizontal,
    {
        match self {
            Axis::Horizontal => Axis::Vertical,
            Axis::Vertical => Axis::Horizontal,
        }
    }
}

/// Packing a (main, cross) pair and taking it apart again are exact
/// inverses, under each axis's own convention.
pub proof fn lemma_axis_pack_unpack(a: Axis, m: u32, c: u32)
    ensures
        a.spec_main(a.spec_pack(m, c)) == m,
        a.spec_cross(a.spec_pack(m, c)) == c,
{
}

/// Rebuilding a size from its own projections gives the size back.
pub proof fn lemma_axis_unpack_pack(a: Axis, s: Size)
    ensures
        a.spec_pack(a.spec_main(s), a.spec_cross(s)) == s,
{
}

} // verus!
