use vstd::prelude::*;

verus! {

/// Saturating addition on `u32`: the arithmetic this toolkit uses wherever a
/// sum of cell counts could exceed the coordinate space.
pub open spec fn sat_add_spec(a: u32, b: u32) -> u32 {
    if a + b > u32::MAX {
        u32::MAX as u32
    } else {
        (a + b) as u32
    }
}

pub fn sat_add(a: u32, b: u32) -> (r: u32)
    ensures
        r == sat_add_spec(a, b),
{
    if a > u32::MAX - b {
        u32::MAX
    } else {
        a + b
    }
}

pub open spec fn min_spec(a: u32, b: u32) -> u32 {
    if a < b {
        a
    } else {
        b
    }
}

pub open spec fn max_spec(a: u32, b: u32) -> u32 {
    if a > b {
        a
    } else {
        b
    }
}

pub open spec fn clamp_spec(v: u32, lo: u32, hi: u32) -> u32 {
    if v < lo {
        lo
    } else if v > hi {
        hi
    } else {
        v
    }
}

/// A 2d extent in whole terminal cells.
#[derive(Copy, Clone, Debug, PartialEq, Eq, Structural)]
pub struct Size {
    pub width: u32,
    pub height: u32,
}

impl Size {
    pub fn new(width: u32, height: u32) -> (r: Size)
        ensures
            r == (Size { width, height }),
    {
        Size { width, height }
    }

    pub open spec fn spec_max(self, other: Size) -> Size {
        Size { width: max_spec(self.width, other.width), height: max_spec(self.height, other.height) }
    }

    /// Componentwise maximum.
    pub fn max_size(self, other: Size) -> (r: Size)
        ensures
            r == self.spec_max(other),
    {
        Size {
            width: if self.width > other.width { self.width } else { other.width },
            height: if self.height > other.height { self.height } else { other.height },
        }
    }

}

/// The size constraint handed down during layout: every node must answer with
/// a size inside `[min, max]`, componentwise.
#[derive(Copy, Clone, Debug, PartialEq, Eq, Structural)]
pub struct Space {
    pub min: Size,
    pub max: Size,
}

impl Space {
    pub fn new(min: Size, max: Size) -> (r: Space)
        ensures
            r == (Space { min, max }),
    {
        Space { min, max }
    }

    /// A space whose bounds pin the size exactly.
    pub fn tight(size: Size) -> (r: Space)
        ensures
            r == (Space { min: size, max: size }),
    {
        Space { min: size, max: size }
    }

    /// A well-formed space never demands more than it allows.
    pub open spec fn wf(self) -> bool {
        self.min.width <= self.max.width && self.min.height <= self.max.height
    }

    pub open spec fn spec_fit(self, size: Size) -> Size {
        Size {
            width: clamp_spec(size.width, self.min.width, self.max.width),
            height: clamp_spec(size.height, self.min.height, self.max.height),
        }
    }

    pub open spec fn contains(self, size: Size) -> bool {
        &&& self.min.width <= size.width <= self.max.width
        &&& self.min.height <= size.height <= self.max.height
    }

    /// Clamp a requested size into this space's bounds, componentwise. A size
    /// that already satisfies the bounds comes back unchanged; layout
    /// violations are recovered locally here, never propagated as errors.
    pub fn fit(self, size: Size) -> (r: Size)
        requires
            self.wf(),
        ensures
            r == self.spec_fit(size),
            self.contains(r),
            self.contains(size) ==> r == size,
    {
        Size {
            width: clamp_u32(size.width, self.min.width, self.max.width),
            height: clamp_u32(size.height, self.min.height, self.max.height),
        }
    }

    pub open spec fn spec_loosen(self) -> Space {
        Space { min: Size { width: 0u32, height: 0u32 }, max: self.max }
    }

    /// The same space with its minimum dropped to zero: the constraint a
    /// container hands its children while measuring them.
    pub fn loosen(self) -> (r: Space)
        ensures
            r == self.spec_loosen(),
            r.wf(),
    {
        Space { min: Size { width: 0, height: 0 }, max: self.max }
    }
}

fn clamp_u32(v: u32, lo: u32, hi: u32) -> (r: u32)
    requires
        lo <= hi,
    ensures
        r == clamp_spec(v, lo, hi),
{
    if v < lo {
        lo
    } else if v > hi {
        hi
    } else {
        v
    }
}

/// Every size `fit` answers lies inside the space's bounds, and a size
/// already inside comes back identical.
pub proof fn lemma_fit_within_bounds(s: Space, r: Size)
    requires
        s.wf(),
    ensures
        s.contains(s.spec_fit(r)),
        s.contains(r) ==> s.spec_fit(r) == r,
{
}

/// A rectangle in cell coordinates: an origin and an extent. Node rects are
/// parent-relative; absolute positions come from summing offsets top-down.
#[derive(Copy, Clone, Debug, PartialEq, Eq, Structural)]
pub struct Rect {
    pub x: u32,
    pub y: u32,
    pub width: u32,
    pub height: u32,
}

impl Rect {
    pub fn new(x: u32, y: u32, width: u32, height: u32) -> (r: Rect)
        ensures
            r == (Rect { x, y, width, height }),
    {
        Rect { x, y, width, height }
    }

    pub open spec fn spec_contains(self, px: u32, py: u32) -> bool {
        &&& self.x <= px < sat_add_spec(self.x, self.width)
        &&& self.y <= py < sat_add_spec(self.y, self.height)
    }

    /// Whether the point lies inside this rect.
    pub fn contains_point(self, px: u32, py: u32) -> (r: bool)
        ensures
            r == self.spec_contains(px, py),
    {
        self.x <= px && px < sat_add(self.x, self.width) && self.y <= py && py
            < sat_add(self.y, self.height)
    }

    pub open spec fn spec_translate(self, dx: u32, dy: u32) -> Rect {
        Rect {
            x: sat_add_spec(self.x, dx),
            y: sat_add_spec(self.y, dy),
            width: self.width,
            height: self.height,
        }
    }

    /// Shift the origin by an offset, keeping the extent.
    pub fn translate(self, dx: u32, dy: u32) -> (r: Rect)
        ensures
            r == self.spec_translate(dx, dy),
    {
        Rect { x: sat_add(self.x, dx), y: sat_add(self.y, dy), width: self.width, height: self.height }
    }

    pub open spec fn spec_intersect(self, other: Rect) -> Rect {
        let x0 = max_spec(self.x, other.x);
        let y0 = max_spec(self.y, other.y);
        let x1 = min_spec(sat_add_spec(self.x, self.width), sat_add_spec(other.x, other.width));
        let y1 = min_spec(sat_add_spec(self.y, self.height), sat_add_spec(other.y, other.height));
        Rect {
            x: x0,
            y: y0,
            width: if x1 > x0 { (x1 - x0) as u32 } else { 0u32 },
            height: if y1 > y0 { (y1 - y0) as u32 } else { 0u32 },
        }
    }

    /// The overlapping region of two rects (empty when they do not meet).
    pub fn intersect(self, other: Rect) -> (r: Rect)
        ensures
            r == self.spec_intersect(other),
    {
        let x0: u32 = if self.x > other.x { self.x } else { other.x };
        let y0: u32 = if self.y > other.y { self.y } else { other.y };
        let sx: u32 = sat_add(self.x, self.width);
        let ox: u32 = sat_add(other.x, other.width);
        let x1: u32 = if sx < ox { sx } else { ox };
        let sy: u32 = sat_add(self.y, self.height);
        let oy: u32 = sat_add(other.y, other.height);
        let y1: u32 = if sy < oy { sy } else { oy };
        Rect {
            x: x0,
            y: y0,
            width: if x1 > x0 { x1 - x0 } else { 0 },
            height: if y1 > y0 { y1 - y0 } else { 0 },
        }
    }
}

/// Extra cells demanded around a view's content.
#[derive(Copy, Clone, Debug, PartialEq, Eq, Structural)]
pub struct Margin {
    pub left: u32,
    pub right: u32,
    pub top: u32,
    pub bottom: u32,
}

impl Margin {
    pub fn new(left: u32, right: u32, top: u32, bottom: u32) -> (r: Margin)
        ensures
            r == (Margin { left, right, top, bottom }),
    {
        Margin { left, right, top, bottom }
    }

    pub open spec fn spec_symmetric(horizontal: u32, vertical: u32) -> Margin {
        Margin { left: horizontal, right: horizontal, top: vertical, bottom: vertical }
    }

    /// The same amount on both horizontal sides and both vertical sides.
    pub fn symmetric(horizontal: u32, vertical: u32) -> (r: Margin)
        ensures
            r == (Margin { left: horizontal, right: horizontal, top: vertical, bottom: vertical }),
    {
        Margin { left: horizontal, right: horizontal, top: vertical, bottom: vertical }
    }

    pub open spec fn spec_grow(self, size: Size) -> Size {
        Size {
            width: sat_add_spec(size.width, sat_add_spec(self.left, self.right)),
            height: sat_add_spec(size.height, sat_add_spec(self.top, self.bottom)),
        }
    }

    /// A content size widened by this margin on every side.
    pub fn grow(self, size: Size) -> (r: Size)
        ensures
            r == self.spec_grow(size),
    {
        Size {
            width: sat_add(size.width, sat_add(self.left, self.right)),
            height: sat_add(size.height, sat_add(self.top, self.bottom)),
        }
    }
}

} // verus!
