use too::axis::Axis;
use too::math::{Margin, Rect, Size, Space};

fn sz(w: u32, h: u32) -> Size {
    Size::new(w, h)
}

#[test]
fn axis_pack_unpack_roundtrip() {
    for axis in [Axis::Horizontal, Axis::Vertical] {
        let packed = axis.pack(5, 9);
        assert_eq!(axis.unpack(packed), (5, 9));
        let s = sz(3, 8);
        let (m, c) = (axis.main(s), axis.cross(s));
        assert_eq!(axis.pack(m, c), s);
    }
}

#[test]
fn axis_conventions() {
    let s = sz(10, 20);
    assert_eq!(Axis::Horizontal.main(s), 10);
    assert_eq!(Axis::Horizontal.cross(s), 20);
    assert_eq!(Axis::Vertical.main(s), 20);
    assert_eq!(Axis::Vertical.cross(s), 10);
    assert!(Axis::Horizontal.is_horizontal());
    assert!(!Axis::Horizontal.is_vertical());
    assert!(Axis::Vertical.is_vertical());
    assert_eq!(Axis::Horizontal.flip(), Axis::Vertical);
    assert_eq!(Axis::Vertical.flip(), Axis::Horizontal);
}

#[test]
fn space_fit_clamps_componentwise() {
    let s = Space::new(sz(2, 3), sz(10, 8));
    // Too small: raised to the minimum.
    assert_eq!(s.fit(sz(0, 0)), sz(2, 3));
    // Too large: lowered to the maximum.
    assert_eq!(s.fit(sz(100, 100)), sz(10, 8));
    // Mixed: each component clamped on its own.
    assert_eq!(s.fit(sz(1, 100)), sz(2, 8));
    // Already inside the bounds: unchanged.
    assert_eq!(s.fit(sz(5, 5)), sz(5, 5));
}

#[test]
fn space_tight_and_loosen() {
    let t = Space::tight(sz(7, 7));
    assert_eq!(t.fit(sz(1, 99)), sz(7, 7));
    let l = t.loosen();
    assert_eq!(l.min, sz(0, 0));
    assert_eq!(l.max, sz(7, 7));
}

#[test]
fn margin_grows_size() {
    let m = Margin::symmetric(1, 0);
    assert_eq!(m.grow(sz(4, 1)), sz(6, 1));
    let m2 = Margin::new(1, 2, 3, 4);
    assert_eq!(m2.grow(sz(10, 10)), sz(13, 17));
}

#[test]
fn rect_contains_and_translate() {
    let r = Rect::new(2, 3, 4, 2);
    assert!(r.contains_point(2, 3));
    assert!(r.contains_point(5, 4));
    assert!(!r.contains_point(6, 3));
    assert!(!r.contains_point(2, 5));
    assert_eq!(r.translate(10, 20), Rect::new(12, 23, 4, 2));
}

#[test]
fn rect_intersect_clips() {
    let a = Rect::new(0, 0, 10, 10);
    let b = Rect::new(6, 8, 10, 10);
    let i = a.intersect(b);
    assert_eq!(i, Rect::new(6, 8, 4, 2));
    let disjoint = a.intersect(Rect::new(20, 20, 3, 3));
    assert_eq!(disjoint.width, 0);
    assert_eq!(disjoint.height, 0);
}

#[test]
fn saturating_arithmetic_caps() {
    assert_eq!(too::math::sat_add(u32::MAX - 1, 5), u32::MAX);
    assert_eq!(too::math::sat_add(3, 4), 7);
    let big = Rect::new(u32::MAX - 1, 0, 10, 1);
    assert!(!big.contains_point(0, 0));
}
