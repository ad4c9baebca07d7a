use vstd::prelude::*;
use vstd::string::StrSliceExecFns;

use crate::button::{Button, ButtonStyle, spec_resolve_class};
use crate::debug_highlight::{DebugHighlight, DebugHighlightStyle, Marker, spec_resolve_highlight};
use crate::label::{label_chars, label_str};
use crate::math::{Rect, sat_add, sat_add_spec};
use crate::style::{Palette, Rgba, StyleKind};
use crate::tree::{Tree, ViewValue};

verus! {

/// One character cell of the output grid.
#[derive(Copy, Clone, Debug, PartialEq, Eq, Structural)]
pub struct Cell {
    pub ch: char,
    pub fg: Rgba,
    pub bg: Rgba,
}

/// The shared output surface every draw call mutates: a row-major grid of
/// cells. The backend that flushes it to a terminal is outside this crate.
pub struct Surface {
    pub width: u32,
    pub height: u32,
    pub cells: Vec<Cell>,
}

impl Surface {
    /// Bounded dimensions keep every cell index inside `usize`.
    pub open spec fn wf(self) -> bool {
        &&& self.width <= 0xFFFF
        &&& self.height <= 0xFFFF
        &&& self.cells.len() == self.width * self.height
    }

    pub open spec fn spec_idx(self, x: int, y: int) -> int {
        y * self.width + x
    }

    pub open spec fn spec_cell(self, x: int, y: int) -> Cell {
        self.cells@[self.spec_idx(x, y)]
    }

    pub open spec fn in_bounds(self, x: int, y: int) -> bool {
        0 <= x < self.width && 0 <= y < self.height
    }

    /// A blank surface filled with one cell value.
    pub fn new(width: u32, height: u32, fill: Cell) -> (r: Surface)
        requires
            width <= 0xFFFF,
            height <= 0xFFFF,
        ensures
            r.wf(),
            r.width == width,
            r.height == height,
            forall|x: int, y: int| r.in_bounds(x, y) ==> r.spec_cell(x, y) == fill,
    {
        proof {
            assert((width as int) * (height as int) <= 0xFFFF_FFFF) by (nonlinear_arith)
                requires
                    width <= 0xFFFF,
                    height <= 0xFFFF,
            ;
        }
        let total: usize = (width as usize) * (height as usize);
        let mut cells: Vec<Cell> = Vec::new();
        let mut i: usize = 0;
        while i < total
            invariant
                i <= total,
                total == width * height,
                cells.len() == i,
                forall|j: int| 0 <= j < i ==> cells@[j] == fill,
            decreases total - i,
        {
            cells.push(fill);
            i += 1;
        }
        let r = Surface { width, height, cells };
        proof {
            assert forall|x: int, y: int| r.in_bounds(x, y) implies r.spec_cell(x, y) == fill by {
                assert(0 <= y * r.width + x < r.width * r.height) by (nonlinear_arith)
                    requires
                        0 <= x < r.width,
                        0 <= y < r.height,
                ;
            }
        }
        r
    }

    pub fn cell_at(&self, x: u32, y: u32) -> (r: Cell)
        requires
            self.wf(),
            x < self.width,
            y < self.height,
        ensures
            r == self.spec_cell(x as int, y as int),
    {
        proof {
            assert((y as int) * (self.width as int) + (x as int) <= 0xFFFF_FFFF) by (nonlinear_arith)
                requires
                    0 <= x < self.width <= 0xFFFF,
                    0 <= y < self.height <= 0xFFFF,
            ;
        }
        let idx: usize = (y as usize) * (self.width as usize) + (x as usize);
        proof {
            assert(0 <= y * self.width + x < self.width * self.height) by (nonlinear_arith)
                requires
                    0 <= x < self.width,
                    0 <= y < self.height,
            ;
        }
        self.cells[idx]
    }
}

/// Repaint the background of every cell inside `region`, leaving glyphs,
/// foregrounds and everything outside the region untouched.
pub fn fill_bg_region(surface: &mut Surface, region: Rect, bg: Rgba)
    requires
        old(surface).wf(),
    ensures
        final(surface).wf(),
        fill_post(*old(surface), *final(surface), region, bg),
{
    let y_end: u32 = if sat_add(region.y, region.height) < surface.height {
        sat_add(region.y, region.height)
    } else {
        surface.height
    };
    let x_end: u32 = if sat_add(region.x, region.width) < surface.width {
        sat_add(region.x, region.width)
    } else {
        surface.width
    };
    let mut y: u32 = region.y;
    while y < y_end
        invariant
            old(surface).wf(),
            surface.wf(),
            surface.width == old(surface).width,
            surface.height == old(surface).height,
            region.y <= y,
            y_end <= surface.height,
            y_end == (if sat_add_spec(region.y, region.height) < surface.height {
                sat_add_spec(region.y, region.height)
            } else {
                surface.height as u32
            }),
            x_end == (if sat_add_spec(region.x, region.width) < surface.width {
                sat_add_spec(region.x, region.width)
            } else {
                surface.width as u32
            }),
            forall|x2: int, y2: int|
                surface.in_bounds(x2, y2) ==> surface.spec_cell(x2, y2) == (if
                region.spec_contains(x2 as u32, y2 as u32) && y2 < y {
                    Cell { bg, ..old(surface).spec_cell(x2, y2) }
                } else {
                    old(surface).spec_cell(x2, y2)
                }),
        decreases y_end - y,
    {
        let mut x: u32 = region.x;
        while x < x_end
            invariant
                old(surface).wf(),
                surface.wf(),
                surface.width == old(surface).width,
                surface.height == old(surface).height,
                region.y <= y < y_end,
                y_end <= surface.height,
                y_end == (if sat_add_spec(region.y, region.height) < surface.height {
                    sat_add_spec(region.y, region.height)
                } else {
                    surface.height as u32
                }),
                region.x <= x,
                x_end <= surface.width,
                x_end == (if sat_add_spec(region.x, region.width) < surface.width {
                    sat_add_spec(region.x, region.width)
                } else {
                    surface.width as u32
                }),
                forall|x2: int, y2: int|
                    surface.in_bounds(x2, y2) ==> surface.spec_cell(x2, y2) == (if
                    region.spec_contains(x2 as u32, y2 as u32) && (y2 < y || (y2 == y && x2 < x)) {
                        Cell { bg, ..old(surface).spec_cell(x2, y2) }
                    } else {
                        old(surface).spec_cell(x2, y2)
                    }),
            decreases x_end - x,
        {
            let ghost spre = *surface;
                proof {
                assert((y as int) * (surface.width as int) + (x as int) <= 0xFFFF_FFFF) by (nonlinear_arith)
                    requires
                        0 <= x < surface.width <= 0xFFFF,
                        0 <= y < surface.height <= 0xFFFF,
                ;
            }
            let idx: usize = (y as usize) * (surface.width as usize) + (x as usize);
            proof {
                assert(0 <= y * surface.width + x < surface.width * surface.height)
                    by (nonlinear_arith)
                    requires
                        0 <= x < surface.width,
                        0 <= y < surface.height,
                ;
            }
            let c = surface.cells[idx];
            surface.cells[idx] = Cell { ch: c.ch, fg: c.fg, bg };
            proof {
                assert(region.spec_contains(x, y));
                let ghost w = surface.width as int;
                let ghost h = surface.height as int;
                assert forall|x2: int, y2: int| surface.in_bounds(x2, y2) implies 0 <= y2 * w + x2
                    < w * h && (!(x2 == x as int && y2 == y as int) ==> y2 * w + x2 != (
                y as int) * w + (x as int)) by {
                    assert(0 <= y2 * w + x2 < w * h && (!(x2 == x as int && y2 == y as int) ==> y2
                        * w + x2 != (y as int) * w + (x as int))) by (nonlinear_arith)
                        requires
                            0 <= x2 < w,
                            0 <= y2 < h,
                            0 <= (x as int) < w,
                            0 <= (y as int) < h,
                    ;
                }
                assert(c == spre.spec_cell(x as int, y as int));
                assert forall|x2: int, y2: int|
                    surface.in_bounds(x2, y2) implies surface.spec_cell(x2, y2) == (if
                region.spec_contains(x2 as u32, y2 as u32) && (y2 < y || (y2 == y && x2 < x + 1)) {
                    Cell { bg, ..old(surface).spec_cell(x2, y2) }
                } else {
                    old(surface).spec_cell(x2, y2)
                }) by {
                    if x2 == x as int && y2 == y as int {
                        assert(spre.spec_cell(x2, y2) == old(surface).spec_cell(x2, y2));
                        assert(surface.spec_cell(x2, y2) == (Cell { ch: c.ch, fg: c.fg, bg }));
                    } else {
                        assert(surface.spec_cell(x2, y2) == spre.spec_cell(x2, y2));
                    }
                }
            }
            x += 1;
        }
        y += 1;
    }
}

/// Write one glyph with a foreground color, but only if `(x, y)` lies
/// inside `clip` and the surface: a draw handle cannot escape its clip.
pub fn write_char_clipped(surface: &mut Surface, x: u32, y: u32, clip: Rect, ch: char, fg: Rgba)
    requires
        old(surface).wf(),
    ensures
        final(surface).wf(),
        write_char_post(*old(surface), *final(surface), x, y, clip, ch, fg),
{
    if clip.contains_point(x, y) && x < surface.width && y < surface.height {
        proof {
            assert((y as int) * (surface.width as int) + (x as int) <= 0xFFFF_FFFF) by (nonlinear_arith)
                requires
                    0 <= x < surface.width <= 0xFFFF,
                    0 <= y < surface.height <= 0xFFFF,
            ;
        }
        let idx: usize = (y as usize) * (surface.width as usize) + (x as usize);
        proof {
            assert(0 <= y * surface.width + x < surface.width * surface.height)
                by (nonlinear_arith)
                requires
                    0 <= x < surface.width,
                    0 <= y < surface.height,
            ;
        }
        let c = surface.cells[idx];
        surface.cells[idx] = Cell { ch, fg, bg: c.bg };
        proof {
            let ghost w = surface.width as int;
            let ghost h = surface.height as int;
            assert forall|x2: int, y2: int| surface.in_bounds(x2, y2) implies 0 <= y2 * w + x2 < w
                * h && (!(x2 == x as int && y2 == y as int) ==> y2 * w + x2 != (y as int) * w + (
            x as int)) by {
                assert(0 <= y2 * w + x2 < w * h && (!(x2 == x as int && y2 == y as int) ==> y2 * w
                    + x2 != (y as int) * w + (x as int))) by (nonlinear_arith)
                    requires
                        0 <= x2 < w,
                        0 <= y2 < h,
                        0 <= (x as int) < w,
                        0 <= (y as int) < h,
                ;
            }
        }
    }
}

/// The pointwise effect of one background fill: every cell inside `region`
/// keeps its glyph and foreground and takes `bg`; everything else is as it
/// was.
pub open spec fn fill_post(s0: Surface, s1: Surface, region: Rect, bg: Rgba) -> bool {
    &&& s1.width == s0.width
    &&& s1.height == s0.height
    &&& forall|x: int, y: int|
        s1.in_bounds(x, y) ==> s1.spec_cell(x, y) == (if region.spec_contains(
            x as u32,
            y as u32,
        ) {
            Cell { bg, ..s0.spec_cell(x, y) }
        } else {
            s0.spec_cell(x, y)
        })
}

/// The pointwise effect of one clipped glyph write: the one cell at
/// `(x, y)` takes the glyph and foreground when it lies inside `clip`;
/// every other cell is as it was.
pub open spec fn write_char_post(
    s0: Surface,
    s1: Surface,
    x: u32,
    y: u32,
    clip: Rect,
    ch: char,
    fg: Rgba,
) -> bool {
    &&& s1.width == s0.width
    &&& s1.height == s0.height
    &&& forall|x2: int, y2: int|
        s1.in_bounds(x2, y2) ==> s1.spec_cell(x2, y2) == (if x2 == x as int && y2 == y as int
            && clip.spec_contains(x, y) {
            Cell { ch, fg, ..s0.spec_cell(x2, y2) }
        } else {
            s0.spec_cell(x2, y2)
        })
}

/// Where the `i`-th glyph of a label row lands (saturating at the grid's
/// edge, like all coordinate arithmetic here).
pub open spec fn spec_char_x(tx: u32, i: int) -> u32 {
    if i > u32::MAX {
        u32::MAX as u32
    } else {
        sat_add_spec(tx, i as u32)
    }
}

/// The glyph (by index) that ends up at column `x` after writing the first
/// `n` glyphs of a row starting at `tx`: the last one whose (saturating)
/// position is `x`.
pub open spec fn last_char_at(tx: u32, n: int, x: u32) -> Option<int>
    decreases n,
{
    if n <= 0 {
        None
    } else if spec_char_x(tx, n - 1) == x {
        Some(n - 1)
    } else {
        last_char_at(tx, n - 1, x)
    }
}

/// The glyph index `last_char_at` finds is always in range.
pub proof fn lemma_last_char_at_range(tx: u32, n: int, x: u32)
    ensures
        match last_char_at(tx, n, x) {
            Some(j) => 0 <= j < n,
            None => true,
        },
    decreases n,
{
    if n > 0 && spec_char_x(tx, n - 1) != x {
        lemma_last_char_at_range(tx, n - 1, x);
    }
}

/// A label row written glyph by glyph, left to right, clipped: each cell on
/// row `ty` that lies inside `clip` and is the (last) position of some glyph
/// takes that glyph and `fg`, keeping its background; every other cell is as
/// it was.
pub open spec fn text_row_post(
    s0: Surface,
    s1: Surface,
    clip: Rect,
    tx: u32,
    ty: u32,
    label: Seq<char>,
    fg: Rgba,
) -> bool {
    &&& s1.width == s0.width
    &&& s1.height == s0.height
    &&& forall|x: int, y: int|
        s1.in_bounds(x, y) ==> s1.spec_cell(x, y) == (match last_char_at(
            tx,
            label.len() as int,
            x as u32,
        ) {
            Some(i) => if y == ty as int && clip.spec_contains(x as u32, y as u32) {
                Cell { ch: label[i], fg, ..s0.spec_cell(x, y) }
            } else {
                s0.spec_cell(x, y)
            },
            None => s0.spec_cell(x, y),
        })
}

/// The style a button paints with, its deferred class resolved against the
/// palette and the node's current interaction state.
pub open spec fn spec_button_paint_style(b: Button, palette: Palette) -> ButtonStyle {
    match b.class {
        StyleKind::Deferred(class) => spec_resolve_class(class, palette, b.state),
        StyleKind::Direct(style) => style,
    }
}

/// The style a debug highlight paints with.
pub open spec fn spec_highlight_paint_style(dh: DebugHighlight, palette: Palette) -> DebugHighlightStyle {
    match dh.class {
        StyleKind::Deferred(class) => spec_resolve_highlight(class, palette),
        StyleKind::Direct(style) => style,
    }
}

/// The overlay color an interaction marker paints, when it carries any
/// flag: selection over hover over focus (the later patches win).
pub open spec fn spec_marker_color(mk: Marker, style: DebugHighlightStyle) -> Rgba {
    if mk.selected {
        style.selection
    } else if mk.hovered {
        style.hover
    } else {
        style.focus
    }
}

/// One interaction marker patched over the surface: its rect, shifted to
/// the highlight's absolute origin and clipped, takes the overlay color of
/// the flags it carries; glyphs and foregrounds stay.
pub open spec fn marker_patch_post(
    s0: Surface,
    s1: Surface,
    mk: Marker,
    abs: Rect,
    myclip: Rect,
    style: DebugHighlightStyle,
) -> bool {
    let region = mk.rect.spec_translate(abs.x, abs.y).spec_intersect(myclip);
    &&& s1.width == s0.width
    &&& s1.height == s0.height
    &&& forall|x: int, y: int|
        s1.in_bounds(x, y) ==> s1.spec_cell(x, y) == (if (mk.focused || mk.hovered || mk.selected)
            && region.spec_contains(x as u32, y as u32) {
            Cell { bg: spec_marker_color(mk, style), ..s0.spec_cell(x, y) }
        } else {
            s0.spec_cell(x, y)
        })
}

/// A highlight's markers painted in order.
pub open spec fn markers_paint_post(
    s0: Surface,
    s1: Surface,
    markers: Seq<Marker>,
    abs: Rect,
    myclip: Rect,
    style: DebugHighlightStyle,
) -> bool
    decreases markers.len(),
{
    if markers.len() == 0 {
        s1 == s0
    } else {
        exists|mid: Surface|
            #![trigger mid.wf()]
            markers_paint_post(s0, mid, markers.drop_last(), abs, myclip, style)
                && marker_patch_post(mid, s1, markers.last(), abs, myclip, style)
    }
}

/// What painting one node does to the surface, exactly: nothing for a node
/// that was never placed or for a spacer; a button fills its clipped rect
/// with the resolved style's background and writes its label row at the
/// margin offset in the style's text color; a stack paints its children in
/// order (later children over earlier ones); a debug highlight paints its
/// children, then patches its recorded markers over them. Children inherit
/// the node's clipped rect, so no subtree escapes its parent.
pub open spec fn draw_node_post(
    t: Tree,
    palette: Palette,
    id: int,
    ox: u32,
    oy: u32,
    clip: Rect,
    s0: Surface,
    s1: Surface,
) -> bool
    decreases t.n() - id, t.kids(id).len() + 1,
{
    if 0 <= id < t.n() {
        match t.rect@[id] {
            Some(rc) => {
                let abs = rc.spec_translate(ox, oy);
                let myclip = clip.spec_intersect(abs);
                match t.views@[id] {
                    ViewValue::Spacer(_) => s1 == s0,
                    ViewValue::Button(b) => {
                        let style = spec_button_paint_style(b, palette);
                        exists|m: Surface|
                            #![trigger m.wf()]
                            fill_post(s0, m, myclip, style.background) && text_row_post(
                                m,
                                s1,
                                myclip,
                                sat_add_spec(abs.x, b.margin.left),
                                sat_add_spec(abs.y, b.margin.top),
                                label_chars(b.label),
                                style.text_color,
                            )
                    },
                    ViewValue::Stack(_) => draw_children_post(
                        t,
                        palette,
                        id,
                        t.kids(id).len() as int,
                        abs.x,
                        abs.y,
                        myclip,
                        s0,
                        s1,
                    ),
                    ViewValue::DebugHighlight(dh) => exists|m: Surface|
                        #![trigger m.wf()]
                        draw_children_post(
                            t,
                            palette,
                            id,
                            t.kids(id).len() as int,
                            abs.x,
                            abs.y,
                            myclip,
                            s0,
                            m,
                        ) && markers_paint_post(
                            m,
                            s1,
                            dh.markers@,
                            abs,
                            myclip,
                            spec_highlight_paint_style(dh, palette),
                        ),
                }
            },
            None => s1 == s0,
        }
    } else {
        s1 == s0
    }
}

/// The first `k` children of `id` painted in order.
pub open spec fn draw_children_post(
    t: Tree,
    palette: Palette,
    id: int,
    k: int,
    ox: u32,
    oy: u32,
    clip: Rect,
    s0: Surface,
    s1: Surface,
) -> bool
    decreases t.n() - id, k,
{
    if 0 <= id < t.n() && 0 < k <= t.kids(id).len() {
        let c = t.kids(id)[k - 1] as int;
        exists|mid: Surface|
            #![trigger mid.wf()]
            draw_children_post(t, palette, id, k - 1, ox, oy, clip, s0, mid) && (if id < c < t.n() {
                draw_node_post(t, palette, c, ox, oy, clip, mid, s1)
            } else {
                s1 == mid
            })
    } else {
        s1 == s0
    }
}

/// Cells outside `clip` kept their values: the guarantee every draw call
/// gives, so child drawing can never escape its parent's bounds.
pub open spec fn preserves_outside(s0: Surface, s1: Surface, clip: Rect) -> bool {
    &&& s1.width == s0.width
    &&& s1.height == s0.height
    &&& forall|x: int, y: int|
        s1.in_bounds(x, y) && !clip.spec_contains(x as u32, y as u32) ==> s1.spec_cell(x, y)
            == s0.spec_cell(x, y)
}

/// Paint one node and, in child order, its children (painter's algorithm:
/// later children paint over earlier ones). The node paints only inside
/// `clip` intersected with its own absolute rect; children inherit that
/// region, so nothing a subtree draws escapes its parent. Style resolution
/// happens here, against the palette and the node's current interaction
/// state, never at layout time.
pub fn draw_node(
    tree: &Tree,
    id: usize,
    ox: u32,
    oy: u32,
    clip: Rect,
    surface: &mut Surface,
    palette: &Palette,
)
    requires
        tree.wf(),
        id < tree.n(),
        tree.alive@[id as int],
        old(surface).wf(),
    ensures
        final(surface).wf(),
        preserves_outside(*old(surface), *final(surface), clip),
        draw_node_post(*tree, *palette, id as int, ox, oy, clip, *old(surface), *final(surface)),
    decreases tree.n() - id,
{
    let rc = match tree.rect[id] {
        Option::Some(rc) => rc,
        Option::None => {
            return ;
        },
    };
    let abs = rc.translate(ox, oy);
    let myclip = clip.intersect(abs);
    let ghost s0 = *surface;
    match &tree.views[id] {
        ViewValue::Spacer(_) => {
        },
        ViewValue::Button(b) => {
            let style = match b.class {
                StyleKind::Deferred(class) => class.resolve(palette, b.state),
                StyleKind::Direct(style) => style,
            };
            fill_bg_region(surface, myclip, style.background);
            let ghost sfill = *surface;
            let text = label_str(&b.label);
            let len = text.unicode_len();
            let tx = sat_add(abs.x, b.margin.left);
            let ty = sat_add(abs.y, b.margin.top);
            let mut i: usize = 0;
            proof {
                assert(text@.take(0) =~= Seq::<char>::empty());
            }
            while i < len
                invariant
                    surface.wf(),
                    i <= len,
                    len == text@.len(),
                    sfill.wf(),
                    fill_post(s0, sfill, myclip, style.background),
                    text_row_post(
                        sfill,
                        *surface,
                        myclip,
                        tx,
                        ty,
                        text@.take(i as int),
                        style.text_color,
                    ),
                    preserves_outside(s0, *surface, myclip),
                decreases len - i,
            {
                let ch = text.get_char(i);
                let cx = if i <= u32::MAX as usize {
                    sat_add(tx, i as u32)
                } else {
                    u32::MAX
                };
                let ghost smid = *surface;
                write_char_clipped(surface, cx, ty, myclip, ch, style.text_color);
                proof {
                    let li = text@.take((i + 1) as int);
                    assert(li.drop_last() =~= text@.take(i as int));
                    assert(li.last() == text@[i as int]);
                    assert(cx == spec_char_x(tx, i as int));
                    assert(write_char_post(smid, *surface, cx, ty, myclip, ch, style.text_color));
                    assert(text_row_post(sfill, *surface, myclip, tx, ty, li, style.text_color))
                        by {
                        assert(spec_char_x(tx, li.len() - 1) == cx);
                        assert(text_row_post(
                            sfill,
                            smid,
                            myclip,
                            tx,
                            ty,
                            text@.take(i as int),
                            style.text_color,
                        ));
                        assert(write_char_post(smid, *surface, cx, ty, myclip, ch, style.text_color));
                        assert forall|x2: int, y2: int|
                            surface.in_bounds(x2, y2) implies surface.spec_cell(x2, y2) == (
                        match last_char_at(tx, li.len() as int, x2 as u32) {
                            Some(j) => if y2 == ty as int && myclip.spec_contains(
                                x2 as u32,
                                y2 as u32,
                            ) {
                                Cell { ch: li[j], fg: style.text_color, ..sfill.spec_cell(x2, y2) }
                            } else {
                                sfill.spec_cell(x2, y2)
                            },
                            None => sfill.spec_cell(x2, y2),
                        }) by {
                            lemma_last_char_at_range(tx, i as int, x2 as u32);
                            lemma_last_char_at_range(tx, i + 1, x2 as u32);
                            assert(li.len() as int == i + 1);
                            assert(li[i as int] == ch);
                            assert(forall|j: int|
                                0 <= j < i ==> li[j] == text@.take(i as int)[j]);
                            if x2 == cx as int {
                                assert(last_char_at(tx, i + 1, cx) == Some(i as int));
                                if y2 == ty as int {
                                    if myclip.spec_contains(cx, ty) {
                                        assert(surface.spec_cell(x2, y2) == (Cell {
                                            ch,
                                            fg: style.text_color,
                                            ..smid.spec_cell(x2, y2)
                                        }));
                                        assert(smid.spec_cell(x2, y2).bg == sfill.spec_cell(
                                            x2,
                                            y2,
                                        ).bg);
                                    } else {
                                        assert(surface.spec_cell(x2, y2) == smid.spec_cell(
                                            x2,
                                            y2,
                                        ));
                                        assert(smid.spec_cell(x2, y2) == sfill.spec_cell(x2, y2));
                                    }
                                } else {
                                    assert(surface.spec_cell(x2, y2) == smid.spec_cell(x2, y2));
                                    assert(smid.spec_cell(x2, y2) == sfill.spec_cell(x2, y2));
                                }
                            } else {
                                assert(last_char_at(tx, i + 1, x2 as u32) == last_char_at(
                                    tx,
                                    i as int,
                                    x2 as u32,
                                ));
                                assert(surface.spec_cell(x2, y2) == smid.spec_cell(x2, y2));
                            }
                        }
                    }
                }
                i += 1;
            }
            proof {
                assert(text@.take(len as int) =~= text@);
                assert(text@ == label_chars(b.label));
                assert(text_row_post(
                    sfill,
                    *surface,
                    myclip,
                    tx,
                    ty,
                    label_chars(b.label),
                    style.text_color,
                ));
                assert(draw_node_post(*tree, *palette, id as int, ox, oy, clip, s0, *surface))
                    by {
                    assert(sfill.wf());
                    assert(tree.views@[id as int]->Button_0 == *b);
                    assert(style == spec_button_paint_style(*b, *palette));
                    assert(tx == sat_add_spec(abs.x, b.margin.left));
                    assert(ty == sat_add_spec(abs.y, b.margin.top));
                    assert(fill_post(s0, sfill, myclip, style.background));
                    assert(text_row_post(
                        sfill,
                        *surface,
                        myclip,
                        sat_add_spec(abs.x, b.margin.left),
                        sat_add_spec(abs.y, b.margin.top),
                        label_chars(b.label),
                        style.text_color,
                    ));
                }
            }
        },
        ViewValue::Stack(_) => {
            let count = tree.children[id].len();
            let mut k: usize = 0;
            while k < count
                invariant
                    tree.wf(),
                    id < tree.n(),
                    tree.alive@[id as int],
                    surface.wf(),
                    k <= count,
                    count == tree.kids(id as int).len(),
                    preserves_outside(s0, *surface, myclip),
                    myclip == clip.spec_intersect(abs),
                    draw_children_post(
                        *tree,
                        *palette,
                        id as int,
                        k as int,
                        abs.x,
                        abs.y,
                        myclip,
                        s0,
                        *surface,
                    ),
                decreases count - k,
            {
                let c = tree.children[id][k];
                proof {
                    assert(tree.child_ok(id as int, c as int));
                }
                let ghost spre = *surface;
                draw_node(tree, c, abs.x, abs.y, myclip, surface, palette);
                proof {
                    assert(draw_children_post(
                        *tree,
                        *palette,
                        id as int,
                        (k + 1) as int,
                        abs.x,
                        abs.y,
                        myclip,
                        s0,
                        *surface,
                    )) by {
                        assert(spre.wf());
                        assert(tree.kids(id as int)[(k + 1) - 1] == c);
                        assert(draw_children_post(
                            *tree,
                            *palette,
                            id as int,
                            k as int,
                            abs.x,
                            abs.y,
                            myclip,
                            s0,
                            spre,
                        ));
                        assert(draw_node_post(
                            *tree,
                            *palette,
                            c as int,
                            abs.x,
                            abs.y,
                            myclip,
                            spre,
                            *surface,
                        ));
                    }
                }
                k += 1;
            }
            proof {
                assert(draw_node_post(*tree, *palette, id as int, ox, oy, clip, s0, *surface))
                    by {
                    assert(draw_children_post(
                        *tree,
                        *palette,
                        id as int,
                        tree.kids(id as int).len() as int,
                        abs.x,
                        abs.y,
                        myclip,
                        s0,
                        *surface,
                    ));
                }
            }
        },
        ViewValue::DebugHighlight(dh) => {
            let count = tree.children[id].len();
            let mut k: usize = 0;
            while k < count
                invariant
                    tree.wf(),
                    id < tree.n(),
                    tree.alive@[id as int],
                    surface.wf(),
                    k <= count,
                    count == tree.kids(id as int).len(),
                    preserves_outside(s0, *surface, myclip),
                    myclip == clip.spec_intersect(abs),
                    draw_children_post(
                        *tree,
                        *palette,
                        id as int,
                        k as int,
                        abs.x,
                        abs.y,
                        myclip,
                        s0,
                        *surface,
                    ),
                decreases count - k,
            {
                let c = tree.children[id][k];
                proof {
                    assert(tree.child_ok(id as int, c as int));
                }
                let ghost spre = *surface;
                draw_node(tree, c, abs.x, abs.y, myclip, surface, palette);
                proof {
                    assert(draw_children_post(
                        *tree,
                        *palette,
                        id as int,
                        (k + 1) as int,
                        abs.x,
                        abs.y,
                        myclip,
                        s0,
                        *surface,
                    )) by {
                        assert(spre.wf());
                        assert(tree.kids(id as int)[(k + 1) - 1] == c);
                        assert(draw_children_post(
                            *tree,
                            *palette,
                            id as int,
                            k as int,
                            abs.x,
                            abs.y,
                            myclip,
                            s0,
                            spre,
                        ));
                        assert(draw_node_post(
                            *tree,
                            *palette,
                            c as int,
                            abs.x,
                            abs.y,
                            myclip,
                            spre,
                            *surface,
                        ));
                    }
                }
                k += 1;
            }
            let ghost schild = *surface;
            let style = match dh.class {
                StyleKind::Deferred(class) => class.resolve(palette),
                StyleKind::Direct(style) => style,
            };
            let mcount = dh.markers.len();
            let mut m: usize = 0;
            proof {
                assert(dh.markers@.take(0) =~= Seq::<Marker>::empty());
            }
            while m < mcount
                invariant
                    surface.wf(),
                    m <= mcount,
                    mcount == dh.markers.len(),
                    schild.wf(),
                    style == spec_highlight_paint_style(*dh, *palette),
                    preserves_outside(s0, *surface, myclip),
                    preserves_outside(schild, *surface, myclip),
                    markers_paint_post(
                        schild,
                        *surface,
                        dh.markers@.take(m as int),
                        abs,
                        myclip,
                        style,
                    ),
                decreases mcount - m,
            {
                let mk = dh.markers[m];
                let region = mk.rect.translate(abs.x, abs.y).intersect(myclip);
                let ghost sm0 = *surface;
                if mk.focused {
                    fill_bg_region(surface, region, style.focus);
                }
                let ghost sm1 = *surface;
                if mk.hovered {
                    fill_bg_region(surface, region, style.hover);
                }
                let ghost sm2 = *surface;
                if mk.selected {
                    fill_bg_region(surface, region, style.selection);
                }
                proof {
                    assert(region == mk.rect.spec_translate(abs.x, abs.y).spec_intersect(myclip));
                    assert(marker_patch_post(sm0, *surface, mk, abs, myclip, style)) by {
                        assert((if mk.focused {
                            fill_post(sm0, sm1, region, style.focus)
                        } else {
                            sm1 == sm0
                        }));
                        assert((if mk.hovered {
                            fill_post(sm1, sm2, region, style.hover)
                        } else {
                            sm2 == sm1
                        }));
                        assert((if mk.selected {
                            fill_post(sm2, *surface, region, style.selection)
                        } else {
                            *surface == sm2
                        }));
                    }
                    let lm = dh.markers@.take((m + 1) as int);
                    assert(lm.drop_last() =~= dh.markers@.take(m as int));
                    assert(lm.last() == dh.markers@[m as int]);
                    assert(markers_paint_post(schild, *surface, lm, abs, myclip, style)) by {
                        assert(sm0.wf());
                        assert(lm.len() > 0);
                        assert(markers_paint_post(
                            schild,
                            sm0,
                            lm.drop_last(),
                            abs,
                            myclip,
                            style,
                        ));
                        assert(marker_patch_post(sm0, *surface, lm.last(), abs, myclip, style));
                    }
                    assert forall|x: int, y: int|
                        surface.in_bounds(x, y) && !myclip.spec_contains(
                            x as u32,
                            y as u32,
                        ) implies surface.spec_cell(x, y) == sm0.spec_cell(x, y) by {
                        assert(!region.spec_contains(x as u32, y as u32));
                    }
                }
                m += 1;
            }
            proof {
                assert(dh.markers@.take(mcount as int) =~= dh.markers@);
                assert(draw_node_post(*tree, *palette, id as int, ox, oy, clip, s0, *surface))
                    by {
                    assert(schild.wf());
                    assert(tree.views@[id as int]->DebugHighlight_0 == *dh);
                    assert(draw_children_post(
                        *tree,
                        *palette,
                        id as int,
                        tree.kids(id as int).len() as int,
                        abs.x,
                        abs.y,
                        myclip,
                        s0,
                        schild,
                    ));
                    assert(markers_paint_post(schild, *surface, dh.markers@, abs, myclip, style));
                    assert(style == spec_highlight_paint_style(*dh, *palette));
                }
            }
        },
    }
    proof {
        assert forall|x: int, y: int|
            surface.in_bounds(x, y) && !clip.spec_contains(x as u32, y as u32) implies surface.spec_cell(
            x,
            y,
        ) == s0.spec_cell(x, y) by {
            assert(!myclip.spec_contains(x as u32, y as u32));
        }
    }
}

/// Run the render stage: paint the whole tree back-to-front into the
/// surface, clipped to the surface's own bounds.
pub fn draw_frame(tree: &Tree, surface: &mut Surface, palette: &Palette)
    requires
        tree.wf(),
        old(surface).wf(),
    ensures
        final(surface).wf(),
        final(surface).width == old(surface).width,
        final(surface).height == old(surface).height,
        draw_node_post(
            *tree,
            *palette,
            0,
            0,
            0,
            Rect { x: 0u32, y: 0u32, width: old(surface).width, height: old(surface).height },
            *old(surface),
            *final(surface),
        ),
{
    let clip = Rect { x: 0, y: 0, width: surface.width, height: surface.height };
    draw_node(tree, 0, 0, 0, clip, surface, palette);
}

} // verus!
