use too::axis::Axis;
use too::button::{button, ButtonState, ButtonStyle, ButtonClass};
use too::debug_highlight::{collect_highlights, debug_highlight, DebugHighlightStyle};
use too::input::InputState;
use too::layout::layout_frame;
use too::math::{Rect, Size, Space};
use too::render::{draw_frame, fill_bg_region, Cell, Surface};
use too::style::{Palette, Rgba};
use too::tree::ViewValue;
use too::ui::Ui;

fn rgba(r: u8, g: u8, b: u8) -> Rgba {
    Rgba::opaque(r, g, b)
}

fn palette() -> Palette {
    Palette {
        primary: rgba(1, 0, 0),
        secondary: rgba(2, 0, 0),
        accent: rgba(3, 0, 0),
        surface: rgba(4, 0, 0),
        foreground: rgba(5, 0, 0),
        background: rgba(6, 0, 0),
        outline: rgba(7, 0, 0),
        success: rgba(8, 0, 0),
        info: rgba(9, 0, 0),
        warning: rgba(10, 0, 0),
        danger: rgba(11, 0, 0),
        dark: false,
    }
}

fn blank() -> Cell {
    Cell { ch: ' ', fg: rgba(0, 0, 0), bg: rgba(0, 0, 0) }
}

fn loose(w: u32, h: u32) -> Space {
    Space::new(Size::new(0, 0), Size::new(w, h))
}

#[test]
fn fill_region_touches_only_the_region() {
    let mut s = Surface::new(4, 3, blank());
    fill_bg_region(&mut s, Rect::new(1, 1, 2, 1), rgba(9, 9, 9));
    for y in 0..3u32 {
        for x in 0..4u32 {
            let c = s.cell_at(x, y);
            if y == 1 && (x == 1 || x == 2) {
                assert_eq!(c.bg, rgba(9, 9, 9));
            } else {
                assert_eq!(c.bg, rgba(0, 0, 0));
            }
            assert_eq!(c.ch, ' ');
        }
    }
}

#[test]
fn button_paints_background_and_label() {
    let mut ui = Ui::new(Axis::Vertical);
    ui.begin_frame();
    ui.button(button("go")).unwrap();
    ui.end_frame().unwrap();
    layout_frame(&mut ui.tree, loose(10, 4));

    let pal = palette();
    let mut s = Surface::new(10, 4, blank());
    draw_frame(&ui.tree, &mut s, &pal);

    // Resting (idle) plain style: outline-colored background.
    let expect = ButtonStyle::default(&pal, ButtonState::Idle);
    assert_eq!(s.cell_at(0, 0).bg, expect.background);
    // The label starts after the one-cell left margin.
    assert_eq!(s.cell_at(1, 0).ch, 'g');
    assert_eq!(s.cell_at(2, 0).ch, 'o');
    assert_eq!(s.cell_at(1, 0).fg, expect.text_color);
    // Beyond the button's rect the surface is untouched.
    assert_eq!(s.cell_at(5, 0).bg, rgba(0, 0, 0));
    assert_eq!(s.cell_at(0, 2).bg, rgba(0, 0, 0));
}

#[test]
fn button_style_classes_resolve_per_state() {
    let pal = palette();
    assert_eq!(
        ButtonStyle::default(&pal, ButtonState::Hovered).background,
        pal.accent
    );
    assert_eq!(
        ButtonStyle::default(&pal, ButtonState::Held).background,
        pal.secondary
    );
    assert_eq!(
        ButtonStyle::default(&pal, ButtonState::Clicked).background,
        pal.primary
    );
    let dis = ButtonStyle::default(&pal, ButtonState::Disabled);
    assert_eq!(dis.background, pal.surface);
    assert_eq!(dis.text_color, pal.outline);
    assert_eq!(
        ButtonStyle::success(&pal, ButtonState::Idle).background,
        pal.success
    );
    // Light palette: tinted classes keep the theme foreground for text.
    assert_eq!(ButtonStyle::danger(&pal, ButtonState::Idle).text_color, pal.foreground);
    let mut dark = palette();
    dark.dark = true;
    assert_eq!(ButtonStyle::danger(&dark, ButtonState::Idle).text_color, dark.background);
    assert_eq!(
        ButtonClass::Warning.resolve(&pal, ButtonState::Idle).background,
        pal.warning
    );
}

#[test]
fn debug_highlight_records_descendants() {
    let mut ui = Ui::new(Axis::Vertical);
    ui.begin_frame();
    ui.begin_debug_highlight(debug_highlight()).unwrap();
    ui.spacer(Size::new(3, 2)).unwrap();
    ui.end().unwrap();
    ui.end_frame().unwrap();
    layout_frame(&mut ui.tree, loose(10, 10));

    let spacer_id = {
        let dh_id = ui.tree.children[0][0];
        ui.tree.children[dh_id][0]
    };
    let mut input = InputState::new();
    input.set_focus(Some(spacer_id));
    collect_highlights(&mut ui.tree, &input);

    let dh_id = ui.tree.children[0][0];
    match &ui.tree.views[dh_id] {
        ViewValue::DebugHighlight(dh) => {
            assert_eq!(dh.markers.len(), 1);
            let m = dh.markers[0];
            assert_eq!(m.rect, Rect::new(0, 0, 3, 2));
            assert!(m.focused);
            assert!(!m.hovered);
            assert!(!m.selected);
        }
        _ => panic!("expected a debug highlight node"),
    }

    // The focus overlay color lands on the marked cells.
    let pal = palette();
    let mut s = Surface::new(10, 10, blank());
    draw_frame(&ui.tree, &mut s, &pal);
    let style = DebugHighlightStyle::default(&pal);
    assert_eq!(s.cell_at(0, 0).bg, style.focus);
    assert_eq!(s.cell_at(2, 1).bg, style.focus);
    assert_eq!(s.cell_at(3, 0).bg, rgba(0, 0, 0));
}

#[test]
fn debug_highlight_builder_styles() {
    let custom = DebugHighlightStyle {
        focus: rgba(1, 1, 1),
        hover: rgba(2, 2, 2),
        selection: rgba(3, 3, 3),
    };
    let dh = debug_highlight().style(custom);
    match dh.class {
        too::style::StyleKind::Direct(s) => assert_eq!(s, custom),
        _ => panic!("expected a direct style"),
    }
}

#[test]
fn drawing_is_clipped_to_the_surface() {
    let mut ui = Ui::new(Axis::Vertical);
    ui.begin_frame();
    ui.button(button("a long label here")).unwrap();
    ui.end_frame().unwrap();
    // Lay out against a wide space, then draw into a narrow surface.
    layout_frame(&mut ui.tree, loose(40, 4));
    let pal = palette();
    let mut s = Surface::new(3, 2, blank());
    draw_frame(&ui.tree, &mut s, &pal);
    // Cells exist only inside the 3x2 surface; the row below the button
    // stays blank because the button is one cell tall.
    assert_eq!(s.cell_at(0, 1).bg, rgba(0, 0, 0));
}

#[test]
fn highlight_without_rect_keeps_previous_markers() {
    let mut ui = Ui::new(Axis::Vertical);
    ui.begin_frame();
    ui.begin_debug_highlight(debug_highlight()).unwrap();
    ui.spacer(Size::new(2, 2)).unwrap();
    ui.end().unwrap();
    ui.end_frame().unwrap();
    layout_frame(&mut ui.tree, loose(10, 10));
    let dh_id = ui.tree.children[0][0];
    let input = InputState::new();
    collect_highlights(&mut ui.tree, &input);
    let markers_before = match &ui.tree.views[dh_id] {
        ViewValue::DebugHighlight(dh) => dh.markers.clone(),
        _ => panic!("expected a debug highlight node"),
    };
    assert_eq!(markers_before.len(), 1);

    // A stale highlight whose own rect reads as absent keeps its markers:
    // the pass skips it instead of erasing them.
    ui.tree.rect[dh_id] = None;
    collect_highlights(&mut ui.tree, &input);
    match &ui.tree.views[dh_id] {
        ViewValue::DebugHighlight(dh) => assert_eq!(dh.markers, markers_before),
        _ => panic!("expected a debug highlight node"),
    }
}

#[test]
fn markers_are_collected_level_by_level() {
    // Two sibling stacks under one highlight, each holding a spacer: the
    // queue walk records both stacks before either spacer (breadth-first),
    // not a stack with its spacer before the next stack.
    let mut ui = Ui::new(Axis::Vertical);
    ui.begin_frame();
    ui.begin_debug_highlight(debug_highlight()).unwrap();
    ui.begin_stack(Axis::Horizontal).unwrap();
    ui.spacer(Size::new(1, 1)).unwrap();
    ui.end().unwrap();
    ui.begin_stack(Axis::Horizontal).unwrap();
    ui.spacer(Size::new(2, 2)).unwrap();
    ui.end().unwrap();
    ui.end().unwrap();
    ui.end_frame().unwrap();
    layout_frame(&mut ui.tree, loose(10, 10));
    let input = InputState::new();
    collect_highlights(&mut ui.tree, &input);
    let dh_id = ui.tree.children[0][0];
    match &ui.tree.views[dh_id] {
        ViewValue::DebugHighlight(dh) => {
            let widths: Vec<u32> = dh.markers.iter().map(|m| m.rect.width).collect();
            assert_eq!(widths, vec![1, 2, 1, 2]);
        }
        _ => panic!("expected a debug highlight node"),
    }
}
