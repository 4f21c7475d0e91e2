use gpui_play::shape::{
    CanvasState, ClipboardData, Connector, OvalShape, ResizeHandle, ShapeKind,
};
use gpui_play::text_input::TextInputState;

// The canvas state is generic over its scalar; the UI uses `f32` and does the
// float geometry itself. The helpers below play that part with the same
// defaults, so the canvas logic is driven by the same points as in the UI.

type Canvas = CanvasState<f32>;

fn with_kind(cx: f32, cy: f32, kind: ShapeKind) -> OvalShape<f32> {
    let (rx, ry) = match kind {
        ShapeKind::Oval | ShapeKind::Rectangle => (100.0, 70.0),
        ShapeKind::Circle | ShapeKind::Square => (70.0, 70.0),
    };
    OvalShape::from_parts(kind, cx, cy, rx, ry, 1.0, String::new())
}

fn contains_point(s: &OvalShape<f32>, px: f32, py: f32) -> bool {
    let (cx, cy) = s.center();
    match s.kind() {
        ShapeKind::Oval | ShapeKind::Circle => {
            let dx = (px - cx) / s.rx();
            let dy = (py - cy) / s.ry();
            dx * dx + dy * dy <= 1.0
        }
        ShapeKind::Rectangle | ShapeKind::Square => {
            (px - cx).abs() <= s.rx() && (py - cy).abs() <= s.ry()
        }
    }
}

fn hit(c: &Canvas, px: f32, py: f32) -> Option<usize> {
    c.shapes().iter().enumerate().rev().find(|(_, s)| contains_point(s, px, py)).map(|(i, _)| i)
}

fn add_oval(c: &mut Canvas, cx: f32, cy: f32) {
    c.add_shape(with_kind(cx, cy, ShapeKind::Oval));
}

fn add_shape(c: &mut Canvas, cx: f32, cy: f32, kind: ShapeKind) {
    c.add_shape(with_kind(cx, cy, kind));
}

fn select_at(c: &mut Canvas, px: f32, py: f32) {
    let h = hit(c, px, py);
    c.select_hit(h);
}

fn toggle_selection_at(c: &mut Canvas, px: f32, py: f32) {
    let h = hit(c, px, py);
    c.toggle_selection(h);
}

fn select_in_rect(c: &mut Canvas, x0: f32, y0: f32, x1: f32, y1: f32) {
    // The canvases marquee-selected below hold no connectors.
    assert_eq!(c.connector_count(), 0);
    let (left, right, top, bottom) = (x0.min(x1), x0.max(x1), y0.min(y1), y0.max(y1));
    let shapes: Vec<usize> = c
        .shapes()
        .iter()
        .enumerate()
        .filter(|(_, s)| {
            let (cx, cy) = s.center();
            cx - s.rx() < right && cx + s.rx() > left && cy - s.ry() < bottom && cy + s.ry() > top
        })
        .map(|(i, _)| i)
        .collect();
    c.select_indices(shapes, Vec::new());
}

fn move_selected_by(c: &mut Canvas, dx: f32, dy: f32) {
    let centers: Vec<(f32, f32)> = c
        .selected_indices()
        .iter()
        .map(|&i| {
            let (x, y) = c.shapes()[i].center();
            (x + dx, y + dy)
        })
        .collect();
    c.move_selected_to(centers);
}

fn update_resize(c: &mut Canvas, handle: ResizeHandle, px: f32, py: f32) {
    if let Some(i) = c.resize_target() {
        let mut s = c.shapes()[i].duplicate();
        let (cx, cy) = s.center();
        let (mut rx, mut ry) = (s.rx(), s.ry());
        match handle {
            ResizeHandle::Right | ResizeHandle::Left => rx = (px - cx).abs().max(20.0),
            ResizeHandle::Top | ResizeHandle::Bottom => ry = (py - cy).abs().max(20.0),
            _ => {
                rx = (px - cx).abs().max(20.0);
                ry = (py - cy).abs().max(20.0);
            }
        }
        s.set_radii(rx, ry);
        c.replace_shape(i, s);
    }
}

fn copy_selected(c: &Canvas) -> Option<ClipboardData<f32>> {
    c.copy_selected_data()
}

fn paste_shapes(c: &mut Canvas, data: ClipboardData<f32>) {
    let shapes = data
        .shapes
        .iter()
        .map(|s| {
            let (cx, cy) = s.center();
            OvalShape::from_parts(
                s.kind(),
                cx + 20.0,
                cy + 20.0,
                s.rx(),
                s.ry(),
                s.border_width(),
                s.text().to_string(),
            )
        })
        .collect();
    c.paste_data(shapes, data.connectors);
}

// -- Shape values --

#[test]
fn test_move_shape() {
    let mut oval = with_kind(100.0, 100.0, ShapeKind::Oval);
    oval.move_to(200.0, 300.0);
    assert_eq!(oval.center(), (200.0, 300.0));
}

#[test]
fn test_move_preserves_size() {
    let mut oval = OvalShape::from_parts(ShapeKind::Oval, 0.0f32, 0.0, 80.0, 40.0, 1.0, String::new());
    oval.move_to(500.0, 500.0);
    assert_eq!(oval.rx(), 80.0);
    assert_eq!(oval.ry(), 40.0);
}

#[test]
fn test_set_text() {
    let mut oval = with_kind(0.0, 0.0, ShapeKind::Oval);
    oval.set_text("Hello");
    assert_eq!(oval.text(), "Hello");
}

// -- Canvas state --

#[test]
fn test_canvas_starts_empty() {
    let canvas = Canvas::new();
    assert_eq!(canvas.shape_count(), 0);
    assert!(canvas.selected().is_none());
}

#[test]
fn test_add_oval() {
    let mut canvas = Canvas::new();
    add_oval(&mut canvas, 100.0, 100.0);
    assert_eq!(canvas.shape_count(), 1);
}

#[test]
fn test_add_multiple_ovals() {
    let mut canvas = Canvas::new();
    add_oval(&mut canvas, 100.0, 100.0);
    add_oval(&mut canvas, 300.0, 300.0);
    assert_eq!(canvas.shape_count(), 2);
}

// -- Selection --

#[test]
fn test_select_shape_at_point() {
    let mut canvas = Canvas::new();
    add_oval(&mut canvas, 100.0, 100.0);
    select_at(&mut canvas, 100.0, 100.0);
    assert_eq!(canvas.selected(), Some(0));
}

#[test]
fn test_select_empty_space_deselects() {
    let mut canvas = Canvas::new();
    add_oval(&mut canvas, 100.0, 100.0);
    select_at(&mut canvas, 100.0, 100.0);
    select_at(&mut canvas, 500.0, 500.0);
    assert!(canvas.selected().is_none());
}

#[test]
fn test_select_correct_shape_among_multiple() {
    let mut canvas = Canvas::new();
    add_oval(&mut canvas, 100.0, 100.0);
    add_oval(&mut canvas, 400.0, 400.0);
    select_at(&mut canvas, 400.0, 400.0);
    assert_eq!(canvas.selected(), Some(1));
}

#[test]
fn test_select_topmost_when_overlapping() {
    let mut canvas = Canvas::new();
    add_oval(&mut canvas, 100.0, 100.0);
    add_oval(&mut canvas, 120.0, 100.0);
    select_at(&mut canvas, 110.0, 100.0);
    assert_eq!(canvas.selected(), Some(1));
}

// -- Undo/Redo --

#[test]
fn test_undo_add_shape() {
    let mut canvas = Canvas::new();
    add_oval(&mut canvas, 100.0, 100.0);
    assert_eq!(canvas.shape_count(), 1);
    canvas.undo();
    assert_eq!(canvas.shape_count(), 0);
}

#[test]
fn test_redo_add_shape() {
    let mut canvas = Canvas::new();
    add_oval(&mut canvas, 100.0, 100.0);
    canvas.undo();
    assert_eq!(canvas.shape_count(), 0);
    canvas.redo();
    assert_eq!(canvas.shape_count(), 1);
}

#[test]
fn test_undo_move() {
    let mut canvas = Canvas::new();
    add_oval(&mut canvas, 100.0, 100.0);
    select_at(&mut canvas, 100.0, 100.0);
    move_selected_by(&mut canvas, 100.0, 200.0);
    assert_eq!(canvas.shapes()[0].center(), (200.0, 300.0));
    canvas.undo();
    assert_eq!(canvas.shapes()[0].center(), (100.0, 100.0));
}

#[test]
fn test_undo_past_beginning_noop() {
    let mut canvas = Canvas::new();
    canvas.undo();
    assert_eq!(canvas.shape_count(), 0);
}

#[test]
fn test_new_action_clears_redo() {
    let mut canvas = Canvas::new();
    add_oval(&mut canvas, 100.0, 100.0);
    canvas.undo();
    add_oval(&mut canvas, 200.0, 200.0);
    canvas.redo();
    assert_eq!(canvas.shape_count(), 1);
    assert_eq!(canvas.shapes()[0].center(), (200.0, 200.0));
}

// -- Editing state --

#[test]
fn test_editing_initially_none() {
    let canvas = Canvas::new();
    assert!(canvas.editing().is_none());
}

#[test]
fn test_start_editing() {
    let mut canvas = Canvas::new();
    add_oval(&mut canvas, 100.0, 100.0);
    canvas.start_editing(0);
    assert_eq!(canvas.editing(), Some(0));
}

#[test]
fn test_start_editing_selects_shape() {
    let mut canvas = Canvas::new();
    add_oval(&mut canvas, 100.0, 100.0);
    canvas.start_editing(0);
    assert_eq!(canvas.selected(), Some(0));
}

#[test]
fn test_stop_editing() {
    let mut canvas = Canvas::new();
    add_oval(&mut canvas, 100.0, 100.0);
    canvas.start_editing(0);
    canvas.stop_editing();
    assert!(canvas.editing().is_none());
}

#[test]
fn test_start_editing_invalid_index_ignored() {
    let mut canvas = Canvas::new();
    canvas.start_editing(5);
    assert!(canvas.editing().is_none());
}

#[test]
fn test_deselect_stops_editing() {
    let mut canvas = Canvas::new();
    add_oval(&mut canvas, 100.0, 100.0);
    canvas.start_editing(0);
    select_at(&mut canvas, 500.0, 500.0);
    assert!(canvas.editing().is_none());
}

#[test]
fn test_re_edit_after_stop() {
    let mut canvas = Canvas::new();
    add_oval(&mut canvas, 100.0, 100.0);
    canvas.start_editing(0);
    canvas.set_shape_text(0, "hello");
    canvas.stop_editing();
    canvas.start_editing(0);
    assert_eq!(canvas.editing(), Some(0));
    assert_eq!(canvas.shapes()[0].text(), "hello");
}

#[test]
fn test_select_same_shape_preserves_editing() {
    let mut canvas = Canvas::new();
    add_oval(&mut canvas, 100.0, 100.0);
    canvas.start_editing(0);
    select_at(&mut canvas, 100.0, 100.0);
    assert_eq!(canvas.editing(), Some(0));
}

#[test]
fn test_select_different_shape_stops_editing() {
    let mut canvas = Canvas::new();
    add_oval(&mut canvas, 100.0, 100.0);
    add_oval(&mut canvas, 400.0, 400.0);
    canvas.start_editing(0);
    select_at(&mut canvas, 400.0, 400.0);
    assert!(canvas.editing().is_none());
}

// -- What each shape shows --

#[test]
fn test_render_data_no_cursor_when_not_editing() {
    let mut canvas = Canvas::new();
    add_oval(&mut canvas, 100.0, 100.0);
    select_at(&mut canvas, 100.0, 100.0);
    assert_eq!(canvas.shape_count(), 1);
    assert!(canvas.shape_display(0, None).cursor_offset.is_none());
}

#[test]
fn test_render_data_has_cursor_when_editing() {
    let mut canvas = Canvas::new();
    add_oval(&mut canvas, 100.0, 100.0);
    canvas.start_editing(0);
    let editing = TextInputState::new("");
    assert_eq!(canvas.shape_display(0, Some(&editing)).cursor_offset, Some(0));
}

#[test]
fn test_render_data_cursor_at_end_after_input() {
    let mut canvas = Canvas::new();
    add_oval(&mut canvas, 100.0, 100.0);
    canvas.start_editing(0);
    let mut editing = TextInputState::new("hello");
    editing.move_to_end();
    assert_eq!(canvas.shape_display(0, Some(&editing)).cursor_offset, Some(5));
}

#[test]
fn test_render_data_cursor_only_on_editing_shape() {
    let mut canvas = Canvas::new();
    add_oval(&mut canvas, 100.0, 100.0);
    add_oval(&mut canvas, 300.0, 300.0);
    canvas.start_editing(0);
    let editing = TextInputState::new("hi");
    assert_eq!(canvas.shape_display(0, Some(&editing)).cursor_offset, Some(0));
    assert!(canvas.shape_display(1, Some(&editing)).cursor_offset.is_none());
}

#[test]
fn test_render_data_includes_editing_text() {
    let mut canvas = Canvas::new();
    add_oval(&mut canvas, 100.0, 100.0);
    canvas.set_shape_text(0, "old");
    canvas.start_editing(0);
    let editing = TextInputState::new("new text");
    assert_eq!(canvas.shape_display(0, Some(&editing)).text, "new text");
}

#[test]
fn test_render_data_no_selected_range_when_not_editing() {
    let mut canvas = Canvas::new();
    add_oval(&mut canvas, 100.0, 100.0);
    assert!(canvas.shape_display(0, None).selected_range.is_none());
}

#[test]
fn test_render_data_has_selected_range_when_editing() {
    let mut canvas = Canvas::new();
    add_oval(&mut canvas, 100.0, 100.0);
    canvas.start_editing(0);
    let mut editing = TextInputState::new("hello world");
    editing.select_word_at(3);
    assert_eq!(canvas.shape_display(0, Some(&editing)).selected_range, Some(0..5));
}

#[test]
fn test_render_data_collapsed_selected_range() {
    let mut canvas = Canvas::new();
    add_oval(&mut canvas, 100.0, 100.0);
    canvas.start_editing(0);
    let editing = TextInputState::new("hello");
    assert_eq!(canvas.shape_display(0, Some(&editing)).selected_range, Some(0..0));
}

#[test]
fn test_render_data_no_selected_range_on_non_editing_shape() {
    let mut canvas = Canvas::new();
    add_oval(&mut canvas, 100.0, 100.0);
    add_oval(&mut canvas, 300.0, 300.0);
    canvas.start_editing(0);
    let mut editing = TextInputState::new("hello");
    editing.select_all();
    assert!(canvas.shape_display(1, Some(&editing)).selected_range.is_none());
}

#[test]
fn test_render_data_includes_handles_for_selected() {
    let mut canvas = Canvas::new();
    add_oval(&mut canvas, 100.0, 100.0);
    select_at(&mut canvas, 100.0, 100.0);
    assert!(canvas.shape_display(0, None).show_handles);
    assert_eq!(ResizeHandle::ALL.len(), 8);
}

#[test]
fn test_render_data_no_handles_when_editing() {
    let mut canvas = Canvas::new();
    add_oval(&mut canvas, 100.0, 100.0);
    canvas.start_editing(0);
    let editing = TextInputState::new("");
    assert!(!canvas.shape_display(0, Some(&editing)).show_handles);
}

#[test]
fn test_render_data_no_handles_for_unselected() {
    let mut canvas = Canvas::new();
    add_oval(&mut canvas, 100.0, 100.0);
    add_oval(&mut canvas, 300.0, 300.0);
    select_at(&mut canvas, 100.0, 100.0);
    assert!(!canvas.shape_display(1, None).show_handles);
}

#[test]
fn test_render_data_includes_shape_kind() {
    let mut canvas = Canvas::new();
    add_shape(&mut canvas, 100.0, 100.0, ShapeKind::Rectangle);
    assert_eq!(canvas.shapes()[0].kind(), ShapeKind::Rectangle);
}

// -- Resize with undo/redo --

#[test]
fn test_undo_resize() {
    let mut canvas = Canvas::new();
    add_oval(&mut canvas, 100.0, 100.0);
    select_at(&mut canvas, 100.0, 100.0);
    let orig_rx = canvas.shapes()[0].rx();
    canvas.begin_resize();
    update_resize(&mut canvas, ResizeHandle::Right, 250.0, 100.0);
    canvas.commit_resize();
    assert_eq!(canvas.shapes()[0].rx(), 150.0);
    canvas.undo();
    assert_eq!(canvas.shapes()[0].rx(), orig_rx);
}

#[test]
fn test_redo_resize() {
    let mut canvas = Canvas::new();
    add_oval(&mut canvas, 100.0, 100.0);
    select_at(&mut canvas, 100.0, 100.0);
    canvas.begin_resize();
    update_resize(&mut canvas, ResizeHandle::Right, 250.0, 100.0);
    canvas.commit_resize();
    canvas.undo();
    canvas.redo();
    assert_eq!(canvas.shapes()[0].rx(), 150.0);
}

#[test]
fn test_undo_corner_resize_restores_both_axes() {
    let mut canvas = Canvas::new();
    add_oval(&mut canvas, 100.0, 100.0);
    select_at(&mut canvas, 100.0, 100.0);
    let orig_rx = canvas.shapes()[0].rx();
    let orig_ry = canvas.shapes()[0].ry();
    canvas.begin_resize();
    update_resize(&mut canvas, ResizeHandle::BottomRight, 300.0, 250.0);
    canvas.commit_resize();
    canvas.undo();
    assert_eq!(canvas.shapes()[0].rx(), orig_rx);
    assert_eq!(canvas.shapes()[0].ry(), orig_ry);
}

// -- Multi-select --

#[test]
fn test_toggle_selection_adds_shape() {
    let mut canvas = Canvas::new();
    add_oval(&mut canvas, 100.0, 100.0);
    add_oval(&mut canvas, 400.0, 400.0);
    select_at(&mut canvas, 100.0, 100.0);
    toggle_selection_at(&mut canvas, 400.0, 400.0);
    assert_eq!(canvas.selected_indices(), &[0, 1]);
}

#[test]
fn test_toggle_selection_removes_shape() {
    let mut canvas = Canvas::new();
    add_oval(&mut canvas, 100.0, 100.0);
    add_oval(&mut canvas, 400.0, 400.0);
    select_at(&mut canvas, 100.0, 100.0);
    toggle_selection_at(&mut canvas, 400.0, 400.0);
    toggle_selection_at(&mut canvas, 100.0, 100.0);
    assert_eq!(canvas.selected_indices(), &[1]);
}

#[test]
fn test_select_at_clears_multi_selection() {
    let mut canvas = Canvas::new();
    add_oval(&mut canvas, 100.0, 100.0);
    add_oval(&mut canvas, 400.0, 400.0);
    select_at(&mut canvas, 100.0, 100.0);
    toggle_selection_at(&mut canvas, 400.0, 400.0);
    select_at(&mut canvas, 400.0, 400.0);
    assert_eq!(canvas.selected_indices(), &[1]);
}

#[test]
fn test_selected_returns_single_from_multi() {
    let mut canvas = Canvas::new();
    add_oval(&mut canvas, 100.0, 100.0);
    add_oval(&mut canvas, 400.0, 400.0);
    select_at(&mut canvas, 100.0, 100.0);
    toggle_selection_at(&mut canvas, 400.0, 400.0);
    assert_eq!(canvas.selected(), Some(0));
}

// -- Select all --

#[test]
fn test_select_all_selects_every_shape() {
    let mut canvas = Canvas::new();
    add_oval(&mut canvas, 100.0, 100.0);
    add_oval(&mut canvas, 300.0, 300.0);
    add_oval(&mut canvas, 500.0, 500.0);
    canvas.select_all();
    assert_eq!(canvas.selected_indices(), &[0, 1, 2]);
}

#[test]
fn test_select_all_empty_canvas() {
    let mut canvas = Canvas::new();
    canvas.select_all();
    assert!(canvas.selected_indices().is_empty());
}

#[test]
fn test_select_all_clears_editing() {
    let mut canvas = Canvas::new();
    add_oval(&mut canvas, 100.0, 100.0);
    add_oval(&mut canvas, 300.0, 300.0);
    canvas.start_editing(0);
    canvas.select_all();
    assert!(canvas.editing().is_none());
    assert_eq!(canvas.selected_indices(), &[0, 1]);
}

// -- Marquee (drag) selection --

#[test]
fn test_select_in_rect_selects_overlapping_shapes() {
    let mut canvas = Canvas::new();
    add_oval(&mut canvas, 100.0, 100.0);
    add_oval(&mut canvas, 300.0, 300.0);
    add_oval(&mut canvas, 600.0, 600.0);
    select_in_rect(&mut canvas, 0.0, 0.0, 450.0, 400.0);
    assert_eq!(canvas.selected_indices(), &[0, 1]);
}

#[test]
fn test_select_in_rect_empty_area() {
    let mut canvas = Canvas::new();
    add_oval(&mut canvas, 100.0, 100.0);
    select_in_rect(&mut canvas, 500.0, 500.0, 600.0, 600.0);
    assert!(canvas.selected_indices().is_empty());
}

#[test]
fn test_select_in_rect_partial_overlap_selects() {
    let mut canvas = Canvas::new();
    add_oval(&mut canvas, 100.0, 100.0);
    select_in_rect(&mut canvas, 150.0, 0.0, 300.0, 200.0);
    assert_eq!(canvas.selected_indices(), &[0]);
}

#[test]
fn test_select_in_rect_replaces_previous_selection() {
    let mut canvas = Canvas::new();
    add_oval(&mut canvas, 100.0, 100.0);
    add_oval(&mut canvas, 500.0, 500.0);
    select_at(&mut canvas, 500.0, 500.0);
    assert_eq!(canvas.selected_indices(), &[1]);
    select_in_rect(&mut canvas, 0.0, 0.0, 250.0, 200.0);
    assert_eq!(canvas.selected_indices(), &[0]);
}

// -- Copy selected shapes --

#[test]
fn test_copy_single_selected_returns_json() {
    let mut canvas = Canvas::new();
    add_oval(&mut canvas, 100.0, 100.0);
    canvas.set_shape_text(0, "test");
    select_at(&mut canvas, 100.0, 100.0);
    let data = copy_selected(&canvas).unwrap();
    assert_eq!(data.shapes.len(), 1);
    assert_eq!(data.shapes[0].text(), "test");
}

#[test]
fn test_copy_selected_returns_none_when_no_selection() {
    let canvas = Canvas::new();
    assert!(copy_selected(&canvas).is_none());
}

#[test]
fn test_copy_multiple_selected() {
    let mut canvas = Canvas::new();
    add_oval(&mut canvas, 100.0, 100.0);
    add_oval(&mut canvas, 400.0, 400.0);
    canvas.set_shape_text(0, "first");
    canvas.set_shape_text(1, "second");
    select_at(&mut canvas, 100.0, 100.0);
    toggle_selection_at(&mut canvas, 400.0, 400.0);
    let data = copy_selected(&canvas).unwrap();
    assert_eq!(data.shapes[0].text(), "first");
    assert_eq!(data.shapes[1].text(), "second");
}

// -- Paste shapes --

#[test]
fn test_paste_single_shape() {
    let mut canvas = Canvas::new();
    add_oval(&mut canvas, 100.0, 100.0);
    canvas.set_shape_text(0, "original");
    select_at(&mut canvas, 100.0, 100.0);
    let data = copy_selected(&canvas).unwrap();
    paste_shapes(&mut canvas, data);
    assert_eq!(canvas.shape_count(), 2);
    assert_eq!(canvas.shapes()[1].text(), "original");
}

#[test]
fn test_paste_offsets_position() {
    let mut canvas = Canvas::new();
    add_oval(&mut canvas, 100.0, 100.0);
    select_at(&mut canvas, 100.0, 100.0);
    let data = copy_selected(&canvas).unwrap();
    paste_shapes(&mut canvas, data);
    let (cx, cy) = canvas.shapes()[1].center();
    assert!(cx != 100.0 || cy != 100.0);
}

#[test]
fn test_paste_multiple_shapes_preserves_spacing() {
    let mut canvas = Canvas::new();
    add_oval(&mut canvas, 100.0, 100.0);
    add_oval(&mut canvas, 400.0, 200.0);
    select_at(&mut canvas, 100.0, 100.0);
    toggle_selection_at(&mut canvas, 400.0, 200.0);
    let data = copy_selected(&canvas).unwrap();
    paste_shapes(&mut canvas, data);
    assert_eq!(canvas.shape_count(), 4);
    let (cx0, cy0) = canvas.shapes()[2].center();
    let (cx1, cy1) = canvas.shapes()[3].center();
    assert_eq!(cx1 - cx0, 300.0);
    assert_eq!(cy1 - cy0, 100.0);
}

#[test]
fn test_paste_multiple_preserves_sizes() {
    let mut canvas = Canvas::new();
    add_oval(&mut canvas, 100.0, 100.0);
    add_oval(&mut canvas, 400.0, 400.0);
    select_at(&mut canvas, 100.0, 100.0);
    canvas.begin_resize();
    update_resize(&mut canvas, ResizeHandle::Right, 250.0, 100.0);
    canvas.commit_resize();
    toggle_selection_at(&mut canvas, 400.0, 400.0);
    let data = copy_selected(&canvas).unwrap();
    paste_shapes(&mut canvas, data);
    assert_eq!(canvas.shapes()[2].rx(), 150.0);
    assert_eq!(canvas.shapes()[3].rx(), 100.0);
}

#[test]
fn test_paste_multiple_preserves_text() {
    let mut canvas = Canvas::new();
    add_oval(&mut canvas, 100.0, 100.0);
    add_oval(&mut canvas, 400.0, 400.0);
    canvas.set_shape_text(0, "hello");
    canvas.set_shape_text(1, "world");
    select_at(&mut canvas, 100.0, 100.0);
    toggle_selection_at(&mut canvas, 400.0, 400.0);
    let data = copy_selected(&canvas).unwrap();
    paste_shapes(&mut canvas, data);
    assert_eq!(canvas.shapes()[2].text(), "hello");
    assert_eq!(canvas.shapes()[3].text(), "world");
}

#[test]
fn test_paste_selects_new_shapes() {
    let mut canvas = Canvas::new();
    add_oval(&mut canvas, 100.0, 100.0);
    add_oval(&mut canvas, 400.0, 400.0);
    select_at(&mut canvas, 100.0, 100.0);
    toggle_selection_at(&mut canvas, 400.0, 400.0);
    let data = copy_selected(&canvas).unwrap();
    paste_shapes(&mut canvas, data);
    assert_eq!(canvas.selected_indices(), &[2, 3]);
}

#[test]
fn test_paste_is_undoable() {
    let mut canvas = Canvas::new();
    add_oval(&mut canvas, 100.0, 100.0);
    add_oval(&mut canvas, 400.0, 400.0);
    select_at(&mut canvas, 100.0, 100.0);
    toggle_selection_at(&mut canvas, 400.0, 400.0);
    let data = copy_selected(&canvas).unwrap();
    paste_shapes(&mut canvas, data);
    assert_eq!(canvas.shape_count(), 4);
    canvas.undo();
    assert_eq!(canvas.shape_count(), 2);
}

// -- Delete selected shapes --

#[test]
fn test_delete_single_selected() {
    let mut canvas = Canvas::new();
    add_oval(&mut canvas, 100.0, 100.0);
    select_at(&mut canvas, 100.0, 100.0);
    canvas.delete_selected();
    assert_eq!(canvas.shape_count(), 0);
    assert!(canvas.selected().is_none());
}

#[test]
fn test_delete_multiple_selected() {
    let mut canvas = Canvas::new();
    add_oval(&mut canvas, 100.0, 100.0);
    add_oval(&mut canvas, 400.0, 400.0);
    add_oval(&mut canvas, 700.0, 700.0);
    select_at(&mut canvas, 100.0, 100.0);
    toggle_selection_at(&mut canvas, 400.0, 400.0);
    canvas.delete_selected();
    assert_eq!(canvas.shape_count(), 1);
    assert_eq!(canvas.shapes()[0].center(), (700.0, 700.0));
}

#[test]
fn test_delete_selected_noop_when_none_selected() {
    let mut canvas = Canvas::new();
    add_oval(&mut canvas, 100.0, 100.0);
    canvas.delete_selected();
    assert_eq!(canvas.shape_count(), 1);
}

#[test]
fn test_delete_selected_is_undoable() {
    let mut canvas = Canvas::new();
    add_oval(&mut canvas, 100.0, 100.0);
    canvas.set_shape_text(0, "hello");
    select_at(&mut canvas, 100.0, 100.0);
    canvas.delete_selected();
    assert_eq!(canvas.shape_count(), 0);
    canvas.undo();
    assert_eq!(canvas.shape_count(), 1);
    assert_eq!(canvas.shapes()[0].text(), "hello");
}

#[test]
fn test_delete_multiple_is_undoable() {
    let mut canvas = Canvas::new();
    add_oval(&mut canvas, 100.0, 100.0);
    add_oval(&mut canvas, 400.0, 400.0);
    canvas.set_shape_text(0, "first");
    canvas.set_shape_text(1, "second");
    select_at(&mut canvas, 100.0, 100.0);
    toggle_selection_at(&mut canvas, 400.0, 400.0);
    canvas.delete_selected();
    assert_eq!(canvas.shape_count(), 0);
    canvas.undo();
    assert_eq!(canvas.shape_count(), 2);
    assert_eq!(canvas.shapes()[0].text(), "first");
    assert_eq!(canvas.shapes()[1].text(), "second");
}

#[test]
fn test_delete_selected_redo() {
    let mut canvas = Canvas::new();
    add_oval(&mut canvas, 100.0, 100.0);
    select_at(&mut canvas, 100.0, 100.0);
    canvas.delete_selected();
    canvas.undo();
    assert_eq!(canvas.shape_count(), 1);
    canvas.redo();
    assert_eq!(canvas.shape_count(), 0);
}

// -- Connectors --

#[test]
fn test_connector_creation() {
    let conn = Connector::with_curvature(0, 1, 0.0f32);
    assert_eq!(conn.source(), 0);
    assert_eq!(conn.target(), 1);
}

#[test]
fn test_connector_no_label() {
    let conn = Connector::with_curvature(0, 1, 0.0f32);
    assert_eq!(conn.source(), 0);
    assert_eq!(conn.target(), 1);
    assert_eq!(conn.curvature(), 0.0);
}

#[test]
fn test_add_connector() {
    let mut canvas = Canvas::new();
    add_oval(&mut canvas, 100.0, 100.0);
    add_oval(&mut canvas, 400.0, 100.0);
    canvas.add_connector(0, 1, 0.0);
    assert_eq!(canvas.connector_count(), 1);
}

#[test]
fn test_add_connector_is_undoable() {
    let mut canvas = Canvas::new();
    add_oval(&mut canvas, 100.0, 100.0);
    add_oval(&mut canvas, 400.0, 100.0);
    canvas.add_connector(0, 1, 0.0);
    assert_eq!(canvas.connector_count(), 1);
    canvas.undo();
    assert_eq!(canvas.connector_count(), 0);
}

#[test]
fn test_remove_connector() {
    let mut canvas = Canvas::new();
    add_oval(&mut canvas, 100.0, 100.0);
    add_oval(&mut canvas, 400.0, 100.0);
    canvas.add_connector(0, 1, 0.0);
    canvas.remove_connector(0);
    assert_eq!(canvas.connector_count(), 0);
}

#[test]
fn test_multiple_connectors_between_same_shapes() {
    let mut canvas = Canvas::new();
    add_oval(&mut canvas, 100.0, 100.0);
    add_oval(&mut canvas, 400.0, 100.0);
    canvas.add_connector(0, 1, 0.0);
    canvas.add_connector(0, 1, 0.0);
    assert_eq!(canvas.connector_count(), 2);
}

#[test]
fn test_delete_shape_removes_connected_connectors() {
    let mut canvas = Canvas::new();
    add_oval(&mut canvas, 100.0, 100.0);
    add_oval(&mut canvas, 400.0, 100.0);
    add_oval(&mut canvas, 700.0, 100.0);
    canvas.add_connector(0, 1, 0.0);
    canvas.add_connector(1, 2, 0.0);
    select_at(&mut canvas, 400.0, 100.0);
    canvas.delete_selected();
    assert_eq!(canvas.connector_count(), 0);
    assert_eq!(canvas.shape_count(), 2);
}

#[test]
fn test_select_all_includes_connectors() {
    let mut canvas = Canvas::new();
    add_oval(&mut canvas, 100.0, 100.0);
    add_oval(&mut canvas, 400.0, 100.0);
    canvas.add_connector(0, 1, 0.0);
    canvas.select_all();
    assert_eq!(canvas.selected_indices(), &[0, 1]);
    assert_eq!(canvas.selected_connector_indices(), &[0]);
}

#[test]
fn test_select_at_clears_connector_selection() {
    let mut canvas = Canvas::new();
    add_oval(&mut canvas, 100.0, 100.0);
    add_oval(&mut canvas, 400.0, 100.0);
    canvas.add_connector(0, 1, 0.0);
    canvas.select_all();
    assert_eq!(canvas.selected_connector_indices(), &[0]);
    select_at(&mut canvas, 100.0, 100.0);
    assert!(canvas.selected_connector_indices().is_empty());
}

#[test]
fn test_copy_paste_includes_connectors_between_selected() {
    let mut canvas = Canvas::new();
    add_oval(&mut canvas, 100.0, 100.0);
    add_oval(&mut canvas, 400.0, 100.0);
    canvas.add_connector(0, 1, 0.0);
    canvas.select_all();
    let data = copy_selected(&canvas).unwrap();
    paste_shapes(&mut canvas, data);
    assert_eq!(canvas.shape_count(), 4);
    assert_eq!(canvas.connector_count(), 2);
}

#[test]
fn test_copy_paste_connector_references_new_shapes() {
    let mut canvas = Canvas::new();
    add_oval(&mut canvas, 100.0, 100.0);
    add_oval(&mut canvas, 400.0, 100.0);
    canvas.add_connector(0, 1, 0.0);
    canvas.select_all();
    let data = copy_selected(&canvas).unwrap();
    paste_shapes(&mut canvas, data);
    let pasted_conn = &canvas.connectors()[1];
    assert_eq!(pasted_conn.source(), 2);
    assert_eq!(pasted_conn.target(), 3);
}

#[test]
fn test_copy_only_connectors_between_selected_shapes() {
    let mut canvas = Canvas::new();
    add_oval(&mut canvas, 100.0, 100.0);
    add_oval(&mut canvas, 400.0, 100.0);
    add_oval(&mut canvas, 700.0, 100.0);
    canvas.add_connector(0, 1, 0.0);
    canvas.add_connector(1, 2, 0.0);
    select_at(&mut canvas, 100.0, 100.0);
    toggle_selection_at(&mut canvas, 400.0, 100.0);
    let data = copy_selected(&canvas).unwrap();
    paste_shapes(&mut canvas, data);
    assert_eq!(canvas.connector_count(), 3);
}

#[test]
fn test_delete_selected_connectors() {
    let mut canvas = Canvas::new();
    add_oval(&mut canvas, 100.0, 100.0);
    add_oval(&mut canvas, 400.0, 100.0);
    canvas.add_connector(0, 1, 0.0);
    canvas.select_all();
    canvas.delete_selected();
    assert_eq!(canvas.shape_count(), 0);
    assert_eq!(canvas.connector_count(), 0);
}

#[test]
fn test_undo_delete_restores_connectors() {
    let mut canvas = Canvas::new();
    add_oval(&mut canvas, 100.0, 100.0);
    add_oval(&mut canvas, 400.0, 100.0);
    canvas.add_connector(0, 1, 0.0);
    canvas.select_all();
    canvas.delete_selected();
    assert_eq!(canvas.connector_count(), 0);
    canvas.undo();
    assert_eq!(canvas.shape_count(), 2);
    assert_eq!(canvas.connector_count(), 1);
    assert_eq!(canvas.connectors()[0].source(), 0);
    assert_eq!(canvas.connectors()[0].target(), 1);
}

// -- Shape kinds on the canvas --

#[test]
fn test_canvas_add_circle() {
    let mut canvas = Canvas::new();
    add_shape(&mut canvas, 100.0, 100.0, ShapeKind::Circle);
    assert_eq!(canvas.shape_count(), 1);
    assert_eq!(canvas.shapes()[0].kind(), ShapeKind::Circle);
}

#[test]
fn test_canvas_add_square() {
    let mut canvas = Canvas::new();
    add_shape(&mut canvas, 100.0, 100.0, ShapeKind::Square);
    assert_eq!(canvas.shapes()[0].kind(), ShapeKind::Square);
}

#[test]
fn test_canvas_add_rectangle() {
    let mut canvas = Canvas::new();
    add_shape(&mut canvas, 100.0, 100.0, ShapeKind::Rectangle);
    assert_eq!(canvas.shapes()[0].kind(), ShapeKind::Rectangle);
}

#[test]
fn test_canvas_add_oval_still_works() {
    let mut canvas = Canvas::new();
    add_oval(&mut canvas, 100.0, 100.0);
    assert_eq!(canvas.shapes()[0].kind(), ShapeKind::Oval);
}

#[test]
fn test_copy_paste_preserves_shape_kind() {
    let mut canvas = Canvas::new();
    add_shape(&mut canvas, 100.0, 100.0, ShapeKind::Circle);
    select_at(&mut canvas, 100.0, 100.0);
    let data = copy_selected(&canvas).unwrap();
    paste_shapes(&mut canvas, data);
    assert_eq!(canvas.shapes()[1].kind(), ShapeKind::Circle);
}

#[test]
fn test_copy_paste_mixed_kinds() {
    let mut canvas = Canvas::new();
    add_shape(&mut canvas, 100.0, 100.0, ShapeKind::Oval);
    add_shape(&mut canvas, 400.0, 100.0, ShapeKind::Rectangle);
    select_at(&mut canvas, 100.0, 100.0);
    toggle_selection_at(&mut canvas, 400.0, 100.0);
    let data = copy_selected(&canvas).unwrap();
    paste_shapes(&mut canvas, data);
    assert_eq!(canvas.shapes()[2].kind(), ShapeKind::Oval);
    assert_eq!(canvas.shapes()[3].kind(), ShapeKind::Rectangle);
}

#[test]
fn test_undo_add_circle() {
    let mut canvas = Canvas::new();
    add_shape(&mut canvas, 100.0, 100.0, ShapeKind::Circle);
    canvas.undo();
    assert_eq!(canvas.shape_count(), 0);
}

#[test]
fn test_redo_add_circle() {
    let mut canvas = Canvas::new();
    add_shape(&mut canvas, 100.0, 100.0, ShapeKind::Circle);
    canvas.undo();
    canvas.redo();
    assert_eq!(canvas.shapes()[0].kind(), ShapeKind::Circle);
}
