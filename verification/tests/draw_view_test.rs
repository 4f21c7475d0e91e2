use gpui_play::shape::draw_view::{Copied, DrawView, EditKey, MoveStep, PointerCursor, PressHit};
use gpui_play::shape::{ClipboardData, OvalShape, ResizeHandle, ShapeKind};

fn oval(cx: f32, cy: f32, text: &str) -> OvalShape<f32> {
    OvalShape::from_parts(ShapeKind::Oval, cx, cy, 100.0, 70.0, 1.0, text.to_string())
}

fn click(shape: Option<usize>) -> PressHit {
    PressHit {
        click_count: 1,
        shift: false,
        alt: false,
        on_editing_shape: false,
        text_offset: 0,
        midpoint_handle: None,
        shape,
        resize_handle: None,
        connector: None,
    }
}

fn view_with_two_shapes() -> DrawView<f32> {
    let mut v = DrawView::new();
    v.add_shape(oval(100.0, 100.0, "first"));
    v.add_shape(oval(400.0, 100.0, "second"));
    v
}

#[test]
fn test_press_on_empty_space_starts_marquee() {
    let mut v = view_with_two_shapes();
    v.press((0.0, 0.0), click(Some(0)));
    assert_eq!(v.canvas().selected_indices(), &[0]);
    v.release(None, 0.0);
    let shown = v.press((700.0, 700.0), click(None));
    assert!(!shown);
    assert!(v.canvas().selected_indices().is_empty());
    assert_eq!(v.pointer().marquee_start, Some((700.0, 700.0)));
    assert!(matches!(v.move_step(), MoveStep::Marquee(_)));
    v.marquee_to((0.0, 0.0), vec![0, 1], vec![]);
    assert_eq!(v.canvas().selected_indices(), &[0, 1]);
    assert_eq!(v.pointer().marquee_end, Some((0.0, 0.0)));
    v.release(None, 0.0);
    assert_eq!(v.pointer().marquee_start, None);
    assert_eq!(v.pointer().marquee_end, None);
    assert!(matches!(v.move_step(), MoveStep::Hover));
}

#[test]
fn test_press_on_shape_drags_selection() {
    let mut v = view_with_two_shapes();
    v.press((100.0, 100.0), click(Some(0)));
    assert!(v.pointer().dragging);
    assert!(matches!(v.move_step(), MoveStep::Drag((x, y)) if x == 100.0 && y == 100.0));
    v.drag_to((110.0, 120.0), vec![(110.0, 120.0)]);
    assert_eq!(v.canvas().shapes()[0].center(), (110.0, 120.0));
    v.release(None, 0.0);
    assert!(!v.pointer().dragging);
    v.undo();
    assert_eq!(v.canvas().shapes()[0].center(), (100.0, 100.0));
}

#[test]
fn test_double_click_opens_text_and_press_outside_commits() {
    let mut v = view_with_two_shapes();
    let mut hit = click(Some(1));
    hit.click_count = 2;
    assert!(v.press((400.0, 100.0), hit));
    assert_eq!(v.canvas().editing(), Some(1));
    assert_eq!(v.canvas().selected_indices(), &[1]);
    let text = v.editing_state().unwrap();
    assert_eq!(text.content(), "second");
    assert_eq!(text.selected_range(), 6..6);
    v.edit_key(EditKey::Backspace);
    assert_eq!(v.editing_state().unwrap().content(), "secon");
    // A press elsewhere ends editing and keeps the edited text.
    v.press((100.0, 100.0), click(Some(0)));
    assert!(v.editing_state().is_none());
    assert_eq!(v.canvas().editing(), None);
    assert_eq!(v.canvas().shapes()[1].text(), "secon");
    assert_eq!(v.canvas().selected_indices(), &[0]);
}

#[test]
fn test_presses_on_edited_text() {
    let mut v = view_with_two_shapes();
    v.start_editing(0);
    let mut hit = click(Some(0));
    hit.on_editing_shape = true;
    hit.text_offset = 2;
    assert!(v.press((90.0, 100.0), hit));
    assert_eq!(v.editing_state().unwrap().selected_range(), 2..2);
    let mut triple = click(Some(0));
    triple.on_editing_shape = true;
    triple.click_count = 3;
    v.press((90.0, 100.0), triple);
    assert_eq!(v.editing_state().unwrap().selected_range(), 0..5);
    let mut double = click(Some(0));
    double.on_editing_shape = true;
    double.click_count = 2;
    double.text_offset = 1;
    v.press((90.0, 100.0), double);
    assert_eq!(v.editing_state().unwrap().selected_range(), 0..5);
    assert_eq!(v.canvas().editing(), Some(0));
}

#[test]
fn test_alt_press_draws_connector() {
    let mut v = view_with_two_shapes();
    let mut hit = click(Some(0));
    hit.alt = true;
    v.press((100.0, 100.0), hit);
    assert_eq!(v.pointer().connecting_from, Some(0));
    assert!(matches!(v.move_step(), MoveStep::Connect));
    v.preview_connection((300.0, 100.0));
    assert_eq!(v.pointer().connecting_preview, Some((300.0, 100.0)));
    v.release(Some(1), 0.0);
    assert_eq!(v.canvas().connector_count(), 1);
    assert_eq!(v.canvas().connectors()[0].source(), 0);
    assert_eq!(v.canvas().connectors()[0].target(), 1);
    assert_eq!(v.pointer().connecting_from, None);
    assert_eq!(v.pointer().connecting_preview, None);
}

#[test]
fn test_release_over_no_shape_adds_no_connector() {
    let mut v = view_with_two_shapes();
    let mut hit = click(Some(0));
    hit.alt = true;
    v.press((100.0, 100.0), hit);
    v.release(None, 0.0);
    assert_eq!(v.canvas().connector_count(), 0);
}

#[test]
fn test_midpoint_handle_curves_connector() {
    let mut v = view_with_two_shapes();
    let mut alt = click(Some(0));
    alt.alt = true;
    v.press((100.0, 100.0), alt);
    v.release(Some(1), 0.0);
    let mut hit = click(None);
    hit.midpoint_handle = Some(0);
    v.press((250.0, 100.0), hit);
    assert!(matches!(v.move_step(), MoveStep::Curve(0)));
    v.curve_connector(0, 30.0);
    assert_eq!(v.canvas().connectors()[0].curvature(), 30.0);
    v.release(None, 0.0);
    assert_eq!(v.pointer().dragging_connector_midpoint, None);
}

#[test]
fn test_handle_press_resizes_with_one_undo_entry() {
    let mut v = view_with_two_shapes();
    v.press((100.0, 100.0), click(Some(0)));
    v.release(None, 0.0);
    let mut hit = click(Some(0));
    hit.resize_handle = Some(ResizeHandle::Right);
    v.press((200.0, 100.0), hit);
    assert!(matches!(v.move_step(), MoveStep::Resize(ResizeHandle::Right)));
    let mut bigger = v.canvas().shapes()[0].duplicate();
    bigger.set_radii(150.0, 70.0);
    v.resize_to(bigger);
    v.release(None, 0.0);
    assert_eq!(v.canvas().shapes()[0].rx(), 150.0);
    v.undo();
    assert_eq!(v.canvas().shapes()[0].rx(), 100.0);
}

#[test]
fn test_shift_press_toggles_and_connector_press_selects_it() {
    let mut v = view_with_two_shapes();
    v.press((100.0, 100.0), click(Some(0)));
    let mut shift = click(Some(1));
    shift.shift = true;
    v.press((400.0, 100.0), shift);
    assert_eq!(v.canvas().selected_indices(), &[0, 1]);
    v.add_shape(oval(700.0, 100.0, ""));
    let mut alt = click(Some(1));
    alt.alt = true;
    v.press((400.0, 100.0), alt);
    v.release(Some(2), 0.0);
    let mut on_curve = click(None);
    on_curve.connector = Some(0);
    v.press((550.0, 100.0), on_curve);
    assert!(v.canvas().selected_indices().is_empty());
    assert_eq!(v.canvas().selected_connector_indices(), &[0]);
}

#[test]
fn test_keys_and_select_all_follow_editing() {
    let mut v = view_with_two_shapes();
    assert!(!v.edit_key(EditKey::Left));
    assert!(!v.select_all());
    assert_eq!(v.canvas().selected_indices(), &[0, 1]);
    v.start_editing(0);
    assert!(v.edit_key(EditKey::Left));
    assert_eq!(v.editing_state().unwrap().selected_range(), 4..4);
    assert!(v.edit_key(EditKey::SelectRight));
    assert_eq!(v.editing_state().unwrap().selected_range(), 4..5);
    assert!(v.select_all());
    assert_eq!(v.editing_state().unwrap().selected_range(), 0..5);
    assert!(v.edit_key(EditKey::Delete));
    assert_eq!(v.editing_state().unwrap().content(), "");
    v.undo();
    assert_eq!(v.editing_state().unwrap().content(), "first");
    v.redo();
    assert_eq!(v.editing_state().unwrap().content(), "");
    assert!(v.stop_editing());
    assert_eq!(v.canvas().shapes()[0].text(), "");
    assert!(!v.stop_editing());
}

#[test]
fn test_copy_cut_paste_text_and_shapes() {
    let mut v = view_with_two_shapes();
    assert!(matches!(v.copy(), Copied::Nothing));
    v.press((100.0, 100.0), click(Some(0)));
    v.release(None, 0.0);
    let data = match v.copy() {
        Copied::Shapes(d) => d,
        _ => panic!("shapes expected"),
    };
    assert_eq!(data.shapes[0].text(), "first");
    assert!(!v.paste(Some(data), None));
    assert_eq!(v.canvas().shape_count(), 3);
    assert_eq!(v.canvas().selected_indices(), &[2]);
    match v.cut() {
        Copied::Shapes(d) => assert_eq!(d.shapes.len(), 1),
        _ => panic!("shapes expected"),
    }
    assert_eq!(v.canvas().shape_count(), 2);
    v.start_editing(1);
    v.select_all();
    match v.cut() {
        Copied::Text(t) => assert_eq!(t, "second"),
        _ => panic!("text expected"),
    }
    assert_eq!(v.editing_state().unwrap().content(), "");
    assert!(v.paste(None, Some("pasted\ntext")));
    assert_eq!(v.editing_state().unwrap().content(), "pasted\ntext");
    let empty = ClipboardData { shapes: Vec::new(), connectors: Vec::new() };
    assert!(!v.paste(Some(empty), Some("ignored")));
    assert_eq!(v.editing_state().unwrap().content(), "pasted\ntext");
}

#[test]
fn test_input_method_calls_edit_the_text() {
    let mut v = view_with_two_shapes();
    assert!(v.text_for_range(0..1).is_none());
    assert!(v.selected_text_range().is_none());
    assert!(!v.replace_text_in_range(None, "x"));
    v.start_editing(0);
    assert_eq!(v.selected_text_range(), Some(5..5));
    assert!(v.replace_text_in_range(Some(0..1), "F"));
    assert_eq!(v.editing_state().unwrap().content(), "First");
    assert!(v.replace_text_in_range(None, "!"));
    assert_eq!(v.editing_state().unwrap().content(), "F!irst");
    assert_eq!(v.text_for_range(1..3), Some(("!i".to_string(), 1..3)));
}

#[test]
fn test_cursor_follows_editing_and_hovered_handle() {
    let mut v = view_with_two_shapes();
    assert!(matches!(v.cursor(), PointerCursor::Arrow));
    v.hover(Some(ResizeHandle::Left));
    assert!(matches!(v.cursor(), PointerCursor::ResizeLeftRight));
    v.hover(Some(ResizeHandle::Bottom));
    assert!(matches!(v.cursor(), PointerCursor::ResizeUpDown));
    v.hover(Some(ResizeHandle::TopLeft));
    assert!(matches!(v.cursor(), PointerCursor::ResizeUpLeftDownRight));
    v.hover(Some(ResizeHandle::BottomLeft));
    assert!(matches!(v.cursor(), PointerCursor::ResizeUpRightDownLeft));
    v.start_editing(0);
    assert!(matches!(v.cursor(), PointerCursor::IBeam));
}

#[test]
fn test_double_click_on_edited_text_selects_word() {
    let mut v = DrawView::new();
    v.add_shape(oval(100.0, 100.0, "hello world"));
    v.start_editing(0);
    let mut double = click(Some(0));
    double.on_editing_shape = true;
    double.click_count = 2;
    double.text_offset = 3;
    assert!(v.press((90.0, 100.0), double));
    assert_eq!(v.editing_state().unwrap().selected_range(), 0..5);
}
