use gpui_play::graphemes::{
    boundary_after_offset, boundary_before_offset, next_grapheme_boundary,
    previous_grapheme_boundary,
};
use gpui_play::shape::{CanvasState, OvalShape, ShapeKind};
use gpui_play::state_management::{CounterEvent, CounterState};
use gpui_play::text_input::{
    marked_text_runs, newlines_to_spaces, LinePosition, TextInputCore, TextInputState,
};

// -- Undo and redo of the text state --

#[test]
fn test_undo_then_redo_restores_insert() {
    let mut s = TextInputState::new("ab");
    s.move_to_end();
    s.insert("cd");
    assert_eq!(s.content(), "abcd");
    s.undo();
    assert_eq!(s.content(), "ab");
    assert_eq!(s.selected_range(), 2..2);
    s.redo();
    assert_eq!(s.content(), "abcd");
    assert_eq!(s.cursor_offset(), 4);
    s.undo();
    assert_eq!(s.content(), "ab");
}

#[test]
fn test_redo_then_undo_returns_to_undone_state() {
    let mut s = TextInputState::new("");
    s.insert("x");
    s.insert("y");
    s.undo();
    assert_eq!(s.content(), "x");
    s.redo();
    s.undo();
    assert_eq!(s.content(), "x");
    assert_eq!(s.cursor_offset(), 1);
}

#[test]
fn test_new_change_drops_redo_history() {
    let mut s = TextInputState::new("");
    s.insert("a");
    s.undo();
    s.insert("b");
    s.redo();
    assert_eq!(s.content(), "b");
}

#[test]
fn test_undo_and_redo_with_empty_history_do_nothing() {
    let mut s = TextInputState::new("abc");
    s.move_to(1);
    s.undo();
    s.redo();
    assert_eq!(s.content(), "abc");
    assert_eq!(s.selected_range(), 1..1);
}

#[test]
fn test_set_content_is_not_undoable() {
    let mut s = TextInputState::new("abc");
    s.set_content("xyz".to_string());
    assert_eq!(s.content(), "xyz");
    assert_eq!(s.selected_range(), 0..0);
    s.undo();
    assert_eq!(s.content(), "xyz");
}

// -- Selection --

#[test]
fn test_select_to_keeps_anchor_when_crossing_it() {
    let mut s = TextInputState::new("hello");
    s.move_to(2);
    s.select_to(4);
    assert_eq!(s.selected_range(), 2..4);
    s.select_to(0);
    assert_eq!(s.selected_range(), 0..2);
    assert_eq!(s.cursor_offset(), 0);
    s.select_to(5);
    assert_eq!(s.selected_range(), 2..5);
    assert_eq!(s.cursor_offset(), 5);
}

#[test]
fn test_move_and_select_clamp_to_content() {
    let mut s = TextInputState::new("abc");
    s.move_to(99);
    assert_eq!(s.selected_range(), 3..3);
    s.move_to(0);
    s.select_to(99);
    assert_eq!(s.selected_range(), 0..3);
}

#[test]
fn test_replace_range_records_undo() {
    let mut s = TextInputState::new("hello world");
    s.replace_range(0..5, "goodbye");
    assert_eq!(s.content(), "goodbye world");
    assert_eq!(s.selected_range(), 7..7);
    s.undo();
    assert_eq!(s.content(), "hello world");
}

// -- Grapheme clusters --

#[test]
fn test_move_right_over_combining_mark() {
    let mut s = TextInputState::new("e\u{301}x");
    s.move_right();
    assert_eq!(s.cursor_offset(), 3);
    s.move_right();
    assert_eq!(s.cursor_offset(), 4);
    s.move_left();
    assert_eq!(s.cursor_offset(), 3);
}

#[test]
fn test_backspace_removes_whole_cluster() {
    let mut s = TextInputState::new("ae\u{301}");
    s.move_to_end();
    s.backspace();
    assert_eq!(s.content(), "a");
}

#[test]
fn test_delete_removes_whole_emoji() {
    let mut s = TextInputState::new("\u{1F600}b");
    s.delete();
    assert_eq!(s.content(), "b");
}

#[test]
fn test_grapheme_boundaries_of_text() {
    let text = "ae\u{301}b";
    assert_eq!(previous_grapheme_boundary(text, 4), 1);
    assert_eq!(previous_grapheme_boundary(text, 0), 0);
    assert_eq!(next_grapheme_boundary(text, 1, text.len()), 4);
    assert_eq!(next_grapheme_boundary(text, 4, text.len()), 5);
    assert_eq!(next_grapheme_boundary(text, 5, text.len()), 5);
}

#[test]
fn test_boundary_search_over_offsets() {
    let starts = vec![0, 1, 4];
    assert_eq!(boundary_before_offset(&starts, 4), 1);
    assert_eq!(boundary_before_offset(&starts, 3), 1);
    assert_eq!(boundary_before_offset(&starts, 0), 0);
    assert_eq!(boundary_after_offset(&starts, 0, 5), 1);
    assert_eq!(boundary_after_offset(&starts, 1, 5), 4);
    assert_eq!(boundary_after_offset(&starts, 4, 5), 5);
}

// -- UTF-16 offsets --

#[test]
fn test_utf16_round_trip_at_boundaries() {
    let s = TextInputState::new("a\u{e9}\u{1F600}z");
    for b in [0usize, 1, 3, 7, 8] {
        assert_eq!(s.offset_from_utf16(s.offset_to_utf16(b)), b);
    }
    assert_eq!(s.offset_to_utf16(7), 4);
    assert_eq!(s.range_to_utf16(&(1..7)), 1..4);
    assert_eq!(s.range_from_utf16(&(1..4)), 1..7);
}

#[test]
fn test_utf16_offset_inside_surrogate_pair_lands_on_boundary() {
    let s = TextInputState::new("a\u{1F600}b");
    assert_eq!(s.offset_from_utf16(2), 5);
    assert_eq!(s.offset_from_utf16(99), 6);
    assert_eq!(s.offset_to_utf16(2), 3);
}

// -- The editing core of the text input view --

#[test]
fn test_paste_turns_newlines_into_spaces() {
    let mut core = TextInputCore::new("");
    core.paste("one\ntwo\n");
    assert_eq!(core.state.content(), "one two ");
    assert_eq!(newlines_to_spaces("a\r\nb"), "a\r b");
}

#[test]
fn test_copy_and_cut_selection() {
    let mut core = TextInputCore::new("hello world");
    assert_eq!(core.copy(), None);
    core.state.move_to(6);
    core.state.select_to(11);
    assert_eq!(core.copy(), Some("world".to_string()));
    assert_eq!(core.cut(), Some("world".to_string()));
    assert_eq!(core.state.content(), "hello ");
    assert_eq!(core.cut(), None);
    core.undo();
    assert_eq!(core.state.content(), "hello world");
}

#[test]
fn test_mouse_drag_selects() {
    let mut core = TextInputCore::new("abcdef");
    core.mouse_down(1, false);
    core.mouse_move(4);
    core.mouse_up();
    core.mouse_move(6);
    assert_eq!(core.state.selected_range(), 1..4);
    core.mouse_down(5, true);
    assert_eq!(core.state.selected_range(), 1..5);
}

#[test]
fn test_input_method_marks_then_commits() {
    let mut core = TextInputCore::new("ab");
    core.state.move_to(1);
    core.replace_and_mark_text_in_range(None, "\u{e9}", None);
    assert_eq!(core.state.content(), "a\u{e9}b");
    assert_eq!(core.marked_range, Some(1..3));
    assert_eq!(core.marked_text_range(), Some(1..2));
    assert_eq!(core.state.selected_range(), 3..3);
    core.replace_text_in_range(None, "e");
    assert_eq!(core.state.content(), "aeb");
    assert_eq!(core.marked_range, None);
    assert_eq!(core.state.selected_range(), 2..2);
    core.undo();
    assert_eq!(core.state.content(), "a\u{e9}b");
}

#[test]
fn test_input_method_selection_and_empty_text() {
    let mut core = TextInputCore::new("xy");
    core.replace_and_mark_text_in_range(Some(1..2), "abc", Some(1..2));
    assert_eq!(core.state.content(), "xabc");
    assert_eq!(core.marked_range, Some(1..4));
    assert_eq!(core.state.selected_range(), 2..3);
    assert_eq!(core.selected_text_range(), (2..3, false));
    core.replace_and_mark_text_in_range(None, "", None);
    assert_eq!(core.state.content(), "x");
    assert_eq!(core.marked_range, None);
    core.unmark_text();
    assert_eq!(core.marked_text_range(), None);
}

#[test]
fn test_text_for_utf16_range() {
    let core = TextInputCore::new("a\u{1F600}b");
    let (text, actual) = core.text_for_range(1..3);
    assert_eq!(text, "\u{1F600}");
    assert_eq!(actual, 1..3);
}

// -- Counter --

#[test]
fn test_counter_reports_threshold_once() {
    let mut c = CounterState::new(2);
    assert_eq!(c.increment(), None);
    assert_eq!(c.increment(), Some(CounterEvent::ThresholdReached(2)));
    assert_eq!(c.increment(), None);
    assert_eq!(c.count(), 3);
    c.decrement();
    c.decrement();
    assert_eq!(c.increment(), Some(CounterEvent::ThresholdReached(2)));
    c.set_count(-5);
    assert_eq!(c.count(), -5);
    assert_eq!(c.threshold(), 2);
}

// -- Canvas undo applicability --

fn oval(cx: f32, cy: f32) -> OvalShape<f32> {
    OvalShape::from_parts(ShapeKind::Oval, cx, cy, 100.0, 70.0, 1.0, String::new())
}

#[test]
fn test_redo_of_added_connector_adds_it_back() {
    let mut canvas = CanvasState::<f32>::new();
    canvas.add_shape(oval(0.0, 0.0));
    canvas.add_shape(oval(300.0, 0.0));
    canvas.add_connector(0, 1, 2.5);
    assert!(canvas.can_undo());
    canvas.undo();
    assert_eq!(canvas.connector_count(), 0);
    assert!(canvas.can_redo());
    canvas.redo();
    assert_eq!(canvas.connector_count(), 1);
    assert_eq!(canvas.connectors()[0].source(), 0);
    assert_eq!(canvas.connectors()[0].target(), 1);
    assert_eq!(canvas.connectors()[0].curvature(), 2.5);
    assert!(canvas.can_undo());
    canvas.undo();
    assert_eq!(canvas.connector_count(), 0);
}

#[test]
fn test_undo_delete_restores_middle_shape_and_renumbers_connectors() {
    let mut canvas = CanvasState::<f32>::new();
    canvas.add_shape(oval(0.0, 0.0));
    canvas.add_shape(oval(300.0, 0.0));
    canvas.add_shape(oval(600.0, 0.0));
    canvas.add_connector(0, 2, 1.5);
    canvas.select_hit(Some(1));
    canvas.delete_selected();
    assert_eq!(canvas.shape_count(), 2);
    assert_eq!(canvas.connectors()[0].target(), 1);
    assert!(canvas.can_undo());
    canvas.undo();
    assert_eq!(canvas.shape_count(), 3);
    assert_eq!(canvas.shapes()[1].center(), (300.0, 0.0));
    assert_eq!(canvas.connectors()[0].source(), 0);
    assert_eq!(canvas.connectors()[0].target(), 2);
    assert_eq!(canvas.connectors()[0].curvature(), 1.5);
    canvas.redo();
    assert_eq!(canvas.shape_count(), 2);
    assert_eq!(canvas.connectors()[0].target(), 1);
}

#[test]
fn test_redo_delete_after_undo_removes_same_shapes() {
    let mut canvas = CanvasState::<f32>::new();
    canvas.add_shape(oval(0.0, 0.0));
    canvas.add_shape(oval(300.0, 0.0));
    canvas.add_shape(oval(600.0, 0.0));
    canvas.add_connector(0, 2, 0.0);
    canvas.select_all();
    canvas.set_selected_connectors(Vec::new());
    canvas.toggle_selection(Some(1));
    assert_eq!(canvas.selected_indices(), &[0, 2]);
    canvas.delete_selected();
    assert_eq!(canvas.shape_count(), 1);
    assert_eq!(canvas.connector_count(), 0);
    canvas.undo();
    assert_eq!(canvas.shape_count(), 3);
    assert_eq!(canvas.connector_count(), 1);
    canvas.redo();
    assert_eq!(canvas.shape_count(), 1);
    assert_eq!(canvas.shapes()[0].center(), (300.0, 0.0));
    assert_eq!(canvas.connector_count(), 0);
}

#[test]
fn test_redo_delete_with_two_removed_connectors_removes_both() {
    let mut canvas = CanvasState::<f32>::new();
    canvas.add_shape(oval(0.0, 0.0));
    canvas.add_shape(oval(300.0, 0.0));
    canvas.add_shape(oval(600.0, 0.0));
    canvas.add_connector(0, 1, 0.0);
    canvas.add_connector(1, 2, 0.0);
    canvas.select_hit(Some(1));
    canvas.delete_selected();
    assert_eq!(canvas.connector_count(), 0);
    canvas.undo();
    assert_eq!(canvas.connector_count(), 2);
    canvas.redo();
    assert_eq!(canvas.shape_count(), 2);
    assert_eq!(canvas.connector_count(), 0);
}

#[test]
fn test_redo_delete_keeps_the_connector_the_delete_kept() {
    let mut canvas = CanvasState::<f32>::new();
    canvas.add_shape(oval(100.0, 100.0));
    canvas.add_shape(oval(400.0, 100.0));
    canvas.add_shape(oval(700.0, 100.0));
    canvas.add_connector(0, 1, 0.0);
    canvas.add_connector(1, 2, 0.0);
    canvas.add_connector(0, 2, 0.0);
    canvas.select_hit(Some(1));
    canvas.delete_selected();
    assert_eq!(canvas.shape_count(), 2);
    assert_eq!(canvas.connector_count(), 1);
    assert_eq!((canvas.connectors()[0].source(), canvas.connectors()[0].target()), (0, 1));
    canvas.undo();
    assert_eq!(canvas.shape_count(), 3);
    assert_eq!(canvas.connector_count(), 3);
    canvas.redo();
    assert_eq!(canvas.shape_count(), 2);
    assert_eq!(canvas.connector_count(), 1);
    assert_eq!((canvas.connectors()[0].source(), canvas.connectors()[0].target()), (0, 1));
}

#[test]
fn test_undo_then_redo_of_each_action() {
    let mut canvas = CanvasState::<f32>::new();
    canvas.add_shape(oval(0.0, 0.0));
    canvas.add_shape(oval(300.0, 0.0));
    canvas.add_connector(0, 1, 1.0);
    canvas.remove_connector(0);
    canvas.undo();
    assert_eq!(canvas.connector_count(), 1);
    canvas.redo();
    assert_eq!(canvas.connector_count(), 0);
    canvas.undo();
    canvas.select_hit(Some(1));
    canvas.move_selected_to(vec![(350.0, 50.0)]);
    canvas.undo();
    assert_eq!(canvas.shapes()[1].center(), (300.0, 0.0));
    canvas.redo();
    assert_eq!(canvas.shapes()[1].center(), (350.0, 50.0));
    canvas.begin_resize();
    let mut bigger = canvas.shapes()[1].duplicate();
    bigger.set_radii(120.0, 90.0);
    canvas.replace_shape(1, bigger);
    canvas.commit_resize();
    canvas.undo();
    assert_eq!(canvas.shapes()[1].rx(), 100.0);
    canvas.redo();
    assert_eq!(canvas.shapes()[1].rx(), 120.0);
    let data = canvas.copy_selected_data().unwrap();
    canvas.paste_data(data.shapes, data.connectors);
    assert_eq!(canvas.shape_count(), 3);
    canvas.undo();
    assert_eq!(canvas.shape_count(), 2);
    canvas.redo();
    assert_eq!(canvas.shape_count(), 3);
    assert_eq!(canvas.selected_indices(), &[2]);
}

#[test]
fn test_copy_then_paste_duplicates_selection_and_inner_connectors() {
    let mut canvas = CanvasState::<f32>::new();
    canvas.add_shape(oval(0.0, 0.0));
    canvas.add_shape(oval(300.0, 0.0));
    canvas.add_shape(oval(600.0, 0.0));
    canvas.add_connector(0, 2, 3.0);
    canvas.add_connector(1, 2, 0.0);
    canvas.select_all();
    canvas.toggle_selection(Some(1));
    let data = canvas.copy_selected_data().unwrap();
    canvas.paste_data(data.shapes, data.connectors);
    assert_eq!(canvas.shape_count(), 5);
    assert_eq!(canvas.shapes()[3].center(), (0.0, 0.0));
    assert_eq!(canvas.shapes()[4].center(), (600.0, 0.0));
    assert_eq!(canvas.connector_count(), 3);
    let c = &canvas.connectors()[2];
    assert_eq!((c.source(), c.target(), c.curvature()), (3, 4, 3.0));
    assert_eq!(canvas.selected_indices(), &[3, 4]);
    assert_eq!(canvas.selected_connector_indices(), &[2]);
}

#[test]
fn test_select_word_at() {
    let mut s = TextInputState::new("hello world");
    s.select_word_at(3);
    assert_eq!(s.selected_range(), 0..5);
    s.select_word_at(5);
    assert_eq!(s.selected_range(), 5..6);
    s.select_word_at(8);
    assert_eq!(s.selected_range(), 6..11);
    s.select_word_at(99);
    assert_eq!(s.selected_range(), 6..11);
    s.select_word_at(0);
    assert_eq!(s.selected_range(), 0..5);
    assert_eq!(s.cursor_offset(), 5);
    let mut empty = TextInputState::new("");
    empty.select_word_at(4);
    assert_eq!(empty.selected_range(), 0..0);
}

#[test]
fn test_index_for_position() {
    let empty = TextInputCore::new("");
    assert_eq!(empty.index_for_position(Some(LinePosition::Below)), 0);
    let core = TextInputCore::new("h\u{e9}llo");
    assert_eq!(core.index_for_position(None), 0);
    assert_eq!(core.index_for_position(Some(LinePosition::Above)), 0);
    assert_eq!(core.index_for_position(Some(LinePosition::Below)), 6);
    assert_eq!(core.index_for_position(Some(LinePosition::Within(3))), 3);
}

#[test]
fn test_default_canvas_is_empty() {
    let canvas: CanvasState<f32> = Default::default();
    assert_eq!(canvas.shape_count(), 0);
    assert_eq!(canvas.connector_count(), 0);
    assert!(canvas.selected().is_none());
    assert!(canvas.editing().is_none());
}

#[test]
fn test_marked_text_runs() {
    assert_eq!(marked_text_runs(5, None), vec![(5, false)]);
    assert_eq!(marked_text_runs(0, None), vec![(0, false)]);
    assert_eq!(marked_text_runs(6, Some(2..4)), vec![(2, false), (2, true), (2, false)]);
    assert_eq!(marked_text_runs(4, Some(0..4)), vec![(4, true)]);
    assert_eq!(marked_text_runs(4, Some(0..2)), vec![(2, true), (2, false)]);
}
