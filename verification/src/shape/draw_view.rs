//! The drawing view's decisions: what a press, a drag and a release on the
//! canvas do, which of the canvas or the edited text a key or a clipboard
//! action applies to, and when editing a shape's text begins and ends.
//!
//! The UI measures the pointer (which shape, handle or connector lies under
//! it, and where in the edited text) and computes any new geometry; the view
//! takes those as plain values and makes every change to the canvas and the
//! text itself.

use std::ops::Range;

use vstd::prelude::*;

use super::canvas::{
    all_selected, connector_added, copied, curvature_set, deleted_selected, editing_started,
    hit_selected, indices_selected, moved_selected, pasted, resize_begun, resize_committed,
    text_set, toggled_at, undo_ok, undone, redo_ok, redone, record, strictly_increasing,
    ActionView, CanvasState, CanvasView, ClipboardData,
};
use super::{OvalShape, ResizeHandle};
use crate::text_input::{
    backspaced, byte_slice, content_len, deleted, inserted, moved_left, moved_right, moved_to,
    next_stop, on_boundaries, prev_stop, recorded, replaced, selected_to, slice_text, unrecorded,
    word_selected,
    EditView, Snapshot, TextInputState,
};
use crate::utf::{utf16_offset_of, utf8_len, utf8_offset_of, law_utf8_offset_is_boundary};

verus! {

/// What the pointer is doing on the canvas.
pub struct PointerState<F> {
    /// Selected shapes are being dragged.
    pub dragging: bool,
    /// Where the pointer was at the last drag step.
    pub drag_offset: Option<(F, F)>,
    /// The handle of a resize in progress.
    pub resizing: Option<ResizeHandle>,
    /// The resize handle under the pointer, for the cursor style.
    pub hover_handle: Option<ResizeHandle>,
    /// Where a marquee selection started.
    pub marquee_start: Option<(F, F)>,
    /// Where a marquee selection reaches now.
    pub marquee_end: Option<(F, F)>,
    /// The shape a new connector starts from.
    pub connecting_from: Option<usize>,
    /// Where the connector being drawn ends now.
    pub connecting_preview: Option<(F, F)>,
    /// The connector whose curvature is being dragged.
    pub dragging_connector_midpoint: Option<usize>,
}

/// What a press landed on, as the UI measured it at the pressed point.
pub struct PressHit {
    /// 1 for a single click, 2 for a double click, and so on.
    pub click_count: usize,
    pub shift: bool,
    pub alt: bool,
    /// The point lies on the shape whose text is being edited.
    pub on_editing_shape: bool,
    /// The byte offset in the edited text closest to the point.
    pub text_offset: usize,
    /// The first connector whose midpoint handle is under the point.
    pub midpoint_handle: Option<usize>,
    /// The topmost shape under the point.
    pub shape: Option<usize>,
    /// The handle under the point of the one selected shape, when exactly one is selected.
    pub resize_handle: Option<ResizeHandle>,
    /// The topmost connector whose curve passes near the point.
    pub connector: Option<usize>,
}

/// The view by value: the canvas, the text being edited, and the pointer.
pub struct DrawSnap<F> {
    pub canvas: CanvasView<F>,
    pub text: Option<EditView>,
    pub pointer: PointerState<F>,
}

/// The pointer at rest: no dragging and no drag origin.
pub open spec fn at_rest<F>(p: PointerState<F>) -> PointerState<F> {
    PointerState { dragging: false, drag_offset: None, ..p }
}

/// A text opened for editing: `text`, with the cursor at its end and no history.
pub open spec fn opened_text(text: Seq<char>) -> EditView {
    EditView {
        current: Snapshot { content: text, start: utf8_len(text), end: utf8_len(text), reversed: false },
        undo: Seq::empty(),
        redo: Seq::empty(),
    }
}

/// Editing begins on shape `index`: it becomes the only selected shape and its
/// text is opened.
pub open spec fn editing_opened<F>(s: DrawSnap<F>, index: usize) -> DrawSnap<F> {
    DrawSnap {
        canvas: editing_started(s.canvas, index),
        text: Some(opened_text(s.canvas.shapes[index as int].text)),
        pointer: s.pointer,
    }
}

/// Editing ends: the shape being edited takes the edited text, and no text is open.
pub open spec fn committed<F>(s: DrawSnap<F>) -> DrawSnap<F> {
    let c = match (s.canvas.editing, s.text) {
        (Some(i), Some(e)) => text_set(s.canvas, i, e.current.content),
        _ => s.canvas,
    };
    DrawSnap { canvas: CanvasView { editing: None, ..c }, text: None, pointer: s.pointer }
}

/// A press on the edited text: three clicks select it all, two select the
/// word at the pressed offset, one puts the cursor there.
pub open spec fn pressed_text(e: EditView, hit: PressHit) -> EditView {
    if hit.click_count >= 3 {
        unrecorded(
            e,
            Snapshot {
                content: e.current.content,
                start: 0,
                end: content_len(e.current),
                reversed: false,
            },
        )
    } else if hit.click_count == 2 {
        unrecorded(e, word_selected(e.current, hit.text_offset as int))
    } else {
        unrecorded(e, moved_to(e.current, hit.text_offset as int))
    }
}

/// A press on the canvas when no text is being edited there. In order: a
/// connector's midpoint handle starts a curvature drag; with alt, a shape
/// starts a new connector; a resize handle starts a resize; a double click on
/// a shape opens its text; with shift, the shape is toggled in the selection;
/// a shape starts a drag (selecting it alone unless it is already selected); a
/// connector is selected alone; empty space clears the selection and starts a
/// marquee. A double click that hits no shape clears the selection first.
pub open spec fn pressed_canvas<F>(s: DrawSnap<F>, point: (F, F), hit: PressHit) -> DrawSnap<F> {
    let c = s.canvas;
    let p = s.pointer;
    if hit.midpoint_handle is Some {
        DrawSnap {
            pointer: PointerState { dragging_connector_midpoint: hit.midpoint_handle, ..p },
            ..s
        }
    } else if hit.alt && hit.shape is Some {
        DrawSnap {
            pointer: PointerState {
                connecting_from: hit.shape,
                connecting_preview: Some(point),
                ..p
            },
            ..s
        }
    } else if hit.resize_handle is Some {
        DrawSnap {
            canvas: resize_begun(c),
            pointer: PointerState { resizing: hit.resize_handle, ..at_rest(p) },
            ..s
        }
    } else if hit.click_count == 2 && hit.shape is Some {
        let opened = editing_opened(
            DrawSnap { canvas: hit_selected(c, hit.shape), ..s },
            hit.shape->0,
        );
        DrawSnap { pointer: at_rest(p), ..opened }
    } else {
        let c2 = if hit.click_count == 2 {
            hit_selected(c, None)
        } else {
            c
        };
        if hit.shift {
            DrawSnap { canvas: toggled_at(c2, hit.shape), pointer: at_rest(p), ..s }
        } else {
            match hit.shape {
                Some(i) => DrawSnap {
                    canvas: if c2.selected.contains(i) {
                        c2
                    } else {
                        hit_selected(c2, Some(i))
                    },
                    pointer: PointerState { dragging: true, drag_offset: Some(point), ..p },
                    ..s
                },
                None => match hit.connector {
                    Some(ci) => DrawSnap {
                        canvas: CanvasView { selected_connectors: seq![ci], ..hit_selected(c2, None) },
                        pointer: at_rest(p),
                        ..s
                    },
                    None => DrawSnap {
                        canvas: hit_selected(c2, None),
                        pointer: PointerState {
                            marquee_start: Some(point),
                            marquee_end: Some(point),
                            ..at_rest(p)
                        },
                        ..s
                    },
                },
            }
        }
    }
}

/// A press: while a shape's text is edited, a press on that shape goes to the
/// text; a press elsewhere ends editing first and then acts on the canvas.
pub open spec fn pressed<F>(s: DrawSnap<F>, point: (F, F), hit: PressHit) -> DrawSnap<F> {
    if s.canvas.editing is Some {
        if hit.on_editing_shape {
            DrawSnap {
                text: match s.text {
                    Some(e) => Some(pressed_text(e, hit)),
                    None => None,
                },
                ..s
            }
        } else {
            pressed_canvas(committed(s), point, hit)
        }
    } else {
        pressed_canvas(s, point, hit)
    }
}

/// Whether a press shows the text cursor: it went to the edited text, or it
/// opened a shape's text.
pub open spec fn press_shows_cursor<F>(s: DrawSnap<F>, hit: PressHit) -> bool {
    if s.canvas.editing is Some && hit.on_editing_shape {
        s.text is Some
    } else {
        &&& hit.midpoint_handle is None
        &&& !(hit.alt && hit.shape is Some)
        &&& hit.resize_handle is None
        &&& hit.click_count == 2
        &&& hit.shape is Some
    }
}

/// What a pointer move does, by what the pointer is doing.
pub enum MoveStep<F> {
    /// Move the loose end of the connector being drawn.
    Connect,
    /// Set this connector's curvature from the pointer.
    Curve(usize),
    /// Resize the shape being resized by dragging this handle.
    Resize(ResizeHandle),
    /// Drag the selected shapes on from this point.
    Drag((F, F)),
    /// Extend the marquee that started at this point.
    Marquee((F, F)),
    /// Only note which resize handle is under the pointer.
    Hover,
}

/// The step a move makes: drawing a connector, then curving one, then
/// resizing, then dragging, then a marquee, in that order of precedence.
pub open spec fn move_step_of<F>(p: PointerState<F>) -> MoveStep<F> {
    if p.connecting_from is Some {
        MoveStep::Connect
    } else {
        match p.dragging_connector_midpoint {
            Some(ci) => MoveStep::Curve(ci),
            None => match p.resizing {
                Some(h) => MoveStep::Resize(h),
                None => if p.dragging && p.drag_offset is Some {
                    MoveStep::Drag(p.drag_offset->0)
                } else {
                    match p.marquee_start {
                        Some(m) => MoveStep::Marquee(m),
                        None => MoveStep::Hover,
                    }
                },
            },
        }
    }
}

/// A release: a connector being drawn is added from its shape to `connect_to`
/// (when the pointer is over another shape), a resize is committed, and every
/// gesture ends.
pub open spec fn released<F>(s: DrawSnap<F>, connect_to: Option<usize>, curvature: F) -> DrawSnap<F> {
    let p = s.pointer;
    let c1 = match (p.connecting_from, connect_to) {
        (Some(source), Some(target)) => connector_added(s.canvas, source, target, curvature),
        _ => s.canvas,
    };
    let c2 = if p.resizing is Some {
        resize_committed(c1)
    } else {
        c1
    };
    DrawSnap {
        canvas: c2,
        text: s.text,
        pointer: PointerState {
            dragging: false,
            drag_offset: None,
            resizing: None,
            hover_handle: p.hover_handle,
            marquee_start: None,
            marquee_end: if p.marquee_start is Some {
                None
            } else {
                p.marquee_end
            },
            connecting_from: None,
            connecting_preview: if p.connecting_from is Some {
                None
            } else {
                p.connecting_preview
            },
            dragging_connector_midpoint: None,
        },
    }
}

/// Editing keys of the text being edited.
pub enum EditKey {
    Backspace,
    Delete,
    Left,
    Right,
    SelectLeft,
    SelectRight,
}

/// The effect of an editing key on the text.
pub open spec fn key_applied(e: EditView, key: EditKey) -> EditView {
    match key {
        EditKey::Backspace => backspaced(e),
        EditKey::Delete => deleted(e),
        EditKey::Left => unrecorded(e, moved_left(e.current)),
        EditKey::Right => unrecorded(e, moved_right(e.current)),
        EditKey::SelectLeft => unrecorded(e, selected_to(e.current, prev_stop(e.current))),
        EditKey::SelectRight => unrecorded(e, selected_to(e.current, next_stop(e.current))),
    }
}

/// What copy or cut puts on the clipboard: the selected text while editing,
/// else the selected shapes and the connectors between them.
pub enum Copied<F> {
    Text(String),
    Shapes(ClipboardData<F>),
    Nothing,
}

/// The byte range an input-method request applies to in the edited text: the
/// given UTF-16 range, else the selection.
pub open spec fn ime_range(s: Snapshot, range_utf16: Option<Range<usize>>) -> (nat, nat) {
    match range_utf16 {
        Some(r) => (utf8_offset_of(s.content, r.start as int), utf8_offset_of(s.content, r.end as int)),
        None => (s.start, s.end),
    }
}

/// The drawing view's state: the canvas, the text of the shape being edited,
/// and what the pointer is doing.
pub struct DrawView<F> {
    canvas: CanvasState<F>,
    editing_state: Option<TextInputState>,
    pointer: PointerState<F>,
}

impl<F: Copy> View for DrawView<F> {
    type V = DrawSnap<F>;

    closed spec fn view(&self) -> DrawSnap<F> {
        DrawSnap {
            canvas: self.canvas@,
            text: match self.editing_state {
                Some(e) => Some(e@),
                None => None,
            },
            pointer: self.pointer,
        }
    }
}

impl<F: Copy> DrawView<F> {
    /// The canvas and the edited text are well formed.
    pub closed spec fn wf(&self) -> bool {
        &&& self.canvas.wf()
        &&& match self.editing_state {
            Some(e) => e.wf(),
            None => true,
        }
    }

    pub fn new() -> (v: Self)
        ensures
            v.wf(),
            v@.canvas.shapes.len() == 0,
            v@.canvas.connectors.len() == 0,
            v@.canvas.selected.len() == 0,
            v@.canvas.editing is None,
            v@.canvas.undo.len() == 0,
            v@.canvas.redo.len() == 0,
            v@.text is None,
            !v@.pointer.dragging,
            v@.pointer.resizing is None,
            v@.pointer.marquee_start is None,
            v@.pointer.connecting_from is None,
            v@.pointer.dragging_connector_midpoint is None,
    {
        DrawView {
            canvas: CanvasState::new(),
            editing_state: None,
            pointer: PointerState {
                dragging: false,
                drag_offset: None,
                resizing: None,
                hover_handle: None,
                marquee_start: None,
                marquee_end: None,
                connecting_from: None,
                connecting_preview: None,
                dragging_connector_midpoint: None,
            },
        }
    }

    pub fn canvas(&self) -> (c: &CanvasState<F>)
        ensures
            c@ == self@.canvas,
            self.wf() ==> c.wf(),
    {
        &self.canvas
    }

    pub fn editing_state(&self) -> (e: Option<&TextInputState>)
        ensures
            match e {
                Some(t) => self@.text == Some(t@) && (self.wf() ==> t.wf()),
                None => self@.text is None,
            },
    {
        match &self.editing_state {
            Some(t) => Some(t),
            None => None,
        }
    }

    pub fn pointer(&self) -> (p: &PointerState<F>)
        ensures
            *p == self@.pointer,
    {
        &self.pointer
    }

    /// Add a shape on top of the others (recorded for undo).
    pub fn add_shape(&mut self, shape: OvalShape<F>)
        requires
            old(self).wf(),
        ensures
            final(self).wf(),
            final(self)@ == (DrawSnap {
                canvas: record(
                    CanvasView { shapes: old(self)@.canvas.shapes.push(shape@), ..old(self)@.canvas },
                    ActionView::AddShape { index: old(self)@.canvas.shapes.len() as usize, data: shape@ },
                ),
                ..old(self)@
            }),
    {
        self.canvas.add_shape(shape);
    }

    /// Begin editing the text of shape `index`, with the cursor at its end.
    pub fn start_editing(&mut self, index: usize)
        requires
            old(self).wf(),
            index < old(self)@.canvas.shapes.len(),
        ensures
            final(self).wf(),
            final(self)@ == editing_opened(old(self)@, index),
    {
        let text = self.canvas.shapes()[index].text();
        let mut state = TextInputState::new(text);
        state.move_to_end();
        assert(state@.undo =~= Seq::<Snapshot>::empty());
        assert(state@.redo =~= Seq::<Snapshot>::empty());
        self.editing_state = Some(state);
        self.canvas.start_editing(index);
    }

    /// End editing: the shape being edited takes the edited text.
    pub fn commit_editing(&mut self)
        requires
            old(self).wf(),
        ensures
            final(self).wf(),
            final(self)@ == committed(old(self)@),
    {
        match (self.canvas.editing(), &self.editing_state) {
            (Some(index), Some(state)) => {
                let text = state.content().to_owned();
                self.canvas.set_shape_text(index, text.as_str());
            },
            _ => {},
        }
        self.editing_state = None;
        self.canvas.stop_editing();
    }

    /// A press at `point` on what `hit` describes (see `pressed`). Returns
    /// whether the text cursor is to be shown.
    pub fn press(&mut self, point: (F, F), hit: PressHit) -> (show_cursor: bool)
        requires
            old(self).wf(),
            hit.shape matches Some(i) ==> (i as int) < old(self)@.canvas.shapes.len(),
            hit.resize_handle is Some && old(self)@.canvas.selected.len() > 0 ==> old(
                self,
            )@.canvas.selected[0] < old(self)@.canvas.shapes.len(),
        ensures
            final(self).wf(),
            final(self)@ == pressed(old(self)@, point, hit),
            show_cursor == press_shows_cursor(old(self)@, hit),
    {
        if self.canvas.editing().is_some() {
            if hit.on_editing_shape {
                match &mut self.editing_state {
                    Some(state) => {
                        if hit.click_count >= 3 {
                            state.select_all();
                        } else if hit.click_count == 2 {
                            state.select_word_at(hit.text_offset);
                        } else {
                            state.move_to(hit.text_offset);
                        }
                        return true;
                    },
                    None => {
                        return false;
                    },
                }
            }
            self.commit_editing();
        }
        self.press_canvas(point, hit)
    }

    fn press_canvas(&mut self, point: (F, F), hit: PressHit) -> (show_cursor: bool)
        requires
            old(self).wf(),
            hit.shape matches Some(i) ==> (i as int) < old(self)@.canvas.shapes.len(),
            hit.resize_handle is Some && old(self)@.canvas.selected.len() > 0 ==> old(
                self,
            )@.canvas.selected[0] < old(self)@.canvas.shapes.len(),
        ensures
            final(self).wf(),
            final(self)@ == pressed_canvas(old(self)@, point, hit),
            show_cursor == (hit.midpoint_handle is None && !(hit.alt && hit.shape is Some)
                && hit.resize_handle is None && hit.click_count == 2 && hit.shape is Some),
    {
        if let Some(ci) = hit.midpoint_handle {
            self.pointer.dragging_connector_midpoint = Some(ci);
            return false;
        }
        if hit.alt {
            if let Some(idx) = hit.shape {
                self.pointer.connecting_from = Some(idx);
                self.pointer.connecting_preview = Some(point);
                return false;
            }
        }
        if let Some(handle) = hit.resize_handle {
            self.canvas.begin_resize();
            self.pointer.resizing = Some(handle);
            self.pointer.dragging = false;
            self.pointer.drag_offset = None;
            return false;
        }
        if hit.click_count == 2 {
            self.canvas.select_hit(hit.shape);
            if let Some(idx) = hit.shape {
                self.start_editing(idx);
                self.pointer.dragging = false;
                self.pointer.drag_offset = None;
                return true;
            }
        }
        if hit.shift {
            self.canvas.toggle_selection(hit.shape);
            self.pointer.dragging = false;
            self.pointer.drag_offset = None;
        } else {
            match hit.shape {
                Some(idx) => {
                    if !self.canvas.is_selected(idx) {
                        self.canvas.select_hit(Some(idx));
                    }
                    self.pointer.dragging = true;
                    self.pointer.drag_offset = Some(point);
                },
                None => match hit.connector {
                    Some(ci) => {
                        self.canvas.select_hit(None);
                        let only = vec![ci];
                        assert(only@ =~= seq![ci]);
                        self.canvas.set_selected_connectors(only);
                        self.pointer.dragging = false;
                        self.pointer.drag_offset = None;
                    },
                    None => {
                        self.canvas.select_hit(None);
                        self.pointer.dragging = false;
                        self.pointer.drag_offset = None;
                        self.pointer.marquee_start = Some(point);
                        self.pointer.marquee_end = Some(point);
                    },
                },
            }
        }
        false
    }
}

impl<F: Copy> DrawView<F> {
    /// The step the next pointer move makes (see `move_step_of`).
    pub fn move_step(&self) -> (m: MoveStep<F>)
        ensures
            m == move_step_of(self@.pointer),
    {
        let p = &self.pointer;
        if p.connecting_from.is_some() {
            MoveStep::Connect
        } else if let Some(ci) = p.dragging_connector_midpoint {
            MoveStep::Curve(ci)
        } else if let Some(h) = p.resizing {
            MoveStep::Resize(h)
        } else if p.dragging && p.drag_offset.is_some() {
            match p.drag_offset {
                Some(o) => MoveStep::Drag(o),
                None => MoveStep::Hover,
            }
        } else {
            match p.marquee_start {
                Some(m) => MoveStep::Marquee(m),
                None => MoveStep::Hover,
            }
        }
    }

    /// The loose end of the connector being drawn follows the pointer.
    pub fn preview_connection(&mut self, point: (F, F))
        requires
            old(self).wf(),
        ensures
            final(self).wf(),
            final(self)@ == (DrawSnap {
                pointer: PointerState { connecting_preview: Some(point), ..old(self)@.pointer },
                ..old(self)@
            }),
    {
        self.pointer.connecting_preview = Some(point);
    }

    /// Set the curvature of the connector whose midpoint is dragged.
    pub fn curve_connector(&mut self, index: usize, curvature: F)
        requires
            old(self).wf(),
        ensures
            final(self).wf(),
            final(self)@ == (DrawSnap {
                canvas: curvature_set(old(self)@.canvas, index, curvature),
                ..old(self)@
            }),
    {
        self.canvas.set_connector_curvature(index, curvature);
    }

    /// The shape being resized takes the resized value `shape`.
    pub fn resize_to(&mut self, shape: OvalShape<F>)
        requires
            old(self).wf(),
            old(self)@.canvas.resize_pre matches Some(p) ==> (p.0 as int) < old(
                self,
            )@.canvas.shapes.len(),
        ensures
            final(self).wf(),
            final(self)@ == (DrawSnap {
                canvas: match old(self)@.canvas.resize_pre {
                    Some(p) => CanvasView {
                        shapes: old(self)@.canvas.shapes.update(p.0 as int, shape@),
                        ..old(self)@.canvas
                    },
                    None => old(self)@.canvas,
                },
                ..old(self)@
            }),
    {
        if let Some(index) = self.canvas.resize_target() {
            self.canvas.replace_shape(index, shape);
        }
    }

    /// A drag step to `point`: the selected shapes move to `centers`, one for
    /// each in selection order, and the drag goes on from `point`.
    pub fn drag_to(&mut self, point: (F, F), centers: Vec<(F, F)>)
        requires
            old(self).wf(),
            centers@.len() == old(self)@.canvas.selected.len(),
            forall|j: int|
                0 <= j < old(self)@.canvas.selected.len() ==> (
                #[trigger] old(self)@.canvas.selected[j] as int) < old(self)@.canvas.shapes.len(),
        ensures
            final(self).wf(),
            final(self)@ == (DrawSnap {
                canvas: moved_selected(old(self)@.canvas, centers@, centers@.len()),
                pointer: PointerState { drag_offset: Some(point), ..old(self)@.pointer },
                ..old(self)@
            }),
    {
        self.canvas.move_selected_to(centers);
        self.pointer.drag_offset = Some(point);
    }

    /// The marquee reaches `point`; the shapes and connectors it covers become
    /// the selection.
    pub fn marquee_to(&mut self, point: (F, F), shapes: Vec<usize>, connectors: Vec<usize>)
        requires
            old(self).wf(),
            strictly_increasing(shapes@),
        ensures
            final(self).wf(),
            final(self)@ == (DrawSnap {
                canvas: indices_selected(old(self)@.canvas, shapes@, connectors@),
                pointer: PointerState { marquee_end: Some(point), ..old(self)@.pointer },
                ..old(self)@
            }),
    {
        self.pointer.marquee_end = Some(point);
        self.canvas.select_indices(shapes, connectors);
    }

    /// Note the resize handle under the pointer; returns whether it changed.
    pub fn hover(&mut self, handle: Option<ResizeHandle>) -> (changed: bool)
        requires
            old(self).wf(),
        ensures
            final(self).wf(),
            final(self)@ == (DrawSnap {
                pointer: PointerState { hover_handle: handle, ..old(self)@.pointer },
                ..old(self)@
            }),
            changed == (handle != old(self)@.pointer.hover_handle),
    {
        let changed = handle != self.pointer.hover_handle;
        self.pointer.hover_handle = handle;
        changed
    }

    /// A release (see `released`); `connect_to` is the shape under the
    /// pointer other than the one a connector is drawn from.
    pub fn release(&mut self, connect_to: Option<usize>, curvature: F)
        requires
            old(self).wf(),
        ensures
            final(self).wf(),
            final(self)@ == released(old(self)@, connect_to, curvature),
    {
        if let Some(source) = self.pointer.connecting_from {
            self.pointer.connecting_from = None;
            if let Some(target) = connect_to {
                self.canvas.add_connector(source, target, curvature);
            }
            self.pointer.connecting_preview = None;
        }
        self.pointer.dragging_connector_midpoint = None;
        if self.pointer.resizing.is_some() {
            self.canvas.commit_resize();
            self.pointer.resizing = None;
        }
        if self.pointer.marquee_start.is_some() {
            self.pointer.marquee_start = None;
            self.pointer.marquee_end = None;
        }
        self.pointer.dragging = false;
        self.pointer.drag_offset = None;
    }
}

impl<F: Copy> DrawView<F> {
    /// An editing key goes to the edited text; returns whether a text is edited.
    pub fn edit_key(&mut self, key: EditKey) -> (handled: bool)
        requires
            old(self).wf(),
            (key is Backspace || key is Delete) && old(self)@.text is Some ==> on_boundaries(
                old(self)@.text->0.current,
            ),
        ensures
            final(self).wf(),
            final(self)@ == (DrawSnap {
                text: match old(self)@.text {
                    Some(e) => Some(key_applied(e, key)),
                    None => None,
                },
                ..old(self)@
            }),
            handled == old(self)@.text is Some,
    {
        match &mut self.editing_state {
            Some(state) => {
                match key {
                    EditKey::Backspace => state.backspace(),
                    EditKey::Delete => state.delete(),
                    EditKey::Left => state.move_left(),
                    EditKey::Right => state.move_right(),
                    EditKey::SelectLeft => state.select_left(),
                    EditKey::SelectRight => state.select_right(),
                }
                true
            },
            None => false,
        }
    }

    /// Select all: the whole edited text while editing, else every shape and
    /// connector. Returns whether it went to the text.
    pub fn select_all(&mut self) -> (to_text: bool)
        requires
            old(self).wf(),
        ensures
            final(self).wf(),
            final(self)@ == (match old(self)@.text {
                Some(e) => DrawSnap {
                    text: Some(
                        unrecorded(
                            e,
                            Snapshot {
                                content: e.current.content,
                                start: 0,
                                end: content_len(e.current),
                                reversed: false,
                            },
                        ),
                    ),
                    ..old(self)@
                },
                None => DrawSnap { canvas: all_selected(old(self)@.canvas), ..old(self)@ },
            }),
            to_text == old(self)@.text is Some,
    {
        match &mut self.editing_state {
            Some(state) => {
                state.select_all();
                true
            },
            None => {
                self.canvas.select_all();
                false
            },
        }
    }

    /// Undo in the edited text while editing, else on the canvas.
    pub fn undo(&mut self)
        requires
            old(self).wf(),
            old(self)@.text is None ==> undo_ok(old(self)@.canvas),
        ensures
            final(self).wf(),
            final(self)@ == (match old(self)@.text {
                Some(e) => DrawSnap { text: Some(crate::text_input::undone(e)), ..old(self)@ },
                None => DrawSnap { canvas: undone(old(self)@.canvas), ..old(self)@ },
            }),
    {
        match &mut self.editing_state {
            Some(state) => state.undo(),
            None => self.canvas.undo(),
        }
    }

    /// Redo in the edited text while editing, else on the canvas.
    pub fn redo(&mut self)
        requires
            old(self).wf(),
            old(self)@.text is None ==> redo_ok(old(self)@.canvas),
        ensures
            final(self).wf(),
            final(self)@ == (match old(self)@.text {
                Some(e) => DrawSnap { text: Some(crate::text_input::redone(e)), ..old(self)@ },
                None => DrawSnap { canvas: redone(old(self)@.canvas), ..old(self)@ },
            }),
    {
        match &mut self.editing_state {
            Some(state) => state.redo(),
            None => self.canvas.redo(),
        }
    }

    /// End editing when a shape is being edited; returns whether it was.
    pub fn stop_editing(&mut self) -> (stopped: bool)
        requires
            old(self).wf(),
        ensures
            final(self).wf(),
            final(self)@ == (if old(self)@.canvas.editing is Some {
                committed(old(self)@)
            } else {
                old(self)@
            }),
            stopped == old(self)@.canvas.editing is Some,
    {
        if self.canvas.editing().is_some() {
            self.commit_editing();
            true
        } else {
            false
        }
    }
}

impl<F: Copy> DrawView<F> {
    /// What copy puts on the clipboard: the selected text while editing
    /// (nothing when the selection is empty), else the selected shapes with
    /// the connectors between them (nothing when no shape is selected).
    pub fn copy(&self) -> (r: Copied<F>)
        requires
            self.wf(),
            self@.text matches Some(e) ==> on_boundaries(e.current),
            self@.text is None ==> forall|j: int|
                0 <= j < self@.canvas.selected.len() ==> (#[trigger] self@.canvas.selected[j] as int)
                    < self@.canvas.shapes.len(),
        ensures
            match (self@.text, r) {
                (Some(e), Copied::Text(t)) => e.current.start < e.current.end && t@ == byte_slice(
                    e.current.content,
                    e.current.start as int,
                    e.current.end as int,
                ),
                (Some(e), Copied::Nothing) => e.current.start >= e.current.end,
                (None, Copied::Shapes(d)) => copied(self@.canvas) == Some(d@),
                (None, Copied::Nothing) => copied(self@.canvas) is None,
                _ => false,
            },
    {
        match &self.editing_state {
            Some(state) => {
                let range = state.selected_range();
                if range.start < range.end {
                    Copied::Text(slice_text(state.content(), range.start, range.end))
                } else {
                    Copied::Nothing
                }
            },
            None => match self.canvas.copy_selected_data() {
                Some(d) => Copied::Shapes(d),
                None => Copied::Nothing,
            },
        }
    }

    /// Cut: what copy gives, which is then removed: the selected text
    /// (recorded for undo), or the selected shapes with their connectors.
    pub fn cut(&mut self) -> (r: Copied<F>)
        requires
            old(self).wf(),
            old(self)@.text matches Some(e) ==> on_boundaries(e.current),
            old(self)@.text is None ==> forall|j: int|
                0 <= j < old(self)@.canvas.selected.len() ==> (
                #[trigger] old(self)@.canvas.selected[j] as int) < old(self)@.canvas.shapes.len(),
        ensures
            final(self).wf(),
            match (old(self)@.text, r) {
                (Some(e), Copied::Text(t)) => e.current.start < e.current.end && t@ == byte_slice(
                    e.current.content,
                    e.current.start as int,
                    e.current.end as int,
                ) && final(self)@ == (DrawSnap {
                    text: Some(inserted(e, Seq::empty())),
                    ..old(self)@
                }),
                (Some(e), Copied::Nothing) => e.current.start >= e.current.end && final(self)@
                    == old(self)@,
                (None, Copied::Shapes(d)) => copied(old(self)@.canvas) == Some(d@) && final(self)@
                    == (DrawSnap { canvas: deleted_selected(old(self)@.canvas), ..old(self)@ }),
                (None, Copied::Nothing) => copied(old(self)@.canvas) is None && final(self)@ == old(
                    self,
                )@,
                _ => false,
            },
    {
        proof {
            reveal_strlit("");
        }
        match &mut self.editing_state {
            Some(state) => {
                let range = state.selected_range();
                if range.start < range.end {
                    let text = slice_text(state.content(), range.start, range.end);
                    state.insert("");
                    Copied::Text(text)
                } else {
                    Copied::Nothing
                }
            },
            None => match self.canvas.copy_selected_data() {
                Some(d) => {
                    self.canvas.delete_selected();
                    Copied::Shapes(d)
                },
                None => Copied::Nothing,
            },
        }
    }

    /// Paste: shapes from a shape clipboard item (already read, and moved by
    /// the paste offset) go onto the canvas; otherwise the item's text goes
    /// into the edited text. Returns whether text was inserted.
    pub fn paste(&mut self, shapes: Option<ClipboardData<F>>, text: Option<&str>) -> (inserted_text: bool)
        requires
            old(self).wf(),
            shapes matches Some(d) ==> forall|j: int|
                0 <= j < d.connectors@.len() ==> old(self)@.canvas.shapes.len() + (
                #[trigger] d.connectors@[j]).source <= usize::MAX && old(self)@.canvas.shapes.len()
                    + d.connectors@[j].target <= usize::MAX,
            shapes is None && text is Some && old(self)@.text is Some ==> on_boundaries(
                old(self)@.text->0.current,
            ),
        ensures
            final(self).wf(),
            final(self)@ == (match shapes {
                Some(d) => DrawSnap {
                    canvas: pasted(old(self)@.canvas, d@.shapes, d@.connectors),
                    ..old(self)@
                },
                None => match (old(self)@.text, text) {
                    (Some(e), Some(t)) => DrawSnap { text: Some(inserted(e, t@)), ..old(self)@ },
                    _ => old(self)@,
                },
            }),
            inserted_text == (shapes is None && text is Some && old(self)@.text is Some),
    {
        match shapes {
            Some(d) => {
                let ClipboardData { shapes, connectors } = d;
                self.canvas.paste_data(shapes, connectors);
                false
            },
            None => match (&mut self.editing_state, text) {
                (Some(state), Some(t)) => {
                    state.insert(t);
                    true
                },
                _ => false,
            },
        }
    }

    /// The edited text in a UTF-16 range, with the UTF-16 range it covers;
    /// `None` when no text is edited.
    pub fn text_for_range(&self, range_utf16: Range<usize>) -> (r: Option<(String, Range<usize>)>)
        requires
            self.wf(),
            self@.text matches Some(e) ==> utf8_offset_of(e.current.content, range_utf16.start as int)
                <= utf8_offset_of(e.current.content, range_utf16.end as int),
        ensures
            match (self@.text, r) {
                (Some(e), Some(p)) => {
                    let s = e.current.content;
                    let a = utf8_offset_of(s, range_utf16.start as int);
                    let b = utf8_offset_of(s, range_utf16.end as int);
                    &&& p.0@ == byte_slice(s, a as int, b as int)
                    &&& p.1.start == utf16_offset_of(s, a as int)
                    &&& p.1.end == utf16_offset_of(s, b as int)
                },
                (None, None) => true,
                _ => false,
            },
    {
        match &self.editing_state {
            Some(state) => {
                let range = state.range_from_utf16(&range_utf16);
                let actual = state.range_to_utf16(&range);
                proof {
                    law_utf8_offset_is_boundary(state@.current.content, range_utf16.start as int);
                    law_utf8_offset_is_boundary(state@.current.content, range_utf16.end as int);
                }
                Some((slice_text(state.content(), range.start, range.end), actual))
            },
            None => None,
        }
    }

    /// The selection of the edited text in UTF-16 offsets; `None` when no text is edited.
    pub fn selected_text_range(&self) -> (r: Option<Range<usize>>)
        ensures
            match (self@.text, r) {
                (Some(e), Some(u)) => u.start == utf16_offset_of(
                    e.current.content,
                    e.current.start as int,
                ) && u.end == utf16_offset_of(e.current.content, e.current.end as int),
                (None, None) => true,
                _ => false,
            },
    {
        match &self.editing_state {
            Some(state) => Some(state.range_to_utf16(&state.selected_range())),
            None => None,
        }
    }

    /// Replace a UTF-16 range of the edited text, or its selection, with
    /// `new_text`, recorded for undo. Returns whether a text is edited.
    pub fn replace_text_in_range(&mut self, range_utf16: Option<Range<usize>>, new_text: &str) -> (handled: bool)
        requires
            old(self).wf(),
            range_utf16 is None && old(self)@.text is Some ==> on_boundaries(
                old(self)@.text->0.current,
            ),
        ensures
            final(self).wf(),
            final(self)@ == (match old(self)@.text {
                Some(e) => {
                    let t = ime_range(e.current, range_utf16);
                    DrawSnap {
                        text: Some(recorded(e, replaced(e.current, t.0 as int, t.1 as int, new_text@))),
                        ..old(self)@
                    }
                },
                None => old(self)@,
            }),
            handled == old(self)@.text is Some,
    {
        match &mut self.editing_state {
            Some(state) => {
                let range = match &range_utf16 {
                    Some(r) => {
                        proof {
                            law_utf8_offset_is_boundary(state@.current.content, r.start as int);
                            law_utf8_offset_is_boundary(state@.current.content, r.end as int);
                        }
                        state.range_from_utf16(r)
                    },
                    None => state.selected_range(),
                };
                state.replace_range(range, new_text);
                true
            },
            None => false,
        }
    }
}

/// The pointer cursor the view shows.
pub enum PointerCursor {
    IBeam,
    ResizeLeftRight,
    ResizeUpDown,
    ResizeUpLeftDownRight,
    ResizeUpRightDownLeft,
    Arrow,
}

/// The cursor: a text beam while a shape is edited, else a resize arrow along
/// the axis of the handle under the pointer, else the plain arrow.
pub open spec fn cursor_for<F>(s: DrawSnap<F>) -> PointerCursor {
    if s.canvas.editing is Some {
        PointerCursor::IBeam
    } else {
        match s.pointer.hover_handle {
            Some(ResizeHandle::Left) | Some(ResizeHandle::Right) => PointerCursor::ResizeLeftRight,
            Some(ResizeHandle::Top) | Some(ResizeHandle::Bottom) => PointerCursor::ResizeUpDown,
            Some(ResizeHandle::TopLeft) | Some(ResizeHandle::BottomRight) => PointerCursor::ResizeUpLeftDownRight,
            Some(ResizeHandle::TopRight) | Some(ResizeHandle::BottomLeft) => PointerCursor::ResizeUpRightDownLeft,
            None => PointerCursor::Arrow,
        }
    }
}

impl<F: Copy> DrawView<F> {
    /// The pointer cursor to show (see `cursor_for`).
    pub fn cursor(&self) -> (c: PointerCursor)
        ensures
            c == cursor_for(self@),
    {
        if self.canvas.editing().is_some() {
            PointerCursor::IBeam
        } else {
            match self.pointer.hover_handle {
                Some(ResizeHandle::Left) | Some(ResizeHandle::Right) => PointerCursor::ResizeLeftRight,
                Some(ResizeHandle::Top) | Some(ResizeHandle::Bottom) => PointerCursor::ResizeUpDown,
                Some(ResizeHandle::TopLeft) | Some(ResizeHandle::BottomRight) => {
                    PointerCursor::ResizeUpLeftDownRight
                },
                Some(ResizeHandle::TopRight) | Some(ResizeHandle::BottomLeft) => {
                    PointerCursor::ResizeUpRightDownLeft
                },
                None => PointerCursor::Arrow,
            }
        }
    }
}

/// A plain press (a single click with no modifier, away from any handle) on a
/// shape that is already selected keeps the whole selection and starts
/// dragging it from the pressed point; on a shape that is not selected, it
/// selects that shape alone and starts dragging it. Nothing else on the
/// canvas changes.
pub proof fn law_plain_press_drags_selection<F>(s: DrawSnap<F>, point: (F, F), hit: PressHit)
    requires
        s.canvas.editing is None,
        hit.click_count == 1,
        !hit.shift,
        !hit.alt,
        hit.midpoint_handle is None,
        hit.resize_handle is None,
        hit.shape is Some,
    ensures
        ({
            let r = pressed(s, point, hit);
            let i = hit.shape->0;
            &&& r.pointer.dragging
            &&& r.pointer.drag_offset == Some(point)
            &&& r.text == s.text
            &&& r.canvas.shapes == s.canvas.shapes
            &&& r.canvas.connectors == s.canvas.connectors
            &&& r.canvas.undo == s.canvas.undo
            &&& r.canvas.redo == s.canvas.redo
            &&& s.canvas.selected.contains(i) ==> r.canvas.selected == s.canvas.selected
                && r.canvas.selected_connectors == s.canvas.selected_connectors
            &&& !s.canvas.selected.contains(i) ==> r.canvas.selected == seq![i]
                && r.canvas.selected_connectors.len() == 0
        }),
{
}

} // verus!
