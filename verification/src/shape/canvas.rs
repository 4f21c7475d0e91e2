//! The canvas: shapes, connectors, selection, editing and undo/redo.

use vstd::prelude::*;

use std::ops::Range;

use super::{Connector, ConnectorView, OvalShape, ShapeView};
use crate::text_input::{cursor_of, TextInputState};

verus! {

broadcast use vstd::seq::group_seq_axioms;

/// An undo entry for canvas operations, by value.
pub enum ActionView<F> {
    AddShape { index: usize, data: ShapeView<F> },
    MoveShape { index: usize, old_data: ShapeView<F> },
    ResizeShape { index: usize, old_data: ShapeView<F> },
    PasteShapes {
        start_index: usize,
        shapes_data: Seq<ShapeView<F>>,
        conn_start_index: usize,
        connectors_data: Seq<ConnectorView<F>>,
    },
    DeleteShapes {
        shapes: Seq<(usize, ShapeView<F>)>,
        removed_connectors: Seq<(usize, ConnectorView<F>)>,
    },
    AddConnector { index: usize, data: ConnectorView<F> },
    RemoveConnector { index: usize, data: ConnectorView<F> },
}

/// The whole canvas state by value.
pub struct CanvasView<F> {
    pub shapes: Seq<ShapeView<F>>,
    pub connectors: Seq<ConnectorView<F>>,
    pub selected: Seq<usize>,
    pub selected_connectors: Seq<usize>,
    pub editing: Option<usize>,
    pub undo: Seq<ActionView<F>>,
    pub redo: Seq<ActionView<F>>,
    pub resize_pre: Option<(usize, ShapeView<F>)>,
}

/// The values of a sequence of shapes.
pub open spec fn shape_values<F>(s: Seq<OvalShape<F>>) -> Seq<ShapeView<F>> {
    s.map_values(|x: OvalShape<F>| x@)
}

/// The values of a sequence of connectors.
pub open spec fn connector_values<F>(s: Seq<Connector<F>>) -> Seq<ConnectorView<F>> {
    s.map_values(|x: Connector<F>| x@)
}

/// Each element is smaller than the next.
pub open spec fn strictly_increasing(s: Seq<usize>) -> bool {
    forall|i: int, j: int| 0 <= i < j < s.len() ==> s[i] < s[j]
}

/// The indices of a delete entry are strictly decreasing, as delete records them.
pub open spec fn action_wf<F>(a: ActionView<F>) -> bool {
    match a {
        ActionView::DeleteShapes { shapes, .. } => forall|i: int, j: int|
            0 <= i < j < shapes.len() ==> shapes[i].0 > shapes[j].0,
        _ => true,
    }
}

/// The canvas invariant: the shape selection is in increasing order, and each
/// recorded delete lists its shapes from the highest index down.
pub open spec fn canvas_wf<F>(v: CanvasView<F>) -> bool {
    &&& strictly_increasing(v.selected)
    &&& forall|i: int| 0 <= i < v.undo.len() ==> action_wf(#[trigger] v.undo[i])
    &&& forall|i: int| 0 <= i < v.redo.len() ==> action_wf(#[trigger] v.redo[i])
}

/// A recorded change: `a` goes onto the undo history and the redo history is dropped.
pub open spec fn record<F>(v: CanvasView<F>, a: ActionView<F>) -> CanvasView<F> {
    CanvasView { undo: v.undo.push(a), redo: Seq::empty(), ..v }
}

/// Selecting what a press hit: only that shape, or nothing; connectors are
/// deselected, and editing stops unless the hit is the shape being edited.
pub open spec fn hit_selected<F>(v: CanvasView<F>, hit: Option<usize>) -> CanvasView<F> {
    CanvasView {
        editing: if hit == v.editing {
            v.editing
        } else {
            None
        },
        selected: match hit {
            Some(i) => seq![i],
            None => Seq::empty(),
        },
        selected_connectors: Seq::empty(),
        ..v
    }
}

/// Every shape and every connector selected; editing stops.
pub open spec fn all_selected<F>(v: CanvasView<F>) -> CanvasView<F> {
    CanvasView {
        selected: index_run(0, v.shapes.len() as int),
        selected_connectors: index_run(0, v.connectors.len() as int),
        editing: None,
        ..v
    }
}

/// Exactly the given shapes and connectors selected; editing stops.
pub open spec fn indices_selected<F>(v: CanvasView<F>, shapes: Seq<usize>, connectors: Seq<usize>) -> CanvasView<F> {
    CanvasView { selected: shapes, selected_connectors: connectors, editing: None, ..v }
}

/// The curvature of connector `index` set; nothing happens past the connectors.
pub open spec fn curvature_set<F>(v: CanvasView<F>, index: usize, curvature: F) -> CanvasView<F> {
    if index < v.connectors.len() {
        CanvasView {
            connectors: v.connectors.update(
                index as int,
                ConnectorView { curvature, ..v.connectors[index as int] },
            ),
            ..v
        }
    } else {
        v
    }
}

/// Toggling the hit shape in or out of the selection; editing stops.
pub open spec fn toggled_at<F>(v: CanvasView<F>, hit: Option<usize>) -> CanvasView<F> {
    CanvasView {
        selected: match hit {
            Some(idx) => toggled(v.selected, idx),
            None => v.selected,
        },
        editing: None,
        ..v
    }
}

/// Editing starts on shape `index`, which becomes the only selected shape;
/// nothing happens for an index past the shapes.
pub open spec fn editing_started<F>(v: CanvasView<F>, index: usize) -> CanvasView<F> {
    if index < v.shapes.len() {
        CanvasView { editing: Some(index), selected: seq![index], ..v }
    } else {
        v
    }
}

/// The text of shape `index` set to `text`; nothing happens past the shapes.
pub open spec fn text_set<F>(v: CanvasView<F>, index: usize, text: Seq<char>) -> CanvasView<F> {
    if index < v.shapes.len() {
        CanvasView {
            shapes: v.shapes.update(index as int, ShapeView { text, ..v.shapes[index as int] }),
            ..v
        }
    } else {
        v
    }
}

/// A connector appended and recorded for undo.
pub open spec fn connector_added<F>(v: CanvasView<F>, source: usize, target: usize, curvature: F) -> CanvasView<F> {
    record(
        CanvasView {
            connectors: v.connectors.push(ConnectorView { source, target, curvature }),
            ..v
        },
        ActionView::AddConnector {
            index: v.connectors.len() as usize,
            data: ConnectorView { source, target, curvature },
        },
    )
}

/// A resize begins on the first selected shape, whose value is kept for undo.
pub open spec fn resize_begun<F>(v: CanvasView<F>) -> CanvasView<F> {
    if v.selected.len() > 0 {
        CanvasView { resize_pre: Some((v.selected[0], v.shapes[v.selected[0] as int])), ..v }
    } else {
        v
    }
}

/// A resize in progress ends with one undo entry holding the shape's value
/// from before it.
pub open spec fn resize_committed<F>(v: CanvasView<F>) -> CanvasView<F> {
    match v.resize_pre {
        Some(p) => record(
            CanvasView { resize_pre: None, ..v },
            ActionView::ResizeShape { index: p.0, old_data: p.1 },
        ),
        None => v,
    }
}

/// An undo entry for canvas operations.
enum UndoAction<F> {
    AddShape { index: usize, data: OvalShape<F> },
    MoveShape { index: usize, old_data: OvalShape<F> },
    ResizeShape { index: usize, old_data: OvalShape<F> },
    PasteShapes {
        start_index: usize,
        shapes_data: Vec<OvalShape<F>>,
        conn_start_index: usize,
        connectors_data: Vec<Connector<F>>,
    },
    DeleteShapes {
        /// (index before the delete, data), highest index first for re-insertion
        shapes: Vec<(usize, OvalShape<F>)>,
        /// Connectors removed as part of the delete (for undo restoration)
        removed_connectors: Vec<(usize, Connector<F>)>,
    },
    AddConnector { index: usize, data: Connector<F> },
    RemoveConnector { index: usize, data: Connector<F> },
}

impl<F> View for UndoAction<F> {
    type V = ActionView<F>;

    closed spec fn view(&self) -> ActionView<F> {
        match self {
            UndoAction::AddShape { index, data } => ActionView::AddShape {
                index: *index,
                data: data@,
            },
            UndoAction::MoveShape { index, old_data } => ActionView::MoveShape {
                index: *index,
                old_data: old_data@,
            },
            UndoAction::ResizeShape { index, old_data } => ActionView::ResizeShape {
                index: *index,
                old_data: old_data@,
            },
            UndoAction::PasteShapes {
                start_index,
                shapes_data,
                conn_start_index,
                connectors_data,
            } => ActionView::PasteShapes {
                start_index: *start_index,
                shapes_data: shape_values(shapes_data@),
                conn_start_index: *conn_start_index,
                connectors_data: connector_values(connectors_data@),
            },
            UndoAction::DeleteShapes { shapes, removed_connectors } => ActionView::DeleteShapes {
                shapes: removed_values(shapes@),
                removed_connectors: removed_connector_values(removed_connectors@),
            },
            UndoAction::AddConnector { index, data } => ActionView::AddConnector {
                index: *index,
                data: data@,
            },
            UndoAction::RemoveConnector { index, data } => ActionView::RemoveConnector {
                index: *index,
                data: data@,
            },
        }
    }
}

/// State for a drawing canvas containing shapes.
pub struct CanvasState<F> {
    shapes: Vec<OvalShape<F>>,
    connectors: Vec<Connector<F>>,
    selected: Vec<usize>,
    selected_connectors: Vec<usize>,
    editing: Option<usize>,
    undo_stack: Vec<UndoAction<F>>,
    redo_stack: Vec<UndoAction<F>>,
    resize_pre_data: Option<(usize, OvalShape<F>)>,
}

impl<F> View for CanvasState<F> {
    type V = CanvasView<F>;

    closed spec fn view(&self) -> CanvasView<F> {
        CanvasView {
            shapes: shape_values(self.shapes@),
            connectors: connector_values(self.connectors@),
            selected: self.selected@,
            selected_connectors: self.selected_connectors@,
            editing: self.editing,
            undo: self.undo_stack@.map_values(|a: UndoAction<F>| a@),
            redo: self.redo_stack@.map_values(|a: UndoAction<F>| a@),
            resize_pre: match self.resize_pre_data {
                Some(p) => Some((p.0, p.1@)),
                None => None,
            },
        }
    }
}

impl<F: Copy> CanvasState<F> {
    /// The canvas invariant holds.
    pub closed spec fn wf(&self) -> bool {
        canvas_wf(self@)
    }

    /// The invariant of a canvas is `canvas_wf` of its value, the condition
    /// the canvas laws take; every operation keeps it.
    pub proof fn lemma_wf(&self)
        ensures
            self.wf() <==> canvas_wf(self@),
    {
    }

    pub fn new() -> (c: Self)
        ensures
            c.wf(),
            c@.shapes.len() == 0,
            c@.connectors.len() == 0,
            c@.selected.len() == 0,
            c@.selected_connectors.len() == 0,
            c@.editing is None,
            c@.undo.len() == 0,
            c@.redo.len() == 0,
            c@.resize_pre is None,
    {
        CanvasState {
            shapes: Vec::new(),
            connectors: Vec::new(),
            selected: Vec::new(),
            selected_connectors: Vec::new(),
            editing: None,
            undo_stack: Vec::new(),
            redo_stack: Vec::new(),
            resize_pre_data: None,
        }
    }

    pub fn shape_count(&self) -> (n: usize)
        ensures
            n == self@.shapes.len(),
    {
        self.shapes.len()
    }

    pub fn shapes(&self) -> (s: &[OvalShape<F>])
        ensures
            shape_values(s@) == self@.shapes,
    {
        self.shapes.as_slice()
    }

    /// Returns the first selected index (backwards-compatible with single-select callers).
    pub fn selected(&self) -> (r: Option<usize>)
        ensures
            r == (if self@.selected.len() > 0 {
                Some(self@.selected[0])
            } else {
                None::<usize>
            }),
    {
        if self.selected.len() > 0 {
            Some(self.selected[0])
        } else {
            None
        }
    }

    /// Returns all selected shape indices.
    pub fn selected_indices(&self) -> (s: &[usize])
        ensures
            s@ == self@.selected,
    {
        self.selected.as_slice()
    }

    /// Returns all selected connector indices.
    pub fn selected_connector_indices(&self) -> (s: &[usize])
        ensures
            s@ == self@.selected_connectors,
    {
        self.selected_connectors.as_slice()
    }

    pub fn editing(&self) -> (e: Option<usize>)
        ensures
            e == self@.editing,
    {
        self.editing
    }

    pub fn connector_count(&self) -> (n: usize)
        ensures
            n == self@.connectors.len(),
    {
        self.connectors.len()
    }

    pub fn connectors(&self) -> (s: &[Connector<F>])
        ensures
            connector_values(s@) == self@.connectors,
    {
        self.connectors.as_slice()
    }
}

impl<F: Copy> Default for CanvasState<F> {
    /// An empty canvas, as `new` makes it.
    fn default() -> (c: Self)
        ensures
            c.wf(),
            c@.shapes.len() == 0,
            c@.connectors.len() == 0,
            c@.selected.len() == 0,
            c@.selected_connectors.len() == 0,
            c@.editing is None,
            c@.undo.len() == 0,
            c@.redo.len() == 0,
            c@.resize_pre is None,
    {
        CanvasState::new()
    }
}

proof fn lemma_map_push<A, B>(s: Seq<A>, x: A, f: spec_fn(A) -> B)
    ensures
        s.push(x).map_values(f) =~= s.map_values(f).push(f(x)),
{
}

proof fn lemma_map_insert<A, B>(s: Seq<A>, i: int, x: A, f: spec_fn(A) -> B)
    requires
        0 <= i <= s.len(),
    ensures
        s.insert(i, x).map_values(f) =~= s.map_values(f).insert(i, f(x)),
{
}

proof fn lemma_map_remove<A, B>(s: Seq<A>, i: int, f: spec_fn(A) -> B)
    requires
        0 <= i < s.len(),
    ensures
        s.remove(i).map_values(f) =~= s.map_values(f).remove(i),
{
}

proof fn lemma_map_update<A, B>(s: Seq<A>, i: int, x: A, f: spec_fn(A) -> B)
    requires
        0 <= i < s.len(),
    ensures
        s.update(i, x).map_values(f) =~= s.map_values(f).update(i, f(x)),
{
}

proof fn lemma_map_drop_last<A, B>(s: Seq<A>, f: spec_fn(A) -> B)
    requires
        s.len() > 0,
    ensures
        s.drop_last().map_values(f) =~= s.map_values(f).drop_last(),
        s.map_values(f).last() == f(s.last()),
{
}

/// The numbers `start`, `start + 1`, ..., below `start + n`.
pub open spec fn index_run(start: int, n: int) -> Seq<usize> {
    Seq::new(n as nat, |k: int| (start + k) as usize)
}

/// Filtering one more element of a prefix.
proof fn lemma_filter_step<A>(s: Seq<A>, i: int, p: spec_fn(A) -> bool)
    requires
        0 <= i < s.len(),
    ensures
        s.take(i + 1).filter(p) == (if p(s[i]) {
            s.take(i).filter(p).push(s[i])
        } else {
            s.take(i).filter(p)
        }),
{
    reveal(Seq::filter);
    assert(s.take(i + 1).drop_last() =~= s.take(i));
}

/// Does `v` contain `x`.
fn contains_index(v: &Vec<usize>, x: usize) -> (r: bool)
    ensures
        r == v@.contains(x),
{
    let mut i: usize = 0;
    while i < v.len()
        invariant
            i <= v@.len(),
            forall|j: int| 0 <= j < i ==> v@[j] != x,
        decreases v@.len() - i,
    {
        if v[i] == x {
            return true;
        }
        i = i + 1;
    }
    false
}

/// The numbers `start`, ..., below `start + n`, in order.
fn index_range(start: usize, n: usize) -> (r: Vec<usize>)
    requires
        start + n <= usize::MAX,
    ensures
        r@ == index_run(start as int, n as int),
{
    let mut r: Vec<usize> = Vec::new();
    let mut k: usize = 0;
    while k < n
        invariant
            k <= n,
            start + n <= usize::MAX,
            r@ =~= index_run(start as int, k as int),
        decreases n - k,
    {
        r.push(start + k);
        k = k + 1;
    }
    r
}

impl<F: Copy> CanvasState<F> {
    /// Start editing the shape at the given index. Also selects only it.
    /// Ignored if the index is out of bounds.
    pub fn start_editing(&mut self, index: usize)
        requires
            old(self).wf(),
        ensures
            final(self).wf(),
            final(self)@ == editing_started(old(self)@, index),
    {
        if index < self.shapes.len() {
            self.editing = Some(index);
            self.selected = vec![index];
            assert(self.selected@ =~= seq![index]);
        }
    }

    /// Stop editing the current shape.
    pub fn stop_editing(&mut self)
        requires
            old(self).wf(),
        ensures
            final(self).wf(),
            final(self)@ == (CanvasView { editing: None, ..old(self)@ }),
    {
        self.editing = None;
    }

    /// Set the text of a shape at the given index; ignored out of bounds.
    pub fn set_shape_text(&mut self, index: usize, text: &str)
        requires
            old(self).wf(),
        ensures
            final(self).wf(),
            final(self)@ == text_set(old(self)@, index, text@),
    {
        if index < self.shapes.len() {
            let mut s = self.shapes[index].duplicate();
            s.set_text(text);
            proof {
                lemma_map_update(self.shapes@, index as int, s, |x: OvalShape<F>| x@);
            }
            self.shapes.set(index, s);
        }
    }

    /// Add a shape at the end, recording it for undo.
    pub fn add_shape(&mut self, shape: OvalShape<F>)
        requires
            old(self).wf(),
        ensures
            final(self).wf(),
            final(self)@ == record(
                CanvasView { shapes: old(self)@.shapes.push(shape@), ..old(self)@ },
                ActionView::AddShape { index: old(self)@.shapes.len() as usize, data: shape@ },
            ),
    {
        let data = shape.duplicate();
        let index = self.shapes.len();
        proof {
            lemma_map_push(self.shapes@, shape, |x: OvalShape<F>| x@);
        }
        self.shapes.push(shape);
        let a = UndoAction::AddShape { index, data };
        proof {
            lemma_map_push(self.undo_stack@, a, |x: UndoAction<F>| x@);
        }
        self.undo_stack.push(a);
        self.redo_stack.clear();
        proof {
            assert(self@.redo =~= Seq::<ActionView<F>>::empty());
            assert(self@.undo == old(self)@.undo.push(a@));
            assert forall|i: int| 0 <= i < self@.undo.len() implies action_wf(
                #[trigger] self@.undo[i],
            ) by {
                if i < old(self)@.undo.len() {
                    assert(self@.undo[i] == old(self)@.undo[i]);
                }
            }
        }
    }

    /// Select the shape `hit` (the topmost one under the pointer, found by the
    /// caller), or deselect all when it is `None`. Replaces any existing
    /// selection. Clears editing state if the selection changes.
    pub fn select_hit(&mut self, hit: Option<usize>)
        requires
            old(self).wf(),
        ensures
            final(self).wf(),
            final(self)@ == hit_selected(old(self)@, hit),
    {
        if hit != self.editing {
            self.editing = None;
        }
        let mut sel: Vec<usize> = Vec::new();
        if let Some(i) = hit {
            sel.push(i);
        }
        self.selected = sel;
        self.selected_connectors.clear();
        proof {
            assert(self@.selected =~= match hit {
                Some(i) => seq![i],
                None => Seq::<usize>::empty(),
            });
            assert(self@.selected_connectors =~= Seq::<usize>::empty());
        }
    }

    /// Select all shapes and connectors on the canvas.
    pub fn select_all(&mut self)
        requires
            old(self).wf(),
        ensures
            final(self).wf(),
            final(self)@ == all_selected(old(self)@),
    {
        self.selected = index_range(0, self.shapes.len());
        self.selected_connectors = index_range(0, self.connectors.len());
        self.editing = None;
    }

    /// Replace the selection with the given shapes and connectors (the ones the
    /// caller found inside a marquee rectangle), and stop editing.
    pub fn select_indices(&mut self, shapes: Vec<usize>, connectors: Vec<usize>)
        requires
            old(self).wf(),
            strictly_increasing(shapes@),
        ensures
            final(self).wf(),
            final(self)@ == indices_selected(old(self)@, shapes@, connectors@),
    {
        self.selected = shapes;
        self.selected_connectors = connectors;
        self.editing = None;
    }

    /// Replace the connector selection.
    pub fn set_selected_connectors(&mut self, connectors: Vec<usize>)
        requires
            old(self).wf(),
        ensures
            final(self).wf(),
            final(self)@ == (CanvasView { selected_connectors: connectors@, ..old(self)@ }),
    {
        self.selected_connectors = connectors;
    }
}

/// How many elements of `s` are below `x`.
pub open spec fn count_below(s: Seq<usize>, x: int) -> nat
    decreases s.len(),
{
    if s.len() == 0 {
        0
    } else {
        count_below(s.drop_last(), x) + if (s.last() as int) < x {
            1nat
        } else {
            0nat
        }
    }
}

/// In an increasing sequence, the elements below `x` are the first `p`
/// when `s[p]` is the first element above `x` (or `p` is the length).
proof fn lemma_count_below_prefix(s: Seq<usize>, x: int, p: int)
    requires
        strictly_increasing(s),
        0 <= p <= s.len(),
        forall|j: int| 0 <= j < p ==> (s[j] as int) < x,
        forall|j: int| p <= j < s.len() ==> (s[j] as int) > x,
    ensures
        count_below(s, x) == p,
    decreases s.len(),
{
    if s.len() > 0 {
        let t = s.drop_last();
        if p == s.len() {
            lemma_count_below_prefix(t, x, p - 1);
        } else {
            lemma_count_below_prefix(t, x, p);
        }
    }
}

/// The shape selection after toggling `idx`: removed when present, otherwise
/// added in its place in the order.
pub open spec fn toggled(sel: Seq<usize>, idx: usize) -> Seq<usize> {
    if sel.contains(idx) {
        sel.remove(choose|p: int| 0 <= p < sel.len() && sel[p] == idx)
    } else {
        sel.insert(count_below(sel, idx as int) as int, idx)
    }
}

/// The state after one selected shape is moved to a new center, recorded for undo.
pub open spec fn moved_one<F>(v: CanvasView<F>, idx: usize, c: (F, F)) -> CanvasView<F> {
    record(
        CanvasView {
            shapes: v.shapes.update(
                idx as int,
                ShapeView { center_x: c.0, center_y: c.1, ..v.shapes[idx as int] },
            ),
            ..v
        },
        ActionView::MoveShape { index: idx, old_data: v.shapes[idx as int] },
    )
}

/// The state after the first `k` selected shapes are moved, one undo entry each.
pub open spec fn moved_selected<F>(v: CanvasView<F>, centers: Seq<(F, F)>, k: nat) -> CanvasView<F>
    decreases k,
{
    if k == 0 {
        v
    } else {
        moved_one(moved_selected(v, centers, (k - 1) as nat), v.selected[k - 1], centers[k - 1])
    }
}

proof fn lemma_record_wf<F>(v: CanvasView<F>, a: ActionView<F>)
    requires
        canvas_wf(v),
        action_wf(a),
    ensures
        canvas_wf(record(v, a)),
{
    let r = record(v, a);
    assert forall|i: int| 0 <= i < r.undo.len() implies action_wf(#[trigger] r.undo[i]) by {
        if i < v.undo.len() {
            assert(r.undo[i] == v.undo[i]);
        }
    }
}

proof fn lemma_moved_selected_shape<F>(v: CanvasView<F>, centers: Seq<(F, F)>, k: nat)
    requires
        k <= v.selected.len(),
        canvas_wf(v),
        forall|j: int| 0 <= j < v.selected.len() ==> (#[trigger] v.selected[j] as int) < v.shapes.len(),
    ensures
        moved_selected(v, centers, k).shapes.len() == v.shapes.len(),
        moved_selected(v, centers, k).selected == v.selected,
        canvas_wf(moved_selected(v, centers, k)),
        k > 0 ==> moved_selected(v, centers, k).redo.len() == 0,
    decreases k,
{
    if k > 0 {
        lemma_moved_selected_shape(v, centers, (k - 1) as nat);
        let p = moved_selected(v, centers, (k - 1) as nat);
        lemma_record_wf(
            CanvasView {
                shapes: p.shapes.update(
                    v.selected[k - 1] as int,
                    ShapeView {
                        center_x: centers[k - 1].0,
                        center_y: centers[k - 1].1,
                        ..p.shapes[v.selected[k - 1] as int]
                    },
                ),
                ..p
            },
            ActionView::MoveShape {
                index: v.selected[k - 1],
                old_data: p.shapes[v.selected[k - 1] as int],
            },
        );
    }
}

impl<F: Copy> CanvasState<F> {
    fn push_undo(&mut self, a: UndoAction<F>)
        requires
            old(self).wf(),
            action_wf(a@),
        ensures
            final(self)@ == record(old(self)@, a@),
            final(self).wf(),
    {
        proof {
            lemma_map_push(self.undo_stack@, a, |x: UndoAction<F>| x@);
        }
        self.undo_stack.push(a);
        self.redo_stack.clear();
        proof {
            assert(self@.redo =~= Seq::<ActionView<F>>::empty());
            lemma_record_wf(old(self)@, a@);
        }
    }

    /// Toggle the shape `hit` (the topmost one under the pointer, found by the
    /// caller) in or out of the selection, and stop editing.
    pub fn toggle_selection(&mut self, hit: Option<usize>)
        requires
            old(self).wf(),
        ensures
            final(self).wf(),
            final(self)@ == toggled_at(old(self)@, hit),
    {
        if let Some(idx) = hit {
            let mut p: usize = 0;
            while p < self.selected.len()
                invariant
                    p <= self.selected@.len(),
                    self.selected@ == old(self)@.selected,
                    forall|j: int| 0 <= j < p ==> self.selected@[j] < idx,
                ensures
                    p <= self.selected@.len(),
                    self.selected@ == old(self)@.selected,
                    forall|j: int| 0 <= j < p ==> self.selected@[j] < idx,
                    p < self.selected@.len() ==> self.selected@[p as int] >= idx,
                decreases self.selected@.len() - p,
            {
                if self.selected[p] >= idx {
                    break;
                }
                p = p + 1;
            }
            let ghost sel = self.selected@;
            if p < self.selected.len() && self.selected[p] == idx {
                self.selected.remove(p);
                proof {
                    assert(sel.contains(idx));
                    let q = choose|q: int| 0 <= q < sel.len() && sel[q] == idx;
                    assert(q == p as int) by {
                        if q < p as int {
                            assert(sel[q] < idx);
                        } else if q > p as int {
                            assert(sel[p as int] < sel[q]);
                        }
                    }
                    assert forall|i: int, j: int|
                        0 <= i < j < self.selected@.len() implies self.selected@[i]
                        < self.selected@[j] by {
                        if j < p {
                        } else if i < p {
                            assert(self.selected@[j] == sel[j + 1]);
                        } else {
                            assert(self.selected@[i] == sel[i + 1]);
                            assert(self.selected@[j] == sel[j + 1]);
                        }
                    }
                }
            } else {
                proof {
                    assert forall|j: int| p <= j < sel.len() implies (sel[j] as int) > idx by {
                        if j > p {
                            assert(sel[p as int] < sel[j]);
                        }
                    }
                    lemma_count_below_prefix(sel, idx as int, p as int);
                    assert(!sel.contains(idx));
                }
                self.selected.insert(p, idx);
                proof {
                    assert forall|i: int, j: int|
                        0 <= i < j < self.selected@.len() implies self.selected@[i]
                        < self.selected@[j] by {
                        if j < p {
                        } else if j == p {
                        } else if i < p {
                            assert(self.selected@[j] == sel[j - 1]);
                            if j - 1 > p {
                                assert(sel[p as int] < sel[j - 1]);
                            }
                        } else if i == p {
                            assert(self.selected@[j] == sel[j - 1]);
                            if j - 1 > p {
                                assert(sel[p as int] < sel[j - 1]);
                            }
                        } else {
                            assert(self.selected@[i] == sel[i - 1]);
                            assert(self.selected@[j] == sel[j - 1]);
                        }
                    }
                }
            }
        }
        self.editing = None;
    }

    /// Add a connector from `source` to `target` with the given curvature,
    /// recording it for undo.
    pub fn add_connector(&mut self, source: usize, target: usize, curvature: F)
        requires
            old(self).wf(),
        ensures
            final(self).wf(),
            final(self)@ == connector_added(old(self)@, source, target, curvature),
    {
        let index = self.connectors.len();
        let c = Connector::with_curvature(source, target, curvature);
        proof {
            lemma_map_push(self.connectors@, c, |x: Connector<F>| x@);
        }
        let data = c.duplicate();
        self.connectors.push(c);
        self.push_undo(UndoAction::AddConnector { index, data });
    }

    /// Remove the connector at `index`, recording it for undo.
    pub fn remove_connector(&mut self, index: usize)
        requires
            old(self).wf(),
            index < old(self)@.connectors.len(),
        ensures
            final(self).wf(),
            final(self)@ == record(
                CanvasView { connectors: old(self)@.connectors.remove(index as int), ..old(self)@ },
                ActionView::RemoveConnector {
                    index,
                    data: old(self)@.connectors[index as int],
                },
            ),
    {
        let data = self.connectors[index].duplicate();
        proof {
            lemma_map_remove(self.connectors@, index as int, |x: Connector<F>| x@);
        }
        self.connectors.remove(index);
        self.push_undo(UndoAction::RemoveConnector { index, data });
    }

    /// Set the curvature of the connector at `index`; ignored out of bounds.
    pub fn set_connector_curvature(&mut self, index: usize, curvature: F)
        requires
            old(self).wf(),
        ensures
            final(self).wf(),
            final(self)@ == curvature_set(old(self)@, index, curvature),
    {
        if index < self.connectors.len() {
            let mut c = self.connectors[index].duplicate();
            c.set_curvature(curvature);
            proof {
                lemma_map_update(self.connectors@, index as int, c, |x: Connector<F>| x@);
            }
            self.connectors.set(index, c);
        }
    }

    /// Begin a resize operation. Snapshots the first selected shape for undo.
    pub fn begin_resize(&mut self)
        requires
            old(self).wf(),
            old(self)@.selected.len() > 0 ==> old(self)@.selected[0] < old(self)@.shapes.len(),
        ensures
            final(self).wf(),
            final(self)@ == resize_begun(old(self)@),
    {
        if self.selected.len() > 0 {
            let index = self.selected[0];
            let data = self.shapes[index].duplicate();
            self.resize_pre_data = Some((index, data));
        }
    }

    /// The index of the shape being resized, if a resize is in progress.
    pub fn resize_target(&self) -> (r: Option<usize>)
        ensures
            r == match self@.resize_pre {
                Some(p) => Some(p.0),
                None => None::<usize>,
            },
    {
        match &self.resize_pre_data {
            Some(p) => Some(p.0),
            None => None,
        }
    }

    /// Replace the shape at `index` (the resized shape during a resize), with
    /// no undo entry.
    pub fn replace_shape(&mut self, index: usize, shape: OvalShape<F>)
        requires
            old(self).wf(),
            index < old(self)@.shapes.len(),
        ensures
            final(self).wf(),
            final(self)@ == (CanvasView {
                shapes: old(self)@.shapes.update(index as int, shape@),
                ..old(self)@
            }),
    {
        proof {
            lemma_map_update(self.shapes@, index as int, shape, |x: OvalShape<F>| x@);
        }
        self.shapes.set(index, shape);
    }

    /// Commit the resize, pushing a single undo entry.
    pub fn commit_resize(&mut self)
        requires
            old(self).wf(),
        ensures
            final(self).wf(),
            final(self)@ == resize_committed(old(self)@),
    {
        if let Some(p) = self.resize_pre_data.take() {
            let (index, old_data) = p;
            self.push_undo(UndoAction::ResizeShape { index, old_data });
        }
    }

    /// Move the selected shapes to the given centers (one per selected shape,
    /// in selection order), each move recorded as its own undo entry.
    pub fn move_selected_to(&mut self, centers: Vec<(F, F)>)
        requires
            old(self).wf(),
            centers@.len() == old(self)@.selected.len(),
            forall|j: int|
                0 <= j < old(self)@.selected.len() ==> (#[trigger] old(self)@.selected[j] as int)
                    < old(self)@.shapes.len(),
        ensures
            final(self).wf(),
            final(self)@ == moved_selected(old(self)@, centers@, centers@.len()),
    {
        let mut k: usize = 0;
        while k < self.selected.len()
            invariant
                k <= old(self)@.selected.len(),
                centers@.len() == old(self)@.selected.len(),
                canvas_wf(old(self)@),
                forall|j: int|
                    0 <= j < old(self)@.selected.len() ==> (#[trigger] old(self)@.selected[j]
                        as int) < old(self)@.shapes.len(),
                self@ == moved_selected(old(self)@, centers@, k as nat),
            decreases old(self)@.selected.len() - k,
        {
            proof {
                lemma_moved_selected_shape(old(self)@, centers@, k as nat);
            }
            let index = self.selected[k];
            let old_data = self.shapes[index].duplicate();
            let mut moved = self.shapes[index].duplicate();
            let c = centers[k];
            moved.move_to(c.0, c.1);
            proof {
                lemma_map_update(self.shapes@, index as int, moved, |x: OvalShape<F>| x@);
            }
            let ghost pre = self@;
            self.shapes.set(index, moved);
            assert(self@.selected == pre.selected && self@.undo == pre.undo && self@.redo
                == pre.redo);
            self.push_undo(UndoAction::MoveShape { index, old_data });
            k = k + 1;
        }
        proof {
            lemma_moved_selected_shape(old(self)@, centers@, k as nat);
        }
    }
}

/// The connector at `ci` goes with a delete: it is selected, or one of its
/// ends is a selected shape.
pub open spec fn doomed<F>(v: CanvasView<F>, ci: int) -> bool {
    let c = v.connectors[ci];
    v.selected_connectors.contains(ci as usize) || v.selected.contains(c.source)
        || v.selected.contains(c.target)
}

/// The connectors from position `lo` on that a delete keeps, in order.
pub open spec fn kept_connectors<F>(v: CanvasView<F>, lo: int) -> Seq<ConnectorView<F>>
    decreases v.connectors.len() - lo,
{
    if lo < 0 || lo >= v.connectors.len() {
        Seq::empty()
    } else {
        (if doomed(v, lo) {
            Seq::empty()
        } else {
            seq![v.connectors[lo]]
        }) + kept_connectors(v, lo + 1)
    }
}

/// The connectors from position `lo` on that a delete removes, with their
/// positions, highest position first.
pub open spec fn doomed_connectors<F>(v: CanvasView<F>, lo: int) -> Seq<(usize, ConnectorView<F>)>
    decreases v.connectors.len() - lo,
{
    if lo < 0 || lo >= v.connectors.len() {
        Seq::empty()
    } else {
        doomed_connectors(v, lo + 1) + if doomed(v, lo) {
            seq![(lo as usize, v.connectors[lo])]
        } else {
            Seq::empty()
        }
    }
}

/// An endpoint index after the deleted indices `d` (increasing) are taken out:
/// walking `d` from the highest down, the index drops by one past each.
pub open spec fn shift_down(d: Seq<usize>, x: int) -> int
    decreases d.len(),
{
    if d.len() == 0 {
        x
    } else {
        shift_down(
            d.drop_last(),
            if x > d.last() {
                x - 1
            } else {
                x
            },
        )
    }
}

/// An endpoint index after the indices `d` (increasing) are put back: walking
/// `d` from the lowest up, the index rises by one at or past each.
pub open spec fn shift_up(d: Seq<usize>, x: int) -> int
    decreases d.len(),
{
    if d.len() == 0 {
        x
    } else {
        shift_up(
            d.drop_first(),
            if x >= d[0] {
                x + 1
            } else {
                x
            },
        )
    }
}

pub open spec fn remap_down<F>(c: ConnectorView<F>, d: Seq<usize>) -> ConnectorView<F> {
    ConnectorView {
        source: shift_down(d, c.source as int) as usize,
        target: shift_down(d, c.target as int) as usize,
        curvature: c.curvature,
    }
}

pub open spec fn remap_up<F>(c: ConnectorView<F>, d: Seq<usize>) -> ConnectorView<F> {
    ConnectorView {
        source: shift_up(d, c.source as int) as usize,
        target: shift_up(d, c.target as int) as usize,
        curvature: c.curvature,
    }
}

/// The shapes left after removing the positions in `d`, highest first.
pub open spec fn remove_desc<T>(s: Seq<T>, d: Seq<usize>) -> Seq<T>
    decreases d.len(),
{
    if d.len() == 0 {
        s
    } else {
        remove_desc(s.remove(d.last() as int), d.drop_last())
    }
}

/// The shapes removed at the positions in `d`, highest first, with their positions.
pub open spec fn removed_desc<T>(s: Seq<T>, d: Seq<usize>) -> Seq<(usize, T)>
    decreases d.len(),
{
    if d.len() == 0 {
        Seq::empty()
    } else {
        seq![(d.last(), s[d.last() as int])] + removed_desc(s.remove(d.last() as int), d.drop_last())
    }
}

/// The effect of deleting the selected shapes: the connectors that are selected
/// or touch a selected shape are removed, the remaining connectors' endpoints
/// are renumbered, the shapes are removed, selection and editing are cleared,
/// and one undo entry records what was removed.
pub open spec fn deleted_selected<F>(v: CanvasView<F>) -> CanvasView<F> {
    if v.selected.len() == 0 {
        v
    } else {
        let d = v.selected;
        CanvasView {
            shapes: remove_desc(v.shapes, d),
            connectors: kept_connectors(v, 0).map_values(|c: ConnectorView<F>| remap_down(c, d)),
            selected: Seq::empty(),
            selected_connectors: Seq::empty(),
            editing: None,
            undo: v.undo.push(
                ActionView::DeleteShapes {
                    shapes: removed_desc(v.shapes, d),
                    removed_connectors: doomed_connectors(v, 0),
                },
            ),
            redo: Seq::empty(),
            resize_pre: v.resize_pre,
        }
    }
}

/// In an increasing sequence, elements `b - a` apart differ by at least `b - a`.
proof fn lemma_strict_gap(d: Seq<usize>, a: int, b: int)
    requires
        strictly_increasing(d),
        0 <= a <= b < d.len(),
    ensures
        d[a] + (b - a) <= d[b],
    decreases b - a,
{
    if a < b {
        lemma_strict_gap(d, a, b - 1);
        assert(d[b - 1] < d[b]);
    }
}

/// Walking down the sequence only lowers an index, and never below 0.
proof fn lemma_shift_down_bounds(d: Seq<usize>, x: int)
    requires
        x >= 0,
    ensures
        0 <= shift_down(d, x) <= x,
    decreases d.len(),
{
    if d.len() > 0 {
        lemma_shift_down_bounds(d.drop_last(), if x > d.last() { x - 1 } else { x });
    }
}

/// `shift_down` for one index, as the delete loop computes it.
fn shift_down_index(d: &Vec<usize>, x: usize) -> (r: usize)
    ensures
        r == shift_down(d@, x as int),
{
    let mut val = x;
    let mut j = d.len();
    assert(d@.take(j as int) =~= d@);
    while j > 0
        invariant
            j <= d@.len(),
            val <= x,
            shift_down(d@, x as int) == shift_down(d@.take(j as int), val as int),
        decreases j,
    {
        assert(d@.take(j as int).drop_last() =~= d@.take(j - 1));
        assert(d@.take(j as int).last() == d@[j - 1]);
        if val > d[j - 1] {
            val = val - 1;
        }
        j = j - 1;
    }
    assert(d@.take(0) =~= Seq::<usize>::empty());
    val
}

impl<F: Copy> CanvasState<F> {
    /// Delete all selected shapes. Single undo entry restores them all.
    /// Also removes any connectors referencing deleted shapes and reindexes remaining.
    pub fn delete_selected(&mut self)
        requires
            old(self).wf(),
            forall|j: int|
                0 <= j < old(self)@.selected.len() ==> (#[trigger] old(self)@.selected[j] as int)
                    < old(self)@.shapes.len(),
        ensures
            final(self).wf(),
            final(self)@ == deleted_selected(old(self)@),
    {
        if self.selected.len() == 0 {
            return;
        }
        let ghost v = old(self)@;
        let ghost d = v.selected;
        let ghost oc = v.connectors;
        // The selection is kept in increasing order, so it serves as the sorted
        // list of indices to delete.
        let mut removed_connectors: Vec<(usize, Connector<F>)> = Vec::new();
        let mut i = self.connectors.len();
        proof {
            assert(oc.take(i as int) =~= oc);
            assert(oc.take(i as int) + kept_connectors(v, i as int) =~= oc);
        }
        while i > 0
            invariant
                v == old(self)@,
                d == v.selected,
                oc == v.connectors,
                i <= oc.len(),
                self.selected@ == d,
                self.selected_connectors@ == v.selected_connectors,
                self@.shapes == v.shapes,
                self@.undo == v.undo,
                self@.redo == v.redo,
                self@.editing == v.editing,
                self@.resize_pre == v.resize_pre,
                connector_values(self.connectors@) == oc.take(i as int) + kept_connectors(
                    v,
                    i as int,
                ),
                removed_connector_values(removed_connectors@) == doomed_connectors(v, i as int),
            decreases i,
        {
            let ci = i - 1;
            let ghost cur = connector_values(self.connectors@);
            assert(cur.len() == self.connectors@.len());
            assert(cur[ci as int] == oc[ci as int]);
            let source = self.connectors[ci].source();
            let target = self.connectors[ci].target();
            let hit = contains_index(&self.selected_connectors, ci) || contains_index(
                &self.selected,
                source,
            ) || contains_index(&self.selected, target);
            assert(hit == doomed(v, ci as int));
            if hit {
                let data = self.connectors[ci].duplicate();
                proof {
                    lemma_map_remove(self.connectors@, ci as int, |x: Connector<F>| x@);
                    lemma_map_push(
                        removed_connectors@,
                        (ci, data),
                        |p: (usize, Connector<F>)| (p.0, p.1@),
                    );
                }
                self.connectors.remove(ci);
                removed_connectors.push((ci, data));
                proof {
                    assert(connector_values(self.connectors@) =~= oc.take(ci as int)
                        + kept_connectors(v, ci as int));
                }
            } else {
                proof {
                    assert(connector_values(self.connectors@) =~= oc.take(ci as int)
                        + kept_connectors(v, ci as int));
                }
            }
            i = ci;
        }
        let ghost kept = kept_connectors(v, 0);
        assert(oc.take(0) =~= Seq::<ConnectorView<F>>::empty());
        assert(connector_values(self.connectors@) =~= kept);
        let mut k: usize = 0;
        while k < self.connectors.len()
            invariant
                v == old(self)@,
                d == v.selected,
                self.selected@ == d,
                k <= kept.len(),
                kept == kept_connectors(v, 0),
                self.selected_connectors@ == v.selected_connectors,
                self@.shapes == v.shapes,
                self@.undo == v.undo,
                self@.redo == v.redo,
                self@.editing == v.editing,
                self@.resize_pre == v.resize_pre,
                self.connectors@.len() == kept.len(),
                forall|j: int|
                    0 <= j < k ==> #[trigger] connector_values(self.connectors@)[j] == remap_down(
                        kept[j],
                        d,
                    ),
                forall|j: int|
                    k <= j < kept.len() ==> #[trigger] connector_values(self.connectors@)[j]
                        == kept[j],
            decreases kept.len() - k,
        {
            let c = self.connectors[k].duplicate();
            proof {
                assert(connector_values(self.connectors@)[k as int] == c@);
                lemma_shift_down_bounds(d, c@.source as int);
                lemma_shift_down_bounds(d, c@.target as int);
            }
            let s = shift_down_index(&self.selected, c.source());
            let t = shift_down_index(&self.selected, c.target());
            let nc = Connector::with_curvature(s, t, c.curvature());
            proof {
                lemma_map_update(self.connectors@, k as int, nc, |x: Connector<F>| x@);
            }
            self.connectors.set(k, nc);
            k = k + 1;
        }
        assert(connector_values(self.connectors@) =~= kept.map_values(
            |c: ConnectorView<F>| remap_down(c, d),
        ));
        let ghost os = v.shapes;
        let mut removed: Vec<(usize, OvalShape<F>)> = Vec::new();
        let mut j = self.selected.len();
        proof {
            assert(d.take(j as int) =~= d);
        }
        while j > 0
            invariant
                v == old(self)@,
                d == v.selected,
                os == v.shapes,
                self.selected@ == d,
                strictly_increasing(d),
                forall|q: int| 0 <= q < d.len() ==> (#[trigger] d[q] as int) < os.len(),
                j <= d.len(),
                shape_values(self.shapes@).len() == os.len() - (d.len() - j),
                remove_desc(os, d) == remove_desc(shape_values(self.shapes@), d.take(j as int)),
                removed_desc(os, d) == removed_values(removed@) + removed_desc(
                    shape_values(self.shapes@),
                    d.take(j as int),
                ),
                removed@.len() == d.len() - j,
                forall|q: int| 0 <= q < removed@.len() ==> (#[trigger] removed@[q]).0 == d[d.len() - 1 - q],
                connector_values(self.connectors@) == kept.map_values(
                    |c: ConnectorView<F>| remap_down(c, d),
                ),
                kept == kept_connectors(v, 0),
                removed_connector_values(removed_connectors@) == doomed_connectors(v, 0),
                self.selected_connectors@ == v.selected_connectors,
                self@.undo == v.undo,
                self@.redo == v.redo,
                self@.editing == v.editing,
                self@.resize_pre == v.resize_pre,
            decreases j,
        {
            let idx = self.selected[j - 1];
            proof {
                lemma_strict_gap(d, j - 1, d.len() - 1);
                assert(d.take(j as int).drop_last() =~= d.take(j - 1));
                assert(d.take(j as int).last() == d[j - 1]);
            }
            let data = self.shapes[idx].duplicate();
            proof {
                lemma_map_remove(self.shapes@, idx as int, |x: OvalShape<F>| x@);
                lemma_map_push(removed@, (idx, data), |p: (usize, OvalShape<F>)| (p.0, p.1@));
            }
            self.shapes.remove(idx);
            removed.push((idx, data));
            j = j - 1;
        }
        assert(d.take(0) =~= Seq::<usize>::empty());
        self.selected.clear();
        self.selected_connectors.clear();
        self.editing = None;
        let a = UndoAction::DeleteShapes { shapes: removed, removed_connectors };
        proof {
            assert forall|p: int, q: int| 0 <= p < q < removed@.len() implies removed@[p].0
                > removed@[q].0 by {
                assert(d[d.len() - 1 - q] < d[d.len() - 1 - p]);
            }
            assert(self@.selected =~= Seq::<usize>::empty());
            assert(self@.selected_connectors =~= Seq::<usize>::empty());
            assert(removed_desc(os, d) =~= removed_values(removed@));
        }
        self.push_undo(a);
    }
}

/// Connector reference in clipboard data, with indices relative to the copied shape set.
pub struct ClipboardConnector<F> {
    pub source: usize,
    pub target: usize,
    pub curvature: F,
}

/// Clipboard contents for copy/paste: shapes and the connectors between them.
pub struct ClipboardData<F> {
    pub shapes: Vec<OvalShape<F>>,
    pub connectors: Vec<ClipboardConnector<F>>,
}

/// Clipboard contents by value.
pub struct ClipboardView<F> {
    pub shapes: Seq<ShapeView<F>>,
    pub connectors: Seq<ClipboardConnector<F>>,
}

impl<F> View for ClipboardData<F> {
    type V = ClipboardView<F>;

    open spec fn view(&self) -> ClipboardView<F> {
        ClipboardView { shapes: shape_values(self.shapes@), connectors: self.connectors@ }
    }
}

/// The position of `x` in `s`.
pub open spec fn position_of(s: Seq<usize>, x: usize) -> int {
    choose|p: int| 0 <= p < s.len() && s[p] == x
}

/// Both ends of the connector are selected shapes.
pub open spec fn between_selected<F>(sel: Seq<usize>, c: ConnectorView<F>) -> bool {
    sel.contains(c.source) && sel.contains(c.target)
}

/// A connector between selected shapes, its ends renumbered as positions in
/// the selection.
pub open spec fn clip_connector<F>(sel: Seq<usize>, c: ConnectorView<F>) -> ClipboardConnector<F> {
    ClipboardConnector {
        source: position_of(sel, c.source) as usize,
        target: position_of(sel, c.target) as usize,
        curvature: c.curvature,
    }
}

/// What copying the selection puts on the clipboard: the selected shapes in
/// selection order and the connectors between them, or nothing when no shape
/// is selected.
pub open spec fn copied<F>(v: CanvasView<F>) -> Option<ClipboardView<F>> {
    if v.selected.len() == 0 {
        None
    } else {
        Some(
            ClipboardView {
                shapes: v.selected.map_values(|i: usize| v.shapes[i as int]),
                connectors: v.connectors.filter(
                    |c: ConnectorView<F>| between_selected(v.selected, c),
                ).map_values(|c: ConnectorView<F>| clip_connector(v.selected, c)),
            },
        )
    }
}

/// A pasted connector, its ends renumbered to follow the shapes pasted at `start`.
pub open spec fn pasted_connector<F>(start: int, cc: ClipboardConnector<F>) -> ConnectorView<F> {
    ConnectorView {
        source: (start + cc.source) as usize,
        target: (start + cc.target) as usize,
        curvature: cc.curvature,
    }
}

/// The effect of pasting: the shapes and connectors are appended, become the
/// selection, and one undo entry records them. Nothing happens without shapes.
pub open spec fn pasted<F>(v: CanvasView<F>, shapes: Seq<ShapeView<F>>, connectors: Seq<ClipboardConnector<F>>) -> CanvasView<F> {
    if shapes.len() == 0 {
        v
    } else {
        let start = v.shapes.len() as int;
        let cs = v.connectors.len() as int;
        let new_conns = connectors.map_values(|cc: ClipboardConnector<F>| pasted_connector(start, cc));
        record(
            CanvasView {
                shapes: v.shapes + shapes,
                connectors: v.connectors + new_conns,
                selected: index_run(start, shapes.len() as int),
                selected_connectors: index_run(cs, connectors.len() as int),
                ..v
            },
            ActionView::PasteShapes {
                start_index: start as usize,
                shapes_data: shapes,
                conn_start_index: cs as usize,
                connectors_data: new_conns,
            },
        )
    }
}

/// The position of `x` in an increasing sequence that contains it.
fn position_index(s: &Vec<usize>, x: usize) -> (p: usize)
    requires
        strictly_increasing(s@),
        s@.contains(x),
    ensures
        p == position_of(s@, x),
        p < s@.len(),
        s@[p as int] == x,
{
    let mut p: usize = 0;
    while p < s.len()
        invariant
            p <= s@.len(),
            strictly_increasing(s@),
            forall|j: int| 0 <= j < p ==> s@[j] != x,
        decreases s@.len() - p,
    {
        if s[p] == x {
            proof {
                let q = position_of(s@, x);
                assert(0 <= q < s@.len() && s@[q] == x);
                if q < p as int {
                } else if q > p as int {
                    assert(s@[p as int] < s@[q]);
                }
            }
            return p;
        }
        p = p + 1;
    }
    assert(false);
    0
}

impl<F: Copy> CanvasState<F> {
    /// The selected shapes and the connectors between them, ready to be
    /// written to the clipboard; `None` when nothing is selected.
    pub fn copy_selected_data(&self) -> (r: Option<ClipboardData<F>>)
        requires
            self.wf(),
            forall|j: int|
                0 <= j < self@.selected.len() ==> (#[trigger] self@.selected[j] as int)
                    < self@.shapes.len(),
        ensures
            match r {
                Some(d) => copied(self@) == Some(d@),
                None => copied(self@) is None,
            },
    {
        if self.selected.len() == 0 {
            return None;
        }
        let ghost v = self@;
        let ghost sel = v.selected;
        let mut shapes: Vec<OvalShape<F>> = Vec::new();
        let mut k: usize = 0;
        while k < self.selected.len()
            invariant
                v == self@,
                sel == v.selected,
                k <= sel.len(),
                forall|j: int| 0 <= j < sel.len() ==> (#[trigger] sel[j] as int) < v.shapes.len(),
                shape_values(shapes@) =~= sel.take(k as int).map_values(
                    |i: usize| v.shapes[i as int],
                ),
            decreases sel.len() - k,
        {
            let i = self.selected[k];
            let s = self.shapes[i].duplicate();
            proof {
                lemma_map_push(shapes@, s, |x: OvalShape<F>| x@);
                assert(sel.take(k + 1) =~= sel.take(k as int).push(i));
            }
            shapes.push(s);
            k = k + 1;
        }
        assert(sel.take(k as int) =~= sel);
        let ghost pred = |c: ConnectorView<F>| between_selected(sel, c);
        let ghost conns = v.connectors;
        let mut out: Vec<ClipboardConnector<F>> = Vec::new();
        let mut ci: usize = 0;
        while ci < self.connectors.len()
            invariant
                v == self@,
                sel == v.selected,
                conns == v.connectors,
                strictly_increasing(sel),
                ci <= conns.len(),
                pred == (|c: ConnectorView<F>| between_selected(sel, c)),
                out@ =~= conns.take(ci as int).filter(pred).map_values(
                    |c: ConnectorView<F>| clip_connector(sel, c),
                ),
            decreases conns.len() - ci,
        {
            proof {
                assert(conns.take(ci + 1).drop_last() =~= conns.take(ci as int));
                assert(conns.take(ci + 1).last() == conns[ci as int]);
                lemma_filter_step(conns, ci as int, pred);
            }
            let c = self.connectors[ci].duplicate();
            assert(c@ == conns[ci as int]);
            if contains_index(&self.selected, c.source()) && contains_index(
                &self.selected,
                c.target(),
            ) {
                let sp = position_index(&self.selected, c.source());
                let tp = position_index(&self.selected, c.target());
                out.push(ClipboardConnector { source: sp, target: tp, curvature: c.curvature() });
                proof {
                    assert(conns.take(ci + 1).filter(pred) == conns.take(ci as int).filter(
                        pred,
                    ).push(c@));
                }
            } else {
                proof {
                    assert(conns.take(ci + 1).filter(pred) == conns.take(ci as int).filter(pred));
                }
            }
            ci = ci + 1;
        }
        assert(conns.take(ci as int) =~= conns);
        Some(ClipboardData { shapes, connectors: out })
    }

    /// Paste shapes and connectors (connector ends numbered within the pasted
    /// shapes). They are appended, selected, and recorded as one undo entry.
    /// Nothing happens when there are no shapes.
    pub fn paste_data(&mut self, shapes: Vec<OvalShape<F>>, connectors: Vec<ClipboardConnector<F>>)
        requires
            old(self).wf(),
            forall|j: int|
                0 <= j < connectors@.len() ==> old(self)@.shapes.len() + (#[trigger] connectors@[j]).source
                    <= usize::MAX && old(self)@.shapes.len() + connectors@[j].target <= usize::MAX,
        ensures
            final(self).wf(),
            final(self)@ == pasted(old(self)@, shape_values(shapes@), connectors@),
    {
        if shapes.len() == 0 {
            return;
        }
        let ghost v = old(self)@;
        let ghost sv = shape_values(shapes@);
        let start = self.shapes.len();
        let count = shapes.len();
        let mut pasted_data: Vec<OvalShape<F>> = Vec::new();
        let mut k: usize = 0;
        while k < count
            invariant
                v == old(self)@,
                sv == shape_values(shapes@),
                count == shapes@.len(),
                start == v.shapes.len(),
                k <= count,
                shape_values(self.shapes@) =~= v.shapes + sv.take(k as int),
                shape_values(pasted_data@) =~= sv.take(k as int),
                self@.connectors == v.connectors,
                self@.selected == v.selected,
                self@.selected_connectors == v.selected_connectors,
                self@.undo == v.undo,
                self@.redo == v.redo,
                self@.editing == v.editing,
                self@.resize_pre == v.resize_pre,
            decreases count - k,
        {
            let a = shapes[k].duplicate();
            let b = shapes[k].duplicate();
            proof {
                lemma_map_push(self.shapes@, a, |x: OvalShape<F>| x@);
                lemma_map_push(pasted_data@, b, |x: OvalShape<F>| x@);
                assert(sv.take(k + 1) =~= sv.take(k as int).push(sv[k as int]));
            }
            self.shapes.push(a);
            pasted_data.push(b);
            k = k + 1;
        }
        assert(sv.take(count as int) =~= sv);
        let total = self.shapes.len();
        assert(total == start + count);
        self.selected = index_range(start, count);
        let conn_start = self.connectors.len();
        let m = connectors.len();
        let ghost newc = connectors@.map_values(
            |cc: ClipboardConnector<F>| pasted_connector(start as int, cc),
        );
        let mut pasted_connectors: Vec<Connector<F>> = Vec::new();
        let mut q: usize = 0;
        while q < m
            invariant
                v == old(self)@,
                m == connectors@.len(),
                conn_start == v.connectors.len(),
                start == v.shapes.len(),
                q <= m,
                newc == connectors@.map_values(
                    |cc: ClipboardConnector<F>| pasted_connector(start as int, cc),
                ),
                forall|j: int|
                    0 <= j < connectors@.len() ==> start + (#[trigger] connectors@[j]).source
                        <= usize::MAX && start + connectors@[j].target <= usize::MAX,
                connector_values(self.connectors@) =~= v.connectors + newc.take(q as int),
                connector_values(pasted_connectors@) =~= newc.take(q as int),
                shape_values(self.shapes@) =~= v.shapes + sv,
                self@.selected == index_run(start as int, count as int),
                self@.selected_connectors == v.selected_connectors,
                self@.undo == v.undo,
                self@.redo == v.redo,
                self@.editing == v.editing,
                self@.resize_pre == v.resize_pre,
            decreases m - q,
        {
            let cc = &connectors[q];
            let a = Connector::with_curvature(start + cc.source, start + cc.target, cc.curvature);
            let b = a.duplicate();
            proof {
                lemma_map_push(self.connectors@, a, |x: Connector<F>| x@);
                lemma_map_push(pasted_connectors@, b, |x: Connector<F>| x@);
                assert(newc.take(q + 1) =~= newc.take(q as int).push(newc[q as int]));
            }
            self.connectors.push(a);
            pasted_connectors.push(b);
            q = q + 1;
        }
        assert(newc.take(m as int) =~= newc);
        let ctotal = self.connectors.len();
        assert(ctotal == conn_start + m);
        self.selected_connectors = index_range(conn_start, m);
        let a = UndoAction::PasteShapes {
            start_index: start,
            shapes_data: pasted_data,
            conn_start_index: conn_start,
            connectors_data: pasted_connectors,
        };
        self.push_undo(a);
    }
}

/// Removes the element at `start` up to `n` times, while there is one.
pub open spec fn remove_run<T>(s: Seq<T>, start: int, n: nat) -> Seq<T>
    decreases n,
{
    if n == 0 {
        s
    } else {
        remove_run(
            if start < s.len() {
                s.remove(start)
            } else {
                s
            },
            start,
            (n - 1) as nat,
        )
    }
}

/// Both ends of the connector are below `n`.
pub open spec fn in_bounds<F>(c: ConnectorView<F>, n: int) -> bool {
    (c.source as int) < n && (c.target as int) < n
}

/// Inserts the recorded elements back, last recorded first.
pub open spec fn reinsert<T>(s: Seq<T>, r: Seq<(usize, T)>) -> Seq<T>
    decreases r.len(),
{
    if r.len() == 0 {
        s
    } else {
        reinsert(s.insert(r.last().0 as int, r.last().1), r.drop_last())
    }
}

/// Each insertion of `reinsert` is at a position within the sequence.
pub open spec fn reinsert_ok<T>(s: Seq<T>, r: Seq<(usize, T)>) -> bool
    decreases r.len(),
{
    r.len() == 0 || ((r.last().0 as int) <= s.len() && reinsert_ok(
        s.insert(r.last().0 as int, r.last().1),
        r.drop_last(),
    ))
}

/// Removes at the recorded positions in the order recorded (a delete records
/// them highest first), skipping positions past the end.
pub open spec fn redo_remove<T>(s: Seq<T>, r: Seq<(usize, T)>) -> Seq<T>
    decreases r.len(),
{
    if r.len() == 0 {
        s
    } else {
        redo_remove(
            if (r[0].0 as int) < s.len() {
                s.remove(r[0].0 as int)
            } else {
                s
            },
            r.drop_first(),
        )
    }
}

/// Removes at the recorded positions, first recorded first.
pub open spec fn remove_fwd<T, U>(s: Seq<T>, r: Seq<(usize, U)>) -> Seq<T>
    decreases r.len(),
{
    if r.len() == 0 {
        s
    } else {
        remove_fwd(s.remove(r[0].0 as int), r.drop_first())
    }
}

/// Each removal of `remove_fwd` is at a position within the sequence.
pub open spec fn remove_fwd_ok<T, U>(s: Seq<T>, r: Seq<(usize, U)>) -> bool
    decreases r.len(),
{
    r.len() == 0 || ((r[0].0 as int) < s.len() && remove_fwd_ok(
        s.remove(r[0].0 as int),
        r.drop_first(),
    ))
}

/// The shape indices of a delete entry in increasing order (the entry lists
/// them from the highest down).
pub open spec fn delete_order<F>(r: Seq<(usize, ShapeView<F>)>) -> Seq<usize> {
    r.map_values(|p: (usize, ShapeView<F>)| p.0).reverse()
}

/// Undo can be applied: what the last entry refers to is within the canvas,
/// and renumbered connector ends stay within `usize`.
pub open spec fn undo_ok<F>(v: CanvasView<F>) -> bool {
    v.undo.len() == 0 || match v.undo.last() {
        ActionView::AddShape { index, .. } => (index as int) < v.shapes.len(),
        ActionView::MoveShape { index, .. } => (index as int) < v.shapes.len(),
        ActionView::ResizeShape { index, .. } => (index as int) < v.shapes.len(),
        ActionView::PasteShapes { start_index, shapes_data, .. } => start_index
            + shapes_data.len() <= v.shapes.len(),
        ActionView::DeleteShapes { shapes, removed_connectors } => {
            &&& reinsert_ok(v.shapes, shapes)
            &&& forall|i: int|
                0 <= i < v.connectors.len() ==> shift_up(
                    delete_order(shapes),
                    (#[trigger] v.connectors[i]).source as int,
                ) <= usize::MAX && shift_up(delete_order(shapes), v.connectors[i].target as int)
                    <= usize::MAX
            &&& reinsert_ok(
                v.connectors.map_values(
                    |c: ConnectorView<F>| remap_up(c, delete_order(shapes)),
                ),
                removed_connectors,
            )
        },
        ActionView::AddConnector { index, .. } => (index as int) < v.connectors.len(),
        ActionView::RemoveConnector { index, .. } => (index as int) <= v.connectors.len(),
    }
}

/// The effect of undo on the canvas: the last entry is reverted and moved to
/// the redo history (a move or resize entry is replaced there by one holding
/// the shape it reverted from). Nothing happens when there is nothing to undo.
pub open spec fn undone<F>(v: CanvasView<F>) -> CanvasView<F> {
    if v.undo.len() == 0 {
        v
    } else {
        let a = v.undo.last();
        let rest = v.undo.drop_last();
        match a {
            ActionView::AddShape { index, .. } => CanvasView {
                shapes: v.shapes.remove(index as int),
                selected: v.selected.filter(|i: usize| i != index),
                undo: rest,
                redo: v.redo.push(a),
                ..v
            },
            ActionView::MoveShape { index, old_data } => CanvasView {
                shapes: v.shapes.update(index as int, old_data),
                undo: rest,
                redo: v.redo.push(
                    ActionView::MoveShape { index, old_data: v.shapes[index as int] },
                ),
                ..v
            },
            ActionView::ResizeShape { index, old_data } => CanvasView {
                shapes: v.shapes.update(index as int, old_data),
                undo: rest,
                redo: v.redo.push(
                    ActionView::ResizeShape { index, old_data: v.shapes[index as int] },
                ),
                ..v
            },
            ActionView::PasteShapes {
                start_index,
                shapes_data,
                conn_start_index,
                connectors_data,
            } => {
                let shapes = v.shapes.take(start_index as int) + v.shapes.skip(
                    start_index + shapes_data.len(),
                );
                let conns = remove_run(
                    v.connectors,
                    conn_start_index as int,
                    connectors_data.len(),
                );
                CanvasView {
                    shapes,
                    connectors: conns.filter(
                        |c: ConnectorView<F>| in_bounds(c, shapes.len() as int),
                    ),
                    selected: Seq::empty(),
                    selected_connectors: Seq::empty(),
                    undo: rest,
                    redo: v.redo.push(a),
                    ..v
                }
            },
            ActionView::DeleteShapes { shapes, removed_connectors } => CanvasView {
                shapes: reinsert(v.shapes, shapes),
                connectors: reinsert(
                    v.connectors.map_values(
                        |c: ConnectorView<F>| remap_up(c, delete_order(shapes)),
                    ),
                    removed_connectors,
                ),
                undo: rest,
                redo: v.redo.push(a),
                ..v
            },
            ActionView::AddConnector { index, .. } => CanvasView {
                connectors: v.connectors.remove(index as int),
                undo: rest,
                redo: v.redo.push(a),
                ..v
            },
            ActionView::RemoveConnector { index, data } => CanvasView {
                connectors: v.connectors.insert(index as int, data),
                undo: rest,
                redo: v.redo.push(a),
                ..v
            },
        }
    }
}

/// Redo can be applied: what the last redo entry refers to is within the canvas.
pub open spec fn redo_ok<F>(v: CanvasView<F>) -> bool {
    v.redo.len() == 0 || match v.redo.last() {
        ActionView::AddShape { index, .. } => (index as int) <= v.shapes.len(),
        ActionView::MoveShape { index, .. } => (index as int) < v.shapes.len(),
        ActionView::ResizeShape { index, .. } => (index as int) < v.shapes.len(),
        ActionView::PasteShapes { start_index, conn_start_index, .. } => (start_index as int)
            <= v.shapes.len() && (conn_start_index as int) <= v.connectors.len(),
        ActionView::DeleteShapes { shapes, .. } => remove_fwd_ok(v.shapes, shapes),
        ActionView::AddConnector { index, .. } => (index as int) <= v.connectors.len(),
        ActionView::RemoveConnector { .. } => true,
    }
}

/// The effect of redo on the canvas: the last redo entry is applied again and
/// moved back to the undo history. Nothing happens when there is nothing to redo.
pub open spec fn redone<F>(v: CanvasView<F>) -> CanvasView<F> {
    if v.redo.len() == 0 {
        v
    } else {
        let a = v.redo.last();
        let rest = v.redo.drop_last();
        match a {
            ActionView::AddShape { index, data } => CanvasView {
                shapes: v.shapes.insert(index as int, data),
                undo: v.undo.push(a),
                redo: rest,
                ..v
            },
            ActionView::MoveShape { index, old_data } => CanvasView {
                shapes: v.shapes.update(index as int, old_data),
                undo: v.undo.push(
                    ActionView::MoveShape { index, old_data: v.shapes[index as int] },
                ),
                redo: rest,
                ..v
            },
            ActionView::ResizeShape { index, old_data } => CanvasView {
                shapes: v.shapes.update(index as int, old_data),
                undo: v.undo.push(
                    ActionView::ResizeShape { index, old_data: v.shapes[index as int] },
                ),
                redo: rest,
                ..v
            },
            ActionView::PasteShapes {
                start_index,
                shapes_data,
                conn_start_index,
                connectors_data,
            } => CanvasView {
                shapes: v.shapes.take(start_index as int) + shapes_data + v.shapes.skip(
                    start_index as int,
                ),
                connectors: v.connectors.take(conn_start_index as int) + connectors_data
                    + v.connectors.skip(conn_start_index as int),
                selected: index_run(start_index as int, shapes_data.len() as int),
                selected_connectors: index_run(
                    conn_start_index as int,
                    connectors_data.len() as int,
                ),
                undo: v.undo.push(a),
                redo: rest,
                ..v
            },
            ActionView::DeleteShapes { shapes, removed_connectors } => CanvasView {
                shapes: remove_fwd(v.shapes, shapes),
                connectors: redo_remove(v.connectors, removed_connectors).map_values(
                    |c: ConnectorView<F>| remap_down(c, delete_order(shapes)),
                ),
                selected: Seq::empty(),
                undo: v.undo.push(a),
                redo: rest,
                ..v
            },
            ActionView::AddConnector { index, data } => CanvasView {
                connectors: v.connectors.insert(index as int, data),
                undo: v.undo.push(a),
                redo: rest,
                ..v
            },
            ActionView::RemoveConnector { index, .. } => CanvasView {
                connectors: if (index as int) < v.connectors.len() {
                    v.connectors.remove(index as int)
                } else {
                    v.connectors
                },
                undo: v.undo.push(a),
                redo: rest,
                ..v
            },
        }
    }
}

/// Walking up the indices only raises an index.
proof fn lemma_shift_up_grows(d: Seq<usize>, x: int)
    ensures
        shift_up(d, x) >= x,
    decreases d.len(),
{
    if d.len() > 0 {
        lemma_shift_up_grows(d.drop_first(), if x >= d[0] { x + 1 } else { x });
    }
}

/// The selection with `x` taken out, order kept.
fn selection_without(sel: &Vec<usize>, x: usize) -> (r: Vec<usize>)
    requires
        strictly_increasing(sel@),
    ensures
        r@ == sel@.filter(|i: usize| i != x),
        strictly_increasing(r@),
{
    let ghost pred = |i: usize| i != x;
    let mut r: Vec<usize> = Vec::new();
    let mut k: usize = 0;
    let ghost mut last_j: int = -1;
    while k < sel.len()
        invariant
            k <= sel@.len(),
            strictly_increasing(sel@),
            pred == (|i: usize| i != x),
            r@ == sel@.take(k as int).filter(pred),
            strictly_increasing(r@),
            r@.len() > 0 ==> (0 <= last_j < k && r@.last() == sel@[last_j]),
        decreases sel@.len() - k,
    {
        proof {
            lemma_filter_step(sel@, k as int, pred);
        }
        let e = sel[k];
        if e != x {
            proof {
                if r@.len() > 0 {
                    assert(sel@[last_j] < sel@[k as int]);
                }
                last_j = k as int;
            }
            r.push(e);
            proof {
                assert forall|a: int, b: int| 0 <= a < b < r@.len() implies r@[a] < r@[b] by {
                    if b == r@.len() - 1 && a < b {
                        assert(r@[a] <= r@[b - 1] || a == b - 1);
                    }
                }
            }
        }
        k = k + 1;
    }
    assert(sel@.take(k as int) =~= sel@);
    r
}

/// The connectors whose ends are both below `n`, order kept.
fn connectors_within<F: Copy>(cs: &Vec<Connector<F>>, n: usize) -> (r: Vec<Connector<F>>)
    ensures
        connector_values(r@) == connector_values(cs@).filter(
            |c: ConnectorView<F>| in_bounds(c, n as int),
        ),
{
    let ghost pred = |c: ConnectorView<F>| in_bounds(c, n as int);
    let ghost vals = connector_values(cs@);
    let mut r: Vec<Connector<F>> = Vec::new();
    let mut k: usize = 0;
    while k < cs.len()
        invariant
            k <= cs@.len(),
            vals == connector_values(cs@),
            pred == (|c: ConnectorView<F>| in_bounds(c, n as int)),
            connector_values(r@) == vals.take(k as int).filter(pred),
        decreases cs@.len() - k,
    {
        proof {
            lemma_filter_step(vals, k as int, pred);
        }
        let c = cs[k].duplicate();
        assert(c@ == vals[k as int]);
        if c.source() < n && c.target() < n {
            proof {
                lemma_map_push(r@, c, |x: Connector<F>| x@);
            }
            r.push(c);
        }
        k = k + 1;
    }
    assert(vals.take(k as int) =~= vals);
    r
}

/// The view of a delete entry's shape list.
pub open spec fn removed_values<F>(r: Seq<(usize, OvalShape<F>)>) -> Seq<(usize, ShapeView<F>)> {
    r.map_values(|p: (usize, OvalShape<F>)| (p.0, p.1@))
}

/// The view of a delete entry's connector list.
pub open spec fn removed_connector_values<F>(r: Seq<(usize, Connector<F>)>) -> Seq<(usize, ConnectorView<F>)> {
    r.map_values(|p: (usize, Connector<F>)| (p.0, p.1@))
}

/// `shift_up` over a delete entry's indices, as undo computes it.
fn shift_up_by<F>(r: &Vec<(usize, OvalShape<F>)>, x: usize) -> (y: usize)
    requires
        shift_up(delete_order(removed_values(r@)), x as int) <= usize::MAX,
    ensures
        y == shift_up(delete_order(removed_values(r@)), x as int),
{
    let ghost order = delete_order(removed_values(r@));
    let n = r.len();
    let mut val = x;
    let mut q = n;
    assert(order.skip(0) =~= order);
    while q > 0
        invariant
            q <= n,
            n == r@.len(),
            order == delete_order(removed_values(r@)),
            order.len() == n,
            shift_up(order, x as int) <= usize::MAX,
            shift_up(order, x as int) == shift_up(order.skip(n - q), val as int),
        decreases q,
    {
        let t = n - q;
        assert(order.skip(t as int)[0] == r@[q - 1].0);
        assert(order.skip(t as int).drop_first() =~= order.skip(t + 1));
        let d = r[q - 1].0;
        proof {
            lemma_shift_up_grows(order.skip(t + 1), if val >= d { val + 1 } else { val as int });
        }
        if val >= d {
            val = val + 1;
        }
        q = q - 1;
    }
    assert(order.skip(n as int) =~= Seq::<usize>::empty());
    val
}

/// `shift_down` over a delete entry's indices, as redo computes it.
fn shift_down_by<F>(r: &Vec<(usize, OvalShape<F>)>, x: usize) -> (y: usize)
    ensures
        y == shift_down(delete_order(removed_values(r@)), x as int),
{
    let ghost order = delete_order(removed_values(r@));
    let n = r.len();
    let mut val = x;
    let mut q: usize = 0;
    assert(order.take(n as int) =~= order);
    while q < n
        invariant
            q <= n,
            n == r@.len(),
            order == delete_order(removed_values(r@)),
            order.len() == n,
            val <= x,
            shift_down(order, x as int) == shift_down(order.take(n - q), val as int),
        decreases n - q,
    {
        let t = n - q;
        assert(order.take(t as int).last() == r@[q as int].0);
        assert(order.take(t as int).drop_last() =~= order.take(t - 1));
        let d = r[q].0;
        if val > d {
            val = val - 1;
        }
        q = q + 1;
    }
    assert(order.take(0) =~= Seq::<usize>::empty());
    val
}

proof fn lemma_pop_wf<F>(s: Seq<ActionView<F>>)
    requires
        s.len() > 0,
        forall|i: int| 0 <= i < s.len() ==> action_wf(#[trigger] s[i]),
    ensures
        action_wf(s.last()),
        forall|i: int| 0 <= i < s.drop_last().len() ==> action_wf(#[trigger] s.drop_last()[i]),
{
    assert(action_wf(s[s.len() - 1]));
    assert forall|i: int| 0 <= i < s.drop_last().len() implies action_wf(
        #[trigger] s.drop_last()[i],
    ) by {
        assert(s.drop_last()[i] == s[i]);
    }
}

proof fn lemma_push_wf<F>(s: Seq<ActionView<F>>, a: ActionView<F>)
    requires
        action_wf(a),
        forall|i: int| 0 <= i < s.len() ==> action_wf(#[trigger] s[i]),
    ensures
        forall|i: int| 0 <= i < s.push(a).len() ==> action_wf(#[trigger] s.push(a)[i]),
{
    assert forall|i: int| 0 <= i < s.push(a).len() implies action_wf(#[trigger] s.push(a)[i]) by {
        if i < s.len() {
            assert(s.push(a)[i] == s[i]);
        }
    }
}

impl<F: Copy> CanvasState<F> {
    /// Revert the last recorded change and move it to the redo history.
    pub fn undo(&mut self)
        requires
            old(self).wf(),
            undo_ok(old(self)@),
        ensures
            final(self).wf(),
            final(self)@ == undone(old(self)@),
    {
        if self.undo_stack.len() == 0 {
            return;
        }
        let ghost v = old(self)@;
        proof {
            lemma_map_drop_last(self.undo_stack@, |x: UndoAction<F>| x@);
            lemma_pop_wf(v.undo);
        }
        let action = self.undo_stack.pop().unwrap();
        assert(action@ == v.undo.last());
        assert(self@.undo == v.undo.drop_last());
        match action {
            UndoAction::AddShape { index, data } => {
                proof {
                    lemma_map_remove(self.shapes@, index as int, |x: OvalShape<F>| x@);
                }
                self.shapes.remove(index);
                self.selected = selection_without(&self.selected, index);
                let a = UndoAction::AddShape { index, data };
                proof {
                    lemma_map_push(self.redo_stack@, a, |x: UndoAction<F>| x@);
                    lemma_push_wf(v.redo, a@);
                }
                self.redo_stack.push(a);
            },
            UndoAction::MoveShape { index, old_data } => {
                let current = self.shapes[index].duplicate();
                proof {
                    lemma_map_update(self.shapes@, index as int, old_data, |x: OvalShape<F>| x@);
                }
                self.shapes.set(index, old_data);
                let a = UndoAction::MoveShape { index, old_data: current };
                proof {
                    lemma_map_push(self.redo_stack@, a, |x: UndoAction<F>| x@);
                    lemma_push_wf(v.redo, a@);
                }
                self.redo_stack.push(a);
            },
            UndoAction::ResizeShape { index, old_data } => {
                let current = self.shapes[index].duplicate();
                proof {
                    lemma_map_update(self.shapes@, index as int, old_data, |x: OvalShape<F>| x@);
                }
                self.shapes.set(index, old_data);
                let a = UndoAction::ResizeShape { index, old_data: current };
                proof {
                    lemma_map_push(self.redo_stack@, a, |x: UndoAction<F>| x@);
                    lemma_push_wf(v.redo, a@);
                }
                self.redo_stack.push(a);
            },
            UndoAction::PasteShapes { start_index, shapes_data, conn_start_index, connectors_data } => {
                let ghost c0 = v.connectors;
                let n = connectors_data.len();
                let mut q: usize = 0;
                while q < n
                    invariant
                        self@.undo == v.undo.drop_last(),
                        self@.redo == v.redo,
                        self@.selected == v.selected,
                        self@.selected_connectors == v.selected_connectors,
                        self@.editing == v.editing,
                        self@.resize_pre == v.resize_pre,
                        forall|i: int| 0 <= i < v.redo.len() ==> action_wf(#[trigger] v.redo[i]),
                        strictly_increasing(v.selected),
                        q <= n,
                        n == connectors_data@.len(),
                        remove_run(c0, conn_start_index as int, n as nat) == remove_run(
                            connector_values(self.connectors@),
                            conn_start_index as int,
                            (n - q) as nat,
                        ),
                        shape_values(self.shapes@) == v.shapes,
                    decreases n - q,
                {
                    if conn_start_index < self.connectors.len() {
                        proof {
                            lemma_map_remove(
                                self.connectors@,
                                conn_start_index as int,
                                |x: Connector<F>| x@,
                            );
                        }
                        self.connectors.remove(conn_start_index);
                    }
                    q = q + 1;
                }
                let ghost kept_conns = connector_values(self.connectors@);
                assert(kept_conns == remove_run(c0, conn_start_index as int, n as nat));
                let ghost s0 = v.shapes;
                let m = shapes_data.len();
                let mut q: usize = 0;
                while q < m
                    invariant
                        self@.undo == v.undo.drop_last(),
                        self@.redo == v.redo,
                        self@.selected == v.selected,
                        self@.selected_connectors == v.selected_connectors,
                        self@.editing == v.editing,
                        self@.resize_pre == v.resize_pre,
                        forall|i: int| 0 <= i < v.redo.len() ==> action_wf(#[trigger] v.redo[i]),
                        strictly_increasing(v.selected),
                        q <= m,
                        m == shapes_data@.len(),
                        s0 == v.shapes,
                        start_index + m <= s0.len(),
                        connector_values(self.connectors@) == kept_conns,
                        shape_values(self.shapes@) =~= s0.take(start_index as int) + s0.skip(
                            start_index + q,
                        ),
                    decreases m - q,
                {
                    proof {
                        lemma_map_remove(self.shapes@, start_index as int, |x: OvalShape<F>| x@);
                    }
                    self.shapes.remove(start_index);
                    q = q + 1;
                }
                let total = self.shapes.len();
                proof {
                    let sh = s0.take(start_index as int) + s0.skip(start_index + m);
                    assert(total == sh.len());
                    assert(connector_values(self.connectors@) == remove_run(
                        connector_values(self.connectors@),
                        conn_start_index as int,
                        0,
                    ));
                    assert((|c: ConnectorView<F>| in_bounds(c, total as int)) =~= (|
                        c: ConnectorView<F>,
                    |
                        in_bounds(c, sh.len() as int)));
                }
                let ghost pre = connector_values(self.connectors@);
                self.connectors = connectors_within(&self.connectors, total);
                assert(pre == remove_run(v.connectors, conn_start_index as int, n as nat));
                assert(v.undo.last() == (ActionView::PasteShapes {
                    start_index,
                    shapes_data: shape_values(shapes_data@),
                    conn_start_index,
                    connectors_data: connector_values(connectors_data@),
                }));
                assert(undone(v).shapes.len() == total);
                assert(undone(v).connectors == pre.filter(
                    |c: ConnectorView<F>| in_bounds(c, total as int),
                ));
                self.selected.clear();
                self.selected_connectors.clear();
                let a = UndoAction::PasteShapes {
                    start_index,
                    shapes_data,
                    conn_start_index,
                    connectors_data,
                };
                proof {
                    lemma_map_push(self.redo_stack@, a, |x: UndoAction<F>| x@);
                    lemma_push_wf(v.redo, a@);
                    assert(self.selected@ =~= Seq::<usize>::empty());
                    assert(self.selected_connectors@ =~= Seq::<usize>::empty());
                }
                self.redo_stack.push(a);
            },
            UndoAction::DeleteShapes { shapes, removed_connectors } => {
                let ghost r = removed_values(shapes@);
                let ghost rc = removed_connector_values(removed_connectors@);
                let ghost order = delete_order(r);
                let ghost s0 = v.shapes;
                let mut q = shapes.len();
                assert(r.take(q as int) =~= r);
                while q > 0
                    invariant
                        self@.undo == v.undo.drop_last(),
                        self@.redo == v.redo,
                        self@.selected == v.selected,
                        self@.selected_connectors == v.selected_connectors,
                        self@.editing == v.editing,
                        self@.resize_pre == v.resize_pre,
                        forall|i: int| 0 <= i < v.redo.len() ==> action_wf(#[trigger] v.redo[i]),
                        strictly_increasing(v.selected),
                        q <= shapes@.len(),
                        r == removed_values(shapes@),
                        reinsert(s0, r) == reinsert(shape_values(self.shapes@), r.take(q as int)),
                        reinsert_ok(shape_values(self.shapes@), r.take(q as int)),
                        connector_values(self.connectors@) == v.connectors,
                    decreases q,
                {
                    assert(r.take(q as int).drop_last() =~= r.take(q - 1));
                    assert(r.take(q as int).last() == r[q - 1]);
                    let idx = shapes[q - 1].0;
                    let data = shapes[q - 1].1.duplicate();
                    proof {
                        lemma_map_insert(self.shapes@, idx as int, data, |x: OvalShape<F>| x@);
                    }
                    self.shapes.insert(idx, data);
                    q = q - 1;
                }
                assert(r.take(0) =~= Seq::<(usize, ShapeView<F>)>::empty());
                let ghost restored = reinsert(s0, r);
                assert(shape_values(self.shapes@) == restored);
                let ghost mapped = v.connectors.map_values(
                    |c: ConnectorView<F>| remap_up(c, order),
                );
                let cn = self.connectors.len();
                let mut k: usize = 0;
                while k < cn
                    invariant
                        self@.undo == v.undo.drop_last(),
                        self@.redo == v.redo,
                        self@.selected == v.selected,
                        self@.selected_connectors == v.selected_connectors,
                        self@.editing == v.editing,
                        self@.resize_pre == v.resize_pre,
                        forall|i: int| 0 <= i < v.redo.len() ==> action_wf(#[trigger] v.redo[i]),
                        strictly_increasing(v.selected),
                        k <= cn,
                        cn == v.connectors.len(),
                        self.connectors@.len() == cn,
                        shape_values(self.shapes@) == restored,
                        order == delete_order(removed_values(shapes@)),
                        mapped == v.connectors.map_values(
                            |c: ConnectorView<F>| remap_up(c, order),
                        ),
                        forall|i: int|
                            0 <= i < v.connectors.len() ==> shift_up(
                                order,
                                (#[trigger] v.connectors[i]).source as int,
                            ) <= usize::MAX && shift_up(order, v.connectors[i].target as int)
                                <= usize::MAX,
                        forall|j: int|
                            0 <= j < k ==> #[trigger] connector_values(self.connectors@)[j]
                                == mapped[j],
                        forall|j: int|
                            k <= j < cn ==> #[trigger] connector_values(self.connectors@)[j]
                                == v.connectors[j],
                    decreases cn - k,
                {
                    let c = self.connectors[k].duplicate();
                    assert(connector_values(self.connectors@)[k as int] == self.connectors@[k as int]@);
                    assert(c@ == v.connectors[k as int]);
                    let s = shift_up_by(&shapes, c.source());
                    let t = shift_up_by(&shapes, c.target());
                    let nc = Connector::with_curvature(s, t, c.curvature());
                    proof {
                        lemma_map_update(self.connectors@, k as int, nc, |x: Connector<F>| x@);
                    }
                    self.connectors.set(k, nc);
                    k = k + 1;
                }
                assert(connector_values(self.connectors@) =~= mapped);
                let mut q = removed_connectors.len();
                assert(rc.take(q as int) =~= rc);
                while q > 0
                    invariant
                        self@.undo == v.undo.drop_last(),
                        self@.redo == v.redo,
                        self@.selected == v.selected,
                        self@.selected_connectors == v.selected_connectors,
                        self@.editing == v.editing,
                        self@.resize_pre == v.resize_pre,
                        forall|i: int| 0 <= i < v.redo.len() ==> action_wf(#[trigger] v.redo[i]),
                        strictly_increasing(v.selected),
                        q <= removed_connectors@.len(),
                        rc == removed_connector_values(removed_connectors@),
                        shape_values(self.shapes@) == restored,
                        reinsert(mapped, rc) == reinsert(
                            connector_values(self.connectors@),
                            rc.take(q as int),
                        ),
                        reinsert_ok(connector_values(self.connectors@), rc.take(q as int)),
                    decreases q,
                {
                    assert(rc.take(q as int).drop_last() =~= rc.take(q - 1));
                    assert(rc.take(q as int).last() == rc[q - 1]);
                    let ci = removed_connectors[q - 1].0;
                    let data = removed_connectors[q - 1].1.duplicate();
                    proof {
                        lemma_map_insert(self.connectors@, ci as int, data, |x: Connector<F>| x@);
                    }
                    self.connectors.insert(ci, data);
                    q = q - 1;
                }
                assert(rc.take(0) =~= Seq::<(usize, ConnectorView<F>)>::empty());
                let a = UndoAction::DeleteShapes { shapes, removed_connectors };
                proof {
                    lemma_map_push(self.redo_stack@, a, |x: UndoAction<F>| x@);
                    lemma_push_wf(v.redo, a@);
                }
                self.redo_stack.push(a);
            },
            UndoAction::AddConnector { index, data } => {
                proof {
                    lemma_map_remove(self.connectors@, index as int, |x: Connector<F>| x@);
                }
                self.connectors.remove(index);
                let a = UndoAction::AddConnector { index, data };
                proof {
                    lemma_map_push(self.redo_stack@, a, |x: UndoAction<F>| x@);
                    lemma_push_wf(v.redo, a@);
                }
                self.redo_stack.push(a);
            },
            UndoAction::RemoveConnector { index, data } => {
                let c = data.duplicate();
                proof {
                    lemma_map_insert(self.connectors@, index as int, c, |x: Connector<F>| x@);
                }
                self.connectors.insert(index, c);
                let a = UndoAction::RemoveConnector { index, data };
                proof {
                    lemma_map_push(self.redo_stack@, a, |x: UndoAction<F>| x@);
                    lemma_push_wf(v.redo, a@);
                }
                self.redo_stack.push(a);
            },
        }
    }
}

impl<F: Copy> CanvasState<F> {
    /// Apply the last undone change again and move it back to the undo history.
    pub fn redo(&mut self)
        requires
            old(self).wf(),
            redo_ok(old(self)@),
        ensures
            final(self).wf(),
            final(self)@ == redone(old(self)@),
    {
        if self.redo_stack.len() == 0 {
            return;
        }
        let ghost v = old(self)@;
        proof {
            lemma_map_drop_last(self.redo_stack@, |x: UndoAction<F>| x@);
            lemma_pop_wf(v.redo);
        }
        let action = self.redo_stack.pop().unwrap();
        assert(action@ == v.redo.last());
        assert(self@.redo == v.redo.drop_last());
        match action {
            UndoAction::AddShape { index, data } => {
                let shape = data.duplicate();
                proof {
                    lemma_map_insert(self.shapes@, index as int, shape, |x: OvalShape<F>| x@);
                }
                self.shapes.insert(index, shape);
                let a = UndoAction::AddShape { index, data };
                proof {
                    lemma_map_push(self.undo_stack@, a, |x: UndoAction<F>| x@);
                    lemma_push_wf(v.undo, a@);
                }
                self.undo_stack.push(a);
            },
            UndoAction::MoveShape { index, old_data } => {
                let current = self.shapes[index].duplicate();
                proof {
                    lemma_map_update(self.shapes@, index as int, old_data, |x: OvalShape<F>| x@);
                }
                self.shapes.set(index, old_data);
                let a = UndoAction::MoveShape { index, old_data: current };
                proof {
                    lemma_map_push(self.undo_stack@, a, |x: UndoAction<F>| x@);
                    lemma_push_wf(v.undo, a@);
                }
                self.undo_stack.push(a);
            },
            UndoAction::ResizeShape { index, old_data } => {
                let current = self.shapes[index].duplicate();
                proof {
                    lemma_map_update(self.shapes@, index as int, old_data, |x: OvalShape<F>| x@);
                }
                self.shapes.set(index, old_data);
                let a = UndoAction::ResizeShape { index, old_data: current };
                proof {
                    lemma_map_push(self.undo_stack@, a, |x: UndoAction<F>| x@);
                    lemma_push_wf(v.undo, a@);
                }
                self.undo_stack.push(a);
            },
            UndoAction::PasteShapes { start_index, shapes_data, conn_start_index, connectors_data } => {
                let ghost s0 = v.shapes;
                let ghost sd = shape_values(shapes_data@);
                let m = shapes_data.len();
                let mut i: usize = 0;
                while i < m
                    invariant
                        self@.redo == v.redo.drop_last(),
                        self@.undo == v.undo,
                        self@.selected_connectors == v.selected_connectors,
                        self@.editing == v.editing,
                        self@.resize_pre == v.resize_pre,
                        forall|i: int| 0 <= i < v.undo.len() ==> action_wf(#[trigger] v.undo[i]),
                        i <= m,
                        m == shapes_data@.len(),
                        sd == shape_values(shapes_data@),
                        s0 == v.shapes,
                        start_index <= s0.len(),
                        shape_values(self.shapes@) =~= s0.take(start_index as int) + sd.take(
                            i as int,
                        ) + s0.skip(start_index as int),
                        connector_values(self.connectors@) == v.connectors,
                    decreases m - i,
                {
                    let shape = shapes_data[i].duplicate();
                    let cur_len = self.shapes.len();
                    assert(shape_values(self.shapes@).len() == cur_len);
                    proof {
                        lemma_map_insert(
                            self.shapes@,
                            start_index + i,
                            shape,
                            |x: OvalShape<F>| x@,
                        );
                        assert(sd.take(i + 1) =~= sd.take(i as int).push(sd[i as int]));
                    }
                    self.shapes.insert(start_index + i, shape);
                    i = i + 1;
                }
                assert(sd.take(m as int) =~= sd);
                let ghost c0 = v.connectors;
                let ghost cd = connector_values(connectors_data@);
                let ghost pasted_shapes = shape_values(self.shapes@);
                let n = connectors_data.len();
                let mut i: usize = 0;
                while i < n
                    invariant
                        self@.redo == v.redo.drop_last(),
                        self@.undo == v.undo,
                        self@.selected_connectors == v.selected_connectors,
                        self@.editing == v.editing,
                        self@.resize_pre == v.resize_pre,
                        forall|i: int| 0 <= i < v.undo.len() ==> action_wf(#[trigger] v.undo[i]),
                        i <= n,
                        n == connectors_data@.len(),
                        cd == connector_values(connectors_data@),
                        c0 == v.connectors,
                        conn_start_index <= c0.len(),
                        connector_values(self.connectors@) =~= c0.take(conn_start_index as int)
                            + cd.take(i as int) + c0.skip(conn_start_index as int),
                        shape_values(self.shapes@) == pasted_shapes,
                    decreases n - i,
                {
                    let c = connectors_data[i].duplicate();
                    let cur_len = self.connectors.len();
                    assert(connector_values(self.connectors@).len() == cur_len);
                    proof {
                        lemma_map_insert(
                            self.connectors@,
                            conn_start_index + i,
                            c,
                            |x: Connector<F>| x@,
                        );
                        assert(cd.take(i + 1) =~= cd.take(i as int).push(cd[i as int]));
                    }
                    self.connectors.insert(conn_start_index + i, c);
                    i = i + 1;
                }
                assert(cd.take(n as int) =~= cd);
                let total = self.shapes.len();
                let ctotal = self.connectors.len();
                self.selected = index_range(start_index, m);
                self.selected_connectors = index_range(conn_start_index, n);
                let a = UndoAction::PasteShapes {
                    start_index,
                    shapes_data,
                    conn_start_index,
                    connectors_data,
                };
                proof {
                    lemma_map_push(self.undo_stack@, a, |x: UndoAction<F>| x@);
                    lemma_push_wf(v.undo, a@);
                }
                self.undo_stack.push(a);
            },
            UndoAction::DeleteShapes { shapes, removed_connectors } => {
                let ghost r = removed_values(shapes@);
                let ghost rc = removed_connector_values(removed_connectors@);
                let ghost order = delete_order(r);
                let ghost c0 = v.connectors;
                let rn = removed_connectors.len();
                let mut q: usize = 0;
                assert(rc.skip(0) =~= rc);
                while q < rn
                    invariant
                        self@.redo == v.redo.drop_last(),
                        self@.undo == v.undo,
                        self@.selected_connectors == v.selected_connectors,
                        self@.editing == v.editing,
                        self@.resize_pre == v.resize_pre,
                        forall|i: int| 0 <= i < v.undo.len() ==> action_wf(#[trigger] v.undo[i]),
                        q <= rn,
                        rn == removed_connectors@.len(),
                        rc == removed_connector_values(removed_connectors@),
                        redo_remove(c0, rc) == redo_remove(
                            connector_values(self.connectors@),
                            rc.skip(q as int),
                        ),
                        shape_values(self.shapes@) == v.shapes,
                    decreases rn - q,
                {
                    assert(rc.skip(q as int).drop_first() =~= rc.skip(q + 1));
                    assert(rc.skip(q as int)[0] == rc[q as int]);
                    let ci = removed_connectors[q].0;
                    if ci < self.connectors.len() {
                        proof {
                            lemma_map_remove(self.connectors@, ci as int, |x: Connector<F>| x@);
                        }
                        self.connectors.remove(ci);
                    }
                    q = q + 1;
                }
                assert(rc.skip(rn as int) =~= Seq::<(usize, ConnectorView<F>)>::empty());
                let ghost left = connector_values(self.connectors@);
                let cn = self.connectors.len();
                let mut k: usize = 0;
                while k < cn
                    invariant
                        self@.redo == v.redo.drop_last(),
                        self@.undo == v.undo,
                        self@.selected_connectors == v.selected_connectors,
                        self@.editing == v.editing,
                        self@.resize_pre == v.resize_pre,
                        forall|i: int| 0 <= i < v.undo.len() ==> action_wf(#[trigger] v.undo[i]),
                        k <= cn,
                        cn == left.len(),
                        self.connectors@.len() == cn,
                        order == delete_order(removed_values(shapes@)),
                        left == redo_remove(c0, rc),
                        shape_values(self.shapes@) == v.shapes,
                        forall|j: int|
                            0 <= j < k ==> #[trigger] connector_values(self.connectors@)[j]
                                == remap_down(left[j], order),
                        forall|j: int|
                            k <= j < cn ==> #[trigger] connector_values(self.connectors@)[j]
                                == left[j],
                    decreases cn - k,
                {
                    let c = self.connectors[k].duplicate();
                    assert(connector_values(self.connectors@)[k as int] == self.connectors@[k as int]@);
                    assert(c@ == left[k as int]);
                    proof {
                        lemma_shift_down_bounds(order, c@.source as int);
                        lemma_shift_down_bounds(order, c@.target as int);
                    }
                    let s = shift_down_by(&shapes, c.source());
                    let t = shift_down_by(&shapes, c.target());
                    let nc = Connector::with_curvature(s, t, c.curvature());
                    proof {
                        lemma_map_update(self.connectors@, k as int, nc, |x: Connector<F>| x@);
                    }
                    self.connectors.set(k, nc);
                    k = k + 1;
                }
                let ghost remapped = left.map_values(|c: ConnectorView<F>| remap_down(c, order));
                assert(connector_values(self.connectors@) =~= remapped);
                let ghost s0 = v.shapes;
                let mut q: usize = 0;
                assert(r.skip(0) =~= r);
                while q < shapes.len()
                    invariant
                        self@.redo == v.redo.drop_last(),
                        self@.undo == v.undo,
                        self@.selected_connectors == v.selected_connectors,
                        self@.editing == v.editing,
                        self@.resize_pre == v.resize_pre,
                        forall|i: int| 0 <= i < v.undo.len() ==> action_wf(#[trigger] v.undo[i]),
                        q <= shapes@.len(),
                        r == removed_values(shapes@),
                        remove_fwd(s0, r) == remove_fwd(shape_values(self.shapes@), r.skip(q as int)),
                        remove_fwd_ok(shape_values(self.shapes@), r.skip(q as int)),
                        connector_values(self.connectors@) == remapped,
                    decreases shapes@.len() - q,
                {
                    assert(r.skip(q as int)[0] == r[q as int]);
                    assert(r.skip(q as int).drop_first() =~= r.skip(q + 1));
                    let idx = shapes[q].0;
                    proof {
                        lemma_map_remove(self.shapes@, idx as int, |x: OvalShape<F>| x@);
                    }
                    self.shapes.remove(idx);
                    q = q + 1;
                }
                assert(r.skip(q as int) =~= Seq::<(usize, ShapeView<F>)>::empty());
                self.selected.clear();
                let a = UndoAction::DeleteShapes { shapes, removed_connectors };
                proof {
                    lemma_map_push(self.undo_stack@, a, |x: UndoAction<F>| x@);
                    lemma_push_wf(v.undo, a@);
                    assert(self.selected@ =~= Seq::<usize>::empty());
                }
                self.undo_stack.push(a);
            },
            UndoAction::AddConnector { index, data } => {
                let c = data.duplicate();
                proof {
                    lemma_map_insert(self.connectors@, index as int, c, |x: Connector<F>| x@);
                }
                self.connectors.insert(index, c);
                let a = UndoAction::AddConnector { index, data };
                proof {
                    lemma_map_push(self.undo_stack@, a, |x: UndoAction<F>| x@);
                    lemma_push_wf(v.undo, a@);
                }
                self.undo_stack.push(a);
            },
            UndoAction::RemoveConnector { index, data } => {
                if index < self.connectors.len() {
                    proof {
                        lemma_map_remove(self.connectors@, index as int, |x: Connector<F>| x@);
                    }
                    self.connectors.remove(index);
                }
                let a = UndoAction::RemoveConnector { index, data };
                proof {
                    lemma_map_push(self.undo_stack@, a, |x: UndoAction<F>| x@);
                    lemma_push_wf(v.undo, a@);
                }
                self.undo_stack.push(a);
            },
        }
    }
}

/// Every insertion that `reinsert` makes into a sequence of length `n` is in
/// range: the entry `k` places from the end goes into a sequence that has
/// grown by `k` already.
pub open spec fn reinsert_fits<T>(n: int, r: Seq<(usize, T)>) -> bool {
    forall|k: int| 0 <= k < r.len() ==> (#[trigger] r[k].0 as int) <= n + (r.len() - 1 - k)
}

/// Every removal of a forward walk over `r` from a sequence of length `n` is in range.
pub open spec fn remove_fits<T>(n: int, r: Seq<(usize, T)>) -> bool {
    forall|k: int| 0 <= k < r.len() ==> (#[trigger] r[k].0 as int) < n - k
}

proof fn lemma_reinsert_ok_fits<T>(s: Seq<T>, r: Seq<(usize, T)>)
    ensures
        reinsert_ok(s, r) == reinsert_fits(s.len() as int, r),
    decreases r.len(),
{
    if r.len() > 0 {
        let n = r.len() as int;
        let last = r.last();
        if (last.0 as int) <= s.len() {
            let s2 = s.insert(last.0 as int, last.1);
            let d = r.drop_last();
            lemma_reinsert_ok_fits(s2, d);
            assert(reinsert_fits(s2.len() as int, d) == reinsert_fits(s.len() as int, r)) by {
                if reinsert_fits(s2.len() as int, d) {
                    assert forall|k: int| 0 <= k < r.len() implies (#[trigger] r[k].0 as int)
                        <= s.len() + (r.len() - 1 - k) by {
                        if k < n - 1 {
                            assert(d[k] == r[k]);
                        }
                    }
                }
                if reinsert_fits(s.len() as int, r) {
                    assert forall|k: int| 0 <= k < d.len() implies (#[trigger] d[k].0 as int)
                        <= s2.len() + (d.len() - 1 - k) by {
                        assert(d[k] == r[k]);
                    }
                }
            }
        } else {
            assert(r[n - 1] == last);
        }
    }
}

proof fn lemma_remove_fwd_ok_fits<T, U>(s: Seq<T>, r: Seq<(usize, U)>)
    ensures
        remove_fwd_ok(s, r) == remove_fits(s.len() as int, r),
    decreases r.len(),
{
    if r.len() > 0 {
        if (r[0].0 as int) < s.len() {
            let s2 = s.remove(r[0].0 as int);
            let d = r.drop_first();
            lemma_remove_fwd_ok_fits(s2, d);
            assert(remove_fits(s2.len() as int, d) == remove_fits(s.len() as int, r)) by {
                if remove_fits(s2.len() as int, d) {
                    assert forall|k: int| 0 <= k < r.len() implies (#[trigger] r[k].0 as int) < s.len()
                        - k by {
                        if k > 0 {
                            assert(d[k - 1] == r[k]);
                        }
                    }
                }
                if remove_fits(s.len() as int, r) {
                    assert forall|k: int| 0 <= k < d.len() implies (#[trigger] d[k].0 as int)
                        < s2.len() - k by {
                        assert(d[k] == r[k + 1]);
                    }
                }
            }
        }
    }
}

/// Whether `reinsert_fits(len, r)` holds, for the view `v` of `r`'s entries.
fn check_reinsert_fits<T, U>(len: usize, r: &Vec<(usize, T)>, Ghost(v): Ghost<Seq<(usize, U)>>) -> (b:
    bool)
    requires
        v.len() == r@.len(),
        forall|k: int| 0 <= k < v.len() ==> (#[trigger] v[k]).0 == r@[k].0,
    ensures
        b == reinsert_fits(len as int, v),
{
    let n = r.len();
    let mut k: usize = 0;
    while k < n
        invariant
            k <= n,
            n == r@.len(),
            v.len() == n,
            forall|j: int| 0 <= j < v.len() ==> (#[trigger] v[j]).0 == r@[j].0,
            forall|j: int| 0 <= j < k ==> (#[trigger] v[j].0 as int) <= len + (n - 1 - j),
        decreases n - k,
    {
        let room = n - 1 - k;
        let idx = r[k].0;
        assert(v[k as int].0 == idx);
        if idx > room && idx - room > len {
            return false;
        }
        k = k + 1;
    }
    true
}

/// Whether `remove_fits(len, r)` holds, for the view `v` of `r`'s entries.
fn check_remove_fits<T, U>(len: usize, r: &Vec<(usize, T)>, Ghost(v): Ghost<Seq<(usize, U)>>) -> (b:
    bool)
    requires
        v.len() == r@.len(),
        forall|k: int| 0 <= k < v.len() ==> (#[trigger] v[k]).0 == r@[k].0,
    ensures
        b == remove_fits(len as int, v),
{
    let n = r.len();
    let mut k: usize = 0;
    while k < n
        invariant
            k <= n,
            n == r@.len(),
            v.len() == n,
            forall|j: int| 0 <= j < v.len() ==> (#[trigger] v[j]).0 == r@[j].0,
            forall|j: int| 0 <= j < k ==> (#[trigger] v[j].0 as int) < len - j,
        decreases n - k,
    {
        let idx = r[k].0;
        assert(v[k as int].0 == idx);
        if k >= len || idx >= len - k {
            return false;
        }
        k = k + 1;
    }
    true
}

/// Whether `shift_up` over a delete entry's indices keeps `x` within `usize`.
fn shift_up_fits<F>(r: &Vec<(usize, OvalShape<F>)>, x: usize) -> (b: bool)
    ensures
        b == (shift_up(delete_order(removed_values(r@)), x as int) <= usize::MAX),
{
    let ghost order = delete_order(removed_values(r@));
    let n = r.len();
    let mut val = x;
    let mut q = n;
    assert(order.skip(0) =~= order);
    while q > 0
        invariant
            q <= n,
            n == r@.len(),
            order == delete_order(removed_values(r@)),
            order.len() == n,
            shift_up(order, x as int) == shift_up(order.skip(n - q), val as int),
        decreases q,
    {
        let t = n - q;
        assert(order.skip(t as int)[0] == r@[q - 1].0);
        assert(order.skip(t as int).drop_first() =~= order.skip(t + 1));
        let d = r[q - 1].0;
        if val >= d {
            if val == usize::MAX {
                proof {
                    lemma_shift_up_grows(order.skip(t + 1), val + 1);
                }
                return false;
            }
            val = val + 1;
        }
        q = q - 1;
    }
    assert(order.skip(n as int) =~= Seq::<usize>::empty());
    true
}

impl<F: Copy> CanvasState<F> {
    /// Whether `undo` can be applied to the present state: what the last
    /// entry refers to is within the canvas (see `undo_ok`).
    pub fn can_undo(&self) -> (b: bool)
        ensures
            b == undo_ok(self@),
    {
        let n = self.undo_stack.len();
        if n == 0 {
            return true;
        }
        proof {
            lemma_map_drop_last(self.undo_stack@, |x: UndoAction<F>| x@);
        }
        let ghost v = self@;
        assert(v.undo.last() == self.undo_stack@[n - 1]@);
        match &self.undo_stack[n - 1] {
            UndoAction::AddShape { index, .. } => *index < self.shapes.len(),
            UndoAction::MoveShape { index, .. } => *index < self.shapes.len(),
            UndoAction::ResizeShape { index, .. } => *index < self.shapes.len(),
            UndoAction::PasteShapes { start_index, shapes_data, .. } => {
                *start_index <= self.shapes.len() && shapes_data.len() <= self.shapes.len()
                    - *start_index
            },
            UndoAction::DeleteShapes { shapes, removed_connectors } => {
                let ghost rv = removed_values(shapes@);
                let ghost rc = removed_connector_values(removed_connectors@);
                let ghost order = delete_order(rv);
                assert(v.undo.last() == (ActionView::DeleteShapes { shapes: rv, removed_connectors: rc }));
                proof {
                    lemma_reinsert_ok_fits(v.shapes, rv);
                    lemma_reinsert_ok_fits(
                        v.connectors.map_values(|c: ConnectorView<F>| remap_up(c, order)),
                        rc,
                    );
                }
                if !check_reinsert_fits::<OvalShape<F>, ShapeView<F>>(self.shapes.len(), shapes, Ghost(rv)) {
                    return false;
                }
                let cn = self.connectors.len();
                let mut k: usize = 0;
                while k < cn
                    invariant
                        k <= cn,
                        cn == self.connectors@.len(),
                        v == self@,
                        v.undo.len() > 0,
                        v.undo.last() == (ActionView::DeleteShapes {
                            shapes: rv,
                            removed_connectors: rc,
                        }),
                        rv == removed_values(shapes@),
                        order == delete_order(rv),
                        forall|i: int|
                            0 <= i < k ==> shift_up(
                                order,
                                (#[trigger] v.connectors[i]).source as int,
                            ) <= usize::MAX && shift_up(order, v.connectors[i].target as int)
                                <= usize::MAX,
                    decreases cn - k,
                {
                    let c = &self.connectors[k];
                    assert(v.connectors[k as int] == c@);
                    if !shift_up_fits(shapes, c.source()) || !shift_up_fits(shapes, c.target()) {
                        assert(!(shift_up(order, v.connectors[k as int].source as int)
                            <= usize::MAX && shift_up(order, v.connectors[k as int].target as int)
                            <= usize::MAX));
                        return false;
                    }
                    k = k + 1;
                }
                check_reinsert_fits::<Connector<F>, ConnectorView<F>>(cn, removed_connectors, Ghost(rc))
            },
            UndoAction::AddConnector { index, .. } => *index < self.connectors.len(),
            UndoAction::RemoveConnector { index, .. } => *index <= self.connectors.len(),
        }
    }

    /// Whether `redo` can be applied to the present state (see `redo_ok`).
    pub fn can_redo(&self) -> (b: bool)
        ensures
            b == redo_ok(self@),
    {
        let n = self.redo_stack.len();
        if n == 0 {
            return true;
        }
        proof {
            lemma_map_drop_last(self.redo_stack@, |x: UndoAction<F>| x@);
        }
        let ghost v = self@;
        assert(v.redo.last() == self.redo_stack@[n - 1]@);
        match &self.redo_stack[n - 1] {
            UndoAction::AddShape { index, .. } => *index <= self.shapes.len(),
            UndoAction::MoveShape { index, .. } => *index < self.shapes.len(),
            UndoAction::ResizeShape { index, .. } => *index < self.shapes.len(),
            UndoAction::PasteShapes { start_index, conn_start_index, .. } => *start_index
                <= self.shapes.len() && *conn_start_index <= self.connectors.len(),
            UndoAction::DeleteShapes { shapes, .. } => {
                let ghost rv = removed_values(shapes@);
                proof {
                    lemma_remove_fwd_ok_fits(v.shapes, rv);
                }
                check_remove_fits::<OvalShape<F>, ShapeView<F>>(self.shapes.len(), shapes, Ghost(rv))
            },
            UndoAction::AddConnector { index, .. } => *index <= self.connectors.len(),
            UndoAction::RemoveConnector { .. } => true,
        }
    }
}

/// What a shape shows apart from its geometry: whether it is selected or being
/// edited, the text to draw, the cursor and selection of the text being edited,
/// and whether its resize handles are shown.
pub struct ShapeDisplay {
    pub selected: bool,
    pub editing: bool,
    pub text: String,
    pub cursor_offset: Option<usize>,
    pub selected_range: Option<Range<usize>>,
    pub show_handles: bool,
}

impl<F: Copy> CanvasState<F> {
    /// How the shape at `index` is shown. While it is being edited, its text,
    /// cursor and selection come from `editing_state` (empty text and cursor 0
    /// when there is none); a selected shape that is not being edited shows
    /// its resize handles.
    pub fn shape_display(&self, index: usize, editing_state: Option<&TextInputState>) -> (r:
        ShapeDisplay)
        requires
            index < self@.shapes.len(),
        ensures
            r.selected == self@.selected.contains(index),
            r.editing == (self@.editing == Some(index)),
            r.text@ == (if self@.editing == Some(index) {
                match editing_state {
                    Some(e) => e@.current.content,
                    None => Seq::<char>::empty(),
                }
            } else {
                self@.shapes[index as int].text
            }),
            r.cursor_offset == (if self@.editing == Some(index) {
                match editing_state {
                    Some(e) => Some(cursor_of(e@.current) as usize),
                    None => Some(0usize),
                }
            } else {
                None::<usize>
            }),
            self@.editing == Some(index) && editing_state is Some ==> (r.selected_range matches Some(
                sr,
            ) && sr.start == editing_state->0@.current.start && sr.end
                == editing_state->0@.current.end),
            !(self@.editing == Some(index) && editing_state is Some) ==> r.selected_range is None,
            r.show_handles == (self@.selected.contains(index) && self@.editing != Some(index)),
    {
        let selected = contains_index(&self.selected, index);
        let editing = match self.editing {
            Some(e) => e == index,
            None => false,
        };
        let text = if editing {
            match editing_state {
                Some(e) => e.content().to_owned(),
                None => String::new(),
            }
        } else {
            proof {
                lemma_shape_values_index(self.shapes@, index as int);
            }
            self.shapes[index].text().to_owned()
        };
        let cursor_offset = if editing {
            match editing_state {
                Some(e) => Some(e.cursor_offset()),
                None => Some(0),
            }
        } else {
            None
        };
        let selected_range = if editing {
            match editing_state {
                Some(e) => Some(e.selected_range()),
                None => None,
            }
        } else {
            None
        };
        ShapeDisplay {
            selected,
            editing,
            text,
            cursor_offset,
            selected_range,
            show_handles: selected && !editing,
        }
    }

    /// The selected shape when exactly one is selected, else `None`.
    pub fn single_selected(&self) -> (r: Option<usize>)
        ensures
            r == (if self@.selected.len() == 1 {
                Some(self@.selected[0])
            } else {
                None::<usize>
            }),
    {
        if self.selected.len() == 1 {
            Some(self.selected[0])
        } else {
            None
        }
    }

    /// Whether the shape at `index` is selected.
    pub fn is_selected(&self, index: usize) -> (r: bool)
        ensures
            r == self@.selected.contains(index),
    {
        contains_index(&self.selected, index)
    }

    /// Whether the connector at `index` is selected.
    pub fn connector_selected(&self, index: usize) -> (r: bool)
        ensures
            r == self@.selected_connectors.contains(index),
    {
        contains_index(&self.selected_connectors, index)
    }
}

proof fn lemma_shape_values_index<F>(s: Seq<OvalShape<F>>, i: int)
    requires
        0 <= i < s.len(),
    ensures
        shape_values(s)[i] == s[i]@,
{
}

} // verus!
