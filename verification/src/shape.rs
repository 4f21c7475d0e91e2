//! Shapes and connectors on a drawing canvas, and the canvas state that holds
//! them with selection, editing and undo/redo.
//!
//! Geometry values are carried as an opaque scalar type `F` (the UI uses
//! `f32`): the canvas logic stores, copies and restores them but never
//! computes with them. Hit testing, resizing and other geometry live with the
//! UI, which hands the canvas the indices and values it decided on.

use vstd::prelude::*;


pub mod canvas;
pub mod canvas_laws;
pub mod draw_view;

pub use canvas::{CanvasState, ClipboardConnector, ClipboardData, ShapeDisplay};


verus! {

/// The type of shape on the canvas.
#[derive(Clone, Copy, Debug, PartialEq, Eq, Structural)]
pub enum ShapeKind {
    Oval,
    Circle,
    Rectangle,
    Square,
}

/// A resize handle on the bounding box of an oval.
/// Corners allow free resize (both axes), midpoints constrain to one axis.
#[derive(Clone, Copy, Debug, PartialEq, Eq, Structural)]
pub enum ResizeHandle {
    TopLeft,
    Top,
    TopRight,
    Right,
    BottomRight,
    Bottom,
    BottomLeft,
    Left,
}

impl ResizeHandle {
    /// All 8 handles in clockwise order starting from TopLeft.
    pub const ALL: [ResizeHandle; 8] = [
        ResizeHandle::TopLeft,
        ResizeHandle::Top,
        ResizeHandle::TopRight,
        ResizeHandle::Right,
        ResizeHandle::BottomRight,
        ResizeHandle::Bottom,
        ResizeHandle::BottomLeft,
        ResizeHandle::Left,
    ];
}

/// The kind a shape has when none is given.
pub fn default_oval_kind() -> (k: ShapeKind)
    ensures
        k == ShapeKind::Oval,
{
    ShapeKind::Oval
}

/// The value of a shape: kind, geometry and text.
pub struct ShapeView<F> {
    pub kind: ShapeKind,
    pub center_x: F,
    pub center_y: F,
    pub rx: F,
    pub ry: F,
    pub border_width: F,
    pub text: Seq<char>,
}

/// A shape on the canvas.
pub struct OvalShape<F> {
    kind: ShapeKind,
    center_x: F,
    center_y: F,
    rx: F,
    ry: F,
    border_width: F,
    text: String,
}

impl<F> View for OvalShape<F> {
    type V = ShapeView<F>;

    closed spec fn view(&self) -> ShapeView<F> {
        ShapeView {
            kind: self.kind,
            center_x: self.center_x,
            center_y: self.center_y,
            rx: self.rx,
            ry: self.ry,
            border_width: self.border_width,
            text: self.text@,
        }
    }
}

impl<F: Copy> OvalShape<F> {
    /// A shape with every field given.
    pub fn from_parts(
        kind: ShapeKind,
        center_x: F,
        center_y: F,
        rx: F,
        ry: F,
        border_width: F,
        text: String,
    ) -> (s: Self)
        ensures
            s@ == (ShapeView { kind, center_x, center_y, rx, ry, border_width, text: text@ }),
    {
        OvalShape { kind, center_x, center_y, rx, ry, border_width, text }
    }

    /// A copy of the shape.
    pub fn duplicate(&self) -> (s: Self)
        ensures
            s@ == self@,
    {
        OvalShape {
            kind: self.kind,
            center_x: self.center_x,
            center_y: self.center_y,
            rx: self.rx,
            ry: self.ry,
            border_width: self.border_width,
            text: self.text.clone(),
        }
    }

    pub fn kind(&self) -> (k: ShapeKind)
        ensures
            k == self@.kind,
    {
        self.kind
    }

    pub fn center(&self) -> (c: (F, F))
        ensures
            c == (self@.center_x, self@.center_y),
    {
        (self.center_x, self.center_y)
    }

    pub fn rx(&self) -> (r: F)
        ensures
            r == self@.rx,
    {
        self.rx
    }

    pub fn ry(&self) -> (r: F)
        ensures
            r == self@.ry,
    {
        self.ry
    }

    pub fn border_width(&self) -> (w: F)
        ensures
            w == self@.border_width,
    {
        self.border_width
    }

    pub fn text(&self) -> (t: &str)
        ensures
            t@ == self@.text,
    {
        self.text.as_str()
    }

    pub fn set_text(&mut self, text: &str)
        ensures
            final(self)@ == (ShapeView { text: text@, ..old(self)@ }),
    {
        self.text = text.to_owned();
    }

    pub fn move_to(&mut self, cx: F, cy: F)
        ensures
            final(self)@ == (ShapeView { center_x: cx, center_y: cy, ..old(self)@ }),
    {
        self.center_x = cx;
        self.center_y = cy;
    }

    /// Set the two radii, keeping everything else.
    pub fn set_radii(&mut self, rx: F, ry: F)
        ensures
            final(self)@ == (ShapeView { rx, ry, ..old(self)@ }),
    {
        self.rx = rx;
        self.ry = ry;
    }
}

/// The value of a connector.
pub struct ConnectorView<F> {
    pub source: usize,
    pub target: usize,
    pub curvature: F,
}

/// A curved connector line between two shapes.
pub struct Connector<F> {
    source: usize,
    target: usize,
    curvature: F,
}

impl<F> View for Connector<F> {
    type V = ConnectorView<F>;

    closed spec fn view(&self) -> ConnectorView<F> {
        ConnectorView { source: self.source, target: self.target, curvature: self.curvature }
    }
}

impl<F: Copy> Connector<F> {
    /// A connector from `source` to `target` with the given curvature.
    pub fn with_curvature(source: usize, target: usize, curvature: F) -> (c: Self)
        ensures
            c@ == (ConnectorView { source, target, curvature }),
    {
        Connector { source, target, curvature }
    }

    /// A copy of the connector.
    pub fn duplicate(&self) -> (c: Self)
        ensures
            c@ == self@,
    {
        Connector { source: self.source, target: self.target, curvature: self.curvature }
    }

    pub fn source(&self) -> (s: usize)
        ensures
            s == self@.source,
    {
        self.source
    }

    pub fn target(&self) -> (t: usize)
        ensures
            t == self@.target,
    {
        self.target
    }

    pub fn curvature(&self) -> (c: F)
        ensures
            c == self@.curvature,
    {
        self.curvature
    }

    pub fn set_curvature(&mut self, curvature: F)
        ensures
            final(self)@ == (ConnectorView { curvature, ..old(self)@ }),
    {
        self.curvature = curvature;
    }
}

} // verus!
