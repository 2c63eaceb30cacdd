//! Selection state and the mouse events the controller hands to the
//! engine.

use vstd::prelude::*;

use crate::point::Point;

verus! {

/// A pointer event, independent of any windowing library.
#[derive(Copy, Clone, Debug, PartialEq, Eq, Structural)]
pub enum MouseEvent {
    Click,
    Move,
    PressDrag,
    Release,
}

/// The current selection: the index of the selected shape, possibly a
/// selected control point, and, while dragging, the coordinate the
/// drag started from.
#[derive(Clone, Debug)]
pub struct ShapeSelected {
    /// The index of the selected shape in the store's shape list.
    pub index: usize,
    /// The index of the selected control point, if any.
    pub control_point_selected: Option<usize>,
    /// The coordinate where the pointer went down to start moving the
    /// shape.
    pub coord_clicked: Option<Point>,
}

impl ShapeSelected {
    /// Creates a selection of just the shape at `index`.
    pub fn new(index: usize) -> (s: ShapeSelected)
        ensures
            s.index == index,
            s.control_point_selected is None,
            s.coord_clicked is None,
    {
        ShapeSelected { index, control_point_selected: None, coord_clicked: None }
    }

    /// Creates a selection of the shape at `index` with the coordinate
    /// the pointer went down at.
    pub fn new_with_point(index: usize, click: Point) -> (s: ShapeSelected)
        ensures
            s.index == index,
            s.control_point_selected is None,
            s.coord_clicked == Some(click),
    {
        ShapeSelected { index, control_point_selected: None, coord_clicked: Some(click) }
    }

    /// Marks a control point of the selected shape as selected.
    pub fn set_control_point(&mut self, ptn: usize)
        ensures
            final(self).index == old(self).index,
            final(self).control_point_selected == Some(ptn),
            final(self).coord_clicked == old(self).coord_clicked,
    {
        self.control_point_selected = Some(ptn);
    }
}

} // verus!
