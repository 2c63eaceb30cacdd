//! Tests for the selection helpers and whole-document rendering.

use shape_editor::canvas::Canvas;
use shape_editor::draw_state::DrawState;
use shape_editor::point::Point;
use shape_editor::rgba::RGBA;
use shape_editor::select::MouseEvent;
use shape_editor::select::ShapeSelected;
use shape_editor::shape::new_shape_from_core;
use shape_editor::shape_core::Shape;
use shape_editor::shape_core::ShapeCore;

#[test]
fn shape_selected_new() {
    let s = ShapeSelected::new(3);
    assert_eq!(s.index, 3);
    assert!(s.control_point_selected.is_none());
    assert!(s.coord_clicked.is_none());
}

#[test]
fn shape_selected_with_point_and_control_point() {
    let mut s = ShapeSelected::new_with_point(1, Point(4, 5));
    assert_eq!(s.index, 1);
    assert_eq!(s.coord_clicked, Some(Point(4, 5)));
    s.set_control_point(2);
    assert_eq!(s.control_point_selected, Some(2));
    assert_eq!(s.coord_clicked, Some(Point(4, 5)));
}

#[test]
fn mouse_events_compare() {
    assert_eq!(MouseEvent::Click, MouseEvent::Click);
    assert_ne!(MouseEvent::Click, MouseEvent::Release);
}

#[test]
fn draw_all_clears_and_draws_in_order() {
    let mut state = DrawState::new();
    state.change_background_color(RGBA::new(10, 10, 10, 255));
    state.add_shape(new_shape_from_core(ShapeCore {
        points: vec![Point(0, 0), Point(4, 0)],
        color: RGBA::new(255, 0, 0, 255),
        fill_color: RGBA::new(0, 0, 0, 0),
        shape_type: Shape::Line,
    }));
    let mut canvas = Canvas::new(6, 3);
    state.draw_all(&mut canvas);
    assert_eq!(canvas.get_pixel(2, 0), RGBA::new(255, 0, 0, 255));
    assert_eq!(canvas.get_pixel(2, 2), RGBA::new(10, 10, 10, 255));
}

#[test]
fn selection_handles_mark_control_points() {
    let handle = RGBA::new(255, 80, 80, 255);
    let mut canvas = Canvas::new(20, 20);
    let shape = new_shape_from_core(ShapeCore {
        points: vec![Point(5, 5), Point(14, 5)],
        color: RGBA::new(1, 1, 1, 255),
        fill_color: RGBA::new(0, 0, 0, 0),
        shape_type: Shape::Line,
    });
    shape.draw_selection(handle, handle, &mut canvas);
    // the handle color covers the control point, the white ring sits
    // just outside the inner disc
    assert_eq!(canvas.get_pixel(5, 5), handle);
    assert_eq!(canvas.get_pixel(14, 5), handle);
    assert_eq!(canvas.get_pixel(5, 9), RGBA::new(255, 255, 255, 255));
    assert_eq!(canvas.get_pixel(5, 12), RGBA::new(0, 0, 0, 0));
}
