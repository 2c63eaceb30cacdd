//! Tests for the history-backed shape store: coalescing, bounded
//! eviction, undo/redo, selection helpers, and the persistence
//! boundary.

use shape_editor::draw_state::DrawState;
use shape_editor::draw_state::RecordType;
use shape_editor::point::Point;
use shape_editor::point::Ratio;
use shape_editor::rgba::RGBA;
use shape_editor::shape::new_shape_from_core;
use shape_editor::shape_core::Shape;
use shape_editor::shape_core::ShapeCore;
use shape_editor::shape_core::UpdateOp;

const WHITE: RGBA = RGBA { r: 255, g: 255, b: 255, a: 255 };
const CLEAR: RGBA = RGBA { r: 0, g: 0, b: 0, a: 0 };

fn line_core(x0: i32, y0: i32, x1: i32, y1: i32) -> ShapeCore {
    ShapeCore {
        points: vec![Point(x0, y0), Point(x1, y1)],
        color: WHITE,
        fill_color: CLEAR,
        shape_type: Shape::Line,
    }
}

fn bezier_core(points: Vec<Point>) -> ShapeCore {
    ShapeCore { points, color: WHITE, fill_color: CLEAR, shape_type: Shape::Bezier }
}

fn points_of(state: &DrawState, idx: usize) -> Vec<Point> {
    state.get_object(idx).get_core().points
}

#[test]
fn create_and_get() {
    let mut state = DrawState::new();
    assert_eq!(state.get_objects().len(), 0);
    state.add_shape(new_shape_from_core(line_core(0, 0, 5, 5)));
    assert_eq!(state.get_objects().len(), 1);
    assert_eq!(points_of(&state, 0), vec![Point(0, 0), Point(5, 5)]);
    assert_eq!(state.history_len(), 1);
}

#[test]
fn update_then_undo_restores_previous_core() {
    let mut state = DrawState::new();
    state.add_shape(new_shape_from_core(line_core(1, 2, 3, 4)));
    state.update_shape(0, UpdateOp::Move(Point(10, -1)));
    assert_eq!(points_of(&state, 0), vec![Point(11, 1), Point(13, 3)]);
    state.undo();
    assert_eq!(points_of(&state, 0), vec![Point(1, 2), Point(3, 4)]);
}

#[test]
fn undo_works_for_every_op_variant() {
    let ops = vec![
        UpdateOp::Move(Point(2, 3)),
        UpdateOp::ChangeColor(RGBA::new(1, 2, 3, 4)),
        UpdateOp::ChangeFillColor(RGBA::new(4, 3, 2, 1)),
        UpdateOp::AddControlPoint(Point(9, 9)),
        UpdateOp::ControlPoint(0, Point(-5, -5)),
        UpdateOp::RewritePoints(vec![Point(7, 7), Point(8, 8)]),
        UpdateOp::UpdateSubdivide(Ratio::new(1, 4)),
        UpdateOp::DegreeElevate,
    ];
    for op in ops {
        let mut state = DrawState::new();
        state.add_shape(new_shape_from_core(bezier_core(vec![
            Point(0, 0),
            Point(10, 0),
            Point(10, 10),
        ])));
        let before = state.get_object(0).get_core();
        state.update_shape(0, op);
        state.undo();
        let after = state.get_object(0).get_core();
        assert_eq!(before.points, after.points);
        assert_eq!(before.color, after.color);
        assert_eq!(before.fill_color, after.fill_color);
        assert_eq!(before.shape_type, after.shape_type);
    }
}

#[test]
fn consecutive_moves_coalesce_into_one_record() {
    let mut state = DrawState::new();
    state.add_shape(new_shape_from_core(line_core(0, 0, 4, 0)));
    for _ in 0..5 {
        state.update_shape(0, UpdateOp::Move(Point(1, 0)));
    }
    // one Creation record plus exactly one coalesced ShapeChange
    assert_eq!(state.history_len(), 2);
    match state.get_history_record(1) {
        Some(RecordType::ShapeChange(idx, UpdateOp::Move(_), prev, post)) => {
            assert_eq!(*idx, 0);
            assert_eq!(prev.points, vec![Point(0, 0), Point(4, 0)]);
            assert_eq!(post.points, vec![Point(5, 0), Point(9, 0)]);
        },
        other => panic!("unexpected record: {:?}", other),
    }
    state.undo();
    assert_eq!(points_of(&state, 0), vec![Point(0, 0), Point(4, 0)]);
}

#[test]
fn moves_of_different_shapes_do_not_coalesce() {
    let mut state = DrawState::new();
    state.add_shape(new_shape_from_core(line_core(0, 0, 1, 1)));
    state.add_shape(new_shape_from_core(line_core(5, 5, 6, 6)));
    state.update_shape(0, UpdateOp::Move(Point(1, 0)));
    state.update_shape(1, UpdateOp::Move(Point(1, 0)));
    assert_eq!(state.history_len(), 4);
}

#[test]
fn background_changes_coalesce() {
    let mut state = DrawState::new();
    state.change_background_color(RGBA::new(1, 1, 1, 255));
    state.change_background_color(RGBA::new(2, 2, 2, 255));
    state.change_background_color(RGBA::new(3, 3, 3, 255));
    assert_eq!(state.history_len(), 1);
    assert_eq!(state.get_background_color(), RGBA::new(3, 3, 3, 255));
    state.undo();
    assert_eq!(state.get_background_color(), CLEAR);
}

#[test]
fn reorder_then_undo_restores_order() {
    let mut state = DrawState::new();
    state.add_shape(new_shape_from_core(line_core(0, 0, 1, 0)));
    state.add_shape(new_shape_from_core(line_core(0, 1, 1, 1)));
    state.add_shape(new_shape_from_core(line_core(0, 2, 1, 2)));
    state.reorder_shape(0, 2);
    assert_eq!(points_of(&state, 0)[0], Point(0, 1));
    assert_eq!(points_of(&state, 2)[0], Point(0, 0));
    state.undo();
    assert_eq!(points_of(&state, 0)[0], Point(0, 0));
    assert_eq!(points_of(&state, 1)[0], Point(0, 1));
    assert_eq!(points_of(&state, 2)[0], Point(0, 2));
}

#[test]
fn history_cap_limits_undo_depth() {
    let mut state = DrawState::new();
    for i in 0..105 {
        state.add_shape(new_shape_from_core(line_core(i, 0, i + 1, 1)));
    }
    assert_eq!(state.history_len(), 100);
    for _ in 0..105 {
        state.undo();
    }
    // only the last 100 creations could be undone; the first 5 are
    // irrecoverable
    assert_eq!(state.get_objects().len(), 5);
    assert_eq!(points_of(&state, 0)[0], Point(0, 0));
    assert_eq!(points_of(&state, 4)[0], Point(4, 0));
}

#[test]
fn delete_and_undo_and_redo() {
    let mut state = DrawState::new();
    state.add_shape(new_shape_from_core(line_core(0, 0, 1, 0)));
    state.add_shape(new_shape_from_core(line_core(0, 1, 1, 1)));
    state.delete_shape(0);
    assert_eq!(state.get_objects().len(), 1);
    assert_eq!(points_of(&state, 0)[0], Point(0, 1));
    state.undo();
    assert_eq!(state.get_objects().len(), 2);
    assert_eq!(points_of(&state, 0)[0], Point(0, 0));
    state.redo();
    assert_eq!(state.get_objects().len(), 1);
    assert_eq!(points_of(&state, 0)[0], Point(0, 1));
}

#[test]
fn delete_out_of_range_is_a_noop() {
    let mut state = DrawState::new();
    state.add_shape(new_shape_from_core(line_core(0, 0, 1, 0)));
    state.delete_shape(7);
    state.reorder_shape(0, 9);
    state.update_shape(3, UpdateOp::Move(Point(1, 1)));
    assert_eq!(state.get_objects().len(), 1);
    assert_eq!(state.history_len(), 1);
    assert_eq!(points_of(&state, 0), vec![Point(0, 0), Point(1, 0)]);
}

#[test]
fn clear_and_undo_restores_all_shapes() {
    let mut state = DrawState::new();
    state.add_shape(new_shape_from_core(line_core(0, 0, 1, 0)));
    state.add_shape(new_shape_from_core(line_core(2, 2, 3, 3)));
    state.clear();
    assert_eq!(state.get_objects().len(), 0);
    state.undo();
    assert_eq!(state.get_objects().len(), 2);
    assert_eq!(points_of(&state, 1), vec![Point(2, 2), Point(3, 3)]);
    state.redo();
    assert_eq!(state.get_objects().len(), 0);
}

#[test]
fn new_action_discards_redo_branch() {
    let mut state = DrawState::new();
    state.add_shape(new_shape_from_core(line_core(0, 0, 1, 0)));
    state.add_shape(new_shape_from_core(line_core(2, 2, 3, 3)));
    state.undo();
    assert_eq!(state.get_objects().len(), 1);
    state.add_shape(new_shape_from_core(line_core(9, 9, 9, 8)));
    // the undone creation can no longer be redone
    state.redo();
    assert_eq!(state.get_objects().len(), 2);
    assert_eq!(points_of(&state, 1)[0], Point(9, 9));
}

#[test]
fn subdivide_replaces_and_appends() {
    let mut state = DrawState::new();
    state.add_shape(new_shape_from_core(bezier_core(vec![
        Point(0, 0),
        Point(10, 0),
        Point(10, 10),
        Point(0, 10),
    ])));
    state.subdivide_shape(0);
    assert_eq!(state.get_objects().len(), 2);
    let left = points_of(&state, 0);
    let right = points_of(&state, 1);
    assert_eq!(left.len(), 4);
    assert_eq!(right.len(), 4);
    assert_eq!(left[0], Point(0, 0));
    assert_eq!(*left.last().unwrap(), right[0]);
    assert_eq!(*right.last().unwrap(), Point(0, 10));
    state.undo();
    assert_eq!(state.get_objects().len(), 1);
    assert_eq!(
        points_of(&state, 0),
        vec![Point(0, 0), Point(10, 0), Point(10, 10), Point(0, 10)]
    );
}

#[test]
fn subdivide_non_curve_is_a_noop() {
    let mut state = DrawState::new();
    state.add_shape(new_shape_from_core(line_core(0, 0, 5, 5)));
    state.subdivide_shape(0);
    assert_eq!(state.get_objects().len(), 1);
    assert_eq!(state.history_len(), 1);
}

#[test]
fn undo_at_the_start_does_nothing() {
    let mut state = DrawState::new();
    state.undo();
    state.redo();
    assert_eq!(state.get_objects().len(), 0);
    assert_eq!(state.history_len(), 0);
}

#[test]
fn hit_test_topmost_prefers_later_shapes() {
    let mut state = DrawState::new();
    let fill = RGBA::new(5, 5, 5, 255);
    let mut rect1 = line_core(0, 0, 10, 10);
    rect1.shape_type = Shape::Rectangle;
    rect1.fill_color = fill;
    let mut rect2 = line_core(5, 5, 15, 15);
    rect2.shape_type = Shape::Rectangle;
    rect2.fill_color = fill;
    state.add_shape(new_shape_from_core(rect1));
    state.add_shape(new_shape_from_core(rect2));
    assert_eq!(state.hit_test_topmost(Point(7, 7)), Some(1));
    assert_eq!(state.hit_test_topmost(Point(2, 2)), Some(0));
    assert_eq!(state.hit_test_topmost(Point(30, 30)), None);
}

#[test]
fn hit_test_control_point_picks_first_within_radius() {
    let mut state = DrawState::new();
    state.add_shape(new_shape_from_core(line_core(0, 0, 100, 0)));
    assert_eq!(state.hit_test_control_point(0, Point(3, 4), 10), Some(0));
    assert_eq!(state.hit_test_control_point(0, Point(98, -2), 10), Some(1));
    assert_eq!(state.hit_test_control_point(0, Point(50, 50), 10), None);
    assert_eq!(state.hit_test_control_point(9, Point(0, 0), 10), None);
}

#[test]
fn export_import_round_trip() {
    let mut state = DrawState::new();
    state.add_shape(new_shape_from_core(line_core(1, 1, 2, 2)));
    state.change_background_color(RGBA::new(9, 8, 7, 255));
    let (cores, bg) = state.export_state();

    let mut fresh = DrawState::new();
    let res = fresh.import_state(cores, bg);
    assert!(res.is_ok());
    assert_eq!(fresh.get_objects().len(), 1);
    assert_eq!(points_of(&fresh, 0), vec![Point(1, 1), Point(2, 2)]);
    assert_eq!(fresh.get_background_color(), RGBA::new(9, 8, 7, 255));
    // importing clears the undo history
    assert_eq!(fresh.history_len(), 0);
}

#[test]
fn import_rejects_malformed_state_atomically() {
    let mut state = DrawState::new();
    state.add_shape(new_shape_from_core(line_core(1, 1, 2, 2)));
    let bad = ShapeCore {
        points: vec![Point(0, 0)],
        color: WHITE,
        fill_color: CLEAR,
        shape_type: Shape::Line,
    };
    let res = state.import_state(vec![line_core(0, 0, 1, 1), bad], CLEAR);
    let err = res.unwrap_err();
    assert_eq!(err.index, 1);
    // prior state untouched
    assert_eq!(state.get_objects().len(), 1);
    assert_eq!(points_of(&state, 0), vec![Point(1, 1), Point(2, 2)]);
    assert_eq!(state.history_len(), 1);
}

#[test]
fn import_rejects_out_of_range_coordinates() {
    let mut state = DrawState::new();
    let far = ShapeCore {
        points: vec![Point(0, 0), Point(100000, 0)],
        color: WHITE,
        fill_color: CLEAR,
        shape_type: Shape::Line,
    };
    let res = state.import_state(vec![far], CLEAR);
    assert!(res.is_err());
}
