//! Tests for the canvas and the scan-conversion rasterizers and hit
//! tests.

use shape_editor::canvas::Canvas;
use shape_editor::ellipse::Ellipse;
use shape_editor::line::draw_line;
use shape_editor::line::line_hit_test;
use shape_editor::line::Line;
use shape_editor::point::Point;
use shape_editor::rectangle::draw_rectangle;
use shape_editor::rectangle::Rectangle;
use shape_editor::rgba::RGBA;
use shape_editor::shape_core::Shape;
use shape_editor::shape_core::ShapeCore;
use shape_editor::triangle::draw_triangle;
use shape_editor::triangle::Triangle;

const WHITE: RGBA = RGBA { r: 255, g: 255, b: 255, a: 255 };
const CLEAR: RGBA = RGBA { r: 0, g: 0, b: 0, a: 0 };

fn core_of(points: Vec<Point>, kind: Shape, fill: RGBA) -> ShapeCore {
    ShapeCore { points, color: WHITE, fill_color: fill, shape_type: kind }
}

fn painted(canvas: &Canvas, x: usize, y: usize) -> bool {
    canvas.get_pixel(x, y).a != 0
}

#[test]
fn canvas_set_and_get() {
    let mut canvas = Canvas::new(4, 3);
    assert_eq!(canvas.width(), 4);
    assert_eq!(canvas.height(), 3);
    canvas.set_pixel(2, 1, WHITE);
    assert_eq!(canvas.get_pixel(2, 1), WHITE);
    assert_eq!(canvas.get_pixel(0, 0), CLEAR);
}

#[test]
fn canvas_ignores_out_of_bounds() {
    let mut canvas = Canvas::new(2, 2);
    canvas.set_pixel(-1, 0, WHITE);
    canvas.set_pixel(0, -1, WHITE);
    canvas.set_pixel(2, 0, WHITE);
    canvas.set_pixel(0, 2, WHITE);
    for x in 0..2 {
        for y in 0..2 {
            assert_eq!(canvas.get_pixel(x, y), CLEAR);
        }
    }
}

#[test]
fn canvas_clear_overwrites_all() {
    let mut canvas = Canvas::new(3, 3);
    let teal = RGBA::new(0, 128, 128, 77);
    canvas.clear(teal);
    for x in 0..3 {
        for y in 0..3 {
            assert_eq!(canvas.get_pixel(x, y), teal);
        }
    }
}

#[test]
fn horizontal_line_is_endpoint_inclusive() {
    let mut canvas = Canvas::new(6, 3);
    let core = core_of(vec![Point(0, 1), Point(4, 1)], Shape::Line, CLEAR);
    draw_line(&core, &mut canvas, true);
    for x in 0..5 {
        assert!(painted(&canvas, x, 1), "missing pixel at x={}", x);
    }
    assert!(!painted(&canvas, 5, 1));
    assert!(!painted(&canvas, 0, 0));
}

#[test]
fn vertical_line_is_endpoint_inclusive() {
    let mut canvas = Canvas::new(3, 6);
    let core = core_of(vec![Point(1, 0), Point(1, 4)], Shape::Line, CLEAR);
    draw_line(&core, &mut canvas, true);
    for y in 0..5 {
        assert!(painted(&canvas, 1, y), "missing pixel at y={}", y);
    }
    assert!(!painted(&canvas, 1, 5));
    assert!(!painted(&canvas, 0, 0));
}

#[test]
fn diagonal_line_walks_the_diagonal() {
    let mut canvas = Canvas::new(5, 5);
    let core = core_of(vec![Point(0, 0), Point(4, 4)], Shape::Line, CLEAR);
    draw_line(&core, &mut canvas, true);
    for k in 0..5 {
        assert!(painted(&canvas, k, k), "missing pixel at {}", k);
    }
}

#[test]
fn suppressed_first_pixel_is_skipped() {
    let mut canvas = Canvas::new(6, 3);
    let core = core_of(vec![Point(0, 1), Point(4, 1)], Shape::Line, CLEAR);
    draw_line(&core, &mut canvas, false);
    assert!(!painted(&canvas, 0, 1));
    assert!(painted(&canvas, 1, 1));
    assert!(painted(&canvas, 4, 1));
}

#[test]
fn line_hit_near_and_far() {
    let core = core_of(vec![Point(0, 0), Point(10, 0)], Shape::Line, CLEAR);
    assert!(line_hit_test(&core, Point(5, 0)));
    assert!(!line_hit_test(&core, Point(5, 20)));
}

#[test]
fn line_hit_degenerate_segment() {
    let core = core_of(vec![Point(3, 3), Point(3, 3)], Shape::Line, CLEAR);
    assert!(line_hit_test(&core, Point(3, 3)));
    assert!(line_hit_test(&core, Point(9, 9)));
    assert!(!line_hit_test(&core, Point(30, 30)));
}

#[test]
fn rectangle_border_and_fill() {
    let mut canvas = Canvas::new(8, 8);
    let fill = RGBA::new(10, 20, 30, 255);
    let core = core_of(vec![Point(1, 1), Point(5, 4)], Shape::Rectangle, fill);
    draw_rectangle(&core, &mut canvas);
    // corners
    assert_eq!(canvas.get_pixel(1, 1), WHITE);
    assert_eq!(canvas.get_pixel(5, 1), WHITE);
    assert_eq!(canvas.get_pixel(1, 4), WHITE);
    assert_eq!(canvas.get_pixel(5, 4), WHITE);
    // edges
    assert_eq!(canvas.get_pixel(3, 1), WHITE);
    assert_eq!(canvas.get_pixel(3, 4), WHITE);
    assert_eq!(canvas.get_pixel(1, 2), WHITE);
    assert_eq!(canvas.get_pixel(5, 2), WHITE);
    // interior
    assert_eq!(canvas.get_pixel(2, 2), fill);
    assert_eq!(canvas.get_pixel(4, 3), fill);
    // outside
    assert_eq!(canvas.get_pixel(6, 2), CLEAR);
}

#[test]
fn rectangle_corners_written_once_under_partial_alpha() {
    // Compositing is not idempotent under partial alpha, so a corner
    // composited twice would differ from an edge pixel.
    let half = RGBA::new(200, 200, 200, 128);
    let mut canvas = Canvas::new(8, 8);
    let mut core = core_of(vec![Point(1, 1), Point(5, 4)], Shape::Rectangle, CLEAR);
    core.color = half;
    draw_rectangle(&core, &mut canvas);
    assert_eq!(canvas.get_pixel(1, 1), canvas.get_pixel(3, 1));
    assert_eq!(canvas.get_pixel(5, 4), canvas.get_pixel(3, 4));
}

#[test]
fn rectangle_hit_filled_and_missed() {
    let fill = RGBA::new(10, 20, 30, 255);
    let rect = Rectangle::new(core_of(
        vec![Point(0, 0), Point(10, 10)],
        Shape::Rectangle,
        fill,
    ));
    assert!(rect.hit_test(Point(5, 5)));
    assert!(!rect.hit_test(Point(20, 20)));
}

#[test]
fn rectangle_hit_unfilled_only_near_border() {
    let rect = Rectangle::new(core_of(
        vec![Point(0, 0), Point(20, 20)],
        Shape::Rectangle,
        CLEAR,
    ));
    assert!(rect.hit_test(Point(0, 10)));
    assert!(rect.hit_test(Point(20, 3)));
    assert!(!rect.hit_test(Point(10, 10)));
}

#[test]
fn ellipse_extreme_points_are_drawn() {
    let mut canvas = Canvas::new(12, 12);
    let core = core_of(vec![Point(1, 2), Point(9, 8)], Shape::Ellipse, CLEAR);
    // center (5,5), a=4, b=3
    shape_editor::ellipse::draw_ellipse(&core, &mut canvas);
    assert!(painted(&canvas, 5, 2));
    assert!(painted(&canvas, 5, 8));
    assert!(painted(&canvas, 1, 5));
    assert!(painted(&canvas, 9, 5));
    assert!(!painted(&canvas, 5, 5));
}

#[test]
fn filled_ellipse_paints_its_center() {
    let mut canvas = Canvas::new(12, 12);
    let fill = RGBA::new(9, 9, 9, 255);
    let core = core_of(vec![Point(1, 2), Point(9, 8)], Shape::Ellipse, fill);
    shape_editor::ellipse::draw_ellipse(&core, &mut canvas);
    assert_eq!(canvas.get_pixel(5, 5), fill);
}

#[test]
fn ellipse_hit_inside_outside() {
    let ell = Ellipse::new(core_of(vec![Point(-4, -3), Point(4, 3)], Shape::Ellipse, CLEAR));
    assert!(ell.hit_test(Point(0, 0)));
    assert!(ell.hit_test(Point(4, 0)));
    assert!(!ell.hit_test(Point(4, 3)));
}

#[test]
fn ellipse_hit_is_centrally_symmetric() {
    let ell = Ellipse::new(core_of(vec![Point(-6, -4), Point(6, 4)], Shape::Ellipse, CLEAR));
    for x in -8..=8 {
        for y in -6..=6 {
            assert_eq!(
                ell.hit_test(Point(x, y)),
                ell.hit_test(Point(-x, -y)),
                "asymmetry at ({}, {})",
                x,
                y
            );
        }
    }
}

#[test]
fn triangle_edges_are_drawn() {
    let mut canvas = Canvas::new(12, 12);
    let core = core_of(
        vec![Point(1, 1), Point(9, 1), Point(1, 9)],
        Shape::Triangle,
        CLEAR,
    );
    draw_triangle(&core, &mut canvas);
    assert!(painted(&canvas, 1, 1));
    assert!(painted(&canvas, 9, 1));
    assert!(painted(&canvas, 1, 9));
    assert!(painted(&canvas, 5, 1));
    assert!(painted(&canvas, 1, 5));
}

#[test]
fn triangle_vertices_written_once_under_partial_alpha() {
    let half = RGBA::new(200, 200, 200, 120);
    let mut canvas = Canvas::new(12, 12);
    let mut core = core_of(
        vec![Point(1, 1), Point(9, 1), Point(1, 9)],
        Shape::Triangle,
        CLEAR,
    );
    core.color = half;
    draw_triangle(&core, &mut canvas);
    // A shared vertex composited twice would differ from a mid-edge
    // pixel composited once.
    assert_eq!(canvas.get_pixel(1, 1), canvas.get_pixel(5, 1));
}

#[test]
fn triangle_under_construction_draws_a_segment() {
    let mut canvas = Canvas::new(8, 8);
    let core = core_of(vec![Point(0, 0), Point(4, 0)], Shape::Triangle, CLEAR);
    draw_triangle(&core, &mut canvas);
    // first pixel suppressed while under construction
    assert!(!painted(&canvas, 0, 0));
    assert!(painted(&canvas, 4, 0));
}

#[test]
fn filled_triangle_paints_interior() {
    let fill = RGBA::new(7, 7, 7, 255);
    let mut canvas = Canvas::new(16, 16);
    let core = core_of(
        vec![Point(1, 1), Point(13, 1), Point(1, 13)],
        Shape::Triangle,
        fill,
    );
    draw_triangle(&core, &mut canvas);
    assert_eq!(canvas.get_pixel(4, 4), fill);
    assert_eq!(canvas.get_pixel(14, 14), CLEAR);
}

#[test]
fn triangle_hit_sign_consistency() {
    let tri = Triangle::new(core_of(
        vec![Point(0, 0), Point(10, 0), Point(0, 10)],
        Shape::Triangle,
        CLEAR,
    ));
    assert!(tri.hit_test(Point(2, 2)));
    assert!(tri.hit_test(Point(0, 0)));
    assert!(!tri.hit_test(Point(9, 9)));
}

#[test]
fn triangle_with_two_points_is_never_hit() {
    let tri = Triangle::new(core_of(
        vec![Point(0, 0), Point(10, 0)],
        Shape::Triangle,
        CLEAR,
    ));
    assert!(!tri.hit_test(Point(5, 0)));
}

#[test]
fn line_shape_draws_like_the_free_function() {
    let core = core_of(vec![Point(0, 0), Point(3, 0)], Shape::Line, CLEAR);
    let mut c1 = Canvas::new(5, 2);
    let mut c2 = Canvas::new(5, 2);
    Line::new(core.clone_core()).draw(&mut c1);
    draw_line(&core, &mut c2, true);
    for x in 0..5 {
        for y in 0..2 {
            assert_eq!(c1.get_pixel(x, y), c2.get_pixel(x, y));
        }
    }
}
