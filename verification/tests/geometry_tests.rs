//! Tests for points, colors, interpolation, and curve evaluation.

use shape_editor::bezier::de_casteljau;
use shape_editor::bezier::Bezier;
use shape_editor::point::interp_coord;
use shape_editor::point::Point;
use shape_editor::point::Ratio;
use shape_editor::rgba::is_transparent;
use shape_editor::rgba::mix_colors;
use shape_editor::rgba::rgba;
use shape_editor::rgba::RGBA;
use shape_editor::shape_core::Shape;
use shape_editor::shape_core::ShapeCore;
use shape_editor::shape_core::UpdateOp;

fn core_of(points: Vec<Point>, kind: Shape) -> ShapeCore {
    ShapeCore {
        points,
        color: RGBA::new(255, 255, 255, 255),
        fill_color: RGBA::new(0, 0, 0, 0),
        shape_type: kind,
    }
}

#[test]
fn point_interpolate_endpoints() {
    let a = Point(3, -7);
    let b = Point(-20, 11);
    assert_eq!(a.interpolate(b, Ratio::new(0, 1)), a);
    assert_eq!(a.interpolate(b, Ratio::new(1, 1)), b);
}

#[test]
fn point_interpolate_rounds_half_away_from_zero() {
    // 1.5 rounds to 2, -1.5 rounds to -2.
    assert_eq!(Point(0, 0).interpolate(Point(3, -3), Ratio::half()), Point(2, -2));
    assert_eq!(Point(0, 0).interpolate(Point(10, 0), Ratio::half()), Point(5, 0));
}

#[test]
fn interp_coord_exact_values() {
    assert_eq!(interp_coord(0, 10, 1, 2), 5);
    assert_eq!(interp_coord(0, 10, 1, 4), 3); // 2.5 rounds away from zero
    assert_eq!(interp_coord(-10, 0, 1, 4), -8); // -7.5 rounds away from zero
}

#[test]
fn point_dot_and_box() {
    assert_eq!(Point(2, 3).dot(Point(4, 5)), 23);
    assert!(Point(5, 5).is_within_box(Point(0, 0), Point(10, 10), 0));
    assert!(!Point(11, 5).is_within_box(Point(0, 0), Point(10, 10), 0));
    assert!(Point(11, 5).is_within_box(Point(0, 0), Point(10, 10), 1));
    // corners given in any order
    assert!(Point(5, 5).is_within_box(Point(10, 10), Point(0, 0), 0));
}

#[test]
fn color_transparency() {
    assert!(RGBA::new(10, 20, 30, 0).is_transparent());
    assert!(!RGBA::new(10, 20, 30, 1).is_transparent());
    assert!(is_transparent(rgba(1, 2, 3, 0)));
}

#[test]
fn mix_colors_opaque_overwrites() {
    let src = RGBA::new(200, 100, 50, 255);
    let dst = RGBA::new(1, 2, 3, 255);
    assert_eq!(mix_colors(src, dst), src);
}

#[test]
fn mix_colors_partial_alpha_exact() {
    // channel = (new * a + old * (255 - a)) / 255
    let src = RGBA::new(200, 0, 255, 128);
    let dst = RGBA::new(100, 255, 0, 255);
    let out = mix_colors(src, dst);
    assert_eq!(out.r, ((200u32 * 128 + 100 * 127) / 255) as u8);
    assert_eq!(out.g, ((0u32 * 128 + 255 * 127) / 255) as u8);
    assert_eq!(out.b, ((255u32 * 128 + 0 * 127) / 255) as u8);
    assert_eq!(out.a, 255);
}

#[test]
fn mix_colors_transparent_source_keeps_channels() {
    let src = RGBA::new(9, 9, 9, 0);
    let dst = RGBA::new(100, 110, 120, 255);
    let out = mix_colors(src, dst);
    assert_eq!((out.r, out.g, out.b, out.a), (100, 110, 120, 255));
}

#[test]
fn de_casteljau_hits_first_point_at_zero() {
    let core = core_of(vec![Point(1, 2), Point(30, -4), Point(7, 9)], Shape::Bezier);
    assert_eq!(de_casteljau(&core, Ratio::new(0, 7)), Point(1, 2));
}

#[test]
fn de_casteljau_hits_last_point_at_one() {
    let core = core_of(vec![Point(1, 2), Point(30, -4), Point(7, 9)], Shape::Bezier);
    assert_eq!(de_casteljau(&core, Ratio::new(7, 7)), Point(7, 9));
}

#[test]
fn de_casteljau_midpoint_value() {
    let core = core_of(vec![Point(0, 0), Point(10, 0), Point(10, 10)], Shape::Bezier);
    // rows: (5,0) and (10,5); then (7.5, 2.5) rounded away from zero.
    assert_eq!(de_casteljau(&core, Ratio::half()), Point(8, 3));
}

#[test]
fn degree_elevation_is_shape_preserving() {
    let core = core_of(
        vec![Point(0, 0), Point(12, 4), Point(6, 16), Point(-2, 8)],
        Shape::Bezier,
    );
    let mut bez = Bezier::new(core.clone_core());
    let samples = [
        Ratio::new(0, 10),
        Ratio::new(3, 10),
        Ratio::new(5, 10),
        Ratio::new(7, 10),
        Ratio::new(10, 10),
    ];
    let before: Vec<Point> = samples.iter().map(|t| de_casteljau(&core, *t)).collect();
    bez.update(&UpdateOp::DegreeElevate);
    let elevated = bez.get_core();
    assert_eq!(elevated.points.len(), core.points.len() + 1);
    assert_eq!(elevated.points[0], core.points[0]);
    assert_eq!(*elevated.points.last().unwrap(), *core.points.last().unwrap());
    for (i, t) in samples.iter().enumerate() {
        let after = de_casteljau(&elevated, *t);
        assert!((after.0 - before[i].0).abs() <= 1, "x drifted at sample {}", i);
        assert!((after.1 - before[i].1).abs() <= 1, "y drifted at sample {}", i);
    }
}

#[test]
fn subdivision_meets_at_the_curve_point() {
    let core = core_of(
        vec![Point(0, 0), Point(10, 0), Point(10, 10), Point(0, 10)],
        Shape::Bezier,
    );
    let bez = Bezier::new(core.clone_core());
    let (first, second) = bez.subdivide();
    let split = de_casteljau(&core, Ratio::half());
    assert_eq!(first.points.len(), core.points.len());
    assert_eq!(second.points.len(), core.points.len());
    assert_eq!(*first.points.last().unwrap(), split);
    assert_eq!(second.points[0], split);
    assert_eq!(first.points[0], core.points[0]);
    assert_eq!(*second.points.last().unwrap(), *core.points.last().unwrap());
}
