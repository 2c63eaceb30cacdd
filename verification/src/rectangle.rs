//! Axis-aligned rectangles: border and fill scan conversion with an
//! exact pixel-level specification, and the box-based hit test.

use vstd::prelude::*;

use crate::canvas::Canvas;
use crate::canvas::plot;
use crate::canvas::plot_all;
use crate::canvas::lemma_plot_all_app;
use crate::line::line_hit_test;
use crate::line::seg_hit;
use crate::point::Point;
use crate::point::max_i;
use crate::point::min_i;
use crate::point::pt_bounded;
use crate::rgba::RGBA;
use crate::shape_core::CoreModel;
use crate::shape_core::ShapeCore;

verus! {

/// A rectangle shape: a snapshot whose first two points are opposite
/// corners, in any order.
pub struct Rectangle {
    pub core: ShapeCore,
}

/// The cells of the two horizontal border edges, column by column: the
/// bottom row always, the top row when it differs.
pub open spec fn rect_rows_cells(x: int, maxx: int, miny: int, maxy: int) -> Seq<(int, int)>
    decreases maxx + 1 - x,
{
    if x > maxx {
        Seq::empty()
    } else {
        let here: Seq<(int, int)> = if miny != maxy {
            seq![(x, maxy), (x, miny)]
        } else {
            seq![(x, maxy)]
        };
        here + rect_rows_cells(x + 1, maxx, miny, maxy)
    }
}

/// The cells of the two vertical border edges, row by row, corners
/// excluded: the left column always, the right column when it differs.
pub open spec fn rect_cols_cells(y: int, maxy: int, minx: int, maxx: int) -> Seq<(int, int)>
    decreases maxy - y,
{
    if y >= maxy {
        Seq::empty()
    } else {
        let here: Seq<(int, int)> = if minx != maxx {
            seq![(minx, y), (maxx, y)]
        } else {
            seq![(minx, y)]
        };
        here + rect_cols_cells(y + 1, maxy, minx, maxx)
    }
}

/// The cells of one interior column, from `y` up to but excluding
/// `maxy`.
pub open spec fn rect_col_fill_cells(x: int, y: int, maxy: int) -> Seq<(int, int)>
    decreases maxy - y,
{
    if y >= maxy {
        Seq::empty()
    } else {
        seq![(x, y)] + rect_col_fill_cells(x, y + 1, maxy)
    }
}

/// The interior cells, strictly inside the border, column by column.
pub open spec fn rect_fill_cells(x: int, maxx: int, miny: int, maxy: int) -> Seq<(int, int)>
    decreases maxx - x,
{
    if x >= maxx {
        Seq::empty()
    } else {
        rect_col_fill_cells(x, miny + 1, maxy) + rect_fill_cells(x + 1, maxx, miny, maxy)
    }
}

/// The image after drawing the rectangle of `c` onto `s`: the four
/// border edges composited with the border color, each corner exactly
/// once, then, if the fill color is not transparent, the interior
/// composited with it.
pub open spec fn rect_draw_spec(s: Seq<RGBA>, w: int, h: int, c: CoreModel) -> Seq<RGBA> {
    let p1 = c.points[0];
    let p2 = c.points[1];
    let minx = min_i(p1.0 as int, p2.0 as int);
    let maxx = max_i(p1.0 as int, p2.0 as int);
    let miny = min_i(p1.1 as int, p2.1 as int);
    let maxy = max_i(p1.1 as int, p2.1 as int);
    let s1 = plot_all(s, w, h, rect_rows_cells(minx, maxx, miny, maxy), c.color);
    let s2 = plot_all(s1, w, h, rect_cols_cells(miny + 1, maxy, minx, maxx), c.color);
    if c.fill_color.a != 0 {
        plot_all(s2, w, h, rect_fill_cells(minx + 1, maxx, miny, maxy), c.fill_color)
    } else {
        s2
    }
}

/// Draws the rectangle spanned by the first two control points of
/// `core`: the border with the border color, writing each corner pixel
/// exactly once, and the interior with the fill color when it is not
/// transparent.
pub fn draw_rectangle(core: &ShapeCore, canvas: &mut Canvas)
    requires
        core@.points.len() >= 2,
        old(canvas).wf(),
    ensures
        final(canvas).wf(),
        final(canvas).wd() == old(canvas).wd(),
        final(canvas).ht() == old(canvas).ht(),
        final(canvas).img() == rect_draw_spec(
            old(canvas).img(),
            old(canvas).wd(),
            old(canvas).ht(),
            core@,
        ),
{
    let p1: Point = core.points[0];
    let p2: Point = core.points[1];
    let color = core.color;
    let fill = core.fill_color;
    let ghost w = canvas.wd();
    let ghost h = canvas.ht();

    let minx: i64 = (if p1.0 <= p2.0 {
        p1.0
    } else {
        p2.0
    }) as i64;
    let maxx: i64 = (if p1.0 <= p2.0 {
        p2.0
    } else {
        p1.0
    }) as i64;
    let miny: i64 = (if p1.1 <= p2.1 {
        p1.1
    } else {
        p2.1
    }) as i64;
    let maxy: i64 = (if p1.1 <= p2.1 {
        p2.1
    } else {
        p1.1
    }) as i64;

    let ghost target1 = plot_all(
        old(canvas).img(),
        w,
        h,
        rect_rows_cells(minx as int, maxx as int, miny as int, maxy as int),
        color,
    );

    let mut x: i64 = minx;
    while x <= maxx
        invariant
            canvas.wf(),
            canvas.wd() == w,
            canvas.ht() == h,
            minx <= x,
            minx >= i32::MIN,
            maxx <= i32::MAX,
            miny >= i32::MIN,
            maxy <= i32::MAX,
            minx <= maxx,
            miny <= maxy,
            target1 == plot_all(
                canvas.img(),
                w,
                h,
                rect_rows_cells(x as int, maxx as int, miny as int, maxy as int),
                color,
            ),
        decreases maxx + 1 - x,
    {
        let ghost cells = rect_rows_cells(x as int, maxx as int, miny as int, maxy as int);
        let ghost img0 = canvas.img();
        canvas.set_pixel(x as i32, maxy as i32, color);
        if miny != maxy {
            canvas.set_pixel(x as i32, miny as i32, color);
            proof {
                let rest = rect_rows_cells(x + 1, maxx as int, miny as int, maxy as int);
                assert(cells[0] == (x as int, maxy as int));
                assert(cells.drop_first()[0] == (x as int, miny as int));
                assert(cells.drop_first().drop_first() =~= rest);
                let s1 = plot(img0, w, h, x as int, maxy as int, color);
                let s2 = plot(s1, w, h, x as int, miny as int, color);
                assert(plot_all(img0, w, h, cells, color) == plot_all(
                    s1,
                    w,
                    h,
                    cells.drop_first(),
                    color,
                ));
                assert(plot_all(s1, w, h, cells.drop_first(), color) == plot_all(
                    s2,
                    w,
                    h,
                    rest,
                    color,
                ));
            }
        } else {
            proof {
                let rest = rect_rows_cells(x + 1, maxx as int, miny as int, maxy as int);
                assert(cells[0] == (x as int, maxy as int));
                assert(cells.drop_first() =~= rest);
                let s1 = plot(img0, w, h, x as int, maxy as int, color);
                assert(plot_all(img0, w, h, cells, color) == plot_all(s1, w, h, rest, color));
            }
        }
        x = x + 1;
    }
    proof {
        assert(rect_rows_cells(x as int, maxx as int, miny as int, maxy as int)
            =~= Seq::<(int, int)>::empty());
        assert(target1 == canvas.img());
    }

    let ghost target2 = plot_all(
        canvas.img(),
        w,
        h,
        rect_cols_cells(miny as int + 1, maxy as int, minx as int, maxx as int),
        color,
    );

    let mut y: i64 = miny + 1;
    while y < maxy
        invariant
            canvas.wf(),
            canvas.wd() == w,
            canvas.ht() == h,
            miny + 1 <= y || y == miny + 1,
            minx >= i32::MIN,
            maxx <= i32::MAX,
            miny >= i32::MIN,
            maxy <= i32::MAX,
            minx <= maxx,
            miny < y,
            target2 == plot_all(
                canvas.img(),
                w,
                h,
                rect_cols_cells(y as int, maxy as int, minx as int, maxx as int),
                color,
            ),
        decreases maxy - y,
    {
        let ghost cells = rect_cols_cells(y as int, maxy as int, minx as int, maxx as int);
        let ghost img0 = canvas.img();
        canvas.set_pixel(minx as i32, y as i32, color);
        if minx != maxx {
            canvas.set_pixel(maxx as i32, y as i32, color);
            proof {
                let rest = rect_cols_cells(y + 1, maxy as int, minx as int, maxx as int);
                assert(cells[0] == (minx as int, y as int));
                assert(cells.drop_first()[0] == (maxx as int, y as int));
                assert(cells.drop_first().drop_first() =~= rest);
                let s1 = plot(img0, w, h, minx as int, y as int, color);
                let s2 = plot(s1, w, h, maxx as int, y as int, color);
                assert(plot_all(img0, w, h, cells, color) == plot_all(
                    s1,
                    w,
                    h,
                    cells.drop_first(),
                    color,
                ));
                assert(plot_all(s1, w, h, cells.drop_first(), color) == plot_all(
                    s2,
                    w,
                    h,
                    rest,
                    color,
                ));
            }
        } else {
            proof {
                let rest = rect_cols_cells(y + 1, maxy as int, minx as int, maxx as int);
                assert(cells[0] == (minx as int, y as int));
                assert(cells.drop_first() =~= rest);
                let s1 = plot(img0, w, h, minx as int, y as int, color);
                assert(plot_all(img0, w, h, cells, color) == plot_all(s1, w, h, rest, color));
            }
        }
        y = y + 1;
    }
    proof {
        assert(rect_cols_cells(y as int, maxy as int, minx as int, maxx as int)
            =~= Seq::<(int, int)>::empty());
        assert(target2 == canvas.img());
    }

    if fill.a != 0 {
        let ghost target3 = plot_all(
            canvas.img(),
            w,
            h,
            rect_fill_cells(minx as int + 1, maxx as int, miny as int, maxy as int),
            fill,
        );
        let mut fx: i64 = minx + 1;
        while fx < maxx
            invariant
                canvas.wf(),
                canvas.wd() == w,
                canvas.ht() == h,
                minx >= i32::MIN,
                maxx <= i32::MAX,
                miny >= i32::MIN,
                maxy <= i32::MAX,
                miny <= maxy,
                minx < fx,
                target3 == plot_all(
                    canvas.img(),
                    w,
                    h,
                    rect_fill_cells(fx as int, maxx as int, miny as int, maxy as int),
                    fill,
                ),
            decreases maxx - fx,
        {
            let ghost col = rect_col_fill_cells(fx as int, miny as int + 1, maxy as int);
            let ghost rest = rect_fill_cells(fx as int + 1, maxx as int, miny as int, maxy as int);
            proof {
                assert(rect_fill_cells(fx as int, maxx as int, miny as int, maxy as int) == col
                    + rest);
                lemma_plot_all_app(canvas.img(), w, h, col, rest, fill);
            }
            let mut fy: i64 = miny + 1;
            while fy < maxy
                invariant
                    canvas.wf(),
                    canvas.wd() == w,
                    canvas.ht() == h,
                    minx >= i32::MIN,
                    maxx <= i32::MAX,
                    miny >= i32::MIN,
                    maxy <= i32::MAX,
                    miny < fy,
                    minx < fx <= maxx,
                    target3 == plot_all(
                        plot_all(
                            canvas.img(),
                            w,
                            h,
                            rect_col_fill_cells(fx as int, fy as int, maxy as int),
                            fill,
                        ),
                        w,
                        h,
                        rect_fill_cells(fx as int + 1, maxx as int, miny as int, maxy as int),
                        fill,
                    ),
                decreases maxy - fy,
            {
                let ghost colrest = rect_col_fill_cells(fx as int, fy as int, maxy as int);
                canvas.set_pixel(fx as i32, fy as i32, fill);
                proof {
                    assert(colrest[0] == (fx as int, fy as int));
                    assert(colrest.drop_first() =~= rect_col_fill_cells(
                        fx as int,
                        fy + 1,
                        maxy as int,
                    ));
                }
                fy = fy + 1;
            }
            proof {
                assert(rect_col_fill_cells(fx as int, fy as int, maxy as int)
                    =~= Seq::<(int, int)>::empty());
            }
            fx = fx + 1;
        }
        proof {
            assert(rect_fill_cells(fx as int, maxx as int, miny as int, maxy as int)
                =~= Seq::<(int, int)>::empty());
            assert(target3 == canvas.img());
        }
    }
}

/// Whether the query point hits the rectangle: a degenerate (flat)
/// rectangle falls back to the line test; a filled rectangle is hit
/// anywhere inside its box; an unfilled one only within 5 pixels of one
/// of its four edges.
pub open spec fn rect_hit(c: CoreModel, p: Point) -> bool {
    let p1 = c.points[0];
    let p2 = c.points[1];
    if p1.0 == p2.0 || p1.1 == p2.1 {
        seg_hit(p1, p2, p)
    } else if c.fill_color.a != 0 {
        p.within_box(p1, p2, 0)
    } else {
        p.within_box(p1, Point(p1.0, p2.1), 5) || p.within_box(p1, Point(p2.0, p1.1), 5)
            || p.within_box(p2, Point(p2.0, p1.1), 5) || p.within_box(p2, Point(p1.0, p2.1), 5)
    }
}

impl Rectangle {
    /// Creates a rectangle shape from a snapshot.
    pub fn new(core: ShapeCore) -> (r: Rectangle)
        ensures
            r.core@ == core@,
    {
        Rectangle { core }
    }

    /// Returns a copy of the snapshot.
    pub fn get_core(&self) -> (c: ShapeCore)
        ensures
            c@ == self.core@,
    {
        self.core.clone_core()
    }

    /// Draws the rectangle onto the canvas.
    pub fn draw(&self, canvas: &mut Canvas)
        requires
            self.core@.points.len() >= 2,
            old(canvas).wf(),
        ensures
            final(canvas).wf(),
            final(canvas).wd() == old(canvas).wd(),
            final(canvas).ht() == old(canvas).ht(),
            final(canvas).img() == rect_draw_spec(
                old(canvas).img(),
                old(canvas).wd(),
                old(canvas).ht(),
                self.core@,
            ),
    {
        draw_rectangle(&self.core, canvas)
    }

    /// Draws the rectangle with a replacement border color.
    pub fn draw_with_color(&self, color: RGBA, canvas: &mut Canvas)
        requires
            self.core@.points.len() >= 2,
            old(canvas).wf(),
        ensures
            final(canvas).wf(),
            final(canvas).wd() == old(canvas).wd(),
            final(canvas).ht() == old(canvas).ht(),
            final(canvas).img() == rect_draw_spec(
                old(canvas).img(),
                old(canvas).wd(),
                old(canvas).ht(),
                CoreModel { color, ..self.core@ },
            ),
    {
        let tinted = self.core.copy_with_color(color);
        draw_rectangle(&tinted, canvas)
    }

    /// Tests whether the query point hits the rectangle.
    pub fn hit_test(&self, point: Point) -> (r: bool)
        requires
            self.core@.wf(),
            pt_bounded(point),
        ensures
            r == rect_hit(self.core@, point),
    {
        let p1: Point = self.core.points[0];
        let p2: Point = self.core.points[1];
        if p1.0 == p2.0 || p1.1 == p2.1 {
            return line_hit_test(&self.core, point);
        }
        if !self.core.fill_color.is_transparent() {
            return point.is_within_box(p1, p2, 0);
        }
        point.is_within_box(p1, Point(p1.0, p2.1), 5) || point.is_within_box(
            p1,
            Point(p2.0, p1.1),
            5,
        ) || point.is_within_box(p2, Point(p2.0, p1.1), 5) || point.is_within_box(
            p2,
            Point(p1.0, p2.1),
            5,
        )
    }
}

} // verus!
