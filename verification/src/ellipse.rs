//! Ellipses: midpoint scan conversion in pure integer arithmetic with
//! an exact pixel-level specification, the implicit-equation hit test,
//! and its central-symmetry law.

use vstd::prelude::*;

use crate::canvas::Canvas;
use crate::canvas::plot;
use crate::canvas::plot_all;
use crate::canvas::lemma_plot_all_app;
use crate::line::draw_line;
use crate::line::line_cells;
use crate::line::line_hit_test;
use crate::line::seg_hit;
use crate::point::Point;
use crate::point::abs_i;
use crate::point::pt_bounded;
use crate::rgba::RGBA;
use crate::shape_core::CoreModel;
use crate::shape_core::ShapeCore;

verus! {

/// The center and half axes of the ellipse spanned by the first two
/// control points: midpoints rounded toward negative infinity, half
/// axes taken as absolute values.
pub open spec fn ellipse_geom(c: CoreModel) -> (int, int, int, int) {
    let p1 = c.points[0];
    let p2 = c.points[1];
    let cx = (p1.0 + p2.0) / 2;
    let cy = (p1.1 + p2.1) / 2;
    let a = abs_i((p2.0 - p1.0) / 2);
    let b = abs_i((p2.1 - p1.1) / 2);
    (cx, cy, a, b)
}

/// The four symmetric border cells around the center for an offset
/// `(x, y)` in the first quadrant.
pub open spec fn sym_cells(cx: int, cy: int, x: int, y: int) -> Seq<(int, int)> {
    seq![(cx + x, cy + y), (cx - x, cy + y), (cx + x, cy - y), (cx - x, cy - y)]
}

/// The cells of a horizontal run from `x0` through `x1` on row `y`.
pub open spec fn hspan_cells(x0: int, x1: int, y: int) -> Seq<(int, int)>
    decreases x1 - x0 + 1,
{
    if x0 > x1 {
        Seq::empty()
    } else {
        seq![(x0, y)] + hspan_cells(x0 + 1, x1, y)
    }
}

/// The interior cells of the two scanlines symmetric around the
/// center; when the row is the center row itself, only one span, so
/// that no cell is filled twice.
pub open spec fn fill_span_cells(cx: int, cy: int, x: int, y: int) -> Seq<(int, int)> {
    hspan_cells(cx - x + 1, cx + x - 1, cy + y) + (if y != 0 {
        hspan_cells(cx - x + 1, cx + x - 1, cy - y)
    } else {
        Seq::empty()
    })
}

/// The scaled midpoint sample deciding a step of the first region: the
/// implicit ellipse equation evaluated at `(x + 1, y - 1/2)`, scaled by
/// 4 to stay integral.
pub open spec fn ell_d1(a: int, b: int, x: int, y: int) -> int {
    4 * b * b * (x + 1) * (x + 1) + a * a * (2 * y - 1) * (2 * y - 1) - 4 * a * a * b * b
}

/// The scaled slope term of the driving axis in the first region.
pub open spec fn ell_mx(b: int, x: int) -> int {
    8 * b * b * x + 12 * b * b
}

/// The scaled slope term of the minor axis in the first region.
pub open spec fn ell_my(a: int, b: int, y: int) -> int {
    8 * a * a * y - 4 * a * a + 4 * b * b
}

/// The scaled midpoint sample deciding a step of the second region:
/// the implicit equation at `(x + 1/2, y - 1)`, scaled by 4.
pub open spec fn ell_d2(a: int, b: int, x: int, y: int) -> int {
    b * b * (2 * x + 1) * (2 * x + 1) + 4 * a * a * (y - 1) * (y - 1) - 4 * a * a * b * b
}

/// The first region of the midpoint walk: while the slope favours the
/// x axis, step x each time, dropping y when the midpoint sample is
/// outside the ellipse, plotting the four symmetric border cells and,
/// when filling and a row was finished, the row's interior span. The
/// result carries the image and the offsets the walk stopped at.
pub open spec fn ell_r1(
    s: Seq<RGBA>,
    w: int,
    h: int,
    a: int,
    b: int,
    cx: int,
    cy: int,
    x: int,
    y: int,
    col: RGBA,
    fc: RGBA,
    uf: bool,
    fuel: nat,
) -> (Seq<RGBA>, int, int)
    decreases fuel,
{
    if fuel == 0 || !(ell_mx(b, x) < ell_my(a, b, y)) {
        (s, x, y)
    } else {
        let ystep = ell_d1(a, b, x, y) >= 0;
        let x2 = x + 1;
        let y2 = if ystep {
            y - 1
        } else {
            y
        };
        let s1 = if ystep && uf {
            plot_all(s, w, h, fill_span_cells(cx, cy, x2, y2), fc)
        } else {
            s
        };
        let s2 = plot_all(s1, w, h, sym_cells(cx, cy, x2, y2), col);
        ell_r1(s2, w, h, a, b, cx, cy, x2, y2, col, fc, uf, (fuel - 1) as nat)
    }
}

/// The completion cells drawn when the first region already reached
/// the center row: the remaining stretches of the center row out to
/// the horizontal extremes.
pub open spec fn edge_cells(cx: int, cy: int, a: int, x: int) -> Seq<(int, int)> {
    hspan_cells(cx - a, cx - x - 1, cy) + hspan_cells(cx + x, cx + a - 1, cy)
}

/// The second region of the midpoint walk: step y down to the center
/// row, advancing x when the midpoint sample falls inside the ellipse,
/// filling each finished row and plotting the symmetric border cells.
pub open spec fn ell_r2(
    s: Seq<RGBA>,
    w: int,
    h: int,
    a: int,
    b: int,
    cx: int,
    cy: int,
    x: int,
    y: int,
    col: RGBA,
    fc: RGBA,
    uf: bool,
) -> Seq<RGBA>
    decreases y,
{
    if y <= 0 {
        s
    } else {
        let xstep = ell_d2(a, b, x, y) < 0;
        let x2 = if xstep {
            x + 1
        } else {
            x
        };
        let y2 = y - 1;
        let s1 = if uf {
            plot_all(s, w, h, fill_span_cells(cx, cy, x2 + 1, y2), fc)
        } else {
            s
        };
        let s2 = plot_all(s1, w, h, sym_cells(cx, cy, x2, y2), col);
        ell_r2(s2, w, h, a, b, cx, cy, x2, y2, col, fc, uf)
    }
}

/// The image after drawing the whole ellipse of `c`: a flat ellipse
/// falls back to the digital line between the two corners; otherwise
/// the two regions of the midpoint walk, the edge completion when the
/// first region ends on the center row, and the second region down to
/// the center.
pub open spec fn ellipse_draw_spec(s: Seq<RGBA>, w: int, h: int, c: CoreModel) -> Seq<RGBA> {
    let p1 = c.points[0];
    let p2 = c.points[1];
    let geo = ellipse_geom(c);
    let cx = geo.0;
    let cy = geo.1;
    let a = geo.2;
    let b = geo.3;
    if a == 0 || b == 0 {
        plot_all(s, w, h, line_cells(p1, p2, true), c.color)
    } else {
        let uf = c.fill_color.a != 0;
        let s0 = plot_all(s, w, h, sym_cells(cx, cy, 0, b), c.color);
        let s1 = if uf {
            plot_all(s0, w, h, fill_span_cells(cx, cy, 0, b), c.fill_color)
        } else {
            s0
        };
        let r1 = ell_r1(s1, w, h, a, b, cx, cy, 0, b, c.color, c.fill_color, uf, (a * a) as nat);
        let s2 = r1.0;
        let x1 = r1.1;
        let y1 = r1.2;
        let s3 = if y1 <= 0 {
            plot_all(s2, w, h, edge_cells(cx, cy, a, x1), c.color)
        } else {
            s2
        };
        ell_r2(s3, w, h, a, b, cx, cy, x1, y1, c.color, c.fill_color, uf)
    }
}

/// Computes the center and half axes of the ellipse spanned by the
/// first two control points of `core`.
pub fn get_ellipse(core: &ShapeCore) -> (r: (Point, i64, i64))
    requires
        core@.points.len() >= 2,
        pt_bounded(core@.points[0]),
        pt_bounded(core@.points[1]),
    ensures
        r.0.0 == ellipse_geom(core@).0,
        r.0.1 == ellipse_geom(core@).1,
        r.1 == ellipse_geom(core@).2,
        r.2 == ellipse_geom(core@).3,
        0 <= r.1 <= 32768,
        0 <= r.2 <= 32768,
{
    let p1: Point = core.points[0];
    let p2: Point = core.points[1];
    let sx: i64 = p1.0 as i64 + p2.0 as i64;
    let sy: i64 = p1.1 as i64 + p2.1 as i64;
    let cx: i64 = if sx >= 0 {
        sx / 2
    } else {
        (sx - 1) / 2
    };
    let cy: i64 = if sy >= 0 {
        sy / 2
    } else {
        (sy - 1) / 2
    };
    let dx: i64 = p2.0 as i64 - p1.0 as i64;
    let dy: i64 = p2.1 as i64 - p1.1 as i64;
    let hx: i64 = if dx >= 0 {
        dx / 2
    } else {
        (dx - 1) / 2
    };
    let hy: i64 = if dy >= 0 {
        dy / 2
    } else {
        (dy - 1) / 2
    };
    let a: i64 = if hx < 0 {
        -hx
    } else {
        hx
    };
    let b: i64 = if hy < 0 {
        -hy
    } else {
        hy
    };
    (Point(cx as i32, cy as i32), a, b)
}

/// Plotting four listed cells is the chain of the four single plots.
proof fn lemma_plot_all4(
    s: Seq<RGBA>,
    w: int,
    h: int,
    c0: (int, int),
    c1: (int, int),
    c2: (int, int),
    c3: (int, int),
    col: RGBA,
)
    ensures
        plot_all(s, w, h, seq![c0, c1, c2, c3], col) == plot(
            plot(plot(plot(s, w, h, c0.0, c0.1, col), w, h, c1.0, c1.1, col), w, h, c2.0, c2.1, col),
            w,
            h,
            c3.0,
            c3.1,
            col,
        ),
{
    let cells = seq![c0, c1, c2, c3];
    let t1 = seq![c1, c2, c3];
    let t2 = seq![c2, c3];
    let t3 = seq![c3];
    let t4 = Seq::<(int, int)>::empty();
    assert(cells.drop_first() =~= t1);
    assert(t1.drop_first() =~= t2);
    assert(t2.drop_first() =~= t3);
    assert(t3.drop_first() =~= t4);
    let s0 = plot(s, w, h, c0.0, c0.1, col);
    let s1 = plot(s0, w, h, c1.0, c1.1, col);
    let s2 = plot(s1, w, h, c2.0, c2.1, col);
    assert(plot_all(s2, w, h, t3, col) == plot_all(plot(s2, w, h, c3.0, c3.1, col), w, h, t4, col));
    assert(plot_all(s1, w, h, t2, col) == plot_all(s2, w, h, t3, col));
    assert(plot_all(s0, w, h, t1, col) == plot_all(s1, w, h, t2, col));
    assert(plot_all(s, w, h, cells, col) == plot_all(s0, w, h, t1, col));
}

/// Plots the four symmetric cells around the center.
fn draw_symmetric(canvas: &mut Canvas, center: Point, x: i64, y: i64, color: RGBA)
    requires
        old(canvas).wf(),
        pt_bounded(center),
        0 <= x <= 0x4100_0000,
        0 <= y <= 0x4100_0000,
    ensures
        final(canvas).wf(),
        final(canvas).wd() == old(canvas).wd(),
        final(canvas).ht() == old(canvas).ht(),
        final(canvas).img() == plot_all(
            old(canvas).img(),
            old(canvas).wd(),
            old(canvas).ht(),
            sym_cells(center.0 as int, center.1 as int, x as int, y as int),
            color,
        ),
{
    let cx: i64 = center.0 as i64;
    let cy: i64 = center.1 as i64;
    proof {
        lemma_plot_all4(
            old(canvas).img(),
            old(canvas).wd(),
            old(canvas).ht(),
            (center.0 + x, center.1 + y),
            (center.0 - x, center.1 + y),
            (center.0 + x, center.1 - y),
            (center.0 - x, center.1 - y),
            color,
        );
    }
    canvas.set_pixel((cx + x) as i32, (cy + y) as i32, color);
    canvas.set_pixel((cx - x) as i32, (cy + y) as i32, color);
    canvas.set_pixel((cx + x) as i32, (cy - y) as i32, color);
    canvas.set_pixel((cx - x) as i32, (cy - y) as i32, color);
}

/// Plots one horizontal run of cells.
fn draw_hspan(canvas: &mut Canvas, x0: i64, x1: i64, y: i64, color: RGBA)
    requires
        old(canvas).wf(),
        -0x7000_0000 <= x0,
        x1 <= 0x7000_0000,
        -0x7000_0000 <= y <= 0x7000_0000,
    ensures
        final(canvas).wf(),
        final(canvas).wd() == old(canvas).wd(),
        final(canvas).ht() == old(canvas).ht(),
        final(canvas).img() == plot_all(
            old(canvas).img(),
            old(canvas).wd(),
            old(canvas).ht(),
            hspan_cells(x0 as int, x1 as int, y as int),
            color,
        ),
{
    let ghost w = canvas.wd();
    let ghost h = canvas.ht();
    let ghost target = plot_all(
        old(canvas).img(),
        w,
        h,
        hspan_cells(x0 as int, x1 as int, y as int),
        color,
    );
    let mut ix: i64 = x0;
    while ix <= x1
        invariant
            canvas.wf(),
            canvas.wd() == w,
            canvas.ht() == h,
            x0 <= ix,
            -0x7000_0000 <= x0,
            x1 <= 0x7000_0000,
            -0x7000_0000 <= y <= 0x7000_0000,
            target == plot_all(
                canvas.img(),
                w,
                h,
                hspan_cells(ix as int, x1 as int, y as int),
                color,
            ),
        decreases x1 + 1 - ix,
    {
        let ghost cells = hspan_cells(ix as int, x1 as int, y as int);
        canvas.set_pixel(ix as i32, y as i32, color);
        proof {
            assert(cells[0] == (ix as int, y as int));
            assert(cells.drop_first() =~= hspan_cells(ix + 1, x1 as int, y as int));
        }
        ix = ix + 1;
    }
    proof {
        assert(hspan_cells(ix as int, x1 as int, y as int) =~= Seq::<(int, int)>::empty());
    }
}

/// Fills the interior span of the row pair symmetric around the
/// center, skipping the duplicate when the row is the center row.
pub fn draw_fill_line(canvas: &mut Canvas, center: Point, x: i32, y: i32, color: RGBA)
    requires
        old(canvas).wf(),
        pt_bounded(center),
        0 <= x <= 0x4100_0000,
        0 <= y <= 32768,
    ensures
        final(canvas).wf(),
        final(canvas).wd() == old(canvas).wd(),
        final(canvas).ht() == old(canvas).ht(),
        final(canvas).img() == plot_all(
            old(canvas).img(),
            old(canvas).wd(),
            old(canvas).ht(),
            fill_span_cells(center.0 as int, center.1 as int, x as int, y as int),
            color,
        ),
{
    let ghost w = canvas.wd();
    let ghost h = canvas.ht();
    let cx: i64 = center.0 as i64;
    let cy: i64 = center.1 as i64;
    let x0: i64 = cx - x as i64 + 1;
    let x1: i64 = cx + x as i64 - 1;
    let ghost span_a = hspan_cells(x0 as int, x1 as int, cy + y);
    let ghost span_b: Seq<(int, int)> = if y != 0 {
        hspan_cells(x0 as int, x1 as int, cy - y)
    } else {
        Seq::empty()
    };
    proof {
        lemma_plot_all_app(old(canvas).img(), w, h, span_a, span_b, color);
    }
    draw_hspan(canvas, x0, x1, cy + y as i64, color);
    if y != 0 {
        draw_hspan(canvas, x0, x1, cy - y as i64, color);
    }
}

/// Completes the center row of a very flat ellipse: the stretches from
/// the horizontal extremes in to where the first region stopped.
pub fn draw_edge_case(canvas: &mut Canvas, center: Point, a: i32, x_drawn: i32, color: RGBA)
    requires
        old(canvas).wf(),
        pt_bounded(center),
        0 <= a <= 32768,
        0 <= x_drawn <= 0x4100_0000,
    ensures
        final(canvas).wf(),
        final(canvas).wd() == old(canvas).wd(),
        final(canvas).ht() == old(canvas).ht(),
        final(canvas).img() == plot_all(
            old(canvas).img(),
            old(canvas).wd(),
            old(canvas).ht(),
            edge_cells(center.0 as int, center.1 as int, a as int, x_drawn as int),
            color,
        ),
{
    let ghost w = canvas.wd();
    let ghost h = canvas.ht();
    let cx: i64 = center.0 as i64;
    let cy: i64 = center.1 as i64;
    let ghost left = hspan_cells(cx - a, cx - x_drawn - 1, cy as int);
    let ghost right = hspan_cells(cx + x_drawn, cx + a - 1, cy as int);
    proof {
        lemma_plot_all_app(old(canvas).img(), w, h, left, right, color);
    }
    draw_hspan(canvas, cx - a as i64, cx - x_drawn as i64 - 1, cy, color);
    draw_hspan(canvas, cx + x_drawn as i64, cx + a as i64 - 1, cy, color);
}

/// Under the first-region guard the walk is still strictly above the
/// center row and strictly left of the horizontal extreme.
proof fn lemma_ell_r1_guard(a: int, b: int, x: int, y: int)
    requires
        1 <= a <= 32768,
        1 <= b <= 32768,
        0 <= x,
        0 <= y <= b,
        ell_mx(b, x) < ell_my(a, b, y),
    ensures
        y >= 1,
        x + 1 < a * a,
        b * (x + 1) < a * a,
{
    assert(y >= 1 && x + 1 < a * a && b * (x + 1) < a * a) by (nonlinear_arith)
        requires
            1 <= a <= 32768,
            1 <= b <= 32768,
            0 <= x,
            0 <= y <= b,
            8 * b * b * x + 12 * b * b < 8 * a * a * y - 4 * a * a + 4 * b * b,
    ;
}

/// The incremental updates of the two slope terms match their closed
/// forms.
proof fn lemma_ell_slope_step(a: int, b: int, x: int, y: int)
    ensures
        ell_mx(b, x) + 8 * (b * b) == ell_mx(b, x + 1),
        ell_my(a, b, y) - 8 * (a * a) == ell_my(a, b, y - 1),
{
    assert(8 * b * b * x + 12 * b * b + 8 * (b * b) == 8 * b * b * (x + 1) + 12 * b * b)
        by (nonlinear_arith);
    assert(8 * a * a * y - 4 * a * a + 4 * b * b - 8 * (a * a) == 8 * a * a * (y - 1) - 4 * a * a
        + 4 * b * b) by (nonlinear_arith);
}

/// The first-region decision value computed with grouped squares is
/// the midpoint sample.
proof fn lemma_ell_d1_value(a: int, b: int, x: int, y: int, d: int)
    requires
        d == 4 * (b * b) * ((x + 1) * (x + 1)) + (a * a) * ((2 * y - 1) * (2 * y - 1)) - 4 * (a
            * a) * (b * b),
    ensures
        d == ell_d1(a, b, x, y),
{
    assert(4 * (b * b) * ((x + 1) * (x + 1)) + (a * a) * ((2 * y - 1) * (2 * y - 1)) - 4 * (a * a)
        * (b * b) == 4 * b * b * (x + 1) * (x + 1) + a * a * (2 * y - 1) * (2 * y - 1) - 4 * a * a
        * b * b) by (nonlinear_arith);
}

/// The second-region decision value computed with grouped squares is
/// the midpoint sample.
proof fn lemma_ell_d2_value(a: int, b: int, x: int, y: int, d: int)
    requires
        d == (b * b) * ((2 * x + 1) * (2 * x + 1)) + 4 * (a * a) * ((y - 1) * (y - 1)) - 4 * (a
            * a) * (b * b),
    ensures
        d == ell_d2(a, b, x, y),
{
    assert((b * b) * ((2 * x + 1) * (2 * x + 1)) + 4 * (a * a) * ((y - 1) * (y - 1)) - 4 * (a * a)
        * (b * b) == b * b * (2 * x + 1) * (2 * x + 1) + 4 * a * a * (y - 1) * (y - 1) - 4 * a * a
        * b * b) by (nonlinear_arith);
}

/// Draws the ellipse spanned by the first two control points of `core`
/// with the midpoint walk; a flat ellipse falls back to the digital
/// line, and a non-transparent fill color fills each scanline between
/// the symmetric border cells.
pub fn draw_ellipse(core: &ShapeCore, canvas: &mut Canvas)
    requires
        core@.points.len() >= 2,
        pt_bounded(core@.points[0]),
        pt_bounded(core@.points[1]),
        old(canvas).wf(),
    ensures
        final(canvas).wf(),
        final(canvas).wd() == old(canvas).wd(),
        final(canvas).ht() == old(canvas).ht(),
        final(canvas).img() == ellipse_draw_spec(
            old(canvas).img(),
            old(canvas).wd(),
            old(canvas).ht(),
            core@,
        ),
{
    let ghost w = canvas.wd();
    let ghost h = canvas.ht();
    let color = core.color;
    let fill = core.fill_color;

    let geo = get_ellipse(core);
    let center: Point = geo.0;
    let a64: i64 = geo.1;
    let b64: i64 = geo.2;

    if a64 == 0 || b64 == 0 {
        draw_line(core, canvas, true);
        return;
    }

    let a: i128 = a64 as i128;
    let b: i128 = b64 as i128;
    proof {
        crate::point::lemma_mul_bound(a as int, a as int, 32768, 32768);
        crate::point::lemma_mul_bound(b as int, b as int, 32768, 32768);
    }
    let a2: i128 = a * a;
    let b2: i128 = b * b;
    let uf: bool = !core.fill_color.is_transparent();

    draw_symmetric(canvas, center, 0, b64, color);
    if uf {
        draw_fill_line(canvas, center, 0, b64 as i32, fill);
    }

    let ghost fuel0 = (a2) as nat;
    let ghost r1 = ell_r1(
        canvas.img(),
        w,
        h,
        a as int,
        b as int,
        center.0 as int,
        center.1 as int,
        0,
        b as int,
        color,
        fill,
        uf,
        fuel0,
    );

    let mut x: i128 = 0;
    let mut y: i128 = b;
    proof {
        crate::point::lemma_mul_bound((8 * a2) as int, y as int, 0x2_0000_0000, 32768);
        assert(8 * a2 * y - 4 * a2 + 4 * b2 == ell_my(a as int, b as int, y as int))
            by (nonlinear_arith)
            requires
                a2 == a * a,
                b2 == b * b,
        ;
        assert(12 * b2 == ell_mx(b as int, 0int)) by (nonlinear_arith)
            requires
                b2 == b * b,
        ;
    }
    let mut mx: i128 = 12 * b2;
    let mut my: i128 = 8 * a2 * y - 4 * a2 + 4 * b2;

    while mx < my
        invariant
            canvas.wf(),
            canvas.wd() == w,
            canvas.ht() == h,
            pt_bounded(center),
            1 <= a <= 32768,
            1 <= b <= 32768,
            a2 == a * a,
            b2 == b * b,
            a2 <= 0x4000_0000,
            b2 <= 0x4000_0000,
            0 <= y <= b,
            0 <= x <= a2,
            mx == ell_mx(b as int, x as int),
            my == ell_my(a as int, b as int, y as int),
            0 <= mx <= 0x8_0000_0000_0000,
            -0x10_0000_0000 <= my <= 0x2_0000_0000_0000,
            fuel0 == a2,
            r1 == ell_r1(
                canvas.img(),
                w,
                h,
                a as int,
                b as int,
                center.0 as int,
                center.1 as int,
                x as int,
                y as int,
                color,
                fill,
                uf,
                (fuel0 - x) as nat,
            ),
        decreases a2 - x,
    {
        proof {
            lemma_ell_r1_guard(a as int, b as int, x as int, y as int);
            crate::point::lemma_mul_bound((x + 1) as int, (x + 1) as int, 0x4000_0000, 0x4000_0000);
            crate::point::lemma_mul_bound(
                (4 * b2) as int,
                ((x + 1) * (x + 1)) as int,
                0x10_0000_0000,
                0x1000_0000_0000_0000,
            );
            crate::point::lemma_mul_bound(
                (2 * y - 1) as int,
                (2 * y - 1) as int,
                0x1_0000_0000,
                0x1_0000_0000,
            );
            crate::point::lemma_mul_bound(
                a2 as int,
                ((2 * y - 1) * (2 * y - 1)) as int,
                0x4000_0000,
                0x1_0000_0000_0000_0000,
            );
            crate::point::lemma_mul_bound((4 * a2) as int, b2 as int, 0x10_0000_0000, 0x4000_0000);
        }
        let d: i128 = 4 * b2 * ((x + 1) * (x + 1)) + a2 * ((2 * y - 1) * (2 * y - 1)) - 4 * a2
            * b2;
        proof {
            lemma_ell_d1_value(a as int, b as int, x as int, y as int, d as int);
            lemma_ell_slope_step(a as int, b as int, x as int, y as int);
        }
        let ystep: bool = d >= 0;
        if ystep {
            y = y - 1;
            my = my - 8 * a2;
        }
        x = x + 1;
        mx = mx + 8 * b2;
        if ystep && uf {
            draw_fill_line(canvas, center, x as i32, y as i32, fill);
        }
        draw_symmetric(canvas, center, x as i64, y as i64, color);
        proof {
            assert(r1 == ell_r1(
                canvas.img(),
                w,
                h,
                a as int,
                b as int,
                center.0 as int,
                center.1 as int,
                x as int,
                y as int,
                color,
                fill,
                uf,
                (fuel0 - x) as nat,
            ));
        }
    }
    proof {
        assert(r1 == (canvas.img(), x as int, y as int));
    }

    if y <= 0 {
        draw_edge_case(canvas, center, a64 as i32, x as i32, color);
    }

    let ghost r2_target = ell_r2(
        canvas.img(),
        w,
        h,
        a as int,
        b as int,
        center.0 as int,
        center.1 as int,
        x as int,
        y as int,
        color,
        fill,
        uf,
    );

    while y > 0
        invariant
            canvas.wf(),
            canvas.wd() == w,
            canvas.ht() == h,
            pt_bounded(center),
            1 <= a <= 32768,
            1 <= b <= 32768,
            a2 == a * a,
            b2 == b * b,
            a2 <= 0x4000_0000,
            b2 <= 0x4000_0000,
            0 <= y + 1,
            y <= b,
            0 <= x,
            x + y <= a2 + b,
            r2_target == ell_r2(
                canvas.img(),
                w,
                h,
                a as int,
                b as int,
                center.0 as int,
                center.1 as int,
                x as int,
                y as int,
                color,
                fill,
                uf,
            ),
        decreases y,
    {
        proof {
            crate::point::lemma_mul_bound(
                (2 * x + 1) as int,
                (2 * x + 1) as int,
                0x1_0000_0000,
                0x1_0000_0000,
            );
            crate::point::lemma_mul_bound(
                b2 as int,
                ((2 * x + 1) * (2 * x + 1)) as int,
                0x4000_0000,
                0x1_0000_0000_0000_0000,
            );
            crate::point::lemma_mul_bound(
                (y - 1) as int,
                (y - 1) as int,
                0x1_0000_0000,
                0x1_0000_0000,
            );
            crate::point::lemma_mul_bound(
                (4 * a2) as int,
                ((y - 1) * (y - 1)) as int,
                0x10_0000_0000,
                0x1_0000_0000_0000_0000,
            );
            crate::point::lemma_mul_bound((4 * a2) as int, b2 as int, 0x10_0000_0000, 0x4000_0000);
        }
        let d: i128 = b2 * ((2 * x + 1) * (2 * x + 1)) + 4 * a2 * ((y - 1) * (y - 1)) - 4 * a2
            * b2;
        proof {
            lemma_ell_d2_value(a as int, b as int, x as int, y as int, d as int);
        }
        if d < 0 {
            x = x + 1;
        }
        y = y - 1;
        if uf {
            draw_fill_line(canvas, center, (x + 1) as i32, y as i32, fill);
        }
        draw_symmetric(canvas, center, x as i64, y as i64, color);
    }
}


/// Whether the query point hits the ellipse: a flat ellipse falls back
/// to the line test; otherwise the implicit equation, scaled by the
/// squared half axes so that only integers are involved.
pub open spec fn ellipse_hit(c: CoreModel, p: Point) -> bool {
    let geo = ellipse_geom(c);
    let cx = geo.0;
    let cy = geo.1;
    let a = geo.2;
    let b = geo.3;
    if a == 0 || b == 0 {
        seg_hit(c.points[0], c.points[1], p)
    } else {
        let dx = p.0 - cx;
        let dy = p.1 - cy;
        dx * dx * b * b + dy * dy * a * a <= a * a * b * b
    }
}

/// An ellipse shape: a snapshot whose first two points are the corners
/// of the bounding box of the ellipse.
pub struct Ellipse {
    pub core: ShapeCore,
}

impl Ellipse {
    /// Creates an ellipse shape from a snapshot.
    pub fn new(core: ShapeCore) -> (e: Ellipse)
        ensures
            e.core@ == core@,
    {
        Ellipse { core }
    }

    /// Returns a copy of the snapshot.
    pub fn get_core(&self) -> (c: ShapeCore)
        ensures
            c@ == self.core@,
    {
        self.core.clone_core()
    }

    /// Draws the ellipse onto the canvas.
    pub fn draw(&self, canvas: &mut Canvas)
        requires
            self.core@.wf(),
            old(canvas).wf(),
        ensures
            final(canvas).wf(),
            final(canvas).wd() == old(canvas).wd(),
            final(canvas).ht() == old(canvas).ht(),
            final(canvas).img() == ellipse_draw_spec(
                old(canvas).img(),
                old(canvas).wd(),
                old(canvas).ht(),
                self.core@,
            ),
    {
        draw_ellipse(&self.core, canvas)
    }

    /// Draws the ellipse with a replacement border color.
    pub fn draw_with_color(&self, color: RGBA, canvas: &mut Canvas)
        requires
            self.core@.wf(),
            old(canvas).wf(),
        ensures
            final(canvas).wf(),
            final(canvas).wd() == old(canvas).wd(),
            final(canvas).ht() == old(canvas).ht(),
            final(canvas).img() == ellipse_draw_spec(
                old(canvas).img(),
                old(canvas).wd(),
                old(canvas).ht(),
                CoreModel { color, ..self.core@ },
            ),
    {
        let tinted = self.core.copy_with_color(color);
        draw_ellipse(&tinted, canvas)
    }

    /// Tests whether the query point lies on or inside the ellipse.
    pub fn hit_test(&self, point: Point) -> (r: bool)
        requires
            self.core@.wf(),
            pt_bounded(point),
        ensures
            r == ellipse_hit(self.core@, point),
    {
        let geo = get_ellipse(&self.core);
        let center: Point = geo.0;
        let a: i128 = geo.1 as i128;
        let b: i128 = geo.2 as i128;
        if a == 0 || b == 0 {
            return line_hit_test(&self.core, point);
        }
        let dx: i128 = point.0 as i128 - center.0 as i128;
        let dy: i128 = point.1 as i128 - center.1 as i128;
        proof {
            crate::point::lemma_mul_bound(dx as int, dx as int, 65536, 65536);
            crate::point::lemma_mul_bound(dy as int, dy as int, 65536, 65536);
            crate::point::lemma_mul_bound(a as int, a as int, 32768, 32768);
            crate::point::lemma_mul_bound((dx * dx) as int, b as int, 0x1_0000_0000, 32768);
            crate::point::lemma_mul_bound((dx * dx * b) as int, b as int, 0x8000_0000_0000, 32768);
            crate::point::lemma_mul_bound((dy * dy) as int, a as int, 0x1_0000_0000, 32768);
            crate::point::lemma_mul_bound((dy * dy * a) as int, a as int, 0x8000_0000_0000, 32768);
            crate::point::lemma_mul_bound((a * a) as int, b as int, 0x4000_0000, 32768);
            crate::point::lemma_mul_bound((a * a * b) as int, b as int, 0x2000_0000_0000, 32768);
        }
        dx * dx * b * b + dy * dy * a * a <= a * a * b * b
    }
}

/// The line hit test is centrally symmetric when the segment itself is
/// symmetric around the origin.
proof fn lemma_seg_hit_central_symmetry(p1: Point, p2: Point, p: Point, q: Point)
    requires
        p1.0 + p2.0 == 0,
        p1.1 + p2.1 == 0,
        q.0 == -p.0,
        q.1 == -p.1,
    ensures
        seg_hit(p1, p2, p) == seg_hit(p1, p2, q),
{
    if p1 == p2 {
        assert(p1.0 == 0 && p1.1 == 0);
    } else {
        let dx = p2.0 - p1.0 as int;
        let dy = p2.1 - p1.1 as int;
        let dsq = dx * dx + dy * dy;
        let np = (p.0 - p1.0) * dx + (p.1 - p1.1) * dy;
        let nq = (q.0 - p1.0) * dx + (q.1 - p1.1) * dy;
        assert(dsq > 0) by (nonlinear_arith)
            requires
                dsq == dx * dx + dy * dy,
                !(dx == 0 && dy == 0),
        ;
        assert(np + nq == dsq) by (nonlinear_arith)
            requires
                dx == -2 * p1.0,
                dy == -2 * p1.1,
                q.0 == -p.0,
                q.1 == -p.1,
                np == (p.0 - p1.0) * dx + (p.1 - p1.1) * dy,
                nq == (q.0 - p1.0) * dx + (q.1 - p1.1) * dy,
                dsq == dx * dx + dy * dy,
        ;
        let ncp = if np < 0 {
            0
        } else if np > dsq {
            dsq
        } else {
            np
        };
        let ncq = if nq < 0 {
            0
        } else if nq > dsq {
            dsq
        } else {
            nq
        };
        assert(ncq == dsq - ncp);
        let exp = dsq * (p.0 - p1.0) - ncp * dx;
        let eyp = dsq * (p.1 - p1.1) - ncp * dy;
        let exq = dsq * (q.0 - p1.0) - ncq * dx;
        let eyq = dsq * (q.1 - p1.1) - ncq * dy;
        assert(exq == -exp && eyq == -eyp) by (nonlinear_arith)
            requires
                dx == -2 * p1.0,
                dy == -2 * p1.1,
                q.0 == -p.0,
                q.1 == -p.1,
                ncq == dsq - ncp,
                dsq == dx * dx + dy * dy,
                exp == dsq * (p.0 - p1.0) - ncp * dx,
                eyp == dsq * (p.1 - p1.1) - ncp * dy,
                exq == dsq * (q.0 - p1.0) - ncq * dx,
                eyq == dsq * (q.1 - p1.1) - ncq * dy,
        ;
        assert(exq * exq + eyq * eyq == exp * exp + eyp * eyp) by (nonlinear_arith)
            requires
                exq == -exp,
                eyq == -eyp,
        ;
    }
}

/// Central symmetry of the ellipse hit test: for an ellipse centered on
/// the origin, a point hits the ellipse exactly when its mirror image
/// through the center does.
pub proof fn lemma_ellipse_hit_symmetry(c: CoreModel, p: Point, q: Point)
    requires
        c.points.len() >= 2,
        c.points[0].0 + c.points[1].0 == 0,
        c.points[0].1 + c.points[1].1 == 0,
        q.0 == -p.0,
        q.1 == -p.1,
    ensures
        ellipse_hit(c, p) == ellipse_hit(c, q),
{
    let geo = ellipse_geom(c);
    let a = geo.2;
    let b = geo.3;
    assert(geo.0 == 0 && geo.1 == 0);
    if a == 0 || b == 0 {
        lemma_seg_hit_central_symmetry(c.points[0], c.points[1], p, q);
    } else {
        assert((p.0 - 0) * (p.0 - 0) == (q.0 - 0) * (q.0 - 0) && (p.1 - 0) * (p.1 - 0) == (q.1 - 0)
            * (q.1 - 0)) by (nonlinear_arith)
            requires
                q.0 == -p.0,
                q.1 == -p.1,
        ;
    }
}

} // verus!
