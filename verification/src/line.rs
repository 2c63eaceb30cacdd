//! Line segments: octant-aware integer scan conversion with an exact
//! pixel-level specification, and the projection-based hit test.

use vstd::prelude::*;

use crate::canvas::Canvas;
use crate::canvas::plot_all;
use crate::point::Point;
use crate::point::abs_i;
use crate::point::lemma_mul_bound;
use crate::point::pt_bounded;
use crate::shape_core::ShapeCore;

verus! {

/// A line shape: a snapshot whose first two points are the endpoints.
pub struct Line {
    pub core: ShapeCore,
}

/// The cells visited by the digital-line walk, driven by the major
/// axis: `u` is the major coordinate, `v` the minor one, `d` the
/// running decision variable, `m` and `s` the absolute major and minor
/// deltas, `ui` and `vi` the step directions, and `n` the remaining
/// major steps. Each step advances the major axis; the minor axis
/// advances when the decision variable is not positive.
pub open spec fn bres_cells(
    u: int,
    v: int,
    d: int,
    m: int,
    s: int,
    ui: int,
    vi: int,
    n: nat,
) -> Seq<(int, int)>
    decreases n,
{
    if n == 0 {
        Seq::empty()
    } else {
        let vstep = d <= 0;
        let u2 = u + ui;
        let v2 = if vstep {
            v + vi
        } else {
            v
        };
        let d2 = if vstep {
            d + 2 * (m - s)
        } else {
            d - 2 * s
        };
        seq![(u2, v2)] + bres_cells(u2, v2, d2, m, s, ui, vi, (n - 1) as nat)
    }
}

/// The cells of the digital line from `a` to `b`, endpoint-inclusive;
/// the first cell `a` is present only when `draw_first` holds, so that
/// chained segments can share vertices without compositing them twice.
pub open spec fn line_cells(a: Point, b: Point, draw_first: bool) -> Seq<(int, int)> {
    let dx = b.0 - a.0;
    let dy = b.1 - a.1;
    let dxa = abs_i(dx);
    let dya = abs_i(dy);
    let xi: int = if dx < 0 {
        -1
    } else {
        1
    };
    let yi: int = if dy < 0 {
        -1
    } else {
        1
    };
    let head: Seq<(int, int)> = if draw_first {
        seq![(a.0 as int, a.1 as int)]
    } else {
        Seq::empty()
    };
    if dxa >= dya {
        head + bres_cells(a.0 as int, a.1 as int, dxa - 2 * dya, dxa, dya, xi, yi, dxa as nat)
    } else {
        head + bres_cells(a.1 as int, a.0 as int, dya - 2 * dxa, dya, dxa, yi, xi, dya as nat).map(
            |k: int, c: (int, int)| (c.1, c.0),
        )
    }
}

/// A minor-axis step of the digital line keeps the decision-variable
/// relation and the step-count bound.
proof fn lemma_line_step_minor(m: int, s: int, i: int, j: int, d: int)
    by (nonlinear_arith)
    requires
        m >= s >= 0,
        d == m - 2 * s + 2 * m * j - 2 * s * i,
        d <= 0,
        2 * m * j <= 2 * s * i + m,
    ensures
        d + 2 * (m - s) == m - 2 * s + 2 * m * (j + 1) - 2 * s * (i + 1),
        2 * m * (j + 1) <= 2 * s * (i + 1) + m,
{
}

/// A major-axis-only step of the digital line keeps the
/// decision-variable relation and the step-count bound.
proof fn lemma_line_step_major(m: int, s: int, i: int, j: int, d: int)
    by (nonlinear_arith)
    requires
        m >= s >= 0,
        d == m - 2 * s + 2 * m * j - 2 * s * i,
        2 * m * j <= 2 * s * i + m,
    ensures
        d - 2 * s == m - 2 * s + 2 * m * j - 2 * s * (i + 1),
        2 * m * j <= 2 * s * (i + 1) + m,
{
}

/// The minor axis never advances past the minor delta.
proof fn lemma_line_minor_count(m: int, s: int, i: int, j: int)
    by (nonlinear_arith)
    requires
        m >= 1,
        s >= 0,
        0 <= i <= m,
        0 <= j,
        2 * m * j <= 2 * s * i + m,
    ensures
        j <= s,
{
}

/// Draws the digital line between the first two control points of
/// `core` onto the canvas, compositing the border color onto every
/// visited cell; when `draw_first` is false the starting endpoint is
/// left untouched.
pub fn draw_line(core: &ShapeCore, canvas: &mut Canvas, draw_first: bool)
    requires
        core@.points.len() >= 2,
        old(canvas).wf(),
    ensures
        final(canvas).wf(),
        final(canvas).wd() == old(canvas).wd(),
        final(canvas).ht() == old(canvas).ht(),
        final(canvas).img() == plot_all(
            old(canvas).img(),
            old(canvas).wd(),
            old(canvas).ht(),
            line_cells(core@.points[0], core@.points[1], draw_first),
            core@.color,
        ),
{
    let a: Point = core.points[0];
    let b: Point = core.points[1];
    let color = core.color;
    let ghost w = canvas.wd();
    let ghost h = canvas.ht();
    let ghost target = plot_all(
        old(canvas).img(),
        w,
        h,
        line_cells(a, b, draw_first),
        color,
    );

    let dx: i64 = b.0 as i64 - a.0 as i64;
    let dy: i64 = b.1 as i64 - a.1 as i64;
    let xi: i64 = if dx < 0 {
        -1
    } else {
        1
    };
    let yi: i64 = if dy < 0 {
        -1
    } else {
        1
    };
    let dxa: i64 = if dx < 0 {
        -dx
    } else {
        dx
    };
    let dya: i64 = if dy < 0 {
        -dy
    } else {
        dy
    };

    if draw_first {
        canvas.set_pixel(a.0, a.1, color);
        proof {
            let cells = line_cells(a, b, true);
            assert(cells[0] == (a.0 as int, a.1 as int));
            assert(cells.drop_first() =~= line_cells(a, b, false));
        }
    }
    assert(target == plot_all(canvas.img(), w, h, line_cells(a, b, false), color));

    if dxa >= dya {
        let mut x: i64 = a.0 as i64;
        let mut y: i64 = a.1 as i64;
        let mut d: i64 = dxa - 2 * dya;
        let ghost mut i: int = 0;
        let ghost mut j: int = 0;
        proof {
            assert(line_cells(a, b, false) =~= bres_cells(
                a.0 as int,
                a.1 as int,
                dxa as int - 2 * dya,
                dxa as int,
                dya as int,
                xi as int,
                yi as int,
                dxa as nat,
            ));
        }
        while x != b.0 as i64
            invariant
                canvas.wf(),
                canvas.wd() == w,
                canvas.ht() == h,
                dx == b.0 - a.0,
                dy == b.1 - a.1,
                dxa == abs_i(dx as int),
                dya == abs_i(dy as int),
                dxa >= dya >= 0,
                xi == (if dx < 0 { -1int } else { 1int }),
                yi == (if dy < 0 { -1int } else { 1int }),
                0 <= i <= dxa,
                0 <= j <= dya,
                x == a.0 + xi * i,
                y == a.1 + yi * j,
                -2 * dya <= d <= 2 * dxa,
                d == dxa - 2 * dya + 2 * dxa * j - 2 * dya * i,
                2 * dxa * j <= 2 * dya * i + dxa,
                target == plot_all(
                    canvas.img(),
                    w,
                    h,
                    bres_cells(
                        x as int,
                        y as int,
                        d as int,
                        dxa as int,
                        dya as int,
                        xi as int,
                        yi as int,
                        (dxa - i) as nat,
                    ),
                    color,
                ),
            decreases dxa - i,
        {
            proof {
                assert(x != b.0 ==> i != dxa) by (nonlinear_arith)
                    requires
                        x == a.0 + xi * i,
                        x != b.0,
                        xi == (if dx < 0 { -1int } else { 1int }),
                        dx == b.0 - a.0,
                        dxa == abs_i(dx as int),
                ;
                assert(i < dxa);
                assert(a.0 - dxa <= x <= a.0 + dxa) by (nonlinear_arith)
                    requires
                        x == a.0 + xi * i,
                        0 <= i <= dxa,
                        xi == 1 || xi == -1,
                ;
                assert(a.1 - dya <= y <= a.1 + dya) by (nonlinear_arith)
                    requires
                        y == a.1 + yi * j,
                        0 <= j <= dya,
                        yi == 1 || yi == -1,
                ;
            }
            let ghost cells_before = bres_cells(
                x as int,
                y as int,
                d as int,
                dxa as int,
                dya as int,
                xi as int,
                yi as int,
                (dxa - i) as nat,
            );
            if d <= 0 {
                proof {
                    lemma_line_step_minor(dxa as int, dya as int, i, j, d as int);
                }
                d = d + 2 * (dxa - dya);
                y = y + yi;
                proof {
                    j = j + 1;
                    assert(y == a.1 + yi * j) by (nonlinear_arith)
                        requires
                            y == a.1 + yi * (j - 1) + yi,
                    ;
                    lemma_line_minor_count(dxa as int, dya as int, i + 1, j);
                }
            } else {
                proof {
                    lemma_line_step_major(dxa as int, dya as int, i, j, d as int);
                }
                d = d - 2 * dya;
            }
            x = x + xi;
            proof {
                i = i + 1;
                assert(x == a.0 + xi * i) by (nonlinear_arith)
                    requires
                        x == a.0 + xi * (i - 1) + xi,
                ;
                assert(a.0 <= x <= b.0 || b.0 <= x <= a.0) by (nonlinear_arith)
                    requires
                        x == a.0 + xi * i,
                        0 <= i <= dxa,
                        xi == (if dx < 0 { -1int } else { 1int }),
                        dx == b.0 - a.0,
                        dxa == abs_i(dx as int),
                ;
                assert(a.1 <= y <= b.1 || b.1 <= y <= a.1) by (nonlinear_arith)
                    requires
                        y == a.1 + yi * j,
                        0 <= j <= dya,
                        yi == (if dy < 0 { -1int } else { 1int }),
                        dy == b.1 - a.1,
                        dya == abs_i(dy as int),
                ;
            }
            canvas.set_pixel(x as i32, y as i32, color);
            proof {
                assert(cells_before[0] == (x as int, y as int));
                assert(cells_before.drop_first() =~= bres_cells(
                    x as int,
                    y as int,
                    d as int,
                    dxa as int,
                    dya as int,
                    xi as int,
                    yi as int,
                    (dxa - i) as nat,
                ));
            }
        }
        proof {
            assert(i == dxa) by (nonlinear_arith)
                requires
                    x == a.0 + xi * i,
                    x == b.0,
                    xi == (if dx < 0 { -1int } else { 1int }),
                    dx == b.0 - a.0,
                    dxa == abs_i(dx as int),
                    0 <= i <= dxa,
            ;
        }
    } else {
        let mut x: i64 = a.0 as i64;
        let mut y: i64 = a.1 as i64;
        let mut d: i64 = dya - 2 * dxa;
        let ghost mut i: int = 0;
        let ghost mut j: int = 0;
        proof {
            assert(line_cells(a, b, false) =~= bres_cells(
                a.1 as int,
                a.0 as int,
                dya as int - 2 * dxa,
                dya as int,
                dxa as int,
                yi as int,
                xi as int,
                dya as nat,
            ).map(|k: int, c: (int, int)| (c.1, c.0)));
        }
        while y != b.1 as i64
            invariant
                canvas.wf(),
                canvas.wd() == w,
                canvas.ht() == h,
                dx == b.0 - a.0,
                dy == b.1 - a.1,
                dxa == abs_i(dx as int),
                dya == abs_i(dy as int),
                dya > dxa >= 0,
                xi == (if dx < 0 { -1int } else { 1int }),
                yi == (if dy < 0 { -1int } else { 1int }),
                0 <= i <= dya,
                0 <= j <= dxa,
                y == a.1 + yi * i,
                x == a.0 + xi * j,
                -2 * dxa <= d <= 2 * dya,
                d == dya - 2 * dxa + 2 * dya * j - 2 * dxa * i,
                2 * dya * j <= 2 * dxa * i + dya,
                target == plot_all(
                    canvas.img(),
                    w,
                    h,
                    bres_cells(
                        y as int,
                        x as int,
                        d as int,
                        dya as int,
                        dxa as int,
                        yi as int,
                        xi as int,
                        (dya - i) as nat,
                    ).map(|k: int, c: (int, int)| (c.1, c.0)),
                    color,
                ),
            decreases dya - i,
        {
            proof {
                assert(y != b.1 ==> i != dya) by (nonlinear_arith)
                    requires
                        y == a.1 + yi * i,
                        y != b.1,
                        yi == (if dy < 0 { -1int } else { 1int }),
                        dy == b.1 - a.1,
                        dya == abs_i(dy as int),
                ;
                assert(i < dya);
                assert(a.1 - dya <= y <= a.1 + dya) by (nonlinear_arith)
                    requires
                        y == a.1 + yi * i,
                        0 <= i <= dya,
                        yi == 1 || yi == -1,
                ;
                assert(a.0 - dxa <= x <= a.0 + dxa) by (nonlinear_arith)
                    requires
                        x == a.0 + xi * j,
                        0 <= j <= dxa,
                        xi == 1 || xi == -1,
                ;
            }
            let ghost cells_before = bres_cells(
                y as int,
                x as int,
                d as int,
                dya as int,
                dxa as int,
                yi as int,
                xi as int,
                (dya - i) as nat,
            );
            if d <= 0 {
                proof {
                    lemma_line_step_minor(dya as int, dxa as int, i, j, d as int);
                }
                d = d + 2 * (dya - dxa);
                x = x + xi;
                proof {
                    j = j + 1;
                    assert(x == a.0 + xi * j) by (nonlinear_arith)
                        requires
                            x == a.0 + xi * (j - 1) + xi,
                    ;
                    lemma_line_minor_count(dya as int, dxa as int, i + 1, j);
                }
            } else {
                proof {
                    lemma_line_step_major(dya as int, dxa as int, i, j, d as int);
                }
                d = d - 2 * dxa;
            }
            y = y + yi;
            proof {
                i = i + 1;
                assert(y == a.1 + yi * i) by (nonlinear_arith)
                    requires
                        y == a.1 + yi * (i - 1) + yi,
                ;
                assert(a.1 <= y <= b.1 || b.1 <= y <= a.1) by (nonlinear_arith)
                    requires
                        y == a.1 + yi * i,
                        0 <= i <= dya,
                        yi == (if dy < 0 { -1int } else { 1int }),
                        dy == b.1 - a.1,
                        dya == abs_i(dy as int),
                ;
                assert(a.0 <= x <= b.0 || b.0 <= x <= a.0) by (nonlinear_arith)
                    requires
                        x == a.0 + xi * j,
                        0 <= j <= dxa,
                        xi == (if dx < 0 { -1int } else { 1int }),
                        dx == b.0 - a.0,
                        dxa == abs_i(dx as int),
                ;
            }
            canvas.set_pixel(x as i32, y as i32, color);
            proof {
                let rest = bres_cells(
                    y as int,
                    x as int,
                    d as int,
                    dya as int,
                    dxa as int,
                    yi as int,
                    xi as int,
                    (dya - i) as nat,
                );
                assert(cells_before[0] == (y as int, x as int));
                assert(cells_before.drop_first() =~= rest);
                assert(cells_before.map(|k: int, c: (int, int)| (c.1, c.0)).drop_first() =~= rest.map(
                    |k: int, c: (int, int)| (c.1, c.0),
                ));
                assert(cells_before.map(|k: int, c: (int, int)| (c.1, c.0))[0] == (
                    x as int,
                    y as int,
                ));
            }
        }
        proof {
            assert(i == dya) by (nonlinear_arith)
                requires
                    y == a.1 + yi * i,
                    y == b.1,
                    yi == (if dy < 0 { -1int } else { 1int }),
                    dy == b.1 - a.1,
                    dya == abs_i(dy as int),
                    0 <= i <= dya,
            ;
        }
    }
}

/// Computes the cells of the digital line from `a` to `b` as a list,
/// in drawing order.
pub fn line_cells_exec(a: Point, b: Point, draw_first: bool) -> (v: Vec<(i32, i32)>)
    ensures
        v@.len() == line_cells(a, b, draw_first).len(),
        forall|k: int|
            0 <= k < v@.len() ==> ((#[trigger] v@[k]).0 as int, v@[k].1 as int) == line_cells(
                a,
                b,
                draw_first,
            )[k],
{
    let ghost cells = line_cells(a, b, draw_first);
    let mut v: Vec<(i32, i32)> = Vec::new();

    let dx: i64 = b.0 as i64 - a.0 as i64;
    let dy: i64 = b.1 as i64 - a.1 as i64;
    let xi: i64 = if dx < 0 {
        -1
    } else {
        1
    };
    let yi: i64 = if dy < 0 {
        -1
    } else {
        1
    };
    let dxa: i64 = if dx < 0 {
        -dx
    } else {
        dx
    };
    let dya: i64 = if dy < 0 {
        -dy
    } else {
        dy
    };

    if draw_first {
        v.push((a.0, a.1));
        proof {
            assert(cells[0] == (a.0 as int, a.1 as int));
            assert(cells.drop_first() =~= line_cells(a, b, false));
            assert(cells =~= seq![(a.0 as int, a.1 as int)] + line_cells(a, b, false));
        }
    }
    let ghost head: Seq<(int, int)> = if draw_first {
        seq![(a.0 as int, a.1 as int)]
    } else {
        Seq::empty()
    };
    proof {
        assert(cells =~= head + line_cells(a, b, false));
    }

    if dxa >= dya {
        let mut x: i64 = a.0 as i64;
        let mut y: i64 = a.1 as i64;
        let mut d: i64 = dxa - 2 * dya;
        let ghost mut i: int = 0;
        let ghost mut j: int = 0;
        proof {
            assert(line_cells(a, b, false) =~= bres_cells(
                a.0 as int,
                a.1 as int,
                dxa as int - 2 * dya,
                dxa as int,
                dya as int,
                xi as int,
                yi as int,
                dxa as nat,
            ));
        }
        while x != b.0 as i64
            invariant
                dx == b.0 - a.0,
                dy == b.1 - a.1,
                dxa == abs_i(dx as int),
                dya == abs_i(dy as int),
                dxa >= dya >= 0,
                xi == (if dx < 0 { -1int } else { 1int }),
                yi == (if dy < 0 { -1int } else { 1int }),
                0 <= i <= dxa,
                0 <= j <= dya,
                x == a.0 + xi * i,
                y == a.1 + yi * j,
                -2 * dya <= d <= 2 * dxa,
                d == dxa - 2 * dya + 2 * dxa * j - 2 * dya * i,
                2 * dxa * j <= 2 * dya * i + dxa,
                v@.len() == head.len() + i,
                forall|k: int|
                    0 <= k < v@.len() ==> ((#[trigger] v@[k]).0 as int, v@[k].1 as int) == cells[k],
                cells =~= v@.map(|k: int, c: (i32, i32)| (c.0 as int, c.1 as int)) + bres_cells(
                    x as int,
                    y as int,
                    d as int,
                    dxa as int,
                    dya as int,
                    xi as int,
                    yi as int,
                    (dxa - i) as nat,
                ),
            decreases dxa - i,
        {
            proof {
                assert(x != b.0 ==> i != dxa) by (nonlinear_arith)
                    requires
                        x == a.0 + xi * i,
                        x != b.0,
                        xi == (if dx < 0 { -1int } else { 1int }),
                        dx == b.0 - a.0,
                        dxa == abs_i(dx as int),
                ;
                assert(i < dxa);
                assert(a.0 - dxa <= x <= a.0 + dxa) by (nonlinear_arith)
                    requires
                        x == a.0 + xi * i,
                        0 <= i <= dxa,
                        xi == 1 || xi == -1,
                ;
                assert(a.1 - dya <= y <= a.1 + dya) by (nonlinear_arith)
                    requires
                        y == a.1 + yi * j,
                        0 <= j <= dya,
                        yi == 1 || yi == -1,
                ;
            }
            let ghost rest_before = bres_cells(
                x as int,
                y as int,
                d as int,
                dxa as int,
                dya as int,
                xi as int,
                yi as int,
                (dxa - i) as nat,
            );
            if d <= 0 {
                proof {
                    lemma_line_step_minor(dxa as int, dya as int, i, j, d as int);
                }
                d = d + 2 * (dxa - dya);
                y = y + yi;
                proof {
                    j = j + 1;
                    assert(y == a.1 + yi * j) by (nonlinear_arith)
                        requires
                            y == a.1 + yi * (j - 1) + yi,
                    ;
                    lemma_line_minor_count(dxa as int, dya as int, i + 1, j);
                }
            } else {
                proof {
                    lemma_line_step_major(dxa as int, dya as int, i, j, d as int);
                }
                d = d - 2 * dya;
            }
            x = x + xi;
            proof {
                i = i + 1;
                assert(x == a.0 + xi * i) by (nonlinear_arith)
                    requires
                        x == a.0 + xi * (i - 1) + xi,
                ;
                assert(a.0 <= x <= b.0 || b.0 <= x <= a.0) by (nonlinear_arith)
                    requires
                        x == a.0 + xi * i,
                        0 <= i <= dxa,
                        xi == (if dx < 0 { -1int } else { 1int }),
                        dx == b.0 - a.0,
                        dxa == abs_i(dx as int),
                ;
                assert(a.1 <= y <= b.1 || b.1 <= y <= a.1) by (nonlinear_arith)
                    requires
                        y == a.1 + yi * j,
                        0 <= j <= dya,
                        yi == (if dy < 0 { -1int } else { 1int }),
                        dy == b.1 - a.1,
                        dya == abs_i(dy as int),
                ;
            }
            v.push((x as i32, y as i32));
            proof {
                assert(rest_before[0] == (x as int, y as int));
                assert(rest_before.drop_first() =~= bres_cells(
                    x as int,
                    y as int,
                    d as int,
                    dxa as int,
                    dya as int,
                    xi as int,
                    yi as int,
                    (dxa - i) as nat,
                ));
                assert(cells =~= v@.map(|k: int, c: (i32, i32)| (c.0 as int, c.1 as int))
                    + rest_before.drop_first());
            }
        }
        proof {
            assert(i == dxa) by (nonlinear_arith)
                requires
                    x == a.0 + xi * i,
                    x == b.0,
                    xi == (if dx < 0 { -1int } else { 1int }),
                    dx == b.0 - a.0,
                    dxa == abs_i(dx as int),
                    0 <= i <= dxa,
            ;
        }
    } else {
        let mut x: i64 = a.0 as i64;
        let mut y: i64 = a.1 as i64;
        let mut d: i64 = dya - 2 * dxa;
        let ghost mut i: int = 0;
        let ghost mut j: int = 0;
        proof {
            assert(line_cells(a, b, false) =~= bres_cells(
                a.1 as int,
                a.0 as int,
                dya as int - 2 * dxa,
                dya as int,
                dxa as int,
                yi as int,
                xi as int,
                dya as nat,
            ).map(|k: int, c: (int, int)| (c.1, c.0)));
        }
        while y != b.1 as i64
            invariant
                dx == b.0 - a.0,
                dy == b.1 - a.1,
                dxa == abs_i(dx as int),
                dya == abs_i(dy as int),
                dya > dxa >= 0,
                xi == (if dx < 0 { -1int } else { 1int }),
                yi == (if dy < 0 { -1int } else { 1int }),
                0 <= i <= dya,
                0 <= j <= dxa,
                y == a.1 + yi * i,
                x == a.0 + xi * j,
                -2 * dxa <= d <= 2 * dya,
                d == dya - 2 * dxa + 2 * dya * j - 2 * dxa * i,
                2 * dya * j <= 2 * dxa * i + dya,
                v@.len() == head.len() + i,
                forall|k: int|
                    0 <= k < v@.len() ==> ((#[trigger] v@[k]).0 as int, v@[k].1 as int) == cells[k],
                cells =~= v@.map(|k: int, c: (i32, i32)| (c.0 as int, c.1 as int)) + bres_cells(
                    y as int,
                    x as int,
                    d as int,
                    dya as int,
                    dxa as int,
                    yi as int,
                    xi as int,
                    (dya - i) as nat,
                ).map(|k: int, c: (int, int)| (c.1, c.0)),
            decreases dya - i,
        {
            proof {
                assert(y != b.1 ==> i != dya) by (nonlinear_arith)
                    requires
                        y == a.1 + yi * i,
                        y != b.1,
                        yi == (if dy < 0 { -1int } else { 1int }),
                        dy == b.1 - a.1,
                        dya == abs_i(dy as int),
                ;
                assert(i < dya);
                assert(a.1 - dya <= y <= a.1 + dya) by (nonlinear_arith)
                    requires
                        y == a.1 + yi * i,
                        0 <= i <= dya,
                        yi == 1 || yi == -1,
                ;
                assert(a.0 - dxa <= x <= a.0 + dxa) by (nonlinear_arith)
                    requires
                        x == a.0 + xi * j,
                        0 <= j <= dxa,
                        xi == 1 || xi == -1,
                ;
            }
            let ghost rest_before = bres_cells(
                y as int,
                x as int,
                d as int,
                dya as int,
                dxa as int,
                yi as int,
                xi as int,
                (dya - i) as nat,
            );
            if d <= 0 {
                proof {
                    lemma_line_step_minor(dya as int, dxa as int, i, j, d as int);
                }
                d = d + 2 * (dya - dxa);
                x = x + xi;
                proof {
                    j = j + 1;
                    assert(x == a.0 + xi * j) by (nonlinear_arith)
                        requires
                            x == a.0 + xi * (j - 1) + xi,
                    ;
                    lemma_line_minor_count(dya as int, dxa as int, i + 1, j);
                }
            } else {
                proof {
                    lemma_line_step_major(dya as int, dxa as int, i, j, d as int);
                }
                d = d - 2 * dxa;
            }
            y = y + yi;
            proof {
                i = i + 1;
                assert(y == a.1 + yi * i) by (nonlinear_arith)
                    requires
                        y == a.1 + yi * (i - 1) + yi,
                ;
                assert(a.1 <= y <= b.1 || b.1 <= y <= a.1) by (nonlinear_arith)
                    requires
                        y == a.1 + yi * i,
                        0 <= i <= dya,
                        yi == (if dy < 0 { -1int } else { 1int }),
                        dy == b.1 - a.1,
                        dya == abs_i(dy as int),
                ;
                assert(a.0 <= x <= b.0 || b.0 <= x <= a.0) by (nonlinear_arith)
                    requires
                        x == a.0 + xi * j,
                        0 <= j <= dxa,
                        xi == (if dx < 0 { -1int } else { 1int }),
                        dx == b.0 - a.0,
                        dxa == abs_i(dx as int),
                ;
            }
            v.push((x as i32, y as i32));
            proof {
                let rest = bres_cells(
                    y as int,
                    x as int,
                    d as int,
                    dya as int,
                    dxa as int,
                    yi as int,
                    xi as int,
                    (dya - i) as nat,
                );
                assert(rest_before[0] == (y as int, x as int));
                assert(rest_before.drop_first() =~= rest);
                assert(rest_before.map(|k: int, c: (int, int)| (c.1, c.0)).drop_first() =~= rest.map(
                    |k: int, c: (int, int)| (c.1, c.0),
                ));
                assert(rest_before.map(|k: int, c: (int, int)| (c.1, c.0))[0] == (
                    x as int,
                    y as int,
                ));
                assert(cells =~= v@.map(|k: int, c: (i32, i32)| (c.0 as int, c.1 as int)) + rest.map(
                    |k: int, c: (int, int)| (c.1, c.0),
                ));
            }
        }
        proof {
            assert(i == dya) by (nonlinear_arith)
                requires
                    y == a.1 + yi * i,
                    y == b.1,
                    yi == (if dy < 0 { -1int } else { 1int }),
                    dy == b.1 - a.1,
                    dya == abs_i(dy as int),
                    0 <= i <= dya,
            ;
        }
    }
    v
}

/// Whether the query point `p` lies within 10 pixels of the segment
/// from `a` to `b`: the point is projected onto the segment, the
/// projection parameter is clamped to the segment, and the squared
/// distance is compared against the squared radius, all scaled by the
/// squared segment length so that only integers are involved. A
/// zero-length segment is treated as a point with a 10-pixel box.
pub open spec fn seg_hit(a: Point, b: Point, p: Point) -> bool {
    if a == b {
        p.within_box(a, a, 10)
    } else {
        let dx = b.0 - a.0;
        let dy = b.1 - a.1;
        let dsq = dx * dx + dy * dy;
        let px = p.0 - a.0;
        let py = p.1 - a.1;
        let n = px * dx + py * dy;
        let nc = if n < 0 {
            0
        } else if n > dsq {
            dsq
        } else {
            n
        };
        let ex = dsq * px - nc * dx;
        let ey = dsq * py - nc * dy;
        ex * ex + ey * ey < 100 * dsq * dsq
    }
}

/// Tests whether the query point lies within 10 pixels of the line
/// through the first two control points of `core`.
pub fn line_hit_test(core: &ShapeCore, point: Point) -> (r: bool)
    requires
        core@.points.len() >= 2,
        pt_bounded(core@.points[0]),
        pt_bounded(core@.points[1]),
        pt_bounded(point),
    ensures
        r == seg_hit(core@.points[0], core@.points[1], point),
{
    let a: Point = core.points[0];
    let b: Point = core.points[1];

    if a.0 == b.0 && a.1 == b.1 {
        proof {
            assert(a == b);
        }
        return point.is_within_box(a, a, 10);
    }

    let dx: i128 = b.0 as i128 - a.0 as i128;
    let dy: i128 = b.1 as i128 - a.1 as i128;
    proof {
        lemma_mul_bound(dx as int, dx as int, 65536, 65536);
        lemma_mul_bound(dy as int, dy as int, 65536, 65536);
    }
    let dsq: i128 = dx * dx + dy * dy;
    let px: i128 = point.0 as i128 - a.0 as i128;
    let py: i128 = point.1 as i128 - a.1 as i128;
    proof {
        lemma_mul_bound(px as int, dx as int, 65536, 65536);
        lemma_mul_bound(py as int, dy as int, 65536, 65536);
    }
    let n: i128 = px * dx + py * dy;
    let nc: i128 = if n < 0 {
        0
    } else if n > dsq {
        dsq
    } else {
        n
    };
    proof {
        lemma_mul_bound(dsq as int, px as int, 0x2_0000_0000, 65536);
        lemma_mul_bound(dsq as int, py as int, 0x2_0000_0000, 65536);
        lemma_mul_bound(nc as int, dx as int, 0x2_0000_0000, 65536);
        lemma_mul_bound(nc as int, dy as int, 0x2_0000_0000, 65536);
    }
    let ex: i128 = dsq * px - nc * dx;
    let ey: i128 = dsq * py - nc * dy;
    proof {
        lemma_mul_bound(ex as int, ex as int, 0x8_0000_0000_0000, 0x8_0000_0000_0000);
        lemma_mul_bound(ey as int, ey as int, 0x8_0000_0000_0000, 0x8_0000_0000_0000);
        lemma_mul_bound(dsq as int, dsq as int, 0x2_0000_0000, 0x2_0000_0000);
        lemma_mul_bound(100 * dsq as int, dsq as int, 0xC8_0000_0000, 0x2_0000_0000);
    }
    ex * ex + ey * ey < 100 * dsq * dsq
}

impl Line {
    /// Creates a line shape from a snapshot.
    pub fn new(core: ShapeCore) -> (l: Line)
        ensures
            l.core@ == core@,
    {
        Line { core }
    }

    /// Returns a copy of the snapshot.
    pub fn get_core(&self) -> (c: ShapeCore)
        ensures
            c@ == self.core@,
    {
        self.core.clone_core()
    }

    /// Draws the line onto the canvas.
    pub fn draw(&self, canvas: &mut Canvas)
        requires
            self.core@.points.len() >= 2,
            old(canvas).wf(),
        ensures
            final(canvas).wf(),
            final(canvas).wd() == old(canvas).wd(),
            final(canvas).ht() == old(canvas).ht(),
            final(canvas).img() == plot_all(
                old(canvas).img(),
                old(canvas).wd(),
                old(canvas).ht(),
                line_cells(self.core@.points[0], self.core@.points[1], true),
                self.core@.color,
            ),
    {
        draw_line(&self.core, canvas, true)
    }

    /// Draws the line with a replacement border color.
    pub fn draw_with_color(&self, color: crate::rgba::RGBA, canvas: &mut Canvas)
        requires
            self.core@.points.len() >= 2,
            old(canvas).wf(),
        ensures
            final(canvas).wf(),
            final(canvas).wd() == old(canvas).wd(),
            final(canvas).ht() == old(canvas).ht(),
            final(canvas).img() == plot_all(
                old(canvas).img(),
                old(canvas).wd(),
                old(canvas).ht(),
                line_cells(self.core@.points[0], self.core@.points[1], true),
                color,
            ),
    {
        let tinted = self.core.copy_with_color(color);
        draw_line(&tinted, canvas, true)
    }

    /// Tests whether the query point hits the line.
    pub fn hit_test(&self, point: Point) -> (r: bool)
        requires
            self.core@.wf(),
            pt_bounded(point),
        ensures
            r == seg_hit(self.core@.points[0], self.core@.points[1], point),
    {
        line_hit_test(&self.core, point)
    }
}

} // verus!
