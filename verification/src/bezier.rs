//! Bezier curves: de Casteljau evaluation, degree elevation,
//! subdivision, and rendering through a cached polyline, with the
//! endpoint and continuity laws proved.

use vstd::prelude::*;

use crate::canvas::Canvas;
use crate::canvas::plot_all;
use crate::line::draw_line;
use crate::line::line_cells;
use crate::line::line_hit_test;
use crate::line::seg_hit;
use crate::point::Point;
use crate::point::Ratio;
use crate::point::abs_i;
use crate::point::interp_val;
use crate::point::lemma_interp_ends;
use crate::point::lemma_interp_in_range;
use crate::point::pt_bounded;
use crate::rgba::RGBA;
use crate::shape_core::CoreModel;
use crate::shape_core::OpModel;
use crate::shape_core::Shape;
use crate::shape_core::ShapeCore;
use crate::shape_core::UpdateOp;
use crate::shape_core::apply_basic;
use crate::shape_core::op_ok;

verus! {

/// Both coordinates of a point interpolated with parameter `num/den`.
pub open spec fn interp_pt(a: Point, b: Point, num: int, den: int) -> Point {
    Point(
        interp_val(a.0 as int, b.0 as int, num, den) as i32,
        interp_val(a.1 as int, b.1 as int, num, den) as i32,
    )
}

/// One de Casteljau pass: each adjacent pair of points collapses into
/// its interpolation at the parameter.
pub open spec fn dc_step(pts: Seq<Point>, num: int, den: int) -> Seq<Point> {
    Seq::new((pts.len() - 1) as nat, |i: int| interp_pt(pts[i], pts[i + 1], num, den))
}

/// The de Casteljau triangle after `r` passes.
pub open spec fn dc_rows(pts: Seq<Point>, num: int, den: int, r: nat) -> Seq<Point>
    decreases r,
{
    if r == 0 {
        pts
    } else {
        dc_rows(dc_step(pts, num, den), num, den, (r - 1) as nat)
    }
}

/// The point of the curve at the parameter: the single point left after
/// collapsing the whole triangle.
pub open spec fn dc_point(pts: Seq<Point>, num: int, den: int) -> Point
    recommends
        pts.len() >= 1,
{
    dc_rows(pts, num, den, (pts.len() - 1) as nat)[0]
}

/// Each de Casteljau pass shortens the row by one point.
pub proof fn lemma_dc_rows_len(pts: Seq<Point>, num: int, den: int, r: nat)
    requires
        r < pts.len(),
    ensures
        dc_rows(pts, num, den, r).len() == pts.len() - r,
    decreases r,
{
    if r > 0 {
        lemma_dc_rows_len(dc_step(pts, num, den), num, den, (r - 1) as nat);
    }
}

/// Every point of every de Casteljau row stays within the bounding box
/// of the control points, hence within the coordinate range.
pub proof fn lemma_dc_rows_bounded(pts: Seq<Point>, num: int, den: int, r: nat)
    requires
        den > 0,
        0 <= num <= den,
        r < pts.len(),
        forall|i: int| 0 <= i < pts.len() ==> pt_bounded(#[trigger] pts[i]),
    ensures
        forall|i: int|
            0 <= i < dc_rows(pts, num, den, r).len() ==> pt_bounded(
                #[trigger] dc_rows(pts, num, den, r)[i],
            ),
    decreases r,
{
    if r > 0 {
        let stepped = dc_step(pts, num, den);
        assert forall|i: int| 0 <= i < stepped.len() implies pt_bounded(#[trigger] stepped[i]) by {
            lemma_interp_in_range(pts[i].0 as int, pts[i + 1].0 as int, num, den);
            lemma_interp_in_range(pts[i].1 as int, pts[i + 1].1 as int, num, den);
        }
        lemma_dc_rows_bounded(stepped, num, den, (r - 1) as nat);
        let row = dc_rows(pts, num, den, r);
        assert forall|i: int| 0 <= i < row.len() implies pt_bounded(#[trigger] row[i]) by {
            assert(row == dc_rows(stepped, num, den, (r - 1) as nat));
            assert(pt_bounded(dc_rows(stepped, num, den, (r - 1) as nat)[i]));
        }
    }
}

/// Making one more pass is the same as making a pass on the last row.
pub proof fn lemma_dc_rows_snoc(pts: Seq<Point>, num: int, den: int, r: nat)
    ensures
        dc_rows(pts, num, den, (r + 1) as nat) == dc_step(dc_rows(pts, num, den, r), num, den),
    decreases r,
{
    let stepped = dc_step(pts, num, den);
    if r > 0 {
        lemma_dc_rows_snoc(stepped, num, den, (r - 1) as nat);
        assert(dc_rows(pts, num, den, (r + 1) as nat) == dc_rows(stepped, num, den, r));
        assert(dc_rows(pts, num, den, r) == dc_rows(stepped, num, den, (r - 1) as nat));
    } else {
        assert(dc_rows(pts, num, den, 1) == dc_rows(stepped, num, den, 0));
        assert(dc_rows(stepped, num, den, 0) == stepped);
        assert(dc_rows(pts, num, den, 0) == pts);
    }
}

/// Collapsing the whole triangle is the same as making one pass and
/// collapsing the rest.
pub proof fn lemma_dc_point_unroll(pts: Seq<Point>, num: int, den: int)
    requires
        pts.len() >= 2,
    ensures
        dc_point(pts, num, den) == dc_point(dc_step(pts, num, den), num, den),
{
    assert(dc_rows(pts, num, den, (pts.len() - 1) as nat) == dc_rows(
        dc_step(pts, num, den),
        num,
        den,
        (pts.len() - 2) as nat,
    ));
}

/// Evaluating the curve at parameter 0 yields the first control point;
/// at parameter 1 the last.
pub proof fn lemma_de_casteljau_ends(pts: Seq<Point>, den: int)
    requires
        den > 0,
        pts.len() >= 1,
    ensures
        dc_point(pts, 0, den) == pts[0],
        dc_point(pts, den, den) == pts[pts.len() - 1],
    decreases pts.len(),
{
    if pts.len() == 1 {
    } else {
        let stepped0 = dc_step(pts, 0, den);
        assert forall|i: int| 0 <= i < stepped0.len() implies #[trigger] stepped0[i] == pts[i] by {
            lemma_interp_ends(pts[i].0 as int, pts[i + 1].0 as int, den);
            lemma_interp_ends(pts[i].1 as int, pts[i + 1].1 as int, den);
        }
        assert(stepped0 =~= pts.take(pts.len() - 1));
        let stepped1 = dc_step(pts, den, den);
        assert forall|i: int| 0 <= i < stepped1.len() implies #[trigger] stepped1[i] == pts[i + 1]
            by {
            lemma_interp_ends(pts[i].0 as int, pts[i + 1].0 as int, den);
            lemma_interp_ends(pts[i].1 as int, pts[i + 1].1 as int, den);
        }
        assert(stepped1 =~= pts.skip(1));
        lemma_dc_point_unroll(pts, 0, den);
        lemma_dc_point_unroll(pts, den, den);
        lemma_de_casteljau_ends(pts.take(pts.len() - 1), den);
        lemma_de_casteljau_ends(pts.skip(1), den);
    }
}

/// The first curve produced by subdividing at the parameter: the left
/// diagonal of the de Casteljau triangle.
pub open spec fn subdiv_first(pts: Seq<Point>, num: int, den: int) -> Seq<Point> {
    Seq::new(pts.len(), |k: int| dc_rows(pts, num, den, k as nat)[0])
}

/// The second curve produced by subdividing at the parameter: the right
/// anti-diagonal of the de Casteljau triangle, reversed so that the
/// split point comes first.
pub open spec fn subdiv_second(pts: Seq<Point>, num: int, den: int) -> Seq<Point> {
    Seq::new(pts.len(), |k: int| dc_rows(pts, num, den, (pts.len() - 1 - k) as nat)[k])
}

/// Subdivision continuity: the two curves meet exactly at the curve
/// point of the subdivision parameter — the last control point of the
/// left curve and the first control point of the right curve both equal
/// the evaluation of the original curve at that parameter.
pub proof fn lemma_subdivision_continuity(pts: Seq<Point>, num: int, den: int)
    requires
        pts.len() >= 2,
    ensures
        subdiv_first(pts, num, den)[pts.len() - 1] == dc_point(pts, num, den),
        subdiv_second(pts, num, den)[0] == dc_point(pts, num, den),
{
}

/// Both halves produced by subdividing keep the control-point count
/// and stay within the coordinate range.
pub proof fn lemma_subdiv_wf(pts: Seq<Point>, num: int, den: int)
    requires
        den > 0,
        0 <= num <= den,
        pts.len() >= 2,
        forall|i: int| 0 <= i < pts.len() ==> pt_bounded(#[trigger] pts[i]),
    ensures
        subdiv_first(pts, num, den).len() == pts.len(),
        subdiv_second(pts, num, den).len() == pts.len(),
        forall|i: int|
            0 <= i < pts.len() ==> pt_bounded(#[trigger] subdiv_first(pts, num, den)[i]),
        forall|i: int|
            0 <= i < pts.len() ==> pt_bounded(#[trigger] subdiv_second(pts, num, den)[i]),
{
    let n = pts.len() as int;
    assert forall|i: int| 0 <= i < n implies pt_bounded(#[trigger] subdiv_first(pts, num, den)[i])
        by {
        lemma_dc_rows_bounded(pts, num, den, i as nat);
        lemma_dc_rows_len(pts, num, den, i as nat);
    }
    assert forall|i: int| 0 <= i < n implies pt_bounded(
        #[trigger] subdiv_second(pts, num, den)[i],
    ) by {
        lemma_dc_rows_bounded(pts, num, den, (n - 1 - i) as nat);
        lemma_dc_rows_len(pts, num, den, (n - 1 - i) as nat);
    }
}

/// The control points after raising the curve degree by one: the
/// endpoints are kept, and each interior point interpolates its
/// neighbours with weight `k / n`.
pub open spec fn elevate_spec(pts: Seq<Point>) -> Seq<Point>
    recommends
        pts.len() >= 1,
{
    let n = pts.len() as int;
    Seq::new(
        (n + 1) as nat,
        |k: int|
            if k == 0 {
                pts[0]
            } else if k == n {
                pts[n - 1]
            } else {
                interp_pt(pts[k], pts[k - 1], k, n)
            },
    )
}

/// Degree elevation keeps the curve's endpoints exactly: evaluating
/// the elevated curve at parameter 0 or 1 yields the same point as the
/// original curve. (At interior parameters the two curves agree up to
/// the rounding of interpolation.)
pub proof fn lemma_elevation_preserves_endpoints(pts: Seq<Point>, den: int)
    requires
        den > 0,
        pts.len() >= 2,
    ensures
        dc_point(elevate_spec(pts), 0, den) == dc_point(pts, 0, den),
        dc_point(elevate_spec(pts), den, den) == dc_point(pts, den, den),
{
    let e = elevate_spec(pts);
    assert(e[0] == pts[0]);
    assert(e[e.len() - 1] == pts[pts.len() - 1]);
    lemma_de_casteljau_ends(pts, den);
    lemma_de_casteljau_ends(e, den);
}

/// The snapshot after a mutation, on a shape that honours the two
/// curve-only variants: degree elevation rewrites the points of a curve
/// and leaves every other kind unchanged.
pub open spec fn apply_op(c: CoreModel, op: OpModel) -> CoreModel {
    match op {
        OpModel::DegreeElevate => if c.shape_type == Shape::Bezier {
            CoreModel { points: elevate_spec(c.points), ..c }
        } else {
            c
        },
        _ => apply_basic(c, op),
    }
}

/// A mutation keeps a snapshot well formed.
pub proof fn lemma_apply_op_wf(c: CoreModel, op: OpModel)
    requires
        c.wf(),
        op_ok(c, op),
    ensures
        apply_op(c, op).wf(),
{
    match op {
        OpModel::DegreeElevate => {
            if c.shape_type == Shape::Bezier {
                let e = elevate_spec(c.points);
                let n = c.points.len() as int;
                assert forall|i: int| 0 <= i < e.len() implies pt_bounded(#[trigger] e[i]) by {
                    if 0 < i < n {
                        lemma_interp_in_range(c.points[i].0 as int, c.points[i - 1].0 as int, i, n);
                        lemma_interp_in_range(c.points[i].1 as int, c.points[i - 1].1 as int, i, n);
                    }
                }
            }
        },
        _ => {},
    }
}

/// The taxicab length of the control polygon from index `k` on.
pub open spec fn poly_len_taxi(pts: Seq<Point>, k: int) -> int
    decreases pts.len() - k,
{
    if k + 1 >= pts.len() || k < 0 {
        0
    } else {
        abs_i(pts[k + 1].0 - pts[k].0) + abs_i(pts[k + 1].1 - pts[k].1) + poly_len_taxi(pts, k + 1)
    }
}

/// How many segments the rendered polyline of a curve has: longer
/// control polygons get more segments, so that segment length stays
/// visually bounded, with at least one segment and a fixed ceiling.
pub open spec fn curve_steps(pts: Seq<Point>) -> int {
    let raw = 3 * poly_len_taxi(pts, 0) / 100;
    if raw < 1 {
        1
    } else if raw > 1048576 {
        1048576
    } else {
        raw
    }
}

/// The rendered polyline of a curve: the curve evaluated at the evenly
/// spaced parameters `k / m` for `m = curve_steps`.
pub open spec fn bezier_polyline(pts: Seq<Point>) -> Seq<Point> {
    let m = curve_steps(pts);
    Seq::new((m + 1) as nat, |k: int| dc_point(pts, k, m))
}

/// The image after drawing the polyline segments from index `k` on:
/// each segment is drawn from its newer endpoint back to the older one
/// with the first pixel suppressed, except the final segment, which is
/// drawn whole — so every polyline vertex is composited exactly once.
pub open spec fn draw_segs_spec(
    s: Seq<RGBA>,
    w: int,
    h: int,
    poly: Seq<Point>,
    color: RGBA,
    k: int,
) -> Seq<RGBA>
    decreases poly.len() - k,
{
    if k < 1 || k >= poly.len() {
        s
    } else {
        draw_segs_spec(
            plot_all(s, w, h, line_cells(poly[k], poly[k - 1], k == poly.len() - 1), color),
            w,
            h,
            poly,
            color,
            k + 1,
        )
    }
}

/// The image after drawing the whole curve of `c`.
pub open spec fn bezier_draw_spec(s: Seq<RGBA>, w: int, h: int, c: CoreModel) -> Seq<RGBA> {
    draw_segs_spec(s, w, h, bezier_polyline(c.points), c.color, 1)
}

/// Whether the query point hits the rendered curve: it lies within the
/// hit radius of one of the polyline segments.
pub open spec fn bezier_hit(c: CoreModel, p: Point) -> bool {
    let poly = bezier_polyline(c.points);
    exists|k: int| 1 <= k < poly.len() && #[trigger] seg_hit(poly[k], poly[k - 1], p)
}

/// Evaluates the curve through the control points of `core` at
/// parameter `t` by iterated interpolation of adjacent points.
pub fn de_casteljau(core: &ShapeCore, t: Ratio) -> (p: Point)
    requires
        core@.points.len() >= 1,
        t.wf(),
    ensures
        p == dc_point(core@.points, t.num as int, t.den as int),
{
    let mut pts = crate::shape_core::clone_points(&core.points);
    let n: usize = pts.len();
    let ghost num = t.num as int;
    let ghost den = t.den as int;
    let mut r: usize = 1;
    while r < n
        invariant
            1 <= r <= n || (n <= 1 && r == 1),
            n == core@.points.len(),
            t.wf(),
            num == t.num as int,
            den == t.den as int,
            pts@.len() == n,
            r <= n ==> pts@.take((n - r + 1) as int) =~= dc_rows(
                core@.points,
                num,
                den,
                (r - 1) as nat,
            ),
        decreases n - r,
    {
        proof {
            lemma_dc_rows_len(core@.points, num, den, (r - 1) as nat);
        }
        let ghost row = dc_rows(core@.points, num, den, (r - 1) as nat);
        let mut i: usize = 0;
        while i < n - r
            invariant
                1 <= r < n,
                n == core@.points.len(),
                t.wf(),
                num == t.num as int,
                den == t.den as int,
                pts@.len() == n,
                i <= n - r,
                row.len() == n - r + 1,
                forall|j: int| 0 <= j < i ==> #[trigger] pts@[j] == interp_pt(row[j], row[j + 1], num, den),
                forall|j: int| i <= j < n - r + 1 ==> #[trigger] pts@[j] == row[j],
            decreases n - r - i,
        {
            let a: Point = pts[i];
            let b: Point = pts[i + 1];
            let q: Point = a.interpolate(b, t);
            pts.set(i, q);
            i = i + 1;
        }
        proof {
            assert(pts@.take((n - r) as int) =~= dc_step(row, num, den));
            lemma_dc_rows_snoc(core@.points, num, den, (r - 1) as nat);
            assert(dc_rows(core@.points, num, den, r as nat) == dc_step(row, num, den));
        }
        r = r + 1;
    }
    proof {
        if n >= 1 {
            lemma_dc_rows_len(core@.points, num, den, (n - 1) as nat);
            assert(pts@.take(1int) =~= dc_rows(core@.points, num, den, (n - 1) as nat));
        }
    }
    pts[0]
}

/// Sums the taxicab length of the control polygon.
fn poly_len_exec(points: &Vec<Point>) -> (l: u64)
    requires
        points@.len() < 0x1_0000_0000,
        forall|i: int| 0 <= i < points@.len() ==> pt_bounded(#[trigger] points@[i]),
    ensures
        l == poly_len_taxi(points@, 0),
        l <= 0x4_0000_0000_0000,
{
    let n: usize = points.len();
    let mut sum: u64 = 0;
    let mut i: usize = 0;
    if n == 0 {
        return 0;
    }
    while i < n - 1
        invariant
            n == points@.len(),
            1 <= n < 0x1_0000_0000,
            i <= n - 1,
            forall|j: int| 0 <= j < points@.len() ==> pt_bounded(#[trigger] points@[j]),
            sum <= 0x40000 * i,
            sum + poly_len_taxi(points@, i as int) == poly_len_taxi(points@, 0),
        decreases n - i,
    {
        proof {
            assert(0x40000 * i <= 0x40000 * 0x1_0000_0000) by (nonlinear_arith)
                requires
                    0 <= i <= 0x1_0000_0000,
            ;
        }
        let a: Point = points[i];
        let b: Point = points[i + 1];
        let dx: i64 = b.0 as i64 - a.0 as i64;
        let dy: i64 = b.1 as i64 - a.1 as i64;
        let step: u64 = (if dx < 0 {
            -dx
        } else {
            dx
        }) as u64 + (if dy < 0 {
            -dy
        } else {
            dy
        }) as u64;
        proof {
            assert(sum + step <= 0x40000 * (i + 1)) by (nonlinear_arith)
                requires
                    sum <= 0x40000 * i,
                    step <= 0x40000,
            ;
            assert(0x40000 * (i + 1) <= 0x40000 * 0x1_0000_0000) by (nonlinear_arith)
                requires
                    0 <= i + 1 <= 0x1_0000_0000,
            ;
        }
        sum = sum + step;
        i = i + 1;
    }
    sum
}

/// Computes the number of polyline segments for a curve.
fn steps_for(points: &Vec<Point>) -> (m: u32)
    requires
        points@.len() < 0x1_0000_0000,
        forall|i: int| 0 <= i < points@.len() ==> pt_bounded(#[trigger] points@[i]),
    ensures
        m as int == curve_steps(points@),
        1 <= m <= 1048576,
{
    let l: u64 = poly_len_exec(points);
    let raw: u64 = 3 * l / 100;
    if raw < 1 {
        1
    } else if raw > 1048576 {
        1048576
    } else {
        raw as u32
    }
}

/// Evaluates the curve at evenly spaced parameters to produce the
/// polyline used for drawing and hit testing.
fn generate_polyline(core: &ShapeCore) -> (poly: Vec<Point>)
    requires
        core@.wf(),
    ensures
        poly@ == bezier_polyline(core@.points),
{
    let m: u32 = steps_for(&core.points);
    let mut poly: Vec<Point> = Vec::new();
    let mut k: u32 = 0;
    while k <= m
        invariant
            core@.wf(),
            m as int == curve_steps(core@.points),
            1 <= m <= 1048576,
            k <= m + 1,
            poly@.len() == k,
            forall|j: int|
                0 <= j < k ==> #[trigger] poly@[j] == dc_point(core@.points, j, m as int),
        decreases m + 1 - k,
    {
        let t: Ratio = Ratio::new(k, m);
        let p: Point = de_casteljau(core, t);
        poly.push(p);
        k = k + 1;
    }
    proof {
        assert(poly@ =~= bezier_polyline(core@.points));
    }
    poly
}

/// A Bezier curve shape: its snapshot, the subdivision-preview
/// parameter, and the cached rendered polyline, regenerated whenever
/// the control points change.
pub struct Bezier {
    pub core: ShapeCore,
    pub subdivide_t: Ratio,
    pub polyline: Vec<Point>,
}

impl Bezier {
    /// The curve is well formed: a snapshot tagged as a curve, a valid
    /// parameter, and a polyline cache that matches the control points.
    pub open spec fn wf(self) -> bool {
        self.core@.wf() && self.core@.shape_type == Shape::Bezier && self.subdivide_t.wf()
            && self.polyline@ == bezier_polyline(self.core@.points)
    }

    /// Creates a curve from a snapshot, with the subdivision parameter
    /// at one half.
    pub fn new(core: ShapeCore) -> (b: Bezier)
        requires
            core@.wf(),
            core@.shape_type == Shape::Bezier,
        ensures
            b.core@ == core@,
            b.subdivide_t == (Ratio { num: 1u32, den: 2u32 }),
            b.wf(),
    {
        let polyline = generate_polyline(&core);
        Bezier { core, subdivide_t: Ratio::half(), polyline }
    }

    /// Returns a copy of the snapshot.
    pub fn get_core(&self) -> (c: ShapeCore)
        ensures
            c@ == self.core@,
    {
        self.core.clone_core()
    }

    /// Raises the degree of the curve by one without changing the curve
    /// it draws: the endpoints are kept and each interior control point
    /// interpolates its neighbours.
    pub fn degree_elevate(&mut self)
        requires
            old(self).core@.wf(),
            old(self).core@.points.len() + 1 < 0x1_0000_0000,
        ensures
            final(self).core@ == (CoreModel {
                points: elevate_spec(old(self).core@.points),
                ..old(self).core@
            }),
            final(self).subdivide_t == old(self).subdivide_t,
            final(self).polyline == old(self).polyline,
    {
        let ghost pts = self.core@.points;
        let ghost target = elevate_spec(pts);
        let n: usize = self.core.points.len();
        let mut new_points: Vec<Point> = Vec::new();
        new_points.push(self.core.points[0]);
        let mut i: usize = 1;
        while i < n
            invariant
                self == old(self),
                pts == self.core@.points,
                target == elevate_spec(pts),
                2 <= n < 0x1_0000_0000,
                n == pts.len(),
                old(self).core@.wf(),
                1 <= i <= n,
                new_points@.len() == i,
                forall|j: int| 0 <= j < i ==> #[trigger] new_points@[j] == target[j],
            decreases n - i,
        {
            let b_prev: Point = self.core.points[i - 1];
            let b: Point = self.core.points[i];
            let t: Ratio = Ratio::new(i as u32, n as u32);
            let q: Point = b.interpolate(b_prev, t);
            proof {
                assert(q == interp_pt(pts[i as int], pts[i - 1], i as int, n as int));
            }
            new_points.push(q);
            i = i + 1;
        }
        new_points.push(self.core.points[n - 1]);
        proof {
            assert(new_points@ =~= target);
        }
        self.core.points = new_points;
    }

    /// Splits the curve at the subdivision parameter into two curves
    /// that together draw exactly the original: the left covers the
    /// part before the parameter, the right the part after. The shape
    /// itself is left unchanged.
    pub fn subdivide(&self) -> (r: (ShapeCore, ShapeCore))
        requires
            self.core@.wf(),
            self.subdivide_t.wf(),
        ensures
            r.0@ == (CoreModel {
                points: subdiv_first(
                    self.core@.points,
                    self.subdivide_t.num as int,
                    self.subdivide_t.den as int,
                ),
                ..self.core@
            }),
            r.1@ == (CoreModel {
                points: subdiv_second(
                    self.core@.points,
                    self.subdivide_t.num as int,
                    self.subdivide_t.den as int,
                ),
                ..self.core@
            }),
    {
        let ghost num = self.subdivide_t.num as int;
        let ghost den = self.subdivide_t.den as int;
        let ghost opts = self.core@.points;
        let t: Ratio = self.subdivide_t;
        let mut pts = crate::shape_core::clone_points(&self.core.points);
        let n: usize = pts.len();

        let mut first: Vec<Point> = Vec::new();
        first.push(self.core.points[0]);
        let mut srev: Vec<Point> = Vec::new();
        srev.push(self.core.points[n - 1]);

        let mut r: usize = 1;
        while r < n
            invariant
                1 <= r <= n,
                2 <= n,
                n == opts.len(),
                opts == self.core@.points,
                self.core@.wf(),
                t == self.subdivide_t,
                t.wf(),
                num == t.num as int,
                den == t.den as int,
                pts@.len() == n,
                pts@.take((n - r + 1) as int) =~= dc_rows(opts, num, den, (r - 1) as nat),
                first@.len() == r,
                srev@.len() == r,
                forall|j: int| 0 <= j < r ==> #[trigger] first@[j] == dc_rows(opts, num, den, j as nat)[0],
                forall|j: int|
                    0 <= j < r ==> #[trigger] srev@[j] == dc_rows(opts, num, den, j as nat)[
                        n - 1 - j
                    ],
            decreases n - r,
        {
            proof {
                lemma_dc_rows_len(opts, num, den, (r - 1) as nat);
            }
            let ghost row = dc_rows(opts, num, den, (r - 1) as nat);
            let mut i: usize = 0;
            while i < n - r
                invariant
                    1 <= r < n,
                    n == opts.len(),
                    t.wf(),
                    num == t.num as int,
                    den == t.den as int,
                    pts@.len() == n,
                    i <= n - r,
                    row.len() == n - r + 1,
                    forall|j: int|
                        0 <= j < i ==> #[trigger] pts@[j] == interp_pt(row[j], row[j + 1], num, den),
                    forall|j: int| i <= j < n - r + 1 ==> #[trigger] pts@[j] == row[j],
                decreases n - r - i,
            {
                let a: Point = pts[i];
                let b: Point = pts[i + 1];
                let q: Point = a.interpolate(b, t);
                pts.set(i, q);
                i = i + 1;
            }
            proof {
                assert(pts@.take((n - r) as int) =~= dc_step(row, num, den));
                lemma_dc_rows_snoc(opts, num, den, (r - 1) as nat);
                assert(dc_rows(opts, num, den, r as nat) == dc_step(row, num, den));
                lemma_dc_rows_len(opts, num, den, r as nat);
            }
            first.push(pts[0]);
            srev.push(pts[n - r - 1]);
            r = r + 1;
        }

        let mut second: Vec<Point> = Vec::new();
        let mut k: usize = 0;
        while k < n
            invariant
                n == opts.len(),
                2 <= n,
                srev@.len() == n,
                forall|j: int|
                    0 <= j < n ==> #[trigger] srev@[j] == dc_rows(opts, num, den, j as nat)[
                        n - 1 - j
                    ],
                k <= n,
                second@.len() == k,
                forall|j: int|
                    0 <= j < k ==> #[trigger] second@[j] == dc_rows(opts, num, den, (n - 1 - j) as nat)[j],
            decreases n - k,
        {
            second.push(srev[n - 1 - k]);
            k = k + 1;
        }

        proof {
            assert(first@ =~= subdiv_first(opts, num, den));
            assert(second@ =~= subdiv_second(opts, num, den));
        }
        let c1 = self.core.copy_with_points(first);
        let c2 = self.core.copy_with_points(second);
        (c1, c2)
    }

    /// Applies a mutation: the shared variants update the snapshot,
    /// degree elevation rewrites the control points, and the
    /// subdivision variant stores the new parameter; the polyline cache
    /// is regenerated whenever the control points change.
    pub fn update(&mut self, op: &UpdateOp)
        requires
            old(self).wf(),
            op_ok(old(self).core@, op@),
        ensures
            final(self).core@ == apply_op(old(self).core@, op@),
            final(self).subdivide_t == (match op@ {
                OpModel::UpdateSubdivide(t) => t,
                _ => old(self).subdivide_t,
            }),
            final(self).wf(),
    {
        proof {
            lemma_apply_op_wf(self.core@, op@);
        }
        match op {
            UpdateOp::ChangeColor(..) => {
                self.core.update_basic(op);
            },
            UpdateOp::ChangeFillColor(..) => {
                self.core.update_basic(op);
            },
            UpdateOp::UpdateSubdivide(t) => {
                self.subdivide_t = *t;
            },
            UpdateOp::DegreeElevate => {
                self.degree_elevate();
                let polyline = generate_polyline(&self.core);
                self.polyline = polyline;
            },
            _ => {
                self.core.update_basic(op);
                let polyline = generate_polyline(&self.core);
                self.polyline = polyline;
            },
        }
    }

    /// Draws the curve onto the canvas through its cached polyline.
    pub fn draw(&self, canvas: &mut Canvas)
        requires
            self.wf(),
            old(canvas).wf(),
        ensures
            final(canvas).wf(),
            final(canvas).wd() == old(canvas).wd(),
            final(canvas).ht() == old(canvas).ht(),
            final(canvas).img() == bezier_draw_spec(
                old(canvas).img(),
                old(canvas).wd(),
                old(canvas).ht(),
                self.core@,
            ),
    {
        self.draw_polyline(self.core.color, canvas)
    }

    /// Draws the curve with a replacement border color.
    pub fn draw_with_color(&self, color: RGBA, canvas: &mut Canvas)
        requires
            self.wf(),
            old(canvas).wf(),
        ensures
            final(canvas).wf(),
            final(canvas).wd() == old(canvas).wd(),
            final(canvas).ht() == old(canvas).ht(),
            final(canvas).img() == bezier_draw_spec(
                old(canvas).img(),
                old(canvas).wd(),
                old(canvas).ht(),
                CoreModel { color, ..self.core@ },
            ),
    {
        self.draw_polyline(color, canvas)
    }

    /// Draws the cached polyline with the given color, suppressing the
    /// first pixel of every segment but the last, so that each shared
    /// vertex is composited exactly once.
    fn draw_polyline(&self, color: RGBA, canvas: &mut Canvas)
        requires
            self.wf(),
            old(canvas).wf(),
        ensures
            final(canvas).wf(),
            final(canvas).wd() == old(canvas).wd(),
            final(canvas).ht() == old(canvas).ht(),
            final(canvas).img() == draw_segs_spec(
                old(canvas).img(),
                old(canvas).wd(),
                old(canvas).ht(),
                bezier_polyline(self.core@.points),
                color,
                1,
            ),
    {
        let ghost w = canvas.wd();
        let ghost h = canvas.ht();
        let ghost poly = bezier_polyline(self.core@.points);
        let ghost target = draw_segs_spec(old(canvas).img(), w, h, poly, color, 1);
        let len: usize = self.polyline.len();
        let mut k: usize = 1;
        while k < len
            invariant
                self.wf(),
                canvas.wf(),
                canvas.wd() == w,
                canvas.ht() == h,
                poly == bezier_polyline(self.core@.points),
                len == poly.len(),
                2 <= len,
                1 <= k <= len,
                target == draw_segs_spec(canvas.img(), w, h, poly, color, k as int),
            decreases len - k,
        {
            let seg = ShapeCore {
                points: vec![self.polyline[k], self.polyline[k - 1]],
                color,
                fill_color: self.core.fill_color,
                shape_type: self.core.shape_type,
            };
            draw_line(&seg, canvas, k == len - 1);
            k = k + 1;
        }
    }

    /// Tests whether the query point lies within the hit radius of one
    /// of the polyline segments of the curve.
    pub fn hit_test(&self, point: Point) -> (r: bool)
        requires
            self.wf(),
            pt_bounded(point),
        ensures
            r == bezier_hit(self.core@, point),
    {
        let ghost poly = bezier_polyline(self.core@.points);
        let ghost m = curve_steps(self.core@.points);
        let len: usize = self.polyline.len();
        let mut k: usize = 1;
        while k < len
            invariant
                self.wf(),
                pt_bounded(point),
                poly == bezier_polyline(self.core@.points),
                m == curve_steps(self.core@.points),
                len == poly.len(),
                len == m + 1,
                1 <= k <= len,
                forall|j: int| 1 <= j < k ==> !(#[trigger] seg_hit(poly[j], poly[j - 1], point)),
            decreases len - k,
        {
            let seg = ShapeCore {
                points: vec![self.polyline[k], self.polyline[k - 1]],
                color: self.core.color,
                fill_color: self.core.fill_color,
                shape_type: self.core.shape_type,
            };
            proof {
                let npts = self.core@.points.len();
                lemma_dc_rows_bounded(self.core@.points, k as int, m, (npts - 1) as nat);
                lemma_dc_rows_bounded(self.core@.points, k - 1, m, (npts - 1) as nat);
                lemma_dc_rows_len(self.core@.points, k as int, m, (npts - 1) as nat);
                lemma_dc_rows_len(self.core@.points, k - 1, m, (npts - 1) as nat);
            }
            if line_hit_test(&seg, point) {
                return true;
            }
            k = k + 1;
        }
        false
    }
}

} // verus!
