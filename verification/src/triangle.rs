//! Triangles: edge drawing with a per-call draw-once set, scanline
//! fill split at the middle vertex, and the edge-sign hit test.

use vstd::prelude::*;

use crate::canvas::Canvas;
use crate::canvas::plot;
use crate::canvas::plot_all;
use crate::line::draw_line;
use crate::line::line_cells;
use crate::line::line_cells_exec;
use crate::point::Point;
use crate::point::interp_coord;
use crate::point::interp_val;
use crate::point::max_i;
use crate::point::min_i;
use crate::point::pt_bounded;
use crate::rgba::RGBA;
use crate::shape_core::CoreModel;
use crate::shape_core::ShapeCore;

verus! {

/// A triangle shape: a snapshot whose first three points are the
/// vertices; while under construction it may still have only two.
pub struct Triangle {
    pub core: ShapeCore,
}

/// A set of pixels already written during one draw call, so that the
/// three edge walks never composite the same cell twice.
pub struct PixelSet {
    items: Vec<(i32, i32)>,
}

impl View for PixelSet {
    type V = Set<(int, int)>;

    closed spec fn view(&self) -> Set<(int, int)> {
        Set::new(
            |p: (int, int)|
                exists|k: int|
                    0 <= k < self.items@.len() && (#[trigger] self.items@[k]).0 == p.0
                        && self.items@[k].1 == p.1,
        )
    }
}

impl PixelSet {
    /// Creates an empty set.
    pub fn new() -> (s: PixelSet)
        ensures
            s@ =~= Set::<(int, int)>::empty(),
    {
        PixelSet { items: Vec::new() }
    }

    /// Whether the cell is in the set.
    pub fn contains(&self, x: i32, y: i32) -> (r: bool)
        ensures
            r == self@.contains((x as int, y as int)),
    {
        let n: usize = self.items.len();
        let mut k: usize = 0;
        while k < n
            invariant
                n == self.items@.len(),
                k <= n,
                forall|j: int|
                    0 <= j < k ==> !((#[trigger] self.items@[j]).0 == x && self.items@[j].1 == y),
            decreases n - k,
        {
            let it: (i32, i32) = self.items[k];
            if it.0 == x && it.1 == y {
                proof {
                    assert(self.items@[k as int].0 == x as int && self.items@[k as int].1
                        == y as int);
                }
                return true;
            }
            k = k + 1;
        }
        false
    }

    /// Adds the cell to the set.
    pub fn insert(&mut self, x: i32, y: i32)
        ensures
            final(self)@ =~= old(self)@.insert((x as int, y as int)),
    {
        let ghost n = self.items@.len();
        self.items.push((x, y));
        proof {
            assert forall|p: (int, int)| #[trigger]
                final(self)@.contains(p) implies old(self)@.insert((x as int, y as int)).contains(
                p,
            ) by {
                let k = choose|k: int|
                    0 <= k < self.items@.len() && (#[trigger] self.items@[k]).0 == p.0
                        && self.items@[k].1 == p.1;
                if k < n {
                    assert(old(self).items@[k].0 == p.0 && old(self).items@[k].1 == p.1);
                }
            }
            assert forall|p: (int, int)| #[trigger]
                old(self)@.insert((x as int, y as int)).contains(p) implies final(self)@.contains(
                p,
            ) by {
                if p == (x as int, y as int) {
                    assert(self.items@[n as int].0 == p.0 && self.items@[n as int].1 == p.1);
                } else {
                    let k = choose|k: int|
                        0 <= k < old(self).items@.len() && (#[trigger] old(self).items@[k]).0 == p.0
                            && old(self).items@[k].1 == p.1;
                    assert(self.items@[k].0 == p.0 && self.items@[k].1 == p.1);
                }
            }
        }
    }
}

/// The image and draw-once set after compositing `c` onto the cells of
/// `cells` from index `k` on, skipping cells already in the set and
/// recording the ones newly written.
pub open spec fn dedup_plot(
    s: Seq<RGBA>,
    w: int,
    h: int,
    drawn: Set<(int, int)>,
    cells: Seq<(int, int)>,
    k: int,
    c: RGBA,
) -> (Seq<RGBA>, Set<(int, int)>)
    decreases cells.len() - k,
{
    if k < 0 || k >= cells.len() {
        (s, drawn)
    } else {
        let cell = cells[k];
        if drawn.contains(cell) {
            dedup_plot(s, w, h, drawn, cells, k + 1, c)
        } else {
            dedup_plot(plot(s, w, h, cell.0, cell.1, c), w, h, drawn.insert(cell), cells, k + 1, c)
        }
    }
}

/// Draws the digital line between the first two control points of
/// `core`, writing each cell at most once per draw call: cells already
/// in `drawn` are skipped, and the cells written are added to it.
pub fn draw_line_for_triangle(core: &ShapeCore, canvas: &mut Canvas, drawn: &mut PixelSet)
    requires
        core@.points.len() >= 2,
        old(canvas).wf(),
    ensures
        final(canvas).wf(),
        final(canvas).wd() == old(canvas).wd(),
        final(canvas).ht() == old(canvas).ht(),
        (final(canvas).img(), final(drawn)@) == dedup_plot(
            old(canvas).img(),
            old(canvas).wd(),
            old(canvas).ht(),
            old(drawn)@,
            line_cells(core@.points[0], core@.points[1], true),
            0,
            core@.color,
        ),
{
    let a: Point = core.points[0];
    let b: Point = core.points[1];
    let color = core.color;
    let ghost w = canvas.wd();
    let ghost h = canvas.ht();
    let ghost cells = line_cells(a, b, true);
    let ghost target = dedup_plot(old(canvas).img(), w, h, old(drawn)@, cells, 0, color);

    let v: Vec<(i32, i32)> = line_cells_exec(a, b, true);
    let n: usize = v.len();
    let mut k: usize = 0;
    while k < n
        invariant
            canvas.wf(),
            canvas.wd() == w,
            canvas.ht() == h,
            n == v@.len(),
            n == cells.len(),
            k <= n,
            forall|j: int|
                0 <= j < n ==> ((#[trigger] v@[j]).0 as int, v@[j].1 as int) == cells[j],
            target == dedup_plot(canvas.img(), w, h, drawn@, cells, k as int, color),
        decreases n - k,
    {
        let cell: (i32, i32) = v[k];
        proof {
            assert((cell.0 as int, cell.1 as int) == cells[k as int]);
        }
        if !drawn.contains(cell.0, cell.1) {
            drawn.insert(cell.0, cell.1);
            canvas.set_pixel(cell.0, cell.1, color);
        }
        k = k + 1;
    }
}

/// The vertices in ascending order of their y coordinate, keeping the
/// original order of equal keys.
pub open spec fn sort3_by_y(p0: Point, p1: Point, p2: Point) -> (Point, Point, Point) {
    if p0.1 <= p1.1 {
        if p1.1 <= p2.1 {
            (p0, p1, p2)
        } else if p0.1 <= p2.1 {
            (p0, p2, p1)
        } else {
            (p2, p0, p1)
        }
    } else {
        if p0.1 <= p2.1 {
            (p1, p0, p2)
        } else if p1.1 <= p2.1 {
            (p1, p2, p0)
        } else {
            (p2, p1, p0)
        }
    }
}

/// The image after compositing `c` onto the run from `x` up to but
/// excluding `xe` on row `y`, skipping cells in the draw-once set.
pub open spec fn plot_row_skip(
    s: Seq<RGBA>,
    w: int,
    h: int,
    x: int,
    xe: int,
    y: int,
    drawn: Set<(int, int)>,
    c: RGBA,
) -> Seq<RGBA>
    decreases xe - x,
{
    if x >= xe {
        s
    } else {
        let s1 = if drawn.contains((x, y)) {
            s
        } else {
            plot(s, w, h, x, y, c)
        };
        plot_row_skip(s1, w, h, x + 1, xe, y, drawn, c)
    }
}

/// The image after filling the flat-bottom part: rows from `y` up to
/// the middle vertex, the bounds interpolated along the edges from the
/// top vertex to the middle vertex and to the split point.
pub open spec fn tri_top_rows(
    s: Seq<RGBA>,
    w: int,
    h: int,
    q1: Point,
    q2: Point,
    p4x: int,
    y: int,
    drawn: Set<(int, int)>,
    c: RGBA,
) -> Seq<RGBA>
    decreases q2.1 - y,
{
    if y >= q2.1 {
        s
    } else {
        let den = q2.1 - q1.1;
        let xa = interp_val(q1.0 as int, q2.0 as int, y - q1.1, den);
        let xb = interp_val(q1.0 as int, p4x, y - q1.1, den);
        let s1 = plot_row_skip(s, w, h, min_i(xa, xb), max_i(xa, xb), y, drawn, c);
        tri_top_rows(s1, w, h, q1, q2, p4x, y + 1, drawn, c)
    }
}

/// The image after filling the flat-top part: rows from `y` up to the
/// bottom vertex, the bounds interpolated along the edges from the
/// middle vertex and from the split point down to the bottom vertex.
pub open spec fn tri_bot_rows(
    s: Seq<RGBA>,
    w: int,
    h: int,
    q2: Point,
    q3: Point,
    p4x: int,
    y: int,
    drawn: Set<(int, int)>,
    c: RGBA,
) -> Seq<RGBA>
    decreases q3.1 - y,
{
    if y >= q3.1 {
        s
    } else {
        let den = q3.1 - q2.1;
        let xa = interp_val(q2.0 as int, q3.0 as int, y - q2.1, den);
        let xb = interp_val(p4x, q3.0 as int, y - q2.1, den);
        let s1 = plot_row_skip(s, w, h, min_i(xa, xb), max_i(xa, xb), y, drawn, c);
        tri_bot_rows(s1, w, h, q2, q3, p4x, y + 1, drawn, c)
    }
}

/// The image after filling the triangle: the vertices are sorted by y,
/// the long edge is split at the middle vertex's row, and the two flat
/// parts are filled row by row, skipping border cells; a flat triangle
/// is left unfilled.
pub open spec fn tri_fill_spec(
    s: Seq<RGBA>,
    w: int,
    h: int,
    c: CoreModel,
    drawn: Set<(int, int)>,
) -> Seq<RGBA> {
    let sorted = sort3_by_y(c.points[0], c.points[1], c.points[2]);
    let q1 = sorted.0;
    let q2 = sorted.1;
    let q3 = sorted.2;
    if q1.1 == q3.1 {
        s
    } else {
        let p4x = interp_val(q1.0 as int, q3.0 as int, q2.1 - q1.1, q3.1 - q1.1);
        let s_top = tri_top_rows(s, w, h, q1, q2, p4x, q1.1 as int, drawn, c.fill_color);
        tri_bot_rows(s_top, w, h, q2, q3, p4x, q2.1 as int, drawn, c.fill_color)
    }
}

/// The image after drawing the triangle of `c`: with fewer than three
/// points only the available segment, otherwise the three edges drawn
/// through a shared draw-once set and, when the fill color is not
/// transparent, the interior filled around the recorded border.
pub open spec fn triangle_draw_spec(s: Seq<RGBA>, w: int, h: int, c: CoreModel) -> Seq<RGBA> {
    if c.points.len() <= 2 {
        plot_all(s, w, h, line_cells(c.points[0], c.points[1], false), c.color)
    } else {
        let e = Set::<(int, int)>::empty();
        let r1 = dedup_plot(s, w, h, e, line_cells(c.points[0], c.points[1], true), 0, c.color);
        let r2 = dedup_plot(
            r1.0,
            w,
            h,
            r1.1,
            line_cells(c.points[1], c.points[2], true),
            0,
            c.color,
        );
        let r3 = dedup_plot(
            r2.0,
            w,
            h,
            r2.1,
            line_cells(c.points[2], c.points[0], true),
            0,
            c.color,
        );
        if c.fill_color.a != 0 {
            tri_fill_spec(r3.0, w, h, c, r3.1)
        } else {
            r3.0
        }
    }
}

/// Fills the run between `x1` and `x2` (exclusive of the larger) on
/// row `y`, skipping cells recorded as border.
fn draw_horizontal(canvas: &mut Canvas, x1: i64, x2: i64, y: i64, color: RGBA, drawn: &PixelSet)
    requires
        old(canvas).wf(),
        i32::MIN <= x1 <= i32::MAX,
        i32::MIN <= x2 <= i32::MAX,
        i32::MIN <= y <= i32::MAX,
    ensures
        final(canvas).wf(),
        final(canvas).wd() == old(canvas).wd(),
        final(canvas).ht() == old(canvas).ht(),
        final(canvas).img() == plot_row_skip(
            old(canvas).img(),
            old(canvas).wd(),
            old(canvas).ht(),
            min_i(x1 as int, x2 as int),
            max_i(x1 as int, x2 as int),
            y as int,
            drawn@,
            color,
        ),
{
    let ghost w = canvas.wd();
    let ghost h = canvas.ht();
    let lo: i64 = if x1 <= x2 {
        x1
    } else {
        x2
    };
    let hi: i64 = if x1 <= x2 {
        x2
    } else {
        x1
    };
    let ghost target = plot_row_skip(
        old(canvas).img(),
        w,
        h,
        lo as int,
        hi as int,
        y as int,
        drawn@,
        color,
    );
    let mut x: i64 = lo;
    while x < hi
        invariant
            canvas.wf(),
            canvas.wd() == w,
            canvas.ht() == h,
            lo <= x,
            i32::MIN <= lo,
            hi <= i32::MAX,
            i32::MIN <= y <= i32::MAX,
            target == plot_row_skip(canvas.img(), w, h, x as int, hi as int, y as int, drawn@, color),
        decreases hi - x,
    {
        if !drawn.contains(x as i32, y as i32) {
            canvas.set_pixel(x as i32, y as i32, color);
        }
        x = x + 1;
    }
}

/// Fills the triangle interior of `core` row by row, splitting it at
/// the middle vertex into a flat-bottom and a flat-top part and
/// skipping the border cells recorded in `drawn`.
fn fill_triangle(core: &ShapeCore, canvas: &mut Canvas, drawn: &PixelSet)
    requires
        core@.points.len() >= 3,
        pt_bounded(core@.points[0]),
        pt_bounded(core@.points[1]),
        pt_bounded(core@.points[2]),
        old(canvas).wf(),
    ensures
        final(canvas).wf(),
        final(canvas).wd() == old(canvas).wd(),
        final(canvas).ht() == old(canvas).ht(),
        final(canvas).img() == tri_fill_spec(
            old(canvas).img(),
            old(canvas).wd(),
            old(canvas).ht(),
            core@,
            drawn@,
        ),
{
    let ghost w = canvas.wd();
    let ghost h = canvas.ht();
    let fill = core.fill_color;
    let p0: Point = core.points[0];
    let p1: Point = core.points[1];
    let p2: Point = core.points[2];

    let s01: (Point, Point) = if p0.1 <= p1.1 {
        (p0, p1)
    } else {
        (p1, p0)
    };
    let q1: Point;
    let q2: Point;
    let q3: Point;
    if s01.1.1 <= p2.1 {
        q1 = s01.0;
        q2 = s01.1;
        q3 = p2;
    } else if s01.0.1 <= p2.1 {
        q1 = s01.0;
        q2 = p2;
        q3 = s01.1;
    } else {
        q1 = p2;
        q2 = s01.0;
        q3 = s01.1;
    }
    proof {
        assert((q1, q2, q3) == sort3_by_y(p0, p1, p2));
    }

    if q1.1 == q3.1 {
        return;
    }

    let p4x: i32 = interp_coord(
        q1.0,
        q3.0,
        q2.1 as i64 - q1.1 as i64,
        q3.1 as i64 - q1.1 as i64,
    );

    let ghost top_target = tri_top_rows(
        old(canvas).img(),
        w,
        h,
        q1,
        q2,
        p4x as int,
        q1.1 as int,
        drawn@,
        fill,
    );
    let mut y: i64 = q1.1 as i64;
    while y < q2.1 as i64
        invariant
            canvas.wf(),
            canvas.wd() == w,
            canvas.ht() == h,
            pt_bounded(q1),
            pt_bounded(q2),
            q1.1 <= y,
            q1.1 <= q2.1,
            -32768 <= p4x <= 32768,
            top_target == tri_top_rows(
                canvas.img(),
                w,
                h,
                q1,
                q2,
                p4x as int,
                y as int,
                drawn@,
                fill,
            ),
        decreases q2.1 - y,
    {
        let den: i64 = q2.1 as i64 - q1.1 as i64;
        let xa: i32 = interp_coord(q1.0, q2.0, y - q1.1 as i64, den);
        let xb: i32 = interp_coord(q1.0, p4x, y - q1.1 as i64, den);
        draw_horizontal(canvas, xa as i64, xb as i64, y, fill, drawn);
        y = y + 1;
    }

    let ghost bot_target = tri_bot_rows(
        canvas.img(),
        w,
        h,
        q2,
        q3,
        p4x as int,
        q2.1 as int,
        drawn@,
        fill,
    );
    let mut y2: i64 = q2.1 as i64;
    while y2 < q3.1 as i64
        invariant
            canvas.wf(),
            canvas.wd() == w,
            canvas.ht() == h,
            pt_bounded(q2),
            pt_bounded(q3),
            q2.1 <= y2,
            q2.1 <= q3.1,
            -32768 <= p4x <= 32768,
            bot_target == tri_bot_rows(
                canvas.img(),
                w,
                h,
                q2,
                q3,
                p4x as int,
                y2 as int,
                drawn@,
                fill,
            ),
        decreases q3.1 - y2,
    {
        let den: i64 = q3.1 as i64 - q2.1 as i64;
        let xa: i32 = interp_coord(q2.0, q3.0, y2 - q2.1 as i64, den);
        let xb: i32 = interp_coord(p4x, q3.0, y2 - q2.1 as i64, den);
        draw_horizontal(canvas, xa as i64, xb as i64, y2, fill, drawn);
        y2 = y2 + 1;
    }
}

/// Draws the triangle of `core`: with fewer than three points only the
/// available segment; otherwise the three edges through a shared
/// draw-once set, then the interior when the fill color is not
/// transparent.
pub fn draw_triangle(core: &ShapeCore, canvas: &mut Canvas)
    requires
        core@.points.len() >= 2,
        forall|i: int| 0 <= i < core@.points.len() ==> pt_bounded(#[trigger] core@.points[i]),
        old(canvas).wf(),
    ensures
        final(canvas).wf(),
        final(canvas).wd() == old(canvas).wd(),
        final(canvas).ht() == old(canvas).ht(),
        final(canvas).img() == triangle_draw_spec(
            old(canvas).img(),
            old(canvas).wd(),
            old(canvas).ht(),
            core@,
        ),
{
    if core.points.len() <= 2 {
        draw_line(core, canvas, false);
    } else {
        let mut drawn = PixelSet::new();
        let ab = core.copy_with_points(
            vec![core.points[0], core.points[1]],
        );
        let bc = core.copy_with_points(
            vec![core.points[1], core.points[2]],
        );
        let ca = core.copy_with_points(
            vec![core.points[2], core.points[0]],
        );
        draw_line_for_triangle(&ab, canvas, &mut drawn);
        draw_line_for_triangle(&bc, canvas, &mut drawn);
        draw_line_for_triangle(&ca, canvas, &mut drawn);
        if !core.fill_color.is_transparent() {
            fill_triangle(core, canvas, &drawn);
        }
    }
}

/// The signed area term telling on which side of the directed edge
/// from `a` to `b` the point `p` lies.
pub open spec fn edge_side(a: Point, b: Point, p: Point) -> int {
    (b.0 - a.0) * (p.1 - a.1) - (b.1 - a.1) * (p.0 - a.0)
}

/// Computes the edge-side term of the directed edge from `a` to `b`
/// and the point `p`.
pub fn edge_side_check(a: Point, b: Point, p: Point) -> (d: i64)
    requires
        pt_bounded(a),
        pt_bounded(b),
        pt_bounded(p),
    ensures
        d == edge_side(a, b, p),
{
    proof {
        crate::point::lemma_mul_bound(b.0 - a.0, p.1 - a.1, 65536, 65536);
        crate::point::lemma_mul_bound(b.1 - a.1, p.0 - a.0, 65536, 65536);
    }
    (b.0 as i64 - a.0 as i64) * (p.1 as i64 - a.1 as i64) - (b.1 as i64 - a.1 as i64) * (p.0
        as i64 - a.0 as i64)
}

/// Whether the query point lies inside the triangle: the three edge
/// signs agree; a shape still under construction is never hit.
pub open spec fn tri_hit(c: CoreModel, p: Point) -> bool {
    if c.points.len() < 3 {
        false
    } else {
        let cp1 = edge_side(c.points[0], c.points[1], p);
        let cp2 = edge_side(c.points[1], c.points[2], p);
        let cp3 = edge_side(c.points[2], c.points[0], p);
        (cp1 >= 0 && cp2 >= 0 && cp3 >= 0) || (cp1 <= 0 && cp2 <= 0 && cp3 <= 0)
    }
}

impl Triangle {
    /// Creates a triangle shape from a snapshot.
    pub fn new(core: ShapeCore) -> (t: Triangle)
        ensures
            t.core@ == core@,
    {
        Triangle { core }
    }

    /// Returns a copy of the snapshot.
    pub fn get_core(&self) -> (c: ShapeCore)
        ensures
            c@ == self.core@,
    {
        self.core.clone_core()
    }

    /// Draws the triangle onto the canvas.
    pub fn draw(&self, canvas: &mut Canvas)
        requires
            self.core@.wf(),
            old(canvas).wf(),
        ensures
            final(canvas).wf(),
            final(canvas).wd() == old(canvas).wd(),
            final(canvas).ht() == old(canvas).ht(),
            final(canvas).img() == triangle_draw_spec(
                old(canvas).img(),
                old(canvas).wd(),
                old(canvas).ht(),
                self.core@,
            ),
    {
        draw_triangle(&self.core, canvas)
    }

    /// Draws the triangle with a replacement border color.
    pub fn draw_with_color(&self, color: RGBA, canvas: &mut Canvas)
        requires
            self.core@.wf(),
            old(canvas).wf(),
        ensures
            final(canvas).wf(),
            final(canvas).wd() == old(canvas).wd(),
            final(canvas).ht() == old(canvas).ht(),
            final(canvas).img() == triangle_draw_spec(
                old(canvas).img(),
                old(canvas).wd(),
                old(canvas).ht(),
                CoreModel { color, ..self.core@ },
            ),
    {
        let tinted = self.core.copy_with_color(color);
        draw_triangle(&tinted, canvas)
    }

    /// Tests whether the query point lies inside the triangle.
    pub fn hit_test(&self, point: Point) -> (r: bool)
        requires
            self.core@.wf(),
            pt_bounded(point),
        ensures
            r == tri_hit(self.core@, point),
    {
        if self.core.points.len() < 3 {
            return false;
        }
        let a: Point = self.core.points[0];
        let b: Point = self.core.points[1];
        let c: Point = self.core.points[2];
        let cp1: i64 = edge_side_check(a, b, point);
        let cp2: i64 = edge_side_check(b, c, point);
        let cp3: i64 = edge_side_check(c, a, point);
        (cp1 >= 0 && cp2 >= 0 && cp3 >= 0) || (cp1 <= 0 && cp2 <= 0 && cp3 <= 0)
    }
}

} // verus!
