//! The closed polymorphic shape: one tagged union over the five shape
//! kinds, with a shared mutation, drawing, and hit-testing interface.

use vstd::prelude::*;

use crate::bezier::Bezier;
use crate::bezier::apply_op;
use crate::bezier::bezier_draw_spec;
use crate::bezier::bezier_hit;
use crate::bezier::subdiv_first;
use crate::bezier::subdiv_second;
use crate::canvas::Canvas;
use crate::canvas::plot_all;
use crate::ellipse::Ellipse;
use crate::ellipse::ellipse_draw_spec;
use crate::ellipse::ellipse_hit;
use crate::line::Line;
use crate::line::line_cells;
use crate::line::seg_hit;
use crate::point::Point;
use crate::point::Ratio;
use crate::point::pt_bounded;
use crate::rectangle::Rectangle;
use crate::rectangle::rect_draw_spec;
use crate::rectangle::rect_hit;
use crate::rgba::RGBA;
use crate::shape_core::CoreModel;
use crate::shape_core::OpModel;
use crate::shape_core::Shape;
use crate::shape_core::ShapeCore;
use crate::shape_core::UpdateOp;
use crate::shape_core::op_ok;
use crate::triangle::Triangle;
use crate::triangle::tri_hit;
use crate::triangle::triangle_draw_spec;

verus! {

/// The mathematical view of a shape: its snapshot and, for curves, the
/// subdivision parameter.
pub ghost struct ShapeView {
    pub core: CoreModel,
    pub subt: Ratio,
}

/// The view of a freshly built shape: the given snapshot with the
/// subdivision parameter at one half.
pub open spec fn fresh_view(c: CoreModel) -> ShapeView {
    ShapeView { core: c, subt: Ratio { num: 1u32, den: 2u32 } }
}

/// The view of a shape after a mutation: the snapshot follows the
/// mutation's semantics, and the subdivision parameter changes only
/// for the curve-only parameter variant on a curve.
pub open spec fn updated_view(v: ShapeView, op: OpModel) -> ShapeView {
    ShapeView {
        core: apply_op(v.core, op),
        subt: match op {
            OpModel::UpdateSubdivide(t) => if v.core.shape_type == Shape::Bezier {
                t
            } else {
                v.subt
            },
            _ => v.subt,
        },
    }
}

/// A shape of any of the five kinds.
pub enum AnyShape {
    Line(Line),
    Rectangle(Rectangle),
    Ellipse(Ellipse),
    Triangle(Triangle),
    Bezier(Bezier),
}

/// Whether the query point hits the shape described by `c`, by kind.
pub open spec fn shape_hit(c: CoreModel, p: Point) -> bool {
    match c.shape_type {
        Shape::Line => seg_hit(c.points[0], c.points[1], p),
        Shape::Rectangle => rect_hit(c, p),
        Shape::Ellipse => ellipse_hit(c, p),
        Shape::Triangle => tri_hit(c, p),
        Shape::Bezier => bezier_hit(c, p),
    }
}

/// The image after drawing the shape described by `c`, by kind.
pub open spec fn shape_draw_spec(s: Seq<RGBA>, w: int, h: int, c: CoreModel) -> Seq<RGBA> {
    match c.shape_type {
        Shape::Line => plot_all(s, w, h, line_cells(c.points[0], c.points[1], true), c.color),
        Shape::Rectangle => rect_draw_spec(s, w, h, c),
        Shape::Ellipse => ellipse_draw_spec(s, w, h, c),
        Shape::Triangle => triangle_draw_spec(s, w, h, c),
        Shape::Bezier => bezier_draw_spec(s, w, h, c),
    }
}

impl View for AnyShape {
    type V = ShapeView;

    open spec fn view(&self) -> ShapeView {
        match self {
            AnyShape::Line(l) => ShapeView { core: l.core@, subt: Ratio { num: 1u32, den: 2u32 } },
            AnyShape::Rectangle(r) => ShapeView {
                core: r.core@,
                subt: Ratio { num: 1u32, den: 2u32 },
            },
            AnyShape::Ellipse(e) => ShapeView {
                core: e.core@,
                subt: Ratio { num: 1u32, den: 2u32 },
            },
            AnyShape::Triangle(t) => ShapeView {
                core: t.core@,
                subt: Ratio { num: 1u32, den: 2u32 },
            },
            AnyShape::Bezier(b) => ShapeView { core: b.core@, subt: b.subdivide_t },
        }
    }
}

impl AnyShape {
    /// The shape is well formed: a valid snapshot whose kind tag agrees
    /// with the variant, and for curves a valid cache and parameter.
    pub open spec fn wf(self) -> bool {
        match self {
            AnyShape::Line(l) => l.core@.wf() && l.core@.shape_type == Shape::Line,
            AnyShape::Rectangle(r) => r.core@.wf() && r.core@.shape_type == Shape::Rectangle,
            AnyShape::Ellipse(e) => e.core@.wf() && e.core@.shape_type == Shape::Ellipse,
            AnyShape::Triangle(t) => t.core@.wf() && t.core@.shape_type == Shape::Triangle,
            AnyShape::Bezier(b) => b.wf(),
        }
    }

    /// Returns a copy of the snapshot.
    pub fn get_core(&self) -> (c: ShapeCore)
        ensures
            c@ == self@.core,
    {
        match self {
            AnyShape::Line(l) => l.get_core(),
            AnyShape::Rectangle(r) => r.get_core(),
            AnyShape::Ellipse(e) => e.get_core(),
            AnyShape::Triangle(t) => t.get_core(),
            AnyShape::Bezier(b) => b.get_core(),
        }
    }

    /// Returns the shape kind.
    pub fn get_type(&self) -> (t: Shape)
        ensures
            t == self@.core.shape_type,
    {
        match self {
            AnyShape::Line(l) => l.core.shape_type,
            AnyShape::Rectangle(r) => r.core.shape_type,
            AnyShape::Ellipse(e) => e.core.shape_type,
            AnyShape::Triangle(t) => t.core.shape_type,
            AnyShape::Bezier(b) => b.core.shape_type,
        }
    }

    /// Applies a mutation to the shape: the shared variants update the
    /// snapshot, and the two curve-only variants act only on curves.
    pub fn update(&mut self, op: &UpdateOp)
        requires
            old(self).wf(),
            op_ok(old(self)@.core, op@),
        ensures
            final(self).wf(),
            final(self)@.core == apply_op(old(self)@.core, op@),
            final(self)@.subt == (match op@ {
                OpModel::UpdateSubdivide(t) => if old(self)@.core.shape_type == Shape::Bezier {
                    t
                } else {
                    old(self)@.subt
                },
                _ => old(self)@.subt,
            }),
    {
        match self {
            AnyShape::Line(l) => l.core.update_basic(op),
            AnyShape::Rectangle(r) => r.core.update_basic(op),
            AnyShape::Ellipse(e) => e.core.update_basic(op),
            AnyShape::Triangle(t) => t.core.update_basic(op),
            AnyShape::Bezier(b) => b.update(op),
        }
    }

    /// Draws the shape onto the canvas.
    pub fn draw(&self, canvas: &mut Canvas)
        requires
            self.wf(),
            old(canvas).wf(),
        ensures
            final(canvas).wf(),
            final(canvas).wd() == old(canvas).wd(),
            final(canvas).ht() == old(canvas).ht(),
            final(canvas).img() == shape_draw_spec(
                old(canvas).img(),
                old(canvas).wd(),
                old(canvas).ht(),
                self@.core,
            ),
    {
        match self {
            AnyShape::Line(l) => l.draw(canvas),
            AnyShape::Rectangle(r) => r.draw(canvas),
            AnyShape::Ellipse(e) => e.draw(canvas),
            AnyShape::Triangle(t) => t.draw(canvas),
            AnyShape::Bezier(b) => b.draw(canvas),
        }
    }

    /// Draws the shape with a replacement border color.
    pub fn draw_with_color(&self, color: RGBA, canvas: &mut Canvas)
        requires
            self.wf(),
            old(canvas).wf(),
        ensures
            final(canvas).wf(),
            final(canvas).wd() == old(canvas).wd(),
            final(canvas).ht() == old(canvas).ht(),
            final(canvas).img() == shape_draw_spec(
                old(canvas).img(),
                old(canvas).wd(),
                old(canvas).ht(),
                CoreModel { color, ..self@.core },
            ),
    {
        match self {
            AnyShape::Line(l) => l.draw_with_color(color, canvas),
            AnyShape::Rectangle(r) => r.draw_with_color(color, canvas),
            AnyShape::Ellipse(e) => e.draw_with_color(color, canvas),
            AnyShape::Triangle(t) => t.draw_with_color(color, canvas),
            AnyShape::Bezier(b) => b.draw_with_color(color, canvas),
        }
    }

    /// Tests whether the query point hits the shape.
    pub fn hit_test(&self, point: Point) -> (r: bool)
        requires
            self.wf(),
            pt_bounded(point),
        ensures
            r == shape_hit(self@.core, point),
    {
        match self {
            AnyShape::Line(l) => l.hit_test(point),
            AnyShape::Rectangle(r) => r.hit_test(point),
            AnyShape::Ellipse(e) => e.hit_test(point),
            AnyShape::Triangle(t) => t.hit_test(point),
            AnyShape::Bezier(b) => b.hit_test(point),
        }
    }

    /// Splits the shape at its subdivision parameter: only curves
    /// subdivide, returning the two halves as new snapshots; every
    /// other kind returns nothing.
    pub fn subdivide(&self) -> (r: Option<(ShapeCore, ShapeCore)>)
        requires
            self.wf(),
        ensures
            self@.core.shape_type == Shape::Bezier ==> (r matches Some(pair) && pair.0@ == (
            CoreModel {
                points: subdiv_first(
                    self@.core.points,
                    self@.subt.num as int,
                    self@.subt.den as int,
                ),
                ..self@.core
            }) && pair.1@ == (CoreModel {
                points: subdiv_second(
                    self@.core.points,
                    self@.subt.num as int,
                    self@.subt.den as int,
                ),
                ..self@.core
            })),
            self@.core.shape_type != Shape::Bezier ==> r is None,
    {
        match self {
            AnyShape::Bezier(b) => Some(b.subdivide()),
            _ => None,
        }
    }
}

/// The cells of one column of a filled disc around `(px, py)`: the
/// cells of column `x` between `y` and `ye` whose squared distance
/// from the center is within the squared radius.
pub open spec fn disc_col_cells(px: int, py: int, rad: int, x: int, y: int, ye: int) -> Seq<
    (int, int),
>
    decreases ye - y,
{
    if y >= ye {
        Seq::empty()
    } else {
        let here: Seq<(int, int)> = if (x - px) * (x - px) + (y - py) * (y - py) <= rad * rad {
            seq![(x, y)]
        } else {
            Seq::empty()
        };
        here + disc_col_cells(px, py, rad, x, y + 1, ye)
    }
}

/// The cells of a filled disc around `(px, py)`, column by column over
/// the bounding box `[px - rad, px + rad) x [py - rad, py + rad)`.
pub open spec fn disc_cells(px: int, py: int, rad: int, x: int) -> Seq<(int, int)>
    decreases px + rad - x,
{
    if x >= px + rad {
        Seq::empty()
    } else {
        disc_col_cells(px, py, rad, x, py - rad, py + rad) + disc_cells(px, py, rad, x + 1)
    }
}

/// The image after drawing one selection handle at `p`: a white disc
/// of radius 5 with a disc of the handle color of radius 4 on top.
pub open spec fn control_point_spec(s: Seq<RGBA>, w: int, h: int, p: Point, color: RGBA) -> Seq<
    RGBA,
> {
    let white = RGBA { r: 255u8, g: 255u8, b: 255u8, a: 255u8 };
    let s1 = plot_all(s, w, h, disc_cells(p.0 as int, p.1 as int, 5, p.0 - 5), white);
    plot_all(s1, w, h, disc_cells(p.0 as int, p.1 as int, 4, p.0 - 4), color)
}

/// The image after drawing the selection handles of every control
/// point from index `k` on.
pub open spec fn selection_spec(
    s: Seq<RGBA>,
    w: int,
    h: int,
    pts: Seq<Point>,
    color: RGBA,
    k: int,
) -> Seq<RGBA>
    decreases pts.len() - k,
{
    if k < 0 || k >= pts.len() {
        s
    } else {
        selection_spec(control_point_spec(s, w, h, pts[k], color), w, h, pts, color, k + 1)
    }
}

/// Composites `color` onto the cells of a filled disc of radius `rad`
/// around `p`.
fn draw_disc(canvas: &mut Canvas, p: Point, rad: i32, color: RGBA)
    requires
        old(canvas).wf(),
        pt_bounded(p),
        1 <= rad <= 16,
    ensures
        final(canvas).wf(),
        final(canvas).wd() == old(canvas).wd(),
        final(canvas).ht() == old(canvas).ht(),
        final(canvas).img() == plot_all(
            old(canvas).img(),
            old(canvas).wd(),
            old(canvas).ht(),
            disc_cells(p.0 as int, p.1 as int, rad as int, p.0 - rad),
            color,
        ),
{
    let ghost w = canvas.wd();
    let ghost h = canvas.ht();
    let px: i64 = p.0 as i64;
    let py: i64 = p.1 as i64;
    let r: i64 = rad as i64;
    let ghost target = plot_all(
        old(canvas).img(),
        w,
        h,
        disc_cells(px as int, py as int, r as int, px - r),
        color,
    );
    let mut x: i64 = px - r;
    while x < px + r
        invariant
            canvas.wf(),
            canvas.wd() == w,
            canvas.ht() == h,
            px == p.0,
            py == p.1,
            pt_bounded(p),
            r == rad,
            1 <= r <= 16,
            px - r <= x,
            target == plot_all(
                canvas.img(),
                w,
                h,
                disc_cells(px as int, py as int, r as int, x as int),
                color,
            ),
        decreases px + r - x,
    {
        let ghost col = disc_col_cells(px as int, py as int, r as int, x as int, py - r, py + r);
        let ghost rest = disc_cells(px as int, py as int, r as int, x + 1);
        proof {
            crate::canvas::lemma_plot_all_app(canvas.img(), w, h, col, rest, color);
        }
        let mut y: i64 = py - r;
        while y < py + r
            invariant
                canvas.wf(),
                canvas.wd() == w,
                canvas.ht() == h,
                px == p.0,
                py == p.1,
                pt_bounded(p),
                r == rad,
                1 <= r <= 16,
                px - r <= x < px + r,
                py - r <= y,
                target == plot_all(
                    plot_all(
                        canvas.img(),
                        w,
                        h,
                        disc_col_cells(px as int, py as int, r as int, x as int, y as int, py + r),
                        color,
                    ),
                    w,
                    h,
                    disc_cells(px as int, py as int, r as int, x + 1),
                    color,
                ),
            decreases py + r - y,
        {
            let ghost colrest = disc_col_cells(
                px as int,
                py as int,
                r as int,
                x as int,
                y as int,
                py + r,
            );
            let dx: i64 = x - px;
            let dy: i64 = y - py;
            proof {
                crate::point::lemma_mul_bound(dx as int, dx as int, 16, 16);
                crate::point::lemma_mul_bound(dy as int, dy as int, 16, 16);
                crate::point::lemma_mul_bound(r as int, r as int, 16, 16);
            }
            if dx * dx + dy * dy <= r * r {
                canvas.set_pixel(x as i32, y as i32, color);
                proof {
                    assert(colrest[0] == (x as int, y as int));
                    assert(colrest.drop_first() =~= disc_col_cells(
                        px as int,
                        py as int,
                        r as int,
                        x as int,
                        y + 1,
                        py + r,
                    ));
                }
            } else {
                proof {
                    assert(colrest =~= disc_col_cells(
                        px as int,
                        py as int,
                        r as int,
                        x as int,
                        y + 1,
                        py + r,
                    ));
                }
            }
            y = y + 1;
        }
        proof {
            assert(disc_col_cells(px as int, py as int, r as int, x as int, y as int, py + r)
                =~= Seq::<(int, int)>::empty());
        }
        x = x + 1;
    }
    proof {
        assert(disc_cells(px as int, py as int, r as int, x as int) =~= Seq::<(int, int)>::empty());
    }
}

/// Draws one selection handle: a white disc with a disc of the handle
/// color on top.
pub fn draw_control_point(p: Point, color: RGBA, canvas: &mut Canvas)
    requires
        old(canvas).wf(),
        pt_bounded(p),
    ensures
        final(canvas).wf(),
        final(canvas).wd() == old(canvas).wd(),
        final(canvas).ht() == old(canvas).ht(),
        final(canvas).img() == control_point_spec(
            old(canvas).img(),
            old(canvas).wd(),
            old(canvas).ht(),
            p,
            color,
        ),
{
    draw_disc(canvas, p, 5, RGBA { r: 255, g: 255, b: 255, a: 255 });
    draw_disc(canvas, p, 4, color);
}

/// The image after drawing the control polygon of a curve: each pair
/// of consecutive control points joined by a line, from segment `k`
/// on.
pub open spec fn polygon_spec(
    s: Seq<RGBA>,
    w: int,
    h: int,
    pts: Seq<Point>,
    color: RGBA,
    k: int,
) -> Seq<RGBA>
    decreases pts.len() - k,
{
    if k < 1 || k >= pts.len() {
        s
    } else {
        polygon_spec(
            plot_all(s, w, h, line_cells(pts[k - 1], pts[k], true), color),
            w,
            h,
            pts,
            color,
            k + 1,
        )
    }
}

/// Draws a selection handle at every listed control point.
fn draw_handles(points: &Vec<Point>, color: RGBA, canvas: &mut Canvas)
    requires
        old(canvas).wf(),
        forall|i: int| 0 <= i < points@.len() ==> pt_bounded(#[trigger] points@[i]),
    ensures
        final(canvas).wf(),
        final(canvas).wd() == old(canvas).wd(),
        final(canvas).ht() == old(canvas).ht(),
        final(canvas).img() == selection_spec(
            old(canvas).img(),
            old(canvas).wd(),
            old(canvas).ht(),
            points@,
            color,
            0,
        ),
{
    let ghost w = canvas.wd();
    let ghost h = canvas.ht();
    let ghost target = selection_spec(old(canvas).img(), w, h, points@, color, 0);
    let n: usize = points.len();
    let mut k: usize = 0;
    while k < n
        invariant
            canvas.wf(),
            canvas.wd() == w,
            canvas.ht() == h,
            n == points@.len(),
            forall|i: int| 0 <= i < points@.len() ==> pt_bounded(#[trigger] points@[i]),
            k <= n,
            target == selection_spec(canvas.img(), w, h, points@, color, k as int),
        decreases n - k,
    {
        draw_control_point(points[k], color, canvas);
        k = k + 1;
    }
}

impl AnyShape {
    /// Draws how the selected shape looks: a handle on every control
    /// point, and for curves also the control polygon in the polygon
    /// color and a handle on the curve point of the subdivision
    /// parameter.
    pub fn draw_selection(&self, color1: RGBA, color2: RGBA, canvas: &mut Canvas)
        requires
            self.wf(),
            old(canvas).wf(),
        ensures
            final(canvas).wf(),
            final(canvas).wd() == old(canvas).wd(),
            final(canvas).ht() == old(canvas).ht(),
            self@.core.shape_type != Shape::Bezier ==> final(canvas).img() == selection_spec(
                old(canvas).img(),
                old(canvas).wd(),
                old(canvas).ht(),
                self@.core.points,
                color1,
                0,
            ),
            self@.core.shape_type == Shape::Bezier ==> final(canvas).img() == control_point_spec(
                polygon_spec(
                    selection_spec(
                        old(canvas).img(),
                        old(canvas).wd(),
                        old(canvas).ht(),
                        self@.core.points,
                        color1,
                        0,
                    ),
                    old(canvas).wd(),
                    old(canvas).ht(),
                    self@.core.points,
                    color2,
                    1,
                ),
                old(canvas).wd(),
                old(canvas).ht(),
                crate::bezier::dc_point(
                    self@.core.points,
                    self@.subt.num as int,
                    self@.subt.den as int,
                ),
                color1,
            ),
    {
        match self {
            AnyShape::Line(l) => draw_handles(&l.core.points, color1, canvas),
            AnyShape::Rectangle(r) => draw_handles(&r.core.points, color1, canvas),
            AnyShape::Ellipse(e) => draw_handles(&e.core.points, color1, canvas),
            AnyShape::Triangle(t) => draw_handles(&t.core.points, color1, canvas),
            AnyShape::Bezier(b) => {
                let ghost w = canvas.wd();
                let ghost h = canvas.ht();
                draw_handles(&b.core.points, color1, canvas);
                let ghost target = polygon_spec(
                    canvas.img(),
                    w,
                    h,
                    b.core@.points,
                    color2,
                    1,
                );
                let n: usize = b.core.points.len();
                let mut k: usize = 1;
                while k < n
                    invariant
                        canvas.wf(),
                        canvas.wd() == w,
                        canvas.ht() == h,
                        n == b.core@.points.len(),
                        1 <= k <= n,
                        target == polygon_spec(canvas.img(), w, h, b.core@.points, color2, k as int),
                    decreases n - k,
                {
                    let seg = ShapeCore {
                        points: vec![b.core.points[k - 1], b.core.points[k]],
                        color: color2,
                        fill_color: b.core.fill_color,
                        shape_type: b.core.shape_type,
                    };
                    crate::line::draw_line(&seg, canvas, true);
                    k = k + 1;
                }
                let p = crate::bezier::de_casteljau(&b.core, b.subdivide_t);
                proof {
                    let pts = b.core@.points;
                    let num = b.subdivide_t.num as int;
                    let den = b.subdivide_t.den as int;
                    crate::bezier::lemma_dc_rows_bounded(pts, num, den, (pts.len() - 1) as nat);
                    crate::bezier::lemma_dc_rows_len(pts, num, den, (pts.len() - 1) as nat);
                }
                draw_control_point(p, color1, canvas);
            },
        }
    }
}

/// Builds the shape of the kind named by the snapshot's tag.
pub fn new_shape_from_core(core: ShapeCore) -> (s: AnyShape)
    requires
        core@.wf(),
    ensures
        s.wf(),
        s@ == fresh_view(core@),
{
    match core.shape_type {
        Shape::Line => AnyShape::Line(Line::new(core)),
        Shape::Ellipse => AnyShape::Ellipse(Ellipse::new(core)),
        Shape::Triangle => AnyShape::Triangle(Triangle::new(core)),
        Shape::Rectangle => AnyShape::Rectangle(Rectangle::new(core)),
        Shape::Bezier => AnyShape::Bezier(Bezier::new(core)),
    }
}

} // verus!
