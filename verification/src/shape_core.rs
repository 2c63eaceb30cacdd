//! The canonical shape snapshot and the tagged union of shape
//! mutations, together with their exact mathematical semantics.

use vstd::prelude::*;

use crate::point::Point;
use crate::point::Ratio;
use crate::point::pt_bounded;
use crate::rgba::RGBA;

verus! {

/// The closed set of shape kinds.
#[derive(Copy, Clone, Debug, PartialEq, Eq, Structural)]
pub enum Shape {
    Line,
    Ellipse,
    Triangle,
    Rectangle,
    Bezier,
}

/// The mathematical model of a shape snapshot.
pub ghost struct CoreModel {
    pub points: Seq<Point>,
    pub color: RGBA,
    pub fill_color: RGBA,
    pub shape_type: Shape,
}

/// A point's coordinates, given as integers, lie within the engine's
/// coordinate range.
pub open spec fn pt_in_range(x: int, y: int) -> bool {
    -32768 <= x <= 32768 && -32768 <= y <= 32768
}

impl CoreModel {
    /// A snapshot is well formed when it has at least two control
    /// points, not absurdly many, all within the coordinate range.
    pub open spec fn wf(self) -> bool {
        2 <= self.points.len() < 0x1_0000_0000 && (forall|i: int|
            0 <= i < self.points.len() ==> pt_bounded(#[trigger] self.points[i]))
    }
}

/// The canonical, serializable snapshot of a shape: its ordered control
/// points, border color, fill color, and kind tag.
#[derive(Clone, Debug)]
pub struct ShapeCore {
    /// The control points of the shape.
    pub points: Vec<Point>,
    /// The color of the border of the shape.
    pub color: RGBA,
    /// The fill color of the shape; transparent means "no fill".
    pub fill_color: RGBA,
    /// The shape kind, deciding how the points are interpreted.
    pub shape_type: Shape,
}

impl View for ShapeCore {
    type V = CoreModel;

    open spec fn view(&self) -> CoreModel {
        CoreModel {
            points: self.points@,
            color: self.color,
            fill_color: self.fill_color,
            shape_type: self.shape_type,
        }
    }
}

impl ShapeCore {
    /// Creates a snapshot equal to this one except for its border
    /// color.
    pub fn copy_with_color(&self, color: RGBA) -> (c: ShapeCore)
        ensures
            c@ == (CoreModel { color, ..self@ }),
    {
        let mut c = self.clone_core();
        c.color = color;
        c
    }

    /// Creates a snapshot equal to this one except for its control
    /// points.
    pub fn copy_with_points(&self, points: Vec<Point>) -> (c: ShapeCore)
        ensures
            c@ == (CoreModel { points: points@, ..self@ }),
    {
        let mut c = self.clone_core();
        c.points = points;
        c
    }

    /// Clones the snapshot; the copy has the same model.
    pub fn clone_core(&self) -> (c: ShapeCore)
        ensures
            c@ == self@,
    {
        let mut points: Vec<Point> = Vec::new();
        let mut i: usize = 0;
        let n: usize = self.points.len();
        while i < n
            invariant
                i <= n,
                n == self.points@.len(),
                points@ =~= self.points@.take(i as int),
            decreases n - i,
        {
            points.push(self.points[i]);
            i = i + 1;
        }
        proof {
            assert(points@ =~= self.points@);
        }
        ShapeCore {
            points,
            color: self.color,
            fill_color: self.fill_color,
            shape_type: self.shape_type,
        }
    }
}

/// The mathematical model of a shape mutation.
pub ghost enum OpModel {
    Move(Point),
    ChangeColor(RGBA),
    ChangeFillColor(RGBA),
    AddControlPoint(Point),
    ControlPoint(int, Point),
    RewritePoints(Seq<Point>),
    UpdateSubdivide(Ratio),
    DegreeElevate,
}

/// A mutation a shape can undergo.
#[derive(Clone, Debug)]
pub enum UpdateOp {
    /// Moves the whole shape by the given delta.
    Move(Point),
    /// Changes the border color.
    ChangeColor(RGBA),
    /// Changes the fill color.
    ChangeFillColor(RGBA),
    /// Appends a control point.
    AddControlPoint(Point),
    /// Replaces the control point at the given index.
    ControlPoint(usize, Point),
    /// Replaces the whole control-point sequence.
    RewritePoints(Vec<Point>),
    /// Sets the curve subdivision parameter; a no-op on shapes that are
    /// not curves.
    UpdateSubdivide(Ratio),
    /// Raises the degree of a curve; a no-op on shapes that are not
    /// curves.
    DegreeElevate,
}

impl View for UpdateOp {
    type V = OpModel;

    open spec fn view(&self) -> OpModel {
        match self {
            UpdateOp::Move(d) => OpModel::Move(*d),
            UpdateOp::ChangeColor(c) => OpModel::ChangeColor(*c),
            UpdateOp::ChangeFillColor(c) => OpModel::ChangeFillColor(*c),
            UpdateOp::AddControlPoint(p) => OpModel::AddControlPoint(*p),
            UpdateOp::ControlPoint(i, p) => OpModel::ControlPoint(*i as int, *p),
            UpdateOp::RewritePoints(ps) => OpModel::RewritePoints(ps@),
            UpdateOp::UpdateSubdivide(t) => OpModel::UpdateSubdivide(*t),
            UpdateOp::DegreeElevate => OpModel::DegreeElevate,
        }
    }
}

/// Two mutations coalesce in the history exactly when they are of the
/// same kind, whatever their payloads.
pub open spec fn same_op_kind(a: OpModel, b: OpModel) -> bool {
    match (a, b) {
        (OpModel::Move(..), OpModel::Move(..)) => true,
        (OpModel::ChangeColor(..), OpModel::ChangeColor(..)) => true,
        (OpModel::ChangeFillColor(..), OpModel::ChangeFillColor(..)) => true,
        (OpModel::AddControlPoint(..), OpModel::AddControlPoint(..)) => true,
        (OpModel::ControlPoint(..), OpModel::ControlPoint(..)) => true,
        (OpModel::RewritePoints(..), OpModel::RewritePoints(..)) => true,
        (OpModel::UpdateSubdivide(..), OpModel::UpdateSubdivide(..)) => true,
        (OpModel::DegreeElevate, OpModel::DegreeElevate) => true,
        _ => false,
    }
}

/// A mutation is acceptable on a given snapshot: its payload is within
/// range and, for a move, every shifted point stays within range.
pub open spec fn op_ok(c: CoreModel, op: OpModel) -> bool {
    match op {
        OpModel::Move(d) => forall|i: int|
            0 <= i < c.points.len() ==> pt_in_range(
                (#[trigger] c.points[i]).0 + d.0,
                c.points[i].1 + d.1,
            ),
        OpModel::ChangeColor(..) => true,
        OpModel::ChangeFillColor(..) => true,
        OpModel::AddControlPoint(p) => pt_bounded(p) && c.points.len() + 1 < 0x1_0000_0000,
        OpModel::ControlPoint(_, p) => pt_bounded(p),
        OpModel::RewritePoints(ps) => 2 <= ps.len() < 0x1_0000_0000 && (forall|i: int|
            0 <= i < ps.len() ==> pt_bounded(#[trigger] ps[i])),
        OpModel::UpdateSubdivide(t) => t.wf(),
        OpModel::DegreeElevate => c.points.len() + 1 < 0x1_0000_0000,
    }
}

/// The snapshot obtained by applying the shared part of a mutation:
/// every variant except degree elevation, which depends on the curve
/// algorithms and is layered on top by the shape dispatcher.
pub open spec fn apply_basic(c: CoreModel, op: OpModel) -> CoreModel {
    match op {
        OpModel::Move(d) => CoreModel {
            points: c.points.map(
                |i: int, p: Point| Point((p.0 + d.0) as i32, (p.1 + d.1) as i32),
            ),
            ..c
        },
        OpModel::ChangeColor(col) => CoreModel { color: col, ..c },
        OpModel::ChangeFillColor(col) => CoreModel { fill_color: col, ..c },
        OpModel::AddControlPoint(p) => CoreModel { points: c.points.push(p), ..c },
        OpModel::ControlPoint(i, p) => if 0 <= i < c.points.len() {
            CoreModel { points: c.points.update(i, p), ..c }
        } else {
            c
        },
        OpModel::RewritePoints(ps) => CoreModel { points: ps, ..c },
        OpModel::UpdateSubdivide(..) => c,
        OpModel::DegreeElevate => c,
    }
}

/// The shared part of a mutation keeps a snapshot well formed.
pub proof fn lemma_apply_basic_wf(c: CoreModel, op: OpModel)
    requires
        c.wf(),
        op_ok(c, op),
    ensures
        apply_basic(c, op).wf(),
{
}

impl ShapeCore {
    /// Applies the shared part of a mutation to this snapshot; degree
    /// elevation and the subdivision parameter are handled by the shape
    /// owning the snapshot.
    pub fn update_basic(&mut self, op: &UpdateOp)
        requires
            old(self)@.wf(),
            op_ok(old(self)@, op@),
        ensures
            final(self)@ == apply_basic(old(self)@, op@),
            final(self)@.wf(),
    {
        proof {
            lemma_apply_basic_wf(self@, op@);
        }
        match op {
            UpdateOp::ChangeColor(color) => {
                self.color = *color;
            },
            UpdateOp::ChangeFillColor(color) => {
                self.fill_color = *color;
            },
            UpdateOp::Move(delta) => {
                let n: usize = self.points.len();
                let mut i: usize = 0;
                while i < n
                    invariant
                        i <= n,
                        n == self.points@.len(),
                        n == old(self)@.points.len(),
                        op_ok(old(self)@, OpModel::Move(*delta)),
                        old(self)@.wf(),
                        self.color == old(self).color,
                        self.fill_color == old(self).fill_color,
                        self.shape_type == old(self).shape_type,
                        self.points@.len() == n,
                        forall|j: int|
                            0 <= j < i ==> #[trigger] self.points@[j] == Point(
                                (old(self)@.points[j].0 + delta.0) as i32,
                                (old(self)@.points[j].1 + delta.1) as i32,
                            ),
                        forall|j: int|
                            i <= j < n ==> #[trigger] self.points@[j] == old(self)@.points[j],
                    decreases n - i,
                {
                    let q: Point = self.points[i];
                    proof {
                        assert(q == old(self)@.points[i as int]);
                        assert(pt_in_range(
                            old(self)@.points[i as int].0 + delta.0,
                            old(self)@.points[i as int].1 + delta.1,
                        ));
                    }
                    self.points.set(i, Point(q.0 + delta.0, q.1 + delta.1));
                    i = i + 1;
                }
                proof {
                    assert(self.points@ =~= old(self)@.points.map(
                        |i: int, p: Point| Point((p.0 + delta.0) as i32, (p.1 + delta.1) as i32),
                    ));
                }
            },
            UpdateOp::AddControlPoint(point) => {
                self.points.push(*point);
            },
            UpdateOp::RewritePoints(points) => {
                self.points = clone_points(points);
            },
            UpdateOp::ControlPoint(index, point) => {
                if *index < self.points.len() {
                    self.points.set(*index, *point);
                }
            },
            UpdateOp::UpdateSubdivide(..) => {},
            UpdateOp::DegreeElevate => {},
        }
    }
}

/// Clones a vector of points; the copy holds the same points.
pub fn clone_points(points: &Vec<Point>) -> (c: Vec<Point>)
    ensures
        c@ =~= points@,
{
    let mut c: Vec<Point> = Vec::new();
    let mut i: usize = 0;
    let n: usize = points.len();
    while i < n
        invariant
            i <= n,
            n == points@.len(),
            c@ =~= points@.take(i as int),
        decreases n - i,
    {
        c.push(points[i]);
        i = i + 1;
    }
    c
}

} // verus!
