//! The history-backed shape store: an ordered list of shapes and a
//! background color, every mutation recorded into a coalescing,
//! bounded undo/redo log.

use vstd::prelude::*;

use crate::bezier::apply_op;
use crate::bezier::lemma_subdiv_wf;
use crate::bezier::subdiv_first;
use crate::bezier::subdiv_second;
use crate::canvas::Canvas;
use crate::point::Point;
use crate::point::pt_bounded;
use crate::rgba::RGBA;
use crate::shape::AnyShape;
use crate::shape::ShapeView;
use crate::shape::fresh_view;
use crate::shape::new_shape_from_core;
use crate::shape::shape_draw_spec;
use crate::shape::shape_hit;
use crate::shape::updated_view;
use crate::shape_core::CoreModel;
use crate::shape_core::OpModel;
use crate::shape_core::Shape;
use crate::shape_core::ShapeCore;
use crate::shape_core::UpdateOp;
use crate::shape_core::clone_points;
use crate::shape_core::op_ok;
use crate::shape_core::same_op_kind;

verus! {

/// The most entries the history may hold; older entries are evicted.
pub const HISTORY_SIZE_LIMIT: usize = 100;

/// The mathematical model of a history record.
pub ghost enum RecModel {
    IndexChange(int, int),
    ShapeChange(int, OpModel, CoreModel, CoreModel),
    Subdivision(int, CoreModel, (CoreModel, CoreModel)),
    Deletion(int, CoreModel),
    Creation(CoreModel),
    BackgroundColor(RGBA, RGBA),
    Clear(Seq<CoreModel>),
}

/// One entry of the undo/redo log. Every record is self-contained: it
/// carries enough state to both undo and redo without consulting
/// external context.
#[derive(Debug)]
pub enum RecordType {
    /// The shape moved from one z-order index to another.
    IndexChange(usize, usize),
    /// The shape at the index changed; the mutation and the snapshots
    /// before and after.
    Subdivision(usize, ShapeCore, (ShapeCore, ShapeCore)),
    /// The shape at the index was removed; its snapshot before.
    Deletion(usize, ShapeCore),
    /// A shape was appended; its snapshot.
    Creation(ShapeCore),
    /// The background color changed; the colors before and after.
    BackgroundColor(RGBA, RGBA),
    /// Every shape was removed; all their snapshots.
    Clear(Vec<ShapeCore>),
    /// The shape at the index changed; the mutation and the snapshots
    /// before and after.
    ShapeChange(usize, UpdateOp, ShapeCore, ShapeCore),
}

impl View for RecordType {
    type V = RecModel;

    open spec fn view(&self) -> RecModel {
        match self {
            RecordType::IndexChange(src, dst) => RecModel::IndexChange(*src as int, *dst as int),
            RecordType::ShapeChange(i, op, prev, post) => RecModel::ShapeChange(
                *i as int,
                op@,
                prev@,
                post@,
            ),
            RecordType::Subdivision(i, prev, pair) => RecModel::Subdivision(
                *i as int,
                prev@,
                (pair.0@, pair.1@),
            ),
            RecordType::Deletion(i, prev) => RecModel::Deletion(*i as int, prev@),
            RecordType::Creation(core) => RecModel::Creation(core@),
            RecordType::BackgroundColor(prev, post) => RecModel::BackgroundColor(*prev, *post),
            RecordType::Clear(cores) => RecModel::Clear(
                cores@.map(|i: int, c: ShapeCore| c@),
            ),
        }
    }
}

/// Every snapshot a record carries is well formed, so that undoing or
/// redoing it rebuilds well-formed shapes.
pub open spec fn rec_wf(r: RecModel) -> bool {
    match r {
        RecModel::IndexChange(..) => true,
        RecModel::ShapeChange(_, _, prev, post) => prev.wf() && post.wf(),
        RecModel::Subdivision(_, prev, pair) => prev.wf() && pair.0.wf() && pair.1.wf(),
        RecModel::Deletion(_, prev) => prev.wf(),
        RecModel::Creation(core) => core.wf(),
        RecModel::BackgroundColor(..) => true,
        RecModel::Clear(cores) => forall|i: int|
            0 <= i < cores.len() ==> (#[trigger] cores[i]).wf(),
    }
}

/// Whether an incoming record coalesces with the preceding one: shape
/// changes must target the same shape with the same mutation kind;
/// background changes always coalesce with background changes.
pub open spec fn coalesce_match(last: RecModel, incoming: RecModel) -> bool {
    match (last, incoming) {
        (
            RecModel::ShapeChange(i1, op1, _, _),
            RecModel::ShapeChange(i2, op2, _, _),
        ) => i1 == i2 && same_op_kind(op1, op2),
        (RecModel::BackgroundColor(..), RecModel::BackgroundColor(..)) => true,
        _ => false,
    }
}

/// The record replacing two coalesced ones: it spans from the older
/// record's "before" state to the newer record's "after" state.
pub open spec fn merge_rec(last: RecModel, incoming: RecModel) -> RecModel
    recommends
        coalesce_match(last, incoming),
{
    match (last, incoming) {
        (
            RecModel::ShapeChange(i1, _, prev, _),
            RecModel::ShapeChange(_, op2, _, post),
        ) => RecModel::ShapeChange(i1, op2, prev, post),
        (
            RecModel::BackgroundColor(orig, _),
            RecModel::BackgroundColor(_, post),
        ) => RecModel::BackgroundColor(orig, post),
        _ => incoming,
    }
}

/// The history and cursor after recording a mutation: the stale redo
/// branch at and after the cursor is discarded, the record coalesces
/// with the preceding one or is appended, and the oldest entry is
/// evicted when the log would exceed its cap.
pub open spec fn push_rec(h: Seq<RecModel>, c: int, r: RecModel) -> (Seq<RecModel>, int) {
    let h1 = h.take(c);
    if h1.len() > 0 && coalesce_match(h1.last(), r) {
        (h1.update(h1.len() - 1, merge_rec(h1.last(), r)), c)
    } else {
        let h2 = h1.push(r);
        if h2.len() > 100 {
            (h2.drop_first(), h2.len() - 1)
        } else {
            (h2, h2.len() as int)
        }
    }
}

/// After recording a mutation the cursor sits at the end of the log,
/// the log is never longer than its cap, holds at least the new
/// record, and every record in it is still well formed.
pub proof fn lemma_push_rec_props(h: Seq<RecModel>, c: int, r: RecModel)
    requires
        0 <= c <= h.len(),
        h.len() <= 100,
        forall|i: int| 0 <= i < h.len() ==> rec_wf(#[trigger] h[i]),
        rec_wf(r),
    ensures
        push_rec(h, c, r).1 == push_rec(h, c, r).0.len(),
        1 <= push_rec(h, c, r).0.len() <= 100,
        forall|i: int|
            0 <= i < push_rec(h, c, r).0.len() ==> rec_wf(#[trigger] push_rec(h, c, r).0[i]),
{
    let h1 = h.take(c);
    assert(forall|i: int| 0 <= i < h1.len() ==> rec_wf(#[trigger] h1[i]));
    if h1.len() > 0 && coalesce_match(h1.last(), r) {
        assert(rec_wf(merge_rec(h1.last(), r)));
    } else {
        let h2 = h1.push(r);
        assert(forall|i: int| 0 <= i < h2.len() ==> rec_wf(#[trigger] h2[i]));
        if h2.len() > 100 {
            assert(forall|i: int|
                0 <= i < h2.drop_first().len() ==> rec_wf(#[trigger] h2.drop_first()[i]));
        }
    }
}

/// The shape list and background after undoing a record: each case
/// applies the inverse of the recorded mutation, using the "before"
/// side the record carries; records whose indices no longer fit the
/// list leave it unchanged.
pub open spec fn apply_undo(objs: Seq<ShapeView>, bg: RGBA, r: RecModel) -> (
    Seq<ShapeView>,
    RGBA,
) {
    match r {
        RecModel::IndexChange(src, dst) => if 0 <= dst < objs.len() && 0 <= src < objs.len() {
            (objs.remove(dst).insert(src, objs[dst]), bg)
        } else {
            (objs, bg)
        },
        RecModel::ShapeChange(idx, _, prev, _) => if 0 <= idx < objs.len() {
            (objs.update(idx, fresh_view(prev)), bg)
        } else {
            (objs, bg)
        },
        RecModel::Subdivision(idx, init, _) => if 0 <= idx < objs.len() {
            (objs.update(idx, fresh_view(init)).drop_last(), bg)
        } else {
            (objs, bg)
        },
        RecModel::Deletion(idx, prev) => if 0 <= idx <= objs.len() {
            (objs.insert(idx, fresh_view(prev)), bg)
        } else {
            (objs, bg)
        },
        RecModel::Creation(..) => if objs.len() > 0 {
            (objs.drop_last(), bg)
        } else {
            (objs, bg)
        },
        RecModel::BackgroundColor(prev, _) => (objs, prev),
        RecModel::Clear(cores) => (cores.map(|i: int, cc: CoreModel| fresh_view(cc)), bg),
    }
}

/// The shape list and background after redoing a record: each case
/// repeats the recorded mutation, using the "after" side the record
/// carries.
pub open spec fn apply_redo(objs: Seq<ShapeView>, bg: RGBA, r: RecModel) -> (
    Seq<ShapeView>,
    RGBA,
) {
    match r {
        RecModel::IndexChange(src, dst) => if 0 <= src < objs.len() && 0 <= dst < objs.len() {
            (objs.remove(src).insert(dst, objs[src]), bg)
        } else {
            (objs, bg)
        },
        RecModel::ShapeChange(idx, _, _, post) => if 0 <= idx < objs.len() {
            (objs.update(idx, fresh_view(post)), bg)
        } else {
            (objs, bg)
        },
        RecModel::Subdivision(idx, _, pair) => if 0 <= idx < objs.len() {
            (objs.update(idx, fresh_view(pair.0)).push(fresh_view(pair.1)), bg)
        } else {
            (objs, bg)
        },
        RecModel::Deletion(idx, _) => if 0 <= idx < objs.len() {
            (objs.remove(idx), bg)
        } else {
            (objs, bg)
        },
        RecModel::Creation(core) => (objs.push(fresh_view(core)), bg),
        RecModel::BackgroundColor(_, post) => (objs, post),
        RecModel::Clear(..) => (Seq::empty(), bg),
    }
}

/// Clones a mutation; the copy has the same model.
pub fn clone_op(op: &UpdateOp) -> (c: UpdateOp)
    ensures
        c@ == op@,
{
    match op {
        UpdateOp::Move(d) => UpdateOp::Move(*d),
        UpdateOp::ChangeColor(col) => UpdateOp::ChangeColor(*col),
        UpdateOp::ChangeFillColor(col) => UpdateOp::ChangeFillColor(*col),
        UpdateOp::AddControlPoint(p) => UpdateOp::AddControlPoint(*p),
        UpdateOp::ControlPoint(i, p) => UpdateOp::ControlPoint(*i, *p),
        UpdateOp::RewritePoints(ps) => UpdateOp::RewritePoints(clone_points(ps)),
        UpdateOp::UpdateSubdivide(t) => UpdateOp::UpdateSubdivide(*t),
        UpdateOp::DegreeElevate => UpdateOp::DegreeElevate,
    }
}

/// Clones a list of snapshots; the copy has the same models.
fn clone_cores(cores: &Vec<ShapeCore>) -> (c: Vec<ShapeCore>)
    ensures
        c@.map(|i: int, cc: ShapeCore| cc@) =~= cores@.map(|i: int, cc: ShapeCore| cc@),
{
    let mut c: Vec<ShapeCore> = Vec::new();
    let n: usize = cores.len();
    let mut i: usize = 0;
    while i < n
        invariant
            n == cores@.len(),
            i <= n,
            c@.len() == i,
            forall|j: int| 0 <= j < i ==> (#[trigger] c@[j])@ == cores@[j]@,
        decreases n - i,
    {
        c.push(cores[i].clone_core());
        i = i + 1;
    }
    proof {
        assert(c@.map(|i: int, cc: ShapeCore| cc@) =~= cores@.map(|i: int, cc: ShapeCore| cc@));
    }
    c
}

/// Clones a history record; the copy has the same model.
fn clone_record(r: &RecordType) -> (c: RecordType)
    ensures
        c@ == r@,
{
    match r {
        RecordType::IndexChange(src, dst) => RecordType::IndexChange(*src, *dst),
        RecordType::ShapeChange(i, op, prev, post) => RecordType::ShapeChange(
            *i,
            clone_op(op),
            prev.clone_core(),
            post.clone_core(),
        ),
        RecordType::Subdivision(i, prev, pair) => RecordType::Subdivision(
            *i,
            prev.clone_core(),
            (pair.0.clone_core(), pair.1.clone_core()),
        ),
        RecordType::Deletion(i, prev) => RecordType::Deletion(*i, prev.clone_core()),
        RecordType::Creation(core) => RecordType::Creation(core.clone_core()),
        RecordType::BackgroundColor(prev, post) => RecordType::BackgroundColor(*prev, *post),
        RecordType::Clear(cores) => {
            let cc = clone_cores(cores);
            proof {
                assert(RecordType::Clear(cc)@ == r@);
            }
            RecordType::Clear(cc)
        },
    }
}

/// Whether two mutations are of the same kind, whatever their
/// payloads.
fn op_kind_matches(a: &UpdateOp, b: &UpdateOp) -> (r: bool)
    ensures
        r == same_op_kind(a@, b@),
{
    match (a, b) {
        (UpdateOp::Move(..), UpdateOp::Move(..)) => true,
        (UpdateOp::ChangeColor(..), UpdateOp::ChangeColor(..)) => true,
        (UpdateOp::ChangeFillColor(..), UpdateOp::ChangeFillColor(..)) => true,
        (UpdateOp::AddControlPoint(..), UpdateOp::AddControlPoint(..)) => true,
        (UpdateOp::ControlPoint(..), UpdateOp::ControlPoint(..)) => true,
        (UpdateOp::RewritePoints(..), UpdateOp::RewritePoints(..)) => true,
        (UpdateOp::UpdateSubdivide(..), UpdateOp::UpdateSubdivide(..)) => true,
        (UpdateOp::DegreeElevate, UpdateOp::DegreeElevate) => true,
        _ => false,
    }
}

/// Whether an incoming record coalesces with the preceding one.
fn rec_matches(last: &RecordType, incoming: &RecordType) -> (r: bool)
    ensures
        r == coalesce_match(last@, incoming@),
{
    match (last, incoming) {
        (
            RecordType::ShapeChange(i1, op1, _, _),
            RecordType::ShapeChange(i2, op2, _, _),
        ) => *i1 == *i2 && op_kind_matches(op1, op2),
        (RecordType::BackgroundColor(..), RecordType::BackgroundColor(..)) => true,
        _ => false,
    }
}

/// Builds the record replacing two coalesced ones.
fn merge_records(last: &RecordType, incoming: RecordType) -> (r: RecordType)
    requires
        coalesce_match(last@, incoming@),
    ensures
        r@ == merge_rec(last@, incoming@),
{
    match (last, incoming) {
        (
            RecordType::ShapeChange(i1, _, prev, _),
            RecordType::ShapeChange(_, op2, _, post),
        ) => RecordType::ShapeChange(*i1, op2, prev.clone_core(), post),
        (
            RecordType::BackgroundColor(orig, _),
            RecordType::BackgroundColor(_, post),
        ) => RecordType::BackgroundColor(*orig, post),
        (_, other) => other,
    }
}

/// Moving one element of a list of well-formed shapes keeps every
/// element well formed.
proof fn lemma_permuted_wf(o: Seq<AnyShape>, from: int, to: int)
    requires
        0 <= from < o.len(),
        0 <= to <= o.len() - 1,
        forall|i: int| 0 <= i < o.len() ==> (#[trigger] o[i]).wf(),
    ensures
        forall|i: int|
            0 <= i < o.remove(from).insert(to, o[from]).len() ==> (#[trigger] o.remove(
                from,
            ).insert(to, o[from])[i]).wf(),
{
    let r = o.remove(from);
    let sq = r.insert(to, o[from]);
    assert forall|i: int| 0 <= i < sq.len() implies (#[trigger] sq[i]).wf() by {
        if i == to {
            assert(sq[i] == o[from]);
        } else {
            let j = if i < to {
                i
            } else {
                i - 1
            };
            assert(sq[i] == r[j]);
            if j < from {
                assert(r[j] == o[j]);
            } else {
                assert(r[j] == o[j + 1]);
            }
        }
    }
}

/// The shape store: an ordered list of shapes (later means drawn on
/// top), a background color, and the bounded undo/redo log with its
/// cursor — everything before the cursor is undoable past, everything
/// at or after it is redoable future.
#[verifier::ext_equal]
pub struct DrawState {
    objects: Vec<AnyShape>,
    background_color: RGBA,
    history: Vec<RecordType>,
    history_idx: usize,
}

impl DrawState {
    /// The shapes the store holds.
    pub closed spec fn objs(self) -> Seq<AnyShape> {
        self.objects@
    }

    /// The mathematical views of the shapes, in z order.
    pub open spec fn models(self) -> Seq<ShapeView> {
        self.objs().map(|i: int, s: AnyShape| s@)
    }

    /// The background color.
    pub closed spec fn bg(self) -> RGBA {
        self.background_color
    }

    /// The history records, oldest first.
    pub closed spec fn hist_raw(self) -> Seq<RecordType> {
        self.history@
    }

    /// The models of the history records.
    pub open spec fn hist(self) -> Seq<RecModel> {
        self.hist_raw().map(|i: int, r: RecordType| r@)
    }

    /// The undo/redo cursor.
    pub closed spec fn cursor(self) -> int {
        self.history_idx as int
    }

    /// The store is well formed: the cursor is within the bounded log,
    /// every shape is well formed, and every record carries well-formed
    /// snapshots.
    pub open spec fn wf(self) -> bool {
        0 <= self.cursor() <= self.hist().len() <= 100 && (forall|i: int|
            0 <= i < self.objs().len() ==> (#[trigger] self.objs()[i]).wf()) && (forall|i: int|
            0 <= i < self.hist().len() ==> rec_wf(#[trigger] self.hist()[i]))
    }

    /// Creates an empty store.
    pub fn new() -> (s: DrawState)
        ensures
            s.wf(),
            s.models() =~= Seq::<ShapeView>::empty(),
            s.bg() == (RGBA { r: 0, g: 0, b: 0, a: 0 }),
            s.hist() =~= Seq::<RecModel>::empty(),
            s.cursor() == 0,
    {
        DrawState {
            objects: Vec::new(),
            background_color: RGBA { r: 0, g: 0, b: 0, a: 0 },
            history: Vec::new(),
            history_idx: 0,
        }
    }

    /// Returns the background color.
    pub fn get_background_color(&self) -> (c: RGBA)
        ensures
            c == self.bg(),
    {
        self.background_color
    }

    /// Returns the shape at the index.
    pub fn get_object(&self, idx: usize) -> (s: &AnyShape)
        requires
            idx < self.models().len(),
        ensures
            s@ == self.models()[idx as int],
            self.wf() ==> s.wf(),
    {
        &self.objects[idx]
    }

    /// Returns the list of shapes.
    pub fn get_objects(&self) -> (v: &Vec<AnyShape>)
        ensures
            v@ == self.objs(),
            v@.len() == self.models().len(),
            forall|i: int| 0 <= i < v@.len() ==> (#[trigger] v@[i])@ == self.models()[i],
    {
        &self.objects
    }

    /// How many records the history currently holds.
    pub fn history_len(&self) -> (n: usize)
        ensures
            n == self.hist().len(),
    {
        self.history.len()
    }

    /// The current undo/redo cursor.
    pub fn history_cursor(&self) -> (n: usize)
        ensures
            n == self.cursor(),
    {
        self.history_idx
    }

    /// Returns the history record at the index, if any.
    pub fn get_history_record(&self, idx: usize) -> (r: Option<&RecordType>)
        ensures
            idx < self.hist().len() ==> (r matches Some(rec) && rec@ == self.hist()[idx as int]),
            idx >= self.hist().len() ==> r is None,
    {
        if idx < self.history.len() {
            Some(&self.history[idx])
        } else {
            None
        }
    }

    /// Records a mutation: discards the stale redo branch, coalesces
    /// with the preceding record when the kinds agree, and evicts the
    /// oldest entry when the log would exceed its cap.
    fn push_history(&mut self, record: RecordType)
        requires
            old(self).wf(),
            rec_wf(record@),
        ensures
            final(self).wf(),
            final(self).objs() == old(self).objs(),
            final(self).bg() == old(self).bg(),
            final(self).hist() == push_rec(old(self).hist(), old(self).cursor(), record@).0,
            final(self).cursor() == push_rec(old(self).hist(), old(self).cursor(), record@).1,
            final(self).cursor() == final(self).hist().len(),
    {
        proof {
            lemma_push_rec_props(self.hist(), self.cursor(), record@);
        }
        let ghost target = push_rec(self.hist(), self.cursor(), record@);
        self.history.truncate(self.history_idx);
        proof {
            assert(self.hist() =~= old(self).hist().take(old(self).cursor()));
        }
        let hl: usize = self.history.len();
        if hl > 0 {
            if rec_matches(&self.history[hl - 1], &record) {
                let merged = merge_records(&self.history[hl - 1], record);
                self.history.set(hl - 1, merged);
                proof {
                    assert(self.hist() =~= target.0);
                    assert forall|i: int| 0 <= i < self.hist().len() implies rec_wf(
                        #[trigger] self.hist()[i],
                    ) by {
                        assert(self.hist()[i] == push_rec(
                            old(self).hist(),
                            old(self).cursor(),
                            record@,
                        ).0[i]);
                    }
                    assert forall|i: int| 0 <= i < self.objs().len() implies (
                    #[trigger] self.objs()[i]).wf() by {
                        assert(self.objs()[i] == old(self).objs()[i]);
                    }
                }
                return ;
            }
        }
        self.history.push(record);
        self.history_idx = self.history.len();
        proof {
            assert(self.hist() =~= old(self).hist().take(old(self).cursor()).push(record@));
        }
        if self.history.len() > HISTORY_SIZE_LIMIT {
            self.history.remove(0);
            self.history_idx = self.history_idx - 1;
            proof {
                assert(self.hist() =~= old(self).hist().take(old(self).cursor()).push(
                    record@,
                ).drop_first());
            }
        }
        proof {
            assert(self.hist() =~= target.0);
            assert forall|i: int| 0 <= i < self.hist().len() implies rec_wf(
                #[trigger] self.hist()[i],
            ) by {
                assert(self.hist()[i] == push_rec(old(self).hist(), old(self).cursor(), record@).0[
                    i
                ]);
            }
            assert forall|i: int| 0 <= i < self.objs().len() implies (
            #[trigger] self.objs()[i]).wf() by {
                assert(self.objs()[i] == old(self).objs()[i]);
            }
        }
    }

    /// Appends a shape and records its creation.
    pub fn add_shape(&mut self, shape: AnyShape)
        requires
            old(self).wf(),
            shape.wf(),
        ensures
            final(self).wf(),
            final(self).models() == old(self).models().push(shape@),
            final(self).bg() == old(self).bg(),
            final(self).hist() == push_rec(
                old(self).hist(),
                old(self).cursor(),
                RecModel::Creation(shape@.core),
            ).0,
            final(self).cursor() == final(self).hist().len(),
    {
        let core = shape.get_core();
        self.push_history(RecordType::Creation(core));
        self.objects.push(shape);
        proof {
            assert(self.models() =~= old(self).models().push(shape@));
        }
    }

    /// Removes the shape at the index and records its deletion; an
    /// out-of-range index leaves the store unchanged.
    pub fn delete_shape(&mut self, index: usize)
        requires
            old(self).wf(),
        ensures
            final(self).wf(),
            final(self).bg() == old(self).bg(),
            index < old(self).models().len() ==> final(self).models() == old(self).models().remove(index as int) && final(self).hist() == push_rec(
                old(self).hist(),
                old(self).cursor(),
                RecModel::Deletion(index as int, old(self).models()[index as int].core),
            ).0 && final(self).cursor() == final(self).hist().len(),
            index >= old(self).models().len() ==> *final(self) == *old(self),
    {
        if index < self.objects.len() {
            let core = self.objects[index].get_core();
            self.push_history(RecordType::Deletion(index, core));
            self.objects.remove(index);
            proof {
                assert(self.models() =~= old(self).models().remove(index as int));
            }
        }
    }

    /// Moves the shape at `from` to index `to` and records the index
    /// change; an out-of-range index leaves the store unchanged.
    pub fn reorder_shape(&mut self, from: usize, to: usize)
        requires
            old(self).wf(),
        ensures
            final(self).wf(),
            final(self).bg() == old(self).bg(),
            from < old(self).models().len() && to < old(self).models().len() ==> final(self).models() == old(self).models().remove(from as int).insert(
                to as int,
                old(self).models()[from as int],
            ) && final(self).hist() == push_rec(
                old(self).hist(),
                old(self).cursor(),
                RecModel::IndexChange(from as int, to as int),
            ).0 && final(self).cursor() == final(self).hist().len(),
            !(from < old(self).models().len() && to < old(self).models().len()) ==> *final(self)
                == *old(self),
    {
        if from < self.objects.len() && to < self.objects.len() {
            let shape = self.objects.remove(from);
            self.objects.insert(to, shape);
            proof {
                lemma_permuted_wf(old(self).objs(), from as int, to as int);
                assert(self.objs() =~= old(self).objs().remove(from as int).insert(
                    to as int,
                    old(self).objs()[from as int],
                ));
            }
            self.push_history(RecordType::IndexChange(from, to));
            proof {
                assert(self.models() =~= old(self).models().remove(from as int).insert(
                    to as int,
                    old(self).models()[from as int],
                ));
            }
        }
    }

    /// Changes the background color and records the change.
    pub fn change_background_color(&mut self, color: RGBA)
        requires
            old(self).wf(),
        ensures
            final(self).wf(),
            final(self).models() == old(self).models(),
            final(self).bg() == color,
            final(self).hist() == push_rec(
                old(self).hist(),
                old(self).cursor(),
                RecModel::BackgroundColor(old(self).bg(), color),
            ).0,
            final(self).cursor() == final(self).hist().len(),
    {
        self.push_history(RecordType::BackgroundColor(self.background_color, color));
        self.background_color = color;
    }

    /// Removes every shape and records the clearing with all their
    /// snapshots.
    pub fn clear(&mut self)
        requires
            old(self).wf(),
        ensures
            final(self).wf(),
            final(self).models() =~= Seq::<ShapeView>::empty(),
            final(self).bg() == old(self).bg(),
            final(self).hist() == push_rec(
                old(self).hist(),
                old(self).cursor(),
                RecModel::Clear(old(self).models().map(|i: int, v: ShapeView| v.core)),
            ).0,
            final(self).cursor() == final(self).hist().len(),
    {
        let mut cores: Vec<ShapeCore> = Vec::new();
        let n: usize = self.objects.len();
        let mut i: usize = 0;
        while i < n
            invariant
                self == old(self),
                old(self).wf(),
                n == self.objs().len(),
                i <= n,
                cores@.len() == i,
                forall|j: int| 0 <= j < i ==> (#[trigger] cores@[j])@ == self.models()[j].core,
            decreases n - i,
        {
            cores.push(self.objects[i].get_core());
            i = i + 1;
        }
        proof {
            assert(cores@.map(|i: int, c: ShapeCore| c@) =~= old(self).models().map(
                |i: int, v: ShapeView| v.core,
            ));
        }
        self.push_history(RecordType::Clear(cores));
        self.objects = Vec::new();
        proof {
            assert(self.models() =~= Seq::<ShapeView>::empty());
        }
    }

    /// Applies a mutation to the shape at the index, recording the
    /// snapshots before and after; an out-of-range index leaves the
    /// store unchanged.
    pub fn update_shape(&mut self, shape_idx: usize, op: UpdateOp)
        requires
            old(self).wf(),
            shape_idx < old(self).models().len() ==> op_ok(
                old(self).models()[shape_idx as int].core,
                op@,
            ),
        ensures
            final(self).wf(),
            final(self).bg() == old(self).bg(),
            shape_idx < old(self).models().len() ==> final(self).models() == old(self).models().update(
                shape_idx as int,
                updated_view(old(self).models()[shape_idx as int], op@),
            ) && final(self).hist() == push_rec(
                old(self).hist(),
                old(self).cursor(),
                RecModel::ShapeChange(
                    shape_idx as int,
                    op@,
                    old(self).models()[shape_idx as int].core,
                    apply_op(old(self).models()[shape_idx as int].core, op@),
                ),
            ).0 && final(self).cursor() == final(self).hist().len(),
            shape_idx >= old(self).models().len() ==> *final(self) == *old(self),
    {
        if shape_idx < self.objects.len() {
            let mut sh: AnyShape = self.objects.remove(shape_idx);
            let prev = sh.get_core();
            sh.update(&op);
            let post = sh.get_core();
            self.objects.insert(shape_idx, sh);
            proof {
                assert(self.models() =~= old(self).models().update(
                    shape_idx as int,
                    updated_view(old(self).models()[shape_idx as int], op@),
                ));
            }
            self.push_history(RecordType::ShapeChange(shape_idx, op, prev, post));
        }
    }

    /// Subdivides the shape at the index: only curves subdivide; the
    /// shape's points are replaced by the left half, the right half is
    /// appended as a new shape, and the subdivision is recorded. An
    /// out-of-range index, or a shape that is not a curve, leaves the
    /// store unchanged.
    pub fn subdivide_shape(&mut self, shape_idx: usize)
        requires
            old(self).wf(),
        ensures
            final(self).wf(),
            final(self).bg() == old(self).bg(),
            shape_idx < old(self).models().len() && old(self).models()[shape_idx as int].core.shape_type
                == Shape::Bezier ==> ({
                let v = old(self).models()[shape_idx as int];
                let first = CoreModel {
                    points: subdiv_first(v.core.points, v.subt.num as int, v.subt.den as int),
                    ..v.core
                };
                let second = CoreModel {
                    points: subdiv_second(v.core.points, v.subt.num as int, v.subt.den as int),
                    ..v.core
                };
                final(self).models() == old(self).models().update(
                    shape_idx as int,
                    ShapeView { core: first, subt: v.subt },
                ).push(fresh_view(second)) && final(self).hist() == push_rec(
                    old(self).hist(),
                    old(self).cursor(),
                    RecModel::Subdivision(shape_idx as int, v.core, (first, second)),
                ).0 && final(self).cursor() == final(self).hist().len()
            }),
            !(shape_idx < old(self).models().len() && old(self).models()[shape_idx as int].core.shape_type
                == Shape::Bezier) ==> final(self).models() == old(self).models() && final(self).hist() == old(self).hist() && final(self).cursor() == old(self).cursor(),
    {
        if shape_idx < self.objects.len() {
            let mut sh: AnyShape = self.objects.remove(shape_idx);
            let res = sh.subdivide();
            match res {
                Some(pair) => {
                    let (c1, c2) = pair;
                    let prev = sh.get_core();
                    proof {
                        lemma_subdiv_wf(
                            old(self).models()[shape_idx as int].core.points,
                            old(self).models()[shape_idx as int].subt.num as int,
                            old(self).models()[shape_idx as int].subt.den as int,
                        );
                    }
                    let pts = clone_points(&c1.points);
                    sh.update(&UpdateOp::RewritePoints(pts));
                    self.objects.insert(shape_idx, sh);
                    let fresh = new_shape_from_core(c2.clone_core());
                    self.objects.push(fresh);
                    proof {
                        let v = old(self).models()[shape_idx as int];
                        let first = CoreModel {
                            points: subdiv_first(
                                v.core.points,
                                v.subt.num as int,
                                v.subt.den as int,
                            ),
                            ..v.core
                        };
                        let second = CoreModel {
                            points: subdiv_second(
                                v.core.points,
                                v.subt.num as int,
                                v.subt.den as int,
                            ),
                            ..v.core
                        };
                        assert(self.models() =~= old(self).models().update(
                            shape_idx as int,
                            ShapeView { core: first, subt: v.subt },
                        ).push(fresh_view(second)));
                    }
                    self.push_history(
                        RecordType::Subdivision(shape_idx, prev, (c1, c2)),
                    );
                },
                None => {
                    self.objects.insert(shape_idx, sh);
                    proof {
                        assert(self.objs() =~= old(self).objs());
                        assert(self.models() =~= old(self).models());
                    }
                },
            }
        }
    }

    /// Undoes the most recent record before the cursor, applying its
    /// inverse to the store; with the cursor at the start of the log
    /// nothing changes.
    pub fn undo(&mut self)
        requires
            old(self).wf(),
        ensures
            final(self).wf(),
            final(self).hist() == old(self).hist(),
            old(self).cursor() == 0 ==> *final(self) == *old(self),
            old(self).cursor() > 0 ==> final(self).cursor() == old(self).cursor() - 1 && final(self).models() == apply_undo(
                old(self).models(),
                old(self).bg(),
                old(self).hist()[old(self).cursor() - 1],
            ).0 && final(self).bg() == apply_undo(
                old(self).models(),
                old(self).bg(),
                old(self).hist()[old(self).cursor() - 1],
            ).1,
    {
        if self.history_idx > 0 {
            self.history_idx = self.history_idx - 1;
            let idx: usize = self.history_idx;
            let record = clone_record(&self.history[idx]);
            let ghost rec = old(self).hist()[old(self).cursor() - 1];
            proof {
                assert(record@ == rec);
                assert(rec_wf(rec));
            }
            match record {
                RecordType::IndexChange(src, dst) => {
                    if dst < self.objects.len() && src < self.objects.len() {
                        let shape = self.objects.remove(dst);
                        self.objects.insert(src, shape);
                        proof {
                            lemma_permuted_wf(old(self).objs(), dst as int, src as int);
                            assert(self.objs() =~= old(self).objs().remove(dst as int).insert(
                                src as int,
                                old(self).objs()[dst as int],
                            ));
                            assert(self.models() =~= apply_undo(
                                old(self).models(),
                                old(self).bg(),
                                rec,
                            ).0);
                        }
                    }
                },
                RecordType::ShapeChange(i2, _, prev, _) => {
                    if i2 < self.objects.len() {
                        let sh = new_shape_from_core(prev);
                        self.objects.set(i2, sh);
                        proof {
                            assert forall|i: int| 0 <= i < self.objs().len() implies (
                            #[trigger] self.objs()[i]).wf() by {
                                if i != i2 as int {
                                    assert(self.objs()[i] == old(self).objs()[i]);
                                }
                            }
                            assert(self.models() =~= apply_undo(
                                old(self).models(),
                                old(self).bg(),
                                rec,
                            ).0);
                        }
                    }
                },
                RecordType::Subdivision(i2, init, _) => {
                    if i2 < self.objects.len() {
                        let sh = new_shape_from_core(init);
                        self.objects.set(i2, sh);
                        let _popped = self.objects.pop();
                        proof {
                            assert forall|i: int| 0 <= i < self.objs().len() implies (
                            #[trigger] self.objs()[i]).wf() by {
                                if i != i2 as int {
                                    assert(self.objs()[i] == old(self).objs()[i]);
                                }
                            }
                            assert(self.models() =~= apply_undo(
                                old(self).models(),
                                old(self).bg(),
                                rec,
                            ).0);
                        }
                    }
                },
                RecordType::Deletion(i2, prev) => {
                    if i2 <= self.objects.len() {
                        let sh = new_shape_from_core(prev);
                        self.objects.insert(i2, sh);
                        proof {
                            assert forall|i: int| 0 <= i < self.objs().len() implies (
                            #[trigger] self.objs()[i]).wf() by {
                                if i < i2 as int {
                                    assert(self.objs()[i] == old(self).objs()[i]);
                                } else if i > i2 as int {
                                    assert(self.objs()[i] == old(self).objs()[i - 1]);
                                }
                            }
                            assert(self.models() =~= apply_undo(
                                old(self).models(),
                                old(self).bg(),
                                rec,
                            ).0);
                        }
                    }
                },
                RecordType::Creation(..) => {
                    if self.objects.len() > 0 {
                        let _popped = self.objects.pop();
                        proof {
                            assert forall|i: int| 0 <= i < self.objs().len() implies (
                            #[trigger] self.objs()[i]).wf() by {
                                assert(self.objs()[i] == old(self).objs()[i]);
                            }
                            assert(self.models() =~= apply_undo(
                                old(self).models(),
                                old(self).bg(),
                                rec,
                            ).0);
                        }
                    }
                },
                RecordType::BackgroundColor(prev, _) => {
                    self.background_color = prev;
                },
                RecordType::Clear(cores) => {
                    proof {
                        assert(rec == RecModel::Clear(cores@.map(|k: int, c: ShapeCore| c@)));
                        assert forall|j: int| 0 <= j < cores@.len() implies (
                        #[trigger] cores@[j])@.wf() by {
                            assert(cores@.map(|k: int, c: ShapeCore| c@)[j] == cores@[j]@);
                        }
                    }
                    let mut objs: Vec<AnyShape> = Vec::new();
                    let n: usize = cores.len();
                    let mut i: usize = 0;
                    while i < n
                        invariant
                            n == cores@.len(),
                            i <= n,
                            forall|j: int| 0 <= j < n ==> (#[trigger] cores@[j])@.wf(),
                            objs@.len() == i,
                            forall|j: int|
                                0 <= j < i ==> (#[trigger] objs@[j])@ == fresh_view(cores@[j]@)
                                    && objs@[j].wf(),
                        decreases n - i,
                    {
                        let sh = new_shape_from_core(cores[i].clone_core());
                        objs.push(sh);
                        i = i + 1;
                    }
                    self.objects = objs;
                    proof {
                        assert(rec == RecModel::Clear(cores@.map(|k: int, c: ShapeCore| c@)));
                        assert(self.models() =~= apply_undo(
                            old(self).models(),
                            old(self).bg(),
                            rec,
                        ).0);
                    }
                },
            }
        }
    }

    /// Redoes the record at the cursor, repeating its effect on the
    /// store; with the cursor at the end of the log nothing changes.
    pub fn redo(&mut self)
        requires
            old(self).wf(),
        ensures
            final(self).wf(),
            final(self).hist() == old(self).hist(),
            old(self).cursor() >= old(self).hist().len() ==> *final(self) == *old(self),
            old(self).cursor() < old(self).hist().len() ==> final(self).cursor() == old(self).cursor() + 1 && final(self).models() == apply_redo(
                old(self).models(),
                old(self).bg(),
                old(self).hist()[old(self).cursor()],
            ).0 && final(self).bg() == apply_redo(
                old(self).models(),
                old(self).bg(),
                old(self).hist()[old(self).cursor()],
            ).1,
    {
        if self.history_idx < self.history.len() {
            let record = clone_record(&self.history[self.history_idx]);
            let ghost rec = old(self).hist()[old(self).cursor()];
            proof {
                assert(record@ == rec);
                assert(rec_wf(rec));
            }
            match record {
                RecordType::IndexChange(src, dst) => {
                    if src < self.objects.len() && dst < self.objects.len() {
                        let shape = self.objects.remove(src);
                        self.objects.insert(dst, shape);
                        proof {
                            lemma_permuted_wf(old(self).objs(), src as int, dst as int);
                            assert(self.objs() =~= old(self).objs().remove(src as int).insert(
                                dst as int,
                                old(self).objs()[src as int],
                            ));
                            assert(self.models() =~= apply_redo(
                                old(self).models(),
                                old(self).bg(),
                                rec,
                            ).0);
                        }
                    }
                },
                RecordType::ShapeChange(i2, _, _, post) => {
                    if i2 < self.objects.len() {
                        let sh = new_shape_from_core(post);
                        self.objects.set(i2, sh);
                        proof {
                            assert forall|i: int| 0 <= i < self.objs().len() implies (
                            #[trigger] self.objs()[i]).wf() by {
                                if i != i2 as int {
                                    assert(self.objs()[i] == old(self).objs()[i]);
                                }
                            }
                            assert(self.models() =~= apply_redo(
                                old(self).models(),
                                old(self).bg(),
                                rec,
                            ).0);
                        }
                    }
                },
                RecordType::Subdivision(i2, _, pair) => {
                    if i2 < self.objects.len() {
                        let sh = new_shape_from_core(pair.0);
                        self.objects.set(i2, sh);
                        let sh2 = new_shape_from_core(pair.1);
                        self.objects.push(sh2);
                        proof {
                            assert forall|i: int| 0 <= i < self.objs().len() implies (
                            #[trigger] self.objs()[i]).wf() by {
                                if i != i2 as int && i < self.objs().len() - 1 {
                                    assert(self.objs()[i] == old(self).objs()[i]);
                                }
                            }
                            assert(self.models() =~= apply_redo(
                                old(self).models(),
                                old(self).bg(),
                                rec,
                            ).0);
                        }
                    }
                },
                RecordType::Deletion(i2, _) => {
                    if i2 < self.objects.len() {
                        self.objects.remove(i2);
                        proof {
                            assert forall|i: int| 0 <= i < self.objs().len() implies (
                            #[trigger] self.objs()[i]).wf() by {
                                if i < i2 as int {
                                    assert(self.objs()[i] == old(self).objs()[i]);
                                } else {
                                    assert(self.objs()[i] == old(self).objs()[i + 1]);
                                }
                            }
                            assert(self.models() =~= apply_redo(
                                old(self).models(),
                                old(self).bg(),
                                rec,
                            ).0);
                        }
                    }
                },
                RecordType::Creation(core) => {
                    let sh = new_shape_from_core(core);
                    self.objects.push(sh);
                    proof {
                        assert forall|i: int| 0 <= i < self.objs().len() implies (
                        #[trigger] self.objs()[i]).wf() by {
                            if i < self.objs().len() - 1 {
                                assert(self.objs()[i] == old(self).objs()[i]);
                            }
                        }
                        assert(self.models() =~= apply_redo(
                            old(self).models(),
                            old(self).bg(),
                            rec,
                        ).0);
                    }
                },
                RecordType::BackgroundColor(_, nxt) => {
                    self.background_color = nxt;
                },
                RecordType::Clear(..) => {
                    self.objects = Vec::new();
                    proof {
                        assert(self.models() =~= apply_redo(
                            old(self).models(),
                            old(self).bg(),
                            rec,
                        ).0);
                    }
                },
            }
            self.history_idx = self.history_idx + 1;
        }
    }

    /// Finds the topmost shape hit by the query point: shapes are
    /// probed from the highest z order down, and the first hit wins.
    pub fn hit_test_topmost(&self, point: Point) -> (r: Option<usize>)
        requires
            self.wf(),
            pt_bounded(point),
        ensures
            r matches Some(i) ==> i < self.models().len() && shape_hit(
                self.models()[i as int].core,
                point,
            ) && (forall|j: int|
                i < j < self.models().len() ==> !shape_hit(
                    (#[trigger] self.models()[j]).core,
                    point,
                )),
            r is None ==> forall|j: int|
                0 <= j < self.models().len() ==> !shape_hit(
                    (#[trigger] self.models()[j]).core,
                    point,
                ),
    {
        let mut i: usize = self.objects.len();
        while i > 0
            invariant
                self.wf(),
                pt_bounded(point),
                i <= self.models().len(),
                forall|j: int|
                    i <= j < self.models().len() ==> !shape_hit(
                        (#[trigger] self.models()[j]).core,
                        point,
                    ),
            decreases i,
        {
            i = i - 1;
            if self.objects[i].hit_test(point) {
                return Some(i);
            }
        }
        None
    }

    /// Whether the control point at index `i` of the snapshot lies
    /// within `radius` pixels of the query point, by squared distance.
    pub open spec fn cp_hit(c: CoreModel, p: Point, radius: int, i: int) -> bool {
        let q = c.points[i];
        (p.0 - q.0) * (p.0 - q.0) + (p.1 - q.1) * (p.1 - q.1) <= radius * radius
    }

    /// Finds the first control point of the shape at `shape_idx` lying
    /// within `radius` pixels of the query point.
    pub fn hit_test_control_point(&self, shape_idx: usize, point: Point, radius: u32) -> (r:
        Option<usize>)
        requires
            self.wf(),
            pt_bounded(point),
        ensures
            shape_idx >= self.models().len() ==> r is None,
            shape_idx < self.models().len() ==> ({
                let c = self.models()[shape_idx as int].core;
                (r matches Some(i) ==> i < c.points.len() && Self::cp_hit(
                    c,
                    point,
                    radius as int,
                    i as int,
                ) && (forall|j: int|
                    0 <= j < i ==> !Self::cp_hit(c, point, radius as int, j))) && (r is None
                    ==> forall|j: int|
                    0 <= j < c.points.len() ==> !Self::cp_hit(c, point, radius as int, j))
            }),
    {
        if shape_idx >= self.objects.len() {
            return None;
        }
        let core = self.objects[shape_idx].get_core();
        let ghost cm = self.models()[shape_idx as int].core;
        let n: usize = core.points.len();
        let mut i: usize = 0;
        proof {
            crate::point::lemma_mul_bound(radius as int, radius as int, 0x1_0000_0000, 0x1_0000_0000);
        }
        let r2: i128 = radius as i128 * radius as i128;
        while i < n
            invariant
                self.wf(),
                pt_bounded(point),
                shape_idx < self.models().len(),
                cm == self.models()[shape_idx as int].core,
                core@ == cm,
                n == cm.points.len(),
                i <= n,
                r2 == radius as int * radius as int,
                forall|j: int| 0 <= j < i ==> !Self::cp_hit(cm, point, radius as int, j),
            decreases n - i,
        {
            let q: Point = core.points[i];
            proof {
                assert(pt_bounded(cm.points[i as int]));
                crate::point::lemma_mul_bound(point.0 - q.0, point.0 - q.0, 65536, 65536);
                crate::point::lemma_mul_bound(point.1 - q.1, point.1 - q.1, 65536, 65536);
            }
            let dx: i128 = point.0 as i128 - q.0 as i128;
            let dy: i128 = point.1 as i128 - q.1 as i128;
            if dx * dx + dy * dy <= r2 {
                return Some(i);
            }
            i = i + 1;
        }
        None
    }

    /// Hands out the document state: the snapshots of all shapes in z
    /// order, and the background color.
    pub fn export_state(&self) -> (r: (Vec<ShapeCore>, RGBA))
        ensures
            r.0@.len() == self.models().len(),
            forall|i: int|
                0 <= i < r.0@.len() ==> (#[trigger] r.0@[i])@ == self.models()[i].core,
            r.1 == self.bg(),
    {
        let mut cores: Vec<ShapeCore> = Vec::new();
        let n: usize = self.objects.len();
        let mut i: usize = 0;
        while i < n
            invariant
                n == self.objs().len(),
                i <= n,
                cores@.len() == i,
                forall|j: int| 0 <= j < i ==> (#[trigger] cores@[j])@ == self.models()[j].core,
            decreases n - i,
        {
            cores.push(self.objects[i].get_core());
            i = i + 1;
        }
        (cores, self.background_color)
    }

    /// Replaces the whole document: the shape list is rebuilt from the
    /// given snapshots, the background is set, and the undo/redo log is
    /// cleared. When any snapshot is malformed the import fails and the
    /// prior state is left untouched.
    pub fn import_state(&mut self, shapes: Vec<ShapeCore>, background: RGBA) -> (r: Result<
        (),
        StateParseError,
    >)
        requires
            old(self).wf(),
        ensures
            final(self).wf(),
            (r is Ok) == (forall|i: int|
                0 <= i < shapes@.len() ==> (#[trigger] shapes@[i])@.wf()),
            r is Ok ==> final(self).models() == shapes@.map(
                |i: int, c: ShapeCore| fresh_view(c@),
            ) && final(self).bg() == background && final(self).hist() =~= Seq::<
                RecModel,
            >::empty() && final(self).cursor() == 0,
            r matches Err(e) ==> *final(self) == *old(self) && e.index < shapes@.len()
                && !shapes@[e.index as int]@.wf() && (forall|j: int|
                0 <= j < e.index ==> (#[trigger] shapes@[j])@.wf()),
    {
        let n: usize = shapes.len();
        let mut i: usize = 0;
        while i < n
            invariant
                self == old(self),
                old(self).wf(),
                n == shapes@.len(),
                i <= n,
                forall|j: int| 0 <= j < i ==> (#[trigger] shapes@[j])@.wf(),
            decreases n - i,
        {
            if !core_check(&shapes[i]) {
                return Err(StateParseError { index: i });
            }
            i = i + 1;
        }
        let mut objs: Vec<AnyShape> = Vec::new();
        let mut k: usize = 0;
        while k < n
            invariant
                n == shapes@.len(),
                k <= n,
                forall|j: int| 0 <= j < n ==> (#[trigger] shapes@[j])@.wf(),
                objs@.len() == k,
                forall|j: int|
                    0 <= j < k ==> (#[trigger] objs@[j])@ == fresh_view(shapes@[j]@)
                        && objs@[j].wf(),
            decreases n - k,
        {
            let sh = new_shape_from_core(shapes[k].clone_core());
            objs.push(sh);
            k = k + 1;
        }
        self.objects = objs;
        self.background_color = background;
        self.history = Vec::new();
        self.history_idx = 0;
        proof {
            assert(self.models() =~= shapes@.map(|i: int, c: ShapeCore| fresh_view(c@)));
            assert(self.hist() =~= Seq::<RecModel>::empty());
        }
        Ok(())
    }

    /// Renders the whole document: the canvas is cleared to the
    /// background color and every shape is drawn in z order, later
    /// shapes on top.
    pub fn draw_all(&self, canvas: &mut Canvas)
        requires
            self.wf(),
            old(canvas).wf(),
        ensures
            final(canvas).wf(),
            final(canvas).wd() == old(canvas).wd(),
            final(canvas).ht() == old(canvas).ht(),
            final(canvas).img() == draw_shapes_spec(
                Seq::new(old(canvas).img().len(), |i: int| self.bg()),
                old(canvas).wd(),
                old(canvas).ht(),
                self.models(),
                0,
            ),
    {
        let ghost w = canvas.wd();
        let ghost h = canvas.ht();
        let bg = self.get_background_color();
        canvas.clear(bg);
        let ghost target = draw_shapes_spec(canvas.img(), w, h, self.models(), 0);
        let n: usize = self.objects.len();
        let mut i: usize = 0;
        while i < n
            invariant
                self.wf(),
                canvas.wf(),
                canvas.wd() == w,
                canvas.ht() == h,
                n == self.models().len(),
                i <= n,
                target == draw_shapes_spec(canvas.img(), w, h, self.models(), i as int),
            decreases n - i,
        {
            self.objects[i].draw(canvas);
            i = i + 1;
        }
    }
}

/// The error reported when an imported document holds a malformed
/// shape: the index of the first such shape.
#[derive(Copy, Clone, Debug, PartialEq, Eq, Structural)]
pub struct StateParseError {
    pub index: usize,
}

/// Checks that a snapshot is well formed: at least two control points,
/// not absurdly many, all within the coordinate range.
pub fn core_check(core: &ShapeCore) -> (r: bool)
    ensures
        r == core@.wf(),
{
    let n: usize = core.points.len();
    if n < 2 {
        return false;
    }
    if n as u64 >= 0x1_0000_0000u64 {
        return false;
    }
    let mut i: usize = 0;
    while i < n
        invariant
            n == core@.points.len(),
            i <= n,
            forall|j: int| 0 <= j < i ==> pt_bounded(#[trigger] core@.points[j]),
        decreases n - i,
    {
        let q: Point = core.points[i];
        if q.0 < -32768 || q.0 > 32768 || q.1 < -32768 || q.1 > 32768 {
            return false;
        }
        i = i + 1;
    }
    true
}

/// The image after drawing the shapes from index `k` on, in order.
pub open spec fn draw_shapes_spec(
    s: Seq<crate::rgba::RGBA>,
    w: int,
    h: int,
    ms: Seq<ShapeView>,
    k: int,
) -> Seq<crate::rgba::RGBA>
    decreases ms.len() - k,
{
    if k < 0 || k >= ms.len() {
        s
    } else {
        draw_shapes_spec(shape_draw_spec(s, w, h, ms[k].core), w, h, ms, k + 1)
    }
}

/// Inserting an element and removing it again leaves a list unchanged.
proof fn lemma_insert_remove<A>(s: Seq<A>, i: int, v: A)
    requires
        0 <= i <= s.len(),
    ensures
        s.insert(i, v).remove(i) =~= s,
{
}

/// Removing an element and reinserting it leaves a list unchanged.
proof fn lemma_remove_insert<A>(s: Seq<A>, i: int)
    requires
        0 <= i < s.len(),
    ensures
        s.remove(i).insert(i, s[i]) =~= s,
{
}

/// Recording a mutation that does not coalesce appends it: the new
/// record becomes the last entry and the cursor moves past it, with
/// the oldest entry evicted at the cap.
proof fn lemma_push_append(h: Seq<RecModel>, c: int, r: RecModel)
    requires
        0 <= c <= h.len() <= 100,
        !(h.take(c).len() > 0 && coalesce_match(h.take(c).last(), r)),
    ensures
        push_rec(h, c, r).1 == push_rec(h, c, r).0.len(),
        1 <= push_rec(h, c, r).0.len() <= 100,
        push_rec(h, c, r).0.last() == r,
        push_rec(h, c, r).0.len() == (if c + 1 > 100 {
            100int
        } else {
            c + 1
        }),
{
    let h2 = h.take(c).push(r);
    assert(h2.last() == r);
    if h2.len() > 100 {
        assert(h2.drop_first().last() == h2[h2.len() - 1]);
    }
}

/// Recording a mutation that coalesces with the last record replaces
/// it in place: the log keeps its length and the cursor stays at its
/// end.
proof fn lemma_push_coalesce(h: Seq<RecModel>, c: int, r: RecModel)
    requires
        c == h.len(),
        1 <= h.len() <= 100,
        coalesce_match(h.last(), r),
    ensures
        push_rec(h, c, r).1 == push_rec(h, c, r).0.len(),
        push_rec(h, c, r).0.len() == h.len(),
        push_rec(h, c, r).0.last() == merge_rec(h.last(), r),
{
    assert(h.take(c) =~= h);
}

/// The undo log is bounded: recording any mutation leaves at most the
/// configured number of entries, with the cursor at the end — so at
/// most that many steps can ever be undone, and earlier records are
/// irrecoverable.
pub proof fn lemma_history_bounded(h: Seq<RecModel>, c: int, r: RecModel)
    requires
        0 <= c <= h.len() <= 100,
    ensures
        push_rec(h, c, r).0.len() <= 100,
        push_rec(h, c, r).1 == push_rec(h, c, r).0.len(),
{
    let h1 = h.take(c);
    if h1.len() > 0 && coalesce_match(h1.last(), r) {
    } else {
        let h2 = h1.push(r);
        if h2.len() > 100 {
        }
    }
}

/// Undoing a freshly recorded mutation restores the exact snapshot the
/// shape had before it, for every mutation variant on every shape
/// kind. This holds when the record did not coalesce with an earlier
/// one; a coalesced record restores the state before the whole run it
/// spans instead.
pub proof fn lemma_undo_after_update(
    m: Seq<ShapeView>,
    bg: RGBA,
    h: Seq<RecModel>,
    c: int,
    idx: int,
    op: OpModel,
)
    requires
        0 <= c <= h.len() <= 100,
        0 <= idx < m.len(),
        !(h.take(c).len() > 0 && coalesce_match(
            h.take(c).last(),
            RecModel::ShapeChange(idx, op, m[idx].core, apply_op(m[idx].core, op)),
        )),
    ensures
        ({
            let prev = m[idx].core;
            let rec = RecModel::ShapeChange(idx, op, prev, apply_op(prev, op));
            let pc = push_rec(h, c, rec);
            let m2 = m.update(idx, updated_view(m[idx], op));
            pc.1 == pc.0.len() >= 1 && pc.0.last() == rec && apply_undo(m2, bg, pc.0.last()).0.len()
                == m.len() && apply_undo(m2, bg, pc.0.last()).0[idx] == fresh_view(prev)
                && apply_undo(m2, bg, pc.0.last()).1 == bg
        }),
{
    let prev = m[idx].core;
    let rec = RecModel::ShapeChange(idx, op, prev, apply_op(prev, op));
    lemma_push_append(h, c, rec);
}

/// The snapshot after applying a run of moves, one after the other.
pub open spec fn moved_core(c0: CoreModel, deltas: Seq<Point>) -> CoreModel
    decreases deltas.len(),
{
    if deltas.len() == 0 {
        c0
    } else {
        moved_core(apply_basic_move(c0, deltas[0]), deltas.drop_first())
    }
}

/// The snapshot after one move.
pub open spec fn apply_basic_move(c: CoreModel, d: Point) -> CoreModel {
    crate::shape_core::apply_basic(c, OpModel::Move(d))
}

/// One store transition of a move mutation on the shape at `idx`:
/// exactly what `update_shape` does for a move, at the model level.
pub open spec fn move_step(
    m: Seq<ShapeView>,
    h: Seq<RecModel>,
    c: int,
    idx: int,
    d: Point,
) -> (Seq<ShapeView>, Seq<RecModel>, int) {
    let prev = m[idx].core;
    let post = apply_basic_move(prev, d);
    let m2 = m.update(idx, ShapeView { core: post, subt: m[idx].subt });
    let pc = push_rec(h, c, RecModel::ShapeChange(idx, OpModel::Move(d), prev, post));
    (m2, pc.0, pc.1)
}

/// The store after a run of consecutive moves of the same shape.
pub open spec fn apply_moves(
    m: Seq<ShapeView>,
    h: Seq<RecModel>,
    c: int,
    idx: int,
    deltas: Seq<Point>,
) -> (Seq<ShapeView>, Seq<RecModel>, int)
    decreases deltas.len(),
{
    if deltas.len() == 0 {
        (m, h, c)
    } else {
        let st = move_step(m, h, c, idx, deltas[0]);
        apply_moves(st.0, st.1, st.2, idx, deltas.drop_first())
    }
}

/// Once the last record is a move of the shape, every further move of
/// it coalesces: the log keeps its length and its last record spans
/// from the original snapshot to the latest one.
proof fn lemma_move_coalescing_cont(
    m: Seq<ShapeView>,
    h: Seq<RecModel>,
    c: int,
    idx: int,
    deltas: Seq<Point>,
    prev0: CoreModel,
    dp: Point,
)
    requires
        c == h.len(),
        1 <= h.len() <= 100,
        0 <= idx < m.len(),
        h.last() == RecModel::ShapeChange(idx, OpModel::Move(dp), prev0, m[idx].core),
    ensures
        ({
            let r = apply_moves(m, h, c, idx, deltas);
            r.2 == r.1.len() && r.1.len() == h.len() && r.0.len() == m.len() && r.0[idx].core
                == moved_core(m[idx].core, deltas) && r.1.last() == RecModel::ShapeChange(
                idx,
                OpModel::Move(
                    if deltas.len() == 0 {
                        dp
                    } else {
                        deltas.last()
                    },
                ),
                prev0,
                moved_core(m[idx].core, deltas),
            )
        }),
    decreases deltas.len(),
{
    if deltas.len() == 0 {
    } else {
        let d0 = deltas[0];
        let prev = m[idx].core;
        let post = apply_basic_move(prev, d0);
        let rec = RecModel::ShapeChange(idx, OpModel::Move(d0), prev, post);
        lemma_push_coalesce(h, c, rec);
        let st = move_step(m, h, c, idx, d0);
        assert(st.1.last() == RecModel::ShapeChange(idx, OpModel::Move(d0), prev0, post));
        assert(st.0[idx].core == post);
        lemma_move_coalescing_cont(st.0, st.1, st.2, idx, deltas.drop_first(), prev0, d0);
        if deltas.len() > 1 {
            assert(deltas.drop_first().last() == deltas.last());
        }
    }
}

/// Coalescing of drags: a run of consecutive moves of the same shape
/// adds exactly one history record, whose "before" side is the
/// snapshot before the first move and whose "after" side is the
/// snapshot after the last, and a single undo restores the snapshot
/// before the first move.
pub proof fn lemma_move_coalescing(
    m: Seq<ShapeView>,
    bg: RGBA,
    h: Seq<RecModel>,
    c: int,
    idx: int,
    deltas: Seq<Point>,
)
    requires
        0 <= c <= h.len() <= 100,
        0 <= idx < m.len(),
        deltas.len() >= 1,
        !(h.take(c).len() > 0 && coalesce_match(
            h.take(c).last(),
            RecModel::ShapeChange(
                idx,
                OpModel::Move(deltas[0]),
                m[idx].core,
                apply_basic_move(m[idx].core, deltas[0]),
            ),
        )),
    ensures
        ({
            let r = apply_moves(m, h, c, idx, deltas);
            r.2 == r.1.len() && r.1.len() == (if c + 1 > 100 {
                100int
            } else {
                c + 1
            }) && r.0.len() == m.len() && r.0[idx].core == moved_core(m[idx].core, deltas)
                && r.1.last() == RecModel::ShapeChange(
                idx,
                OpModel::Move(deltas.last()),
                m[idx].core,
                moved_core(m[idx].core, deltas),
            ) && apply_undo(r.0, bg, r.1.last()).0[idx] == fresh_view(m[idx].core) && apply_undo(
                r.0,
                bg,
                r.1.last(),
            ).1 == bg
        }),
{
    let d0 = deltas[0];
    let prev = m[idx].core;
    let post = apply_basic_move(prev, d0);
    let rec = RecModel::ShapeChange(idx, OpModel::Move(d0), prev, post);
    lemma_push_append(h, c, rec);
    let st = move_step(m, h, c, idx, d0);
    assert(st.0[idx].core == post);
    lemma_move_coalescing_cont(st.0, st.1, st.2, idx, deltas.drop_first(), prev, d0);
    if deltas.len() > 1 {
        assert(deltas.drop_first().last() == deltas.last());
    }
}

/// Reordering a shape and undoing the reorder restores the original
/// order with the original shapes.
pub proof fn lemma_reorder_then_undo(
    m: Seq<ShapeView>,
    bg: RGBA,
    h: Seq<RecModel>,
    c: int,
    from: int,
    to: int,
)
    requires
        0 <= c <= h.len() <= 100,
        0 <= from < m.len(),
        0 <= to < m.len(),
    ensures
        ({
            let rec = RecModel::IndexChange(from, to);
            let pc = push_rec(h, c, rec);
            let m2 = m.remove(from).insert(to, m[from]);
            pc.1 == pc.0.len() >= 1 && pc.0.last() == rec && apply_undo(m2, bg, rec).0 == m
                && apply_undo(m2, bg, rec).1 == bg
        }),
{
    let rec = RecModel::IndexChange(from, to);
    if h.take(c).len() > 0 {
        assert(!coalesce_match(h.take(c).last(), rec));
    }
    lemma_push_append(h, c, rec);
    let m2 = m.remove(from).insert(to, m[from]);
    assert(m2[to] == m[from]);
    lemma_insert_remove(m.remove(from), to, m[from]);
    assert(m2.remove(to) == m.remove(from));
    lemma_remove_insert(m, from);
    assert(apply_undo(m2, bg, rec).0 == m2.remove(to).insert(from, m2[to]));
    assert(m2.remove(to).insert(from, m2[to]) == m.remove(from).insert(from, m[from]));
}

} // verus!
