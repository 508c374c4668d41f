//! Reversible operations.
//!
//! Every edit the editor records is an [`Operation`]: a self-contained,
//! reversible change to world state with independent forward (`redo`) and
//! inverse (`undo`) effects.  The closed family has four variants — spawn,
//! despawn, transform, and a homogeneous composite batch — dispatched by
//! pattern matching.
//!
//! Each executable effect is pinned to a specification-level semantics
//! ([`op_redo_spec`], [`op_undo_spec`]) over [`WorldSnap`], the world's
//! mathematical reading; every contract and law below is stated over those
//! functions.

use vstd::prelude::*;

use crate::world::EditorWorld;
use crate::world::EntityState;
use crate::world::WorldSnap;

verus! {

/// Creates an entity on redo, destroys it on undo.  `entity_ref` is
/// reassigned on every redo, because destroying and recreating an entity
/// changes its identity.
#[derive(Clone, Copy, Debug, PartialEq, Eq, Structural)]
pub struct SpawnOp {
    pub entity_ref: u64,
    pub initial_state: EntityState,
}

/// Destroys an entity on redo, recreates it on undo from the snapshot taken
/// at despawn time.  `entity_ref` is reassigned on every undo.
#[derive(Clone, Copy, Debug, PartialEq, Eq, Structural)]
pub struct DespawnOp {
    pub entity_ref: u64,
    pub last_state: EntityState,
}

/// Rewrites an entity's state: forward to `new_state`, inverse to
/// `old_state`.  The entity's identity is stable; if the entity no longer
/// exists, both directions are tolerated no-ops.
#[derive(Clone, Copy, Debug, PartialEq, Eq, Structural)]
pub struct TransformOp {
    pub entity_ref: u64,
    pub old_state: EntityState,
    pub new_state: EntityState,
}

/// The operation kinds a composite batch can be built from.
#[derive(Clone, Copy, Debug, PartialEq, Eq, Structural)]
pub enum OpKind {
    Spawn,
    Despawn,
    Transform,
}

/// One element of a composite batch.
#[derive(Clone, Copy, Debug, PartialEq, Eq, Structural)]
pub enum BasicOp {
    Spawn(SpawnOp),
    Despawn(DespawnOp),
    Transform(TransformOp),
}

impl BasicOp {
    /// Which kind of edit this element is.
    pub open spec fn kind_of(self) -> OpKind {
        match self {
            BasicOp::Spawn(_) => OpKind::Spawn,
            BasicOp::Despawn(_) => OpKind::Despawn,
            BasicOp::Transform(_) => OpKind::Transform,
        }
    }
}

// ---------------------------------------------------------------------------
// Specification-level semantics
// ---------------------------------------------------------------------------

/// Forward effect of a spawn: create a fresh entity from the stored snapshot
/// and remember its identity.
pub open spec fn spawn_redo_spec(op: SpawnOp, w: WorldSnap) -> (SpawnOp, WorldSnap) {
    (
        SpawnOp { entity_ref: w.next as u64, initial_state: op.initial_state },
        WorldSnap { entities: w.entities.insert(w.next as u64, op.initial_state), next: w.next + 1 },
    )
}

/// Inverse effect of a spawn: destroy the entity it created.
pub open spec fn spawn_undo_spec(op: SpawnOp, w: WorldSnap) -> (SpawnOp, WorldSnap) {
    (op, WorldSnap { entities: w.entities.remove(op.entity_ref), next: w.next })
}

/// Forward effect of a despawn: destroy the entity.
pub open spec fn despawn_redo_spec(op: DespawnOp, w: WorldSnap) -> (DespawnOp, WorldSnap) {
    (op, WorldSnap { entities: w.entities.remove(op.entity_ref), next: w.next })
}

/// Inverse effect of a despawn: recreate the entity from the snapshot taken
/// at despawn time, under a fresh identity, and remember that identity.
pub open spec fn despawn_undo_spec(op: DespawnOp, w: WorldSnap) -> (DespawnOp, WorldSnap) {
    (
        DespawnOp { entity_ref: w.next as u64, last_state: op.last_state },
        WorldSnap { entities: w.entities.insert(w.next as u64, op.last_state), next: w.next + 1 },
    )
}

/// Forward effect of a transform: write `new_state`, skipped without error
/// if the entity no longer exists.
pub open spec fn transform_redo_spec(op: TransformOp, w: WorldSnap) -> (TransformOp, WorldSnap) {
    (
        op,
        WorldSnap {
            entities: if w.entities.contains_key(op.entity_ref) {
                w.entities.insert(op.entity_ref, op.new_state)
            } else {
                w.entities
            },
            next: w.next,
        },
    )
}

/// Inverse effect of a transform: write `old_state`, with the same
/// missing-entity tolerance.
pub open spec fn transform_undo_spec(op: TransformOp, w: WorldSnap) -> (TransformOp, WorldSnap) {
    (
        op,
        WorldSnap {
            entities: if w.entities.contains_key(op.entity_ref) {
                w.entities.insert(op.entity_ref, op.old_state)
            } else {
                w.entities
            },
            next: w.next,
        },
    )
}

/// Forward effect of one composite element.
pub open spec fn basic_redo_spec(e: BasicOp, w: WorldSnap) -> (BasicOp, WorldSnap) {
    match e {
        BasicOp::Spawn(op) => {
            let r = spawn_redo_spec(op, w);
            (BasicOp::Spawn(r.0), r.1)
        },
        BasicOp::Despawn(op) => {
            let r = despawn_redo_spec(op, w);
            (BasicOp::Despawn(r.0), r.1)
        },
        BasicOp::Transform(op) => {
            let r = transform_redo_spec(op, w);
            (BasicOp::Transform(r.0), r.1)
        },
    }
}

/// Inverse effect of one composite element.
pub open spec fn basic_undo_spec(e: BasicOp, w: WorldSnap) -> (BasicOp, WorldSnap) {
    match e {
        BasicOp::Spawn(op) => {
            let r = spawn_undo_spec(op, w);
            (BasicOp::Spawn(r.0), r.1)
        },
        BasicOp::Despawn(op) => {
            let r = despawn_undo_spec(op, w);
            (BasicOp::Despawn(r.0), r.1)
        },
        BasicOp::Transform(op) => {
            let r = transform_undo_spec(op, w);
            (BasicOp::Transform(r.0), r.1)
        },
    }
}

/// Forward effect of a whole element list, applied in recording order
/// (index 0 first).
pub open spec fn ops_redo_spec(es: Seq<BasicOp>, w: WorldSnap) -> (Seq<BasicOp>, WorldSnap)
    decreases es.len(),
{
    if es.len() == 0 {
        (es, w)
    } else {
        let front = ops_redo_spec(es.drop_last(), w);
        let la = basic_redo_spec(es.last(), front.1);
        (front.0.push(la.0), la.1)
    }
}

/// Inverse effect of a whole element list, also applied in recording order
/// (index 0 first); this symmetric ordering is deliberate and is what makes
/// an immediate redo retrace an undo exactly.
pub open spec fn ops_undo_spec(es: Seq<BasicOp>, w: WorldSnap) -> (Seq<BasicOp>, WorldSnap)
    decreases es.len(),
{
    if es.len() == 0 {
        (es, w)
    } else {
        let front = ops_undo_spec(es.drop_last(), w);
        let la = basic_undo_spec(es.last(), front.1);
        (front.0.push(la.0), la.1)
    }
}

// ---------------------------------------------------------------------------
// Identity budget
// ---------------------------------------------------------------------------

/// How many fresh identities this element's redo consumes.
pub open spec fn redo_creates(e: BasicOp) -> int {
    match e {
        BasicOp::Spawn(_) => 1,
        BasicOp::Despawn(_) => 0,
        BasicOp::Transform(_) => 0,
    }
}

/// How many fresh identities this element's undo consumes.
pub open spec fn undo_creates(e: BasicOp) -> int {
    match e {
        BasicOp::Spawn(_) => 0,
        BasicOp::Despawn(_) => 1,
        BasicOp::Transform(_) => 0,
    }
}

/// Fresh identities consumed by redoing a whole element list.
pub open spec fn list_redo_creates(es: Seq<BasicOp>) -> int
    decreases es.len(),
{
    if es.len() == 0 {
        0
    } else {
        redo_creates(es.first()) + list_redo_creates(es.drop_first())
    }
}

/// Fresh identities consumed by undoing a whole element list.
pub open spec fn list_undo_creates(es: Seq<BasicOp>) -> int
    decreases es.len(),
{
    if es.len() == 0 {
        0
    } else {
        undo_creates(es.first()) + list_undo_creates(es.drop_first())
    }
}

pub proof fn lemma_list_redo_creates_bounds(es: Seq<BasicOp>)
    ensures
        0 <= list_redo_creates(es) <= es.len(),
    decreases es.len(),
{
    if es.len() > 0 {
        lemma_list_redo_creates_bounds(es.drop_first());
    }
}

pub proof fn lemma_list_undo_creates_bounds(es: Seq<BasicOp>)
    ensures
        0 <= list_undo_creates(es) <= es.len(),
    decreases es.len(),
{
    if es.len() > 0 {
        lemma_list_undo_creates_bounds(es.drop_first());
    }
}

/// One redo step moves `next` up by exactly the identities it consumes, and
/// preserves well-formedness while the budget lasts.
pub proof fn lemma_basic_redo_shape(e: BasicOp, w: WorldSnap)
    ensures
        basic_redo_spec(e, w).1.next == w.next + redo_creates(e),
        w.wf() && w.next + redo_creates(e) <= u64::MAX ==> basic_redo_spec(e, w).1.wf(),
{
    match e {
        BasicOp::Spawn(op) => {
            if w.wf() && w.next + 1 <= u64::MAX {
                let r = spawn_redo_spec(op, w);
                assert forall|k: u64| r.1.entities.contains_key(k) implies k < r.1.next by {
                    if k != w.next as u64 {
                        assert(w.entities.contains_key(k));
                    }
                }
            }
        },
        BasicOp::Despawn(op) => {
            if w.wf() {
                assert forall|k: u64|
                    despawn_redo_spec(op, w).1.entities.contains_key(k) implies k < w.next by {
                    assert(w.entities.contains_key(k));
                }
            }
        },
        BasicOp::Transform(op) => {
            if w.wf() {
                assert forall|k: u64|
                    transform_redo_spec(op, w).1.entities.contains_key(k) implies k < w.next by {
                    if k != op.entity_ref {
                        assert(w.entities.contains_key(k));
                    } else {
                        assert(w.entities.contains_key(op.entity_ref));
                    }
                }
            }
        },
    }
}

/// One undo step, likewise.
pub proof fn lemma_basic_undo_shape(e: BasicOp, w: WorldSnap)
    ensures
        basic_undo_spec(e, w).1.next == w.next + undo_creates(e),
        w.wf() && w.next + undo_creates(e) <= u64::MAX ==> basic_undo_spec(e, w).1.wf(),
{
    match e {
        BasicOp::Spawn(op) => {
            if w.wf() {
                assert forall|k: u64|
                    spawn_undo_spec(op, w).1.entities.contains_key(k) implies k < w.next by {
                    assert(w.entities.contains_key(k));
                }
            }
        },
        BasicOp::Despawn(op) => {
            if w.wf() && w.next + 1 <= u64::MAX {
                let r = despawn_undo_spec(op, w);
                assert forall|k: u64| r.1.entities.contains_key(k) implies k < r.1.next by {
                    if k != w.next as u64 {
                        assert(w.entities.contains_key(k));
                    }
                }
            }
        },
        BasicOp::Transform(op) => {
            if w.wf() {
                assert forall|k: u64|
                    transform_undo_spec(op, w).1.entities.contains_key(k) implies k < w.next by {
                    if k != op.entity_ref {
                        assert(w.entities.contains_key(k));
                    } else {
                        assert(w.entities.contains_key(op.entity_ref));
                    }
                }
            }
        },
    }
}

// ---------------------------------------------------------------------------
// Executable leaf operations
// ---------------------------------------------------------------------------

impl SpawnOp {
    /// Apply the forward effect: create an entity from `initial_state` and
    /// store the resulting identity in `entity_ref`.
    pub fn redo(&mut self, world: &mut EditorWorld)
        requires
            old(world).wf(),
            old(world)@.next < u64::MAX,
        ensures
            final(world).wf(),
            (*final(self), final(world)@) == spawn_redo_spec(*old(self), old(world)@),
    {
        let id = world.create(self.initial_state);
        self.entity_ref = id;
    }

    /// Apply the inverse effect: destroy the entity this spawn created.
    pub fn undo(&mut self, world: &mut EditorWorld)
        requires
            old(world).wf(),
        ensures
            final(world).wf(),
            (*final(self), final(world)@) == spawn_undo_spec(*old(self), old(world)@),
    {
        world.destroy(self.entity_ref);
    }
}

impl DespawnOp {
    /// Apply the forward effect: destroy the entity.
    pub fn redo(&mut self, world: &mut EditorWorld)
        requires
            old(world).wf(),
        ensures
            final(world).wf(),
            (*final(self), final(world)@) == despawn_redo_spec(*old(self), old(world)@),
    {
        world.destroy(self.entity_ref);
    }

    /// Apply the inverse effect: recreate the entity from `last_state` and
    /// store the resulting fresh identity in `entity_ref`.
    pub fn undo(&mut self, world: &mut EditorWorld)
        requires
            old(world).wf(),
            old(world)@.next < u64::MAX,
        ensures
            final(world).wf(),
            (*final(self), final(world)@) == despawn_undo_spec(*old(self), old(world)@),
    {
        let id = world.create(self.last_state);
        self.entity_ref = id;
    }
}

impl TransformOp {
    /// Apply the forward effect: write `new_state`, skipped without error if
    /// the entity no longer exists.
    pub fn redo(&mut self, world: &mut EditorWorld)
        requires
            old(world).wf(),
        ensures
            final(world).wf(),
            (*final(self), final(world)@) == transform_redo_spec(*old(self), old(world)@),
    {
        world.set_state(self.entity_ref, self.new_state);
    }

    /// Apply the inverse effect: write `old_state`, with the same tolerance.
    pub fn undo(&mut self, world: &mut EditorWorld)
        requires
            old(world).wf(),
        ensures
            final(world).wf(),
            (*final(self), final(world)@) == transform_undo_spec(*old(self), old(world)@),
    {
        world.set_state(self.entity_ref, self.old_state);
    }
}

impl BasicOp {
    /// Apply the forward effect of this element.
    pub fn redo(&mut self, world: &mut EditorWorld)
        requires
            old(world).wf(),
            old(world)@.next + redo_creates(*old(self)) <= u64::MAX,
        ensures
            final(world).wf(),
            (*final(self), final(world)@) == basic_redo_spec(*old(self), old(world)@),
    {
        match self {
            BasicOp::Spawn(op) => op.redo(world),
            BasicOp::Despawn(op) => op.redo(world),
            BasicOp::Transform(op) => op.redo(world),
        }
    }

    /// Apply the inverse effect of this element.
    pub fn undo(&mut self, world: &mut EditorWorld)
        requires
            old(world).wf(),
            old(world)@.next + undo_creates(*old(self)) <= u64::MAX,
        ensures
            final(world).wf(),
            (*final(self), final(world)@) == basic_undo_spec(*old(self), old(world)@),
    {
        match self {
            BasicOp::Spawn(op) => op.undo(world),
            BasicOp::Despawn(op) => op.undo(world),
            BasicOp::Transform(op) => op.undo(world),
        }
    }
}

// ---------------------------------------------------------------------------
// Composite batches
// ---------------------------------------------------------------------------

/// All elements are of one kind: a composite is a homogeneous batch.
pub open spec fn uniform_kind(es: Seq<BasicOp>) -> bool {
    forall|i: int| 0 <= i < es.len() ==> (#[trigger] es[i]).kind_of() == es[0].kind_of()
}

/// A homogeneous batch of same-kind operations applied and undone as one
/// unit.  An empty composite is legal and is a no-op in both directions.
///
/// Undo and redo both iterate the elements in recording order (index 0
/// first); for order-dependent elements, correct inversion of a chain of
/// edits would normally visit them in reverse, so producers batching
/// dependent transforms of one entity should be aware that the last
/// element's inverse wins.
#[derive(Debug)]
pub struct CompositeOp {
    elems: Vec<BasicOp>,
}

impl CompositeOp {
    /// The element list this composite denotes.
    pub closed spec fn view(self) -> Seq<BasicOp> {
        self.elems@
    }

    /// The batch is homogeneous.
    pub open spec fn wf(self) -> bool {
        uniform_kind(self@)
    }

    /// An empty batch.
    pub fn new() -> (r: Self)
        ensures
            r@ == Seq::<BasicOp>::empty(),
            r.wf(),
    {
        let r = CompositeOp { elems: Vec::new() };
        proof {
            assert(r.elems@ =~= Seq::<BasicOp>::empty());
        }
        r
    }

    /// Append one element; elements of differing kinds cannot be mixed in
    /// one batch.
    pub fn add(&mut self, e: BasicOp)
        requires
            old(self).wf(),
            old(self)@.len() > 0 ==> e.kind_of() == old(self)@[0].kind_of(),
        ensures
            final(self)@ == old(self)@.push(e),
            final(self).wf(),
    {
        self.elems.push(e);
        proof {
            assert(final(self)@ =~= old(self)@.push(e));
        }
    }

    /// How many elements the batch holds.
    pub fn len(&self) -> (r: usize)
        ensures
            r == self@.len(),
    {
        self.elems.len()
    }

    /// The element at a position, for inspection.
    pub fn element_at(&self, i: usize) -> (r: &BasicOp)
        requires
            i < self@.len(),
        ensures
            *r == self@[i as int],
    {
        &self.elems[i]
    }

    /// A copy with the same elements, so a producer can record the batch
    /// while keeping the live one.
    pub fn duplicate(&self) -> (r: Self)
        ensures
            r@ == self@,
    {
        let n = self.elems.len();
        let mut out: Vec<BasicOp> = Vec::new();
        for i in 0..n
            invariant
                n == self.elems@.len(),
                out@ == self.elems@.subrange(0, i as int),
        {
            out.push(self.elems[i]);
            proof {
                assert(out@ =~= self.elems@.subrange(0, i + 1 as int));
            }
        }
        proof {
            assert(self.elems@.subrange(0, n as int) =~= self.elems@);
        }
        CompositeOp { elems: out }
    }

    /// Apply the forward effect of every element, in recording order.
    pub fn redo(&mut self, world: &mut EditorWorld)
        requires
            old(world).wf(),
            old(world)@.next + list_redo_creates(old(self)@) <= u64::MAX,
        ensures
            final(world).wf(),
            (final(self)@, final(world)@) == ops_redo_spec(old(self)@, old(world)@),
    {
        let ghost es0 = self.elems@;
        let ghost w0 = old(world)@;
        let n = self.elems.len();
        proof {
            assert(es0.subrange(0, n as int) =~= es0);
        }
        for i in 0..n
            invariant
                n == self.elems@.len(),
                es0.len() == n,
                world.wf(),
                forall|j: int| i <= j < n ==> self.elems@[j] == es0[j],
                (self.elems@.subrange(0, i as int), world@)
                    == ops_redo_spec(es0.subrange(0, i as int), w0),
                world@.next + list_redo_creates(es0.subrange(i as int, n as int)) <= u64::MAX,
        {
            proof {
                lemma_creates_peel_redo(es0, i as int, n as int);
                assert(self.elems@[i as int] == es0[i as int]);
            }
            let e = &mut self.elems[i];
            e.redo(world);
            proof {
                lemma_basic_redo_shape(es0[i as int], ops_redo_spec(es0.subrange(0, i as int), w0).1);
                assert(es0.subrange(0, i + 1 as int).drop_last() =~= es0.subrange(0, i as int));
                assert(es0.subrange(0, i + 1 as int).last() == es0[i as int]);
                assert(self.elems@.subrange(0, i + 1 as int)
                    =~= ops_redo_spec(es0.subrange(0, i as int), w0).0.push(self.elems@[i as int]));
            }
        }
        proof {
            assert(es0.subrange(0, n as int) =~= es0);
            assert(self.elems@.subrange(0, n as int) =~= self.elems@);
        }
    }

    /// Apply the inverse effect of every element, in recording order.
    pub fn undo(&mut self, world: &mut EditorWorld)
        requires
            old(world).wf(),
            old(world)@.next + list_undo_creates(old(self)@) <= u64::MAX,
        ensures
            final(world).wf(),
            (final(self)@, final(world)@) == ops_undo_spec(old(self)@, old(world)@),
    {
        let ghost es0 = self.elems@;
        let ghost w0 = old(world)@;
        let n = self.elems.len();
        proof {
            assert(es0.subrange(0, n as int) =~= es0);
        }
        for i in 0..n
            invariant
                n == self.elems@.len(),
                es0.len() == n,
                world.wf(),
                forall|j: int| i <= j < n ==> self.elems@[j] == es0[j],
                (self.elems@.subrange(0, i as int), world@)
                    == ops_undo_spec(es0.subrange(0, i as int), w0),
                world@.next + list_undo_creates(es0.subrange(i as int, n as int)) <= u64::MAX,
        {
            proof {
                lemma_creates_peel_undo(es0, i as int, n as int);
                assert(self.elems@[i as int] == es0[i as int]);
            }
            let e = &mut self.elems[i];
            e.undo(world);
            proof {
                lemma_basic_undo_shape(es0[i as int], ops_undo_spec(es0.subrange(0, i as int), w0).1);
                assert(es0.subrange(0, i + 1 as int).drop_last() =~= es0.subrange(0, i as int));
                assert(es0.subrange(0, i + 1 as int).last() == es0[i as int]);
                assert(self.elems@.subrange(0, i + 1 as int)
                    =~= ops_undo_spec(es0.subrange(0, i as int), w0).0.push(self.elems@[i as int]));
            }
        }
        proof {
            assert(es0.subrange(0, n as int) =~= es0);
            assert(self.elems@.subrange(0, n as int) =~= self.elems@);
        }
    }
}

/// Peeling the element at `i` off the remaining budget.
proof fn lemma_creates_peel_redo(es: Seq<BasicOp>, i: int, n: int)
    requires
        0 <= i < n,
        n == es.len(),
    ensures
        list_redo_creates(es.subrange(i, n))
            == redo_creates(es[i]) + list_redo_creates(es.subrange(i + 1, n)),
        0 <= list_redo_creates(es.subrange(i + 1, n)),
{
    assert(es.subrange(i, n).first() == es[i]);
    assert(es.subrange(i, n).drop_first() =~= es.subrange(i + 1, n));
    lemma_list_redo_creates_bounds(es.subrange(i + 1, n));
}

/// Peeling the element at `i` off the remaining budget.
proof fn lemma_creates_peel_undo(es: Seq<BasicOp>, i: int, n: int)
    requires
        0 <= i < n,
        n == es.len(),
    ensures
        list_undo_creates(es.subrange(i, n))
            == undo_creates(es[i]) + list_undo_creates(es.subrange(i + 1, n)),
        0 <= list_undo_creates(es.subrange(i + 1, n)),
{
    assert(es.subrange(i, n).first() == es[i]);
    assert(es.subrange(i, n).drop_first() =~= es.subrange(i + 1, n));
    lemma_list_undo_creates_bounds(es.subrange(i + 1, n));
}

// ---------------------------------------------------------------------------
// The full operation family
// ---------------------------------------------------------------------------

/// What an [`Operation`] denotes: the same family with the composite's
/// element list read as a sequence.
pub enum OpView {
    Spawn(SpawnOp),
    Despawn(DespawnOp),
    Transform(TransformOp),
    Composite(Seq<BasicOp>),
}

/// A reversible edit of any kind: the polymorphic operation the change log
/// records.
#[derive(Debug)]
pub enum Operation {
    Spawn(SpawnOp),
    Despawn(DespawnOp),
    Transform(TransformOp),
    Composite(CompositeOp),
}

/// Fresh identities a forward application consumes.
pub open spec fn op_redo_creates(v: OpView) -> int {
    match v {
        OpView::Spawn(_) => 1,
        OpView::Despawn(_) => 0,
        OpView::Transform(_) => 0,
        OpView::Composite(es) => list_redo_creates(es),
    }
}

/// Fresh identities an inverse application consumes.
pub open spec fn op_undo_creates(v: OpView) -> int {
    match v {
        OpView::Spawn(_) => 0,
        OpView::Despawn(_) => 1,
        OpView::Transform(_) => 0,
        OpView::Composite(es) => list_undo_creates(es),
    }
}

/// Forward effect of an operation of any kind.
pub open spec fn op_redo_spec(v: OpView, w: WorldSnap) -> (OpView, WorldSnap) {
    match v {
        OpView::Spawn(op) => {
            let r = spawn_redo_spec(op, w);
            (OpView::Spawn(r.0), r.1)
        },
        OpView::Despawn(op) => {
            let r = despawn_redo_spec(op, w);
            (OpView::Despawn(r.0), r.1)
        },
        OpView::Transform(op) => {
            let r = transform_redo_spec(op, w);
            (OpView::Transform(r.0), r.1)
        },
        OpView::Composite(es) => {
            let r = ops_redo_spec(es, w);
            (OpView::Composite(r.0), r.1)
        },
    }
}

/// Inverse effect of an operation of any kind.
pub open spec fn op_undo_spec(v: OpView, w: WorldSnap) -> (OpView, WorldSnap) {
    match v {
        OpView::Spawn(op) => {
            let r = spawn_undo_spec(op, w);
            (OpView::Spawn(r.0), r.1)
        },
        OpView::Despawn(op) => {
            let r = despawn_undo_spec(op, w);
            (OpView::Despawn(r.0), r.1)
        },
        OpView::Transform(op) => {
            let r = transform_undo_spec(op, w);
            (OpView::Transform(r.0), r.1)
        },
        OpView::Composite(es) => {
            let r = ops_undo_spec(es, w);
            (OpView::Composite(r.0), r.1)
        },
    }
}

impl Operation {
    /// What this operation denotes.
    pub open spec fn view(self) -> OpView {
        match self {
            Operation::Spawn(op) => OpView::Spawn(op),
            Operation::Despawn(op) => OpView::Despawn(op),
            Operation::Transform(op) => OpView::Transform(op),
            Operation::Composite(c) => OpView::Composite(c@),
        }
    }

    /// Apply the forward effect.
    pub fn redo(&mut self, world: &mut EditorWorld)
        requires
            old(world).wf(),
            old(world)@.next + op_redo_creates(old(self)@) <= u64::MAX,
        ensures
            final(world).wf(),
            (final(self)@, final(world)@) == op_redo_spec(old(self)@, old(world)@),
    {
        match self {
            Operation::Spawn(op) => op.redo(world),
            Operation::Despawn(op) => op.redo(world),
            Operation::Transform(op) => op.redo(world),
            Operation::Composite(c) => c.redo(world),
        }
    }

    /// Apply the inverse effect.
    pub fn undo(&mut self, world: &mut EditorWorld)
        requires
            old(world).wf(),
            old(world)@.next + op_undo_creates(old(self)@) <= u64::MAX,
        ensures
            final(world).wf(),
            (final(self)@, final(world)@) == op_undo_spec(old(self)@, old(world)@),
    {
        match self {
            Operation::Spawn(op) => op.undo(world),
            Operation::Despawn(op) => op.undo(world),
            Operation::Transform(op) => op.undo(world),
            Operation::Composite(c) => c.undo(world),
        }
    }

    /// A copy that denotes the same edit, so a producer can record through a
    /// shared reference without giving up the live operation.
    pub fn duplicate(&self) -> (r: Self)
        ensures
            r@ == self@,
    {
        match self {
            Operation::Spawn(op) => Operation::Spawn(*op),
            Operation::Despawn(op) => Operation::Despawn(*op),
            Operation::Transform(op) => Operation::Transform(*op),
            Operation::Composite(c) => Operation::Composite(c.duplicate()),
        }
    }
}

} // verus!
