//! The guarantees the library makes as a whole.
//!
//! Each proof function here states one law of the reversible-operation log
//! over the specification-level semantics that the executable contracts are
//! pinned to, and Verus proves it.  Where an effect assigns a fresh entity
//! identity (recreating a spawned or despawned entity), a world cannot come
//! back bit-for-bit — the recreated entity carries a new identity — so those
//! laws state the exact shape of the result: the same states, with the
//! affected entity renamed to a fresh identity.

use vstd::prelude::*;

use crate::changelog::log_record_spec;
use crate::changelog::log_redo_spec;
use crate::changelog::log_undo_spec;
use crate::changelog::LogSnap;
use crate::ops::basic_redo_spec;
use crate::ops::basic_undo_spec;
use crate::ops::despawn_redo_spec;
use crate::ops::despawn_undo_spec;
use crate::ops::op_undo_spec;
use crate::ops::ops_redo_spec;
use crate::ops::ops_undo_spec;
use crate::ops::spawn_redo_spec;
use crate::ops::spawn_undo_spec;
use crate::ops::transform_redo_spec;
use crate::ops::transform_undo_spec;
use crate::ops::BasicOp;
use crate::ops::DespawnOp;
use crate::ops::OpView;
use crate::ops::SpawnOp;
use crate::ops::TransformOp;
use crate::world::WorldSnap;

verus! {

// ---------------------------------------------------------------------------
// Round trips of single operations
// ---------------------------------------------------------------------------

/// Redoing a spawn and then undoing it restores the starting entities
/// exactly: the entity created is fresh, and the undo destroys precisely it.
pub proof fn lemma_spawn_redo_undo(op: SpawnOp, w: WorldSnap)
    requires
        w.wf(),
    ensures
        spawn_undo_spec(spawn_redo_spec(op, w).0, spawn_redo_spec(op, w).1).1.entities
            == w.entities,
        spawn_undo_spec(spawn_redo_spec(op, w).0, spawn_redo_spec(op, w).1).1.next == w.next + 1,
{
    let k = w.next as u64;
    assert(!w.entities.contains_key(k));
    assert(w.entities.insert(k, op.initial_state).remove(k) =~= w.entities);
}

/// Undoing a despawn and then redoing it restores the starting entities
/// exactly: the undo recreates the entity under a fresh identity, and the
/// redo destroys precisely that recreated entity.
pub proof fn lemma_despawn_undo_redo(op: DespawnOp, w: WorldSnap)
    requires
        w.wf(),
    ensures
        despawn_redo_spec(despawn_undo_spec(op, w).0, despawn_undo_spec(op, w).1).1.entities
            == w.entities,
        despawn_redo_spec(despawn_undo_spec(op, w).0, despawn_undo_spec(op, w).1).1.next
            == w.next + 1,
{
    let k = w.next as u64;
    assert(!w.entities.contains_key(k));
    assert(w.entities.insert(k, op.last_state).remove(k) =~= w.entities);
}

/// Redoing a despawn and then undoing it restores the despawned entity's
/// state under a fresh identity: the world holds the same states as before,
/// with that one entity renamed.
pub proof fn lemma_despawn_redo_undo(op: DespawnOp, w: WorldSnap)
    requires
        w.wf(),
        w.entities.contains_key(op.entity_ref),
        w.entities[op.entity_ref] == op.last_state,
    ensures
        !w.entities.contains_key(w.next as u64),
        despawn_undo_spec(despawn_redo_spec(op, w).0, despawn_redo_spec(op, w).1).1.entities
            == w.entities.remove(op.entity_ref).insert(w.next as u64, w.entities[op.entity_ref]),
{
    assert(!w.entities.contains_key(w.next as u64));
}

/// Undoing a spawn and then redoing it recreates the spawned entity's state
/// under a fresh identity, likewise.
pub proof fn lemma_spawn_undo_redo(op: SpawnOp, w: WorldSnap)
    requires
        w.wf(),
        w.entities.contains_key(op.entity_ref),
        w.entities[op.entity_ref] == op.initial_state,
    ensures
        !w.entities.contains_key(w.next as u64),
        spawn_redo_spec(spawn_undo_spec(op, w).0, spawn_undo_spec(op, w).1).1.entities
            == w.entities.remove(op.entity_ref).insert(w.next as u64, w.entities[op.entity_ref]),
{
    assert(!w.entities.contains_key(w.next as u64));
}

/// Redoing a transform and then undoing it restores the starting world
/// exactly, provided the stored `old_state` is the entity's current state —
/// which is how a producer snapshots it — or the entity is gone.
pub proof fn lemma_transform_redo_undo(op: TransformOp, w: WorldSnap)
    requires
        w.entities.contains_key(op.entity_ref) ==> w.entities[op.entity_ref] == op.old_state,
    ensures
        transform_undo_spec(op, transform_redo_spec(op, w).1).1 == w,
{
    if w.entities.contains_key(op.entity_ref) {
        assert(w.entities.insert(op.entity_ref, op.new_state).insert(
            op.entity_ref,
            op.old_state,
        ) =~= w.entities);
    }
}

/// Undoing a transform and then redoing it restores the starting world
/// exactly, provided the stored `new_state` is the entity's current state —
/// which holds whenever the transform's forward effect is the one visible —
/// or the entity is gone.
pub proof fn lemma_transform_undo_redo(op: TransformOp, w: WorldSnap)
    requires
        w.entities.contains_key(op.entity_ref) ==> w.entities[op.entity_ref] == op.new_state,
    ensures
        transform_redo_spec(op, transform_undo_spec(op, w).1).1 == w,
{
    if w.entities.contains_key(op.entity_ref) {
        assert(w.entities.insert(op.entity_ref, op.old_state).insert(
            op.entity_ref,
            op.new_state,
        ) =~= w.entities);
    }
}

// ---------------------------------------------------------------------------
// Laws of the log
// ---------------------------------------------------------------------------

/// Cursor bounds: recording, undoing and redoing each keep the cursor within
/// `[0, history.len()]`, so the bound holds after any sequence of calls.
pub proof fn lemma_cursor_bounds(l: LogSnap, w: WorldSnap, v: OpView)
    requires
        l.wf(),
    ensures
        log_record_spec(l, v).wf(),
        log_undo_spec(l, w).0.wf(),
        log_redo_spec(l, w).0.wf(),
{
}

/// Recording resets the cursor to the head: after `record(op)` the cursor
/// equals the history's length, and a subsequent `undo` reports `true`,
/// applies exactly `op`'s inverse effect to the world, and leaves the
/// history as it was with `op` (as rewritten by its own undo) at the end.
pub proof fn lemma_record_then_undo(l: LogSnap, w: WorldSnap, v: OpView)
    requires
        l.wf(),
    ensures
        log_record_spec(l, v).cursor == log_record_spec(l, v).history.len(),
        log_undo_spec(log_record_spec(l, v), w).2,
        log_undo_spec(log_record_spec(l, v), w).1 == op_undo_spec(v, w).1,
        log_undo_spec(log_record_spec(l, v), w).0.cursor == l.history.len(),
        log_undo_spec(log_record_spec(l, v), w).0.history
            == l.history.push(op_undo_spec(v, w).0),
{
    let l1 = log_record_spec(l, v);
    assert(l1.history[l1.cursor - 1] == v);
    assert(l1.history.update(l1.cursor - 1, op_undo_spec(v, w).0)
        =~= l.history.push(op_undo_spec(v, w).0));
}

/// Composite atomicity: a single `undo` on a composite entry applies the
/// inverse effect of every element, while the cursor retreats by exactly one
/// slot regardless of how many elements the composite holds.
pub proof fn lemma_composite_atomicity(l: LogSnap, w: WorldSnap, es: Seq<BasicOp>)
    requires
        l.wf(),
        l.cursor > 0,
        l.history[l.cursor - 1] == OpView::Composite(es),
    ensures
        log_undo_spec(l, w).2,
        log_undo_spec(l, w).0.cursor == l.cursor - 1,
        log_undo_spec(l, w).0.history.len() == l.history.len(),
        log_undo_spec(l, w).1 == ops_undo_spec(es, w).1,
{
}

/// Undo-redo symmetry, the bookkeeping half: an `undo` immediately followed
/// by a `redo`, with no intervening `record`, targets the same slot and
/// restores the cursor and the history's length; both calls report `true`.
pub proof fn lemma_undo_redo_cursor(l: LogSnap, w: WorldSnap)
    requires
        l.wf(),
        l.cursor > 0,
    ensures
        log_undo_spec(l, w).2,
        log_redo_spec(log_undo_spec(l, w).0, log_undo_spec(l, w).1).2,
        log_redo_spec(log_undo_spec(l, w).0, log_undo_spec(l, w).1).0.cursor == l.cursor,
        log_redo_spec(log_undo_spec(l, w).0, log_undo_spec(l, w).1).0.history.len()
            == l.history.len(),
{
}

/// Undo-redo symmetry for a despawn entry: the redo destroys exactly the
/// entity the undo recreated, so the world comes back bit-for-bit.
pub proof fn lemma_undo_redo_world_despawn(l: LogSnap, w: WorldSnap, op: DespawnOp)
    requires
        l.wf(),
        w.wf(),
        l.cursor > 0,
        l.history[l.cursor - 1] == OpView::Despawn(op),
    ensures
        log_redo_spec(log_undo_spec(l, w).0, log_undo_spec(l, w).1).1.entities == w.entities,
{
    lemma_despawn_undo_redo(op, w);
}

/// Undo-redo symmetry for a transform entry whose forward effect is the one
/// currently visible (or whose entity is gone): the world comes back
/// bit-for-bit.
pub proof fn lemma_undo_redo_world_transform(l: LogSnap, w: WorldSnap, op: TransformOp)
    requires
        l.wf(),
        l.cursor > 0,
        l.history[l.cursor - 1] == OpView::Transform(op),
        w.entities.contains_key(op.entity_ref) ==> w.entities[op.entity_ref] == op.new_state,
    ensures
        log_redo_spec(log_undo_spec(l, w).0, log_undo_spec(l, w).1).1.entities == w.entities,
{
    lemma_transform_undo_redo(op, w);
}

// ---------------------------------------------------------------------------
// Round trips of composite batches
// ---------------------------------------------------------------------------

/// The entity reference an element carries.
pub open spec fn ref_of(e: BasicOp) -> u64 {
    match e {
        BasicOp::Spawn(op) => op.entity_ref,
        BasicOp::Despawn(op) => op.entity_ref,
        BasicOp::Transform(op) => op.entity_ref,
    }
}

/// Some element of the list refers to this entity.
pub open spec fn has_ref(es: Seq<BasicOp>, k: u64) -> bool {
    exists|i: int| 0 <= i < es.len() && ref_of(#[trigger] es[i]) == k
}

/// Every element is a spawn.
pub open spec fn all_spawns(es: Seq<BasicOp>) -> bool {
    forall|i: int| 0 <= i < es.len() ==> (#[trigger] es[i]) is Spawn
}

/// Every element is a despawn.
pub open spec fn all_despawns(es: Seq<BasicOp>) -> bool {
    forall|i: int| 0 <= i < es.len() ==> (#[trigger] es[i]) is Despawn
}

/// `has_ref` over a list split into its front and its last element.
proof fn lemma_has_ref_split(es: Seq<BasicOp>, k: u64)
    requires
        es.len() > 0,
    ensures
        has_ref(es, k) <==> (has_ref(es.drop_last(), k) || ref_of(es.last()) == k),
{
    if has_ref(es, k) {
        let i = choose|i: int| 0 <= i < es.len() && ref_of(#[trigger] es[i]) == k;
        if i < es.len() - 1 {
            assert(es.drop_last()[i] == es[i]);
        }
    }
    if has_ref(es.drop_last(), k) {
        let i = choose|i: int| 0 <= i < es.drop_last().len() && ref_of(#[trigger] es.drop_last()[i]) == k;
        assert(ref_of(es[i]) == k);
    }
    if ref_of(es.last()) == k {
        assert(ref_of(es[es.len() - 1]) == k);
    }
}

/// What undoing a spawn batch does: the element list and the counter are
/// untouched, and exactly the referred-to entities disappear.
proof fn lemma_spawn_batch_undo_chars(es: Seq<BasicOp>, w: WorldSnap)
    requires
        all_spawns(es),
    ensures
        ops_undo_spec(es, w).0 == es,
        ops_undo_spec(es, w).1.next == w.next,
        forall|k: u64|
            #[trigger] ops_undo_spec(es, w).1.entities.contains_key(k)
                <==> (w.entities.contains_key(k) && !has_ref(es, k)),
        forall|k: u64|
            ops_undo_spec(es, w).1.entities.contains_key(k)
                ==> #[trigger] ops_undo_spec(es, w).1.entities[k] == w.entities[k],
    decreases es.len(),
{
    if es.len() == 0 {
        assert forall|k: u64| !has_ref(es, k) by {}
    } else {
        let front = es.drop_last();
        assert(all_spawns(front));
        lemma_spawn_batch_undo_chars(front, w);
        let fu = ops_undo_spec(front, w);
        assert(es.last() is Spawn);
        assert(ops_undo_spec(es, w).0 =~= es);
        assert(ops_undo_spec(es, w).1 == basic_undo_spec(es.last(), fu.1).1);
        assert forall|k: u64|
            #[trigger] ops_undo_spec(es, w).1.entities.contains_key(k)
                <==> (w.entities.contains_key(k) && !has_ref(es, k)) by {
            lemma_has_ref_split(es, k);
        }
    }
}

/// What redoing a spawn batch does: element `i` is rewritten to refer to the
/// fresh identity `w.next + i`, exactly those identities appear, carrying
/// the elements' initial states, and every pre-existing entity keeps its
/// state.
proof fn lemma_spawn_batch_redo_chars(es: Seq<BasicOp>, w: WorldSnap)
    requires
        all_spawns(es),
        w.wf(),
        w.next + es.len() <= u64::MAX,
    ensures
        ops_redo_spec(es, w).0.len() == es.len(),
        all_spawns(ops_redo_spec(es, w).0),
        forall|i: int|
            0 <= i < es.len() ==> ref_of(#[trigger] ops_redo_spec(es, w).0[i]) == (w.next + i) as u64,
        ops_redo_spec(es, w).1.next == w.next + es.len(),
        ops_redo_spec(es, w).1.wf(),
        forall|k: u64|
            #[trigger] ops_redo_spec(es, w).1.entities.contains_key(k)
                <==> (w.entities.contains_key(k) || w.next <= k < w.next + es.len()),
        forall|k: u64|
            w.entities.contains_key(k)
                ==> #[trigger] ops_redo_spec(es, w).1.entities[k] == w.entities[k],
    decreases es.len(),
{
    if es.len() > 0 {
        let front = es.drop_last();
        assert(all_spawns(front));
        lemma_spawn_batch_redo_chars(front, w);
        let fr = ops_redo_spec(front, w);
        assert(es.last() is Spawn);
        let k_new = fr.1.next as u64;
        assert(k_new == w.next + front.len());
        assert forall|k: u64| w.entities.contains_key(k)
            implies #[trigger] ops_redo_spec(es, w).1.entities[k] == w.entities[k] by {
            assert(k < w.next);
            assert(k != k_new);
        }
        assert forall|i: int| 0 <= i < es.len()
            implies ref_of(#[trigger] ops_redo_spec(es, w).0[i]) == (w.next + i) as u64 by {
            if i < es.len() - 1 {
                assert(ops_redo_spec(es, w).0[i] == fr.0[i]);
            }
        }
    }
}

/// Round trip of a spawn batch: redoing a composite of spawns and then
/// undoing it restores the starting entities exactly — every entity the
/// batch created is fresh, and the undo destroys precisely those.
pub proof fn lemma_spawn_batch_redo_undo(es: Seq<BasicOp>, w: WorldSnap)
    requires
        all_spawns(es),
        w.wf(),
        w.next + es.len() <= u64::MAX,
    ensures
        ops_undo_spec(ops_redo_spec(es, w).0, ops_redo_spec(es, w).1).1.entities == w.entities,
        ops_undo_spec(ops_redo_spec(es, w).0, ops_redo_spec(es, w).1).1.next
            == w.next + es.len(),
{
    lemma_spawn_batch_redo_chars(es, w);
    let rs = ops_redo_spec(es, w);
    lemma_spawn_batch_undo_chars(rs.0, rs.1);
    assert forall|k: u64| has_ref(rs.0, k) implies w.next <= k < w.next + es.len() by {
        let i = choose|i: int| 0 <= i < rs.0.len() && ref_of(#[trigger] rs.0[i]) == k;
    }
    assert forall|k: u64| w.next <= k < w.next + es.len() implies has_ref(rs.0, k) by {
        let i = k - w.next;
        assert(ref_of(rs.0[i]) == (w.next + i) as u64);
    }
    assert(ops_undo_spec(rs.0, rs.1).1.entities =~= w.entities);
}

/// What undoing a despawn batch does: element `i` is rewritten to refer to
/// the fresh identity `w.next + i` it recreated, exactly those identities
/// appear, and every pre-existing entity keeps its state.
proof fn lemma_despawn_batch_undo_chars(es: Seq<BasicOp>, w: WorldSnap)
    requires
        all_despawns(es),
        w.wf(),
        w.next + es.len() <= u64::MAX,
    ensures
        ops_undo_spec(es, w).0.len() == es.len(),
        all_despawns(ops_undo_spec(es, w).0),
        forall|i: int|
            0 <= i < es.len() ==> ref_of(#[trigger] ops_undo_spec(es, w).0[i]) == (w.next + i) as u64,
        ops_undo_spec(es, w).1.next == w.next + es.len(),
        ops_undo_spec(es, w).1.wf(),
        forall|k: u64|
            #[trigger] ops_undo_spec(es, w).1.entities.contains_key(k)
                <==> (w.entities.contains_key(k) || w.next <= k < w.next + es.len()),
        forall|k: u64|
            w.entities.contains_key(k)
                ==> #[trigger] ops_undo_spec(es, w).1.entities[k] == w.entities[k],
    decreases es.len(),
{
    if es.len() > 0 {
        let front = es.drop_last();
        assert(all_despawns(front));
        lemma_despawn_batch_undo_chars(front, w);
        let fu = ops_undo_spec(front, w);
        assert(es.last() is Despawn);
        let k_new = fu.1.next as u64;
        assert(k_new == w.next + front.len());
        assert forall|k: u64| w.entities.contains_key(k)
            implies #[trigger] ops_undo_spec(es, w).1.entities[k] == w.entities[k] by {
            assert(k < w.next);
            assert(k != k_new);
        }
        assert forall|i: int| 0 <= i < es.len()
            implies ref_of(#[trigger] ops_undo_spec(es, w).0[i]) == (w.next + i) as u64 by {
            if i < es.len() - 1 {
                assert(ops_undo_spec(es, w).0[i] == fu.0[i]);
            }
        }
    }
}

/// What redoing a despawn batch does: the element list and the counter are
/// untouched, and exactly the referred-to entities disappear.
proof fn lemma_despawn_batch_redo_chars(es: Seq<BasicOp>, w: WorldSnap)
    requires
        all_despawns(es),
    ensures
        ops_redo_spec(es, w).0 == es,
        ops_redo_spec(es, w).1.next == w.next,
        forall|k: u64|
            #[trigger] ops_redo_spec(es, w).1.entities.contains_key(k)
                <==> (w.entities.contains_key(k) && !has_ref(es, k)),
        forall|k: u64|
            ops_redo_spec(es, w).1.entities.contains_key(k)
                ==> #[trigger] ops_redo_spec(es, w).1.entities[k] == w.entities[k],
    decreases es.len(),
{
    if es.len() == 0 {
        assert forall|k: u64| !has_ref(es, k) by {}
    } else {
        let front = es.drop_last();
        assert(all_despawns(front));
        lemma_despawn_batch_redo_chars(front, w);
        let fr = ops_redo_spec(front, w);
        assert(es.last() is Despawn);
        assert(ops_redo_spec(es, w).0 =~= es);
        assert(ops_redo_spec(es, w).1 == basic_redo_spec(es.last(), fr.1).1);
        assert forall|k: u64|
            #[trigger] ops_redo_spec(es, w).1.entities.contains_key(k)
                <==> (w.entities.contains_key(k) && !has_ref(es, k)) by {
            lemma_has_ref_split(es, k);
        }
    }
}

/// Round trip of a despawn batch: undoing a composite of despawns and then
/// redoing it restores the starting entities exactly — the undo recreated
/// every entity under a fresh identity, and the redo destroys precisely
/// those.
pub proof fn lemma_despawn_batch_undo_redo(es: Seq<BasicOp>, w: WorldSnap)
    requires
        all_despawns(es),
        w.wf(),
        w.next + es.len() <= u64::MAX,
    ensures
        ops_redo_spec(ops_undo_spec(es, w).0, ops_undo_spec(es, w).1).1.entities == w.entities,
        ops_redo_spec(ops_undo_spec(es, w).0, ops_undo_spec(es, w).1).1.next
            == w.next + es.len(),
{
    lemma_despawn_batch_undo_chars(es, w);
    let us = ops_undo_spec(es, w);
    lemma_despawn_batch_redo_chars(us.0, us.1);
    assert forall|k: u64| has_ref(us.0, k) implies w.next <= k < w.next + es.len() by {
        let i = choose|i: int| 0 <= i < us.0.len() && ref_of(#[trigger] us.0[i]) == k;
    }
    assert forall|k: u64| w.next <= k < w.next + es.len() implies has_ref(us.0, k) by {
        let i = k - w.next;
        assert(ref_of(us.0[i]) == (w.next + i) as u64);
    }
    assert(ops_redo_spec(us.0, us.1).1.entities =~= w.entities);
}

/// Every element is a transform.
pub open spec fn all_transforms(es: Seq<BasicOp>) -> bool {
    forall|i: int| 0 <= i < es.len() ==> (#[trigger] es[i]) is Transform
}

/// No two elements refer to the same entity.
pub open spec fn distinct_refs(es: Seq<BasicOp>) -> bool {
    forall|i: int, j: int|
        0 <= i < es.len() && 0 <= j < es.len() && i != j ==> ref_of(es[i]) != ref_of(es[j])
}

/// The transform an element carries.
pub open spec fn transform_of(e: BasicOp) -> TransformOp {
    match e {
        BasicOp::Transform(op) => op,
        _ => arbitrary(),
    }
}

/// What redoing a transform batch over distinct entities does: the element
/// list, the counter and the entity population are untouched; each referred,
/// still-existing entity now carries its element's `new_state`; everything
/// else keeps its state.
proof fn lemma_transform_batch_redo_chars(es: Seq<BasicOp>, w: WorldSnap)
    requires
        all_transforms(es),
        distinct_refs(es),
    ensures
        ops_redo_spec(es, w).0 == es,
        ops_redo_spec(es, w).1.next == w.next,
        forall|k: u64|
            #[trigger] ops_redo_spec(es, w).1.entities.contains_key(k)
                == w.entities.contains_key(k),
        forall|k: u64|
            w.entities.contains_key(k) && !has_ref(es, k)
                ==> #[trigger] ops_redo_spec(es, w).1.entities[k] == w.entities[k],
        forall|i: int|
            0 <= i < es.len() && w.entities.contains_key(ref_of(#[trigger] es[i]))
                ==> ops_redo_spec(es, w).1.entities[ref_of(es[i])] == transform_of(es[i]).new_state,
    decreases es.len(),
{
    if es.len() > 0 {
        let front = es.drop_last();
        assert(all_transforms(front));
        assert(distinct_refs(front));
        lemma_transform_batch_redo_chars(front, w);
        let fr = ops_redo_spec(front, w);
        assert(es.last() is Transform);
        assert forall|k: u64|
            w.entities.contains_key(k) && !has_ref(es, k)
                implies #[trigger] ops_redo_spec(es, w).1.entities[k] == w.entities[k] by {
            lemma_has_ref_split(es, k);
        }
        assert forall|i: int|
            0 <= i < es.len() && w.entities.contains_key(ref_of(#[trigger] es[i]))
                implies ops_redo_spec(es, w).1.entities[ref_of(es[i])]
                == transform_of(es[i]).new_state by {
            if i < es.len() - 1 {
                assert(es.drop_last()[i] == es[i]);
                assert(fr.1.entities[ref_of(es[i])] == transform_of(es[i]).new_state);
                assert(ref_of(es[i]) != ref_of(es.last()));
            } else {
                assert(fr.1.entities.contains_key(ref_of(es.last()))
                    == w.entities.contains_key(ref_of(es.last())));
            }
        }
    }
}

/// What undoing a transform batch over distinct entities does, likewise,
/// writing each element's `old_state` instead.
proof fn lemma_transform_batch_undo_chars(es: Seq<BasicOp>, w: WorldSnap)
    requires
        all_transforms(es),
        distinct_refs(es),
    ensures
        ops_undo_spec(es, w).0 == es,
        ops_undo_spec(es, w).1.next == w.next,
        forall|k: u64|
            #[trigger] ops_undo_spec(es, w).1.entities.contains_key(k)
                == w.entities.contains_key(k),
        forall|k: u64|
            w.entities.contains_key(k) && !has_ref(es, k)
                ==> #[trigger] ops_undo_spec(es, w).1.entities[k] == w.entities[k],
        forall|i: int|
            0 <= i < es.len() && w.entities.contains_key(ref_of(#[trigger] es[i]))
                ==> ops_undo_spec(es, w).1.entities[ref_of(es[i])] == transform_of(es[i]).old_state,
    decreases es.len(),
{
    if es.len() > 0 {
        let front = es.drop_last();
        assert(all_transforms(front));
        assert(distinct_refs(front));
        lemma_transform_batch_undo_chars(front, w);
        let fu = ops_undo_spec(front, w);
        assert(es.last() is Transform);
        assert forall|k: u64|
            w.entities.contains_key(k) && !has_ref(es, k)
                implies #[trigger] ops_undo_spec(es, w).1.entities[k] == w.entities[k] by {
            lemma_has_ref_split(es, k);
        }
        assert forall|i: int|
            0 <= i < es.len() && w.entities.contains_key(ref_of(#[trigger] es[i]))
                implies ops_undo_spec(es, w).1.entities[ref_of(es[i])]
                == transform_of(es[i]).old_state by {
            if i < es.len() - 1 {
                assert(es.drop_last()[i] == es[i]);
                assert(fu.1.entities[ref_of(es[i])] == transform_of(es[i]).old_state);
                assert(ref_of(es[i]) != ref_of(es.last()));
            } else {
                assert(fu.1.entities.contains_key(ref_of(es.last()))
                    == w.entities.contains_key(ref_of(es.last())));
            }
        }
    }
}

/// Round trip of a transform batch over distinct entities: redoing the
/// composite and then undoing it restores the starting world exactly,
/// provided each element's `old_state` is its entity's current state — as a
/// producer snapshots it — or that entity is gone.
pub proof fn lemma_transform_batch_redo_undo(es: Seq<BasicOp>, w: WorldSnap)
    requires
        all_transforms(es),
        distinct_refs(es),
        forall|i: int|
            0 <= i < es.len() && w.entities.contains_key(ref_of(#[trigger] es[i]))
                ==> w.entities[ref_of(es[i])] == transform_of(es[i]).old_state,
    ensures
        ops_undo_spec(ops_redo_spec(es, w).0, ops_redo_spec(es, w).1).1.entities == w.entities,
        ops_undo_spec(ops_redo_spec(es, w).0, ops_redo_spec(es, w).1).1.next == w.next,
{
    lemma_transform_batch_redo_chars(es, w);
    let rs = ops_redo_spec(es, w);
    lemma_transform_batch_undo_chars(es, rs.1);
    assert forall|k: u64| #[trigger] w.entities.contains_key(k)
        implies ops_undo_spec(es, rs.1).1.entities[k] == w.entities[k] by {
        if has_ref(es, k) {
            let i = choose|i: int| 0 <= i < es.len() && ref_of(#[trigger] es[i]) == k;
            assert(ops_undo_spec(es, rs.1).1.entities[ref_of(es[i])]
                == transform_of(es[i]).old_state);
        }
    }
    assert(ops_undo_spec(es, rs.1).1.entities =~= w.entities);
}

/// Undoing a transform batch over distinct entities and then redoing it
/// restores the starting world exactly, provided each element's `new_state`
/// is its entity's current state — which holds whenever the batch's forward
/// effect is the one visible — or that entity is gone.
pub proof fn lemma_transform_batch_undo_redo(es: Seq<BasicOp>, w: WorldSnap)
    requires
        all_transforms(es),
        distinct_refs(es),
        forall|i: int|
            0 <= i < es.len() && w.entities.contains_key(ref_of(#[trigger] es[i]))
                ==> w.entities[ref_of(es[i])] == transform_of(es[i]).new_state,
    ensures
        ops_redo_spec(ops_undo_spec(es, w).0, ops_undo_spec(es, w).1).1.entities == w.entities,
        ops_redo_spec(ops_undo_spec(es, w).0, ops_undo_spec(es, w).1).1.next == w.next,
{
    lemma_transform_batch_undo_chars(es, w);
    let us = ops_undo_spec(es, w);
    lemma_transform_batch_redo_chars(es, us.1);
    assert forall|k: u64| #[trigger] w.entities.contains_key(k)
        implies ops_redo_spec(es, us.1).1.entities[k] == w.entities[k] by {
        if has_ref(es, k) {
            let i = choose|i: int| 0 <= i < es.len() && ref_of(#[trigger] es[i]) == k;
            assert(ops_redo_spec(es, us.1).1.entities[ref_of(es[i])]
                == transform_of(es[i]).new_state);
        }
    }
    assert(ops_redo_spec(es, us.1).1.entities =~= w.entities);
}

/// The spawn an element carries.
pub open spec fn spawn_of(e: BasicOp) -> SpawnOp {
    match e {
        BasicOp::Spawn(op) => op,
        _ => arbitrary(),
    }
}

/// Undoing a spawn batch and then redoing it recreates each spawned entity
/// under the fresh identity `w.next + i`, carrying its element's initial
/// state, and leaves every other entity untouched: the same states come
/// back, the batch's entities renamed — recreating them cannot keep their
/// old identities.
pub proof fn lemma_spawn_batch_undo_redo(es: Seq<BasicOp>, w: WorldSnap)
    requires
        all_spawns(es),
        w.wf(),
        w.next + es.len() <= u64::MAX,
    ensures
        forall|k: u64|
            #[trigger] ops_redo_spec(es, ops_undo_spec(es, w).1).1.entities.contains_key(k)
                <==> ((w.entities.contains_key(k) && !has_ref(es, k))
                    || w.next <= k < w.next + es.len()),
        forall|k: u64|
            w.entities.contains_key(k) && !has_ref(es, k)
                ==> #[trigger] ops_redo_spec(es, ops_undo_spec(es, w).1).1.entities[k]
                    == w.entities[k],
        forall|i: int|
            0 <= i < es.len()
                ==> ops_redo_spec(es, ops_undo_spec(es, w).1).1.entities[
                    (w.next + i) as u64
                ] == spawn_of(#[trigger] es[i]).initial_state,
        ops_redo_spec(es, ops_undo_spec(es, w).1).1.next == w.next + es.len(),
{
    lemma_spawn_batch_undo_chars(es, w);
    let us = ops_undo_spec(es, w);
    lemma_spawn_batch_redo_chars(es, us.1);
    lemma_spawn_batch_redo_values(es, us.1);
}

/// The states a spawn batch's redo writes: element `i`'s initial state lands
/// under the fresh identity `w.next + i`.
proof fn lemma_spawn_batch_redo_values(es: Seq<BasicOp>, w: WorldSnap)
    requires
        all_spawns(es),
        w.wf(),
        w.next + es.len() <= u64::MAX,
    ensures
        forall|i: int|
            0 <= i < es.len()
                ==> ops_redo_spec(es, w).1.entities[(w.next + i) as u64]
                    == spawn_of(#[trigger] es[i]).initial_state,
    decreases es.len(),
{
    if es.len() > 0 {
        let front = es.drop_last();
        assert(all_spawns(front));
        lemma_spawn_batch_redo_values(front, w);
        lemma_spawn_batch_redo_chars(front, w);
        let fr = ops_redo_spec(front, w);
        assert(es.last() is Spawn);
        assert forall|i: int| 0 <= i < es.len()
            implies ops_redo_spec(es, w).1.entities[(w.next + i) as u64]
                == spawn_of(#[trigger] es[i]).initial_state by {
            if i < es.len() - 1 {
                assert(es.drop_last()[i] == es[i]);
                assert(fr.1.entities[(w.next + i) as u64] == spawn_of(es[i]).initial_state);
                assert((w.next + i) as u64 != fr.1.next as u64);
            }
        }
    }
}

/// Undo-redo symmetry for a composite despawn entry: the redo destroys
/// exactly the entities the undo recreated, so the world comes back
/// bit-for-bit.
pub proof fn lemma_undo_redo_world_despawn_batch(
    l: LogSnap,
    w: WorldSnap,
    es: Seq<BasicOp>,
)
    requires
        l.wf(),
        w.wf(),
        l.cursor > 0,
        l.history[l.cursor - 1] == OpView::Composite(es),
        all_despawns(es),
        w.next + es.len() <= u64::MAX,
    ensures
        log_redo_spec(log_undo_spec(l, w).0, log_undo_spec(l, w).1).1.entities == w.entities,
{
    lemma_despawn_batch_undo_redo(es, w);
    let l1 = log_undo_spec(l, w).0;
    assert(l1.history[l1.cursor] == OpView::Composite(ops_undo_spec(es, w).0));
}

/// Undo-redo symmetry for a composite transform entry over distinct
/// entities whose forward effect is the one currently visible: the world
/// comes back bit-for-bit.
pub proof fn lemma_undo_redo_world_transform_batch(
    l: LogSnap,
    w: WorldSnap,
    es: Seq<BasicOp>,
)
    requires
        l.wf(),
        l.cursor > 0,
        l.history[l.cursor - 1] == OpView::Composite(es),
        all_transforms(es),
        distinct_refs(es),
        forall|i: int|
            0 <= i < es.len() && w.entities.contains_key(ref_of(#[trigger] es[i]))
                ==> w.entities[ref_of(es[i])] == transform_of(es[i]).new_state,
    ensures
        log_redo_spec(log_undo_spec(l, w).0, log_undo_spec(l, w).1).1.entities == w.entities,
{
    lemma_transform_batch_undo_redo(es, w);
    lemma_transform_batch_undo_chars(es, w);
    let l1 = log_undo_spec(l, w).0;
    assert(l1.history[l1.cursor] == OpView::Composite(ops_undo_spec(es, w).0));
    assert(ops_undo_spec(es, w).0 == es);
}

/// Undo-redo symmetry for a spawn entry whose entity still carries its
/// initial state: the world comes back with the same states, the spawned
/// entity renamed to a fresh identity — recreating an entity cannot keep its
/// old one.
pub proof fn lemma_undo_redo_world_spawn(l: LogSnap, w: WorldSnap, op: SpawnOp)
    requires
        l.wf(),
        w.wf(),
        l.cursor > 0,
        l.history[l.cursor - 1] == OpView::Spawn(op),
        w.entities.contains_key(op.entity_ref),
        w.entities[op.entity_ref] == op.initial_state,
    ensures
        !w.entities.contains_key(w.next as u64),
        log_redo_spec(log_undo_spec(l, w).0, log_undo_spec(l, w).1).1.entities
            == w.entities.remove(op.entity_ref).insert(w.next as u64, w.entities[op.entity_ref]),
{
    lemma_spawn_undo_redo(op, w);
}

} // verus!
