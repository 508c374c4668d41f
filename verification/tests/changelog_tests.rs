use change_tracker::changelog::ChangeLog;
use change_tracker::ops::BasicOp;
use change_tracker::ops::CompositeOp;
use change_tracker::ops::DespawnOp;
use change_tracker::ops::Operation;
use change_tracker::ops::SpawnOp;
use change_tracker::ops::TransformOp;
use change_tracker::world::EditorWorld;
use change_tracker::world::EntityState;

fn state(x: i64, y: i64, z: i64) -> EntityState {
    EntityState { x, y, z }
}

#[test]
fn spawn_entry_walked_back_and_forth() {
    let mut world = EditorWorld::new();
    let mut log = ChangeLog::new();

    // The producer spawns an entity, then records the spawn.
    let e1 = world.create(state(1, 2, 3));
    log.record(Operation::Spawn(SpawnOp { entity_ref: e1, initial_state: state(1, 2, 3) }));
    assert_eq!(log.len(), 1);
    assert_eq!(log.cursor(), 1);

    // Undo destroys the entity.
    assert!(log.undo(&mut world));
    assert!(!world.contains(e1));
    assert_eq!(log.cursor(), 0);

    // Redo recreates it under a new identity.
    assert!(log.redo(&mut world));
    assert_eq!(log.cursor(), 1);
    let e1_new = match log.op_at(0) {
        Operation::Spawn(s) => s.entity_ref,
        _ => panic!("expected the spawn entry"),
    };
    assert!(e1_new != e1);
    assert_eq!(world.get_state(e1_new), Some(state(1, 2, 3)));

    // Undo again destroys the recreated entity.
    assert!(log.undo(&mut world));
    assert!(!world.contains(e1_new));
    assert_eq!(log.cursor(), 0);
    assert_eq!(world.entity_count(), 0);
}

#[test]
fn undo_on_empty_history_is_a_noop() {
    let mut world = EditorWorld::new();
    let mut log = ChangeLog::new();
    assert!(!log.undo(&mut world));
    assert_eq!(log.cursor(), 0);
    assert_eq!(log.len(), 0);
}

#[test]
fn redo_at_the_head_is_a_noop() {
    let mut world = EditorWorld::new();
    let mut log = ChangeLog::new();
    let id = world.create(state(0, 0, 0));
    log.record(Operation::Transform(TransformOp {
        entity_ref: id,
        old_state: state(0, 0, 0),
        new_state: state(1, 0, 0),
    }));
    assert!(!log.redo(&mut world));
    assert_eq!(log.cursor(), 1);
}

#[test]
fn record_resets_cursor_and_undo_targets_it() {
    let mut world = EditorWorld::new();
    let mut log = ChangeLog::new();
    let id = world.create(state(0, 0, 0));

    let t1 = TransformOp { entity_ref: id, old_state: state(0, 0, 0), new_state: state(1, 0, 0) };
    world.set_state(id, t1.new_state);
    log.record(Operation::Transform(t1));

    assert!(log.undo(&mut world));
    assert_eq!(world.get_state(id), Some(state(0, 0, 0)));

    // Recording while the cursor sits below the end resets it to the head.
    let t2 = TransformOp { entity_ref: id, old_state: state(0, 0, 0), new_state: state(5, 0, 0) };
    world.set_state(id, t2.new_state);
    log.record(Operation::Transform(t2));
    assert_eq!(log.len(), 2);
    assert_eq!(log.cursor(), 2);

    // A subsequent undo undoes exactly the newly recorded operation.
    assert!(log.undo(&mut world));
    assert_eq!(world.get_state(id), Some(state(0, 0, 0)));
    assert_eq!(log.cursor(), 1);
}

#[test]
fn recording_preserves_the_undone_tail() {
    let mut world = EditorWorld::new();
    let mut log = ChangeLog::new();
    let id = world.create(state(0, 0, 0));
    let step = |from: i64, to: i64| {
        Operation::Transform(TransformOp {
            entity_ref: id,
            old_state: state(from, 0, 0),
            new_state: state(to, 0, 0),
        })
    };

    world.set_state(id, state(1, 0, 0));
    log.record(step(0, 1));
    world.set_state(id, state(2, 0, 0));
    log.record(step(1, 2));
    assert!(log.undo(&mut world));
    assert!(log.undo(&mut world));
    assert_eq!(log.cursor(), 0);

    world.set_state(id, state(3, 0, 0));
    log.record(step(0, 3));
    // The undone entries stay in the buffer ahead of the new entry ...
    assert_eq!(log.len(), 3);
    match log.op_at(1) {
        Operation::Transform(t) => assert_eq!(t.new_state, state(2, 0, 0)),
        _ => panic!("expected the stale transform entry"),
    }
    // ... but the cursor is at the head, so they are unreachable by redo.
    assert_eq!(log.cursor(), 3);
    assert!(!log.redo(&mut world));
}

#[test]
fn undo_then_redo_restores_world_and_cursor() {
    let mut world = EditorWorld::new();
    let mut log = ChangeLog::new();
    let id = world.create(state(0, 0, 0));

    let t = TransformOp { entity_ref: id, old_state: state(0, 0, 0), new_state: state(4, 4, 4) };
    world.set_state(id, t.new_state);
    log.record(Operation::Transform(t));

    assert!(log.undo(&mut world));
    assert!(log.redo(&mut world));
    assert_eq!(log.cursor(), 1);
    assert_eq!(world.get_state(id), Some(state(4, 4, 4)));
}

#[test]
fn undo_then_redo_of_a_despawn_restores_world_exactly() {
    let mut world = EditorWorld::new();
    let mut log = ChangeLog::new();
    let id = world.create(state(8, 8, 8));

    // The producer despawns the entity and records it.
    world.destroy(id);
    log.record(Operation::Despawn(DespawnOp { entity_ref: id, last_state: state(8, 8, 8) }));

    assert!(log.undo(&mut world));
    let recreated = match log.op_at(0) {
        Operation::Despawn(d) => d.entity_ref,
        _ => panic!("expected the despawn entry"),
    };
    assert!(world.contains(recreated));

    assert!(log.redo(&mut world));
    assert!(!world.contains(recreated));
    assert_eq!(world.entity_count(), 0);
    assert_eq!(log.cursor(), 1);
}

#[test]
fn cursor_stays_within_bounds_through_a_mixed_sequence() {
    let mut world = EditorWorld::new();
    let mut log = ChangeLog::new();
    let id = world.create(state(0, 0, 0));
    let in_bounds = |log: &ChangeLog| log.cursor() <= log.len();

    assert!(in_bounds(&log));
    for step in 1..4 {
        world.set_state(id, state(step, 0, 0));
        log.record(Operation::Transform(TransformOp {
            entity_ref: id,
            old_state: state(step - 1, 0, 0),
            new_state: state(step, 0, 0),
        }));
        assert!(in_bounds(&log));
    }
    for _ in 0..5 {
        log.undo(&mut world);
        assert!(in_bounds(&log));
    }
    for _ in 0..5 {
        log.redo(&mut world);
        assert!(in_bounds(&log));
    }
    assert_eq!(log.cursor(), 3);
    assert_eq!(world.get_state(id), Some(state(3, 0, 0)));
}

#[test]
fn composite_entry_is_undone_atomically() {
    let mut world = EditorWorld::new();
    let mut log = ChangeLog::new();
    let a = world.create(state(0, 0, 0));
    let b = world.create(state(0, 0, 0));
    let c = world.create(state(0, 0, 0));

    let mut batch = CompositeOp::new();
    for (i, id) in [a, b, c].into_iter().enumerate() {
        let to = state(i as i64 + 1, 0, 0);
        world.set_state(id, to);
        batch.add(BasicOp::Transform(TransformOp {
            entity_ref: id,
            old_state: state(0, 0, 0),
            new_state: to,
        }));
    }
    log.record(Operation::Composite(batch));
    assert_eq!(log.len(), 1);
    assert_eq!(log.cursor(), 1);

    // One undo reverts all three sub-edits and moves the cursor by one slot.
    assert!(log.undo(&mut world));
    assert_eq!(log.cursor(), 0);
    assert_eq!(world.get_state(a), Some(state(0, 0, 0)));
    assert_eq!(world.get_state(b), Some(state(0, 0, 0)));
    assert_eq!(world.get_state(c), Some(state(0, 0, 0)));

    // One redo applies all three again.
    assert!(log.redo(&mut world));
    assert_eq!(log.cursor(), 1);
    assert_eq!(world.get_state(a), Some(state(1, 0, 0)));
    assert_eq!(world.get_state(b), Some(state(2, 0, 0)));
    assert_eq!(world.get_state(c), Some(state(3, 0, 0)));
}

#[test]
fn record_through_a_shared_reference_clones() {
    let mut world = EditorWorld::new();
    let mut log = ChangeLog::new();
    let id = world.create(state(0, 0, 0));
    let op = Operation::Transform(TransformOp {
        entity_ref: id,
        old_state: state(0, 0, 0),
        new_state: state(1, 1, 1),
    });
    op.record(&mut log);
    op.record(&mut log);
    assert_eq!(log.len(), 2);
    assert_eq!(log.cursor(), 2);
}
