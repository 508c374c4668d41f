use change_tracker::ops::BasicOp;
use change_tracker::ops::CompositeOp;
use change_tracker::ops::DespawnOp;
use change_tracker::ops::Operation;
use change_tracker::ops::SpawnOp;
use change_tracker::ops::TransformOp;
use change_tracker::world::EditorWorld;
use change_tracker::world::EntityState;

fn state(x: i64, y: i64, z: i64) -> EntityState {
    EntityState { x, y, z }
}

#[test]
fn spawn_redo_then_undo_restores_world() {
    let mut world = EditorWorld::new();
    let bystander = world.create(state(9, 9, 9));
    let mut op = SpawnOp { entity_ref: 0, initial_state: state(1, 2, 3) };

    op.redo(&mut world);
    let created = op.entity_ref;
    assert!(created != bystander);
    assert_eq!(world.get_state(created), Some(state(1, 2, 3)));
    assert_eq!(world.entity_count(), 2);

    op.undo(&mut world);
    assert!(!world.contains(created));
    assert_eq!(world.get_state(bystander), Some(state(9, 9, 9)));
    assert_eq!(world.entity_count(), 1);
}

#[test]
fn despawn_undo_then_redo_restores_world() {
    let mut world = EditorWorld::new();
    let id = world.create(state(4, 5, 6));
    // The producer destroys the entity, snapshotting its state, then records.
    world.destroy(id);
    let mut op = DespawnOp { entity_ref: id, last_state: state(4, 5, 6) };

    op.undo(&mut world);
    let recreated = op.entity_ref;
    assert!(recreated != id, "a recreated entity carries a new identity");
    assert_eq!(world.get_state(recreated), Some(state(4, 5, 6)));

    op.redo(&mut world);
    assert!(!world.contains(recreated));
    assert_eq!(world.entity_count(), 0);
}

#[test]
fn transform_round_trip() {
    let mut world = EditorWorld::new();
    let id = world.create(state(0, 0, 0));
    let mut op = TransformOp {
        entity_ref: id,
        old_state: state(0, 0, 0),
        new_state: state(7, 0, 0),
    };

    op.redo(&mut world);
    assert_eq!(world.get_state(id), Some(state(7, 0, 0)));
    op.undo(&mut world);
    assert_eq!(world.get_state(id), Some(state(0, 0, 0)));
}

#[test]
fn transform_on_missing_entity_is_a_tolerated_noop() {
    let mut world = EditorWorld::new();
    let id = world.create(state(0, 0, 0));
    world.destroy(id);
    let mut op = TransformOp {
        entity_ref: id,
        old_state: state(0, 0, 0),
        new_state: state(7, 0, 0),
    };

    op.redo(&mut world);
    assert!(!world.contains(id));
    assert_eq!(world.entity_count(), 0);
    op.undo(&mut world);
    assert!(!world.contains(id));
    assert_eq!(world.entity_count(), 0);
}

#[test]
fn empty_composite_is_a_noop_both_ways() {
    let mut world = EditorWorld::new();
    let id = world.create(state(1, 1, 1));
    let mut op = Operation::Composite(CompositeOp::new());

    op.redo(&mut world);
    assert_eq!(world.get_state(id), Some(state(1, 1, 1)));
    assert_eq!(world.entity_count(), 1);
    op.undo(&mut world);
    assert_eq!(world.get_state(id), Some(state(1, 1, 1)));
    assert_eq!(world.entity_count(), 1);
}

#[test]
fn composite_reports_length_and_elements() {
    let mut batch = CompositeOp::new();
    assert_eq!(batch.len(), 0);
    batch.add(BasicOp::Transform(TransformOp {
        entity_ref: 1,
        old_state: state(0, 0, 0),
        new_state: state(1, 0, 0),
    }));
    batch.add(BasicOp::Transform(TransformOp {
        entity_ref: 2,
        old_state: state(0, 0, 0),
        new_state: state(2, 0, 0),
    }));
    assert_eq!(batch.len(), 2);
    match batch.element_at(1) {
        BasicOp::Transform(t) => assert_eq!(t.entity_ref, 2),
        _ => panic!("expected a transform element"),
    }
}

#[test]
fn duplicate_denotes_the_same_edit() {
    let mut batch = CompositeOp::new();
    batch.add(BasicOp::Spawn(SpawnOp { entity_ref: 0, initial_state: state(3, 3, 3) }));
    let op = Operation::Composite(batch);
    let copy = op.duplicate();

    let mut world = EditorWorld::new();
    let mut copy2 = copy;
    copy2.redo(&mut world);
    assert_eq!(world.entity_count(), 1);
    // The original operation is untouched and still usable.
    let mut original = op;
    original.redo(&mut world);
    assert_eq!(world.entity_count(), 2);
}
