use change_tracker::changelog::ChangeLog;
use change_tracker::coalescer::TransformCoalescer;
use change_tracker::ops::Operation;
use change_tracker::world::EditorWorld;
use change_tracker::world::EntityState;

fn state(x: i64, y: i64, z: i64) -> EntityState {
    EntityState { x, y, z }
}

#[test]
fn touches_coalesce_into_one_entry() {
    let mut log = ChangeLog::new();
    let mut coalescer = TransformCoalescer::new();
    let e2: u64 = 2;

    coalescer.touch(e2, state(0, 0, 0));
    coalescer.touch(e2, state(1, 0, 0));
    coalescer.touch(e2, state(5, 0, 0));
    assert!(coalescer.has_pending(e2));
    assert!(coalescer.commit(e2, &mut log));

    assert_eq!(log.len(), 1);
    assert_eq!(log.cursor(), 1);
    match log.op_at(0) {
        Operation::Transform(t) => {
            assert_eq!(t.entity_ref, e2);
            assert_eq!(t.old_state, state(0, 0, 0));
            assert_eq!(t.new_state, state(5, 0, 0));
        },
        _ => panic!("expected one coalesced transform entry"),
    }
    assert!(!coalescer.has_pending(e2));
}

#[test]
fn commit_without_a_pending_entry_records_nothing() {
    let mut log = ChangeLog::new();
    let mut coalescer = TransformCoalescer::new();
    assert!(!coalescer.commit(7, &mut log));
    assert_eq!(log.len(), 0);
    assert_eq!(log.cursor(), 0);
}

#[test]
fn peek_mut_edits_the_pending_entry_in_place() {
    let mut log = ChangeLog::new();
    let mut coalescer = TransformCoalescer::new();

    coalescer.touch(3, state(1, 1, 1));
    {
        let pending = coalescer.peek_mut(3);
        assert_eq!(pending.old_state, state(1, 1, 1));
        pending.new_state = state(9, 9, 9);
    }
    assert!(coalescer.commit(3, &mut log));
    match log.op_at(0) {
        Operation::Transform(t) => {
            assert_eq!(t.old_state, state(1, 1, 1));
            assert_eq!(t.new_state, state(9, 9, 9));
        },
        _ => panic!("expected the edited transform entry"),
    }
}

#[test]
fn entities_coalesce_independently() {
    let mut log = ChangeLog::new();
    let mut coalescer = TransformCoalescer::new();

    coalescer.touch(1, state(0, 0, 0));
    coalescer.touch(2, state(10, 0, 0));
    coalescer.touch(1, state(4, 0, 0));
    coalescer.touch(2, state(12, 0, 0));

    assert!(coalescer.commit(1, &mut log));
    assert!(coalescer.has_pending(2));
    assert!(coalescer.commit(2, &mut log));
    assert_eq!(log.len(), 2);

    match log.op_at(0) {
        Operation::Transform(t) => {
            assert_eq!(t.entity_ref, 1);
            assert_eq!(t.old_state, state(0, 0, 0));
            assert_eq!(t.new_state, state(4, 0, 0));
        },
        _ => panic!("expected the first entity's entry"),
    }
    match log.op_at(1) {
        Operation::Transform(t) => {
            assert_eq!(t.entity_ref, 2);
            assert_eq!(t.old_state, state(10, 0, 0));
            assert_eq!(t.new_state, state(12, 0, 0));
        },
        _ => panic!("expected the second entity's entry"),
    }
}

#[test]
fn default_policy_records_a_noop_interaction() {
    let mut log = ChangeLog::new();
    let mut coalescer = TransformCoalescer::new();
    coalescer.touch(5, state(2, 2, 2));
    assert!(coalescer.commit(5, &mut log));
    assert_eq!(log.len(), 1);
}

#[test]
fn skip_policy_drops_a_noop_interaction() {
    let mut log = ChangeLog::new();
    let mut coalescer = TransformCoalescer::with_policy(true);
    coalescer.touch(5, state(2, 2, 2));
    assert!(!coalescer.commit(5, &mut log));
    assert_eq!(log.len(), 0);
    assert!(!coalescer.has_pending(5));
}

#[test]
fn skip_policy_still_records_a_real_change() {
    let mut log = ChangeLog::new();
    let mut coalescer = TransformCoalescer::with_policy(true);
    coalescer.touch(5, state(2, 2, 2));
    coalescer.touch(5, state(3, 2, 2));
    assert!(coalescer.commit(5, &mut log));
    assert_eq!(log.len(), 1);
}

#[test]
fn committed_entry_drives_undo_and_redo() {
    let mut world = EditorWorld::new();
    let mut log = ChangeLog::new();
    let mut coalescer = TransformCoalescer::new();

    let id = world.create(state(0, 0, 0));
    // The drag starts where the entity stands; each step moves it and the
    // world follows live.
    coalescer.touch(id, state(0, 0, 0));
    for step in [state(1, 0, 0), state(2, 0, 0), state(6, 0, 0)] {
        coalescer.touch(id, step);
        world.set_state(id, step);
    }
    assert!(coalescer.commit(id, &mut log));

    assert!(log.undo(&mut world));
    assert_eq!(world.get_state(id), Some(state(0, 0, 0)));
    assert!(log.redo(&mut world));
    assert_eq!(world.get_state(id), Some(state(6, 0, 0)));
}
