//! Coalescing continuous edits.
//!
//! A drag-style interaction produces a stream of intermediate states for the
//! entities being moved.  The [`TransformCoalescer`] keeps, per entity, at
//! most one pending [`TransformOp`] accumulating that stream: the pending
//! entry's `old_state` is fixed at the first touch of the interaction and
//! never changes while it is live; `new_state` is overwritten on every
//! subsequent update.  When the interaction ends, committing an entity
//! removes its pending entry and records it as a single change-log entry.
//! Several entities may have independent pending entries at once; each is
//! committed independently.
//!
//! By default a commit records even when the interaction ended where it
//! began (`old_state == new_state`); construction can instead select a
//! skip-if-unchanged policy.

use vstd::prelude::*;

use crate::assoc::distinct_keys;
use crate::assoc::lemma_map_of_contains;
use crate::assoc::lemma_map_of_index;
use crate::assoc::lemma_map_of_push;
use crate::assoc::lemma_map_of_remove;
use crate::assoc::lemma_map_of_update;
use crate::assoc::lemma_map_of_update_all;
use crate::assoc::map_of;
use crate::changelog::log_record_spec;
use crate::changelog::ChangeLog;
use crate::ops::Operation;
use crate::ops::OpView;
use crate::ops::TransformOp;
use crate::world::EntityState;

verus! {

/// One touch of the per-entity pending map: the first touch fixes
/// `old_state`, every later touch overwrites `new_state` only.
pub open spec fn touch_spec(
    m: Map<u64, TransformOp>,
    entity: u64,
    current: EntityState,
) -> Map<u64, TransformOp> {
    if m.contains_key(entity) {
        m.insert(
            entity,
            TransformOp {
                entity_ref: entity,
                old_state: m[entity].old_state,
                new_state: current,
            },
        )
    } else {
        m.insert(
            entity,
            TransformOp { entity_ref: entity, old_state: current, new_state: current },
        )
    }
}

/// A whole run of touches of one entity, in order.
pub open spec fn touch_run_spec(
    m: Map<u64, TransformOp>,
    entity: u64,
    states: Seq<EntityState>,
) -> Map<u64, TransformOp>
    decreases states.len(),
{
    if states.len() == 0 {
        m
    } else {
        touch_spec(touch_run_spec(m, entity, states.drop_last()), entity, states.last())
    }
}

/// The coalescing law: touching one entity any number of times (at least
/// once) leaves exactly one pending entry for it, whose `old_state` is the
/// state at the first touch and whose `new_state` is the state at the last,
/// and leaves every other entity's entry alone.
pub proof fn lemma_touch_run(m: Map<u64, TransformOp>, entity: u64, states: Seq<EntityState>)
    requires
        states.len() >= 1,
        !m.contains_key(entity),
    ensures
        touch_run_spec(m, entity, states) == m.insert(
            entity,
            TransformOp {
                entity_ref: entity,
                old_state: states[0],
                new_state: states.last(),
            },
        ),
    decreases states.len(),
{
    if states.len() == 1 {
        assert(states.drop_last().len() == 0);
        assert(touch_run_spec(m, entity, states.drop_last()) == m);
        assert(states.last() == states[0]);
        assert(touch_run_spec(m, entity, states) =~= m.insert(
            entity,
            TransformOp {
                entity_ref: entity,
                old_state: states[0],
                new_state: states.last(),
            },
        ));
    } else {
        lemma_touch_run(m, entity, states.drop_last());
        assert(states.drop_last()[0] == states[0]);
        let prev = m.insert(
            entity,
            TransformOp {
                entity_ref: entity,
                old_state: states[0],
                new_state: states.drop_last().last(),
            },
        );
        assert(prev.contains_key(entity));
        assert(touch_spec(prev, entity, states.last()) =~= m.insert(
            entity,
            TransformOp {
                entity_ref: entity,
                old_state: states[0],
                new_state: states.last(),
            },
        ));
    }
}

/// The per-entity scratch map accumulating in-progress transform edits.
#[derive(Debug)]
pub struct TransformCoalescer {
    pending: Vec<(u64, TransformOp)>,
    skip_unchanged: bool,
}

impl TransformCoalescer {
    /// The pending entries this coalescer denotes, keyed by entity.
    pub closed spec fn view(self) -> Map<u64, TransformOp> {
        map_of(self.pending@)
    }

    /// The stored entries carry distinct entities.
    pub closed spec fn wf(self) -> bool {
        distinct_keys(self.pending@)
    }

    /// Whether a commit drops an entry whose interaction ended where it
    /// began instead of recording it.
    pub closed spec fn skip_unchanged_policy(self) -> bool {
        self.skip_unchanged
    }

    /// An empty coalescer with the default policy: a commit records even a
    /// no-op interaction.
    pub fn new() -> (r: Self)
        ensures
            r.wf(),
            r@ == Map::<u64, TransformOp>::empty(),
            !r.skip_unchanged_policy(),
    {
        let r = TransformCoalescer { pending: Vec::new(), skip_unchanged: false };
        proof {
            assert(r.pending@.len() == 0);
        }
        r
    }

    /// An empty coalescer with the given skip-if-unchanged policy.
    pub fn with_policy(skip_unchanged: bool) -> (r: Self)
        ensures
            r.wf(),
            r@ == Map::<u64, TransformOp>::empty(),
            r.skip_unchanged_policy() == skip_unchanged,
    {
        let r = TransformCoalescer { pending: Vec::new(), skip_unchanged };
        proof {
            assert(r.pending@.len() == 0);
        }
        r
    }

    /// The position of the entry for `entity`, if any.
    fn find(&self, entity: u64) -> (r: Option<usize>)
        ensures
            match r {
                Some(i) => i < self.pending@.len() && self.pending@[i as int].0 == entity,
                None => forall|i: int|
                    0 <= i < self.pending@.len() ==> (#[trigger] self.pending@[i]).0 != entity,
            },
    {
        let n = self.pending.len();
        for i in 0..n
            invariant
                n == self.pending@.len(),
                forall|j: int| 0 <= j < i ==> (#[trigger] self.pending@[j]).0 != entity,
        {
            if self.pending[i].0 == entity {
                return Some(i);
            }
        }
        None
    }

    /// Whether an interaction is pending for this entity.
    pub fn has_pending(&self, entity: u64) -> (r: bool)
        ensures
            r == self@.contains_key(entity),
    {
        proof {
            lemma_map_of_contains(self.pending@, entity);
        }
        self.find(entity).is_some()
    }

    /// Record one step of a live interaction: the first touch of an entity
    /// creates its pending entry with `old_state == new_state == current`;
    /// later touches leave `old_state` untouched and overwrite `new_state`.
    pub fn touch(&mut self, entity: u64, current: EntityState)
        requires
            old(self).wf(),
        ensures
            final(self).wf(),
            final(self)@ == touch_spec(old(self)@, entity, current),
            final(self).skip_unchanged_policy() == old(self).skip_unchanged_policy(),
    {
        proof {
            lemma_map_of_contains(self.pending@, entity);
        }
        match self.find(entity) {
            Some(i) => {
                let prev = self.pending[i].1;
                let op = TransformOp {
                    entity_ref: entity,
                    old_state: prev.old_state,
                    new_state: current,
                };
                proof {
                    lemma_map_of_index(self.pending@, i as int);
                    lemma_map_of_update(self.pending@, i as int, op);
                }
                self.pending[i] = (entity, op);
            },
            None => {
                let op = TransformOp { entity_ref: entity, old_state: current, new_state: current };
                proof {
                    lemma_map_of_push(self.pending@, entity, op);
                }
                self.pending.push((entity, op));
                proof {
                    assert(distinct_keys(self.pending@));
                }
            },
        }
    }

    /// Borrow the pending entry for in-place mutation by the caller during
    /// the live interaction.  Calling this without a prior `touch` for the
    /// entity is a contract violation: callers must `touch` first.
    pub fn peek_mut(&mut self, entity: u64) -> (r: &mut TransformOp)
        requires
            old(self).wf(),
            old(self)@.contains_key(entity),
        ensures
            *r == old(self)@[entity],
            final(self)@ == old(self)@.insert(entity, *final(r)),
            final(self).wf(),
            final(self).skip_unchanged_policy() == old(self).skip_unchanged_policy(),
    {
        proof {
            lemma_map_of_contains(self.pending@, entity);
        }
        let found = self.find(entity);
        let i = found.unwrap();
        proof {
            lemma_map_of_index(self.pending@, i as int);
            lemma_map_of_update_all(self.pending@, i as int);
        }
        let entry = &mut self.pending[i];
        &mut entry.1
    }

    /// End an interaction: remove the pending entry for this entity, if any,
    /// and record it into the log as one entry — unless this coalescer's
    /// policy says to skip an entry whose interaction ended where it began.
    /// Reports whether the log gained an entry.
    pub fn commit(&mut self, entity: u64, log: &mut ChangeLog) -> (r: bool)
        requires
            old(self).wf(),
            old(log).wf(),
        ensures
            final(self).wf(),
            final(log).wf(),
            final(self)@ == old(self)@.remove(entity),
            final(self).skip_unchanged_policy() == old(self).skip_unchanged_policy(),
            ({
                let had = old(self)@.contains_key(entity);
                let op = old(self)@[entity];
                let skipped = old(self).skip_unchanged_policy() && op.old_state == op.new_state;
                &&& r == (had && !skipped)
                &&& final(log)@ == if had && !skipped {
                    log_record_spec(old(log)@, OpView::Transform(op))
                } else {
                    old(log)@
                }
            }),
    {
        proof {
            lemma_map_of_contains(self.pending@, entity);
        }
        match self.find(entity) {
            Some(i) => {
                let op = self.pending[i].1;
                proof {
                    lemma_map_of_index(self.pending@, i as int);
                    lemma_map_of_remove(self.pending@, i as int);
                }
                self.pending.remove(i);
                if self.skip_unchanged && op.old_state == op.new_state {
                    false
                } else {
                    log.record(Operation::Transform(op));
                    true
                }
            },
            None => {
                proof {
                    assert(map_of(self.pending@).remove(entity) =~= map_of(self.pending@));
                }
                false
            },
        }
    }
}

} // verus!
