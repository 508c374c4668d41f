//! The editor's model of the scene: the world mutation context.
//!
//! The reversible-operation log only requires from the host world the
//! capability to create an entity with a given state, destroy an entity, and
//! read or write an entity's transform-like state by identity.  [`EditorWorld`]
//! realises exactly that interface.  Destroying an entity and recreating it
//! assigns a fresh identity: identities are never reused.
//!
//! Mathematically a world is a finite map from entity identity to state,
//! together with the next identity to hand out; [`WorldSnap`] is that reading.

use vstd::prelude::*;

use crate::assoc::distinct_keys;
use crate::assoc::lemma_map_of_contains;
use crate::assoc::lemma_map_of_index;
use crate::assoc::lemma_map_of_push;
use crate::assoc::lemma_map_of_remove;
use crate::assoc::lemma_map_of_update;
use crate::assoc::map_of;

verus! {

/// The transform-like state of one entity: its position in the scene.
#[derive(Clone, Copy, Debug, PartialEq, Eq, Structural)]
pub struct EntityState {
    pub x: i64,
    pub y: i64,
    pub z: i64,
}

/// The mathematical reading of a world: the entities that exist, each with
/// its state, and the next identity the world will assign.
pub struct WorldSnap {
    pub entities: Map<u64, EntityState>,
    pub next: int,
}

impl WorldSnap {
    /// Identities already assigned lie below `next`, and `next` itself still
    /// fits in an identity word.
    pub open spec fn wf(self) -> bool {
        &&& 0 <= self.next <= u64::MAX
        &&& forall|k: u64| self.entities.contains_key(k) ==> k < self.next
    }
}

/// The live world: entity identities with their states, and a counter for
/// the next identity.  Identities are assigned in increasing order and never
/// reused, so destroying and recreating an entity changes its identity.
pub struct EditorWorld {
    entities: Vec<(u64, EntityState)>,
    next_id: u64,
}

impl EditorWorld {
    /// What this world denotes.
    pub closed spec fn view(self) -> WorldSnap {
        WorldSnap { entities: map_of(self.entities@), next: self.next_id as int }
    }

    /// The stored entries carry distinct identities, all below `next_id`.
    pub closed spec fn wf(self) -> bool {
        &&& distinct_keys(self.entities@)
        &&& forall|i: int|
            0 <= i < self.entities@.len() ==> (#[trigger] self.entities@[i]).0 < self.next_id
    }

    /// A well-formed world denotes a well-formed snapshot.
    pub proof fn lemma_wf_snap(self)
        requires
            self.wf(),
        ensures
            self.view().wf(),
    {
        assert forall|k: u64| self.view().entities.contains_key(k) implies k < self.next_id by {
            lemma_map_of_contains(self.entities@, k);
            let i = choose|i: int| 0 <= i < self.entities@.len() && self.entities@[i].0 == k;
            assert(self.entities@[i].0 < self.next_id);
        }
    }

    /// An empty world; the first entity created will get identity 0.
    pub fn new() -> (w: Self)
        ensures
            w.wf(),
            w.view().entities == Map::<u64, EntityState>::empty(),
            w.view().next == 0,
    {
        let w = EditorWorld { entities: Vec::new(), next_id: 0 };
        proof {
            assert(w.entities@.len() == 0);
        }
        w
    }

    /// The position of the entry carrying `id`, if any.
    fn find(&self, id: u64) -> (r: Option<usize>)
        ensures
            match r {
                Some(i) => i < self.entities@.len() && self.entities@[i as int].0 == id,
                None => forall|i: int|
                    0 <= i < self.entities@.len() ==> (#[trigger] self.entities@[i]).0 != id,
            },
    {
        let n = self.entities.len();
        for i in 0..n
            invariant
                n == self.entities@.len(),
                forall|j: int| 0 <= j < i ==> (#[trigger] self.entities@[j]).0 != id,
        {
            if self.entities[i].0 == id {
                return Some(i);
            }
        }
        None
    }

    /// Whether an entity with this identity currently exists.
    pub fn contains(&self, id: u64) -> (r: bool)
        ensures
            r == self.view().entities.contains_key(id),
    {
        proof {
            lemma_map_of_contains(self.entities@, id);
        }
        self.find(id).is_some()
    }

    /// Create an entity with the given state and return its identity, which
    /// is fresh: no existing entity carries it.
    pub fn create(&mut self, state: EntityState) -> (id: u64)
        requires
            old(self).wf(),
            old(self)@.next < u64::MAX,
        ensures
            final(self).wf(),
            id == old(self)@.next,
            !old(self)@.entities.contains_key(id),
            final(self)@.entities == old(self)@.entities.insert(id, state),
            final(self)@.next == old(self)@.next + 1,
    {
        let id = self.next_id;
        proof {
            lemma_map_of_contains(self.entities@, id);
            lemma_map_of_push(self.entities@, id, state);
        }
        self.entities.push((id, state));
        self.next_id = self.next_id + 1;
        id
    }

    /// Destroy the entity with this identity; a missing identity is a
    /// tolerated no-op, not an error.
    pub fn destroy(&mut self, id: u64)
        requires
            old(self).wf(),
        ensures
            final(self).wf(),
            final(self)@.entities == old(self)@.entities.remove(id),
            final(self)@.next == old(self)@.next,
    {
        proof {
            lemma_map_of_contains(self.entities@, id);
        }
        match self.find(id) {
            Some(i) => {
                proof {
                    lemma_map_of_remove(self.entities@, i as int);
                }
                self.entities.remove(i);
            },
            None => {
                proof {
                    assert(!map_of(self.entities@).contains_key(id));
                    assert(map_of(self.entities@).remove(id) =~= map_of(self.entities@));
                }
            },
        }
    }

    /// The state of the entity with this identity, if it exists.
    pub fn get_state(&self, id: u64) -> (r: Option<EntityState>)
        requires
            self.wf(),
        ensures
            r == if self.view().entities.contains_key(id) {
                Some(self.view().entities[id])
            } else {
                None::<EntityState>
            },
    {
        proof {
            lemma_map_of_contains(self.entities@, id);
        }
        match self.find(id) {
            Some(i) => {
                proof {
                    lemma_map_of_index(self.entities@, i as int);
                }
                Some(self.entities[i].1)
            },
            None => None,
        }
    }

    /// Overwrite the state of the entity with this identity; a missing
    /// identity is a tolerated no-op, not an error.
    pub fn set_state(&mut self, id: u64, state: EntityState)
        requires
            old(self).wf(),
        ensures
            final(self).wf(),
            final(self)@.entities == if old(self)@.entities.contains_key(id) {
                old(self)@.entities.insert(id, state)
            } else {
                old(self)@.entities
            },
            final(self)@.next == old(self)@.next,
    {
        proof {
            lemma_map_of_contains(self.entities@, id);
        }
        match self.find(id) {
            Some(i) => {
                proof {
                    lemma_map_of_index(self.entities@, i as int);
                    lemma_map_of_update(self.entities@, i as int, state);
                }
                self.entities[i] = (id, state);
            },
            None => {},
        }
    }

    /// How many entities currently exist.
    pub fn entity_count(&self) -> (r: usize)
        requires
            self.wf(),
        ensures
            r == self.view().entities.dom().len(),
    {
        proof {
            self.lemma_len_dom();
        }
        self.entities.len()
    }

    /// Under distinct keys the entry count is the domain's cardinality.
    proof fn lemma_len_dom(self)
        requires
            self.wf(),
        ensures
            self.view().entities.dom().len() == self.entities@.len(),
    {
        Self::lemma_assoc_dom_len(self.entities@);
    }

    proof fn lemma_assoc_dom_len(s: Seq<(u64, EntityState)>)
        requires
            distinct_keys(s),
        ensures
            map_of(s).dom().finite(),
            map_of(s).dom().len() == s.len(),
        decreases s.len(),
    {
        if s.len() == 0 {
            assert(map_of(s).dom() =~= Set::<u64>::empty());
        } else {
            assert(distinct_keys(s.drop_last()));
            Self::lemma_assoc_dom_len(s.drop_last());
            lemma_map_of_contains(s.drop_last(), s.last().0);
            assert(map_of(s).dom() =~= map_of(s.drop_last()).dom().insert(s.last().0));
            assert(!map_of(s.drop_last()).dom().contains(s.last().0));
        }
    }
}

} // verus!
