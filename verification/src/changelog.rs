//! The ordered history buffer and cursor.
//!
//! A [`ChangeLog`] owns every recorded operation.  The cursor is the
//! boundary index separating applied history (before it) from redo-available
//! history (at and after it): operations at indices `[0, cursor)` are
//! currently visible in the world, operations at `[cursor, len)` are undone.
//!
//! Recording appends at the end and moves the cursor to the new length.
//! One choice is worth documenting: when a new edit is recorded while the
//! cursor sits below the end, the previously-undone tail entries are
//! preserved, not truncated — they simply become unreachable by normal
//! redo.

use vstd::prelude::*;

use crate::ops::op_redo_creates;
use crate::ops::op_redo_spec;
use crate::ops::op_undo_creates;
use crate::ops::op_undo_spec;
use crate::ops::Operation;
use crate::ops::OpView;
use crate::world::EditorWorld;
use crate::world::WorldSnap;

verus! {

/// The mathematical reading of a change log: the recorded operations in
/// chronological order, and the cursor.
pub struct LogSnap {
    pub history: Seq<OpView>,
    pub cursor: int,
}

impl LogSnap {
    /// The cursor stays within `[0, history.len()]`.
    pub open spec fn wf(self) -> bool {
        0 <= self.cursor <= self.history.len()
    }
}

/// Recording appends the operation and moves the cursor to the end.
pub open spec fn log_record_spec(l: LogSnap, op: OpView) -> LogSnap {
    LogSnap { history: l.history.push(op), cursor: l.history.len() as int + 1 }
}

/// Undoing applies the inverse effect of the slot just before the cursor and
/// retreats the cursor by one; at the lower boundary it is a no-op reporting
/// `false`.  The slot is written back, since an inverse application may
/// reassign the operation's entity reference.
pub open spec fn log_undo_spec(l: LogSnap, w: WorldSnap) -> (LogSnap, WorldSnap, bool) {
    if l.cursor > 0 {
        let r = op_undo_spec(l.history[l.cursor - 1], w);
        (LogSnap { history: l.history.update(l.cursor - 1, r.0), cursor: l.cursor - 1 }, r.1, true)
    } else {
        (l, w, false)
    }
}

/// Redoing applies the forward effect of the slot at the cursor and advances
/// the cursor by one; at the upper boundary it is a no-op reporting `false`.
pub open spec fn log_redo_spec(l: LogSnap, w: WorldSnap) -> (LogSnap, WorldSnap, bool) {
    if l.cursor < l.history.len() {
        let r = op_redo_spec(l.history[l.cursor], w);
        (LogSnap { history: l.history.update(l.cursor, r.0), cursor: l.cursor + 1 }, r.1, true)
    } else {
        (l, w, false)
    }
}

/// The world can still hand out the fresh identities an undo would consume.
pub open spec fn undo_budget(l: LogSnap, w: WorldSnap) -> bool {
    l.cursor > 0 ==> w.next + op_undo_creates(l.history[l.cursor - 1]) <= u64::MAX
}

/// The world can still hand out the fresh identities a redo would consume.
pub open spec fn redo_budget(l: LogSnap, w: WorldSnap) -> bool {
    l.cursor < l.history.len() ==> w.next + op_redo_creates(l.history[l.cursor]) <= u64::MAX
}

/// The history buffer and cursor; one instance per editing session.  It
/// grows without an enforced cap.
#[derive(Debug)]
pub struct ChangeLog {
    history: Vec<Operation>,
    cursor: usize,
}

impl ChangeLog {
    /// What this log denotes.
    pub closed spec fn view(self) -> LogSnap {
        LogSnap {
            history: self.history@.map_values(|op: Operation| op@),
            cursor: self.cursor as int,
        }
    }

    /// The cursor is in bounds.
    pub open spec fn wf(self) -> bool {
        self@.wf()
    }

    /// An empty log with the cursor at 0.
    pub fn new() -> (r: Self)
        ensures
            r.wf(),
            r@.history == Seq::<OpView>::empty(),
            r@.cursor == 0,
    {
        let r = ChangeLog { history: Vec::new(), cursor: 0 };
        proof {
            assert(r@.history =~= Seq::<OpView>::empty());
        }
        r
    }

    /// How many operations have been recorded.
    pub fn len(&self) -> (r: usize)
        ensures
            r == self@.history.len(),
    {
        self.history.len()
    }

    /// Where the cursor stands.
    pub fn cursor(&self) -> (r: usize)
        ensures
            r == self@.cursor,
    {
        self.cursor
    }

    /// The operation recorded at a slot, for inspection.
    pub fn op_at(&self, i: usize) -> (r: &Operation)
        requires
            i < self@.history.len(),
        ensures
            r@ == self@.history[i as int],
    {
        &self.history[i]
    }

    /// Append an operation; the new entry becomes the latest applied state,
    /// so the cursor moves to the new end.  Always succeeds.
    pub fn record(&mut self, op: Operation)
        requires
            old(self).wf(),
        ensures
            final(self).wf(),
            final(self)@ == log_record_spec(old(self)@, op@),
    {
        self.history.push(op);
        self.cursor = self.history.len();
        proof {
            assert(final(self)@.history =~= old(self)@.history.push(op@));
        }
    }

    /// If any operation is applied, apply the inverse effect of the latest
    /// one against the world and retreat the cursor; report whether an undo
    /// occurred.
    pub fn undo(&mut self, world: &mut EditorWorld) -> (r: bool)
        requires
            old(self).wf(),
            old(world).wf(),
            undo_budget(old(self)@, old(world)@),
        ensures
            final(self).wf(),
            final(world).wf(),
            r == (old(self)@.cursor > 0),
            (final(self)@, final(world)@, r) == log_undo_spec(old(self)@, old(world)@),
    {
        if self.cursor > 0 {
            let i = self.cursor - 1;
            let op = &mut self.history[i];
            op.undo(world);
            self.cursor = i;
            proof {
                assert(final(self)@.history
                    =~= old(self)@.history.update(i as int, final(op)@));
            }
            true
        } else {
            false
        }
    }

    /// If any operation is undone, apply the forward effect of the next one
    /// against the world and advance the cursor; report whether a redo
    /// occurred.
    pub fn redo(&mut self, world: &mut EditorWorld) -> (r: bool)
        requires
            old(self).wf(),
            old(world).wf(),
            redo_budget(old(self)@, old(world)@),
        ensures
            final(self).wf(),
            final(world).wf(),
            r == (old(self)@.cursor < old(self)@.history.len()),
            (final(self)@, final(world)@, r) == log_redo_spec(old(self)@, old(world)@),
    {
        if self.cursor < self.history.len() {
            let i = self.cursor;
            let op = &mut self.history[i];
            op.redo(world);
            self.cursor = i + 1;
            proof {
                assert(final(self)@.history
                    =~= old(self)@.history.update(i as int, final(op)@));
            }
            true
        } else {
            false
        }
    }
}

impl Operation {
    /// Append a copy of this operation to the given log, so a producer can
    /// record through a shared reference without giving up the live
    /// operation.
    pub fn record(&self, log: &mut ChangeLog)
        requires
            old(log).wf(),
        ensures
            final(log).wf(),
            final(log)@ == log_record_spec(old(log)@, self@),
    {
        log.record(self.duplicate());
    }
}

} // verus!
