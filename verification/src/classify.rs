use vstd::prelude::*;
use crate::rows::{views_of, copy_rows};
use crate::store::SnapshotStore;

verus! {

/// How many buffered rows make the classifier treat the initial burst as the
/// snapshot.
pub const SNAPSHOT_THRESHOLD: usize = 3;

/// How long the caller should wait, in milliseconds, for a trailing burst
/// before publishing the snapshot.
pub const SETTLE_MILLIS: u64 = 100;

/// The classifier's phase: buffering the initial snapshot, or forwarding
/// live incremental rows. `Live` is terminal for the stream's lifetime.
#[derive(Clone, Copy, Debug, PartialEq, Eq, Structural)]
pub enum Phase {
    Snapshotting,
    Live,
}

/// What the caller must do with the row it just handed over.
#[derive(Debug, PartialEq, Eq, Structural)]
pub enum RowAction {
    /// The row was buffered as part of the pending snapshot.
    Buffered,
    /// The threshold was reached: wait `SETTLE_MILLIS`, then call
    /// `publish_snapshot` and broadcast the row it returns.
    SettleThenPublish,
    /// The stream is live: broadcast the row.
    Broadcast,
}

/// Decides, without an explicit marker, whether each incoming row belongs to
/// the initial snapshot or to the incremental tail. This is a heuristic: it
/// assumes snapshot rows arrive in one tight burst followed by a gap.
pub struct Classifier {
    phase: Phase,
    pending: Vec<String>,
}

impl Classifier {
    pub closed spec fn phase_spec(self) -> Phase {
        self.phase
    }

    /// The rows buffered so far for the pending snapshot.
    pub closed spec fn pending_rows(self) -> Seq<Seq<char>> {
        views_of(self.pending@)
    }

    pub fn phase(&self) -> (p: Phase)
        ensures
            p == self.phase_spec(),
    {
        self.phase
    }

    pub fn pending_len(&self) -> (n: usize)
        ensures
            n == self.pending_rows().len(),
    {
        self.pending.len()
    }

    pub fn new() -> (c: Classifier)
        ensures
            c.phase_spec() == Phase::Snapshotting,
            c.pending_rows() == Seq::<Seq<char>>::empty(),
    {
        let c = Classifier { phase: Phase::Snapshotting, pending: Vec::new() };
        proof {
            assert(c.pending_rows() =~= Seq::<Seq<char>>::empty());
        }
        c
    }

    /// Classifies one incoming row. While snapshotting, the row is buffered
    /// and, once the buffer reaches the threshold, the caller is told to
    /// settle and publish; once live, every row is for broadcast only.
    pub fn on_row(&mut self, row: String) -> (a: RowAction)
        ensures
            old(self).phase_spec() == Phase::Live ==> {
                &&& final(self).phase_spec() == Phase::Live
                &&& final(self).pending_rows() == old(self).pending_rows()
                &&& a == RowAction::Broadcast
            },
            old(self).phase_spec() == Phase::Snapshotting ==> {
                &&& final(self).phase_spec() == Phase::Snapshotting
                &&& final(self).pending_rows() == old(self).pending_rows().push(row@)
                &&& a == (if old(self).pending_rows().len() + 1 >= SNAPSHOT_THRESHOLD {
                    RowAction::SettleThenPublish
                } else {
                    RowAction::Buffered
                })
            },
    {
        match self.phase {
            Phase::Live => RowAction::Broadcast,
            Phase::Snapshotting => {
                let ghost rv = row@;
                self.pending.push(row);
                proof {
                    assert(views_of(self.pending@) =~= views_of(old(self).pending@).push(rv));
                }
                if self.pending.len() >= SNAPSHOT_THRESHOLD {
                    RowAction::SettleThenPublish
                } else {
                    RowAction::Buffered
                }
            },
        }
    }

    /// Publishes the buffered burst as the completed snapshot and goes live.
    /// Returns the row that triggered completion, which the caller broadcasts
    /// as well (a deliberate at-least-once duplicate for subscribers
    /// connected at that instant).
    pub fn publish_snapshot(&mut self, store: &mut SnapshotStore) -> (trigger: String)
        requires
            old(self).phase_spec() == Phase::Snapshotting,
            old(self).pending_rows().len() > 0,
        ensures
            final(self).phase_spec() == Phase::Live,
            final(store)@.rows == old(self).pending_rows(),
            final(store)@.complete,
            trigger@ == old(self).pending_rows().last(),
    {
        let trigger = self.pending[self.pending.len() - 1].clone();
        let rows = copy_rows(&self.pending);
        store.record(rows);
        self.phase = Phase::Live;
        trigger
    }

    /// The source ended. If the snapshot phase never finished, the buffered
    /// rows (possibly none) are flushed into the store and marked complete;
    /// nothing is broadcast. A live classifier leaves the store untouched.
    pub fn on_source_end(&mut self, store: &mut SnapshotStore)
        ensures
            *final(self) == *old(self),
            old(self).phase_spec() == Phase::Snapshotting ==> {
                &&& final(store)@.rows == old(self).pending_rows()
                &&& final(store)@.complete
            },
            old(self).phase_spec() == Phase::Live ==> *final(store) == *old(store),
    {
        match self.phase {
            Phase::Snapshotting => {
                let rows = copy_rows(&self.pending);
                store.record(rows);
            },
            Phase::Live => {},
        }
    }
}

} // verus!
