use vstd::prelude::*;
use crate::rows::{views_of, copy_rows};

verus! {

/// Ghost view of the snapshot store: the stored rows and the completion flag.
pub struct StoreView {
    pub rows: Seq<Seq<char>>,
    pub complete: bool,
}

/// Holds the most recently completed snapshot and a completion flag.
///
/// Completion is monotonic: `record` is the only mutating operation and it
/// always leaves the store complete, so the flag never reverts for the
/// store's lifetime.
pub struct SnapshotStore {
    rows: Vec<String>,
    complete: bool,
}

impl View for SnapshotStore {
    type V = StoreView;

    closed spec fn view(&self) -> StoreView {
        StoreView { rows: views_of(self.rows@), complete: self.complete }
    }
}

impl SnapshotStore {
    /// Created empty and incomplete at startup.
    pub fn new() -> (s: SnapshotStore)
        ensures
            s@.rows == Seq::<Seq<char>>::empty(),
            !s@.complete,
    {
        let s = SnapshotStore { rows: Vec::new(), complete: false };
        proof {
            assert(s@.rows =~= Seq::<Seq<char>>::empty());
        }
        s
    }

    /// Overwrites the stored snapshot and marks it complete (idempotent).
    pub fn record(&mut self, rows: Vec<String>)
        ensures
            final(self)@.rows == views_of(rows@),
            final(self)@.complete,
    {
        self.rows = rows;
        self.complete = true;
    }

    pub fn is_complete(&self) -> (b: bool)
        ensures
            b == self@.complete,
    {
        self.complete
    }

    /// Returns a copy of the stored rows; a caller never observes a later
    /// mutation of the store through the copy.
    pub fn current(&self) -> (r: Vec<String>)
        ensures
            views_of(r@) == self@.rows,
    {
        copy_rows(&self.rows)
    }
}

} // verus!
