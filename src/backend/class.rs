use vstd::prelude::*;

use crate::log::replay_suffix;

verus! {

/// A value that can hand out an exact copy of itself.
///
/// `Clone` alone says nothing to the verifier about what a clone holds;
/// the log needs copies that are equal to their originals.
pub trait Duplicate: Sized {
    fn duplicate(&self) -> (r: Self)
        ensures
            r == *self,
    ;
}

/// A store that saves log entries of one state type and hands back the
/// part of the log that rebuilds the state.
pub trait StateBackend {
    /// Aggregated state in memory.
    type State: State;
    /// Errors that can occur in the backend.
    type Err;

    /// Every entry written so far, oldest first.
    spec fn log(&self) -> Seq<SnapshotedUpdate<Self::State>>;

    /// True of a backend whose operations always succeed.
    spec fn never_fails() -> bool;

    /// Append one entry to the log.
    fn write(&mut self, upd: SnapshotedUpdate<Self::State>) -> (r: Result<(), Self::Err>)
        ensures
            r is Ok ==> final(self).log() == old(self).log().push(upd),
            Self::never_fails() ==> r is Ok,
    ;

    /// The entries back to and including the newest snapshot, oldest first.
    fn updates(&self) -> (r: Result<Vec<SnapshotedUpdate<Self::State>>, Self::Err>)
        ensures
            r is Ok ==> r->Ok_0@ == replay_suffix(self.log()),
            Self::never_fails() ==> r is Ok,
    ;
}

/// Aggregated state that is changed by small incremental updates.
pub trait State: Sized + Duplicate {
    /// Incremental single update of the state.
    type Update: Duplicate;
    /// Error of a rejected update.
    type Err;

    /// Table that holds the updates of this state.
    const TABLE: &'static str = "updates";

    /// What applying `upd` to `self` gives: the new state, or the error.
    spec fn next(self, upd: Self::Update) -> Result<Self, Self::Err>;

    /// Apply the update in place. On error nothing is promised about `self`.
    fn update(&mut self, upd: Self::Update) -> (r: Result<(), Self::Err>)
        ensures
            match old(self).next(upd) {
                Ok(s) => r is Ok && *final(self) == s,
                Err(e) => r == Err::<(), Self::Err>(e),
            },
    ;
}

/// One entry of the log: an incremental update, or a whole state.
pub enum SnapshotedUpdate<St: State> {
    Incremental(St::Update),
    Snapshot(St),
}

impl<St: State> SnapshotedUpdate<St> {
    /// True if the entry is a snapshot.
    pub fn is_snapshot(&self) -> (r: bool)
        ensures
            r == self is Snapshot,
    {
        match self {
            SnapshotedUpdate::Snapshot(_) => true,
            SnapshotedUpdate::Incremental(_) => false,
        }
    }
}

impl<St: State> Duplicate for SnapshotedUpdate<St> {
    fn duplicate(&self) -> (r: Self) {
        match self {
            SnapshotedUpdate::Incremental(u) => SnapshotedUpdate::Incremental(u.duplicate()),
            SnapshotedUpdate::Snapshot(s) => SnapshotedUpdate::Snapshot(s.duplicate()),
        }
    }
}

} // verus!
