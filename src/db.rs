use vstd::prelude::*;

use crate::backend::class::{Duplicate, SnapshotedUpdate, State, StateBackend};
use crate::log::{
    lemma_replay_prefix_err, lemma_replay_prefix_step, load_rest, load_seed, patched_load,
    patched_run, patched_step, patched_trace, replay, replay_suffix,
};

verus! {

/// An operation fails either in the state's own update logic or in the
/// storage backend.
#[derive(Debug)]
pub enum AppendErr<BackErr, UpdErr> {
    Update(UpdErr),
    Backend(BackErr),
}

/// The live state together with the backend that keeps its log.
///
/// Every change goes to the backend before it is applied in memory. The
/// operations take `&mut self`, so one writer at a time holds the instance;
/// callers that share it put it behind a lock.
pub struct AppendDb<T: StateBackend> {
    pub backend: T,
    pub last_state: T::State,
}

impl<St: State, Backend: StateBackend<State = St>> AppendDb<Backend> {
    /// Start with the given backend and in-memory state.
    pub fn new(backend: Backend, initial_state: St) -> (r: Self)
        ensures
            r.backend == backend,
            r.last_state == initial_state,
    {
        AppendDb { backend, last_state: initial_state }
    }

    /// A copy of the current state.
    pub fn get(&self) -> (r: St)
        ensures
            r == self.last_state,
    {
        self.last_state.duplicate()
    }

    /// Write the update to the backend, then apply it to the state.
    pub fn update(&mut self, upd: St::Update) -> (r: Result<(), AppendErr<Backend::Err, St::Err>>)
        ensures
            r matches Err(AppendErr::Backend(_)) ==> final(self).last_state == old(self).last_state,
            !(r matches Err(AppendErr::Backend(_))) ==> final(self).backend.log() == old(
                self,
            ).backend.log().push(SnapshotedUpdate::Incremental(upd)),
            r is Ok ==> Ok::<St, St::Err>(final(self).last_state) == old(self).last_state.next(upd),
            r matches Err(AppendErr::Update(e)) ==> old(self).last_state.next(upd) == Err::<
                St,
                St::Err,
            >(e),
            Backend::never_fails() ==> !(r matches Err(AppendErr::Backend(_))),
    {
        let entry = SnapshotedUpdate::Incremental(St::Update::duplicate(&upd));
        match self.backend.write(entry) {
            Ok(()) => {},
            Err(e) => {
                return Err(AppendErr::Backend(e));
            },
        }
        match self.last_state.update(upd) {
            Ok(()) => Ok(()),
            Err(e) => Err(AppendErr::Update(e)),
        }
    }

    /// Write the current state to the backend as a snapshot.
    pub fn snapshot(&mut self) -> (r: Result<(), AppendErr<Backend::Err, St::Err>>)
        ensures
            final(self).last_state == old(self).last_state,
            r is Ok ==> final(self).backend.log() == old(self).backend.log().push(
                SnapshotedUpdate::Snapshot(old(self).last_state),
            ),
            r matches Err(e) ==> e is Backend,
            Backend::never_fails() ==> r is Ok,
    {
        let entry = SnapshotedUpdate::Snapshot(self.last_state.duplicate());
        match self.backend.write(entry) {
            Ok(()) => Ok(()),
            Err(e) => Err(AppendErr::Backend(e)),
        }
    }

    /// Rebuild the state by replaying what the backend hands back onto the
    /// current state. The state changes only if the whole replay succeeds.
    pub fn load(&mut self) -> (r: Result<(), AppendErr<Backend::Err, St::Err>>)
        ensures
            final(self).backend == old(self).backend,
            r is Ok ==> replay(old(self).last_state, replay_suffix(old(self).backend.log())) == Ok::<
                St,
                St::Err,
            >(final(self).last_state),
            r matches Err(AppendErr::Update(e)) ==> replay(
                old(self).last_state,
                replay_suffix(old(self).backend.log()),
            ) == Err::<St, St::Err>(e),
            r is Err ==> final(self).last_state == old(self).last_state,
            Backend::never_fails() ==> !(r matches Err(AppendErr::Backend(_))),
    {
        let updates = match self.backend.updates() {
            Ok(u) => u,
            Err(e) => {
                return Err(AppendErr::Backend(e));
            },
        };
        match fold_updates(&self.last_state, &updates) {
            Ok(s) => {
                self.last_state = s;
                Ok(())
            },
            Err(e) => Err(AppendErr::Update(e)),
        }
    }

    /// Rebuild the state like `load`, but pass every seed through
    /// `patch_state`: the first seed with `true`, each later snapshot with
    /// `false`. This restores runtime data that the log does not hold.
    pub fn load_patched<F>(&mut self, patch_state: F) -> (r: Result<
        (),
        AppendErr<Backend::Err, St::Err>,
    >) where F: Fn(St, bool) -> St
        requires
            forall|s: St, b: bool| #[trigger] patch_state.requires((s, b)),
        ensures
            final(self).backend == old(self).backend,
            r is Ok ==> patched_load(
                patch_state,
                old(self).last_state,
                replay_suffix(old(self).backend.log()),
                Ok::<St, St::Err>(final(self).last_state),
            ),
            r matches Err(AppendErr::Update(e)) ==> patched_load(
                patch_state,
                old(self).last_state,
                replay_suffix(old(self).backend.log()),
                Err::<St, St::Err>(e),
            ),
            r is Err ==> final(self).last_state == old(self).last_state,
            Backend::never_fails() ==> !(r matches Err(AppendErr::Backend(_))),
    {
        let updates = match self.backend.updates() {
            Ok(u) => u,
            Err(e) => {
                return Err(AppendErr::Backend(e));
            },
        };
        match fold_updates_patched(&self.last_state, &updates, patch_state) {
            Ok(s) => {
                self.last_state = s;
                Ok(())
            },
            Err(e) => Err(AppendErr::Update(e)),
        }
    }
}

/// Fold the entries, oldest first, onto a copy of `cached`. When the
/// first entry is a snapshot the fold starts from it; that gives the same
/// result, with one step less.
pub fn fold_updates<St: State>(cached: &St, updates: &Vec<SnapshotedUpdate<St>>) -> (r: Result<
    St,
    St::Err,
>)
    ensures
        r == replay(*cached, updates@),
{
    let ghost seed = *cached;
    let ghost entries = updates@;
    let seeded = updates.len() > 0 && updates[0].is_snapshot();
    let mut state: St = if seeded {
        match &updates[0] {
            SnapshotedUpdate::Snapshot(s) => s.duplicate(),
            SnapshotedUpdate::Incremental(_) => cached.duplicate(),
        }
    } else {
        cached.duplicate()
    };
    let mut i: usize = if seeded {
        1
    } else {
        0
    };
    proof {
        assert(entries.subrange(0, 0) =~= Seq::<SnapshotedUpdate<St>>::empty());
        if seeded {
            lemma_replay_prefix_step(seed, entries, 0);
        }
    }
    while i < updates.len()
        invariant
            entries == updates@,
            i <= entries.len(),
            replay(seed, entries.subrange(0, i as int)) == Ok::<St, St::Err>(state),
            seed == *cached,
        decreases entries.len() - i,
    {
        proof {
            lemma_replay_prefix_step(seed, entries, i as int);
        }
        match &updates[i] {
            SnapshotedUpdate::Snapshot(s) => {
                state = s.duplicate();
            },
            SnapshotedUpdate::Incremental(u) => {
                match state.update(St::Update::duplicate(u)) {
                    Ok(()) => {},
                    Err(e) => {
                        proof {
                            lemma_replay_prefix_err(seed, entries, i + 1);
                        }
                        return Err(e);
                    },
                }
            },
        }
        i = i + 1;
    }
    assert(entries.subrange(0, entries.len() as int) =~= entries);
    Ok(state)
}

/// Fold the entries like `fold_updates`, but pass every seed through
/// `patch_state`: the first seed with `true`, each later snapshot with
/// `false`.
pub fn fold_updates_patched<St: State, F: Fn(St, bool) -> St>(
    cached: &St,
    updates: &Vec<SnapshotedUpdate<St>>,
    patch_state: F,
) -> (r: Result<St, St::Err>)
    requires
        forall|s: St, b: bool| #[trigger] patch_state.requires((s, b)),
    ensures
        patched_load(patch_state, *cached, updates@, r),
{
    let ghost entries = updates@;
    let seeded = updates.len() > 0 && updates[0].is_snapshot();
    let seed: St = if seeded {
        match &updates[0] {
            SnapshotedUpdate::Snapshot(s) => s.duplicate(),
            SnapshotedUpdate::Incremental(_) => cached.duplicate(),
        }
    } else {
        cached.duplicate()
    };
    let mut state = patch_state(seed, true);
    let ghost first = state;

    let start: usize = if seeded {
        1
    } else {
        0
    };
    let ghost rest = load_rest(entries);
    let ghost mut states: Seq<St> = seq![first];
    assert(rest =~= entries.subrange(start as int, entries.len() as int));
    assert(rest.take(0) =~= Seq::<SnapshotedUpdate<St>>::empty());
    let mut i: usize = start;
    while i < updates.len()
        invariant
            entries == updates@,
            start <= i <= entries.len(),
            rest == entries.subrange(start as int, entries.len() as int),
            rest == load_rest(entries),
            patch_state.ensures((load_seed(*cached, entries), true), first),
            states[0] == first,
            patched_trace(patch_state, rest.take(i - start), states),
            states.last() == state,
            forall|s: St, b: bool| #[trigger] patch_state.requires((s, b)),
        decreases entries.len() - i,
    {
        let ghost k = i - start;
        assert(rest[k] == entries[i as int]);
        match &updates[i] {
            SnapshotedUpdate::Snapshot(s) => {
                state = patch_state(s.duplicate(), false);
            },
            SnapshotedUpdate::Incremental(u) => {
                let ghost prev = state;
                match state.update(St::Update::duplicate(u)) {
                    Ok(()) => {},
                    Err(e) => {
                        proof {
                            assert(patched_step(patch_state, prev, rest[k], Err::<St, St::Err>(e)));
                            assert(patched_run(patch_state, rest, states, Err::<St, St::Err>(e)));
                        }
                        return Err(e);
                    },
                }
            },
        }
        proof {
            let old_states = states;
            states = states.push(state);
            assert(rest.take(k + 1).drop_last() =~= rest.take(k));
            assert forall|j: int| 0 <= j < k + 1 implies #[trigger] patched_step(
                patch_state,
                states[j],
                rest.take(k + 1)[j],
                Ok::<St, St::Err>(states[j + 1]),
            ) by {
                if j < k {
                    assert(rest.take(k + 1)[j] == rest.take(k)[j]);
                    assert(patched_step(
                        patch_state,
                        old_states[j],
                        rest.take(k)[j],
                        Ok::<St, St::Err>(old_states[j + 1]),
                    ));
                }
            }
        }
        i = i + 1;
    }
    assert(rest.take(rest.len() as int) =~= rest);
    assert(patched_run(patch_state, rest, states, Ok::<St, St::Err>(state)));
    Ok(state)
}

} // verus!
