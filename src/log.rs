use vstd::prelude::*;

use crate::backend::class::{SnapshotedUpdate, State};

verus! {

/// Folding one log entry onto a state: a snapshot replaces the state,
/// an incremental update is applied to it.
pub open spec fn step<St: State>(s: St, e: SnapshotedUpdate<St>) -> Result<St, St::Err> {
    match e {
        SnapshotedUpdate::Snapshot(t) => Ok(t),
        SnapshotedUpdate::Incremental(u) => s.next(u),
    }
}

/// Left fold of `log` (oldest first) onto `seed`; the first failing update
/// ends the fold with its error.
pub open spec fn replay<St: State>(seed: St, log: Seq<SnapshotedUpdate<St>>) -> Result<St, St::Err>
    decreases log.len(),
{
    if log.len() == 0 {
        Ok(seed)
    } else {
        match replay(seed, log.drop_last()) {
            Ok(s) => step(s, log.last()),
            Err(e) => Err(e),
        }
    }
}

/// The shortest suffix of `log` that is enough to rebuild the state: back to
/// and including the newest snapshot, or the whole log if it has none.
pub open spec fn replay_suffix<St: State>(log: Seq<SnapshotedUpdate<St>>) -> Seq<SnapshotedUpdate<St>>
    decreases log.len(),
{
    if log.len() == 0 {
        log
    } else if log.last() is Snapshot {
        seq![log.last()]
    } else {
        replay_suffix(log.drop_last()).push(log.last())
    }
}

/// Replaying `a + b` in one pass is replaying `a`, then replaying `b` onto
/// what that gave; an error in `a` ends the whole fold.
pub proof fn lemma_replay_append<St: State>(
    seed: St,
    a: Seq<SnapshotedUpdate<St>>,
    b: Seq<SnapshotedUpdate<St>>,
)
    ensures
        replay(seed, a + b) == match replay(seed, a) {
            Ok(s) => replay(s, b),
            Err(e) => Err(e),
        },
    decreases b.len(),
{
    if b.len() == 0 {
        assert(a + b =~= a);
    } else {
        lemma_replay_append(seed, a, b.drop_last());
        assert((a + b).drop_last() =~= a + b.drop_last());
        assert((a + b).last() == b.last());
    }
}

/// A fold gives the same result in one pass as when it is split at any
/// point `k` into the snapshot of the state reached there and the rest:
/// from that snapshot, the seed of the second part does not matter.
pub proof fn lemma_replay_split_at_snapshot<St: State>(
    seed: St,
    log: Seq<SnapshotedUpdate<St>>,
    k: int,
    other: St,
)
    requires
        0 <= k <= log.len(),
    ensures
        replay(seed, log) == match replay(seed, log.take(k)) {
            Ok(s) => replay(other, seq![SnapshotedUpdate::Snapshot(s)] + log.skip(k)),
            Err(e) => Err(e),
        },
{
    lemma_replay_append(seed, log.take(k), log.skip(k));
    assert(log.take(k) + log.skip(k) =~= log);
    match replay(seed, log.take(k)) {
        Ok(s) => {
            let snap = seq![SnapshotedUpdate::Snapshot(s)];
            lemma_replay_append(other, snap, log.skip(k));
            assert(snap.drop_last() =~= Seq::<SnapshotedUpdate<St>>::empty());
            assert(replay(other, snap.drop_last()) == Ok::<St, St::Err>(other));
            assert(replay(other, snap) == Ok::<St, St::Err>(s));
        },
        Err(_) => {},
    }
}

/// Once a snapshot is written, the part of the log that rebuilds the
/// state is that snapshot alone, until the next write.
pub proof fn lemma_snapshot_truncates<St: State>(log: Seq<SnapshotedUpdate<St>>, s: St)
    ensures
        replay_suffix(log.push(SnapshotedUpdate::Snapshot(s))) == seq![
            SnapshotedUpdate::<St>::Snapshot(s),
        ],
{
}

/// A log that holds a snapshot rebuilds to the same state from any
/// starting state, so loading twice with no write in between gives the same
/// state both times.
pub proof fn lemma_load_idempotent<St: State>(cached: St, log: Seq<SnapshotedUpdate<St>>)
    requires
        exists|j: int| 0 <= j < log.len() && (#[trigger] log[j]) is Snapshot,
    ensures
        replay(cached, replay_suffix(log)) matches Ok(x) ==> replay(x, replay_suffix(log)) == Ok::<
            St,
            St::Err,
        >(x),
{
    lemma_suffix_starts_with_snapshot(log);
    let sfx = replay_suffix(log);
    let s = sfx[0]->Snapshot_0;
    if let Ok(x) = replay(cached, sfx) {
        let first = sfx.take(1);
        assert(first.drop_last() =~= Seq::<SnapshotedUpdate<St>>::empty());
        assert(first.last() == sfx[0]);
        assert(replay(cached, first.drop_last()) == Ok::<St, St::Err>(cached));
        assert(replay(x, first.drop_last()) == Ok::<St, St::Err>(x));
        assert(replay(cached, first) == Ok::<St, St::Err>(s));
        assert(replay(x, first) == Ok::<St, St::Err>(s));
        lemma_replay_split_at_snapshot(cached, sfx, 1, cached);
        lemma_replay_split_at_snapshot(x, sfx, 1, cached);
    }
}

/// When the log holds a snapshot, the part that rebuilds the state starts
/// with one.
pub proof fn lemma_suffix_starts_with_snapshot<St: State>(log: Seq<SnapshotedUpdate<St>>)
    requires
        exists|j: int| 0 <= j < log.len() && (#[trigger] log[j]) is Snapshot,
    ensures
        replay_suffix(log).len() > 0,
        replay_suffix(log)[0] is Snapshot,
    decreases log.len(),
{
    if !(log.last() is Snapshot) {
        let j = choose|j: int| 0 <= j < log.len() && (#[trigger] log[j]) is Snapshot;
        assert(log.drop_last()[j] == log[j]);
        lemma_suffix_starts_with_snapshot(log.drop_last());
    }
}

/// One more entry on a prefix of `log`: the replay of `log[..i + 1]`
/// is one step from the replay of `log[..i]`.
pub proof fn lemma_replay_prefix_step<St: State>(seed: St, log: Seq<SnapshotedUpdate<St>>, i: int)
    requires
        0 <= i < log.len(),
    ensures
        replay(seed, log.subrange(0, i + 1)) == match replay(seed, log.subrange(0, i)) {
            Ok(s) => step(s, log[i]),
            Err(e) => Err(e),
        },
{
    assert(log.subrange(0, i + 1).drop_last() =~= log.subrange(0, i));
    assert(log.subrange(0, i + 1).last() == log[i]);
}

/// Once a prefix of the log fails, the replay of the whole log fails with
/// the same error.
pub proof fn lemma_replay_prefix_err<St: State>(seed: St, log: Seq<SnapshotedUpdate<St>>, i: int)
    requires
        0 <= i <= log.len(),
        replay(seed, log.subrange(0, i)) is Err,
    ensures
        replay(seed, log) == replay(seed, log.subrange(0, i)),
{
    lemma_replay_append(seed, log.subrange(0, i), log.subrange(i, log.len() as int));
    assert(log.subrange(0, i) + log.subrange(i, log.len() as int) =~= log);
}

/// The state a load starts from: the first entry when it is a snapshot,
/// else the state held in memory.
pub open spec fn load_seed<St: State>(cached: St, entries: Seq<SnapshotedUpdate<St>>) -> St {
    if entries.len() > 0 && entries[0] is Snapshot {
        entries[0]->Snapshot_0
    } else {
        cached
    }
}

/// The entries a load folds after its seed.
pub open spec fn load_rest<St: State>(entries: Seq<SnapshotedUpdate<St>>) -> Seq<
    SnapshotedUpdate<St>,
> {
    if entries.len() > 0 && entries[0] is Snapshot {
        entries.skip(1)
    } else {
        entries
    }
}

/// `out` may follow `s` by the entry `e` when every snapshot met is passed
/// through `patch` (with `false`: it is not the first seed).
pub open spec fn patched_step<St: State, F: Fn(St, bool) -> St>(
    patch: F,
    s: St,
    e: SnapshotedUpdate<St>,
    out: Result<St, St::Err>,
) -> bool {
    match e {
        SnapshotedUpdate::Snapshot(t) => out is Ok && patch.ensures((t, false), out->Ok_0),
        SnapshotedUpdate::Incremental(u) => out == s.next(u),
    }
}

/// `states` records a fold of `log` in which every step succeeds:
/// `states[i + 1]` follows `states[i]` by the entry `log[i]`.
pub open spec fn patched_trace<St: State, F: Fn(St, bool) -> St>(
    patch: F,
    log: Seq<SnapshotedUpdate<St>>,
    states: Seq<St>,
) -> bool {
    &&& states.len() == log.len() + 1
    &&& forall|i: int|
        0 <= i < log.len() ==> #[trigger] patched_step(
            patch,
            states[i],
            log[i],
            Ok::<St, St::Err>(states[i + 1]),
        )
}

/// `out` is the outcome of a fold of `log` recorded by `states`: the last
/// state when every entry folds, or the error of the first failing update.
pub open spec fn patched_run<St: State, F: Fn(St, bool) -> St>(
    patch: F,
    log: Seq<SnapshotedUpdate<St>>,
    states: Seq<St>,
    out: Result<St, St::Err>,
) -> bool {
    match out {
        Ok(s) => patched_trace(patch, log, states) && states.last() == s,
        Err(_) => {
            &&& 0 < states.len() <= log.len()
            &&& patched_trace(patch, log.take(states.len() - 1), states)
            &&& patched_step(patch, states.last(), log[states.len() - 1], out)
        },
    }
}

/// `out` is a possible result of a patched load that starts from the
/// state `cached` and folds `entries`: the seed passes through `patch`
/// with `true`, then the rest is folded with `patched_step`.
pub open spec fn patched_load<St: State, F: Fn(St, bool) -> St>(
    patch: F,
    cached: St,
    entries: Seq<SnapshotedUpdate<St>>,
    out: Result<St, St::Err>,
) -> bool {
    exists|states: Seq<St>|
        #[trigger] patched_run(patch, load_rest(entries), states, out) && patch.ensures(
            (load_seed(cached, entries), true),
            states[0],
        )
}

/// `replay_suffix` starts at `k` when `log[k]` is the newest snapshot, or
/// at 0 when no entry after the first is a snapshot.
pub proof fn lemma_suffix_from<St: State>(log: Seq<SnapshotedUpdate<St>>, k: int)
    requires
        0 <= k <= log.len(),
        k < log.len() || k == 0,
        k == 0 || log[k] is Snapshot,
        forall|j: int| k < j < log.len() ==> !(#[trigger] log[j] is Snapshot),
    ensures
        replay_suffix(log) == log.subrange(k, log.len() as int),
    decreases log.len(),
{
    if log.len() == 0 {
        assert(log.subrange(k, 0) =~= log);
    } else if log.len() - 1 == k {
        if log.last() is Snapshot {
            assert(log.subrange(k, log.len() as int) =~= seq![log.last()]);
        } else {
            assert(log.drop_last() =~= Seq::<SnapshotedUpdate<St>>::empty());
            assert(replay_suffix(log.drop_last()) == log.drop_last());
            assert(log.subrange(k, log.len() as int) =~= seq![log.last()]);
        }
    } else {
        assert(!(log[log.len() - 1] is Snapshot));
        assert forall|j: int| k < j < log.len() - 1 implies !(#[trigger] log.drop_last()[j] is Snapshot) by {
            assert(log.drop_last()[j] == log[j]);
        }
        lemma_suffix_from(log.drop_last(), k);
        assert(log.drop_last().subrange(k, log.len() - 1).push(log.last()) =~= log.subrange(
            k,
            log.len() as int,
        ));
    }
}

} // verus!
