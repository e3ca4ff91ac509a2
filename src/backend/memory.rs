use vstd::prelude::*;

use crate::backend::class::{Duplicate, SnapshotedUpdate, State, StateBackend};
use crate::log::{lemma_suffix_from, replay_suffix};
use crate::util::reversed;
use std::convert::Infallible;

verus! {

/// A log kept in memory.
pub struct InMemory<St: State> {
    pub updates: Vec<SnapshotedUpdate<St>>,
}

impl<St: State> InMemory<St> {
    /// An empty log.
    pub fn new() -> (r: Self)
        ensures
            r.updates@ == Seq::<SnapshotedUpdate<St>>::empty(),
    {
        InMemory { updates: Vec::new() }
    }
}

impl<St: State> Default for InMemory<St> {
    fn default() -> (r: Self)
        ensures
            r.updates@ == Seq::<SnapshotedUpdate<St>>::empty(),
    {
        Self::new()
    }
}

impl<St: State> StateBackend for InMemory<St> {
    type State = St;
    type Err = Infallible;

    open spec fn log(&self) -> Seq<SnapshotedUpdate<St>> {
        self.updates@
    }

    open spec fn never_fails() -> bool {
        true
    }

    fn write(&mut self, upd: SnapshotedUpdate<St>) -> (r: Result<(), Infallible>) {
        self.updates.push(upd);
        Ok(())
    }

    fn updates(&self) -> (r: Result<Vec<SnapshotedUpdate<St>>, Infallible>) {
        let ghost log = self.updates@;
        let mut res: Vec<SnapshotedUpdate<St>> = Vec::new();
        let mut i: usize = self.updates.len();
        while i > 0
            invariant
                i <= log.len(),
                log == self.updates@,
                res@ == log.subrange(i as int, log.len() as int).reverse(),
                forall|j: int| i <= j < log.len() ==> !(#[trigger] log[j] is Snapshot),
            decreases i,
        {
            let v = &self.updates[i - 1];
            res.push(v.duplicate());
            proof {
                assert(log.subrange(i - 1, log.len() as int).reverse() =~= log.subrange(
                    i as int,
                    log.len() as int,
                ).reverse().push(log[i - 1]));
            }
            i = i - 1;
            if v.is_snapshot() {
                proof {
                    lemma_suffix_from(log, i as int);
                }
                let r = reversed(res);
                proof {
                    assert(r@ =~= log.subrange(i as int, log.len() as int));
                }
                return Ok(r);
            }
        }
        proof {
            lemma_suffix_from(log, 0);
        }
        let r = reversed(res);
        assert(r@ =~= log.subrange(0, log.len() as int));
        Ok(r)
    }
}

} // verus!
