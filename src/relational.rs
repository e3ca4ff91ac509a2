use vstd::prelude::*;

use crate::backend::class::{Duplicate, SnapshotedUpdate, State};
use crate::update::{lemma_round_trip, HasUpdateTag, UpdateBodyError, VersionedState};
use crate::log::replay_suffix;
use crate::util::reversed;
use serde_json::Value;

verus! {

/// One entry of the log as a relational table stores it. The table adds the
/// creation time, which orders the rows.
pub struct Row {
    /// The entry's version, in the table's signed 16-bit column.
    pub version: i16,
    pub tag: String,
    pub body: Value,
}

/// The entry that a row decodes to.
pub open spec fn decode_row<Upd: HasUpdateTag + Duplicate, St: State<Update = Upd> + VersionedState>(
    row: Row,
) -> Result<SnapshotedUpdate<St>, UpdateBodyError> {
    SnapshotedUpdate::<St>::decoded(row.tag, row.version as u16, row.body)
}

/// Decoding rows newest first up to and including the first snapshot: the
/// entries met, newest first, or the first decoding error.
pub open spec fn scan_rows<Upd: HasUpdateTag + Duplicate, St: State<Update = Upd> + VersionedState>(
    rows: Seq<Row>,
) -> Result<Seq<SnapshotedUpdate<St>>, UpdateBodyError>
    decreases rows.len(),
{
    if rows.len() == 0 {
        Ok(Seq::empty())
    } else {
        match decode_row::<Upd, St>(rows[0]) {
            Err(e) => Err(e),
            Ok(x) => if x is Snapshot {
                Ok(seq![x])
            } else {
                prepend(seq![x], scan_rows::<Upd, St>(rows.skip(1)))
            },
        }
    }
}

/// `front` followed by the entries of `rest`, or the error of `rest`.
pub open spec fn prepend<St: State>(
    front: Seq<SnapshotedUpdate<St>>,
    rest: Result<Seq<SnapshotedUpdate<St>>, UpdateBodyError>,
) -> Result<Seq<SnapshotedUpdate<St>>, UpdateBodyError> {
    match rest {
        Ok(t) => Ok(front + t),
        Err(e) => Err(e),
    }
}

/// Encode a log entry as a row.
pub fn encode_row<Upd: HasUpdateTag + Duplicate, St: State<Update = Upd> + VersionedState>(
    entry: &SnapshotedUpdate<St>,
) -> (r: Result<Row, UpdateBodyError>)
    ensures
        match entry.encoded() {
            Ok(b) => {
                &&& r is Ok
                &&& r->Ok_0.body == b
                &&& entry.tag_is(r->Ok_0.tag)
                &&& r->Ok_0.version == entry.version_of() as i16
            },
            Err(e) => r == Err::<Row, UpdateBodyError>(e),
        },
{
    let tag = entry.get_tag();
    let body = match entry.serialize_untagged() {
        Ok(b) => b,
        Err(e) => {
            return Err(e);
        },
    };
    Ok(Row { version: entry.get_version() as i16, tag, body })
}

/// Rows fed newest first, decoded until the first snapshot.
pub struct RowScan<St: State> {
    /// The entries decoded so far, newest first.
    pub newest_first: Vec<SnapshotedUpdate<St>>,
    /// A snapshot was met: no further row is needed.
    pub done: bool,
}

impl<Upd: HasUpdateTag + Duplicate, St: State<Update = Upd> + VersionedState> RowScan<St> {
    /// A scan that has seen no row.
    pub fn new() -> (r: Self)
        ensures
            r.newest_first@ == Seq::<SnapshotedUpdate<St>>::empty(),
            !r.done,
    {
        RowScan { newest_first: Vec::new(), done: false }
    }

    /// Take the next older row. Returns whether more rows are wanted; a
    /// row that does not decode leaves the scan as it was.
    pub fn push_row(&mut self, row: Row) -> (r: Result<bool, UpdateBodyError>)
        ensures
            old(self).done ==> r == Ok::<bool, UpdateBodyError>(false) && *final(self) == *old(
                self,
            ),
            !old(self).done ==> match decode_row::<Upd, St>(row) {
                Ok(x) => {
                    &&& r == Ok::<bool, UpdateBodyError>(!(x is Snapshot))
                    &&& final(self).newest_first@ == old(self).newest_first@.push(x)
                    &&& final(self).done == x is Snapshot
                },
                Err(e) => r == Err::<bool, UpdateBodyError>(e) && *final(self) == *old(self),
            },
    {
        if self.done {
            return Ok(false);
        }
        let item = SnapshotedUpdate::<St>::deserialize_by_tag(&row.tag, row.version as u16, row.body);
        match item {
            Ok(x) => {
                let is_end = x.is_snapshot();
                self.newest_first.push(x);
                self.done = is_end;
                Ok(!is_end)
            },
            Err(e) => Err(e),
        }
    }

    /// The decoded entries, oldest first.
    pub fn finish(self) -> (r: Vec<SnapshotedUpdate<St>>)
        ensures
            r@ == self.newest_first@.reverse(),
    {
        reversed(self.newest_first)
    }
}

/// Decode rows given newest first, up to and including the first
/// snapshot, and return the entries oldest first.
pub fn decode_rows<Upd: HasUpdateTag + Duplicate, St: State<Update = Upd> + VersionedState>(
    rows: Vec<Row>,
) -> (r: Result<Vec<SnapshotedUpdate<St>>, UpdateBodyError>)
    ensures
        match scan_rows::<Upd, St>(rows@) {
            Ok(t) => r is Ok && r->Ok_0@ == t.reverse(),
            Err(e) => r == Err::<Vec<SnapshotedUpdate<St>>, UpdateBodyError>(e),
        },
{
    let ghost all = rows@;
    let n = rows.len();
    let mut pending = reversed(rows);
    let mut scan = RowScan::<St>::new();
    let mut i: usize = 0;
    assert(all.skip(0) =~= all);
    assert(Seq::<SnapshotedUpdate<St>>::empty() + Seq::empty() =~= Seq::<SnapshotedUpdate<St>>::empty());
    proof {
        match scan_rows::<Upd, St>(all) {
            Ok(t) => assert(Seq::<SnapshotedUpdate<St>>::empty() + t =~= t),
            Err(_) => {},
        }
    }
    while i < n
        invariant
            all == rows@,
            n == all.len(),
            i <= n,
            pending@ == all.subrange(i as int, n as int).reverse(),
            !scan.done,
            scan_rows::<Upd, St>(all) == prepend(scan.newest_first@, scan_rows::<Upd, St>(all.skip(i as int))),
        decreases n - i,
    {
        proof {
            assert(pending@.len() > 0);
            assert(pending@.last() == all[i as int]);
        }
        let row = pending.pop().unwrap();
        proof {
            assert(pending@ =~= all.subrange(i + 1, n as int).reverse());
            let tail = all.skip(i as int);
            assert(tail[0] == all[i as int]);
            assert(tail.skip(1) =~= all.skip(i + 1));
        }
        let ghost before = scan.newest_first@;
        match scan.push_row(row) {
            Err(e) => {
                proof {
                    assert(scan_rows::<Upd, St>(all.skip(i as int)) == Err::<
                        Seq<SnapshotedUpdate<St>>,
                        UpdateBodyError,
                    >(e));
                }
                return Err(e);
            },
            Ok(more) => {
                if !more {
                    proof {
                        let x = scan.newest_first@.last();
                        assert(scan_rows::<Upd, St>(all.skip(i as int)) == Ok::<
                            Seq<SnapshotedUpdate<St>>,
                            UpdateBodyError,
                        >(seq![x]));
                        assert(before + seq![scan.newest_first@.last()] =~= scan.newest_first@);
                    }
                    return Ok(scan.finish());
                }
                proof {
                    let x = scan.newest_first@.last();
                    assert(before.push(x) =~= scan.newest_first@);
                    match scan_rows::<Upd, St>(all.skip(i + 1)) {
                        Ok(t) => assert(before + (seq![x] + t) =~= scan.newest_first@ + t),
                        Err(_) => {},
                    }
                }
            },
        }
        i = i + 1;
    }
    proof {
        assert(all.skip(n as int) =~= Seq::<Row>::empty());
        assert(scan.newest_first@ + Seq::empty() =~= scan.newest_first@);
    }
    Ok(scan.finish())
}

/// The version column keeps every version: reading back the signed column
/// gives the version that was written.
pub proof fn lemma_version_column(v: u16)
    ensures
        (v as i16) as u16 == v,
{
    assert((v as i16) as u16 == v) by (bit_vector);
}

/// A row inverts the encoding of its entry: a row that `encode_row` makes
/// of `e` decodes to `e`, wherever the update's or the state's own codec
/// inverts itself on the value inside.
pub proof fn lemma_row_round_trip<Upd: HasUpdateTag + Duplicate, St: State<Update = Upd> + VersionedState>(
    e: SnapshotedUpdate<St>,
    row: Row,
)
    requires
        e.encoded() == Ok::<Value, UpdateBodyError>(row.body),
        e.tag_is(row.tag),
        row.version == e.version_of() as i16,
        match e {
            SnapshotedUpdate::Snapshot(s) => St::decoded_state(s.state_version(), row.body) == Ok::<
                St,
                UpdateBodyError,
            >(s),
            SnapshotedUpdate::Incremental(u) => Upd::decoded(u.tag_spec(), u.version_spec(), row.body)
                == Ok::<Upd, UpdateBodyError>(u),
        },
    ensures
        decode_row::<Upd, St>(row) == Ok::<SnapshotedUpdate<St>, UpdateBodyError>(e),
{
    lemma_version_column(e.version_of());
    lemma_round_trip(e, row.tag, row.body);
}

/// Reading a table gives what the in-memory log gives: when the rows,
/// newest first, decode to the entries of `log`, the scan yields the
/// shortest suffix of `log` that rebuilds the state.
pub proof fn lemma_rows_match_log<Upd: HasUpdateTag + Duplicate, St: State<Update = Upd> + VersionedState>(
    rows: Seq<Row>,
    log: Seq<SnapshotedUpdate<St>>,
)
    requires
        rows.len() == log.len(),
        forall|i: int|
            0 <= i < rows.len() ==> #[trigger] decode_row::<Upd, St>(rows[i]) == Ok::<
                SnapshotedUpdate<St>,
                UpdateBodyError,
            >(log[log.len() - 1 - i]),
    ensures
        scan_rows::<Upd, St>(rows) == Ok::<Seq<SnapshotedUpdate<St>>, UpdateBodyError>(
            replay_suffix(log).reverse(),
        ),
    decreases rows.len(),
{
    if rows.len() == 0 {
        assert(replay_suffix(log).reverse() =~= Seq::<SnapshotedUpdate<St>>::empty());
    } else {
        assert(decode_row::<Upd, St>(rows[0]) == Ok::<SnapshotedUpdate<St>, UpdateBodyError>(
            log.last(),
        ));
        if log.last() is Snapshot {
            assert(seq![log.last()].reverse() =~= seq![log.last()]);
        } else {
            let rest = rows.skip(1);
            let shorter = log.drop_last();
            assert forall|i: int| 0 <= i < rest.len() implies #[trigger] decode_row::<Upd, St>(
                rest[i],
            ) == Ok::<SnapshotedUpdate<St>, UpdateBodyError>(shorter[shorter.len() - 1 - i]) by {
                assert(rest[i] == rows[i + 1]);
                assert(decode_row::<Upd, St>(rows[i + 1]) == Ok::<SnapshotedUpdate<St>, UpdateBodyError>(
                    log[log.len() - 1 - (i + 1)],
                ));
            }
            lemma_rows_match_log::<Upd, St>(rest, shorter);
            let sfx = replay_suffix(shorter);
            assert(sfx.push(log.last()).reverse() =~= seq![log.last()] + sfx.reverse());
        }
    }
}

} // verus!
