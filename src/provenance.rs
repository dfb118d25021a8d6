//! Provenance tracking: for every cell, the backward chain of the writes
//! that produced its value, kept as an index-addressed append log.
use vstd::prelude::*;
use crate::journal::{JournalEntry, OperationType, payload_of};

verus! {

/// One write of one cell. `predecessor` is the position, in the tracker's
/// log, of the record it superseded.
#[derive(Clone, Copy, Debug, PartialEq, Eq, Structural)]
pub struct ProvenanceRecord {
    pub table: u64,
    pub key: u64,
    pub column: u64,
    pub sequence: u64,
    pub transaction_id: u64,
    pub operation_type: OperationType,
    pub value: Option<u64>,
    pub predecessor: Option<usize>,
}

/// A journal entry arrived with a sequence number that is not greater than
/// the last one applied.
#[derive(Clone, Copy, Debug, PartialEq, Eq, Structural)]
pub struct OutOfOrder {
    pub sequence: u64,
    pub previous: u64,
}

/// The append log of provenance records.
///
/// An entry writes the cells `(table, key, c)` for each column `c` of its row
/// image; a truncate writes no cell. Memory grows by one record per cell
/// written until the owner prunes the records older than a floor sequence
/// number (typically that of the oldest snapshot still kept) with
/// `prune_before`.
pub struct ProvenanceTracker {
    pub records: Vec<ProvenanceRecord>,
    pub last_sequence: Option<u64>,
}

pub open spec fn same_cell(r: ProvenanceRecord, table: u64, key: u64, column: u64) -> bool {
    r.table == table && r.key == key && r.column == column
}

/// Position of the last record of the cell among the first `n`, or -1.
pub open spec fn last_write(
    records: Seq<ProvenanceRecord>,
    table: u64,
    key: u64,
    column: u64,
    n: int,
) -> int
    decreases n,
{
    if n <= 0 {
        -1
    } else if same_cell(records[n - 1], table, key, column) {
        n - 1
    } else {
        last_write(records, table, key, column, n - 1)
    }
}

/// A predecessor link as a position, -1 when absent.
pub open spec fn link_index(p: Option<usize>) -> int {
    match p {
        Some(i) => i as int,
        None => -1,
    }
}

/// The log's invariant: each record points at the previous write of its cell,
/// sequence numbers never decrease along the log, two writes of one cell
/// have distinct sequence numbers, and none exceeds the last one applied.
pub open spec fn log_wf(records: Seq<ProvenanceRecord>, last: Option<u64>) -> bool {
    &&& forall|i: int|
        0 <= i < records.len() ==> link_index(records[i].predecessor) == last_write(
            records,
            records[i].table,
            records[i].key,
            records[i].column,
            i,
        )
    &&& forall|a: int, b: int|
        0 <= a < b < records.len() ==> records[a].sequence <= records[b].sequence
    &&& forall|a: int, b: int|
        0 <= a < b < records.len() && same_cell(
            records[a],
            records[b].table,
            records[b].key,
            records[b].column,
        ) ==> records[a].sequence < records[b].sequence
    &&& records.len() > 0 ==> last is Some
    &&& forall|i: int| 0 <= i < records.len() ==> records[i].sequence <= last->0
}

/// The chain that starts at record `i` and follows predecessors.
pub open spec fn chain_from(records: Seq<ProvenanceRecord>, i: int) -> Seq<ProvenanceRecord>
    decreases i,
{
    if i < 0 || i >= records.len() {
        Seq::empty()
    } else {
        match records[i].predecessor {
            Some(p) => if (p as int) < i {
                seq![records[i]] + chain_from(records, p as int)
            } else {
                seq![records[i]]
            },
            None => seq![records[i]],
        }
    }
}

/// The history of a cell, newest write first.
pub open spec fn history_of(
    records: Seq<ProvenanceRecord>,
    table: u64,
    key: u64,
    column: u64,
) -> Seq<ProvenanceRecord> {
    chain_from(records, last_write(records, table, key, column, records.len() as int))
}

pub proof fn lemma_last_write(
    records: Seq<ProvenanceRecord>,
    table: u64,
    key: u64,
    column: u64,
    n: int,
)
    requires
        0 <= n <= records.len(),
    ensures
        ({
            let p = last_write(records, table, key, column, n);
            p >= 0 ==> {
                &&& p < n
                &&& same_cell(records[p], table, key, column)
                &&& forall|j: int| p < j < n ==> !same_cell(records[j], table, key, column)
            }
        }),
        last_write(records, table, key, column, n) == -1 || 0 <= last_write(records, table, key, column, n),
        last_write(records, table, key, column, n) < 0 ==> forall|j: int|
            0 <= j < n ==> !same_cell(records[j], table, key, column),
    decreases n,
{
    if n > 0 {
        lemma_last_write(records, table, key, column, n - 1);
    }
}

proof fn lemma_chain(records: Seq<ProvenanceRecord>, last: Option<u64>, i: int)
    requires
        log_wf(records, last),
        0 <= i < records.len(),
    ensures
        ({
            let h = chain_from(records, i);
            &&& h.len() >= 1
            &&& h[0] == records[i]
            &&& forall|a: int|
                0 <= a < h.len() ==> same_cell(
                    h[a],
                    records[i].table,
                    records[i].key,
                    records[i].column,
                )
            &&& forall|a: int, b: int| 0 <= a < b < h.len() ==> h[a].sequence > h[b].sequence
            &&& h.last().predecessor is None
            &&& forall|j: int|
                0 <= j < records.len() && same_cell(
                    records[j],
                    records[i].table,
                    records[i].key,
                    records[i].column,
                ) ==> records[j].sequence >= h.last().sequence
            &&& forall|j: int|
                0 <= j <= i && same_cell(
                    records[j],
                    records[i].table,
                    records[i].key,
                    records[i].column,
                ) ==> exists|a: int| 0 <= a < h.len() && h[a] == records[j]
        }),
    decreases i,
{
    let r = records[i];
    lemma_last_write(records, r.table, r.key, r.column, i);
    match r.predecessor {
        Some(p) => {
            let p = p as int;
            lemma_chain(records, last, p);
            let rest = chain_from(records, p);
            let h = chain_from(records, i);
            assert(h == seq![r] + rest);
            assert(records[p].sequence < r.sequence);
            assert forall|a: int, b: int| 0 <= a < b < h.len() implies h[a].sequence
                > h[b].sequence by {
                if a == 0 {
                    assert(h[b] == rest[b - 1]);
                    if b - 1 > 0 {
                        assert(rest[0].sequence > rest[b - 1].sequence);
                    }
                } else {
                    assert(h[a] == rest[a - 1] && h[b] == rest[b - 1]);
                }
            }
            assert forall|a: int| 0 <= a < h.len() implies same_cell(
                h[a],
                r.table,
                r.key,
                r.column,
            ) by {
                if a > 0 {
                    assert(h[a] == rest[a - 1]);
                }
            }
            assert(h.last() == rest.last());
            assert forall|j: int|
                0 <= j <= i && same_cell(
                    records[j],
                    r.table,
                    r.key,
                    r.column,
                ) implies exists|a: int| 0 <= a < h.len() && h[a] == records[j] by {
                if j == i {
                    assert(h[0] == records[j]);
                } else {
                    assert(j <= p);
                    let a = choose|a: int| 0 <= a < rest.len() && rest[a] == records[j];
                    assert(h[a + 1] == records[j]);
                }
            }
        },
        None => {
            let h = chain_from(records, i);
            assert(h == seq![r]);
            assert(h[0] == records[i]);
            assert forall|j: int|
                0 <= j < records.len() && same_cell(
                    records[j],
                    r.table,
                    r.key,
                    r.column,
                ) implies records[j].sequence >= h.last().sequence by {
                if j < i {
                } else if j > i {
                    assert(records[i].sequence <= records[j].sequence);
                }
            }
        },
    }
}

/// A cell's history lists its writes newest first, in strictly decreasing
/// sequence order (so no record repeats and the chain is finite), all of that
/// cell, and ends at its first write: a record with no predecessor whose
/// sequence number no other write of the cell precedes. No write of the cell
/// is missing from it.
pub proof fn lemma_history_ordered(
    records: Seq<ProvenanceRecord>,
    last: Option<u64>,
    table: u64,
    key: u64,
    column: u64,
)
    requires
        log_wf(records, last),
    ensures
        ({
            let h = history_of(records, table, key, column);
            &&& forall|a: int, b: int| 0 <= a < b < h.len() ==> h[a].sequence > h[b].sequence
            &&& forall|a: int| 0 <= a < h.len() ==> same_cell(h[a], table, key, column)
            &&& h.len() > 0 ==> h.last().predecessor is None
            &&& h.len() > 0 ==> forall|j: int|
                0 <= j < records.len() && same_cell(records[j], table, key, column)
                    ==> records[j].sequence >= h.last().sequence
            &&& h.len() == 0 <==> forall|j: int|
                0 <= j < records.len() ==> !same_cell(records[j], table, key, column)
            &&& forall|j: int|
                0 <= j < records.len() && same_cell(records[j], table, key, column) ==> exists|
                    a: int,
                | 0 <= a < h.len() && h[a] == records[j]
        }),
{
    lemma_last_write(records, table, key, column, records.len() as int);
    let i = last_write(records, table, key, column, records.len() as int);
    if i >= 0 {
        lemma_chain(records, last, i);
    }
}

/// The number of cells an entry writes: one per column of its row image,
/// none for a truncate.
pub open spec fn cells_written(e: JournalEntry) -> int {
    match e.operation_type {
        OperationType::Truncate => 0,
        _ => payload_of(e).len() as int,
    }
}

/// The value an entry leaves in column `c`: absent after a delete.
pub open spec fn written_value(e: JournalEntry, c: int) -> Option<u64> {
    match e.operation_type {
        OperationType::Delete => None,
        _ => payload_of(e)[c],
    }
}

pub open spec fn link_of(p: int) -> Option<usize> {
    if p < 0 {
        None
    } else {
        Some(p as usize)
    }
}

/// The record for column `c` of `e`, appended after `records`.
pub open spec fn record_for(records: Seq<ProvenanceRecord>, e: JournalEntry, c: int) -> ProvenanceRecord {
    ProvenanceRecord {
        table: e.table,
        key: e.key,
        column: c as u64,
        sequence: e.sequence,
        transaction_id: e.transaction_id,
        operation_type: e.operation_type,
        value: written_value(e, c),
        predecessor: link_of(last_write(records, e.table, e.key, c as u64, records.len() as int)),
    }
}

/// The log after appending the records of the first `n` columns of `e`.
pub open spec fn appended(records: Seq<ProvenanceRecord>, e: JournalEntry, n: int) -> Seq<
    ProvenanceRecord,
>
    decreases n,
{
    if n <= 0 {
        records
    } else {
        let prev = appended(records, e, n - 1);
        prev.push(record_for(prev, e, n - 1))
    }
}

impl ProvenanceTracker {
    pub open spec fn wf(&self) -> bool {
        log_wf(self.records@, self.last_sequence)
    }

    /// An empty tracker.
    pub fn new() -> (r: Self)
        ensures
            r.wf(),
            r.records@.len() == 0,
            r.last_sequence is None,
    {
        ProvenanceTracker { records: Vec::new(), last_sequence: None }
    }

    fn locate_last(&self, table: u64, key: u64, column: u64) -> (r: Option<usize>)
        ensures
            link_index(r) == last_write(self.records@, table, key, column, self.records@.len() as int),
    {
        let mut i: usize = self.records.len();
        while i > 0
            invariant
                i <= self.records@.len(),
                last_write(self.records@, table, key, column, self.records@.len() as int)
                    == last_write(self.records@, table, key, column, i as int),
            decreases i,
        {
            let r = &self.records[i - 1];
            if r.table == table && r.key == key && r.column == column {
                return Some(i - 1);
            }
            i = i - 1;
        }
        None
    }

    /// Records the cells written by `e`. Entries must arrive in strictly
    /// increasing sequence order; otherwise nothing changes.
    pub fn apply(&mut self, e: &JournalEntry) -> (r: Result<(), OutOfOrder>)
        requires
            old(self).wf(),
        ensures
            final(self).wf(),
            r is Ok <==> (old(self).last_sequence matches Some(p) ==> p < e.sequence),
            r is Err ==> *final(self) == *old(self) && r->Err_0 == (OutOfOrder {
                sequence: e.sequence,
                previous: old(self).last_sequence->0,
            }),
            r is Ok ==> final(self).records@ == appended(old(self).records@, *e, cells_written(*e))
                && final(self).last_sequence == Some(e.sequence),
    {
        match self.last_sequence {
            Some(p) => {
                if e.sequence <= p {
                    return Err(OutOfOrder { sequence: e.sequence, previous: p });
                }
            },
            None => {},
        }
        let ghost start = self.records@;
        let width: usize = match e.operation_type {
            OperationType::Truncate => 0,
            _ => match &e.row_data {
                Some(v) => v.len(),
                None => 0,
            },
        };
        self.last_sequence = Some(e.sequence);
        let mut c: usize = 0;
        while c < width
            invariant
                width == cells_written(*e),
                c <= width,
                self.last_sequence == Some(e.sequence),
                self.wf(),
                self.records@ == appended(start, *e, c as int),
                self.records@.len() == start.len() + c,
                forall|i: int| 0 <= i < start.len() ==> start[i].sequence < e.sequence,
                forall|i: int| 0 <= i < start.len() ==> self.records@[i] == start[i],
                forall|i: int|
                    start.len() <= i < self.records@.len() ==> self.records@[i].sequence
                        == e.sequence && self.records@[i].column == (i - start.len()) as u64,
            decreases width - c,
        {
            let pred = self.locate_last(e.table, e.key, c as u64);
            let value = match e.operation_type {
                OperationType::Delete => None,
                _ => match &e.row_data {
                    Some(v) => v[c],
                    None => None,
                },
            };
            let rec = ProvenanceRecord {
                table: e.table,
                key: e.key,
                column: c as u64,
                sequence: e.sequence,
                transaction_id: e.transaction_id,
                operation_type: e.operation_type,
                value,
                predecessor: pred,
            };
            let ghost before = self.records@;
            assert(rec == record_for(before, *e, c as int));
            self.records.push(rec);
            proof {
                let recs = self.records@;
                assert(recs == before.push(rec));
                assert forall|i: int| 0 <= i < recs.len() implies link_index(recs[i].predecessor)
                    == last_write(recs, recs[i].table, recs[i].key, recs[i].column, i) by {
                    if i < before.len() {
                        lemma_last_write_prefix(before, recs, recs[i].table, recs[i].key, recs[i].column, i);
                    } else {
                        lemma_last_write_prefix(before, recs, rec.table, rec.key, rec.column, i);
                    }
                }
                assert forall|a: int, b: int|
                    0 <= a < b < recs.len() && same_cell(
                        recs[a],
                        recs[b].table,
                        recs[b].key,
                        recs[b].column,
                    ) implies recs[a].sequence < recs[b].sequence by {
                    if b < before.len() {
                        assert(recs[a] == before[a] && recs[b] == before[b]);
                    } else if a < start.len() {
                        assert(recs[a] == start[a]);
                    } else {
                        assert(recs[a] == before[a]);
                        assert(recs[a].column == (a - start.len()) as u64);
                        assert(recs[b].column == c as u64);
                    }
                }
            }
            c = c + 1;
        }
        Ok(())
    }

    /// The history of a cell, newest write first, back to its first write.
    pub fn history(&self, table: u64, key: u64, column: u64) -> (r: Vec<ProvenanceRecord>)
        requires
            self.wf(),
        ensures
            r@ == history_of(self.records@, table, key, column),
    {
        let ghost recs = self.records@;
        let mut out: Vec<ProvenanceRecord> = Vec::new();
        let mut cur = self.locate_last(table, key, column);
        proof {
            lemma_last_write(recs, table, key, column, recs.len() as int);
        }
        assert(out@ + chain_from(recs, link_index(cur)) =~= history_of(recs, table, key, column));
        while cur.is_some()
            invariant
                self.wf(),
                recs == self.records@,
                -1 <= link_index(cur) < recs.len(),
                out@ + chain_from(recs, link_index(cur)) == history_of(recs, table, key, column),
            decreases link_index(cur) + 1,
        {
            let i = cur.unwrap();
            let rec = self.records[i];
            proof {
                lemma_last_write(recs, rec.table, rec.key, rec.column, i as int);
            }
            let ghost before = out@;
            out.push(rec);
            cur = rec.predecessor;
            assert(chain_from(recs, i as int) == seq![rec] + chain_from(recs, link_index(cur)));
            assert(out@ + chain_from(recs, link_index(cur)) =~= before + chain_from(recs, i as int));
        }
        assert(out@ =~= out@ + chain_from(recs, link_index(cur)));
        out
    }

    /// The transaction of the cell's first write, if the cell was ever written.
    pub fn origin_transaction(&self, table: u64, key: u64, column: u64) -> (r: Option<u64>)
        requires
            self.wf(),
        ensures
            ({
                let h = history_of(self.records@, table, key, column);
                &&& r is None <==> h.len() == 0
                &&& r is Some ==> r->0 == h.last().transaction_id
            }),
    {
        let h = self.history(table, key, column);
        if h.len() == 0 {
            None
        } else {
            Some(h[h.len() - 1].transaction_id)
        }
    }
}

/// A predecessor link into a log from which the first `start` records were
/// removed.
pub open spec fn shift_link(p: Option<usize>, start: int) -> Option<usize> {
    match p {
        Some(x) => if x >= start {
            Some((x - start) as usize)
        } else {
            None
        },
        None => None,
    }
}

/// Record `r` of a log from which the first `start` records were removed.
pub open spec fn shifted(r: ProvenanceRecord, start: int) -> ProvenanceRecord {
    ProvenanceRecord { predecessor: shift_link(r.predecessor, start), ..r }
}

proof fn lemma_last_write_suffix(
    old_log: Seq<ProvenanceRecord>,
    new_log: Seq<ProvenanceRecord>,
    start: int,
    table: u64,
    key: u64,
    column: u64,
    i: int,
)
    requires
        0 <= start <= old_log.len(),
        new_log.len() == old_log.len() - start,
        forall|j: int| 0 <= j < new_log.len() ==> new_log[j] == shifted(old_log[j + start], start),
        0 <= i <= new_log.len(),
    ensures
        last_write(new_log, table, key, column, i) == if last_write(
            old_log,
            table,
            key,
            column,
            i + start,
        ) >= start {
            last_write(old_log, table, key, column, i + start) - start
        } else {
            -1
        },
    decreases i,
{
    lemma_last_write(old_log, table, key, column, i + start);
    if i > 0 {
        lemma_last_write_suffix(old_log, new_log, start, table, key, column, i - 1);
        assert(new_log[i - 1] == shifted(old_log[i - 1 + start], start));
    }
}

impl ProvenanceTracker {
    /// Drops the records older than `floor`. Since sequence numbers never
    /// decrease along the log, those form a prefix; the links of the records
    /// kept are shifted, and a link into the dropped prefix becomes absent.
    pub fn prune_before(&mut self, floor: u64)
        requires
            old(self).wf(),
        ensures
            final(self).wf(),
            final(self).last_sequence == old(self).last_sequence,
            final(self).records@.len() <= old(self).records@.len(),
            ({
                let start = old(self).records@.len() - final(self).records@.len();
                &&& forall|j: int| 0 <= j < start ==> old(self).records@[j].sequence < floor
                &&& forall|i: int|
                    0 <= i < final(self).records@.len() ==> final(self).records@[i] == shifted(
                        old(self).records@[i + start],
                        start,
                    ) && final(self).records@[i].sequence >= floor
            }),
    {
        let ghost old_log = self.records@;
        let mut start: usize = 0;
        while start < self.records.len() && self.records[start].sequence < floor
            invariant
                start <= old_log.len(),
                self.records@ == old_log,
                forall|j: int| 0 <= j < start ==> old_log[j].sequence < floor,
            decreases self.records.len() - start,
        {
            start = start + 1;
        }
        let mut kept: Vec<ProvenanceRecord> = Vec::new();
        let mut i: usize = start;
        while i < self.records.len()
            invariant
                start <= i <= old_log.len(),
                self.records@ == old_log,
                kept@.len() == i - start,
                forall|j: int| 0 <= j < kept@.len() ==> kept@[j] == shifted(old_log[j + start], start as int),
            decreases self.records.len() - i,
        {
            let r = self.records[i];
            let predecessor = match r.predecessor {
                Some(x) => if x >= start {
                    Some(x - start)
                } else {
                    None
                },
                None => None,
            };
            kept.push(ProvenanceRecord { predecessor, ..r });
            i = i + 1;
        }
        let ghost new_log = kept@;
        proof {
            let s = start as int;
            assert forall|k: int| 0 <= k < new_log.len() implies link_index(new_log[k].predecessor)
                == last_write(new_log, new_log[k].table, new_log[k].key, new_log[k].column, k) by {
                let o = old_log[k + s];
                lemma_last_write_suffix(old_log, new_log, s, o.table, o.key, o.column, k);
            }
            assert forall|a: int, b: int| 0 <= a < b < new_log.len() implies new_log[a].sequence
                <= new_log[b].sequence by {
                assert(new_log[a].sequence == old_log[a + s].sequence);
                assert(new_log[b].sequence == old_log[b + s].sequence);
            }
            assert forall|a: int, b: int|
                0 <= a < b < new_log.len() && same_cell(
                    new_log[a],
                    new_log[b].table,
                    new_log[b].key,
                    new_log[b].column,
                ) implies new_log[a].sequence < new_log[b].sequence by {
                assert(new_log[a] == shifted(old_log[a + s], s));
                assert(new_log[b] == shifted(old_log[b + s], s));
                assert(same_cell(old_log[a + s], old_log[b + s].table, old_log[b + s].key, old_log[b + s].column));
            }
            assert forall|k: int| 0 <= k < new_log.len() implies new_log[k].sequence <= self.last_sequence->0 by {
                assert(new_log[k].sequence == old_log[k + s].sequence);
            }
            assert forall|k: int| 0 <= k < new_log.len() implies new_log[k].sequence >= floor by {
                assert(new_log[k].sequence == old_log[k + s].sequence);
                if s < old_log.len() {
                    assert(old_log[s].sequence <= old_log[k + s].sequence);
                }
            }
        }
        self.records = kept;
    }
}

proof fn lemma_last_write_prefix(
    before: Seq<ProvenanceRecord>,
    after: Seq<ProvenanceRecord>,
    table: u64,
    key: u64,
    column: u64,
    n: int,
)
    requires
        0 <= n <= before.len(),
        before.len() <= after.len(),
        forall|j: int| 0 <= j < before.len() ==> after[j] == before[j],
    ensures
        last_write(after, table, key, column, n) == last_write(before, table, key, column, n),
    decreases n,
{
    if n > 0 {
        lemma_last_write_prefix(before, after, table, key, column, n - 1);
    }
}

} // verus!
