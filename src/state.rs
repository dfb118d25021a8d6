//! Materialized table state: replaying journal entries and encoding the
//! result as snapshot bytes.
use vstd::prelude::*;
use crate::journal::{JournalEntry, OperationType, payload_of, copy_payload};


verus! {

/// One materialized row.
pub struct RowRecord {
    pub table: u64,
    pub key: u64,
    pub values: Vec<Option<u64>>,
}

/// The mathematical value of a row.
pub struct RowImage {
    pub table: u64,
    pub key: u64,
    pub values: Seq<Option<u64>>,
}

impl View for RowRecord {
    type V = RowImage;

    open spec fn view(&self) -> RowImage {
        RowImage { table: self.table, key: self.key, values: self.values@ }
    }
}

/// The mathematical value of a materialized state.
pub open spec fn rows_view(rows: Seq<RowRecord>) -> Seq<RowImage> {
    rows.map_values(|r: RowRecord| r@)
}

/// Position of the last row of `table` with `key`, or -1.
pub open spec fn find_row(rows: Seq<RowImage>, table: u64, key: u64) -> int
    decreases rows.len(),
{
    if rows.len() == 0 {
        -1
    } else if rows.last().table == table && rows.last().key == key {
        rows.len() - 1
    } else {
        find_row(rows.drop_last(), table, key)
    }
}

/// A row survives removal of `key` from `table` (of every key if `whole`).
pub open spec fn survives(r: RowImage, table: u64, key: u64, whole: bool) -> bool {
    !(r.table == table && (whole || r.key == key))
}

/// The rows that survive removal, in their order.
pub open spec fn remove_rows(rows: Seq<RowImage>, table: u64, key: u64, whole: bool) -> Seq<RowImage>
    decreases rows.len(),
{
    if rows.len() == 0 {
        Seq::empty()
    } else {
        let rest = remove_rows(rows.drop_last(), table, key, whole);
        if survives(rows.last(), table, key, whole) {
            rest.push(rows.last())
        } else {
            rest
        }
    }
}

/// The state after one journal entry: inserts and updates write the row
/// image (replacing an existing row with the same key), deletes remove the
/// row, truncates remove every row of the table.
pub open spec fn apply_entry(rows: Seq<RowImage>, e: JournalEntry) -> Seq<RowImage> {
    match e.operation_type {
        OperationType::Insert | OperationType::Update => {
            let r = RowImage { table: e.table, key: e.key, values: payload_of(e) };
            let i = find_row(rows, e.table, e.key);
            if i < 0 {
                rows.push(r)
            } else {
                rows.update(i, r)
            }
        },
        OperationType::Delete => remove_rows(rows, e.table, e.key, false),
        OperationType::Truncate => remove_rows(rows, e.table, e.key, true),
    }
}

/// The state after replaying, from an empty state, the first `n` entries of
/// `journal` that `mask` selects, in journal order.
pub open spec fn replay(journal: Seq<JournalEntry>, mask: Seq<bool>, n: int) -> Seq<RowImage>
    decreases n,
{
    if n <= 0 {
        Seq::empty()
    } else {
        let prev = replay(journal, mask, n - 1);
        if mask[n - 1] {
            apply_entry(prev, journal[n - 1])
        } else {
            prev
        }
    }
}

fn locate_row(rows: &Vec<RowRecord>, table: u64, key: u64) -> (r: Option<usize>)
    ensures
        r is None ==> find_row(rows_view(rows@), table, key) == -1,
        r is Some ==> r->0 as int == find_row(rows_view(rows@), table, key) && r->0 < rows@.len(),
{
    let ghost v = rows_view(rows@);
    let mut found: Option<usize> = None;
    let mut i: usize = 0;
    while i < rows.len()
        invariant
            i <= rows@.len(),
            v == rows_view(rows@),
            found is None ==> find_row(v.subrange(0, i as int), table, key) == -1,
            found is Some ==> found->0 as int == find_row(v.subrange(0, i as int), table, key)
                && found->0 < i,
        decreases rows.len() - i,
    {
        assert(v.subrange(0, i + 1).drop_last() =~= v.subrange(0, i as int));
        if rows[i].table == table && rows[i].key == key {
            found = Some(i);
        }
        i = i + 1;
    }
    assert(v.subrange(0, rows@.len() as int) =~= v);
    found
}

/// Copies a row.
pub fn copy_row(r: &RowRecord) -> (c: RowRecord)
    ensures
        c@ == r@,
{
    let mut values: Vec<Option<u64>> = Vec::new();
    let mut i: usize = 0;
    while i < r.values.len()
        invariant
            i <= r.values@.len(),
            values@ == r.values@.subrange(0, i as int),
        decreases r.values.len() - i,
    {
        values.push(r.values[i]);
        assert(values@ =~= r.values@.subrange(0, i + 1));
        i = i + 1;
    }
    assert(r.values@.subrange(0, r.values@.len() as int) =~= r.values@);
    RowRecord { table: r.table, key: r.key, values }
}

fn remove_matching(rows: &Vec<RowRecord>, table: u64, key: u64, whole: bool) -> (r: Vec<
    RowRecord,
>)
    ensures
        rows_view(r@) == remove_rows(rows_view(rows@), table, key, whole),
{
    let ghost v = rows_view(rows@);
    let mut out: Vec<RowRecord> = Vec::new();
    let mut i: usize = 0;
    while i < rows.len()
        invariant
            i <= rows@.len(),
            v == rows_view(rows@),
            rows_view(out@) == remove_rows(v.subrange(0, i as int), table, key, whole),
        decreases rows.len() - i,
    {
        assert(v.subrange(0, i + 1).drop_last() =~= v.subrange(0, i as int));
        assert(v[i as int] == rows@[i as int]@);
        if !(rows[i].table == table && (whole || rows[i].key == key)) {
            let c = copy_row(&rows[i]);
            let ghost before = out@;
            out.push(c);
            assert(rows_view(out@) =~= rows_view(before).push(c@));
        }
        i = i + 1;
    }
    assert(v.subrange(0, rows@.len() as int) =~= v);
    out
}

/// Applies one journal entry to a materialized state.
pub fn apply_journal_entry(rows: &mut Vec<RowRecord>, e: &JournalEntry)
    ensures
        rows_view(final(rows)@) == apply_entry(rows_view(old(rows)@), *e),
{
    match e.operation_type {
        OperationType::Insert | OperationType::Update => {
            let rec = RowRecord { table: e.table, key: e.key, values: copy_payload(e) };
            let ghost before = rows@;
            match locate_row(rows, e.table, e.key) {
                None => {
                    rows.push(rec);
                    assert(rows_view(rows@) =~= rows_view(before).push(rec@));
                },
                Some(i) => {
                    let _replaced = rows.remove(i);
                    rows.insert(i, rec);
                    assert(rows_view(rows@) =~= rows_view(before).update(i as int, rec@));
                },
            }
        },
        OperationType::Delete => {
            let next = remove_matching(rows, e.table, e.key, false);
            *rows = next;
        },
        OperationType::Truncate => {
            let next = remove_matching(rows, e.table, e.key, true);
            *rows = next;
        },
    }
}

/// Replays, from an empty state, the entries of `journal` that `mask` selects.
pub fn replay_masked(journal: &Vec<JournalEntry>, mask: &Vec<bool>) -> (r: Vec<RowRecord>)
    requires
        mask@.len() == journal@.len(),
    ensures
        rows_view(r@) == replay(journal@, mask@, journal@.len() as int),
{
    let mut rows: Vec<RowRecord> = Vec::new();
    let mut i: usize = 0;
    assert(rows_view(rows@) =~= Seq::<RowImage>::empty());
    while i < journal.len()
        invariant
            i <= journal@.len(),
            mask@.len() == journal@.len(),
            rows_view(rows@) == replay(journal@, mask@, i as int),
        decreases journal.len() - i,
    {
        if mask[i] {
            apply_journal_entry(&mut rows, &journal[i]);
        }
        i = i + 1;
    }
    rows
}

/// Little-endian bytes of a 64-bit word.
pub open spec fn le64(x: u64) -> Seq<u8> {
    seq![
        x as u8,
        (x >> 8u64) as u8,
        (x >> 16u64) as u8,
        (x >> 24u64) as u8,
        (x >> 32u64) as u8,
        (x >> 40u64) as u8,
        (x >> 48u64) as u8,
        (x >> 56u64) as u8,
    ]
}

/// A column value: tag 0 for `NULL`, tag 1 followed by the word otherwise.
pub open spec fn encode_value(v: Option<u64>) -> Seq<u8> {
    match v {
        None => seq![0u8],
        Some(x) => seq![1u8] + le64(x),
    }
}

pub open spec fn encode_values(vs: Seq<Option<u64>>) -> Seq<u8>
    decreases vs.len(),
{
    if vs.len() == 0 {
        Seq::empty()
    } else {
        encode_values(vs.drop_last()) + encode_value(vs.last())
    }
}

/// A row: table, key and column count as words, then each column value.
pub open spec fn encode_row(r: RowImage) -> Seq<u8> {
    le64(r.table) + le64(r.key) + le64(r.values.len() as u64) + encode_values(r.values)
}

/// The snapshot payload of a state: its rows encoded one after another.
pub open spec fn encode_rows(rows: Seq<RowImage>) -> Seq<u8>
    decreases rows.len(),
{
    if rows.len() == 0 {
        Seq::empty()
    } else {
        encode_rows(rows.drop_last()) + encode_row(rows.last())
    }
}

fn push_word(out: &mut Vec<u8>, x: u64)
    ensures
        final(out)@ == old(out)@ + le64(x),
{
    out.push(x as u8);
    out.push((x >> 8u64) as u8);
    out.push((x >> 16u64) as u8);
    out.push((x >> 24u64) as u8);
    out.push((x >> 32u64) as u8);
    out.push((x >> 40u64) as u8);
    out.push((x >> 48u64) as u8);
    out.push((x >> 56u64) as u8);
    assert(final(out)@ =~= old(out)@ + le64(x));
}

fn push_row(out: &mut Vec<u8>, r: &RowRecord)
    ensures
        final(out)@ == old(out)@ + encode_row(r@),
{
    let ghost start = out@;
    push_word(out, r.table);
    push_word(out, r.key);
    push_word(out, r.values.len() as u64);
    let ghost header = out@;
    let mut i: usize = 0;
    while i < r.values.len()
        invariant
            i <= r.values@.len(),
            out@ == header + encode_values(r.values@.subrange(0, i as int)),
        decreases r.values.len() - i,
    {
        assert(r.values@.subrange(0, i + 1).drop_last() =~= r.values@.subrange(0, i as int));
        match r.values[i] {
            None => {
                out.push(0u8);
            },
            Some(x) => {
                out.push(1u8);
                push_word(out, x);
            },
        }
        assert(out@ =~= header + encode_values(r.values@.subrange(0, i + 1)));
        i = i + 1;
    }
    assert(r.values@.subrange(0, r.values@.len() as int) =~= r.values@);
    assert(out@ =~= start + encode_row(r@));
}

/// Encodes a materialized state as snapshot bytes.
pub fn encode_state(rows: &Vec<RowRecord>) -> (r: Vec<u8>)
    ensures
        r@ == encode_rows(rows_view(rows@)),
{
    let ghost v = rows_view(rows@);
    let mut out: Vec<u8> = Vec::new();
    let mut i: usize = 0;
    assert(v.subrange(0, 0) =~= Seq::<RowImage>::empty());
    while i < rows.len()
        invariant
            i <= rows@.len(),
            v == rows_view(rows@),
            out@ == encode_rows(v.subrange(0, i as int)),
        decreases rows.len() - i,
    {
        assert(v.subrange(0, i + 1).drop_last() =~= v.subrange(0, i as int));
        assert(v[i as int] == rows@[i as int]@);
        push_row(&mut out, &rows[i]);
        i = i + 1;
    }
    assert(v.subrange(0, rows@.len() as int) =~= v);
    out
}

} // verus!
