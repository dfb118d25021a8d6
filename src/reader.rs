//! The journal reader: decodes the byte format of the journal.
//!
//! Format version 1. All integers are little-endian. A journal is a sequence
//! of records; a record is
//!
//! ```text
//! body length: u32 | checksum: u64 | body
//! ```
//!
//! where the checksum is the digest (see `hashing`) of the body. A body is
//!
//! ```text
//! sequence: u64 | transaction: u64 | timestamp: u64 | table: u64 | key: u64
//! | operation: u8 (0 insert, 1 update, 2 delete, 3 truncate)
//! | has row: u8 (0 or 1) [ | column count: u32 | values ]
//! ```
//!
//! and a value is tag 0 (`NULL`) or tag 1 followed by a u64. A body must be
//! consumed exactly by its decoding.
use vstd::prelude::*;
use crate::hashing::{digest_of, digest_range};
use crate::journal::{JournalEntry, OperationType};

verus! {

/// Length of a record header.
pub const HEADER_LEN: usize = 12;

/// Length of the fixed part of a body.
pub const BODY_FIXED_LEN: usize = 42;

/// Why the journal could not be read.
#[derive(Clone, Copy, Debug, PartialEq, Eq, Structural)]
pub enum JournalError {
    /// The record at `offset` fails its length, checksum or decoding.
    CorruptJournal { offset: usize },
    /// The record at `offset` does not follow `previous` in sequence order.
    OutOfOrder { offset: usize, sequence: u64, previous: u64 },
}

/// The mathematical value of a journal entry.
pub struct EntryImage {
    pub sequence: u64,
    pub transaction_id: u64,
    pub timestamp: u64,
    pub table: u64,
    pub key: u64,
    pub operation_type: OperationType,
    pub row: Option<Seq<Option<u64>>>,
}

impl View for JournalEntry {
    type V = EntryImage;

    open spec fn view(&self) -> EntryImage {
        EntryImage {
            sequence: self.sequence,
            transaction_id: self.transaction_id,
            timestamp: self.timestamp,
            table: self.table,
            key: self.key,
            operation_type: self.operation_type,
            row: match self.row_data {
                Some(v) => Some(v@),
                None => None,
            },
        }
    }
}

pub open spec fn u32_at(b: Seq<u8>, p: int) -> u32 {
    (b[p] as u32) | ((b[p + 1] as u32) << 8u32) | ((b[p + 2] as u32) << 16u32) | ((b[p + 3] as u32)
        << 24u32)
}

pub open spec fn u64_at(b: Seq<u8>, p: int) -> u64 {
    (b[p] as u64) | ((b[p + 1] as u64) << 8u64) | ((b[p + 2] as u64) << 16u64) | ((b[p + 3] as u64)
        << 24u64) | ((b[p + 4] as u64) << 32u64) | ((b[p + 5] as u64) << 40u64) | ((b[p + 6] as u64)
        << 48u64) | ((b[p + 7] as u64) << 56u64)
}

pub open spec fn operation_of(t: u8) -> Option<OperationType> {
    if t == 0 {
        Some(OperationType::Insert)
    } else if t == 1 {
        Some(OperationType::Update)
    } else if t == 2 {
        Some(OperationType::Delete)
    } else if t == 3 {
        Some(OperationType::Truncate)
    } else {
        None
    }
}

/// The value at `p`, decoded before `end`, and the position after it.
pub open spec fn value_at_pos(b: Seq<u8>, p: int, end: int) -> Option<(Option<u64>, int)> {
    if p + 1 > end {
        None
    } else if b[p] == 0 {
        Some((None, p + 1))
    } else if b[p] == 1 && p + 9 <= end {
        Some((Some(u64_at(b, p + 1)), p + 9))
    } else {
        None
    }
}

/// Decodes `n` more values from `p`, appending them to `acc`.
pub open spec fn values_from(b: Seq<u8>, p: int, end: int, n: nat, acc: Seq<Option<u64>>) -> Option<
    (Seq<Option<u64>>, int),
>
    decreases n,
{
    if n == 0 {
        Some((acc, p))
    } else {
        match value_at_pos(b, p, end) {
            None => None,
            Some((v, q)) => values_from(b, q, end, (n - 1) as nat, acc.push(v)),
        }
    }
}

/// The entry that the body `b[start..end]` encodes, if it is well formed.
pub open spec fn body_at(b: Seq<u8>, start: int, end: int) -> Option<EntryImage> {
    if end - start < BODY_FIXED_LEN {
        None
    } else {
        let op = operation_of(b[start + 40]);
        let has_row = b[start + 41];
        let row: Option<Option<Seq<Option<u64>>>> = if has_row == 0 {
            if start + BODY_FIXED_LEN == end {
                Some(None)
            } else {
                None
            }
        } else if has_row == 1 && end - start >= BODY_FIXED_LEN + 4 {
            match values_from(
                b,
                start + BODY_FIXED_LEN + 4,
                end,
                u32_at(b, start + BODY_FIXED_LEN) as nat,
                Seq::empty(),
            ) {
                Some((vs, q)) => if q == end {
                    Some(Some(vs))
                } else {
                    None
                },
                None => None,
            }
        } else {
            None
        };
        match (op, row) {
            (Some(o), Some(r)) => Some(
                EntryImage {
                    sequence: u64_at(b, start),
                    transaction_id: u64_at(b, start + 8),
                    timestamp: u64_at(b, start + 16),
                    table: u64_at(b, start + 24),
                    key: u64_at(b, start + 32),
                    operation_type: o,
                    row: r,
                },
            ),
            _ => None,
        }
    }
}

/// The record at `p` and the position after it, if its length, checksum and
/// body are consistent.
pub open spec fn record_at(b: Seq<u8>, p: int) -> Option<(EntryImage, int)> {
    if p < 0 || p + HEADER_LEN > b.len() {
        None
    } else {
        let end = p + HEADER_LEN + u32_at(b, p) as int;
        if end > b.len() {
            None
        } else if digest_of(b.subrange(p + HEADER_LEN, end)) != u64_at(b, p + 4) as nat {
            None
        } else {
            match body_at(b, p + HEADER_LEN, end) {
                Some(e) => Some((e, end)),
                None => None,
            }
        }
    }
}

/// Reads the records from `p` to the end, after `acc`, each sequence number
/// greater than the one before (`prev`).
pub open spec fn scan(b: Seq<u8>, p: int, prev: Option<u64>, acc: Seq<EntryImage>) -> Result<
    Seq<EntryImage>,
    JournalError,
>
    decreases b.len() - p,
{
    if p < 0 || p >= b.len() {
        Ok(acc)
    } else {
        match record_at(b, p) {
            None => Err(JournalError::CorruptJournal { offset: p as usize }),
            Some((e, q)) => if prev matches Some(x) && e.sequence <= x {
                Err(
                    JournalError::OutOfOrder {
                        offset: p as usize,
                        sequence: e.sequence,
                        previous: prev->0,
                    },
                )
            } else if q <= p {
                Err(JournalError::CorruptJournal { offset: p as usize })
            } else {
                scan(b, q, Some(e.sequence), acc.push(e))
            },
        }
    }
}

/// The entries of the journal from byte offset `from` to its end.
pub open spec fn journal_from(b: Seq<u8>, from: int) -> Result<Seq<EntryImage>, JournalError> {
    scan(b, from, None, Seq::empty())
}

/// Sequence numbers strictly increase along the entries.
pub open spec fn strictly_ordered(es: Seq<EntryImage>) -> bool {
    forall|a: int, b: int| 0 <= a < b < es.len() ==> es[a].sequence < es[b].sequence
}

/// Whatever `scan` returns successfully is in strictly increasing sequence
/// order, given that what it has already read is.
pub proof fn lemma_scan_ordered(b: Seq<u8>, p: int, prev: Option<u64>, acc: Seq<EntryImage>)
    requires
        strictly_ordered(acc),
        acc.len() == 0 ==> prev is None,
        acc.len() > 0 ==> prev == Some(acc.last().sequence),
    ensures
        scan(b, p, prev, acc) matches Ok(es) ==> strictly_ordered(es),
    decreases b.len() - p,
{
    if 0 <= p < b.len() {
        match record_at(b, p) {
            Some((e, q)) => {
                if !(prev matches Some(x) && e.sequence <= x) && q > p {
                    let next = acc.push(e);
                    assert forall|x: int, y: int| 0 <= x < y < next.len() implies next[x].sequence
                        < next[y].sequence by {
                        if y == next.len() - 1 && x < acc.len() {
                            assert(acc[x].sequence <= acc.last().sequence);
                        }
                    }
                    lemma_scan_ordered(b, q, Some(e.sequence), next);
                }
            },
            None => {},
        }
    }
}

pub open spec fn entries_view(es: Seq<JournalEntry>) -> Seq<EntryImage> {
    es.map_values(|e: JournalEntry| e@)
}

fn read_u32(b: &Vec<u8>, p: usize) -> (r: u32)
    requires
        p + 4 <= b.len(),
    ensures
        r == u32_at(b@, p as int),
{
    (b[p] as u32) | ((b[p + 1] as u32) << 8u32) | ((b[p + 2] as u32) << 16u32) | ((b[p + 3] as u32)
        << 24u32)
}

fn read_u64(b: &Vec<u8>, p: usize) -> (r: u64)
    requires
        p + 8 <= b.len(),
    ensures
        r == u64_at(b@, p as int),
{
    (b[p] as u64) | ((b[p + 1] as u64) << 8u64) | ((b[p + 2] as u64) << 16u64) | ((b[p + 3] as u64)
        << 24u64) | ((b[p + 4] as u64) << 32u64) | ((b[p + 5] as u64) << 40u64) | ((b[p + 6] as u64)
        << 48u64) | ((b[p + 7] as u64) << 56u64)
}

fn decode_operation(t: u8) -> (r: Option<OperationType>)
    ensures
        r == operation_of(t),
{
    if t == 0 {
        Some(OperationType::Insert)
    } else if t == 1 {
        Some(OperationType::Update)
    } else if t == 2 {
        Some(OperationType::Delete)
    } else if t == 3 {
        Some(OperationType::Truncate)
    } else {
        None
    }
}

fn decode_values(b: &Vec<u8>, start: usize, end: usize, n: u32) -> (r: Option<(Vec<Option<u64>>, usize)>)
    requires
        start <= end <= b@.len(),
    ensures
        match values_from(b@, start as int, end as int, n as nat, Seq::empty()) {
            Some((vs, q)) => r matches Some((v, p)) && v@ == vs && p as int == q,
            None => r is None,
        },
{
    let mut out: Vec<Option<u64>> = Vec::new();
    let mut p: usize = start;
    let mut i: u32 = 0;
    while i < n
        invariant
            start <= p <= end <= b@.len(),
            i <= n,
            values_from(b@, start as int, end as int, n as nat, Seq::empty()) == values_from(
                b@,
                p as int,
                end as int,
                (n - i) as nat,
                out@,
            ),
        decreases n - i,
    {
        if p >= end {
            return None;
        }
        let tag = b[p];
        if tag == 0 {
            out.push(None);
            p = p + 1;
        } else if tag == 1 && end - p >= 9 {
            let x = read_u64(b, p + 1);
            out.push(Some(x));
            p = p + 9;
        } else {
            return None;
        }
        i = i + 1;
    }
    Some((out, p))
}

fn decode_body(b: &Vec<u8>, start: usize, end: usize) -> (r: Option<JournalEntry>)
    requires
        start <= end <= b@.len(),
    ensures
        match body_at(b@, start as int, end as int) {
            Some(img) => r matches Some(e) && e@ == img,
            None => r is None,
        },
{
    if end - start < BODY_FIXED_LEN {
        return None;
    }
    let op = match decode_operation(b[start + 40]) {
        Some(o) => o,
        None => {
            return None;
        },
    };
    let has_row = b[start + 41];
    let row_data: Option<Vec<Option<u64>>> = if has_row == 0 {
        if start + BODY_FIXED_LEN == end {
            None
        } else {
            return None;
        }
    } else if has_row == 1 && end - start >= BODY_FIXED_LEN + 4 {
        let n = read_u32(b, start + BODY_FIXED_LEN);
        match decode_values(b, start + BODY_FIXED_LEN + 4, end, n) {
            Some((vs, q)) => {
                if q == end {
                    Some(vs)
                } else {
                    return None;
                }
            },
            None => {
                return None;
            },
        }
    } else {
        return None;
    };
    Some(
        JournalEntry {
            sequence: read_u64(b, start),
            transaction_id: read_u64(b, start + 8),
            timestamp: read_u64(b, start + 16),
            table: read_u64(b, start + 24),
            key: read_u64(b, start + 32),
            operation_type: op,
            row_data,
        },
    )
}

/// Reads the record at byte offset `offset`: random access into the
/// journal. Returns the entry and the offset of the next record.
pub fn read_entry_at(b: &Vec<u8>, offset: usize) -> (r: Result<(JournalEntry, usize), JournalError>)
    ensures
        match record_at(b@, offset as int) {
            Some((img, q)) => r matches Ok((e, p)) && e@ == img && p as int == q,
            None => r == Err::<(JournalEntry, usize), JournalError>(
                JournalError::CorruptJournal { offset },
            ),
        },
{
    if offset > b.len() || b.len() - offset < HEADER_LEN {
        return Err(JournalError::CorruptJournal { offset });
    }
    let len = read_u32(b, offset) as usize;
    if len > b.len() - offset - HEADER_LEN {
        return Err(JournalError::CorruptJournal { offset });
    }
    let end = offset + HEADER_LEN + len;
    let checksum = read_u64(b, offset + 4);
    if digest_range(b, offset + HEADER_LEN, end) != checksum {
        return Err(JournalError::CorruptJournal { offset });
    }
    match decode_body(b, offset + HEADER_LEN, end) {
        Some(e) => Ok((e, end)),
        None => Err(JournalError::CorruptJournal { offset }),
    }
}

/// Reads the journal from byte offset `from` to its end, in order. Stops at
/// the first record that is corrupt or out of sequence order, naming its
/// offset.
pub fn read_journal(b: &Vec<u8>, from: usize) -> (r: Result<Vec<JournalEntry>, JournalError>)
    ensures
        match journal_from(b@, from as int) {
            Ok(es) => r matches Ok(v) && entries_view(v@) == es,
            Err(e) => r == Err::<Vec<JournalEntry>, JournalError>(e),
        },
        r is Ok ==> strictly_ordered(entries_view(r->Ok_0@)),
{
    proof {
        lemma_scan_ordered(b@, from as int, None, Seq::empty());
    }
    let mut out: Vec<JournalEntry> = Vec::new();
    let mut p: usize = from;
    let mut prev: Option<u64> = None;
    assert(entries_view(out@) =~= Seq::<EntryImage>::empty());
    while p < b.len()
        invariant
            journal_from(b@, from as int) == scan(b@, p as int, prev, entries_view(out@)),
        decreases b.len() - p,
    {
        let (e, q) = match read_entry_at(b, p) {
            Ok(x) => x,
            Err(err) => {
                return Err(err);
            },
        };
        match prev {
            Some(x) => {
                if e.sequence <= x {
                    return Err(JournalError::OutOfOrder { offset: p, sequence: e.sequence, previous: x });
                }
            },
            None => {},
        }
        if q <= p {
            return Err(JournalError::CorruptJournal { offset: p });
        }
        prev = Some(e.sequence);
        let ghost before = out@;
        let ghost img = e@;
        out.push(e);
        assert(entries_view(out@) =~= entries_view(before).push(img));
        p = q;
    }
    Ok(out)
}

/// Where a record starts, by its sequence number.
#[derive(Clone, Copy, Debug, PartialEq, Eq, Structural)]
pub struct JournalPosition {
    pub sequence: u64,
    pub offset: usize,
}

/// Like `scan`, collecting where each record starts instead of its entry.
pub open spec fn index_scan(
    b: Seq<u8>,
    p: int,
    prev: Option<u64>,
    acc: Seq<JournalPosition>,
) -> Result<Seq<JournalPosition>, JournalError>
    decreases b.len() - p,
{
    if p < 0 || p >= b.len() {
        Ok(acc)
    } else {
        match record_at(b, p) {
            None => Err(JournalError::CorruptJournal { offset: p as usize }),
            Some((e, q)) => if prev matches Some(x) && e.sequence <= x {
                Err(
                    JournalError::OutOfOrder {
                        offset: p as usize,
                        sequence: e.sequence,
                        previous: prev->0,
                    },
                )
            } else if q <= p {
                Err(JournalError::CorruptJournal { offset: p as usize })
            } else {
                index_scan(
                    b,
                    q,
                    Some(e.sequence),
                    acc.push(JournalPosition { sequence: e.sequence, offset: p as usize }),
                )
            },
        }
    }
}

/// Builds the offset index of the whole journal, so that reading can later
/// resume at any sequence number without decoding what precedes it.
pub fn index_journal(b: &Vec<u8>) -> (r: Result<Vec<JournalPosition>, JournalError>)
    ensures
        match index_scan(b@, 0, None, Seq::empty()) {
            Ok(ps) => r matches Ok(v) && v@ == ps,
            Err(e) => r == Err::<Vec<JournalPosition>, JournalError>(e),
        },
{
    let mut out: Vec<JournalPosition> = Vec::new();
    let mut p: usize = 0;
    let mut prev: Option<u64> = None;
    while p < b.len()
        invariant
            index_scan(b@, 0, None, Seq::empty()) == index_scan(b@, p as int, prev, out@),
        decreases b.len() - p,
    {
        let (e, q) = match read_entry_at(b, p) {
            Ok(x) => x,
            Err(err) => {
                return Err(err);
            },
        };
        match prev {
            Some(x) => {
                if e.sequence <= x {
                    return Err(JournalError::OutOfOrder { offset: p, sequence: e.sequence, previous: x });
                }
            },
            None => {},
        }
        if q <= p {
            return Err(JournalError::CorruptJournal { offset: p });
        }
        prev = Some(e.sequence);
        out.push(JournalPosition { sequence: e.sequence, offset: p });
        p = q;
    }
    Ok(out)
}

/// Position in `index` of the first record whose sequence number is at
/// least `from`, or the index's length if there is none.
pub open spec fn first_from(index: Seq<JournalPosition>, from: u64) -> int
    decreases index.len(),
{
    if index.len() == 0 {
        0
    } else if index[0].sequence >= from {
        0
    } else {
        1 + first_from(index.drop_first(), from)
    }
}

/// The byte offset at which reading resumes to obtain the entries with
/// sequence number `from` or greater; `end` (the journal's length) when
/// there are none.
pub fn resume_offset(index: &Vec<JournalPosition>, from: u64, end: usize) -> (r: usize)
    ensures
        ({
            let k = first_from(index@, from);
            &&& 0 <= k <= index@.len()
            &&& k < index@.len() ==> r == index@[k].offset
            &&& k == index@.len() ==> r == end
        }),
{
    let mut i: usize = 0;
    proof {
        lemma_first_from_bound(index@, from);
    }
    while i < index.len()
        invariant
            i <= index@.len(),
            first_from(index@, from) == i + first_from(index@.subrange(i as int, index@.len() as int), from),
            0 <= first_from(index@, from) <= index@.len(),
        decreases index.len() - i,
    {
        let ghost rest = index@.subrange(i as int, index@.len() as int);
        assert(rest.drop_first() =~= index@.subrange(i + 1, index@.len() as int));
        if index[i].sequence >= from {
            return index[i].offset;
        }
        i = i + 1;
    }
    end
}

proof fn lemma_first_from_bound(index: Seq<JournalPosition>, from: u64)
    ensures
        0 <= first_from(index, from) <= index.len(),
        index.subrange(0, index.len() as int) == index,
    decreases index.len(),
{
    if index.len() > 0 {
        lemma_first_from_bound(index.drop_first(), from);
    }
    assert(index.subrange(0, index.len() as int) =~= index);
}

} // verus!
