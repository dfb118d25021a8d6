use formdb_debugger::hashing::digest;
use formdb_debugger::journal::{JournalEntry, OperationType, Transaction, TransactionError, TransactionStatus};
use formdb_debugger::reader::{index_journal, read_entry_at, read_journal, resume_offset, JournalError, JournalPosition};

fn body(sequence: u64, tx: u64, op: u8, row: Option<Vec<Option<u64>>>) -> Vec<u8> {
    let mut b = Vec::new();
    for w in [sequence, tx, sequence * 10, 1, 42] {
        b.extend_from_slice(&w.to_le_bytes());
    }
    b.push(op);
    match row {
        None => b.push(0),
        Some(vs) => {
            b.push(1);
            b.extend_from_slice(&(vs.len() as u32).to_le_bytes());
            for v in vs {
                match v {
                    None => b.push(0),
                    Some(x) => {
                        b.push(1);
                        b.extend_from_slice(&x.to_le_bytes());
                    }
                }
            }
        }
    }
    b
}

fn record(body: &Vec<u8>) -> Vec<u8> {
    let mut r = Vec::new();
    r.extend_from_slice(&(body.len() as u32).to_le_bytes());
    r.extend_from_slice(&digest(body).to_le_bytes());
    r.extend_from_slice(body);
    r
}

fn summary(e: &JournalEntry) -> (u64, u64, u64, u64, u64, OperationType, Option<Vec<Option<u64>>>) {
    (e.sequence, e.transaction_id, e.timestamp, e.table, e.key, e.operation_type, e.row_data.clone())
}

#[test]
fn reads_well_formed_journal() {
    let r1 = record(&body(1, 7, 0, Some(vec![Some(5), None])));
    let r2 = record(&body(2, 7, 3, None));
    let mut bytes = r1.clone();
    bytes.extend_from_slice(&r2);
    let entries = read_journal(&bytes, 0).unwrap_or_else(|_| panic!("journal should read"));
    assert_eq!(entries.len(), 2);
    assert_eq!(summary(&entries[0]), (1, 7, 10, 1, 42, OperationType::Insert, Some(vec![Some(5), None])));
    assert_eq!(summary(&entries[1]), (2, 7, 20, 1, 42, OperationType::Truncate, None));
    let tail = read_journal(&bytes, r1.len()).unwrap_or_else(|_| panic!("tail should read"));
    assert_eq!(tail.len(), 1);
    assert_eq!(tail[0].sequence, 2);
    match read_entry_at(&bytes, r1.len()) {
        Ok((e, next)) => {
            assert_eq!(e.sequence, 2);
            assert_eq!(next, bytes.len());
        }
        Err(_) => panic!("entry expected"),
    }
    assert!(read_journal(&vec![], 0).unwrap_or_else(|_| panic!("empty")).is_empty());
}

#[test]
fn checksum_mismatch_is_corrupt() {
    let r1 = record(&body(1, 7, 1, Some(vec![Some(5)])));
    let mut r2 = record(&body(2, 7, 1, Some(vec![Some(6)])));
    let last = r2.len() - 1;
    r2[last] ^= 1;
    let mut bytes = r1.clone();
    bytes.extend_from_slice(&r2);
    assert_eq!(read_journal(&bytes, 0).err(), Some(JournalError::CorruptJournal { offset: r1.len() }));
}

#[test]
fn declared_length_beyond_end_is_corrupt() {
    let mut r = record(&body(1, 7, 2, None));
    r.truncate(r.len() - 3);
    assert_eq!(read_journal(&r, 0).err(), Some(JournalError::CorruptJournal { offset: 0 }));
    assert_eq!(read_journal(&vec![1, 2, 3], 0).err(), Some(JournalError::CorruptJournal { offset: 0 }));
}

#[test]
fn undecodable_bodies_are_corrupt() {
    let bad_op = record(&body(1, 7, 9, None));
    assert_eq!(read_journal(&bad_op, 0).err(), Some(JournalError::CorruptJournal { offset: 0 }));
    let mut trailing = body(1, 7, 0, None);
    trailing.push(0);
    assert_eq!(read_journal(&record(&trailing), 0).err(), Some(JournalError::CorruptJournal { offset: 0 }));
    let mut short = body(1, 7, 0, Some(vec![Some(1)]));
    short.truncate(short.len() - 2);
    assert_eq!(read_journal(&record(&short), 0).err(), Some(JournalError::CorruptJournal { offset: 0 }));
}

#[test]
fn sequence_must_increase() {
    let r1 = record(&body(5, 7, 0, None));
    let r2 = record(&body(5, 8, 0, None));
    let mut bytes = r1.clone();
    bytes.extend_from_slice(&r2);
    assert_eq!(
        read_journal(&bytes, 0).err(),
        Some(JournalError::OutOfOrder { offset: r1.len(), sequence: 5, previous: 5 })
    );
}

fn plain(sequence: u64, tx: u64) -> JournalEntry {
    JournalEntry {
        sequence,
        transaction_id: tx,
        timestamp: sequence,
        table: 1,
        key: 1,
        operation_type: OperationType::Insert,
        row_data: None,
    }
}

#[test]
fn transaction_lifecycle() {
    let mut t = Transaction::begin(plain(1, 3));
    assert_eq!((t.xid, t.start_time, t.end_time, t.status), (3, 1, None, TransactionStatus::Active));
    assert!(t.record(plain(2, 3)).is_ok());
    assert_eq!(t.record(plain(3, 4)), Err(TransactionError::NotRecordable { xid: 3, sequence: 3 }));
    assert_eq!(t.operations.len(), 2);
    assert!(t.finalize(TransactionStatus::InDoubt, 9).is_ok());
    assert!(t.finalize(TransactionStatus::Committed, 10).is_ok());
    assert_eq!((t.status, t.end_time), (TransactionStatus::Committed, Some(10)));
    assert_eq!(
        t.finalize(TransactionStatus::Aborted, 11),
        Err(TransactionError::InvalidTransition {
            xid: 3,
            from: TransactionStatus::Committed,
            to: TransactionStatus::Aborted
        })
    );
    assert_eq!(t.record(plain(4, 3)), Err(TransactionError::NotRecordable { xid: 3, sequence: 4 }));
}

#[test]
fn resumes_from_sequence_number() {
    let r1 = record(&body(3, 1, 0, None));
    let r2 = record(&body(7, 1, 1, None));
    let r3 = record(&body(9, 2, 2, None));
    let mut bytes = r1.clone();
    bytes.extend_from_slice(&r2);
    bytes.extend_from_slice(&r3);
    let index = index_journal(&bytes).unwrap_or_else(|_| panic!("index"));
    assert_eq!(
        index,
        vec![
            JournalPosition { sequence: 3, offset: 0 },
            JournalPosition { sequence: 7, offset: r1.len() },
            JournalPosition { sequence: 9, offset: r1.len() + r2.len() },
        ]
    );
    let from = resume_offset(&index, 5, bytes.len());
    assert_eq!(from, r1.len());
    let tail = read_journal(&bytes, from).unwrap_or_else(|_| panic!("tail"));
    assert_eq!(tail.iter().map(|e| e.sequence).collect::<Vec<_>>(), vec![7, 9]);
    assert_eq!(resume_offset(&index, 10, bytes.len()), bytes.len());
    assert_eq!(resume_offset(&index, 0, bytes.len()), 0);
}
