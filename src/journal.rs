//! Journal records: operations, transactions and their ordering.
use vstd::prelude::*;

verus! {

/// Kind of a journal operation.
#[derive(Clone, Copy, Debug, PartialEq, Eq, Structural)]
pub enum OperationType {
    Insert,
    Update,
    Delete,
    Truncate,
}

/// Status of a transaction.
#[derive(Clone, Copy, Debug, PartialEq, Eq, Structural)]
pub enum TransactionStatus {
    Active,
    Committed,
    Aborted,
    /// Recoverable but unresolved; a recovery policy decides its fate.
    InDoubt,
}

/// One operation record of the append-only journal.
///
/// Tables, row keys and column values are identified by integers; a column
/// value of `None` is SQL `NULL`. `row_data` is the row image written by an
/// insert or update, or the image removed by a delete.
pub struct JournalEntry {
    /// Position in the journal; strictly increasing along the journal.
    pub sequence: u64,
    pub transaction_id: u64,
    pub timestamp: u64,
    pub table: u64,
    pub key: u64,
    pub operation_type: OperationType,
    pub row_data: Option<Vec<Option<u64>>>,
}

/// The final status recorded for a transaction.
#[derive(Clone, Copy, Debug, PartialEq, Eq, Structural)]
pub struct TransactionOutcome {
    pub transaction_id: u64,
    pub status: TransactionStatus,
}

/// The column values an entry carries (empty when it carries no row).
pub open spec fn payload_of(e: JournalEntry) -> Seq<Option<u64>> {
    match e.row_data {
        Some(v) => v@,
        None => Seq::empty(),
    }
}

/// Copies the column values carried by `e`.
pub fn copy_payload(e: &JournalEntry) -> (r: Vec<Option<u64>>)
    ensures
        r@ == payload_of(*e),
{
    let mut out: Vec<Option<u64>> = Vec::new();
    match &e.row_data {
        None => {},
        Some(v) => {
            let mut i: usize = 0;
            while i < v.len()
                invariant
                    i <= v@.len(),
                    out@ == v@.subrange(0, i as int),
                decreases v.len() - i,
            {
                out.push(v[i]);
                assert(out@ =~= v@.subrange(0, i + 1));
                i = i + 1;
            }
            assert(v@.subrange(0, v@.len() as int) =~= v@);
        },
    }
    assert(out@ =~= payload_of(*e));
    out
}

/// The status recorded for transaction `tx` (the first record for it), or
/// `Active` when no outcome has been recorded.
pub open spec fn status_of(outcomes: Seq<TransactionOutcome>, tx: u64) -> TransactionStatus
    decreases outcomes.len(),
{
    if outcomes.len() == 0 {
        TransactionStatus::Active
    } else if outcomes[0].transaction_id == tx {
        outcomes[0].status
    } else {
        status_of(outcomes.drop_first(), tx)
    }
}

/// Looks up the status recorded for transaction `tx`.
pub fn lookup_status(outcomes: &Vec<TransactionOutcome>, tx: u64) -> (r: TransactionStatus)
    ensures
        r == status_of(outcomes@, tx),
{
    let mut i: usize = 0;
    assert(outcomes@.subrange(0, outcomes@.len() as int) =~= outcomes@);
    while i < outcomes.len()
        invariant
            i <= outcomes@.len(),
            status_of(outcomes@, tx) == status_of(outcomes@.subrange(i as int, outcomes@.len() as int), tx),
        decreases outcomes.len() - i,
    {
        let ghost rest = outcomes@.subrange(i as int, outcomes@.len() as int);
        assert(rest.drop_first() =~= outcomes@.subrange(i + 1, outcomes@.len() as int));
        if outcomes[i].transaction_id == tx {
            return outcomes[i].status;
        }
        i = i + 1;
    }
    TransactionStatus::Active
}

/// A transaction and the entries that belong to it, in journal order.
pub struct Transaction {
    pub xid: u64,
    pub start_time: u64,
    /// Set only when the transaction is finalized.
    pub end_time: Option<u64>,
    pub status: TransactionStatus,
    pub operations: Vec<JournalEntry>,
}

/// Why a transaction refused a change.
#[derive(Clone, Copy, Debug, PartialEq, Eq, Structural)]
pub enum TransactionError {
    /// The transaction can no longer move to the requested status.
    InvalidTransition { xid: u64, from: TransactionStatus, to: TransactionStatus },
    /// The entry belongs to another transaction, or the transaction is no
    /// longer active.
    NotRecordable { xid: u64, sequence: u64 },
}

/// Allowed status changes: an active transaction ends committed, aborted or
/// in doubt; one in doubt is resolved to committed or aborted. Committed and
/// aborted are final.
pub open spec fn may_transition(from: TransactionStatus, to: TransactionStatus) -> bool {
    match from {
        TransactionStatus::Active => to != TransactionStatus::Active,
        TransactionStatus::InDoubt => to == TransactionStatus::Committed || to
            == TransactionStatus::Aborted,
        _ => false,
    }
}

impl Transaction {
    /// The transaction that `first`, its first observed entry, opens.
    pub fn begin(first: JournalEntry) -> (r: Self)
        ensures
            r.xid == first.transaction_id,
            r.start_time == first.timestamp,
            r.end_time is None,
            r.status == TransactionStatus::Active,
            r.operations@ == seq![first],
    {
        let xid = first.transaction_id;
        let start_time = first.timestamp;
        let mut operations: Vec<JournalEntry> = Vec::new();
        operations.push(first);
        Transaction { xid, start_time, end_time: None, status: TransactionStatus::Active, operations }
    }

    /// Appends an entry of this transaction while it is active.
    pub fn record(&mut self, e: JournalEntry) -> (r: Result<(), TransactionError>)
        ensures
            r is Ok <==> (old(self).status == TransactionStatus::Active && e.transaction_id
                == old(self).xid),
            r is Ok ==> final(self).operations@ == old(self).operations@.push(e),
            r is Err ==> final(self).operations@ == old(self).operations@ && r->Err_0 == (
            TransactionError::NotRecordable { xid: old(self).xid, sequence: e.sequence }),
            final(self).xid == old(self).xid,
            final(self).start_time == old(self).start_time,
            final(self).end_time == old(self).end_time,
            final(self).status == old(self).status,
    {
        let active = match self.status {
            TransactionStatus::Active => true,
            _ => false,
        };
        if !active || e.transaction_id != self.xid {
            return Err(TransactionError::NotRecordable { xid: self.xid, sequence: e.sequence });
        }
        self.operations.push(e);
        Ok(())
    }

    /// Moves the transaction to `to` at `end_time`, if that change is allowed;
    /// otherwise nothing changes.
    pub fn finalize(&mut self, to: TransactionStatus, end_time: u64) -> (r: Result<(), TransactionError>)
        ensures
            r is Ok <==> may_transition(old(self).status, to),
            r is Ok ==> final(self).status == to && final(self).end_time == Some(end_time),
            r is Err ==> final(self).status == old(self).status && final(self).end_time == old(
                self,
            ).end_time && r->Err_0 == (TransactionError::InvalidTransition {
                xid: old(self).xid,
                from: old(self).status,
                to,
            }),
            final(self).xid == old(self).xid,
            final(self).start_time == old(self).start_time,
            final(self).operations@ == old(self).operations@,
    {
        let allowed = match self.status {
            TransactionStatus::Active => match to {
                TransactionStatus::Active => false,
                _ => true,
            },
            TransactionStatus::InDoubt => match to {
                TransactionStatus::Committed | TransactionStatus::Aborted => true,
                _ => false,
            },
            _ => false,
        };
        if !allowed {
            return Err(TransactionError::InvalidTransition { xid: self.xid, from: self.status, to });
        }
        self.status = to;
        self.end_time = Some(end_time);
        Ok(())
    }
}

} // verus!
