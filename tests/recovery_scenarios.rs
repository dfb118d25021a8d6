use formdb_debugger::constraints::{check_constraints, Constraint, ConstraintType};
use formdb_debugger::journal::{JournalEntry, OperationType, TransactionOutcome, TransactionStatus};
use formdb_debugger::provenance::{OutOfOrder, ProvenanceTracker};
use formdb_debugger::recovery::{
    apply_and_verify, apply_plan, synthesize_recovery_plan, CorrectionKind, CorrectiveOp, InDoubtPolicy,
    PlanStatus,
};
use formdb_debugger::state::{encode_state, replay_masked, RowRecord};
use formdb_debugger::hashing::digest;

fn entry(sequence: u64, tx: u64, table: u64, key: u64, op: OperationType, row: Option<Vec<Option<u64>>>) -> JournalEntry {
    JournalEntry { sequence, transaction_id: tx, timestamp: sequence * 100, table, key, operation_type: op, row_data: row }
}

fn outcome(tx: u64, status: TransactionStatus) -> TransactionOutcome {
    TransactionOutcome { transaction_id: tx, status }
}

fn fk_child_to_parent() -> Constraint {
    Constraint {
        name: "child_parent_fk".to_string(),
        kind: ConstraintType::ForeignKey,
        table: 2,
        column: 0,
        foreign_table: 1,
        foreign_column: 0,
        check_low: 0,
        check_high: 0,
    }
}

fn rows_of(rows: &Vec<RowRecord>) -> Vec<(u64, u64, Vec<Option<u64>>)> {
    rows.iter().map(|r| (r.table, r.key, r.values.clone())).collect()
}

#[test]
fn aborted_update_history_and_rollback() {
    let journal = vec![
        entry(1, 1, 1, 10, OperationType::Insert, Some(vec![Some(5)])),
        entry(2, 2, 1, 10, OperationType::Update, Some(vec![Some(7)])),
    ];
    let mut tracker = ProvenanceTracker::new();
    assert!(tracker.apply(&journal[0]).is_ok());
    assert!(tracker.apply(&journal[1]).is_ok());
    let h = tracker.history(1, 10, 0);
    assert_eq!(h.len(), 2);
    assert_eq!((h[0].sequence, h[0].transaction_id, h[0].operation_type), (2, 2, OperationType::Update));
    assert_eq!((h[1].sequence, h[1].transaction_id, h[1].operation_type), (1, 1, OperationType::Insert));
    assert_eq!(h[1].predecessor, None);
    assert_eq!(tracker.origin_transaction(1, 10, 0), Some(1));

    let outcomes = vec![outcome(1, TransactionStatus::Committed), outcome(2, TransactionStatus::Aborted)];
    let plan = match synthesize_recovery_plan(&vec![], &journal, &outcomes, InDoubtPolicy::Undo, 2) {
        Ok(p) => p,
        Err(_) => panic!("plan expected"),
    };
    assert_eq!(
        plan.operations,
        vec![CorrectiveOp { kind: CorrectionKind::Rollback, position: 1, sequence: 2, transaction_id: 2 }]
    );
    let after = apply_plan(&plan, &journal);
    assert_eq!(rows_of(&after), vec![(1, 10, vec![Some(5)])]);
    let sealed = apply_and_verify(&plan, &journal, 7, Some(99));
    let snap = match sealed {
        Ok(s) => s,
        Err(_) => panic!("verified snapshot expected"),
    };
    assert_eq!(snap.root_hash, plan.predicted_root);
    assert_eq!(snap.root_hash, digest(&encode_state(&after)));
    assert_eq!(snap.parent_hash, Some(99));
}

#[test]
fn provenance_rejects_out_of_order() {
    let mut tracker = ProvenanceTracker::new();
    assert!(tracker.apply(&entry(5, 1, 1, 1, OperationType::Insert, Some(vec![Some(1), None]))).is_ok());
    assert_eq!(tracker.records.len(), 2);
    let r = tracker.apply(&entry(5, 2, 1, 1, OperationType::Update, Some(vec![Some(2)])));
    assert_eq!(r, Err(OutOfOrder { sequence: 5, previous: 5 }));
    assert_eq!(tracker.records.len(), 2);
    assert!(tracker.history(1, 1, 7).is_empty());
    assert_eq!(tracker.origin_transaction(1, 2, 0), None);
}

#[test]
fn delete_and_truncate_history() {
    let mut tracker = ProvenanceTracker::new();
    assert!(tracker.apply(&entry(1, 1, 3, 4, OperationType::Insert, Some(vec![Some(1)]))).is_ok());
    assert!(tracker.apply(&entry(2, 1, 3, 4, OperationType::Truncate, None)).is_ok());
    assert!(tracker.apply(&entry(3, 2, 3, 4, OperationType::Delete, Some(vec![Some(1)]))).is_ok());
    let h = tracker.history(3, 4, 0);
    assert_eq!(h.len(), 2);
    assert_eq!(h[0].value, None);
    assert_eq!(h[0].predecessor, Some(0));
    assert_eq!(h[1].value, Some(1));
}

#[test]
fn dangling_foreign_key_is_reported() {
    let journal = vec![
        entry(1, 1, 1, 100, OperationType::Insert, Some(vec![Some(100)])),
        entry(2, 2, 2, 200, OperationType::Insert, Some(vec![Some(100)])),
        entry(3, 3, 1, 100, OperationType::Delete, None),
    ];
    let state = replay_masked(&journal, &vec![true, true, true]);
    let evals = check_constraints(&vec![fk_child_to_parent()], &state);
    assert_eq!(evals.len(), 1);
    assert!(!evals[0].satisfied);
    assert_eq!(evals[0].offending_keys, vec![200]);
    let again = check_constraints(&vec![fk_child_to_parent()], &state);
    assert_eq!(again[0].offending_keys, evals[0].offending_keys);
    assert_eq!(again[0].satisfied, evals[0].satisfied);
}

#[test]
fn dangling_foreign_key_parent_restored_by_rollback() {
    let journal = vec![
        entry(1, 1, 1, 100, OperationType::Insert, Some(vec![Some(100)])),
        entry(2, 2, 2, 200, OperationType::Insert, Some(vec![Some(100)])),
        entry(3, 3, 1, 100, OperationType::Delete, None),
    ];
    let outcomes = vec![
        outcome(1, TransactionStatus::Committed),
        outcome(2, TransactionStatus::Committed),
        outcome(3, TransactionStatus::Aborted),
    ];
    let plan = match synthesize_recovery_plan(&vec![fk_child_to_parent()], &journal, &outcomes, InDoubtPolicy::Undo, 3) {
        Ok(p) => p,
        Err(_) => panic!("plan expected"),
    };
    assert_eq!(
        plan.operations,
        vec![CorrectiveOp { kind: CorrectionKind::Rollback, position: 2, sequence: 3, transaction_id: 3 }]
    );
    assert!(plan.evaluations[0].satisfied);
    let after = apply_plan(&plan, &journal);
    assert_eq!(rows_of(&after), vec![(1, 100, vec![Some(100)]), (2, 200, vec![Some(100)])]);
    assert!(apply_and_verify(&plan, &journal, 1, None).is_ok());
}

#[test]
fn dangling_foreign_key_child_removed_by_rollback() {
    let journal = vec![
        entry(1, 1, 1, 100, OperationType::Insert, Some(vec![Some(100)])),
        entry(2, 2, 2, 200, OperationType::Insert, Some(vec![Some(100)])),
        entry(3, 3, 1, 100, OperationType::Delete, None),
    ];
    let outcomes = vec![
        outcome(1, TransactionStatus::Committed),
        outcome(2, TransactionStatus::Aborted),
        outcome(3, TransactionStatus::Committed),
    ];
    let plan = match synthesize_recovery_plan(&vec![fk_child_to_parent()], &journal, &outcomes, InDoubtPolicy::Undo, 3) {
        Ok(p) => p,
        Err(_) => panic!("plan expected"),
    };
    assert_eq!(
        plan.operations,
        vec![CorrectiveOp { kind: CorrectionKind::Rollback, position: 1, sequence: 2, transaction_id: 2 }]
    );
    assert!(apply_plan(&plan, &journal).is_empty());
}

#[test]
fn dangling_foreign_key_parent_replayed() {
    let journal = vec![
        entry(1, 1, 2, 200, OperationType::Insert, Some(vec![Some(100)])),
        entry(2, 2, 1, 100, OperationType::Insert, Some(vec![Some(100)])),
    ];
    let outcomes = vec![outcome(1, TransactionStatus::Committed), outcome(2, TransactionStatus::Committed)];
    let damaged = replay_masked(&journal, &vec![true, false]);
    let evals = check_constraints(&vec![fk_child_to_parent()], &damaged);
    assert_eq!(evals[0].offending_keys, vec![200]);
    let plan = match synthesize_recovery_plan(&vec![fk_child_to_parent()], &journal, &outcomes, InDoubtPolicy::Undo, 1) {
        Ok(p) => p,
        Err(_) => panic!("plan expected"),
    };
    assert_eq!(
        plan.operations,
        vec![CorrectiveOp { kind: CorrectionKind::Replay, position: 1, sequence: 2, transaction_id: 2 }]
    );
    let after = apply_plan(&plan, &journal);
    assert!(check_constraints(&vec![fk_child_to_parent()], &after)[0].satisfied);
}

#[test]
fn dangling_foreign_key_unrecoverable() {
    let journal = vec![
        entry(1, 1, 1, 100, OperationType::Insert, Some(vec![Some(100)])),
        entry(2, 2, 2, 200, OperationType::Insert, Some(vec![Some(100)])),
        entry(3, 3, 1, 100, OperationType::Delete, None),
    ];
    let outcomes = vec![
        outcome(1, TransactionStatus::Committed),
        outcome(2, TransactionStatus::Committed),
        outcome(3, TransactionStatus::Committed),
    ];
    match synthesize_recovery_plan(&vec![fk_child_to_parent()], &journal, &outcomes, InDoubtPolicy::Undo, 3) {
        Ok(_) => panic!("no plan can resolve this"),
        Err(e) => {
            assert_eq!(e.evaluations.len(), 1);
            assert_eq!(e.evaluations[0].offending_keys, vec![200]);
        }
    }
}

#[test]
fn in_doubt_policy_decides() {
    let journal = vec![
        entry(1, 1, 1, 1, OperationType::Insert, Some(vec![Some(1)])),
        entry(2, 2, 1, 2, OperationType::Insert, Some(vec![Some(2)])),
    ];
    let outcomes = vec![outcome(1, TransactionStatus::Committed), outcome(2, TransactionStatus::InDoubt)];
    let undo = match synthesize_recovery_plan(&vec![], &journal, &outcomes, InDoubtPolicy::Undo, 2) {
        Ok(p) => p,
        Err(_) => panic!("plan expected"),
    };
    assert_eq!(undo.operations.len(), 1);
    assert_eq!(undo.operations[0].kind, CorrectionKind::Rollback);
    let redo = match synthesize_recovery_plan(&vec![], &journal, &outcomes, InDoubtPolicy::Redo, 2) {
        Ok(p) => p,
        Err(_) => panic!("plan expected"),
    };
    assert!(redo.operations.is_empty());
    assert_eq!(apply_plan(&redo, &journal).len(), 2);
}

#[test]
fn history_is_newest_first_per_cell() {
    let mut tracker = ProvenanceTracker::new();
    let writes = vec![
        entry(3, 1, 1, 1, OperationType::Insert, Some(vec![Some(1), Some(2)])),
        entry(4, 2, 1, 2, OperationType::Insert, Some(vec![Some(9)])),
        entry(8, 3, 1, 1, OperationType::Update, Some(vec![Some(5)])),
        entry(9, 4, 1, 1, OperationType::Update, Some(vec![Some(6), Some(7)])),
    ];
    for w in &writes {
        assert!(tracker.apply(w).is_ok());
    }
    let h0: Vec<(u64, u64)> = tracker.history(1, 1, 0).iter().map(|r| (r.sequence, r.transaction_id)).collect();
    assert_eq!(h0, vec![(9, 4), (8, 3), (3, 1)]);
    let h1: Vec<(u64, Option<u64>)> = tracker.history(1, 1, 1).iter().map(|r| (r.sequence, r.value)).collect();
    assert_eq!(h1, vec![(9, Some(7)), (3, Some(2))]);
    assert_eq!(tracker.origin_transaction(1, 1, 1), Some(1));
    assert_eq!(tracker.origin_transaction(1, 2, 0), Some(2));
}

#[test]
fn plan_status_settles_once() {
    let journal = vec![entry(1, 1, 1, 1, OperationType::Insert, Some(vec![Some(1)]))];
    let outcomes = vec![outcome(1, TransactionStatus::Committed)];
    let mut plan = match synthesize_recovery_plan(&vec![], &journal, &outcomes, InDoubtPolicy::Undo, 0) {
        Ok(p) => p,
        Err(_) => panic!("plan expected"),
    };
    assert_eq!(plan.status, PlanStatus::Proposed);
    let verified = apply_and_verify(&plan, &journal, 1, None);
    plan.settle(&verified);
    assert_eq!(plan.status, PlanStatus::Verified);
    let mut wrong = match synthesize_recovery_plan(&vec![], &journal, &outcomes, InDoubtPolicy::Undo, 0) {
        Ok(p) => p,
        Err(_) => panic!("plan expected"),
    };
    wrong.predicted_root = wrong.predicted_root.wrapping_add(1);
    let rejected = apply_and_verify(&wrong, &journal, 1, None);
    assert!(rejected.is_err());
    wrong.settle(&rejected);
    assert_eq!(wrong.status, PlanStatus::Rejected);
    wrong.settle(&verified);
    assert_eq!(wrong.status, PlanStatus::Rejected);
}

#[test]
fn pruning_drops_old_records_and_cuts_links() {
    let mut tracker = ProvenanceTracker::new();
    assert!(tracker.apply(&entry(1, 1, 1, 1, OperationType::Insert, Some(vec![Some(1)]))).is_ok());
    assert!(tracker.apply(&entry(2, 2, 1, 2, OperationType::Insert, Some(vec![Some(2)]))).is_ok());
    assert!(tracker.apply(&entry(5, 3, 1, 1, OperationType::Update, Some(vec![Some(3)]))).is_ok());
    assert!(tracker.apply(&entry(6, 4, 1, 1, OperationType::Update, Some(vec![Some(4)]))).is_ok());
    tracker.prune_before(5);
    assert_eq!(tracker.records.len(), 2);
    let h: Vec<(u64, Option<usize>)> = tracker.history(1, 1, 0).iter().map(|r| (r.sequence, r.predecessor)).collect();
    assert_eq!(h, vec![(6, Some(0)), (5, None)]);
    assert!(tracker.history(1, 2, 0).is_empty());
    assert_eq!(tracker.origin_transaction(1, 1, 0), Some(3));
    assert!(tracker.apply(&entry(7, 5, 1, 2, OperationType::Update, Some(vec![Some(9)]))).is_ok());
    assert_eq!(tracker.history(1, 2, 0).len(), 1);
    tracker.prune_before(100);
    assert!(tracker.records.is_empty());
    assert!(tracker.apply(&entry(3, 6, 1, 1, OperationType::Insert, None)).is_err());
}
