use formdb_debugger::constraints::{check_constraints, evaluate_constraint, Constraint, ConstraintType};
use formdb_debugger::state::RowRecord;

fn row(table: u64, key: u64, values: Vec<Option<u64>>) -> RowRecord {
    RowRecord { table, key, values }
}

fn on_column(kind: ConstraintType, column: u64) -> Constraint {
    Constraint {
        name: "c".to_string(),
        kind,
        table: 1,
        column,
        foreign_table: 0,
        foreign_column: 0,
        check_low: 10,
        check_high: 20,
    }
}

fn state() -> Vec<RowRecord> {
    vec![
        row(1, 1, vec![Some(5), Some(15)]),
        row(1, 2, vec![Some(5), None]),
        row(1, 3, vec![None, Some(25)]),
        row(1, 4, vec![Some(6)]),
        row(2, 9, vec![Some(5), None]),
    ]
}

#[test]
fn not_null_names_rows_with_absent_values() {
    let e = evaluate_constraint(&on_column(ConstraintType::NotNull, 1), 0, &state());
    assert!(!e.satisfied);
    assert_eq!(e.offending_keys, vec![2, 4]);
}

#[test]
fn unique_reports_every_duplicate() {
    let e = evaluate_constraint(&on_column(ConstraintType::Unique, 0), 3, &state());
    assert_eq!(e.constraint_index, 3);
    assert_eq!(e.offending_keys, vec![1, 2]);
}

#[test]
fn primary_key_rejects_duplicates_and_nulls() {
    let e = evaluate_constraint(&on_column(ConstraintType::PrimaryKey, 0), 0, &state());
    assert_eq!(e.offending_keys, vec![1, 2, 3]);
}

#[test]
fn check_range_violations() {
    let e = evaluate_constraint(&on_column(ConstraintType::Check, 1), 0, &state());
    assert_eq!(e.offending_keys, vec![3]);
}

#[test]
fn satisfied_constraints_and_empty_state() {
    let evals = check_constraints(
        &vec![on_column(ConstraintType::Unique, 1), on_column(ConstraintType::NotNull, 0)],
        &vec![],
    );
    assert_eq!(evals.len(), 2);
    assert!(evals[0].satisfied && evals[1].satisfied);
    assert_eq!(evals[1].constraint_index, 1);
    let e = evaluate_constraint(&on_column(ConstraintType::Unique, 1), 0, &state());
    assert!(e.satisfied);
    assert!(e.offending_keys.is_empty());
}
