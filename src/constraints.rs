//! Integrity constraints and their evaluation against a materialized state.
use vstd::prelude::*;
use crate::state::{RowRecord, RowImage, rows_view};

verus! {

/// Kind of an integrity constraint.
#[derive(Clone, Copy, Debug, PartialEq, Eq, Structural)]
pub enum ConstraintType {
    PrimaryKey,
    ForeignKey,
    Unique,
    Check,
    NotNull,
}

/// A declarative constraint on one column of one table.
///
/// `foreign_table` and `foreign_column` name the referenced column of a
/// foreign key; `check_low` and `check_high` bound the values a check
/// constraint admits (inclusive). Fields a kind does not use are ignored.
pub struct Constraint {
    pub name: String,
    pub kind: ConstraintType,
    pub table: u64,
    pub column: u64,
    pub foreign_table: u64,
    pub foreign_column: u64,
    pub check_low: u64,
    pub check_high: u64,
}

/// The outcome of one constraint: the keys of the rows that violate it, in
/// state order. It is satisfied exactly when that list is empty.
pub struct ConstraintEvaluation {
    /// Position of the constraint in the evaluated list.
    pub constraint_index: usize,
    pub satisfied: bool,
    pub offending_keys: Vec<u64>,
}

/// The mathematical value of an evaluation.
pub struct EvaluationImage {
    pub constraint_index: usize,
    pub satisfied: bool,
    pub offending_keys: Seq<u64>,
}

impl View for ConstraintEvaluation {
    type V = EvaluationImage;

    open spec fn view(&self) -> EvaluationImage {
        EvaluationImage {
            constraint_index: self.constraint_index,
            satisfied: self.satisfied,
            offending_keys: self.offending_keys@,
        }
    }
}

/// The value of column `c` of a row; a missing column reads as `NULL`.
pub open spec fn value_at(r: RowImage, c: u64) -> Option<u64> {
    if c < r.values.len() {
        r.values[c as int]
    } else {
        None
    }
}

/// Some row other than `skip` of `table` holds `Some(v)` in column `c`.
pub open spec fn value_present(rows: Seq<RowImage>, table: u64, c: u64, v: u64, skip: int) -> bool {
    exists|j: int| 0 <= j < rows.len() && j != skip && rows[j].table == table && value_at(rows[j], c) == Some(v)
}

/// Row `i` of `rows` violates `k`.
pub open spec fn violates(k: Constraint, rows: Seq<RowImage>, i: int) -> bool {
    let r = rows[i];
    let v = value_at(r, k.column);
    r.table == k.table && match k.kind {
        ConstraintType::NotNull => v is None,
        ConstraintType::Unique => v matches Some(x) && value_present(rows, k.table, k.column, x, i),
        ConstraintType::PrimaryKey => match v {
            None => true,
            Some(x) => value_present(rows, k.table, k.column, x, i),
        },
        ConstraintType::ForeignKey => v matches Some(x) && !value_present(
            rows,
            k.foreign_table,
            k.foreign_column,
            x,
            -1,
        ),
        ConstraintType::Check => v matches Some(x) && !(k.check_low <= x <= k.check_high),
    }
}

/// Keys of the violating rows among the first `n`, in state order.
pub open spec fn offenders_upto(k: Constraint, rows: Seq<RowImage>, n: int) -> Seq<u64>
    decreases n,
{
    if n <= 0 {
        Seq::empty()
    } else {
        let prev = offenders_upto(k, rows, n - 1);
        if violates(k, rows, n - 1) {
            prev.push(rows[n - 1].key)
        } else {
            prev
        }
    }
}

/// Keys of all rows that violate `k`, in state order.
pub open spec fn offenders(k: Constraint, rows: Seq<RowImage>) -> Seq<u64> {
    offenders_upto(k, rows, rows.len() as int)
}

/// The evaluation of constraint `i` of `ks`.
pub open spec fn evaluation_of(ks: Seq<Constraint>, rows: Seq<RowImage>, i: int) -> EvaluationImage {
    EvaluationImage {
        constraint_index: i as usize,
        satisfied: offenders(ks[i], rows).len() == 0,
        offending_keys: offenders(ks[i], rows),
    }
}

/// The evaluations of all constraints, in constraint order.
pub open spec fn evaluations_of(ks: Seq<Constraint>, rows: Seq<RowImage>) -> Seq<EvaluationImage> {
    Seq::new(ks.len(), |i: int| evaluation_of(ks, rows, i))
}

/// The mathematical value of a list of evaluations.
pub open spec fn evaluations_view(es: Seq<ConstraintEvaluation>) -> Seq<EvaluationImage> {
    es.map_values(|e: ConstraintEvaluation| e@)
}

/// Every constraint holds on the state.
pub open spec fn all_satisfied(ks: Seq<Constraint>, rows: Seq<RowImage>) -> bool {
    forall|i: int| 0 <= i < ks.len() ==> offenders(ks[i], rows).len() == 0
}

fn column_value(r: &RowRecord, c: u64) -> (v: Option<u64>)
    ensures
        v == value_at(r@, c),
{
    if c < r.values.len() as u64 {
        r.values[c as usize]
    } else {
        None
    }
}

fn has_value(rows: &Vec<RowRecord>, table: u64, c: u64, v: u64, skip: Option<usize>) -> (r: bool)
    ensures
        r == value_present(
            rows_view(rows@),
            table,
            c,
            v,
            match skip {
                Some(s) => s as int,
                None => -1,
            },
        ),
{
    let ghost view = rows_view(rows@);
    let ghost s: int = match skip {
        Some(s) => s as int,
        None => -1,
    };
    let mut j: usize = 0;
    while j < rows.len()
        invariant
            j <= rows@.len(),
            view == rows_view(rows@),
            s == match skip {
                Some(x) => x as int,
                None => -1,
            },
            forall|m: int|
                0 <= m < j ==> !(m != s && view[m].table == table && value_at(view[m], c) == Some(
                    v,
                )),
        decreases rows.len() - j,
    {
        assert(view[j as int] == rows@[j as int]@);
        let not_skipped = match skip {
            Some(x) => x != j,
            None => true,
        };
        let same = match column_value(&rows[j], c) {
            Some(x) => x == v,
            None => false,
        };
        if not_skipped && rows[j].table == table && same {
            return true;
        }
        j = j + 1;
    }
    false
}

fn row_violates(k: &Constraint, rows: &Vec<RowRecord>, i: usize) -> (r: bool)
    requires
        i < rows@.len(),
    ensures
        r == violates(*k, rows_view(rows@), i as int),
{
    let ghost view = rows_view(rows@);
    assert(view[i as int] == rows@[i as int]@);
    let row = &rows[i];
    if row.table != k.table {
        return false;
    }
    let v = column_value(row, k.column);
    match k.kind {
        ConstraintType::NotNull => v.is_none(),
        ConstraintType::Unique => match v {
            None => false,
            Some(x) => has_value(rows, k.table, k.column, x, Some(i)),
        },
        ConstraintType::PrimaryKey => match v {
            None => true,
            Some(x) => has_value(rows, k.table, k.column, x, Some(i)),
        },
        ConstraintType::ForeignKey => match v {
            None => false,
            Some(x) => !has_value(rows, k.foreign_table, k.foreign_column, x, None),
        },
        ConstraintType::Check => match v {
            None => false,
            Some(x) => !(k.check_low <= x && x <= k.check_high),
        },
    }
}

/// Evaluates one constraint, naming the key of every violating row.
pub fn evaluate_constraint(k: &Constraint, index: usize, rows: &Vec<RowRecord>) -> (r:
    ConstraintEvaluation)
    ensures
        r@.constraint_index == index,
        r@.offending_keys == offenders(*k, rows_view(rows@)),
        r@.satisfied == (offenders(*k, rows_view(rows@)).len() == 0),
{
    let ghost view = rows_view(rows@);
    let mut keys: Vec<u64> = Vec::new();
    let mut i: usize = 0;
    while i < rows.len()
        invariant
            i <= rows@.len(),
            view == rows_view(rows@),
            keys@ == offenders_upto(*k, view, i as int),
        decreases rows.len() - i,
    {
        if row_violates(k, rows, i) {
            assert(view[i as int] == rows@[i as int]@);
            keys.push(rows[i].key);
        }
        i = i + 1;
    }
    let satisfied = keys.len() == 0;
    ConstraintEvaluation { constraint_index: index, satisfied, offending_keys: keys }
}

/// Evaluates every constraint against the state, in constraint order. The
/// state is only read.
pub fn check_constraints(constraints: &Vec<Constraint>, rows: &Vec<RowRecord>) -> (r: Vec<
    ConstraintEvaluation,
>)
    ensures
        evaluations_view(r@) == evaluations_of(constraints@, rows_view(rows@)),
{
    let mut out: Vec<ConstraintEvaluation> = Vec::new();
    let mut i: usize = 0;
    while i < constraints.len()
        invariant
            i <= constraints@.len(),
            evaluations_view(out@) == evaluations_of(constraints@, rows_view(rows@)).subrange(0, i as int),
        decreases constraints.len() - i,
    {
        let ev = evaluate_constraint(&constraints[i], i, rows);
        let ghost before = out@;
        out.push(ev);
        assert(ev@ == evaluation_of(constraints@, rows_view(rows@), i as int));
        assert(evaluations_view(out@) =~= evaluations_view(before).push(ev@));
        assert(evaluations_view(out@) =~= evaluations_of(constraints@, rows_view(rows@)).subrange(0, i + 1));
        i = i + 1;
    }
    assert(evaluations_of(constraints@, rows_view(rows@)).subrange(0, constraints@.len() as int)
        =~= evaluations_of(constraints@, rows_view(rows@)));
    out
}

/// Whether every evaluation in the list is satisfied.
pub fn all_hold(evaluations: &Vec<ConstraintEvaluation>) -> (r: bool)
    ensures
        r == forall|i: int| 0 <= i < evaluations@.len() ==> evaluations@[i].satisfied,
{
    let mut i: usize = 0;
    while i < evaluations.len()
        invariant
            i <= evaluations@.len(),
            forall|j: int| 0 <= j < i ==> evaluations@[j].satisfied,
        decreases evaluations.len() - i,
    {
        if !evaluations[i].satisfied {
            return false;
        }
        i = i + 1;
    }
    true
}

/// Evaluation is a function of the constraints and the state alone: equal
/// inputs give equal evaluation lists, and each evaluation depends only on
/// its own constraint, whatever the others are or where it stands.
pub proof fn lemma_evaluation_deterministic(
    ks1: Seq<Constraint>,
    rows1: Seq<RowImage>,
    ks2: Seq<Constraint>,
    rows2: Seq<RowImage>,
)
    requires
        ks1 == ks2,
        rows1 == rows2,
    ensures
        evaluations_of(ks1, rows1) == evaluations_of(ks2, rows2),
        forall|i: int, j: int|
            0 <= i < ks1.len() && 0 <= j < ks2.len() && ks1[i] == ks2[j] ==> evaluations_of(ks1, rows1)[i].offending_keys
                == evaluations_of(ks2, rows2)[j].offending_keys,
{
}

} // verus!
