//! Recovery plan synthesis and re-verification.
//!
//! A damaged state is the replay of the first `base_applied` journal entries,
//! whatever their transactions' fate. The recovery target keeps exactly the
//! entries of committed transactions (and of in-doubt ones when the policy
//! redoes them). A plan rolls back every applied entry that the target drops,
//! newest first, then replays every unapplied entry that the target keeps, in
//! journal order. Applying a plan rebuilds the state from the journal's
//! effective entries, so the result can be hashed and checked against the
//! root the plan predicts.
use vstd::prelude::*;
use crate::constraints::{
    Constraint,
    ConstraintEvaluation,
    all_hold,
    all_satisfied,
    check_constraints,
    evaluations_of,
    evaluations_view,
    offenders,
};
use crate::hashing::{digest, digest_of};
use crate::journal::{
    JournalEntry,
    TransactionOutcome,
    TransactionStatus,
    lookup_status,
    status_of,
};
use crate::snapshot::{MerkleMismatch, MismatchKind, Snapshot, snapshot_ok, verify_snapshot};
use crate::state::{RowRecord, encode_rows, encode_state, replay, replay_masked, rows_view};

verus! {

/// How a transaction left in doubt is resolved.
#[derive(Clone, Copy, Debug, PartialEq, Eq, Structural)]
pub enum InDoubtPolicy {
    /// Undo its writes.
    Undo,
    /// Keep its writes as if it had committed.
    Redo,
}

/// Whether a corrective operation undoes or re-applies a journal entry.
#[derive(Clone, Copy, Debug, PartialEq, Eq, Structural)]
pub enum CorrectionKind {
    Rollback,
    Replay,
}

/// A corrective operation, referring to a journal entry by position.
#[derive(Clone, Copy, Debug, PartialEq, Eq, Structural)]
pub struct CorrectiveOp {
    pub kind: CorrectionKind,
    pub position: usize,
    pub sequence: u64,
    pub transaction_id: u64,
}

/// Life cycle of a plan: proposed, then verified or rejected once.
#[derive(Clone, Copy, Debug, PartialEq, Eq, Structural)]
pub enum PlanStatus {
    Proposed,
    Verified,
    Rejected,
}

/// A proposed recovery: the operations, the root hash the repaired state is
/// predicted to have, and the evaluations it is expected to satisfy.
pub struct RecoveryPlan {
    /// Number of journal entries applied in the damaged state.
    pub base_applied: usize,
    pub operations: Vec<CorrectiveOp>,
    pub predicted_root: u64,
    pub evaluations: Vec<ConstraintEvaluation>,
    pub status: PlanStatus,
}

/// No plan restores every constraint; the evaluations of the best candidate
/// state are returned for the operator.
pub struct UnrecoverablePlan {
    pub evaluations: Vec<ConstraintEvaluation>,
}

/// The recovery target keeps this entry.
pub open spec fn kept(e: JournalEntry, outcomes: Seq<TransactionOutcome>, policy: InDoubtPolicy) -> bool {
    match status_of(outcomes, e.transaction_id) {
        TransactionStatus::Committed => true,
        TransactionStatus::InDoubt => policy == InDoubtPolicy::Redo,
        _ => false,
    }
}

/// Which journal entries the recovery target keeps.
pub open spec fn kept_mask(
    journal: Seq<JournalEntry>,
    outcomes: Seq<TransactionOutcome>,
    policy: InDoubtPolicy,
) -> Seq<bool> {
    Seq::new(journal.len(), |i: int| kept(journal[i], outcomes, policy))
}

/// The state the recovery aims at.
pub open spec fn target_state(
    journal: Seq<JournalEntry>,
    outcomes: Seq<TransactionOutcome>,
    policy: InDoubtPolicy,
) -> Seq<crate::state::RowImage> {
    replay(journal, kept_mask(journal, outcomes, policy), journal.len() as int)
}

pub open spec fn op_at(journal: Seq<JournalEntry>, kind: CorrectionKind, i: int) -> CorrectiveOp {
    CorrectiveOp {
        kind,
        position: i as usize,
        sequence: journal[i].sequence,
        transaction_id: journal[i].transaction_id,
    }
}

/// Rollbacks of the dropped entries among positions `lo..hi`, newest first.
pub open spec fn rollbacks(
    journal: Seq<JournalEntry>,
    outcomes: Seq<TransactionOutcome>,
    policy: InDoubtPolicy,
    lo: int,
    hi: int,
) -> Seq<CorrectiveOp>
    decreases hi - lo,
{
    if lo >= hi {
        Seq::empty()
    } else {
        let rest = rollbacks(journal, outcomes, policy, lo + 1, hi);
        if kept(journal[lo], outcomes, policy) {
            rest
        } else {
            rest.push(op_at(journal, CorrectionKind::Rollback, lo))
        }
    }
}

/// Replays of the kept entries among positions `from..n`, in journal order.
pub open spec fn replays(
    journal: Seq<JournalEntry>,
    outcomes: Seq<TransactionOutcome>,
    policy: InDoubtPolicy,
    from: int,
    n: int,
) -> Seq<CorrectiveOp>
    decreases n - from,
{
    if n <= from {
        Seq::empty()
    } else {
        let prev = replays(journal, outcomes, policy, from, n - 1);
        if kept(journal[n - 1], outcomes, policy) {
            prev.push(op_at(journal, CorrectionKind::Replay, n - 1))
        } else {
            prev
        }
    }
}

/// The operations of the plan for a damaged state of `applied` entries.
pub open spec fn plan_operations(
    journal: Seq<JournalEntry>,
    outcomes: Seq<TransactionOutcome>,
    policy: InDoubtPolicy,
    applied: int,
) -> Seq<CorrectiveOp> {
    rollbacks(journal, outcomes, policy, 0, applied) + replays(
        journal,
        outcomes,
        policy,
        applied,
        journal.len() as int,
    )
}

/// Some operation of `ops` has `kind` and refers to position `i`.
pub open spec fn has_op(ops: Seq<CorrectiveOp>, kind: CorrectionKind, i: int) -> bool {
    exists|k: int| 0 <= k < ops.len() && ops[k].kind == kind && ops[k].position as int == i
}

/// The entries that are in effect after a plan: applied and not rolled back,
/// or replayed.
pub open spec fn plan_mask(plan: RecoveryPlan, n: int) -> Seq<bool> {
    ops_mask(plan.operations@, plan.base_applied as int, n)
}

/// The entries in effect after operations `ops` on a damaged state of `base`
/// entries, among `n` journal entries.
pub open spec fn ops_mask(ops: Seq<CorrectiveOp>, base: int, n: int) -> Seq<bool> {
    Seq::new(
        n as nat,
        |i: int|
            if i < base {
                !has_op(ops, CorrectionKind::Rollback, i)
            } else {
                has_op(ops, CorrectionKind::Replay, i)
            },
    )
}

/// The state obtained by applying `plan` to the damaged state.
pub open spec fn state_after(plan: RecoveryPlan, journal: Seq<JournalEntry>) -> Seq<crate::state::RowImage> {
    replay(journal, plan_mask(plan, journal.len() as int), journal.len() as int)
}

/// `plan` is what synthesis proposes for these inputs.
pub open spec fn proposed(
    plan: RecoveryPlan,
    constraints: Seq<Constraint>,
    journal: Seq<JournalEntry>,
    outcomes: Seq<TransactionOutcome>,
    policy: InDoubtPolicy,
    applied: int,
) -> bool {
    let target = target_state(journal, outcomes, policy);
    &&& plan.base_applied as int == applied
    &&& plan.operations@ == plan_operations(journal, outcomes, policy, applied)
    &&& plan.predicted_root as nat == digest_of(encode_rows(target))
    &&& evaluations_view(plan.evaluations@) == evaluations_of(constraints, target)
    &&& plan.status == PlanStatus::Proposed
}

fn entry_kept(e: &JournalEntry, outcomes: &Vec<TransactionOutcome>, policy: InDoubtPolicy) -> (r: bool)
    ensures
        r == kept(*e, outcomes@, policy),
{
    match lookup_status(outcomes, e.transaction_id) {
        TransactionStatus::Committed => true,
        TransactionStatus::InDoubt => match policy {
            InDoubtPolicy::Redo => true,
            InDoubtPolicy::Undo => false,
        },
        _ => false,
    }
}

/// Computes which entries the recovery target keeps.
pub fn target_mask(
    journal: &Vec<JournalEntry>,
    outcomes: &Vec<TransactionOutcome>,
    policy: InDoubtPolicy,
) -> (r: Vec<bool>)
    ensures
        r@ == kept_mask(journal@, outcomes@, policy),
{
    let mut mask: Vec<bool> = Vec::new();
    let mut i: usize = 0;
    while i < journal.len()
        invariant
            i <= journal@.len(),
            mask@ == kept_mask(journal@, outcomes@, policy).subrange(0, i as int),
        decreases journal.len() - i,
    {
        let k = entry_kept(&journal[i], outcomes, policy);
        mask.push(k);
        assert(mask@ =~= kept_mask(journal@, outcomes@, policy).subrange(0, i + 1));
        i = i + 1;
    }
    assert(kept_mask(journal@, outcomes@, policy).subrange(0, journal@.len() as int) =~= kept_mask(
        journal@,
        outcomes@,
        policy,
    ));
    mask
}

fn build_operations(
    journal: &Vec<JournalEntry>,
    outcomes: &Vec<TransactionOutcome>,
    policy: InDoubtPolicy,
    applied: usize,
) -> (r: Vec<CorrectiveOp>)
    requires
        applied <= journal@.len(),
    ensures
        r@ == plan_operations(journal@, outcomes@, policy, applied as int),
{
    let mut ops: Vec<CorrectiveOp> = Vec::new();
    let mut i: usize = applied;
    while i > 0
        invariant
            i <= applied <= journal@.len(),
            ops@ == rollbacks(journal@, outcomes@, policy, i as int, applied as int),
        decreases i,
    {
        let e = &journal[i - 1];
        if !entry_kept(e, outcomes, policy) {
            ops.push(
                CorrectiveOp {
                    kind: CorrectionKind::Rollback,
                    position: i - 1,
                    sequence: e.sequence,
                    transaction_id: e.transaction_id,
                },
            );
        }
        i = i - 1;
    }
    let ghost rb = ops@;
    let mut j: usize = applied;
    while j < journal.len()
        invariant
            applied <= j <= journal@.len(),
            ops@ == rb + replays(journal@, outcomes@, policy, applied as int, j as int),
        decreases journal.len() - j,
    {
        let e = &journal[j];
        if entry_kept(e, outcomes, policy) {
            ops.push(
                CorrectiveOp {
                    kind: CorrectionKind::Replay,
                    position: j,
                    sequence: e.sequence,
                    transaction_id: e.transaction_id,
                },
            );
            assert(ops@ =~= rb + replays(journal@, outcomes@, policy, applied as int, j + 1));
        }
        j = j + 1;
    }
    ops
}

/// Proposes the plan that brings the damaged state of the first `applied`
/// entries to the recovery target. It fails, rather than proposing a partial
/// plan, exactly when some constraint is violated in the target state.
pub fn synthesize_recovery_plan(
    constraints: &Vec<Constraint>,
    journal: &Vec<JournalEntry>,
    outcomes: &Vec<TransactionOutcome>,
    policy: InDoubtPolicy,
    applied: usize,
) -> (r: Result<RecoveryPlan, UnrecoverablePlan>)
    requires
        applied <= journal@.len(),
    ensures
        r is Ok <==> all_satisfied(constraints@, target_state(journal@, outcomes@, policy)),
        r is Ok ==> proposed(r->Ok_0, constraints@, journal@, outcomes@, policy, applied as int),
        r is Err ==> evaluations_view(r->Err_0.evaluations@) == evaluations_of(
            constraints@,
            target_state(journal@, outcomes@, policy),
        ),
{
    let mask = target_mask(journal, outcomes, policy);
    let rows = replay_masked(journal, &mask);
    let evaluations = check_constraints(constraints, &rows);
    let ghost target = target_state(journal@, outcomes@, policy);
    let ok = all_hold(&evaluations);
    proof {
        let ev = evaluations_view(evaluations@);
        assert(ev.len() == constraints@.len());
        if ok {
            assert forall|i: int| 0 <= i < constraints@.len() implies offenders(
                constraints@[i],
                target,
            ).len() == 0 by {
                assert(ev[i] == evaluations@[i]@);
            }
            assert(all_satisfied(constraints@, target));
        } else {
            let i = choose|i: int| 0 <= i < evaluations@.len() && !evaluations@[i].satisfied;
            assert(ev[i] == evaluations@[i]@);
            assert(offenders(constraints@[i], target).len() != 0);
        }
    }
    if !ok {
        return Err(UnrecoverablePlan { evaluations });
    }
    let operations = build_operations(journal, outcomes, policy, applied);
    let payload = encode_state(&rows);
    let predicted_root = digest(&payload);
    Ok(
        RecoveryPlan {
            base_applied: applied,
            operations,
            predicted_root,
            evaluations,
            status: PlanStatus::Proposed,
        },
    )
}

fn find_op(ops: &Vec<CorrectiveOp>, kind: CorrectionKind, i: usize) -> (r: bool)
    ensures
        r == has_op(ops@, kind, i as int),
{
    let mut k: usize = 0;
    while k < ops.len()
        invariant
            k <= ops@.len(),
            forall|m: int| 0 <= m < k ==> !(ops@[m].kind == kind && ops@[m].position as int == i),
        decreases ops.len() - k,
    {
        if ops[k].kind == kind && ops[k].position == i {
            return true;
        }
        k = k + 1;
    }
    false
}

/// Rebuilds the state that `plan` yields from the damaged state: the journal
/// entries in effect after it, replayed in order.
pub fn apply_plan(plan: &RecoveryPlan, journal: &Vec<JournalEntry>) -> (r: Vec<RowRecord>)
    ensures
        rows_view(r@) == state_after(*plan, journal@),
{
    let mut mask: Vec<bool> = Vec::new();
    let mut i: usize = 0;
    while i < journal.len()
        invariant
            i <= journal@.len(),
            mask@ == plan_mask(*plan, journal@.len() as int).subrange(0, i as int),
        decreases journal.len() - i,
    {
        let in_effect = if i < plan.base_applied {
            !find_op(&plan.operations, CorrectionKind::Rollback, i)
        } else {
            find_op(&plan.operations, CorrectionKind::Replay, i)
        };
        mask.push(in_effect);
        assert(mask@ =~= plan_mask(*plan, journal@.len() as int).subrange(0, i + 1));
        i = i + 1;
    }
    assert(plan_mask(*plan, journal@.len() as int).subrange(0, journal@.len() as int) =~= plan_mask(
        *plan,
        journal@.len() as int,
    ));
    replay_masked(journal, &mask)
}

/// Applies `plan` and seals the result as a snapshot declaring the plan's
/// predicted root; the snapshot is returned only if it verifies against
/// `parent_hash`.
pub fn apply_and_verify(
    plan: &RecoveryPlan,
    journal: &Vec<JournalEntry>,
    sequence: u64,
    parent_hash: Option<u64>,
) -> (r: Result<Snapshot, MerkleMismatch>)
    ensures
        r is Ok <==> digest_of(encode_rows(state_after(*plan, journal@))) == plan.predicted_root as nat,
        r is Ok ==> ({
            let s = r->Ok_0;
            &&& s.sequence == sequence
            &&& s.root_hash == plan.predicted_root
            &&& s.parent_hash == parent_hash
            &&& s.payload@ == encode_rows(state_after(*plan, journal@))
            &&& snapshot_ok(s, parent_hash)
        }),
        r is Err ==> r->Err_0 == (MerkleMismatch {
            position: 0,
            sequence,
            kind: MismatchKind::ContentHash,
        }),
{
    let rows = apply_plan(plan, journal);
    let payload = encode_state(&rows);
    let snapshot = Snapshot { sequence, root_hash: plan.predicted_root, parent_hash, payload };
    match verify_snapshot(&snapshot, parent_hash) {
        Ok(()) => Ok(snapshot),
        Err(e) => Err(e),
    }
}

impl RecoveryPlan {
    /// Settles a proposed plan by the outcome of its re-verification. A plan
    /// that is already verified or rejected keeps its status: a rejected plan
    /// is never proposed again.
    pub fn settle(&mut self, outcome: &Result<Snapshot, MerkleMismatch>)
        ensures
            final(self).status == if old(self).status == PlanStatus::Proposed {
                if outcome is Ok {
                    PlanStatus::Verified
                } else {
                    PlanStatus::Rejected
                }
            } else {
                old(self).status
            },
            final(self).base_applied == old(self).base_applied,
            final(self).operations == old(self).operations,
            final(self).predicted_root == old(self).predicted_root,
            final(self).evaluations == old(self).evaluations,
    {
        if self.status == PlanStatus::Proposed {
            self.status = match outcome {
                Ok(_) => PlanStatus::Verified,
                Err(_) => PlanStatus::Rejected,
            };
        }
    }
}

proof fn lemma_rollbacks(
    journal: Seq<JournalEntry>,
    outcomes: Seq<TransactionOutcome>,
    policy: InDoubtPolicy,
    lo: int,
    hi: int,
)
    requires
        0 <= lo,
        hi <= journal.len() <= usize::MAX,
    ensures
        forall|k: int|
            0 <= k < rollbacks(journal, outcomes, policy, lo, hi).len() ==> {
                let op = #[trigger] rollbacks(journal, outcomes, policy, lo, hi)[k];
                &&& op.kind == CorrectionKind::Rollback
                &&& lo <= op.position < hi
            },
        forall|i: int|
            lo <= i < hi ==> (has_op(rollbacks(journal, outcomes, policy, lo, hi), CorrectionKind::Rollback, i)
                <==> !kept(journal[i], outcomes, policy)),
        forall|a: int, b: int|
            0 <= a < b < rollbacks(journal, outcomes, policy, lo, hi).len() ==> rollbacks(
                journal,
                outcomes,
                policy,
                lo,
                hi,
            )[a].position > rollbacks(journal, outcomes, policy, lo, hi)[b].position,
    decreases hi - lo,
{
    if lo < hi {
        lemma_rollbacks(journal, outcomes, policy, lo + 1, hi);
        let rest = rollbacks(journal, outcomes, policy, lo + 1, hi);
        let all = rollbacks(journal, outcomes, policy, lo, hi);
        assert forall|i: int|
            lo <= i < hi implies (has_op(all, CorrectionKind::Rollback, i) <==> !kept(journal[i], outcomes, policy)) by {
            if i == lo {
                if !kept(journal[lo], outcomes, policy) {
                    assert(all[all.len() - 1] == op_at(journal, CorrectionKind::Rollback, lo));
                } else {
                    assert(all == rest);
                }
            } else {
                if has_op(rest, CorrectionKind::Rollback, i) {
                    let k = choose|k: int| 0 <= k < rest.len() && rest[k].kind == CorrectionKind::Rollback && rest[k].position as int == i;
                    assert(all[k] == rest[k]);
                }
                if has_op(all, CorrectionKind::Rollback, i) {
                    let k = choose|k: int| 0 <= k < all.len() && all[k].kind == CorrectionKind::Rollback && all[k].position as int == i;
                    if k < rest.len() {
                        assert(all[k] == rest[k]);
                    }
                }
            }
        }
        assert forall|k: int| 0 <= k < all.len() implies {
                let op = #[trigger] all[k];
                &&& op.kind == CorrectionKind::Rollback
                &&& lo <= op.position < hi
            } by {
            if k < rest.len() {
                assert(all[k] == rest[k]);
            }
        }
        assert forall|a: int, b: int| 0 <= a < b < all.len() implies all[a].position
            > all[b].position by {
            assert(all[a] == rest[a]);
            assert(lo < rest[a].position);
            if b < rest.len() {
                assert(all[b] == rest[b]);
            }
        }
    }
}

proof fn lemma_replays(
    journal: Seq<JournalEntry>,
    outcomes: Seq<TransactionOutcome>,
    policy: InDoubtPolicy,
    from: int,
    n: int,
)
    requires
        0 <= from,
        n <= journal.len() <= usize::MAX,
    ensures
        forall|k: int|
            0 <= k < replays(journal, outcomes, policy, from, n).len() ==> {
                let op = #[trigger] replays(journal, outcomes, policy, from, n)[k];
                &&& op.kind == CorrectionKind::Replay
                &&& from <= op.position < n
            },
        forall|i: int|
            from <= i < n ==> (has_op(replays(journal, outcomes, policy, from, n), CorrectionKind::Replay, i)
                <==> kept(journal[i], outcomes, policy)),
        forall|a: int, b: int|
            0 <= a < b < replays(journal, outcomes, policy, from, n).len() ==> replays(
                journal,
                outcomes,
                policy,
                from,
                n,
            )[a].position < replays(journal, outcomes, policy, from, n)[b].position,
    decreases n - from,
{
    if from < n {
        lemma_replays(journal, outcomes, policy, from, n - 1);
        let prev = replays(journal, outcomes, policy, from, n - 1);
        let all = replays(journal, outcomes, policy, from, n);
        assert forall|i: int|
            from <= i < n implies (has_op(all, CorrectionKind::Replay, i) <==> kept(journal[i], outcomes, policy)) by {
            if i == n - 1 {
                if kept(journal[i], outcomes, policy) {
                    assert(all[all.len() - 1] == op_at(journal, CorrectionKind::Replay, i));
                } else {
                    assert(all == prev);
                }
            } else {
                if has_op(prev, CorrectionKind::Replay, i) {
                    let k = choose|k: int| 0 <= k < prev.len() && prev[k].kind == CorrectionKind::Replay && prev[k].position as int == i;
                    assert(all[k] == prev[k]);
                }
                if has_op(all, CorrectionKind::Replay, i) {
                    let k = choose|k: int| 0 <= k < all.len() && all[k].kind == CorrectionKind::Replay && all[k].position as int == i;
                    if k < prev.len() {
                        assert(all[k] == prev[k]);
                    }
                }
            }
        }
        assert forall|k: int| 0 <= k < all.len() implies {
                let op = #[trigger] all[k];
                &&& op.kind == CorrectionKind::Replay
                &&& from <= op.position < n
            } by {
            if k < prev.len() {
                assert(all[k] == prev[k]);
            }
        }
        assert forall|a: int, b: int| 0 <= a < b < all.len() implies all[a].position
            < all[b].position by {
            assert(all[a] == prev[a]);
            assert(prev[a].position < n - 1);
            if b < prev.len() {
                assert(all[b] == prev[b]);
            }
        }
    }
}

/// A proposed plan is sound: the state obtained by applying it to the
/// damaged state satisfies every constraint, and its digest is the plan's
/// predicted root, so sealing and re-verifying it succeeds.
pub proof fn lemma_plan_sound(
    plan: RecoveryPlan,
    constraints: Seq<Constraint>,
    journal: Seq<JournalEntry>,
    outcomes: Seq<TransactionOutcome>,
    policy: InDoubtPolicy,
    applied: int,
)
    requires
        0 <= applied <= journal.len() <= usize::MAX,
        proposed(plan, constraints, journal, outcomes, policy, applied),
        all_satisfied(constraints, target_state(journal, outcomes, policy)),
    ensures
        state_after(plan, journal) == target_state(journal, outcomes, policy),
        all_satisfied(constraints, state_after(plan, journal)),
        digest_of(encode_rows(state_after(plan, journal))) == plan.predicted_root as nat,
{
    let n = journal.len() as int;
    let rb = rollbacks(journal, outcomes, policy, 0, applied);
    let rp = replays(journal, outcomes, policy, applied, n);
    let ops = plan.operations@;
    lemma_rollbacks(journal, outcomes, policy, 0, applied);
    lemma_replays(journal, outcomes, policy, applied, n);
    assert(ops == rb + rp);
    assert forall|i: int| 0 <= i < n implies plan_mask(plan, n)[i] == kept_mask(journal, outcomes, policy)[i] by {
        if i < applied {
            if has_op(ops, CorrectionKind::Rollback, i) {
                let k = choose|k: int| 0 <= k < ops.len() && ops[k].kind == CorrectionKind::Rollback && ops[k].position as int == i;
                if k >= rb.len() {
                    assert(ops[k] == rp[k - rb.len()]);
                } else {
                    assert(ops[k] == rb[k]);
                }
                assert(has_op(rb, CorrectionKind::Rollback, i));
            }
            if has_op(rb, CorrectionKind::Rollback, i) {
                let k = choose|k: int| 0 <= k < rb.len() && rb[k].kind == CorrectionKind::Rollback && rb[k].position as int == i;
                assert(ops[k] == rb[k]);
            }
        } else {
            if has_op(ops, CorrectionKind::Replay, i) {
                let k = choose|k: int| 0 <= k < ops.len() && ops[k].kind == CorrectionKind::Replay && ops[k].position as int == i;
                if k < rb.len() {
                    assert(ops[k] == rb[k]);
                } else {
                    assert(ops[k] == rp[k - rb.len()]);
                }
                assert(has_op(rp, CorrectionKind::Replay, i));
            }
            if has_op(rp, CorrectionKind::Replay, i) {
                let k = choose|k: int| 0 <= k < rp.len() && rp[k].kind == CorrectionKind::Replay && rp[k].position as int == i;
                assert(ops[k + rb.len()] == rp[k]);
            }
        }
    }
    assert(plan_mask(plan, n) =~= kept_mask(journal, outcomes, policy));
}

/// A proposed plan holds no needless operation: dropping any one of them
/// changes which journal entries are in effect, so the plan no longer
/// reaches the recovery target.
pub proof fn lemma_plan_minimal(
    plan: RecoveryPlan,
    constraints: Seq<Constraint>,
    journal: Seq<JournalEntry>,
    outcomes: Seq<TransactionOutcome>,
    policy: InDoubtPolicy,
    applied: int,
    k: int,
)
    requires
        0 <= applied <= journal.len() <= usize::MAX,
        proposed(plan, constraints, journal, outcomes, policy, applied),
        0 <= k < plan.operations@.len(),
    ensures
        ops_mask(plan.operations@.remove(k), applied, journal.len() as int) != kept_mask(
            journal,
            outcomes,
            policy,
        ),
{
    let n = journal.len() as int;
    let rb = rollbacks(journal, outcomes, policy, 0, applied);
    let rp = replays(journal, outcomes, policy, applied, n);
    let ops = plan.operations@;
    lemma_rollbacks(journal, outcomes, policy, 0, applied);
    lemma_replays(journal, outcomes, policy, applied, n);
    assert(ops == rb + rp);
    let op = ops[k];
    let i = op.position as int;
    let rest = ops.remove(k);
    // No other operation has the same kind and position.
    assert forall|m: int| 0 <= m < ops.len() && m != k && ops[m].kind == op.kind implies ops[m].position
        != op.position by {
        if k < rb.len() {
            assert(ops[k] == rb[k]);
            if m < rb.len() {
                assert(ops[m] == rb[m]);
            } else {
                assert(ops[m] == rp[m - rb.len()]);
            }
        } else {
            assert(ops[k] == rp[k - rb.len()]);
            if m < rb.len() {
                assert(ops[m] == rb[m]);
            } else {
                assert(ops[m] == rp[m - rb.len()]);
            }
        }
    }
    assert(!has_op(rest, op.kind, i)) by {
        if has_op(rest, op.kind, i) {
            let m = choose|m: int| 0 <= m < rest.len() && rest[m].kind == op.kind && rest[m].position as int == i;
            if m < k {
                assert(rest[m] == ops[m]);
            } else {
                assert(rest[m] == ops[m + 1]);
            }
        }
    }
    if k < rb.len() {
        assert(ops[k] == rb[k]);
        assert(has_op(rb, CorrectionKind::Rollback, i));
        assert(ops_mask(rest, applied, n)[i] != kept_mask(journal, outcomes, policy)[i]);
    } else {
        assert(ops[k] == rp[k - rb.len()]);
        assert(has_op(rp, CorrectionKind::Replay, i));
        assert(ops_mask(rest, applied, n)[i] != kept_mask(journal, outcomes, policy)[i]);
    }
}

} // verus!
