//! Merkle snapshot verification: content roots and hash-linked chains.
use vstd::prelude::*;
use crate::hashing::{digest, digest_of, lemma_single_byte_change};

verus! {

/// A committed, hash-sealed materialization of database state.
pub struct Snapshot {
    pub sequence: u64,
    pub root_hash: u64,
    /// Root hash of the previous snapshot; absent only for the genesis snapshot.
    pub parent_hash: Option<u64>,
    pub payload: Vec<u8>,
}

/// Which of the two checks of a snapshot failed.
#[derive(Clone, Copy, Debug, PartialEq, Eq, Structural)]
pub enum MismatchKind {
    /// The recomputed content digest differs from the declared root hash.
    ContentHash,
    /// The declared parent hash differs from the expected chain link.
    ParentLink,
}

/// A content or chain-link hash mismatch, naming the offending snapshot.
#[derive(Clone, Copy, Debug, PartialEq, Eq, Structural)]
pub struct MerkleMismatch {
    /// Position of the snapshot in the verified sequence.
    pub position: usize,
    /// Sequence number of the snapshot.
    pub sequence: u64,
    pub kind: MismatchKind,
}

/// The declared root hash matches the digest of the payload.
pub open spec fn content_ok(s: Snapshot) -> bool {
    digest_of(s.payload@) == s.root_hash as nat
}

/// The snapshot's content is intact and it links to `expected_parent`.
pub open spec fn snapshot_ok(s: Snapshot, expected_parent: Option<u64>) -> bool {
    content_ok(s) && s.parent_hash == expected_parent
}

/// The parent hash that position `i` of a chain must declare.
pub open spec fn expected_parent(chain: Seq<Snapshot>, i: int) -> Option<u64> {
    if i == 0 {
        None
    } else {
        Some(chain[i - 1].root_hash)
    }
}

/// Snapshot `i` of `chain` passes both checks.
pub open spec fn link_ok(chain: Seq<Snapshot>, i: int) -> bool {
    snapshot_ok(chain[i], expected_parent(chain, i))
}

/// Every root hash matches its recomputed content digest, the first snapshot
/// has no parent, and every other one declares its predecessor's root hash.
pub open spec fn chain_valid(chain: Seq<Snapshot>) -> bool {
    forall|i: int| 0 <= i < chain.len() ==> link_ok(chain, i)
}

/// Snapshot `i` and all of its predecessors pass verification.
pub open spec fn verified_through(chain: Seq<Snapshot>, i: int) -> bool {
    forall|j: int| 0 <= j <= i ==> link_ok(chain, j)
}

/// The error that verification of `s` at `position` reports when it fails.
pub open spec fn mismatch_for(s: Snapshot, position: usize) -> MerkleMismatch {
    MerkleMismatch {
        position,
        sequence: s.sequence,
        kind: if !content_ok(s) {
            MismatchKind::ContentHash
        } else {
            MismatchKind::ParentLink
        },
    }
}

fn same_parent(a: Option<u64>, b: Option<u64>) -> (r: bool)
    ensures
        r == (a == b),
{
    match (a, b) {
        (None, None) => true,
        (Some(x), Some(y)) => x == y,
        _ => false,
    }
}

/// Verifies one snapshot: its content digest and its link to `expected_parent`.
pub fn verify_snapshot(s: &Snapshot, expected_parent: Option<u64>) -> (r: Result<(), MerkleMismatch>)
    ensures
        r is Ok <==> snapshot_ok(*s, expected_parent),
        r is Err ==> r->Err_0 == mismatch_for(*s, 0),
{
    verify_at(s, expected_parent, 0)
}

fn verify_at(s: &Snapshot, expected_parent: Option<u64>, position: usize) -> (r: Result<(), MerkleMismatch>)
    ensures
        r is Ok <==> snapshot_ok(*s, expected_parent),
        r is Err ==> r->Err_0 == mismatch_for(*s, position),
{
    let h = digest(&s.payload);
    if h != s.root_hash {
        Err(MerkleMismatch { position, sequence: s.sequence, kind: MismatchKind::ContentHash })
    } else if !same_parent(s.parent_hash, expected_parent) {
        Err(MerkleMismatch { position, sequence: s.sequence, kind: MismatchKind::ParentLink })
    } else {
        Ok(())
    }
}

/// Walks the chain once, threading each verified root into the next check.
/// The error names the first snapshot that fails; all earlier ones verify.
pub fn verify_chain(snapshots: &Vec<Snapshot>) -> (r: Result<(), MerkleMismatch>)
    ensures
        r is Ok <==> chain_valid(snapshots@),
        r is Err ==> {
            let k = r->Err_0.position as int;
            &&& 0 <= k < snapshots@.len()
            &&& !link_ok(snapshots@, k)
            &&& k == 0 || verified_through(snapshots@, k - 1)
            &&& r->Err_0 == mismatch_for(snapshots@[k], r->Err_0.position)
        },
{
    let mut expected: Option<u64> = None;
    let mut i: usize = 0;
    while i < snapshots.len()
        invariant
            i <= snapshots@.len(),
            expected == expected_parent(snapshots@, i as int) || i == snapshots@.len(),
            i > 0 ==> expected == Some(snapshots@[i - 1].root_hash),
            i == 0 ==> expected is None,
            forall|j: int| 0 <= j < i ==> link_ok(snapshots@, j),
        decreases snapshots.len() - i,
    {
        let res = verify_at(&snapshots[i], expected, i);
        match res {
            Err(e) => {
                assert(!link_ok(snapshots@, i as int));
                return Err(e);
            },
            Ok(()) => {},
        }
        expected = Some(snapshots[i].root_hash);
        i = i + 1;
    }
    Ok(())
}

/// For each snapshot, whether it and all of its predecessors verify: after
/// the first mismatch every later snapshot is unverifiable.
pub fn chain_status(snapshots: &Vec<Snapshot>) -> (r: Vec<bool>)
    ensures
        r@.len() == snapshots@.len(),
        forall|i: int| 0 <= i < r@.len() ==> r@[i] == verified_through(snapshots@, i),
{
    let mut out: Vec<bool> = Vec::new();
    let mut ok = true;
    let mut i: usize = 0;
    while i < snapshots.len()
        invariant
            i <= snapshots@.len(),
            out@.len() == i,
            forall|j: int| 0 <= j < i ==> out@[j] == verified_through(snapshots@, j),
            ok == (i == 0 || verified_through(snapshots@, i - 1)),
        decreases snapshots.len() - i,
    {
        let expected = if i == 0 {
            None
        } else {
            Some(snapshots[i - 1].root_hash)
        };
        let here = verify_at(&snapshots[i], expected, i).is_ok();
        ok = ok && here;
        proof {
            if ok {
                assert forall|j: int| 0 <= j <= i implies link_ok(snapshots@, j) by {
                    if j < i {
                        assert(verified_through(snapshots@, i - 1));
                    }
                }
            } else if !here {
                assert(!link_ok(snapshots@, i as int));
            }
        }
        out.push(ok);
        i = i + 1;
    }
    out
}

} // verus!

verus! {

/// `t` is `s` with the payload of snapshot `k` altered and nothing else changed.
pub open spec fn payload_tampered_at(s: Seq<Snapshot>, t: Seq<Snapshot>, k: int) -> bool {
    &&& s.len() == t.len()
    &&& 0 <= k < s.len()
    &&& forall|j: int| 0 <= j < s.len() && j != k ==> t[j] == s[j]
    &&& t[k].sequence == s[k].sequence
    &&& t[k].root_hash == s[k].root_hash
    &&& t[k].parent_hash == s[k].parent_hash
}

/// Changing a single byte of the payload of snapshot `k` of a valid chain
/// makes verification fail first at `k`: every earlier snapshot still
/// verifies, `k` does not, and no later snapshot counts as verified.
pub proof fn lemma_tamper_fails_from(s: Seq<Snapshot>, t: Seq<Snapshot>, k: int, byte: int)
    requires
        chain_valid(s),
        payload_tampered_at(s, t, k),
        t[k].payload@.len() == s[k].payload@.len(),
        0 <= byte < s[k].payload@.len(),
        t[k].payload@[byte] != s[k].payload@[byte],
        forall|j: int|
            0 <= j < s[k].payload@.len() && j != byte ==> t[k].payload@[j] == s[k].payload@[j],
    ensures
        forall|j: int| 0 <= j < k ==> link_ok(t, j),
        !link_ok(t, k),
        forall|m: int| k <= m < t.len() ==> !verified_through(t, m),
        forall|p: int|
            0 <= p < t.len() && !link_ok(t, p) && (p == 0 || verified_through(t, p - 1)) ==> p
                == k,
{
    assert forall|j: int| 0 <= j < k implies link_ok(t, j) by {
        assert(link_ok(s, j));
        if j > 0 {
            assert(t[j - 1] == s[j - 1]);
        }
    }
    assert(link_ok(s, k));
    lemma_single_byte_change(t[k].payload@, s[k].payload@, byte);
    assert(!content_ok(t[k]));
    assert forall|m: int| k <= m < t.len() implies !verified_through(t, m) by {
        assert(!link_ok(t, k));
    }
    assert forall|p: int|
        0 <= p < t.len() && !link_ok(t, p) && (p == 0 || verified_through(t, p - 1)) implies p
        == k by {
        if p < k {
            assert(link_ok(t, p));
        } else if p > k {
            assert(link_ok(t, k));
        }
    }
}

} // verus!
