use formdb_debugger::hashing::digest;
use formdb_debugger::snapshot::{chain_status, verify_chain, verify_snapshot, MerkleMismatch, MismatchKind, Snapshot};

fn sealed(sequence: u64, parent_hash: Option<u64>, payload: Vec<u8>) -> Snapshot {
    let root_hash = digest(&payload);
    Snapshot { sequence, root_hash, parent_hash, payload }
}

#[test]
fn digest_pinned_values() {
    assert_eq!(digest(&vec![]), 5381);
    assert_eq!(digest(&vec![0]), 1382918);
    assert_eq!(digest(&vec![1, 2, 3]), 1146104695);
    assert_eq!(digest(&b"abc".to_vec()), 1152470167);
}

#[test]
fn valid_chain_verifies() {
    let s0 = sealed(0, None, vec![1, 2, 3]);
    let s1 = sealed(1, Some(s0.root_hash), vec![4, 5]);
    let s2 = sealed(2, Some(s1.root_hash), vec![]);
    assert_eq!(verify_chain(&vec![s0, s1, s2]), Ok(()));
    assert_eq!(verify_chain(&vec![]), Ok(()));
}

#[test]
fn tampered_payload_fails_at_that_snapshot() {
    let s0 = sealed(0, None, vec![1, 2, 3]);
    let mut s1 = sealed(1, Some(s0.root_hash), vec![4, 5]);
    s1.payload[0] = 9;
    let s0_again = sealed(0, None, vec![1, 2, 3]);
    assert_eq!(
        verify_chain(&vec![s0, s1]),
        Err(MerkleMismatch { position: 1, sequence: 1, kind: MismatchKind::ContentHash })
    );
    assert_eq!(verify_chain(&vec![s0_again]), Ok(()));
}

#[test]
fn tamper_in_middle_spares_earlier_snapshots() {
    let s0 = sealed(10, None, vec![7]);
    let mut s1 = sealed(11, Some(s0.root_hash), vec![8, 8]);
    let s2 = sealed(12, Some(s1.root_hash), vec![9]);
    s1.payload[1] = 0;
    let r = verify_chain(&vec![s0, s1, s2]);
    assert_eq!(r, Err(MerkleMismatch { position: 1, sequence: 11, kind: MismatchKind::ContentHash }));
}

#[test]
fn broken_link_is_reported() {
    let s0 = sealed(0, None, vec![1]);
    let s1 = sealed(1, Some(s0.root_hash.wrapping_add(1)), vec![2]);
    assert_eq!(
        verify_chain(&vec![s0, s1]),
        Err(MerkleMismatch { position: 1, sequence: 1, kind: MismatchKind::ParentLink })
    );
}

#[test]
fn genesis_must_have_no_parent() {
    let s0 = sealed(0, Some(5), vec![1]);
    assert_eq!(
        verify_chain(&vec![s0]),
        Err(MerkleMismatch { position: 0, sequence: 0, kind: MismatchKind::ParentLink })
    );
}

#[test]
fn single_snapshot_checks() {
    let s = sealed(3, Some(42), vec![1, 2]);
    assert_eq!(verify_snapshot(&s, Some(42)), Ok(()));
    assert_eq!(
        verify_snapshot(&s, None),
        Err(MerkleMismatch { position: 0, sequence: 3, kind: MismatchKind::ParentLink })
    );
    let bad = Snapshot { sequence: 3, root_hash: s.root_hash, parent_hash: Some(42), payload: vec![1, 3] };
    assert_eq!(
        verify_snapshot(&bad, Some(42)),
        Err(MerkleMismatch { position: 0, sequence: 3, kind: MismatchKind::ContentHash })
    );
}

#[test]
fn status_marks_everything_after_a_break() {
    let s0 = sealed(0, None, vec![1]);
    let mut s1 = sealed(1, Some(s0.root_hash), vec![2, 3]);
    let s2 = sealed(2, Some(s1.root_hash), vec![4]);
    let s3 = sealed(3, Some(s2.root_hash), vec![5]);
    s1.payload[0] = 200;
    assert_eq!(chain_status(&vec![s0, s1, s2, s3]), vec![true, false, false, false]);
    let t0 = sealed(0, None, vec![1]);
    let t1 = sealed(1, Some(t0.root_hash), vec![2]);
    assert_eq!(chain_status(&vec![t0, t1]), vec![true, true]);
}
