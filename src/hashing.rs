//! The pinned digest scheme shared by snapshots and recovery plans.
//!
//! Scheme version 1: a polynomial hash over bytes modulo the prime
//! 4294967291, seeded with 5381, where each byte `b` advances the state
//! `h` to `(h * 257 + b + 1) % 4294967291`.
use vstd::prelude::*;

verus! {

/// Version tag of the digest scheme.
pub const DIGEST_VERSION: u64 = 1;

/// The prime modulus of the digest.
pub const DIGEST_MODULUS: u64 = 4294967291;

/// The multiplier applied per byte.
pub const DIGEST_BASE: u64 = 257;

/// The digest of the empty byte string.
pub const DIGEST_SEED: u64 = 5381;

/// The digest of a byte sequence, as defined by scheme version 1.
pub open spec fn digest_of(s: Seq<u8>) -> nat
    decreases s.len(),
{
    if s.len() == 0 {
        DIGEST_SEED as nat
    } else {
        ((digest_of(s.drop_last()) * (DIGEST_BASE as nat) + s.last() as nat + 1) % (
        DIGEST_MODULUS as nat)) as nat
    }
}

/// Every digest is below the modulus, so it fits in 32 bits.
pub proof fn lemma_digest_bound(s: Seq<u8>)
    ensures
        digest_of(s) < DIGEST_MODULUS,
    decreases s.len(),
{
    if s.len() > 0 {
        lemma_digest_bound(s.drop_last());
    }
}

/// One step of the digest separates distinct states below the modulus:
/// multiplying by 257 is invertible modulo the prime (257 * 3225403452 is
/// 1 + 193 * 4294967291).
proof fn lemma_step_injective(x: int, y: int, c: int)
    requires
        0 <= x < DIGEST_MODULUS,
        0 <= y < DIGEST_MODULUS,
        x != y,
    ensures
        (x * DIGEST_BASE + c) % (DIGEST_MODULUS as int) != (y * DIGEST_BASE + c) % (
        DIGEST_MODULUS as int),
{
    let m = DIGEST_MODULUS as int;
    let a = x * DIGEST_BASE + c;
    let b = y * DIGEST_BASE + c;
    vstd::arithmetic::div_mod::lemma_fundamental_div_mod(a, m);
    vstd::arithmetic::div_mod::lemma_fundamental_div_mod(b, m);
    if a % m == b % m {
        let q = a / m - b / m;
        let d = x - y;
        assert(d * 257 == q * m);
        assert(d * 257 * 3225403452 == q * m * 3225403452);
        assert(d == m * (q * 3225403452 - d * 193));
        assert(false);
    }
}

/// Two distinct bytes advance one state to distinct states.
proof fn lemma_byte_separates(h: int, u: u8, v: u8)
    requires
        u != v,
    ensures
        (h * DIGEST_BASE + u + 1) % (DIGEST_MODULUS as int) != (h * DIGEST_BASE + v + 1) % (
        DIGEST_MODULUS as int),
{
    let m = DIGEST_MODULUS as int;
    let a = h * DIGEST_BASE + u + 1;
    let b = h * DIGEST_BASE + v + 1;
    vstd::arithmetic::div_mod::lemma_fundamental_div_mod(a, m);
    vstd::arithmetic::div_mod::lemma_fundamental_div_mod(b, m);
    if a % m == b % m {
        let q = a / m - b / m;
        assert(u - v == q * m);
        assert(false);
    }
}

/// Changing one byte of a byte string always changes its digest.
pub proof fn lemma_single_byte_change(s: Seq<u8>, t: Seq<u8>, k: int)
    requires
        s.len() == t.len(),
        0 <= k < s.len(),
        s[k] != t[k],
        forall|j: int| 0 <= j < s.len() && j != k ==> s[j] == t[j],
    ensures
        digest_of(s) != digest_of(t),
    decreases s.len(),
{
    lemma_digest_bound(s.drop_last());
    lemma_digest_bound(t.drop_last());
    if k == s.len() - 1 {
        assert(s.drop_last() =~= t.drop_last());
        lemma_byte_separates(digest_of(s.drop_last()) as int, s.last(), t.last());
    } else {
        lemma_single_byte_change(s.drop_last(), t.drop_last(), k);
        assert(s.last() == t.last());
        lemma_step_injective(
            digest_of(s.drop_last()) as int,
            digest_of(t.drop_last()) as int,
            s.last() + 1,
        );
    }
}

/// The digest of `b[start..end]`.
pub fn digest_range(b: &Vec<u8>, start: usize, end: usize) -> (r: u64)
    requires
        start <= end <= b@.len(),
    ensures
        r as nat == digest_of(b@.subrange(start as int, end as int)),
{
    let mut h: u64 = DIGEST_SEED;
    let mut i: usize = start;
    assert(b@.subrange(start as int, start as int) =~= Seq::<u8>::empty());
    while i < end
        invariant
            start <= i <= end <= b@.len(),
            h as nat == digest_of(b@.subrange(start as int, i as int)),
            h < DIGEST_MODULUS,
        decreases end - i,
    {
        assert(b@.subrange(start as int, i + 1).drop_last() =~= b@.subrange(start as int, i as int));
        assert(h * DIGEST_BASE <= (DIGEST_MODULUS - 1) * DIGEST_BASE) by (nonlinear_arith)
            requires
                h < DIGEST_MODULUS,
        ;
        h = (h * DIGEST_BASE + b[i] as u64 + 1) % DIGEST_MODULUS;
        i = i + 1;
    }
    h
}

/// Computes the digest of `bytes`.
pub fn digest(bytes: &Vec<u8>) -> (r: u64)
    ensures
        r as nat == digest_of(bytes@),
{
    let r = digest_range(bytes, 0, bytes.len());
    assert(bytes@.subrange(0, bytes@.len() as int) =~= bytes@);
    r
}

} // verus!
