//! Derivation of job ids: a job id is the lowercase hexadecimal encoding of
//! the SHA-256 digest of the seed `requester|created_at_ms|nonce`.
//!
//! Distinct nonces give distinct seeds; distinct digests give distinct ids.
//! Uniqueness of the ids themselves rests on collision resistance of the
//! digest, which no proof here claims.

use vstd::prelude::*;
use vstd::string::StringSliceAdditionalSpecFns;
use crate::digits::{dec_digits, push_decimal, lemma_dec_digits_are_digits, lemma_dec_digits_injective};
use crate::hex::{hex_of, encode, lemma_hex_of_injective};

verus! {

/// The SHA-256 digest of a byte string. What this sequence is on given bytes
/// is stated nowhere: it names the result of the outside digest function.
pub uninterp spec fn sha256_of(bytes: Seq<u8>) -> Seq<u8>;

/// Relies on near_sdk::env::sha256: the 32-byte SHA-256 digest of the input,
/// a function of the input bytes alone.
#[verifier::external_body]
fn sha256(bytes: &Vec<u8>) -> (r: Vec<u8>)
    ensures
        r@ == sha256_of(bytes@),
        r@.len() == 32,
{
    near_sdk::env::sha256(bytes.as_slice())
}

/// The seed hashed to derive a job id: the requester's bytes, the creation
/// time and the sequence nonce in decimal, separated by `|` (byte 124).
pub open spec fn seed_of(requester: Seq<u8>, created_at_ms: u64, nonce: u64) -> Seq<u8> {
    requester + seq![124u8] + dec_digits(created_at_ms as nat) + seq![124u8] + dec_digits(
        nonce as nat,
    )
}

/// The characters of the job id derived from a requester, a creation time and
/// a sequence nonce.
pub open spec fn job_id_chars(requester: Seq<u8>, created_at_ms: u64, nonce: u64) -> Seq<char> {
    hex_of(sha256_of(seed_of(requester, created_at_ms, nonce)))
}

fn make_seed(requester: &str, created_at_ms: u64, nonce: u64) -> (r: Vec<u8>)
    ensures
        r@ == seed_of(requester.spec_bytes(), created_at_ms, nonce),
{
    let mut r: Vec<u8> = Vec::new();
    r.extend_from_slice(requester.as_bytes());
    r.push(124);
    push_decimal(&mut r, created_at_ms);
    r.push(124);
    push_decimal(&mut r, nonce);
    proof {
        assert(r@ =~= seed_of(requester.spec_bytes(), created_at_ms, nonce));
    }
    r
}

/// Derives the job id for a requester, a creation time and a sequence nonce:
/// the hexadecimal encoding of the digest of the seed.
pub fn derive_job_id(requester: &str, created_at_ms: u64, nonce: u64) -> (r: String)
    ensures
        r@ == job_id_chars(requester.spec_bytes(), created_at_ms, nonce),
{
    let seed = make_seed(requester, created_at_ms, nonce);
    let digest = sha256(&seed);
    encode(digest)
}

/// Distinct sequence nonces give distinct seeds, whatever the requesters and
/// creation times are: the nonce is the decimal field after the last
/// separator, and no decimal digit is a separator.
pub proof fn lemma_distinct_nonces_distinct_seeds(
    r1: Seq<u8>,
    t1: u64,
    n1: u64,
    r2: Seq<u8>,
    t2: u64,
    n2: u64,
)
    requires
        n1 != n2,
    ensures
        seed_of(r1, t1, n1) != seed_of(r2, t2, n2),
{
    let s1 = seed_of(r1, t1, n1);
    let s2 = seed_of(r2, t2, n2);
    let d1 = dec_digits(n1 as nat);
    let d2 = dec_digits(n2 as nat);
    let p1 = r1 + seq![124u8] + dec_digits(t1 as nat) + seq![124u8];
    let p2 = r2 + seq![124u8] + dec_digits(t2 as nat) + seq![124u8];
    assert(s1 =~= p1 + d1);
    assert(s2 =~= p2 + d2);
    lemma_dec_digits_are_digits(n1 as nat);
    lemma_dec_digits_are_digits(n2 as nat);
    if s1 == s2 {
        let len = s1.len();
        if d1.len() == d2.len() {
            assert(d1 =~= d2) by {
                assert forall|k: int| 0 <= k < d1.len() implies d1[k] == d2[k] by {
                    assert(s1[p1.len() + k] == d1[k]);
                    assert(s2[p2.len() + k] == d2[k]);
                }
            }
            lemma_dec_digits_injective(n1 as nat, n2 as nat);
        } else if d1.len() < d2.len() {
            let j = len - 1 - d1.len();
            assert(s1[j] == 124);
            assert(s2[j] == d2[j - p2.len()]);
            assert(48 <= s2[j] <= 57);
        } else {
            let j = len - 1 - d2.len();
            assert(s2[j] == 124);
            assert(s1[j] == d1[j - p1.len()]);
            assert(48 <= s1[j] <= 57);
        }
    }
}

/// Distinct digests give distinct job ids: hexadecimal encoding is injective.
pub proof fn lemma_distinct_digests_distinct_ids(
    r1: Seq<u8>,
    t1: u64,
    n1: u64,
    r2: Seq<u8>,
    t2: u64,
    n2: u64,
)
    requires
        sha256_of(seed_of(r1, t1, n1)) != sha256_of(seed_of(r2, t2, n2)),
    ensures
        job_id_chars(r1, t1, n1) != job_id_chars(r2, t2, n2),
{
    if job_id_chars(r1, t1, n1) == job_id_chars(r2, t2, n2) {
        lemma_hex_of_injective(
            sha256_of(seed_of(r1, t1, n1)),
            sha256_of(seed_of(r2, t2, n2)),
        );
    }
}

} // verus!
