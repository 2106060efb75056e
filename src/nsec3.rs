//! The iterated, salted NSEC3 digest of one fully-qualified name and its
//! lower-case base-32 text.
use vstd::prelude::*;
use vstd::utf8::encode_utf8;
use crate::primitives::{
    ascii_chars, base32_encode, base32_of, is_base32_lower, is_base32_upper, lower_of, lowercase,
    sha1_digest, sha1_of, string_from_ascii,
};

verus! {

/// The bytes that are hashed for a name: its lower-case form, UTF-8 encoded.
pub open spec fn name_bytes(fqdn: Seq<char>) -> Seq<u8> {
    encode_utf8(lower_of(fqdn))
}

/// The raw digest after `n` extra rounds: SHA-1(name ‖ salt), then `n` times
/// SHA-1(previous ‖ salt).
pub open spec fn nsec3_digest(name: Seq<u8>, salt: Seq<u8>, n: nat) -> Seq<u8>
    decreases n,
{
    if n == 0 {
        sha1_of(name + salt)
    } else {
        sha1_of(nsec3_digest(name, salt, (n - 1) as nat) + salt)
    }
}

/// The same chain with nothing appended to any round's input.
pub open spec fn unsalted_digest(name: Seq<u8>, n: nat) -> Seq<u8>
    decreases n,
{
    if n == 0 {
        sha1_of(name)
    } else {
        sha1_of(unsalted_digest(name, (n - 1) as nat))
    }
}

/// ASCII lower-casing of one byte (`A`-`Z` are 65-90).
pub open spec fn ascii_lower(b: u8) -> u8 {
    if 65 <= b && b <= 90 {
        (b + 32) as u8
    } else {
        b
    }
}

/// The text form of a digest: its unpadded base-32 encoding, in lower case.
pub open spec fn hash_text(digest: Seq<u8>) -> Seq<char> {
    ascii_chars(base32_of(digest).map_values(|b: u8| ascii_lower(b)))
}

/// The NSEC3 hash text of a fully-qualified name.
pub open spec fn nsec3_hash(fqdn: Seq<char>, salt: Seq<u8>, iterations: nat) -> Seq<char> {
    hash_text(nsec3_digest(name_bytes(fqdn), salt, iterations))
}

/// `a ‖ b` as a new vector.
pub fn concat_bytes(a: &[u8], b: &[u8]) -> (r: Vec<u8>)
    ensures
        r@ == a@ + b@,
{
    let mut r: Vec<u8> = Vec::new();
    let mut i: usize = 0;
    while i < a.len()
        invariant
            i <= a@.len(),
            r@ == a@.subrange(0, i as int),
        decreases a@.len() - i,
    {
        r.push(a[i]);
        i += 1;
        proof {
            assert(r@ =~= a@.subrange(0, i as int));
        }
    }
    let mut j: usize = 0;
    while j < b.len()
        invariant
            j <= b@.len(),
            r@ == a@ + b@.subrange(0, j as int),
        decreases b@.len() - j,
    {
        r.push(b[j]);
        j += 1;
        proof {
            assert(r@ =~= a@ + b@.subrange(0, j as int));
        }
    }
    proof {
        assert(b@.subrange(0, b@.len() as int) =~= b@);
        assert(a@.subrange(0, a@.len() as int) =~= a@);
    }
    r
}

/// One extra round: SHA-1(previous digest ‖ salt).
pub fn next_round(prev: &[u8], salt: &[u8]) -> (r: Vec<u8>)
    ensures
        r@ == sha1_of(prev@ + salt@),
        r@.len() == 20,
{
    let input = concat_bytes(prev, salt);
    sha1_digest(input.as_slice())
}

/// The raw 20-byte NSEC3 digest of `fqdn` with `salt` and `iterations` extra rounds.
pub fn nsec3_raw_digest(fqdn: &str, salt: &[u8], iterations: u32) -> (r: Vec<u8>)
    ensures
        r@ == nsec3_digest(name_bytes(fqdn@), salt@, iterations as nat),
        r@.len() == 20,
{
    let lower = lowercase(fqdn);
    let name = lower.as_str().as_bytes();
    let mut digest = next_round(name, salt);
    let mut i: u32 = 0;
    while i < iterations
        invariant
            i <= iterations,
            digest@ == nsec3_digest(name_bytes(fqdn@), salt@, i as nat),
            digest@.len() == 20,
        decreases iterations - i,
    {
        digest = next_round(digest.as_slice(), salt);
        i += 1;
    }
    digest
}

/// The lower-case, unpadded base-32 text of a digest.
pub fn encode_digest(digest: &[u8]) -> (r: String)
    ensures
        r@ == hash_text(digest@),
        r@.len() == (8 * digest@.len() + 4) / 5,
        forall|i: int| 0 <= i < r@.len() ==> is_base32_lower(#[trigger] r@[i]),
{
    let upper = base32_encode(digest);
    let mut out: Vec<u8> = Vec::with_capacity(upper.len());
    let mut i: usize = 0;
    while i < upper.len()
        invariant
            i <= upper@.len(),
            upper@ == base32_of(digest@),
            forall|k: int| 0 <= k < upper@.len() ==> is_base32_upper(#[trigger] upper@[k]),
            out@ == upper@.subrange(0, i as int).map_values(|b: u8| ascii_lower(b)),
        decreases upper@.len() - i,
    {
        let b = upper[i];
        let l: u8 = if b >= 65 && b <= 90 { b + 32 } else { b };
        out.push(l);
        i += 1;
        proof {
            assert(out@ =~= upper@.subrange(0, i as int).map_values(|b: u8| ascii_lower(b)));
        }
    }
    proof {
        assert(upper@.subrange(0, upper@.len() as int) =~= upper@);
        assert forall|k: int| 0 <= k < out@.len() implies #[trigger] out@[k] < 128 by {
            assert(is_base32_upper(upper@[k]));
        }
    }
    let r = string_from_ascii(out);
    proof {
        assert forall|k: int| 0 <= k < r@.len() implies is_base32_lower(#[trigger] r@[k]) by {
            assert(is_base32_upper(upper@[k]));
        }
    }
    r
}

/// The NSEC3 hash text of `fqdn`: lower-cased, UTF-8 encoded, hashed with
/// `salt` appended, rehashed `iterations` more times, and written in
/// lower-case unpadded base-32 (always 32 characters).
pub fn calculate_nsec3_hash(fqdn: &str, salt_bytes: &[u8], iterations: u32) -> (r: String)
    ensures
        r@ == nsec3_hash(fqdn@, salt_bytes@, iterations as nat),
        r@.len() == 32,
        forall|i: int| 0 <= i < r@.len() ==> is_base32_lower(#[trigger] r@[i]),
{
    let digest = nsec3_raw_digest(fqdn, salt_bytes, iterations);
    encode_digest(digest.as_slice())
}

/// Hashing is a function of its arguments: two calls with the same name, salt
/// and iteration count give the same text.
pub proof fn lemma_hash_deterministic(
    fqdn: Seq<char>,
    salt: Seq<u8>,
    iterations: nat,
    first: Seq<char>,
    second: Seq<char>,
)
    requires
        first == nsec3_hash(fqdn, salt, iterations),
        second == nsec3_hash(fqdn, salt, iterations),
    ensures
        first == second,
{
}

/// One more iteration is one more SHA-1 round over the raw digest (not over its
/// text) with the salt appended.
pub proof fn lemma_iteration_chains(fqdn: Seq<char>, salt: Seq<u8>, n: nat)
    ensures
        nsec3_hash(fqdn, salt, n + 1) == hash_text(
            sha1_of(nsec3_digest(name_bytes(fqdn), salt, n) + salt),
        ),
{
    assert(((n + 1) - 1) as nat == n);
}

/// An empty salt contributes nothing: every round hashes just the name or the
/// previous digest.
pub proof fn lemma_empty_salt(name: Seq<u8>, n: nat)
    ensures
        nsec3_digest(name, Seq::<u8>::empty(), n) == unsalted_digest(name, n),
    decreases n,
{
    if n == 0 {
        assert(name + Seq::<u8>::empty() =~= name);
    } else {
        lemma_empty_salt(name, (n - 1) as nat);
        let prev = nsec3_digest(name, Seq::<u8>::empty(), (n - 1) as nat);
        assert(prev + Seq::<u8>::empty() =~= prev);
    }
}

} // verus!
