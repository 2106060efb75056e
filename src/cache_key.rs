//! The cache file name derived from a salt's text and an iteration count.
use vstd::prelude::*;
use vstd::utf8::{decode_utf8, encode_utf8};
use crate::primitives::{ascii_chars, md5_digest, md5_of, string_from_ascii};

verus! {

/// The ASCII decimal digits of `n`, most significant first, without leading zeros.
pub open spec fn decimal(n: nat) -> Seq<u8>
    decreases n,
{
    if n < 10 {
        seq![(48 + n) as u8]
    } else {
        decimal(n / 10).push((48 + n % 10) as u8)
    }
}

/// The lower-case hexadecimal digit for a value below 16.
pub open spec fn hex_digit(v: int) -> u8 {
    if v < 10 {
        (48 + v) as u8
    } else {
        (87 + v) as u8
    }
}

/// Two lower-case hexadecimal digits per byte, high nibble first.
pub open spec fn lower_hex(b: Seq<u8>) -> Seq<u8> {
    Seq::new(
        2 * b.len(),
        |k: int|
            if k % 2 == 0 {
                hex_digit(b[k / 2] as int / 16)
            } else {
                hex_digit(b[k / 2] as int % 16)
            },
    )
}

/// The text that is digested: the salt as given, `_`, the iteration count in decimal.
pub open spec fn key_text(salt: Seq<char>, iterations: nat) -> Seq<u8> {
    encode_utf8(salt) + seq![95u8] + decimal(iterations)
}

/// `nsec3_` ‖ hex(MD5(key text)) ‖ `.json`.
pub open spec fn cache_filename(salt: Seq<char>, iterations: nat) -> Seq<char> {
    ascii_chars(
        seq![110u8, 115u8, 101u8, 99u8, 51u8, 95u8] + lower_hex(md5_of(key_text(salt, iterations)))
            + seq![46u8, 106u8, 115u8, 111u8, 110u8],
    )
}

proof fn lemma_decimal_digits(n: nat)
    ensures
        decimal(n).len() >= 1,
        forall|k: int| 0 <= k < decimal(n).len() ==> 48 <= #[trigger] decimal(n)[k] <= 57,
    decreases n,
{
    if n >= 10 {
        lemma_decimal_digits(n / 10);
    }
}

proof fn lemma_decimal_injective(a: nat, b: nat)
    requires
        decimal(a) == decimal(b),
    ensures
        a == b,
    decreases a,
{
    lemma_decimal_digits(a);
    lemma_decimal_digits(b);
    if a >= 10 && b >= 10 {
        let da = decimal(a / 10);
        let db = decimal(b / 10);
        assert(da == decimal(a).drop_last());
        assert(db == decimal(b).drop_last());
        lemma_decimal_injective(a / 10, b / 10);
        assert(decimal(a).last() == decimal(b).last());
        assert(decimal(a).last() == (48 + a % 10) as u8);
        assert(decimal(b).last() == (48 + b % 10) as u8);
        assert(a % 10 == b % 10);
        assert(a == 10 * (a / 10) + a % 10);
        assert(b == 10 * (b / 10) + b % 10);
    } else if a < 10 && b < 10 {
        assert(decimal(a)[0] == decimal(b)[0]);
        assert(decimal(a)[0] == (48 + a) as u8);
        assert(decimal(b)[0] == (48 + b) as u8);
    } else if a >= 10 {
        lemma_decimal_digits(a / 10);
        assert(decimal(a).len() >= 2);
        assert(decimal(b).len() == 1);
    } else if b >= 10 {
        lemma_decimal_digits(b / 10);
        assert(decimal(b).len() >= 2);
        assert(decimal(a).len() == 1);
    }
}

/// Distinct configurations give distinct digested texts: the salt text and the
/// iteration count can both be read back from it.
pub proof fn lemma_key_text_injective(s1: Seq<char>, i1: nat, s2: Seq<char>, i2: nat)
    requires
        key_text(s1, i1) == key_text(s2, i2),
    ensures
        s1 == s2,
        i1 == i2,
{
    let k = key_text(s1, i1);
    let d1 = decimal(i1);
    let d2 = decimal(i2);
    let a1 = encode_utf8(s1);
    let a2 = encode_utf8(s2);
    lemma_decimal_digits(i1);
    lemma_decimal_digits(i2);
    assert(k.len() == a1.len() + 1 + d1.len());
    assert(k.len() == a2.len() + 1 + d2.len());
    if d1.len() < d2.len() {
        let p = a1.len() as int;
        assert(k[p] == 95u8);
        assert(k[p] == d2[p - a2.len() - 1]);
        assert(false);
    } else if d2.len() < d1.len() {
        let p = a2.len() as int;
        assert(k[p] == 95u8);
        assert(k[p] == d1[p - a1.len() - 1]);
        assert(false);
    }
    assert(d1 =~= k.subrange(a1.len() + 1int, k.len() as int));
    assert(d2 =~= k.subrange(a2.len() + 1int, k.len() as int));
    lemma_decimal_injective(i1, i2);
    assert(a1 =~= k.subrange(0, a1.len() as int));
    assert(a2 =~= k.subrange(0, a2.len() as int));
    vstd::utf8::encode_utf8_decode_utf8(s1);
    vstd::utf8::encode_utf8_decode_utf8(s2);
    assert(decode_utf8(a1) == s1);
}

/// Appends the decimal digits of `n`.
fn push_decimal(out: &mut Vec<u8>, n: u32)
    ensures
        final(out)@ == old(out)@ + decimal(n as nat),
    decreases n,
{
    if n >= 10 {
        push_decimal(out, n / 10);
    }
    out.push((48 + n % 10) as u8);
    proof {
        assert(final(out)@ =~= old(out)@ + decimal(n as nat));
    }
}

/// The name of the cache file for a salt (as given, not decoded) and an
/// iteration count: `nsec3_<md5 hex of "<salt>_<iterations>">.json`.
pub fn get_cache_filename(salt: &str, iterations: u32) -> (r: String)
    ensures
        r@ == cache_filename(salt@, iterations as nat),
        r@.len() == 43,
{
    let salt_bytes = salt.as_bytes();
    let mut key: Vec<u8> = Vec::new();
    let mut i: usize = 0;
    while i < salt_bytes.len()
        invariant
            i <= salt_bytes@.len(),
            key@ == salt_bytes@.subrange(0, i as int),
        decreases salt_bytes@.len() - i,
    {
        key.push(salt_bytes[i]);
        i += 1;
        proof {
            assert(key@ =~= salt_bytes@.subrange(0, i as int));
        }
    }
    proof {
        assert(salt_bytes@.subrange(0, salt_bytes@.len() as int) =~= salt_bytes@);
    }
    key.push(95u8);
    push_decimal(&mut key, iterations);
    proof {
        assert(key@ =~= key_text(salt@, iterations as nat));
    }
    let digest = md5_digest(key.as_slice());
    let mut out: Vec<u8> = Vec::new();
    out.push(110u8);
    out.push(115u8);
    out.push(101u8);
    out.push(99u8);
    out.push(51u8);
    out.push(95u8);
    let ghost prefix = out@;
    let ghost hex = lower_hex(digest@);
    let mut j: usize = 0;
    while j < digest.len()
        invariant
            j <= digest@.len(),
            digest@.len() == 16,
            hex == lower_hex(digest@),
            out@.len() == 6 + 2 * j,
            out@.subrange(0, 6) == prefix,
            forall|k: int| 0 <= k < 2 * j ==> out@[6 + k] == #[trigger] hex[k],
        decreases digest@.len() - j,
    {
        let b = digest[j];
        let hi = b / 16;
        let lo = b % 16;
        out.push(if hi < 10 { 48 + hi } else { 87 + hi });
        out.push(if lo < 10 { 48 + lo } else { 87 + lo });
        j += 1;
        proof {
            assert(out@.subrange(0, 6) =~= prefix);
            assert forall|k: int| 0 <= k < 2 * j implies out@[6 + k] == #[trigger] hex[k] by {
                if k >= 2 * (j - 1) {
                    assert((k / 2) == j - 1);
                }
            }
        }
    }
    proof {
        assert(prefix =~= seq![110u8, 115u8, 101u8, 99u8, 51u8, 95u8]);
        assert forall|k: int| 0 <= k < 6 implies out@[k] == prefix[k] by {
            assert(out@[k] == out@.subrange(0, 6)[k]);
        }
        assert forall|k: int| 0 <= k < 32 implies out@[6 + k] == hex[k] by {}
        assert(out@ =~= prefix + hex);
    }
    out.push(46u8);
    out.push(106u8);
    out.push(115u8);
    out.push(111u8);
    out.push(110u8);
    let ghost full = seq![110u8, 115u8, 101u8, 99u8, 51u8, 95u8] + hex + seq![46u8, 106u8, 115u8, 111u8, 110u8];
    proof {
        assert(out@ =~= full);
        assert forall|k: int| 0 <= k < out@.len() implies #[trigger] out@[k] < 128 by {
            if 6 <= k < 38 {
                assert(out@[k] == hex[k - 6]);
            }
        }
    }
    string_from_ascii(out)
}

} // verus!
