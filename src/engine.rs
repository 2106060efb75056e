//! Hashing every candidate of a wordlist into one reverse lookup table.
use vstd::prelude::*;
use crate::nsec3::{calculate_nsec3_hash, nsec3_hash};
use crate::table::{table_of, ReverseLookupTable};
use crate::wordlist::strings_view;

verus! {

/// The fully-qualified name of a label under a domain: `label.domain`.
pub open spec fn fqdn_spec(label: Seq<char>, domain: Seq<char>) -> Seq<char> {
    label + seq!['.'] + domain
}

/// The (hash, name) pair that one candidate label contributes.
pub open spec fn candidate_pair(label: Seq<char>, domain: Seq<char>, salt: Seq<u8>, iterations: nat) -> (
    Seq<char>,
    Seq<char>,
) {
    (nsec3_hash(fqdn_spec(label, domain), salt, iterations), fqdn_spec(label, domain))
}

/// The pairs of all candidates, in wordlist order.
pub open spec fn candidate_pairs(
    labels: Seq<Seq<char>>,
    domain: Seq<char>,
    salt: Seq<u8>,
    iterations: nat,
) -> Seq<(Seq<char>, Seq<char>)> {
    labels.map_values(|l: Seq<char>| candidate_pair(l, domain, salt, iterations))
}

/// `label.domain`.
pub fn fqdn_of(label: &str, domain: &str) -> (r: String)
    ensures
        r@ == fqdn_spec(label@, domain@),
{
    let mut s = label.to_owned();
    s.append(".");
    s.append(domain);
    proof {
        reveal_strlit(".");
        assert(s@ =~= fqdn_spec(label@, domain@));
    }
    s
}

/// The hash of `label.domain` and that name.
pub fn hash_candidate(label: &str, domain: &str, salt: &[u8], iterations: u32) -> (r: (String, String))
    ensures
        (r.0@, r.1@) == candidate_pair(label@, domain@, salt@, iterations as nat),
{
    let fqdn = fqdn_of(label, domain);
    let hash = calculate_nsec3_hash(fqdn.as_str(), salt, iterations);
    (hash, fqdn)
}

/// The reverse lookup table of all candidates: each `label.domain` under its
/// hash; where two names share a hash, the later candidate's name is kept.
pub fn hash_candidates(candidates: &Vec<String>, domain: &str, salt: &[u8], iterations: u32) -> (r:
    ReverseLookupTable)
    ensures
        r.wf(),
        r@ == table_of(candidate_pairs(strings_view(candidates@), domain@, salt@, iterations as nat)),
{
    let mut t = ReverseLookupTable::new();
    let mut i: usize = 0;
    while i < candidates.len()
        invariant
            i <= candidates@.len(),
            t.wf(),
            t@ == table_of(
                candidate_pairs(
                    strings_view(candidates@.subrange(0, i as int)),
                    domain@,
                    salt@,
                    iterations as nat,
                ),
            ),
        decreases candidates@.len() - i,
    {
        let (hash, fqdn) = hash_candidate(candidates[i].as_str(), domain, salt, iterations);
        t.insert(hash, fqdn);
        proof {
            let s = candidate_pairs(
                strings_view(candidates@.subrange(0, i + 1)),
                domain@,
                salt@,
                iterations as nat,
            );
            assert(s.drop_last() =~= candidate_pairs(
                strings_view(candidates@.subrange(0, i as int)),
                domain@,
                salt@,
                iterations as nat,
            ));
        }
        i += 1;
    }
    proof {
        assert(candidates@.subrange(0, candidates@.len() as int) =~= candidates@);
    }
    t
}

} // verus!
