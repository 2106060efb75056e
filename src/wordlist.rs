//! Candidate labels from the lines of a wordlist.
use vstd::prelude::*;
use crate::primitives::{trim_of, trimmed};

verus! {

/// The views of a sequence of strings.
pub open spec fn strings_view(v: Seq<String>) -> Seq<Seq<char>> {
    v.map_values(|s: String| s@)
}

/// Each line trimmed of surrounding white space, with the lines that are then
/// empty left out, in the order given.
pub open spec fn cleaned_lines(lines: Seq<Seq<char>>) -> Seq<Seq<char>>
    decreases lines.len(),
{
    if lines.len() == 0 {
        Seq::empty()
    } else {
        let rest = cleaned_lines(lines.drop_last());
        let t = trim_of(lines.last());
        if t.len() > 0 {
            rest.push(t)
        } else {
            rest
        }
    }
}

/// The candidate labels of a wordlist given as its lines: trimmed, blank
/// lines dropped, duplicates kept.
pub fn clean_wordlist(lines: &Vec<String>) -> (r: Vec<String>)
    ensures
        strings_view(r@) == cleaned_lines(strings_view(lines@)),
        forall|i: int| 0 <= i < r@.len() ==> #[trigger] r@[i]@.len() > 0,
{
    let mut r: Vec<String> = Vec::new();
    let mut i: usize = 0;
    while i < lines.len()
        invariant
            i <= lines@.len(),
            strings_view(r@) == cleaned_lines(strings_view(lines@.subrange(0, i as int))),
            forall|k: int| 0 <= k < r@.len() ==> #[trigger] r@[k]@.len() > 0,
        decreases lines@.len() - i,
    {
        let t = trimmed(lines[i].as_str());
        proof {
            let s = strings_view(lines@.subrange(0, i + 1));
            assert(s.drop_last() =~= strings_view(lines@.subrange(0, i as int)));
        }
        if !t.as_str().is_empty() {
            r.push(t);
            proof {
                assert(strings_view(r@) =~= cleaned_lines(strings_view(lines@.subrange(0, i + 1))));
            }
        }
        i += 1;
    }
    proof {
        assert(lines@.subrange(0, lines@.len() as int) =~= lines@);
    }
    r
}

} // verus!
