//! The reverse lookup table: from hash text to the name that produced it.
//! Inserting a key that is already present replaces its name (last write wins).
use vstd::prelude::*;
use vstd::utf8::encode_utf8;
use std::collections::HashMap;

verus! {

/// The views of a sequence of (hash, name) pairs.
pub open spec fn pairs_view(pairs: Seq<(String, String)>) -> Seq<(Seq<char>, Seq<char>)> {
    pairs.map_values(|p: (String, String)| (p.0@, p.1@))
}

/// The table that results from inserting `pairs` in order into an empty table.
pub open spec fn table_of(pairs: Seq<(Seq<char>, Seq<char>)>) -> Map<Seq<char>, Seq<char>>
    decreases pairs.len(),
{
    if pairs.len() == 0 {
        Map::empty()
    } else {
        table_of(pairs.drop_last()).insert(pairs.last().0, pairs.last().1)
    }
}

/// Does the key of pair `i` already occur in an earlier pair?
pub open spec fn key_seen_before(pairs: Seq<(Seq<char>, Seq<char>)>, i: int) -> bool {
    exists|j: int| 0 <= j < i && #[trigger] pairs[j].0 == pairs[i].0
}

/// The number of pairs whose key repeats an earlier pair's key.
pub open spec fn collisions(pairs: Seq<(Seq<char>, Seq<char>)>) -> nat
    decreases pairs.len(),
{
    if pairs.len() == 0 {
        0
    } else {
        collisions(pairs.drop_last()) + if key_seen_before(pairs, pairs.len() - 1) {
            1nat
        } else {
            0nat
        }
    }
}

/// The keys of the table are exactly the keys of the pairs.
pub proof fn lemma_table_keys(pairs: Seq<(Seq<char>, Seq<char>)>)
    ensures
        table_of(pairs).dom().finite(),
        forall|k: Seq<char>|
            #[trigger] table_of(pairs).contains_key(k) <==> exists|j: int|
                0 <= j < pairs.len() && #[trigger] pairs[j].0 == k,
    decreases pairs.len(),
{
    if pairs.len() > 0 {
        let init = pairs.drop_last();
        lemma_table_keys(init);
        assert forall|k: Seq<char>|
            #[trigger] table_of(pairs).contains_key(k) <==> exists|j: int|
                0 <= j < pairs.len() && #[trigger] pairs[j].0 == k by {
            if table_of(pairs).contains_key(k) && k != pairs.last().0 {
                let j = choose|j: int| 0 <= j < init.len() && #[trigger] init[j].0 == k;
                assert(pairs[j].0 == k);
            }
            if exists|j: int| 0 <= j < pairs.len() && #[trigger] pairs[j].0 == k {
                let j = choose|j: int| 0 <= j < pairs.len() && #[trigger] pairs[j].0 == k;
                if j < init.len() {
                    assert(init[j].0 == k);
                }
            }
        }
    }
}

/// Collisions lose entries: the table has one entry per pair, less one for
/// each pair whose key an earlier pair already had.
pub proof fn lemma_table_size(pairs: Seq<(Seq<char>, Seq<char>)>)
    ensures
        table_of(pairs).len() + collisions(pairs) == pairs.len(),
    decreases pairs.len(),
{
    if pairs.len() > 0 {
        let init = pairs.drop_last();
        let last = pairs.last();
        lemma_table_size(init);
        lemma_table_keys(init);
        let prev = table_of(init);
        if key_seen_before(pairs, pairs.len() - 1) {
            let j = choose|j: int| 0 <= j < pairs.len() - 1 && #[trigger] pairs[j].0 == pairs[pairs.len() - 1].0;
            assert(init[j].0 == last.0);
            assert(prev.contains_key(last.0));
            assert(prev.insert(last.0, last.1).dom() =~= prev.dom());
        } else {
            assert(!prev.contains_key(last.0)) by {
                if prev.contains_key(last.0) {
                    let j = choose|j: int| 0 <= j < init.len() && #[trigger] init[j].0 == last.0;
                    assert(pairs[j].0 == pairs[pairs.len() - 1].0);
                }
            }
        }
    }
}

/// Last write wins: the pair that comes last among those with a key is the one
/// the table keeps for it.
pub proof fn lemma_last_write_wins(pairs: Seq<(Seq<char>, Seq<char>)>, i: int)
    requires
        0 <= i < pairs.len(),
        forall|j: int| i < j < pairs.len() ==> #[trigger] pairs[j].0 != pairs[i].0,
    ensures
        table_of(pairs).contains_key(pairs[i].0),
        table_of(pairs)[pairs[i].0] == pairs[i].1,
    decreases pairs.len(),
{
    if i < pairs.len() - 1 {
        let init = pairs.drop_last();
        assert forall|j: int| i < j < init.len() implies #[trigger] init[j].0 != init[i].0 by {
            assert(pairs[j].0 != pairs[i].0);
        }
        lemma_last_write_wins(init, i);
        assert(pairs[pairs.len() - 1].0 != pairs[i].0);
    }
}

/// A code of a byte string that mostly depends on its last seven bytes: the
/// bucket a key is filed under.
pub open spec fn bucket_code(b: Seq<u8>) -> nat
    decreases b.len(),
{
    if b.len() == 0 {
        0
    } else {
        ((bucket_code(b.drop_last()) % 0x10000000000000) * 256 + b.last()) as nat
    }
}

/// The bucket of a key.
pub open spec fn key_bucket(k: Seq<char>) -> u64 {
    bucket_code(encode_utf8(k)) as u64
}

fn bucket(key: &String) -> (r: u64)
    ensures
        r == key_bucket(key@),
{
    let b = key.as_str().as_bytes();
    let mut h: u64 = 0;
    let mut i: usize = 0;
    while i < b.len()
        invariant
            i <= b@.len(),
            h == bucket_code(b@.subrange(0, i as int)),
            h < 0x1000000000000000,
        decreases b@.len() - i,
    {
        proof {
            assert(b@.subrange(0, i + 1).drop_last() =~= b@.subrange(0, i as int));
        }
        h = (h % 0x10000000000000) * 256 + b[i] as u64;
        i += 1;
    }
    proof {
        assert(b@.subrange(0, b@.len() as int) =~= b@);
    }
    h
}

/// A map from hash text to fully-qualified name, held as a vector of pairs
/// with distinct keys and an index from each key's bucket to the positions
/// of the pairs filed there.
pub struct ReverseLookupTable {
    entries: Vec<(String, String)>,
    index: HashMap<u64, Vec<usize>>,
    mapping: Ghost<Map<Seq<char>, Seq<char>>>,
}

impl View for ReverseLookupTable {
    type V = Map<Seq<char>, Seq<char>>;

    closed spec fn view(&self) -> Map<Seq<char>, Seq<char>> {
        self.mapping@
    }
}

impl ReverseLookupTable {
    /// The entries have distinct keys, are exactly the mapping, and each is
    /// listed under its key's bucket.
    pub closed spec fn wf(&self) -> bool {
        &&& self.mapping@.dom().finite()
        &&& self.mapping@.len() == self.entries@.len()
        &&& forall|i: int|
            0 <= i < self.entries@.len() ==> {
                &&& self.mapping@.contains_key(#[trigger] self.entries@[i].0@)
                &&& self.mapping@[self.entries@[i].0@] == self.entries@[i].1@
                &&& self.index@.contains_key(key_bucket(self.entries@[i].0@))
                &&& self.index@[key_bucket(self.entries@[i].0@)]@.contains(i as usize)
            }
        &&& forall|k: Seq<char>|
            #[trigger] self.mapping@.contains_key(k) ==> exists|i: int|
                0 <= i < self.entries@.len() && #[trigger] self.entries@[i].0@ == k
        &&& forall|i: int, j: int|
            0 <= i < j < self.entries@.len() ==> #[trigger] self.entries@[i].0@
                != #[trigger] self.entries@[j].0@
    }

    /// An empty table.
    pub fn new() -> (r: Self)
        ensures
            r.wf(),
            r@ == Map::<Seq<char>, Seq<char>>::empty(),
    {
        ReverseLookupTable { entries: Vec::new(), index: HashMap::new(), mapping: Ghost(Map::empty()) }
    }

    /// The number of entries.
    pub fn len(&self) -> (r: usize)
        requires
            self.wf(),
        ensures
            r == self@.len(),
    {
        self.entries.len()
    }

    /// The position of the entry with key `hash`, if any.
    fn position(&self, hash: &String) -> (r: Option<usize>)
        requires
            self.wf(),
        ensures
            match r {
                Some(i) => i < self.entries@.len() && self.entries@[i as int].0@ == hash@,
                None => !self@.contains_key(hash@),
            },
    {
        broadcast use vstd::std_specs::hash::group_hash_axioms;
        let total = self.entries.len();
        let b = bucket(hash);
        match self.index.get(&b) {
            None => {
                assert(!self.index@.contains_key(b));
                proof {
                    if self.mapping@.contains_key(hash@) {
                        let i = choose|i: int|
                            0 <= i < self.entries@.len() && #[trigger] self.entries@[i].0@ == hash@;
                        assert(self.index@.contains_key(key_bucket(self.entries@[i].0@)));
                    }
                }
                None
            },
            Some(list) => {
                assert(self.index@.contains_key(b) && self.index@[b] == *list);
                let mut j: usize = 0;
                while j < list.len()
                    invariant
                        self.wf(),
                        j <= list@.len(),
                        forall|jj: int|
                            0 <= jj < j ==> !((#[trigger] list@[jj] as int) < self.entries@.len()
                                && self.entries@[list@[jj] as int].0@ == hash@),
                    decreases list@.len() - j,
                {
                    let idx = list[j];
                    if idx < self.entries.len() {
                        let same = self.entries[idx].0 == *hash;
                        if same {
                            return Some(idx);
                        }
                    }
                    j += 1;
                }
                proof {
                    if self.mapping@.contains_key(hash@) {
                        let i = choose|i: int|
                            0 <= i < self.entries@.len() && #[trigger] self.entries@[i].0@ == hash@;
                        assert(self.index@[key_bucket(self.entries@[i].0@)]@.contains(i as usize));
                        let jj = choose|jj: int| 0 <= jj < list@.len() && list@[jj] == i as usize;
                        assert(list@[jj] == i as usize);
                        assert(i < total);
                        assert(list@[jj] as int == i);
                    }
                }
                None
            },
        }
    }

    /// Inserts `fqdn` under `hash`, replacing any name already stored there.
    pub fn insert(&mut self, hash: String, fqdn: String)
        requires
            old(self).wf(),
        ensures
            final(self).wf(),
            final(self)@ == old(self)@.insert(hash@, fqdn@),
    {
        broadcast use vstd::std_specs::hash::group_hash_axioms;
        let ghost k = hash@;
        let ghost v = fqdn@;
        let ghost m = self.mapping@;
        match self.position(&hash) {
            Some(i) => {
                self.entries.set(i, (hash, fqdn));
                self.mapping = Ghost(m.insert(k, v));
                proof {
                    assert(m.insert(k, v).dom() =~= m.dom());
                    let old_e = old(self).entries@;
                    let e = self.entries@;
                    assert forall|a: int| 0 <= a < e.len() implies #[trigger] e[a].0@ == old_e[a].0@ by {}
                    assert forall|a: int| 0 <= a < e.len() implies {
                        &&& self.mapping@.contains_key(#[trigger] e[a].0@)
                        &&& self.mapping@[e[a].0@] == e[a].1@
                        &&& self.index@.contains_key(key_bucket(e[a].0@))
                        &&& self.index@[key_bucket(e[a].0@)]@.contains(a as usize)
                    } by {
                        assert(old_e[a].0@ == e[a].0@);
                        assert(m.contains_key(old_e[a].0@));
                        if a != i {
                            assert(old_e[a].0@ != old_e[i as int].0@);
                        }
                    }
                    assert forall|kk: Seq<char>| #[trigger] self.mapping@.contains_key(kk) implies exists|a: int|
                        0 <= a < e.len() && #[trigger] e[a].0@ == kk by {
                        let a = choose|a: int| 0 <= a < old_e.len() && #[trigger] old_e[a].0@ == kk;
                        assert(e[a].0@ == kk);
                    }
                    assert forall|a: int, b: int| 0 <= a < b < e.len() implies #[trigger] e[a].0@
                        != #[trigger] e[b].0@ by {
                        assert(old_e[a].0@ != old_e[b].0@);
                    }
                }
            },
            None => {
                let n = self.entries.len();
                let b = bucket(&hash);
                let mut list: Vec<usize> = Vec::new();
                let ghost prev_list: Seq<usize> = Seq::empty();
                match self.index.get(&b) {
                    Some(old_list) => {
                        let mut j: usize = 0;
                        while j < old_list.len()
                            invariant
                                j <= old_list@.len(),
                                list@ == old_list@.subrange(0, j as int),
                            decreases old_list@.len() - j,
                        {
                            list.push(old_list[j]);
                            j += 1;
                            proof {
                                assert(list@ =~= old_list@.subrange(0, j as int));
                            }
                        }
                        proof {
                            assert(old_list@.subrange(0, old_list@.len() as int) =~= old_list@);
                            prev_list = old_list@;
                        }
                    },
                    None => {},
                }
                let ghost old_index = self.index@;
                assert(old_index.contains_key(b) ==> old_index[b]@ == prev_list);
                list.push(n);
                self.index.insert(b, list);
                self.entries.push((hash, fqdn));
                self.mapping = Ghost(m.insert(k, v));
                proof {
                    let old_e = old(self).entries@;
                    let e = self.entries@;
                    assert(m.insert(k, v).dom() == m.dom().insert(k));
                    assert(m.insert(k, v).len() == m.len() + 1);
                    assert forall|a: int| 0 <= a < n implies #[trigger] e[a] == old_e[a] by {}
                    assert forall|a: int| 0 <= a < e.len() implies {
                        &&& self.mapping@.contains_key(#[trigger] e[a].0@)
                        &&& self.mapping@[e[a].0@] == e[a].1@
                        &&& self.index@.contains_key(key_bucket(e[a].0@))
                        &&& self.index@[key_bucket(e[a].0@)]@.contains(a as usize)
                    } by {
                        if a < n {
                            assert(e[a] == old_e[a]);
                            assert(m.contains_key(old_e[a].0@));
                            assert(old_index[key_bucket(old_e[a].0@)]@.contains(a as usize));
                            if key_bucket(e[a].0@) == b {
                                let w = choose|w: int| 0 <= w < prev_list.len() && prev_list[w] == a as usize;
                                assert(self.index@[b]@[w] == a as usize);
                            }
                        } else {
                            assert(self.index@[b]@[prev_list.len() as int] == n);
                        }
                    }
                    assert forall|kk: Seq<char>|
                        #[trigger] self.mapping@.contains_key(kk) implies exists|a: int|
                            0 <= a < e.len() && #[trigger] e[a].0@ == kk by {
                        if kk == k {
                            assert(e[n as int].0@ == kk);
                        } else {
                            assert(m.contains_key(kk));
                            let a = choose|a: int|
                                0 <= a < old_e.len() && #[trigger] old_e[a].0@ == kk;
                            assert(e[a].0@ == kk);
                        }
                    }
                    assert forall|a: int, b2: int| 0 <= a < b2 < e.len() implies #[trigger] e[a].0@
                        != #[trigger] e[b2].0@ by {
                        if b2 < n {
                            assert(old_e[a].0@ != old_e[b2].0@);
                        } else {
                            assert(m.contains_key(old_e[a].0@));
                        }
                    }
                }
            },
        }
    }

    /// The name stored under `hash`, if any.
    pub fn get(&self, hash: &str) -> (r: Option<String>)
        requires
            self.wf(),
        ensures
            r.is_some() == self@.contains_key(hash@),
            r matches Some(v) ==> v@ == self@[hash@],
    {
        let key = hash.to_owned();
        match self.position(&key) {
            Some(i) => {
                proof {
                    assert(self.mapping@.contains_key(self.entries@[i as int].0@));
                }
                Some(self.entries[i].1.clone())
            },
            None => None,
        }
    }

    /// The entries as (hash, name) pairs, each key once.
    pub fn to_pairs(&self) -> (r: Vec<(String, String)>)
        requires
            self.wf(),
        ensures
            r@.len() == self@.len(),
            forall|i: int|
                0 <= i < r@.len() ==> #[trigger] self@.contains_key(r@[i].0@) && self@[r@[i].0@]
                    == r@[i].1@,
            forall|i: int, j: int| 0 <= i < j < r@.len() ==> #[trigger] r@[i].0@ != #[trigger] r@[j].0@,
            forall|k: Seq<char>|
                #[trigger] self@.contains_key(k) ==> exists|i: int| 0 <= i < r@.len() && #[trigger] r@[i].0@ == k,
    {
        let mut r: Vec<(String, String)> = Vec::new();
        let mut i: usize = 0;
        while i < self.entries.len()
            invariant
                self.wf(),
                i <= self.entries@.len(),
                r@.len() == i,
                forall|j: int|
                    0 <= j < i ==> #[trigger] r@[j].0@ == self.entries@[j].0@ && r@[j].1@
                        == self.entries@[j].1@,
            decreases self.entries@.len() - i,
        {
            let k = self.entries[i].0.clone();
            let v = self.entries[i].1.clone();
            r.push((k, v));
            i += 1;
        }
        proof {
            assert forall|a: int, b: int| 0 <= a < b < r@.len() implies #[trigger] r@[a].0@
                != #[trigger] r@[b].0@ by {
                assert(self.entries@[a].0@ != self.entries@[b].0@);
            }
            assert forall|a: int| 0 <= a < r@.len() implies #[trigger] self@.contains_key(r@[a].0@)
                && self@[r@[a].0@] == r@[a].1@ by {
                assert(self.mapping@.contains_key(self.entries@[a].0@));
            }
            assert forall|k: Seq<char>| #[trigger] self@.contains_key(k) implies exists|a: int|
                0 <= a < r@.len() && #[trigger] r@[a].0@ == k by {
                let a = choose|a: int| 0 <= a < self.entries@.len() && #[trigger] self.entries@[a].0@ == k;
                assert(r@[a].0@ == k);
            }
        }
        r
    }

    /// The table built by inserting `pairs` in order.
    pub fn from_pairs(pairs: &Vec<(String, String)>) -> (r: Self)
        ensures
            r.wf(),
            r@ == table_of(pairs_view(pairs@)),
    {
        let mut t = ReverseLookupTable::new();
        let mut i: usize = 0;
        while i < pairs.len()
            invariant
                i <= pairs@.len(),
                t.wf(),
                t@ == table_of(pairs_view(pairs@.subrange(0, i as int))),
            decreases pairs@.len() - i,
        {
            let k = pairs[i].0.clone();
            let v = pairs[i].1.clone();
            t.insert(k, v);
            proof {
                let s = pairs_view(pairs@.subrange(0, i + 1));
                assert(s.drop_last() =~= pairs_view(pairs@.subrange(0, i as int)));
            }
            i += 1;
        }
        proof {
            assert(pairs@.subrange(0, pairs@.len() as int) =~= pairs@);
        }
        t
    }
}

} // verus!
