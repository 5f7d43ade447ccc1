//! Key-value store model: string key to raw byte value.
//!
//! The host platform provides the real store; this type models its get/put
//! semantics so the pipeline around it can be verified. Its view is the map
//! from key to value; one entry per key is an invariant.

use vstd::prelude::*;

verus! {

/// The stored contents, one `(key, value)` pair per entry.
pub struct Store {
    entries: Vec<(String, Vec<u8>)>,
}

/// The map denoted by a sequence of entries; a later entry wins over an
/// earlier one with the same key.
spec fn entries_map(s: Seq<(String, Vec<u8>)>) -> Map<Seq<char>, Seq<u8>>
    decreases s.len(),
{
    if s.len() == 0 {
        Map::empty()
    } else {
        entries_map(s.drop_last()).insert(s.last().0@, s.last().1@)
    }
}

/// No two entries share a key.
spec fn keys_unique(s: Seq<(String, Vec<u8>)>) -> bool {
    forall|i: int, j: int| 0 <= i < j < s.len() ==> s[i].0@ != s[j].0@
}

proof fn lemma_entries_map_contains(s: Seq<(String, Vec<u8>)>, k: Seq<char>)
    ensures
        entries_map(s).contains_key(k) <==> exists|i: int| 0 <= i < s.len() && s[i].0@ == k,
    decreases s.len(),
{
    if s.len() == 0 {
    } else {
        lemma_entries_map_contains(s.drop_last(), k);
        if s.last().0@ == k {
            assert(s[s.len() - 1].0@ == k);
        } else {
            if exists|i: int| 0 <= i < s.len() && s[i].0@ == k {
                let i = choose|i: int| 0 <= i < s.len() && s[i].0@ == k;
                assert(s.drop_last()[i].0@ == k);
            }
            if exists|i: int| 0 <= i < s.drop_last().len() && s.drop_last()[i].0@ == k {
                let i = choose|i: int| 0 <= i < s.drop_last().len() && s.drop_last()[i].0@ == k;
                assert(s[i].0@ == k);
            }
        }
    }
}

proof fn lemma_entries_map_value(s: Seq<(String, Vec<u8>)>, idx: int)
    requires
        keys_unique(s),
        0 <= idx < s.len(),
    ensures
        entries_map(s).contains_key(s[idx].0@),
        entries_map(s)[s[idx].0@] == s[idx].1@,
    decreases s.len(),
{
    if idx == s.len() - 1 {
    } else {
        assert(keys_unique(s.drop_last())) by {
            assert(forall|i: int, j: int|
                0 <= i < j < s.drop_last().len() ==> (#[trigger] s.drop_last()[i].0)@ != (#[trigger] s.drop_last()[j].0)@);
        }
        lemma_entries_map_value(s.drop_last(), idx);
        assert(s.drop_last()[idx] == s[idx]);
        assert(s[idx].0@ != s.last().0@);
    }
}

proof fn lemma_entries_map_update(s: Seq<(String, Vec<u8>)>, idx: int, p: (String, Vec<u8>))
    requires
        keys_unique(s),
        0 <= idx < s.len(),
        p.0@ == s[idx].0@,
    ensures
        entries_map(s.update(idx, p)) == entries_map(s).insert(p.0@, p.1@),
        keys_unique(s.update(idx, p)),
    decreases s.len(),
{
    let s2 = s.update(idx, p);
    assert(keys_unique(s2)) by {
        assert(forall|i: int, j: int|
            0 <= i < j < s2.len() ==> (#[trigger] s2[i].0)@ != (#[trigger] s2[j].0)@);
    }
    if idx == s.len() - 1 {
        assert(s2.drop_last() =~= s.drop_last());
        assert(s2.last() == p);
        assert(entries_map(s.drop_last()).insert(s.last().0@, s.last().1@).insert(p.0@, p.1@)
            =~= entries_map(s.drop_last()).insert(p.0@, p.1@));
    } else {
        assert(s2.drop_last() =~= s.drop_last().update(idx, p));
        assert(s2.last() == s.last());
        assert(keys_unique(s.drop_last())) by {
            assert(forall|i: int, j: int|
                0 <= i < j < s.drop_last().len() ==> (#[trigger] s.drop_last()[i].0)@ != (#[trigger] s.drop_last()[j].0)@);
        }
        assert(s.drop_last()[idx] == s[idx]);
        lemma_entries_map_update(s.drop_last(), idx, p);
        assert(p.0@ != s.last().0@);
        assert(entries_map(s.drop_last()).insert(p.0@, p.1@).insert(s.last().0@, s.last().1@)
            =~= entries_map(s.drop_last()).insert(s.last().0@, s.last().1@).insert(p.0@, p.1@));
    }
}

proof fn lemma_entries_map_push(s: Seq<(String, Vec<u8>)>, p: (String, Vec<u8>))
    requires
        keys_unique(s),
        forall|i: int| 0 <= i < s.len() ==> (#[trigger] s[i].0)@ != p.0@,
    ensures
        entries_map(s.push(p)) == entries_map(s).insert(p.0@, p.1@),
        keys_unique(s.push(p)),
{
    assert(s.push(p).drop_last() =~= s);
    assert(s.push(p).last() == p);
    assert(keys_unique(s.push(p))) by {
        assert(forall|i: int, j: int|
            0 <= i < j < s.push(p).len() ==> (#[trigger] s.push(p)[i].0)@ != (#[trigger] s.push(p)[j].0)@);
    }
}

proof fn lemma_entries_map_dom(s: Seq<(String, Vec<u8>)>)
    requires
        keys_unique(s),
    ensures
        entries_map(s).dom().finite(),
        entries_map(s).dom().len() == s.len(),
    decreases s.len(),
{
    if s.len() == 0 {
        assert(entries_map(s).dom() =~= Set::<Seq<char>>::empty());
    } else {
        assert(keys_unique(s.drop_last())) by {
            assert(forall|i: int, j: int|
                0 <= i < j < s.drop_last().len() ==> (#[trigger] s.drop_last()[i].0)@ != (#[trigger] s.drop_last()[j].0)@);
        }
        lemma_entries_map_dom(s.drop_last());
        lemma_entries_map_contains(s.drop_last(), s.last().0@);
        assert(forall|i: int|
            0 <= i < s.drop_last().len() ==> (#[trigger] s.drop_last()[i].0)@ != s.last().0@);
        assert(!entries_map(s.drop_last()).contains_key(s.last().0@));
        assert(entries_map(s).dom() =~= entries_map(s.drop_last()).dom().insert(s.last().0@));
    }
}

impl View for Store {
    type V = Map<Seq<char>, Seq<u8>>;

    closed spec fn view(&self) -> Map<Seq<char>, Seq<u8>> {
        entries_map(self.entries@)
    }
}

impl Store {
    /// One entry per key.
    pub closed spec fn wf(self) -> bool {
        keys_unique(self.entries@)
    }

    /// An empty store.
    pub fn new() -> (s: Store)
        ensures
            s.wf(),
            s@ == Map::<Seq<char>, Seq<u8>>::empty(),
    {
        Store { entries: Vec::new() }
    }

    /// Index of the entry holding `key`, if any.
    fn find(&self, key: &String) -> (r: Option<usize>)
        ensures
            match r {
                Some(i) => i < self.entries@.len() && self.entries@[i as int].0@ == key@,
                None => forall|i: int|
                    0 <= i < self.entries@.len() ==> (#[trigger] self.entries@[i].0)@ != key@,
            },
    {
        let mut idx: usize = 0;
        while idx < self.entries.len()
            invariant
                idx <= self.entries@.len(),
                forall|i: int| 0 <= i < idx ==> (#[trigger] self.entries@[i].0)@ != key@,
            decreases self.entries@.len() - idx,
        {
            if self.entries[idx].0 == *key {
                return Some(idx);
            }
            idx = idx + 1;
        }
        None
    }

    /// Writes `value` under `key`, unconditionally overwriting any existing
    /// entry at that key.
    pub fn put(&mut self, key: String, value: Vec<u8>)
        requires
            old(self).wf(),
        ensures
            final (self).wf(),
            final (self)@ == old(self)@.insert(key@, value@),
    {
        let found = self.find(&key);
        match found {
            Some(idx) => {
                self.entries[idx] = (key, value);
                proof {
                    lemma_entries_map_update(
                        old(self).entries@,
                        idx as int,
                        self.entries@[idx as int],
                    );
                }
            },
            None => {
                self.entries.push((key, value));
                proof {
                    lemma_entries_map_push(
                        old(self).entries@,
                        self.entries@[self.entries@.len() - 1],
                    );
                }
            },
        }
    }

    /// The value stored under `key`, if any.
    pub fn get(&self, key: &String) -> (r: Option<&Vec<u8>>)
        requires
            self.wf(),
        ensures
            match r {
                Some(v) => self@.contains_key(key@) && v@ == self@[key@],
                None => !self@.contains_key(key@),
            },
    {
        match self.find(key) {
            Some(idx) => {
                proof {
                    lemma_entries_map_value(self.entries@, idx as int);
                }
                Some(&self.entries[idx].1)
            },
            None => {
                proof {
                    lemma_entries_map_contains(self.entries@, key@);
                }
                None
            },
        }
    }

    /// How many entries the store holds: one per stored key.
    pub fn len(&self) -> (n: usize)
        requires
            self.wf(),
        ensures
            n == self@.dom().len(),
    {
        proof {
            lemma_entries_map_dom(self.entries@);
        }
        self.entries.len()
    }
}

} // verus!
