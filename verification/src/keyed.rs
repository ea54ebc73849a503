//! A map keyed by strings: what a project keeps per Location id (resolved
//! content, resolution errors). Each key appears at most once.

use vstd::prelude::*;

use crate::text::{chars_eq, chars_of};

verus! {

/// The map that a list of entries makes, later entries winning.
pub open spec fn entries_map<V>(s: Seq<(String, V)>) -> Map<Seq<char>, V>
    decreases s.len(),
{
    if s.len() == 0 {
        Map::empty()
    } else {
        entries_map(s.drop_last()).insert(s.last().0@, s.last().1)
    }
}

pub open spec fn entry_keys<V>(s: Seq<(String, V)>) -> Seq<Seq<char>> {
    s.map_values(|e: (String, V)| e.0@)
}

pub open spec fn distinct_keys<V>(s: Seq<(String, V)>) -> bool {
    forall|i: int, j: int| 0 <= i < j < s.len() ==> s[i].0@ != s[j].0@
}

proof fn lemma_entries_finite<V>(s: Seq<(String, V)>)
    ensures
        entries_map(s).dom().finite(),
    decreases s.len(),
{
    if s.len() > 0 {
        lemma_entries_finite(s.drop_last());
    }
}

/// A key of the map is some entry's key.
pub proof fn lemma_listed_key<V>(s: Seq<(String, V)>, k: Seq<char>)
    requires
        entries_map(s).dom().contains(k),
    ensures
        exists|i: int| 0 <= i < s.len() && (#[trigger] s[i]).0@ == k,
    decreases s.len(),
{
    if s.last().0@ != k {
        lemma_listed_key(s.drop_last(), k);
        let i = choose|i: int| 0 <= i < s.drop_last().len() && (#[trigger] s.drop_last()[i]).0@ == k;
        assert(s[i] == s.drop_last()[i]);
    } else {
        assert(s[s.len() - 1].0@ == k);
    }
}

proof fn lemma_absent_key<V>(s: Seq<(String, V)>, k: Seq<char>)
    requires
        forall|i: int| 0 <= i < s.len() ==> s[i].0@ != k,
    ensures
        !entries_map(s).dom().contains(k),
    decreases s.len(),
{
    if s.len() > 0 {
        lemma_absent_key(s.drop_last(), k);
    }
}

/// Among distinct keys, each entry's key maps to its value.
pub proof fn lemma_present_key<V>(s: Seq<(String, V)>, i: int)
    requires
        distinct_keys(s),
        0 <= i < s.len(),
    ensures
        entries_map(s).dom().contains(s[i].0@),
        entries_map(s)[s[i].0@] == s[i].1,
    decreases s.len(),
{
    if i < s.len() - 1 {
        lemma_present_key(s.drop_last(), i);
    }
}

proof fn lemma_remove_key<V>(s: Seq<(String, V)>, i: int)
    requires
        distinct_keys(s),
        0 <= i < s.len(),
    ensures
        entries_map(s.remove(i)) =~= entries_map(s).remove(s[i].0@),
    decreases s.len(),
{
    let k = s[i].0@;
    if i == s.len() - 1 {
        assert(s.remove(i) =~= s.drop_last());
        lemma_absent_key(s.drop_last(), k);
    } else {
        lemma_remove_key(s.drop_last(), i);
        assert(s.remove(i).drop_last() =~= s.drop_last().remove(i));
        assert(s.remove(i).last() == s.last());
    }
}

/// String keys to values, each key at most once.
pub struct KeyedMap<V> {
    entries: Vec<(String, V)>,
}

impl<V> KeyedMap<V> {
    #[verifier::type_invariant]
    spec fn keys_distinct(self) -> bool {
        distinct_keys(self.entries@)
    }

    /// The map's contents.
    pub closed spec fn map(self) -> Map<Seq<char>, V> {
        entries_map(self.entries@)
    }

    /// Finitely many keys.
    pub proof fn lemma_finite(&self)
        ensures
            self.map().dom().finite(),
    {
        lemma_entries_finite(self.entries@);
    }

    /// The entries, each key once.
    pub fn entries(&self) -> (res: &Vec<(String, V)>)
        ensures
            entries_map(res@) == self.map(),
            distinct_keys(res@),
    {
        proof {
            use_type_invariant(self);
        }
        &self.entries
    }

    /// An empty map.
    pub fn new() -> (m: Self)
        ensures
            m.map() == Map::<Seq<char>, V>::empty(),
    {
        KeyedMap { entries: Vec::new() }
    }

    fn index_of(&self, key: &str) -> (res: Option<usize>)
        ensures
            match res {
                Some(i) => i < self.entries@.len() && self.entries@[i as int].0@ == key@,
                None => forall|i: int| 0 <= i < self.entries@.len() ==> self.entries@[i].0@ != key@,
            },
    {
        let k = chars_of(key);
        let mut i: usize = 0;
        while i < self.entries.len()
            invariant
                i <= self.entries@.len(),
                k@ == key@,
                forall|j: int| 0 <= j < i ==> self.entries@[j].0@ != key@,
            decreases self.entries@.len() - i,
        {
            if chars_eq(chars_of(self.entries[i].0.as_str()).as_slice(), k.as_slice()) {
                return Some(i);
            }
            i = i + 1;
        }
        None
    }

    /// The value at `key`.
    pub fn get(&self, key: &str) -> (res: Option<&V>)
        ensures
            match res {
                Some(v) => self.map().dom().contains(key@) && self.map()[key@] == *v,
                None => !self.map().dom().contains(key@),
            },
    {
        proof {
            use_type_invariant(self);
        }
        match self.index_of(key) {
            Some(i) => {
                proof {
                    lemma_present_key(self.entries@, i as int);
                }
                Some(&self.entries[i].1)
            },
            None => {
                proof {
                    lemma_absent_key(self.entries@, key@);
                }
                None
            },
        }
    }

    /// Sets `key` to `value`, replacing what it held.
    pub fn insert(&mut self, key: String, value: V)
        ensures
            final(self).map() == old(self).map().insert(key@, value),
    {
        proof {
            use_type_invariant(&*self);
        }
        let ghost before = self.entries@;
        let found = self.index_of(key.as_str());
        let mut entries: Vec<(String, V)> = Vec::new();
        std::mem::swap(&mut entries, &mut self.entries);
        match found {
            Some(i) => {
                proof {
                    lemma_remove_key(before, i as int);
                }
                entries.remove(i);
                proof {
                    let mid = entries@;
                    assert forall|j: int| 0 <= j < mid.len() implies mid[j].0@ != key@ by {
                        if j < i {
                            assert(mid[j] == before[j]);
                        } else {
                            assert(mid[j] == before[j + 1]);
                        }
                    }
                }
            },
            None => {
                proof {
                    lemma_absent_key(before, key@);
                    assert(entries_map(before).remove(key@) =~= entries_map(before));
                }
            },
        }
        let ghost mid = entries@;
        entries.push((key, value));
        proof {
            assert(entries@.drop_last() =~= mid);
            assert(entries_map(entries@) =~= entries_map(before).remove(key@).insert(key@, value));
            assert(distinct_keys(entries@)) by {
                assert forall|i: int, j: int| 0 <= i < j < entries@.len() implies entries@[i].0@
                    != entries@[j].0@ by {
                    if j < mid.len() {
                        if found is Some {
                            let r = found.unwrap() as int;
                            let bi = if i < r { i } else { i + 1 };
                            let bj = if j < r { j } else { j + 1 };
                            assert(entries@[i] == before[bi]);
                            assert(entries@[j] == before[bj]);
                        } else {
                            assert(entries@[i] == before[i]);
                            assert(entries@[j] == before[j]);
                        }
                    }
                }
            }
        }
        self.entries = entries;
    }

    /// Drops `key` and what it held.
    pub fn remove(&mut self, key: &str)
        ensures
            final(self).map() == old(self).map().remove(key@),
    {
        proof {
            use_type_invariant(&*self);
        }
        let ghost before = self.entries@;
        if let Some(i) = self.index_of(key) {
            let mut entries: Vec<(String, V)> = Vec::new();
            std::mem::swap(&mut entries, &mut self.entries);
            proof {
                lemma_remove_key(before, i as int);
            }
            entries.remove(i);
            proof {
                assert forall|a: int, b: int| 0 <= a < b < entries@.len() implies entries@[a].0@
                    != entries@[b].0@ by {
                    let ba = if a < i { a } else { a + 1 };
                    let bb = if b < i { b } else { b + 1 };
                    assert(entries@[a] == before[ba]);
                    assert(entries@[b] == before[bb]);
                }
            }
            self.entries = entries;
        } else {
            proof {
                lemma_absent_key(before, key@);
                assert(entries_map(before).remove(key@) =~= entries_map(before));
            }
        }
    }

    /// The entries, each key once, in no particular order.
    pub fn into_entries(self) -> (res: Vec<(String, V)>)
        ensures
            entries_map(res@) == self.map(),
            distinct_keys(res@),
    {
        proof {
            use_type_invariant(&self);
        }
        self.entries
    }
}

} // verus!
