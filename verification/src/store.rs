//! A map from hashes to values, kept as a list of distinct keys.
use vstd::prelude::*;


verus! {

/// The map that a list of `(key, value)` pairs describes; a later pair wins.
pub open spec fn entries_map<V: View>(s: Seq<(String, V)>) -> Map<Seq<char>, V::V>
    decreases s.len(),
{
    if s.len() == 0 {
        Map::empty()
    } else {
        entries_map(s.drop_last()).insert(s.last().0@, s.last().1@)
    }
}

/// No key occurs twice.
pub open spec fn keys_distinct<V>(s: Seq<(String, V)>) -> bool {
    forall|i: int, j: int| 0 <= i < j < s.len() ==> (#[trigger] s[i]).0@ != (#[trigger] s[j]).0@
}

pub proof fn lemma_entries_map_dom<V: View>(s: Seq<(String, V)>)
    ensures
        entries_map(s).dom().finite(),
        forall|k: Seq<char>|
            #![trigger entries_map(s).contains_key(k)]
            entries_map(s).contains_key(k) <==> exists|i: int| 0 <= i < s.len() && (#[trigger] s[i]).0@
                == k,
    decreases s.len(),
{
    if s.len() > 0 {
        let t = s.drop_last();
        lemma_entries_map_dom(t);
        assert forall|k: Seq<char>|
            entries_map(s).contains_key(k) <==> exists|i: int| 0 <= i < s.len() && (#[trigger] s[i]).0@
                == k by {
            if entries_map(s).contains_key(k) {
                if k == s.last().0@ {
                    assert(s[s.len() - 1].0@ == k);
                } else {
                    let i = choose|i: int| 0 <= i < t.len() && (#[trigger] t[i]).0@ == k;
                    assert(s[i] == t[i]);
                }
            }
            if exists|i: int| 0 <= i < s.len() && (#[trigger] s[i]).0@ == k {
                let i = choose|i: int| 0 <= i < s.len() && (#[trigger] s[i]).0@ == k;
                if i < s.len() - 1 {
                    assert(t[i] == s[i]);
                }
            }
        }
    }
}

pub proof fn lemma_entries_map_index<V: View>(s: Seq<(String, V)>, i: int)
    requires
        keys_distinct(s),
        0 <= i < s.len(),
    ensures
        entries_map(s).contains_key(s[i].0@),
        entries_map(s)[s[i].0@] == s[i].1@,
    decreases s.len(),
{
    let t = s.drop_last();
    if i < s.len() - 1 {
        assert(keys_distinct(t)) by {
            assert forall|a: int, b: int| 0 <= a < b < t.len() implies (#[trigger] t[a]).0@ != (
            #[trigger] t[b]).0@ by {
                assert(t[a] == s[a] && t[b] == s[b]);
            }
        }
        lemma_entries_map_index(t, i);
        assert(t[i] == s[i]);
        assert(s[i].0@ != s[s.len() - 1].0@);
    }
}

pub proof fn lemma_entries_map_len<V: View>(s: Seq<(String, V)>)
    requires
        keys_distinct(s),
    ensures
        entries_map(s).dom().len() == s.len(),
    decreases s.len(),
{
    if s.len() > 0 {
        let t = s.drop_last();
        assert(keys_distinct(t)) by {
            assert forall|a: int, b: int| 0 <= a < b < t.len() implies (#[trigger] t[a]).0@ != (
            #[trigger] t[b]).0@ by {
                assert(t[a] == s[a] && t[b] == s[b]);
            }
        }
        lemma_entries_map_len(t);
        lemma_entries_map_dom(t);
        if entries_map(t).contains_key(s.last().0@) {
            let i = choose|i: int| 0 <= i < t.len() && (#[trigger] t[i]).0@ == s.last().0@;
            assert(s[i] == t[i]);
            assert(false);
        }
    }
}

/// A finite map from hashes to values.
pub struct HashStore<V> {
    entries: Vec<(String, V)>,
}

impl<V> HashStore<V> {
    #[verifier::type_invariant]
    closed spec fn distinct_keys(&self) -> bool {
        keys_distinct(self.entries@)
    }

}

impl<V: View> HashStore<V> {
    /// The contents, as a map from hash text to the values' views.
    pub closed spec fn map(&self) -> Map<Seq<char>, V::V> {
        entries_map(self.entries@)
    }

    /// An empty store.
    pub fn new() -> (r: Self)
        ensures
            r.map() == Map::<Seq<char>, V::V>::empty(),
    {
        HashStore { entries: Vec::new() }
    }

    pub proof fn lemma_finite(&self)
        ensures
            self.map().dom().finite(),
    {
        lemma_entries_map_dom(self.entries@);
    }

    /// The number of keys.
    pub fn len(&self) -> (r: usize)
        ensures
            r == self.map().dom().len(),
            self.map().dom().finite(),
    {
        proof {
            use_type_invariant(self);
            lemma_entries_map_len(self.entries@);
            lemma_entries_map_dom(self.entries@);
        }
        self.entries.len()
    }

    /// Where `key` is held, if it is.
    fn position(&self, key: &String) -> (r: Option<usize>)
        ensures
            r is None <==> !self.map().contains_key(key@),
            r matches Some(i) ==> i < self.entries@.len() && self.entries@[i as int].0@ == key@
                && self.map()[key@] == self.entries@[i as int].1@,
    {
        proof {
            use_type_invariant(self);
            lemma_entries_map_dom(self.entries@);
        }
        let mut i: usize = 0;
        while i < self.entries.len()
            invariant
                0 <= i <= self.entries.len(),
                forall|k: int| 0 <= k < i ==> (#[trigger] self.entries@[k]).0@ != key@,
            decreases self.entries.len() - i,
        {
            if self.entries[i].0 == *key {
                proof {
                    use_type_invariant(self);
                    lemma_entries_map_index(self.entries@, i as int);
                }
                return Some(i);
            }
            i = i + 1;
        }
        None
    }

    /// Whether `key` is held.
    pub fn contains_key(&self, key: &String) -> (r: bool)
        ensures
            r == self.map().contains_key(key@),
    {
        self.position(key).is_some()
    }

    /// The value held under `key`.
    pub fn get(&self, key: &String) -> (r: Option<&V>)
        ensures
            r is Some <==> self.map().contains_key(key@),
            r matches Some(v) ==> v@ == self.map()[key@],
    {
        match self.position(key) {
            Some(i) => Some(&self.entries[i].1),
            None => None,
        }
    }

    /// Stores `value` under `key` unless the key is already held; the first
    /// value stored under a key stays. Returns whether it was stored.
    pub fn insert_if_absent(&mut self, key: String, value: V) -> (r: bool)
        ensures
            r == !old(self).map().contains_key(key@),
            final(self).map() == (if old(self).map().contains_key(key@) {
                old(self).map()
            } else {
                old(self).map().insert(key@, value@)
            }),
    {
        if self.contains_key(&key) {
            false
        } else {
            proof {
                use_type_invariant(&*self);
                lemma_entries_map_dom(self.entries@);
            }
            let ghost before = self.entries@;
            let ghost k = key@;
            let ghost v = value@;
            let mut entries = Vec::new();
            std::mem::swap(&mut entries, &mut self.entries);
            entries.push((key, value));
            proof {
                assert(entries@.drop_last() =~= before);
                assert forall|a: int, b: int| 0 <= a < b < entries@.len() implies (
                #[trigger] entries@[a]).0@ != (#[trigger] entries@[b]).0@ by {
                    if b == entries@.len() - 1 {
                        assert(entries@[a] == before[a]);
                        if before[a].0@ == k {
                            assert(entries_map(before).contains_key(k));
                        }
                    } else {
                        assert(entries@[a] == before[a] && entries@[b] == before[b]);
                    }
                }
            }
            self.entries = entries;
            true
        }
    }
}

} // verus!
