//! The store: the mapping from key to value, the system's sole mutable
//! state. Keys are unique; last write wins; no key exists until written.

use vstd::prelude::*;
use crate::domain::{Data, DataV};

verus! {

/// The key-to-value mapping. It is backed by a vector of entries whose keys
/// are pairwise distinct, and is specified through its view, the map from
/// each key's characters to the shape of the value stored under it.
pub struct Store {
    entries: Vec<(String, Data)>,
}

/// The map described by a sequence of key-value entries, later entries
/// taking precedence.
pub open spec fn map_of(s: Seq<(String, Data)>) -> Map<Seq<char>, DataV>
    decreases s.len(),
{
    if s.len() == 0 {
        Map::empty()
    } else {
        map_of(s.drop_last()).insert(s.last().0@, s.last().1@)
    }
}

/// Whether the keys of a sequence of entries are pairwise distinct.
pub open spec fn keys_distinct(s: Seq<(String, Data)>) -> bool {
    forall|i: int, j: int|
        0 <= i < j < s.len() ==> #[trigger] s[i].0@ != #[trigger] s[j].0@
}

proof fn lemma_map_of_dom(s: Seq<(String, Data)>, k: Seq<char>)
    ensures
        map_of(s).contains_key(k) <==> exists|i: int| 0 <= i < s.len() && #[trigger] s[i].0@ == k,
    decreases s.len(),
{
    if s.len() > 0 {
        lemma_map_of_dom(s.drop_last(), k);
        if map_of(s).contains_key(k) && s.last().0@ != k {
            let i = choose|i: int| 0 <= i < s.drop_last().len() && #[trigger] s.drop_last()[i].0@
                == k;
            assert(s[i].0@ == k);
        }
        if exists|i: int| 0 <= i < s.len() && #[trigger] s[i].0@ == k {
            let i = choose|i: int| 0 <= i < s.len() && #[trigger] s[i].0@ == k;
            if i < s.len() - 1 {
                assert(s.drop_last()[i].0@ == k);
            }
        }
    }
}

proof fn lemma_map_of_at(s: Seq<(String, Data)>, i: int)
    requires
        keys_distinct(s),
        0 <= i < s.len(),
    ensures
        map_of(s).contains_key(s[i].0@),
        map_of(s)[s[i].0@] == s[i].1@,
    decreases s.len(),
{
    lemma_map_of_dom(s, s[i].0@);
    if i < s.len() - 1 {
        assert(s.drop_last()[i] == s[i]);
        lemma_map_of_at(s.drop_last(), i);
        assert(s[s.len() - 1].0@ != s[i].0@);
    }
}

proof fn lemma_map_of_update(s: Seq<(String, Data)>, i: int, e: (String, Data))
    requires
        keys_distinct(s),
        0 <= i < s.len(),
        e.0@ == s[i].0@,
    ensures
        map_of(s.update(i, e)) =~= map_of(s).insert(e.0@, e.1@),
    decreases s.len(),
{
    let t = s.update(i, e);
    if i == s.len() - 1 {
        assert(t.drop_last() =~= s.drop_last());
        assert(t.last() == e);
    } else {
        assert(t.drop_last() =~= s.drop_last().update(i, e));
        assert(s.drop_last()[i] == s[i]);
        lemma_map_of_update(s.drop_last(), i, e);
        assert(t.last() == s.last());
        assert(s.last().0@ != e.0@);
    }
}

proof fn lemma_map_of_remove(s: Seq<(String, Data)>, i: int)
    requires
        keys_distinct(s),
        0 <= i < s.len(),
    ensures
        map_of(s.remove(i)) =~= map_of(s).remove(s[i].0@),
    decreases s.len(),
{
    lemma_map_of_dom(s.drop_last(), s.last().0@);
    if i == s.len() - 1 {
        assert(s.remove(i) =~= s.drop_last());
        assert(!map_of(s.drop_last()).contains_key(s.last().0@));
    } else {
        assert(s.remove(i).drop_last() =~= s.drop_last().remove(i));
        assert(s.drop_last()[i] == s[i]);
        lemma_map_of_remove(s.drop_last(), i);
        assert(s.remove(i).last() == s.last());
        assert(s.last().0@ != s[i].0@);
    }
}

impl View for Store {
    type V = Map<Seq<char>, DataV>;

    closed spec fn view(&self) -> Map<Seq<char>, DataV> {
        map_of(self.entries@)
    }
}

impl Store {
    #[verifier::type_invariant]
    spec fn inv(self) -> bool {
        keys_distinct(self.entries@)
    }

    /// Creates an empty store.
    pub fn new() -> (s: Self)
        ensures
            s@ == Map::<Seq<char>, DataV>::empty(),
    {
        let s = Store { entries: Vec::new() };
        proof {
            assert(s@ =~= Map::<Seq<char>, DataV>::empty());
        }
        s
    }

    /// Reads the value stored under a key, if any.
    pub fn get(&self, key: &String) -> (r: Option<&Data>)
        ensures
            match r {
                Some(d) => self@.contains_key(key@) && d@ == self@[key@],
                None => !self@.contains_key(key@),
            },
    {
        proof {
            use_type_invariant(self);
        }
        let n = self.entries.len();
        let mut i: usize = 0;
        while i < n
            invariant
                i <= n,
                n == self.entries@.len(),
                keys_distinct(self.entries@),
                forall|k: int| 0 <= k < i ==> #[trigger] self.entries@[k].0@ != key@,
            decreases n - i,
        {
            if self.entries[i].0.eq(key) {
                proof {
                    lemma_map_of_at(self.entries@, i as int);
                }
                return Some(&self.entries[i].1);
            }
            i = i + 1;
        }
        proof {
            lemma_map_of_dom(self.entries@, key@);
        }
        None
    }

    /// Writes a value under a key, creating the key or replacing whatever
    /// was there: last write wins.
    pub fn insert(&mut self, key: String, val: Data)
        ensures
            final(self)@ == old(self)@.insert(key@, val@),
    {
        proof {
            use_type_invariant(&*self);
        }
        let n = self.entries.len();
        let mut i: usize = 0;
        while i < n
            invariant
                i <= n,
                n == self.entries@.len(),
                keys_distinct(self.entries@),
                self.entries@ == old(self).entries@,
                forall|k: int| 0 <= k < i ==> #[trigger] self.entries@[k].0@ != key@,
            decreases n - i,
        {
            if self.entries[i].0.eq(&key) {
                let ghost s = self.entries@;
                let mut v: Vec<(String, Data)> = Vec::new();
                core::mem::swap(&mut v, &mut self.entries);
                v[i] = (key, val);
                proof {
                    let e = v@[i as int];
                    assert(v@ =~= s.update(i as int, e));
                    assert(keys_distinct(v@));
                    lemma_map_of_update(s, i as int, e);
                }
                core::mem::swap(&mut v, &mut self.entries);
                return ;
            }
            i = i + 1;
        }
        let ghost s = self.entries@;
        let mut v: Vec<(String, Data)> = Vec::new();
        core::mem::swap(&mut v, &mut self.entries);
        v.push((key, val));
        proof {
            assert(v@.drop_last() =~= s);
            assert(keys_distinct(v@)) by {
                lemma_map_of_dom(s, v@.last().0@);
            }
        }
        core::mem::swap(&mut v, &mut self.entries);
        proof {
            assert(final(self)@ =~= old(self)@.insert(key@, val@));
        }
    }

    /// Takes the value stored under a key out of the store, if any.
    pub fn remove(&mut self, key: &String) -> (r: Option<Data>)
        ensures
            match r {
                Some(d) => {
                    &&& old(self)@.contains_key(key@)
                    &&& d@ == old(self)@[key@]
                    &&& final(self)@ == old(self)@.remove(key@)
                },
                None => {
                    &&& !old(self)@.contains_key(key@)
                    &&& final(self)@ == old(self)@
                },
            },
    {
        proof {
            use_type_invariant(&*self);
        }
        let n = self.entries.len();
        let mut i: usize = 0;
        while i < n
            invariant
                i <= n,
                n == self.entries@.len(),
                keys_distinct(self.entries@),
                self.entries@ == old(self).entries@,
                forall|k: int| 0 <= k < i ==> #[trigger] self.entries@[k].0@ != key@,
            decreases n - i,
        {
            if self.entries[i].0.eq(key) {
                let ghost s = self.entries@;
                let mut v: Vec<(String, Data)> = Vec::new();
                core::mem::swap(&mut v, &mut self.entries);
                let e = v.remove(i);
                proof {
                    assert forall|a: int, b: int|
                        0 <= a < b < v@.len() implies #[trigger] v@[a].0@ != #[trigger] v@[b].0@ by {
                        let aa = if a < i { a } else { a + 1 };
                        let bb = if b < i { b } else { b + 1 };
                        assert(v@[a] == s[aa]);
                        assert(v@[b] == s[bb]);
                    }
                    lemma_map_of_at(s, i as int);
                    lemma_map_of_remove(s, i as int);
                }
                core::mem::swap(&mut v, &mut self.entries);
                return Some(e.1);
            }
            i = i + 1;
        }
        proof {
            lemma_map_of_dom(self.entries@, key@);
        }
        None
    }
}

} // verus!
