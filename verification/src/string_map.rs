//! A map from text keys to text values that remembers the order its entries
//! were added in, each key at most once. Configuration files hold their
//! per-workspace tables in it; walking it visits entries in that order.

use vstd::prelude::*;
use crate::text::{chars_eq, chars_of};

verus! {

pub type Entries = Seq<(Seq<char>, Seq<char>)>;

pub open spec fn keys_distinct(s: Entries) -> bool {
    forall|i: int, j: int| 0 <= i < j < s.len() ==> (#[trigger] s[i]).0 != (#[trigger] s[j]).0
}

pub open spec fn has_key(s: Entries, k: Seq<char>) -> bool {
    exists|i: int| 0 <= i < s.len() && (#[trigger] s[i]).0 == k
}

pub open spec fn key_index(s: Entries, k: Seq<char>) -> int {
    choose|i: int| 0 <= i < s.len() && (#[trigger] s[i]).0 == k
}

/// The value stored under `k`.
pub open spec fn lookup(s: Entries, k: Seq<char>) -> Option<Seq<char>> {
    if has_key(s, k) {
        Some(s[key_index(s, k)].1)
    } else {
        None
    }
}

/// Insertion: an existing key keeps its place and takes the new value; a new
/// key goes last.
pub open spec fn insert_entry(s: Entries, k: Seq<char>, v: Seq<char>) -> Entries {
    if has_key(s, k) {
        s.update(key_index(s, k), (k, v))
    } else {
        s.push((k, v))
    }
}

pub open spec fn remove_entry(s: Entries, k: Seq<char>) -> Entries {
    if has_key(s, k) {
        s.remove(key_index(s, k))
    } else {
        s
    }
}

#[derive(Debug, PartialEq, Eq)]
pub struct StringMap {
    entries: Vec<(String, String)>,
}

impl View for StringMap {
    type V = Entries;

    closed spec fn view(&self) -> Entries {
        Seq::new(self.entries@.len(), |i: int| (self.entries@[i].0@, self.entries@[i].1@))
    }
}

impl Clone for StringMap {
    fn clone(&self) -> (r: Self)
        ensures
            r@ == self@,
    {
        proof {
            use_type_invariant(self);
        }
        let mut entries: Vec<(String, String)> = Vec::new();
        let mut i: usize = 0;
        while i < self.entries.len()
            invariant
                i <= self.entries@.len(),
                keys_distinct(self@),
                entries@.len() == i,
                forall|j: int| 0 <= j < i ==> (#[trigger] entries@[j]).0@ == self.entries@[j].0@
                    && entries@[j].1@ == self.entries@[j].1@,
            decreases self.entries.len() - i,
        {
            let k = self.entries[i].0.clone();
            let v = self.entries[i].1.clone();
            entries.push((k, v));
            i = i + 1;
        }
        let ghost ev = Seq::new(entries@.len(), |j: int| (entries@[j].0@, entries@[j].1@));
        assert(ev =~= self@);
        let r = StringMap { entries };
        assert(r@ =~= self@);
        r
    }
}

impl StringMap {
    #[verifier::type_invariant]
    closed spec fn wf(self) -> bool {
        keys_distinct(self@)
    }

    pub fn new() -> (m: Self)
        ensures
            m@ == Seq::<(Seq<char>, Seq<char>)>::empty(),
    {
        let m = StringMap { entries: Vec::new() };
        assert(m@ =~= Seq::<(Seq<char>, Seq<char>)>::empty());
        m
    }

    pub fn len(&self) -> (n: usize)
        ensures
            n == self@.len(),
    {
        self.entries.len()
    }

    /// The key of the `i`-th entry.
    pub fn key_at(&self, i: usize) -> (k: &String)
        requires
            i < self@.len(),
        ensures
            k@ == self@[i as int].0,
    {
        &self.entries[i].0
    }

    /// The value of the `i`-th entry.
    pub fn value_at(&self, i: usize) -> (v: &String)
        requires
            i < self@.len(),
        ensures
            v@ == self@[i as int].1,
    {
        &self.entries[i].1
    }

    fn find(&self, key: &Vec<char>) -> (r: Option<usize>)
        ensures
            match r {
                Some(i) => i < self@.len() && self@[i as int].0 == key@ && key_index(self@, key@)
                    == i && has_key(self@, key@),
                None => !has_key(self@, key@),
            },
    {
        proof {
            use_type_invariant(self);
        }
        let mut i: usize = 0;
        while i < self.entries.len()
            invariant
                i <= self@.len(),
                self@.len() == self.entries@.len(),
                keys_distinct(self@),
                forall|j: int| 0 <= j < i ==> (#[trigger] self@[j]).0 != key@,
            decreases self.entries.len() - i,
        {
            let k = chars_of(self.entries[i].0.as_str());
            if chars_eq(&k, key) {
                assert(self@[i as int].0 == key@);
                let ghost c = key_index(self@, key@);
                assert(0 <= c < self@.len() && self@[c].0 == key@);
                assert(c == i) by {
                    if c != i {
                        if c < i {
                            assert((self@[c]).0 != (self@[i as int]).0);
                        } else {
                            assert((self@[i as int]).0 != (self@[c]).0);
                        }
                    }
                }
                return Some(i);
            }
            i = i + 1;
        }
        None
    }

    /// The value stored under `key`.
    pub fn get(&self, key: &str) -> (r: Option<&String>)
        ensures
            match r {
                Some(v) => lookup(self@, key@) == Some(v@),
                None => lookup(self@, key@) is None,
            },
    {
        let k = chars_of(key);
        match self.find(&k) {
            Some(i) => Some(&self.entries[i].1),
            None => None,
        }
    }

    /// Stores `value` under `key`, handing back the value it replaces.
    pub fn insert(&mut self, key: String, value: String) -> (r: Option<String>)
        ensures
            final(self)@ == insert_entry(old(self)@, key@, value@),
            match r {
                Some(v) => lookup(old(self)@, key@) == Some(v@),
                None => lookup(old(self)@, key@) is None,
            },
    {
        proof {
            use_type_invariant(&*self);
        }
        let k = chars_of(key.as_str());
        let ghost before = self@;
        match self.find(&k) {
            Some(i) => {
                let mut entries: Vec<(String, String)> = Vec::new();
                std::mem::swap(&mut entries, &mut self.entries);
                let old_pair = entries.remove(i);
                entries.insert(i, (key, value));
                let ghost after = Seq::new(entries@.len(), |j: int| (entries@[j].0@, entries@[j].1@));
                assert(after =~= before.update(i as int, (k@, value@)));
                assert(keys_distinct(after)) by {
                    assert forall|a: int, b: int| 0 <= a < b < after.len() implies (#[trigger] after[a]).0
                        != (#[trigger] after[b]).0 by {
                        assert(before[a].0 != before[b].0);
                    }
                }
                self.entries = entries;
                assert(self@ =~= after);
                Some(old_pair.1)
            },
            None => {
                let mut entries: Vec<(String, String)> = Vec::new();
                std::mem::swap(&mut entries, &mut self.entries);
                entries.push((key, value));
                let ghost after = Seq::new(entries@.len(), |j: int| (entries@[j].0@, entries@[j].1@));
                assert(after =~= before.push((k@, value@)));
                assert(keys_distinct(after)) by {
                    assert forall|a: int, b: int| 0 <= a < b < after.len() implies (#[trigger] after[a]).0
                        != (#[trigger] after[b]).0 by {
                        if b < before.len() {
                            assert(before[a].0 != before[b].0);
                        } else {
                            assert(after[a] == before[a]);
                        }
                    }
                }
                self.entries = entries;
                assert(self@ =~= after);
                None
            },
        }
    }

    /// Removes the entry for `key`, handing back its value.
    pub fn remove(&mut self, key: &str) -> (r: Option<String>)
        ensures
            final(self)@ == remove_entry(old(self)@, key@),
            match r {
                Some(v) => lookup(old(self)@, key@) == Some(v@),
                None => lookup(old(self)@, key@) is None,
            },
    {
        proof {
            use_type_invariant(&*self);
        }
        let k = chars_of(key);
        let ghost before = self@;
        match self.find(&k) {
            Some(i) => {
                let mut entries: Vec<(String, String)> = Vec::new();
                std::mem::swap(&mut entries, &mut self.entries);
                let old_pair = entries.remove(i);
                let ghost after = Seq::new(entries@.len(), |j: int| (entries@[j].0@, entries@[j].1@));
                assert(after =~= before.remove(i as int));
                assert(keys_distinct(after)) by {
                    assert forall|a: int, b: int| 0 <= a < b < after.len() implies (#[trigger] after[a]).0
                        != (#[trigger] after[b]).0 by {
                        if b < i {
                            assert(before[a].0 != before[b].0);
                        } else if a < i {
                            assert(before[a].0 != before[b + 1].0);
                        } else {
                            assert(before[a + 1].0 != before[b + 1].0);
                        }
                    }
                }
                self.entries = entries;
                assert(self@ =~= after);
                Some(old_pair.1)
            },
            None => None,
        }
    }
}

/// Reading back: after storing `v` under `k`, `k` reads `v` and every other
/// key reads what it read before; after removing `k`, `k` reads nothing and
/// every other key reads what it read before.
pub proof fn lemma_read_after_write(s: Entries, k: Seq<char>, v: Seq<char>, other: Seq<char>)
    requires
        keys_distinct(s),
    ensures
        lookup(insert_entry(s, k, v), k) == Some(v),
        other != k ==> lookup(insert_entry(s, k, v), other) == lookup(s, other),
        lookup(remove_entry(s, k), k) is None,
        other != k ==> lookup(remove_entry(s, k), other) == lookup(s, other),
{
    let t = insert_entry(s, k, v);
    if has_key(s, k) {
        let i = key_index(s, k);
        assert(t[i].0 == k);
        assert(has_key(t, k));
        let j = key_index(t, k);
        if j != i {
            assert(s[j].0 == k);
        }
        if other != k {
            if has_key(s, other) {
                let a = key_index(s, other);
                assert(t[a].0 == other);
                assert(has_key(t, other));
                let b = key_index(t, other);
                assert(b != i);
                assert(s[b].0 == other);
            }
            if has_key(t, other) {
                let b = key_index(t, other);
                assert(s[b].0 == other);
                assert(has_key(s, other));
            }
        }
        let r = remove_entry(s, k);
        assert(r == s.remove(i));
        if has_key(r, k) {
            let j = key_index(r, k);
            if j < i {
                assert(s[j].0 == k);
            } else {
                assert(s[j + 1].0 == k);
            }
        }
        if other != k {
            if has_key(s, other) {
                let a = key_index(s, other);
                assert(a != i);
                let a2 = if a < i { a } else { a - 1 };
                assert(r[a2] == s[a]);
                assert(has_key(r, other));
                let b = key_index(r, other);
                let b2 = if b < i { b } else { b + 1 };
                assert(r[b] == s[b2]);
                assert(b2 == a);
            }
            if has_key(r, other) {
                let b = key_index(r, other);
                let b2 = if b < i { b } else { b + 1 };
                assert(r[b] == s[b2]);
                assert(has_key(s, other));
            }
        }
    } else {
        assert(t == s.push((k, v)));
        assert(t[s.len() as int].0 == k);
        assert(has_key(t, k));
        let j = key_index(t, k);
        if j < s.len() {
            assert(s[j].0 == k);
            assert(has_key(s, k));
        }
        if other != k {
            if has_key(s, other) {
                let a = key_index(s, other);
                assert(t[a] == s[a]);
                assert(has_key(t, other));
                let b = key_index(t, other);
                assert(b < s.len());
                assert(t[b] == s[b]);
            }
            if has_key(t, other) {
                let b = key_index(t, other);
                assert(b < s.len());
                assert(t[b] == s[b]);
                assert(has_key(s, other));
            }
        }
    }
}

} // verus!
