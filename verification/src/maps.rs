//! Small insertion-ordered maps with unique keys.
//!
//! `ArgMap` is keyed by argument index, `NamedMap` by name. Each is a list of
//! entries in which no key occurs twice; inserting an existing key replaces its
//! value in place, a new key is appended. The abstract view is the entry list
//! with every value taken by its own view.

use vstd::prelude::*;

verus! {

/// No key occurs twice in the entry list.
pub open spec fn keys_distinct<K, W>(s: Seq<(K, W)>) -> bool {
    forall|i: int, j: int| 0 <= i < j < s.len() ==> s[i].0 != s[j].0
}

/// Some entry has key `k`.
pub open spec fn has_key<K, W>(s: Seq<(K, W)>, k: K) -> bool {
    exists|i: int| 0 <= i < s.len() && s[i].0 == k
}

/// The position of the entry with key `k` (meaningful when `has_key`).
pub open spec fn key_index<K, W>(s: Seq<(K, W)>, k: K) -> int {
    choose|i: int| 0 <= i < s.len() && s[i].0 == k
}

/// The value stored under `k`, if any.
pub open spec fn assoc_get<K, W>(s: Seq<(K, W)>, k: K) -> Option<W> {
    if has_key(s, k) {
        Some(s[key_index(s, k)].1)
    } else {
        None
    }
}

/// Insertion: replace the value of an existing key in place, else append.
pub open spec fn assoc_insert<K, W>(s: Seq<(K, W)>, k: K, w: W) -> Seq<(K, W)> {
    if has_key(s, k) {
        s.update(key_index(s, k), (k, w))
    } else {
        s.push((k, w))
    }
}

/// Inserting keeps the keys unique.
pub proof fn lemma_insert_distinct<K, W>(s: Seq<(K, W)>, k: K, w: W)
    requires
        keys_distinct(s),
    ensures
        keys_distinct(assoc_insert(s, k, w)),
{
    if has_key(s, k) {
        let i = key_index(s, k);
        let t = assoc_insert(s, k, w);
        assert forall|a: int, b: int| 0 <= a < b < t.len() implies t[a].0 != t[b].0 by {
            assert(t[a].0 == s[a].0);
            assert(t[b].0 == s[b].0);
        }
    }
}

/// A read after an insertion gives back the inserted value; other keys are
/// untouched.
pub proof fn lemma_get_after_insert<K, W>(s: Seq<(K, W)>, k: K, w: W, other: K)
    requires
        keys_distinct(s),
    ensures
        assoc_get(assoc_insert(s, k, w), k) == Some(w),
        other != k ==> assoc_get(assoc_insert(s, k, w), other) == assoc_get(s, other),
{
    let t = assoc_insert(s, k, w);
    lemma_insert_distinct(s, k, w);
    if has_key(s, k) {
        let i = key_index(s, k);
        assert(t[i].0 == k);
        assert(has_key(t, k));
        let j = key_index(t, k);
        assert(i == j);
    } else {
        assert(t[s.len() as int].0 == k);
        assert(has_key(t, k));
        let j = key_index(t, k);
        assert(j == s.len());
    }
    if other != k {
        if has_key(s, other) {
            let i = key_index(s, other);
            assert(t[i].0 == other);
            assert(has_key(t, other));
            let j = key_index(t, other);
            assert(i == j);
        } else {
            assert(!has_key(t, other)) by {
                if has_key(t, other) {
                    let j = key_index(t, other);
                    if j < s.len() {
                        assert(s[j].0 == other);
                    }
                }
            }
        }
    }
}

/// Values keyed by argument index.
pub struct ArgMap<V: View> {
    entries: Vec<(usize, V)>,
}

impl<V: View> View for ArgMap<V> {
    type V = Seq<(usize, V::V)>;

    closed spec fn view(&self) -> Seq<(usize, V::V)> {
        self.entries@.map_values(|e: (usize, V)| (e.0, e.1@))
    }
}

impl<V: View> ArgMap<V> {
    #[verifier::type_invariant]
    closed spec fn inv(&self) -> bool {
        keys_distinct(self@)
    }

    /// The empty map.
    pub fn new() -> (m: Self)
        ensures
            m@ == Seq::<(usize, V::V)>::empty(),
    {
        let m = ArgMap { entries: Vec::new() };
        assert(m@ =~= Seq::<(usize, V::V)>::empty());
        m
    }

    /// Number of keys.
    pub fn len(&self) -> (n: usize)
        ensures
            n == self@.len(),
    {
        self.entries.len()
    }

    /// Whether the map has no key.
    pub fn is_empty(&self) -> (b: bool)
        ensures
            b == (self@.len() == 0),
    {
        self.entries.len() == 0
    }

    /// The entries, in insertion order.
    pub fn entries(&self) -> (es: &Vec<(usize, V)>)
        ensures
            es@.map_values(|e: (usize, V)| (e.0, e.1@)) == self@,
            keys_distinct(self@),
    {
        proof {
            use_type_invariant(self);
        }
        &self.entries
    }

    /// The entries, in insertion order, taking the map apart.
    pub fn into_entries(self) -> (es: Vec<(usize, V)>)
        ensures
            es@.map_values(|e: (usize, V)| (e.0, e.1@)) == self@,
    {
        self.entries
    }

    fn find(&self, k: usize) -> (r: Option<usize>)
        ensures
            match r {
                Some(i) => i < self@.len() && self@[i as int].0 == k && has_key(self@, k)
                    && key_index(self@, k) == i,
                None => !has_key(self@, k),
            },
    {
        proof {
            use_type_invariant(self);
        }
        let mut i: usize = 0;
        while i < self.entries.len()
            invariant
                i <= self.entries@.len(),
                self@.len() == self.entries@.len(),
                keys_distinct(self@),
                forall|j: int| 0 <= j < i ==> self@[j].0 != k,
            decreases self.entries.len() - i,
        {
            if self.entries[i].0 == k {
                assert(self@[i as int].0 == k);
                assert(has_key(self@, k));
                return Some(i);
            }
            i = i + 1;
        }
        None
    }

    /// Whether `k` is a key.
    pub fn contains_key(&self, k: usize) -> (b: bool)
        ensures
            b == has_key(self@, k),
    {
        self.find(k).is_some()
    }

    /// The value stored under `k`.
    pub fn get(&self, k: usize) -> (r: Option<&V>)
        ensures
            match r {
                Some(v) => assoc_get(self@, k) == Some(v@),
                None => assoc_get(self@, k) is None,
            },
    {
        match self.find(k) {
            Some(i) => Some(&self.entries[i].1),
            None => None,
        }
    }

    /// Stores `v` under `k`, replacing an earlier value of that key.
    pub fn insert(&mut self, k: usize, v: V)
        ensures
            final(self)@ == assoc_insert(old(self)@, k, v@),
    {
        proof {
            use_type_invariant(&*self);
        }
        let ghost old_view = self@;
        let ghost vv = v@;
        let found = self.find(k);
        proof {
            lemma_insert_distinct(old_view, k, vv);
        }
        match found {
            Some(i) => {
                let mut entries = Vec::new();
                std::mem::swap(&mut entries, &mut self.entries);
                entries.set(i, (k, v));
                assert(entries@.map_values(|e: (usize, V)| (e.0, e.1@)) =~= assoc_insert(
                    old_view,
                    k,
                    vv,
                ));
                self.entries = entries;
            },
            None => {
                let mut entries = Vec::new();
                std::mem::swap(&mut entries, &mut self.entries);
                entries.push((k, v));
                assert(entries@.map_values(|e: (usize, V)| (e.0, e.1@)) =~= assoc_insert(
                    old_view,
                    k,
                    vv,
                ));
                self.entries = entries;
            },
        }
    }
}

/// Values keyed by name.
pub struct NamedMap<V: View> {
    entries: Vec<(String, V)>,
}

impl<V: View> View for NamedMap<V> {
    type V = Seq<(Seq<char>, V::V)>;

    closed spec fn view(&self) -> Seq<(Seq<char>, V::V)> {
        self.entries@.map_values(|e: (String, V)| (e.0@, e.1@))
    }
}

impl<V: View> NamedMap<V> {
    #[verifier::type_invariant]
    closed spec fn inv(&self) -> bool {
        keys_distinct(self@)
    }

    /// The empty map.
    pub fn new() -> (m: Self)
        ensures
            m@ == Seq::<(Seq<char>, V::V)>::empty(),
    {
        let m = NamedMap { entries: Vec::new() };
        assert(m@ =~= Seq::<(Seq<char>, V::V)>::empty());
        m
    }

    /// Number of keys.
    pub fn len(&self) -> (n: usize)
        ensures
            n == self@.len(),
    {
        self.entries.len()
    }

    /// Whether the map has no key.
    pub fn is_empty(&self) -> (b: bool)
        ensures
            b == (self@.len() == 0),
    {
        self.entries.len() == 0
    }

    /// The entries, in insertion order.
    pub fn entries(&self) -> (es: &Vec<(String, V)>)
        ensures
            es@.map_values(|e: (String, V)| (e.0@, e.1@)) == self@,
            keys_distinct(self@),
    {
        proof {
            use_type_invariant(self);
        }
        &self.entries
    }

    fn find(&self, k: &String) -> (r: Option<usize>)
        ensures
            match r {
                Some(i) => i < self@.len() && self@[i as int].0 == k@ && has_key(self@, k@)
                    && key_index(self@, k@) == i,
                None => !has_key(self@, k@),
            },
    {
        proof {
            use_type_invariant(self);
        }
        let mut i: usize = 0;
        while i < self.entries.len()
            invariant
                i <= self.entries@.len(),
                self@.len() == self.entries@.len(),
                keys_distinct(self@),
                forall|j: int| 0 <= j < i ==> self@[j].0 != k@,
            decreases self.entries.len() - i,
        {
            if self.entries[i].0 == *k {
                assert(self@[i as int].0 == k@);
                assert(has_key(self@, k@));
                return Some(i);
            }
            i = i + 1;
        }
        None
    }

    /// Whether `k` is a key.
    pub fn contains_key(&self, k: &str) -> (b: bool)
        ensures
            b == has_key(self@, k@),
    {
        let key = String::from_str(k);
        self.find(&key).is_some()
    }

    /// The value stored under `k`.
    pub fn get(&self, k: &str) -> (r: Option<&V>)
        ensures
            match r {
                Some(v) => assoc_get(self@, k@) == Some(v@),
                None => assoc_get(self@, k@) is None,
            },
    {
        let key = String::from_str(k);
        match self.find(&key) {
            Some(i) => Some(&self.entries[i].1),
            None => None,
        }
    }

    /// Stores `v` under `k`, replacing an earlier value of that key.
    pub fn insert(&mut self, k: String, v: V)
        ensures
            final(self)@ == assoc_insert(old(self)@, k@, v@),
    {
        proof {
            use_type_invariant(&*self);
        }
        let ghost old_view = self@;
        let ghost vv = v@;
        let ghost kv = k@;
        let found = self.find(&k);
        proof {
            lemma_insert_distinct(old_view, kv, vv);
        }
        match found {
            Some(i) => {
                let mut entries = Vec::new();
                std::mem::swap(&mut entries, &mut self.entries);
                entries.set(i, (k, v));
                assert(entries@.map_values(|e: (String, V)| (e.0@, e.1@)) =~= assoc_insert(
                    old_view,
                    kv,
                    vv,
                ));
                self.entries = entries;
            },
            None => {
                let mut entries = Vec::new();
                std::mem::swap(&mut entries, &mut self.entries);
                entries.push((k, v));
                assert(entries@.map_values(|e: (String, V)| (e.0@, e.1@)) =~= assoc_insert(
                    old_view,
                    kv,
                    vv,
                ));
                self.entries = entries;
            },
        }
    }
}

} // verus!
