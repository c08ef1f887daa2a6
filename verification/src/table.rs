//! Maps and sets over keys that can be compared for equality.
//!
//! Entries are kept in the order of their insertion. No key occurs twice: the invariant of
//! each type says so, and the view of each type is an unordered map or set.

use crate::hash::{ExecutionBlockHash, Hash256, PublicKeyBytes};
use vstd::prelude::*;

verus! {

/// A key: a plain value whose equality is equality of its bytes.
pub trait Key: Copy {
    /// Whether two keys are the same value.
    fn same(&self, other: &Self) -> (r: bool)
        ensures
            r == (*self == *other),
    ;
}

impl Key for Hash256 {
    fn same(&self, other: &Self) -> (r: bool) {
        self.equals(other)
    }
}

impl Key for ExecutionBlockHash {
    fn same(&self, other: &Self) -> (r: bool) {
        self.equals(other)
    }
}

impl Key for PublicKeyBytes {
    fn same(&self, other: &Self) -> (r: bool) {
        self.equals(other)
    }
}

impl Key for u64 {
    fn same(&self, other: &Self) -> (r: bool) {
        *self == *other
    }
}

impl Key for usize {
    fn same(&self, other: &Self) -> (r: bool) {
        *self == *other
    }
}

/// The first components of a sequence of pairs.
pub open spec fn firsts<K, V>(entries: Seq<(K, V)>) -> Seq<K> {
    entries.map_values(|e: (K, V)| e.0)
}

/// A map from keys to values.
#[derive(Debug)]
pub struct KeyedMap<K, V> {
    entries: Vec<(K, V)>,
}

impl<K, V> KeyedMap<K, V> {
    /// No key occurs twice.
    #[verifier::type_invariant]
    closed spec fn distinct(self) -> bool {
        firsts(self.entries@).no_duplicates()
    }
}

impl<K: Key, V: View> View for KeyedMap<K, V> {
    type V = Map<K, V::V>;

    closed spec fn view(&self) -> Map<K, V::V> {
        let keys = firsts(self.entries@);
        Map::new(
            |k: K| keys.contains(k),
            |k: K| self.entries@[keys.index_of(k)].1.view(),
        )
    }
}

/// What the entries of a map with distinct keys say about its view.
proof fn lemma_map_view<K: Key, V: View>(m: KeyedMap<K, V>)
    requires
        firsts(m.entries@).no_duplicates(),
    ensures
        m@.dom() == firsts(m.entries@).to_set(),
        m@.dom().finite(),
        m@.len() == m.entries@.len(),
        forall|i: int|
            0 <= i < m.entries@.len() ==> m@.dom().contains((#[trigger] m.entries@[i]).0)
                && m@[m.entries@[i].0] == m.entries@[i].1.view(),
{
    let keys = firsts(m.entries@);
    assert(m@.dom() =~= keys.to_set());
    keys.unique_seq_to_set();
    vstd::seq_lib::seq_to_set_is_finite(keys);
    assert forall|i: int| 0 <= i < m.entries@.len() implies m@.dom().contains(
        (#[trigger] m.entries@[i]).0,
    ) && m@[m.entries@[i].0] == m.entries@[i].1.view() by {
        let k = m.entries@[i].0;
        assert(keys[i] == k);
        assert(keys.contains(k));
        let j = keys.index_of(k);
        assert(keys[j] == k);
        assert(i == j);
    }
}

impl<K: Key, V: View> KeyedMap<K, V> {
    /// A map without entries.
    pub fn new() -> (r: Self)
        ensures
            r@ == Map::<K, V::V>::empty(),
    {
        let r = KeyedMap { entries: Vec::new() };
        assert(r@ =~= Map::<K, V::V>::empty());
        r
    }

    /// The number of entries.
    pub fn len(&self) -> (r: usize)
        ensures
            r == self@.len(),
            self@.dom().finite(),
    {
        proof {
            use_type_invariant(self);
            lemma_map_view(*self);
        }
        self.entries.len()
    }

    /// Whether there is no entry.
    pub fn is_empty(&self) -> (r: bool)
        ensures
            r == (self@ == Map::<K, V::V>::empty()),
    {
        let n = self.len();
        proof {
            use_type_invariant(self);
            lemma_map_view(*self);
            if n == 0 {
                assert(self@.dom() =~= Set::<K>::empty());
                assert(self@ =~= Map::<K, V::V>::empty());
            } else {
                assert(self@.dom().contains(self.entries@[0].0));
            }
        }
        n == 0
    }

    /// The index of the entry of `key`.
    fn position(&self, key: &K) -> (r: Option<usize>)
        ensures
            match r {
                Some(i) => i < self.entries@.len() && self.entries@[i as int].0 == *key
                    && self@.contains_key(*key) && self@[*key] == self.entries@[i as int].1.view(),
                None => !self@.contains_key(*key),
            },
    {
        proof {
            use_type_invariant(self);
            lemma_map_view(*self);
        }
        let mut i: usize = 0;
        while i < self.entries.len()
            invariant
                i <= self.entries@.len(),
                forall|j: int| 0 <= j < i ==> self.entries@[j].0 != *key,
            decreases self.entries@.len() - i,
        {
            if self.entries[i].0.same(key) {
                proof {
                    use_type_invariant(self);
                    lemma_map_view(*self);
                }
                return Some(i);
            }
            i = i + 1;
        }
        None
    }

    /// Whether `key` has an entry.
    pub fn contains_key(&self, key: &K) -> (r: bool)
        ensures
            r == self@.contains_key(*key),
    {
        self.position(key).is_some()
    }

    /// The value of `key`.
    pub fn get(&self, key: &K) -> (r: Option<&V>)
        ensures
            match r {
                Some(v) => self@.contains_key(*key) && self@[*key] == v.view(),
                None => !self@.contains_key(*key),
            },
    {
        match self.position(key) {
            Some(i) => Some(&self.entries[i].1),
            None => None,
        }
    }

    /// Takes the entry of `key` out of the map.
    pub fn remove(&mut self, key: &K) -> (r: Option<V>)
        ensures
            final(self)@ == old(self)@.remove(*key),
            match r {
                Some(v) => old(self)@.contains_key(*key) && old(self)@[*key] == v.view(),
                None => !old(self)@.contains_key(*key),
            },
    {
        match self.position(key) {
            Some(i) => {
                proof {
                    use_type_invariant(&*self);
                    lemma_map_view(*self);
                }
                let ghost before = *self;
                let mut entries: Vec<(K, V)> = Vec::new();
                std::mem::swap(&mut entries, &mut self.entries);
                let removed = entries.remove(i);
                proof {
                    assert forall|a: int, b: int|
                        0 <= a < entries@.len() && 0 <= b < entries@.len() && a != b implies firsts(
                        entries@,
                    )[a] != firsts(entries@)[b] by {
                        let a2 = if a < i { a } else { a + 1 };
                        let b2 = if b < i { b } else { b + 1 };
                        assert(firsts(before.entries@)[a2] != firsts(before.entries@)[b2]);
                    }
                }
                self.entries = entries;
                proof {
                    lemma_map_view(*self);
                    assert forall|k: K| self@.contains_key(k) == before@.remove(
                        *key,
                    ).contains_key(k) by {
                        if self@.contains_key(k) {
                            let j = firsts(self.entries@).index_of(k);
                            let j2 = if j < i { j } else { j + 1 };
                            assert(before.entries@[j2] == self.entries@[j]);
                            assert(firsts(before.entries@)[j2] != firsts(before.entries@)[i as int]);
                        }
                        if before@.contains_key(k) && k != *key {
                            let j = firsts(before.entries@).index_of(k);
                            let j2 = if j < i { j } else { j - 1 };
                            assert(before.entries@[j] == self.entries@[j2]);
                            assert(self@.contains_key(self.entries@[j2].0));
                        }
                    }
                    assert forall|k: K| #[trigger] self@.contains_key(k) implies self@[k]
                        == before@.remove(*key)[k] by {
                        let j = firsts(self.entries@).index_of(k);
                        assert(self.entries@[j].0 == k);
                        let j2 = if j < i { j } else { j + 1 };
                        assert(before.entries@[j2] == self.entries@[j]);
                        assert(firsts(before.entries@)[j2] != firsts(before.entries@)[i as int]);
                    }
                    assert(self@ =~= before@.remove(*key));
                }
                Some(removed.1)
            },
            None => {
                assert(self@ =~= self@.remove(*key));
                None
            },
        }
    }

    /// Sets the value of `key`, and hands back the value that it had.
    pub fn insert(&mut self, key: K, value: V) -> (r: Option<V>)
        ensures
            final(self)@ == old(self)@.insert(key, value.view()),
            match r {
                Some(v) => old(self)@.contains_key(key) && old(self)@[key] == v.view(),
                None => !old(self)@.contains_key(key),
            },
    {
        let ghost first = *self;
        let displaced = self.remove(&key);
        proof {
            use_type_invariant(&*self);
            lemma_map_view(*self);
        }
        let ghost before = *self;
        let mut entries: Vec<(K, V)> = Vec::new();
        std::mem::swap(&mut entries, &mut self.entries);
        entries.push((key, value));
        proof {
            assert forall|a: int, b: int|
                0 <= a < entries@.len() && 0 <= b < entries@.len() && a != b implies firsts(
                entries@,
            )[a] != firsts(entries@)[b] by {
                if a < before.entries@.len() {
                    assert(firsts(before.entries@)[a] == firsts(entries@)[a]);
                    assert(before@.contains_key(before.entries@[a].0));
                }
                if b < before.entries@.len() {
                    assert(firsts(before.entries@)[b] == firsts(entries@)[b]);
                    assert(before@.contains_key(before.entries@[b].0));
                }
            }
        }
        self.entries = entries;
        proof {
            lemma_map_view(*self);
            let last = self.entries@.len() - 1;
            assert(self.entries@[last] == (key, value));
            assert(self@ =~= before@.insert(key, value.view())) by {
                assert forall|k: K| self@.contains_key(k) == before@.insert(
                    key,
                    value.view(),
                ).contains_key(k) by {
                    if self@.contains_key(k) && k != key {
                        let j = firsts(self.entries@).index_of(k);
                        assert(self.entries@[j].0 == k);
                        assert(before.entries@[j] == self.entries@[j]);
                    }
                    if before@.contains_key(k) {
                        let j = firsts(before.entries@).index_of(k);
                        assert(before.entries@[j].0 == k);
                        assert(before.entries@[j] == self.entries@[j]);
                    }
                }
                assert forall|k: K| #[trigger] self@.contains_key(k) implies self@[k]
                    == before@.insert(key, value.view())[k] by {
                    let j = firsts(self.entries@).index_of(k);
                    assert(self.entries@[j].0 == k);
                    if k != key {
                        assert(before.entries@[j] == self.entries@[j]);
                    }
                }
            }
            assert(self@ =~= first@.insert(key, value.view()));
        }
        displaced
    }

    /// The keys, each once.
    pub fn keys(&self) -> (r: Vec<K>)
        ensures
            r@.no_duplicates(),
            r@.to_set() == self@.dom(),
            self@.dom().finite(),
    {
        proof {
            use_type_invariant(self);
            lemma_map_view(*self);
        }
        let mut r: Vec<K> = Vec::new();
        let mut i: usize = 0;
        while i < self.entries.len()
            invariant
                i <= self.entries@.len(),
                r@ == firsts(self.entries@).take(i as int),
            decreases self.entries@.len() - i,
        {
            r.push(self.entries[i].0);
            proof {
                assert(r@ =~= firsts(self.entries@).take(i + 1));
            }
            i = i + 1;
        }
        proof {
            use_type_invariant(self);
            assert(r@ =~= firsts(self.entries@));
        }
        r
    }
}

/// A set of keys.
#[derive(Debug)]
pub struct KeyedSet<K> {
    items: Vec<K>,
}

impl<K> KeyedSet<K> {
    /// No item occurs twice.
    #[verifier::type_invariant]
    closed spec fn distinct(self) -> bool {
        self.items@.no_duplicates()
    }
}

impl<K: Key> View for KeyedSet<K> {
    type V = Set<K>;

    closed spec fn view(&self) -> Set<K> {
        self.items@.to_set()
    }
}

impl<K: Key> KeyedSet<K> {
    /// The empty set.
    pub fn new() -> (r: Self)
        ensures
            r@ == Set::<K>::empty(),
    {
        let r = KeyedSet { items: Vec::new() };
        assert(r@ =~= Set::<K>::empty());
        r
    }

    /// The number of items.
    pub fn len(&self) -> (r: usize)
        ensures
            r == self@.len(),
            self@.finite(),
    {
        proof {
            use_type_invariant(self);
            self.items@.unique_seq_to_set();
            vstd::seq_lib::seq_to_set_is_finite(self.items@);
        }
        self.items.len()
    }

    /// Whether there is no item.
    pub fn is_empty(&self) -> (r: bool)
        ensures
            r == (self@ == Set::<K>::empty()),
    {
        let n = self.len();
        proof {
            use_type_invariant(self);
            self.items@.unique_seq_to_set();
            if n == 0 {
                assert(self@ =~= Set::<K>::empty());
            } else {
                assert(self@.contains(self.items@[0]));
            }
        }
        n == 0
    }

    /// The index of `key`.
    fn position(&self, key: &K) -> (r: Option<usize>)
        ensures
            match r {
                Some(i) => i < self.items@.len() && self.items@[i as int] == *key && self@.contains(
                    *key,
                ),
                None => !self@.contains(*key),
            },
    {
        let mut i: usize = 0;
        while i < self.items.len()
            invariant
                i <= self.items@.len(),
                forall|j: int| 0 <= j < i ==> self.items@[j] != *key,
            decreases self.items@.len() - i,
        {
            if self.items[i].same(key) {
                return Some(i);
            }
            i = i + 1;
        }
        None
    }

    /// Whether `key` is in the set.
    pub fn contains(&self, key: &K) -> (r: bool)
        ensures
            r == self@.contains(*key),
    {
        self.position(key).is_some()
    }

    /// Puts `key` into the set. Says whether it was not there before.
    pub fn insert(&mut self, key: K) -> (r: bool)
        ensures
            final(self)@ == old(self)@.insert(key),
            r == !old(self)@.contains(key),
    {
        if self.contains(&key) {
            assert(self@ =~= self@.insert(key));
            return false;
        }
        proof {
            use_type_invariant(&*self);
        }
        let ghost before = *self;
        let mut items: Vec<K> = Vec::new();
        std::mem::swap(&mut items, &mut self.items);
        items.push(key);
        proof {
            assert forall|a: int, b: int|
                0 <= a < items@.len() && 0 <= b < items@.len() && a != b implies items@[a]
                != items@[b] by {
                if a < before.items@.len() {
                    assert(before.items@.contains(before.items@[a]));
                }
                if b < before.items@.len() {
                    assert(before.items@.contains(before.items@[b]));
                }
            }
        }
        self.items = items;
        proof {
            before.items@.lemma_push_to_set_commute(key);
        }
        true
    }

    /// Takes `key` out of the set. Says whether it was there before.
    pub fn remove(&mut self, key: &K) -> (r: bool)
        ensures
            final(self)@ == old(self)@.remove(*key),
            r == old(self)@.contains(*key),
    {
        match self.position(key) {
            Some(i) => {
                proof {
                    use_type_invariant(&*self);
                }
                let ghost before = *self;
                let mut items: Vec<K> = Vec::new();
                std::mem::swap(&mut items, &mut self.items);
                items.remove(i);
                proof {
                    assert forall|a: int, b: int|
                        0 <= a < items@.len() && 0 <= b < items@.len() && a != b implies items@[a]
                        != items@[b] by {
                        let a2 = if a < i { a } else { a + 1 };
                        let b2 = if b < i { b } else { b + 1 };
                        assert(before.items@[a2] != before.items@[b2]);
                    }
                }
                self.items = items;
                proof {
                    assert forall|k: K| self@.contains(k) == before@.remove(*key).contains(k) by {
                        if self@.contains(k) {
                            let j = self.items@.index_of(k);
                            let j2 = if j < i { j } else { j + 1 };
                            assert(before.items@[j2] == k);
                            assert(before.items@[j2] != before.items@[i as int]);
                        }
                        if before@.contains(k) && k != *key {
                            let j = before.items@.index_of(k);
                            let j2 = if j < i { j } else { j - 1 };
                            assert(self.items@[j2] == k);
                        }
                    }
                    assert(self@ =~= before@.remove(*key));
                }
                true
            },
            None => {
                assert(self@ =~= self@.remove(*key));
                false
            },
        }
    }

    /// The items, each once.
    pub fn items(&self) -> (r: Vec<K>)
        ensures
            r@.no_duplicates(),
            r@.to_set() == self@,
            self@.finite(),
    {
        let mut r: Vec<K> = Vec::new();
        let mut i: usize = 0;
        while i < self.items.len()
            invariant
                i <= self.items@.len(),
                r@ == self.items@.take(i as int),
            decreases self.items@.len() - i,
        {
            r.push(self.items[i]);
            proof {
                assert(r@ =~= self.items@.take(i + 1));
            }
            i = i + 1;
        }
        proof {
            use_type_invariant(self);
            assert(r@ =~= self.items@);
            vstd::seq_lib::seq_to_set_is_finite(self.items@);
        }
        r
    }
}

} // verus!
