//! A map keyed by strings that remembers the order in which keys were first
//! inserted.
use vstd::prelude::*;

use crate::text::str_eq;

verus! {

/// A map from string keys to values. Keys are distinct; iteration follows
/// the order in which keys were first inserted.
#[derive(Debug)]
pub struct StrMap<T> {
    entries: Vec<(String, T)>,
}

/// The map from each key to the value at the key's first position.
pub open spec fn map_of<T>(ks: Seq<Seq<char>>, vs: Seq<T>) -> Map<Seq<char>, T> {
    Map::new(|k: Seq<char>| ks.contains(k), |k: Seq<char>| vs[crate::dag::index_in(ks, k)])
}

proof fn lemma_map_of_push<T>(ks: Seq<Seq<char>>, vs: Seq<T>, k: Seq<char>, v: T)
    requires
        !ks.contains(k),
        ks.len() == vs.len(),
    ensures
        map_of(ks.push(k), vs.push(v)) == map_of(ks, vs).insert(k, v),
{
    let ks2 = ks.push(k);
    assert forall|x: Seq<char>| #[trigger] ks2.contains(x) <==> (ks.contains(x) || x == k) by {
        if ks2.contains(x) {
            let j = choose|j: int| 0 <= j < ks2.len() && ks2[j] == x;
            if j < ks.len() {
                assert(ks[j] == x);
            }
        }
        if ks.contains(x) {
            let j = choose|j: int| 0 <= j < ks.len() && ks[j] == x;
            assert(ks2[j] == x);
        }
        if x == k {
            assert(ks2[ks.len() as int] == x);
        }
    }
    assert forall|x: Seq<char>| ks2.contains(x) implies #[trigger] vs.push(v)[crate::dag::index_in(ks2, x)]
        == map_of(ks, vs).insert(k, v)[x] by {
        crate::dag::lemma_index_in(ks2, x);
        crate::dag::lemma_index_in(ks, x);
        let i2 = crate::dag::index_in(ks2, x);
        let i1 = crate::dag::index_in(ks, x);
        if x == k {
            if i2 < ks.len() {
                assert(ks[i2] == k);
            }
        } else {
            assert(ks.contains(x));
            if i2 < i1 {
                assert(ks[i2] == x);
            }
            if i1 < i2 {
                assert(ks2[i1] == x);
            }
        }
    }
    assert(map_of(ks2, vs.push(v)) =~= map_of(ks, vs).insert(k, v));
}

proof fn lemma_map_of_update<T>(ks: Seq<Seq<char>>, vs: Seq<T>, k: Seq<char>, v: T)
    requires
        ks.contains(k),
        ks.len() == vs.len(),
    ensures
        map_of(ks, vs.update(crate::dag::index_in(ks, k), v)) == map_of(ks, vs).insert(k, v),
{
    crate::dag::lemma_index_in(ks, k);
    let i = crate::dag::index_in(ks, k);
    assert forall|x: Seq<char>| ks.contains(x) implies #[trigger] vs.update(i, v)[crate::dag::index_in(ks, x)]
        == map_of(ks, vs).insert(k, v)[x] by {
        crate::dag::lemma_index_in(ks, x);
    }
    assert(map_of(ks, vs.update(i, v)) =~= map_of(ks, vs).insert(k, v));
}

impl<T> StrMap<T> {
    /// The keys, in insertion order.
    pub closed spec fn keys(&self) -> Seq<Seq<char>> {
        self.entries@.map_values(|e: (String, T)| e.0@)
    }

    /// The values, in the order of their keys.
    pub closed spec fn values(&self) -> Seq<T> {
        self.entries@.map_values(|e: (String, T)| e.1)
    }

    #[verifier::type_invariant]
    closed spec fn inv(&self) -> bool {
        self.keys().no_duplicates()
    }

    /// The map that the entries stand for.
    pub open spec fn as_map(&self) -> Map<Seq<char>, T> {
        map_of(self.keys(), self.values())
    }

    /// Keys are distinct and each has one value.
    pub fn keys_distinct(&self)
        ensures
            self.keys().no_duplicates(),
            self.keys().len() == self.values().len(),
    {
        proof {
            use_type_invariant(self);
        }
    }

    /// An empty map.
    pub fn new() -> (m: Self)
        ensures
            m.keys() == Seq::<Seq<char>>::empty(),
            m.values() == Seq::<T>::empty(),
            m.as_map() == Map::<Seq<char>, T>::empty(),
    {
        let m = StrMap { entries: Vec::new() };
        assert(m.keys() =~= Seq::<Seq<char>>::empty());
        assert(m.values() =~= Seq::<T>::empty());
        assert(m.as_map() =~= Map::<Seq<char>, T>::empty());
        m
    }

    /// Number of entries.
    pub fn len(&self) -> (n: usize)
        ensures
            n == self.keys().len(),
    {
        self.entries.len()
    }

    /// Whether the map has no entries.
    pub fn is_empty(&self) -> (b: bool)
        ensures
            b == (self.keys().len() == 0),
    {
        self.entries.len() == 0
    }

    /// The position of a key.
    pub fn position(&self, key: &str) -> (r: Option<usize>)
        ensures
            r is Some <==> self.keys().contains(key@),
            r matches Some(i) ==> i < self.keys().len() && self.keys()[i as int] == key@
                && i == crate::dag::index_in(self.keys(), key@),
    {
        proof {
            crate::dag::lemma_index_in(self.keys(), key@);
        }
        let mut i: usize = 0;
        while i < self.entries.len()
            invariant
                i <= self.entries@.len(),
                self.keys().len() == self.entries@.len(),
                forall|j: int| 0 <= j < i ==> self.keys()[j] != key@,
            decreases self.entries@.len() - i,
        {
            if str_eq(self.entries[i].0.as_str(), key) {
                assert(self.keys()[i as int] == key@);
                assert(self.keys().contains(key@));
                proof {
                    crate::dag::lemma_index_in(self.keys(), key@);
                    let x = crate::dag::index_in(self.keys(), key@);
                    if x < i {
                        assert(self.keys()[x] == key@);
                    }
                    if x > i {
                        assert(self.keys()[i as int] != key@);
                    }
                }
                return Some(i);
            }
            i = i + 1;
        }
        None
    }

    /// Whether the key is present.
    pub fn contains_key(&self, key: &str) -> (b: bool)
        ensures
            b == self.keys().contains(key@),
    {
        self.position(key).is_some()
    }

    /// The value stored under a key.
    pub fn get(&self, key: &str) -> (r: Option<&T>)
        ensures
            r is Some <==> self.keys().contains(key@),
            r matches Some(v) ==> *v == self.values()[crate::dag::index_in(self.keys(), key@)],
    {
        match self.position(key) {
            Some(i) => Some(&self.entries[i].1),
            None => None,
        }
    }

    /// The key at a position.
    pub fn key_at(&self, i: usize) -> (k: &String)
        requires
            i < self.keys().len(),
        ensures
            k@ == self.keys()[i as int],
    {
        &self.entries[i].0
    }

    /// The value at a position.
    pub fn value_at(&self, i: usize) -> (v: &T)
        requires
            i < self.keys().len(),
        ensures
            *v == self.values()[i as int],
    {
        &self.entries[i].1
    }

    /// Stores a value under a key: an existing key keeps its position and
    /// gets the new value; a new key goes last. Returns the value it replaced.
    pub fn insert(&mut self, key: String, value: T) -> (old_v: Option<T>)
        ensures
            old(self).keys().contains(key@) ==> {
                let i = crate::dag::index_in(old(self).keys(), key@);
                &&& final(self).keys() == old(self).keys()
                &&& final(self).values() == old(self).values().update(i, value)
                &&& old_v == Some(old(self).values()[i])
            },
            !old(self).keys().contains(key@) ==> {
                &&& final(self).keys() == old(self).keys().push(key@)
                &&& final(self).values() == old(self).values().push(value)
                &&& old_v is None
            },
            final(self).as_map() == old(self).as_map().insert(key@, value),
    {
        proof {
            use_type_invariant(&*self);
        }
        match self.position(key.as_str()) {
            Some(i) => {
                let ghost old_entries = self.entries@;
                let mut es: Vec<(String, T)> = Vec::new();
                std::mem::swap(&mut es, &mut self.entries);
                let (k, v) = es.remove(i);
                es.insert(i, (k, value));
                proof {
                    assert(es@ =~= old_entries.update(i as int, (k, value)));
                    assert(es@.map_values(|e: (String, T)| e.0@) =~= old(self).keys());
                }
                self.entries = es;
                proof {
                    assert(self.keys() =~= old(self).keys());
                    assert(self.values() =~= old(self).values().update(i as int, value));
                }
                proof {
                    lemma_map_of_update(old(self).keys(), old(self).values(), key@, value);
                }
                Some(v)
            },
            None => {
                let ghost old_entries = self.entries@;
                let mut es: Vec<(String, T)> = Vec::new();
                std::mem::swap(&mut es, &mut self.entries);
                es.push((key, value));
                proof {
                    let ks = es@.map_values(|e: (String, T)| e.0@);
                    assert(ks =~= old(self).keys().push(key@));
                    assert forall|a: int, b: int| 0 <= a < ks.len() && 0 <= b < ks.len() && a != b
                        implies ks[a] != ks[b] by {
                        if a < ks.len() - 1 && b < ks.len() - 1 {
                            assert(ks[a] == old(self).keys()[a]);
                            assert(ks[b] == old(self).keys()[b]);
                        } else if a < ks.len() - 1 {
                            assert(old(self).keys().contains(ks[a]));
                        } else if b < ks.len() - 1 {
                            assert(old(self).keys().contains(ks[b]));
                        }
                    }
                }
                self.entries = es;
                proof {
                    assert(self.keys() =~= old(self).keys().push(key@));
                    assert(self.values() =~= old(self).values().push(value));
                    let ks = self.keys();
                    assert forall|a: int, b: int| 0 <= a < ks.len() && 0 <= b < ks.len() && a != b
                        implies ks[a] != ks[b] by {
                        if a < ks.len() - 1 && b < ks.len() - 1 {
                            assert(ks[a] == old(self).keys()[a]);
                            assert(ks[b] == old(self).keys()[b]);
                        } else if a < ks.len() - 1 {
                            assert(old(self).keys().contains(ks[a]));
                        } else if b < ks.len() - 1 {
                            assert(old(self).keys().contains(ks[b]));
                        }
                    }
                    lemma_map_of_push(old(self).keys(), old(self).values(), key@, value);
                }
                None
            },
        }
    }

    /// Stores a value under a key only when the key is absent
    /// (`entry(key).or_insert(value)`).
    pub fn insert_if_absent(&mut self, key: String, value: T)
        ensures
            old(self).keys().contains(key@) ==> {
                &&& final(self).keys() == old(self).keys()
                &&& final(self).values() == old(self).values()
            },
            !old(self).keys().contains(key@) ==> {
                &&& final(self).keys() == old(self).keys().push(key@)
                &&& final(self).values() == old(self).values().push(value)
            },
            final(self).as_map() == (if old(self).as_map().dom().contains(key@) {
                old(self).as_map()
            } else {
                old(self).as_map().insert(key@, value)
            }),
    {
        if !self.contains_key(key.as_str()) {
            let _ = self.insert(key, value);
        }
    }

    /// The entries, in insertion order.
    pub fn into_entries(self) -> (v: Vec<(String, T)>)
        ensures
            v@.map_values(|e: (String, T)| e.0@) == self.keys(),
            v@.map_values(|e: (String, T)| e.1) == self.values(),
    {
        self.entries
    }
}

impl<T> StrMap<T> {
    /// A copy made with `copy` applied to each value; same keys, same order.
    pub fn copied<F: Fn(&T) -> T>(&self, copy: F) -> (r: StrMap<T>)
        requires
            forall|t: &T| #[trigger] copy.requires((t,)),
        ensures
            r.keys() == self.keys(),
            r.values().len() == self.values().len(),
            forall|i: int| 0 <= i < self.values().len() ==> copy.ensures((&self.values()[i],), #[trigger] r.values()[i]),
    {
        proof {
            use_type_invariant(self);
        }
        let mut es: Vec<(String, T)> = Vec::new();
        let mut i: usize = 0;
        while i < self.entries.len()
            invariant
                i <= self.entries@.len(),
                self.keys().no_duplicates(),
                forall|t: &T| #[trigger] copy.requires((t,)),
                es@.len() == i,
                es@.map_values(|e: (String, T)| e.0@) == self.keys().take(i as int),
                forall|j: int| 0 <= j < i ==> copy.ensures((&self.entries@[j].1,), #[trigger] es@[j].1),
            decreases self.entries@.len() - i,
        {
            let k = self.entries[i].0.clone();
            let v = copy(&self.entries[i].1);
            proof {
                assert(self.keys()[i as int] == self.entries@[i as int].0@);
                assert(es@.push((k, v)).map_values(|e: (String, T)| e.0@) =~= es@.map_values(
                    |e: (String, T)| e.0@,
                ).push(k@));
                assert(self.keys().take(i + 1) =~= self.keys().take(i as int).push(self.keys()[i as int]));
            }
            es.push((k, v));
            i = i + 1;
        }
        proof {
            assert(self.keys().take(self.entries@.len() as int) =~= self.keys());
        }
        let r = StrMap { entries: es };
        proof {
            assert forall|i: int| 0 <= i < self.values().len() implies copy.ensures(
                (&self.values()[i],),
                #[trigger] r.values()[i],
            ) by {
                assert(self.values()[i] == self.entries@[i].1);
                assert(r.values()[i] == r.entries@[i].1);
            }
        }
        r
    }
}

impl<T: Clone> Clone for StrMap<T> {
    /// A copy with the same keys, in the same order, and clones of the values.
    fn clone(&self) -> (r: Self)
        ensures
            r.keys() == self.keys(),
    {
        proof {
            use_type_invariant(self);
        }
        let mut es: Vec<(String, T)> = Vec::new();
        let mut i: usize = 0;
        while i < self.entries.len()
            invariant
                i <= self.entries@.len(),
                self.keys().no_duplicates(),
                es@.map_values(|e: (String, T)| e.0@) == self.keys().take(i as int),
            decreases self.entries@.len() - i,
        {
            let k = self.entries[i].0.clone();
            let v = self.entries[i].1.clone();
            proof {
                assert(self.keys()[i as int] == self.entries@[i as int].0@);
                assert(k@ == self.keys()[i as int]);
                assert(es@.push((k, v)).map_values(|e: (String, T)| e.0@) =~= es@.map_values(
                    |e: (String, T)| e.0@,
                ).push(k@));
                assert(self.keys().take(i + 1) =~= self.keys().take(i as int).push(self.keys()[i as int]));
            }
            es.push((k, v));
            i = i + 1;
        }
        proof {
            assert(self.keys().take(self.entries@.len() as int) =~= self.keys());
        }
        StrMap { entries: es }
    }
}

} // verus!
