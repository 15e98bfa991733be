//! A map from strings to values that keeps its entries in the order in which
//! their keys first came.

use vstd::prelude::*;

verus! {

/// The keys of a sequence of entries.
spec fn keys_of<T>(entries: Seq<(String, T)>) -> Seq<Seq<char>> {
    Seq::new(entries.len(), |i: int| entries[i].0@)
}

/// The values of a sequence of entries.
spec fn values_of<T>(entries: Seq<(String, T)>) -> Seq<T> {
    Seq::new(entries.len(), |i: int| entries[i].1)
}

/// The keys once `key` has come: as they were where it is one of them, and
/// with it as the last where it is not.
pub open spec fn keys_after(keys: Seq<Seq<char>>, key: Seq<char>) -> Seq<Seq<char>> {
    if keys.contains(key) {
        keys
    } else {
        keys.push(key)
    }
}

/// Those of the keys that the map does not hold, in their order.
pub open spec fn keys_not_in<T>(keys: Seq<Seq<char>>, held: Map<Seq<char>, T>) -> Seq<Seq<char>>
    decreases keys.len(),
{
    if keys.len() == 0 {
        keys
    } else if held.contains_key(keys.last()) {
        keys_not_in(keys.drop_last(), held)
    } else {
        keys_not_in(keys.drop_last(), held).push(keys.last())
    }
}

/// Whether `key` is one of the first `n` keys.
pub open spec fn among_first(keys: Seq<Seq<char>>, n: int, key: Seq<char>) -> bool {
    keys.take(n).contains(key)
}

/// What the first `i + 1` of distinct keys are beside the first `i`: those,
/// and the key at `i`, which is none of them.
pub proof fn lemma_next_key(keys: Seq<Seq<char>>, i: int)
    requires
        0 <= i < keys.len(),
        keys.no_duplicates(),
    ensures
        keys.take(i + 1) == keys.take(i).push(keys[i]),
        keys.take(i + 1).drop_last() == keys.take(i),
        keys.take(i + 1).last() == keys[i],
        !among_first(keys, i, keys[i]),
        forall|k: Seq<char>|
            #[trigger] among_first(keys, i + 1, k) <==> among_first(keys, i, k) || k == keys[i],
{
    assert(keys.take(i + 1) =~= keys.take(i).push(keys[i]));
    assert(keys.take(i + 1).drop_last() =~= keys.take(i));
    if keys.take(i).contains(keys[i]) {
        let j = keys.take(i).index_of(keys[i]);
        assert(keys[j] == keys[i]);
    }
    assert forall|k: Seq<char>| #[trigger]
        among_first(keys, i + 1, k) <==> among_first(keys, i, k) || k == keys[i] by {
        assert(keys.take(i + 1)[i] == keys[i]);
        if keys.take(i).contains(k) {
            let j = keys.take(i).index_of(k);
            assert(keys.take(i + 1)[j] == k);
        }
        if keys.take(i + 1).contains(k) {
            let j = keys.take(i + 1).index_of(k);
            if j < i {
                assert(keys.take(i)[j] == k);
            }
        }
    }
}

/// A finite map keyed by strings. No key occurs twice; a key that is
/// inserted again keeps its place and takes the new value.
#[derive(Debug)]
pub struct StringMap<T> {
    entries: Vec<(String, T)>,
}

impl<T> View for StringMap<T> {
    type V = Map<Seq<char>, T>;

    closed spec fn view(&self) -> Map<Seq<char>, T> {
        Map::new(
            |k: Seq<char>| self.keys().contains(k),
            |k: Seq<char>| self.entries@[self.keys().index_of(k)].1,
        )
    }
}

impl<T> StringMap<T> {
    /// No key occurs twice.
    #[verifier::type_invariant]
    spec fn distinct(self) -> bool {
        self.keys().no_duplicates()
    }

    /// The keys in the order in which they first came.
    pub closed spec fn keys(self) -> Seq<Seq<char>> {
        keys_of(self.entries@)
    }

    /// The values in the order of their keys.
    pub closed spec fn values(self) -> Seq<T> {
        values_of(self.entries@)
    }

    /// What the ordered entries have to do with the map: the keys are the
    /// map's domain, each once, and each value stands at its key's place.
    pub proof fn lemma_entries(self)
        requires
            self.keys().no_duplicates(),
        ensures
            self.keys().len() == self.values().len(),
            self@.dom() == self.keys().to_set(),
            self@.dom().finite(),
            self@.dom().len() == self.keys().len(),
            forall|i: int|
                0 <= i < self.keys().len() ==> self@.contains_key(#[trigger] self.keys()[i])
                    && self@[self.keys()[i]] == self.values()[i],
    {
        let keys = self.keys();
        assert(self@.dom() =~= keys.to_set());
        keys.unique_seq_to_set();
        assert forall|i: int| 0 <= i < keys.len() implies self@.contains_key(
            #[trigger] keys[i],
        ) && self@[keys[i]] == self.values()[i] by {
            let j = keys.index_of(keys[i]);
            assert(keys.contains(keys[i]));
            assert(j == i);
        }
    }

    /// The empty map.
    pub fn new() -> (map: StringMap<T>)
        ensures
            map@ == Map::<Seq<char>, T>::empty(),
            map.keys() == Seq::<Seq<char>>::empty(),
    {
        let map = StringMap { entries: Vec::new() };
        assert(map.keys() =~= Seq::<Seq<char>>::empty());
        assert(map@ =~= Map::<Seq<char>, T>::empty());
        map
    }

    /// The number of keys.
    pub fn len(&self) -> (n: usize)
        ensures
            n == self@.dom().len(),
            n == self.keys().len(),
            self@.dom().finite(),
            self.keys().no_duplicates(),
            self.keys().to_set() == self@.dom(),
    {
        proof {
            use_type_invariant(self);
            self.lemma_entries();
        }
        self.entries.len()
    }

    /// The place of `key` among the keys, where it is one.
    fn position(&self, key: &String) -> (r: Option<usize>)
        ensures
            match r {
                Some(i) => i < self.keys().len() && self.keys()[i as int] == key@,
                None => !self.keys().contains(key@),
            },
    {
        let mut i: usize = 0;
        while i < self.entries.len()
            invariant
                i <= self.entries.len(),
                forall|j: int| 0 <= j < i ==> self.keys()[j] != key@,
            decreases self.entries.len() - i,
        {
            if self.entries[i].0 == *key {
                return Some(i);
            }
            i = i + 1;
        }
        None
    }

    /// The value under `key`, where the map holds the key.
    pub fn get(&self, key: &str) -> (r: Option<&T>)
        ensures
            match r {
                Some(value) => self@.contains_key(key@) && *value == self@[key@],
                None => !self@.contains_key(key@),
            },
    {
        proof {
            use_type_invariant(self);
            self.lemma_entries();
        }
        let owned = key.to_owned();
        match self.position(&owned) {
            Some(i) => Some(&self.entries[i].1),
            None => None,
        }
    }

    /// Whether the map holds `key`.
    pub fn contains_key(&self, key: &str) -> (b: bool)
        ensures
            b == self@.contains_key(key@),
    {
        self.get(key).is_some()
    }

    /// The key at place `i` in the order in which the keys first came.
    pub fn key_at(&self, i: usize) -> (key: &String)
        requires
            i < self.keys().len(),
        ensures
            key@ == self.keys()[i as int],
            self@.contains_key(key@),
    {
        proof {
            use_type_invariant(self);
            self.lemma_entries();
            assert(self@.contains_key(self.keys()[i as int]));
        }
        &self.entries[i].0
    }

    /// The value at place `i` in the order in which the keys first came.
    pub fn value_at(&self, i: usize) -> (value: &T)
        requires
            i < self.keys().len(),
        ensures
            *value == self.values()[i as int],
            *value == self@[self.keys()[i as int]],
    {
        proof {
            use_type_invariant(self);
            self.lemma_entries();
            assert(self@[self.keys()[i as int]] == self.values()[i as int]);
        }
        &self.entries[i].1
    }

    /// The map with `value` under `key`. A key that the map holds keeps its
    /// place; a new key comes last.
    pub fn insert(self, key: String, value: T) -> (map: StringMap<T>)
        ensures
            map@ == self@.insert(key@, value),
            map.keys() == keys_after(self.keys(), key@),
            self.keys().contains(key@) <==> self@.contains_key(key@),
            self@.contains_key(key@) ==> map.values() == self.values().update(
                self.keys().index_of(key@),
                value,
            ),
            !self@.contains_key(key@) ==> map.values() == self.values().push(value),
    {
        proof {
            use_type_invariant(&self);
            self.lemma_entries();
        }
        let found = self.position(&key);
        let mut entries = self.entries;
        match found {
            Some(i) => {
                entries.set(i, (key, value));
                proof {
                    assert(keys_of(entries@) =~= self.keys());
                    assert(values_of(entries@) =~= self.values().update(i as int, value));
                }
                let map = StringMap { entries };
                proof {
                    assert(self.keys().index_of(key@) == i as int);
                    map.lemma_entries();
                    assert forall|k: Seq<char>| #[trigger]
                        self@.insert(key@, value).contains_key(k) implies map@.contains_key(k)
                        && map@[k] == self@.insert(key@, value)[k] by {
                        let j = self.keys().index_of(k);
                        assert(self.keys().contains(k));
                        assert(map.keys()[j] == k);
                    }
                    assert(map@ =~= self@.insert(key@, value));
                }
                map
            },
            None => {
                entries.push((key, value));
                proof {
                    assert(keys_of(entries@) =~= self.keys().push(key@));
                    assert(values_of(entries@) =~= self.values().push(value));
                }
                let map = StringMap { entries };
                proof {
                    map.lemma_entries();
                    assert(map.keys()[self.keys().len() as int] == key@);
                    assert forall|k: Seq<char>| #[trigger]
                        self@.insert(key@, value).contains_key(k) implies map@.contains_key(k)
                        && map@[k] == self@.insert(key@, value)[k] by {
                        if k != key@ {
                            let j = self.keys().index_of(k);
                            assert(self.keys().contains(k));
                            assert(map.keys()[j] == k);
                        }
                    }
                    assert forall|k: Seq<char>| #[trigger] map@.contains_key(k) implies self@.insert(
                        key@,
                        value,
                    ).contains_key(k) by {
                        let j = map.keys().index_of(k);
                        assert(map.keys().contains(k));
                        if j < self.keys().len() {
                            assert(self.keys()[j] == k);
                        }
                    }
                    assert(map@ =~= self@.insert(key@, value));
                }
                map
            },
        }
    }
}

} // verus!
