//! The store: one ordered key-value map per ledger, with point reads and an
//! atomic read-modify-write primitive that commits only on success.
use crate::error::Error;
use std::collections::BTreeMap;
use vstd::laws_cmp::obeys_cmp;
use vstd::prelude::*;

verus! {

broadcast use vstd::std_specs::btree::group_btree_axioms;

/// A map from keys to values. An absent key stands for the ledger's
/// default value.
pub struct StorageMap<K, V> {
    map: BTreeMap<K, V>,
}

impl<K, V> View for StorageMap<K, V> {
    type V = Map<K, V>;

    closed spec fn view(&self) -> Map<K, V> {
        self.map@
    }
}

impl<K: Ord + Copy, V> StorageMap<K, V> {
    /// An empty map.
    pub fn new() -> (r: Self)
        ensures
            r@ == Map::<K, V>::empty(),
    {
        StorageMap { map: BTreeMap::new() }
    }

    /// A map holding exactly the entries of `map`.
    pub fn from_map(map: BTreeMap<K, V>) -> (r: Self)
        ensures
            r@ == map@,
    {
        StorageMap { map }
    }

    /// The underlying ordered map.
    pub fn as_map(&self) -> (r: &BTreeMap<K, V>)
        ensures
            r@ == self@,
    {
        &self.map
    }

    /// Whether `key` has an entry.
    pub fn contains_key(&self, key: K) -> (r: bool)
        requires
            obeys_cmp::<K>(),
        ensures
            r == self@.contains_key(key),
    {
        self.map.contains_key(&key)
    }

    /// The entry of `key`, borrowed.
    pub fn get_ref(&self, key: K) -> (r: Option<&V>)
        requires
            obeys_cmp::<K>(),
        ensures
            match r {
                Some(v) => self@.contains_key(key) && *v == self@[key],
                None => !self@.contains_key(key),
            },
    {
        self.map.get(&key)
    }

    /// Sets the entry of `key` to `value`.
    pub fn insert(&mut self, key: K, value: V)
        requires
            obeys_cmp::<K>(),
        ensures
            final(self)@ == old(self)@.insert(key, value),
    {
        self.map.insert(key, value);
    }
}

impl<K: Ord + Copy, V: Copy> StorageMap<K, V> {
    /// The entry of `key`, if any.
    pub fn get(&self, key: K) -> (r: Option<V>)
        requires
            obeys_cmp::<K>(),
        ensures
            r == self@.get(key),
    {
        match self.map.get(&key) {
            Some(v) => Some(*v),
            None => None,
        }
    }

    /// Reads the entry of `key` (or its absence), hands it to `f`, and
    /// writes the value that `f` returns only if `f` succeeds; on failure
    /// the map is left as it was. What `f` returns beside the value is
    /// passed back.
    pub fn try_mutate<T, F>(&mut self, key: K, f: F) -> (r: Result<T, Error>) where
        F: FnOnce(Option<V>) -> Result<(V, T), Error>,

        requires
            obeys_cmp::<K>(),
            f.requires((old(self)@.get(key),)),
        ensures
            exists|out: Result<(V, T), Error>|
                {
                    &&& #[trigger] f.ensures((old(self)@.get(key),), out)
                    &&& match out {
                        Ok((v, t)) => r == Ok::<T, Error>(t) && final(self)@ == old(self)@.insert(
                            key,
                            v,
                        ),
                        Err(e) => r == Err::<T, Error>(e) && final(self)@ == old(self)@,
                    }
                },
    {
        let current = self.get(key);
        match f(current) {
            Ok((v, t)) => {
                self.map.insert(key, v);
                Ok(t)
            },
            Err(e) => Err(e),
        }
    }
}

} // verus!
