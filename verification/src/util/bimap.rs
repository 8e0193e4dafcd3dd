//! A map that can be read in both directions.

use std::collections::HashMap;
use std::hash::Hash;
use vstd::prelude::*;
use vstd::std_specs::hash::{group_hash_axioms, obeys_key_model};

verus! {

broadcast use group_hash_axioms;

/// Two hash maps kept side by side: one from keys to values, one from values
/// to keys.
///
/// `insert` writes the pair into both maps and removes nothing, so inserting
/// a key or a value that is already present leaves an old pair in one of the
/// maps. As long as only new keys and new values are inserted the two maps
/// are inverse to each other; see [`BiMap::consistent`].
///
/// The contracts hold for key and value types whose hashing and equality
/// agree with each other, which `obeys_key_model` states; the integer types
/// do.
pub struct BiMap<K, V> {
    fwd: HashMap<K, V>,
    bwd: HashMap<V, K>,
}

impl<K: Copy + Hash + Eq, V: Copy + Hash + Eq> BiMap<K, V> {
    /// The map from keys to values.
    pub closed spec fn forward(&self) -> Map<K, V> {
        self.fwd@
    }

    /// The map from values to keys.
    pub closed spec fn backward(&self) -> Map<V, K> {
        self.bwd@
    }

    /// The two maps are inverse to each other.
    pub open spec fn consistent(&self) -> bool {
        &&& forall|k: K| #[trigger]
            self.forward().contains_key(k) ==> self.backward().contains_key(self.forward()[k])
                && self.backward()[self.forward()[k]] == k
        &&& forall|v: V| #[trigger]
            self.backward().contains_key(v) ==> self.forward().contains_key(self.backward()[v])
                && self.forward()[self.backward()[v]] == v
    }

    /// Create a new instance.
    pub fn new() -> (map: Self)
        ensures
            map.forward() == Map::<K, V>::empty(),
            map.backward() == Map::<V, K>::empty(),
            map.consistent(),
    {
        BiMap { fwd: HashMap::new(), bwd: HashMap::new() }
    }

    /// Removes every pair.
    pub fn clear(&mut self)
        ensures
            final(self).forward() == Map::<K, V>::empty(),
            final(self).backward() == Map::<V, K>::empty(),
            final(self).consistent(),
    {
        self.fwd.clear();
        self.bwd.clear();
    }

    /// The number of keys.
    pub fn len(&self) -> (n: usize)
        requires
            obeys_key_model::<K>(),
        ensures
            n == self.forward().len(),
    {
        self.fwd.len()
    }

    /// Maps `key` to `value` and `value` to `key`. Pairs that held `key` or
    /// `value` before are overwritten in one map only.
    pub fn insert(&mut self, key: K, value: V)
        requires
            obeys_key_model::<K>(),
            obeys_key_model::<V>(),
        ensures
            final(self).forward() == old(self).forward().insert(key, value),
            final(self).backward() == old(self).backward().insert(value, key),
            old(self).consistent() && !old(self).forward().contains_key(key) && !old(
                self,
            ).backward().contains_key(value) ==> final(self).consistent(),
    {
        self.fwd.insert(key, value);
        self.bwd.insert(value, key);
    }

    /// Removes `key` and the value it maps to, and returns that value.
    ///
    /// The value of a present key must be present in the other direction, as
    /// it is in a consistent map.
    pub fn remove_key(&mut self, key: &K) -> (removed: Option<V>)
        requires
            obeys_key_model::<K>(),
            obeys_key_model::<V>(),
            old(self).forward().contains_key(*key) ==> old(self).backward().contains_key(
                old(self).forward()[*key],
            ),
        ensures
            match removed {
                Some(v) => {
                    &&& old(self).forward().contains_key(*key)
                    &&& v == old(self).forward()[*key]
                    &&& final(self).forward() == old(self).forward().remove(*key)
                    &&& final(self).backward() == old(self).backward().remove(v)
                },
                None => {
                    &&& !old(self).forward().contains_key(*key)
                    &&& final(self).forward() == old(self).forward()
                    &&& final(self).backward() == old(self).backward()
                },
            },
            old(self).consistent() ==> final(self).consistent(),
    {
        match self.fwd.remove(key) {
            Some(v) => {
                self.bwd.remove(&v);
                Some(v)
            },
            None => None,
        }
    }

    /// Removes `val` and the key it maps to, and returns that key.
    ///
    /// The key of a present value must be present in the other direction, as
    /// it is in a consistent map.
    pub fn remove_val(&mut self, val: &V) -> (removed: Option<K>)
        requires
            obeys_key_model::<K>(),
            obeys_key_model::<V>(),
            old(self).backward().contains_key(*val) ==> old(self).forward().contains_key(
                old(self).backward()[*val],
            ),
        ensures
            match removed {
                Some(k) => {
                    &&& old(self).backward().contains_key(*val)
                    &&& k == old(self).backward()[*val]
                    &&& final(self).backward() == old(self).backward().remove(*val)
                    &&& final(self).forward() == old(self).forward().remove(k)
                },
                None => {
                    &&& !old(self).backward().contains_key(*val)
                    &&& final(self).forward() == old(self).forward()
                    &&& final(self).backward() == old(self).backward()
                },
            },
            old(self).consistent() ==> final(self).consistent(),
    {
        match self.bwd.remove(val) {
            Some(k) => {
                self.fwd.remove(&k);
                Some(k)
            },
            None => None,
        }
    }

    /// Whether `key` maps to a value.
    pub fn contains_key(&self, key: &K) -> (found: bool)
        requires
            obeys_key_model::<K>(),
        ensures
            found == self.forward().contains_key(*key),
    {
        self.fwd.contains_key(key)
    }

    /// Whether `val` maps to a key.
    pub fn contains_val(&self, val: &V) -> (found: bool)
        requires
            obeys_key_model::<V>(),
        ensures
            found == self.backward().contains_key(*val),
    {
        self.bwd.contains_key(val)
    }

    /// The value that `key` maps to.
    pub fn get_val(&self, key: &K) -> (value: Option<&V>)
        requires
            obeys_key_model::<K>(),
        ensures
            match value {
                Some(v) => self.forward().contains_key(*key) && *v == self.forward()[*key],
                None => !self.forward().contains_key(*key),
            },
    {
        self.fwd.get(key)
    }

    /// The key that `val` maps to.
    pub fn get_key(&self, val: &V) -> (key: Option<&K>)
        requires
            obeys_key_model::<V>(),
        ensures
            match key {
                Some(k) => self.backward().contains_key(*val) && *k == self.backward()[*val],
                None => !self.backward().contains_key(*val),
            },
    {
        self.bwd.get(val)
    }
}

} // verus!
