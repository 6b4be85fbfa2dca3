use std::collections::HashMap;
use vstd::prelude::*;

verus! {

broadcast use vstd::std_specs::hash::group_hash_axioms;

/// The resource store: a mapping from a type identity to the one live value
/// of that type. The embedder erases its resource types into a single handle
/// type `V` and assigns each erased type a stable `u64` key. The store
/// performs no aliasing checks of its own; who may read or overwrite an
/// entry in a given round is decided by the access ledger.
pub struct Store<V> {
    entries: HashMap<u64, V>,
}

impl<V> View for Store<V> {
    type V = Map<u64, V>;

    closed spec fn view(&self) -> Map<u64, V> {
        self.entries@
    }
}

impl<V> Store<V> {
    /// An empty store.
    pub fn new() -> (s: Store<V>)
        ensures
            s@ == Map::<u64, V>::empty(),
    {
        Store { entries: HashMap::new() }
    }

    /// Insert the sole instance of the type identified by `key`, replacing
    /// and returning any value previously stored under the same identity:
    /// the last write wins.
    pub fn insert(&mut self, key: u64, value: V) -> (prev: Option<V>)
        ensures
            final(self)@ == old(self)@.insert(key, value),
            match prev {
                Some(p) => old(self)@.contains_key(key) && p == old(self)@[key],
                None => !old(self)@.contains_key(key),
            },
    {
        self.entries.insert(key, value)
    }

    /// Whether a resource of the type identified by `key` is present.
    pub fn contains_key(&self, key: u64) -> (r: bool)
        ensures
            r == self@.contains_key(key),
    {
        self.entries.contains_key(&key)
    }

    /// The value stored under `key`, if the type was ever registered.
    pub fn get(&self, key: u64) -> (r: Option<&V>)
        ensures
            match r {
                Some(v) => self@.contains_key(key) && *v == self@[key],
                None => !self@.contains_key(key),
            },
    {
        self.entries.get(&key)
    }

    /// The number of resource types registered.
    pub fn len(&self) -> (n: usize)
        ensures
            n == self@.dom().len(),
    {
        self.entries.len()
    }

    /// Whether the store holds no resource at all.
    pub fn is_empty(&self) -> (r: bool)
        ensures
            r == (self@ == Map::<u64, V>::empty()),
    {
        let r = self.entries.is_empty();
        proof {
            if r {
                assert(self@.dom() =~= Set::<u64>::empty());
                assert(self@ =~= Map::<u64, V>::empty());
            } else {
                assert(self@.dom() !~= Set::<u64>::empty());
            }
        }
        r
    }
}

} // verus!
