use crate::access::Access;
use crate::claim::Claim;
use crate::store::Store;
use vstd::prelude::*;

verus! {

/// The view of the resource store that one system receives for one
/// invocation. A frame is materialized by the scheduler only after every
/// claim of the system was recorded in the round's ledger without conflict,
/// and it enforces exactly those grants: a resource can be read only under
/// some grant for its key, and overwritten only under a write grant. The
/// frame is the proof token that stands between declaring an access and
/// using it — there is no other way to touch the store during a round.
pub struct Frame<V> {
    store: Store<V>,
    grants: Vec<Claim>,
}

impl<V> Frame<V> {
    /// The claims granted to the running system, in declaration order.
    pub closed spec fn grants(self) -> Seq<Claim> {
        self.grants@
    }

    /// The resources currently in the store, by type identity.
    pub closed spec fn resources(self) -> Map<u64, V> {
        self.store@
    }

    /// Whether some grant — shared or exclusive — covers `key`.
    pub open spec fn read_granted(self, key: u64) -> bool {
        exists|i: int|
            0 <= i < self.grants().len() && (#[trigger] self.grants()[i]).key == key
    }

    /// Whether an exclusive grant covers `key`.
    pub open spec fn write_granted(self, key: u64) -> bool {
        exists|i: int|
            0 <= i < self.grants().len() && (#[trigger] self.grants()[i]).key == key
                && self.grants()[i].mode is Write
    }

    /// Every granted key names a resource that is present in the store.
    pub open spec fn wf(self) -> bool {
        forall|i: int|
            0 <= i < self.grants().len() ==> self.resources().contains_key(
                (#[trigger] self.grants()[i]).key,
            )
    }

    /// Seal a store behind the given grants. Only the scheduler does this,
    /// and only for claims the ledger admitted.
    pub(crate) fn new(store: Store<V>, grants: Vec<Claim>) -> (f: Frame<V>)
        requires
            forall|i: int|
                0 <= i < grants@.len() ==> store@.contains_key((#[trigger] grants@[i]).key),
        ensures
            f.resources() == store@,
            f.grants() == grants@,
            f.wf(),
    {
        Frame { store, grants }
    }

    /// Hand the store back once the system's invocation is over.
    pub(crate) fn release(self) -> (s: Store<V>)
        ensures
            s@ == self.resources(),
    {
        self.store
    }

    /// Whether the running system was granted any access to `key`.
    pub fn granted(&self, key: u64) -> (r: bool)
        ensures
            r == self.read_granted(key),
    {
        let n = self.grants.len();
        let mut i: usize = 0;
        while i < n
            invariant
                n == self.grants@.len(),
                i <= n,
                forall|q: int| 0 <= q < i ==> (#[trigger] self.grants@[q]).key != key,
            decreases n - i,
        {
            if self.grants[i].key == key {
                return true;
            }
            i += 1;
        }
        false
    }

    /// Whether the running system was granted exclusive access to `key`.
    pub fn granted_for_write(&self, key: u64) -> (r: bool)
        ensures
            r == self.write_granted(key),
    {
        let n = self.grants.len();
        let mut i: usize = 0;
        while i < n
            invariant
                n == self.grants@.len(),
                i <= n,
                forall|q: int|
                    0 <= q < i ==> !((#[trigger] self.grants@[q]).key == key
                        && self.grants@[q].mode is Write),
            decreases n - i,
        {
            if self.grants[i].key == key && self.grants[i].mode.is_write() {
                return true;
            }
            i += 1;
        }
        false
    }

    /// Read the resource with type identity `key`. Returns the stored value
    /// exactly when some grant covers `key`, and nothing otherwise.
    pub fn read(&self, key: u64) -> (r: Option<&V>)
        requires
            self.wf(),
        ensures
            match r {
                Some(v) => self.read_granted(key) && *v == self.resources()[key],
                None => !self.read_granted(key),
            },
    {
        if self.granted(key) {
            proof {
                let i = choose|i: int|
                    0 <= i < self.grants().len() && (#[trigger] self.grants()[i]).key == key;
                assert(self.resources().contains_key(self.grants()[i].key));
            }
            match self.store.get(key) {
                Some(v) => Some(v),
                None => vstd::pervasive::unreached(),
            }
        } else {
            None
        }
    }

    /// Overwrite the resource with type identity `key`. Under an exclusive
    /// grant the store is updated and the displaced value returned; under
    /// anything less the store is untouched and the offered value handed
    /// back.
    pub fn replace(&mut self, key: u64, value: V) -> (r: Result<V, V>)
        requires
            old(self).wf(),
        ensures
            final(self).wf(),
            final(self).grants() == old(self).grants(),
            match r {
                Ok(prev) => {
                    &&& old(self).write_granted(key)
                    &&& prev == old(self).resources()[key]
                    &&& final(self).resources() == old(self).resources().insert(key, value)
                },
                Err(v) => {
                    &&& !old(self).write_granted(key)
                    &&& v == value
                    &&& final(self).resources() == old(self).resources()
                },
            },
    {
        if self.granted_for_write(key) {
            proof {
                let i = choose|i: int|
                    0 <= i < self.grants().len() && (#[trigger] self.grants()[i]).key == key
                        && self.grants()[i].mode is Write;
                assert(self.resources().contains_key(self.grants()[i].key));
            }
            let prev = self.store.insert(key, value);
            proof {
                assert(self.resources().dom() =~= old(self).resources().dom());
            }
            match prev {
                Some(p) => Ok(p),
                None => vstd::pervasive::unreached(),
            }
        } else {
            Err(value)
        }
    }
}

} // verus!
