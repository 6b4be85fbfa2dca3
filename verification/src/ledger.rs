use crate::access::Access;
use crate::claim::Claim;
use crate::claim::Conflict;
use crate::claim::grant_claim;
use std::collections::HashMap;
use vstd::prelude::*;

verus! {

broadcast use vstd::std_specs::hash::group_hash_axioms;

/// The access ledger of one scheduling round: every access granted so far,
/// keyed by the type identity it targets. It is the single safety gate of
/// the scheduler — a resource is handed to a system only after the claim for
/// it was recorded here without conflict.
pub struct Ledger {
    held: HashMap<u64, Access>,
}

impl View for Ledger {
    type V = Map<u64, Access>;

    closed spec fn view(&self) -> Map<u64, Access> {
        self.held@
    }
}

impl Ledger {
    /// An empty ledger: no access is held.
    pub fn new() -> (l: Ledger)
        ensures
            l@ == Map::<u64, Access>::empty(),
    {
        Ledger { held: HashMap::new() }
    }

    /// The mode currently held for `key`, if any.
    pub fn mode_of(&self, key: u64) -> (r: Option<Access>)
        ensures
            match r {
                Some(m) => self@.contains_key(key) && m == self@[key],
                None => !self@.contains_key(key),
            },
    {
        match self.held.get(&key) {
            Some(m) => Some(*m),
            None => None,
        }
    }

    /// Record one claim. A claim on a key not yet held is granted and
    /// remembered under its mode; a shared read on top of a shared read is a
    /// no-op; every other pairing is rejected as a conflict that names the
    /// key and the two modes, and leaves the ledger unchanged.
    pub fn record(&mut self, c: Claim) -> (r: Result<(), Conflict>)
        ensures
            match r {
                Ok(()) => c.admitted_by(old(self)@) && final(self)@ == grant_claim(old(self)@, c),
                Err(e) => {
                    &&& !c.admitted_by(old(self)@)
                    &&& final(self)@ == old(self)@
                    &&& e == c.conflict_with(old(self)@)
                },
            },
    {
        let prior = self.mode_of(c.key);
        match prior {
            None => {
                self.held.insert(c.key, c.mode);
                Ok(())
            },
            Some(held) => {
                if held.is_read() && c.mode.is_read() {
                    Ok(())
                } else {
                    Err(Conflict { key: c.key, held, requested: c.mode })
                }
            },
        }
    }

    /// Forget every held access; called once a full round has completed.
    pub fn clear(&mut self)
        ensures
            final(self)@ == Map::<u64, Access>::empty(),
    {
        self.held.clear();
    }

    /// The number of keys currently held.
    pub fn len(&self) -> (n: usize)
        ensures
            n == self@.dom().len(),
    {
        self.held.len()
    }

    /// Whether no access is held.
    pub fn is_empty(&self) -> (r: bool)
        ensures
            r == (self@ == Map::<u64, Access>::empty()),
    {
        let r = self.held.is_empty();
        proof {
            if r {
                assert(self@.dom() =~= Set::<u64>::empty());
                assert(self@ =~= Map::<u64, Access>::empty());
            } else {
                assert(self@.dom() !~= Set::<u64>::empty());
            }
        }
        r
    }
}

} // verus!
