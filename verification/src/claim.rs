use crate::access::Access;
use vstd::prelude::*;

verus! {

/// One declared parameter access: the type identity of the target resource
/// (a stable key chosen by the embedder, one per resource type) and the
/// requested access mode.
#[derive(Clone, Copy, Debug, PartialEq, Eq, Structural)]
pub struct Claim {
    pub key: u64,
    pub mode: Access,
}

/// A requested access that is incompatible with one already recorded for the
/// same type identity in the current round.
#[derive(Clone, Copy, Debug, PartialEq, Eq, Structural)]
pub struct Conflict {
    /// The type identity both accesses target.
    pub key: u64,
    /// The mode already recorded in the ledger.
    pub held: Access,
    /// The mode the rejected claim asked for.
    pub requested: Access,
}

impl Claim {
    /// A claim of shared read access to the resource with type identity `key`.
    pub fn read(key: u64) -> (c: Claim)
        ensures
            c == (Claim { key, mode: Access::Read }),
    {
        Claim { key, mode: Access::Read }
    }

    /// A claim of exclusive write access to the resource with type identity
    /// `key`.
    pub fn write(key: u64) -> (c: Claim)
        ensures
            c == (Claim { key, mode: Access::Write }),
    {
        Claim { key, mode: Access::Write }
    }

    /// Whether this claim may be granted on top of the accesses already held:
    /// either its key is not held at all, or both the held and the requested
    /// access are shared reads.
    pub open spec fn admitted_by(self, held: Map<u64, Access>) -> bool {
        held.contains_key(self.key) ==> held[self.key].compatible_with(self.mode)
    }

    /// The conflict reported when this claim is rejected against `held`.
    pub open spec fn conflict_with(self, held: Map<u64, Access>) -> Conflict {
        Conflict { key: self.key, held: held[self.key], requested: self.mode }
    }
}

/// The ledger after granting one admissible claim: a key not yet held is
/// recorded with the claimed mode; a repeated shared read changes nothing.
pub open spec fn grant_claim(held: Map<u64, Access>, c: Claim) -> Map<u64, Access> {
    if held.contains_key(c.key) {
        held
    } else {
        held.insert(c.key, c.mode)
    }
}

/// Record a sequence of claims left to right on top of `held`, stopping at
/// the first conflict. Returns the resulting ledger together with the
/// conflict, if one arose.
pub open spec fn record_claims(held: Map<u64, Access>, cs: Seq<Claim>) -> (Map<
    u64,
    Access,
>, Option<Conflict>)
    decreases cs.len(),
{
    if cs.len() == 0 {
        (held, None)
    } else if !cs[0].admitted_by(held) {
        (held, Some(cs[0].conflict_with(held)))
    } else {
        record_claims(grant_claim(held, cs[0]), cs.drop_first())
    }
}

/// Recording a concatenation records the first part, then — if no conflict
/// stopped it — the second part on top of the resulting ledger.
pub proof fn lemma_record_claims_concat(held: Map<u64, Access>, cs1: Seq<Claim>, cs2: Seq<Claim>)
    ensures
        record_claims(held, cs1 + cs2) == match record_claims(held, cs1) {
            (h, None::<Conflict>) => record_claims(h, cs2),
            (h, Some(c)) => (h, Some(c)),
        },
    decreases cs1.len(),
{
    if cs1.len() == 0 {
        assert(cs1 + cs2 =~= cs2);
    } else {
        let all = cs1 + cs2;
        assert(all[0] == cs1[0]);
        if cs1[0].admitted_by(held) {
            assert(all.drop_first() =~= cs1.drop_first() + cs2);
            lemma_record_claims_concat(grant_claim(held, cs1[0]), cs1.drop_first(), cs2);
        }
    }
}

} // verus!
