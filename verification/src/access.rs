use vstd::prelude::*;

verus! {

/// The mode in which a system claims a resource for one round: shared
/// read-only access or exclusive read-write access.
#[derive(Clone, Copy, Debug, PartialEq, Eq, Structural)]
pub enum Access {
    Read,
    Write,
}

impl Access {
    /// Two accesses to the same resource may stand in one round only when
    /// both are shared reads; any pairing that involves a write conflicts.
    pub open spec fn compatible_with(self, other: Access) -> bool {
        self is Read && other is Read
    }

    pub fn is_read(&self) -> (r: bool)
        ensures
            r == (*self is Read),
    {
        matches!(self, Access::Read)
    }

    pub fn is_write(&self) -> (r: bool)
        ensures
            r == (*self is Write),
    {
        matches!(self, Access::Write)
    }
}

} // verus!
