use crate::claim::Claim;
use crate::frame::Frame;
use vstd::prelude::*;

verus! {

/// A schedulable unit of work over resources erased into the handle type
/// `V`. Implementors declare, once and for all, which resources they touch
/// and in what mode, and do their work through the frame the scheduler hands
/// them — the frame refuses any access outside those grants, so a system can
/// neither reach a resource it never claimed nor overwrite one it only
/// claimed for reading.
pub trait System<V> {
    /// The accesses this system needs in one invocation, in declaration
    /// order. Implementations that claim any resource override this with
    /// their actual claim list; the default stands for a system that
    /// touches nothing.
    open spec fn claims(&self) -> Seq<Claim> {
        Seq::empty()
    }

    /// The declared accesses, as a list the scheduler can record in the
    /// round's ledger.
    fn declared_claims(&self) -> (r: Vec<Claim>)
        ensures
            r@ == self.claims(),
    ;

    /// Do one invocation's work through the granted frame. Whatever the
    /// system does, the set of stored resources stays the same, the grants
    /// are untouched, and every resource outside the system's write grants
    /// keeps its value.
    fn run(&mut self, frame: &mut Frame<V>)
        requires
            old(frame).wf(),
        ensures
            final(frame).wf(),
            final(frame).grants() == old(frame).grants(),
            final(frame).resources().dom() == old(frame).resources().dom(),
            forall|k: u64|
                old(frame).resources().contains_key(k) && !old(frame).write_granted(k)
                    ==> #[trigger] final(frame).resources()[k] == old(frame).resources()[k],
    ;
}

} // verus!
