//! Reading as a step of the read-eval-print loop.
use vstd::prelude::*;
use crate::read::error::ReadResult;

verus! {

/// A component that reads values from a source.
pub trait Read {
    type Output;

    /// What a call of `read` may come to: the component after the call, and
    /// what is handed out. A component that says nothing of itself may
    /// come to anything.
    open spec fn reads(&self, after: &Self, result: ReadResult<Self::Output>) -> bool {
        true
    }

    /// Reads the next value, or tells why there is none.
    fn read(&mut self) -> (r: ReadResult<Self::Output>)
        ensures
            old(self).reads(final(self), r),
    ;

    /// What a call of `clear_buffer` may come to: the component after the
    /// call. A component that says nothing of itself may come to anything.
    open spec fn clears(&self, after: &Self) -> bool {
        true
    }

    /// Drops what was read ahead, after a failure.
    fn clear_buffer(&mut self)
        ensures
            old(self).clears(final(self)),
    ;
}

} // verus!
