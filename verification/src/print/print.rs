//! Printing as a step of the read-eval-print loop.
use vstd::prelude::*;
use crate::print::error::PrintResult;

verus! {

/// A component that shows values.
pub trait Print<T> {
    /// What a call of `print` on `value` may come to: the component after
    /// the call, and what is handed out. A component that says nothing of
    /// itself may come to anything.
    open spec fn prints(&self, after: &Self, value: T, result: PrintResult<()>) -> bool {
        true
    }

    fn print(&mut self, value: T) -> (r: PrintResult<()>)
        ensures
            old(self).prints(final(self), value, r),
    ;
}

} // verus!
