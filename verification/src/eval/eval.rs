//! Evaluation as a step of the read-eval-print loop.
use vstd::prelude::*;
use crate::eval::error::EvalResult;

verus! {

/// A component that turns what was read into what is printed.
pub trait Eval<T> {
    type Output;

    /// What a call of `eval` on `value` may come to: the component after
    /// the call, and what is handed out. A component that says nothing of
    /// itself may come to anything.
    open spec fn evaluates(&self, after: &Self, value: T, result: EvalResult<Self::Output>) -> bool {
        true
    }

    fn eval(&mut self, value: T) -> (r: EvalResult<Self::Output>)
        ensures
            old(self).evaluates(final(self), value, r),
    ;
}

} // verus!
