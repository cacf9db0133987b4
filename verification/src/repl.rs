//! The read-eval-print loop, one round at a time.
use vstd::prelude::*;
use crate::error::{ZedError, ZedResult};
use crate::eval::eval::Eval;
use crate::print::print::Print;
use crate::read::error::ReadError;
use crate::read::read::Read;

verus! {

/// What the loop does after a round that failed.
#[derive(Clone, Copy, Debug, PartialEq, Eq)]
pub enum Reaction {
    /// The input is at its end: the loop ends, and all is well.
    Finish,
    /// The error is reported, what was read ahead is dropped, and the loop
    /// goes on.
    Recover,
    /// The error is reported, and the loop ends with it.
    Abort,
}

/// The loop that reads a value, evaluates it and prints the result.
pub struct Repl<R: Read, E: Eval<<R as Read>::Output>, P: Print<<E as Eval<<R as Read>::Output>>::Output>> {
    reader: R,
    evaluator: E,
    printer: P,
}

/// What the loop does after a round that failed with `err`. The end of the
/// input ends the loop. A text that cannot be read and a value that cannot
/// be evaluated are the user's mistakes: the loop goes on. All else ends
/// the loop with the error.
pub open spec fn reaction_to(err: ZedError) -> Reaction {
    match err {
        ZedError::Read(ReadError::Eof) => Reaction::Finish,
        ZedError::Read(ReadError::Parse(_)) => Reaction::Recover,
        ZedError::Eval(_) => Reaction::Recover,
        _ => Reaction::Abort,
    }
}

/// What the loop does after a round that failed with `err`.
pub fn react(err: &ZedError) -> (r: Reaction)
    ensures
        r == reaction_to(*err),
{
    match err {
        ZedError::Read(ReadError::Eof) => Reaction::Finish,
        ZedError::Read(ReadError::Parse(_)) => Reaction::Recover,
        ZedError::Eval(_) => Reaction::Recover,
        _ => Reaction::Abort,
    }
}

impl<R: Read, E: Eval<<R as Read>::Output>, P: Print<<E as Eval<<R as Read>::Output>>::Output>> Repl<R, E, P> {
    /// The three components.
    pub closed spec fn parts(self) -> (R, E, P) {
        (self.reader, self.evaluator, self.printer)
    }

    /// A loop of the three components.
    pub fn new(reader: R, evaluator: E, printer: P) -> (r: Self)
        ensures
            r.parts() == (reader, evaluator, printer),
    {
        Repl { reader, evaluator, printer }
    }

    /// A value is read and its evaluation fails with `e`; the printer stays
    /// as it is.
    pub open spec fn fails_to_evaluate(
        self,
        after: Self,
        value: <R as Read>::Output,
        e: crate::eval::error::EvalError,
    ) -> bool {
        &&& self.parts().0.reads(&after.parts().0, Ok(value))
        &&& self.parts().1.evaluates(&after.parts().1, value, Err(e))
        &&& after.parts().2 == self.parts().2
    }

    /// A value is read, evaluated and handed to the printer, which answers
    /// with `printed`.
    pub open spec fn runs_through(
        self,
        after: Self,
        value: <R as Read>::Output,
        shown: <E as Eval<<R as Read>::Output>>::Output,
        printed: crate::print::error::PrintResult<()>,
    ) -> bool {
        &&& self.parts().0.reads(&after.parts().0, Ok(value))
        &&& self.parts().1.evaluates(&after.parts().1, value, Ok(shown))
        &&& self.parts().2.prints(&after.parts().2, shown, printed)
    }

    /// What a round may come to: a value is read; then it is evaluated;
    /// then the result is printed. The first step that fails ends the round
    /// with its error, and the components behind it stay as they are.
    pub open spec fn round(self, after: Self, result: ZedResult<()>) -> bool {
        match result {
            Err(ZedError::Read(e)) => {
                &&& self.parts().0.reads(&after.parts().0, Err(e))
                &&& after.parts().1 == self.parts().1
                &&& after.parts().2 == self.parts().2
            },
            Err(ZedError::Eval(e)) => exists|value: <R as Read>::Output|
                #[trigger] self.fails_to_evaluate(after, value, e),
            Err(ZedError::Print(e)) => exists|
                value: <R as Read>::Output,
                shown: <E as Eval<<R as Read>::Output>>::Output,
                printed: crate::print::error::PrintResult<()>,
            | printed == Err::<(), _>(e) && #[trigger] self.runs_through(after, value, shown, printed),
            Ok(_) => exists|
                value: <R as Read>::Output,
                shown: <E as Eval<<R as Read>::Output>>::Output,
                printed: crate::print::error::PrintResult<()>,
            | printed is Ok && #[trigger] self.runs_through(after, value, shown, printed),
        }
    }

    /// One round: reads a value, evaluates it and prints the result. The
    /// first step that fails ends the round with its error.
    pub fn rep(&mut self) -> (r: ZedResult<()>)
        ensures
            old(self).round(*final(self), r),
    {
        let ghost before = *self;
        let value = match self.reader.read() {
            Ok(value) => value,
            Err(e) => {
                return Err(ZedError::Read(e));
            },
        };
        let ghost read = value;
        let result = match self.evaluator.eval(value) {
            Ok(result) => result,
            Err(e) => {
                proof {
                    assert(before.fails_to_evaluate(*self, read, e));
                }
                return Err(ZedError::Eval(e));
            },
        };
        let ghost shown = result;
        let printed = self.printer.print(result);
        proof {
            assert(before.runs_through(*self, read, shown, printed));
        }
        match printed {
            Ok(_) => Ok(()),
            Err(e) => Err(ZedError::Print(e)),
        }
    }

    /// Ends a round: where it failed, tells what the loop does next, and
    /// drops what was read ahead where the loop is to recover. Nothing else
    /// changes.
    pub fn settle(&mut self, round: &ZedResult<()>) -> (r: Option<Reaction>)
        ensures
            match round {
                Ok(_) => r is None,
                Err(e) => r == Some(reaction_to(*e)),
            },
            final(self).parts().1 == old(self).parts().1,
            final(self).parts().2 == old(self).parts().2,
            r == Some(Reaction::Recover) ==> old(self).parts().0.clears(&final(self).parts().0),
            r != Some(Reaction::Recover) ==> final(self).parts().0 == old(self).parts().0,
    {
        match round {
            Ok(_) => None,
            Err(e) => {
                let reaction = react(e);
                match reaction {
                    Reaction::Recover => {
                        self.reader.clear_buffer();
                    },
                    _ => {},
                }
                Some(reaction)
            },
        }
    }
}

} // verus!
