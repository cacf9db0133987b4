//! The printer of the read-eval-print loop.
use vstd::prelude::*;
use crate::data::expression::Expr;
use crate::print::error::PrintResult;
use crate::print::print::Print;
use crate::print::printer::{expression_text, write_expression};
use crate::text::push_char;

verus! {

/// The line that shows a value: an arrow, the text of the value and a line
/// feed.
pub open spec fn result_line(text: Seq<char>) -> Seq<char> {
    "---> "@ + text + seq!['\n']
}

/// A printer that writes each value on a line of its own, behind an arrow.
/// The lines are collected in a text, for the caller to send where they are
/// to be shown.
pub struct ReplPrinter {
    output: String,
}

impl View for ReplPrinter {
    type V = Seq<char>;

    closed spec fn view(&self) -> Seq<char> {
        self.output@
    }
}

impl ReplPrinter {
    /// A printer that writes behind what `output` holds.
    pub fn new(output: String) -> (r: ReplPrinter)
        ensures
            r@ == output@,
    {
        ReplPrinter { output }
    }

    /// What has been written so far.
    pub fn output(&self) -> (r: &str)
        ensures
            r@ == self@,
    {
        self.output.as_str()
    }

    /// Hands out what has been written so far, and starts anew.
    pub fn take(&mut self) -> (r: String)
        ensures
            r@ == old(self)@,
            final(self)@ == Seq::<char>::empty(),
    {
        let mut taken = String::new();
        std::mem::swap(&mut taken, &mut self.output);
        taken
    }
}

impl Print<Expr> for ReplPrinter {
    /// The line that shows the value is written behind what was written
    /// before. This never fails.
    open spec fn prints(&self, after: &Self, value: Expr, result: PrintResult<()>) -> bool {
        &&& result is Ok
        &&& after@ == self@ + result_line(expression_text(value@))
    }

    fn print(&mut self, value: Expr) -> (r: PrintResult<()>) {
        self.output.append("---> ");
        write_expression(&mut self.output, &value);
        push_char(&mut self.output, '\n');
        proof {
            assert(self@ =~= old(self)@ + result_line(expression_text(value@)));
        }
        Ok(())
    }
}

} // verus!
