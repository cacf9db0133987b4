//! What can go wrong when an expression is evaluated.
use vstd::prelude::*;
use crate::data::expression::Expr;
use crate::data::integer::Integer;
use crate::digits::int_text;
use crate::print::printer::{expression_text, write_expression};
use crate::text::{ascii_chars, push_ascii, push_char};

verus! {

/// Why an expression has no value.
#[derive(Debug)]
pub enum EvalError {
    /// No binding of the name is in reach.
    UnboundVariable(String),
    /// The function of this name takes at least so many arguments, and got
    /// so many.
    NotEnoughArguments(String, usize, usize),
    /// The function of this name takes at most so many arguments, and got
    /// so many.
    TooManyArguments(String, usize, usize),
    /// The call is no proper list.
    BadlyFormedCall(Expr),
    /// What stands first in the call is no function.
    NotAFunction(Expr),
    /// The function of this name failed; the message says how.
    FunctionError(String, String),
}

pub type EvalResult<T> = Result<T, EvalError>;

/// The text of a machine integer.
pub open spec fn count_text(n: usize) -> Seq<char> {
    ascii_chars(int_text(n as int))
}

/// The message of an error.
pub open spec fn eval_error_text(e: EvalError) -> Seq<char> {
    match e {
        EvalError::UnboundVariable(name) => "unbound variable: `"@ + name@ + seq!['`'],
        EvalError::NotEnoughArguments(name, min, actual) => name@
            + ": wrong number of arguments: expected "@ + count_text(min) + ", got "@ + count_text(
            actual,
        ),
        EvalError::TooManyArguments(name, max, actual) => name@ + ": too many arguments: at most "@
            + count_text(max) + ", got "@ + count_text(actual),
        EvalError::BadlyFormedCall(expr) => "not a proper call form: "@ + expression_text(expr@),
        EvalError::NotAFunction(expr) => "not a function: "@ + expression_text(expr@),
        EvalError::FunctionError(name, message) => name@ + ": "@ + message@,
    }
}

fn push_count(out: &mut String, n: usize)
    ensures
        final(out)@ == old(out)@ + count_text(n),
{
    push_ascii(out, Integer::from_u64(n as u64).digits());
}

impl EvalError {
    /// The message of the error.
    pub fn to_string(&self) -> (r: String)
        ensures
            r@ == eval_error_text(*self),
    {
        let mut out = String::new();
        match self {
            EvalError::UnboundVariable(name) => {
                out.append("unbound variable: `");
                out.append(name.as_str());
                push_char(&mut out, '`');
            },
            EvalError::NotEnoughArguments(name, min, actual) => {
                out.append(name.as_str());
                out.append(": wrong number of arguments: expected ");
                push_count(&mut out, *min);
                out.append(", got ");
                push_count(&mut out, *actual);
            },
            EvalError::TooManyArguments(name, max, actual) => {
                out.append(name.as_str());
                out.append(": too many arguments: at most ");
                push_count(&mut out, *max);
                out.append(", got ");
                push_count(&mut out, *actual);
            },
            EvalError::BadlyFormedCall(expr) => {
                out.append("not a proper call form: ");
                write_expression(&mut out, expr);
            },
            EvalError::NotAFunction(expr) => {
                out.append("not a function: ");
                write_expression(&mut out, expr);
            },
            EvalError::FunctionError(name, message) => {
                out.append(name.as_str());
                out.append(": ");
                out.append(message.as_str());
            },
        }
        proof {
            assert(out@ =~= eval_error_text(*self));
        }
        out
    }

    /// The message of the failure that lies under the error, where there is
    /// one: that of the function that failed.
    pub fn source(&self) -> (r: Option<String>)
        ensures
            r is Some <==> self is FunctionError,
            r matches Some(message) ==> self matches EvalError::FunctionError(_, m) && message@
                == m@,
    {
        match self {
            EvalError::FunctionError(_, message) => Some(message.clone()),
            _ => None,
        }
    }
}

} // verus!
