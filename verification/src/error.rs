//! The errors of the read-eval-print loop.
use vstd::prelude::*;
use crate::eval::error::{eval_error_text, EvalError};
use crate::print::error::{print_error_text, PrintError};
use crate::read::error::{read_error_text, ReadError};

verus! {

/// An error of one of the three steps of the loop.
#[derive(Debug)]
pub enum ZedError {
    Read(ReadError),
    Eval(EvalError),
    Print(PrintError),
}

pub type ZedResult<T> = Result<T, ZedError>;

impl ZedError {
    /// The message of the error: that of the step that failed.
    pub fn to_string(&self) -> (r: String)
        ensures
            r@ == match self {
                ZedError::Read(e) => read_error_text(*e),
                ZedError::Eval(e) => eval_error_text(*e),
                ZedError::Print(e) => print_error_text(*e),
            },
    {
        match self {
            ZedError::Read(e) => e.to_string(),
            ZedError::Eval(e) => e.to_string(),
            ZedError::Print(e) => e.to_string(),
        }
    }

    /// The message of the failure that lies under the error, where there
    /// is one.
    pub fn source(&self) -> (r: Option<String>)
        ensures
            match self {
                ZedError::Read(ReadError::Io(m)) => r matches Some(message) && message@ == m@,
                ZedError::Eval(EvalError::FunctionError(_, m)) => r matches Some(message)
                    && message@ == m@,
                ZedError::Print(PrintError::Io(m)) => r matches Some(message) && message@ == m@,
                _ => r is None,
            },
    {
        match self {
            ZedError::Read(e) => e.source(),
            ZedError::Eval(e) => e.source(),
            ZedError::Print(e) => e.source(),
        }
    }
}

impl From<ReadError> for ZedError {
    fn from(err: ReadError) -> (r: ZedError) {
        ZedError::Read(err)
    }
}

impl vstd::std_specs::convert::FromSpecImpl<ReadError> for ZedError {
    open spec fn obeys_from_spec() -> bool {
        true
    }

    open spec fn from_spec(err: ReadError) -> ZedError {
        ZedError::Read(err)
    }
}

impl From<EvalError> for ZedError {
    fn from(err: EvalError) -> (r: ZedError) {
        ZedError::Eval(err)
    }
}

impl vstd::std_specs::convert::FromSpecImpl<EvalError> for ZedError {
    open spec fn obeys_from_spec() -> bool {
        true
    }

    open spec fn from_spec(err: EvalError) -> ZedError {
        ZedError::Eval(err)
    }
}

impl From<PrintError> for ZedError {
    fn from(err: PrintError) -> (r: ZedError) {
        ZedError::Print(err)
    }
}

impl vstd::std_specs::convert::FromSpecImpl<PrintError> for ZedError {
    open spec fn obeys_from_spec() -> bool {
        true
    }

    open spec fn from_spec(err: PrintError) -> ZedError {
        ZedError::Print(err)
    }
}

} // verus!
