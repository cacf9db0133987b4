//! What can go wrong when a value is printed.
use vstd::prelude::*;

verus! {

/// Why a value could not be printed.
#[derive(Debug)]
pub enum PrintError {
    /// The destination failed; the message says how.
    Io(String),
}

pub type PrintResult<T> = Result<T, PrintError>;

/// The message of an error.
pub open spec fn print_error_text(e: PrintError) -> Seq<char> {
    match e {
        PrintError::Io(message) => "i/o error: "@ + message@,
    }
}

impl PrintError {
    /// The message of the error.
    pub fn to_string(&self) -> (r: String)
        ensures
            r@ == print_error_text(*self),
    {
        match self {
            PrintError::Io(message) => {
                let mut out = "i/o error: ".to_owned();
                out.append(message.as_str());
                out
            },
        }
    }

    /// The message of the failure that lies under the error.
    pub fn source(&self) -> (r: Option<String>)
        ensures
            r matches Some(message) && self matches PrintError::Io(m) && message@ == m@,
    {
        match self {
            PrintError::Io(message) => Some(message.clone()),
        }
    }
}

} // verus!
