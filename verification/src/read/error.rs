//! What can go wrong when expressions are read.
use vstd::prelude::*;
use crate::read::grammar::{Failure, FailureKind};
use crate::data::integer::Integer;
use crate::text::{push_ascii, push_char};

verus! {

/// A place in a text. Lines and columns count from one, the offset from
/// zero; columns and the offset count characters.
#[derive(Clone, Copy, Debug, PartialEq, Eq, Structural)]
pub struct LineCol {
    pub line: usize,
    pub column: usize,
    pub offset: usize,
}

/// The number of line feeds in `s` before `at`.
pub open spec fn line_feeds(s: Seq<char>, at: int) -> nat
    decreases at,
{
    if at <= 0 || at > s.len() {
        0
    } else {
        line_feeds(s, at - 1) + if s[at - 1] == '\n' {
            1nat
        } else {
            0nat
        }
    }
}

/// The number of characters between the last line feed before `at` and `at`.
pub open spec fn line_offset(s: Seq<char>, at: int) -> nat
    decreases at,
{
    if at <= 0 || at > s.len() || s[at - 1] == '\n' {
        0
    } else {
        line_offset(s, at - 1) + 1
    }
}

/// `n`, or the largest machine integer where `n` is beyond it.
pub open spec fn clamped(n: nat) -> usize {
    if n > usize::MAX {
        usize::MAX
    } else {
        n as usize
    }
}

/// The line and the column of the position `at` of the text `s`.
pub open spec fn location_of(s: Seq<char>, at: int) -> LineCol {
    LineCol {
        line: clamped(line_feeds(s, at) + 1),
        column: clamped(line_offset(s, at) + 1),
        offset: at as usize,
    }
}

/// The line and the column of a position in a text.
pub fn locate(chars: &Vec<char>, at: usize) -> (r: LineCol)
    requires
        at <= chars@.len(),
    ensures
        r == location_of(chars@, at as int),
{
    let mut line: usize = 1;
    let mut column: usize = 1;
    let mut i: usize = 0;
    while i < at
        invariant
            i <= at <= chars@.len(),
            line == clamped(line_feeds(chars@, i as int) + 1),
            column == clamped(line_offset(chars@, i as int) + 1),
        decreases at - i,
    {
        if chars[i] == '\n' {
            if line < usize::MAX {
                line += 1;
            }
            column = 1;
        } else if column < usize::MAX {
            column += 1;
        }
        i += 1;
    }
    LineCol { line, column, offset: at }
}

/// A text that could not be read: why, and where reading stopped.
#[derive(Clone, Copy, Debug, PartialEq, Eq, Structural)]
pub struct ParseError {
    pub kind: FailureKind,
    pub location: LineCol,
}

/// The error that reports the failure `f` of reading the text `s`.
pub open spec fn parse_error_of(s: Seq<char>, f: Failure) -> ParseError {
    ParseError { kind: f.kind, location: location_of(s, f.at) }
}

impl ParseError {
    /// What was wrong, in words.
    pub fn expected(&self) -> (r: &'static str)
        ensures
            r@ == expectation(self.kind),
    {
        match self.kind {
            FailureKind::MalformedInput => "expected an expression",
            FailureKind::InvalidByteLiteral => "expected an integer from 0 to 255",
            FailureKind::InvalidEscape => "expected the code point of a character",
        }
    }

    /// The message of the error: `error at <line>:<column>: <expectation>`.
    pub fn to_string(&self) -> (r: String)
        ensures
            r@ == parse_error_text(*self),
    {
        let mut out = String::new();
        out.append("error at ");
        push_ascii(&mut out, Integer::from_u64(self.location.line as u64).digits());
        push_char(&mut out, ':');
        push_ascii(&mut out, Integer::from_u64(self.location.column as u64).digits());
        out.append(": ");
        out.append(self.expected());
        proof {
            assert(out@ =~= parse_error_text(*self));
        }
        out
    }
}

/// What was expected where reading failed.
pub open spec fn expectation(kind: FailureKind) -> Seq<char> {
    match kind {
        FailureKind::MalformedInput => "expected an expression"@,
        FailureKind::InvalidByteLiteral => "expected an integer from 0 to 255"@,
        FailureKind::InvalidEscape => "expected the code point of a character"@,
    }
}

/// The message of a parse error.
pub open spec fn parse_error_text(e: ParseError) -> Seq<char> {
    "error at "@ + crate::text::ascii_chars(crate::digits::int_text(e.location.line as int))
        + seq![':'] + crate::text::ascii_chars(crate::digits::int_text(e.location.column as int))
        + ": "@ + expectation(e.kind)
}

/// Why no expression could be handed out.
#[derive(Debug)]
pub enum ReadError {
    /// The source is exhausted.
    Eof,
    /// The source failed; the message says how.
    Io(String),
    /// The text is no expression.
    Parse(ParseError),
}

pub type ReadResult<T> = Result<T, ReadError>;

/// The message of an error.
pub open spec fn read_error_text(e: ReadError) -> Seq<char> {
    match e {
        ReadError::Eof => "end of file"@,
        ReadError::Io(message) => "I/O error: "@ + message@,
        ReadError::Parse(p) => "parse error: "@ + parse_error_text(p),
    }
}

impl ReadError {
    /// The message of the error.
    pub fn to_string(&self) -> (r: String)
        ensures
            r@ == read_error_text(*self),
    {
        match self {
            ReadError::Eof => "end of file".to_owned(),
            ReadError::Io(message) => {
                let mut out = "I/O error: ".to_owned();
                out.append(message.as_str());
                out
            },
            ReadError::Parse(e) => {
                let mut out = "parse error: ".to_owned();
                out.append(e.to_string().as_str());
                out
            },
        }
    }

    /// The message of the failure that lies under the error, where there is
    /// one: that of the source that failed.
    pub fn source(&self) -> (r: Option<String>)
        ensures
            r is Some <==> self is Io,
            r matches Some(message) ==> self matches ReadError::Io(m) && message@ == m@,
    {
        match self {
            ReadError::Io(message) => Some(message.clone()),
            _ => None,
        }
    }
}

impl From<ParseError> for ReadError {
    fn from(err: ParseError) -> (r: ReadError) {
        ReadError::Parse(err)
    }
}

impl vstd::std_specs::convert::FromSpecImpl<ParseError> for ReadError {
    open spec fn obeys_from_spec() -> bool {
        true
    }

    open spec fn from_spec(err: ParseError) -> ReadError {
        ReadError::Parse(err)
    }
}

} // verus!
