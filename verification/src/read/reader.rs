//! Gathering the lines of a source until they hold whole expressions.
use vstd::prelude::*;
use crate::data::expression::{data_of, share, Expr};
use crate::read::error::{parse_error_of, ReadError, ReadResult};
use crate::read::grammar::expressions;
use crate::read::parser::parse;
use crate::text::chars_of;

verus! {

/// How often the character `c` occurs in `s`.
pub open spec fn occurrences(s: Seq<char>, c: char) -> nat
    decreases s.len(),
{
    if s.len() == 0 {
        0
    } else {
        occurrences(s.drop_last(), c) + if s.last() == c {
            1nat
        } else {
            0nat
        }
    }
}

/// Whether every parenthesis that the text opens is closed in it, as far as
/// counting tells.
pub open spec fn braces_match(s: Seq<char>) -> bool {
    occurrences(s, '(') <= occurrences(s, ')')
}

/// Whether the text opens no more parentheses than it closes: whether it
/// is worth reading, or more lines are to be gathered first.
pub fn match_braces(text: &str) -> (r: bool)
    ensures
        r == braces_match(text@),
{
    let chars = chars_of(text);
    let mut opened: usize = 0;
    let mut closed: usize = 0;
    let mut i: usize = 0;
    proof {
        assert(chars@.take(0) =~= Seq::<char>::empty());
    }
    while i < chars.len()
        invariant
            i <= chars@.len(),
            opened == occurrences(chars@.take(i as int), '('),
            closed == occurrences(chars@.take(i as int), ')'),
            opened <= i,
            closed <= i,
        decreases chars@.len() - i,
    {
        proof {
            assert(chars@.take(i + 1).drop_last() =~= chars@.take(i as int));
        }
        if chars[i] == '(' {
            opened += 1;
        } else if chars[i] == ')' {
            closed += 1;
        }
        i += 1;
    }
    proof {
        assert(chars@.take(chars@.len() as int) =~= chars@);
    }
    opened <= closed
}

/// What is to be done with the text gathered so far.
#[derive(Clone, Copy, Debug, PartialEq, Eq)]
pub enum Gathered {
    /// The text is to be read.
    Whole,
    /// Another line is needed.
    Open,
}

/// A reader of expressions from a source of lines. The lines are gathered
/// until the parentheses match; then the text is read, and its expressions
/// are handed out one at a time.
pub struct Reader {
    text: String,
    buffer: Vec<Expr>,
}

impl Reader {
    /// The lines gathered and not yet read.
    pub closed spec fn gathered(&self) -> Seq<char> {
        self.text@
    }

    /// The expressions that were read ahead, in the order in which they
    /// will be handed out.
    pub closed spec fn pending(&self) -> Seq<Expr> {
        self.buffer@.reverse()
    }

    /// A reader that has gathered nothing yet.
    pub fn new() -> (r: Reader)
        ensures
            r.gathered() == Seq::<char>::empty(),
            r.pending() == Seq::<Expr>::empty(),
    {
        let buffer: Vec<Expr> = Vec::new();
        proof {
            assert(buffer@.reverse() =~= Seq::<Expr>::empty());
        }
        Reader { text: String::new(), buffer }
    }

    /// Hands out the next of the expressions read ahead, where there is one.
    pub fn next(&mut self) -> (r: Option<Expr>)
        ensures
            final(self).gathered() == old(self).gathered(),
            match r {
                Some(e) => old(self).pending().len() > 0 && e == old(self).pending()[0] && final(self).pending() == old(self).pending().skip(1),
                None => old(self).pending().len() == 0 && final(self).pending() == old(self).pending(),
            },
    {
        let r = self.buffer.pop();
        proof {
            if r is Some {
                assert(self.buffer@.reverse() =~= old(self).buffer@.reverse().skip(1));
            }
        }
        r
    }

    /// Takes a line of the source, with its line ending. An empty line is
    /// the end of the source.
    ///
    /// At the end of the source, with nothing gathered, the end is reported.
    /// A line is put behind what is gathered. Where the parentheses then
    /// match, or the source is at its end, the text is read as a whole: its
    /// expressions wait behind those that wait already, or the error is
    /// handed out; either way nothing stays gathered. Else another line is
    /// needed.
    pub fn line(&mut self, line: &str) -> (r: ReadResult<Gathered>)
        ensures
            ({
                let text = old(self).gathered() + line@;
                if text.len() == 0 {
                    r matches Err(ReadError::Eof) && final(self).gathered() == text && final(self).pending() == old(self).pending()
                } else if line@.len() > 0 && !braces_match(text) {
                    r == Ok::<_, ReadError>(Gathered::Open) && final(self).gathered() == text
                        && final(self).pending() == old(self).pending()
                } else {
                    final(self).gathered().len() == 0 && match expressions(text) {
                        Ok(items) => r == Ok::<_, ReadError>(Gathered::Whole) && data_of(
                            final(self).pending(),
                        ) == data_of(old(self).pending()) + items,
                        Err(f) => r matches Err(ReadError::Parse(p)) && p == parse_error_of(text, f)
                            && final(self).pending() == old(self).pending(),
                    }
                }
            }),
    {
        let at_end = line.unicode_len() == 0;
        self.text.append(line);
        if self.text.as_str().unicode_len() == 0 {
            return Err(ReadError::Eof);
        }
        if !at_end && !match_braces(self.text.as_str()) {
            return Ok(Gathered::Open);
        }
        let mut text = String::new();
        std::mem::swap(&mut text, &mut self.text);
        let items = match parse(text.as_str()) {
            Ok(items) => items,
            Err(e) => {
                return Err(e);
            },
        };
        let ghost before = self.buffer@;
        let mut i: usize = items.len();
        let mut buffer: Vec<Expr> = Vec::new();
        while i > 0
            invariant
                i <= items@.len(),
                buffer@ == items@.skip(i as int).reverse(),
            decreases i,
        {
            i -= 1;
            buffer.push(share(&items[i]));
            proof {
                assert(buffer@ =~= items@.skip(i as int).reverse());
            }
        }
        // what was read last is handed out last: it goes below what waits
        buffer.append(&mut self.buffer);
        self.buffer = buffer;
        proof {
            assert(items@.skip(0) =~= items@);
            assert(self.buffer@ =~= items@.reverse() + before);
            assert(self.buffer@.reverse() =~= before.reverse() + items@);
            assert(data_of(before.reverse() + items@) =~= data_of(before.reverse()) + data_of(
                items@,
            ));
        }
        Ok(Gathered::Whole)
    }
}

} // verus!
