//! The reader of expressions from a source of texts.
use vstd::prelude::*;
use crate::data::expression::{data_of, Datum, Expr};
use crate::read::error::{parse_error_of, ReadError, ReadResult};
use crate::read::grammar::expressions;
use crate::read::parser::parse;
use crate::read::read::Read;

verus! {

/// A reader that takes texts from `input` and hands out the expressions
/// written in them, one at a time.
pub struct ExprReader<T: Read<Output = String>> {
    input: T,
    buffer: Vec<Expr>,
}

/// What a text adds to the expressions that wait: all its expressions, or
/// nothing where it cannot be read.
pub open spec fn accepted(text: Seq<char>) -> Seq<Datum> {
    match expressions(text) {
        Ok(items) => items,
        Err(_) => Seq::empty(),
    }
}

impl<T: Read<Output = String>> ExprReader<T> {
    /// The expressions that were read ahead, in the order in which they
    /// will be handed out.
    pub closed spec fn pending(&self) -> Seq<Expr> {
        self.buffer@.reverse()
    }

    /// The source of the texts.
    pub closed spec fn source(&self) -> T {
        self.input
    }

    /// A reader on the given source, with nothing read ahead.
    pub fn new(input: T) -> (r: Self)
        ensures
            r.pending() == Seq::<Expr>::empty(),
            r.source() == input,
    {
        let buffer = Vec::new();
        proof {
            assert(buffer@.reverse() =~= Seq::<Expr>::empty());
        }
        ExprReader { input, buffer }
    }

    /// Hands out the next of the expressions read ahead, where there is one.
    pub fn next(&mut self) -> (r: Option<Expr>)
        ensures
            final(self).source() == old(self).source(),
            match r {
                Some(e) => old(self).pending().len() > 0 && e == old(self).pending()[0] && final(self).pending() == old(self).pending().skip(1),
                None => old(self).pending().len() == 0 && final(self).pending() == old(self).pending(),
            },
    {
        let r = self.buffer.pop();
        proof {
            if r is Some {
                assert(self.buffer@.reverse() =~= old(self).buffer@.reverse().skip(1));
            }
        }
        r
    }

    /// Takes what the source gave. A failure of the source is handed on.
    /// A text is read as a whole: its expressions wait behind
    /// those that wait already, or, where it cannot be read, the error is
    /// handed out and nothing else changes.
    pub fn accept(&mut self, given: ReadResult<String>) -> (r: ReadResult<()>)
        ensures
            final(self).source() == old(self).source(),
            match given {
                Err(e) => r == Err::<(), _>(e) && final(self).pending() == old(self).pending(),
                Ok(text) => match expressions(text@) {
                    Ok(items) => r is Ok && data_of(final(self).pending()) == data_of(
                        old(self).pending(),
                    ) + items,
                    Err(f) => r matches Err(ReadError::Parse(p)) && p == parse_error_of(text@, f)
                        && final(self).pending() == old(self).pending(),
                },
            },
    {
        let text = match given {
            Ok(text) => text,
            Err(e) => {
                return Err(e);
            },
        };
        let mut items = match parse(text.as_str()) {
            Ok(items) => items,
            Err(e) => {
                return Err(e);
            },
        };
        let ghost before = self.buffer@;
        let ghost read = items@;
        // what was read last is handed out last: it goes below what waits
        let mut i: usize = items.len();
        let mut buffer: Vec<Expr> = Vec::new();
        while i > 0
            invariant
                i <= items@.len(),
                items@ == read,
                buffer@ == read.skip(i as int).reverse(),
            decreases i,
        {
            i -= 1;
            buffer.push(crate::data::expression::share(&items[i]));
            proof {
                assert(buffer@ =~= read.skip(i as int).reverse());
            }
        }
        buffer.append(&mut self.buffer);
        self.buffer = buffer;
        proof {
            assert(read.skip(0) =~= read);
            assert(self.buffer@ =~= read.reverse() + before);
            assert(self.buffer@.reverse() =~= before.reverse() + read);
            assert(data_of(before.reverse() + read) =~= data_of(before.reverse()) + data_of(read));
        }
        Ok(())
    }

    /// Hands out the next expression, asking the source for a text where
    /// none waits. `None` is handed out where the text that the source gave
    /// holds no expression: the caller may ask again.
    pub fn try_read(&mut self) -> (r: ReadResult<Option<Expr>>)
        ensures
            old(self).pending().len() > 0 ==> (r matches Ok(Some(e)) && e == old(self).pending()[0]
                && final(self).pending() == old(self).pending().skip(1) && final(self).source()
                == old(self).source()),
            old(self).pending().len() == 0 ==> exists|given: ReadResult<String>|
                #![trigger old(self).source().reads(&final(self).source(), given)]
                old(self).source().reads(&final(self).source(), given) && match given {
                    Err(e) => r == Err::<Option<Expr>, _>(e) && final(self).pending().len() == 0,
                    Ok(text) => match expressions(text@) {
                        Ok(items) => {
                            if items.len() == 0 {
                                r == Ok::<_, ReadError>(None::<Expr>) && final(self).pending().len()
                                    == 0
                            } else {
                                r matches Ok(Some(e)) && e@ == items[0] && data_of(
                                    final(self).pending(),
                                ) == items.skip(1)
                            }
                        },
                        Err(f) => r matches Err(ReadError::Parse(p)) && p == parse_error_of(
                            text@,
                            f,
                        ) && final(self).pending().len() == 0,
                    },
                },
    {
        match self.next() {
            Some(e) => Ok(Some(e)),
            None => {
                let ghost source = self.input;
                let given = self.input.read();
                let ghost handed = given;
                let ghost after = self.input;
                let accepted = self.accept(given);
                proof {
                    assert(source.reads(&after, handed));
                    assert(data_of(Seq::<Expr>::empty()) =~= Seq::<Datum>::empty());
                }
                match accepted {
                    Ok(_) => {
                        let ghost waiting = self.pending();
                        let next = self.next();
                        proof {
                            let items = expressions(handed->Ok_0@)->Ok_0;
                            assert(data_of(waiting) =~= items);
                            if waiting.len() > 0 {
                                assert(data_of(waiting)[0] == waiting[0]@);
                                assert(data_of(waiting.skip(1)) =~= items.skip(1));
                            }
                        }
                        Ok(next)
                    },
                    Err(e) => Err(e),
                }
            },
        }
    }

    /// Drops the expressions that were read ahead.
    pub fn clear_buffer(&mut self)
        ensures
            final(self).pending() == Seq::<Expr>::empty(),
            final(self).source() == old(self).source(),
    {
        self.buffer = Vec::new();
        proof {
            assert(self.buffer@.reverse() =~= Seq::<Expr>::empty());
        }
    }
}

/// A source that gives one text and then is at its end.
pub struct MockTextReader {
    text: Option<String>,
}

impl MockTextReader {
    /// The text that is still to be given.
    pub closed spec fn remaining(&self) -> Option<Seq<char>> {
        match self.text {
            Some(text) => Some(text@),
            None => None,
        }
    }

    /// A source that gives `text` once.
    pub fn new(text: &str) -> (r: MockTextReader)
        ensures
            r.remaining() == Some(text@),
    {
        MockTextReader { text: Some(text.to_owned()) }
    }
}

impl Read for MockTextReader {
    type Output = String;

    /// The text is given, or the end of the input where it was given
    /// before; after that nothing remains.
    open spec fn reads(&self, after: &Self, result: ReadResult<String>) -> bool {
        &&& after.remaining() is None
        &&& match result {
            Ok(text) => self.remaining() == Some(text@),
            Err(e) => self.remaining() is None && e is Eof,
        }
    }

    fn read(&mut self) -> (r: ReadResult<String>) {
        let mut taken: Option<String> = None;
        std::mem::swap(&mut taken, &mut self.text);
        match taken {
            Some(text) => Ok(text),
            None => Err(ReadError::Eof),
        }
    }

    /// Nothing is read ahead, so nothing changes.
    open spec fn clears(&self, after: &Self) -> bool {
        after.remaining() == self.remaining()
    }

    fn clear_buffer(&mut self) {
    }
}

} // verus!
