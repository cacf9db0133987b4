//! Gathering the lines that a user types until they hold whole expressions.
use vstd::prelude::*;
use crate::read::reader::{braces_match, match_braces};
use crate::text::push_char;

verus! {

/// The gatherer of the lines of an interactive session. The first line of a
/// text is asked for with `> `, each further line with `...> `; the lines
/// are joined with line feeds, and the text is whole as soon as its
/// parentheses match.
pub struct ReplTextReader {
    text: Option<String>,
}

impl ReplTextReader {
    /// The lines gathered so far, joined; nothing before the first line.
    pub closed spec fn gathered(&self) -> Option<Seq<char>> {
        match self.text {
            Some(text) => Some(text@),
            None => None,
        }
    }

    /// A gatherer that has no line yet.
    pub fn new() -> (r: ReplTextReader)
        ensures
            r.gathered() is None,
    {
        ReplTextReader { text: None }
    }

    /// The prompt with which the next line is to be asked for.
    pub fn prompt(&self) -> (r: &'static str)
        ensures
            r@ == if self.gathered() is None {
                "> "@
            } else {
                "...> "@
            },
    {
        match &self.text {
            None => "> ",
            Some(_) => "...> ",
        }
    }

    /// Takes the line that the user typed, without its line ending. Where
    /// the parentheses of the text then match, the text is handed out and
    /// the gatherer starts anew; else the line is kept and nothing is
    /// handed out.
    pub fn line(&mut self, line: &str) -> (r: Option<String>)
        ensures
            ({
                let text = match old(self).gathered() {
                    Some(before) => before + seq!['\n'] + line@,
                    None => line@,
                };
                if braces_match(text) {
                    r matches Some(whole) && whole@ == text && final(self).gathered() is None
                } else {
                    r is None && final(self).gathered() == Some(text)
                }
            }),
    {
        let mut taken: Option<String> = None;
        std::mem::swap(&mut taken, &mut self.text);
        let text = match taken {
            Some(mut text) => {
                let ghost before = text@;
                push_char(&mut text, '\n');
                text.append(line);
                proof {
                    assert(text@ =~= before + seq!['\n'] + line@);
                }
                text
            },
            None => line.to_owned(),
        };
        if match_braces(text.as_str()) {
            Some(text)
        } else {
            self.text = Some(text);
            None
        }
    }
}

} // verus!
