//! The grammar of the surface syntax, as functions from a text and a
//! position in it to what is read there.
//!
//! Alternatives are tried in order and the first that matches wins. A
//! function that reads at `pos` gives the position behind what it read, so
//! that reading can go on there.
use vstd::prelude::*;
use crate::data::expression::Datum;
use crate::data::integer::{radix_value, signed};
use crate::data::number::NumberView;
use crate::data::rational::lowest_terms;
use crate::data::reals::{decimal_real, RealView};
use crate::digits::digits_value;
use crate::text::{
    hex_escape_value, is_dot_subsequent, is_initial, is_sign, is_sign_subsequent,
    is_subsequent, is_whitespace,
};

verus! {

/// Why a text could not be read.
#[derive(Clone, Copy, Debug, PartialEq, Eq, Structural)]
pub enum FailureKind {
    /// The text does not match the grammar.
    MalformedInput,
    /// An integer in a bytevector does not fit eight unsigned bits.
    InvalidByteLiteral,
    /// A hexadecimal escape names no character.
    InvalidEscape,
}

/// A failure and the position, counted in characters, at which reading
/// stopped.
pub struct Failure {
    pub kind: FailureKind,
    pub at: int,
}

pub open spec fn malformed<T>(at: int) -> Result<T, Failure> {
    Err(Failure { kind: FailureKind::MalformedInput, at })
}

/// Whether `word` stands in `s` at `pos`.
pub open spec fn has_prefix(s: Seq<char>, pos: int, word: Seq<char>) -> bool {
    &&& 0 <= pos
    &&& pos + word.len() <= s.len()
    &&& s.subrange(pos, pos + word.len()) == word
}

/// Whether the character `c` stands in `s` at `pos`.
pub open spec fn has_char(s: Seq<char>, pos: int, c: char) -> bool {
    0 <= pos < s.len() && s[pos] == c
}

/// The byte of an ASCII character.
pub open spec fn byte_of(c: char) -> u8 {
    (c as int) as u8
}

/// The bytes of a string of ASCII characters.
pub open spec fn char_bytes(s: Seq<char>) -> Seq<u8> {
    Seq::new(s.len(), |i: int| byte_of(s[i]))
}

/// The value of a digit character in a radix up to 36, or 255 where the
/// character is no digit at all.
pub open spec fn char_digit_value(c: char) -> int {
    if '0' <= c <= '9' {
        c as int - 48
    } else if 'a' <= c <= 'z' {
        c as int - 97 + 10
    } else if 'A' <= c <= 'Z' {
        c as int - 65 + 10
    } else {
        255
    }
}

/// Whether `c` is a digit of the radix.
pub open spec fn is_radix_digit(c: char, radix: int) -> bool {
    char_digit_value(c) < radix
}

/// The end of the longest run of digits of the radix that starts at `pos`.
pub open spec fn digits_end(s: Seq<char>, pos: int, radix: int) -> int
    decreases s.len() - pos,
{
    if 0 <= pos < s.len() && is_radix_digit(s[pos], radix) {
        digits_end(s, pos + 1, radix)
    } else {
        pos
    }
}

/// An optional sign at `pos`: whether it is a minus, and the position behind
/// it.
pub open spec fn sign_at(s: Seq<char>, pos: int) -> (bool, int) {
    if has_char(s, pos, '-') {
        (true, pos + 1)
    } else if has_char(s, pos, '+') {
        (false, pos + 1)
    } else {
        (false, pos)
    }
}

/// A signed run of digits of the radix: `[+-]? digit+`.
pub open spec fn integer_at(s: Seq<char>, pos: int, radix: int) -> Option<(int, int)> {
    let (negative, start) = sign_at(s, pos);
    let end = digits_end(s, start, radix);
    if end > start {
        Some((signed(negative, radix_value(char_bytes(s.subrange(start, end)), radix) as int), end))
    } else {
        None
    }
}

/// A fraction: two signed runs of digits with `/` between them. A zero
/// denominator is no fraction.
pub open spec fn rational_at(s: Seq<char>, pos: int, radix: int) -> Option<((int, int), int)> {
    match integer_at(s, pos, radix) {
        Some((n, slash)) => {
            if has_char(s, slash, '/') {
                match integer_at(s, slash + 1, radix) {
                    Some((d, end)) => {
                        if d != 0 {
                            Some((lowest_terms(n, d), end))
                        } else {
                            None
                        }
                    },
                    None => None,
                }
            } else {
                None
            }
        },
        None => None,
    }
}

/// An exponent: `e [+-]? digit+`. Where none stands at `pos`, the exponent
/// is zero and nothing is read.
pub open spec fn exponent_at(s: Seq<char>, pos: int) -> (int, int) {
    if has_char(s, pos, 'e') {
        match integer_at(s, pos + 1, 10) {
            Some((e, end)) => (e, end),
            None => (0, pos),
        }
    } else {
        (0, pos)
    }
}

/// The digits and the power of ten of an unsigned decimal number at `pos`:
/// digits with a point among them or an exponent behind them, or, where
/// `plain` is set, digits alone.
pub open spec fn mantissa_at(s: Seq<char>, pos: int, plain: bool) -> Option<(nat, int, int)> {
    let whole_end = digits_end(s, pos, 10);
    let whole = char_bytes(s.subrange(pos, whole_end));
    if has_char(s, whole_end, '.') {
        let part_end = digits_end(s, whole_end + 1, 10);
        let part = char_bytes(s.subrange(whole_end + 1, part_end));
        if whole_end > pos || part_end > whole_end + 1 {
            let (e, end) = exponent_at(s, part_end);
            Some((digits_value(whole + part), e - part.len(), end))
        } else {
            None
        }
    } else if whole_end > pos {
        let (e, end) = exponent_at(s, whole_end);
        if end > whole_end || plain {
            Some((digits_value(whole), e, end))
        } else {
            None
        }
    } else {
        None
    }
}

pub open spec fn word_inf() -> Seq<char> {
    seq!['i', 'n', 'f', '.', '0']
}

pub open spec fn word_nan() -> Seq<char> {
    seq!['n', 'a', 'n', '.', '0']
}

/// A decimal number at `pos`, with or without a sign, or one of `+inf.0`,
/// `-inf.0`, `+nan.0` and `-nan.0`. Digits alone are read where `plain` is
/// set.
pub open spec fn decimal_at(s: Seq<char>, pos: int, plain: bool) -> Option<(RealView, int)> {
    let (negative, start) = sign_at(s, pos);
    if start > pos && has_prefix(s, start, word_inf()) {
        Some((RealView::Infinite { negative }, start + 5))
    } else if start > pos && has_prefix(s, start, word_nan()) {
        Some((RealView::NotANumber { negative }, start + 5))
    } else {
        match mantissa_at(s, start, plain) {
            Some((m, e, end)) => Some((decimal_real(negative, m, e), end)),
            None => None,
        }
    }
}

/// The real number one with the given sign.
pub open spec fn unit(negative: bool) -> RealView {
    RealView::Finite { negative, mantissa: 1, exponent: 0 }
}

/// A complex number in rectangular form: a real part and a signed
/// imaginary part before `i`, an imaginary part alone, or a sign before `i`
/// for the imaginary unit.
pub open spec fn complex_at(s: Seq<char>, pos: int) -> Option<((RealView, RealView), int)> {
    match decimal_at(s, pos, true) {
        Some((first, next)) => {
            if has_char(s, next, 'i') {
                Some(((RealView::zero(false), first), next + 1))
            } else if 0 <= next < s.len() && is_sign(s[next]) {
                match decimal_at(s, next, true) {
                    Some((second, last)) => {
                        if has_char(s, last, 'i') {
                            Some(((first, second), last + 1))
                        } else {
                            None
                        }
                    },
                    None => {
                        if has_char(s, next + 1, 'i') {
                            Some(((first, unit(s[next] == '-')), next + 2))
                        } else {
                            None
                        }
                    },
                }
            } else {
                None
            }
        },
        None => {
            if 0 <= pos < s.len() && is_sign(s[pos]) && has_char(s, pos + 1, 'i') {
                Some(((RealView::zero(false), unit(s[pos] == '-')), pos + 2))
            } else {
                None
            }
        },
    }
}

/// A fraction or an integer in the given radix.
pub open spec fn exact_at(s: Seq<char>, pos: int, radix: int) -> Option<(NumberView, int)> {
    match rational_at(s, pos, radix) {
        Some(((n, d), end)) => Some((NumberView::Rational(n, d), end)),
        None => match integer_at(s, pos, radix) {
            Some((i, end)) => Some((NumberView::Integer(i), end)),
            None => None,
        },
    }
}

/// A number in radix ten: complex, real, fraction or integer, whichever
/// matches first.
pub open spec fn decimal_number_at(s: Seq<char>, pos: int) -> Option<(NumberView, int)> {
    match complex_at(s, pos) {
        Some(((re, im), end)) => Some((NumberView::Complex(re, im), end)),
        None => match decimal_at(s, pos, false) {
            Some((r, end)) => Some((NumberView::Real(r), end)),
            None => exact_at(s, pos, 10),
        },
    }
}

/// The radix that a prefix `#b`, `#o`, `#d` or `#x` at `pos` names.
pub open spec fn radix_at(s: Seq<char>, pos: int) -> Option<int> {
    if has_char(s, pos, '#') && 0 <= pos + 1 < s.len() {
        let c = s[pos + 1];
        if c == 'b' {
            Some(2int)
        } else if c == 'o' {
            Some(8int)
        } else if c == 'd' {
            Some(10int)
        } else if c == 'x' {
            Some(16int)
        } else {
            None
        }
    } else {
        None
    }
}

/// A number, with or without a radix prefix. Reals and complex numbers are
/// written in radix ten only.
pub open spec fn number_at(s: Seq<char>, pos: int) -> Option<(NumberView, int)> {
    match radix_at(s, pos) {
        Some(radix) => {
            if radix == 10 {
                decimal_number_at(s, pos + 2)
            } else {
                exact_at(s, pos + 2, radix)
            }
        },
        None => decimal_number_at(s, pos),
    }
}

/// An integer, with or without a radix prefix: an item of a bytevector.
pub open spec fn byte_literal_at(s: Seq<char>, pos: int) -> Option<(int, int)> {
    match radix_at(s, pos) {
        Some(radix) => integer_at(s, pos + 2, radix),
        None => integer_at(s, pos, 10),
    }
}

/// The end of the longest run of characters that may follow the first of
/// an identifier.
pub open spec fn subsequent_end(s: Seq<char>, pos: int) -> int
    decreases s.len() - pos,
{
    if 0 <= pos < s.len() && is_subsequent(s[pos]) {
        subsequent_end(s, pos + 1)
    } else {
        pos
    }
}

/// The end of the identifier that starts at `pos`, where one does: a plain
/// identifier, or a peculiar one that starts with a sign or a dot.
pub open spec fn identifier_end(s: Seq<char>, pos: int) -> Option<int> {
    if !(0 <= pos < s.len()) {
        None
    } else if is_initial(s[pos]) {
        Some(subsequent_end(s, pos + 1))
    } else if is_sign(s[pos]) {
        if pos + 1 < s.len() && is_sign_subsequent(s[pos + 1]) {
            Some(subsequent_end(s, pos + 2))
        } else if pos + 2 < s.len() && s[pos + 1] == '.' && is_dot_subsequent(s[pos + 2]) {
            Some(subsequent_end(s, pos + 3))
        } else {
            Some(pos + 1)
        }
    } else if s[pos] == '.' && pos + 1 < s.len() && is_dot_subsequent(s[pos + 1]) {
        Some(subsequent_end(s, pos + 2))
    } else {
        None
    }
}

/// Whether the whole of `name` is one identifier, so that it can be written
/// without quotes.
pub open spec fn is_identifier(name: Seq<char>) -> bool {
    identifier_end(name, 0) == Some(name.len() as int)
}

/// The end of the longest run of blanks and tabs that starts at `pos`.
pub open spec fn blanks_end(s: Seq<char>, pos: int) -> int
    decreases s.len() - pos,
{
    if 0 <= pos < s.len() && (s[pos] == ' ' || s[pos] == '\t') {
        blanks_end(s, pos + 1)
    } else {
        pos
    }
}

/// The position behind a line ending at `pos`, where one stands there.
pub open spec fn line_break_at(s: Seq<char>, pos: int) -> Option<int> {
    if has_char(s, pos, '\n') {
        Some(pos + 1)
    } else if has_char(s, pos, '\r') {
        if has_char(s, pos + 1, '\n') {
            Some(pos + 2)
        } else {
            Some(pos + 1)
        }
    } else {
        None
    }
}

/// What an escape gives: a character, or nothing where a line is continued.
pub enum Escaped {
    Character(char),
    Nothing,
}

/// The escape whose backslash stands just before `pos`.
pub open spec fn escape_at(s: Seq<char>, pos: int) -> Result<(Escaped, int), Failure> {
    if !(0 <= pos < s.len()) {
        malformed(pos)
    } else {
        let c = s[pos];
        if c == 'a' {
            Ok((Escaped::Character('\x07'), pos + 1))
        } else if c == 'b' {
            Ok((Escaped::Character('\x08'), pos + 1))
        } else if c == 't' {
            Ok((Escaped::Character('\t'), pos + 1))
        } else if c == 'n' {
            Ok((Escaped::Character('\n'), pos + 1))
        } else if c == 'r' {
            Ok((Escaped::Character('\r'), pos + 1))
        } else if c == '"' || c == '\\' || c == '|' {
            Ok((Escaped::Character(c), pos + 1))
        } else if c == 'x' {
            let end = digits_end(s, pos + 1, 16);
            if end > pos + 1 && has_char(s, end, ';') {
                match hex_escape_value(s.subrange(pos + 1, end)) {
                    Some(v) => Ok((Escaped::Character(v), end + 1)),
                    None => Err(Failure { kind: FailureKind::InvalidEscape, at: pos }),
                }
            } else {
                malformed(pos)
            }
        } else {
            match line_break_at(s, blanks_end(s, pos)) {
                Some(next) => Ok((Escaped::Nothing, blanks_end(s, next))),
                None => malformed(pos),
            }
        }
    }
}

/// `res` with `head` put before the characters it read.
pub open spec fn prepend(head: Seq<char>, res: Result<(Seq<char>, int), Failure>) -> Result<
    (Seq<char>, int),
    Failure,
> {
    match res {
        Ok((tail, end)) => Ok((head + tail, end)),
        Err(e) => Err(e),
    }
}

/// The content of a string or a quoted symbol from `pos` up to the closing
/// character `close`, and the position behind that.
pub open spec fn quoted_at(s: Seq<char>, pos: int, close: char) -> Result<(Seq<char>, int), Failure>
    decreases s.len() - pos,
{
    if !(0 <= pos < s.len()) {
        malformed(pos)
    } else if s[pos] == close {
        Ok((Seq::empty(), pos + 1))
    } else if s[pos] == '\\' {
        match escape_at(s, pos + 1) {
            Ok((escaped, next)) => {
                if pos < next <= s.len() {
                    match escaped {
                        Escaped::Character(c) => prepend(seq![c], quoted_at(s, next, close)),
                        Escaped::Nothing => quoted_at(s, next, close),
                    }
                } else {
                    malformed(pos)
                }
            },
            Err(e) => Err(e),
        }
    } else {
        prepend(seq![s[pos]], quoted_at(s, pos + 1, close))
    }
}

/// The position behind the line that holds `pos`: behind its line ending,
/// or the end of the text.
pub open spec fn line_end(s: Seq<char>, pos: int) -> int
    decreases s.len() - pos,
{
    if !(0 <= pos < s.len()) {
        pos
    } else if s[pos] == '\r' || s[pos] == '\n' {
        pos + 1
    } else {
        line_end(s, pos + 1)
    }
}

/// The position behind the `|#` that closes a block comment, where
/// `depth` comments are open at `pos`.
pub open spec fn block_end(s: Seq<char>, pos: int, depth: nat) -> Option<int>
    decreases s.len() - pos,
{
    if !(0 <= pos < s.len()) || depth == 0 {
        None
    } else if s[pos] == '|' && has_char(s, pos + 1, '#') {
        if depth == 1 {
            Some(pos + 2)
        } else {
            block_end(s, pos + 2, (depth - 1) as nat)
        }
    } else if s[pos] == '#' && has_char(s, pos + 1, '|') {
        block_end(s, pos + 2, depth + 1)
    } else {
        block_end(s, pos + 1, depth)
    }
}

/// The character that the name of a character stands for, and the length of
/// the name, where a name stands at `pos`.
pub open spec fn named_character_at(s: Seq<char>, pos: int) -> Option<(char, int)> {
    if has_prefix(s, pos, seq!['a', 'l', 'a', 'r', 'm']) {
        Some(('\x07', 5int))
    } else if has_prefix(s, pos, seq!['b', 'a', 'c', 'k', 's', 'p', 'a', 'c', 'e']) {
        Some(('\x08', 9int))
    } else if has_prefix(s, pos, seq!['d', 'e', 'l', 'e', 't', 'e']) {
        Some(('\x7f', 6int))
    } else if has_prefix(s, pos, seq!['e', 's', 'c', 'a', 'p', 'e']) {
        Some(('\x1b', 6int))
    } else if has_prefix(s, pos, seq!['n', 'e', 'w', 'l', 'i', 'n', 'e']) {
        Some(('\n', 7int))
    } else if has_prefix(s, pos, seq!['n', 'u', 'l', 'l']) {
        Some(('\0', 4int))
    } else if has_prefix(s, pos, seq!['r', 'e', 't', 'u', 'r', 'n']) {
        Some(('\r', 6int))
    } else if has_prefix(s, pos, seq!['s', 'p', 'a', 'c', 'e']) {
        Some((' ', 5int))
    } else if has_prefix(s, pos, seq!['t', 'a', 'b']) {
        Some(('\t', 3int))
    } else {
        None
    }
}

/// The character written behind `#\`: a name, `x` and a code point in
/// hexadecimal digits, or the character itself.
pub open spec fn character_at(s: Seq<char>, pos: int) -> Result<(char, int), Failure> {
    if !(0 <= pos < s.len()) {
        malformed(pos)
    } else {
        match named_character_at(s, pos) {
            Some((c, length)) => Ok((c, pos + length)),
            None => {
                let end = digits_end(s, pos + 1, 16);
                if s[pos] == 'x' && end > pos + 1 {
                    match hex_escape_value(s.subrange(pos + 1, end)) {
                        Some(c) => Ok((c, end)),
                        None => Err(Failure { kind: FailureKind::InvalidEscape, at: pos }),
                    }
                } else {
                    Ok((s[pos], pos + 1))
                }
            },
        }
    }
}

/// Whether the dot at `pos` starts neither a number nor an identifier, so
/// that in a list it announces the last item.
pub open spec fn is_lone_dot(s: Seq<char>, pos: int) -> bool {
    &&& has_char(s, pos, '.')
    &&& number_at(s, pos) is None
    &&& identifier_end(s, pos) is None
}

/// The name of the form that the quote mark at `pos` abbreviates, and the
/// length of the mark: `'` for `quote`, `` ` `` for `quasiquote`, `,` for
/// `unquote` and `,@` for `unquote-splicing`.
pub open spec fn quote_mark_at(s: Seq<char>, pos: int) -> Option<(Seq<char>, int)> {
    if has_char(s, pos, '\'') {
        Some(("quote"@, 1int))
    } else if has_char(s, pos, '`') {
        Some(("quasiquote"@, 1int))
    } else if has_char(s, pos, ',') {
        if has_char(s, pos + 1, '@') {
            Some(("unquote-splicing"@, 2int))
        } else {
            Some(("unquote"@, 1int))
        }
    } else {
        None
    }
}

/// The list of the symbol `name` and the expression `d`: what a quote mark
/// before `d` stands for.
pub open spec fn quoted_form(name: Seq<char>, d: Datum) -> Datum {
    Datum::Pair(
        Box::new(Datum::Symbol(name)),
        Box::new(Datum::Pair(Box::new(d), Box::new(Datum::Nil))),
    )
}

/// The position behind the blanks and comments that start at `pos`.
pub open spec fn skip_end(s: Seq<char>, pos: int) -> Result<int, Failure>
    decreases s.len() - pos, 0int,
{
    if !(0 <= pos < s.len()) {
        Ok(pos)
    } else if is_whitespace(s[pos]) {
        skip_end(s, pos + 1)
    } else if s[pos] == ';' {
        let next = line_end(s, pos + 1);
        if pos < next <= s.len() {
            skip_end(s, next)
        } else {
            malformed(pos)
        }
    } else if s[pos] == '#' && has_char(s, pos + 1, '|') {
        match block_end(s, pos + 2, 1) {
            Some(next) => {
                if pos < next <= s.len() {
                    skip_end(s, next)
                } else {
                    malformed(pos)
                }
            },
            None => malformed(pos),
        }
    } else if s[pos] == '#' && has_char(s, pos + 1, ';') {
        match skip_end(s, pos + 2) {
            Ok(start) => {
                if pos < start <= s.len() {
                    match expr_at(s, start) {
                        Ok((_, next)) => {
                            if pos < next <= s.len() {
                                skip_end(s, next)
                            } else {
                                malformed(pos)
                            }
                        },
                        Err(e) => Err(e),
                    }
                } else {
                    malformed(pos)
                }
            },
            Err(e) => Err(e),
        }
    } else {
        Ok(pos)
    }
}

/// The expression that starts at `pos`, and the position behind it.
pub open spec fn expr_at(s: Seq<char>, pos: int) -> Result<(Datum, int), Failure>
    decreases s.len() - pos, 1int,
{
    if !(0 <= pos < s.len()) {
        malformed(pos)
    } else if s[pos] == '(' {
        list_at(s, pos + 1, true)
    } else if s[pos] == '"' {
        match quoted_at(s, pos + 1, '"') {
            Ok((text, end)) => Ok((Datum::String(text), end)),
            Err(e) => Err(e),
        }
    } else if s[pos] == '|' {
        match quoted_at(s, pos + 1, '|') {
            Ok((name, end)) => Ok((Datum::Symbol(name), end)),
            Err(e) => Err(e),
        }
    } else if s[pos] == '#' {
        if has_prefix(s, pos, seq!['#', 't', 'r', 'u', 'e']) {
            Ok((Datum::Boolean(true), pos + 5))
        } else if has_prefix(s, pos, seq!['#', 't']) {
            Ok((Datum::Boolean(true), pos + 2))
        } else if has_prefix(s, pos, seq!['#', 'f', 'a', 'l', 's', 'e']) {
            Ok((Datum::Boolean(false), pos + 6))
        } else if has_prefix(s, pos, seq!['#', 'f']) {
            Ok((Datum::Boolean(false), pos + 2))
        } else if has_char(s, pos + 1, '\\') {
            match character_at(s, pos + 2) {
                Ok((c, end)) => Ok((Datum::Character(c), end)),
                Err(e) => Err(e),
            }
        } else if has_char(s, pos + 1, '(') {
            match vector_at(s, pos + 2) {
                Ok((items, end)) => Ok((Datum::Vector(items), end)),
                Err(e) => Err(e),
            }
        } else if has_prefix(s, pos, seq!['#', 'u', '8', '(']) {
            match bytes_at(s, pos + 4) {
                Ok((bytes, end)) => Ok((Datum::ByteVector(bytes), end)),
                Err(e) => Err(e),
            }
        } else {
            match number_at(s, pos) {
                Some((n, end)) => Ok((Datum::Number(n), end)),
                None => malformed(pos),
            }
        }
    } else if quote_mark_at(s, pos) is Some {
        let (name, length) = quote_mark_at(s, pos)->Some_0;
        match skip_end(s, pos + length) {
            Err(e) => Err(e),
            Ok(start) => {
                if !(pos < start <= s.len()) {
                    malformed(start)
                } else {
                    match expr_at(s, start) {
                        Err(e) => Err(e),
                        Ok((d, end)) => Ok((quoted_form(name, d), end)),
                    }
                }
            },
        }
    } else {
        match number_at(s, pos) {
            Some((n, end)) => Ok((Datum::Number(n), end)),
            None => match identifier_end(s, pos) {
                Some(end) => Ok((Datum::Symbol(s.subrange(pos, end)), end)),
                None => malformed(pos),
            },
        }
    }
}

/// The rest of a list from `pos`, up to and with its closing parenthesis.
/// Where `first` is set no item has been read yet, and a lone dot cannot
/// stand.
pub open spec fn list_at(s: Seq<char>, pos: int, first: bool) -> Result<(Datum, int), Failure>
    decreases s.len() - pos, 2int,
{
    match skip_end(s, pos) {
        Err(e) => Err(e),
        Ok(start) => {
            if start < pos || !(0 <= start < s.len()) {
                malformed(start)
            } else if s[start] == ')' {
                Ok((Datum::Nil, start + 1))
            } else if !first && is_lone_dot(s, start) {
                match skip_end(s, start + 1) {
                    Err(e) => Err(e),
                    Ok(at) => {
                        if !(pos < at <= s.len()) {
                            malformed(at)
                        } else {
                            match expr_at(s, at) {
                                Err(e) => Err(e),
                                Ok((last, next)) => {
                                    if !(pos < next <= s.len()) {
                                        malformed(next)
                                    } else {
                                        match skip_end(s, next) {
                                            Err(e) => Err(e),
                                            Ok(close) => {
                                                if has_char(s, close, ')') {
                                                    Ok((last, close + 1))
                                                } else {
                                                    malformed(close)
                                                }
                                            },
                                        }
                                    }
                                },
                            }
                        }
                    },
                }
            } else {
                match expr_at(s, start) {
                    Err(e) => Err(e),
                    Ok((item, next)) => {
                        if !(pos < next <= s.len()) {
                            malformed(next)
                        } else {
                            match list_at(s, next, false) {
                                Err(e) => Err(e),
                                Ok((rest, end)) => Ok(
                                    (Datum::Pair(Box::new(item), Box::new(rest)), end),
                                ),
                            }
                        }
                    },
                }
            }
        },
    }
}

/// The items of a vector from `pos`, up to and with its closing parenthesis.
pub open spec fn vector_at(s: Seq<char>, pos: int) -> Result<(Seq<Datum>, int), Failure>
    decreases s.len() - pos, 2int,
{
    match skip_end(s, pos) {
        Err(e) => Err(e),
        Ok(start) => {
            if start < pos || !(0 <= start < s.len()) {
                malformed(start)
            } else if s[start] == ')' {
                Ok((Seq::empty(), start + 1))
            } else {
                match expr_at(s, start) {
                    Err(e) => Err(e),
                    Ok((item, next)) => {
                        if !(pos < next <= s.len()) {
                            malformed(next)
                        } else {
                            match vector_at(s, next) {
                                Err(e) => Err(e),
                                Ok((rest, end)) => Ok((seq![item] + rest, end)),
                            }
                        }
                    },
                }
            }
        },
    }
}

/// The bytes of a bytevector from `pos`, up to and with its closing
/// parenthesis.
pub open spec fn bytes_at(s: Seq<char>, pos: int) -> Result<(Seq<u8>, int), Failure>
    decreases s.len() - pos, 2int,
{
    match skip_end(s, pos) {
        Err(e) => Err(e),
        Ok(start) => {
            if start < pos || !(0 <= start < s.len()) {
                malformed(start)
            } else if s[start] == ')' {
                Ok((Seq::empty(), start + 1))
            } else {
                match byte_literal_at(s, start) {
                    None => malformed(start),
                    Some((value, next)) => {
                        if !(0 <= value <= 255) {
                            Err(Failure { kind: FailureKind::InvalidByteLiteral, at: start })
                        } else if !(pos < next <= s.len()) {
                            malformed(next)
                        } else {
                            match bytes_at(s, next) {
                                Err(e) => Err(e),
                                Ok((rest, end)) => Ok((seq![value as u8] + rest, end)),
                            }
                        }
                    },
                }
            }
        },
    }
}

/// The expressions from `pos` to the end of the text, where `pos` stands
/// behind blanks and comments.
pub open spec fn items_at(s: Seq<char>, pos: int) -> Result<Seq<Datum>, Failure>
    decreases s.len() - pos, 2int,
{
    if !(0 <= pos < s.len()) {
        Ok(Seq::empty())
    } else {
        match expr_at(s, pos) {
            Err(e) => Err(e),
            Ok((item, next)) => match skip_end(s, next) {
                Err(e) => Err(e),
                Ok(start) => {
                    if !(pos < start <= s.len()) {
                        malformed(start)
                    } else {
                        match items_at(s, start) {
                            Err(e) => Err(e),
                            Ok(rest) => Ok(seq![item] + rest),
                        }
                    }
                },
            },
        }
    }
}

/// All the expressions of a text, or the failure at which reading it stops.
pub open spec fn expressions(s: Seq<char>) -> Result<Seq<Datum>, Failure> {
    match skip_end(s, 0) {
        Err(e) => Err(e),
        Ok(start) => items_at(s, start),
    }
}

} // verus!
