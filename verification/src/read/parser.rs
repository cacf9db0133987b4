//! The reader: from a text to the expressions written in it.
use vstd::prelude::*;
use std::rc::Rc;
use crate::data::expression::{data_of, Datum, Expr, Expression};
use crate::read::error::{locate, parse_error_of, ParseError, ReadError, ReadResult};
use crate::read::grammar::{
    blanks_end, block_end, bytes_at, character_at, escape_at, expr_at, expressions,
    is_lone_dot, is_radix_digit, items_at, line_break_at, line_end, list_at, prepend,
    quote_mark_at,
    quoted_at, skip_end, vector_at, Escaped, Failure, FailureKind,
};
use crate::read::tokens::{
    is_char_at, is_word_at, read_byte_literal, read_identifier, read_number, scan_digits,
    string_of,
};
use crate::text::{all_hex_digits, chars_of, hex_char, is_hex_digit, push_char, whitespace};

verus! {

/// A failure of reading, and the position at which reading stopped.
pub struct Fault {
    pub kind: FailureKind,
    pub at: usize,
}

impl View for Fault {
    type V = Failure;

    open spec fn view(&self) -> Failure {
        Failure { kind: self.kind, at: self.at as int }
    }
}

fn stuck<T>(at: usize) -> (r: Result<T, Fault>)
    ensures
        r matches Err(f) && f@ == (Failure { kind: FailureKind::MalformedInput, at: at as int })
            && f.at == at,
{
    Err(Fault { kind: FailureKind::MalformedInput, at })
}

/// The end of the run of blanks and tabs that starts at `pos`.
fn scan_blanks(chars: &Vec<char>, pos: usize) -> (r: usize)
    requires
        pos <= chars@.len(),
    ensures
        r == blanks_end(chars@, pos as int),
        pos <= r <= chars@.len(),
{
    let mut i: usize = pos;
    while i < chars.len() && (chars[i] == ' ' || chars[i] == '\t')
        invariant
            pos <= i <= chars@.len(),
            blanks_end(chars@, pos as int) == blanks_end(chars@, i as int),
        decreases chars@.len() - i,
    {
        i += 1;
    }
    i
}

/// The position behind a line ending at `pos`.
fn read_line_break(chars: &Vec<char>, pos: usize) -> (r: Option<usize>)
    requires
        pos <= chars@.len(),
    ensures
        match r {
            Some(next) => line_break_at(chars@, pos as int) == Some(next as int) && pos < next
                <= chars@.len(),
            None => line_break_at(chars@, pos as int) is None,
        },
{
    if is_char_at(chars, pos, '\n') {
        Some(pos + 1)
    } else if is_char_at(chars, pos, '\r') {
        if is_char_at(chars, pos + 1, '\n') {
            Some(pos + 2)
        } else {
            Some(pos + 1)
        }
    } else {
        None
    }
}

/// The hexadecimal digits of the grammar are those of the code points.
proof fn lemma_hex_run(s: Seq<char>, from: int, to: int)
    requires
        0 <= from <= to <= s.len(),
        forall|j: int| from <= j < to ==> is_radix_digit(#[trigger] s[j], 16),
    ensures
        all_hex_digits(s.subrange(from, to)),
{
    let run = s.subrange(from, to);
    assert forall|i: int| 0 <= i < run.len() implies is_hex_digit(#[trigger] run[i]) by {
        let c = s[from + i];
        assert(is_radix_digit(c, 16));
        assert(run[i] == c);
        lemma_hex_digit(c);
    }
}

/// A digit of radix sixteen is a hexadecimal digit.
proof fn lemma_hex_digit(c: char)
    requires
        is_radix_digit(c, 16),
    ensures
        is_hex_digit(c),
{
}

/// The escape whose backslash stands just before `pos`.
fn read_escape(chars: &Vec<char>, pos: usize) -> (r: Result<(Option<char>, usize), Fault>)
    requires
        pos <= chars@.len(),
    ensures
        match r {
            Ok((Some(c), next)) => escape_at(chars@, pos as int) == Ok::<_, Failure>(
                (Escaped::Character(c), next as int),
            ) && pos < next <= chars@.len(),
            Ok((None, next)) => escape_at(chars@, pos as int) == Ok::<_, Failure>(
                (Escaped::Nothing, next as int),
            ) && pos < next <= chars@.len(),
            Err(f) => escape_at(chars@, pos as int) == Err::<(Escaped, int), _>(f@) && f.at <= chars@.len(),
        },
{
    if pos >= chars.len() {
        return stuck(pos);
    }
    let c = chars[pos];
    if c == 'a' {
        Ok((Some('\x07'), pos + 1))
    } else if c == 'b' {
        Ok((Some('\x08'), pos + 1))
    } else if c == 't' {
        Ok((Some('\t'), pos + 1))
    } else if c == 'n' {
        Ok((Some('\n'), pos + 1))
    } else if c == 'r' {
        Ok((Some('\r'), pos + 1))
    } else if c == '"' || c == '\\' || c == '|' {
        Ok((Some(c), pos + 1))
    } else if c == 'x' {
        let end = scan_digits(chars, pos + 1, 16);
        if end > pos + 1 && is_char_at(chars, end, ';') {
            proof {
                lemma_hex_run(chars@, pos + 1, end as int);
            }
            match hex_char(chars, pos + 1, end) {
                Ok(v) => Ok((Some(v), end + 1)),
                Err(_) => Err(Fault { kind: FailureKind::InvalidEscape, at: pos }),
            }
        } else {
            stuck(pos)
        }
    } else {
        match read_line_break(chars, scan_blanks(chars, pos)) {
            Some(next) => Ok((None, scan_blanks(chars, next))),
            None => stuck(pos),
        }
    }
}

/// The content of a string or a quoted symbol up to the closing character.
fn read_quoted(chars: &Vec<char>, pos: usize, close: char) -> (r: Result<(String, usize), Fault>)
    requires
        pos <= chars@.len(),
    ensures
        match r {
            Ok((text, end)) => quoted_at(chars@, pos as int, close) == Ok::<_, Failure>(
                (text@, end as int),
            ) && pos < end <= chars@.len(),
            Err(f) => quoted_at(chars@, pos as int, close) == Err::<(Seq<char>, int), _>(f@) && f.at <= chars@.len(),
        },
{
    let mut out = String::new();
    let mut i: usize = pos;
    proof {
        assert(prepend(out@, quoted_at(chars@, i as int, close)) =~= quoted_at(
            chars@,
            i as int,
            close,
        )) by {
            match quoted_at(chars@, i as int, close) {
                Ok((tail, end)) => {
                    assert(out@ + tail =~= tail);
                },
                Err(e) => {},
            }
        }
    }
    loop
        invariant
            pos <= i <= chars@.len(),
            quoted_at(chars@, pos as int, close) == prepend(
                out@,
                quoted_at(chars@, i as int, close),
            ),
        decreases chars@.len() - i,
    {
        if i >= chars.len() {
            return stuck(i);
        }
        let c = chars[i];
        if c == close {
            proof {
                assert(out@ + Seq::<char>::empty() =~= out@);
            }
            return Ok((out, i + 1));
        }
        let ghost before = out@;
        let ghost here = quoted_at(chars@, i as int, close);
        if c == '\\' {
            match read_escape(chars, i + 1) {
                Ok((escaped, next)) => {
                    match escaped {
                        Some(v) => {
                            push_char(&mut out, v);
                            proof {
                                lemma_prepend_twice(
                                    before,
                                    seq![v],
                                    quoted_at(chars@, next as int, close),
                                );
                                assert(before + seq![v] =~= before.push(v));
                            }
                        },
                        None => {},
                    }
                    i = next;
                },
                Err(f) => {
                    return Err(f);
                },
            }
        } else {
            push_char(&mut out, c);
            proof {
                lemma_prepend_twice(before, seq![c], quoted_at(chars@, i + 1, close));
                assert(before + seq![c] =~= before.push(c));
            }
            i += 1;
        }
    }
}

/// Putting two heads before a result is putting their concatenation.
proof fn lemma_prepend_twice(a: Seq<char>, b: Seq<char>, res: Result<(Seq<char>, int), Failure>)
    ensures
        prepend(a, prepend(b, res)) == prepend(a + b, res),
{
    match res {
        Ok((tail, end)) => {
            assert(a + (b + tail) =~= (a + b) + tail);
        },
        Err(e) => {},
    }
}

/// The position behind the line that holds `pos`.
fn scan_line(chars: &Vec<char>, pos: usize) -> (r: usize)
    requires
        pos <= chars@.len(),
    ensures
        r == line_end(chars@, pos as int),
        pos <= r <= chars@.len(),
{
    let mut i: usize = pos;
    while i < chars.len() && chars[i] != '\r' && chars[i] != '\n'
        invariant
            pos <= i <= chars@.len(),
            line_end(chars@, pos as int) == line_end(chars@, i as int),
        decreases chars@.len() - i,
    {
        i += 1;
    }
    if i < chars.len() {
        i + 1
    } else {
        i
    }
}

/// The position behind the end of the block comment whose opening stands
/// just before `pos`.
fn scan_block(chars: &Vec<char>, pos: usize) -> (r: Option<usize>)
    requires
        pos <= chars@.len(),
    ensures
        match r {
            Some(end) => block_end(chars@, pos as int, 1) == Some(end as int) && pos < end
                <= chars@.len(),
            None => block_end(chars@, pos as int, 1) is None,
        },
{
    let mut i: usize = pos;
    let mut depth: usize = 1;
    while i < chars.len()
        invariant
            pos <= i <= chars@.len(),
            1 <= depth <= i - pos + 1,
            block_end(chars@, pos as int, 1) == block_end(chars@, i as int, depth as nat),
        decreases chars@.len() - i,
    {
        if chars[i] == '|' && is_char_at(chars, i + 1, '#') {
            if depth == 1 {
                return Some(i + 2);
            }
            depth -= 1;
            i += 2;
        } else if chars[i] == '#' && is_char_at(chars, i + 1, '|') {
            depth += 1;
            i += 2;
        } else {
            i += 1;
        }
    }
    None
}

/// The character written behind `#\`.
fn read_character(chars: &Vec<char>, pos: usize) -> (r: Result<(char, usize), Fault>)
    requires
        pos <= chars@.len(),
    ensures
        match r {
            Ok((c, end)) => character_at(chars@, pos as int) == Ok::<_, Failure>((c, end as int))
                && pos < end <= chars@.len(),
            Err(f) => character_at(chars@, pos as int) == Err::<(char, int), _>(f@) && f.at <= chars@.len(),
        },
{
    if pos >= chars.len() {
        return stuck(pos);
    }
    if is_word_at(chars, pos, ['a', 'l', 'a', 'r', 'm']) {
        Ok(('\x07', pos + 5))
    } else if is_word_at(chars, pos, ['b', 'a', 'c', 'k', 's', 'p', 'a', 'c', 'e']) {
        Ok(('\x08', pos + 9))
    } else if is_word_at(chars, pos, ['d', 'e', 'l', 'e', 't', 'e']) {
        Ok(('\x7f', pos + 6))
    } else if is_word_at(chars, pos, ['e', 's', 'c', 'a', 'p', 'e']) {
        Ok(('\x1b', pos + 6))
    } else if is_word_at(chars, pos, ['n', 'e', 'w', 'l', 'i', 'n', 'e']) {
        Ok(('\n', pos + 7))
    } else if is_word_at(chars, pos, ['n', 'u', 'l', 'l']) {
        Ok(('\0', pos + 4))
    } else if is_word_at(chars, pos, ['r', 'e', 't', 'u', 'r', 'n']) {
        Ok(('\r', pos + 6))
    } else if is_word_at(chars, pos, ['s', 'p', 'a', 'c', 'e']) {
        Ok((' ', pos + 5))
    } else if is_word_at(chars, pos, ['t', 'a', 'b']) {
        Ok(('\t', pos + 3))
    } else {
        let end = scan_digits(chars, pos + 1, 16);
        if chars[pos] == 'x' && end > pos + 1 {
            proof {
                lemma_hex_run(chars@, pos + 1, end as int);
            }
            match hex_char(chars, pos + 1, end) {
                Ok(c) => Ok((c, end)),
                Err(_) => Err(Fault { kind: FailureKind::InvalidEscape, at: pos }),
            }
        } else {
            Ok((chars[pos], pos + 1))
        }
    }
}

/// The position behind the blanks and comments that start at `pos`.
fn skip(chars: &Vec<char>, pos: usize) -> (r: Result<usize, Fault>)
    requires
        pos <= chars@.len(),
    ensures
        match r {
            Ok(end) => skip_end(chars@, pos as int) == Ok::<int, Failure>(end as int) && pos
                <= end <= chars@.len(),
            Err(f) => skip_end(chars@, pos as int) == Err::<int, _>(f@) && f.at <= chars@.len(),
        },
    decreases chars@.len() - pos, 0int,
{
    let mut i: usize = pos;
    loop
        invariant
            pos <= i <= chars@.len(),
            skip_end(chars@, pos as int) == skip_end(chars@, i as int),
        decreases chars@.len() - i,
    {
        if i >= chars.len() {
            return Ok(i);
        }
        let c = chars[i];
        if whitespace(c) {
            i += 1;
        } else if c == ';' {
            i = scan_line(chars, i + 1);
        } else if c == '#' && is_char_at(chars, i + 1, '|') {
            match scan_block(chars, i + 2) {
                Some(next) => {
                    i = next;
                },
                None => {
                    return stuck(i);
                },
            }
        } else if c == '#' && is_char_at(chars, i + 1, ';') {
            match skip(chars, i + 2) {
                Ok(start) => match read_expr(chars, start) {
                    Ok((_, next)) => {
                        i = next;
                    },
                    Err(f) => {
                        return Err(f);
                    },
                },
                Err(f) => {
                    return Err(f);
                },
            }
        } else {
            return Ok(i);
        }
    }
}

/// The expression that starts at `pos`.
fn read_expr(chars: &Vec<char>, pos: usize) -> (r: Result<(Expr, usize), Fault>)
    requires
        pos <= chars@.len(),
    ensures
        match r {
            Ok((e, end)) => expr_at(chars@, pos as int) == Ok::<_, Failure>((e@, end as int))
                && pos < end <= chars@.len(),
            Err(f) => expr_at(chars@, pos as int) == Err::<(Datum, int), _>(f@) && f.at <= chars@.len(),
        },
    decreases chars@.len() - pos, 1int,
{
    if pos >= chars.len() {
        return stuck(pos);
    }
    let c = chars[pos];
    if c == '(' {
        read_list(chars, pos + 1, true)
    } else if c == '"' {
        match read_quoted(chars, pos + 1, '"') {
            Ok((text, end)) => Ok((Rc::new(Expression::String(text)), end)),
            Err(f) => Err(f),
        }
    } else if c == '|' {
        match read_quoted(chars, pos + 1, '|') {
            Ok((name, end)) => Ok((Rc::new(Expression::Symbol(name)), end)),
            Err(f) => Err(f),
        }
    } else if c == '#' {
        if is_word_at(chars, pos, ['#', 't', 'r', 'u', 'e']) {
            Ok((Rc::new(Expression::Boolean(true)), pos + 5))
        } else if is_word_at(chars, pos, ['#', 't']) {
            Ok((Rc::new(Expression::Boolean(true)), pos + 2))
        } else if is_word_at(chars, pos, ['#', 'f', 'a', 'l', 's', 'e']) {
            Ok((Rc::new(Expression::Boolean(false)), pos + 6))
        } else if is_word_at(chars, pos, ['#', 'f']) {
            Ok((Rc::new(Expression::Boolean(false)), pos + 2))
        } else if is_char_at(chars, pos + 1, '\\') {
            match read_character(chars, pos + 2) {
                Ok((v, end)) => Ok((Rc::new(Expression::Character(v)), end)),
                Err(f) => Err(f),
            }
        } else if is_char_at(chars, pos + 1, '(') {
            let mut items: Vec<Expr> = Vec::new();
            proof {
                assert(data_of(items@) =~= Seq::<Datum>::empty());
            }
            match read_vector(chars, pos + 2, &mut items) {
                Ok(end) => {
                    proof {
                        Expression::lemma_vector_datum(items);
                        let rest = vector_at(chars@, pos + 2)->Ok_0.0;
                        assert(Seq::<Datum>::empty() + rest =~= rest);
                    }
                    Ok((Rc::new(Expression::Vector(items)), end))
                },
                Err(f) => Err(f),
            }
        } else if is_word_at(chars, pos, ['#', 'u', '8', '(']) {
            let mut bytes: Vec<u8> = Vec::new();
            match read_bytes(chars, pos + 4, &mut bytes) {
                Ok(end) => {
                    proof {
                        let rest = bytes_at(chars@, pos + 4)->Ok_0.0;
                        assert(Seq::<u8>::empty() + rest =~= rest);
                    }
                    Ok((Rc::new(Expression::ByteVector(bytes)), end))
                },
                Err(f) => Err(f),
            }
        } else {
            match read_number(chars, pos) {
                Some((n, end)) => Ok((Rc::new(Expression::Number(n)), end)),
                None => stuck(pos),
            }
        }
    } else if c == '\'' {
        read_quoted_form(chars, pos, 1, "quote")
    } else if c == '`' {
        read_quoted_form(chars, pos, 1, "quasiquote")
    } else if c == ',' {
        if is_char_at(chars, pos + 1, '@') {
            read_quoted_form(chars, pos, 2, "unquote-splicing")
        } else {
            read_quoted_form(chars, pos, 1, "unquote")
        }
    } else {
        match read_number(chars, pos) {
            Some((n, end)) => Ok((Rc::new(Expression::Number(n)), end)),
            None => match read_identifier(chars, pos) {
                Some(end) => Ok((Rc::new(Expression::Symbol(string_of(chars, pos, end))), end)),
                None => stuck(pos),
            },
        }
    }
}

/// The expression behind the quote mark at `pos`, in the list that the mark
/// stands for.
fn read_quoted_form(chars: &Vec<char>, pos: usize, length: usize, name: &str) -> (r: Result<
    (Expr, usize),
    Fault,
>)
    requires
        pos + length <= chars@.len() <= usize::MAX,
        length > 0,
        quote_mark_at(chars@, pos as int) == Some((name@, length as int)),
    ensures
        match r {
            Ok((e, end)) => expr_at(chars@, pos as int) == Ok::<_, Failure>((e@, end as int))
                && pos < end <= chars@.len(),
            Err(f) => expr_at(chars@, pos as int) == Err::<(Datum, int), _>(f@) && f.at
                <= chars@.len(),
        },
    decreases chars@.len() - pos, 0int,
{
    let start = match skip(chars, pos + length) {
        Ok(start) => start,
        Err(f) => {
            return Err(f);
        },
    };
    match read_expr(chars, start) {
        Ok((d, end)) => {
            let tail = crate::data::expression::pair(d, crate::data::expression::nil());
            let head = crate::data::expression::symbol(name);
            Ok((crate::data::expression::pair(head, tail), end))
        },
        Err(f) => Err(f),
    }
}

/// Whether the dot at `pos` announces the last item of a list.
fn lone_dot(chars: &Vec<char>, pos: usize) -> (r: bool)
    requires
        pos <= chars@.len(),
    ensures
        r == is_lone_dot(chars@, pos as int),
{
    is_char_at(chars, pos, '.') && read_number(chars, pos).is_none() && read_identifier(
        chars,
        pos,
    ).is_none()
}

/// The rest of a list, up to and with its closing parenthesis.
fn read_list(chars: &Vec<char>, pos: usize, first: bool) -> (r: Result<(Expr, usize), Fault>)
    requires
        pos <= chars@.len(),
    ensures
        match r {
            Ok((e, end)) => list_at(chars@, pos as int, first) == Ok::<_, Failure>(
                (e@, end as int),
            ) && pos < end <= chars@.len(),
            Err(f) => list_at(chars@, pos as int, first) == Err::<(Datum, int), _>(f@) && f.at <= chars@.len(),
        },
    decreases chars@.len() - pos, 2int,
{
    let start = match skip(chars, pos) {
        Ok(start) => start,
        Err(f) => {
            return Err(f);
        },
    };
    if start >= chars.len() {
        return stuck(start);
    }
    if chars[start] == ')' {
        return Ok((Rc::new(Expression::Nil), start + 1));
    }
    if !first && lone_dot(chars, start) {
        let at = match skip(chars, start + 1) {
            Ok(at) => at,
            Err(f) => {
                return Err(f);
            },
        };
        let (last, next) = match read_expr(chars, at) {
            Ok(found) => found,
            Err(f) => {
                return Err(f);
            },
        };
        let close = match skip(chars, next) {
            Ok(close) => close,
            Err(f) => {
                return Err(f);
            },
        };
        if is_char_at(chars, close, ')') {
            return Ok((last, close + 1));
        } else {
            return stuck(close);
        }
    }
    let (item, next) = match read_expr(chars, start) {
        Ok(found) => found,
        Err(f) => {
            return Err(f);
        },
    };
    match read_list(chars, next, false) {
        Ok((rest, end)) => Ok((Rc::new(Expression::Pair(item, rest)), end)),
        Err(f) => Err(f),
    }
}

/// The items of a vector, up to and with its closing parenthesis; they
/// are put behind those that `items` holds.
fn read_vector(chars: &Vec<char>, pos: usize, items: &mut Vec<Expr>) -> (r: Result<usize, Fault>)
    requires
        pos <= chars@.len(),
    ensures
        match r {
            Ok(end) => vector_at(chars@, pos as int) matches Ok((rest, e)) && e == end
                && data_of(final(items)@) == data_of(old(items)@) + rest && pos < end
                <= chars@.len(),
            Err(f) => vector_at(chars@, pos as int) == Err::<(Seq<Datum>, int), _>(f@) && f.at <= chars@.len(),
        },
    decreases chars@.len() - pos, 2int,
{
    let start = match skip(chars, pos) {
        Ok(start) => start,
        Err(f) => {
            return Err(f);
        },
    };
    if start >= chars.len() {
        return stuck(start);
    }
    if chars[start] == ')' {
        proof {
            assert(data_of(items@) + Seq::<Datum>::empty() =~= data_of(items@));
        }
        return Ok(start + 1);
    }
    let (item, next) = match read_expr(chars, start) {
        Ok(found) => found,
        Err(f) => {
            return Err(f);
        },
    };
    let ghost before = data_of(items@);
    items.push(item);
    proof {
        assert(data_of(items@) =~= before.push(item@));
    }
    match read_vector(chars, next, items) {
        Ok(end) => {
            proof {
                let rest = vector_at(chars@, next as int)->Ok_0.0;
                assert(before.push(item@) + rest =~= before + (seq![item@] + rest));
            }
            Ok(end)
        },
        Err(f) => Err(f),
    }
}

/// The bytes of a bytevector, up to and with its closing parenthesis; they
/// are put behind those that `bytes` holds.
fn read_bytes(chars: &Vec<char>, pos: usize, bytes: &mut Vec<u8>) -> (r: Result<usize, Fault>)
    requires
        pos <= chars@.len(),
    ensures
        match r {
            Ok(end) => bytes_at(chars@, pos as int) matches Ok((rest, e)) && e == end
                && final(bytes)@ == old(bytes)@ + rest && pos < end <= chars@.len(),
            Err(f) => bytes_at(chars@, pos as int) == Err::<(Seq<u8>, int), _>(f@) && f.at <= chars@.len(),
        },
    decreases chars@.len() - pos, 2int,
{
    let start = match skip(chars, pos) {
        Ok(start) => start,
        Err(f) => {
            return Err(f);
        },
    };
    if start >= chars.len() {
        return stuck(start);
    }
    if chars[start] == ')' {
        proof {
            assert(bytes@ + Seq::<u8>::empty() =~= bytes@);
        }
        return Ok(start + 1);
    }
    match read_byte_literal(chars, start) {
        None => stuck(start),
        Some((value, next)) => match value.to_u8() {
            None => Err(Fault { kind: FailureKind::InvalidByteLiteral, at: start }),
            Some(b) => {
                let ghost before = bytes@;
                bytes.push(b);
                match read_bytes(chars, next, bytes) {
                    Ok(end) => {
                        proof {
                            let rest = bytes_at(chars@, next as int)->Ok_0.0;
                            assert(before.push(b) + rest =~= before + (seq![b] + rest));
                        }
                        Ok(end)
                    },
                    Err(f) => Err(f),
                }
            },
        },
    }
}

/// `res` with `head` put before the items it holds.
pub open spec fn prefixed(head: Seq<Datum>, res: Result<Seq<Datum>, Failure>) -> Result<
    Seq<Datum>,
    Failure,
> {
    match res {
        Ok(tail) => Ok(head + tail),
        Err(e) => Err(e),
    }
}

/// Reads all the expressions of a text. Blanks and comments may stand
/// between them, before the first and behind the last. Where any part of the
/// text is no expression, nothing is handed out but the error, which tells
/// why and where reading stopped.
pub fn parse(text: &str) -> (r: ReadResult<Vec<Expr>>)
    ensures
        match r {
            Ok(items) => expressions(text@) == Ok::<_, Failure>(data_of(items@)),
            Err(e) => expressions(text@) matches Err(f) && e matches ReadError::Parse(p) && p
                == parse_error_of(text@, f),
        },
{
    let chars = chars_of(text);
    match parse_chars(&chars) {
        Ok(items) => Ok(items),
        Err(f) => Err(
            ReadError::Parse(ParseError { kind: f.kind, location: locate(&chars, f.at) }),
        ),
    }
}

/// Reads all the expressions of a text given by its characters.
pub fn parse_chars(chars: &Vec<char>) -> (r: Result<Vec<Expr>, Fault>)
    ensures
        match r {
            Ok(items) => expressions(chars@) == Ok::<_, Failure>(data_of(items@)),
            Err(f) => expressions(chars@) == Err::<Seq<Datum>, _>(f@) && f.at <= chars@.len(),
        },
{
    let mut items: Vec<Expr> = Vec::new();
    let mut pos: usize = match skip(chars, 0) {
        Ok(start) => start,
        Err(f) => {
            return Err(f);
        },
    };
    proof {
        lemma_prefixed_empty(items_at(chars@, pos as int));
        assert(data_of(items@) =~= Seq::<Datum>::empty());
    }
    while pos < chars.len()
        invariant
            pos <= chars@.len(),
            expressions(chars@) == prefixed(data_of(items@), items_at(chars@, pos as int)),
        decreases chars@.len() - pos,
    {
        let (item, next) = match read_expr(chars, pos) {
            Ok(found) => found,
            Err(f) => {
                return Err(f);
            },
        };
        let start = match skip(chars, next) {
            Ok(start) => start,
            Err(f) => {
                return Err(f);
            },
        };
        let ghost before = data_of(items@);
        items.push(item);
        proof {
            assert(data_of(items@) =~= before.push(item@));
            match items_at(chars@, start as int) {
                Ok(rest) => {
                    assert(before + (seq![item@] + rest) =~= before.push(item@) + rest);
                },
                Err(e) => {},
            }
        }
        pos = start;
    }
    proof {
        assert(data_of(items@) + Seq::<Datum>::empty() =~= data_of(items@));
    }
    Ok(items)
}

proof fn lemma_prefixed_empty(res: Result<Seq<Datum>, Failure>)
    ensures
        prefixed(Seq::empty(), res) == res,
{
    match res {
        Ok(tail) => {
            assert(Seq::<Datum>::empty() + tail =~= tail);
        },
        Err(e) => {},
    }
}

} // verus!
