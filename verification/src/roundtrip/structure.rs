//! Whole expressions read back.
use vstd::prelude::*;
use crate::data::expression::Datum;
use crate::data::number::NumberView;
use crate::digits::int_text;
use crate::print::printer::{bytes_text, expression_text, items_text, tail_text};
use crate::read::grammar::{
    byte_literal_at, bytes_at, expr_at, expressions, has_char, has_prefix, identifier_end,
    is_identifier, is_lone_dot, items_at, list_at, number_at, skip_end, vector_at, Failure,
};
use crate::roundtrip::numbers::{lemma_integer_alone, lemma_number_reads_back};
use crate::roundtrip::runs::{closed_at, lemma_split, lemma_standing};
use crate::roundtrip::tokens::{
    lemma_character_reads_back, lemma_no_boolean, lemma_not_standing, lemma_string_reads_back,
    lemma_symbol_reads_back,
};
use crate::text::{ascii_chars, is_decimal_digit, is_whitespace};

verus! {

/// An expression whose symbols cannot be taken for numbers: where the name
/// of a symbol is an identifier, and so is written without quotes, it does
/// not start as a number does.
pub open spec fn plainly_written(d: Datum) -> bool
    decreases d,
{
    match d {
        Datum::Symbol(name) => is_identifier(name) ==> number_at(name, 0) is None,
        Datum::Pair(car, cdr) => plainly_written(*car) && plainly_written(*cdr),
        Datum::Vector(items) => forall|i: int|
            0 <= i < items.len() ==> plainly_written(#[trigger] items[i]),
        _ => true,
    }
}

/// The expressions of which the round trip is shown: those in normal form
/// that are plainly written.
pub open spec fn reads_back(d: Datum) -> bool {
    d.wf() && plainly_written(d)
}

/// An expression may start at `pos`: no blank, no comment and no closing
/// parenthesis stands there.
pub open spec fn starts_expression(s: Seq<char>, pos: int) -> bool {
    &&& 0 <= pos < s.len()
    &&& !is_whitespace(s[pos])
    &&& s[pos] != ';'
    &&& s[pos] != ')'
    &&& s[pos] == '#' ==> !has_char(s, pos + 1, '|') && !has_char(s, pos + 1, ';')
}

/// Where an expression may start, nothing is skipped.
proof fn lemma_nothing_skipped(s: Seq<char>, pos: int)
    requires
        starts_expression(s, pos) || pos == s.len() || has_char(s, pos, ')'),
        0 <= pos,
    ensures
        skip_end(s, pos) == Ok::<int, Failure>(pos),
{
}

/// A blank before an expression is skipped.
proof fn lemma_blank_skipped(s: Seq<char>, pos: int)
    requires
        has_char(s, pos, ' '),
        starts_expression(s, pos + 1) || has_char(s, pos + 1, '.'),
    ensures
        skip_end(s, pos) == Ok::<int, Failure>(pos + 1),
{
    assert(skip_end(s, pos + 1) == Ok::<int, Failure>(pos + 1));
}

/// A dot with a blank behind it starts neither a number nor an identifier.
proof fn lemma_lone_dot(s: Seq<char>, pos: int)
    requires
        has_char(s, pos, '.'),
        has_char(s, pos + 1, ' '),
    ensures
        is_lone_dot(s, pos),
{
    let t = seq!['.'];
    assert(s.subrange(pos, pos + 1) =~= t);
    crate::roundtrip::local::lemma_local_number(s, pos, t);
    crate::roundtrip::local::lemma_local_identifier(s, pos, t);
    assert(crate::read::grammar::digits_end(t, 0, 10) == 0);
    assert(crate::read::grammar::digits_end(t, 1, 10) == 1);
    assert(crate::read::grammar::sign_at(t, 0) == (false, 0int));
    assert(crate::read::grammar::mantissa_at(t, 0, true) is None);
    assert(crate::read::grammar::mantissa_at(t, 0, false) is None);
    assert(crate::read::grammar::decimal_at(t, 0, true) is None);
    assert(crate::read::grammar::decimal_at(t, 0, false) is None);
    assert(crate::read::grammar::complex_at(t, 0) is None);
    assert(crate::read::grammar::integer_at(t, 0, 10) is None);
    assert(crate::read::grammar::rational_at(t, 0, 10) is None);
    assert(crate::read::grammar::exact_at(t, 0, 10) is None);
    assert(number_at(t, 0) is None);
    assert(identifier_end(t, 0) is None);
}

/// The text of the bytes of a bytevector from the `k`th on, each behind a
/// blank but the first of all.
pub open spec fn bytes_from(bytes: Seq<u8>, k: int) -> Seq<char>
    decreases bytes.len() - k,
{
    if 0 <= k < bytes.len() {
        (if k == 0 {
            Seq::<char>::empty()
        } else {
            seq![' ']
        }) + ascii_chars(int_text(bytes[k] as int)) + bytes_from(bytes, k + 1)
    } else {
        Seq::empty()
    }
}

proof fn lemma_bytes_parts(bytes: Seq<u8>, k: int)
    requires
        0 <= k <= bytes.len(),
    ensures
        bytes_text(bytes.take(k)) + bytes_from(bytes, k) == bytes_text(bytes),
    decreases bytes.len() - k,
{
    if k == bytes.len() {
        assert(bytes.take(k) =~= bytes);
        assert(bytes_text(bytes) + Seq::<char>::empty() =~= bytes_text(bytes));
    } else {
        lemma_bytes_parts(bytes, k + 1);
        let now = bytes.take(k + 1);
        assert(now.drop_last() =~= bytes.take(k));
        assert(now.last() == bytes[k]);
        let one = ascii_chars(int_text(bytes[k] as int));
        if k == 0 {
            assert(bytes.take(0) =~= Seq::<u8>::empty());
            assert(bytes_text(now) =~= one);
            assert(bytes_text(bytes.take(k)) + (Seq::<char>::empty() + one + bytes_from(
                bytes,
                k + 1,
            )) =~= bytes_text(now) + bytes_from(bytes, k + 1));
        } else {
            assert(bytes_text(now) == bytes_text(bytes.take(k)) + seq![' '] + one);
            assert(bytes_text(bytes.take(k)) + (seq![' '] + one + bytes_from(bytes, k + 1))
                =~= bytes_text(now) + bytes_from(bytes, k + 1));
        }
    }
}

/// The bytes of a bytevector from the `k`th on, and the closing
/// parenthesis, are read as the bytes.
proof fn lemma_bytes_read_back(s: Seq<char>, pos: int, bytes: Seq<u8>, k: int)
    requires
        0 <= k <= bytes.len(),
        has_prefix(s, pos, bytes_from(bytes, k) + seq![')']),
    ensures
        bytes_at(s, pos) == Ok::<_, Failure>((bytes.skip(k), pos + bytes_from(bytes, k).len() + 1)),
    decreases bytes.len() - k,
{
    let rest = bytes_from(bytes, k) + seq![')'];
    lemma_standing(s, pos, rest);
    assert(s[pos + 0] == rest[0]);
    if k == bytes.len() {
        lemma_nothing_skipped(s, pos);
        assert(bytes.skip(k) =~= Seq::<u8>::empty());
    } else {
        let lead: Seq<char> = if k == 0 {
            Seq::empty()
        } else {
            seq![' ']
        };
        let one = ascii_chars(int_text(bytes[k] as int));
        let tail = bytes_from(bytes, k + 1) + seq![')'];
        assert(rest =~= lead + (one + tail));
        lemma_split(s, pos, lead, one + tail);
        let start = pos + lead.len();
        lemma_split(s, start, one, tail);
        lemma_standing(s, start, one);
        lemma_standing(s, start + one.len(), tail);
        let next = start + one.len();
        assert(s[next + 0] == tail[0]);
        assert(s[next] == ' ' || s[next] == ')') by {
            if k + 1 < bytes.len() {
                assert(tail[0] == ' ');
            } else {
                assert(tail[0] == ')');
            }
        }
        crate::digits::lemma_int_text(bytes[k] as int);
        lemma_integer_alone(s, start, bytes[k] as int);
        assert(is_decimal_digit(s[start])) by {
            crate::roundtrip::runs::lemma_integer_reads_back(s, start, bytes[k] as int);
        }
        if k == 0 {
            lemma_nothing_skipped(s, pos);
        } else {
            lemma_blank_skipped(s, pos);
        }
        assert(byte_literal_at(s, start) == Some((bytes[k] as int, next)));
        lemma_bytes_read_back(s, next, bytes, k + 1);
        assert(seq![bytes[k]] + bytes.skip(k + 1) =~= bytes.skip(k));
    }
}

/// The text of the items of a vector from the `k`th on, each behind a blank
/// but the first of all.
pub open spec fn items_from(items: Seq<Datum>, k: int) -> Seq<char>
    decreases items.len() - k,
{
    if 0 <= k < items.len() {
        (if k == 0 {
            Seq::<char>::empty()
        } else {
            seq![' ']
        }) + expression_text(items[k]) + items_from(items, k + 1)
    } else {
        Seq::empty()
    }
}

proof fn lemma_items_parts(items: Seq<Datum>, k: int)
    requires
        0 <= k <= items.len(),
    ensures
        items_text(items.take(k)) + items_from(items, k) == items_text(items),
    decreases items.len() - k,
{
    if k == items.len() {
        assert(items.take(k) =~= items);
        assert(items_text(items) + Seq::<char>::empty() =~= items_text(items));
    } else {
        lemma_items_parts(items, k + 1);
        let now = items.take(k + 1);
        assert(now.drop_last() =~= items.take(k));
        assert(now.last() == items[k]);
        let one = expression_text(items[k]);
        if k == 0 {
            assert(items.take(0) =~= Seq::<Datum>::empty());
            assert(now[0] == items[0]);
            assert(items_text(now) =~= one);
            assert(items_text(items.take(k)) + (Seq::<char>::empty() + one + items_from(
                items,
                k + 1,
            )) =~= items_text(now) + items_from(items, k + 1));
        } else {
            assert(items_text(now) == items_text(items.take(k)) + seq![' '] + one);
            assert(items_text(items.take(k)) + (seq![' '] + one + items_from(items, k + 1))
                =~= items_text(now) + items_from(items, k + 1));
        }
    }
}

/// What the reading of the text of `d` at `pos` comes to.
pub open spec fn read_back_at(s: Seq<char>, pos: int, d: Datum) -> bool {
    &&& expr_at(s, pos) == Ok::<_, Failure>((d, pos + expression_text(d).len()))
    &&& expression_text(d).len() > 0
    &&& starts_expression(s, pos)
    &&& !is_lone_dot(s, pos)
}

/// What the reading of what follows the first item of a list comes to.
pub open spec fn tail_read_back_at(s: Seq<char>, pos: int, d: Datum) -> bool {
    list_at(s, pos, false) == Ok::<_, Failure>((d, pos + tail_text(d).len()))
}

proof fn lemma_nil_reads_back(s: Seq<char>, pos: int)
    requires
        has_prefix(s, pos, expression_text(Datum::Nil)),
    ensures
        read_back_at(s, pos, Datum::Nil),
{
    let text = expression_text(Datum::Nil);
    lemma_standing(s, pos, text);
    assert(s[pos + 0] == text[0]);
    assert(s[pos + 1] == text[1]);
    lemma_nothing_skipped(s, pos + 1);
    assert(list_at(s, pos + 1, true) == Ok::<_, Failure>((Datum::Nil, pos + 2)));
    assert(expr_at(s, pos) == Ok::<_, Failure>((Datum::Nil, pos + 2)));
    assert(starts_expression(s, pos));
    assert(!is_lone_dot(s, pos));
}

proof fn lemma_boolean_reads_back(s: Seq<char>, pos: int, b: bool)
    requires
        has_prefix(s, pos, expression_text(Datum::Boolean(b))),
        closed_at(s, pos + 2),
    ensures
        read_back_at(s, pos, Datum::Boolean(b)),
{
    let text = expression_text(Datum::Boolean(b));
    lemma_standing(s, pos, text);
    assert(s[pos + 0] == text[0]);
    assert(s[pos + 1] == text[1]);
    lemma_not_standing(s, pos, seq!['#', 't', 'r', 'u', 'e'], if b {
        2int
    } else {
        1int
    });
    lemma_not_standing(s, pos, seq!['#', 'f', 'a', 'l', 's', 'e'], if b {
        1int
    } else {
        2int
    });
    if b {
        assert(s.subrange(pos, pos + 2) =~= seq!['#', 't']);
    } else {
        lemma_not_standing(s, pos, seq!['#', 't'], 1);
        assert(s.subrange(pos, pos + 2) =~= seq!['#', 'f']);
    }
}

proof fn lemma_number_expression_reads_back(s: Seq<char>, pos: int, n: NumberView)
    requires
        reads_back(Datum::Number(n)),
        has_prefix(s, pos, expression_text(Datum::Number(n))),
        closed_at(s, pos + expression_text(Datum::Number(n)).len()),
    ensures
        read_back_at(s, pos, Datum::Number(n)),
{
    lemma_number_reads_back(s, pos, n);
}

proof fn lemma_character_expression_reads_back(s: Seq<char>, pos: int, c: char)
    requires
        has_prefix(s, pos, expression_text(Datum::Character(c))),
        closed_at(s, pos + expression_text(Datum::Character(c)).len()),
    ensures
        read_back_at(s, pos, Datum::Character(c)),
{
    let text = expression_text(Datum::Character(c));
    lemma_standing(s, pos, text);
    lemma_character_reads_back(s, pos, c);
    assert(s[pos + 0] == text[0]);
    assert(s[pos + 1] == text[1]);
}

proof fn lemma_string_expression_reads_back(s: Seq<char>, pos: int, t: Seq<char>)
    requires
        has_prefix(s, pos, expression_text(Datum::String(t))),
    ensures
        read_back_at(s, pos, Datum::String(t)),
{
    lemma_string_reads_back(s, pos, t);
}

proof fn lemma_symbol_expression_reads_back(s: Seq<char>, pos: int, name: Seq<char>)
    requires
        reads_back(Datum::Symbol(name)),
        has_prefix(s, pos, expression_text(Datum::Symbol(name))),
        closed_at(s, pos + expression_text(Datum::Symbol(name)).len()),
    ensures
        read_back_at(s, pos, Datum::Symbol(name)),
{
    lemma_symbol_reads_back(s, pos, name);
}

proof fn lemma_bytevector_reads_back(s: Seq<char>, pos: int, bytes: Seq<u8>)
    requires
        has_prefix(s, pos, expression_text(Datum::ByteVector(bytes))),
    ensures
        read_back_at(s, pos, Datum::ByteVector(bytes)),
{
    let text = expression_text(Datum::ByteVector(bytes));
    lemma_standing(s, pos, text);
    lemma_bytes_parts(bytes, 0);
    assert(bytes.take(0) =~= Seq::<u8>::empty());
    assert(bytes_text(bytes) =~= bytes_from(bytes, 0));
    assert(text =~= seq!['#', 'u', '8', '('] + (bytes_from(bytes, 0) + seq![')']));
    lemma_split(s, pos, seq!['#', 'u', '8', '('], bytes_from(bytes, 0) + seq![')']);
    assert(s[pos + 0] == text[0]);
    assert(s[pos + 1] == text[1]);
    assert(s[pos + 2] == text[2]);
    assert(s[pos + 3] == text[3]);
    lemma_no_boolean(s, pos);
    assert(s.subrange(pos, pos + 4) =~= seq!['#', 'u', '8', '(']);
    lemma_bytes_read_back(s, pos + 4, bytes, 0);
    assert(bytes.skip(0) =~= bytes);
}

/// The parts of the text of a pair, each at its place.
proof fn lemma_pair_parts(s: Seq<char>, pos: int, car: Datum, cdr: Datum, lead: char)
    requires
        has_prefix(s, pos, seq![lead] + expression_text(car) + tail_text(cdr)),
    ensures
        has_char(s, pos, lead),
        has_prefix(s, pos + 1, expression_text(car)),
        closed_at(s, pos + 1 + expression_text(car).len()),
        has_prefix(s, pos + 1 + expression_text(car).len(), tail_text(cdr)),
{
    let first = expression_text(car);
    let tail = tail_text(cdr);
    let text = seq![lead] + first + tail;
    lemma_standing(s, pos, text);
    lemma_split(s, pos, seq![lead] + first, tail);
    lemma_split(s, pos, seq![lead], first);
    assert(s[pos + 0] == text[0]);
    let next = pos + 1 + first.len();
    lemma_tail_start(cdr);
    lemma_standing(s, next, tail);
    assert(s[next + 0] == tail[0]);
}

/// A pair is read from its parts.
#[verifier::rlimit(60)]
proof fn lemma_pair_read(s: Seq<char>, pos: int, car: Datum, cdr: Datum)
    requires
        has_char(s, pos, '('),
        read_back_at(s, pos + 1, car),
        tail_read_back_at(s, pos + 1 + expression_text(car).len(), cdr),
    ensures
        read_back_at(s, pos, Datum::Pair(Box::new(car), Box::new(cdr))),
{
    lemma_nothing_skipped(s, pos + 1);
    let d = Datum::Pair(Box::new(car), Box::new(cdr));
    let text = expression_text(d);
    assert(text.len() == 1 + expression_text(car).len() + tail_text(cdr).len());
    assert(list_at(s, pos + 1, true) == Ok::<_, Failure>((d, pos + text.len())));
    assert(expr_at(s, pos) == Ok::<_, Failure>((d, pos + text.len())));
}

/// The rest of a list is read from its parts.
proof fn lemma_tail_read(s: Seq<char>, pos: int, car: Datum, cdr: Datum)
    requires
        has_char(s, pos, ' '),
        read_back_at(s, pos + 1, car),
        tail_read_back_at(s, pos + 1 + expression_text(car).len(), cdr),
    ensures
        tail_read_back_at(s, pos, Datum::Pair(Box::new(car), Box::new(cdr))),
{
    lemma_blank_skipped(s, pos);
    let text = tail_text(Datum::Pair(Box::new(car), Box::new(cdr)));
    assert(text.len() == 1 + expression_text(car).len() + tail_text(cdr).len());
}

/// The parts of the text of the last part of a list that does not end in
/// `Nil`.
proof fn lemma_last_parts(s: Seq<char>, pos: int, d: Datum)
    requires
        !(d is Nil),
        !(d is Pair),
        has_prefix(s, pos, tail_text(d)),
    ensures
        has_char(s, pos, ' '),
        has_char(s, pos + 1, '.'),
        has_char(s, pos + 2, ' '),
        has_prefix(s, pos + 3, expression_text(d)),
        has_char(s, pos + 3 + expression_text(d).len(), ')'),
        tail_text(d).len() == expression_text(d).len() + 4,
{
    let text = tail_text(d);
    let last = expression_text(d);
    lemma_standing(s, pos, text);
    assert(text == seq![' ', '.', ' '] + last + seq![')']);
    lemma_split(s, pos, seq![' ', '.', ' '] + last, seq![')']);
    lemma_split(s, pos, seq![' ', '.', ' '], last);
    assert(s[pos + 0] == text[0]);
    assert(s[pos + 1] == text[1]);
    assert(s[pos + 2] == text[2]);
    let close = pos + 3 + last.len();
    assert(s[close] == ')') by {
        assert(text[(3 + last.len()) as int] == ')');
    }
}

/// The last part of a list that does not end in `Nil` is read from its
/// parts.
proof fn lemma_last_read(s: Seq<char>, pos: int, d: Datum)
    requires
        !(d is Nil),
        !(d is Pair),
        has_char(s, pos, ' '),
        has_char(s, pos + 1, '.'),
        has_char(s, pos + 2, ' '),
        read_back_at(s, pos + 3, d),
        has_char(s, pos + 3 + expression_text(d).len(), ')'),
        tail_text(d).len() == expression_text(d).len() + 4,
    ensures
        tail_read_back_at(s, pos, d),
{
    let close = pos + 3 + expression_text(d).len();
    lemma_blank_skipped(s, pos);
    lemma_lone_dot(s, pos + 1);
    lemma_blank_skipped(s, pos + 2);
    lemma_nothing_skipped(s, close);
}

/// The parts of the text of a vector.
proof fn lemma_vector_parts(s: Seq<char>, pos: int, items: Seq<Datum>)
    requires
        has_prefix(s, pos, expression_text(Datum::Vector(items))),
    ensures
        has_char(s, pos, '#'),
        has_char(s, pos + 1, '('),
        has_prefix(s, pos + 2, items_from(items, 0) + seq![')']),
        expression_text(Datum::Vector(items)).len() == items_from(items, 0).len() + 3,
{
    let text = expression_text(Datum::Vector(items));
    lemma_standing(s, pos, text);
    lemma_items_parts(items, 0);
    assert(items.take(0) =~= Seq::<Datum>::empty());
    assert(items_text(items) =~= items_from(items, 0));
    assert(text =~= seq!['#', '('] + (items_from(items, 0) + seq![')']));
    lemma_split(s, pos, seq!['#', '('], items_from(items, 0) + seq![')']);
    assert(s[pos + 0] == text[0]);
    assert(s[pos + 1] == text[1]);
}

/// A vector is read from its items.
proof fn lemma_vector_read(s: Seq<char>, pos: int, items: Seq<Datum>)
    requires
        has_char(s, pos, '#'),
        has_char(s, pos + 1, '('),
        items_read_back_at(s, pos + 2, items, 0),
        expression_text(Datum::Vector(items)).len() == items_from(items, 0).len() + 3,
    ensures
        read_back_at(s, pos, Datum::Vector(items)),
{
    lemma_no_boolean(s, pos);
    assert(items.skip(0) =~= items);
}

/// The text of an expression is read as an expression equal to it.
pub proof fn lemma_expression_reads_back(s: Seq<char>, pos: int, d: Datum)
    requires
        reads_back(d),
        has_prefix(s, pos, expression_text(d)),
        closed_at(s, pos + expression_text(d).len()),
    ensures
        read_back_at(s, pos, d),
    decreases d, 0int,
{
    match d {
        Datum::Nil => {
            lemma_nil_reads_back(s, pos);
        },
        Datum::Boolean(b) => {
            lemma_boolean_reads_back(s, pos, b);
        },
        Datum::Number(n) => {
            lemma_number_expression_reads_back(s, pos, n);
        },
        Datum::Character(c) => {
            lemma_character_expression_reads_back(s, pos, c);
        },
        Datum::String(t) => {
            lemma_string_expression_reads_back(s, pos, t);
        },
        Datum::Symbol(name) => {
            lemma_symbol_expression_reads_back(s, pos, name);
        },
        Datum::Pair(car, cdr) => {
            lemma_pair_parts(s, pos, *car, *cdr, '(');
            lemma_expression_reads_back(s, pos + 1, *car);
            lemma_tail_reads_back(s, pos + 1 + expression_text(*car).len(), *cdr);
            lemma_pair_read(s, pos, *car, *cdr);
        },
        Datum::Vector(items) => {
            lemma_vector_parts(s, pos, items);
            lemma_items_read_back(s, pos + 2, items, 0);
            lemma_vector_read(s, pos, items);
        },
        Datum::ByteVector(bytes) => {
            lemma_bytevector_reads_back(s, pos, bytes);
        },
    }
}

/// What follows the first item of a list starts with a blank or the closing
/// parenthesis.
proof fn lemma_tail_start(d: Datum)
    ensures
        tail_text(d).len() > 0,
        tail_text(d)[0] == ' ' || tail_text(d)[0] == ')',
{
    match d {
        Datum::Nil => {},
        Datum::Pair(car, cdr) => {
            assert(tail_text(d)[0] == ' ');
        },
        _ => {
            assert(tail_text(d)[0] == ' ');
        },
    }
}

proof fn lemma_end_reads_back(s: Seq<char>, pos: int)
    requires
        has_prefix(s, pos, tail_text(Datum::Nil)),
    ensures
        tail_read_back_at(s, pos, Datum::Nil),
{
    let text = tail_text(Datum::Nil);
    lemma_standing(s, pos, text);
    assert(s[pos + 0] == text[0]);
    lemma_nothing_skipped(s, pos);
}

/// What is written behind the first item of a list is read as the rest of
/// the list.
proof fn lemma_tail_reads_back(s: Seq<char>, pos: int, d: Datum)
    requires
        reads_back(d),
        has_prefix(s, pos, tail_text(d)),
    ensures
        tail_read_back_at(s, pos, d),
    decreases d, 1int,
{
    match d {
        Datum::Nil => {
            lemma_end_reads_back(s, pos);
        },
        Datum::Pair(car, cdr) => {
            lemma_pair_parts(s, pos, *car, *cdr, ' ');
            lemma_expression_reads_back(s, pos + 1, *car);
            lemma_tail_reads_back(s, pos + 1 + expression_text(*car).len(), *cdr);
            lemma_tail_read(s, pos, *car, *cdr);
        },
        _ => {
            lemma_last_parts(s, pos, d);
            assert(closed_at(s, pos + 3 + expression_text(d).len()));
            lemma_expression_reads_back(s, pos + 3, d);
            lemma_last_read(s, pos, d);
        },
    }
}

/// The number of blanks before the `k`th item of a vector.
pub open spec fn lead(k: int) -> int {
    if k == 0 {
        0
    } else {
        1
    }
}

/// What the reading of the items of a vector from the `k`th on comes to.
pub open spec fn items_read_back_at(s: Seq<char>, pos: int, items: Seq<Datum>, k: int) -> bool {
    vector_at(s, pos) == Ok::<_, Failure>((items.skip(k), pos + items_from(items, k).len() + 1))
}

/// The parts of the text of the items of a vector from the `k`th on.
proof fn lemma_item_parts(s: Seq<char>, pos: int, items: Seq<Datum>, k: int)
    requires
        0 <= k < items.len(),
        has_prefix(s, pos, items_from(items, k) + seq![')']),
    ensures
        k > 0 ==> has_char(s, pos, ' '),
        has_prefix(s, pos + lead(k), expression_text(items[k])),
        closed_at(s, pos + lead(k) + expression_text(items[k]).len()),
        has_prefix(
            s,
            pos + lead(k) + expression_text(items[k]).len(),
            items_from(items, k + 1) + seq![')'],
        ),
        items_from(items, k).len() == lead(k) + expression_text(items[k]).len() + items_from(
            items,
            k + 1,
        ).len(),
{
    let rest = items_from(items, k) + seq![')'];
    lemma_standing(s, pos, rest);
    assert(s[pos + 0] == rest[0]);
    let blank: Seq<char> = if k == 0 {
        Seq::empty()
    } else {
        seq![' ']
    };
    let one = expression_text(items[k]);
    let tail = items_from(items, k + 1) + seq![')'];
    assert(rest =~= blank + (one + tail));
    lemma_split(s, pos, blank, one + tail);
    let start = pos + blank.len();
    lemma_split(s, start, one, tail);
    lemma_standing(s, start + one.len(), tail);
    let next = start + one.len();
    assert(s[next + 0] == tail[0]);
    assert(s[next] == ' ' || s[next] == ')') by {
        if k + 1 < items.len() {
            assert(tail[0] == ' ');
        } else {
            assert(tail[0] == ')');
        }
    }
    if k > 0 {
        assert(rest[0] == ' ');
    }
}

/// The items of a vector are read from the first of them and the others.
proof fn lemma_item_read(s: Seq<char>, pos: int, items: Seq<Datum>, k: int)
    requires
        0 <= k < items.len(),
        k > 0 ==> has_char(s, pos, ' '),
        read_back_at(s, pos + lead(k), items[k]),
        items_read_back_at(s, pos + lead(k) + expression_text(items[k]).len(), items, k + 1),
        items_from(items, k).len() == lead(k) + expression_text(items[k]).len() + items_from(
            items,
            k + 1,
        ).len(),
    ensures
        items_read_back_at(s, pos, items, k),
{
    let start = pos + lead(k);
    let next = start + expression_text(items[k]).len();
    if k == 0 {
        lemma_nothing_skipped(s, pos);
    } else {
        lemma_blank_skipped(s, pos);
    }
    assert(seq![items[k]] + items.skip(k + 1) =~= items.skip(k));
}

proof fn lemma_no_item_reads_back(s: Seq<char>, pos: int, items: Seq<Datum>)
    requires
        has_prefix(s, pos, items_from(items, items.len() as int) + seq![')']),
    ensures
        items_read_back_at(s, pos, items, items.len() as int),
{
    let rest = items_from(items, items.len() as int) + seq![')'];
    lemma_standing(s, pos, rest);
    assert(s[pos + 0] == rest[0]);
    lemma_nothing_skipped(s, pos);
    assert(items.skip(items.len() as int) =~= Seq::<Datum>::empty());
}

/// The items of a vector from the `k`th on, and the closing parenthesis,
/// are read as those items.
proof fn lemma_items_read_back(s: Seq<char>, pos: int, items: Seq<Datum>, k: int)
    requires
        forall|i: int| 0 <= i < items.len() ==> reads_back(#[trigger] items[i]),
        0 <= k <= items.len(),
        has_prefix(s, pos, items_from(items, k) + seq![')']),
    ensures
        items_read_back_at(s, pos, items, k),
    decreases items, items.len() - k,
{
    if k == items.len() {
        lemma_no_item_reads_back(s, pos, items);
    } else {
        lemma_item_parts(s, pos, items, k);
        lemma_expression_reads_back(s, pos + lead(k), items[k]);
        lemma_items_read_back(
            s,
            pos + lead(k) + expression_text(items[k]).len(),
            items,
            k + 1,
        );
        lemma_item_read(s, pos, items, k);
    }
}

/// Whatever the printer writes for an expression, the reader reads as that
/// one expression. This holds of every expression in normal form that is
/// plainly written.
pub proof fn lemma_round_trip(d: Datum)
    requires
        d.wf(),
        plainly_written(d),
    ensures
        expressions(expression_text(d)) == Ok::<_, Failure>(seq![d]),
{
    let s = expression_text(d);
    assert(s.subrange(0, s.len() as int) =~= s);
    assert(closed_at(s, s.len() as int));
    lemma_expression_reads_back(s, 0, d);
    lemma_nothing_skipped(s, 0);
    lemma_nothing_skipped(s, s.len() as int);
    assert(items_at(s, s.len() as int) == Ok::<Seq<Datum>, Failure>(Seq::empty()));
    assert(seq![d] + Seq::<Datum>::empty() =~= seq![d]);
}

/// Every expression that the reader hands out, the printer writes so that
/// the reader reads it again as the same expression, where it is plainly
/// written.
pub proof fn lemma_read_print_read(s: Seq<char>, i: int)
    requires
        expressions(s) matches Ok(items) && 0 <= i < items.len() && plainly_written(items[i]),
    ensures
        expressions(s) matches Ok(items) && expressions(expression_text(items[i])) == Ok::<
            _,
            Failure,
        >(seq![items[i]]),
{
    crate::roundtrip::normal::lemma_read_is_normal(s);
    lemma_round_trip(expressions(s)->Ok_0[i]);
}

/// What is read back is equal to what was written, as equality of
/// expressions has it, where no not-a-number value is among its numbers:
/// such a value equals nothing, not even itself.
pub proof fn lemma_round_trip_equal(d: Datum)
    requires
        d.wf(),
        plainly_written(d),
        crate::data::expression::without_not_a_number(d),
    ensures
        expressions(expression_text(d)) matches Ok(items) && items.len() == 1
            && items[0].equals(d),
{
    lemma_round_trip(d);
    crate::data::expression::lemma_equality_reflexive(d);
}

} // verus!
