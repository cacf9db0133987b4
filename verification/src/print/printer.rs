//! The printer: from an expression to the text that reads back as it.
use vstd::prelude::*;
use crate::data::expression::{Datum, Expression};
use crate::data::integer::Integer;
use crate::data::number::{Number, NumberView};
use crate::data::reals::{Real, RealKind, RealView};
use crate::digits::{decimal_digits, int_text, zeros};
use crate::read::grammar::is_identifier;
use crate::read::tokens::is_simple_identifier;
use crate::text::{
    ascii_chars, chars_of, hex_digits, is_printable, printable, push_ascii, push_char,
    push_hex,
};

verus! {

/// The largest power of ten, and the largest number of zeros behind the
/// point, up to which a real number is written without an exponent.
pub const PLAIN_LIMIT: i64 = 20;

/// The text of the sign of a real number: `-`, and `+` where it is asked for.
pub open spec fn sign_text(negative: bool, plus: bool) -> Seq<char> {
    if negative {
        seq!['-']
    } else if plus {
        seq!['+']
    } else {
        Seq::empty()
    }
}

/// The text of a finite real number without its sign. There is always a
/// point in it: a whole number ends in `.0`.
pub open spec fn finite_text(mantissa: nat, exponent: int) -> Seq<char> {
    let digits = ascii_chars(decimal_digits(mantissa));
    let n = digits.len() as int;
    if 0 <= exponent <= PLAIN_LIMIT as int {
        digits + ascii_chars(zeros(exponent as nat)) + seq!['.', '0']
    } else if -(PLAIN_LIMIT as int) <= exponent < 0 {
        if -exponent < n {
            digits.subrange(0, n + exponent) + seq!['.'] + digits.subrange(n + exponent, n)
        } else {
            seq!['0', '.'] + ascii_chars(zeros((-exponent - n) as nat)) + digits
        }
    } else {
        digits + seq!['.', '0', 'e'] + ascii_chars(int_text(exponent))
    }
}

/// The text of a real number. Infinities and not-a-number values always
/// carry their sign; a finite number that is not negative carries `+` only
/// where `plus` is set.
pub open spec fn real_text(r: RealView, plus: bool) -> Seq<char> {
    match r {
        RealView::Finite { negative, mantissa, exponent } => sign_text(negative, plus)
            + finite_text(mantissa, exponent),
        RealView::Infinite { negative } => sign_text(negative, true) + seq![
            'i',
            'n',
            'f',
            '.',
            '0',
        ],
        RealView::NotANumber { negative } => sign_text(negative, true) + seq![
            'n',
            'a',
            'n',
            '.',
            '0',
        ],
    }
}

/// The text of a number.
pub open spec fn number_text(n: NumberView) -> Seq<char> {
    match n {
        NumberView::Integer(i) => ascii_chars(int_text(i)),
        NumberView::Rational(numer, denom) => ascii_chars(int_text(numer)) + seq!['/']
            + ascii_chars(int_text(denom)),
        NumberView::Real(r) => real_text(r, false),
        NumberView::Complex(re, im) => real_text(re, false) + real_text(im, true) + seq!['i'],
    }
}

/// The name under which a character is written, where it has one.
pub open spec fn character_name(c: char) -> Option<Seq<char>> {
    if c == '\x07' {
        Some(seq!['a', 'l', 'a', 'r', 'm'])
    } else if c == '\x08' {
        Some(seq!['b', 'a', 'c', 'k', 's', 'p', 'a', 'c', 'e'])
    } else if c == '\x7f' {
        Some(seq!['d', 'e', 'l', 'e', 't', 'e'])
    } else if c == '\x1b' {
        Some(seq!['e', 's', 'c', 'a', 'p', 'e'])
    } else if c == '\n' {
        Some(seq!['n', 'e', 'w', 'l', 'i', 'n', 'e'])
    } else if c == '\0' {
        Some(seq!['n', 'u', 'l', 'l'])
    } else if c == '\r' {
        Some(seq!['r', 'e', 't', 'u', 'r', 'n'])
    } else if c == ' ' {
        Some(seq!['s', 'p', 'a', 'c', 'e'])
    } else if c == '\t' {
        Some(seq!['t', 'a', 'b'])
    } else {
        None
    }
}

/// The text of a character: `#\` and its name, or the character itself
/// where it is printable, or else `x` and its code point.
pub open spec fn character_text(c: char) -> Seq<char> {
    seq!['#', '\\'] + match character_name(c) {
        Some(name) => name,
        None => if is_printable(c) {
            seq![c]
        } else {
            seq!['x'] + hex_digits(c as nat)
        },
    }
}

/// How one character is written between quotes. `quote` is the quote in
/// use, which is escaped, as are the backslash and the bar.
pub open spec fn escaped_char(c: char, quote: char) -> Seq<char> {
    if c == '\x07' {
        seq!['\\', 'a']
    } else if c == '\x08' {
        seq!['\\', 'b']
    } else if c == '\t' {
        seq!['\\', 't']
    } else if c == '\n' {
        seq!['\\', 'n']
    } else if c == '\r' {
        seq!['\\', 'r']
    } else if c == '\\' || c == '|' || c == quote {
        seq!['\\', c]
    } else if is_printable(c) || c == ' ' {
        seq![c]
    } else {
        seq!['\\', 'x'] + hex_digits(c as nat) + seq![';']
    }
}

/// How a run of characters is written between quotes.
pub open spec fn escaped(s: Seq<char>, quote: char) -> Seq<char>
    decreases s.len(),
{
    if s.len() == 0 {
        Seq::empty()
    } else {
        escaped(s.drop_last(), quote) + escaped_char(s.last(), quote)
    }
}

/// The text of a string.
pub open spec fn string_text(s: Seq<char>) -> Seq<char> {
    seq!['"'] + escaped(s, '"') + seq!['"']
}

/// The text of a symbol: its name where that is an identifier, else the
/// name between bars.
pub open spec fn symbol_text(name: Seq<char>) -> Seq<char> {
    if is_identifier(name) {
        name
    } else {
        seq!['|'] + escaped(name, '|') + seq!['|']
    }
}

/// The text of the bytes of a bytevector, with a blank between each two.
pub open spec fn bytes_text(bytes: Seq<u8>) -> Seq<char>
    decreases bytes.len(),
{
    if bytes.len() == 0 {
        Seq::empty()
    } else if bytes.len() == 1 {
        ascii_chars(int_text(bytes[0] as int))
    } else {
        bytes_text(bytes.drop_last()) + seq![' '] + ascii_chars(int_text(bytes.last() as int))
    }
}

/// The text of an expression.
pub open spec fn expression_text(d: Datum) -> Seq<char>
    decreases d, 0int,
{
    match d {
        Datum::Nil => seq!['(', ')'],
        Datum::Boolean(b) => if b {
            seq!['#', 't']
        } else {
            seq!['#', 'f']
        },
        Datum::Number(n) => number_text(n),
        Datum::Character(c) => character_text(c),
        Datum::String(s) => string_text(s),
        Datum::Symbol(name) => symbol_text(name),
        Datum::Pair(car, cdr) => seq!['('] + expression_text(*car) + tail_text(*cdr),
        Datum::Vector(items) => seq!['#', '('] + items_text(items) + seq![')'],
        Datum::ByteVector(bytes) => seq!['#', 'u', '8', '('] + bytes_text(bytes) + seq![')'],
    }
}

/// The text of what follows the first item of a list: the further items,
/// each behind a blank, then the closing parenthesis; before it ` . ` and
/// the last part where the list does not end in `Nil`.
pub open spec fn tail_text(d: Datum) -> Seq<char>
    decreases d, 1int,
{
    match d {
        Datum::Nil => seq![')'],
        Datum::Pair(car, cdr) => seq![' '] + expression_text(*car) + tail_text(*cdr),
        _ => seq![' ', '.', ' '] + expression_text(d) + seq![')'],
    }
}

/// The text of the items of a vector, with a blank between each two.
pub open spec fn items_text(items: Seq<Datum>) -> Seq<char>
    decreases items, 0int,
{
    if items.len() == 0 {
        Seq::empty()
    } else if items.len() == 1 {
        expression_text(items[0])
    } else {
        items_text(items.drop_last()) + seq![' '] + expression_text(items.last())
    }
}

/// Appends `k` zeros.
fn push_zeros(out: &mut String, k: u64)
    ensures
        final(out)@ == old(out)@ + ascii_chars(zeros(k as nat)),
{
    let mut i: u64 = 0;
    proof {
        assert(out@ + ascii_chars(zeros(0)) =~= out@);
    }
    while i < k
        invariant
            i <= k,
            out@ == old(out)@ + ascii_chars(zeros(i as nat)),
        decreases k - i,
    {
        push_char(out, '0');
        proof {
            assert(ascii_chars(zeros((i + 1) as nat)) =~= ascii_chars(zeros(i as nat)).push('0'));
            assert(out@ =~= old(out)@ + ascii_chars(zeros((i + 1) as nat)));
        }
        i += 1;
    }
}

/// Appends the bytes `bytes[from..to]` as characters.
fn push_ascii_range(out: &mut String, bytes: &Vec<u8>, from: usize, to: usize)
    requires
        from <= to <= bytes@.len(),
    ensures
        final(out)@ == old(out)@ + ascii_chars(bytes@).subrange(from as int, to as int),
{
    let mut i: usize = from;
    proof {
        assert(out@ + ascii_chars(bytes@).subrange(from as int, from as int) =~= out@);
    }
    while i < to
        invariant
            from <= i <= to <= bytes@.len(),
            out@ == old(out)@ + ascii_chars(bytes@).subrange(from as int, i as int),
        decreases to - i,
    {
        push_char(out, bytes[i] as char);
        proof {
            assert(ascii_chars(bytes@).subrange(from as int, i + 1) =~= ascii_chars(
                bytes@,
            ).subrange(from as int, i as int).push(bytes@[i as int] as char));
            assert(out@ =~= old(out)@ + ascii_chars(bytes@).subrange(from as int, i + 1));
        }
        i += 1;
    }
}

/// Appends the text of a finite real number without its sign.
fn write_finite(out: &mut String, digits: &Vec<u8>, e: i64, Ghost(mantissa): Ghost<nat>)
    requires
        digits@ == decimal_digits(mantissa),
    ensures
        final(out)@ == old(out)@ + finite_text(mantissa, e as int),
{
    let n: usize = digits.len();
    if 0 <= e && e <= PLAIN_LIMIT {
        push_ascii(out, digits);
        push_zeros(out, e as u64);
        push_char(out, '.');
        push_char(out, '0');
        proof {
            assert(out@ =~= old(out)@ + finite_text(mantissa, e as int));
        }
    } else if -PLAIN_LIMIT <= e && e < 0 {
        let k: u64 = (-e) as u64;
        if k < n as u64 {
            let split: usize = n - k as usize;
            push_ascii_range(out, digits, 0, split);
            push_char(out, '.');
            push_ascii_range(out, digits, split, n);
            proof {
                assert(out@ =~= old(out)@ + finite_text(mantissa, e as int));
            }
        } else {
            push_char(out, '0');
            push_char(out, '.');
            push_zeros(out, k - n as u64);
            push_ascii(out, digits);
            proof {
                assert(out@ =~= old(out)@ + finite_text(mantissa, e as int));
            }
        }
    } else {
        push_ascii(out, digits);
        push_char(out, '.');
        push_char(out, '0');
        push_char(out, 'e');
        push_ascii(out, Integer::from_i64(e).digits());
        proof {
            assert(out@ =~= old(out)@ + finite_text(mantissa, e as int));
        }
    }
}

/// Appends the sign of a real number, and `+` for none where `plus` is set.
fn write_sign(out: &mut String, negative: bool, plus: bool)
    ensures
        final(out)@ == old(out)@ + sign_text(negative, plus),
{
    if negative {
        push_char(out, '-');
    } else if plus {
        push_char(out, '+');
    }
    proof {
        assert(out@ =~= old(out)@ + sign_text(negative, plus));
    }
}

/// Appends the text of a real number.
pub fn write_real(out: &mut String, value: &Real, plus: bool)
    ensures
        final(out)@ == old(out)@ + real_text(value@, plus),
{
    let negative = value.is_negative();
    match value.kind() {
        RealKind::Infinite => {
            write_sign(out, negative, true);
            out.append("inf.0");
            proof {
                reveal_strlit("inf.0");
                assert("inf.0"@ =~= seq!['i', 'n', 'f', '.', '0']);
            }
        },
        RealKind::NotANumber => {
            write_sign(out, negative, true);
            out.append("nan.0");
            proof {
                reveal_strlit("nan.0");
                assert("nan.0"@ =~= seq!['n', 'a', 'n', '.', '0']);
            }
        },
        RealKind::Finite => {
            write_sign(out, negative, plus);
            write_finite(out, value.digits(), value.exponent(), Ghost(value@->mantissa));
            proof {
                assert(out@ =~= old(out)@ + real_text(value@, plus));
            }
        },
    }
}

/// Appends the text of a number.
pub fn write_number(out: &mut String, value: &Number)
    ensures
        final(out)@ == old(out)@ + number_text(value@),
{
    match value {
        Number::Integer(i) => {
            push_ascii(out, i.digits());
        },
        Number::Rational(q) => {
            push_ascii(out, q.numer().digits());
            push_char(out, '/');
            push_ascii(out, q.denom().digits());
            proof {
                assert(out@ =~= old(out)@ + number_text(value@));
            }
        },
        Number::Real(x) => {
            write_real(out, x, false);
        },
        Number::Complex(re, im) => {
            write_real(out, re, false);
            write_real(out, im, true);
            push_char(out, 'i');
            proof {
                assert(out@ =~= old(out)@ + number_text(value@));
            }
        },
    }
}

/// The name under which a character is written.
fn name_of(c: char) -> (r: Option<&'static str>)
    ensures
        match r {
            Some(name) => character_name(c) == Some(name@),
            None => character_name(c) is None,
        },
{
    proof {
        reveal_strlit("alarm");
        reveal_strlit("backspace");
        reveal_strlit("delete");
        reveal_strlit("escape");
        reveal_strlit("newline");
        reveal_strlit("null");
        reveal_strlit("return");
        reveal_strlit("space");
        reveal_strlit("tab");
        assert("alarm"@ =~= seq!['a', 'l', 'a', 'r', 'm']);
        assert("backspace"@ =~= seq!['b', 'a', 'c', 'k', 's', 'p', 'a', 'c', 'e']);
        assert("delete"@ =~= seq!['d', 'e', 'l', 'e', 't', 'e']);
        assert("escape"@ =~= seq!['e', 's', 'c', 'a', 'p', 'e']);
        assert("newline"@ =~= seq!['n', 'e', 'w', 'l', 'i', 'n', 'e']);
        assert("null"@ =~= seq!['n', 'u', 'l', 'l']);
        assert("return"@ =~= seq!['r', 'e', 't', 'u', 'r', 'n']);
        assert("space"@ =~= seq!['s', 'p', 'a', 'c', 'e']);
        assert("tab"@ =~= seq!['t', 'a', 'b']);
    }
    if c == '\x07' {
        Some("alarm")
    } else if c == '\x08' {
        Some("backspace")
    } else if c == '\x7f' {
        Some("delete")
    } else if c == '\x1b' {
        Some("escape")
    } else if c == '\n' {
        Some("newline")
    } else if c == '\0' {
        Some("null")
    } else if c == '\r' {
        Some("return")
    } else if c == ' ' {
        Some("space")
    } else if c == '\t' {
        Some("tab")
    } else {
        None
    }
}

/// Appends the text of a character.
pub fn write_character(out: &mut String, c: char)
    ensures
        final(out)@ == old(out)@ + character_text(c),
{
    push_char(out, '#');
    push_char(out, '\\');
    match name_of(c) {
        Some(name) => {
            out.append(name);
        },
        None => {
            if printable(c) {
                push_char(out, c);
            } else {
                push_char(out, 'x');
                push_hex(out, c as u32);
            }
        },
    }
    proof {
        assert(out@ =~= old(out)@ + character_text(c));
    }
}

/// Appends one character as it is written between quotes.
fn write_escaped_char(out: &mut String, c: char, quote: char)
    ensures
        final(out)@ == old(out)@ + escaped_char(c, quote),
{
    if c == '\x07' {
        push_char(out, '\\');
        push_char(out, 'a');
    } else if c == '\x08' {
        push_char(out, '\\');
        push_char(out, 'b');
    } else if c == '\t' {
        push_char(out, '\\');
        push_char(out, 't');
    } else if c == '\n' {
        push_char(out, '\\');
        push_char(out, 'n');
    } else if c == '\r' {
        push_char(out, '\\');
        push_char(out, 'r');
    } else if c == '\\' || c == '|' || c == quote {
        push_char(out, '\\');
        push_char(out, c);
    } else if printable(c) || c == ' ' {
        push_char(out, c);
    } else {
        push_char(out, '\\');
        push_char(out, 'x');
        push_hex(out, c as u32);
        push_char(out, ';');
    }
    proof {
        assert(out@ =~= old(out)@ + escaped_char(c, quote));
    }
}

/// Appends the characters of `text` between two quotes.
fn write_quoted(out: &mut String, text: &str, quote: char)
    ensures
        final(out)@ == old(out)@ + seq![quote] + escaped(text@, quote) + seq![quote],
{
    let chars = chars_of(text);
    push_char(out, quote);
    let ghost opened = out@;
    let mut i: usize = 0;
    proof {
        assert(chars@.take(0) =~= Seq::<char>::empty());
        assert(opened + escaped(chars@.take(0), quote) =~= opened);
    }
    while i < chars.len()
        invariant
            i <= chars@.len(),
            out@ == opened + escaped(chars@.take(i as int), quote),
        decreases chars@.len() - i,
    {
        write_escaped_char(out, chars[i], quote);
        proof {
            assert(chars@.take(i + 1).drop_last() =~= chars@.take(i as int));
            assert(out@ =~= opened + escaped(chars@.take(i + 1), quote));
        }
        i += 1;
    }
    push_char(out, quote);
    proof {
        assert(chars@.take(chars@.len() as int) =~= chars@);
        assert(out@ =~= old(out)@ + seq![quote] + escaped(text@, quote) + seq![quote]);
    }
}

/// Appends the text of a symbol of the given name.
pub fn write_symbol(out: &mut String, name: &str)
    ensures
        final(out)@ == old(out)@ + symbol_text(name@),
{
    if is_simple_identifier(name) {
        out.append(name);
    } else {
        write_quoted(out, name, '|');
        proof {
            assert(out@ =~= old(out)@ + symbol_text(name@));
        }
    }
}

/// Appends the text of the bytes of a bytevector.
fn write_bytes(out: &mut String, bytes: &Vec<u8>)
    ensures
        final(out)@ == old(out)@ + bytes_text(bytes@),
{
    let mut i: usize = 0;
    proof {
        assert(bytes@.take(0) =~= Seq::<u8>::empty());
        assert(out@ + bytes_text(bytes@.take(0)) =~= out@);
    }
    while i < bytes.len()
        invariant
            i <= bytes@.len(),
            out@ == old(out)@ + bytes_text(bytes@.take(i as int)),
        decreases bytes@.len() - i,
    {
        if i > 0 {
            push_char(out, ' ');
        }
        push_ascii(out, Integer::from_u64(bytes[i] as u64).digits());
        proof {
            let now = bytes@.take(i + 1);
            assert(now.drop_last() =~= bytes@.take(i as int));
            assert(now.last() == bytes@[i as int]);
            assert(out@ =~= old(out)@ + bytes_text(now));
        }
        i += 1;
    }
    proof {
        assert(bytes@.take(bytes@.len() as int) =~= bytes@);
    }
}

/// Appends the text of an expression.
pub fn write_expression(out: &mut String, e: &Expression)
    ensures
        final(out)@ == old(out)@ + expression_text(e@),
    decreases e, 0int,
{
    match e {
        Expression::Nil => {
            push_char(out, '(');
            push_char(out, ')');
            proof {
                assert(out@ =~= old(out)@ + expression_text(e@));
            }
        },
        Expression::Boolean(b) => {
            push_char(out, '#');
            push_char(out, if *b { 't' } else { 'f' });
            proof {
                assert(out@ =~= old(out)@ + expression_text(e@));
            }
        },
        Expression::Number(n) => {
            write_number(out, n);
        },
        Expression::Character(c) => {
            write_character(out, *c);
        },
        Expression::String(s) => {
            write_quoted(out, s.as_str(), '"');
            proof {
                assert(out@ =~= old(out)@ + expression_text(e@));
            }
        },
        Expression::Symbol(name) => {
            write_symbol(out, name.as_str());
        },
        Expression::Pair(car, cdr) => {
            push_char(out, '(');
            write_expression(out, car);
            write_tail(out, cdr);
            proof {
                assert(out@ =~= old(out)@ + expression_text(e@));
            }
        },
        Expression::Vector(items) => {
            push_char(out, '#');
            push_char(out, '(');
            let ghost opened = out@;
            let ghost data = e@->Vector_0;
            let mut i: usize = 0;
            proof {
                assert(data.take(0) =~= Seq::<Datum>::empty());
                assert(opened + items_text(data.take(0)) =~= opened);
            }
            while i < items.len()
                invariant
                    i <= items@.len(),
                    *e == Expression::Vector(*items),
                    data == e@->Vector_0,
                    data.len() == items@.len(),
                    out@ == opened + items_text(data.take(i as int)),
                decreases items@.len() - i,
            {
                if i > 0 {
                    push_char(out, ' ');
                }
                proof {
                    assert(decreases_to!(*items => items[i as int]));
                    assert(data[i as int] == items@[i as int].datum());
                }
                write_expression(out, &items[i]);
                proof {
                    let now = data.take(i + 1);
                    assert(now.drop_last() =~= data.take(i as int));
                    assert(now.last() == data[i as int]);
                    assert(out@ =~= opened + items_text(now));
                }
                i += 1;
            }
            push_char(out, ')');
            proof {
                assert(data.take(items@.len() as int) =~= data);
                assert(out@ =~= old(out)@ + expression_text(e@));
            }
        },
        Expression::ByteVector(bytes) => {
            out.append("#u8(");
            write_bytes(out, bytes);
            push_char(out, ')');
            proof {
                reveal_strlit("#u8(");
                assert("#u8("@ =~= seq!['#', 'u', '8', '(']);
                assert(out@ =~= old(out)@ + expression_text(e@));
            }
        },
    }
}

/// Appends what follows the first item of a list.
fn write_tail(out: &mut String, e: &Expression)
    ensures
        final(out)@ == old(out)@ + tail_text(e@),
    decreases e, 1int,
{
    match e {
        Expression::Nil => {
            push_char(out, ')');
            proof {
                assert(out@ =~= old(out)@ + tail_text(e@));
            }
        },
        Expression::Pair(car, cdr) => {
            push_char(out, ' ');
            write_expression(out, car);
            write_tail(out, cdr);
            proof {
                assert(out@ =~= old(out)@ + tail_text(e@));
            }
        },
        _ => {
            push_char(out, ' ');
            push_char(out, '.');
            push_char(out, ' ');
            write_expression(out, e);
            push_char(out, ')');
            proof {
                assert(out@ =~= old(out)@ + tail_text(e@));
            }
        },
    }
}

/// The text of an expression: what the reader reads back as the expression.
pub fn format(e: &Expression) -> (r: String)
    ensures
        r@ == expression_text(e@),
{
    let mut out = String::new();
    write_expression(&mut out, e);
    proof {
        assert(Seq::<char>::empty() + expression_text(e@) =~= expression_text(e@));
    }
    out
}

/// The text of a number.
pub fn format_number(n: &Number) -> (r: String)
    ensures
        r@ == number_text(n@),
{
    let mut out = String::new();
    write_number(&mut out, n);
    proof {
        assert(Seq::<char>::empty() + number_text(n@) =~= number_text(n@));
    }
    out
}

} // verus!
