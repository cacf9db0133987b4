//! Reading numbers and identifiers.
use vstd::prelude::*;
use crate::data::integer::{
    all_radix_digits, lemma_radix_ten, radix_digit_value, radix_value, signed, Integer,
};
use crate::data::number::Number;
use crate::data::rational::Rational;
use crate::data::reals::Real;
use crate::digits::{all_digits, digits_value, is_digit};
use crate::read::grammar::{
    byte_literal_at, char_bytes, complex_at, decimal_at, decimal_number_at, digits_end,
    exact_at, exponent_at, has_char, has_prefix, identifier_end, integer_at, is_identifier,
    is_radix_digit, mantissa_at, number_at, radix_at, rational_at, sign_at, subsequent_end,
    unit,
};
use crate::text::{chars_of, dot_subsequent, initial, sign, sign_subsequent, subsequent};

verus! {

/// Whether the character `c` stands at `pos`.
pub fn is_char_at(chars: &Vec<char>, pos: usize, c: char) -> (r: bool)
    ensures
        r == has_char(chars@, pos as int, c),
        r ==> pos < chars@.len() <= usize::MAX,
{
    pos < chars.len() && chars[pos] == c
}

/// Whether the characters of `word` stand at `pos`.
pub fn is_word_at<const N: usize>(chars: &Vec<char>, pos: usize, word: [char; N]) -> (r: bool)
    ensures
        r == has_prefix(chars@, pos as int, word@),
        r ==> pos + N <= chars@.len() <= usize::MAX,
{
    if chars.len() < N || pos > chars.len() - N {
        return false;
    }
    let mut i: usize = 0;
    while i < N
        invariant
            i <= N,
            pos + N <= chars@.len() <= usize::MAX,
            word@.len() == N,
            forall|j: int| 0 <= j < i ==> chars@[pos + j] == word@[j],
        decreases N - i,
    {
        if chars[pos + i] != word[i] {
            proof {
                assert(chars@.subrange(pos as int, pos + N)[i as int] == chars@[pos + i]);
            }
            return false;
        }
        i += 1;
    }
    proof {
        assert(chars@.subrange(pos as int, pos + N) =~= word@);
    }
    true
}

fn radix_digit(c: char, radix: u32) -> (r: bool)
    requires
        2 <= radix <= 36,
    ensures
        r == is_radix_digit(c, radix as int),
{
    let v: u32 = if '0' <= c && c <= '9' {
        c as u32 - 48
    } else if 'a' <= c && c <= 'z' {
        c as u32 - 97 + 10
    } else if 'A' <= c && c <= 'Z' {
        c as u32 - 65 + 10
    } else {
        255
    };
    v < radix
}

/// The end of the run of digits of the radix that starts at `pos`.
pub fn scan_digits(chars: &Vec<char>, pos: usize, radix: u32) -> (r: usize)
    requires
        2 <= radix <= 36,
        pos <= chars@.len(),
    ensures
        r == digits_end(chars@, pos as int, radix as int),
        pos <= r <= chars@.len(),
        forall|j: int| pos <= j < r ==> is_radix_digit(#[trigger] chars@[j], radix as int),
{
    let mut i: usize = pos;
    while i < chars.len() && radix_digit(chars[i], radix)
        invariant
            2 <= radix <= 36,
            pos <= i <= chars@.len(),
            digits_end(chars@, pos as int, radix as int) == digits_end(
                chars@,
                i as int,
                radix as int,
            ),
            forall|j: int| pos <= j < i ==> is_radix_digit(#[trigger] chars@[j], radix as int),
        decreases chars@.len() - i,
    {
        i += 1;
    }
    i
}

/// The bytes of the ASCII characters `chars[from..to]`.
fn bytes_of(chars: &Vec<char>, from: usize, to: usize, radix: u32) -> (r: Vec<u8>)
    requires
        from <= to <= chars@.len(),
        2 <= radix <= 36,
        forall|j: int| from <= j < to ==> is_radix_digit(#[trigger] chars@[j], radix as int),
    ensures
        r@ == char_bytes(chars@.subrange(from as int, to as int)),
{
    let mut out: Vec<u8> = Vec::new();
    let mut i: usize = from;
    while i < to
        invariant
            from <= i <= to <= chars@.len(),
            2 <= radix <= 36,
            forall|j: int| from <= j < to ==> is_radix_digit(#[trigger] chars@[j], radix as int),
            out@ == char_bytes(chars@.subrange(from as int, i as int)),
        decreases to - i,
    {
        let c = chars[i];
        assert(is_radix_digit(chars@[i as int], radix as int));
        let b: u8 = (c as u32) as u8;
        assert(b == crate::read::grammar::byte_of(c));
        let ghost before = out@;
        out.push(b);
        proof {
            let now = char_bytes(chars@.subrange(from as int, i + 1));
            assert(now.len() == out@.len());
            assert forall|k: int| 0 <= k < now.len() implies now[k] == out@[k] by {
                if k < before.len() {
                    assert(before[k] == char_bytes(chars@.subrange(from as int, i as int))[k]);
                }
            }
            assert(out@ =~= now);
        }
        i += 1;
    }
    out
}

/// The characters `chars[from..to]` as a string.
pub fn string_of(chars: &Vec<char>, from: usize, to: usize) -> (r: String)
    requires
        from <= to <= chars@.len(),
    ensures
        r@ == chars@.subrange(from as int, to as int),
{
    let mut out = String::new();
    let mut i: usize = from;
    while i < to
        invariant
            from <= i <= to <= chars@.len(),
            out@ == chars@.subrange(from as int, i as int),
        decreases to - i,
    {
        crate::text::push_char(&mut out, chars[i]);
        proof {
            assert(out@ =~= chars@.subrange(from as int, i + 1));
        }
        i += 1;
    }
    out
}

/// An optional sign at `pos`.
fn read_sign(chars: &Vec<char>, pos: usize) -> (r: (bool, usize))
    requires
        pos <= chars@.len(),
    ensures
        (r.0, r.1 as int) == sign_at(chars@, pos as int),
        pos <= r.1 <= chars@.len(),
{
    if is_char_at(chars, pos, '-') {
        (true, pos + 1)
    } else if is_char_at(chars, pos, '+') {
        (false, pos + 1)
    } else {
        (false, pos)
    }
}

/// The digits of a radix are ASCII, and those of radix ten are decimal
/// digits with the same value.
proof fn lemma_radix_bytes(s: Seq<char>, radix: int)
    requires
        2 <= radix <= 36,
        forall|j: int| 0 <= j < s.len() ==> is_radix_digit(#[trigger] s[j], radix),
    ensures
        all_radix_digits(char_bytes(s), radix),
        radix == 10 ==> all_digits(char_bytes(s)) && radix_value(char_bytes(s), 10) == digits_value(
            char_bytes(s),
        ),
{
    let b = char_bytes(s);
    assert forall|i: int| 0 <= i < b.len() implies radix_digit_value(#[trigger] b[i]) < radix by {
        assert(is_radix_digit(s[i], radix));
    }
    if radix == 10 {
        assert forall|i: int| 0 <= i < b.len() implies is_digit(#[trigger] b[i]) by {
            assert(is_radix_digit(s[i], radix));
        }
        lemma_radix_ten(b);
    }
}

/// A signed run of digits of the radix.
pub fn read_integer(chars: &Vec<char>, pos: usize, radix: u32) -> (r: Option<(Integer, usize)>)
    requires
        2 <= radix <= 36,
        pos <= chars@.len(),
    ensures
        match r {
            Some((value, end)) => integer_at(chars@, pos as int, radix as int) == Some(
                (value@, end as int),
            ) && pos < end <= chars@.len(),
            None => integer_at(chars@, pos as int, radix as int) is None,
        },
{
    let (negative, start) = read_sign(chars, pos);
    let end = scan_digits(chars, start, radix);
    if end > start {
        proof {
            let run = chars@.subrange(start as int, end as int);
            assert forall|j: int| 0 <= j < run.len() implies is_radix_digit(
                #[trigger] run[j],
                radix as int,
            ) by {
                assert(run[j] == chars@[start + j]);
            }
            lemma_radix_bytes(run, radix as int);
        }
        let digits = bytes_of(chars, start, end, radix);
        Some((Integer::from_radix_digits(negative, &digits, radix), end))
    } else {
        None
    }
}

/// A fraction: two signed runs of digits with `/` between them.
pub fn read_rational(chars: &Vec<char>, pos: usize, radix: u32) -> (r: Option<(Rational, usize)>)
    requires
        2 <= radix <= 36,
        pos <= chars@.len(),
    ensures
        match r {
            Some((value, end)) => rational_at(chars@, pos as int, radix as int) == Some(
                (value@, end as int),
            ) && pos < end <= chars@.len(),
            None => rational_at(chars@, pos as int, radix as int) is None,
        },
{
    match read_integer(chars, pos, radix) {
        Some((n, slash)) => {
            if is_char_at(chars, slash, '/') {
                match read_integer(chars, slash + 1, radix) {
                    Some((d, end)) => {
                        if !d.is_zero() {
                            Some((Rational::new(&n, &d), end))
                        } else {
                            None
                        }
                    },
                    None => None,
                }
            } else {
                None
            }
        },
        None => None,
    }
}

/// An exponent, or zero where none stands at `pos`.
fn read_exponent(chars: &Vec<char>, pos: usize) -> (r: (Integer, usize))
    requires
        pos <= chars@.len(),
    ensures
        (r.0@, r.1 as int) == exponent_at(chars@, pos as int),
        pos <= r.1 <= chars@.len(),
{
    if is_char_at(chars, pos, 'e') {
        match read_integer(chars, pos + 1, 10) {
            Some((e, end)) => (e, end),
            None => (Integer::zero(), pos),
        }
    } else {
        (Integer::zero(), pos)
    }
}

/// The digits and the power of ten of an unsigned decimal number.
fn read_mantissa(chars: &Vec<char>, pos: usize, plain: bool) -> (r: Option<(Vec<u8>, Integer, usize)>)
    requires
        pos <= chars@.len(),
    ensures
        match r {
            Some((digits, e, end)) => all_digits(digits@) && mantissa_at(
                chars@,
                pos as int,
                plain,
            ) == Some((digits_value(digits@), e@, end as int)) && pos < end <= chars@.len(),
            None => mantissa_at(chars@, pos as int, plain) is None,
        },
{
    let whole_end = scan_digits(chars, pos, 10);
    proof {
        let run = chars@.subrange(pos as int, whole_end as int);
        assert forall|j: int| 0 <= j < run.len() implies is_radix_digit(#[trigger] run[j], 10) by {
            assert(run[j] == chars@[pos + j]);
        }
        lemma_radix_bytes(run, 10);
    }
    let mut digits = bytes_of(chars, pos, whole_end, 10);
    if is_char_at(chars, whole_end, '.') {
        let part_end = scan_digits(chars, whole_end + 1, 10);
        proof {
            let run = chars@.subrange(whole_end + 1, part_end as int);
            assert forall|j: int| 0 <= j < run.len() implies is_radix_digit(
                #[trigger] run[j],
                10,
            ) by {
                assert(run[j] == chars@[whole_end + 1 + j]);
            }
            lemma_radix_bytes(run, 10);
        }
        let mut part = bytes_of(chars, whole_end + 1, part_end, 10);
        if whole_end > pos || part_end > whole_end + 1 {
            let (e, end) = read_exponent(chars, part_end);
            let shift = Integer::from_u64(part.len() as u64);
            let ghost whole = digits@;
            let ghost fraction = part@;
            digits.append(&mut part);
            proof {
                assert forall|i: int| 0 <= i < digits@.len() implies is_digit(
                    #[trigger] digits@[i],
                ) by {
                    if i < whole.len() {
                        assert(is_digit(whole[i]));
                    } else {
                        assert(is_digit(fraction[i - whole.len()]));
                    }
                }
            }
            Some((digits, e.sub(&shift), end))
        } else {
            None
        }
    } else if whole_end > pos {
        let (e, end) = read_exponent(chars, whole_end);
        if end > whole_end || plain {
            Some((digits, e, end))
        } else {
            None
        }
    } else {
        None
    }
}

/// A decimal number, with or without a sign, or a signed infinity or
/// not-a-number token.
pub fn read_decimal(chars: &Vec<char>, pos: usize, plain: bool) -> (r: Option<(Real, usize)>)
    requires
        pos <= chars@.len(),
    ensures
        match r {
            Some((value, end)) => decimal_at(chars@, pos as int, plain) == Some(
                (value@, end as int),
            ) && pos < end <= chars@.len(),
            None => decimal_at(chars@, pos as int, plain) is None,
        },
{
    let (negative, start) = read_sign(chars, pos);
    if start > pos && is_word_at(chars, start, ['i', 'n', 'f', '.', '0']) {
        Some((Real::infinity(negative), start + 5))
    } else if start > pos && is_word_at(chars, start, ['n', 'a', 'n', '.', '0']) {
        Some((Real::not_a_number(negative), start + 5))
    } else {
        match read_mantissa(chars, start, plain) {
            Some((digits, e, end)) => Some((Real::from_decimal(negative, &digits, &e), end)),
            None => None,
        }
    }
}

/// The real number one with the given sign.
fn unit_real(negative: bool) -> (r: Real)
    ensures
        r@ == unit(negative),
{
    let mut one: Vec<u8> = Vec::new();
    one.push(49u8);
    proof {
        assert(one@.drop_last() =~= Seq::<u8>::empty());
        assert(digits_value(one@.drop_last()) == 0);
        assert(digits_value(one@) == 1);
        assert(crate::data::reals::strip_zeros(1, 0) == (1nat, 0int));
    }
    Real::from_decimal(negative, &one, &Integer::zero())
}

/// A complex number in rectangular form.
pub fn read_complex(chars: &Vec<char>, pos: usize) -> (r: Option<((Real, Real), usize)>)
    requires
        pos <= chars@.len(),
    ensures
        match r {
            Some(((re, im), end)) => complex_at(chars@, pos as int) == Some(
                ((re@, im@), end as int),
            ) && pos < end <= chars@.len(),
            None => complex_at(chars@, pos as int) is None,
        },
{
    match read_decimal(chars, pos, true) {
        Some((first, next)) => {
            if is_char_at(chars, next, 'i') {
                Some(((Real::zero(false), first), next + 1))
            } else if next < chars.len() && sign(chars[next]) {
                match read_decimal(chars, next, true) {
                    Some((second, last)) => {
                        if is_char_at(chars, last, 'i') {
                            Some(((first, second), last + 1))
                        } else {
                            None
                        }
                    },
                    None => {
                        if is_char_at(chars, next + 1, 'i') {
                            Some(((first, unit_real(chars[next] == '-')), next + 2))
                        } else {
                            None
                        }
                    },
                }
            } else {
                None
            }
        },
        None => {
            if pos < chars.len() && sign(chars[pos]) && is_char_at(chars, pos + 1, 'i') {
                Some(((Real::zero(false), unit_real(chars[pos] == '-')), pos + 2))
            } else {
                None
            }
        },
    }
}

/// A fraction or an integer in the given radix.
pub fn read_exact(chars: &Vec<char>, pos: usize, radix: u32) -> (r: Option<(Number, usize)>)
    requires
        2 <= radix <= 36,
        pos <= chars@.len(),
    ensures
        match r {
            Some((value, end)) => exact_at(chars@, pos as int, radix as int) == Some(
                (value@, end as int),
            ) && pos < end <= chars@.len(),
            None => exact_at(chars@, pos as int, radix as int) is None,
        },
{
    match read_rational(chars, pos, radix) {
        Some((q, end)) => Some((Number::Rational(q), end)),
        None => match read_integer(chars, pos, radix) {
            Some((i, end)) => Some((Number::Integer(i), end)),
            None => None,
        },
    }
}

/// A number in radix ten.
pub fn read_decimal_number(chars: &Vec<char>, pos: usize) -> (r: Option<(Number, usize)>)
    requires
        pos <= chars@.len(),
    ensures
        match r {
            Some((value, end)) => decimal_number_at(chars@, pos as int) == Some(
                (value@, end as int),
            ) && pos < end <= chars@.len(),
            None => decimal_number_at(chars@, pos as int) is None,
        },
{
    match read_complex(chars, pos) {
        Some(((re, im), end)) => Some((Number::Complex(re, im), end)),
        None => match read_decimal(chars, pos, false) {
            Some((x, end)) => Some((Number::Real(x), end)),
            None => read_exact(chars, pos, 10),
        },
    }
}

/// The radix that a prefix at `pos` names.
fn read_radix(chars: &Vec<char>, pos: usize) -> (r: Option<u32>)
    requires
        pos <= chars@.len(),
    ensures
        match r {
            Some(radix) => radix_at(chars@, pos as int) == Some(radix as int) && pos + 2
                <= chars@.len() <= usize::MAX && 2 <= radix <= 16,
            None => radix_at(chars@, pos as int) is None,
        },
{
    if is_char_at(chars, pos, '#') && pos < chars.len() - 1 {
        let c = chars[pos + 1];
        if c == 'b' {
            Some(2)
        } else if c == 'o' {
            Some(8)
        } else if c == 'd' {
            Some(10)
        } else if c == 'x' {
            Some(16)
        } else {
            None
        }
    } else {
        None
    }
}

/// A number, with or without a radix prefix.
pub fn read_number(chars: &Vec<char>, pos: usize) -> (r: Option<(Number, usize)>)
    requires
        pos <= chars@.len(),
    ensures
        match r {
            Some((value, end)) => number_at(chars@, pos as int) == Some((value@, end as int))
                && pos < end <= chars@.len(),
            None => number_at(chars@, pos as int) is None,
        },
{
    match read_radix(chars, pos) {
        Some(radix) => {
            if radix == 10 {
                read_decimal_number(chars, pos + 2)
            } else {
                read_exact(chars, pos + 2, radix)
            }
        },
        None => read_decimal_number(chars, pos),
    }
}

/// An integer, with or without a radix prefix.
pub fn read_byte_literal(chars: &Vec<char>, pos: usize) -> (r: Option<(Integer, usize)>)
    requires
        pos <= chars@.len(),
    ensures
        match r {
            Some((value, end)) => byte_literal_at(chars@, pos as int) == Some(
                (value@, end as int),
            ) && pos < end <= chars@.len(),
            None => byte_literal_at(chars@, pos as int) is None,
        },
{
    match read_radix(chars, pos) {
        Some(radix) => read_integer(chars, pos + 2, radix),
        None => read_integer(chars, pos, 10),
    }
}

/// The end of the run of characters that may follow the first of an
/// identifier.
fn scan_subsequent(chars: &Vec<char>, pos: usize) -> (r: usize)
    requires
        pos <= chars@.len(),
    ensures
        r == subsequent_end(chars@, pos as int),
        pos <= r <= chars@.len(),
{
    let mut i: usize = pos;
    while i < chars.len() && subsequent(chars[i])
        invariant
            pos <= i <= chars@.len(),
            subsequent_end(chars@, pos as int) == subsequent_end(chars@, i as int),
        decreases chars@.len() - i,
    {
        i += 1;
    }
    i
}

/// The end of the identifier that starts at `pos`.
pub fn read_identifier(chars: &Vec<char>, pos: usize) -> (r: Option<usize>)
    requires
        pos <= chars@.len(),
    ensures
        match r {
            Some(end) => identifier_end(chars@, pos as int) == Some(end as int) && pos < end
                <= chars@.len(),
            None => identifier_end(chars@, pos as int) is None,
        },
{
    let n: usize = chars.len();
    if pos >= n {
        None
    } else if initial(chars[pos]) {
        Some(scan_subsequent(chars, pos + 1))
    } else if sign(chars[pos]) {
        if pos + 1 < n && sign_subsequent(chars[pos + 1]) {
            Some(scan_subsequent(chars, pos + 2))
        } else if pos + 1 < n && pos + 2 < n && chars[pos + 1] == '.' && dot_subsequent(
            chars[pos + 2],
        ) {
            Some(scan_subsequent(chars, pos + 3))
        } else {
            Some(pos + 1)
        }
    } else if chars[pos] == '.' && pos + 1 < n && dot_subsequent(chars[pos + 1]) {
        Some(scan_subsequent(chars, pos + 2))
    } else {
        None
    }
}

/// Whether the whole text is one identifier, so that a symbol of this name
/// is written without quotes.
pub fn is_simple_identifier(text: &str) -> (r: bool)
    ensures
        r == is_identifier(text@),
{
    let chars = chars_of(text);
    match read_identifier(&chars, 0) {
        Some(end) => end == chars.len(),
        None => false,
    }
}

} // verus!
