//! Reading a number or an identifier looks at nothing beyond the blank or
//! the parenthesis that follows it: what is read of a text alone is read of
//! the text where it stands in a larger one.
use vstd::prelude::*;
use crate::read::grammar::{
    complex_at, decimal_at, decimal_number_at, digits_end, exact_at, exponent_at, has_char,
    has_prefix, identifier_end, integer_at, is_radix_digit, mantissa_at, number_at, radix_at,
    rational_at, sign_at, subsequent_end, word_inf, word_nan,
};
use crate::roundtrip::runs::{closed_at, lemma_standing};
use crate::text::is_subsequent;

verus! {

/// The text `t` stands in `s` at `pos`, and a blank, a closing parenthesis
/// or nothing follows it.
pub open spec fn set_in(s: Seq<char>, pos: int, t: Seq<char>) -> bool {
    &&& has_prefix(s, pos, t)
    &&& closed_at(s, pos + t.len())
}

/// A position and what was read before it, moved by `pos`.
pub open spec fn moved<T>(r: Option<(T, int)>, pos: int) -> Option<(T, int)> {
    match r {
        Some((v, end)) => Some((v, pos + end)),
        None => None,
    }
}

pub proof fn lemma_local_char(s: Seq<char>, pos: int, t: Seq<char>, k: int, c: char)
    requires
        set_in(s, pos, t),
        0 <= k <= t.len(),
        c != ' ',
        c != ')',
    ensures
        has_char(s, pos + k, c) == has_char(t, k, c),
{
    lemma_standing(s, pos, t);
    if k < t.len() {
        assert(s[pos + k] == t[k]);
    }
}

pub proof fn lemma_local_word(s: Seq<char>, pos: int, t: Seq<char>, k: int, word: Seq<char>)
    requires
        set_in(s, pos, t),
        0 <= k <= t.len(),
        forall|i: int| 0 <= i < word.len() ==> word[i] != ' ' && word[i] != ')',
    ensures
        has_prefix(s, pos + k, word) == has_prefix(t, k, word),
{
    lemma_standing(s, pos, t);
    if has_prefix(t, k, word) {
        lemma_standing(t, k, word);
        assert forall|i: int| 0 <= i < word.len() implies s[pos + k + i] == #[trigger] word[i] by {
            assert(s[pos + (k + i)] == t[k + i]);
        }
        assert(s.subrange(pos + k, pos + k + word.len()) =~= word);
    }
    if has_prefix(s, pos + k, word) {
        lemma_standing(s, pos + k, word);
        if k + word.len() > t.len() {
            let i = t.len() - k;
            assert(s[pos + k + i] == word[i]);
        } else {
            assert forall|i: int| 0 <= i < word.len() implies t[k + i] == #[trigger] word[i] by {
                assert(s[pos + k + i] == word[i]);
                assert(s[pos + (k + i)] == t[k + i]);
            }
            assert(t.subrange(k, k + word.len()) =~= word);
        }
    }
}

pub proof fn lemma_local_digits(s: Seq<char>, pos: int, t: Seq<char>, k: int, radix: int)
    requires
        set_in(s, pos, t),
        0 <= k <= t.len(),
        radix <= 36,
    ensures
        digits_end(s, pos + k, radix) == pos + digits_end(t, k, radix),
        k <= digits_end(t, k, radix) <= t.len(),
        s.subrange(pos + k, pos + digits_end(t, k, radix)) == t.subrange(
            k,
            digits_end(t, k, radix),
        ),
    decreases t.len() - k,
{
    lemma_standing(s, pos, t);
    if k < t.len() {
        assert(s[pos + k] == t[k]);
        if is_radix_digit(t[k], radix) {
            lemma_local_digits(s, pos, t, k + 1, radix);
        }
    }
    let end = digits_end(t, k, radix);
    assert(s.subrange(pos + k, pos + end) =~= t.subrange(k, end)) by {
        let a = s.subrange(pos + k, pos + end);
        let b = t.subrange(k, end);
        assert forall|i: int| 0 <= i < end - k implies #[trigger] a[i] == b[i] by {
            assert(s[pos + (k + i)] == t[k + i]);
        }
    }
}

pub proof fn lemma_local_subsequent(s: Seq<char>, pos: int, t: Seq<char>, k: int)
    requires
        set_in(s, pos, t),
        0 <= k <= t.len(),
    ensures
        subsequent_end(s, pos + k) == pos + subsequent_end(t, k),
        k <= subsequent_end(t, k) <= t.len(),
    decreases t.len() - k,
{
    lemma_standing(s, pos, t);
    if k < t.len() {
        assert(s[pos + k] == t[k]);
        if is_subsequent(t[k]) {
            lemma_local_subsequent(s, pos, t, k + 1);
        }
    }
}

pub proof fn lemma_local_sign(s: Seq<char>, pos: int, t: Seq<char>, k: int)
    requires
        set_in(s, pos, t),
        0 <= k <= t.len(),
    ensures
        sign_at(s, pos + k) == (sign_at(t, k).0, pos + sign_at(t, k).1),
        k <= sign_at(t, k).1 <= t.len(),
{
    lemma_local_char(s, pos, t, k, '-');
    lemma_local_char(s, pos, t, k, '+');
}

pub proof fn lemma_local_integer(s: Seq<char>, pos: int, t: Seq<char>, k: int, radix: int)
    requires
        set_in(s, pos, t),
        0 <= k <= t.len(),
        radix <= 36,
    ensures
        integer_at(s, pos + k, radix) == moved(integer_at(t, k, radix), pos),
        integer_at(t, k, radix) matches Some((_, end)) ==> k <= end <= t.len(),
{
    lemma_local_sign(s, pos, t, k);
    lemma_local_digits(s, pos, t, sign_at(t, k).1, radix);
}

pub proof fn lemma_local_rational(s: Seq<char>, pos: int, t: Seq<char>, k: int, radix: int)
    requires
        set_in(s, pos, t),
        0 <= k <= t.len(),
        radix <= 36,
    ensures
        rational_at(s, pos + k, radix) == moved(rational_at(t, k, radix), pos),
        rational_at(t, k, radix) matches Some((_, end)) ==> k <= end <= t.len(),
{
    lemma_local_integer(s, pos, t, k, radix);
    match integer_at(t, k, radix) {
        Some((n, slash)) => {
            lemma_local_char(s, pos, t, slash, '/');
            if has_char(t, slash, '/') {
                lemma_local_integer(s, pos, t, slash + 1, radix);
            }
        },
        None => {},
    }
}

pub proof fn lemma_local_exponent(s: Seq<char>, pos: int, t: Seq<char>, k: int)
    requires
        set_in(s, pos, t),
        0 <= k <= t.len(),
    ensures
        exponent_at(s, pos + k) == (exponent_at(t, k).0, pos + exponent_at(t, k).1),
        k <= exponent_at(t, k).1 <= t.len(),
{
    lemma_local_char(s, pos, t, k, 'e');
    if has_char(t, k, 'e') {
        lemma_local_integer(s, pos, t, k + 1, 10);
    }
}

/// A mantissa, its power of ten and the position behind them, moved by
/// `pos`.
pub open spec fn moved_mantissa(r: Option<(nat, int, int)>, pos: int) -> Option<(nat, int, int)> {
    match r {
        Some((m, e, end)) => Some((m, e, pos + end)),
        None => None,
    }
}

pub proof fn lemma_local_mantissa(s: Seq<char>, pos: int, t: Seq<char>, k: int, plain: bool)
    requires
        set_in(s, pos, t),
        0 <= k <= t.len(),
    ensures
        mantissa_at(s, pos + k, plain) == moved_mantissa(mantissa_at(t, k, plain), pos),
        mantissa_at(t, k, plain) matches Some((_, _, end)) ==> k <= end <= t.len(),
{
    lemma_local_digits(s, pos, t, k, 10);
    let whole_end = digits_end(t, k, 10);
    lemma_local_char(s, pos, t, whole_end, '.');
    if has_char(t, whole_end, '.') {
        lemma_local_digits(s, pos, t, whole_end + 1, 10);
        let part_end = digits_end(t, whole_end + 1, 10);
        lemma_local_exponent(s, pos, t, part_end);
    } else {
        lemma_local_exponent(s, pos, t, whole_end);
    }
}

pub proof fn lemma_local_decimal(s: Seq<char>, pos: int, t: Seq<char>, k: int, plain: bool)
    requires
        set_in(s, pos, t),
        0 <= k <= t.len(),
    ensures
        decimal_at(s, pos + k, plain) == moved(decimal_at(t, k, plain), pos),
        decimal_at(t, k, plain) matches Some((_, end)) ==> k <= end <= t.len(),
{
    lemma_local_sign(s, pos, t, k);
    let start = sign_at(t, k).1;
    lemma_local_word(s, pos, t, start, word_inf());
    lemma_local_word(s, pos, t, start, word_nan());
    lemma_local_mantissa(s, pos, t, start, plain);
}

pub proof fn lemma_local_complex(s: Seq<char>, pos: int, t: Seq<char>, k: int)
    requires
        set_in(s, pos, t),
        0 <= k <= t.len(),
    ensures
        complex_at(s, pos + k) == moved(complex_at(t, k), pos),
        complex_at(t, k) matches Some((_, end)) ==> k <= end <= t.len(),
{
    lemma_standing(s, pos, t);
    lemma_local_decimal(s, pos, t, k, true);
    match decimal_at(t, k, true) {
        Some((first, next)) => {
            lemma_local_char(s, pos, t, next, 'i');
            if next < t.len() {
                assert(s[pos + next] == t[next]);
                lemma_local_decimal(s, pos, t, next, true);
                match decimal_at(t, next, true) {
                    Some((second, last)) => {
                        lemma_local_char(s, pos, t, last, 'i');
                    },
                    None => {
                        lemma_local_char(s, pos, t, next + 1, 'i');
                    },
                }
            }
        },
        None => {
            if k < t.len() {
                assert(s[pos + k] == t[k]);
                lemma_local_char(s, pos, t, k + 1, 'i');
            }
        },
    }
}

pub proof fn lemma_local_exact(s: Seq<char>, pos: int, t: Seq<char>, k: int, radix: int)
    requires
        set_in(s, pos, t),
        0 <= k <= t.len(),
        radix <= 36,
    ensures
        exact_at(s, pos + k, radix) == moved(exact_at(t, k, radix), pos),
{
    lemma_local_rational(s, pos, t, k, radix);
    lemma_local_integer(s, pos, t, k, radix);
}

pub proof fn lemma_local_decimal_number(s: Seq<char>, pos: int, t: Seq<char>, k: int)
    requires
        set_in(s, pos, t),
        0 <= k <= t.len(),
    ensures
        decimal_number_at(s, pos + k) == moved(decimal_number_at(t, k), pos),
{
    lemma_local_complex(s, pos, t, k);
    lemma_local_decimal(s, pos, t, k, false);
    lemma_local_exact(s, pos, t, k, 10);
}

pub proof fn lemma_local_radix(s: Seq<char>, pos: int, t: Seq<char>)
    requires
        set_in(s, pos, t),
    ensures
        radix_at(s, pos) == radix_at(t, 0),
        radix_at(t, 0) is Some ==> t.len() >= 2,
{
    lemma_standing(s, pos, t);
    lemma_local_char(s, pos, t, 0, '#');
    if t.len() > 1 {
        assert(s[pos + 1] == t[1]);
    }
}

/// What is read as a number at the start of a text that is set in a larger
/// one is read of the larger one at that place.
pub proof fn lemma_local_number(s: Seq<char>, pos: int, t: Seq<char>)
    requires
        set_in(s, pos, t),
    ensures
        number_at(s, pos) == moved(number_at(t, 0), pos),
{
    lemma_local_radix(s, pos, t);
    match radix_at(t, 0) {
        Some(radix) => {
            assert(t.len() >= 2);
            if radix == 10 {
                lemma_local_decimal_number(s, pos, t, 2);
            } else {
                lemma_local_exact(s, pos, t, 2, radix);
            }
        },
        None => {
            lemma_local_decimal_number(s, pos, t, 0);
        },
    }
}

/// The identifier at the start of a text that is set in a larger one is the
/// identifier of the larger one at that place.
pub proof fn lemma_local_identifier(s: Seq<char>, pos: int, t: Seq<char>)
    requires
        set_in(s, pos, t),
    ensures
        identifier_end(s, pos) == match identifier_end(t, 0) {
            Some(end) => Some(pos + end),
            None => None,
        },
{
    lemma_standing(s, pos, t);
    if t.len() > 0 {
        assert(s[pos + 0] == t[0]);
    }
    if t.len() > 1 {
        assert(s[pos + 1] == t[1]);
        lemma_local_subsequent(s, pos, t, 1);
    }
    if t.len() > 2 {
        assert(s[pos + 2] == t[2]);
        lemma_local_subsequent(s, pos, t, 2);
    }
    if t.len() > 3 {
        lemma_local_subsequent(s, pos, t, 3);
    }
    if t.len() == 1 {
        lemma_local_subsequent(s, pos, t, 1);
    }
    if t.len() == 2 {
        lemma_local_subsequent(s, pos, t, 2);
    }
    if t.len() == 3 {
        lemma_local_subsequent(s, pos, t, 3);
    }
}

} // verus!
