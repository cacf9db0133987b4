//! Texts that stand in a larger text, and runs of characters of one class.
use vstd::prelude::*;
use crate::data::integer::{lemma_radix_ten, radix_value};
use crate::digits::{
    all_digits, decimal_digits, digits_value, int_text, is_digit, lemma_decimal_digits,
};
use crate::read::grammar::{
    char_bytes, digits_end, has_prefix, integer_at, is_radix_digit, sign_at,
};
use crate::text::{ascii_chars, is_decimal_digit};

verus! {

/// Nothing but a blank or a closing parenthesis follows at `pos`, if
/// anything follows at all: what was read before `pos` ends there.
pub open spec fn closed_at(s: Seq<char>, pos: int) -> bool {
    pos == s.len() || (0 <= pos < s.len() && (s[pos] == ' ' || s[pos] == ')'))
}

/// At `pos` the text ends, or a character stands that is neither a decimal
/// digit nor `e`.
pub open spec fn number_ends_at(s: Seq<char>, pos: int) -> bool {
    pos == s.len() || (0 <= pos < s.len() && !is_decimal_digit(s[pos]) && s[pos] != 'e')
}

/// The characters of a text that stands at `pos`.
pub proof fn lemma_standing(s: Seq<char>, pos: int, t: Seq<char>)
    requires
        has_prefix(s, pos, t),
    ensures
        forall|i: int| 0 <= i < t.len() ==> s[pos + i] == #[trigger] t[i],
{
    assert forall|i: int| 0 <= i < t.len() implies s[pos + i] == #[trigger] t[i] by {
        assert(s.subrange(pos, pos + t.len())[i] == s[pos + i]);
    }
}

/// A text whose characters stand at `pos` stands there.
pub proof fn lemma_stands(s: Seq<char>, pos: int, t: Seq<char>)
    requires
        0 <= pos,
        pos + t.len() <= s.len(),
        forall|i: int| 0 <= i < t.len() ==> s[pos + i] == #[trigger] t[i],
    ensures
        has_prefix(s, pos, t),
{
    assert(s.subrange(pos, pos + t.len()) =~= t);
}

/// Where two texts stand one behind the other, each stands at its place.
pub proof fn lemma_split(s: Seq<char>, pos: int, a: Seq<char>, b: Seq<char>)
    requires
        has_prefix(s, pos, a + b),
    ensures
        has_prefix(s, pos, a),
        has_prefix(s, pos + a.len(), b),
{
    lemma_standing(s, pos, a + b);
    assert forall|i: int| 0 <= i < a.len() implies s[pos + i] == #[trigger] a[i] by {
        assert((a + b)[i] == a[i]);
    }
    assert forall|i: int| 0 <= i < b.len() implies s[pos + a.len() + i] == #[trigger] b[i] by {
        assert((a + b)[a.len() + i] == b[i]);
    }
    lemma_stands(s, pos, a);
    lemma_stands(s, pos + a.len(), b);
}

/// A run of digits that something else follows ends there.
pub proof fn lemma_digits_run(s: Seq<char>, pos: int, end: int, radix: int)
    requires
        0 <= pos <= end <= s.len(),
        forall|i: int| pos <= i < end ==> is_radix_digit(#[trigger] s[i], radix),
        end == s.len() || !is_radix_digit(s[end], radix),
    ensures
        digits_end(s, pos, radix) == end,
    decreases end - pos,
{
    if pos < end {
        assert(is_radix_digit(s[pos], radix));
        lemma_digits_run(s, pos + 1, end, radix);
    }
}

/// The characters of decimal digits are digits of radix ten, and their
/// bytes are the digits again.
pub proof fn lemma_digit_chars(digits: Seq<u8>)
    requires
        all_digits(digits),
    ensures
        char_bytes(ascii_chars(digits)) == digits,
        forall|i: int|
            0 <= i < digits.len() ==> is_radix_digit(#[trigger] ascii_chars(digits)[i], 10),
        forall|i: int|
            0 <= i < digits.len() ==> is_decimal_digit(#[trigger] ascii_chars(digits)[i]),
{
    let chars = ascii_chars(digits);
    assert forall|i: int| 0 <= i < digits.len() implies is_radix_digit(#[trigger] chars[i], 10)
        && is_decimal_digit(chars[i]) && char_bytes(chars)[i] == digits[i] by {
        assert(is_digit(digits[i]));
        assert(chars[i] == digits[i] as char);
        assert(chars[i] as int == digits[i] as int);
    }
    assert(char_bytes(chars) =~= digits);
}

/// A run of decimal digits that stands at `pos`, with no digit behind it,
/// is read as a whole and has the value of the digits.
pub proof fn lemma_digits_stand(s: Seq<char>, pos: int, digits: Seq<u8>)
    requires
        all_digits(digits),
        has_prefix(s, pos, ascii_chars(digits)),
        pos + digits.len() == s.len() || !is_decimal_digit(s[pos + digits.len()]),
    ensures
        digits_end(s, pos, 10) == pos + digits.len(),
        char_bytes(s.subrange(pos, pos + digits.len())) == digits,
        radix_value(digits, 10) == digits_value(digits),
{
    let end = pos + digits.len();
    lemma_standing(s, pos, ascii_chars(digits));
    lemma_digit_chars(digits);
    assert forall|i: int| pos <= i < end implies is_radix_digit(#[trigger] s[i], 10) by {
        assert(s[i] == ascii_chars(digits)[i - pos]);
    }
    lemma_digits_run(s, pos, end, 10);
    lemma_radix_ten(digits);
    assert(s.subrange(pos, end) =~= ascii_chars(digits));
}

/// The text of an integer, with no digit behind it, is read as the integer.
pub proof fn lemma_integer_reads_back(s: Seq<char>, pos: int, v: int)
    requires
        has_prefix(s, pos, ascii_chars(int_text(v))),
        pos + int_text(v).len() == s.len() || !is_decimal_digit(s[pos + int_text(v).len()]),
    ensures
        integer_at(s, pos, 10) == Some((v, pos + int_text(v).len())),
        int_text(v).len() > 0,
        s[pos] == '-' || is_decimal_digit(s[pos]),
{
    let text = ascii_chars(int_text(v));
    lemma_standing(s, pos, text);
    let magnitude: nat = if v < 0 {
        (-v) as nat
    } else {
        v as nat
    };
    let digits = decimal_digits(magnitude);
    lemma_decimal_digits(magnitude);
    lemma_digit_chars(digits);
    if v < 0 {
        let sign = seq![45u8];
        assert(int_text(v) == sign + digits);
        assert(text =~= seq!['-'] + ascii_chars(digits)) by {
            assert(text.len() == 1 + digits.len());
            assert forall|i: int| 0 <= i < text.len() implies text[i] == (seq!['-'] + ascii_chars(
                digits,
            ))[i] by {
                if i == 0 {
                    assert(int_text(v)[0] == 45u8);
                } else {
                    assert(int_text(v)[i] == digits[i - 1]);
                }
            }
        }
        lemma_split(s, pos, seq!['-'], ascii_chars(digits));
        assert(text[0] == '-');
        assert(s[pos] == '-');
        assert(sign_at(s, pos) == (true, pos + 1));
        lemma_digits_stand(s, pos + 1, digits);
    } else {
        assert(int_text(v) == digits);
        assert(is_decimal_digit(text[0]));
        assert(s[pos] == text[0]);
        assert(sign_at(s, pos) == (false, pos));
        lemma_digits_stand(s, pos, digits);
    }
}

} // verus!
