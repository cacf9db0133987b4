//! Numbers read back: the text that the printer writes for a number is read
//! as that number.
use vstd::prelude::*;
use crate::data::number::NumberView;
use crate::data::rational::is_lowest_terms_of;
use crate::data::reals::{decimal_real, lemma_strip_zeros, RealView};
use crate::digits::{
    all_digits, decimal_digits, digits_value, int_text, is_digit, lemma_decimal_digits,
    lemma_digits_value_push, lemma_leading_zeros, lemma_pow10_step, lemma_trailing_zeros,
    lemma_zeros_value, pow10, zeros,
};
use crate::print::printer::{finite_text, number_text, real_text, sign_text, PLAIN_LIMIT};
use crate::read::grammar::{
    complex_at, decimal_at, exponent_at, has_char, has_prefix, integer_at, mantissa_at,
    number_at, radix_at, rational_at, sign_at, word_inf, word_nan,
};
use crate::roundtrip::runs::{
    closed_at, lemma_digits_stand, lemma_integer_reads_back, lemma_split, lemma_standing,
    number_ends_at,
};
use crate::text::{ascii_chars, is_decimal_digit, is_sign};

verus! {

/// The characters of two byte strings put together.
pub proof fn lemma_ascii_concat(a: Seq<u8>, b: Seq<u8>)
    ensures
        ascii_chars(a + b) == ascii_chars(a) + ascii_chars(b),
{
    assert(ascii_chars(a + b) =~= ascii_chars(a) + ascii_chars(b));
}

/// The digits of a number that is no multiple of ten, or is zero.
proof fn lemma_digits_of(m: nat)
    ensures
        all_digits(decimal_digits(m)),
        decimal_digits(m).len() > 0,
        digits_value(decimal_digits(m)) == m,
        all_digits(seq![48u8]),
        digits_value(seq![48u8]) == 0,
{
    lemma_decimal_digits(m);
    assert(seq![48u8].drop_last() =~= Seq::<u8>::empty());
    assert(digits_value(seq![48u8].drop_last()) == 0);
}

/// The text of a finite real number starts with a digit.
pub proof fn lemma_finite_text_start(m: nat, e: int)
    ensures
        finite_text(m, e).len() >= 3,
        is_decimal_digit(finite_text(m, e)[0]),
{
    lemma_digits_of(m);
    let d = decimal_digits(m);
    let digits = ascii_chars(d);
    assert(is_digit(d[0]));
    assert(digits[0] == d[0] as char);
    let n = digits.len() as int;
    if 0 <= e <= PLAIN_LIMIT as int {
        assert(finite_text(m, e)[0] == digits[0]);
    } else if -(PLAIN_LIMIT as int) <= e < 0 {
        if -e < n {
            assert(finite_text(m, e)[0] == digits[0]);
        } else {
            assert(finite_text(m, e)[0] == '0');
        }
    } else {
        assert(finite_text(m, e)[0] == digits[0]);
    }
}

/// A real number in normal form is what its mantissa and exponent make.
proof fn lemma_normal(negative: bool, m: nat, e: int)
    requires
        m % 10 != 0 || (m == 0 && e == 0),
        i64::MIN <= e <= i64::MAX,
    ensures
        decimal_real(negative, m, e) == (RealView::Finite { negative, mantissa: m, exponent: e }),
{
}

/// A real number read with `k` more zeros behind its mantissa, and an
/// exponent lower by `k`, is the same number.
proof fn lemma_shifted(negative: bool, m: nat, e: int, k: nat)
    requires
        m % 10 != 0 || (m == 0 && e == 0),
        i64::MIN <= e <= i64::MAX,
    ensures
        decimal_real(negative, m * pow10(k), e - k) == (RealView::Finite {
            negative,
            mantissa: m,
            exponent: e,
        }),
{
    lemma_pow10_step(k);
    if m == 0 {
        assert(m * pow10(k) == 0);
    } else {
        lemma_strip_zeros(m, k, e - k);
        assert(m * pow10(k) > 0) by (nonlinear_arith)
            requires
                m > 0,
                pow10(k) > 0,
        ;
    }
}

/// Digits with a point among them, and an exponent or none behind them,
/// are read as a mantissa and a power of ten.
proof fn lemma_point_form(
    s: Seq<char>,
    pos: int,
    whole: Seq<u8>,
    part: Seq<u8>,
    e: int,
    end: int,
    plain: bool,
)
    requires
        all_digits(whole),
        all_digits(part),
        whole.len() + part.len() > 0,
        has_prefix(s, pos, ascii_chars(whole)),
        has_char(s, pos + whole.len(), '.'),
        has_prefix(s, pos + whole.len() + 1, ascii_chars(part)),
        pos + whole.len() + 1 + part.len() == s.len() || !is_decimal_digit(
            s[pos + whole.len() + 1 + part.len()],
        ),
        exponent_at(s, pos + whole.len() + 1 + part.len()) == (e, end),
    ensures
        mantissa_at(s, pos, plain) == Some((digits_value(whole + part), e - part.len(), end)),
{
    lemma_digits_stand(s, pos, whole);
    lemma_digits_stand(s, pos + whole.len() + 1, part);
}

/// What is read of a mantissa `m0` and a power of ten `e0` is the real
/// number `m * 10^e`, whatever the sign.
spec fn reads_as(m0: nat, e0: int, m: nat, e: int) -> bool {
    &&& decimal_real(true, m0, e0) == (RealView::Finite {
        negative: true,
        mantissa: m,
        exponent: e,
    })
    &&& decimal_real(false, m0, e0) == (RealView::Finite {
        negative: false,
        mantissa: m,
        exponent: e,
    })
}

proof fn lemma_one_zero(s: Seq<char>, at: int)
    requires
        has_char(s, at, '0'),
    ensures
        has_prefix(s, at, ascii_chars(seq![48u8])),
        all_digits(seq![48u8]),
{
    assert(ascii_chars(seq![48u8]) =~= seq!['0']);
    assert(s.subrange(at, at + 1) =~= seq!['0']);
}

/// A whole number: its digits, the zeros of its power of ten, and `.0`.
proof fn lemma_whole_form(s: Seq<char>, pos: int, m: nat, e: int, plain: bool)
    requires
        m % 10 != 0 || (m == 0 && e == 0),
        0 <= e <= PLAIN_LIMIT as int,
        has_prefix(s, pos, finite_text(m, e)),
        number_ends_at(s, pos + finite_text(m, e).len()),
    ensures
        mantissa_at(s, pos, plain) matches Some((m0, e0, end)) && end == pos + finite_text(
            m,
            e,
        ).len() && reads_as(m0, e0, m, e),
{
    lemma_digits_of(m);
    let d = decimal_digits(m);
    let zero = seq![48u8];
    let text = finite_text(m, e);
    let end = pos + text.len();
    lemma_standing(s, pos, text);
    let whole = d + zeros(e as nat);
    lemma_zeros_value(e as nat);
    lemma_ascii_concat(d, zeros(e as nat));
    assert(text == ascii_chars(whole) + seq!['.', '0']);
    lemma_split(s, pos, ascii_chars(whole), seq!['.', '0']);
    let dot = pos + whole.len();
    assert(s[dot] == '.') by {
        assert(text[whole.len() as int] == '.');
    }
    assert(s[dot + 1] == '0') by {
        assert(text[(whole.len() + 1) as int] == '0');
    }
    assert(all_digits(whole));
    lemma_one_zero(s, dot + 1);
    assert(exponent_at(s, end) == (0int, end));
    lemma_point_form(s, pos, whole, zero, 0, end, plain);
    lemma_trailing_zeros(d, (e + 1) as nat);
    assert(whole + zero =~= d + zeros((e + 1) as nat));
    lemma_shifted(true, m, e, (e + 1) as nat);
    lemma_shifted(false, m, e, (e + 1) as nat);
}

/// A number with the point among its digits.
proof fn lemma_split_form(s: Seq<char>, pos: int, m: nat, e: int, plain: bool)
    requires
        m % 10 != 0 || (m == 0 && e == 0),
        -(PLAIN_LIMIT as int) <= e < 0,
        -e < decimal_digits(m).len(),
        has_prefix(s, pos, finite_text(m, e)),
        number_ends_at(s, pos + finite_text(m, e).len()),
    ensures
        mantissa_at(s, pos, plain) matches Some((m0, e0, end)) && end == pos + finite_text(
            m,
            e,
        ).len() && reads_as(m0, e0, m, e),
{
    lemma_digits_of(m);
    let d = decimal_digits(m);
    let n = d.len() as int;
    let text = finite_text(m, e);
    let end = pos + text.len();
    lemma_standing(s, pos, text);
    let j = n + e;
    let whole = d.subrange(0, j);
    let part = d.subrange(j, n);
    assert(ascii_chars(d).subrange(0, j) =~= ascii_chars(whole));
    assert(ascii_chars(d).subrange(j, n) =~= ascii_chars(part));
    assert(text == ascii_chars(whole) + seq!['.'] + ascii_chars(part));
    lemma_split(s, pos, ascii_chars(whole) + seq!['.'], ascii_chars(part));
    lemma_split(s, pos, ascii_chars(whole), seq!['.']);
    assert(s[pos + j] == '.') by {
        assert(text[j] == '.');
    }
    assert(all_digits(whole)) by {
        assert forall|i: int| 0 <= i < whole.len() implies is_digit(#[trigger] whole[i]) by {
            assert(whole[i] == d[i]);
        }
    }
    assert(all_digits(part)) by {
        assert forall|i: int| 0 <= i < part.len() implies is_digit(#[trigger] part[i]) by {
            assert(part[i] == d[j + i]);
        }
    }
    assert(exponent_at(s, end) == (0int, end));
    lemma_point_form(s, pos, whole, part, 0, end, plain);
    assert(whole + part =~= d);
    lemma_normal(true, m, e);
    lemma_normal(false, m, e);
}

/// A number below one: `0.`, zeros, and its digits.
proof fn lemma_fraction_form(s: Seq<char>, pos: int, m: nat, e: int, plain: bool)
    requires
        m % 10 != 0 || (m == 0 && e == 0),
        -(PLAIN_LIMIT as int) <= e < 0,
        -e >= decimal_digits(m).len(),
        has_prefix(s, pos, finite_text(m, e)),
        number_ends_at(s, pos + finite_text(m, e).len()),
    ensures
        mantissa_at(s, pos, plain) matches Some((m0, e0, end)) && end == pos + finite_text(
            m,
            e,
        ).len() && reads_as(m0, e0, m, e),
{
    lemma_digits_of(m);
    let d = decimal_digits(m);
    let n = d.len() as int;
    let zero = seq![48u8];
    let text = finite_text(m, e);
    let end = pos + text.len();
    lemma_standing(s, pos, text);
    let k = (-e - n) as nat;
    let part = zeros(k) + d;
    lemma_zeros_value(k);
    lemma_ascii_concat(zeros(k), d);
    assert(text =~= seq!['0', '.'] + ascii_chars(part));
    lemma_split(s, pos, seq!['0', '.'], ascii_chars(part));
    assert(s[pos] == '0') by {
        assert(text[0] == '0');
    }
    assert(s[pos + 1] == '.') by {
        assert(text[1] == '.');
    }
    lemma_one_zero(s, pos);
    assert(all_digits(part));
    assert(exponent_at(s, end) == (0int, end));
    lemma_point_form(s, pos, zero, part, 0, end, plain);
    assert(zero + part =~= zeros(k + 1) + d);
    lemma_leading_zeros(k + 1, d);
    lemma_normal(true, m, e);
    lemma_normal(false, m, e);
}

/// A number with an exponent: its digits, `.0e`, and the power of ten.
proof fn lemma_exponent_form(s: Seq<char>, pos: int, m: nat, e: int, plain: bool)
    requires
        m % 10 != 0 || (m == 0 && e == 0),
        i64::MIN <= e <= i64::MAX,
        !(-(PLAIN_LIMIT as int) <= e <= PLAIN_LIMIT as int),
        has_prefix(s, pos, finite_text(m, e)),
        number_ends_at(s, pos + finite_text(m, e).len()),
    ensures
        mantissa_at(s, pos, plain) matches Some((m0, e0, end)) && end == pos + finite_text(
            m,
            e,
        ).len() && reads_as(m0, e0, m, e),
{
    lemma_digits_of(m);
    let d = decimal_digits(m);
    let n = d.len() as int;
    let zero = seq![48u8];
    let text = finite_text(m, e);
    let end = pos + text.len();
    lemma_standing(s, pos, text);
    let exponent = ascii_chars(int_text(e));
    assert(text == ascii_chars(d) + seq!['.', '0', 'e'] + exponent);
    lemma_split(s, pos, ascii_chars(d) + seq!['.', '0', 'e'], exponent);
    lemma_split(s, pos, ascii_chars(d), seq!['.', '0', 'e']);
    assert(s[pos + n] == '.') by {
        assert(text[n] == '.');
    }
    assert(s[pos + n + 1] == '0') by {
        assert(text[n + 1] == '0');
    }
    assert(s[pos + n + 2] == 'e') by {
        assert(text[n + 2] == 'e');
    }
    lemma_one_zero(s, pos + n + 1);
    lemma_integer_reads_back(s, pos + n + 3, e);
    assert(exponent_at(s, pos + n + 2) == (e, end));
    lemma_point_form(s, pos, d, zero, e, end, plain);
    lemma_digits_value_push(d, 48u8);
    assert(d + zero =~= d.push(48u8));
    lemma_pow10_step(0);
    assert(pow10(1) == 10);
    assert(m * pow10(1) == m * 10);
    lemma_shifted(true, m, e, 1);
    lemma_shifted(false, m, e, 1);
}

/// The text of a finite real number without its sign is read as the number.
pub proof fn lemma_finite_reads_back(s: Seq<char>, pos: int, m: nat, e: int, plain: bool)
    requires
        m % 10 != 0 || (m == 0 && e == 0),
        i64::MIN <= e <= i64::MAX,
        has_prefix(s, pos, finite_text(m, e)),
        number_ends_at(s, pos + finite_text(m, e).len()),
    ensures
        mantissa_at(s, pos, plain) matches Some((m0, e0, end)) && end == pos + finite_text(
            m,
            e,
        ).len() && decimal_real(true, m0, e0) == (RealView::Finite {
            negative: true,
            mantissa: m,
            exponent: e,
        }) && decimal_real(false, m0, e0) == (RealView::Finite {
            negative: false,
            mantissa: m,
            exponent: e,
        }),
{
    if 0 <= e <= PLAIN_LIMIT as int {
        lemma_whole_form(s, pos, m, e, plain);
    } else if -(PLAIN_LIMIT as int) <= e < 0 {
        if -e < decimal_digits(m).len() {
            lemma_split_form(s, pos, m, e, plain);
        } else {
            lemma_fraction_form(s, pos, m, e, plain);
        }
    } else {
        lemma_exponent_form(s, pos, m, e, plain);
    }
}

/// The text of a real number is read as the number, with or without
/// digits alone being accepted.
pub proof fn lemma_real_reads_back(s: Seq<char>, pos: int, r: RealView, plus: bool, plain: bool)
    requires
        r.wf(),
        has_prefix(s, pos, real_text(r, plus)),
        number_ends_at(s, pos + real_text(r, plus).len()),
    ensures
        decimal_at(s, pos, plain) == Some((r, pos + real_text(r, plus).len())),
        real_text(r, plus).len() >= 3,
        is_sign(s[pos]) || is_decimal_digit(s[pos]),
        plus ==> is_sign(s[pos]),
{
    let text = real_text(r, plus);
    lemma_standing(s, pos, text);
    match r {
        RealView::Finite { negative, mantissa, exponent } => {
            let sign = sign_text(negative, plus);
            let body = finite_text(mantissa, exponent);
            lemma_finite_text_start(mantissa, exponent);
            lemma_split(s, pos, sign, body);
            lemma_standing(s, pos + sign.len(), body);
            let start = pos + sign.len();
            assert(is_decimal_digit(s[start])) by {
                assert(s[start] == body[0]);
            }
            if sign.len() > 0 {
                assert(s[pos] == sign[0]) by {
                    assert(text[0] == sign[0]);
                }
            }
            assert(sign_at(s, pos) == (negative, start));
            assert(!has_prefix(s, start, word_inf())) by {
                if has_prefix(s, start, word_inf()) {
                    lemma_standing(s, start, word_inf());
                    assert(s[start + 0] == word_inf()[0]);
                }
            }
            assert(!has_prefix(s, start, word_nan())) by {
                if has_prefix(s, start, word_nan()) {
                    lemma_standing(s, start, word_nan());
                    assert(s[start + 0] == word_nan()[0]);
                }
            }
            lemma_finite_reads_back(s, start, mantissa, exponent, plain);
        },
        RealView::Infinite { negative } => {
            let sign = sign_text(negative, true);
            lemma_split(s, pos, sign, word_inf());
            assert(s[pos] == sign[0]) by {
                assert(text[0] == sign[0]);
            }
            assert(sign_at(s, pos) == (negative, pos + 1));
        },
        RealView::NotANumber { negative } => {
            let sign = sign_text(negative, true);
            lemma_split(s, pos, sign, word_nan());
            assert(s[pos] == sign[0]) by {
                assert(text[0] == sign[0]);
            }
            assert(sign_at(s, pos) == (negative, pos + 1));
            assert(!has_prefix(s, pos + 1, word_inf())) by {
                if has_prefix(s, pos + 1, word_inf()) {
                    lemma_standing(s, pos + 1, word_inf());
                    lemma_standing(s, pos + 1, word_nan());
                    assert(s[pos + 1 + 0] == word_inf()[0]);
                    assert(s[pos + 1 + 0] == word_nan()[0]);
                }
            }
        },
    }
}

/// At `pos` the text ends, or a character stands that cannot go on a
/// number of any kind.
pub open spec fn exact_ends_at(s: Seq<char>, pos: int) -> bool {
    pos == s.len() || (0 <= pos < s.len() && !is_decimal_digit(s[pos]) && s[pos] != 'e' && s[pos]
        != '.' && s[pos] != 'i' && !is_sign(s[pos]))
}

/// The text of an integer is read as an integer, and as no complex or real
/// number.
pub proof fn lemma_integer_alone(s: Seq<char>, pos: int, v: int)
    requires
        has_prefix(s, pos, ascii_chars(int_text(v))),
        exact_ends_at(s, pos + int_text(v).len()),
    ensures
        complex_at(s, pos) is None,
        decimal_at(s, pos, false) is None,
        integer_at(s, pos, 10) == Some((v, pos + int_text(v).len())),
        radix_at(s, pos) is None,
        int_text(v).len() > 0,
{
    let end = pos + int_text(v).len();
    lemma_integer_reads_back(s, pos, v);
    let (negative, start) = sign_at(s, pos);
    assert(crate::read::grammar::digits_end(s, start, 10) == end && end > start);
    assert(is_decimal_digit(s[start]));
    assert(!has_prefix(s, start, word_inf())) by {
        if has_prefix(s, start, word_inf()) {
            lemma_standing(s, start, word_inf());
            assert(s[start + 0] == word_inf()[0]);
        }
    }
    assert(!has_prefix(s, start, word_nan())) by {
        if has_prefix(s, start, word_nan()) {
            lemma_standing(s, start, word_nan());
            assert(s[start + 0] == word_nan()[0]);
        }
    }
    assert(exponent_at(s, end) == (0int, end));
    assert(mantissa_at(s, start, false) is None);
    assert(mantissa_at(s, start, true) matches Some((_, _, next)) && next == end);
    assert(decimal_at(s, pos, true) matches Some((_, next)) && next == end);
}

/// The text of a number in normal form is read as the number.
pub proof fn lemma_number_reads_back(s: Seq<char>, pos: int, n: NumberView)
    requires
        n.wf(),
        has_prefix(s, pos, number_text(n)),
        closed_at(s, pos + number_text(n).len()),
    ensures
        number_text(n).len() > 0,
        is_sign(s[pos]) || is_decimal_digit(s[pos]),
        number_at(s, pos) == Some((n, pos + number_text(n).len())),
{
    let text = number_text(n);
    let end = pos + text.len();
    match n {
        NumberView::Integer(v) => {
            lemma_integer_alone(s, pos, v);
            lemma_integer_reads_back(s, pos, v);
            assert(rational_at(s, pos, 10) is None);
        },
        NumberView::Rational(a, b) => {
            let numer = ascii_chars(int_text(a));
            let denom = ascii_chars(int_text(b));
            assert(text == numer + seq!['/'] + denom);
            lemma_split(s, pos, numer + seq!['/'], denom);
            lemma_split(s, pos, numer, seq!['/']);
            lemma_standing(s, pos, text);
            let slash = pos + numer.len();
            assert(s[slash] == '/') by {
                assert(text[numer.len() as int] == '/');
            }
            lemma_integer_alone(s, pos, a);
            lemma_integer_reads_back(s, pos, a);
            lemma_integer_reads_back(s, slash + 1, b);
            assert(is_lowest_terms_of(a, b, a, b));
            crate::data::divisors::lemma_lowest_terms(a, b, a, b);
        },
        NumberView::Real(r) => {
            lemma_real_reads_back(s, pos, r, false, true);
            lemma_real_reads_back(s, pos, r, false, false);
            assert(radix_at(s, pos) is None);
            assert(complex_at(s, pos) is None);
        },
        NumberView::Complex(re, im) => {
            let first = real_text(re, false);
            let second = real_text(im, true);
            assert(text == first + second + seq!['i']);
            lemma_split(s, pos, first + second, seq!['i']);
            lemma_split(s, pos, first, second);
            lemma_standing(s, pos, text);
            let mid = pos + first.len();
            let last = mid + second.len();
            assert(s[last] == 'i') by {
                assert(text[(first.len() + second.len()) as int] == 'i');
            }
            // the imaginary part starts with its sign, which ends the real part
            assert(is_sign(s[mid])) by {
                lemma_second_sign(im);
                assert(text[first.len() as int] == second[0]);
            }
            lemma_real_reads_back(s, pos, re, false, true);
            lemma_real_reads_back(s, mid, im, true, true);
            assert(radix_at(s, pos) is None);
        },
    }
}

/// The text of an imaginary part starts with a sign.
proof fn lemma_second_sign(im: RealView)
    ensures
        real_text(im, true).len() > 0,
        is_sign(real_text(im, true)[0]),
{
    match im {
        RealView::Finite { negative, mantissa, exponent } => {
            assert(real_text(im, true)[0] == sign_text(negative, true)[0]);
        },
        RealView::Infinite { negative } => {
            assert(real_text(im, true)[0] == sign_text(negative, true)[0]);
        },
        RealView::NotANumber { negative } => {
            assert(real_text(im, true)[0] == sign_text(negative, true)[0]);
        },
    }
}

} // verus!
