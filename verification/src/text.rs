//! Characters and strings: the character classes of the grammar, escapes,
//! and hexadecimal code points.
use vstd::prelude::*;

verus! {

pub open spec fn is_letter(c: char) -> bool {
    ('a' <= c <= 'z') || ('A' <= c <= 'Z')
}

pub open spec fn is_decimal_digit(c: char) -> bool {
    '0' <= c <= '9'
}

pub open spec fn is_hex_digit(c: char) -> bool {
    is_decimal_digit(c) || ('a' <= c <= 'f') || ('A' <= c <= 'F')
}

pub open spec fn is_special_initial(c: char) -> bool {
    c == '!' || c == '$' || c == '%' || c == '&' || c == '*' || c == '/' || c == ':' || c == '<'
        || c == '=' || c == '>' || c == '?' || c == '^' || c == '_' || c == '~'
}

/// A character that may start a plain identifier.
pub open spec fn is_initial(c: char) -> bool {
    is_letter(c) || is_special_initial(c)
}

pub open spec fn is_sign(c: char) -> bool {
    c == '+' || c == '-'
}

/// A character that may follow the first of an identifier.
pub open spec fn is_subsequent(c: char) -> bool {
    is_initial(c) || is_decimal_digit(c) || is_sign(c) || c == '.' || c == '@'
}

/// A character that may follow the sign that starts a peculiar identifier.
pub open spec fn is_sign_subsequent(c: char) -> bool {
    is_initial(c) || is_sign(c) || c == '@'
}

/// A character that may follow the dot that starts a peculiar identifier.
pub open spec fn is_dot_subsequent(c: char) -> bool {
    is_sign_subsequent(c) || c == '.'
}

pub open spec fn is_whitespace(c: char) -> bool {
    c == ' ' || c == '\t' || c == '\r' || c == '\n'
}

/// A visible character of ASCII.
pub open spec fn is_ascii_graphic(c: char) -> bool {
    '!' <= c <= '~'
}

/// Whether Unicode counts the character as a letter or a number, as
/// `char::is_alphanumeric` tells.
pub uninterp spec fn is_alphanumeric(c: char) -> bool;

/// A character that is printed as it is.
pub open spec fn is_printable(c: char) -> bool {
    is_alphanumeric(c) || is_ascii_graphic(c)
}

/// A code point that is a character: below the surrogates or above them, up
/// to the last code point of Unicode.
pub open spec fn is_scalar_value(v: int) -> bool {
    (0 <= v <= 0xD7FF) || (0xE000 <= v <= 0x10FFFF)
}

pub fn letter(c: char) -> (r: bool)
    ensures
        r == is_letter(c),
{
    ('a' <= c && c <= 'z') || ('A' <= c && c <= 'Z')
}

pub fn decimal_digit(c: char) -> (r: bool)
    ensures
        r == is_decimal_digit(c),
{
    '0' <= c && c <= '9'
}

pub fn hex_digit(c: char) -> (r: bool)
    ensures
        r == is_hex_digit(c),
{
    decimal_digit(c) || ('a' <= c && c <= 'f') || ('A' <= c && c <= 'F')
}

pub fn special_initial(c: char) -> (r: bool)
    ensures
        r == is_special_initial(c),
{
    c == '!' || c == '$' || c == '%' || c == '&' || c == '*' || c == '/' || c == ':' || c == '<'
        || c == '=' || c == '>' || c == '?' || c == '^' || c == '_' || c == '~'
}

pub fn initial(c: char) -> (r: bool)
    ensures
        r == is_initial(c),
{
    letter(c) || special_initial(c)
}

pub fn sign(c: char) -> (r: bool)
    ensures
        r == is_sign(c),
{
    c == '+' || c == '-'
}

pub fn subsequent(c: char) -> (r: bool)
    ensures
        r == is_subsequent(c),
{
    initial(c) || decimal_digit(c) || sign(c) || c == '.' || c == '@'
}

pub fn sign_subsequent(c: char) -> (r: bool)
    ensures
        r == is_sign_subsequent(c),
{
    initial(c) || sign(c) || c == '@'
}

pub fn dot_subsequent(c: char) -> (r: bool)
    ensures
        r == is_dot_subsequent(c),
{
    sign_subsequent(c) || c == '.'
}

pub fn whitespace(c: char) -> (r: bool)
    ensures
        r == is_whitespace(c),
{
    c == ' ' || c == '\t' || c == '\r' || c == '\n'
}

/// Asks `char::is_alphanumeric`.
#[verifier::external_body]
fn alphanumeric(c: char) -> (r: bool)
    ensures
        r == is_alphanumeric(c),
{
    c.is_alphanumeric()
}

pub fn printable(c: char) -> (r: bool)
    ensures
        r == is_printable(c),
{
    alphanumeric(c) || ('!' <= c && c <= '~')
}

/// Makes a character of a code point with `char::from_u32`, which gives one
/// for every code point but the surrogates and those beyond Unicode.
#[verifier::external_body]
fn char_from_code(v: u32) -> (r: Option<char>)
    ensures
        r is Some <==> is_scalar_value(v as int),
        r matches Some(c) ==> c == v as char,
{
    char::from_u32(v)
}

/// Appends one character with `String::push`.
#[verifier::external_body]
pub(crate) fn push_char(s: &mut String, c: char)
    ensures
        final(s)@ == old(s)@.push(c),
{
    s.push(c)
}

/// Compares two strings with `==` on `str`: they are equal where their
/// characters are.
#[verifier::external_body]
pub(crate) fn same_text(a: &str, b: &str) -> (r: bool)
    ensures
        r == (a@ == b@),
{
    a == b
}

/// The characters of a string, in a vector.
pub fn chars_of(s: &str) -> (r: Vec<char>)
    ensures
        r@ == s@,
{
    let mut out: Vec<char> = Vec::new();
    for c in it: s.chars()
        invariant
            it.seq() == s@,
            out@.len() == it.index(),
            forall|j: int| 0 <= j < out@.len() ==> out@[j] == it.seq()[j],
    {
        out.push(c);
    }
    assert(out@ =~= s@);
    out
}

/// The characters that stand for a string of ASCII bytes.
pub open spec fn ascii_chars(bytes: Seq<u8>) -> Seq<char> {
    Seq::new(bytes.len(), |i: int| bytes[i] as char)
}

/// Appends ASCII bytes to the string, as characters.
pub fn push_ascii(s: &mut String, bytes: &Vec<u8>)
    ensures
        final(s)@ == old(s)@ + ascii_chars(bytes@),
{
    let mut i: usize = 0;
    while i < bytes.len()
        invariant
            i <= bytes@.len(),
            s@ == old(s)@ + ascii_chars(bytes@).take(i as int),
        decreases bytes@.len() - i,
    {
        push_char(s, bytes[i] as char);
        proof {
            assert(ascii_chars(bytes@).take(i + 1) =~= ascii_chars(bytes@).take(i as int).push(
                bytes@[i as int] as char,
            ));
        }
        i += 1;
    }
    proof {
        assert(ascii_chars(bytes@).take(bytes@.len() as int) =~= ascii_chars(bytes@));
    }
}

/// The value of a hexadecimal digit.
pub open spec fn hex_digit_value(c: char) -> int {
    if '0' <= c <= '9' {
        c as int - 48
    } else if 'a' <= c <= 'f' {
        c as int - 97 + 10
    } else {
        c as int - 65 + 10
    }
}

/// The number that a string of hexadecimal digits denotes.
pub open spec fn hex_value(s: Seq<char>) -> nat
    decreases s.len(),
{
    if s.len() == 0 {
        0
    } else {
        (hex_value(s.drop_last()) * 16 + hex_digit_value(s.last())) as nat
    }
}

pub open spec fn all_hex_digits(s: Seq<char>) -> bool {
    forall|i: int| 0 <= i < s.len() ==> is_hex_digit(#[trigger] s[i])
}

/// The lower-case hexadecimal digit of a value below sixteen.
pub open spec fn hex_digit_of(v: nat) -> char {
    if v < 10 {
        (48 + v) as char
    } else {
        (97 + v - 10) as char
    }
}

/// The lower-case hexadecimal digits of `n`, without leading zeros; zero is
/// `0`.
pub open spec fn hex_digits(n: nat) -> Seq<char>
    decreases n,
{
    if n < 16 {
        seq![hex_digit_of(n)]
    } else {
        hex_digits(n / 16).push(hex_digit_of(n % 16))
    }
}

/// The hexadecimal digits of a number are such digits and denote it.
pub proof fn lemma_hex_digits(n: nat)
    ensures
        all_hex_digits(hex_digits(n)),
        hex_value(hex_digits(n)) == n,
        hex_digits(n).len() > 0,
    decreases n,
{
    if n < 16 {
        let s = hex_digits(n);
        assert(s.drop_last() =~= Seq::<char>::empty());
        assert(hex_value(s.drop_last()) == 0);
        assert(is_hex_digit(hex_digit_of(n)));
    } else {
        lemma_hex_digits(n / 16);
        let p = hex_digits(n / 16);
        let d = hex_digit_of(n % 16);
        let s = p.push(d);
        assert(s.drop_last() =~= p);
        assert(is_hex_digit(d));
        assert forall|i: int| 0 <= i < s.len() implies is_hex_digit(#[trigger] s[i]) by {
            if i < p.len() {
                assert(s[i] == p[i]);
            }
        }
    }
}

/// Appends the lower-case hexadecimal digits of `v`.
pub fn push_hex(s: &mut String, v: u32)
    ensures
        final(s)@ == old(s)@ + hex_digits(v as nat),
    decreases v,
{
    if v >= 16 {
        push_hex(s, v / 16);
    }
    let d: u32 = v % 16;
    let c: u8 = if d < 10 {
        (48 + d) as u8
    } else {
        (97 + d - 10) as u8
    };
    push_char(s, c as char);
    proof {
        if v < 16 {
            assert(s@ =~= old(s)@ + hex_digits(v as nat));
        } else {
            assert(s@ =~= old(s)@ + hex_digits(v as nat));
        }
    }
}

/// The character that a string of hexadecimal digits names by its code
/// point, where there is one.
pub open spec fn hex_escape_value(s: Seq<char>) -> Option<char> {
    if s.len() > 0 && all_hex_digits(s) && is_scalar_value(hex_value(s) as int) {
        Some(hex_value(s) as char)
    } else {
        None
    }
}

/// Reads the hexadecimal digits `chars[from..to]` as a code point. Values
/// beyond Unicode are all read as `0x110000`.
pub fn hex_code(chars: &Vec<char>, from: usize, to: usize) -> (r: u32)
    requires
        from <= to <= chars@.len(),
        all_hex_digits(chars@.subrange(from as int, to as int)),
    ensures
        r <= 0x110000,
        r == if hex_value(chars@.subrange(from as int, to as int)) <= 0x10FFFF {
            hex_value(chars@.subrange(from as int, to as int))
        } else {
            0x110000
        },
{
    let mut value: u32 = 0;
    let mut i: usize = from;
    let ghost digits = chars@.subrange(from as int, to as int);
    proof {
        assert(digits.take(0) =~= Seq::<char>::empty());
    }
    while i < to
        invariant
            from <= i <= to <= chars@.len(),
            digits == chars@.subrange(from as int, to as int),
            all_hex_digits(digits),
            value <= 0x110000,
            value == if hex_value(digits.take(i - from)) <= 0x10FFFF {
                hex_value(digits.take(i - from))
            } else {
                0x110000
            },
        decreases to - i,
    {
        let c = chars[i];
        proof {
            assert(digits[i - from] == c);
            assert(is_hex_digit(digits[i - from]));
            assert(digits.take(i - from + 1).drop_last() =~= digits.take(i - from));
            assert(digits.take(i - from + 1).last() == c);
        }
        let d: u32 = if '0' <= c && c <= '9' {
            c as u32 - 48
        } else if 'a' <= c && c <= 'f' {
            c as u32 - 97 + 10
        } else {
            c as u32 - 65 + 10
        };
        if value < 0x110000 {
            value = value * 16 + d;
            if value > 0x10FFFF {
                value = 0x110000;
            }
        }
        i += 1;
    }
    proof {
        assert(digits.take(to - from) =~= digits);
    }
    value
}

/// The character whose code point the hexadecimal digits of `escape` give;
/// an error where `escape` is empty, holds anything but hexadecimal digits,
/// or names no character.
pub fn parse_hex_escape(escape: &str) -> (r: Result<char, &'static str>)
    ensures
        r is Ok <==> hex_escape_value(escape@) is Some,
        r matches Ok(c) ==> Some(c) == hex_escape_value(escape@),
{
    let chars = chars_of(escape);
    let n: usize = chars.len();
    if n == 0 {
        return Err("invalid escape sequence");
    }
    let mut i: usize = 0;
    while i < n
        invariant
            i <= n,
            n == chars@.len(),
            chars@ == escape@,
            forall|j: int| 0 <= j < i ==> is_hex_digit(#[trigger] chars@[j]),
        decreases n - i,
    {
        if !hex_digit(chars[i]) {
            assert(!is_hex_digit(escape@[i as int]));
            return Err("invalid escape sequence");
        }
        i += 1;
    }
    proof {
        assert(chars@.subrange(0, n as int) =~= chars@);
    }
    hex_char(&chars, 0, n)
}

/// The character whose code point the hexadecimal digits `chars[from..to]`
/// give, or an error where they name none.
pub fn hex_char(chars: &Vec<char>, from: usize, to: usize) -> (r: Result<char, &'static str>)
    requires
        from < to <= chars@.len(),
        all_hex_digits(chars@.subrange(from as int, to as int)),
    ensures
        r is Ok <==> hex_escape_value(chars@.subrange(from as int, to as int)) is Some,
        r matches Ok(c) ==> Some(c) == hex_escape_value(chars@.subrange(from as int, to as int)),
{
    let code = hex_code(chars, from, to);
    match char_from_code(code) {
        Some(c) => {
            assert(code as char == (code as int) as char);
            Ok(c)
        },
        None => Err("invalid escape sequence"),
    }
}

} // verus!
