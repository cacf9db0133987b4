//! Characters, strings and symbols read back.
use vstd::prelude::*;
use crate::data::expression::Datum;
use crate::print::printer::{
    character_name, character_text, escaped, escaped_char, string_text, symbol_text,
};
use crate::read::grammar::{
    digits_end, expr_at, has_char, has_prefix, identifier_end, is_identifier, is_radix_digit,
    named_character_at, number_at, prepend, quoted_at, Failure,
};
use crate::roundtrip::runs::{closed_at, lemma_digits_run, lemma_split, lemma_standing};
use crate::text::{
    hex_digits, hex_escape_value, hex_value, is_hex_digit, is_initial, is_printable,
    lemma_hex_digits,
};

verus! {

/// A word that differs from what stands at `pos` does not stand there.
pub proof fn lemma_not_standing(s: Seq<char>, pos: int, word: Seq<char>, i: int)
    requires
        0 <= i < word.len(),
        0 <= pos,
        pos + i >= s.len() || s[pos + i] != word[i],
    ensures
        !has_prefix(s, pos, word),
{
    if has_prefix(s, pos, word) {
        lemma_standing(s, pos, word);
        assert(s[pos + i] == word[i]);
    }
}

/// None of the four spellings of a truth value stands at `pos`.
pub proof fn lemma_no_boolean(s: Seq<char>, pos: int)
    requires
        0 <= pos,
        pos + 1 >= s.len() || (s[pos + 1] != 't' && s[pos + 1] != 'f'),
    ensures
        !has_prefix(s, pos, seq!['#', 't', 'r', 'u', 'e']),
        !has_prefix(s, pos, seq!['#', 't']),
        !has_prefix(s, pos, seq!['#', 'f', 'a', 'l', 's', 'e']),
        !has_prefix(s, pos, seq!['#', 'f']),
{
    lemma_not_standing(s, pos, seq!['#', 't', 'r', 'u', 'e'], 1);
    lemma_not_standing(s, pos, seq!['#', 't'], 1);
    lemma_not_standing(s, pos, seq!['#', 'f', 'a', 'l', 's', 'e'], 1);
    lemma_not_standing(s, pos, seq!['#', 'f'], 1);
}

/// No name of a character stands where the character at `pos + i` is none
/// of a name, for `i` zero or one.
proof fn lemma_no_name(s: Seq<char>, pos: int, i: int)
    requires
        0 <= pos,
        i == 0 || i == 1,
        pos + i >= s.len() || !(('a' <= s[pos + i] <= 'z')),
    ensures
        named_character_at(s, pos) is None,
{
    lemma_not_standing(s, pos, seq!['a', 'l', 'a', 'r', 'm'], i);
    lemma_not_standing(s, pos, seq!['b', 'a', 'c', 'k', 's', 'p', 'a', 'c', 'e'], i);
    lemma_not_standing(s, pos, seq!['d', 'e', 'l', 'e', 't', 'e'], i);
    lemma_not_standing(s, pos, seq!['e', 's', 'c', 'a', 'p', 'e'], i);
    lemma_not_standing(s, pos, seq!['n', 'e', 'w', 'l', 'i', 'n', 'e'], i);
    lemma_not_standing(s, pos, seq!['n', 'u', 'l', 'l'], i);
    lemma_not_standing(s, pos, seq!['r', 'e', 't', 'u', 'r', 'n'], i);
    lemma_not_standing(s, pos, seq!['s', 'p', 'a', 'c', 'e'], i);
    lemma_not_standing(s, pos, seq!['t', 'a', 'b'], i);
}

/// No name of a character starts with `x`.
proof fn lemma_no_name_x(s: Seq<char>, pos: int)
    requires
        has_char(s, pos, 'x'),
    ensures
        named_character_at(s, pos) is None,
{
    lemma_not_standing(s, pos, seq!['a', 'l', 'a', 'r', 'm'], 0);
    lemma_not_standing(s, pos, seq!['b', 'a', 'c', 'k', 's', 'p', 'a', 'c', 'e'], 0);
    lemma_not_standing(s, pos, seq!['d', 'e', 'l', 'e', 't', 'e'], 0);
    lemma_not_standing(s, pos, seq!['e', 's', 'c', 'a', 'p', 'e'], 0);
    lemma_not_standing(s, pos, seq!['n', 'e', 'w', 'l', 'i', 'n', 'e'], 0);
    lemma_not_standing(s, pos, seq!['n', 'u', 'l', 'l'], 0);
    lemma_not_standing(s, pos, seq!['r', 'e', 't', 'u', 'r', 'n'], 0);
    lemma_not_standing(s, pos, seq!['s', 'p', 'a', 'c', 'e'], 0);
    lemma_not_standing(s, pos, seq!['t', 'a', 'b'], 0);
}

/// The name of a character, where it stands, is read as the character.
proof fn lemma_name_reads_back(s: Seq<char>, pos: int, c: char)
    requires
        character_name(c) matches Some(name) && has_prefix(s, pos, name),
    ensures
        character_name(c) matches Some(name) && named_character_at(s, pos) == Some(
            (c, name.len() as int),
        ),
{
    let name = character_name(c)->Some_0;
    lemma_standing(s, pos, name);
    assert(s[pos + 0] == name[0]);
    assert(s[pos + 1] == name[1]);
    if c != '\x07' {
        lemma_not_standing(s, pos, seq!['a', 'l', 'a', 'r', 'm'], 0);
    }
    if c != '\x08' {
        lemma_not_standing(s, pos, seq!['b', 'a', 'c', 'k', 's', 'p', 'a', 'c', 'e'], 0);
    }
    if c != '\x7f' {
        lemma_not_standing(s, pos, seq!['d', 'e', 'l', 'e', 't', 'e'], 0);
    }
    if c != '\x1b' {
        lemma_not_standing(s, pos, seq!['e', 's', 'c', 'a', 'p', 'e'], 0);
    }
    if c != '\n' {
        lemma_not_standing(s, pos, seq!['n', 'e', 'w', 'l', 'i', 'n', 'e'], if c == '\0' {
            1int
        } else {
            0int
        });
    }
    if c != '\0' {
        lemma_not_standing(s, pos, seq!['n', 'u', 'l', 'l'], if c == '\n' {
            1int
        } else {
            0int
        });
    }
    if c != '\r' {
        lemma_not_standing(s, pos, seq!['r', 'e', 't', 'u', 'r', 'n'], 0);
    }
    if c != ' ' {
        lemma_not_standing(s, pos, seq!['s', 'p', 'a', 'c', 'e'], 0);
    }
}

/// A hexadecimal digit is a digit of radix sixteen.
proof fn lemma_hex_is_radix(c: char)
    ensures
        is_hex_digit(c) == is_radix_digit(c, 16),
{
}

/// The hexadecimal digits of a code point, where they stand with none
/// behind them, are read as a whole and name the character.
proof fn lemma_hex_stands(s: Seq<char>, pos: int, c: char)
    requires
        has_prefix(s, pos, hex_digits(c as nat)),
        pos + hex_digits(c as nat).len() == s.len() || !is_hex_digit(
            s[pos + hex_digits(c as nat).len()],
        ),
    ensures
        digits_end(s, pos, 16) == pos + hex_digits(c as nat).len(),
        hex_digits(c as nat).len() > 0,
        hex_escape_value(s.subrange(pos, pos + hex_digits(c as nat).len())) == Some(c),
{
    let digits = hex_digits(c as nat);
    let end = pos + digits.len();
    lemma_hex_digits(c as nat);
    lemma_standing(s, pos, digits);
    assert forall|i: int| pos <= i < end implies is_radix_digit(#[trigger] s[i], 16) by {
        assert(s[i] == digits[i - pos]);
        assert(is_hex_digit(digits[i - pos]));
        lemma_hex_is_radix(s[i]);
    }
    if end < s.len() {
        lemma_hex_is_radix(s[end]);
    }
    lemma_digits_run(s, pos, end, 16);
    assert(s.subrange(pos, end) =~= digits);
    assert(hex_value(digits) as char == c);
}

/// The text of a character is read as the character.
pub proof fn lemma_character_reads_back(s: Seq<char>, pos: int, c: char)
    requires
        has_prefix(s, pos, character_text(c)),
        closed_at(s, pos + character_text(c).len()),
    ensures
        expr_at(s, pos) == Ok::<_, Failure>(
            (Datum::Character(c), pos + character_text(c).len()),
        ),
        character_text(c).len() >= 3,
{
    let text = character_text(c);
    let end = pos + text.len();
    let p = pos + 2;
    lemma_standing(s, pos, text);
    let body: Seq<char> = match character_name(c) {
        Some(name) => name,
        None => if is_printable(c) {
            seq![c]
        } else {
            seq!['x'] + hex_digits(c as nat)
        },
    };
    assert(text == seq!['#', '\\'] + body);
    lemma_hex_digits(c as nat);
    assert(body.len() > 0);
    lemma_split(s, pos, seq!['#', '\\'], body);
    assert(s[pos] == '#') by {
        assert(text[0] == '#');
    }
    assert(s[pos + 1] == '\\') by {
        assert(text[1] == '\\');
    }
    lemma_no_boolean(s, pos);
    match character_name(c) {
        Some(name) => {
            lemma_name_reads_back(s, p, c);
        },
        None => {
            lemma_standing(s, p, body);
            if is_printable(c) {
                assert(s[p] == c) by {
                    assert(body[0] == c);
                }
                lemma_no_name(s, p, 1);
                if s[p] == 'x' {
                    lemma_digits_run(s, p + 1, p + 1, 16);
                }
            } else {
                assert(s[p] == 'x') by {
                    assert(body[0] == 'x');
                }
                lemma_no_name_x(s, p);
                lemma_split(s, p, seq!['x'], hex_digits(c as nat));
                lemma_hex_stands(s, p + 1, c);
            }
        },
    }
}

/// How a run of characters is written between quotes, from the `k`th on.
pub open spec fn escaped_from(t: Seq<char>, k: int, quote: char) -> Seq<char>
    decreases t.len() - k,
{
    if 0 <= k < t.len() {
        escaped_char(t[k], quote) + escaped_from(t, k + 1, quote)
    } else {
        Seq::empty()
    }
}

/// What is written for the first `k` characters, and then for the others, is
/// what is written for all.
pub proof fn lemma_escaped_parts(t: Seq<char>, k: int, quote: char)
    requires
        0 <= k <= t.len(),
    ensures
        escaped(t.take(k), quote) + escaped_from(t, k, quote) == escaped(t, quote),
    decreases t.len() - k,
{
    if k == t.len() {
        assert(t.take(k) =~= t);
        assert(escaped(t, quote) + Seq::<char>::empty() =~= escaped(t, quote));
    } else {
        lemma_escaped_parts(t, k + 1, quote);
        assert(t.take(k + 1).drop_last() =~= t.take(k));
        assert(t.take(k + 1).last() == t[k]);
        assert(escaped(t.take(k), quote) + (escaped_char(t[k], quote) + escaped_from(
            t,
            k + 1,
            quote,
        )) =~= (escaped(t.take(k), quote) + escaped_char(t[k], quote)) + escaped_from(
            t,
            k + 1,
            quote,
        ));
    }
}

/// What is written for one character between quotes is read as the
/// character, and what is read goes on behind it.
proof fn lemma_escaped_char_reads_back(s: Seq<char>, pos: int, c: char, quote: char)
    requires
        quote == '"' || quote == '|',
        has_prefix(s, pos, escaped_char(c, quote)),
        pos + escaped_char(c, quote).len() < s.len(),
    ensures
        escaped_char(c, quote).len() > 0,
        quoted_at(s, pos, quote) == prepend(
            seq![c],
            quoted_at(s, pos + escaped_char(c, quote).len(), quote),
        ),
{
    let piece = escaped_char(c, quote);
    lemma_standing(s, pos, piece);
    lemma_hex_digits(c as nat);
    assert(s[pos + 0] == piece[0]);
    if c == '\x07' || c == '\x08' || c == '\t' || c == '\n' || c == '\r' || c == '\\' || c == '|'
        || c == quote {
        assert(s[pos + 1] == piece[1]);
    } else if is_printable(c) || c == ' ' {
    } else {
        let digits = hex_digits(c as nat);
        assert(piece == seq!['\\', 'x'] + digits + seq![';']);
        lemma_split(s, pos, seq!['\\', 'x'] + digits, seq![';']);
        lemma_split(s, pos, seq!['\\', 'x'], digits);
        assert(s[pos + 1] == 'x') by {
            assert(piece[1] == 'x');
        }
        let end = pos + 2 + digits.len();
        assert(s[end] == ';') by {
            assert(piece[(2 + digits.len()) as int] == ';');
        }
        lemma_hex_stands(s, pos + 2, c);
    }
}

/// What is written between quotes, with the closing quote, is read as what
/// was written.
pub proof fn lemma_quoted_reads_back(s: Seq<char>, pos: int, t: Seq<char>, k: int, quote: char)
    requires
        quote == '"' || quote == '|',
        0 <= k <= t.len(),
        has_prefix(s, pos, escaped_from(t, k, quote) + seq![quote]),
    ensures
        quoted_at(s, pos, quote) == Ok::<_, Failure>(
            (t.skip(k), pos + escaped_from(t, k, quote).len() + 1),
        ),
    decreases t.len() - k,
{
    let rest = escaped_from(t, k, quote) + seq![quote];
    lemma_standing(s, pos, rest);
    if k == t.len() {
        assert(s[pos + 0] == rest[0]);
        assert(t.skip(k) =~= Seq::<char>::empty());
    } else {
        let c = t[k];
        let piece = escaped_char(c, quote);
        let tail = escaped_from(t, k + 1, quote) + seq![quote];
        assert(rest =~= piece + tail);
        lemma_split(s, pos, piece, tail);
        lemma_escaped_char_reads_back(s, pos, c, quote);
        lemma_quoted_reads_back(s, pos + piece.len(), t, k + 1, quote);
        assert(seq![c] + t.skip(k + 1) =~= t.skip(k));
    }
}

/// The text of a string is read as the string.
pub proof fn lemma_string_reads_back(s: Seq<char>, pos: int, t: Seq<char>)
    requires
        has_prefix(s, pos, string_text(t)),
    ensures
        expr_at(s, pos) == Ok::<_, Failure>((Datum::String(t), pos + string_text(t).len())),
        string_text(t).len() >= 2,
        s[pos] == '"',
{
    let text = string_text(t);
    lemma_standing(s, pos, text);
    lemma_escaped_parts(t, 0, '"');
    assert(t.take(0) =~= Seq::<char>::empty());
    assert(escaped(t, '"') =~= escaped_from(t, 0, '"'));
    assert(text =~= seq!['"'] + (escaped_from(t, 0, '"') + seq!['"']));
    lemma_split(s, pos, seq!['"'], escaped_from(t, 0, '"') + seq!['"']);
    assert(s[pos] == '"') by {
        assert(text[0] == '"');
    }
    lemma_quoted_reads_back(s, pos + 1, t, 0, '"');
    assert(t.skip(0) =~= t);
}

/// The text of a symbol is read as the symbol, unless it is written without
/// quotes and starts as a number does.
pub proof fn lemma_symbol_reads_back(s: Seq<char>, pos: int, name: Seq<char>)
    requires
        is_identifier(name) ==> number_at(name, 0) is None,
        has_prefix(s, pos, symbol_text(name)),
        closed_at(s, pos + symbol_text(name).len()),
    ensures
        expr_at(s, pos) == Ok::<_, Failure>((Datum::Symbol(name), pos + symbol_text(name).len())),
        symbol_text(name).len() >= 1,
        s[pos] == '|' || identifier_end(s, pos) is Some,
        s[pos] == '|' || is_initial(s[pos]) || crate::text::is_sign(s[pos]) || s[pos] == '.',
{
    let text = symbol_text(name);
    let end = pos + text.len();
    lemma_standing(s, pos, text);
    if is_identifier(name) {
        assert(name.len() > 0);
        assert(s[pos + 0] == name[0]);
        crate::roundtrip::local::lemma_local_number(s, pos, name);
        crate::roundtrip::local::lemma_local_identifier(s, pos, name);
        assert(s.subrange(pos, end) =~= name);
    } else {
        lemma_escaped_parts(name, 0, '|');
        assert(name.take(0) =~= Seq::<char>::empty());
        assert(escaped(name, '|') =~= escaped_from(name, 0, '|'));
        assert(text =~= seq!['|'] + (escaped_from(name, 0, '|') + seq!['|']));
        lemma_split(s, pos, seq!['|'], escaped_from(name, 0, '|') + seq!['|']);
        assert(s[pos] == '|') by {
            assert(text[0] == '|');
        }
        lemma_quoted_reads_back(s, pos + 1, name, 0, '|');
        assert(name.skip(0) =~= name);
    }
}

} // verus!
