use zed::data::expression::{
    boolean, byte_vector, character, list, nil, number, pair, string, symbol, vector, Expr,
};
use zed::data::integer::Integer;
use zed::data::number::{decimal, integer, integer_str, rational, Number};
use zed::data::reals::{Real, RealKind};
use zed::print::printer;
use zed::read::error::{LineCol, ReadError};
use zed::read::grammar::FailureKind;
use zed::read::parser::parse;
use zed::read::tokens::is_simple_identifier;
use zed::text::parse_hex_escape;

fn parse_single(input: &str) -> Expr {
    match parse(input) {
        Ok(result) if result.len() < 1 => panic!("parsed no values"),
        Ok(result) if result.len() > 1 => panic!("parsed more than one value: {:?}", result),
        Err(err) => panic!("parser error: {}", err.to_string()),
        Ok(mut result) => result.pop().unwrap(),
    }
}

fn parse_multiple(input: &str) -> Vec<Expr> {
    match parse(input) {
        Ok(result) => result,
        Err(err) => panic!("parser error: {}", err.to_string()),
    }
}

fn failure(input: &str) -> (FailureKind, usize, usize) {
    match parse(input) {
        Err(ReadError::Parse(e)) => (e.kind, e.location.line, e.location.column),
        other => panic!("unexpected result: {:?}", other),
    }
}

fn complex(re: Number, im: Number) -> Number {
    match (re, im) {
        (Number::Real(re), Number::Real(im)) => Number::Complex(re, im),
        _ => unreachable!(),
    }
}

#[test]
fn boolean_parsing() {
    assert_eq!(parse_single("#t"), boolean(true));
    assert_eq!(parse_single("#f"), boolean(false));
    assert_eq!(parse_single("#true"), boolean(true));
    assert_eq!(parse_single("#false"), boolean(false));
}

#[test]
fn integer_parsing() {
    assert_eq!(parse_single("123456789"), number(integer_str("123456789", 10)));
    assert_eq!(parse_single("#d-98765"), number(integer(-98765)));
    assert_eq!(parse_single("#b10101"), number(integer(21)));
    assert_eq!(parse_single("#b-11101"), number(integer(-29)));
    assert_eq!(parse_single("#o73523"), number(integer(30547)));
    assert_eq!(parse_single("#o-7654321"), number(integer(-2054353)));
    assert_eq!(parse_single("#xaf07e"), number(integer(716926)));
    assert_eq!(parse_single("#x-23d5c"), number(integer(-146780)));
    assert_eq!(parse_single("#b1010"), number(integer(10)));
    assert_eq!(parse_single("+17"), number(integer(17)));
    assert_eq!(parse_single("-0"), number(integer(0)));
    assert_eq!(printer::format(&parse_single("-0007")), "-7");
    assert_eq!(
        printer::format(&parse_single("123456789012345678901234567890")),
        "123456789012345678901234567890"
    );
}

#[test]
fn rational_parsing() {
    assert_eq!(parse_single("12/34"), number(rational(12, 34)));
    assert_eq!(parse_single("#d-56/78"), number(rational(-56, 78)));
    assert_eq!(parse_single("#b110/-101"), number(rational(6, -5)));
    assert_eq!(parse_single("#o741/356"), number(rational(481, 238)));
    assert_eq!(parse_single("#x-8fe/-3e"), number(rational(2302, 62)));
    assert_eq!(printer::format(&parse_single("12/34")), "6/17");
    assert_eq!(printer::format(&parse_single("4/2")), "2/1");
}

#[test]
fn a_zero_denominator_is_no_fraction() {
    assert_eq!(parse_multiple("1/0"), vec![number(integer(1)), symbol("/0")]);
}

#[test]
fn real_parsing() {
    assert_eq!(parse_single("12.34"), number(decimal(false, 1234, -2)));
    assert_eq!(parse_single("12."), number(decimal(false, 12, 0)));
    assert_eq!(parse_single(".34"), number(decimal(false, 34, -2)));
    assert_eq!(parse_single("+3.5"), number(decimal(false, 35, -1)));
    assert_eq!(parse_single("-7.8"), number(decimal(true, 78, -1)));
    assert_eq!(parse_single("+inf.0"), number(Number::Real(Real::infinity(false))));
    assert_eq!(parse_single("-inf.0"), number(Number::Real(Real::infinity(true))));
    assert_eq!(parse_single("4.56"), number(decimal(false, 456, -2)));
    assert_eq!(parse_single("-87.0"), number(decimal(true, 87, 0)));
    assert_eq!(parse_single("4e-2"), number(decimal(false, 4, -2)));
    assert_eq!(parse_single("2."), number(decimal(false, 2, 0)));
    assert_eq!(parse_single(".92"), number(decimal(false, 92, -2)));
    assert_eq!(parse_single("#d1.5e+3"), number(decimal(false, 1500, 0)));
    assert_eq!(parse_single("1.50"), number(decimal(false, 15, -1)));
    assert_eq!(parse_single("1e400"), number(decimal(false, 1, 400)));
    assert_eq!(parse_multiple("1.5e"), vec![number(decimal(false, 15, -1)), symbol("e")]);
}

#[test]
fn real_infinity_parsing() {
    for (input, positive) in [("+nan.0", true), ("-nan.0", false)] {
        let value = parse_single(input);
        match &*value {
            zed::data::expression::Expression::Number(Number::Real(n)) => {
                assert_eq!(n.kind(), RealKind::NotANumber);
                assert_eq!(n.is_negative(), !positive);
            }
            other => panic!("unexpected value: {:?}", other),
        }
    }
}

#[test]
fn exponents_beyond_sixty_four_bits() {
    assert_eq!(
        parse_single("1e99999999999999999999"),
        number(Number::Real(Real::infinity(false)))
    );
    assert_eq!(
        parse_single("-1e99999999999999999999"),
        number(Number::Real(Real::infinity(true)))
    );
    assert_eq!(parse_single("1e-99999999999999999999"), number(decimal(false, 0, 0)));
    assert_eq!(parse_single("0e99999999999999999999"), number(decimal(false, 0, 0)));
}

#[test]
fn complex_parsing() {
    let zero = || decimal(false, 0, 0);
    assert_eq!(parse_single("3i"), number(complex(zero(), decimal(false, 3, 0))));
    assert_eq!(
        parse_single("4.5+8i"),
        number(complex(decimal(false, 45, -1), decimal(false, 8, 0)))
    );
    assert_eq!(
        parse_single("-3-1i"),
        number(complex(decimal(true, 3, 0), decimal(true, 1, 0)))
    );
    assert_eq!(
        parse_single("-2+i"),
        number(complex(decimal(true, 2, 0), decimal(false, 1, 0)))
    );
    assert_eq!(
        parse_single("4.8-i"),
        number(complex(decimal(false, 48, -1), decimal(true, 1, 0)))
    );
    assert_eq!(
        parse_single("0.5+inf.0i"),
        number(complex(decimal(false, 5, -1), Number::Real(Real::infinity(false))))
    );
    assert_eq!(
        parse_single("+inf.0-inf.0i"),
        number(complex(Number::Real(Real::infinity(false)), Number::Real(Real::infinity(true))))
    );
    assert_eq!(parse_single("+i"), number(complex(zero(), decimal(false, 1, 0))));
    assert_eq!(parse_single("-i"), number(complex(zero(), decimal(true, 1, 0))));
    assert_eq!(parse_multiple("1+2"), vec![number(integer(1)), number(integer(2))]);
}

#[test]
fn character_parsing() {
    assert_eq!(parse_single("#\\alarm"), character('\u{0007}'));
    assert_eq!(parse_single("#\\backspace"), character('\u{0008}'));
    assert_eq!(parse_single("#\\delete"), character('\u{007f}'));
    assert_eq!(parse_single("#\\escape"), character('\u{001b}'));
    assert_eq!(parse_single("#\\newline"), character('\n'));
    assert_eq!(parse_single("#\\null"), character('\u{0000}'));
    assert_eq!(parse_single("#\\return"), character('\r'));
    assert_eq!(parse_single("#\\space"), character(' '));
    assert_eq!(parse_single("#\\tab"), character('\t'));
    assert_eq!(parse_single("#\\x2400"), character('\u{2400}'));
    assert_eq!(parse_single("#\\ "), character(' '));
    assert_eq!(parse_single("#\\x"), character('x'));
    assert_eq!(parse_single("#\\λ"), character('λ'));
}

#[test]
fn string_parsing() {
    assert_eq!(parse_single("\"\""), string(""));
    assert_eq!(parse_single("\"normal text\""), string("normal text"));
    assert_eq!(
        parse_single("\"\\a\\b\\t\\r\\n\\\\\\\"\""),
        string("\u{0007}\u{0008}\t\r\n\\\"")
    );
    assert_eq!(
        parse_single("\"\\x14;\\x2400;\\xe0000;\""),
        string("\u{0014}\u{2400}\u{e0000}")
    );
    assert_eq!(parse_single("\"first\\ \t\r\n \t second\""), string("firstsecond"));
    assert_eq!(parse_single("\"a\\|b\""), string("a|b"));
    assert_eq!(parse_single("\"a\\\nb\""), string("ab"));
}

#[test]
fn symbol_parsing() {
    assert_eq!(parse_single("test"), symbol("test"));
    assert_eq!(parse_single("!do-thing1"), symbol("!do-thing1"));
    assert_eq!(parse_single("+"), symbol("+"));
    assert_eq!(parse_single("-@thing"), symbol("-@thing"));
    assert_eq!(parse_single("+..23"), symbol("+..23"));
    assert_eq!(parse_single(".@test"), symbol(".@test"));
    assert_eq!(parse_single("||"), symbol(""));
    assert_eq!(parse_single("|something quoted|"), symbol("something quoted"));
    assert_eq!(
        parse_single("|\\a\\b\\t\\r\\n\\\\\\||"),
        symbol("\u{0007}\u{0008}\t\r\n\\|")
    );
    assert_eq!(
        parse_single("|\\x14;\\x2400;\\xe0000;|"),
        symbol("\u{0014}\u{2400}\u{e0000}")
    );
    assert_eq!(parse_single("test-sym"), symbol("test-sym"));
    assert_eq!(parse_single("|quoted symbol|"), symbol("quoted symbol"));
    assert_eq!(parse_single("|escaped\\nsymbol\\x45;|"), symbol("escaped\nsymbol\u{45}"));
    assert_eq!(parse_single("+two"), symbol("+two"));
    assert_eq!(parse_single(".dotted"), symbol(".dotted"));
    assert_eq!(parse_single("..."), symbol("..."));
}

#[test]
fn list_parsing() {
    assert_eq!(parse_single("()"), nil());
    assert_eq!(parse_single("( )"), nil());
    assert_eq!(
        parse_single("(+ 3 4)"),
        list(vec![symbol("+"), number(integer(3)), number(integer(4))])
    );
    assert_eq!(parse_single("(a . b)"), pair(symbol("a"), symbol("b")));
    assert_eq!(
        parse_single("(a () (b c) . ())"),
        list(vec![symbol("a"), nil(), list(vec![symbol("b"), symbol("c")])])
    );
    assert_eq!(parse_single("(a b . c)"), pair(symbol("a"), pair(symbol("b"), symbol("c"))));
    assert_eq!(
        parse_single("(a b c)"),
        list(vec![symbol("a"), symbol("b"), symbol("c")])
    );
    assert_eq!(
        parse_single("(a (b) . ())"),
        list(vec![symbol("a"), list(vec![symbol("b")])])
    );
    assert_eq!(parse_single("(a ...)"), list(vec![symbol("a"), symbol("...")]));
    assert_eq!(parse_single("(a .5)"), list(vec![symbol("a"), number(decimal(false, 5, -1))]));
    assert_eq!(parse_single("(a .b)"), list(vec![symbol("a"), symbol(".b")]));
}

#[test]
fn vector_parsing() {
    assert_eq!(parse_single("#()"), vector(vec![]));
    assert_eq!(parse_single("#(\t)"), vector(vec![]));
    assert_eq!(
        parse_single("#( a b  c)"),
        vector(vec![symbol("a"), symbol("b"), symbol("c")])
    );
}

#[test]
fn byte_vector_parsing() {
    assert_eq!(parse_single("#u8()"), byte_vector(vec![]));
    assert_eq!(parse_single("#u8( )"), byte_vector(vec![]));
    assert_eq!(parse_single("#u8(1 2 3)"), byte_vector(vec![1, 2, 3]));
    assert_eq!(parse_single("#u8(#xf #o12 #d9)"), byte_vector(vec![15, 10, 9]));
    assert_eq!(parse_single("#u8(0 255)"), byte_vector(vec![0, 255]));
}

#[test]
fn comment_parsing() {
    assert_eq!(parse_multiple("a ;line comment\n b"), vec![symbol("a"), symbol("b")]);
    assert_eq!(parse_multiple("a #; \n b c"), vec![symbol("a"), symbol("c")]);
    assert_eq!(parse_multiple("a ;comment\nb"), vec![symbol("a"), symbol("b")]);
    assert_eq!(parse_multiple("a #| x #| y |# z |# b"), vec![symbol("a"), symbol("b")]);
    assert_eq!(parse_multiple("a #| block | \r\n |#b"), vec![symbol("a"), symbol("b")]);
    assert_eq!(parse_multiple("a b ;c d \n e f"), vec![symbol("a"), symbol("b"), symbol("e"), symbol("f")]);
    assert_eq!(parse_multiple("a ; to the end"), vec![symbol("a")]);
    assert_eq!(parse_multiple("(a #;(b c) d)"), vec![list(vec![symbol("a"), symbol("d")])]);
    assert_eq!(parse_multiple(""), vec![]);
    assert_eq!(parse_multiple(" \t\r\n"), vec![]);
}

#[test]
fn multiple_expressions() {
    assert_eq!(
        parse_multiple("(+ 2 3) equals 5"),
        vec![
            list(vec![symbol("+"), number(integer(2)), number(integer(3))]),
            symbol("equals"),
            number(integer(5)),
        ]
    );
    assert_eq!(parse_multiple("#true#f"), vec![boolean(true), boolean(false)]);
    assert_eq!(parse_multiple("12abc"), vec![number(integer(12)), symbol("abc")]);
}

#[test]
fn grammar_acceptance_and_rejection() {
    assert_eq!(parse_single("(a . b)"), pair(symbol("a"), symbol("b")));
    assert_eq!(parse_single("(a b c)"), list(vec![symbol("a"), symbol("b"), symbol("c")]));
    assert_eq!(parse_single("#b1010"), number(integer(10)));
    assert_eq!(
        parse_single("4.5+8i"),
        number(complex(decimal(false, 45, -1), decimal(false, 8, 0)))
    );
    assert_eq!(failure("#u8(1 2 300)"), (FailureKind::InvalidByteLiteral, 1, 9));
}

#[test]
fn failures_and_their_places() {
    assert_eq!(failure("(a b"), (FailureKind::MalformedInput, 1, 5));
    assert_eq!(failure("a\n  )"), (FailureKind::MalformedInput, 2, 3));
    assert_eq!(failure("( . a)"), (FailureKind::MalformedInput, 1, 3));
    assert_eq!(failure("(a . b c)"), (FailureKind::MalformedInput, 1, 8));
    assert_eq!(failure("\"abc"), (FailureKind::MalformedInput, 1, 5));
    assert_eq!(failure("\"a\\qb\""), (FailureKind::MalformedInput, 1, 4));
    assert_eq!(failure("\"\\x110000;\""), (FailureKind::InvalidEscape, 1, 3));
    assert_eq!(failure("\"\\xd800;\""), (FailureKind::InvalidEscape, 1, 3));
    assert_eq!(failure("|\\x;|"), (FailureKind::MalformedInput, 1, 3));
    assert_eq!(failure("#\\x110000"), (FailureKind::InvalidEscape, 1, 3));
    assert_eq!(failure("#\\"), (FailureKind::MalformedInput, 1, 3));
    assert_eq!(failure("#u8(1 a)"), (FailureKind::MalformedInput, 1, 7));
    assert_eq!(failure("#u8(-1)"), (FailureKind::InvalidByteLiteral, 1, 5));
    assert_eq!(failure("#u8(256)"), (FailureKind::InvalidByteLiteral, 1, 5));
    assert_eq!(failure("#q"), (FailureKind::MalformedInput, 1, 1));
    assert_eq!(failure("#xg"), (FailureKind::MalformedInput, 1, 1));
    assert_eq!(failure("a #| never closed"), (FailureKind::MalformedInput, 1, 3));
    assert_eq!(failure("a #| b #| c |# d"), (FailureKind::MalformedInput, 1, 3));
    assert_eq!(failure("a #;"), (FailureKind::MalformedInput, 1, 5));
    assert_eq!(failure(")"), (FailureKind::MalformedInput, 1, 1));
    assert_eq!(failure("#(a"), (FailureKind::MalformedInput, 1, 4));
    match parse("a\r\nb )") {
        Err(ReadError::Parse(e)) => {
            assert_eq!(e.location, LineCol { line: 2, column: 3, offset: 5 });
            assert_eq!(e.to_string(), "error at 2:3: expected an expression");
        }
        other => panic!("unexpected result: {:?}", other),
    }
}

#[test]
fn symbol_quoting() {
    assert_eq!(printer::format(&symbol("spaced ident")), "|spaced ident|");
    assert_eq!(parse_single("|spaced ident|"), symbol("spaced ident"));
    assert_eq!(printer::format(&symbol("+")), "+");
    assert_eq!(parse_single(&printer::format(&symbol("spaced ident"))), symbol("spaced ident"));
}

#[test]
fn simple_identifiers() {
    for name in ["a", "test", "!do-thing1", "+", "-", "...", "->x", "+..23", ".@test", "a.b", "x1"] {
        assert!(is_simple_identifier(name), "{}", name);
    }
    for name in ["", "1", "1a", ".", "+1", "a b", "a(b", "|", "#t", "λ", "+.1", ".1"] {
        assert!(!is_simple_identifier(name), "{}", name);
    }
}

#[test]
fn hex_escapes() {
    assert_eq!(parse_hex_escape("41"), Ok('A'));
    assert_eq!(parse_hex_escape("0000000041"), Ok('A'));
    assert_eq!(parse_hex_escape("e0000"), Ok('\u{e0000}'));
    assert_eq!(parse_hex_escape("10FFFF"), Ok('\u{10ffff}'));
    assert_eq!(parse_hex_escape("0"), Ok('\0'));
    assert_eq!(parse_hex_escape("110000"), Err("invalid escape sequence"));
    assert_eq!(parse_hex_escape("d800"), Err("invalid escape sequence"));
    assert_eq!(parse_hex_escape("fffffffffffffffffffff"), Err("invalid escape sequence"));
    assert_eq!(parse_hex_escape(""), Err("invalid escape sequence"));
    assert_eq!(parse_hex_escape("4g"), Err("invalid escape sequence"));
}

#[test]
fn list_and_dotted_list_distinction() {
    assert_eq!(printer::format(&parse_single("(a)")), "(a)");
    assert_eq!(printer::format(&parse_single("(a . b)")), "(a . b)");
    assert_eq!(printer::format(&parse_single("(a b . c)")), "(a b . c)");
}

#[test]
fn what_is_printed_reads_back() {
    let inputs = [
        "()",
        "#t",
        "#f",
        "0",
        "-12",
        "123456789012345678901234567890",
        "3/4",
        "-3/4",
        "12.34",
        "-0.0",
        "0.04",
        "5000.0",
        "1e21",
        "1e-21",
        "12345e-30",
        "+inf.0",
        "-inf.0",
        "4.5+8i",
        "-3-1i",
        "+i",
        "+inf.0-inf.0i",
        "1e30-2e-30i",
        "#\\a",
        "#\\x",
        "#\\space",
        "#\\x2400",
        "#\\(",
        "\"\"",
        "\"a \\\"b\\\" \\\\ \\| \\n \\x1; é\"",
        "abc",
        "|spaced ident|",
        "|a\\|b\"c\\\\|",
        "||",
        "+",
        "...",
        "(a)",
        "(a . b)",
        "(a b . c)",
        "(a (b (c)) \"s\" #\\) 1.5 . #(1 2))",
        "#()",
        "#(a #(b) () #u8(1 2) \"x\")",
        "#u8()",
        "#u8(0 128 255)",
        "((((a))))",
    ];
    for input in inputs {
        let value = parse_single(input);
        let printed = printer::format(&value);
        let again = parse_multiple(&printed);
        assert_eq!(again.len(), 1, "{} printed as {}", input, printed);
        assert_eq!(again[0], value, "{} printed as {}", input, printed);
        assert_eq!(printer::format(&again[0]), printed);
    }
}

#[test]
fn not_a_number_reads_back_as_not_a_number() {
    for input in ["+nan.0", "-nan.0"] {
        let printed = printer::format(&parse_single(input));
        assert_eq!(printed, input);
    }
}

#[test]
fn symbols_that_look_like_numbers_do_not_read_back() {
    let value = parse_single("|+i|");
    assert_eq!(value, symbol("+i"));
    assert_eq!(printer::format(&value), "+i");
    assert_ne!(parse_single("+i"), value);
}

#[test]
fn integer_helper_reads_the_radix() {
    assert_eq!(integer_str("-ff", 16), integer(-255));
    assert_eq!(integer_str("777", 8), integer(511));
    assert_eq!(Integer::from_i64(12).to_i64(), Some(12));
}

#[test]
fn wrapped_form_parsing() {
    assert_eq!(parse_single("'a"), list(vec![symbol("quote"), symbol("a")]));
    assert_eq!(parse_single("`a"), list(vec![symbol("quasiquote"), symbol("a")]));
    assert_eq!(parse_single(",a"), list(vec![symbol("unquote"), symbol("a")]));
    assert_eq!(parse_single(",@a"), list(vec![symbol("unquote-splicing"), symbol("a")]));
    assert_eq!(
        parse_single("'(a 'b)"),
        list(vec![
            symbol("quote"),
            list(vec![symbol("a"), list(vec![symbol("quote"), symbol("b")])]),
        ])
    );
    assert_eq!(parse_single("' ;mark\n a"), list(vec![symbol("quote"), symbol("a")]));
    assert_eq!(printer::format(&parse_single("'a")), "(quote a)");
    assert_eq!(failure("'"), (FailureKind::MalformedInput, 1, 2));
    assert_eq!(failure("(a ,)"), (FailureKind::MalformedInput, 1, 5));
}
