use zed::data::expression::{
    boolean, byte_vector, character, list, nil, number, pair, string, symbol, vector, Expr,
};
use zed::data::number::{decimal, integer};
use zed::print::printer;

fn text(e: &Expr) -> String {
    printer::format(e)
}

#[test]
fn expression_equality() {
    assert!(nil() == nil());
    assert!(nil() != symbol("nil"));
    assert!(number(integer(5)) == number(decimal(false, 50, -1)));
    assert!(number(integer(-7)) != number(decimal(true, 71, -1)));
    assert!(number(integer(43)) != symbol("43"));
    assert!(symbol("test") == symbol("test"));
    assert!(symbol("a") != symbol("ab"));
    assert!(pair(symbol("x"), symbol("y")) == pair(symbol("x"), symbol("y")));
    assert!(
        list(vec![symbol("x"), symbol("y")]) == list(vec![symbol("x"), symbol("y")])
    );
    assert!(pair(symbol("x"), symbol("y")) != list(vec![symbol("x"), symbol("y")]));
}

#[test]
fn equality_of_the_other_variants() {
    assert!(boolean(true) == boolean(true));
    assert!(boolean(true) != boolean(false));
    assert!(character('a') == character('a'));
    assert!(character('a') != character('b'));
    assert!(string("a") == string("a"));
    assert!(string("a") != symbol("a"));
    assert!(vector(vec![symbol("a"), number(integer(1))]) == vector(vec![symbol("a"), number(decimal(false, 1, 0))]));
    assert!(vector(vec![symbol("a")]) != vector(vec![symbol("a"), symbol("a")]));
    assert!(vector(vec![]) != nil());
    assert!(byte_vector(vec![1, 2]) == byte_vector(vec![1, 2]));
    assert!(byte_vector(vec![1, 2]) != byte_vector(vec![1, 3]));
    assert!(byte_vector(vec![1, 2]) != byte_vector(vec![1]));
}

#[test]
fn expression_formatting() {
    assert_eq!(text(&nil()), "()");
    assert_eq!(text(&number(integer(-5))), "-5");
    assert_eq!(text(&number(decimal(false, 1234, -2))), "12.34");
    assert_eq!(text(&symbol("+")), "+");
    assert_eq!(text(&symbol("test")), "test");
    assert_eq!(text(&symbol("quoted name")), "|quoted name|");
    assert_eq!(text(&symbol("escaped\nname\u{0}")), "|escaped\\nname\\x0;|");
    assert_eq!(text(&pair(symbol("a"), symbol("b"))), "(a . b)");
    assert_eq!(text(&pair(symbol("a"), pair(symbol("b"), symbol("c")))), "(a b . c)");
    assert_eq!(text(&list(vec![symbol("a"), symbol("b"), symbol("c")])), "(a b c)");
}

#[test]
fn formatting_of_the_other_variants() {
    assert_eq!(text(&boolean(true)), "#t");
    assert_eq!(text(&boolean(false)), "#f");
    assert_eq!(text(&character('a')), "#\\a");
    assert_eq!(text(&character(' ')), "#\\space");
    assert_eq!(text(&character('\n')), "#\\newline");
    assert_eq!(text(&character('\u{7}')), "#\\alarm");
    assert_eq!(text(&character('\u{8}')), "#\\backspace");
    assert_eq!(text(&character('\u{7f}')), "#\\delete");
    assert_eq!(text(&character('\u{1b}')), "#\\escape");
    assert_eq!(text(&character('\0')), "#\\null");
    assert_eq!(text(&character('\r')), "#\\return");
    assert_eq!(text(&character('\t')), "#\\tab");
    assert_eq!(text(&character('λ')), "#\\λ");
    assert_eq!(text(&character('(')), "#\\(");
    assert_eq!(text(&character('\u{2400}')), "#\\x2400");
    assert_eq!(text(&character('\u{1}')), "#\\x1");
    assert_eq!(text(&string("")), "\"\"");
    assert_eq!(text(&string("normal text")), "\"normal text\"");
    assert_eq!(
        text(&string("\u{7}\u{8}\t\r\n\\\"|")),
        "\"\\a\\b\\t\\r\\n\\\\\\\"\\|\""
    );
    assert_eq!(text(&string("\u{14}\u{2400}\u{e0000}é")), "\"\\x14;\\x2400;\\xe0000;é\"");
    assert_eq!(text(&symbol("a\"b|c\\d")), "|a\"b\\|c\\\\d|");
    assert_eq!(text(&symbol("")), "||");
    assert_eq!(text(&symbol("...")), "...");
    assert_eq!(text(&symbol("->x")), "->x");
    assert_eq!(text(&symbol("+..23")), "+..23");
    assert_eq!(text(&symbol("1+")), "|1+|");
    assert_eq!(text(&vector(vec![])), "#()");
    assert_eq!(text(&vector(vec![symbol("a"), nil(), vector(vec![boolean(true)])])), "#(a () #(#t))");
    assert_eq!(text(&byte_vector(vec![])), "#u8()");
    assert_eq!(text(&byte_vector(vec![0, 10, 255])), "#u8(0 10 255)");
    assert_eq!(text(&list(vec![list(vec![symbol("a")]), pair(nil(), nil())])), "((a) (()))");
}

#[test]
fn lists_are_chains_of_pairs() {
    assert!(list(vec![]) == nil());
    assert!(list(vec![symbol("a")]) == pair(symbol("a"), nil()));
    assert!(
        list(vec![symbol("a"), symbol("b")]) == pair(symbol("a"), pair(symbol("b"), nil()))
    );
}
