use zed::data::expression::{list, nil, number, pair, symbol, Expr};
use zed::data::number::{decimal, integer};
use zed::read::error::{ReadError, ReadResult};
use zed::read::expr_reader::{ExprReader, MockTextReader};
use zed::read::grammar::FailureKind;
use zed::read::read::Read;
use zed::read::reader::{match_braces, Gathered, Reader};
use zed::read::repl_text_reader::ReplTextReader;

fn read_next(reader: &mut ExprReader<MockTextReader>) -> ReadResult<Expr> {
    loop {
        match reader.try_read() {
            Ok(Some(e)) => return Ok(e),
            Ok(None) => {}
            Err(e) => return Err(e),
        }
    }
}

fn parse_single_expr(text: &str) -> Expr {
    let input = MockTextReader::new(text);
    let mut reader = ExprReader::new(input);

    match read_next(&mut reader) {
        Ok(e) => e,
        Err(e) => panic!("{}", e.to_string()),
    }
}

fn parse_multiple_expr(text: &str) -> Vec<Expr> {
    let input = MockTextReader::new(text);
    let mut reader = ExprReader::new(input);

    let mut items = Vec::new();
    loop {
        match read_next(&mut reader) {
            Ok(e) => items.push(e),
            Err(ReadError::Eof) => return items,
            Err(e) => panic!("{}", e.to_string()),
        }
    }
}

#[test]
fn single_expressions_from_a_source_of_texts() {
    assert_eq!(parse_single_expr("()"), nil());
    assert_eq!(parse_single_expr("45"), number(integer(45)));
    assert_eq!(parse_single_expr("-9876"), number(integer(-9876)));
    assert_eq!(parse_single_expr("4.56"), number(decimal(false, 456, -2)));
    assert_eq!(parse_single_expr("-87.0"), number(decimal(true, 87, 0)));
    assert_eq!(parse_single_expr("4e-2"), number(decimal(false, 4, -2)));
    assert_eq!(parse_single_expr("2."), number(decimal(false, 2, 0)));
    assert_eq!(parse_single_expr(".92"), number(decimal(false, 92, -2)));
    assert_eq!(parse_single_expr("test-sym"), symbol("test-sym"));
    assert_eq!(parse_single_expr("|quoted symbol|"), symbol("quoted symbol"));
    assert_eq!(parse_single_expr("|escaped\\nsymbol\\x45;|"), symbol("escaped\nsymbol\u{45}"));
    assert_eq!(parse_single_expr("+two"), symbol("+two"));
    assert_eq!(parse_single_expr(".dotted"), symbol(".dotted"));
    assert_eq!(parse_single_expr("(a . b)"), pair(symbol("a"), symbol("b")));
    assert_eq!(
        parse_single_expr("(a b . c)"),
        pair(symbol("a"), pair(symbol("b"), symbol("c")))
    );
    assert_eq!(
        parse_single_expr("(a b c)"),
        list(vec![symbol("a"), symbol("b"), symbol("c")])
    );
    assert_eq!(
        parse_single_expr("(a (b) . ())"),
        list(vec![symbol("a"), list(vec![symbol("b")])])
    );
}

#[test]
fn multiple_expressions_from_a_source_of_texts() {
    assert_eq!(
        parse_multiple_expr("(+ 2 3) equals 5"),
        vec![
            list(vec![symbol("+"), number(integer(2)), number(integer(3))]),
            symbol("equals"),
            number(integer(5)),
        ]
    );
    assert_eq!(
        parse_multiple_expr("a b ;c d \n e f"),
        vec![symbol("a"), symbol("b"), symbol("e"), symbol("f")]
    );
    assert_eq!(parse_multiple_expr(""), vec![]);
}

#[test]
fn the_mock_source_gives_its_text_once() {
    let mut source = MockTextReader::new("some text");
    assert_eq!(source.read().unwrap(), "some text");
    assert!(matches!(source.read(), Err(ReadError::Eof)));
    assert!(matches!(source.read(), Err(ReadError::Eof)));
}

#[test]
fn a_text_is_read_as_a_whole_or_not_at_all() {
    let mut reader = ExprReader::new(MockTextReader::new("a b (c"));
    match reader.try_read() {
        Err(ReadError::Parse(e)) => assert_eq!(e.kind, FailureKind::MalformedInput),
        other => panic!("unexpected result: {:?}", other),
    }
    assert!(reader.next().is_none());
    assert!(matches!(reader.try_read(), Err(ReadError::Eof)));
}

#[test]
fn the_reader_hands_out_what_it_accepted_in_order() {
    let mut reader = ExprReader::new(MockTextReader::new(""));
    reader.accept(Ok("a b".to_string())).unwrap();
    reader.accept(Ok("c".to_string())).unwrap();
    assert_eq!(reader.next(), Some(symbol("a")));
    assert_eq!(reader.next(), Some(symbol("b")));
    assert_eq!(reader.next(), Some(symbol("c")));
    assert_eq!(reader.next(), None);
    reader.accept(Ok("d e".to_string())).unwrap();
    reader.clear_buffer();
    assert_eq!(reader.next(), None);
    assert!(matches!(
        reader.accept(Err(ReadError::Io("broken".to_string()))),
        Err(ReadError::Io(_))
    ));
    assert_eq!(reader.try_read().unwrap(), None);
}

fn check_reader(input: &str, expected: Vec<Expr>) {
    let mut lines = input.split_inclusive('\n').map(|l| l.to_string()).collect::<Vec<_>>();
    lines.reverse();
    let mut reader = Reader::new();
    let mut read = |reader: &mut Reader| -> ReadResult<Expr> {
        loop {
            if let Some(e) = reader.next() {
                return Ok(e);
            }
            let line = lines.pop().unwrap_or_default();
            reader.line(&line)?;
        }
    };

    for expr in &expected {
        match read(&mut reader) {
            Ok(e) => assert_eq!(expr, &e),
            Err(err) => panic!("read error: {}", err.to_string()),
        }
    }

    match read(&mut reader) {
        Ok(e) => panic!("unexpected result: {:?}", e),
        Err(ReadError::Eof) => {}
        Err(err) => panic!("read error: {}", err.to_string()),
    }
}

#[test]
fn test_reader() {
    check_reader("a b c", vec![symbol("a"), symbol("b"), symbol("c")]);
    check_reader("a\nb\n c", vec![symbol("a"), symbol("b"), symbol("c")]);
    check_reader("a\n\nb\n", vec![symbol("a"), symbol("b")]);
    check_reader(
        "(+\na\nb\n)",
        vec![list(vec![symbol("+"), symbol("a"), symbol("b")])],
    );
}

#[test]
fn lines_are_gathered_until_the_parentheses_match() {
    let mut reader = Reader::new();
    assert!(matches!(reader.line("(a\n"), Ok(Gathered::Open)));
    assert!(reader.next().is_none());
    assert!(matches!(reader.line("b)\n"), Ok(Gathered::Whole)));
    assert_eq!(reader.next(), Some(list(vec![symbol("a"), symbol("b")])));
    assert!(reader.next().is_none());
    assert!(matches!(reader.line("(c\n"), Ok(Gathered::Open)));
    match reader.line("") {
        Err(ReadError::Parse(e)) => assert_eq!(e.location.line, 2),
        other => panic!("unexpected result: {:?}", other),
    }
    assert!(matches!(reader.line(""), Err(ReadError::Eof)));
}

#[test]
fn matching_parentheses() {
    assert!(match_braces(""));
    assert!(match_braces("a b c"));
    assert!(match_braces("(a (b) c)"));
    assert!(match_braces("a)"));
    assert!(match_braces(")("));
    assert!(!match_braces("("));
    assert!(!match_braces("(a (b c)"));
}

#[test]
fn lines_of_an_interactive_session() {
    let mut reader = ReplTextReader::new();
    assert_eq!(reader.prompt(), "> ");
    assert_eq!(reader.line("(a"), None);
    assert_eq!(reader.prompt(), "...> ");
    assert_eq!(reader.line("(b"), None);
    assert_eq!(reader.prompt(), "...> ");
    assert_eq!(reader.line("c))"), Some("(a\n(b\nc))".to_string()));
    assert_eq!(reader.prompt(), "> ");
    assert_eq!(reader.line("d"), Some("d".to_string()));
    assert_eq!(reader.line(""), Some("".to_string()));
}

#[test]
fn what_is_read_waits_behind_what_waits_already() {
    let mut reader = Reader::new();
    assert!(matches!(reader.line("a b\n"), Ok(Gathered::Whole)));
    assert!(matches!(reader.line("c\n"), Ok(Gathered::Whole)));
    assert!(matches!(reader.line("(d\n"), Ok(Gathered::Open)));
    assert_eq!(reader.next(), Some(symbol("a")));
    assert_eq!(reader.next(), Some(symbol("b")));
    assert_eq!(reader.next(), Some(symbol("c")));
    assert_eq!(reader.next(), None);
    assert!(matches!(reader.line("e)\n"), Ok(Gathered::Whole)));
    assert_eq!(reader.next(), Some(list(vec![symbol("d"), symbol("e")])));
}

#[test]
fn the_mock_source_has_nothing_to_clear() {
    let mut source = MockTextReader::new("some text");
    source.clear_buffer();
    assert_eq!(source.read().unwrap(), "some text");
}
