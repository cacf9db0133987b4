use zed::data::expression::{
    boolean, byte_vector, character, list, nil, number, pair, string, symbol, vector, Expr,
};
use zed::data::function::ArgBounds;
use zed::data::number::{decimal, integer, rational, Number};
use zed::data::reals::Real;
use zed::error::ZedError;
use zed::eval::environment::Environment;
use zed::eval::error::EvalError;
use zed::eval::eval::Eval as EvalStep;
use zed::eval::evaluator::{Eval, Evaluator};
use zed::eval::expr_evaluator::ExprEvaluator;
use zed::print::error::PrintError;
use zed::print::print::Print;
use zed::print::repl_printer::ReplPrinter;
use zed::read::error::{LineCol, ParseError, ReadError, ReadResult};
use zed::read::expr_reader::{ExprReader, MockTextReader};
use zed::read::grammar::FailureKind;
use zed::read::read::Read;
use zed::repl::{react, Reaction, Repl};

fn one() -> Expr {
    number(decimal(false, 1, 0))
}

fn two() -> Expr {
    number(decimal(false, 2, 0))
}

fn three() -> Expr {
    number(decimal(false, 3, 0))
}

#[test]
fn defining_and_retrieving_a_variable() {
    let mut env = Environment::empty();
    env.define("a", &character('x'));

    assert_eq!(character('x'), env.get("a").unwrap());
}

#[test]
fn defining_and_updating_a_variable() {
    let mut env = Environment::empty();
    env.define("a", &character('f'));
    env.set("a", &character('g')).unwrap();

    assert_eq!(character('g'), env.get("a").unwrap());
}

#[test]
fn getting_an_unbound_variable() {
    let env = Environment::empty();

    assert_eq!(
        "unbound variable: `a`",
        env.get("a").unwrap_err().to_string()
    );
}

#[test]
fn setting_an_unbound_variable() {
    let mut env = Environment::empty();

    assert_eq!(
        "unbound variable: `a`",
        env.set("a", &character('x')).unwrap_err().to_string()
    );
}

#[test]
fn hiding_in_inner_environment() {
    let mut outer = Environment::empty();
    outer.define("a", &one());
    outer.define("b", &two());
    let mut inner = Environment::inner(outer);
    inner.define("a", &three());

    assert_eq!(three(), inner.get("a").unwrap());
    assert_eq!(two(), inner.get("b").unwrap());
    let outer = inner.outer().unwrap();
    assert_eq!(one(), outer.get("a").unwrap());
    assert_eq!(two(), outer.get("b").unwrap());
}

#[test]
fn setting_from_outer_environment() {
    let mut outer = Environment::empty();
    outer.define("a", &one());
    outer.define("b", &two());
    let mut inner = Environment::inner(outer);
    inner.define("a", &three());

    inner.set("a", &number(decimal(false, 4, 0))).unwrap();
    inner.set("b", &number(decimal(false, 5, 0))).unwrap();

    assert_eq!(number(decimal(false, 4, 0)), inner.get("a").unwrap());
    assert_eq!(number(decimal(false, 5, 0)), inner.get("b").unwrap());
    let outer = inner.outer().unwrap();
    assert_eq!(one(), outer.get("a").unwrap());
    assert_eq!(number(decimal(false, 5, 0)), outer.get("b").unwrap());
}

#[test]
fn redefining_replaces_the_binding() {
    let mut env = Environment::empty();
    env.define("a", &one());
    env.define("b", &two());
    env.define("a", &three());
    assert_eq!(three(), env.get("a").unwrap());
    assert_eq!(two(), env.get("b").unwrap());
    env.set("a", &two()).unwrap();
    assert_eq!(two(), env.get("a").unwrap());
    assert!(Environment::empty().outer().is_none());
}

#[test]
fn simple_evaluation() {
    let values = vec![
        nil(),
        boolean(true),
        number(integer(54321)),
        number(rational(54, 321)),
        number(decimal(false, 3478, -2)),
        number(Number::Complex(
            Real::from_integer(&zed::data::integer::Integer::from_i64(8)),
            Real::from_integer(&zed::data::integer::Integer::from_i64(7)),
        )),
        character('x'),
        string("a value"),
        vector(vec![nil(), character('f')]),
        byte_vector(vec![1, 2, 3, 4]),
    ];
    for value in values {
        let env = Environment::empty();
        let result = Evaluator.eval(&value, &env).unwrap();

        assert_eq!(value, result);
    }
}

fn check_variable_lookup(name: &str, value: Expr, depth: usize) {
    let mut env = Environment::empty();
    env.define(name, &value);

    for _ in 0..depth {
        env = Environment::inner(env);
    }

    assert_eq!(value, env.get(name).unwrap());
    assert_eq!(value, Evaluator.eval(&symbol(name), &env).unwrap());
}

#[test]
fn variable_lookup() {
    check_variable_lookup("a", string("test"), 0);
    check_variable_lookup("b", character('4'), 1);
    check_variable_lookup("c", number(decimal(false, 3456, -2)), 100);
}

#[test]
fn calls_fail_as_nothing_is_a_function() {
    let mut env = Environment::empty();
    env.define("f", &number(integer(7)));
    let call = list(vec![symbol("f"), symbol("x")]);
    assert_eq!(
        Evaluator.eval(&call, &env).unwrap_err().to_string(),
        "not a function: 7"
    );
    let unbound = list(vec![symbol("g"), symbol("x")]);
    assert_eq!(
        Evaluator.eval(&unbound, &env).unwrap_err().to_string(),
        "unbound variable: `g`"
    );
    let improper = pair(symbol("f"), pair(symbol("a"), symbol("b")));
    assert_eq!(
        Evaluator.eval(&improper, &env).unwrap_err().to_string(),
        "not a proper call form: (f a . b)"
    );
}

#[test]
fn unpacking_the_arguments_of_a_call() {
    let head = symbol("+");
    let args = Evaluator
        .unpack_args(&head, &list(vec![symbol("a"), number(integer(1))]))
        .unwrap();
    assert_eq!(args, vec![symbol("a"), number(integer(1))]);
    assert_eq!(Evaluator.unpack_args(&head, &nil()).unwrap(), vec![]);
    match Evaluator.unpack_args(&head, &symbol("a")) {
        Err(EvalError::BadlyFormedCall(call)) => assert_eq!(call, pair(symbol("+"), symbol("a"))),
        other => panic!("unexpected result: {:?}", other),
    }
}

#[test]
fn validate_bounds_ok() {
    let cases = [
        (None, None, 3),
        (Some(2), None, 2),
        (Some(4), None, 7),
        (None, Some(3), 3),
        (None, Some(5), 2),
        (Some(3), Some(5), 3),
        (Some(1), Some(8), 4),
        (Some(5), Some(8), 8),
        (Some(3), Some(3), 3),
    ];
    for (min, max, actual) in cases {
        let bounds = ArgBounds { min, max };
        let args = vec![nil(); actual];

        assert!(bounds.validate("name", &args).is_ok());
    }
}

#[test]
fn validate_bounds_fails() {
    let bounds = ArgBounds { min: Some(3), max: Some(4) };
    assert_eq!(
        bounds.validate("concat", &vec![nil(); 2]).unwrap_err().to_string(),
        "concat: wrong number of arguments: expected 3, got 2"
    );
    assert_eq!(
        bounds.validate("concat", &vec![nil(); 5]).unwrap_err().to_string(),
        "concat: too many arguments: at most 4, got 5"
    );
    let crossed = ArgBounds { min: Some(3), max: Some(1) };
    assert!(matches!(
        crossed.validate("f", &vec![nil(); 2]),
        Err(EvalError::NotEnoughArguments(_, 3, 2))
    ));
}

#[test]
fn unbound_variable() {
    for (name, expected) in [("+", "unbound variable: `+`"), ("add", "unbound variable: `add`")] {
        let error = EvalError::UnboundVariable(String::from(name));

        assert!(error.source().is_none());
        assert_eq!(error.to_string(), expected);
    }
}

#[test]
fn not_enough_arguments() {
    let cases = [
        ("+", 4, 3, "+: wrong number of arguments: expected 4, got 3"),
        ("add", 2, 0, "add: wrong number of arguments: expected 2, got 0"),
    ];
    for (name, min, actual, expected) in cases {
        let error = EvalError::NotEnoughArguments(String::from(name), min, actual);

        assert!(error.source().is_none());
        assert_eq!(error.to_string(), expected);
    }
}

#[test]
fn too_many_arguments() {
    let cases = [
        ("+", 2, 3, "+: too many arguments: at most 2, got 3"),
        ("add", 8, 24, "add: too many arguments: at most 8, got 24"),
    ];
    for (name, max, actual, expected) in cases {
        let error = EvalError::TooManyArguments(String::from(name), max, actual);

        assert!(error.source().is_none());
        assert_eq!(error.to_string(), expected);
    }
}

#[test]
fn badly_formed_call() {
    let cases = [
        (pair(symbol("+"), symbol("a")), "not a proper call form: (+ . a)"),
        (
            pair(symbol("+"), pair(symbol("a"), symbol("b"))),
            "not a proper call form: (+ a . b)",
        ),
    ];
    for (expr, expected) in cases {
        let error = EvalError::BadlyFormedCall(expr);

        assert!(error.source().is_none());
        assert_eq!(error.to_string(), expected);
    }
}

#[test]
fn not_a_function() {
    let cases = [
        (number(decimal(false, 5678, -2)), "not a function: 56.78"),
        (symbol("not-a-func"), "not a function: not-a-func"),
    ];
    for (expr, expected) in cases {
        let error = EvalError::NotAFunction(expr);

        assert!(error.source().is_none());
        assert_eq!(error.to_string(), expected);
    }
}

#[test]
fn function_error() {
    let cases = [
        ("do-something", "it broke", "do-something: it broke"),
        ("+", "not a number: (123)", "+: not a number: (123)"),
    ];
    for (name, err, expected) in cases {
        let error = EvalError::FunctionError(String::from(name), String::from(err));

        assert_eq!(error.source(), Some(String::from(err)));
        assert_eq!(error.to_string(), expected);
    }
}

#[test]
fn end_of_file() {
    let error = ReadError::Eof;

    assert_eq!("end of file", error.to_string());
    assert!(error.source().is_none());
}

#[test]
fn io_error() {
    let io_error: std::io::Error = std::io::ErrorKind::PermissionDenied.into();
    let error = ReadError::Io(io_error.to_string());

    assert_eq!(format!("I/O error: {}", io_error), error.to_string());
    assert!(error.source().is_some());
    assert_eq!(error.source().unwrap().to_string(), io_error.to_string());
}

#[test]
fn messages_of_the_other_errors() {
    let parse = ParseError {
        kind: FailureKind::InvalidByteLiteral,
        location: LineCol { line: 3, column: 14, offset: 40 },
    };
    assert_eq!(parse.to_string(), "error at 3:14: expected an integer from 0 to 255");
    assert_eq!(
        ReadError::from(parse).to_string(),
        "parse error: error at 3:14: expected an integer from 0 to 255"
    );
    let escape = ParseError {
        kind: FailureKind::InvalidEscape,
        location: LineCol { line: 1, column: 1, offset: 0 },
    };
    assert_eq!(escape.expected(), "expected the code point of a character");
    let print = PrintError::Io("closed".to_string());
    assert_eq!(print.to_string(), "i/o error: closed");
    assert_eq!(print.source(), Some("closed".to_string()));
    assert_eq!(ZedError::from(ReadError::Eof).to_string(), "end of file");
    assert_eq!(
        ZedError::from(EvalError::UnboundVariable("x".to_string())).to_string(),
        "unbound variable: `x`"
    );
    assert_eq!(ZedError::from(PrintError::Io("closed".to_string())).to_string(), "i/o error: closed");
    assert!(ZedError::from(ReadError::Eof).source().is_none());
    assert!(ZedError::from(PrintError::Io("closed".to_string())).source().is_some());
}

#[test]
fn reactions_of_the_loop() {
    assert_eq!(react(&ZedError::Read(ReadError::Eof)), Reaction::Finish);
    let parse = ParseError {
        kind: FailureKind::MalformedInput,
        location: LineCol { line: 1, column: 1, offset: 0 },
    };
    assert_eq!(react(&ZedError::Read(ReadError::Parse(parse))), Reaction::Recover);
    assert_eq!(
        react(&ZedError::Eval(EvalError::UnboundVariable("x".to_string()))),
        Reaction::Recover
    );
    assert_eq!(react(&ZedError::Read(ReadError::Io("x".to_string()))), Reaction::Abort);
    assert_eq!(react(&ZedError::Print(PrintError::Io("x".to_string()))), Reaction::Abort);
}

#[test]
fn the_printer_writes_a_line_for_each_value() {
    let mut printer = ReplPrinter::new(String::from("before\n"));
    printer.print(list(vec![symbol("a"), number(integer(1))])).unwrap();
    printer.print(string("x")).unwrap();
    assert_eq!(printer.output(), "before\n---> (a 1)\n---> \"x\"\n");
    assert_eq!(printer.take(), "before\n---> (a 1)\n---> \"x\"\n");
    assert_eq!(printer.output(), "");
}

#[test]
fn the_identity_evaluator_gives_the_value_back() {
    let value = list(vec![symbol("a")]);
    assert_eq!(ExprEvaluator.eval(value.clone()).unwrap(), value);
}

struct Expressions {
    reader: ExprReader<MockTextReader>,
    cleared: usize,
}

impl Read for Expressions {
    type Output = Expr;

    fn read(&mut self) -> ReadResult<Expr> {
        loop {
            if let Some(e) = self.reader.try_read()? {
                return Ok(e);
            }
        }
    }

    fn clear_buffer(&mut self) {
        self.cleared += 1;
        self.reader.clear_buffer();
    }
}

#[test]
fn rounds_of_the_loop() {
    let reader = Expressions {
        reader: ExprReader::new(MockTextReader::new("(a b) 12")),
        cleared: 0,
    };
    let mut repl = Repl::new(reader, ExprEvaluator, ReplPrinter::new(String::new()));
    let first = repl.rep();
    assert!(first.is_ok());
    assert_eq!(repl.settle(&first), None);
    assert!(repl.rep().is_ok());
    let last = repl.rep();
    assert!(matches!(last, Err(ZedError::Read(ReadError::Eof))));
    assert_eq!(repl.settle(&last), Some(Reaction::Finish));
    let failed = Err(ZedError::Eval(EvalError::UnboundVariable("x".to_string())));
    assert_eq!(repl.settle(&failed), Some(Reaction::Recover));
}

fn concat_primitive(args: Vec<Expr>) -> Result<Expr, String> {
    if args.is_empty() {
        return Err(String::from("failed in call"));
    }
    let texts: Vec<String> = args
        .iter()
        .map(|arg| match &**arg {
            zed::data::expression::Expression::String(s) => s.clone(),
            other => zed::print::printer::format(other),
        })
        .collect();
    Ok(string(&texts.join(", ")))
}

fn primitive(name: &str, min: Option<usize>, max: Option<usize>) -> zed::data::function::Function {
    zed::data::function::Function::Primitive(String::from(name), ArgBounds { min, max })
}

#[test]
fn calling_primitive_with_arg_eval_error() {
    let func = primitive("concat", None, None);
    let args = vec![symbol("x")];
    let env = Environment::empty();

    let result = func.apply(args, &env, &Evaluator, concat_primitive);

    assert_eq!("unbound variable: `x`", result.unwrap_err().to_string());
}

#[test]
fn calling_primitive_with_wrong_number_of_arguments() {
    let func = primitive("concat", Some(3), None);
    let args = vec![string("test"), string("args")];
    let env = Environment::empty();

    let result = func.apply(args, &env, &Evaluator, concat_primitive);

    assert_eq!(
        "concat: wrong number of arguments: expected 3, got 2",
        result.unwrap_err().to_string()
    );
}

#[test]
fn calling_primitive_function() {
    let func = primitive("concat", None, None);
    let args = vec![symbol("a"), symbol("b")];
    let mut env = Environment::empty();
    env.define("a", &number(integer(45)));
    env.define("b", &boolean(false));

    let result = func.apply(args, &env, &Evaluator, concat_primitive);

    assert_eq!(string("45, #f"), result.unwrap());
}

#[test]
fn failure_in_primitive_function_call() {
    let func = primitive("concat", None, None);
    let env = Environment::empty();

    let result = func.apply(vec![], &env, &Evaluator, concat_primitive);

    assert_eq!("concat: failed in call", result.unwrap_err().to_string());
}

#[test]
fn calling_with_too_many_arguments() {
    let func = primitive("concat", None, Some(1));
    let result = func.call(vec![nil(), nil()], concat_primitive);
    assert_eq!(
        "concat: too many arguments: at most 1, got 2",
        result.unwrap_err().to_string()
    );
    assert_eq!(func.to_string(), "#<Function concat>");
    let evaluated = func
        .eval_args(vec![number(integer(1)), string("s")], &Environment::empty(), &Evaluator)
        .unwrap();
    assert_eq!(evaluated, vec![number(integer(1)), string("s")]);
}

#[test]
fn recovery_drops_what_was_read_ahead() {
    let reader = Expressions {
        reader: ExprReader::new(MockTextReader::new("a b c")),
        cleared: 0,
    };
    let mut repl = Repl::new(reader, ExprEvaluator, ReplPrinter::new(String::new()));
    assert!(repl.rep().is_ok());
    let failed = Err(ZedError::Eval(EvalError::UnboundVariable("x".to_string())));
    assert_eq!(repl.settle(&failed), Some(Reaction::Recover));
    assert!(matches!(repl.rep(), Err(ZedError::Read(ReadError::Eof))));

    let reader = Expressions {
        reader: ExprReader::new(MockTextReader::new("a b c")),
        cleared: 0,
    };
    let mut repl = Repl::new(reader, ExprEvaluator, ReplPrinter::new(String::new()));
    assert!(repl.rep().is_ok());
    let aborted = Err(ZedError::Print(PrintError::Io("closed".to_string())));
    assert_eq!(repl.settle(&aborted), Some(Reaction::Abort));
    assert!(repl.rep().is_ok());
    assert_eq!(repl.settle(&Ok(())), None);
    assert!(repl.rep().is_ok());
    assert!(matches!(repl.rep(), Err(ZedError::Read(ReadError::Eof))));
}

struct Failing {
    seen: std::rc::Rc<std::cell::RefCell<Vec<String>>>,
}

impl Eval for Failing {
    fn eval(&self, expr: &Expr, _env: &Environment) -> zed::eval::error::EvalResult<Expr> {
        let text = zed::print::printer::format(expr);
        self.seen.borrow_mut().push(text.clone());
        if text.starts_with("bad") {
            Err(EvalError::UnboundVariable(text))
        } else {
            Ok(expr.clone())
        }
    }
}

#[test]
fn the_first_argument_that_fails_ends_the_evaluation() {
    let seen = std::rc::Rc::new(std::cell::RefCell::new(Vec::new()));
    let eval = Failing { seen: seen.clone() };
    let func = primitive("concat", Some(9), None);
    let args = vec![symbol("a"), symbol("bad1"), symbol("c"), symbol("bad2")];
    let result = func.apply(args, &Environment::empty(), &eval, concat_primitive);
    assert_eq!(result.unwrap_err().to_string(), "unbound variable: `bad1`");
    assert_eq!(*seen.borrow(), vec!["a".to_string(), "bad1".to_string()]);
}
