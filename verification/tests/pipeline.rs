use rlisp::ast::Expression;
use rlisp::ast::Value;
use rlisp::ast::quote_value;
use rlisp::env::Environment;
use rlisp::eval::EvalErrorKind;
use rlisp::eval::eval_in;
use rlisp::interpreter::BasicInterpreter;
use rlisp::interpreter::Interpreter;
use rlisp::parser::ParseError;
use rlisp::parser::parse_next;
use rlisp::scanner::StringScanner;

const FUEL: u64 = 10000;

fn parse_one(text: &str) -> Expression {
    let mut scanner = StringScanner::new(text);
    parse_next(&mut scanner).unwrap().unwrap()
}

fn eval_str(text: &str) -> Result<String, EvalErrorKind> {
    let mut interp = BasicInterpreter::new();
    interp.eval(text).map(|out| out.output).map_err(|e| e.kind)
}

#[test]
fn addition_yields_number_three() {
    let expr = parse_one("(+ 1 2)");
    let mut env = Environment::new();
    let v = eval_in(&mut env, 0, &expr, FUEL).unwrap();
    match v {
        Value::Number(r) => {
            assert_eq!(r.num, 3);
            assert_eq!(r.den, 1);
        }
        _ => panic!("expected a number"),
    }
    assert_eq!(eval_str("(+ 1 2)"), Ok(String::from("3")));
}

#[test]
fn define_persists_in_the_same_environment() {
    let mut interp = BasicInterpreter::new();
    assert_eq!(interp.eval("(define x 5)").unwrap().output, "ok");
    assert_eq!(interp.eval("x").unwrap().output, "5");

    let mut fresh = BasicInterpreter::new();
    let err = fresh.eval("x").unwrap_err();
    assert_eq!(err.kind, EvalErrorKind::UnboundSymbol);
}

#[test]
fn zero_is_truthy_only_empty_list_is_false() {
    assert_eq!(eval_str("(if 0 1 2)"), Ok(String::from("1")));
    assert_eq!(eval_str("(if (quote ()) 1 2)"), Ok(String::from("2")));
    assert_eq!(eval_str("(if (= 1 2) 1 2)"), Ok(String::from("2")));
}

#[test]
fn missing_close_paren_is_unbalanced() {
    let mut scanner = StringScanner::new("(+ 1");
    let err = parse_next(&mut scanner).unwrap_err();
    assert_eq!(err, ParseError::Unbalanced);

    assert_eq!(eval_str("(+ 1"), Err(EvalErrorKind::Syntax(ParseError::Unbalanced)));
}

#[test]
fn stray_close_paren_is_an_error() {
    assert_eq!(eval_str(")"), Err(EvalErrorKind::Syntax(ParseError::StrayClose)));
}

#[test]
fn quote_returns_the_expression_as_a_value() {
    // the quoted form evaluates to the unevaluated expression itself
    let expr = parse_one("(quote (1 a \"s\"))");
    let quoted = parse_one("(1 a \"s\")");
    let mut env = Environment::new();
    let v = eval_in(&mut env, 0, &expr, FUEL).unwrap();
    let direct = quote_value(&quoted);
    match (&v, &direct) {
        (Value::List(a), Value::List(b)) => {
            assert_eq!(a.len(), 3);
            assert_eq!(b.len(), 3);
        }
        _ => panic!("expected lists"),
    }
    assert_eq!(eval_str("(quote (1 a \"s\"))"), Ok(String::from("(1 a s)")));
    assert_eq!(eval_str("'(1 2)"), Ok(String::from("(1 2)")));
}

#[test]
fn arithmetic_folds_left_to_right() {
    assert_eq!(eval_str("(- 10 2 3)"), Ok(String::from("5")));
    assert_eq!(eval_str("(* 2 3 4)"), Ok(String::from("24")));
    assert_eq!(eval_str("(/ 1 2)"), Ok(String::from("1/2")));
    assert_eq!(eval_str("(+ 1.5 0.5)"), Ok(String::from("200/100")));
    assert_eq!(eval_str("(= 2 2.0)"), Ok(String::from("1")));
}

#[test]
fn arithmetic_errors() {
    assert_eq!(eval_str("(/ 1 0)"), Err(EvalErrorKind::DivideByZero));
    assert_eq!(eval_str("(+ 1 \"x\")"), Err(EvalErrorKind::TypeMismatch));
    assert_eq!(
        eval_str("(* 9223372036854775807 2)"),
        Err(EvalErrorKind::Overflow)
    );
    assert_eq!(eval_str("(+)"), Err(EvalErrorKind::ArityMismatch));
}

#[test]
fn malformed_number_literals() {
    assert_eq!(
        eval_str("1."),
        Err(EvalErrorKind::Syntax(ParseError::MalformedNumber))
    );
    assert_eq!(
        eval_str("99999999999999999999"),
        Err(EvalErrorKind::Syntax(ParseError::MalformedNumber))
    );
}

#[test]
fn lexical_faults_surface_as_syntax_errors() {
    assert_eq!(eval_str("@"), Err(EvalErrorKind::Syntax(ParseError::Lexical)));
    assert_eq!(eval_str("\"abc"), Err(EvalErrorKind::Syntax(ParseError::Lexical)));
}

#[test]
fn lambda_application_and_closures() {
    let mut interp = BasicInterpreter::new();
    assert_eq!(interp.eval("(define id (lambda (x) x))").unwrap().output, "ok");
    assert_eq!(interp.eval("(id 7)").unwrap().output, "7");

    let mut interp2 = BasicInterpreter::new();
    interp2.eval("(define f (let ((a 2)) (lambda (x) (+ x a))))").unwrap();
    assert_eq!(interp2.eval("(f 3)").unwrap().output, "5");

    let err = eval_str("((lambda (x) x) 1 2)").unwrap_err();
    assert_eq!(err, EvalErrorKind::ArityMismatch);

    let err = eval_str("(1 2)").unwrap_err();
    assert_eq!(err, EvalErrorKind::NotCallable);
}

#[test]
fn let_binds_in_a_child_scope() {
    assert_eq!(eval_str("(let ((x 2) (y 3)) (* x y))"), Ok(String::from("6")));
    let mut interp = BasicInterpreter::new();
    interp.eval("(define x 1)").unwrap();
    interp.eval("(let ((x 2)) x)").unwrap();
    // the outer binding is shadowed, never mutated
    assert_eq!(interp.eval("x").unwrap().output, "1");
}

#[test]
fn special_form_shape_errors() {
    assert_eq!(eval_str("(define)"), Err(EvalErrorKind::BadSpecialForm));
    assert_eq!(eval_str("(define 1 2)"), Err(EvalErrorKind::BadSpecialForm));
    assert_eq!(eval_str("(if 1)"), Err(EvalErrorKind::BadSpecialForm));
    assert_eq!(eval_str("(quote 1 2)"), Err(EvalErrorKind::BadSpecialForm));
    assert_eq!(eval_str("(lambda (1) 2)"), Err(EvalErrorKind::BadSpecialForm));
}

#[test]
fn unbound_symbol_in_operator_position() {
    assert_eq!(eval_str("(f 1)"), Err(EvalErrorKind::UnboundSymbol));
}

#[test]
fn empty_list_and_empty_input() {
    assert_eq!(eval_str("()"), Ok(String::from("()")));
    assert_eq!(eval_str(""), Ok(String::from("ok")));
    assert_eq!(eval_str("(define y 1)"), Ok(String::from("ok")));
}

#[test]
fn several_forms_evaluate_in_order() {
    assert_eq!(eval_str("(define x 2) (define y 3) (+ x y)"), Ok(String::from("5")));
}

#[test]
fn clean_input_trims_whitespace() {
    let expected: Vec<char> = "quit".chars().collect();
    assert_eq!(rlisp::clean_input("  quit \r\n"), expected);
    assert_eq!(rlisp::clean_input(" \t "), Vec::<char>::new());
    assert_eq!(rlisp::clean_input("a b"), "a b".chars().collect::<Vec<char>>());
}
