use inmu_lang::interpreter::{apply, Interpreter, Value};
use inmu_lang::ast::{BinaryOp, Expr, Stmt};
use inmu_lang::{run_source, Failure};

fn lines(src: &str) -> Vec<String> {
    let (out, result) = run_source(src);
    assert_eq!(result, Ok(()), "source: {}", src);
    out
}

fn runtime_error(src: &str) -> Vec<String> {
    let (out, result) = run_source(src);
    assert!(matches!(result, Err(Failure::Runtime(_))), "source: {}", src);
    out
}

#[test]
fn let_binds_seven() {
    assert_eq!(lines("let x = 1 + 2 * 3\nprint x"), vec!["7"]);
}

#[test]
fn chained_equality_gives_one() {
    assert_eq!(lines("print 1 == 2 == 0"), vec!["1"]);
}

#[test]
fn end_to_end_scenario() {
    let src = "let x = 10\nlet y = 3\nprint x / y\nassert(x == 10, 1)\nif x - y\nprint \"nonzero\"\nelse\nprint \"zero\"\nendif\n";
    assert_eq!(lines(src), vec!["3", "nonzero"]);
}

#[test]
fn missing_endif_fails_before_any_output() {
    let (out, result) = run_source("print 1\nif 1\nprint 2\n");
    assert!(matches!(result, Err(Failure::Parse(_))));
    assert!(out.is_empty());
}

#[test]
fn undefined_variable_keeps_earlier_output() {
    assert_eq!(runtime_error("print 1\nprint \"two\"\nprint nope\nprint 4"), vec!["1", "two"]);
}

#[test]
fn division_truncates_toward_zero() {
    assert_eq!(lines("print 7 / 2\nprint -7 / 2\nprint 7 / -2\nprint -7 / -2\nprint 0 / -5"), vec!["3", "-3", "-3", "3", "0"]);
}

#[test]
fn division_by_zero_is_runtime_error() {
    assert_eq!(runtime_error("print 5\nprint 1 / 0"), vec!["5"]);
    runtime_error("print 0 / 0");
}

#[test]
fn assert_same_literal_succeeds() {
    lines("assert(5, 5)\nassert(\"a\", \"a\")\nassert(-3, -3)");
}

#[test]
fn assert_different_values_fails() {
    runtime_error("assert(1, 2)");
    runtime_error("assert(1, \"1\")");
    runtime_error("assert(\"a\", \"b\")");
}

#[test]
fn assert_ne_is_the_negation() {
    lines("assert_ne(1, 2)\nassert_ne(1, \"1\")");
    runtime_error("assert_ne(1, 1)");
    runtime_error("assert_ne(\"a\", \"a\")");
}

#[test]
fn integer_equals_text_is_zero() {
    assert_eq!(lines("print 1 == \"1\"\nprint \"x\" == 0"), vec!["0", "0"]);
}

#[test]
fn if_zero_runs_else() {
    assert_eq!(lines("if 0\nprint \"then\"\nelse\nprint \"else\"\nendif"), vec!["else"]);
}

#[test]
fn if_nonzero_runs_then() {
    assert_eq!(lines("if -2\nprint \"then\"\nendif"), vec!["then"]);
}

#[test]
fn if_zero_without_else_does_nothing() {
    assert_eq!(lines("if 0\nprint \"then\"\nendif\nprint \"after\""), vec!["after"]);
}

#[test]
fn if_condition_must_be_number() {
    runtime_error("if \"yes\"\nprint 1\nendif");
}

#[test]
fn binding_in_branch_is_visible_after() {
    assert_eq!(lines("if 1\nlet y = 5\nendif\nprint y"), vec!["5"]);
    assert_eq!(lines("if 0\nelse\nlet z = \"z\"\nendif\nprint z"), vec!["z"]);
}

#[test]
fn let_overwrites() {
    assert_eq!(lines("let a = 1\nlet a = a + 1\nprint a"), vec!["2"]);
}

#[test]
fn arithmetic_needs_numbers() {
    runtime_error("print 1 + \"a\"");
    runtime_error("print \"a\" * 2");
}

#[test]
fn overflow_is_runtime_error() {
    runtime_error("print 9223372036854775807 + 1");
    runtime_error("print 0 - 9223372036854775807 - 2");
    runtime_error("print 4294967296 * 4294967296");
    assert_eq!(lines("print 0 - 9223372036854775807 - 1"), vec!["-9223372036854775808"]);
}

#[test]
fn negative_numbers_print_with_sign() {
    assert_eq!(lines("print -42\nprint 100 - 1000"), vec!["-42", "-900"]);
}

#[test]
fn apply_division_cases() {
    assert_eq!(apply(BinaryOp::Div, &Value::Number(-9), &Value::Number(4)), Ok(Value::Number(-2)));
    assert!(apply(BinaryOp::Div, &Value::Number(i64::MIN), &Value::Number(-1)).is_err());
    assert!(apply(BinaryOp::Div, &Value::Number(3), &Value::Number(0)).is_err());
    assert_eq!(
        apply(BinaryOp::Equal, &Value::String("a".to_string()), &Value::String("a".to_string())),
        Ok(Value::Number(1))
    );
}

#[test]
fn interpreter_keeps_state_across_programs() {
    let mut it = Interpreter::new();
    let first = vec![Stmt::Let { name: "n".to_string(), value: Expr::Number(3) }];
    assert_eq!(it.execute(&first), Ok(()));
    let second = vec![Stmt::Print(Expr::Variable("n".to_string()))];
    assert_eq!(it.execute(&second), Ok(()));
    assert_eq!(it.output(), &vec!["3".to_string()]);
}

fn runtime_message(src: &str) -> String {
    match run_source(src).1 {
        Err(Failure::Runtime(m)) => m,
        other => panic!("expected a runtime error for {}, got {:?}", src, other),
    }
}

fn parse_message(src: &str) -> String {
    match run_source(src).1 {
        Err(Failure::Parse(m)) => m,
        other => panic!("expected a parse error for {}, got {:?}", src, other),
    }
}

#[test]
fn runtime_error_messages() {
    assert_eq!(runtime_message("print 1 / 0"), "Division by zero");
    assert_eq!(runtime_message("print y"), "Undefined variable: y");
    assert_eq!(runtime_message("print 1 + \"a\""), "Expected number, got String(\"a\")");
    assert_eq!(runtime_message("if \"a\"\nendif"), "Expected number, got String(\"a\")");
    assert_eq!(runtime_message("print 9223372036854775807 + 1"), "Integer overflow");
    assert_eq!(runtime_message("assert(1, \"1\")"), "Assertion failed: expected String(\"1\"), got Number(1)");
    assert_eq!(
        runtime_message("assert_ne(-4, -4)"),
        "Assertion failed: expected values to be different, but both are Number(-4)"
    );
}

#[test]
fn operand_errors_pass_through_unchanged() {
    assert_eq!(runtime_message("print 0 == nope"), "Undefined variable: nope");
    assert_eq!(runtime_message("let a = first + second"), "Undefined variable: first");
    assert_eq!(runtime_message("if 1\nprint 1 / 0\nendif"), "Division by zero");
}

#[test]
fn parse_error_messages() {
    assert_eq!(parse_message("if 1\nprint 1\n"), "Expected Endif, got Eof");
    assert_eq!(parse_message("print 1\n2"), "Unexpected token: Number(2)");
    assert_eq!(parse_message("print (1"), "Expected RParen, got Eof");
    assert_eq!(parse_message("let 5 = 1"), "Expected identifier, got Number(5)");
    assert_eq!(parse_message("let x 1"), "Expected Equal, got Number(1)");
    assert_eq!(parse_message("print )"), "Unexpected token in expression: RParen");
    assert_eq!(parse_message("assert(1 \"b\")"), "Expected Comma, got String(\"b\")");
    assert_eq!(parse_message("print x y"), "Unexpected token: Identifier(\"y\")");
}

#[test]
fn statements_clone_equal() {
    let s = Stmt::If {
        condition: Expr::Variable("c".to_string()),
        then_body: vec![Stmt::Print(Expr::Binary {
            left: Box::new(Expr::Number(1)),
            op: BinaryOp::Add,
            right: Box::new(Expr::String("x".to_string())),
        })],
        else_body: Some(vec![Stmt::Let { name: "y".to_string(), value: Expr::Number(2) }]),
    };
    assert_eq!(s.clone(), s);
}
