use inmu_lang::ast::{BinaryOp, Expr, Stmt};
use inmu_lang::parser::Parser;
use inmu_lang::token::{Token, Tokenizer};

fn parse(src: &str) -> Result<Vec<Stmt>, String> {
    Parser::new(Tokenizer::new(src).tokenize()).parse()
}

fn bin(l: Expr, op: BinaryOp, r: Expr) -> Expr {
    Expr::Binary { left: Box::new(l), op, right: Box::new(r) }
}

#[test]
fn multiplication_binds_tighter_than_addition() {
    assert_eq!(
        parse("let x = 1 + 2 * 3").unwrap(),
        vec![Stmt::Let {
            name: "x".to_string(),
            value: bin(Expr::Number(1), BinaryOp::Add, bin(Expr::Number(2), BinaryOp::Mul, Expr::Number(3))),
        }]
    );
}

#[test]
fn equality_chains_to_the_left() {
    assert_eq!(
        parse("print 1 == 2 == 0").unwrap(),
        vec![Stmt::Print(bin(bin(Expr::Number(1), BinaryOp::Equal, Expr::Number(2)), BinaryOp::Equal, Expr::Number(0)))]
    );
}

#[test]
fn subtraction_is_left_associative() {
    assert_eq!(
        parse("print 8 - 4 - 2").unwrap(),
        vec![Stmt::Print(bin(bin(Expr::Number(8), BinaryOp::Sub, Expr::Number(4)), BinaryOp::Sub, Expr::Number(2)))]
    );
}

#[test]
fn unary_minus_folds_literals() {
    assert_eq!(parse("print -5").unwrap(), vec![Stmt::Print(Expr::Number(-5))]);
    assert_eq!(parse("print --5").unwrap(), vec![Stmt::Print(Expr::Number(5))]);
    assert_eq!(
        parse("print -x").unwrap(),
        vec![Stmt::Print(bin(Expr::Number(0), BinaryOp::Sub, Expr::Variable("x".to_string())))]
    );
}

#[test]
fn parentheses_group() {
    assert_eq!(
        parse("print (1 + 2) * 3").unwrap(),
        vec![Stmt::Print(bin(bin(Expr::Number(1), BinaryOp::Add, Expr::Number(2)), BinaryOp::Mul, Expr::Number(3)))]
    );
}

#[test]
fn if_with_else_and_blank_lines() {
    assert_eq!(
        parse("\n\nif c\n\nprint 1\nelse\nprint 2\n\nendif\n\n").unwrap(),
        vec![Stmt::If {
            condition: Expr::Variable("c".to_string()),
            then_body: vec![Stmt::Print(Expr::Number(1))],
            else_body: Some(vec![Stmt::Print(Expr::Number(2))]),
        }]
    );
}

#[test]
fn if_without_else() {
    assert_eq!(
        parse("if 1\nendif").unwrap(),
        vec![Stmt::If { condition: Expr::Number(1), then_body: vec![], else_body: None }]
    );
}

#[test]
fn assertions_parse() {
    assert_eq!(
        parse("assert(1, \"a\")\nassert_ne(x, 2)").unwrap(),
        vec![
            Stmt::Assert { actual: Expr::Number(1), expected: Expr::String("a".to_string()) },
            Stmt::AssertNe { actual: Expr::Variable("x".to_string()), expected: Expr::Number(2) },
        ]
    );
}

#[test]
fn missing_endif_is_a_parse_error() {
    assert!(parse("if 1\nprint 1\n").is_err());
    assert!(parse("if 1\nprint 1\nelse\nprint 2").is_err());
}

#[test]
fn grammar_violations_are_parse_errors() {
    assert!(parse("print").is_err());
    assert!(parse("let = 1").is_err());
    assert!(parse("let x 1").is_err());
    assert!(parse("assert(1 2)").is_err());
    assert!(parse("print (1").is_err());
    assert!(parse("x = 1").is_err());
    assert!(parse("endif").is_err());
    assert!(parse("print 1 +").is_err());
}

#[test]
fn empty_program_parses() {
    assert_eq!(parse("").unwrap(), vec![]);
    assert_eq!(parse("\n\n").unwrap(), vec![]);
}

#[test]
fn parser_without_eof_token_stops_at_end() {
    let mut p = Parser::new(vec![Token::Print, Token::Number(3)]);
    assert_eq!(p.parse().unwrap(), vec![Stmt::Print(Expr::Number(3))]);
}
