//! A small scripting language: tokenizer, recursive-descent parser and
//! tree-walking evaluator, each specified against a mathematical model.

pub mod ast;
pub mod interpreter;
pub mod laws;
pub mod parser;
pub mod text;
pub mod token;

use vstd::prelude::*;

use crate::interpreter::{run_stmts, Interpreter, Val};
use crate::parser::{program_of, Parser};
use crate::token::{lex, Tokenizer};

verus! {

/// Why a run stopped early.
#[derive(Debug, Clone, PartialEq)]
pub enum Failure {
    /// The source does not follow the grammar.
    Parse(String),
    /// Evaluation hit a type error, a division by zero, an overflow, an
    /// undefined variable or a failed assertion.
    Runtime(String),
}

/// Tokenizes, parses and runs a source text from an empty environment.
/// Returns the printed lines, which are kept when a runtime error stops the run.
pub fn run_source(source: &str) -> (r: (Vec<String>, Result<(), Failure>))
    ensures
        match program_of(lex(source@)) {
            Err(m) => r.0@.len() == 0 && r.1 == Err::<(), Failure>(Failure::Parse(r.1->Err_0->Parse_0))
                && r.1->Err_0->Parse_0@ == m,
            Ok(program) => {
                let o = run_stmts(Map::<Seq<char>, Val>::empty(), Seq::empty(), program);
                &&& r.0@.map_values(|s: String| s@) == o.out
                &&& match o.result {
                    Ok(()) => r.1 is Ok,
                    Err(m) => r.1 == Err::<(), Failure>(Failure::Runtime(r.1->Err_0->Runtime_0)) && r.1->Err_0->Runtime_0@ == m,
                }
            },
        },
{
    let mut tokenizer = Tokenizer::new(source);
    let tokens = tokenizer.tokenize();
    let mut parser = Parser::new(tokens);
    let program = match parser.parse() {
        Ok(p) => p,
        Err(m) => return (Vec::new(), Err(Failure::Parse(m))),
    };
    let mut interpreter = Interpreter::new();
    let result = interpreter.execute(&program);
    let lines = interpreter.take_output();
    match result {
        Ok(()) => (lines, Ok(())),
        Err(m) => (lines, Err(Failure::Runtime(m))),
    }
}

} // verus!
