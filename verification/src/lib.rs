//! A front end and evaluator for a small expression-oriented scripting
//! language: source text is scanned into tokens, tokens are parsed into a
//! syntax tree with operator precedence, and the tree is evaluated with
//! lexical scoping and closures.
use vstd::prelude::*;

pub mod arithmetic;
pub mod ast;
pub mod evaluator;
pub mod grammar;
pub mod lexer;
pub mod notation;
pub mod object;
pub mod parsed;
pub mod parser;
pub mod printed;
pub mod printed_text;
pub mod round_trip;
pub mod semantics;
pub mod sequences;
pub mod spelling;
pub mod text;
pub mod theorems;
pub mod token;

use crate::ast::{Program, StatementView};
use crate::evaluator::{eval, MAX_DEPTH};
use crate::grammar::ParseError;
use crate::lexer::{token_stream, Lexer};
use crate::object::{fresh, Environment, EvalError, EvalErrorView, Object, ObjectView};
use crate::parser::Parser;

verus! {

/// Why a source text has no value.
#[derive(Debug, PartialEq)]
pub enum Error {
    /// The text is no program.
    Parse(ParseError),
    /// The program's evaluation failed.
    Eval(EvalError),
}

/// The statements of the program that the text `source` spells, or the
/// first error in it.
pub open spec fn parse_source(source: Seq<char>) -> Result<Seq<StatementView>, ParseError> {
    grammar::program(token_stream(source, 0), 0)
}

/// The value that the text `source` has as a program evaluated in an
/// environment of its own.
pub open spec fn evaluate_source(source: Seq<char>) -> Result<
    Result<ObjectView, EvalErrorView>,
    ParseError,
> {
    match parse_source(source) {
        Err(e) => Err(e),
        Ok(statements) => Ok(semantics::eval_program(statements, fresh(), MAX_DEPTH as nat).result),
    }
}

/// Parses a source text.
pub fn parse(source: &str) -> (r: Result<Program, ParseError>)
    ensures
        match parse_source(source@) {
            Ok(statements) => r matches Ok(p) && p@.statements == statements,
            Err(e) => r matches Err(x) && x == e,
        },
{
    let lexer = Lexer::new(source);
    let mut parser = Parser::new(lexer);
    parser.parse_program()
}

/// Parses a source text and evaluates it in an environment of its own.
pub fn evaluate(source: &str) -> (r: Result<Object, Error>)
    ensures
        match evaluate_source(source@) {
            Err(e) => r matches Err(Error::Parse(x)) && x == e,
            Ok(Err(e)) => r matches Err(Error::Eval(x)) && x@ == e,
            Ok(Ok(value)) => r matches Ok(o) && o@ == value,
        },
{
    match parse(source) {
        Err(e) => Err(Error::Parse(e)),
        Ok(program) => {
            let mut env = Environment::new();
            match eval(&program, &mut env) {
                Ok(value) => Ok(value),
                Err(e) => Err(Error::Eval(e)),
            }
        },
    }
}

impl Error {
    /// The message that describes this error.
    pub fn message(&self) -> (text: String)
        ensures
            text@ == match *self {
                Error::Parse(e) => parser::parse_error_text(e),
                Error::Eval(e) => object::eval_error_text(e@),
            },
    {
        match self {
            Error::Parse(e) => e.message(),
            Error::Eval(e) => e.message(),
        }
    }
}

} // verus!
