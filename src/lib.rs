use vstd::prelude::*;
use vstd::string::StringSliceAdditionalSpecFns;
use crate::interpreter::{evaluate, evaluate_source};

pub mod ast;
pub mod lexer;
pub mod parser;
pub mod interpreter;
pub mod display;

verus! {

/// Errors that the literal scanner reports through the parser.
#[derive(Clone, Copy, Debug, PartialEq, Eq, Structural)]
pub enum CalculatorError {
    InputTooBig,
}

/// The value of a source text, or `None` where it has none, whatever the
/// reason.
pub fn calculate(input: &str) -> (r: Option<i64>)
    ensures
        r == match evaluate_source(input.spec_bytes()) {
            Ok(v) => Some(v),
            Err(_) => None::<i64>,
        },
{
    match evaluate(input) {
        Ok(v) => Some(v),
        Err(_) => None,
    }
}

} // verus!
