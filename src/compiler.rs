use vstd::prelude::*;

use crate::codegen::{codegen, render};
use crate::error::{Outcome, Result};
use crate::parser::{parse, parse_program};
use crate::tokenizer::{lex, tokenize};
use crate::transformer::{transform, transform_program};

verus! {

/// The code that source text `s` compiles to, or the first failure on the way.
pub open spec fn compile_spec(s: Seq<char>) -> Outcome<Seq<char>> {
    match lex(s) {
        Err(e) => Err(e),
        Ok(tokens) => match parse_program(tokens) {
            Err(e) => Err(e),
            Ok(body) => Ok(render(transform_program(body))),
        },
    }
}

/// Compiles source text: tokenize, parse, transform, generate.
pub fn compile(code: &str) -> (r: Result<String>)
    ensures
        match compile_spec(code@) {
            Ok(out) => r matches Ok(x) && x@ == out,
            Err(e) => r matches Err(x) && x@ == e,
        },
{
    let tokens = match tokenize(code) {
        Ok(t) => t,
        Err(e) => {
            return Err(e);
        },
    };
    let mut ast = match parse(tokens) {
        Ok(a) => a,
        Err(e) => {
            return Err(e);
        },
    };
    let transformed_ast = transform(&mut ast);
    codegen(&transformed_ast)
}

} // verus!
