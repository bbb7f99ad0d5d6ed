//! Translates WXML-style markup into component markup for a JSX-like
//! renderer: a tokenizer, a tree builder and a code generator, each with a
//! contract stated over a mathematical model of its input and output.
use vstd::prelude::*;

pub mod lexer;
pub mod parser;
pub mod generator;

use crate::generator::{Generator, gen};
use crate::lexer::{Error, ErrorV};
use crate::parser::{Parser, parse_text};

verus! {

/// The markup of a whole text, or the error that stops it.
pub open spec fn compiled(s: Seq<char>) -> Result<Seq<char>, ErrorV> {
    match parse_text(s) {
        Ok(n) => Ok(gen(n)),
        Err(x) => Err(x),
    }
}

/// Tokenizes `source`, builds the tree of its first node and generates its
/// markup. On failure nothing is generated.
pub fn compile(source: &str) -> (r: Result<String, Error>)
    ensures
        match compiled(source@) {
            Ok(t) => r is Ok && r->Ok_0@ == t,
            Err(x) => r is Err && r->Err_0@ == x,
        },
{
    let mut parser = Parser::new(source);
    let ast = match parser.parse_all() {
        Ok(n) => n,
        Err(e) => {
            return Err(e);
        },
    };
    let mut generator = Generator::new(ast);
    Ok(generator.generate_fre())
}

/// Compiling is a function of the text alone: two texts with the same
/// characters have the same outcome, markup or error.
pub proof fn compile_is_deterministic(a: &str, b: &str)
    requires
        a@ == b@,
    ensures
        compiled(a@) == compiled(b@),
{
}

} // verus!
