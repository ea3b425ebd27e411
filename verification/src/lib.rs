//! Front end and evaluator for the Linger scripting language.
//!
//! The pipeline is `tokenizer -> parser -> desugar -> interpreter`. Every
//! stage is an executable function whose result is pinned, through the views
//! of its arguments, to a specification function of the same stage:
//! `lexicon` says how text divides into tokens, `grammar` what the tokens
//! are read as, `desugar` what the core language makes of it, and
//! `semantics` what a core program does.

use vstd::prelude::*;

pub mod desugar;
pub mod environment;
pub mod error;
pub mod grammar;
pub mod interpreter;
pub mod lexicon;
pub mod lists;
pub mod parser;
pub mod semantics;
pub mod text;
pub mod tokenizer;

verus! {

/// What running a text as a program prints and gives: the first failure
/// of tokenizer, parser and evaluator, in this order, or the value of `main`.
pub open spec fn outcome(text: Seq<char>, limits: interpreter::Limits) -> (
    Seq<char>,
    Result<interpreter::ValueModel, error::LingerErrorModel>,
) {
    match lexicon::tokens(text) {
        Ok(tokens) => match parser::program(tokens) {
            Ok(program) => {
                let (output, result) = semantics::run(program, limits);
                (
                    output,
                    match result {
                        Ok(v) => Ok(v),
                        Err(e) => Err(error::LingerErrorModel::RuntimeError(e)),
                    },
                )
            },
            Err(e) => (Seq::empty(), Err(error::LingerErrorModel::ParseError(e))),
        },
        Err(e) => (Seq::empty(), Err(error::LingerErrorModel::TokenizerError(e))),
    }
}

/// The view of the result of a run.
pub open spec fn result_view(r: Result<interpreter::Value, error::LingerError>) -> Result<
    interpreter::ValueModel,
    error::LingerErrorModel,
> {
    match r {
        Ok(v) => Ok(v@),
        Err(e) => Err(e@),
    }
}

/// Runs a text as a program: gives the value of `main`, or the failure that
/// ended the run, and what the run printed.
pub fn run(source: &str, limits: interpreter::Limits) -> (r: (
    Result<interpreter::Value, error::LingerError>,
    String,
))
    ensures
        (r.1@, result_view(r.0)) == outcome(source@, limits),
{
    let tokens = match tokenizer::tokenize(source) {
        Ok(tokens) => tokens,
        Err(e) => return (Err(error::LingerError::TokenizerError(e)), String::new()),
    };
    let program = match parser::parse_program(tokens.as_slice()) {
        Ok(program) => program,
        Err(e) => return (Err(error::LingerError::ParseError(e)), String::new()),
    };
    interpreter::interp_program(program, limits)
}

} // verus!
