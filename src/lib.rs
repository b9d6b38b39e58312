//! A compiler for a small line-oriented query language over tables:
//! a tokenizer, a recursive-descent parser producing an [`ast::Query`],
//! and an evaluator that runs the query against an in-memory [`table::Table`].
use vstd::prelude::*;

pub mod ast;
pub mod lexer;
pub mod errors;
pub mod parser;
pub mod table;
pub mod engine;
pub mod cli;
pub mod laws;
pub mod render;
pub mod agree;

use crate::ast::Query;
use crate::engine::{execute_query, query_outcome, EngineError};
use crate::errors::QueryError;
use crate::lexer::{lex, tokenize, views, Token};
use crate::parser::{parse, parse_spec};
use crate::table::Table;

verus! {

/// What a run of the pipeline produced: the tokens, the query, and the
/// result table when a table was given.
pub struct PipelineResult {
    pub tokens: Vec<Token>,
    pub ast: Query,
    pub output: Option<Table>,
}

/// `e` is how running the text `input` (on `table`, if given) fails: its
/// tokens do not parse and `e` is that parse error, kind and message; or
/// they parse and the query fails on the table.
pub open spec fn pipeline_failure(input: Seq<char>, table: Option<Table>, e: QueryError) -> bool {
    exists|toks: Seq<Token>|
        #![trigger views(toks)]
        views(toks) == lex(input) && match parse_spec(toks) {
            Err(f) => e.error_view() == f,
            Ok(q) => match table {
                None => false,
                Some(t) => exists|x: EngineError|
                    query_outcome(q, t@, Err(x)) && e.kind() == crate::errors::ErrorKind::Unexpected
                        && e.message_view() == x.message_view(),
            },
        }
}

/// `r` is an outcome of running the text `input` (on `table`, if given):
/// the tokens of the text, the query they parse to and, with a table, the
/// result of the query on it; or a failure as [`pipeline_failure`] says.
pub open spec fn pipeline_outcome(
    input: Seq<char>,
    table: Option<Table>,
    r: Result<PipelineResult, QueryError>,
) -> bool {
    match r {
        Ok(p) => {
            &&& views(p.tokens@) == lex(input)
            &&& parse_spec(p.tokens@) == Ok::<_, crate::errors::ParseError>(p.ast@)
            &&& match table {
                None => p.output is None,
                Some(t) => p.output matches Some(o) && query_outcome(p.ast@, t@, Ok(o@)),
            }
        },
        Err(e) => pipeline_failure(input, table, e),
    }
}

/// Runs the whole pipeline on the query text `input`: tokenizes it, parses
/// the tokens and, when `table` is given (the table that the query's source
/// names), evaluates the query on it. An evaluation error is reported as an
/// unexpected-error with the engine's message.
pub fn run_pipeline(input: &str, table: Option<Table>) -> (r: Result<PipelineResult, QueryError>)
    requires
        table matches Some(t) ==> t@.wf(),
    ensures
        pipeline_outcome(input@, table, r),
{
    let tokens = tokenize(input);
    let ast = match parse(&tokens) {
        Ok(q) => q,
        Err(e) => {
            assert(views(tokens@) == lex(input@));
            return Err(e);
        },
    };
    let ghost gtable = table;
    let output = match table {
        None => None,
        Some(t) => match execute_query(&ast, t) {
            Ok(o) => Some(o),
            Err(x) => {
                let e = QueryError::Unexpected(x.message());
                assert(query_outcome(ast@, gtable->Some_0@, Err(x)));
                assert(views(tokens@) == lex(input@));
                return Err(e);
            },
        },
    };
    Ok(PipelineResult { tokens, ast, output })
}

} // verus!
