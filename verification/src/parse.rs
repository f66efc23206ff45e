pub mod ast;
pub mod error;
pub mod parser;
pub mod scanner;
pub mod token;

use vstd::prelude::*;

verus! {

use crate::parse::ast::{Command, CommandV};
use crate::parse::error::{spec_lex_message, spec_parse_message};
use crate::parse::parser::{spec_parse, Parser};
use crate::parse::scanner::{spec_tokens, Scanner};

/// What running the lexer and parser on raw SQL bytes yields: the
/// statement, or the diagnostic text of the first failure.
pub open spec fn spec_sql(s: Seq<u8>) -> Result<CommandV, Seq<u8>> {
    match spec_tokens(s) {
        Err(e) => Err(spec_lex_message(e)),
        Ok(ts) => match spec_parse(ts) {
            Err(e) => Err(spec_parse_message(e)),
            Ok(cmd) => Ok(cmd),
        },
    }
}

/// Lexes and parses one SQL statement.
pub fn parse(stream: Vec<u8>) -> (r: Result<Command, Vec<u8>>)
    ensures
        match r {
            Ok(cmd) => spec_sql(stream@) == Ok::<CommandV, Seq<u8>>(cmd@) && cmd@.wf(),
            Err(msg) => spec_sql(stream@) == Err::<CommandV, Seq<u8>>(msg@),
        },
{
    let tokens = match Scanner::scan(stream) {
        Ok(ts) => ts,
        Err(e) => {
            return Err(e.message());
        },
    };
    let mut parser = Parser::new(tokens);
    match parser.parse() {
        Ok(cmd) => Ok(cmd),
        Err(e) => Err(e.message()),
    }
}

} // verus!
