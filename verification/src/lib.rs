//! A parser for a JSON-like grammar.
//!
//! The input text is scanned into a flat token sequence
//! ([`tokenizer::Tokenizer`]) and then parsed by recursive descent
//! ([`parser::Parser`]) into a tree of [`value::Value`] nodes.  Both stages
//! are specified against a mathematical model of the grammar:
//! [`parse`] either returns the value tree that [`spec_parse`] assigns to the
//! input's UTF-8 bytes, or the first lexical or grammar violation that the
//! model reports.

use vstd::prelude::*;
use vstd::string::*;

pub mod laws;
pub mod parser;
pub mod tokenizer;
pub mod value;

use parser::parser_state::ParserState;
use parser::{spec_obj, ErrorModel, ParseError, Parser};
use tokenizer::scan_main;
use value::{value_wf, Value, ValueModel};

verus! {

/// What parsing yields for the UTF-8 byte sequence `s`: the value tree of
/// the token sequence that one full scan pass produces, or the first
/// violation found.
pub open spec fn spec_parse(s: Seq<u8>) -> Result<ValueModel, ErrorModel> {
    spec_obj(
        scan_main(s, 0, 1, 0).toks,
        0,
        ParserState::Idle,
        Map::empty(),
        Seq::empty(),
        true,
    ).out
}

/// The sole entry point: converts the complete input text into a value tree,
/// or reports the first lexical or grammar violation.  No partial result is
/// returned on failure, and a returned tree is well-formed: no object in it
/// holds two fields with the same key.
pub fn parse(input: &str) -> (r: Result<Value, ParseError>)
    ensures
        match r {
            Ok(v) => spec_parse(input.spec_bytes()) == Ok::<ValueModel, ErrorModel>(v@)
                && value_wf(v),
            Err(e) => spec_parse(input.spec_bytes()) == Err::<ValueModel, ErrorModel>(e@),
        },
{
    let mut parser = Parser::new();
    parser.read_into_stream(input);
    parser.parse_obj()
}

} // verus!
