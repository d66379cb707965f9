use vstd::prelude::*;

pub mod codegen;
pub mod error;
pub mod laws;
pub mod lexer;
pub mod parser;
pub mod text;

use crate::codegen::{CodeGen, MAX_PROGRAM_NODES, initial_state, join_lines, program_lines, program_nodes};
use crate::error::CompileError;
use crate::lexer::{Lexer, LexFailure, failure_view, lex};
use crate::parser::{Parser, ParseFailure, block_size, parse_failure_view, parse_program_spec};

verus! {

/// A compilation failure as plain values.
pub enum Failure {
    Lex(LexFailure),
    Parse(ParseFailure),
}

pub open spec fn error_view(e: CompileError) -> Failure {
    match e {
        CompileError::LexError { .. } => Failure::Lex(failure_view(e)),
        CompileError::ParseError { .. } => Failure::Parse(parse_failure_view(e)),
    }
}

pub open spec fn too_large() -> ParseFailure {
    ParseFailure { msg: "Program too large"@, span: None }
}

/// The result of compiling a source text: its tokens are parsed and type-checked
/// from an empty variable table, and the statements lowered by a fresh generator.
/// A program of more than `MAX_PROGRAM_NODES` nodes is refused.
pub open spec fn compile_spec(src: Seq<char>) -> Result<Seq<char>, Failure> {
    match lex(src) {
        Err(f) => Err(Failure::Lex(f)),
        Ok(ts) => match parse_program_spec(ts, 0, Map::empty()) {
            Err(f) => Err(Failure::Parse(f)),
            Ok((ss, tys)) => if block_size(ss, 0) > MAX_PROGRAM_NODES {
                Err(Failure::Parse(too_large()))
            } else {
                Ok(join_lines(program_lines(initial_state(), ss)))
            },
        },
    }
}

/// Compiles a source text to assembly text, or gives the first failure.
pub fn compile(src: &str) -> (r: Result<String, CompileError>)
    requires
        src@.len() < usize::MAX,
    ensures
        match compile_spec(src@) {
            Ok(text) => r is Ok && r->Ok_0@ == text,
            Err(f) => r is Err && error_view(r->Err_0) == f,
        },
{
    let mut lexer = Lexer::new(src);
    let tokens = match lexer.tokenize() {
        Ok(ts) => ts,
        Err(e) => {
            return Err(e);
        },
    };
    let mut parser = Parser::new(tokens);
    let (stmts, _types) = match parser.parse() {
        Ok(x) => x,
        Err(e) => {
            return Err(e);
        },
    };
    if program_nodes(&stmts) > MAX_PROGRAM_NODES {
        return Err(CompileError::ParseError { msg: String::from_str("Program too large"), span: None });
    }
    proof {
        crate::codegen::lemma_initial_var_map();
    }
    let mut codegen = CodeGen::new();
    Ok(codegen.generate(&stmts))
}

} // verus!
