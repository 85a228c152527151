//! A verified compiler for a small assignment-expression language.
//!
//! Source text made of `name = expression ;` statements (integer literals,
//! identifiers, `+ - * /`, parentheses) is tokenized, parsed into an
//! abstract syntax tree, lowered to a linear instruction sequence by a
//! register-allocating code generator with a persistent symbol table, and
//! finally rendered as assembly text.

pub mod ast;
pub mod codegen;
pub mod emitter;
pub mod locations;
pub mod symbols;
pub mod parser;
pub mod tokenizer;

use vstd::prelude::*;

use crate::ast::CompileError;

verus! {

/// What compiling a whole character stream yields: the assembly text, or
/// the first error of the first stage that fails — tokenizing, parsing, or
/// code generation.
pub open spec fn spec_compile(s: Seq<char>) -> Result<Seq<char>, CompileError> {
    match crate::tokenizer::spec_tokenize(s) {
        Err(e) => Err(e),
        Ok(toks) => match crate::parser::spec_parse_program(toks, 0) {
            Err(e) => Err(e),
            Ok(stmts) => match crate::codegen::spec_generate(stmts) {
                Err(e) => Err(e),
                Ok(instrs) => Ok(crate::emitter::spec_program_gas(instrs)),
            },
        },
    }
}

/// Run the whole pipeline on a character stream: tokenize, parse, generate,
/// and render. Any stage's failure aborts the stages after it, and nothing
/// of the output text is produced.
pub fn compile(src: &Vec<char>) -> (r: Result<String, CompileError>)
    ensures
        match r {
            Ok(text) => spec_compile(src@) == Ok::<Seq<char>, CompileError>(text@),
            Err(e) => spec_compile(src@) == Err::<Seq<char>, CompileError>(e),
        },
{
    let tokens = match crate::tokenizer::tokenize(src) {
        Ok(ts) => ts,
        Err(e) => {
            return Err(e);
        },
    };
    let statements = match crate::parser::parse(&tokens) {
        Ok(ss) => ss,
        Err(e) => {
            return Err(e);
        },
    };
    let instructions = match crate::codegen::generate(&statements) {
        Ok(instrs) => instrs,
        Err(e) => {
            return Err(e);
        },
    };
    proof {
        crate::codegen::lemma_generated_renderable(
            crate::ast::statements_view(statements@),
        );
    }
    Ok(crate::emitter::program_to_gas(&instructions))
}

} // verus!
