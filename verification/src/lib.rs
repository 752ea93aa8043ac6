//! A compiler for a small C-like language: integer literals, identifiers,
//! arithmetic, comparisons, assignment, blocks, `if`/`else` and `return`.
//! Source text is lexed into tokens, parsed into an abstract syntax tree
//! with a table of local variables, and lowered into textual assembly for
//! a stack-oriented target machine. Identical source text always yields
//! byte-identical assembly: every stage is pinned to a specification
//! function of the input alone.

use vstd::prelude::*;

pub mod codegen;
pub mod node;
pub mod parser;
pub mod token;
pub mod tokenizer;

use crate::codegen::{spec_codegen, spec_render, Generator};
use crate::node::{check_lvalues, lvalues_ok, num_ifs, Program, ProgramV};
use crate::parser::{spec_parse, ParseError, ParseErrorKindV, Parser};
use crate::tokenizer::{spec_tokenize, LexError, LexErrorKind, Tokenizer};

verus! {

/// Why compilation failed: at lexing, at parsing, or because an
/// assignment target is not an lvalue — the one structural fault the
/// grammar admits.
#[derive(Debug, Clone, PartialEq)]
pub enum CompileError {
    Lex(LexError),
    Parse(ParseError),
    NotAnLvalue,
}

/// The mathematical value of a compilation failure.
pub enum CompileErrV {
    Lex(int, LexErrorKind),
    Parse(int, ParseErrorKindV),
    NotAnLvalue,
}

/// The whole pipeline at specification level: text to tokens, tokens to
/// tree and locals, tree to assembly text — or the first failure.
pub open spec fn spec_compile(s: Seq<char>) -> Result<Seq<char>, CompileErrV> {
    match spec_tokenize(s) {
        Err((p, k)) => Err(CompileErrV::Lex(p, k)),
        Ok(toks) => match spec_parse(toks) {
            Err((p, k)) => Err(CompileErrV::Parse(p, k)),
            Ok((body, locals)) => if !lvalues_ok(body) {
                Err(CompileErrV::NotAnLvalue)
            } else {
                Ok(spec_render(spec_codegen(ProgramV { body, locals })))
            },
        },
    }
}

/// Compiles source text into assembly text for the target machine, or
/// reports the first failure. The result is exactly
/// [`spec_compile`] of the input's characters, so it depends on the
/// source text alone.
pub fn compile(input: &str) -> (r: Result<String, CompileError>)
    ensures
        match r {
            Ok(text) => spec_compile(input@) == Ok::<Seq<char>, CompileErrV>(text@),
            Err(e) => match e {
                CompileError::Lex(le) => spec_compile(input@) == Err::<Seq<char>, CompileErrV>(
                    CompileErrV::Lex(le.pos as int, le.kind),
                ),
                CompileError::Parse(pe) => spec_compile(input@) == Err::<
                    Seq<char>,
                    CompileErrV,
                >(CompileErrV::Parse(pe.pos as int, pe.kind@)),
                CompileError::NotAnLvalue => spec_compile(input@) == Err::<
                    Seq<char>,
                    CompileErrV,
                >(CompileErrV::NotAnLvalue),
            },
        },
{
    let mut tokenizer = Tokenizer::new(input);
    let tokens = match tokenizer.tokenize() {
        Ok(t) => t,
        Err(e) => return Err(CompileError::Lex(e)),
    };
    let ntoks = tokens.len();
    let mut parser = Parser::new(tokens);
    let (body, locals) = match parser.parse() {
        Ok(p) => p,
        Err(e) => return Err(CompileError::Parse(e)),
    };
    if !check_lvalues(&body) {
        return Err(CompileError::NotAnLvalue);
    }
    let function = Program { body, locals };
    proof {
        assert(num_ifs(function@.body) <= ntoks <= u64::MAX);
    }
    let mut generator = Generator::new();
    Ok(generator.codegen(&function))
}

/// Compiling the same source text twice, in separate invocations,
/// produces byte-identical assembly: the outcome is a function of the
/// characters of the source alone.
pub proof fn lemma_compile_deterministic(s1: Seq<char>, s2: Seq<char>)
    requires
        s1 == s2,
    ensures
        spec_compile(s1) == spec_compile(s2),
{
}

} // verus!
