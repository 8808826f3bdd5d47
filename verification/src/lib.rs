use vstd::prelude::*;

pub mod ast;
pub mod codegen;
pub mod error;
pub mod lexer;
pub mod parser;
pub mod value;

verus! {

use crate::ast::Stmt;
use crate::codegen::{program_ok, program_text, CCodeGenerator};
use crate::error::TranslateError;
use crate::lexer::{
    clone_tokens, spec_lex, tokens_model, tokens_wf, LexOutcome, Lexer, Token,
};
use crate::parser::{sp_parse, stmt_model, Parser};

/// Scans source text into exactly the token sequence the scanning rules
/// produce: well formed, every span inside the input, ending in a single
/// end-of-stream sentinel whose empty span sits at the final scanned
/// position. Fails exactly when the scan does, with the same failure.
pub fn lex(input: &str) -> (r: Result<Vec<Token>, TranslateError>)
    ensures
        r matches Ok(ts) ==> {
            &&& tokens_wf(ts@)
            &&& forall|i: int| 0 <= i < ts@.len() ==> (#[trigger] ts@[i]).end <= input@.len()
            &&& ts@.last().start == input@.len()
            &&& ts@.last().end == input@.len()
            &&& spec_lex(input@) == LexOutcome::Toks(tokens_model(ts@))
        },
        r matches Err(e) ==> e is Lex && (e matches TranslateError::Lex { kind, .. } && spec_lex(
            input@,
        ) == LexOutcome::Fail(kind)),
{
    let mut lexer = Lexer::new(input.to_owned());
    match lexer.lex() {
        Ok(()) => Ok(lexer.tokens),
        Err(e) => Err(e),
    }
}

/// Parses a well-formed token sequence into exactly the tree the grammar
/// assigns it: on success, always a single root block holding the
/// top-level statements in source order, and success comes exactly when
/// the spec-level parse does.
pub fn parse_tokens(tokens: &Vec<Token>) -> (r: Result<Stmt, TranslateError>)
    requires
        tokens_wf(tokens@),
    ensures
        r matches Ok(root) ==> root is Block,
        r matches Ok(root) ==> (sp_parse(tokens@) matches Some(m) && stmt_model(root) == m),
        r is Err ==> sp_parse(tokens@) is None,
        r matches Err(e) ==> e is Parse,
{
    let mut parser = Parser::new(clone_tokens(tokens));
    parser.parse()
}

/// Lowers a root block to C source text. The output is exactly the
/// rendering of the tree's chunks; generation fails, with the distinct
/// unsupported-construct signal and no output at all, exactly when the
/// tree reaches a constructor expression.
pub fn generate_c_code(stmt: Stmt) -> (r: Result<String, TranslateError>)
    requires
        stmt is Block,
    ensures
        r matches Ok(t) ==> program_ok(stmt) && t@ == program_text(stmt),
        r matches Err(e) ==> !program_ok(stmt) && e == TranslateError::UnsupportedFeature,
{
    let mut generator = CCodeGenerator::new(stmt);
    generator.generate()
}

/// The whole pipeline: lexical analysis, parsing, code generation, each
/// stage feeding the next and failing fast with a structured error. Every
/// successful output is the exact rendering of some lowerable root block,
/// so by `lemma_generated_scopes_well_nested` its allocation-scope
/// markers are always well nested.
pub fn translate(input: &str) -> (r: Result<String, TranslateError>)
    ensures
        r matches Ok(t) ==> exists|ts: Seq<Token>, root: Stmt|
            {
                &&& spec_lex(input@) == LexOutcome::Toks(tokens_model(ts))
                &&& (#[trigger] sp_parse(ts)) matches Some(m)
                &&& stmt_model(root) == m
                &&& root is Block
                &&& #[trigger] program_ok(root)
                &&& t@ == program_text(root)
            },
        r matches Err(e) ==> (e matches TranslateError::Lex { kind, .. } ==> spec_lex(input@)
            == LexOutcome::Fail(kind)),
        spec_lex(input@) matches LexOutcome::Fail(k) ==> (r matches Err(e) && e
            matches TranslateError::Lex { kind, .. } && kind == k),
        r matches Err(e) ==> (e is Parse ==> exists|ts: Seq<Token>|
            spec_lex(input@) == LexOutcome::Toks(tokens_model(ts)) && (#[trigger] sp_parse(ts))
                is None),
        r matches Err(e) ==> (e == TranslateError::UnsupportedFeature ==> exists|ts: Seq<Token>|
            spec_lex(input@) == LexOutcome::Toks(tokens_model(ts)) && (#[trigger] sp_parse(ts))
                is Some),
{
    let tokens = match lex(input) {
        Ok(ts) => ts,
        Err(e) => {
            return Err(e);
        },
    };
    let ghost gts = tokens@;
    let root = match parse_tokens(&tokens) {
        Ok(root) => root,
        Err(e) => {
            proof {
                assert(spec_lex(input@) == LexOutcome::Toks(tokens_model(gts)) && sp_parse(
                    gts,
                ) is None);
            }
            return Err(e);
        },
    };
    let ghost groot = root;
    match generate_c_code(root) {
        Ok(t) => {
            proof {
                assert(spec_lex(input@) == LexOutcome::Toks(tokens_model(gts)) && (sp_parse(
                    gts,
                ) matches Some(m) && stmt_model(groot) == m) && groot is Block && program_ok(
                    groot,
                ) && t@ == program_text(groot));
            }
            Ok(t)
        },
        Err(e) => {
            proof {
                assert(spec_lex(input@) == LexOutcome::Toks(tokens_model(gts)) && sp_parse(
                    gts,
                ) is Some);
            }
            Err(e)
        },
    }
}

} // verus!
