//! The whole compilation: source text to module document.
use vstd::prelude::*;

use crate::actions::Action;
use crate::ast::sboxes_view;
use crate::codegen::{Codegen, CodegenError, Warning, initial_state, spec_generate, warnings_view};
use crate::json::JsonValue;
use crate::lexer::{LexError, Token, spec_tokenize, tokenize, tokens_view};
use crate::parser::{ParseError, Parser, spec_program};
use crate::text::copy_string;

verus! {

/// Why a source text does not compile.
#[derive(Debug)]
pub enum CompileError {
    Lex(LexError),
    Parse(ParseError),
    Codegen(CodegenError),
}

/// What compiling a source text gives: the `_WARNTEST` lines the parser met,
/// the warnings of the code generator, and the module document or the error
/// that stopped the compilation.
#[derive(Debug)]
pub struct Compilation {
    pub parse_warnings: Vec<u32>,
    pub warnings: Vec<Warning>,
    pub module: Result<JsonValue, CompileError>,
}

/// `c` is what parsing the tokens `toks` and compiling the statements with
/// the catalogue `actions` give.
pub open spec fn compiled_from(toks: Seq<Token>, actions: Seq<Action>, c: Compilation) -> bool {
    match spec_program(toks) {
        Err((e, w)) => {
            &&& c.parse_warnings@ == w
            &&& c.warnings@.len() == 0
            &&& c.module matches Err(CompileError::Parse(x)) && x == e
        },
        Ok((stmts, st)) => {
            &&& c.parse_warnings@ == st.warnings
            &&& match spec_generate(initial_state(), actions, stmts) {
                Ok((j, g)) => c.module matches Ok(m) && m@ == j && warnings_view(c.warnings@) == g.warnings,
                Err((e, w)) => c.module matches Err(CompileError::Codegen(x)) && x@ == e
                    && warnings_view(c.warnings@) == w,
            }
        },
    }
}

/// Compiles the source text `content` of the file `file` with the catalogue
/// `actions`: splits it into tokens, parses them and generates the module.
pub fn compile(content: &String, file: &String, actions: Vec<Action>) -> (r: Compilation)
    requires
        content@.len() < 0xffff_fff0,
    ensures
        match spec_tokenize(content@) {
            Err(e) => {
                &&& r.module matches Err(CompileError::Lex(x)) && x == e
                &&& r.parse_warnings@.len() == 0
                &&& r.warnings@.len() == 0
            },
            Ok(ts) => exists|toks: Seq<Token>| tokens_view(toks) == ts && compiled_from(toks, actions@, r),
        },
{
    let tokens = match tokenize(copy_string(content)) {
        Ok(v) => v,
        Err(e) => {
            return Compilation {
                parse_warnings: Vec::new(),
                warnings: Vec::new(),
                module: Err(CompileError::Lex(e)),
            };
        },
    };
    let ghost toks = tokens@;
    let mut parser = Parser::new(tokens, content, file);
    let parsed = parser.parse_program();
    let parse_warnings = parser.warnings().clone();
    let stmts = match parsed {
        Ok(v) => v,
        Err(e) => {
            let r = Compilation { parse_warnings, warnings: Vec::new(), module: Err(CompileError::Parse(e)) };
            assert(compiled_from(toks, actions@, r));
            return r;
        },
    };
    let mut codegen = Codegen::new(actions, stmts, content, file);
    let generated = codegen.generate();
    let warnings = codegen.into_warnings();
    let module = match generated {
        Ok(j) => Ok(j),
        Err(e) => Err(CompileError::Codegen(e)),
    };
    let r = Compilation { parse_warnings, warnings, module };
    assert(compiled_from(toks, actions@, r));
    r
}

} // verus!
