//! JCLang: a small scripting language compiled into JustMC module JSON.
//!
//! The library holds the compiler's logic: the lexer, the parser, the code
//! generator and the JSON document it produces. Reading files, printing
//! diagnostics and uploading modules belong to the program around it.
use vstd::prelude::*;

pub mod text;
pub mod lexer;
pub mod ast;
pub mod parser;
pub mod json;
pub mod actions;
pub mod codegen;
pub mod source;
pub mod compiler;
pub mod laws;
pub mod laws_codegen;

verus! {

} // verus!
