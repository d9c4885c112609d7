//! Prism: a small teaching language with a lexer, a recursive-descent parser,
//! a return-path check, a type checker, a code generator, an assembler and a
//! byte-code virtual machine.
use vstd::prelude::*;

pub mod tokens;
pub mod errors;
pub mod ast;
pub mod lexer;
pub mod parser;
pub mod ctrlflow;
pub mod bytes;
pub mod wrapped_val;
pub mod vm;
pub mod assembly;
pub mod text;
pub mod strmap;
pub mod typecheck;
pub mod codegen;
pub mod run;
pub mod assembler;
pub mod array;
pub mod repl;
pub mod tester;
pub mod blockdata;
pub mod layout;
pub mod checked;
pub mod decimals;

verus! {

} // verus!
