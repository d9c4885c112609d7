//! The settings of the interactive read-lex loop.
use vstd::prelude::*;

verus! {

/// Which stages' output the interactive loop shows.
pub struct Repl {
    pub lex_output: bool,
    pub ast_output: bool,
    pub ir_output: bool,
    pub bytecode_text_output: bool,
    pub execution: bool,
}

impl Repl {
    pub fn new(
        lex_output: bool,
        ast_output: bool,
        ir_output: bool,
        bytecode_text_output: bool,
        execution: bool,
    ) -> (r: Self)
        ensures
            r.lex_output == lex_output,
            r.ast_output == ast_output,
            r.ir_output == ir_output,
            r.bytecode_text_output == bytecode_text_output,
            r.execution == execution,
    {
        Repl { lex_output, ast_output, ir_output, bytecode_text_output, execution }
    }
}

} // verus!
