//! The whole compiler: source text to a machine loaded with the program.
use vstd::prelude::*;
use crate::assembly::{Assembler, InstView, assembled, labels_resolve, offset_before};
use crate::ast::{FunctionAst, FunctionView, functions_view};
use crate::codegen::{
    CompilerComposer, count_program_literals, main_index, program_code, program_literals,
    program_pools, pool_view,
};
use crate::decimals::{decimals_known, resolve_decimals, resolved};
use crate::strmap::StrMap;
use crate::ctrlflow::{check_for_returns, return_errors};
use crate::errors::{CompileError, CompileErrorView, ErrorType, ErrorTypeView, errors_view};
use crate::lexer::{LexAll, LexEngine, initial_state, lex_all_spec, lex_ok, tokens_view};
use crate::parser::{PErr, PState, ParsingMachine, p_all};
use crate::text::string_from;
use crate::typecheck::{TypeChecker, meets_unbound, type_errors};
use crate::vm::VM;

verus! {

/// What compiling a source text gives.
pub enum Compiled {
    /// The constant pool, the string pool and the byte code.
    Program { consts: Seq<u8>, pool: Seq<Seq<char>>, bytecode: Seq<u8> },
    /// The errors that stop compilation, in order.
    Errors(Seq<CompileErrorView>),
    /// A limit was hit where compilation has no answer: an integer literal
    /// beyond 32 bits, a decimal literal with no bits given, a position
    /// beyond 32 bits, a name used without a
    /// declaration, more literals than the pools can index, or code that
    /// the generator or the assembler cannot place.
    Stuck,
}

/// A parsing error as a compile error.
pub open spec fn perr_view(e: PErr) -> CompileErrorView {
    CompileErrorView { e_type: ErrorTypeView::ParsingError(e.0), line: e.1.line, col: e.1.col }
}

/// The error for a program without a `main` function.
pub open spec fn no_main_error() -> CompileErrorView {
    CompileErrorView {
        e_type: ErrorTypeView::ParsingError("No main func bro"@),
        line: 0,
        col: 0,
    }
}

/// Compiling parsed functions: the return-path check, then the type check
/// with the check for `main`, then code generation and assembly.
pub open spec fn compile_functions(fns: Seq<FunctionView>) -> Compiled {
    if return_errors(fns).len() > 0 {
        Compiled::Errors(return_errors(fns))
    } else if meets_unbound(fns) {
        Compiled::Stuck
    } else {
        let errs = type_errors(fns) + if main_index(fns, 0) is Some {
            Seq::empty()
        } else {
            seq![no_main_error()]
        };
        if errs.len() > 0 {
            Compiled::Errors(errs)
        } else if program_literals(fns).len() >= u16::MAX {
            Compiled::Stuck
        } else {
            let pools = program_pools(fns);
            match program_code(pools.0, pools.1, fns) {
                None => Compiled::Stuck,
                Some(code) => if labels_resolve(code) && offset_before(code, code.len() as int)
                    <= u32::MAX {
                    Compiled::Program {
                        consts: pools.0,
                        pool: pools.1,
                        bytecode: assembled(code),
                    }
                } else {
                    Compiled::Stuck
                },
            }
        }
    }
}

/// Compiling a source text: lexing, then giving each decimal literal the
/// bits that `dv` holds for its text, then parsing, then the rest.
pub open spec fn compile_source(text: Seq<char>, dv: Map<Seq<char>, u64>) -> Compiled {
    let s0 = initial_state(text);
    if !lex_ok(s0) {
        Compiled::Stuck
    } else {
        match lex_all_spec(s0) {
            LexAll::Overflow => Compiled::Stuck,
            LexAll::Fail(l, c) => Compiled::Errors(
                seq![CompileErrorView { e_type: ErrorTypeView::LexingError, line: l, col: c }],
            ),
            LexAll::Tokens(ts0) => if ts0.len() == 0 || !decimals_known(ts0, dv) {
                Compiled::Stuck
            } else {
                let ts = resolved(ts0, dv);
                match p_all(PState { cur: ts[0].0, loc: ts[0].1, rest: ts.drop_first() }) {
                    Err(e) => Compiled::Errors(seq![perr_view(e)]),
                    Ok(fns) => compile_functions(fns),
                }
            },
        }
    }
}

fn single_error(e: CompileError) -> (r: Vec<CompileError>)
    ensures
        errors_view(r@) == seq![e@],
{
    let mut v: Vec<CompileError> = Vec::new();
    v.push(e);
    proof {
        assert(errors_view(v@) =~= seq![e@]);
    }
    v
}

/// Compiles the source text and loads the program into a machine at its
/// start with an empty stack, ready to run with
/// [`VM::execute_order_66`]. `decimals` gives the bits of each decimal
/// literal by its text (see [`crate::decimals::decimal_texts`]). The errors
/// that stop compilation come back in order; `None` where compilation is
/// stuck (see [`Compiled::Stuck`]).
pub fn run_code(code: String, decimals: &StrMap<u64>) -> (r: Option<Result<VM, Vec<CompileError>>>)
    ensures
        match compile_source(code@, decimals.view()) {
            Compiled::Stuck => r is None,
            Compiled::Errors(es) => r matches Some(Err(v)) && errors_view(v@) == es,
            Compiled::Program { consts, pool, bytecode } => r matches Some(Ok(vm)) && vm.consts_view()
                == consts && vm.pool_view() == pool && vm.inst_view() == bytecode && vm.ip_view()
                == 0 && vm.stack_view() == Seq::<u8>::empty(),
        },
{
    let lexer = LexEngine::new(code);
    if !lexer.within_limits() {
        return None;
    }
    let toks = match lexer.lex_all() {
        None => {
            return None;
        },
        Some(Err(e)) => {
            return Some(Err(single_error(e)));
        },
        Some(Ok(t)) => t,
    };
    let ghost ts = tokens_view(toks@);
    proof {
        assert(ts == match lex_all_spec(initial_state(code@)) {
            LexAll::Tokens(x) => x,
            _ => ts,
        });
    }
    if toks.len() == 0 {
        return None;
    }
    let toks = match resolve_decimals(&toks, decimals) {
        None => {
            return None;
        },
        Some(t) => t,
    };
    let parser = ParsingMachine::new(toks);
    let ast = match parser.parse_all() {
        Err(e) => {
            return Some(Err(single_error(e)));
        },
        Ok(a) => a,
    };
    let ghost fv = functions_view(ast@);
    match check_for_returns(&ast) {
        Ok(()) => {},
        Err(e) => {
            return Some(Err(e));
        },
    }
    let checker = TypeChecker::new(&ast);
    let mut errvec = match checker.try_check_all() {
        None => {
            return None;
        },
        Some(Ok(())) => Vec::new(),
        Some(Err(e)) => e,
    };
    let main_name = string_from("main");
    let mut has_main = false;
    let mut i: usize = 0;
    while i < ast.len()
        invariant_except_break
            i <= ast@.len(),
            !has_main,
            main_index(fv, 0) == main_index(fv, i as int),
        invariant
            fv == functions_view(ast@),
            main_name@ == "main"@,
        ensures
            has_main == main_index(fv, 0) is Some,
        decreases ast@.len() - i,
    {
        proof {
            assert(fv[i as int].name == ast@[i as int].name@);
        }
        if ast[i].name.eq(&main_name) {
            has_main = true;
            break;
        }
        i = i + 1;
    }
    let ghost terrs = errors_view(errvec@);
    if !has_main {
        errvec.push(CompileError::new(ErrorType::ParsingError(string_from("No main func bro")), 0, 0));
        proof {
            assert(errors_view(errvec@) =~= terrs.push(no_main_error()));
        }
    }
    proof {
        if has_main {
            assert(terrs + Seq::<CompileErrorView>::empty() =~= terrs);
        } else {
            assert(terrs + seq![no_main_error()] =~= terrs.push(no_main_error()));
        }
    }
    if errvec.len() > 0 {
        return Some(Err(errvec));
    }
    if count_program_literals(&ast, 65535) >= 65535 {
        return None;
    }
    let composer = CompilerComposer::new(ast);
    let instructions = match composer.parallel_compile() {
        None => {
            return None;
        },
        Some(v) => v,
    };
    let (pool, consts) = composer.extract_pool_and_consts();
    let assembler = Assembler::new(consts, pool, instructions);
    match assembler.assemble_checked() {
        None => None,
        Some((consts, pool, bc)) => Some(Ok(VM::new(pool, consts, bc))),
    }
}

} // verus!
