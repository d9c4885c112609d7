//! The return-path check: every function must return on every path.
use vstd::prelude::*;
use crate::ast::{
    FunctionAst, Statement, StatementView, function_view, functions_view, statement_view,
    statements_view, lemma_statements_view_index, lemma_statements_view_len,
};
use crate::errors::{CompileError, CompileErrorView, ErrorType, ErrorTypeView, errors_view};
use crate::text::string_from;

verus! {

/// A statement that returns on every path through it: a `return`, or an
/// `if` whose two branches both always return. A `while` loop may run zero
/// times, so it never counts.
pub open spec fn guaranteed(st: StatementView) -> bool
    decreases st,
{
    match st {
        StatementView::Return { .. } => true,
        StatementView::If { tcode, ecode, .. } => always_returns(tcode) && always_returns(ecode),
        _ => false,
    }
}

/// A block returns on every path when one of its statements does.
pub open spec fn always_returns(code: Seq<StatementView>) -> bool
    decreases code,
{
    code.len() > 0 && (guaranteed(code[0]) || always_returns(code.subrange(1, code.len() as int)))
}

/// The flow through a block's basic blocks: `acc` says whether every path
/// into the current basic block has returned, `cur` whether the current
/// basic block holds a `return`. A branch or loop closes the current basic
/// block; an `if` continues from its two branches, a `while` from the block
/// before it and from its body.
pub open spec fn flows(code: Seq<StatementView>, acc: bool, cur: bool) -> bool
    decreases code,
{
    if code.len() == 0 {
        cur || acc
    } else {
        let rest = code.subrange(1, code.len() as int);
        match code[0] {
            StatementView::If { tcode, ecode, .. } => {
                let b = cur || acc;
                flows(rest, flows(tcode, b, false) && flows(ecode, b, false), false)
            },
            StatementView::While { code: w, .. } => {
                let b = cur || acc;
                flows(rest, b && flows(w, b, false), false)
            },
            StatementView::Return { .. } => flows(rest, acc, true),
            _ => flows(rest, acc, cur),
        }
    }
}

/// The basic-block flow of a block returns exactly when its entry had
/// returned already or the block always returns.
pub proof fn lemma_flows(code: Seq<StatementView>, acc: bool, cur: bool)
    ensures
        flows(code, acc, cur) == (acc || cur || always_returns(code)),
    decreases code,
{
    if code.len() > 0 {
        let rest = code.subrange(1, code.len() as int);
        assert(always_returns(code) == (guaranteed(code[0]) || always_returns(rest)));
        match code[0] {
            StatementView::If { tcode, ecode, .. } => {
                let b = cur || acc;
                assert(guaranteed(code[0]) == (always_returns(tcode) && always_returns(ecode)));
                lemma_flows(tcode, b, false);
                lemma_flows(ecode, b, false);
                lemma_flows(rest, flows(tcode, b, false) && flows(ecode, b, false), false);
            },
            StatementView::While { code: w, .. } => {
                let b = cur || acc;
                lemma_flows(w, b, false);
                lemma_flows(rest, b && flows(w, b, false), false);
            },
            StatementView::Return { .. } => {
                lemma_flows(rest, acc, true);
            },
            _ => {
                lemma_flows(rest, acc, cur);
            },
        }
    }
}

/// A block always returns exactly when one of its statements returns on
/// every path.
pub proof fn lemma_always_returns_exists(code: Seq<StatementView>)
    ensures
        always_returns(code) <==> exists|i: int| 0 <= i < code.len() && #[trigger] guaranteed(
            code[i],
        ),
    decreases code.len(),
{
    if code.len() > 0 {
        let rest = code.subrange(1, code.len() as int);
        assert(always_returns(code) == (guaranteed(code[0]) || always_returns(rest)));
        lemma_always_returns_exists(rest);
        if always_returns(rest) {
            let i = choose|i: int| 0 <= i < rest.len() && #[trigger] guaranteed(rest[i]);
            assert(code[i + 1] == rest[i]);
        }
        if exists|i: int| 0 <= i < code.len() && #[trigger] guaranteed(code[i]) {
            let i = choose|i: int| 0 <= i < code.len() && #[trigger] guaranteed(code[i]);
            if i > 0 {
                assert(rest[i - 1] == code[i]);
            }
        }
    }
}

/// The message for a function that might not return.
pub open spec fn no_return_message(name: Seq<char>) -> Seq<char> {
    "The function '"@ + name + "' might not return"@
}

/// The errors for the functions that might not return, in order.
pub open spec fn return_errors(fs: Seq<crate::ast::FunctionView>) -> Seq<CompileErrorView>
    decreases fs.len(),
{
    if fs.len() == 0 {
        Seq::empty()
    } else {
        let prev = return_errors(fs.drop_last());
        let f = fs.last();
        if always_returns(f.code) {
            prev
        } else {
            prev.push(
                CompileErrorView {
                    e_type: ErrorTypeView::ControlFlowError(no_return_message(f.name)),
                    line: f.loc.line,
                    col: f.loc.col,
                },
            )
        }
    }
}

/// Computes [`flows`] over a block.
fn check_flow(code: &Vec<Statement>, acc_in: bool, cur_in: bool) -> (r: bool)
    ensures
        r == flows(statements_view(code@), acc_in, cur_in),
    decreases code@,
{
    let ghost v = statements_view(code@);
    proof {
        lemma_statements_view_len(code@);
        assert(v.subrange(0, v.len() as int) =~= v);
    }
    let mut acc = acc_in;
    let mut cur = cur_in;
    let mut i: usize = 0;
    while i < code.len()
        invariant
            i <= code@.len(),
            v == statements_view(code@),
            v.len() == code@.len(),
            flows(v.subrange(i as int, v.len() as int), acc, cur) == flows(v, acc_in, cur_in),
        decreases code@.len() - i,
    {
        proof {
            lemma_statements_view_index(code@, i as int);
            assert(v.subrange(i as int, v.len() as int)[0] == statement_view(code@[i as int]));
            assert(v.subrange(i as int, v.len() as int).subrange(1, v.len() - i) =~= v.subrange(
                i + 1,
                v.len() as int,
            ));
        }
        match &code[i] {
            Statement::If(ifb) => {
                let b = cur || acc;
                let t = check_flow(&ifb.tcode, b, false);
                let e = check_flow(&ifb.ecode, b, false);
                acc = t && e;
                cur = false;
            },
            Statement::While(w) => {
                let b = cur || acc;
                let body = check_flow(&w.code, b, false);
                acc = b && body;
                cur = false;
            },
            Statement::Return(_) => {
                cur = true;
            },
            _ => {},
        }
        i = i + 1;
    }
    proof {
        assert(v.subrange(i as int, v.len() as int) =~= Seq::<StatementView>::empty());
    }
    cur || acc
}

/// Reports, in order, each function that might not return: a control-flow
/// error "The function 'name' might not return" at the function's location.
pub fn check_for_returns(ast: &Vec<FunctionAst>) -> (r: Result<(), Vec<CompileError>>)
    ensures
        return_errors(functions_view(ast@)).len() == 0 ==> r is Ok,
        return_errors(functions_view(ast@)).len() > 0 ==> (r matches Err(v) && errors_view(v@)
            == return_errors(functions_view(ast@))),
{
    let mut errvec: Vec<CompileError> = Vec::new();
    let mut k: usize = 0;
    while k < ast.len()
        invariant
            k <= ast@.len(),
            errors_view(errvec@) == return_errors(functions_view(ast@.take(k as int))),
        decreases ast@.len() - k,
    {
        let func = &ast[k];
        let correct = check_flow(&func.code, false, false);
        proof {
            lemma_flows(statements_view(func.code@), false, false);
            assert(functions_view(ast@.take(k + 1)).drop_last() =~= functions_view(
                ast@.take(k as int),
            ));
            assert(functions_view(ast@.take(k + 1)).last() == function_view(ast@[k as int]));
        }
        if !correct {
            let mut msg = string_from("The function '");
            msg.append(func.name.as_str());
            msg.append("' might not return");
            let ghost prev = errvec@;
            errvec.push(
                CompileError {
                    e_type: ErrorType::ControlFlowError(msg),
                    line: func.loc.line,
                    col: func.loc.col,
                },
            );
            proof {
                assert(errors_view(errvec@) =~= errors_view(prev).push(errvec@.last()@));
            }
        }
        k = k + 1;
    }
    proof {
        assert(ast@.take(ast@.len() as int) =~= ast@);
    }
    if errvec.len() == 0 {
        Ok(())
    } else {
        Err(errvec)
    }
}

} // verus!
