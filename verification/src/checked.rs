//! What the checks buy the code generator: a program that passes the type
//! check gets code for every function, as long as its pools and frames stay
//! within the generator's 16-bit counters.
use vstd::prelude::*;
use crate::ast::{ExprView, ExpressionView, FunctionView, Loc, StatementView};
use crate::assembly::{InstView, encode_inst, resolve, labels_resolve, last_label_before, label_target, offset_before};
use crate::codegen::{
    GenEnv, GenState, args_literals, emit, expr_literals, find_const, g_args, g_expr,
    g_func, g_funcs, g_stmt, g_stmts, if_else_label, if_end_label, main_index, param_slots,
    params_size, pop_scope, program_code, program_literals, program_pools, push_scope,
    ret_types, stmt_literals, stmts_literals, swap_removed, while_end_label, while_label,
    law_program_literals_found, lemma_params_size_mono, op_code,
};
use crate::ctrlflow::return_errors;
use crate::errors::CompileErrorView;
use crate::vm::{BinOutcome, ConstRead, FloatAnswer, binop_result, const_at, law_int_binops, law_logic_binops};
use crate::wrapped_val::WrappedVal;
use crate::codegen::{const_entry_size, entry_matches, var_offset};
use crate::run::compile_functions;
use crate::tokens::{LiteralView, Operator, Type, spec_type_size};
use crate::typecheck::{
    Verdict, meets_unbound, param_types, signatures, tc_args, tc_expr, tc_prefix, tc_stmt,
    tc_stmts, type_errors,
};

verus! {

/// The nodes of an expression: each pushes at most one value.
pub open spec fn expr_nodes(e: ExprView) -> nat
    decreases e,
{
    match e {
        ExprView::Var(_) => 1,
        ExprView::Lit(_) => 1,
        ExprView::BinOp(_, a, b) => 1 + expr_nodes(*a) + expr_nodes(*b),
        ExprView::Call(_, args) => 1 + args_nodes(args),
    }
}

pub open spec fn args_nodes(args: Seq<ExpressionView>) -> nat
    decreases args,
{
    if args.len() == 0 {
        0
    } else {
        expr_nodes(args[0].expr) + args_nodes(args.subrange(1, args.len() as int))
    }
}

/// The nodes of a statement.
pub open spec fn stmt_nodes(s: StatementView) -> nat
    decreases s,
{
    match s {
        StatementView::Expr(e) => expr_nodes(e.expr),
        StatementView::Decl { val, .. } => expr_nodes(val),
        StatementView::Assign { val, .. } => expr_nodes(val),
        StatementView::If { cond, tcode, ecode, .. } => expr_nodes(cond.expr) + stmts_nodes(tcode)
            + stmts_nodes(ecode),
        StatementView::While { cond, code, .. } => expr_nodes(cond.expr) + stmts_nodes(code),
        StatementView::Return { expr, .. } => expr_nodes(expr.expr),
    }
}

pub open spec fn stmts_nodes(code: Seq<StatementView>) -> nat
    decreases code,
{
    if code.len() == 0 {
        0
    } else {
        stmt_nodes(code[0]) + stmts_nodes(code.subrange(1, code.len() as int))
    }
}

/// A bound on the bytes that a function's frame can hold: its parameters,
/// and at most nine bytes, the largest value, for each node of its body.
pub open spec fn frame_bound(f: FunctionView) -> nat {
    params_size(f.params) + 9 * stmts_nodes(f.code)
}

/// Checking an expression keeps the errors recorded before it, and one that
/// is rejected leaves at least one error recorded.
proof fn lemma_tc_expr_errs(
    fs: Map<Seq<char>, (Seq<Type>, Type)>,
    vars: Map<Seq<char>, Type>,
    e: ExprView,
    loc: Loc,
    errs: Seq<CompileErrorView>,
)
    ensures
        tc_expr(fs, vars, e, loc, errs).1.len() >= errs.len(),
        tc_expr(fs, vars, e, loc, errs).0 is Rejected ==> tc_expr(fs, vars, e, loc, errs).1.len()
            > 0,
    decreases e,
{
    match e {
        ExprView::BinOp(op, a, b) => {
            lemma_tc_expr_errs(fs, vars, *a, loc, errs);
            let e1 = tc_expr(fs, vars, *a, loc, errs).1;
            lemma_tc_expr_errs(fs, vars, *b, loc, e1);
        },
        ExprView::Call(name, args) => {
            if fs.contains_key(name) && fs[name].0.len() == args.len() {
                lemma_tc_args_errs(fs, vars, name, fs[name].0, args, loc, errs);
            }
        },
        _ => {},
    }
}

proof fn lemma_tc_args_errs(
    fs: Map<Seq<char>, (Seq<Type>, Type)>,
    vars: Map<Seq<char>, Type>,
    name: Seq<char>,
    expected: Seq<Type>,
    args: Seq<ExpressionView>,
    loc: Loc,
    errs: Seq<CompileErrorView>,
)
    ensures
        tc_args(fs, vars, name, expected, args, loc, errs).1.len() >= errs.len(),
        tc_args(fs, vars, name, expected, args, loc, errs).0 is Rejected ==> tc_args(
            fs,
            vars,
            name,
            expected,
            args,
            loc,
            errs,
        ).1.len() > 0,
    decreases args,
{
    if args.len() > 0 {
        lemma_tc_expr_errs(fs, vars, args[0].expr, loc, errs);
        let e1 = tc_expr(fs, vars, args[0].expr, loc, errs).1;
        lemma_tc_args_errs(
            fs,
            vars,
            name,
            expected.subrange(1, expected.len() as int),
            args.subrange(1, args.len() as int),
            loc,
            e1,
        );
    }
}

proof fn lemma_tc_stmt_errs(
    fs: Map<Seq<char>, (Seq<Type>, Type)>,
    vars: Map<Seq<char>, Type>,
    s: StatementView,
    errs: Seq<CompileErrorView>,
)
    ensures
        tc_stmt(fs, vars, s, errs).1.len() >= errs.len(),
        tc_stmt(fs, vars, s, errs).0 is Rejected ==> tc_stmt(fs, vars, s, errs).1.len() > 0,
    decreases s,
{
    match s {
        StatementView::Expr(e) => {
            lemma_tc_expr_errs(fs, vars, e.expr, e.loc, errs);
        },
        StatementView::Decl { val, val_loc, .. } => {
            lemma_tc_expr_errs(fs, vars, val, val_loc, errs);
        },
        StatementView::Assign { val, val_loc, .. } => {
            lemma_tc_expr_errs(fs, vars, val, val_loc, errs);
        },
        StatementView::If { cond, tcode, ecode, .. } => {
            lemma_tc_expr_errs(fs, vars, cond.expr, cond.loc, errs);
            let e1 = tc_expr(fs, vars, cond.expr, cond.loc, errs).1;
            lemma_tc_stmts_errs(fs, vars, tcode, e1);
            let e2 = tc_stmts(fs, vars, tcode, e1).1;
            lemma_tc_stmts_errs(fs, vars, ecode, e2);
        },
        StatementView::While { cond, code, .. } => {
            lemma_tc_expr_errs(fs, vars, cond.expr, cond.loc, errs);
            let e1 = tc_expr(fs, vars, cond.expr, cond.loc, errs).1;
            lemma_tc_stmts_errs(fs, vars, code, e1);
        },
        StatementView::Return { expr, .. } => {
            lemma_tc_expr_errs(fs, vars, expr.expr, expr.loc, errs);
        },
    }
}

proof fn lemma_tc_stmts_errs(
    fs: Map<Seq<char>, (Seq<Type>, Type)>,
    vars: Map<Seq<char>, Type>,
    code: Seq<StatementView>,
    errs: Seq<CompileErrorView>,
)
    ensures
        tc_stmts(fs, vars, code, errs).1.len() >= errs.len(),
        tc_stmts(fs, vars, code, errs).0 is Rejected ==> tc_stmts(fs, vars, code, errs).1.len()
            > 0,
    decreases code,
{
    if code.len() > 0 {
        lemma_tc_stmt_errs(fs, vars, code[0], errs);
        let (r, e1) = tc_stmt(fs, vars, code[0], errs);
        if let Verdict::Passed(v2) = r {
            lemma_tc_stmts_errs(fs, v2, code.subrange(1, code.len() as int), e1);
        }
    }
}

/// Where the check of every function ends with no error and no name
/// without binding, the body of each function passes.
proof fn lemma_prefix_passes(fs: Map<Seq<char>, (Seq<Type>, Type)>, fns: Seq<FunctionView>, k: int)
    requires
        !tc_prefix(fs, fns).0,
        tc_prefix(fs, fns).1.len() == 0,
        0 <= k < fns.len(),
    ensures
        tc_stmts(fs, param_types(fns[k].params), fns[k].code, Seq::empty()).0 is Passed,
    decreases fns.len(),
{
    let (stopped, errs) = tc_prefix(fs, fns.drop_last());
    assert(!stopped);
    let f = fns.last();
    lemma_tc_stmts_errs(fs, param_types(f.params), f.code, errs);
    assert(errs.len() == 0);
    assert(errs =~= Seq::<CompileErrorView>::empty());
    if k < fns.len() - 1 {
        assert(fns.drop_last()[k] == fns[k]);
        lemma_prefix_passes(fs, fns.drop_last(), k);
    }
}


/// Every literal of `lits` has an entry in the environment's pools.
pub open spec fn lits_found(env: GenEnv, lits: Seq<LiteralView>) -> bool {
    forall|i: int|
        0 <= i < lits.len() ==> (#[trigger] find_const(env.consts, env.pool, lits[i], 0)) is Some
}

/// The generator knows the return type of every function that the checker
/// knows, and it is the same.
pub open spec fn rets_agree(env: GenEnv, fs: Map<Seq<char>, (Seq<Type>, Type)>) -> bool {
    forall|n: Seq<char>|
        #[trigger] fs.contains_key(n) ==> env.rets.contains_key(n) && env.rets[n] == fs[n].1
}

/// Each variable that the checker has in scope has a slot in the frame,
/// with its type, below the bytes pushed so far.
pub open spec fn vars_placed(st: GenState, vars: Map<Seq<char>, Type>) -> bool {
    forall|x: Seq<char>|
        #[trigger] vars.contains_key(x) ==> st.vars.contains_key(x) && st.vars[x].1 == vars[x]
            && st.vars[x].0 <= st.amount
}

proof fn lemma_expr_nodes_pos(e: ExprView)
    ensures
        expr_nodes(e) >= 1,
{
}

proof fn lemma_lits_split(env: GenEnv, a: Seq<LiteralView>, b: Seq<LiteralView>)
    requires
        lits_found(env, a + b),
    ensures
        lits_found(env, a),
        lits_found(env, b),
{
    assert forall|i: int| 0 <= i < a.len() implies (#[trigger] find_const(
        env.consts,
        env.pool,
        a[i],
        0,
    )) is Some by {
        assert((a + b)[i] == a[i]);
    }
    assert forall|i: int| 0 <= i < b.len() implies (#[trigger] find_const(
        env.consts,
        env.pool,
        b[i],
        0,
    )) is Some by {
        assert((a + b)[a.len() + i] == b[i]);
    }
}

/// An expression that passes the check gets code that pushes one value of
/// the type the checker gives it: the frame grows by that type's size, and
/// the variables and scopes stay as they were, where the frame has room.
pub proof fn law_checked_expr_pushes_its_type(
    env: GenEnv,
    fs: Map<Seq<char>, (Seq<Type>, Type)>,
    st: GenState,
    vars: Map<Seq<char>, Type>,
    e: ExprView,
    loc: Loc,
    errs: Seq<CompileErrorView>,
)
    requires
        rets_agree(env, fs),
        lits_found(env, expr_literals(e)),
        vars_placed(st, vars),
        0 <= st.amount,
        st.amount + 9 * expr_nodes(e) <= u16::MAX,
        tc_expr(fs, vars, e, loc, errs).0 is Passed,
    ensures
        g_expr(env, st, e) matches Some((s1, t)) && tc_expr(fs, vars, e, loc, errs).0
            == Verdict::Passed(t) && s1.amount == st.amount + spec_type_size(t) && s1.vars
            == st.vars && s1.scopes == st.scopes,
    decreases e,
{
    match e {
        ExprView::Var(x) => {
            assert(vars.contains_key(x));
        },
        ExprView::Lit(l) => {
            assert(expr_literals(e)[0] == l);
        },
        ExprView::BinOp(op, a, b) => {
            lemma_lits_split(env, expr_literals(*a), expr_literals(*b));
            law_checked_expr_pushes_its_type(env, fs, st, vars, *a, loc, errs);
            lemma_expr_nodes_pos(*a);
            lemma_expr_nodes_pos(*b);
            let e1 = tc_expr(fs, vars, *a, loc, errs).1;
            let s1 = g_expr(env, st, *a).unwrap().0;
            law_checked_expr_pushes_its_type(env, fs, s1, vars, *b, loc, e1);
        },
        ExprView::Call(name, args) => {
            assert(fs.contains_key(name));
            lemma_gen_args(env, fs, st, vars, name, fs[name].0, args, loc, errs);
        },
    }
}

proof fn lemma_gen_args(
    env: GenEnv,
    fs: Map<Seq<char>, (Seq<Type>, Type)>,
    st: GenState,
    vars: Map<Seq<char>, Type>,
    name: Seq<char>,
    expected: Seq<Type>,
    args: Seq<ExpressionView>,
    loc: Loc,
    errs: Seq<CompileErrorView>,
)
    requires
        rets_agree(env, fs),
        lits_found(env, args_literals(args)),
        vars_placed(st, vars),
        0 <= st.amount,
        st.amount + 9 * args_nodes(args) <= u16::MAX,
        tc_args(fs, vars, name, expected, args, loc, errs).0 is Passed,
    ensures
        g_args(env, st, args) matches Some(s1) && s1.vars == st.vars && s1.scopes == st.scopes
            && st.amount <= s1.amount <= st.amount + 9 * args_nodes(args),
    decreases args,
{
    if args.len() > 0 {
        let rest = args.subrange(1, args.len() as int);
        lemma_lits_split(env, expr_literals(args[0].expr), args_literals(rest));
        law_checked_expr_pushes_its_type(env, fs, st, vars, args[0].expr, loc, errs);
        lemma_expr_nodes_pos(args[0].expr);
        let e1 = tc_expr(fs, vars, args[0].expr, loc, errs).1;
        let s1 = g_expr(env, st, args[0].expr).unwrap().0;
        lemma_gen_args(
            env,
            fs,
            s1,
            vars,
            name,
            expected.subrange(1, expected.len() as int),
            rest,
            loc,
            e1,
        );
    }
}

/// The variables in scope after a statement or block that passed.
pub open spec fn passed_vars(v: Verdict<Map<Seq<char>, Type>>) -> Map<Seq<char>, Type> {
    match v {
        Verdict::Passed(m) => m,
        _ => Map::empty(),
    }
}

/// The generator's frame is in order for the variables in scope: there is
/// an open scope, whose count of variables is at most the bytes it
/// declared, which are at most the bytes pushed; and each variable in scope
/// has its slot.
pub open spec fn frame_ok(st: GenState, vars: Map<Seq<char>, Type>) -> bool {
    &&& st.scopes.len() > 0
    &&& 0 <= st.scopes.last().0 <= st.scopes.last().1 <= st.amount
    &&& vars_placed(st, vars)
}

/// What compiling a statement or a block keeps: the frame in order for the
/// variables in scope after it, the bytes pushed within the budget and no
/// fewer than before, beyond what the current scope declared no fewer than
/// before, the outer scopes, and the slots of the variables in scope
/// before it.
pub open spec fn gen_kept(
    st: GenState,
    vars: Map<Seq<char>, Type>,
    s1: GenState,
    out: Map<Seq<char>, Type>,
    nodes: nat,
) -> bool {
    &&& frame_ok(s1, out)
    &&& st.amount <= s1.amount <= st.amount + 9 * nodes
    &&& s1.amount - s1.scopes.last().1 >= st.amount - st.scopes.last().1
    &&& s1.scopes.len() == st.scopes.len()
    &&& s1.scopes.drop_last() == st.scopes.drop_last()
    &&& forall|x: Seq<char>|
        #[trigger] vars.contains_key(x) ==> out.contains_key(x) && s1.vars.contains_key(x)
            && s1.vars[x] == st.vars[x]
}

proof fn lemma_gen_stmt(
    env: GenEnv,
    fs: Map<Seq<char>, (Seq<Type>, Type)>,
    st: GenState,
    vars: Map<Seq<char>, Type>,
    s: StatementView,
    errs: Seq<CompileErrorView>,
)
    requires
        rets_agree(env, fs),
        lits_found(env, stmt_literals(s)),
        frame_ok(st, vars),
        st.amount + 9 * stmt_nodes(s) <= u16::MAX,
        tc_stmt(fs, vars, s, errs).0 is Passed,
    ensures
        g_stmt(env, st, s) matches Some(s1) && gen_kept(
            st,
            vars,
            s1,
            passed_vars(tc_stmt(fs, vars, s, errs).0),
            stmt_nodes(s),
        ),
    decreases s,
{
    match s {
        StatementView::Expr(e) => {
            law_checked_expr_pushes_its_type(env, fs, st, vars, e.expr, e.loc, errs);
        },
        StatementView::Decl { typ, ident, ident_loc, val, val_loc } => {
            law_checked_expr_pushes_its_type(env, fs, st, vars, val, val_loc, errs);
            let s1 = g_expr(env, st, val).unwrap().0;
            let (cnt, bytes) = s1.scopes.last();
            let sz = spec_type_size(typ);
            let n = s1.scopes.len() - 1;
            assert(s1.scopes.update(n, (cnt + 1, bytes + sz)).drop_last() =~= st.scopes.drop_last());
        },
        StatementView::Assign { ident, ident_loc, val, val_loc } => {
            law_checked_expr_pushes_its_type(env, fs, st, vars, val, val_loc, errs);
        },
        StatementView::Return { expr, .. } => {
            law_checked_expr_pushes_its_type(env, fs, st, vars, expr.expr, expr.loc, errs);
        },
        StatementView::If { cond, tcode, ecode, .. } => {
            lemma_gen_if(env, fs, st, vars, s, errs);
        },
        StatementView::While { cond, code, .. } => {
            lemma_gen_while(env, fs, st, vars, s, errs);
        },
    }
}

proof fn lemma_gen_if(
    env: GenEnv,
    fs: Map<Seq<char>, (Seq<Type>, Type)>,
    st: GenState,
    vars: Map<Seq<char>, Type>,
    s: StatementView,
    errs: Seq<CompileErrorView>,
)
    requires
        s is If,
        rets_agree(env, fs),
        lits_found(env, stmt_literals(s)),
        frame_ok(st, vars),
        st.amount + 9 * stmt_nodes(s) <= u16::MAX,
        tc_stmt(fs, vars, s, errs).0 is Passed,
    ensures
        g_stmt(env, st, s) matches Some(s1) && gen_kept(
            st,
            vars,
            s1,
            passed_vars(tc_stmt(fs, vars, s, errs).0),
            stmt_nodes(s),
        ),
    decreases s, 0nat,
{
    if let StatementView::If { cond, tcode, ecode, .. } = s {
        let start = st.code.len();
        lemma_lits_split(
            env,
            expr_literals(cond.expr) + stmts_literals(tcode),
            stmts_literals(ecode),
        );
        lemma_lits_split(env, expr_literals(cond.expr), stmts_literals(tcode));
        law_checked_expr_pushes_its_type(env, fs, st, vars, cond.expr, cond.loc, errs);
        let e1 = tc_expr(fs, vars, cond.expr, cond.loc, errs).1;
        let (s1, tc) = g_expr(env, st, cond.expr).unwrap();
        let a1 = s1.amount - spec_type_size(tc);
        let s2 = push_scope(
            emit(GenState { amount: a1, ..s1 }, InstView::Jnz(if_else_label(env.name, start))),
        );
        assert(frame_ok(s2, vars));
        lemma_gen_stmts(env, fs, s2, vars, tcode, e1);
        let e2 = tc_stmts(fs, vars, tcode, e1).1;
        let s3 = g_stmts(env, s2, tcode).unwrap();
        let s4 = pop_scope(s3).unwrap();
        assert(s4.scopes == st.scopes);
        let s5 = push_scope(
            emit(
                emit(s4, InstView::Jmp(if_end_label(env.name, start))),
                InstView::Label(if_else_label(env.name, start)),
            ),
        );
        assert(frame_ok(s5, vars));
        lemma_gen_stmts(env, fs, s5, vars, ecode, e2);
        let s6 = g_stmts(env, s5, ecode).unwrap();
        let s7 = pop_scope(s6).unwrap();
        assert(s7.scopes == st.scopes);
    }
}

proof fn lemma_gen_while(
    env: GenEnv,
    fs: Map<Seq<char>, (Seq<Type>, Type)>,
    st: GenState,
    vars: Map<Seq<char>, Type>,
    s: StatementView,
    errs: Seq<CompileErrorView>,
)
    requires
        s is While,
        rets_agree(env, fs),
        lits_found(env, stmt_literals(s)),
        frame_ok(st, vars),
        st.amount + 9 * stmt_nodes(s) <= u16::MAX,
        tc_stmt(fs, vars, s, errs).0 is Passed,
    ensures
        g_stmt(env, st, s) matches Some(s1) && gen_kept(
            st,
            vars,
            s1,
            passed_vars(tc_stmt(fs, vars, s, errs).0),
            stmt_nodes(s),
        ),
    decreases s, 0nat,
{
    if let StatementView::While { cond, code, .. } = s {
        let start = st.code.len();
        lemma_lits_split(env, expr_literals(cond.expr), stmts_literals(code));
        let s1 = emit(st, InstView::Label(while_label(env.name, start)));
        law_checked_expr_pushes_its_type(env, fs, s1, vars, cond.expr, cond.loc, errs);
        lemma_expr_nodes_pos(cond.expr);
        let e1 = tc_expr(fs, vars, cond.expr, cond.loc, errs).1;
        let (s2, tc) = g_expr(env, s1, cond.expr).unwrap();
        let a2 = s2.amount - spec_type_size(tc);
        let s3 = push_scope(
            emit(GenState { amount: a2, ..s2 }, InstView::Jnz(while_end_label(env.name, start))),
        );
        assert(frame_ok(s3, vars));
        lemma_gen_stmts(env, fs, s3, vars, code, e1);
        let s4 = g_stmts(env, s3, code).unwrap();
        let s5 = pop_scope(s4).unwrap();
        assert(s5.scopes == st.scopes);
    }
}

proof fn lemma_gen_stmts(
    env: GenEnv,
    fs: Map<Seq<char>, (Seq<Type>, Type)>,
    st: GenState,
    vars: Map<Seq<char>, Type>,
    code: Seq<StatementView>,
    errs: Seq<CompileErrorView>,
)
    requires
        rets_agree(env, fs),
        lits_found(env, stmts_literals(code)),
        frame_ok(st, vars),
        st.amount + 9 * stmts_nodes(code) <= u16::MAX,
        tc_stmts(fs, vars, code, errs).0 is Passed,
    ensures
        g_stmts(env, st, code) matches Some(s1) && gen_kept(
            st,
            vars,
            s1,
            passed_vars(tc_stmts(fs, vars, code, errs).0),
            stmts_nodes(code),
        ),
    decreases code,
{
    if code.len() > 0 {
        let rest = code.subrange(1, code.len() as int);
        lemma_lits_split(env, stmt_literals(code[0]), stmts_literals(rest));
        lemma_gen_stmt(env, fs, st, vars, code[0], errs);
        let (r, e1) = tc_stmt(fs, vars, code[0], errs);
        let v1 = passed_vars(r);
        let s1 = g_stmt(env, st, code[0]).unwrap();
        lemma_gen_stmts(env, fs, s1, v1, rest, e1);
    }
}

/// The parameters' slots: each parameter of the first `k` is in the frame
/// with its type, below the parameters' total size.
proof fn lemma_param_slots(params: Seq<(Seq<char>, Type)>, k: int)
    requires
        0 <= k <= params.len(),
        params_size(params) <= u16::MAX,
    ensures
        forall|x: Seq<char>| #[trigger]
            param_types(params.take(k)).contains_key(x) ==> param_slots(params, k).contains_key(x)
                && param_slots(params, k)[x].1 == param_types(params.take(k))[x] && param_slots(
                params,
                k,
            )[x].0 <= params_size(params),
    decreases k,
{
    if k > 0 {
        lemma_param_slots(params, k - 1);
        assert(params.take(k).drop_last() =~= params.take(k - 1));
        assert(params.take(k).last() == params[k - 1]);
        let m = params.len() - (k - 1);
        lemma_params_size_mono(params, m, params.len() as int);
        assert(params.take(params.len() as int) =~= params);
        let ps = params_size(params.take(m));
        assert(ps <= u16::MAX);
        assert((ps as u16) as int == ps);
        let prev = param_slots(params, k - 1);
        let tys = param_types(params.take(k));
        assert forall|x: Seq<char>| #[trigger] tys.contains_key(x) implies param_slots(
            params,
            k,
        ).contains_key(x) && param_slots(params, k)[x].1 == tys[x] && param_slots(params, k)[x].0
            <= params_size(params) by {
            if x != params[k - 1].0 {
                assert(param_types(params.take(k - 1)).contains_key(x));
            }
        }
    }
}

/// A function whose body passes the check, with its literals in the pools
/// and its frame within bounds, gets code.
proof fn lemma_gen_func(env: GenEnv, fs: Map<Seq<char>, (Seq<Type>, Type)>, f: FunctionView)
    requires
        rets_agree(env, fs),
        lits_found(env, stmts_literals(f.code)),
        frame_bound(f) <= u16::MAX,
        tc_stmts(fs, param_types(f.params), f.code, Seq::empty()).0 is Passed,
    ensures
        g_func(env, f) is Some,
{
    let n = f.params.len();
    let vars = param_types(f.params);
    lemma_param_slots(f.params, n as int);
    assert(f.params.take(n as int) =~= f.params);
    let start = GenState {
        code: seq![InstView::Label(f.name), InstView::Fun(n as u16)],
        vars: param_slots(f.params, n as int),
        amount: (params_size(f.params) as u16) as int,
        scopes: seq![(0int, 0int)],
    };
    assert(start.amount == params_size(f.params));
    assert(frame_ok(start, vars));
    lemma_gen_stmts(env, fs, start, vars, f.code, Seq::empty());
}

/// The generator's return types agree with the checker's signatures.
proof fn lemma_rets_agree(fns: Seq<FunctionView>)
    ensures
        forall|n: Seq<char>| #[trigger]
            signatures(fns).contains_key(n) ==> ret_types(fns).contains_key(n) && ret_types(
                fns,
            )[n] == signatures(fns)[n].1,
    decreases fns.len(),
{
    if fns.len() > 0 {
        let d = fns.drop_last();
        lemma_rets_agree(d);
        assert forall|n: Seq<char>| #[trigger]
            signatures(fns).contains_key(n) implies ret_types(fns).contains_key(n) && ret_types(
            fns,
        )[n] == signatures(fns)[n].1 by {
            if n != fns.last().name {
                assert(signatures(d).contains_key(n));
            }
        }
    }
}

/// The literals of each function are among the program's.
proof fn lemma_fn_lits(env: GenEnv, fns: Seq<FunctionView>, k: int)
    requires
        lits_found(env, program_literals(fns)),
        0 <= k < fns.len(),
    ensures
        lits_found(env, stmts_literals(fns[k].code)),
    decreases fns.len(),
{
    lemma_lits_split(env, program_literals(fns.drop_last()), stmts_literals(fns.last().code));
    if k < fns.len() - 1 {
        assert(fns.drop_last()[k] == fns[k]);
        lemma_fn_lits(env, fns.drop_last(), k);
    }
}

/// Functions that each get code get code together.
proof fn lemma_gen_funcs(env: GenEnv, list: Seq<FunctionView>)
    requires
        forall|j: int|
            0 <= j < list.len() ==> g_func(GenEnv { name: list[j].name, ..env }, #[trigger] list[j])
                is Some,
    ensures
        g_funcs(env, list) is Some,
    decreases list.len(),
{
    if list.len() > 0 {
        let d = list.drop_last();
        assert forall|j: int| 0 <= j < d.len() implies g_func(
            GenEnv { name: d[j].name, ..env },
            #[trigger] d[j],
        ) is Some by {
            assert(d[j] == list[j]);
        }
        lemma_gen_funcs(env, d);
        assert(list.last() == list[list.len() - 1]);
    }
}

proof fn lemma_main_index(fns: Seq<FunctionView>, k: int)
    requires
        0 <= k,
    ensures
        main_index(fns, k) matches Some(i) ==> k <= i < fns.len(),
    decreases fns.len() - k,
{
    if k < fns.len() && fns[k].name != "main"@ {
        lemma_main_index(fns, k + 1);
    }
}

/// A program that passes the type check, with no name left without a
/// binding, gets code for all its functions from the generator, where the
/// pools can index all its literals and each function's frame stays within
/// the generator's 16-bit counters (see [`frame_bound`]).
pub proof fn law_checked_program_generates(fns: Seq<FunctionView>)
    requires
        !meets_unbound(fns),
        type_errors(fns).len() == 0,
        program_literals(fns).len() < u16::MAX,
        forall|k: int| 0 <= k < fns.len() ==> frame_bound(#[trigger] fns[k]) <= u16::MAX,
    ensures
        program_code(program_pools(fns).0, program_pools(fns).1, fns) is Some,
{
    let fs = signatures(fns);
    let pools = program_pools(fns);
    let env = GenEnv { consts: pools.0, pool: pools.1, rets: ret_types(fns), name: Seq::empty() };
    lemma_rets_agree(fns);
    let pl = program_literals(fns);
    assert forall|i: int| 0 <= i < pl.len() implies (#[trigger] find_const(
        env.consts,
        env.pool,
        pl[i],
        0,
    )) is Some by {
        law_program_literals_found(fns, i);
    }
    assert forall|k: int, nm: Seq<char>| 0 <= k < fns.len() implies #[trigger] g_func(
        GenEnv { name: nm, ..env },
        fns[k],
    ) is Some by {
        let e2 = GenEnv { name: nm, ..env };
        lemma_fn_lits(env, fns, k);
        lemma_prefix_passes(fs, fns, k);
        lemma_gen_func(e2, fs, fns[k]);
    }
    lemma_main_index(fns, 0);
    match main_index(fns, 0) {
        None => {
            lemma_gen_funcs(env, fns);
        },
        Some(i) => {
            let one = seq![fns[i]];
            assert(one[0] == fns[i]);
            lemma_gen_funcs(env, one);
            let rest = swap_removed(fns, i);
            assert forall|j: int| 0 <= j < rest.len() implies g_func(
                GenEnv { name: rest[j].name, ..env },
                #[trigger] rest[j],
            ) is Some by {
                if j == i {
                    assert(rest[j] == fns[fns.len() - 1]);
                } else {
                    assert(rest[j] == fns[j]);
                }
            }
            lemma_gen_funcs(env, rest);
        },
    }
}

} // verus!

verus! {

/// `c[base..]` defines the label `s`.
pub open spec fn has_label(c: Seq<InstView>, base: int, s: Seq<char>) -> bool {
    exists|j: int| base <= j < c.len() && #[trigger] c[j] == InstView::Label(s)
}

/// A jump lands on a label of `c[base..]`; a call names a function with a
/// return type.
pub open spec fn inst_lands(
    c: Seq<InstView>,
    base: int,
    rets: Map<Seq<char>, Type>,
    i: InstView,
) -> bool {
    match i {
        InstView::Jmp(s) => has_label(c, base, s),
        InstView::Jz(s) => has_label(c, base, s),
        InstView::Jnz(s) => has_label(c, base, s),
        InstView::Call(s) => rets.contains_key(s),
        _ => true,
    }
}

/// Each instruction of `c[lo..hi]` lands.
pub open spec fn lands(
    c: Seq<InstView>,
    base: int,
    lo: int,
    hi: int,
    rets: Map<Seq<char>, Type>,
) -> bool {
    forall|k: int| lo <= k < hi ==> inst_lands(c, base, rets, #[trigger] c[k])
}

/// `b` is `a` with more code after it.
pub open spec fn extends(a: Seq<InstView>, b: Seq<InstView>) -> bool {
    &&& a.len() <= b.len()
    &&& forall|j: int| 0 <= j < a.len() ==> #[trigger] b[j] == a[j]
}

/// Code that comes out of a generator step: it extends the code before it,
/// and the part it adds lands within itself.
pub open spec fn adds_landing(a: Seq<InstView>, b: Seq<InstView>, rets: Map<Seq<char>, Type>) -> bool {
    extends(a, b) && lands(b, a.len() as int, a.len() as int, b.len() as int, rets)
}

proof fn lemma_extends_trans(a: Seq<InstView>, b: Seq<InstView>, c: Seq<InstView>)
    requires
        extends(a, b),
        extends(b, c),
    ensures
        extends(a, c),
{
    assert forall|j: int| 0 <= j < a.len() implies #[trigger] c[j] == a[j] by {
        assert(c[j] == b[j]);
    }
}

/// A piece that lands in `c` lands in any longer code, against any base at
/// or below its own.
proof fn lemma_lands_carry(
    c: Seq<InstView>,
    f: Seq<InstView>,
    b0: int,
    base: int,
    lo: int,
    hi: int,
    rets: Map<Seq<char>, Type>,
)
    requires
        extends(c, f),
        lands(c, b0, lo, hi, rets),
        0 <= base <= b0,
        0 <= lo,
        hi <= c.len(),
    ensures
        lands(f, base, lo, hi, rets),
{
    assert forall|k: int| lo <= k < hi implies inst_lands(f, base, rets, #[trigger] f[k]) by {
        assert(f[k] == c[k]);
        assert(inst_lands(c, b0, rets, c[k]));
        match c[k] {
            InstView::Jmp(s) => {
                let j = choose|j: int| b0 <= j < c.len() && #[trigger] c[j] == InstView::Label(s);
                assert(f[j] == c[j]);
            },
            InstView::Jz(s) => {
                let j = choose|j: int| b0 <= j < c.len() && #[trigger] c[j] == InstView::Label(s);
                assert(f[j] == c[j]);
            },
            InstView::Jnz(s) => {
                let j = choose|j: int| b0 <= j < c.len() && #[trigger] c[j] == InstView::Label(s);
                assert(f[j] == c[j]);
            },
            _ => {},
        }
    }
}

/// Code with no jump or call lands.
proof fn lemma_lands_plain(c: Seq<InstView>, base: int, lo: int, hi: int, rets: Map<Seq<char>, Type>)
    requires
        forall|k: int|
            lo <= k < hi ==> !(#[trigger] c[k] is Jmp || c[k] is Jz || c[k] is Jnz || c[k] is Call),
    ensures
        lands(c, base, lo, hi, rets),
{
    assert forall|k: int| lo <= k < hi implies inst_lands(c, base, rets, #[trigger] c[k]) by {
        assert(!(c[k] is Jmp || c[k] is Jz || c[k] is Jnz || c[k] is Call));
    }
}

proof fn lemma_lands_join(
    c: Seq<InstView>,
    base: int,
    lo: int,
    m: int,
    hi: int,
    rets: Map<Seq<char>, Type>,
)
    requires
        lands(c, base, lo, m, rets),
        lands(c, base, m, hi, rets),
    ensures
        lands(c, base, lo, hi, rets),
{
    assert forall|k: int| lo <= k < hi implies inst_lands(c, base, rets, #[trigger] c[k]) by {
        if k < m {
            assert(lands(c, base, lo, m, rets));
        } else {
            assert(lands(c, base, m, hi, rets));
        }
    }
}

/// Appending an instruction that is no jump or call.
proof fn lemma_push_plain(c: Seq<InstView>, i: InstView, rets: Map<Seq<char>, Type>)
    requires
        !(i is Jmp || i is Jz || i is Jnz || i is Call),
    ensures
        adds_landing(c, c.push(i), rets),
{
    let d = c.push(i);
    assert(d[c.len() as int] == i);
    lemma_lands_plain(d, c.len() as int, c.len() as int, d.len() as int, rets);
}

/// Two generator steps in a row.
proof fn lemma_adds_chain(
    a: Seq<InstView>,
    b: Seq<InstView>,
    c: Seq<InstView>,
    rets: Map<Seq<char>, Type>,
)
    requires
        adds_landing(a, b, rets),
        adds_landing(b, c, rets),
    ensures
        adds_landing(a, c, rets),
{
    lemma_extends_trans(a, b, c);
    lemma_lands_carry(b, c, a.len() as int, a.len() as int, a.len() as int, b.len() as int, rets);
    lemma_lands_carry(
        c,
        c,
        b.len() as int,
        a.len() as int,
        b.len() as int,
        c.len() as int,
        rets,
    );
    lemma_lands_join(c, a.len() as int, a.len() as int, b.len() as int, c.len() as int, rets);
}

proof fn lemma_extends_refl(c: Seq<InstView>)
    ensures
        extends(c, c),
{
}

proof fn lemma_expr_lands(env: GenEnv, st: GenState, e: ExprView)
    requires
        g_expr(env, st, e) is Some,
    ensures
        adds_landing(st.code, g_expr(env, st, e).unwrap().0.code, env.rets),
    decreases e,
{
    match e {
        ExprView::Var(x) => {
            lemma_push_plain(st.code, g_expr(env, st, e).unwrap().0.code.last(), env.rets);
        },
        ExprView::Lit(l) => {
            lemma_push_plain(st.code, g_expr(env, st, e).unwrap().0.code.last(), env.rets);
        },
        ExprView::BinOp(op, a, b) => {
            lemma_expr_lands(env, st, *a);
            let s1 = g_expr(env, st, *a).unwrap().0;
            lemma_expr_lands(env, s1, *b);
            let s2 = g_expr(env, s1, *b).unwrap().0;
            lemma_adds_chain(st.code, s1.code, s2.code, env.rets);
            let f = s2.code + op_code(op);
            assert forall|j: int| 0 <= j < s2.code.len() implies #[trigger] f[j] == s2.code[j] by {
            }
            assert forall|k: int| s2.code.len() <= k < f.len() implies !(#[trigger] f[k] is Jmp
                || f[k] is Jz || f[k] is Jnz || f[k] is Call) by {
                assert(f[k] == op_code(op)[k - s2.code.len()]);
            }
            lemma_lands_plain(f, s2.code.len() as int, s2.code.len() as int, f.len() as int, env.rets);
            lemma_adds_chain(st.code, s2.code, f, env.rets);
        },
        ExprView::Call(name, args) => {
            lemma_args_lands(env, st, args);
            let s1 = g_args(env, st, args).unwrap();
            let f = s1.code.push(InstView::Call(name));
            assert(f[s1.code.len() as int] == InstView::Call(name));
            assert(lands(f, s1.code.len() as int, s1.code.len() as int, f.len() as int, env.rets));
            lemma_adds_chain(st.code, s1.code, f, env.rets);
        },
    }
}

proof fn lemma_args_lands(env: GenEnv, st: GenState, args: Seq<ExpressionView>)
    requires
        g_args(env, st, args) is Some,
    ensures
        adds_landing(st.code, g_args(env, st, args).unwrap().code, env.rets),
    decreases args,
{
    if args.len() == 0 {
        lemma_extends_refl(st.code);
    } else {
        lemma_expr_lands(env, st, args[0].expr);
        let s1 = g_expr(env, st, args[0].expr).unwrap().0;
        let rest = args.subrange(1, args.len() as int);
        lemma_args_lands(env, s1, rest);
        lemma_adds_chain(st.code, s1.code, g_args(env, s1, rest).unwrap().code, env.rets);
    }
}

proof fn lemma_extends_concat(c: Seq<InstView>, d: Seq<InstView>)
    ensures
        extends(c, c + d),
{
    assert forall|j: int| 0 <= j < c.len() implies #[trigger] (c + d)[j] == c[j] by {}
}

/// A jump at `k` whose label stands at `l`, at or after the base.
proof fn lemma_jump_lands(
    f: Seq<InstView>,
    base: int,
    k: int,
    l: int,
    name: Seq<char>,
    rets: Map<Seq<char>, Type>,
)
    requires
        0 <= k < f.len(),
        f[k] == InstView::Jmp(name) || f[k] == InstView::Jnz(name),
        base <= l < f.len(),
        f[l] == InstView::Label(name),
    ensures
        lands(f, base, k, k + 1, rets),
{
    assert(has_label(f, base, name));
}

/// Closing a scope adds only pops.
proof fn lemma_pop_lands(st: GenState, rets: Map<Seq<char>, Type>)
    requires
        pop_scope(st) is Some,
    ensures
        adds_landing(st.code, pop_scope(st).unwrap().code, rets),
{
    let f = pop_scope(st).unwrap().code;
    let cnt = st.scopes.last().0;
    let pops = Seq::new(cnt as nat, |i: int| InstView::Pop);
    assert(f == st.code + pops);
    lemma_extends_concat(st.code, pops);
    assert forall|k: int| st.code.len() <= k < f.len() implies !(#[trigger] f[k] is Jmp || f[k]
        is Jz || f[k] is Jnz || f[k] is Call) by {
        assert(f[k] == pops[k - st.code.len()]);
    }
    lemma_lands_plain(f, st.code.len() as int, st.code.len() as int, f.len() as int, rets);
}

proof fn lemma_stmt_lands(env: GenEnv, st: GenState, s: StatementView)
    requires
        g_stmt(env, st, s) is Some,
    ensures
        adds_landing(st.code, g_stmt(env, st, s).unwrap().code, env.rets),
    decreases s, 1nat,
{
    match s {
        StatementView::Expr(e) => {
            lemma_expr_lands(env, st, e.expr);
            let s1 = g_expr(env, st, e.expr).unwrap().0;
            lemma_push_plain(s1.code, InstView::Pop, env.rets);
            lemma_adds_chain(st.code, s1.code, s1.code.push(InstView::Pop), env.rets);
        },
        StatementView::Decl { val, .. } => {
            lemma_expr_lands(env, st, val);
        },
        StatementView::Assign { ident, val, .. } => {
            lemma_expr_lands(env, st, val);
            let s1 = g_expr(env, st, val).unwrap().0;
            let c2 = g_stmt(env, st, s).unwrap().code;
            let c1 = c2.drop_last();
            lemma_push_plain(s1.code, c1.last(), env.rets);
            assert(c1 == s1.code.push(c1.last()));
            lemma_push_plain(c1, InstView::Pop, env.rets);
            lemma_adds_chain(st.code, s1.code, c1, env.rets);
            lemma_adds_chain(st.code, c1, c2, env.rets);
        },
        StatementView::Return { expr, .. } => {
            lemma_expr_lands(env, st, expr.expr);
            let s1 = g_expr(env, st, expr.expr).unwrap().0;
            let c2 = g_stmt(env, st, s).unwrap().code;
            lemma_push_plain(s1.code, c2.last(), env.rets);
            lemma_adds_chain(st.code, s1.code, c2, env.rets);
        },
        StatementView::If { .. } => {
            lemma_if_lands(env, st, s);
        },
        StatementView::While { .. } => {
            lemma_while_lands(env, st, s);
        },
    }
}

proof fn lemma_if_lands(env: GenEnv, st: GenState, s: StatementView)
    requires
        s is If,
        g_stmt(env, st, s) is Some,
    ensures
        adds_landing(st.code, g_stmt(env, st, s).unwrap().code, env.rets),
    decreases s, 0nat,
{
    if let StatementView::If { cond, tcode, ecode, .. } = s {
        let rets = env.rets;
        let start = st.code.len();
        let lo = start as int;
        let els = if_else_label(env.name, start);
        let end = if_end_label(env.name, start);
        lemma_expr_lands(env, st, cond.expr);
        let (s1, tc) = g_expr(env, st, cond.expr).unwrap();
        let a1 = s1.amount - spec_type_size(tc);
        let s2 = push_scope(emit(GenState { amount: a1, ..s1 }, InstView::Jnz(els)));
        lemma_stmts_lands(env, s2, tcode);
        let s3 = g_stmts(env, s2, tcode).unwrap();
        lemma_pop_lands(s3, rets);
        let s4 = pop_scope(s3).unwrap();
        let s5 = push_scope(emit(emit(s4, InstView::Jmp(end)), InstView::Label(els)));
        lemma_stmts_lands(env, s5, ecode);
        let s6 = g_stmts(env, s5, ecode).unwrap();
        lemma_pop_lands(s6, rets);
        let s7 = pop_scope(s6).unwrap();
        let f = s7.code.push(InstView::Label(end));
        assert(f == g_stmt(env, st, s).unwrap().code);
        let p1 = s1.code.len() as int;
        let p4 = s4.code.len() as int;
        let p7 = s7.code.len() as int;
        // the code only grows
        lemma_extends_concat(s1.code, seq![InstView::Jnz(els)]);
        assert(s2.code == s1.code + seq![InstView::Jnz(els)]);
        lemma_extends_concat(s4.code, seq![InstView::Jmp(end), InstView::Label(els)]);
        assert(s5.code == s4.code + seq![InstView::Jmp(end), InstView::Label(els)]);
        lemma_extends_concat(s7.code, seq![InstView::Label(end)]);
        assert(f == s7.code + seq![InstView::Label(end)]);
        lemma_extends_trans(s6.code, s7.code, f);
        lemma_extends_trans(s5.code, s6.code, f);
        lemma_extends_trans(s4.code, s5.code, f);
        lemma_extends_trans(s3.code, s4.code, f);
        lemma_extends_trans(s2.code, s3.code, f);
        lemma_extends_trans(s1.code, s2.code, f);
        lemma_extends_trans(st.code, s1.code, f);
        // the labels
        assert(f[p1] == s2.code[p1]);
        assert(f[p4] == s5.code[p4]);
        assert(f[p4 + 1] == s5.code[p4 + 1]);
        assert(f[p7] == InstView::Label(end));
        // each piece lands
        lemma_lands_carry(s1.code, f, lo, lo, lo, p1, rets);
        lemma_jump_lands(f, lo, p1, p4 + 1, els, rets);
        lemma_adds_chain(s2.code, s3.code, s4.code, rets);
        lemma_lands_carry(s4.code, f, p1 + 1, lo, p1 + 1, p4, rets);
        lemma_jump_lands(f, lo, p4, p7, end, rets);
        lemma_lands_plain(f, lo, p4 + 1, p4 + 2, rets);
        lemma_adds_chain(s5.code, s6.code, s7.code, rets);
        lemma_lands_carry(s7.code, f, p4 + 2, lo, p4 + 2, p7, rets);
        lemma_lands_plain(f, lo, p7, p7 + 1, rets);
        lemma_lands_join(f, lo, lo, p1, p1 + 1, rets);
        lemma_lands_join(f, lo, lo, p1 + 1, p4, rets);
        lemma_lands_join(f, lo, lo, p4, p4 + 1, rets);
        lemma_lands_join(f, lo, lo, p4 + 1, p4 + 2, rets);
        lemma_lands_join(f, lo, lo, p4 + 2, p7, rets);
        lemma_lands_join(f, lo, lo, p7, p7 + 1, rets);
    }
}

proof fn lemma_while_lands(env: GenEnv, st: GenState, s: StatementView)
    requires
        s is While,
        g_stmt(env, st, s) is Some,
    ensures
        adds_landing(st.code, g_stmt(env, st, s).unwrap().code, env.rets),
    decreases s, 0nat,
{
    if let StatementView::While { cond, code, .. } = s {
        let rets = env.rets;
        let start = st.code.len();
        let lo = start as int;
        let top = while_label(env.name, start);
        let out = while_end_label(env.name, start);
        let s1 = emit(st, InstView::Label(top));
        lemma_expr_lands(env, s1, cond.expr);
        let (s2, tc) = g_expr(env, s1, cond.expr).unwrap();
        let a2 = s2.amount - spec_type_size(tc);
        let s3 = push_scope(emit(GenState { amount: a2, ..s2 }, InstView::Jnz(out)));
        lemma_stmts_lands(env, s3, code);
        let s4 = g_stmts(env, s3, code).unwrap();
        lemma_pop_lands(s4, rets);
        let s5 = pop_scope(s4).unwrap();
        let f = s5.code + seq![InstView::Jmp(top), InstView::Label(out)];
        assert(f == g_stmt(env, st, s).unwrap().code);
        let p2 = s2.code.len() as int;
        let p5 = s5.code.len() as int;
        lemma_extends_concat(st.code, seq![InstView::Label(top)]);
        assert(s1.code == st.code + seq![InstView::Label(top)]);
        lemma_extends_concat(s2.code, seq![InstView::Jnz(out)]);
        assert(s3.code == s2.code + seq![InstView::Jnz(out)]);
        lemma_extends_concat(s5.code, seq![InstView::Jmp(top), InstView::Label(out)]);
        lemma_extends_trans(s4.code, s5.code, f);
        lemma_extends_trans(s3.code, s4.code, f);
        lemma_extends_trans(s2.code, s3.code, f);
        lemma_extends_trans(s1.code, s2.code, f);
        lemma_extends_trans(st.code, s1.code, f);
        assert(f[lo] == s1.code[lo]);
        assert(f[p2] == s3.code[p2]);
        assert(f[p5] == InstView::Jmp(top));
        assert(f[p5 + 1] == InstView::Label(out));
        lemma_lands_plain(f, lo, lo, lo + 1, rets);
        lemma_lands_carry(s2.code, f, lo + 1, lo, lo + 1, p2, rets);
        lemma_jump_lands(f, lo, p2, p5 + 1, out, rets);
        lemma_adds_chain(s3.code, s4.code, s5.code, rets);
        lemma_lands_carry(s5.code, f, p2 + 1, lo, p2 + 1, p5, rets);
        lemma_jump_lands(f, lo, p5, lo, top, rets);
        lemma_lands_plain(f, lo, p5 + 1, p5 + 2, rets);
        lemma_lands_join(f, lo, lo, lo + 1, p2, rets);
        lemma_lands_join(f, lo, lo, p2, p2 + 1, rets);
        lemma_lands_join(f, lo, lo, p2 + 1, p5, rets);
        lemma_lands_join(f, lo, lo, p5, p5 + 1, rets);
        lemma_lands_join(f, lo, lo, p5 + 1, p5 + 2, rets);
    }
}

proof fn lemma_stmts_lands(env: GenEnv, st: GenState, code: Seq<StatementView>)
    requires
        g_stmts(env, st, code) is Some,
    ensures
        adds_landing(st.code, g_stmts(env, st, code).unwrap().code, env.rets),
    decreases code,
{
    if code.len() == 0 {
        lemma_extends_refl(st.code);
    } else {
        lemma_stmt_lands(env, st, code[0]);
        let s1 = g_stmt(env, st, code[0]).unwrap();
        let rest = code.subrange(1, code.len() as int);
        lemma_stmts_lands(env, s1, rest);
        lemma_adds_chain(st.code, s1.code, g_stmts(env, s1, rest).unwrap().code, env.rets);
    }
}

proof fn lemma_lands_shift(c: Seq<InstView>, d: Seq<InstView>, rets: Map<Seq<char>, Type>)
    requires
        lands(d, 0, 0, d.len() as int, rets),
    ensures
        lands(c + d, c.len() as int, c.len() as int, (c.len() + d.len()) as int, rets),
{
    let f = c + d;
    let n = c.len() as int;
    assert forall|k: int| n <= k < f.len() implies inst_lands(f, n, rets, #[trigger] f[k]) by {
        let i = d[k - n];
        assert(f[k] == i);
        assert(inst_lands(d, 0, rets, d[k - n]));
        match i {
            InstView::Jmp(s) => {
                let j = choose|j: int| 0 <= j < d.len() && #[trigger] d[j] == InstView::Label(s);
                assert(f[n + j] == d[j]);
            },
            InstView::Jz(s) => {
                let j = choose|j: int| 0 <= j < d.len() && #[trigger] d[j] == InstView::Label(s);
                assert(f[n + j] == d[j]);
            },
            InstView::Jnz(s) => {
                let j = choose|j: int| 0 <= j < d.len() && #[trigger] d[j] == InstView::Label(s);
                assert(f[n + j] == d[j]);
            },
            _ => {},
        }
    }
}

/// A function's code starts with its label, and every jump in it lands
/// in it.
proof fn lemma_func_lands(env: GenEnv, f: FunctionView)
    requires
        g_func(env, f) is Some,
    ensures
        g_func(env, f).unwrap().len() >= 2,
        g_func(env, f).unwrap()[0] == InstView::Label(f.name),
        lands(g_func(env, f).unwrap(), 0, 0, g_func(env, f).unwrap().len() as int, env.rets),
{
    let n = f.params.len();
    let start = GenState {
        code: seq![InstView::Label(f.name), InstView::Fun(n as u16)],
        vars: param_slots(f.params, n as int),
        amount: (params_size(f.params) as u16) as int,
        scopes: seq![(0int, 0int)],
    };
    lemma_stmts_lands(env, start, f.code);
    let c = g_stmts(env, start, f.code).unwrap().code;
    assert(c == g_func(env, f).unwrap());
    assert(c[0] == start.code[0]);
    assert(c[1] == start.code[1]);
    lemma_lands_plain(c, 0, 0, 2, env.rets);
    lemma_lands_carry(c, c, 2, 0, 2, c.len() as int, env.rets);
    lemma_lands_join(c, 0, 0, 2, c.len() as int, env.rets);
}

proof fn lemma_has_label_carry(c: Seq<InstView>, f: Seq<InstView>, s: Seq<char>)
    requires
        extends(c, f),
        has_label(c, 0, s),
    ensures
        has_label(f, 0, s),
{
    let j = choose|j: int| 0 <= j < c.len() && #[trigger] c[j] == InstView::Label(s);
    assert(f[j] == c[j]);
}

/// The code of functions in order: every jump lands, and each function's
/// label is in it.
proof fn lemma_funcs_lands(env: GenEnv, list: Seq<FunctionView>)
    requires
        g_funcs(env, list) is Some,
    ensures
        lands(g_funcs(env, list).unwrap(), 0, 0, g_funcs(env, list).unwrap().len() as int, env.rets),
        forall|j: int|
            0 <= j < list.len() ==> has_label(g_funcs(env, list).unwrap(), 0, #[trigger] list[j].name),
    decreases list.len(),
{
    if list.len() > 0 {
        let d0 = list.drop_last();
        lemma_funcs_lands(env, d0);
        let c = g_funcs(env, d0).unwrap();
        let e2 = GenEnv { name: list.last().name, ..env };
        lemma_func_lands(e2, list.last());
        let d = g_func(e2, list.last()).unwrap();
        let f = c + d;
        assert(f == g_funcs(env, list).unwrap());
        lemma_extends_concat(c, d);
        lemma_lands_carry(c, f, 0, 0, 0, c.len() as int, env.rets);
        lemma_lands_shift(c, d, env.rets);
        lemma_extends_refl(f);
        lemma_lands_carry(f, f, c.len() as int, 0, c.len() as int, f.len() as int, env.rets);
        lemma_lands_join(f, 0, 0, c.len() as int, f.len() as int, env.rets);
        assert forall|j: int| 0 <= j < list.len() implies has_label(f, 0, #[trigger] list[j].name) by {
            if j < list.len() - 1 {
                assert(d0[j] == list[j]);
                lemma_has_label_carry(c, f, list[j].name);
            } else {
                assert(list[j] == list.last());
                assert(f[c.len() as int] == d[0]);
                assert(f[c.len() as int] == InstView::Label(list[j].name));
            }
        }
    }
}

proof fn lemma_label_found(c: Seq<InstView>, s: Seq<char>, k: int)
    requires
        0 <= k <= c.len(),
        exists|j: int| 0 <= j < k && #[trigger] c[j] == InstView::Label(s),
    ensures
        last_label_before(c, s, k) is Some,
    decreases k,
{
    if !(c[k - 1] == InstView::Label(s)) {
        let j = choose|j: int| 0 <= j < k && #[trigger] c[j] == InstView::Label(s);
        assert(j < k - 1);
        lemma_label_found(c, s, k - 1);
    }
}

/// Each name with a return type is the name of a function.
proof fn lemma_ret_names(fns: Seq<FunctionView>, n: Seq<char>)
    requires
        ret_types(fns).contains_key(n),
    ensures
        exists|k: int| 0 <= k < fns.len() && #[trigger] fns[k].name == n,
    decreases fns.len(),
{
    if fns.last().name == n {
        assert(fns[fns.len() - 1].name == n);
    } else {
        lemma_ret_names(fns.drop_last(), n);
        let k = choose|k: int| 0 <= k < fns.len() - 1 && #[trigger] fns.drop_last()[k].name == n;
        assert(fns[k].name == n);
    }
}

/// Code where every jump lands and every call names a function whose
/// label is there resolves its labels.
proof fn lemma_resolves(code: Seq<InstView>, fns: Seq<FunctionView>)
    requires
        lands(code, 0, 0, code.len() as int, ret_types(fns)),
        forall|k: int| 0 <= k < fns.len() ==> has_label(code, 0, #[trigger] fns[k].name),
    ensures
        labels_resolve(code),
{
    assert forall|k: int| 0 <= k < code.len() implies match #[trigger] code[k] {
        InstView::Jmp(s) => label_target(code, s) is Some,
        InstView::Jz(s) => label_target(code, s) is Some,
        InstView::Jnz(s) => label_target(code, s) is Some,
        InstView::Call(s) => label_target(code, s) is Some,
        _ => true,
    } by {
        assert(inst_lands(code, 0, ret_types(fns), code[k]));
        match code[k] {
            InstView::Jmp(s) => {
                lemma_label_found(code, s, code.len() as int);
            },
            InstView::Jz(s) => {
                lemma_label_found(code, s, code.len() as int);
            },
            InstView::Jnz(s) => {
                lemma_label_found(code, s, code.len() as int);
            },
            InstView::Call(s) => {
                lemma_ret_names(fns, s);
                let m = choose|m: int| 0 <= m < fns.len() && #[trigger] fns[m].name == s;
                assert(has_label(code, 0, fns[m].name));
                lemma_label_found(code, s, code.len() as int);
            },
            _ => {},
        }
    }
}

proof fn lemma_has_label_shift(m: Seq<InstView>, r: Seq<InstView>, s: Seq<char>)
    requires
        has_label(r, 0, s),
    ensures
        has_label(m + r, 0, s),
{
    let j = choose|j: int| 0 <= j < r.len() && #[trigger] r[j] == InstView::Label(s);
    assert((m + r)[m.len() + j] == r[j]);
}

/// The labels of a program's code resolve whenever the generator gives
/// code: each jump lands in its function, each call on a function's label.
pub proof fn law_generated_labels_resolve(
    consts: Seq<u8>,
    pool: Seq<Seq<char>>,
    fns: Seq<FunctionView>,
)
    requires
        program_code(consts, pool, fns) is Some,
    ensures
        labels_resolve(program_code(consts, pool, fns).unwrap()),
{
    let rets = ret_types(fns);
    let env = GenEnv { consts, pool, rets, name: Seq::empty() };
    lemma_main_index(fns, 0);
    match main_index(fns, 0) {
        None => {
            lemma_funcs_lands(env, fns);
            lemma_resolves(g_funcs(env, fns).unwrap(), fns);
        },
        Some(i) => {
            let one = seq![fns[i]];
            let rest = swap_removed(fns, i);
            lemma_funcs_lands(env, one);
            lemma_funcs_lands(env, rest);
            let m = g_funcs(env, one).unwrap();
            let r = g_funcs(env, rest).unwrap();
            let code = m + r;
            assert(code == program_code(consts, pool, fns).unwrap());
            lemma_extends_concat(m, r);
            lemma_lands_carry(m, code, 0, 0, 0, m.len() as int, rets);
            lemma_lands_shift(m, r, rets);
            lemma_extends_refl(code);
            lemma_lands_carry(code, code, m.len() as int, 0, m.len() as int, code.len() as int, rets);
            lemma_lands_join(code, 0, 0, m.len() as int, code.len() as int, rets);
            assert forall|k: int| 0 <= k < fns.len() implies has_label(
                code,
                0,
                #[trigger] fns[k].name,
            ) by {
                if k == i {
                    assert(one[0] == fns[i]);
                    lemma_has_label_carry(m, code, fns[k].name);
                } else if k == fns.len() - 1 {
                    assert(rest[i] == fns[k]);
                    lemma_has_label_shift(m, r, fns[k].name);
                } else {
                    assert(rest[k] == fns[k]);
                    lemma_has_label_shift(m, r, fns[k].name);
                }
            }
            lemma_resolves(code, fns);
        },
    }
}

/// A program that passes every check (each path returns, the types agree,
/// no name is left without a binding, and there is a `main`) compiles to
/// byte code, where the pools can index all its literals, each function's
/// frame stays within the generator's 16-bit counters (see
/// [`frame_bound`]) and the byte code stays within 4 GiB.
pub proof fn law_checked_program_compiles(fns: Seq<FunctionView>)
    requires
        return_errors(fns).len() == 0,
        !meets_unbound(fns),
        type_errors(fns).len() == 0,
        main_index(fns, 0) is Some,
        program_literals(fns).len() < u16::MAX,
        forall|k: int| 0 <= k < fns.len() ==> frame_bound(#[trigger] fns[k]) <= u16::MAX,
    ensures
        compile_functions(fns) is Program || (program_code(
            program_pools(fns).0,
            program_pools(fns).1,
            fns,
        ) matches Some(code) && offset_before(code, code.len() as int) > u32::MAX),
{
    law_checked_program_generates(fns);
    let pools = program_pools(fns);
    law_generated_labels_resolve(pools.0, pools.1, fns);
    assert(type_errors(fns) + Seq::<CompileErrorView>::empty() =~= type_errors(fns));
}

proof fn lemma_found_entry(consts: Seq<u8>, pool: Seq<Seq<char>>, lit: LiteralView, off: int)
    requires
        find_const(consts, pool, lit, off) is Some,
    ensures
        ({
            let o = find_const(consts, pool, lit, off).unwrap();
            &&& 0 <= o < consts.len()
            &&& const_entry_size(consts[o]) != 0
            &&& o + const_entry_size(consts[o]) <= consts.len()
            &&& entry_matches(consts, pool, o, lit)
        }),
    decreases consts.len() - off,
{
    let sz = const_entry_size(consts[off]);
    if !entry_matches(consts, pool, off, lit) {
        lemma_found_entry(consts, pool, lit, off + sz);
    }
}

/// The constant the generator finds for a literal reads back, on the
/// machine, as the literal's value: an integer, a decimal or a boolean as
/// itself, and a string as an index into the string pool that holds it.
pub proof fn law_found_constant_reads_back(consts: Seq<u8>, pool: Seq<Seq<char>>, lit: LiteralView)
    requires
        find_const(consts, pool, lit, 0) is Some,
    ensures
        ({
            let o = find_const(consts, pool, lit, 0).unwrap();
            match lit {
                LiteralView::Int(i) => const_at(consts, o) == ConstRead::Value(WrappedVal::Int(i)),
                LiteralView::Bool(b) => const_at(consts, o) == ConstRead::Value(WrappedVal::Bool(b)),
                LiteralView::String(s) => const_at(consts, o) matches ConstRead::Value(
                    WrappedVal::String(j),
                ) && pool[j as int] == s,
                LiteralView::Dcml(x) => const_at(consts, o) == ConstRead::Value(WrappedVal::Dcml(x)),
            }
        }),
{
    lemma_found_entry(consts, pool, lit, 0);
}

/// Whatever code the generator gives for an expression leaves one value of
/// the expression's type on top of the frame: the frame grows by exactly
/// that type's size, and the variables and scopes stay as they were.
pub proof fn law_gen_expr_adds_one_value(env: GenEnv, st: GenState, e: ExprView)
    requires
        g_expr(env, st, e) is Some,
    ensures
        ({
            let (s1, t) = g_expr(env, st, e).unwrap();
            &&& s1.amount == st.amount + spec_type_size(t)
            &&& s1.vars == st.vars
            &&& s1.scopes == st.scopes
        }),
    decreases e,
{
    match e {
        ExprView::BinOp(op, a, b) => {
            law_gen_expr_adds_one_value(env, st, *a);
            let s1 = g_expr(env, st, *a).unwrap().0;
            law_gen_expr_adds_one_value(env, s1, *b);
        },
        ExprView::Call(name, args) => {
            lemma_args_keep(env, st, args);
        },
        _ => {},
    }
}

proof fn lemma_args_keep(env: GenEnv, st: GenState, args: Seq<ExpressionView>)
    requires
        g_args(env, st, args) is Some,
    ensures
        g_args(env, st, args).unwrap().vars == st.vars,
        g_args(env, st, args).unwrap().scopes == st.scopes,
    decreases args,
{
    if args.len() > 0 {
        law_gen_expr_adds_one_value(env, st, args[0].expr);
        let s1 = g_expr(env, st, args[0].expr).unwrap().0;
        lemma_args_keep(env, s1, args.subrange(1, args.len() as int));
    }
}

/// The bytes a statement leaves pushed in the frame: a declaration adds the
/// size of its value's type and tracks its variable on top of the frame (at
/// offset 0) with the declared type; every other statement, a `return`
/// included, leaves the count as it was.
pub proof fn law_statement_frame_count(env: GenEnv, st: GenState, s: StatementView)
    requires
        g_stmt(env, st, s) is Some,
    ensures
        ({
            let s1 = g_stmt(env, st, s).unwrap();
            match s {
                StatementView::Decl { typ, ident, val, .. } => g_expr(env, st, val) matches Some(
                    (_, t),
                ) && s1.amount == st.amount + spec_type_size(t) && var_offset(s1, ident) == Some(
                    (0int, typ),
                ),
                _ => s1.amount == st.amount,
            }
        }),
{
    if let StatementView::Decl { val, .. } = s {
        law_gen_expr_adds_one_value(env, st, val);
    }
}

/// What each binary operator computes on two integers through the whole
/// back end: the one instruction the generator gives for it, encoded by the
/// assembler and run by the machine on `a` (the left operand) and `b`.
/// Arithmetic gives the exact result where it fits in 32 bits and faults
/// otherwise; `/` and `%` truncate and fault on a zero divisor or an
/// overflow; comparisons give the truth of the comparison; the logic and
/// bitwise operators work bit by bit. `!=` compiles to the `eq` instruction
/// followed by `not`, which the machine does not execute.
pub proof fn law_operator_on_integers(op: Operator, a: i32, b: i32, ans: Option<FloatAnswer>)
    ensures
        op is NEq ==> op_code(op).len() == 2 && op_code(op)[1] is Not,
        !(op is NEq) ==> op_code(op).len() == 1,
        !(op_code(op)[0] is Label),
        ({
            let r = binop_result(
                encode_inst(resolve(Seq::empty(), op_code(op)[0]))[0],
                WrappedVal::Int(a),
                WrappedVal::Int(b),
                ans,
            );
            match op {
                Operator::Add => r == (if i32::MIN <= a + b <= i32::MAX {
                    BinOutcome::Value(WrappedVal::Int((a + b) as i32))
                } else {
                    BinOutcome::Fault
                }),
                Operator::Sub => r == (if i32::MIN <= a - b <= i32::MAX {
                    BinOutcome::Value(WrappedVal::Int((a - b) as i32))
                } else {
                    BinOutcome::Fault
                }),
                Operator::Mult => r == (if i32::MIN <= a * b <= i32::MAX {
                    BinOutcome::Value(WrappedVal::Int((a * b) as i32))
                } else {
                    BinOutcome::Fault
                }),
                Operator::Div => r == (match a.checked_div(b) {
                    Some(q) => BinOutcome::Value(WrappedVal::Int(q)),
                    None => BinOutcome::Fault,
                }),
                Operator::Mod => r == (match a.checked_rem(b) {
                    Some(m) => BinOutcome::Value(WrappedVal::Int(m)),
                    None => BinOutcome::Fault,
                }),
                Operator::Eq => r == BinOutcome::Value(WrappedVal::Bool(a == b)),
                Operator::Less => r == BinOutcome::Value(WrappedVal::Bool(a < b)),
                Operator::LEq => r == BinOutcome::Value(WrappedVal::Bool(a <= b)),
                Operator::Greater => r == BinOutcome::Value(WrappedVal::Bool(a > b)),
                Operator::GEq => r == BinOutcome::Value(WrappedVal::Bool(a >= b)),
                Operator::BAnd => r == BinOutcome::Value(WrappedVal::Int(a & b)),
                Operator::And => r == BinOutcome::Value(WrappedVal::Int(a & b)),
                Operator::BOr => r == BinOutcome::Value(WrappedVal::Int(a | b)),
                Operator::Or => r == BinOutcome::Value(WrappedVal::Int(a | b)),
                Operator::BXor => r == BinOutcome::Value(WrappedVal::Int(a ^ b)),
                Operator::Xor => r == BinOutcome::Value(WrappedVal::Int(a ^ b)),
                Operator::NEq => r == BinOutcome::Value(WrappedVal::Bool(a == b)),
            }
        }),
{
    law_int_binops(a, b, ans);
    law_logic_binops(a, b, true, true, ans);
}

/// The logic operators on two booleans through the whole back end, as
/// [`law_operator_on_integers`] does for integers.
pub proof fn law_operator_on_booleans(op: Operator, p: bool, q: bool, ans: Option<FloatAnswer>)
    requires
        op is And || op is Or || op is Xor || op is BAnd || op is BOr || op is BXor || op is Eq,
    ensures
        ({
            let r = binop_result(
                encode_inst(resolve(Seq::empty(), op_code(op)[0]))[0],
                WrappedVal::Bool(p),
                WrappedVal::Bool(q),
                ans,
            );
            &&& op_code(op).len() == 1
            &&& (op is And || op is BAnd) ==> r == BinOutcome::Value(WrappedVal::Bool(p && q))
            &&& (op is Or || op is BOr) ==> r == BinOutcome::Value(WrappedVal::Bool(p || q))
            &&& (op is Xor || op is BXor) ==> r == BinOutcome::Value(WrappedVal::Bool(p != q))
            &&& op is Eq ==> r == BinOutcome::Value(WrappedVal::Bool(p == q))
        }),
{
    law_logic_binops(0, 0, p, q, ans);
}

} // verus!
