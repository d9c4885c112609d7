//! The code generator: each function becomes a run of assembly whose
//! labels the assembler resolves; literals are gathered first into the
//! constant pool and the string pool.
//!
//! The generator keeps `amount` as the number of bytes it has pushed on
//! the machine's stack in the current frame, and each variable as the
//! index of its tag in that frame; these 16-bit counters overflow on very
//! large functions, where generation fails.
use vstd::prelude::*;
use crate::assembly::{InstView, Instruction, insts_view};
use crate::ast::{
    ExprAST, ExprView, Expression, ExpressionView, FunctionAst, FunctionView, Statement,
    StatementView, expr_view, expressions_view, function_view, functions_view, statement_view,
    statements_view, lemma_expressions_view_index, lemma_expressions_view_len,
    lemma_statements_view_index, lemma_statements_view_len, params_view,
};
use crate::bytes::{i32_at, u16_at, u64_at, i32_bytes, u16_bytes, u64_bytes, push_i32, push_u16, push_u64, read_i32, read_u16, read_u64, lemma_u16_roundtrip, lemma_i32_roundtrip, lemma_u64_roundtrip};
use crate::strmap::StrMap;
use crate::text::{decimal, push_decimal, string_from};
use crate::tokens::{Literal, LiteralView, Operator, Type, spec_type_size};
use crate::typecheck::{binop_type, binop_result};
use crate::wrapped_val::{INT_NUM, DCML_NUM, BOOL_NUM, STRING_NUM};

verus! {

/// Size in bytes of a constant-pool entry with the given tag: the tag, then
/// an `i32`, the 8 bytes of a decimal's bits, a byte for a boolean, or a
/// `u16` index in the string pool for a string; 0 for a tag that is none of
/// these.
pub open spec fn const_entry_size(tag: u8) -> nat {
    if tag == INT_NUM {
        5
    } else if tag == DCML_NUM {
        9
    } else if tag == BOOL_NUM {
        2
    } else if tag == STRING_NUM {
        3
    } else {
        0
    }
}

/// The constant pool is a run of whole entries from `off` on, and each
/// string entry names a string of the pool.
pub open spec fn consts_wf_from(consts: Seq<u8>, npool: nat, off: int) -> bool
    decreases consts.len() - off,
{
    if off < 0 || off > consts.len() {
        false
    } else if off == consts.len() {
        true
    } else {
        let sz = const_entry_size(consts[off]);
        &&& sz > 0
        &&& off + sz <= consts.len()
        &&& consts[off] == STRING_NUM ==> u16_at(consts, off + 1) < npool
        &&& consts_wf_from(consts, npool, off + sz)
    }
}

pub open spec fn consts_wf(consts: Seq<u8>, npool: nat) -> bool {
    consts_wf_from(consts, npool, 0)
}

/// The entry at `off` holds the literal's value.
pub open spec fn entry_matches(
    consts: Seq<u8>,
    pool: Seq<Seq<char>>,
    off: int,
    lit: LiteralView,
) -> bool {
    let tag = consts[off];
    match lit {
        LiteralView::Int(i) => tag == INT_NUM && i32_at(consts, off + 1) == i,
        LiteralView::Dcml(x) => tag == DCML_NUM && u64_at(consts, off + 1) == x,
        LiteralView::Bool(b) => tag == BOOL_NUM && (consts[off + 1] != 0) == b,
        LiteralView::String(s) => tag == STRING_NUM && pool[u16_at(consts, off + 1) as int] == s,
    }
}

/// The offset of the first entry from `off` on that holds the literal.
pub open spec fn find_const(consts: Seq<u8>, pool: Seq<Seq<char>>, lit: LiteralView, off: int) -> Option<
    int,
>
    decreases consts.len() - off,
{
    if off < 0 || off >= consts.len() {
        None
    } else {
        let sz = const_entry_size(consts[off]);
        if sz == 0 || off + sz > consts.len() {
            None
        } else if entry_matches(consts, pool, off, lit) {
            Some(off)
        } else {
            find_const(consts, pool, lit, off + sz)
        }
    }
}

pub open spec fn pool_view(pool: Seq<String>) -> Seq<Seq<char>> {
    pool.map_values(|s: String| s@)
}

/// The pools after adding a literal: nothing changes where an entry holds it
/// already; otherwise an entry is appended, and a string is appended to the
/// string pool.
pub open spec fn add_const_spec(consts: Seq<u8>, pool: Seq<Seq<char>>, lit: LiteralView) -> (
    Seq<u8>,
    Seq<Seq<char>>,
) {
    if find_const(consts, pool, lit, 0) is Some {
        (consts, pool)
    } else {
        match lit {
            LiteralView::Int(i) => (consts.push(INT_NUM) + i32_bytes(i), pool),
            LiteralView::Bool(b) => (consts.push(BOOL_NUM).push(if b { 1u8 } else { 0u8 }), pool),
            LiteralView::Dcml(x) => (consts.push(DCML_NUM) + u64_bytes(x), pool),
            LiteralView::String(s) => (
                consts.push(STRING_NUM) + u16_bytes(pool.len() as u16),
                pool.push(s),
            ),
        }
    }
}

/// The literals of an expression, left to right.
pub open spec fn expr_literals(e: ExprView) -> Seq<LiteralView>
    decreases e,
{
    match e {
        ExprView::Var(_) => Seq::empty(),
        ExprView::Lit(l) => seq![l],
        ExprView::BinOp(_, a, b) => expr_literals(*a) + expr_literals(*b),
        ExprView::Call(_, args) => args_literals(args),
    }
}

pub open spec fn args_literals(args: Seq<ExpressionView>) -> Seq<LiteralView>
    decreases args,
{
    if args.len() == 0 {
        Seq::empty()
    } else {
        expr_literals(args[0].expr) + args_literals(args.subrange(1, args.len() as int))
    }
}

/// The literals of a statement, in the order the statement is read.
pub open spec fn stmt_literals(st: StatementView) -> Seq<LiteralView>
    decreases st,
{
    match st {
        StatementView::Expr(e) => expr_literals(e.expr),
        StatementView::Decl { val, .. } => expr_literals(val),
        StatementView::Assign { val, .. } => expr_literals(val),
        StatementView::If { cond, tcode, ecode, .. } => expr_literals(cond.expr) + stmts_literals(
            tcode,
        ) + stmts_literals(ecode),
        StatementView::While { cond, code, .. } => expr_literals(cond.expr) + stmts_literals(code),
        StatementView::Return { expr, .. } => expr_literals(expr.expr),
    }
}

pub open spec fn stmts_literals(code: Seq<StatementView>) -> Seq<LiteralView>
    decreases code,
{
    if code.len() == 0 {
        Seq::empty()
    } else {
        stmt_literals(code[0]) + stmts_literals(code.subrange(1, code.len() as int))
    }
}

/// The literals of the program's function bodies, in order.
pub open spec fn program_literals(fns: Seq<FunctionView>) -> Seq<LiteralView>
    decreases fns.len(),
{
    if fns.len() == 0 {
        Seq::empty()
    } else {
        program_literals(fns.drop_last()) + stmts_literals(fns.last().code)
    }
}

/// The pools after adding the literals in order.
pub open spec fn add_consts(consts: Seq<u8>, pool: Seq<Seq<char>>, lits: Seq<LiteralView>) -> (
    Seq<u8>,
    Seq<Seq<char>>,
)
    decreases lits.len(),
{
    if lits.len() == 0 {
        (consts, pool)
    } else {
        let (c, p) = add_consts(consts, pool, lits.drop_last());
        add_const_spec(c, p, lits.last())
    }
}

/// The constant pool and the string pool of a program.
pub open spec fn program_pools(fns: Seq<FunctionView>) -> (Seq<u8>, Seq<Seq<char>>) {
    add_consts(Seq::empty(), Seq::empty(), program_literals(fns))
}

} // verus!

verus! {

/// What the generator knows while it compiles one function.
pub struct GenEnv {
    pub consts: Seq<u8>,
    pub pool: Seq<Seq<char>>,
    pub rets: Map<Seq<char>, Type>,
    pub name: Seq<char>,
}

/// The generator's state: the code so far, the frame index and type of
/// each variable, the bytes pushed in the frame, and for each open scope
/// the number of variables and bytes it declared.
pub struct GenState {
    pub code: Seq<InstView>,
    pub vars: Map<Seq<char>, (int, Type)>,
    pub amount: int,
    pub scopes: Seq<(int, int)>,
}

pub open spec fn fits16(x: int) -> bool {
    0 <= x <= u16::MAX
}

/// The instructions of a binary operator; `!=` is `==` then `not`.
pub open spec fn op_code(op: Operator) -> Seq<InstView> {
    match op {
        Operator::Add => seq![InstView::Add],
        Operator::Sub => seq![InstView::Sub],
        Operator::Mult => seq![InstView::Mul],
        Operator::Div => seq![InstView::Div],
        Operator::Mod => seq![InstView::Mod],
        Operator::Eq => seq![InstView::Eq],
        Operator::NEq => seq![InstView::Eq, InstView::Not],
        Operator::Less => seq![InstView::L],
        Operator::LEq => seq![InstView::Le],
        Operator::Greater => seq![InstView::G],
        Operator::GEq => seq![InstView::Ge],
        Operator::BAnd => seq![InstView::And],
        Operator::BOr => seq![InstView::Or],
        Operator::BXor => seq![InstView::Xor],
        Operator::And => seq![InstView::And],
        Operator::Or => seq![InstView::Or],
        Operator::Xor => seq![InstView::Xor],
    }
}

/// The state with one more instruction.
pub open spec fn emit(st: GenState, i: InstView) -> GenState {
    GenState { code: st.code.push(i), ..st }
}

/// The offset from the top of the frame of a variable's tag.
pub open spec fn var_offset(st: GenState, x: Seq<char>) -> Option<(int, Type)> {
    if !st.vars.contains_key(x) || st.vars[x].0 > st.amount {
        None
    } else {
        Some((st.amount - st.vars[x].0, st.vars[x].1))
    }
}

/// Compiles an expression; its value ends on top of the stack. `None` where
/// generation fails: an unknown variable, function or constant, an operator
/// without a type, or a counter out of range.
pub open spec fn g_expr(env: GenEnv, st: GenState, e: ExprView) -> Option<(GenState, Type)>
    decreases e,
{
    match e {
        ExprView::Var(x) => match var_offset(st, x) {
            None => None,
            Some((off, t)) => {
                let amt = st.amount + spec_type_size(t);
                if !fits16(amt) {
                    None
                } else {
                    Some(
                        (
                            GenState { amount: amt, ..emit(st, InstView::Push(0, off as u16)) },
                            t,
                        ),
                    )
                }
            },
        },
        ExprView::Lit(l) => match find_const(env.consts, env.pool, l, 0) {
            None => None,
            Some(idx) => {
                let t = crate::typecheck::literal_type(l);
                let amt = st.amount + spec_type_size(t);
                if !fits16(amt) {
                    None
                } else {
                    Some(
                        (
                            GenState { amount: amt, ..emit(st, InstView::Push(1, idx as u16)) },
                            t,
                        ),
                    )
                }
            },
        },
        ExprView::BinOp(op, a, b) => match g_expr(env, st, *a) {
            None => None,
            Some((s1, t0)) => match g_expr(env, s1, *b) {
                None => None,
                Some((s2, t1)) => {
                    let a2 = s2.amount - spec_type_size(t0) - spec_type_size(t1);
                    match binop_type(op, t0, t1) {
                        None => None,
                        Some(t) => {
                            let a3 = a2 + spec_type_size(t);
                            if a2 < 0 || !fits16(a3) {
                                None
                            } else {
                                Some(
                                    (
                                        GenState {
                                            code: s2.code + op_code(op),
                                            amount: a3,
                                            ..s2
                                        },
                                        t,
                                    ),
                                )
                            }
                        },
                    }
                },
            },
        },
        ExprView::Call(name, args) => match g_args(env, st, args) {
            None => None,
            Some(s1) => if !env.rets.contains_key(name) {
                None
            } else {
                let amt = st.amount + spec_type_size(env.rets[name]);
                if !fits16(amt) {
                    None
                } else {
                    Some(
                        (
                            GenState { amount: amt, ..emit(s1, InstView::Call(name)) },
                            env.rets[name],
                        ),
                    )
                }
            },
        },
    }
}

/// Compiles the arguments of a call in order.
pub open spec fn g_args(env: GenEnv, st: GenState, args: Seq<ExpressionView>) -> Option<GenState>
    decreases args,
{
    if args.len() == 0 {
        Some(st)
    } else {
        match g_expr(env, st, args[0].expr) {
            None => None,
            Some((s1, _)) => g_args(env, s1, args.subrange(1, args.len() as int)),
        }
    }
}

pub open spec fn if_else_label(name: Seq<char>, start: nat) -> Seq<char> {
    name + "-if_"@ + decimal(start) + "_else"@
}

pub open spec fn if_end_label(name: Seq<char>, start: nat) -> Seq<char> {
    name + "-if_"@ + decimal(start) + "_end"@
}

pub open spec fn while_label(name: Seq<char>, start: nat) -> Seq<char> {
    name + "-while_"@ + decimal(start)
}

pub open spec fn while_end_label(name: Seq<char>, start: nat) -> Seq<char> {
    name + "-while_"@ + decimal(start) + "_end"@
}

/// Opens a scope.
pub open spec fn push_scope(st: GenState) -> GenState {
    GenState { scopes: st.scopes.push((0, 0)), ..st }
}

/// Closes the innermost scope: pops each of its variables and gives back
/// the bytes it declared.
pub open spec fn pop_scope(st: GenState) -> Option<GenState> {
    if st.scopes.len() == 0 {
        None
    } else {
        let (cnt, bytes) = st.scopes.last();
        if st.amount - bytes < 0 || cnt < 0 {
            None
        } else {
            Some(
                GenState {
                    code: st.code + Seq::new(cnt as nat, |i: int| InstView::Pop),
                    amount: st.amount - bytes,
                    scopes: st.scopes.drop_last(),
                    ..st
                },
            )
        }
    }
}

/// Compiles a statement. A declaration leaves the value its expression
/// pushed in place as the variable, whose tag is then on top of the frame:
/// tracking it adds nothing to the bytes pushed. The blocks of an `if` and
/// the body of a `while` start after the condition is consumed; after a
/// `return`, the bytes pushed are those before it.
pub open spec fn g_stmt(env: GenEnv, st: GenState, s: StatementView) -> Option<GenState>
    decreases s,
{
    match s {
        StatementView::Expr(e) => match g_expr(env, st, e.expr) {
            None => None,
            Some((s1, _)) => Some(GenState { amount: st.amount, ..emit(s1, InstView::Pop) }),
        },
        StatementView::Decl { typ, ident, val, .. } => match g_expr(env, st, val) {
            None => None,
            Some((s1, _)) => {
                let sz = spec_type_size(typ);
                if s1.scopes.len() == 0 {
                    None
                } else {
                    let (cnt, bytes) = s1.scopes.last();
                    if !fits16(bytes + sz) || !fits16(cnt + 1) {
                        None
                    } else {
                        Some(
                            GenState {
                                code: s1.code,
                                vars: s1.vars.insert(ident, (s1.amount, typ)),
                                amount: s1.amount,
                                scopes: s1.scopes.update(
                                    s1.scopes.len() - 1,
                                    (cnt + 1, bytes + sz),
                                ),
                            },
                        )
                    }
                }
            },
        },
        StatementView::Assign { ident, val, .. } => match g_expr(env, st, val) {
            None => None,
            Some((s1, _)) => match var_offset(s1, ident) {
                None => None,
                Some((off, _)) => Some(
                    GenState {
                        amount: st.amount,
                        ..emit(emit(s1, InstView::Mov(off as u16)), InstView::Pop)
                    },
                ),
            },
        },
        StatementView::Return { expr, .. } => match g_expr(env, st, expr.expr) {
            None => None,
            Some((s1, _)) => Some(
                GenState { amount: st.amount, ..emit(s1, InstView::Ret(s1.amount as u16)) },
            ),
        },
        StatementView::If { cond, tcode, ecode, .. } => {
            let start = st.code.len();
            match g_expr(env, st, cond.expr) {
                None => None,
                Some((s1, tc)) => {
                    let a1 = s1.amount - spec_type_size(tc);
                    if a1 < 0 {
                        None
                    } else {
                        let s2 = push_scope(
                            emit(
                                GenState { amount: a1, ..s1 },
                                InstView::Jnz(if_else_label(env.name, start)),
                            ),
                        );
                        match g_stmts(env, s2, tcode) {
                            None => None,
                            Some(s3) => match pop_scope(s3) {
                                None => None,
                                Some(s4) => {
                                    let s5 = push_scope(
                                        emit(
                                            emit(s4, InstView::Jmp(if_end_label(env.name, start))),
                                            InstView::Label(if_else_label(env.name, start)),
                                        ),
                                    );
                                    match g_stmts(env, s5, ecode) {
                                        None => None,
                                        Some(s6) => match pop_scope(s6) {
                                            None => None,
                                            Some(s7) => Some(
                                                GenState {
                                                    amount: st.amount,
                                                    ..emit(
                                                        s7,
                                                        InstView::Label(
                                                            if_end_label(env.name, start),
                                                        ),
                                                    )
                                                },
                                            ),
                                        },
                                    }
                                },
                            },
                        }
                    }
                },
            }
        },
        StatementView::While { cond, code, .. } => {
            let start = st.code.len();
            let s1 = emit(st, InstView::Label(while_label(env.name, start)));
            match g_expr(env, s1, cond.expr) {
                None => None,
                Some((s2, tc)) => {
                    let a2 = s2.amount - spec_type_size(tc);
                    if a2 < 0 {
                        None
                    } else {
                    let s3 = push_scope(
                        emit(
                            GenState { amount: a2, ..s2 },
                            InstView::Jnz(while_end_label(env.name, start)),
                        ),
                    );
                    match g_stmts(env, s3, code) {
                        None => None,
                        Some(s4) => match pop_scope(s4) {
                            None => None,
                            Some(s5) => Some(
                                GenState {
                                    amount: st.amount,
                                    ..emit(
                                        emit(s5, InstView::Jmp(while_label(env.name, start))),
                                        InstView::Label(while_end_label(env.name, start)),
                                    )
                                },
                            ),
                        },
                    }
                    }
                },
            }
        },
    }
}

/// Compiles a block of statements in order.
pub open spec fn g_stmts(env: GenEnv, st: GenState, code: Seq<StatementView>) -> Option<GenState>
    decreases code,
{
    if code.len() == 0 {
        Some(st)
    } else {
        match g_stmt(env, st, code[0]) {
            None => None,
            Some(s1) => g_stmts(env, s1, code.subrange(1, code.len() as int)),
        }
    }
}

/// Total size in bytes of the parameters' values.
pub open spec fn params_size(params: Seq<(Seq<char>, Type)>) -> nat
    decreases params.len(),
{
    if params.len() == 0 {
        0
    } else {
        params_size(params.drop_last()) + spec_type_size(params.last().1)
    }
}

/// The frame slots of the parameters: parameter `k` of `n` is recorded at
/// the total size of the first `n - k` parameters, taken modulo 2^16.
pub open spec fn param_slots(params: Seq<(Seq<char>, Type)>, k: int) -> Map<Seq<char>, (int, Type)>
    decreases k,
{
    if k <= 0 || k > params.len() {
        Map::empty()
    } else {
        param_slots(params, k - 1).insert(
            params[k - 1].0,
            (
                (params_size(params.take(params.len() - (k - 1))) as u16) as int,
                params[k - 1].1,
            ),
        )
    }
}

/// The code of a function: its label, `fun` with its number of parameters,
/// then its body in a frame that holds the parameters; `None` where the
/// parameters' total size overflows a `usize` or the body fails.
pub open spec fn g_func(env: GenEnv, f: FunctionView) -> Option<Seq<InstView>> {
    if params_size(f.params) > usize::MAX {
        None
    } else {
        g_body(env, f)
    }
}

/// The code of a function whose parameters' total size fits in a `usize`.
pub open spec fn g_body(env: GenEnv, f: FunctionView) -> Option<Seq<InstView>> {
    let start = GenState {
        code: seq![InstView::Label(f.name), InstView::Fun(f.params.len() as u16)],
        vars: param_slots(f.params, f.params.len() as int),
        amount: (params_size(f.params) as u16) as int,
        scopes: seq![(0int, 0int)],
    };
    match g_stmts(env, start, f.code) {
        None => None,
        Some(s) => Some(s.code),
    }
}

/// The return type of each function; of two with one name, the later one.
pub open spec fn ret_types(fns: Seq<FunctionView>) -> Map<Seq<char>, Type>
    decreases fns.len(),
{
    if fns.len() == 0 {
        Map::empty()
    } else {
        ret_types(fns.drop_last()).insert(fns.last().name, fns.last().ret_type)
    }
}

/// The index of the first function named `main`.
pub open spec fn main_index(fns: Seq<FunctionView>, k: int) -> Option<int>
    decreases fns.len() - k,
{
    if k < 0 || k >= fns.len() {
        None
    } else if fns[k].name == "main"@ {
        Some(k)
    } else {
        main_index(fns, k + 1)
    }
}

/// The functions without the one at `i`, the last taking its place.
pub open spec fn swap_removed(fns: Seq<FunctionView>, i: int) -> Seq<FunctionView> {
    fns.update(i, fns.last()).drop_last()
}

/// The code of the functions in order, each compiled with `env` under its
/// own name.
pub open spec fn g_funcs(env: GenEnv, fns: Seq<FunctionView>) -> Option<Seq<InstView>>
    decreases fns.len(),
{
    if fns.len() == 0 {
        Some(Seq::empty())
    } else {
        match g_funcs(env, fns.drop_last()) {
            None => None,
            Some(c) => match g_func(GenEnv { name: fns.last().name, ..env }, fns.last()) {
                None => None,
                Some(d) => Some(c + d),
            },
        }
    }
}

/// The code of a program with the pools given: the first `main` comes
/// first, then the other functions, the last of them in the place where
/// `main` stood.
pub open spec fn program_code(consts: Seq<u8>, pool: Seq<Seq<char>>, fns: Seq<FunctionView>) -> Option<
    Seq<InstView>,
> {
    let env = GenEnv { consts, pool, rets: ret_types(fns), name: Seq::empty() };
    match main_index(fns, 0) {
        None => g_funcs(env, fns),
        Some(i) => match g_funcs(env, seq![fns[i]]) {
            None => None,
            Some(m) => match g_funcs(env, swap_removed(fns, i)) {
                None => None,
                Some(rest) => Some(m + rest),
            },
        },
    }
}

} // verus!

verus! {

fn const_size(tag: u8) -> (r: usize)
    ensures
        r == const_entry_size(tag),
{
    if tag == INT_NUM {
        5
    } else if tag == DCML_NUM {
        9
    } else if tag == BOOL_NUM {
        2
    } else if tag == STRING_NUM {
        3
    } else {
        0
    }
}

/// The offset, as a 16-bit index, of the first constant-pool entry that
/// holds the literal's value; `None` where no entry does.
pub fn get_const(consts: &Vec<u8>, pool: &Vec<String>, lit: &Literal) -> (r: Option<u16>)
    requires
        consts_wf(consts@, pool@.len()),
    ensures
        r == (match find_const(consts@, pool_view(pool@), lit@, 0) {
            Some(o) => Some(o as u16),
            None => None,
        }),
{
    let ghost pv = pool_view(pool@);
    let mut byte_ind: usize = 0;
    while byte_ind < consts.len()
        invariant
            pv == pool_view(pool@),
            consts_wf_from(consts@, pool@.len(), byte_ind as int),
            find_const(consts@, pv, lit@, 0) == find_const(consts@, pv, lit@, byte_ind as int),
        decreases consts@.len() - byte_ind,
    {
        let tag = consts[byte_ind];
        let sz = const_size(tag);
        let found = match lit {
            Literal::Int(i) => tag == INT_NUM && read_i32(consts, byte_ind + 1) == *i,
            Literal::Dcml(x) => tag == DCML_NUM && read_u64(consts, byte_ind + 1) == *x,
            Literal::Bool(b) => tag == BOOL_NUM && (consts[byte_ind + 1] != 0) == *b,
            Literal::String(s) => tag == STRING_NUM && pool[read_u16(
                consts,
                byte_ind + 1,
            ) as usize].eq(s),
        };
        if found {
            return Some(byte_ind as u16);
        }
        byte_ind = byte_ind + sz;
    }
    None
}

/// Appending whole entries keeps the entries before them whole.
proof fn lemma_wf_append(c: Seq<u8>, e: Seq<u8>, n: nat, n2: nat, off: int)
    requires
        consts_wf_from(c, n, off),
        n <= n2,
        consts_wf_from(c + e, n2, c.len() as int),
    ensures
        consts_wf_from(c + e, n2, off),
    decreases c.len() - off,
{
    if off < c.len() {
        let sz = const_entry_size(c[off]);
        assert((c + e)[off] == c[off]);
        if c[off] == STRING_NUM || c[off] == DCML_NUM {
            assert((c + e)[off + 1] == c[off + 1]);
            assert((c + e)[off + 2] == c[off + 2]);
        }
        lemma_wf_append(c, e, n, n2, off + sz);
    }
}

/// Appending entries does not change where an earlier entry is found.
proof fn lemma_find_append(c: Seq<u8>, e: Seq<u8>, pool: Seq<Seq<char>>, pool2: Seq<Seq<char>>, lit: LiteralView, off: int)
    requires
        consts_wf_from(c, pool.len(), off),
        pool.len() <= pool2.len(),
        pool2.take(pool.len() as int) == pool,
        find_const(c, pool, lit, off) is Some,
    ensures
        find_const(c + e, pool2, lit, off) == find_const(c, pool, lit, off),
    decreases c.len() - off,
{
    let sz = const_entry_size(c[off]);
    let ce = c + e;
    assert(ce[off] == c[off]);
    assert(ce[off + 1] == c[off + 1]);
    if c[off] == INT_NUM {
        assert(ce[off + 2] == c[off + 2]);
        assert(ce[off + 3] == c[off + 3]);
        assert(ce[off + 4] == c[off + 4]);
        assert(i32_at(ce, off + 1) == i32_at(c, off + 1));
    }
    if c[off] == STRING_NUM {
        assert(ce[off + 2] == c[off + 2]);
        assert(u16_at(ce, off + 1) == u16_at(c, off + 1));
        assert(pool2[u16_at(c, off + 1) as int] == pool[u16_at(c, off + 1) as int]);
    }
    if c[off] == DCML_NUM {
        assert(ce.subrange(off + 1, off + 9) =~= c.subrange(off + 1, off + 9));
    }
    assert(entry_matches(ce, pool2, off, lit) == entry_matches(c, pool, off, lit));
    if !entry_matches(c, pool, off, lit) {
        lemma_find_append(c, e, pool, pool2, lit, off + sz);
    }
}

} // verus!

verus! {

/// The entry appended at the end of a well-formed pool is whole.
proof fn lemma_new_entry_wf(c: Seq<u8>, tag: u8, payload: Seq<u8>, n2: nat)
    requires
        const_entry_size(tag) == payload.len() + 1,
        tag == STRING_NUM ==> u16_at(
            c + (seq![tag] + payload),
            c.len() as int + 1,
        ) < n2,
    ensures
        consts_wf_from(c + (seq![tag] + payload), n2, c.len() as int),
{
    let ce = c + (seq![tag] + payload);
    assert(ce[c.len() as int] == tag);
    assert(consts_wf_from(ce, n2, ce.len() as int));
}

/// Adds a constant-pool entry for the literal unless one holds it already.
fn add_const(consts: &mut Vec<u8>, pool: &mut Vec<String>, lit: &Literal)
    requires
        consts_wf(old(consts)@, old(pool)@.len()),
        old(pool)@.len() < u16::MAX,
    ensures
        (final(consts)@, pool_view(final(pool)@)) == add_const_spec(
            old(consts)@,
            pool_view(old(pool)@),
            lit@,
        ),
        consts_wf(final(consts)@, final(pool)@.len()),
        old(pool)@.len() <= final(pool)@.len() <= old(pool)@.len() + 1,
{
    let ghost c0 = consts@;
    let ghost p0 = pool@;
    if get_const(consts, pool, lit).is_some() {
        return ;
    }
    match lit {
        Literal::Int(i) => {
            consts.push(INT_NUM);
            push_i32(consts, *i);
            proof {
                let e = seq![INT_NUM] + i32_bytes(*i);
                assert(consts@ =~= c0 + e);
                lemma_new_entry_wf(c0, INT_NUM, i32_bytes(*i), pool@.len());
                lemma_wf_append(c0, e, p0.len(), pool@.len(), 0);
            }
        },
        Literal::Bool(b) => {
            let byte: u8 = if *b {
                1
            } else {
                0
            };
            consts.push(BOOL_NUM);
            consts.push(byte);
            proof {
                let e = seq![BOOL_NUM] + seq![byte];
                assert(consts@ =~= c0 + e);
                lemma_new_entry_wf(c0, BOOL_NUM, seq![byte], pool@.len());
                lemma_wf_append(c0, e, p0.len(), pool@.len(), 0);
            }
        },
        Literal::Dcml(x) => {
            consts.push(DCML_NUM);
            push_u64(consts, *x);
            proof {
                lemma_u64_roundtrip(*x);
                let e = seq![DCML_NUM] + u64_bytes(*x);
                assert(consts@ =~= c0 + e);
                lemma_new_entry_wf(c0, DCML_NUM, u64_bytes(*x), pool@.len());
                lemma_wf_append(c0, e, p0.len(), pool@.len(), 0);
            }
        },
        Literal::String(s) => {
            pool.push(s.clone());
            let ind: u16 = pool.len() as u16 - 1;
            consts.push(STRING_NUM);
            push_u16(consts, ind);
            proof {
                lemma_u16_roundtrip(ind);
                let ce = c0 + (seq![STRING_NUM] + u16_bytes(ind));
                assert(ce[c0.len() as int + 1] == u16_bytes(ind)[0]);
                assert(ce[c0.len() as int + 2] == u16_bytes(ind)[1]);
                assert(u16_at(ce, c0.len() as int + 1) == u16_at(u16_bytes(ind), 0));
                let e = seq![STRING_NUM] + u16_bytes(ind);
                assert(consts@ =~= c0 + e);
                lemma_new_entry_wf(c0, STRING_NUM, u16_bytes(ind), pool@.len());
                lemma_wf_append(c0, e, p0.len(), pool@.len(), 0);
                assert(pool_view(pool@) =~= pool_view(p0).push(s@));
            }
        },
    }
}

} // verus!

verus! {

/// Adding two runs of literals is adding the first, then the second.
pub proof fn lemma_add_consts_concat(
    c: Seq<u8>,
    p: Seq<Seq<char>>,
    a: Seq<LiteralView>,
    b: Seq<LiteralView>,
)
    ensures
        add_consts(c, p, a + b) == add_consts(add_consts(c, p, a).0, add_consts(c, p, a).1, b),
    decreases b.len(),
{
    if b.len() == 0 {
        assert(a + b =~= a);
    } else {
        assert((a + b).drop_last() =~= a + b.drop_last());
        assert((a + b).last() == b.last());
        lemma_add_consts_concat(c, p, a, b.drop_last());
    }
}

/// A prefix of the program has no more literals than the program.
proof fn lemma_program_literals_prefix(fns: Seq<FunctionView>, k: int)
    requires
        0 <= k <= fns.len(),
    ensures
        program_literals(fns.take(k)).len() <= program_literals(fns).len(),
    decreases fns.len(),
{
    if k < fns.len() {
        assert(fns.drop_last().take(k) =~= fns.take(k));
        lemma_program_literals_prefix(fns.drop_last(), k);
    } else {
        assert(fns.take(k) =~= fns);
    }
}

/// Adds the literals of an expression, left to right.
fn consts_in_expr(consts: &mut Vec<u8>, pool: &mut Vec<String>, ex: &ExprAST)
    requires
        consts_wf(old(consts)@, old(pool)@.len()),
        old(pool)@.len() + expr_literals(expr_view(*ex)).len() < u16::MAX,
    ensures
        (final(consts)@, pool_view(final(pool)@)) == add_consts(
            old(consts)@,
            pool_view(old(pool)@),
            expr_literals(expr_view(*ex)),
        ),
        consts_wf(final(consts)@, final(pool)@.len()),
        final(pool)@.len() <= old(pool)@.len() + expr_literals(expr_view(*ex)).len(),
    decreases ex,
{
    let ghost c0 = consts@;
    let ghost p0 = pool_view(pool@);
    match ex {
        ExprAST::Var(_) => {
            proof {
                assert(expr_literals(expr_view(*ex)) =~= Seq::<LiteralView>::empty());
            }
        },
        ExprAST::Lit(l) => {
            add_const(consts, pool, l);
            proof {
                assert(seq![l@].drop_last() =~= Seq::<LiteralView>::empty());
                assert(expr_literals(expr_view(*ex)) == seq![l@]);
                assert(add_consts(c0, p0, Seq::<LiteralView>::empty()) == (c0, p0));
                assert((consts@, pool_view(pool@)) == add_consts(c0, p0, expr_literals(expr_view(*ex))));
            }
        },
        ExprAST::BinOp(_, a, b) => {
            let ghost mid_len = pool@.len();
            consts_in_expr(consts, pool, a);
            consts_in_expr(consts, pool, b);
            proof {
                lemma_add_consts_concat(c0, p0, expr_literals(expr_view(**a)), expr_literals(expr_view(**b)));
                assert((consts@, pool_view(pool@)) == add_consts(c0, p0, expr_literals(expr_view(*ex))));
            }
        },
        ExprAST::Call(name, args) => {
            let ghost argv = expressions_view(args@);
            proof {
                lemma_expressions_view_len(args@);
                assert(argv.subrange(0, argv.len() as int) =~= argv);
            }
            let mut i: usize = 0;
            while i < args.len()
                invariant
                    i <= args@.len(),
                    argv == expressions_view(args@),
                    argv.len() == args@.len(),
                    *ex == ExprAST::Call(*name, *args),
                    consts_wf(consts@, pool@.len()),
                    pool@.len() + args_literals(argv.subrange(i as int, argv.len() as int)).len()
                        < u16::MAX,
                    pool@.len() + args_literals(argv.subrange(i as int, argv.len() as int)).len()
                        <= p0.len() + args_literals(argv).len(),
                    add_consts(c0, p0, args_literals(argv)) == add_consts(
                        consts@,
                        pool_view(pool@),
                        args_literals(argv.subrange(i as int, argv.len() as int)),
                    ),
                decreases args@.len() - i,
            {
                let ghost sub = argv.subrange(i as int, argv.len() as int);
                proof {
                    lemma_expressions_view_index(args@, i as int);
                    assert(sub[0] == argv[i as int]);
                    assert(sub.subrange(1, sub.len() as int) =~= argv.subrange(
                        i + 1,
                        argv.len() as int,
                    ));
                    lemma_add_consts_concat(
                        consts@,
                        pool_view(pool@),
                        expr_literals(sub[0].expr),
                        args_literals(sub.subrange(1, sub.len() as int)),
                    );
                }
                proof {
                    assert((*ex)->Call_1 == *args);
                    assert(decreases_to!(*ex => args@[i as int].expr));
                }
                consts_in_expr(consts, pool, &args[i].expr);
                i = i + 1;
            }
            proof {
                assert(argv.subrange(i as int, argv.len() as int) =~= Seq::<ExpressionView>::empty());
                assert(expr_literals(expr_view(*ex)) == args_literals(argv));
                assert(add_consts(consts@, pool_view(pool@), args_literals(argv.subrange(i as int, argv.len() as int))) == (consts@, pool_view(pool@)));
                assert((consts@, pool_view(pool@)) == add_consts(c0, p0, expr_literals(expr_view(*ex))));
            }
        },
    }
}

} // verus!

verus! {

/// Adds the literals of a statement, in the order the statement is read.
fn consts_in_stmt(consts: &mut Vec<u8>, pool: &mut Vec<String>, st: &Statement)
    requires
        consts_wf(old(consts)@, old(pool)@.len()),
        old(pool)@.len() + stmt_literals(statement_view(*st)).len() < u16::MAX,
    ensures
        (final(consts)@, pool_view(final(pool)@)) == add_consts(
            old(consts)@,
            pool_view(old(pool)@),
            stmt_literals(statement_view(*st)),
        ),
        consts_wf(final(consts)@, final(pool)@.len()),
        final(pool)@.len() <= old(pool)@.len() + stmt_literals(statement_view(*st)).len(),
    decreases st,
{
    let ghost c0 = consts@;
    let ghost p0 = pool_view(pool@);
    match st {
        Statement::Expr(e) => consts_in_expr(consts, pool, &e.expr),
        Statement::Decl(d) => consts_in_expr(consts, pool, &d.val),
        Statement::Assign(a) => consts_in_expr(consts, pool, &a.val),
        Statement::Return(r) => consts_in_expr(consts, pool, &r.expr.expr),
        Statement::If(ifb) => {
            let ghost lc = expr_literals(expr_view(ifb.cond.expr));
            let ghost lt = stmts_literals(statements_view(ifb.tcode@));
            let ghost le = stmts_literals(statements_view(ifb.ecode@));
            consts_in_expr(consts, pool, &ifb.cond.expr);
            let ghost c1 = consts@;
            let ghost p1 = pool_view(pool@);
            consts_in_stmts(consts, pool, &ifb.tcode);
            consts_in_stmts(consts, pool, &ifb.ecode);
            proof {
                lemma_add_consts_concat(c0, p0, lc, lt);
                lemma_add_consts_concat(c0, p0, lc + lt, le);
                assert(stmt_literals(statement_view(*st)) == lc + lt + le);
            }
        },
        Statement::While(w) => {
            let ghost lc = expr_literals(expr_view(w.cond.expr));
            let ghost lb = stmts_literals(statements_view(w.code@));
            consts_in_expr(consts, pool, &w.cond.expr);
            consts_in_stmts(consts, pool, &w.code);
            proof {
                lemma_add_consts_concat(c0, p0, lc, lb);
                assert(stmt_literals(statement_view(*st)) == lc + lb);
            }
        },
    }
}

/// Adds the literals of a block, in order.
fn consts_in_stmts(consts: &mut Vec<u8>, pool: &mut Vec<String>, code: &Vec<Statement>)
    requires
        consts_wf(old(consts)@, old(pool)@.len()),
        old(pool)@.len() + stmts_literals(statements_view(code@)).len() < u16::MAX,
    ensures
        (final(consts)@, pool_view(final(pool)@)) == add_consts(
            old(consts)@,
            pool_view(old(pool)@),
            stmts_literals(statements_view(code@)),
        ),
        consts_wf(final(consts)@, final(pool)@.len()),
        final(pool)@.len() <= old(pool)@.len() + stmts_literals(statements_view(code@)).len(),
    decreases code@,
{
    let ghost c0 = consts@;
    let ghost p0 = pool_view(pool@);
    let ghost cv = statements_view(code@);
    proof {
        lemma_statements_view_len(code@);
        assert(cv.subrange(0, cv.len() as int) =~= cv);
    }
    let mut i: usize = 0;
    while i < code.len()
        invariant
            i <= code@.len(),
            cv == statements_view(code@),
            cv.len() == code@.len(),
            consts_wf(consts@, pool@.len()),
            pool@.len() + stmts_literals(cv.subrange(i as int, cv.len() as int)).len() < u16::MAX,
            pool@.len() + stmts_literals(cv.subrange(i as int, cv.len() as int)).len() <= p0.len()
                + stmts_literals(cv).len(),
            add_consts(c0, p0, stmts_literals(cv)) == add_consts(
                consts@,
                pool_view(pool@),
                stmts_literals(cv.subrange(i as int, cv.len() as int)),
            ),
        decreases code@.len() - i,
    {
        let ghost sub = cv.subrange(i as int, cv.len() as int);
        proof {
            lemma_statements_view_index(code@, i as int);
            assert(sub[0] == cv[i as int]);
            assert(sub.subrange(1, sub.len() as int) =~= cv.subrange(i + 1, cv.len() as int));
            lemma_add_consts_concat(
                consts@,
                pool_view(pool@),
                stmt_literals(sub[0]),
                stmts_literals(sub.subrange(1, sub.len() as int)),
            );
        }
        consts_in_stmt(consts, pool, &code[i]);
        i = i + 1;
    }
    proof {
        assert(cv.subrange(i as int, cv.len() as int) =~= Seq::<StatementView>::empty());
        assert(add_consts(consts@, pool_view(pool@), Seq::<LiteralView>::empty()) == (
            consts@,
            pool_view(pool@),
        ));
    }
}

} // verus!

verus! {

/// What one function's generator reads: the pools, the return types and the
/// function's name.
struct Env<'a> {
    consts: &'a Vec<u8>,
    pool: &'a Vec<String>,
    rets: &'a StrMap<Type>,
    name: &'a String,
}

impl<'a> Env<'a> {
    spec fn view(&self) -> GenEnv {
        GenEnv {
            consts: self.consts@,
            pool: pool_view(self.pool@),
            rets: self.rets.view(),
            name: self.name@,
        }
    }

    spec fn wf(&self) -> bool {
        consts_wf(self.consts@, self.pool@.len())
    }
}

/// The generator's state while it compiles one function.
struct Gen {
    code: Vec<Instruction>,
    vars: StrMap<(u16, Type)>,
    amount: u16,
    scopes: Vec<(u16, u16)>,
}

impl Gen {
    spec fn view(&self) -> GenState {
        GenState {
            code: insts_view(self.code@),
            vars: self.vars.view().map_values(|v: (u16, Type)| (v.0 as int, v.1)),
            amount: self.amount as int,
            scopes: self.scopes@.map_values(|s: (u16, u16)| (s.0 as int, s.1 as int)),
        }
    }

    fn emit(&mut self, i: Instruction)
        ensures
            final(self).view() == emit(old(self).view(), i@),
            final(self).vars == old(self).vars,
            final(self).amount == old(self).amount,
            final(self).scopes == old(self).scopes,
    {
        self.code.push(i);
        proof {
            assert(insts_view(self.code@) =~= insts_view(old(self).code@).push(i@));
        }
    }
}

/// The instructions of a binary operator.
fn emit_op(g: &mut Gen, op: Operator)
    ensures
        final(g).view() == (GenState { code: old(g).view().code + op_code(op), ..old(g).view() }),
{
    let ghost c0 = g.view().code;
    match op {
        Operator::Add => g.emit(Instruction::Add),
        Operator::Sub => g.emit(Instruction::Sub),
        Operator::Mult => g.emit(Instruction::Mul),
        Operator::Div => g.emit(Instruction::Div),
        Operator::Mod => g.emit(Instruction::Mod),
        Operator::Eq => g.emit(Instruction::Eq),
        Operator::NEq => {
            g.emit(Instruction::Eq);
            g.emit(Instruction::Not);
        },
        Operator::Less => g.emit(Instruction::L),
        Operator::LEq => g.emit(Instruction::Le),
        Operator::Greater => g.emit(Instruction::G),
        Operator::GEq => g.emit(Instruction::Ge),
        Operator::BAnd => g.emit(Instruction::And),
        Operator::BOr => g.emit(Instruction::Or),
        Operator::BXor => g.emit(Instruction::Xor),
        Operator::And => g.emit(Instruction::And),
        Operator::Or => g.emit(Instruction::Or),
        Operator::Xor => g.emit(Instruction::Xor),
    }
    proof {
        assert(g.view().code =~= c0 + op_code(op));
    }
}

/// The label text `name`, `mid`, then the decimal digits of `start`.
fn label_base(name: &String, mid: &str, start: usize) -> (r: String)
    ensures
        r@ == name@ + mid@ + decimal(start as nat),
{
    let mut s = name.clone();
    s.append(mid);
    push_decimal(&mut s, start as u64);
    s
}

} // verus!

verus! {

/// Compiles an expression: see [`g_expr`].
fn gen_expr(env: &Env, g: &mut Gen, e: &ExprAST) -> (r: Option<Type>)
    requires
        env.wf(),
    ensures
        match g_expr(env.view(), old(g).view(), expr_view(*e)) {
            None => r is None,
            Some(p) => r == Some(p.1) && final(g).view() == p.0,
        },
    decreases e,
{
    match e {
        ExprAST::Var(x) => {
            let entry = g.vars.get(x);
            match entry {
                None => None,
                Some(en) => {
                    let idx = en.0;
                    let t = en.1;
                    if idx > g.amount {
                        return None;
                    }
                    let off = g.amount - idx;
                    let sz = t.size();
                    if g.amount as usize + sz > 65535 {
                        return None;
                    }
                    g.emit(Instruction::Push(0, off));
                    g.amount = g.amount + sz as u16;
                    Some(t)
                },
            }
        },
        ExprAST::Lit(l) => match get_const(env.consts, env.pool, l) {
            None => None,
            Some(idx) => {
                let t = l.get_type();
                let sz = t.size();
                if g.amount as usize + sz > 65535 {
                    return None;
                }
                g.emit(Instruction::Push(1, idx));
                g.amount = g.amount + sz as u16;
                Some(t)
            },
        },
        ExprAST::BinOp(op, a, b) => {
            let t0 = match gen_expr(env, g, a) {
                None => {
                    return None;
                },
                Some(t) => t,
            };
            let t1 = match gen_expr(env, g, b) {
                None => {
                    return None;
                },
                Some(t) => t,
            };
            let s0 = t0.size();
            let s1 = t1.size();
            if (g.amount as usize) < s0 + s1 {
                return None;
            }
            let a2 = g.amount as usize - s0 - s1;
            match binop_result(*op, t0, t1) {
                None => None,
                Some(t) => {
                    let a3 = a2 + t.size();
                    if a3 > 65535 {
                        return None;
                    }
                    emit_op(g, *op);
                    g.amount = a3 as u16;
                    Some(t)
                },
            }
        },
        ExprAST::Call(name, args) => {
            let before = g.amount;
            let ghost g0 = g.view();
            let ghost ev = env.view();
            let ghost argv = expressions_view(args@);
            proof {
                lemma_expressions_view_len(args@);
                assert(argv.subrange(0, argv.len() as int) =~= argv);
            }
            let mut i: usize = 0;
            while i < args.len()
                invariant
                    i <= args@.len(),
                    argv == expressions_view(args@),
                    argv.len() == args@.len(),
                    *e == ExprAST::Call(*name, *args),
                    env.wf(),
                    ev == env.view(),
                    g0 == old(g).view(),
                    g_args(ev, g0, argv) == g_args(
                        ev,
                        g.view(),
                        argv.subrange(i as int, argv.len() as int),
                    ),
                decreases args@.len() - i,
            {
                let ghost sub = argv.subrange(i as int, argv.len() as int);
                proof {
                    lemma_expressions_view_index(args@, i as int);
                    assert(sub[0] == argv[i as int]);
                    assert(sub.subrange(1, sub.len() as int) =~= argv.subrange(
                        i + 1,
                        argv.len() as int,
                    ));
                    assert((*e)->Call_1 == *args);
                    assert(decreases_to!(*e => args@[i as int].expr));
                }
                match gen_expr(env, g, &args[i].expr) {
                    None => {
                        return None;
                    },
                    Some(_) => {},
                }
                i = i + 1;
            }
            proof {
                assert(argv.subrange(i as int, argv.len() as int) =~= Seq::<ExpressionView>::empty());
            }
            match env.rets.get(name) {
                None => None,
                Some(rt) => {
                    let rt = *rt;
                    let amt = before as usize + rt.size();
                    if amt > 65535 {
                        return None;
                    }
                    g.emit(Instruction::Call(name.clone()));
                    g.amount = amt as u16;
                    Some(rt)
                },
            }
        },
    }
}

} // verus!

verus! {

/// Closes the innermost scope: see [`pop_scope`].
fn gen_pop_scope(g: &mut Gen) -> (r: bool)
    ensures
        match pop_scope(old(g).view()) {
            None => !r,
            Some(s) => r && final(g).view() == s,
        },
{
    let n = g.scopes.len();
    if n == 0 {
        return false;
    }
    let (cnt, bytes) = g.scopes[n - 1];
    if g.amount < bytes {
        return false;
    }
    let ghost c0 = g.view().code;
    let mut k: u16 = 0;
    while k < cnt
        invariant
            k <= cnt,
            g.view().code == c0 + Seq::new(k as nat, |i: int| InstView::Pop),
            g.scopes == old(g).scopes,
            g.amount == old(g).amount,
            g.vars == old(g).vars,
        decreases cnt - k,
    {
        g.emit(Instruction::Pop);
        k = k + 1;
        proof {
            assert(g.view().code =~= c0 + Seq::new(k as nat, |i: int| InstView::Pop));
        }
    }
    g.amount = g.amount - bytes;
    g.scopes.pop();
    proof {
        assert(g.view().scopes =~= old(g).view().scopes.drop_last());
    }
    true
}

/// Compiles a statement: see [`g_stmt`].
fn gen_stmt(env: &Env, g: &mut Gen, st: &Statement) -> (r: bool)
    requires
        env.wf(),
    ensures
        match g_stmt(env.view(), old(g).view(), statement_view(*st)) {
            None => !r,
            Some(s) => r && final(g).view() == s,
        },
    decreases st,
{
    match st {
        Statement::Expr(e) => {
            let before = g.amount;
            if gen_expr(env, g, &e.expr).is_none() {
                return false;
            }
            g.emit(Instruction::Pop);
            g.amount = before;
            true
        },
        Statement::Decl(d) => {
            if gen_expr(env, g, &d.val).is_none() {
                return false;
            }
            let sz = d.typ.size();
            let n = g.scopes.len();
            if n == 0 {
                return false;
            }
            let (cnt, bytes) = g.scopes[n - 1];
            if bytes as usize + sz > 65535 || cnt as usize + 1 > 65535 {
                return false;
            }
            let ghost vars0 = g.vars.view();
            let ghost sc0 = g.view().scopes;
            g.vars.insert(d.ident.clone(), (g.amount, d.typ));
            g.scopes.set(n - 1, (cnt + 1, bytes + sz as u16));
            proof {
                assert(g.view().vars =~= vars0.map_values(|v: (u16, Type)| (v.0 as int, v.1)).insert(
                    d.ident@,
                    (g.amount as int, d.typ),
                ));
                assert(g.view().scopes =~= sc0.update(n - 1, (cnt + 1, bytes + sz)));
            }
            true
        },
        Statement::Assign(a) => {
            let before = g.amount;
            if gen_expr(env, g, &a.val).is_none() {
                return false;
            }
            let entry = g.vars.get(&a.ident);
            match entry {
                None => false,
                Some(en) => {
                    let idx = en.0;
                    if idx > g.amount {
                        return false;
                    }
                    let off = g.amount - idx;
                    g.emit(Instruction::Mov(off));
                    g.emit(Instruction::Pop);
                    g.amount = before;
                    true
                },
            }
        },
        Statement::Return(ret) => {
            let before = g.amount;
            if gen_expr(env, g, &ret.expr.expr).is_none() {
                return false;
            }
            let amt = g.amount;
            g.emit(Instruction::Ret(amt));
            g.amount = before;
            true
        },
        Statement::If(ifb) => {
            let before = g.amount;
            let start = g.code.len();
            let tc = match gen_expr(env, g, &ifb.cond.expr) {
                None => {
                    return false;
                },
                Some(t) => t,
            };
            let sz = tc.size();
            if (g.amount as usize) < sz {
                return false;
            }
            g.amount = g.amount - sz as u16;
            let mut else_label = label_base(env.name, "-if_", start);
            else_label.append("_else");
            let mut end_label = label_base(env.name, "-if_", start);
            end_label.append("_end");
            g.emit(Instruction::Jnz(else_label.clone()));
            let ghost sc1 = g.view().scopes;
            g.scopes.push((0, 0));
            proof {
                assert(g.view().scopes =~= sc1.push((0, 0)));
            }
            if !gen_stmts(env, g, &ifb.tcode) {
                return false;
            }
            if !gen_pop_scope(g) {
                return false;
            }
            g.emit(Instruction::Jmp(end_label.clone()));
            g.emit(Instruction::Label(else_label));
            let ghost sc = g.view().scopes;
            g.scopes.push((0, 0));
            proof {
                assert(g.view().scopes =~= sc.push((0, 0)));
            }
            if !gen_stmts(env, g, &ifb.ecode) {
                return false;
            }
            if !gen_pop_scope(g) {
                return false;
            }
            g.emit(Instruction::Label(end_label));
            g.amount = before;
            true
        },
        Statement::While(w) => {
            let before = g.amount;
            let start = g.code.len();
            let top_label = label_base(env.name, "-while_", start);
            let mut end_label = label_base(env.name, "-while_", start);
            end_label.append("_end");
            g.emit(Instruction::Label(top_label.clone()));
            let tc = match gen_expr(env, g, &w.cond.expr) {
                None => {
                    return false;
                },
                Some(t) => t,
            };
            let sz = tc.size();
            if (g.amount as usize) < sz {
                return false;
            }
            g.amount = g.amount - sz as u16;
            g.emit(Instruction::Jnz(end_label.clone()));
            let ghost sc = g.view().scopes;
            g.scopes.push((0, 0));
            proof {
                assert(g.view().scopes =~= sc.push((0, 0)));
            }
            if !gen_stmts(env, g, &w.code) {
                return false;
            }
            if !gen_pop_scope(g) {
                return false;
            }
            g.emit(Instruction::Jmp(top_label));
            g.emit(Instruction::Label(end_label));
            g.amount = before;
            true
        },
    }
}

/// Compiles a block in order: see [`g_stmts`].
fn gen_stmts(env: &Env, g: &mut Gen, code: &Vec<Statement>) -> (r: bool)
    requires
        env.wf(),
    ensures
        match g_stmts(env.view(), old(g).view(), statements_view(code@)) {
            None => !r,
            Some(s) => r && final(g).view() == s,
        },
    decreases code@,
{
    let ghost ev = env.view();
    let ghost g0 = g.view();
    let ghost cv = statements_view(code@);
    proof {
        lemma_statements_view_len(code@);
        assert(cv.subrange(0, cv.len() as int) =~= cv);
    }
    let mut i: usize = 0;
    while i < code.len()
        invariant
            i <= code@.len(),
            cv == statements_view(code@),
            cv.len() == code@.len(),
            env.wf(),
            ev == env.view(),
            g0 == old(g).view(),
            g_stmts(ev, g0, cv) == g_stmts(ev, g.view(), cv.subrange(i as int, cv.len() as int)),
        decreases code@.len() - i,
    {
        let ghost sub = cv.subrange(i as int, cv.len() as int);
        proof {
            lemma_statements_view_index(code@, i as int);
            assert(sub[0] == cv[i as int]);
            assert(sub.subrange(1, sub.len() as int) =~= cv.subrange(i + 1, cv.len() as int));
        }
        if !gen_stmt(env, g, &code[i]) {
            return false;
        }
        i = i + 1;
    }
    proof {
        assert(cv.subrange(i as int, cv.len() as int) =~= Seq::<StatementView>::empty());
    }
    true
}

} // verus!

verus! {

pub(crate) proof fn lemma_params_size_mono(params: Seq<(Seq<char>, Type)>, a: int, b: int)
    requires
        0 <= a <= b <= params.len(),
    ensures
        params_size(params.take(a)) <= params_size(params.take(b)),
    decreases b - a,
{
    if a < b {
        assert(params.take(b).drop_last() =~= params.take(b - 1));
        lemma_params_size_mono(params, a, b - 1);
    }
}

/// Compiles one function against the pools and the return types.
pub struct FuncCompiler<'a> {
    consts: &'a Vec<u8>,
    pool: &'a Vec<String>,
    ret_types: &'a StrMap<Type>,
    func: &'a FunctionAst,
}

impl<'a> FuncCompiler<'a> {
    /// The pools, the return types and the function's name.
    pub closed spec fn env_view(&self) -> GenEnv {
        GenEnv {
            consts: self.consts@,
            pool: pool_view(self.pool@),
            rets: self.ret_types.view(),
            name: self.func.name@,
        }
    }

    /// The function to compile.
    pub closed spec fn func_view(&self) -> FunctionView {
        function_view(*self.func)
    }

    /// The constant pool is whole and names strings of the string pool.
    pub closed spec fn pools_wf(&self) -> bool {
        consts_wf(self.consts@, self.pool@.len())
    }

    pub fn new(
        consts: &'a Vec<u8>,
        pool: &'a Vec<String>,
        ret_types: &'a StrMap<Type>,
        func: &'a FunctionAst,
    ) -> (r: Self)
        ensures
            r.env_view() == (GenEnv {
                consts: consts@,
                pool: pool_view(pool@),
                rets: ret_types.view(),
                name: func.name@,
            }),
            r.func_view() == function_view(*func),
            r.pools_wf() == consts_wf(consts@, pool@.len()),
    {
        FuncCompiler { consts, pool, ret_types, func }
    }

    /// The offset, as a 16-bit index, of the first constant-pool entry that
    /// holds the literal's value; `None` where no entry does.
    pub fn get_const(consts: &Vec<u8>, pool: &Vec<String>, lit: &Literal) -> (r: Option<u16>)
        requires
            consts_wf(consts@, pool@.len()),
        ensures
            r == (match find_const(consts@, pool_view(pool@), lit@, 0) {
                Some(o) => Some(o as u16),
                None => None,
            }),
    {
        get_const(consts, pool, lit)
    }

    /// The function's code: see [`g_func`].
    pub fn compile(self) -> (r: Option<Vec<Instruction>>)
        requires
            self.pools_wf(),
        ensures
            match g_func(self.env_view(), self.func_view()) {
                None => r is None,
                Some(c) => r matches Some(v) && insts_view(v@) == c,
            },
    {
        let func = self.func;
        let env = Env { consts: self.consts, pool: self.pool, rets: self.ret_types, name: &func.name };
        let ghost pv = params_view(func.params@);
        let n = func.params.len();
        let mut pre: Vec<usize> = Vec::new();
        pre.push(0);
        proof {
            assert(pv.take(0) =~= Seq::<(Seq<char>, Type)>::empty());
        }
        let mut j: usize = 0;
        while j < n
            invariant
                j <= n,
                n == func.params@.len(),
                pv == params_view(func.params@),
                pre@.len() == j + 1,
                forall|k: int| 0 <= k <= j ==> pre@[k] == params_size(#[trigger] pv.take(k)),
                self.func_view().params == pv,
            decreases n - j,
        {
            proof {
                assert(pv.take(j + 1).drop_last() =~= pv.take(j as int));
                assert(pv.take(j + 1).last() == pv[j as int]);
                assert(params_size(pv.take(j + 1)) == pre@[j as int] + spec_type_size(
                    func.params@[j as int].1,
                ));
            }
            match pre[j].checked_add(func.params[j].1.size()) {
                None => {
                    proof {
                        lemma_params_size_mono(pv, j + 1, n as int);
                        assert(pv.take(n as int) =~= pv);
                    }
                    return None;
                },
                Some(v) => {
                    pre.push(v);
                },
            }
            j = j + 1;
        }
        proof {
            assert(pv.take(n as int) =~= pv);
        }
        let mut vars: StrMap<(u16, Type)> = StrMap::new();
        let mut k: usize = 0;
        proof {
            assert(vars.view().map_values(|v: (u16, Type)| (v.0 as int, v.1)) =~= param_slots(pv, 0));
        }
        while k < n
            invariant
                k <= n,
                n == func.params@.len(),
                pv == params_view(func.params@),
                pre@.len() == n + 1,
                forall|m: int| 0 <= m <= n ==> pre@[m] == params_size(#[trigger] pv.take(m)),
                vars.view().map_values(|v: (u16, Type)| (v.0 as int, v.1)) == param_slots(
                    pv,
                    k as int,
                ),
            decreases n - k,
        {
            let ghost before = vars.view();
            vars.insert(func.params[k].0.clone(), (pre[n - k] as u16, func.params[k].1));
            proof {
                assert(pre@[n - k] == params_size(pv.take(n - k)));
                assert(vars.view().map_values(|v: (u16, Type)| (v.0 as int, v.1)) =~= param_slots(
                    pv,
                    k + 1,
                ));
            }
            k = k + 1;
        }
        let mut code: Vec<Instruction> = Vec::new();
        code.push(Instruction::Label(func.name.clone()));
        code.push(Instruction::Fun(n as u16));
        let mut scopes: Vec<(u16, u16)> = Vec::new();
        scopes.push((0, 0));
        let mut g = Gen { code, vars, amount: pre[n] as u16, scopes };
        proof {
            assert(g.view().code =~= seq![InstView::Label(func.name@), InstView::Fun(n as u16)]);
            assert(g.view().scopes =~= seq![(0int, 0int)]);
        }
        if gen_stmts(&env, &mut g, &func.code) {
            Some(g.code)
        } else {
            None
        }
    }
}

} // verus!

verus! {

/// Once compiling a prefix of the functions fails, compiling them all fails.
proof fn lemma_g_funcs_prefix_none(env: GenEnv, fns: Seq<FunctionView>, k: int)
    requires
        0 <= k <= fns.len(),
        g_funcs(env, fns.take(k)) is None,
    ensures
        g_funcs(env, fns) is None,
    decreases fns.len(),
{
    if k == fns.len() {
        assert(fns.take(k) =~= fns);
    } else {
        assert(fns.drop_last().take(k) =~= fns.take(k));
        lemma_g_funcs_prefix_none(env, fns.drop_last(), k);
    }
}

/// Gathers the program's literals into the pools, then compiles each
/// function and composes their code.
pub struct CompilerComposer {
    consts: Vec<u8>,
    pool: Vec<String>,
    funcs: Vec<FunctionAst>,
}

impl CompilerComposer {
    pub closed spec fn funcs_view(&self) -> Seq<FunctionView> {
        functions_view(self.funcs@)
    }

    pub closed spec fn consts_view(&self) -> Seq<u8> {
        self.consts@
    }

    /// The string pool.
    pub closed spec fn strings_view(&self) -> Seq<Seq<char>> {
        pool_view(self.pool@)
    }

    /// The constant pool is whole and names strings of the string pool.
    pub closed spec fn wf(&self) -> bool {
        consts_wf(self.consts@, self.pool@.len())
    }

    /// Gathers the literals of every function body, in order, into the
    /// constant pool and the string pool.
    pub fn new(funcs: Vec<FunctionAst>) -> (r: Self)
        requires
            program_literals(functions_view(funcs@)).len() < u16::MAX,
        ensures
            r.funcs_view() == functions_view(funcs@),
            (r.consts_view(), r.strings_view()) == program_pools(functions_view(funcs@)),
            r.wf(),
    {
        let ghost fv = functions_view(funcs@);
        let mut consts: Vec<u8> = Vec::new();
        let mut pool: Vec<String> = Vec::new();
        let mut k: usize = 0;
        proof {
            assert(fv.take(0) =~= Seq::<FunctionView>::empty());
            assert(pool_view(pool@) =~= Seq::<Seq<char>>::empty());
        }
        while k < funcs.len()
            invariant
                k <= funcs@.len(),
                fv == functions_view(funcs@),
                program_literals(fv).len() < u16::MAX,
                consts_wf(consts@, pool@.len()),
                pool@.len() <= program_literals(fv.take(k as int)).len(),
                (consts@, pool_view(pool@)) == add_consts(
                    Seq::empty(),
                    Seq::empty(),
                    program_literals(fv.take(k as int)),
                ),
            decreases funcs@.len() - k,
        {
            proof {
                assert(fv.take(k + 1).drop_last() =~= fv.take(k as int));
                assert(fv.take(k + 1).last() == function_view(funcs@[k as int]));
                lemma_program_literals_prefix(fv, k + 1);
                lemma_add_consts_concat(
                    Seq::empty(),
                    Seq::empty(),
                    program_literals(fv.take(k as int)),
                    stmts_literals(statements_view(funcs@[k as int].code@)),
                );
            }
            consts_in_stmts(&mut consts, &mut pool, &funcs[k].code);
            k = k + 1;
        }
        proof {
            assert(fv.take(k as int) =~= fv);
        }
        CompilerComposer { consts, pool, funcs }
    }

    /// The code of the program: see [`program_code`]. The function named
    /// `main` comes first; `None` where generation fails.
    pub fn parallel_compile(&self) -> (r: Option<Vec<Instruction>>)
        requires
            self.wf(),
        ensures
            match program_code(self.consts_view(), self.strings_view(), self.funcs_view()) {
                None => r is None,
                Some(c) => r matches Some(v) && insts_view(v@) == c,
            },
    {
        let ghost fv = functions_view(self.funcs@);
        let n = self.funcs.len();
        let mut rets: StrMap<Type> = StrMap::new();
        let mut k: usize = 0;
        proof {
            assert(fv.take(0) =~= Seq::<FunctionView>::empty());
        }
        while k < n
            invariant
                k <= n,
                n == self.funcs@.len(),
                fv == functions_view(self.funcs@),
                rets.view() == ret_types(fv.take(k as int)),
            decreases n - k,
        {
            proof {
                assert(fv.take(k + 1).drop_last() =~= fv.take(k as int));
            }
            rets.insert(self.funcs[k].name.clone(), self.funcs[k].ret_type);
            k = k + 1;
        }
        proof {
            assert(fv.take(n as int) =~= fv);
        }
        let ghost env = GenEnv {
            consts: self.consts@,
            pool: pool_view(self.pool@),
            rets: ret_types(fv),
            name: Seq::empty(),
        };
        // The first function named `main`.
        let main_name = string_from("main");
        let mut main_at: Option<usize> = None;
        let mut i: usize = 0;
        while i < n
            invariant_except_break
                i <= n,
                main_at is None,
                main_index(fv, 0) == main_index(fv, i as int),
            invariant
                n == self.funcs@.len(),
                fv == functions_view(self.funcs@),
                main_name@ == "main"@,
            ensures
                main_at matches Some(m) ==> (m < n && main_index(fv, 0) == Some(m as int)),
                main_at is None ==> main_index(fv, 0) is None,
            decreases n - i,
        {
            proof {
                assert(fv[i as int].name == self.funcs@[i as int].name@);
            }
            if self.funcs[i].name.eq(&main_name) {
                main_at = Some(i);
                break;
            }
            i = i + 1;
        }
        let ghost order: Seq<FunctionView> = match main_at {
            Some(m) => swap_removed(fv, m as int),
            None => fv,
        };
        let mut all: Vec<Instruction> = Vec::new();
        let ghost head: Seq<InstView> = Seq::empty();
        if let Some(m) = main_at {
            let fc = FuncCompiler::new(&self.consts, &self.pool, &rets, &self.funcs[m]);
            match fc.compile() {
                None => {
                    proof {
                        assert(seq![fv[m as int]].drop_last() =~= Seq::<FunctionView>::empty());
                    }
                    return None;
                },
                Some(c) => {
                    all = c;
                },
            }
            proof {
                assert(seq![fv[m as int]].drop_last() =~= Seq::<FunctionView>::empty());
                head = insts_view(all@);
                assert(seq![fv[m as int]].last() == fv[m as int]);
                assert(g_funcs(env, Seq::<FunctionView>::empty()) == Some(Seq::<InstView>::empty()));
                assert(Seq::<InstView>::empty() + head =~= head);
                assert(g_funcs(env, seq![fv[m as int]]) == Some(head));
            }
        }
        let len = match main_at {
            Some(_) => n - 1,
            None => n,
        };
        proof {
            assert(order.len() == len);
            assert(order.take(0) =~= Seq::<FunctionView>::empty());
            assert(insts_view(all@) =~= head + Seq::<InstView>::empty());
        }
        let mut p: usize = 0;
        while p < len
            invariant
                p <= len,
                n == self.funcs@.len(),
                fv == functions_view(self.funcs@),
                self.wf(),
                rets.view() == ret_types(fv),
                env == (GenEnv {
                    consts: self.consts@,
                    pool: pool_view(self.pool@),
                    rets: ret_types(fv),
                    name: Seq::empty(),
                }),
                order.len() == len,
                main_at matches Some(m) ==> (m < n && len == n - 1 && order == swap_removed(
                    fv,
                    m as int,
                )),
                main_at is None ==> (len == n && order == fv),
                main_at matches Some(m) ==> (main_index(fv, 0) == Some(m as int) && g_funcs(
                    env,
                    seq![fv[m as int]],
                ) == Some(head)),
                main_at is None ==> (main_index(fv, 0) is None && head == Seq::<InstView>::empty()),
                g_funcs(env, order.take(p as int)) matches Some(c) && insts_view(all@) == head
                    + c,
            decreases len - p,
        {
            let idx: usize = match main_at {
                Some(m) => if p == m {
                    n - 1
                } else {
                    p
                },
                None => p,
            };
            proof {
                assert(order[p as int] == fv[idx as int]);
                assert(order.take(p + 1).drop_last() =~= order.take(p as int));
                assert(order.take(p + 1).last() == fv[idx as int]);
            }
            let fc = FuncCompiler::new(&self.consts, &self.pool, &rets, &self.funcs[idx]);
            match fc.compile() {
                None => {
                    proof {
                        lemma_g_funcs_prefix_none(env, order, p + 1);
                    }
                    return None;
                },
                Some(mut c) => {
                    let ghost before = insts_view(all@);
                    let ghost cv = insts_view(c@);
                    all.append(&mut c);
                    proof {
                        assert(insts_view(all@) =~= before + cv);
                    }
                },
            }
            p = p + 1;
        }
        proof {
            assert(order.take(len as int) =~= order);
        }
        Some(all)
    }

    /// The string pool and the constant pool.
    pub fn extract_pool_and_consts(self) -> (r: (Vec<String>, Vec<u8>))
        ensures
            pool_view(r.0@) == self.strings_view(),
            r.1@ == self.consts_view(),
            consts_wf(r.1@, r.0@.len()) == self.wf(),
    {
        (self.pool, self.consts)
    }
}

} // verus!

verus! {

/// The number of literals in an expression, or `cap` where there are more.
fn count_expr_literals(e: &ExprAST, cap: usize) -> (r: usize)
    ensures
        r == if expr_literals(expr_view(*e)).len() < cap {
            expr_literals(expr_view(*e)).len()
        } else {
            cap as nat
        },
    decreases e,
{
    match e {
        ExprAST::Var(_) => 0,
        ExprAST::Lit(_) => if cap > 1 {
            1
        } else {
            cap
        },
        ExprAST::BinOp(_, a, b) => {
            let x = count_expr_literals(a, cap);
            if x >= cap {
                return cap;
            }
            let y = count_expr_literals(b, cap - x);
            x + y
        },
        ExprAST::Call(name, args) => {
            let ghost argv = expressions_view(args@);
            proof {
                lemma_expressions_view_len(args@);
                assert(argv.subrange(0, argv.len() as int) =~= argv);
            }
            let mut total: usize = 0;
            let mut i: usize = 0;
            while i < args.len()
                invariant
                    i <= args@.len(),
                    argv == expressions_view(args@),
                    argv.len() == args@.len(),
                    *e == ExprAST::Call(*name, *args),
                    total < cap || (total == 0 && cap == 0),
                    args_literals(argv).len() == total + args_literals(
                        argv.subrange(i as int, argv.len() as int),
                    ).len(),
                decreases args@.len() - i,
            {
                let ghost sub = argv.subrange(i as int, argv.len() as int);
                proof {
                    lemma_expressions_view_index(args@, i as int);
                    assert(sub[0] == argv[i as int]);
                    assert(sub.subrange(1, sub.len() as int) =~= argv.subrange(
                        i + 1,
                        argv.len() as int,
                    ));
                    assert((*e)->Call_1 == *args);
                    assert(decreases_to!(*e => args@[i as int].expr));
                }
                let c = count_expr_literals(&args[i].expr, cap - total);
                if c >= cap - total {
                    return cap;
                }
                total = total + c;
                i = i + 1;
            }
            proof {
                assert(argv.subrange(i as int, argv.len() as int) =~= Seq::<ExpressionView>::empty());
            }
            total
        },
    }
}

/// The number of literals in a statement, or `cap` where there are more.
fn count_stmt_literals(st: &Statement, cap: usize) -> (r: usize)
    ensures
        r == if stmt_literals(statement_view(*st)).len() < cap {
            stmt_literals(statement_view(*st)).len()
        } else {
            cap as nat
        },
    decreases st,
{
    match st {
        Statement::Expr(e) => count_expr_literals(&e.expr, cap),
        Statement::Decl(d) => count_expr_literals(&d.val, cap),
        Statement::Assign(a) => count_expr_literals(&a.val, cap),
        Statement::Return(r) => count_expr_literals(&r.expr.expr, cap),
        Statement::If(ifb) => {
            let x = count_expr_literals(&ifb.cond.expr, cap);
            if x >= cap {
                return cap;
            }
            let y = count_stmts_literals(&ifb.tcode, cap - x);
            if y >= cap - x {
                return cap;
            }
            let z = count_stmts_literals(&ifb.ecode, cap - x - y);
            x + y + z
        },
        Statement::While(w) => {
            let x = count_expr_literals(&w.cond.expr, cap);
            if x >= cap {
                return cap;
            }
            let y = count_stmts_literals(&w.code, cap - x);
            x + y
        },
    }
}

/// The number of literals in a block, or `cap` where there are more.
fn count_stmts_literals(code: &Vec<Statement>, cap: usize) -> (r: usize)
    ensures
        r == if stmts_literals(statements_view(code@)).len() < cap {
            stmts_literals(statements_view(code@)).len()
        } else {
            cap as nat
        },
    decreases code@,
{
    let ghost cv = statements_view(code@);
    proof {
        lemma_statements_view_len(code@);
        assert(cv.subrange(0, cv.len() as int) =~= cv);
    }
    let mut total: usize = 0;
    let mut i: usize = 0;
    while i < code.len()
        invariant
            i <= code@.len(),
            cv == statements_view(code@),
            cv.len() == code@.len(),
            total < cap || (total == 0 && cap == 0),
            stmts_literals(cv).len() == total + stmts_literals(
                cv.subrange(i as int, cv.len() as int),
            ).len(),
        decreases code@.len() - i,
    {
        let ghost sub = cv.subrange(i as int, cv.len() as int);
        proof {
            lemma_statements_view_index(code@, i as int);
            assert(sub[0] == cv[i as int]);
            assert(sub.subrange(1, sub.len() as int) =~= cv.subrange(i + 1, cv.len() as int));
        }
        let c = count_stmt_literals(&code[i], cap - total);
        if c >= cap - total {
            return cap;
        }
        total = total + c;
        i = i + 1;
    }
    proof {
        assert(cv.subrange(i as int, cv.len() as int) =~= Seq::<StatementView>::empty());
    }
    total
}

/// The number of literals in the program's function bodies, or `cap`
/// where there are more.
pub fn count_program_literals(funcs: &Vec<FunctionAst>, cap: usize) -> (r: usize)
    ensures
        r == if program_literals(functions_view(funcs@)).len() < cap {
            program_literals(functions_view(funcs@)).len()
        } else {
            cap as nat
        },
{
    let ghost fv = functions_view(funcs@);
    let mut total: usize = 0;
    let mut k: usize = 0;
    proof {
        assert(fv.take(0) =~= Seq::<FunctionView>::empty());
    }
    while k < funcs.len()
        invariant
            k <= funcs@.len(),
            fv == functions_view(funcs@),
            total < cap || (total == 0 && cap == 0),
            total == program_literals(fv.take(k as int)).len(),
        decreases funcs@.len() - k,
    {
        proof {
            assert(fv.take(k + 1).drop_last() =~= fv.take(k as int));
            assert(fv.take(k + 1).last() == function_view(funcs@[k as int]));
            lemma_program_literals_prefix(fv, k + 1);
        }
        let c = count_stmts_literals(&funcs[k].code, cap - total);
        if c >= cap - total {
            return cap;
        }
        total = total + c;
        k = k + 1;
    }
    proof {
        assert(fv.take(k as int) =~= fv);
    }
    total
}

} // verus!

verus! {

/// Where no entry of a whole pool holds a literal, a search in the pool
/// with entries appended goes on past the old entries.
proof fn lemma_find_skip(
    c: Seq<u8>,
    e: Seq<u8>,
    pool: Seq<Seq<char>>,
    pool2: Seq<Seq<char>>,
    lit: LiteralView,
    off: int,
)
    requires
        consts_wf_from(c, pool.len(), off),
        pool.len() <= pool2.len(),
        pool2.take(pool.len() as int) == pool,
        find_const(c, pool, lit, off) is None,
    ensures
        find_const(c + e, pool2, lit, off) == find_const(c + e, pool2, lit, c.len() as int),
    decreases c.len() - off,
{
    if off < c.len() {
        let sz = const_entry_size(c[off]);
        let ce = c + e;
        assert(ce[off] == c[off]);
        assert(ce[off + 1] == c[off + 1]);
        if c[off] == INT_NUM {
            assert(ce[off + 2] == c[off + 2]);
            assert(ce[off + 3] == c[off + 3]);
            assert(ce[off + 4] == c[off + 4]);
            assert(i32_at(ce, off + 1) == i32_at(c, off + 1));
        }
        if c[off] == STRING_NUM {
            assert(ce[off + 2] == c[off + 2]);
            assert(u16_at(ce, off + 1) == u16_at(c, off + 1));
            assert(pool2[u16_at(c, off + 1) as int] == pool[u16_at(c, off + 1) as int]);
        }
        if c[off] == DCML_NUM {
            assert(ce.subrange(off + 1, off + 9) =~= c.subrange(off + 1, off + 9));
        }
        assert(entry_matches(ce, pool2, off, lit) == entry_matches(c, pool, off, lit));
        lemma_find_skip(c, e, pool, pool2, lit, off + sz);
    }
}

/// Adding a literal keeps the constant pool whole and its strings in range.
pub proof fn lemma_add_const_wf(consts: Seq<u8>, pool: Seq<Seq<char>>, lit: LiteralView)
    requires
        consts_wf(consts, pool.len()),
        pool.len() < u16::MAX,
    ensures
        consts_wf(add_const_spec(consts, pool, lit).0, add_const_spec(consts, pool, lit).1.len()),
        add_const_spec(consts, pool, lit).1.take(pool.len() as int) == pool,
        pool.len() <= add_const_spec(consts, pool, lit).1.len() <= pool.len() + 1,
{
    let (c2, p2) = add_const_spec(consts, pool, lit);
    if find_const(consts, pool, lit, 0) is Some {
        assert(pool.take(pool.len() as int) =~= pool);
    } else {
        assert(p2.take(pool.len() as int) =~= pool);
        match lit {
            LiteralView::Int(i) => {
                lemma_i32_roundtrip(i);
                assert(c2 =~= consts + (seq![INT_NUM] + i32_bytes(i)));
                lemma_new_entry_wf(consts, INT_NUM, i32_bytes(i), p2.len());
                lemma_wf_append(consts, seq![INT_NUM] + i32_bytes(i), pool.len(), p2.len(), 0);
            },
            LiteralView::Bool(b) => {
                let byte: u8 = if b { 1u8 } else { 0u8 };
                assert(c2 =~= consts + (seq![BOOL_NUM] + seq![byte]));
                lemma_new_entry_wf(consts, BOOL_NUM, seq![byte], p2.len());
                lemma_wf_append(consts, seq![BOOL_NUM] + seq![byte], pool.len(), p2.len(), 0);
            },
            LiteralView::Dcml(x) => {
                lemma_u64_roundtrip(x);
                let e = seq![DCML_NUM] + u64_bytes(x);
                assert(c2 =~= consts + e);
                lemma_new_entry_wf(consts, DCML_NUM, u64_bytes(x), p2.len());
                lemma_wf_append(consts, e, pool.len(), p2.len(), 0);
            },
            LiteralView::String(s) => {
                let ind = pool.len() as u16;
                lemma_u16_roundtrip(ind);
                let e = seq![STRING_NUM] + u16_bytes(ind);
                assert(c2 =~= consts + e);
                assert((consts + e)[consts.len() as int + 1] == u16_bytes(ind)[0]);
                assert((consts + e)[consts.len() as int + 2] == u16_bytes(ind)[1]);
                assert(u16_at(consts + e, consts.len() as int + 1) == u16_at(u16_bytes(ind), 0));
                lemma_new_entry_wf(consts, STRING_NUM, u16_bytes(ind), p2.len());
                lemma_wf_append(consts, e, pool.len(), p2.len(), 0);
            },
        }
    }
}

/// Once a literal is added, the constant pool holds it: a search for it
/// finds an entry.
pub proof fn law_added_const_is_found(consts: Seq<u8>, pool: Seq<Seq<char>>, lit: LiteralView)
    requires
        consts_wf(consts, pool.len()),
        pool.len() < u16::MAX,
    ensures
        find_const(add_const_spec(consts, pool, lit).0, add_const_spec(consts, pool, lit).1, lit, 0)
            is Some,
{
    let (c2, p2) = add_const_spec(consts, pool, lit);
    if find_const(consts, pool, lit, 0) is None {
        lemma_add_const_wf(consts, pool, lit);
        let e = c2.subrange(consts.len() as int, c2.len() as int);
        assert(consts + e =~= c2);
        lemma_find_skip(consts, e, pool, p2, lit, 0);
        let at = consts.len() as int;
        assert(c2[at] == match lit {
            LiteralView::Int(_) => INT_NUM,
            LiteralView::Dcml(_) => DCML_NUM,
            LiteralView::Bool(_) => BOOL_NUM,
            LiteralView::String(_) => STRING_NUM,
        });
        match lit {
            LiteralView::Int(i) => {
                lemma_i32_roundtrip(i);
                assert(c2[at + 1] == i32_bytes(i)[0]);
                assert(c2[at + 2] == i32_bytes(i)[1]);
                assert(c2[at + 3] == i32_bytes(i)[2]);
                assert(c2[at + 4] == i32_bytes(i)[3]);
                assert(i32_at(c2, at + 1) == i32_at(i32_bytes(i), 0));
            },
            LiteralView::Bool(b) => {},
            LiteralView::Dcml(x) => {
                lemma_u64_roundtrip(x);
                assert(c2.subrange(at + 1, at + 9) =~= u64_bytes(x).subrange(0, 8));
            },
            LiteralView::String(s) => {
                lemma_u16_roundtrip(pool.len() as u16);
                assert(c2[at + 1] == u16_bytes(pool.len() as u16)[0]);
                assert(c2[at + 2] == u16_bytes(pool.len() as u16)[1]);
                assert(u16_at(c2, at + 1) == u16_at(u16_bytes(pool.len() as u16), 0));
            },
        }
        assert(entry_matches(c2, p2, at, lit));
    }
}

/// Adding a literal does not move a constant that the pool held before:
/// the search for it finds the same entry.
pub proof fn law_add_const_keeps_found(
    consts: Seq<u8>,
    pool: Seq<Seq<char>>,
    lit: LiteralView,
    other: LiteralView,
)
    requires
        consts_wf(consts, pool.len()),
        pool.len() < u16::MAX,
        find_const(consts, pool, other, 0) is Some,
    ensures
        find_const(add_const_spec(consts, pool, lit).0, add_const_spec(consts, pool, lit).1, other, 0)
            == find_const(consts, pool, other, 0),
{
    let (c2, p2) = add_const_spec(consts, pool, lit);
    lemma_add_const_wf(consts, pool, lit);
    let e = c2.subrange(consts.len() as int, c2.len() as int);
    if find_const(consts, pool, lit, 0) is None {
        assert(consts + e =~= c2);
    } else {
        assert(e =~= Seq::<u8>::empty());
        assert(consts + e =~= c2);
    }
    lemma_find_append(consts, e, pool, p2, other, 0);
}

/// Adding a literal twice is adding it once.
pub proof fn law_add_const_idempotent(consts: Seq<u8>, pool: Seq<Seq<char>>, lit: LiteralView)
    requires
        consts_wf(consts, pool.len()),
        pool.len() < u16::MAX,
    ensures
        add_const_spec(add_const_spec(consts, pool, lit).0, add_const_spec(consts, pool, lit).1, lit)
            == add_const_spec(consts, pool, lit),
{
    law_added_const_is_found(consts, pool, lit);
}

} // verus!

verus! {

/// Adding literals keeps the constant pool whole; each adds at most one
/// string.
proof fn lemma_add_consts_wf(c: Seq<u8>, p: Seq<Seq<char>>, lits: Seq<LiteralView>)
    requires
        consts_wf(c, p.len()),
        p.len() + lits.len() < u16::MAX,
    ensures
        consts_wf(add_consts(c, p, lits).0, add_consts(c, p, lits).1.len()),
        add_consts(c, p, lits).1.len() <= p.len() + lits.len(),
    decreases lits.len(),
{
    if lits.len() > 0 {
        lemma_add_consts_wf(c, p, lits.drop_last());
        let (c1, p1) = add_consts(c, p, lits.drop_last());
        lemma_add_const_wf(c1, p1, lits.last());
    }
}

proof fn lemma_add_consts_found(c: Seq<u8>, p: Seq<Seq<char>>, lits: Seq<LiteralView>, i: int)
    requires
        consts_wf(c, p.len()),
        p.len() + lits.len() < u16::MAX,
        0 <= i < lits.len(),
    ensures
        find_const(add_consts(c, p, lits).0, add_consts(c, p, lits).1, lits[i], 0) is Some,
    decreases lits.len(),
{
    let rest = lits.drop_last();
    lemma_add_consts_wf(c, p, rest);
    let (c1, p1) = add_consts(c, p, rest);
    if i == lits.len() - 1 {
        law_added_const_is_found(c1, p1, lits.last());
    } else {
        lemma_add_consts_found(c, p, rest, i);
        assert(rest[i] == lits[i]);
        law_add_const_keeps_found(c1, p1, lits.last(), lits[i]);
    }
}

/// Every literal of a program has an entry in the program's pools, so the
/// generator finds a constant for each literal it meets.
pub proof fn law_program_literals_found(fns: Seq<FunctionView>, i: int)
    requires
        program_literals(fns).len() < u16::MAX,
        0 <= i < program_literals(fns).len(),
    ensures
        find_const(program_pools(fns).0, program_pools(fns).1, program_literals(fns)[i], 0) is Some,
        consts_wf(program_pools(fns).0, program_pools(fns).1.len()),
{
    assert(consts_wf(Seq::<u8>::empty(), 0));
    lemma_add_consts_found(Seq::empty(), Seq::empty(), program_literals(fns), i);
    lemma_add_consts_wf(Seq::empty(), Seq::empty(), program_literals(fns));
}

} // verus!
