//! The type checker: every expression gets a type, and declarations,
//! assignments and calls must agree with the types they name.
use vstd::prelude::*;
use crate::ast::{
    ExprAST, ExprView, Expression, ExpressionView, FunctionAst, FunctionView, Statement,
    StatementView, Loc, expr_view, expression_view, expressions_view, function_view,
    functions_view, statement_view, statements_view, lemma_expressions_view_index, lemma_expressions_view_len,
    lemma_statements_view_index, lemma_statements_view_len, params_view,
};
use crate::errors::{CompileError, CompileErrorView, ErrorType, ErrorTypeView, errors_view};
use crate::strmap::StrMap;
use crate::text::{decimal, push_decimal, string_from};
use crate::tokens::{LiteralView, Operator, Type};

verus! {

/// The outcome of checking one piece of a program: a result, an error that
/// was recorded, or a name with no binding. The checker has no answer for a
/// variable or function that was never declared: the whole check stops there.
pub enum Verdict<T> {
    Passed(T),
    Rejected,
    Unbound,
}

/// Whether two outcomes are of the same kind.
pub open spec fn same_kind<A, B>(a: Verdict<A>, b: Verdict<B>) -> bool {
    match (a, b) {
        (Verdict::Passed(_), Verdict::Passed(_)) => true,
        (Verdict::Rejected, Verdict::Rejected) => true,
        (Verdict::Unbound, Verdict::Unbound) => true,
        _ => false,
    }
}

/// The type of a literal.
pub open spec fn literal_type(l: LiteralView) -> Type {
    match l {
        LiteralView::Int(_) => Type::Int,
        LiteralView::Dcml(_) => Type::Dcml,
        LiteralView::Bool(_) => Type::Bool,
        LiteralView::String(_) => Type::String,
    }
}

pub open spec fn is_arith(op: Operator) -> bool {
    op is Add || op is Sub || op is Mult || op is Div
}

pub open spec fn is_order(op: Operator) -> bool {
    op is Less || op is LEq || op is Greater || op is GEq
}

pub open spec fn is_logic(op: Operator) -> bool {
    op is And || op is Or || op is Xor
}

pub open spec fn is_bitwise(op: Operator) -> bool {
    op is BAnd || op is BOr || op is BXor
}

/// The type of `a op b`, where the operator is defined on those types.
/// Integers take arithmetic, `%`, ordering and bitwise operators; decimals
/// arithmetic (no `%`) and ordering; booleans logic and bitwise operators;
/// values of one type compare with `==` and `!=`.
pub open spec fn binop_type(op: Operator, a: Type, b: Type) -> Option<Type> {
    if (is_arith(op) || op is Mod) && a == Type::Int && b == Type::Int {
        Some(Type::Int)
    } else if is_arith(op) && a == Type::Dcml && b == Type::Dcml {
        Some(Type::Dcml)
    } else if (op is Eq || op is NEq) && a == b {
        Some(Type::Bool)
    } else if is_order(op) && ((a == Type::Int && b == Type::Int) || (a == Type::Dcml && b
        == Type::Dcml)) {
        Some(Type::Bool)
    } else if is_logic(op) && a == Type::Bool && b == Type::Bool {
        Some(Type::Bool)
    } else if is_bitwise(op) && a == Type::Int && b == Type::Int {
        Some(Type::Int)
    } else if is_bitwise(op) && a == Type::Bool && b == Type::Bool {
        Some(Type::Bool)
    } else {
        None
    }
}

/// The name of a type in messages.
pub open spec fn type_label(t: Type) -> Seq<char> {
    match t {
        Type::Int => "Int"@,
        Type::Dcml => "Dcml"@,
        Type::Bool => "Bool"@,
        Type::String => "String"@,
        Type::CallStack => "CallStack"@,
    }
}

/// The name of an operator in messages.
pub open spec fn op_name(op: Operator) -> Seq<char> {
    match op {
        Operator::Add => "Add"@,
        Operator::Sub => "Sub"@,
        Operator::Mult => "Mult"@,
        Operator::Div => "Div"@,
        Operator::Mod => "Mod"@,
        Operator::Eq => "Eq"@,
        Operator::NEq => "NEq"@,
        Operator::Less => "Less"@,
        Operator::LEq => "LEq"@,
        Operator::Greater => "Greater"@,
        Operator::GEq => "GEq"@,
        Operator::And => "And"@,
        Operator::Or => "Or"@,
        Operator::Xor => "Xor"@,
        Operator::BAnd => "BAnd"@,
        Operator::BOr => "BOr"@,
        Operator::BXor => "BXor"@,
    }
}

pub open spec fn binop_message(op: Operator, a: Type, b: Type) -> Seq<char> {
    "Cannot use binary operator '"@ + op_name(op) + "' on values of type '"@ + type_label(a)
        + "' and '"@ + type_label(b) + "'"@
}

pub open spec fn arity_message(name: Seq<char>, expected: nat, got: nat) -> Seq<char> {
    "Expected "@ + decimal(expected) + " arguments in call to function '"@ + name + "', got "@
        + decimal(got) + " args"@
}

pub open spec fn argument_message(expected: Type, actual: Type, name: Seq<char>) -> Seq<char> {
    "Expected type '"@ + type_label(expected) + "', got type '"@ + type_label(actual)
        + "' in function '"@ + name + "'"@
}

pub open spec fn mismatch_message(ident: Seq<char>, declared: Type, actual: Type) -> Seq<char> {
    "Tried to set variable '"@ + ident + "' of type '"@ + type_label(declared) + "' to type of '"@
        + type_label(actual) + "'"@
}

pub open spec fn shadow_message(ident: Seq<char>) -> Seq<char> {
    "Cannot declare the same named variable '"@ + ident
        + "' twice in the same scope (Shadowing is not allowed)."@
}

pub open spec fn unknown_var_message(ident: Seq<char>) -> Seq<char> {
    "Could not find variable '"@ + ident + "' in current scope"@
}

/// A type error with its message at a location.
pub open spec fn type_error(msg: Seq<char>, loc: Loc) -> CompileErrorView {
    CompileErrorView { e_type: ErrorTypeView::TypeError(msg), line: loc.line, col: loc.col }
}

/// Records an error unless the same error is already recorded.
pub open spec fn add_err(errs: Seq<CompileErrorView>, e: CompileErrorView) -> Seq<
    CompileErrorView,
> {
    if errs.contains(e) {
        errs
    } else {
        errs.push(e)
    }
}

/// The type of an expression, checked left to right; errors are recorded
/// at `loc`, the location of the statement part that holds the expression.
pub open spec fn tc_expr(
    fs: Map<Seq<char>, (Seq<Type>, Type)>,
    vars: Map<Seq<char>, Type>,
    e: ExprView,
    loc: Loc,
    errs: Seq<CompileErrorView>,
) -> (Verdict<Type>, Seq<CompileErrorView>)
    decreases e,
{
    match e {
        ExprView::Var(s) => if vars.contains_key(s) {
            (Verdict::Passed(vars[s]), errs)
        } else {
            (Verdict::Unbound, errs)
        },
        ExprView::Lit(l) => (Verdict::Passed(literal_type(l)), errs),
        ExprView::BinOp(op, a, b) => {
            let (ra, e1) = tc_expr(fs, vars, *a, loc, errs);
            match ra {
                Verdict::Passed(ta) => {
                    let (rb, e2) = tc_expr(fs, vars, *b, loc, e1);
                    match rb {
                        Verdict::Passed(tb) => match binop_type(op, ta, tb) {
                            Some(t) => (Verdict::Passed(t), e2),
                            None => (
                                Verdict::Rejected,
                                add_err(e2, type_error(binop_message(op, ta, tb), loc)),
                            ),
                        },
                        Verdict::Rejected => (Verdict::Rejected, e2),
                        Verdict::Unbound => (Verdict::Unbound, e2),
                    }
                },
                Verdict::Rejected => (Verdict::Rejected, e1),
                Verdict::Unbound => (Verdict::Unbound, e1),
            }
        },
        ExprView::Call(name, args) => {
            if !fs.contains_key(name) {
                (Verdict::Unbound, errs)
            } else if fs[name].0.len() != args.len() {
                (
                    Verdict::Rejected,
                    add_err(
                        errs,
                        type_error(arity_message(name, fs[name].0.len(), args.len()), loc),
                    ),
                )
            } else {
                let (r, e1) = tc_args(fs, vars, name, fs[name].0, args, loc, errs);
                match r {
                    Verdict::Passed(_) => (Verdict::Passed(fs[name].1), e1),
                    Verdict::Rejected => (Verdict::Rejected, e1),
                    Verdict::Unbound => (Verdict::Unbound, e1),
                }
            }
        },
    }
}

/// The arguments of a call to `name`, checked in order against the
/// parameter types `expected`.
pub open spec fn tc_args(
    fs: Map<Seq<char>, (Seq<Type>, Type)>,
    vars: Map<Seq<char>, Type>,
    name: Seq<char>,
    expected: Seq<Type>,
    args: Seq<ExpressionView>,
    loc: Loc,
    errs: Seq<CompileErrorView>,
) -> (Verdict<()>, Seq<CompileErrorView>)
    decreases args,
{
    if args.len() == 0 {
        (Verdict::Passed(()), errs)
    } else {
        let (r, e1) = tc_expr(fs, vars, args[0].expr, loc, errs);
        match r {
            Verdict::Passed(t) => if t != expected[0] {
                (
                    Verdict::Rejected,
                    add_err(e1, type_error(argument_message(expected[0], t, name), loc)),
                )
            } else {
                tc_args(
                    fs,
                    vars,
                    name,
                    expected.subrange(1, expected.len() as int),
                    args.subrange(1, args.len() as int),
                    loc,
                    e1,
                )
            },
            Verdict::Rejected => (Verdict::Rejected, e1),
            Verdict::Unbound => (Verdict::Unbound, e1),
        }
    }
}

/// The outcome of a check of an expression, carried to a statement.
pub open spec fn then_vars(r: Verdict<Type>, vars: Map<Seq<char>, Type>) -> Verdict<
    Map<Seq<char>, Type>,
> {
    match r {
        Verdict::Passed(_) => Verdict::Passed(vars),
        Verdict::Rejected => Verdict::Rejected,
        Verdict::Unbound => Verdict::Unbound,
    }
}

/// A statement, with the variables in scope before it; on success, the
/// variables in scope after it. An `if` or `while` checks its condition and
/// each of its blocks even when an earlier part failed, and fails when any
/// part did.
pub open spec fn tc_stmt(
    fs: Map<Seq<char>, (Seq<Type>, Type)>,
    vars: Map<Seq<char>, Type>,
    st: StatementView,
    errs: Seq<CompileErrorView>,
) -> (Verdict<Map<Seq<char>, Type>>, Seq<CompileErrorView>)
    decreases st,
{
    match st {
        StatementView::Expr(e) => {
            let (r, e1) = tc_expr(fs, vars, e.expr, e.loc, errs);
            (then_vars(r, vars), e1)
        },
        StatementView::Decl { typ, ident, ident_loc, val, val_loc } => {
            let (r, e1) = tc_expr(fs, vars, val, val_loc, errs);
            match r {
                Verdict::Passed(t) => if typ != t {
                    (
                        Verdict::Rejected,
                        e1.push(type_error(mismatch_message(ident, typ, t), ident_loc)),
                    )
                } else if vars.contains_key(ident) {
                    (Verdict::Rejected, add_err(e1, type_error(shadow_message(ident), ident_loc)))
                } else {
                    (Verdict::Passed(vars.insert(ident, typ)), e1)
                },
                Verdict::Rejected => (Verdict::Rejected, e1),
                Verdict::Unbound => (Verdict::Unbound, e1),
            }
        },
        StatementView::Assign { ident, ident_loc, val, val_loc } => {
            let (r, e1) = tc_expr(fs, vars, val, val_loc, errs);
            match r {
                Verdict::Passed(t) => if !vars.contains_key(ident) {
                    (
                        Verdict::Rejected,
                        add_err(e1, type_error(unknown_var_message(ident), ident_loc)),
                    )
                } else if vars[ident] != t {
                    (
                        Verdict::Rejected,
                        e1.push(type_error(mismatch_message(ident, vars[ident], t), ident_loc)),
                    )
                } else {
                    (Verdict::Passed(vars), e1)
                },
                Verdict::Rejected => (Verdict::Rejected, e1),
                Verdict::Unbound => (Verdict::Unbound, e1),
            }
        },
        StatementView::If { cond, tcode, ecode, .. } => {
            let (rc, e1) = tc_expr(fs, vars, cond.expr, cond.loc, errs);
            if rc is Unbound {
                (Verdict::Unbound, e1)
            } else {
                let (rt, e2) = tc_stmts(fs, vars, tcode, e1);
                if rt is Unbound {
                    (Verdict::Unbound, e2)
                } else {
                    let (re, e3) = tc_stmts(fs, vars, ecode, e2);
                    if re is Unbound {
                        (Verdict::Unbound, e3)
                    } else if rc is Rejected || rt is Rejected || re is Rejected {
                        (Verdict::Rejected, e3)
                    } else {
                        (Verdict::Passed(vars), e3)
                    }
                }
            }
        },
        StatementView::While { cond, code, .. } => {
            let (rc, e1) = tc_expr(fs, vars, cond.expr, cond.loc, errs);
            if rc is Unbound {
                (Verdict::Unbound, e1)
            } else {
                let (rb, e2) = tc_stmts(fs, vars, code, e1);
                if rb is Unbound {
                    (Verdict::Unbound, e2)
                } else if rc is Rejected || rb is Rejected {
                    (Verdict::Rejected, e2)
                } else {
                    (Verdict::Passed(vars), e2)
                }
            }
        },
        StatementView::Return { expr, .. } => {
            let (r, e1) = tc_expr(fs, vars, expr.expr, expr.loc, errs);
            (then_vars(r, vars), e1)
        },
    }
}

/// A block of statements, in order, up to the first that fails.
pub open spec fn tc_stmts(
    fs: Map<Seq<char>, (Seq<Type>, Type)>,
    vars: Map<Seq<char>, Type>,
    code: Seq<StatementView>,
    errs: Seq<CompileErrorView>,
) -> (Verdict<Map<Seq<char>, Type>>, Seq<CompileErrorView>)
    decreases code,
{
    if code.len() == 0 {
        (Verdict::Passed(vars), errs)
    } else {
        let (r, e1) = tc_stmt(fs, vars, code[0], errs);
        match r {
            Verdict::Passed(v2) => tc_stmts(fs, v2, code.subrange(1, code.len() as int), e1),
            Verdict::Rejected => (Verdict::Rejected, e1),
            Verdict::Unbound => (Verdict::Unbound, e1),
        }
    }
}

/// The variables that a function's parameters declare.
pub open spec fn param_types(params: Seq<(Seq<char>, Type)>) -> Map<Seq<char>, Type>
    decreases params.len(),
{
    if params.len() == 0 {
        Map::empty()
    } else {
        param_types(params.drop_last()).insert(params.last().0, params.last().1)
    }
}

/// The signature of each function: its parameter types and return type; of
/// two functions with one name, the later one.
pub open spec fn signatures(fns: Seq<FunctionView>) -> Map<Seq<char>, (Seq<Type>, Type)>
    decreases fns.len(),
{
    if fns.len() == 0 {
        Map::empty()
    } else {
        signatures(fns.drop_last()).insert(
            fns.last().name,
            (fns.last().params.map_values(|p: (Seq<char>, Type)| p.1), fns.last().ret_type),
        )
    }
}

/// The functions checked in order, each from its parameters: whether a
/// name without binding stopped the check, and the errors recorded.
pub open spec fn tc_prefix(fs: Map<Seq<char>, (Seq<Type>, Type)>, fns: Seq<FunctionView>) -> (
    bool,
    Seq<CompileErrorView>,
)
    decreases fns.len(),
{
    if fns.len() == 0 {
        (false, Seq::empty())
    } else {
        let (stopped, errs) = tc_prefix(fs, fns.drop_last());
        if stopped {
            (true, errs)
        } else {
            let (r, e1) = tc_stmts(fs, param_types(fns.last().params), fns.last().code, errs);
            (r is Unbound, e1)
        }
    }
}

/// Whether checking the program meets a variable or function that was
/// never declared.
pub open spec fn meets_unbound(fns: Seq<FunctionView>) -> bool {
    tc_prefix(signatures(fns), fns).0
}

/// The type errors of a program, in the order they were found.
pub open spec fn type_errors(fns: Seq<FunctionView>) -> Seq<CompileErrorView> {
    tc_prefix(signatures(fns), fns).1
}

} // verus!

verus! {

/// The signatures of a map of functions, parameter types seen as sequences.
pub open spec fn sig_view(m: Map<Seq<char>, (Vec<Type>, Type)>) -> Map<
    Seq<char>,
    (Seq<Type>, Type),
> {
    m.map_values(|v: (Vec<Type>, Type)| (v.0@, v.1))
}

fn type_label_str(t: Type) -> (r: &'static str)
    ensures
        r@ == type_label(t),
{
    match t {
        Type::Int => "Int",
        Type::Dcml => "Dcml",
        Type::Bool => "Bool",
        Type::String => "String",
        Type::CallStack => "CallStack",
    }
}

fn op_label_str(op: Operator) -> (r: &'static str)
    ensures
        r@ == op_name(op),
{
    match op {
        Operator::Add => "Add",
        Operator::Sub => "Sub",
        Operator::Mult => "Mult",
        Operator::Div => "Div",
        Operator::Mod => "Mod",
        Operator::Eq => "Eq",
        Operator::NEq => "NEq",
        Operator::Less => "Less",
        Operator::LEq => "LEq",
        Operator::Greater => "Greater",
        Operator::GEq => "GEq",
        Operator::And => "And",
        Operator::Or => "Or",
        Operator::Xor => "Xor",
        Operator::BAnd => "BAnd",
        Operator::BOr => "BOr",
        Operator::BXor => "BXor",
    }
}

/// The type of `a op b`, or `None` where the operator is not defined on them.
pub fn binop_result(op: Operator, a: Type, b: Type) -> (r: Option<Type>)
    ensures
        r == binop_type(op, a, b),
{
    let arith = match op {
        Operator::Add | Operator::Sub | Operator::Mult | Operator::Div => true,
        _ => false,
    };
    let order = match op {
        Operator::Less | Operator::LEq | Operator::Greater | Operator::GEq => true,
        _ => false,
    };
    let logic = match op {
        Operator::And | Operator::Or | Operator::Xor => true,
        _ => false,
    };
    let bitwise = match op {
        Operator::BAnd | Operator::BOr | Operator::BXor => true,
        _ => false,
    };
    let is_mod = match op {
        Operator::Mod => true,
        _ => false,
    };
    let equality = match op {
        Operator::Eq | Operator::NEq => true,
        _ => false,
    };
    if (arith || is_mod) && a == Type::Int && b == Type::Int {
        Some(Type::Int)
    } else if arith && a == Type::Dcml && b == Type::Dcml {
        Some(Type::Dcml)
    } else if equality && a == b {
        Some(Type::Bool)
    } else if order && ((a == Type::Int && b == Type::Int) || (a == Type::Dcml && b
        == Type::Dcml)) {
        Some(Type::Bool)
    } else if logic && a == Type::Bool && b == Type::Bool {
        Some(Type::Bool)
    } else if bitwise && a == Type::Int && b == Type::Int {
        Some(Type::Int)
    } else if bitwise && a == Type::Bool && b == Type::Bool {
        Some(Type::Bool)
    } else {
        None
    }
}

fn binop_msg(op: Operator, a: Type, b: Type) -> (r: String)
    ensures
        r@ == binop_message(op, a, b),
{
    let mut s = string_from("Cannot use binary operator '");
    s.append(op_label_str(op));
    s.append("' on values of type '");
    s.append(type_label_str(a));
    s.append("' and '");
    s.append(type_label_str(b));
    s.append("'");
    s
}

fn arity_msg(name: &String, expected: usize, got: usize) -> (r: String)
    ensures
        r@ == arity_message(name@, expected as nat, got as nat),
{
    let mut s = string_from("Expected ");
    push_decimal(&mut s, expected as u64);
    s.append(" arguments in call to function '");
    s.append(name.as_str());
    s.append("', got ");
    push_decimal(&mut s, got as u64);
    s.append(" args");
    s
}

fn argument_msg(expected: Type, actual: Type, name: &String) -> (r: String)
    ensures
        r@ == argument_message(expected, actual, name@),
{
    let mut s = string_from("Expected type '");
    s.append(type_label_str(expected));
    s.append("', got type '");
    s.append(type_label_str(actual));
    s.append("' in function '");
    s.append(name.as_str());
    s.append("'");
    s
}

fn mismatch_msg(ident: &String, declared: Type, actual: Type) -> (r: String)
    ensures
        r@ == mismatch_message(ident@, declared, actual),
{
    let mut s = string_from("Tried to set variable '");
    s.append(ident.as_str());
    s.append("' of type '");
    s.append(type_label_str(declared));
    s.append("' to type of '");
    s.append(type_label_str(actual));
    s.append("'");
    s
}

fn shadow_msg(ident: &String) -> (r: String)
    ensures
        r@ == shadow_message(ident@),
{
    let mut s = string_from("Cannot declare the same named variable '");
    s.append(ident.as_str());
    s.append("' twice in the same scope (Shadowing is not allowed).");
    s
}

fn unknown_var_msg(ident: &String) -> (r: String)
    ensures
        r@ == unknown_var_message(ident@),
{
    let mut s = string_from("Could not find variable '");
    s.append(ident.as_str());
    s.append("' in current scope");
    s
}

fn type_err(msg: String, loc: Loc) -> (r: CompileError)
    ensures
        r@ == type_error(msg@, loc),
{
    CompileError { e_type: ErrorType::TypeError(msg), line: loc.line, col: loc.col }
}

/// Records `error` unless an equal error is already recorded.
fn add_error(errors: &mut Vec<CompileError>, error: CompileError)
    ensures
        errors_view(final(errors)@) == add_err(errors_view(old(errors)@), error@),
{
    let mut i: usize = 0;
    while i < errors.len()
        invariant
            i <= errors@.len(),
            forall|j: int| 0 <= j < i ==> errors@[j]@ != error@,
        decreases errors@.len() - i,
    {
        if error.e_type.same_as(&errors[i].e_type) && error.line == errors[i].line && error.col
            == errors[i].col {
            proof {
                assert(errors_view(errors@)[i as int] == error@);
            }
            return;
        }
        i = i + 1;
    }
    proof {
        assert(!errors_view(errors@).contains(error@));
    }
    let ghost prev = errors@;
    errors.push(error);
    proof {
        assert(errors_view(errors@) =~= errors_view(prev).push(error@));
    }
}

} // verus!

verus! {

/// The type of an expression, recording errors at `loc`.
fn check_expr(
    funcs: &StrMap<(Vec<Type>, Type)>,
    errors: &mut Vec<CompileError>,
    ex: &ExprAST,
    loc: Loc,
    vars: &StrMap<Type>,
) -> (r: Verdict<Type>)
    ensures
        (r, errors_view(final(errors)@)) == tc_expr(
            sig_view(funcs.view()),
            vars.view(),
            expr_view(*ex),
            loc,
            errors_view(old(errors)@),
        ),
    decreases ex,
{
    match ex {
        ExprAST::Var(s) => match vars.get(s) {
            Some(t) => Verdict::Passed(*t),
            None => Verdict::Unbound,
        },
        ExprAST::Lit(l) => Verdict::Passed(l.get_type()),
        ExprAST::BinOp(op, a, b) => {
            let ra = check_expr(funcs, errors, a, loc, vars);
            match ra {
                Verdict::Passed(ta) => {
                    let rb = check_expr(funcs, errors, b, loc, vars);
                    match rb {
                        Verdict::Passed(tb) => match binop_result(*op, ta, tb) {
                            Some(t) => Verdict::Passed(t),
                            None => {
                                add_error(errors, type_err(binop_msg(*op, ta, tb), loc));
                                Verdict::Rejected
                            },
                        },
                        Verdict::Rejected => Verdict::Rejected,
                        Verdict::Unbound => Verdict::Unbound,
                    }
                },
                Verdict::Rejected => Verdict::Rejected,
                Verdict::Unbound => Verdict::Unbound,
            }
        },
        ExprAST::Call(name, args) => {
            let ghost fs = sig_view(funcs.view());
            let ghost vs = vars.view();
            let ghost argv = expressions_view(args@);
            let ghost e0 = errors_view(errors@);
            match funcs.get(name) {
                None => Verdict::Unbound,
                Some(sig) => {
                    let inputs = &sig.0;
                    proof {
                        lemma_expressions_view_len(args@);
                        assert(fs[name@] == (inputs@, sig.1));
                    }
                    if inputs.len() != args.len() {
                        add_error(errors, type_err(arity_msg(name, inputs.len(), args.len()), loc));
                        return Verdict::Rejected;
                    }
                    let mut i: usize = 0;
                    proof {
                        assert(inputs@.subrange(0, inputs@.len() as int) =~= inputs@);
                        assert(argv.subrange(0, argv.len() as int) =~= argv);
                    }
                    while i < args.len()
                        invariant
                            i <= args@.len(),
                            inputs@.len() == args@.len(),
                            argv == expressions_view(args@),
                            argv.len() == args@.len(),
                            fs == sig_view(funcs.view()),
                            vs == vars.view(),
                            fs.contains_key(name@),
                            fs[name@] == (inputs@, sig.1),
                            *ex == ExprAST::Call(*name, *args),
                            e0 == errors_view(old(errors)@),
                            tc_args(fs, vs, name@, inputs@, argv, loc, e0) == tc_args(
                                fs,
                                vs,
                                name@,
                                inputs@.subrange(i as int, inputs@.len() as int),
                                argv.subrange(i as int, argv.len() as int),
                                loc,
                                errors_view(errors@),
                            ),
                        decreases args@.len() - i,
                    {
                        proof {
                            lemma_expressions_view_index(args@, i as int);
                            assert(argv.subrange(i as int, argv.len() as int)[0] == argv[i as int]);
                            assert(inputs@.subrange(i as int, inputs@.len() as int)[0]
                                == inputs@[i as int]);
                            assert(argv.subrange(i as int, argv.len() as int).subrange(
                                1,
                                argv.len() - i,
                            ) =~= argv.subrange(i + 1, argv.len() as int));
                            assert(inputs@.subrange(i as int, inputs@.len() as int).subrange(
                                1,
                                inputs@.len() - i,
                            ) =~= inputs@.subrange(i + 1, inputs@.len() as int));
                        }
                        proof {
                            assert(decreases_to!(*ex => args@[i as int].expr));
                        }
                        let r = check_expr(funcs, errors, &args[i].expr, loc, vars);
                        match r {
                            Verdict::Passed(t) => {
                                if t != inputs[i] {
                                    add_error(
                                        errors,
                                        type_err(argument_msg(inputs[i], t, name), loc),
                                    );
                                    return Verdict::Rejected;
                                }
                            },
                            Verdict::Rejected => {
                                return Verdict::Rejected;
                            },
                            Verdict::Unbound => {
                                return Verdict::Unbound;
                            },
                        }
                        i = i + 1;
                    }
                    Verdict::Passed(sig.1)
                },
            }
        },
    }
}

} // verus!

verus! {

/// Checks a statement; on success `vars` holds the variables in scope after
/// it, and otherwise it is left as it was.
fn check_statement(
    funcs: &StrMap<(Vec<Type>, Type)>,
    errors: &mut Vec<CompileError>,
    st: &Statement,
    vars: &mut StrMap<Type>,
) -> (r: Verdict<()>)
    ensures
        same_kind(
            r,
            tc_stmt(
                sig_view(funcs.view()),
                old(vars).view(),
                statement_view(*st),
                errors_view(old(errors)@),
            ).0,
        ),
        errors_view(final(errors)@) == tc_stmt(
            sig_view(funcs.view()),
            old(vars).view(),
            statement_view(*st),
            errors_view(old(errors)@),
        ).1,
        tc_stmt(
            sig_view(funcs.view()),
            old(vars).view(),
            statement_view(*st),
            errors_view(old(errors)@),
        ).0 matches Verdict::Passed(m) ==> final(vars).view() == m,
        !(tc_stmt(
            sig_view(funcs.view()),
            old(vars).view(),
            statement_view(*st),
            errors_view(old(errors)@),
        ).0 is Passed) ==> final(vars).view() == old(vars).view(),
    decreases st,
{
    match st {
        Statement::Expr(e) => {
            let r = check_expr(funcs, errors, &e.expr, e.loc, vars);
            match r {
                Verdict::Passed(_) => Verdict::Passed(()),
                Verdict::Rejected => Verdict::Rejected,
                Verdict::Unbound => Verdict::Unbound,
            }
        },
        Statement::Decl(d) => {
            let r = check_expr(funcs, errors, &d.val, d.val_loc, vars);
            match r {
                Verdict::Passed(t) => {
                    if d.typ != t {
                        let ghost prev = errors@;
                        errors.push(type_err(mismatch_msg(&d.ident, d.typ, t), d.ident_loc));
                        proof {
                            assert(errors_view(errors@) =~= errors_view(prev).push(
                                errors@.last()@,
                            ));
                        }
                        Verdict::Rejected
                    } else if vars.contains_key(&d.ident) {
                        add_error(errors, type_err(shadow_msg(&d.ident), d.ident_loc));
                        Verdict::Rejected
                    } else {
                        vars.insert(d.ident.clone(), d.typ);
                        Verdict::Passed(())
                    }
                },
                Verdict::Rejected => Verdict::Rejected,
                Verdict::Unbound => Verdict::Unbound,
            }
        },
        Statement::Assign(a) => {
            let r = check_expr(funcs, errors, &a.val, a.val_loc, vars);
            match r {
                Verdict::Passed(t) => match vars.get(&a.ident) {
                    None => {
                        add_error(errors, type_err(unknown_var_msg(&a.ident), a.ident_loc));
                        Verdict::Rejected
                    },
                    Some(vt) => {
                        if *vt != t {
                            let ghost prev = errors@;
                            errors.push(type_err(mismatch_msg(&a.ident, *vt, t), a.ident_loc));
                            proof {
                                assert(errors_view(errors@) =~= errors_view(prev).push(
                                    errors@.last()@,
                                ));
                            }
                            Verdict::Rejected
                        } else {
                            Verdict::Passed(())
                        }
                    },
                },
                Verdict::Rejected => Verdict::Rejected,
                Verdict::Unbound => Verdict::Unbound,
            }
        },
        Statement::If(ifb) => {
            let rc = check_expr(funcs, errors, &ifb.cond.expr, ifb.cond.loc, vars);
            if let Verdict::Unbound = rc {
                return Verdict::Unbound;
            }
            let mut inner = vars.duplicate();
            let rt = check_stmts(funcs, errors, &ifb.tcode, &mut inner);
            if let Verdict::Unbound = rt {
                return Verdict::Unbound;
            }
            let mut inner2 = vars.duplicate();
            let re = check_stmts(funcs, errors, &ifb.ecode, &mut inner2);
            if let Verdict::Unbound = re {
                return Verdict::Unbound;
            }
            match (rc, rt, re) {
                (Verdict::Passed(_), Verdict::Passed(_), Verdict::Passed(_)) => Verdict::Passed(()),
                _ => Verdict::Rejected,
            }
        },
        Statement::While(w) => {
            let rc = check_expr(funcs, errors, &w.cond.expr, w.cond.loc, vars);
            if let Verdict::Unbound = rc {
                return Verdict::Unbound;
            }
            let mut inner = vars.duplicate();
            let rb = check_stmts(funcs, errors, &w.code, &mut inner);
            if let Verdict::Unbound = rb {
                return Verdict::Unbound;
            }
            match (rc, rb) {
                (Verdict::Passed(_), Verdict::Passed(_)) => Verdict::Passed(()),
                _ => Verdict::Rejected,
            }
        },
        Statement::Return(ret) => {
            let r = check_expr(funcs, errors, &ret.expr.expr, ret.expr.loc, vars);
            match r {
                Verdict::Passed(_) => Verdict::Passed(()),
                Verdict::Rejected => Verdict::Rejected,
                Verdict::Unbound => Verdict::Unbound,
            }
        },
    }
}

/// Checks a block in order up to the first statement that fails.
fn check_stmts(
    funcs: &StrMap<(Vec<Type>, Type)>,
    errors: &mut Vec<CompileError>,
    code: &Vec<Statement>,
    vars: &mut StrMap<Type>,
) -> (r: Verdict<()>)
    ensures
        same_kind(
            r,
            tc_stmts(
                sig_view(funcs.view()),
                old(vars).view(),
                statements_view(code@),
                errors_view(old(errors)@),
            ).0,
        ),
        errors_view(final(errors)@) == tc_stmts(
            sig_view(funcs.view()),
            old(vars).view(),
            statements_view(code@),
            errors_view(old(errors)@),
        ).1,
        tc_stmts(
            sig_view(funcs.view()),
            old(vars).view(),
            statements_view(code@),
            errors_view(old(errors)@),
        ).0 matches Verdict::Passed(m) ==> final(vars).view() == m,
    decreases code@,
{
    let ghost fs = sig_view(funcs.view());
    let ghost cv = statements_view(code@);
    let ghost v0 = vars.view();
    let ghost e0 = errors_view(errors@);
    proof {
        lemma_statements_view_len(code@);
        assert(cv.subrange(0, cv.len() as int) =~= cv);
    }
    let mut i: usize = 0;
    while i < code.len()
        invariant
            i <= code@.len(),
            cv == statements_view(code@),
            cv.len() == code@.len(),
            fs == sig_view(funcs.view()),
            v0 == old(vars).view(),
            e0 == errors_view(old(errors)@),
            tc_stmts(fs, v0, cv, e0) == tc_stmts(
                fs,
                vars.view(),
                cv.subrange(i as int, cv.len() as int),
                errors_view(errors@),
            ),
        decreases code@.len() - i,
    {
        proof {
            lemma_statements_view_index(code@, i as int);
            assert(cv.subrange(i as int, cv.len() as int)[0] == cv[i as int]);
            assert(cv.subrange(i as int, cv.len() as int).subrange(1, cv.len() - i)
                =~= cv.subrange(i + 1, cv.len() as int));
        }
        let r = check_statement(funcs, errors, &code[i], vars);
        match r {
            Verdict::Passed(_) => {},
            Verdict::Rejected => {
                return Verdict::Rejected;
            },
            Verdict::Unbound => {
                return Verdict::Unbound;
            },
        }
        i = i + 1;
    }
    proof {
        assert(cv.subrange(i as int, cv.len() as int) =~= Seq::<StatementView>::empty());
    }
    Verdict::Passed(())
}

} // verus!

verus! {

/// Once a name without binding has stopped the check of a prefix, the check
/// of the whole program stops there with the same errors.
proof fn lemma_prefix_stops(
    fs: Map<Seq<char>, (Seq<Type>, Type)>,
    fns: Seq<FunctionView>,
    k: int,
)
    requires
        0 <= k <= fns.len(),
        tc_prefix(fs, fns.take(k)).0,
    ensures
        tc_prefix(fs, fns) == tc_prefix(fs, fns.take(k)),
    decreases fns.len(),
{
    if k == fns.len() {
        assert(fns.take(k) =~= fns);
    } else {
        assert(fns.drop_last().take(k) =~= fns.take(k));
        lemma_prefix_stops(fs, fns.drop_last(), k);
    }
}

/// The variables that a function's parameters declare.
fn param_vars(func: &FunctionAst) -> (r: StrMap<Type>)
    ensures
        r.view() == param_types(params_view(func.params@)),
{
    let ghost pv = params_view(func.params@);
    let mut vars: StrMap<Type> = StrMap::new();
    let mut i: usize = 0;
    while i < func.params.len()
        invariant
            i <= func.params@.len(),
            pv == params_view(func.params@),
            vars.view() == param_types(pv.take(i as int)),
        decreases func.params@.len() - i,
    {
        proof {
            assert(pv.take(i + 1).drop_last() =~= pv.take(i as int));
        }
        vars.insert(func.params[i].0.clone(), func.params[i].1);
        i = i + 1;
    }
    proof {
        assert(pv.take(i as int) =~= pv);
    }
    vars
}

/// The parameter types of a function, in order.
fn param_type_list(func: &FunctionAst) -> (r: Vec<Type>)
    ensures
        r@ == params_view(func.params@).map_values(|p: (Seq<char>, Type)| p.1),
{
    let mut out: Vec<Type> = Vec::new();
    let mut i: usize = 0;
    while i < func.params.len()
        invariant
            i <= func.params@.len(),
            out@.len() == i,
            forall|j: int| 0 <= j < i ==> out@[j] == func.params@[j].1,
        decreases func.params@.len() - i,
    {
        out.push(func.params[i].1);
        i = i + 1;
    }
    proof {
        assert(out@ =~= params_view(func.params@).map_values(|p: (Seq<char>, Type)| p.1));
    }
    out
}

/// The type checker of a program.
pub struct TypeChecker<'a> {
    ast: &'a Vec<FunctionAst>,
}

impl<'a> TypeChecker<'a> {
    /// The program to check.
    pub closed spec fn program(&self) -> Seq<FunctionView> {
        functions_view(self.ast@)
    }

    pub fn new(ast: &'a Vec<FunctionAst>) -> (r: Self)
        ensures
            r.program() == functions_view(ast@),
    {
        TypeChecker { ast }
    }

    /// Checks every function in order against the signatures of all of
    /// them. `None` where the check meets a variable or function that was
    /// never declared; otherwise the type errors found, in order.
    pub fn try_check_all(self) -> (r: Option<Result<(), Vec<CompileError>>>)
        ensures
            r is None <==> meets_unbound(self.program()),
            r matches Some(res) ==> (type_errors(self.program()).len() == 0 ==> res is Ok),
            r matches Some(res) ==> (type_errors(self.program()).len() > 0 ==> (res matches Err(v)
                && errors_view(v@) == type_errors(self.program()))),
    {
        let ast = self.ast;
        let ghost fv = functions_view(ast@);
        let mut funcs: StrMap<(Vec<Type>, Type)> = StrMap::new();
        let mut k: usize = 0;
        proof {
            assert(sig_view(funcs.view()) =~= signatures(fv.take(0)));
        }
        while k < ast.len()
            invariant
                k <= ast@.len(),
                fv == functions_view(ast@),
                sig_view(funcs.view()) == signatures(fv.take(k as int)),
            decreases ast@.len() - k,
        {
            let ghost prev = funcs.view();
            let types = param_type_list(&ast[k]);
            funcs.insert(ast[k].name.clone(), (types, ast[k].ret_type));
            proof {
                assert(fv.take(k + 1).drop_last() =~= fv.take(k as int));
                assert(fv.take(k + 1).last() == function_view(ast@[k as int]));
                assert(sig_view(funcs.view()) =~= sig_view(prev).insert(
                    ast@[k as int].name@,
                    (types@, ast@[k as int].ret_type),
                ));
            }
            k = k + 1;
        }
        proof {
            assert(fv.take(k as int) =~= fv);
        }
        let ghost fs = sig_view(funcs.view());
        let mut errors: Vec<CompileError> = Vec::new();
        let mut k: usize = 0;
        proof {
            assert(errors_view(errors@) =~= Seq::<CompileErrorView>::empty());
            assert(fv.take(0) =~= Seq::<FunctionView>::empty());
        }
        while k < ast.len()
            invariant
                k <= ast@.len(),
                fv == functions_view(ast@),
                fs == sig_view(funcs.view()),
                fs == signatures(fv),
                fv == self.program(),
                tc_prefix(fs, fv.take(k as int)) == (false, errors_view(errors@)),
            decreases ast@.len() - k,
        {
            let mut vars = param_vars(&ast[k]);
            let ghost ebefore = errors_view(errors@);
            let ghost f = function_view(ast@[k as int]);
            let r = check_stmts(&funcs, &mut errors, &ast[k].code, &mut vars);
            proof {
                assert(fv.take(k + 1).drop_last() =~= fv.take(k as int));
                assert(fv.take(k + 1).last() == f);
                let res = tc_stmts(fs, param_types(f.params), f.code, ebefore);
                assert(tc_prefix(fs, fv.take(k + 1)) == (res.0 is Unbound, res.1));
            }
            if let Verdict::Unbound = r {
                proof {
                    assert(tc_prefix(fs, fv.take(k + 1)).0);
                    lemma_prefix_stops(fs, fv, k + 1);
                }
                return None;
            }
            k = k + 1;
        }
        proof {
            assert(fv.take(k as int) =~= fv);
        }
        if errors.len() == 0 {
            Some(Ok(()))
        } else {
            Some(Err(errors))
        }
    }

    /// Checks every function in order against the signatures of all of
    /// them, and gives the type errors found, in order.
    pub fn check_all(self) -> (r: Result<(), Vec<CompileError>>)
        requires
            !meets_unbound(self.program()),
        ensures
            type_errors(self.program()).len() == 0 ==> r is Ok,
            type_errors(self.program()).len() > 0 ==> (r matches Err(v) && errors_view(v@)
                == type_errors(self.program())),
    {
        match self.try_check_all() {
            Some(res) => res,
            None => Ok(()),
        }
    }
}

/// The types of the binary operators. `+`, `-`, `*` and `/` take two
/// integers to an integer and two decimals to a decimal; `%` takes two
/// integers only; the orderings compare two integers or two decimals; `==`
/// and `!=` compare two values of one type; `&&`, `||` and logical xor take two
/// booleans; the bitwise operators take two integers or two booleans. No
/// operator takes operands of two different types.
pub proof fn law_binop_types(op: Operator, a: Type, b: Type, t: Type)
    ensures
        binop_type(Operator::Add, Type::Int, Type::Int) == Some(Type::Int),
        binop_type(Operator::Add, Type::Dcml, Type::Dcml) == Some(Type::Dcml),
        binop_type(Operator::Add, Type::Bool, Type::Bool) is None,
        binop_type(Operator::Add, Type::String, Type::String) is None,
        binop_type(Operator::Sub, Type::Int, Type::Int) == Some(Type::Int),
        binop_type(Operator::Sub, Type::Dcml, Type::Dcml) == Some(Type::Dcml),
        binop_type(Operator::Sub, Type::Bool, Type::Bool) is None,
        binop_type(Operator::Sub, Type::String, Type::String) is None,
        binop_type(Operator::Mult, Type::Int, Type::Int) == Some(Type::Int),
        binop_type(Operator::Mult, Type::Dcml, Type::Dcml) == Some(Type::Dcml),
        binop_type(Operator::Mult, Type::Bool, Type::Bool) is None,
        binop_type(Operator::Mult, Type::String, Type::String) is None,
        binop_type(Operator::Div, Type::Int, Type::Int) == Some(Type::Int),
        binop_type(Operator::Div, Type::Dcml, Type::Dcml) == Some(Type::Dcml),
        binop_type(Operator::Div, Type::Bool, Type::Bool) is None,
        binop_type(Operator::Div, Type::String, Type::String) is None,
        binop_type(Operator::Mod, Type::Int, Type::Int) == Some(Type::Int),
        binop_type(Operator::Mod, Type::Dcml, Type::Dcml) is None,
        binop_type(Operator::Mod, Type::Bool, Type::Bool) is None,
        binop_type(Operator::Less, Type::Int, Type::Int) == Some(Type::Bool),
        binop_type(Operator::Less, Type::Dcml, Type::Dcml) == Some(Type::Bool),
        binop_type(Operator::Less, Type::Bool, Type::Bool) is None,
        binop_type(Operator::Less, Type::String, Type::String) is None,
        binop_type(Operator::LEq, Type::Int, Type::Int) == Some(Type::Bool),
        binop_type(Operator::LEq, Type::Dcml, Type::Dcml) == Some(Type::Bool),
        binop_type(Operator::LEq, Type::Bool, Type::Bool) is None,
        binop_type(Operator::LEq, Type::String, Type::String) is None,
        binop_type(Operator::Greater, Type::Int, Type::Int) == Some(Type::Bool),
        binop_type(Operator::Greater, Type::Dcml, Type::Dcml) == Some(Type::Bool),
        binop_type(Operator::Greater, Type::Bool, Type::Bool) is None,
        binop_type(Operator::Greater, Type::String, Type::String) is None,
        binop_type(Operator::GEq, Type::Int, Type::Int) == Some(Type::Bool),
        binop_type(Operator::GEq, Type::Dcml, Type::Dcml) == Some(Type::Bool),
        binop_type(Operator::GEq, Type::Bool, Type::Bool) is None,
        binop_type(Operator::GEq, Type::String, Type::String) is None,
        binop_type(Operator::Eq, t, t) == Some(Type::Bool),
        binop_type(Operator::NEq, t, t) == Some(Type::Bool),
        binop_type(Operator::And, Type::Bool, Type::Bool) == Some(Type::Bool),
        binop_type(Operator::And, Type::Int, Type::Int) is None,
        binop_type(Operator::Or, Type::Bool, Type::Bool) == Some(Type::Bool),
        binop_type(Operator::Or, Type::Int, Type::Int) is None,
        binop_type(Operator::Xor, Type::Bool, Type::Bool) == Some(Type::Bool),
        binop_type(Operator::Xor, Type::Int, Type::Int) is None,
        binop_type(Operator::BAnd, Type::Int, Type::Int) == Some(Type::Int),
        binop_type(Operator::BAnd, Type::Bool, Type::Bool) == Some(Type::Bool),
        binop_type(Operator::BAnd, Type::Dcml, Type::Dcml) is None,
        binop_type(Operator::BOr, Type::Int, Type::Int) == Some(Type::Int),
        binop_type(Operator::BOr, Type::Bool, Type::Bool) == Some(Type::Bool),
        binop_type(Operator::BOr, Type::Dcml, Type::Dcml) is None,
        binop_type(Operator::BXor, Type::Int, Type::Int) == Some(Type::Int),
        binop_type(Operator::BXor, Type::Bool, Type::Bool) == Some(Type::Bool),
        binop_type(Operator::BXor, Type::Dcml, Type::Dcml) is None,
        a != b ==> binop_type(op, a, b) is None,
{
}

} // verus!
