//! The syntax tree produced by the parser.
use vstd::prelude::*;
use crate::tokens::{Literal, LiteralView, Operator, Type};

verus! {

/// A position in the source: line and column, both from 0.
#[derive(Clone, Copy, Debug, PartialEq, Eq, Structural)]
pub struct Loc {
    pub line: u32,
    pub col: u32,
}

impl Loc {
    pub fn new(line: u32, col: u32) -> (r: Self)
        ensures
            r.line == line,
            r.col == col,
    {
        Loc { line, col }
    }
}

} // verus!

verus! {

/// A function: its location, name, parameters, body and return type.
#[derive(Debug)]
pub struct FunctionAst {
    pub loc: Loc,
    pub name: String,
    pub params: Vec<(String, Type)>,
    pub code: Vec<Statement>,
    pub ret_type: Type,
}

/// An expression.
#[derive(Debug)]
pub enum ExprAST {
    Var(String),
    Lit(Literal),
    BinOp(Operator, Box<ExprAST>, Box<ExprAST>),
    Call(String, Vec<Expression>),
}

/// A statement.
#[derive(Debug)]
pub enum Statement {
    Expr(Expression),
    Decl(Declaration),
    Assign(Assignment),
    If(IfBlock),
    While(WhileBlock),
    Return(Return),
}

/// `typ ident = val;`
#[derive(Debug)]
pub struct Declaration {
    pub typ: Type,
    pub ident: String,
    pub ident_loc: Loc,
    pub val: ExprAST,
    pub val_loc: Loc,
}

/// An expression with the location just after it.
#[derive(Debug)]
pub struct Expression {
    pub expr: ExprAST,
    pub loc: Loc,
}

/// `ident = val;`
#[derive(Debug)]
pub struct Assignment {
    pub ident: String,
    pub ident_loc: Loc,
    pub val: ExprAST,
    pub val_loc: Loc,
}

/// `if cond { tcode } else { ecode }`
#[derive(Debug)]
pub struct IfBlock {
    pub cond: Expression,
    pub loc: Loc,
    pub tcode: Vec<Statement>,
    pub ecode: Vec<Statement>,
}

/// `while cond { code }`
#[derive(Debug)]
pub struct WhileBlock {
    pub cond: Expression,
    pub loc: Loc,
    pub code: Vec<Statement>,
}

/// `return expr;`
#[derive(Debug)]
pub struct Return {
    pub expr: Expression,
    pub loc: Loc,
}

/// An expression seen with its strings as sequences of characters.
pub enum ExprView {
    Var(Seq<char>),
    Lit(LiteralView),
    BinOp(Operator, Box<ExprView>, Box<ExprView>),
    Call(Seq<char>, Seq<ExpressionView>),
}

pub struct ExpressionView {
    pub expr: ExprView,
    pub loc: Loc,
}

pub enum StatementView {
    Expr(ExpressionView),
    Decl { typ: Type, ident: Seq<char>, ident_loc: Loc, val: ExprView, val_loc: Loc },
    Assign { ident: Seq<char>, ident_loc: Loc, val: ExprView, val_loc: Loc },
    If { cond: ExpressionView, loc: Loc, tcode: Seq<StatementView>, ecode: Seq<StatementView> },
    While { cond: ExpressionView, loc: Loc, code: Seq<StatementView> },
    Return { expr: ExpressionView, loc: Loc },
}

pub struct FunctionView {
    pub loc: Loc,
    pub name: Seq<char>,
    pub params: Seq<(Seq<char>, Type)>,
    pub code: Seq<StatementView>,
    pub ret_type: Type,
}

pub open spec fn expr_view(e: ExprAST) -> ExprView
    decreases e,
{
    match e {
        ExprAST::Var(s) => ExprView::Var(s@),
        ExprAST::Lit(l) => ExprView::Lit(l@),
        ExprAST::BinOp(op, a, b) => ExprView::BinOp(
            op,
            Box::new(expr_view(*a)),
            Box::new(expr_view(*b)),
        ),
        ExprAST::Call(s, args) => ExprView::Call(s@, expressions_view(args@)),
    }
}

pub open spec fn expression_view(e: Expression) -> ExpressionView
    decreases e,
{
    ExpressionView { expr: expr_view(e.expr), loc: e.loc }
}

pub open spec fn expressions_view(s: Seq<Expression>) -> Seq<ExpressionView>
    decreases s,
{
    if s.len() == 0 {
        Seq::empty()
    } else {
        expressions_view(s.subrange(0, s.len() - 1)).push(expression_view(s[s.len() - 1]))
    }
}

pub open spec fn statement_view(st: Statement) -> StatementView
    decreases st,
{
    match st {
        Statement::Expr(e) => StatementView::Expr(expression_view(e)),
        Statement::Decl(d) => StatementView::Decl {
            typ: d.typ,
            ident: d.ident@,
            ident_loc: d.ident_loc,
            val: expr_view(d.val),
            val_loc: d.val_loc,
        },
        Statement::Assign(a) => StatementView::Assign {
            ident: a.ident@,
            ident_loc: a.ident_loc,
            val: expr_view(a.val),
            val_loc: a.val_loc,
        },
        Statement::If(i) => StatementView::If {
            cond: expression_view(i.cond),
            loc: i.loc,
            tcode: statements_view(i.tcode@),
            ecode: statements_view(i.ecode@),
        },
        Statement::While(w) => StatementView::While {
            cond: expression_view(w.cond),
            loc: w.loc,
            code: statements_view(w.code@),
        },
        Statement::Return(r) => StatementView::Return { expr: expression_view(r.expr), loc: r.loc },
    }
}

pub open spec fn statements_view(s: Seq<Statement>) -> Seq<StatementView>
    decreases s,
{
    if s.len() == 0 {
        Seq::empty()
    } else {
        statements_view(s.subrange(0, s.len() - 1)).push(statement_view(s[s.len() - 1]))
    }
}

pub open spec fn params_view(p: Seq<(String, Type)>) -> Seq<(Seq<char>, Type)> {
    p.map_values(|x: (String, Type)| (x.0@, x.1))
}

pub open spec fn function_view(f: FunctionAst) -> FunctionView {
    FunctionView {
        loc: f.loc,
        name: f.name@,
        params: params_view(f.params@),
        code: statements_view(f.code@),
        ret_type: f.ret_type,
    }
}

pub open spec fn functions_view(s: Seq<FunctionAst>) -> Seq<FunctionView> {
    s.map_values(|f: FunctionAst| function_view(f))
}

} // verus!

verus! {

pub proof fn lemma_expressions_view_push(s: Seq<Expression>, e: Expression)
    ensures
        expressions_view(s.push(e)) == expressions_view(s).push(expression_view(e)),
        expressions_view(s).len() == s.len(),
    decreases s.len(),
{
    assert(s.push(e).subrange(0, s.len() as int) =~= s);
    lemma_expressions_view_len(s);
}

pub proof fn lemma_expressions_view_len(s: Seq<Expression>)
    ensures
        expressions_view(s).len() == s.len(),
    decreases s.len(),
{
    if s.len() > 0 {
        lemma_expressions_view_len(s.subrange(0, s.len() - 1));
    }
}

pub proof fn lemma_statements_view_push(s: Seq<Statement>, e: Statement)
    ensures
        statements_view(s.push(e)) == statements_view(s).push(statement_view(e)),
{
    assert(s.push(e).subrange(0, s.len() as int) =~= s);
}

pub proof fn lemma_statements_view_len(s: Seq<Statement>)
    ensures
        statements_view(s).len() == s.len(),
    decreases s.len(),
{
    if s.len() > 0 {
        lemma_statements_view_len(s.subrange(0, s.len() - 1));
    }
}

/// Each element's view is the view of the element at the same index.
pub proof fn lemma_statements_view_index(s: Seq<Statement>, i: int)
    requires
        0 <= i < s.len(),
    ensures
        statements_view(s)[i] == statement_view(s[i]),
        statements_view(s).len() == s.len(),
    decreases s.len(),
{
    lemma_statements_view_len(s);
    if i < s.len() - 1 {
        lemma_statements_view_index(s.subrange(0, s.len() - 1), i);
    }
}

pub proof fn lemma_expressions_view_index(s: Seq<Expression>, i: int)
    requires
        0 <= i < s.len(),
    ensures
        expressions_view(s)[i] == expression_view(s[i]),
        expressions_view(s).len() == s.len(),
    decreases s.len(),
{
    lemma_expressions_view_len(s);
    if i < s.len() - 1 {
        lemma_expressions_view_index(s.subrange(0, s.len() - 1), i);
    }
}

} // verus!
