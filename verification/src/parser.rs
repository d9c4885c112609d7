//! The parser: a recursive-descent parser with precedence climbing for
//! binary operators.
use vstd::prelude::*;
use std::collections::VecDeque;
use crate::ast::{
    Assignment, Declaration, ExprAST, ExprView, Expression, ExpressionView, FunctionAst,
    FunctionView, IfBlock, Loc, Return, Statement, StatementView, WhileBlock, expr_view,
    expression_view, expressions_view, function_view, functions_view, params_view,
    statement_view, statements_view, lemma_expressions_view_push, lemma_statements_view_push,
};
use crate::errors::{CompileError, ErrorType};
use crate::lexer::tokens_view;
use crate::text::string_from;
use crate::tokens::{LiteralView, Operator, Token, TokenView, Type};

verus! {

/// The parser's view of its input: the current token with its location and
/// the tokens after it.
pub struct PState {
    pub cur: TokenView,
    pub loc: Loc,
    pub rest: Seq<(TokenView, Loc)>,
}

/// Tokens still to read; reading past the end gives `EndOfFile` at 0:0.
pub open spec fn pm(s: PState) -> nat {
    s.rest.len() + if s.rest.len() == 0 && s.cur is EndOfFile {
        0nat
    } else {
        1nat
    }
}

/// Moves to the next token.
pub open spec fn advance(s: PState) -> PState {
    if s.rest.len() > 0 {
        PState { cur: s.rest[0].0, loc: s.rest[0].1, rest: s.rest.drop_first() }
    } else {
        PState { cur: TokenView::EndOfFile, loc: Loc { line: 0, col: 0 }, rest: s.rest }
    }
}

/// A parsing error: its message and location.
pub type PErr = (Seq<char>, Loc);

pub open spec fn fail<T>(s: PState, msg: Seq<char>) -> Result<(T, PState), PErr> {
    Err((msg, s.loc))
}

/// Binding strength of a binary operator.
pub open spec fn priority(op: Operator) -> nat {
    match op {
        Operator::And | Operator::Or | Operator::Xor => 10,
        Operator::LEq | Operator::Less | Operator::GEq | Operator::Greater | Operator::Eq
        | Operator::NEq => 20,
        Operator::BAnd | Operator::BOr | Operator::BXor => 30,
        Operator::Add | Operator::Sub => 40,
        Operator::Mult | Operator::Div | Operator::Mod => 50,
    }
}

/// An expression followed by the location just after it.
pub open spec fn p_expression(s: PState) -> Result<(ExpressionView, PState), PErr>
    decreases pm(s), 6nat,
{
    match p_expr(s) {
        Ok((e, s1)) => Ok((ExpressionView { expr: e, loc: s1.loc }, s1)),
        Err(e) => Err(e),
    }
}

/// A primary expression followed by binary operators.
pub open spec fn p_expr(s: PState) -> Result<(ExprView, PState), PErr>
    decreases pm(s), 5nat,
{
    match p_primary(s) {
        Ok((lhs, s1)) => if pm(s1) < pm(s) {
            p_rhs(s1, 0, lhs)
        } else {
            fail(s, Seq::empty())
        },
        Err(e) => Err(e),
    }
}

/// Precedence climbing: folds binary operators of at least priority
/// `prior` into `lhs`; an operator that binds more strongly than the one
/// before it takes the right operand first.
pub open spec fn p_rhs(s: PState, prior: nat, lhs: ExprView) -> Result<(ExprView, PState), PErr>
    decreases pm(s), 4nat,
{
    match s.cur {
        TokenView::Op(op) => if priority(op) < prior {
            Ok((lhs, s))
        } else {
            let tp = priority(op);
            let s1 = advance(s);
            if pm(s1) < pm(s) {
                match p_primary(s1) {
                    Ok((rhs, s2)) => {
                        let stronger = s2.cur matches TokenView::Op(nop) && priority(nop) > tp;
                        if pm(s2) < pm(s) {
                            let r = if stronger {
                                p_rhs(s2, tp + 1, rhs)
                            } else {
                                Ok((rhs, s2))
                            };
                            match r {
                                Ok((rhs2, s3)) => if pm(s3) < pm(s) {
                                    p_rhs(
                                        s3,
                                        prior,
                                        ExprView::BinOp(op, Box::new(lhs), Box::new(rhs2)),
                                    )
                                } else {
                                    fail(s, Seq::empty())
                                },
                                Err(e) => Err(e),
                            }
                        } else {
                            fail(s, Seq::empty())
                        }
                    },
                    Err(e) => Err(e),
                }
            } else {
                fail(s, Seq::empty())
            }
        },
        _ => Ok((lhs, s)),
    }
}

/// An identifier, a literal or a parenthesized expression.
pub open spec fn p_primary(s: PState) -> Result<(ExprView, PState), PErr>
    decreases pm(s), 3nat,
{
    match s.cur {
        TokenView::Ident(_) => p_ident(s),
        TokenView::Lit(l) => Ok((ExprView::Lit(l), advance(s))),
        TokenView::LeftParen => p_paren(s),
        _ => fail(s, "Expected an Identifier, Literal, or '(', got unknown token"@),
    }
}

/// A variable, or a call when a `(` follows the name.
pub open spec fn p_ident(s: PState) -> Result<(ExprView, PState), PErr>
    decreases pm(s), 2nat,
{
    match s.cur {
        TokenView::Ident(name) => {
            let s1 = advance(s);
            if s1.cur is LeftParen && pm(advance(s1)) < pm(s) {
                match p_args(advance(s1), Seq::empty()) {
                    Ok((args, s2)) => Ok((ExprView::Call(name, args), advance(s2))),
                    Err(e) => Err(e),
                }
            } else if s1.cur is LeftParen {
                fail(s, Seq::empty())
            } else {
                Ok((ExprView::Var(name), s1))
            }
        },
        _ => fail(s, Seq::empty()),
    }
}

/// Call arguments: expressions separated by `,` up to `)`, which stays
/// current.
pub open spec fn p_args(s: PState, acc: Seq<ExpressionView>) -> Result<
    (Seq<ExpressionView>, PState),
    PErr,
>
    decreases pm(s), 7nat,
{
    match p_expression(s) {
        Ok((e, s1)) => {
            let acc2 = acc.push(e);
            if s1.cur is Comma {
                if pm(advance(s1)) < pm(s) {
                    p_args(advance(s1), acc2)
                } else {
                    fail(s, Seq::empty())
                }
            } else if s1.cur is RightParen {
                Ok((acc2, s1))
            } else {
                fail(s1, "Expected a ',' or ')' in call parameters"@)
            }
        },
        Err(e) => Err(e),
    }
}

/// `( expr )`; the closing parenthesis stays current.
pub open spec fn p_paren(s: PState) -> Result<(ExprView, PState), PErr>
    decreases pm(s), 2nat,
{
    let s1 = advance(s);
    if pm(s1) < pm(s) {
        match p_expr(s1) {
            Ok((e, s2)) => if s2.cur is RightParen {
                Ok((e, s2))
            } else {
                fail(s2, "Expected a closed parenthesis in expression"@)
            },
            Err(e) => Err(e),
        }
    } else {
        fail(s, Seq::empty())
    }
}

/// A statement.
pub open spec fn p_statement(s: PState) -> Result<(StatementView, PState), PErr>
    decreases pm(s), 10nat,
{
    match s.cur {
        TokenView::DeclareType(_) => p_decl(s),
        TokenView::Ident(_) => if s.rest.len() > 0 && s.rest[0].0 is Assign {
            p_assign(s)
        } else {
            match p_expression(s) {
                Ok((e, s1)) => Ok((StatementView::Expr(e), s1)),
                Err(e) => Err(e),
            }
        },
        TokenView::If => p_if(s),
        TokenView::While => p_while(s),
        TokenView::Return => {
            let s1 = advance(s);
            if pm(s1) < pm(s) {
                match p_expression(s1) {
                    Ok((e, s2)) => if s2.cur is Semicolon {
                        Ok((StatementView::Return { expr: e, loc: s2.loc }, advance(s2)))
                    } else {
                        fail(s2, "Expected semicolon after return statement"@)
                    },
                    Err(e) => Err(e),
                }
            } else {
                fail(s, Seq::empty())
            }
        },
        _ => fail(s, "Unexpected Token"@),
    }
}

/// `if cond { ... }`, optionally followed by `else` and a block or a
/// statement.
pub open spec fn p_if(s: PState) -> Result<(StatementView, PState), PErr>
    decreases pm(s), 9nat,
{
    let s1 = advance(s);
    if pm(s1) < pm(s) {
        match p_expression(s1) {
            Ok((cond, s2)) => if !(s2.cur is LeftCurly) {
                fail(s2, "Expected block after if conditional"@)
            } else if pm(s2) < pm(s) {
                match p_block(s2) {
                    Ok((tcode, s3)) => if s3.cur is Else {
                        let s4 = advance(s3);
                        if pm(s4) < pm(s) {
                            let e = if s4.cur is LeftCurly {
                                p_block(s4)
                            } else {
                                match p_statement(s4) {
                                    Ok((st, s5)) => Ok((seq![st], s5)),
                                    Err(e) => Err(e),
                                }
                            };
                            match e {
                                Ok((ecode, s5)) => Ok(
                                    (StatementView::If { cond, loc: s.loc, tcode, ecode }, s5),
                                ),
                                Err(e) => Err(e),
                            }
                        } else {
                            fail(s, Seq::empty())
                        }
                    } else {
                        Ok((StatementView::If { cond, loc: s.loc, tcode, ecode: Seq::empty() }, s3))
                    },
                    Err(e) => Err(e),
                }
            } else {
                fail(s, Seq::empty())
            },
            Err(e) => Err(e),
        }
    } else {
        fail(s, Seq::empty())
    }
}

/// `while cond { ... }`
pub open spec fn p_while(s: PState) -> Result<(StatementView, PState), PErr>
    decreases pm(s), 9nat,
{
    let s1 = advance(s);
    if pm(s1) < pm(s) {
        match p_expression(s1) {
            Ok((cond, s2)) => if !(s2.cur is LeftCurly) {
                fail(s2, "Expected block after while conditional"@)
            } else if pm(s2) < pm(s) {
                match p_block(s2) {
                    Ok((code, s3)) => Ok((StatementView::While { cond, loc: s.loc, code }, s3)),
                    Err(e) => Err(e),
                }
            } else {
                fail(s, Seq::empty())
            },
            Err(e) => Err(e),
        }
    } else {
        fail(s, Seq::empty())
    }
}

/// `type name = expr;`
pub open spec fn p_decl(s: PState) -> Result<(StatementView, PState), PErr>
    decreases pm(s), 9nat,
{
    match s.cur {
        TokenView::DeclareType(typ) => {
            let s1 = advance(s);
            match s1.cur {
                TokenView::Ident(ident) => {
                    let s2 = advance(s1);
                    if !(s2.cur is Assign) {
                        fail(
                            s2,
                            "Expected an '=' after declaration (you have to declare and assign in one line)"@,
                        )
                    } else {
                        let s3 = advance(s2);
                        if pm(s3) < pm(s) {
                            match p_expression(s3) {
                                Ok((e, s4)) => if s4.cur is Semicolon {
                                    Ok(
                                        (
                                            StatementView::Decl {
                                                typ,
                                                ident,
                                                ident_loc: s1.loc,
                                                val: e.expr,
                                                val_loc: e.loc,
                                            },
                                            advance(s4),
                                        ),
                                    )
                                } else {
                                    fail(s4, "Expected a semicolon"@)
                                },
                                Err(e) => Err(e),
                            }
                        } else {
                            fail(s, Seq::empty())
                        }
                    }
                },
                _ => fail(s1, "Expected ident after type declaration"@),
            }
        },
        _ => fail(s, Seq::empty()),
    }
}

/// `name = expr;` The semicolon is checked and stays current.
pub open spec fn p_assign(s: PState) -> Result<(StatementView, PState), PErr>
    decreases pm(s), 9nat,
{
    match s.cur {
        TokenView::Ident(ident) => {
            let s2 = advance(advance(s));
            if pm(s2) < pm(s) {
                match p_expr(s2) {
                    Ok((e, s3)) => if s3.cur is Semicolon {
                        Ok(
                            (
                                StatementView::Assign {
                                    ident,
                                    ident_loc: s.loc,
                                    val: e,
                                    val_loc: s2.loc,
                                },
                                s3,
                            ),
                        )
                    } else {
                        fail(s3, "Expected a semicolon"@)
                    },
                    Err(e) => Err(e),
                }
            } else {
                fail(s, Seq::empty())
            }
        },
        _ => fail(s, Seq::empty()),
    }
}

/// `{ statements }`
pub open spec fn p_block(s: PState) -> Result<(Seq<StatementView>, PState), PErr>
    decreases pm(s), 8nat,
{
    if !(s.cur is LeftCurly) {
        fail(s, "Expected a block"@)
    } else if pm(advance(s)) < pm(s) {
        p_stmts(advance(s), Seq::empty())
    } else {
        fail(s, Seq::empty())
    }
}

/// Statements up to the closing `}`, which is read.
pub open spec fn p_stmts(s: PState, acc: Seq<StatementView>) -> Result<
    (Seq<StatementView>, PState),
    PErr,
>
    decreases pm(s), 11nat,
{
    if s.cur is RightCurly {
        Ok((acc, advance(s)))
    } else {
        match p_statement(s) {
            Ok((st, s1)) => if pm(s1) < pm(s) {
                p_stmts(s1, acc.push(st))
            } else {
                fail(s, Seq::empty())
            },
            Err(e) => Err(e),
        }
    }
}

/// Function parameters `type name` separated by `,` up to `)`, which stays
/// current.
pub open spec fn p_params(s: PState, acc: Seq<(Seq<char>, Type)>) -> Result<
    (Seq<(Seq<char>, Type)>, PState),
    PErr,
>
    decreases pm(s), 1nat,
{
    if s.cur is RightParen {
        Ok((acc, s))
    } else {
        match s.cur {
            TokenView::DeclareType(t) => {
                let s1 = advance(s);
                match s1.cur {
                    TokenView::Ident(a) => {
                        let s2 = advance(s1);
                        let acc2 = acc.push((a, t));
                        if s2.cur is Comma {
                            if pm(advance(s2)) < pm(s) {
                                p_params(advance(s2), acc2)
                            } else {
                                fail(s, Seq::empty())
                            }
                        } else if s2.cur is RightParen {
                            Ok((acc2, s2))
                        } else {
                            fail(s2, "Expected ',' or ')' after parameter in function"@)
                        }
                    },
                    _ => fail(s1, "Expected ident after type in function parameters"@),
                }
            },
            _ => fail(s, "Expected a type in function parameters"@),
        }
    }
}

/// `fun name(params) -> type { statements }`
#[verifier::opaque]
pub open spec fn p_function(s: PState) -> Result<(FunctionView, PState), PErr>
    decreases pm(s), 12nat,
{
    if !(s.cur is Fun) {
        fail(s, "Did not find keyword 'fun'."@)
    } else {
        let s1 = advance(s);
        match s1.cur {
            TokenView::Ident(name) => {
                let s2 = advance(s1);
                if !(s2.cur is LeftParen) {
                    fail(s2, "Expected left parenthesis after function name"@)
                } else {
                    let s3 = advance(s2);
                    if pm(s3) < pm(s) {
                        match p_params(s3, Seq::empty()) {
                            Ok((params, s4)) => {
                                let s5 = advance(s4);
                                if !(s5.cur is RArrow) {
                                    fail(s5, "Expected return arrow ('->')"@)
                                } else {
                                    let s6 = advance(s5);
                                    match s6.cur {
                                        TokenView::DeclareType(ret_type) => {
                                            let s7 = advance(s6);
                                            if pm(s7) < pm(s) {
                                                match p_block(s7) {
                                                    Ok((code, s8)) => Ok(
                                                        (
                                                            FunctionView {
                                                                loc: s.loc,
                                                                name,
                                                                params,
                                                                code,
                                                                ret_type,
                                                            },
                                                            s8,
                                                        ),
                                                    ),
                                                    Err(e) => Err(e),
                                                }
                                            } else {
                                                fail(s, Seq::empty())
                                            }
                                        },
                                        _ => fail(s6, "Expected return arrow to point to type"@),
                                    }
                                }
                            },
                            Err(e) => Err(e),
                        }
                    } else {
                        fail(s, Seq::empty())
                    }
                }
            },
            _ => fail(s1, "Expected function name after 'fun' keyword"@),
        }
    }
}

/// Functions until one is followed by `EndOfFile`.
pub open spec fn p_all(s: PState) -> Result<Seq<FunctionView>, PErr>
    decreases pm(s), 13nat,
{
    match p_function(s) {
        Ok((f, s1)) => if s1.cur is EndOfFile {
            Ok(seq![f])
        } else if pm(s1) < pm(s) {
            match p_all(s1) {
                Ok(fs) => Ok(seq![f] + fs),
                Err(e) => Err(e),
            }
        } else {
            Err((Seq::empty(), s.loc))
        },
        Err(e) => Err(e),
    }
}

} // verus!

verus! {

/// The error is a parsing error with this message at this location.
pub open spec fn perr_is(e: CompileError, err: PErr) -> bool {
    &&& e.e_type matches ErrorType::ParsingError(m) && m@ == err.0
    &&& e.line == err.1.line
    &&& e.col == err.1.col
}

/// The parser: the current token and the tokens after it.
pub struct ParsingMachine {
    cur_tok: (Token, Loc),
    tok_vec: VecDeque<(Token, Loc)>,
    finished: bool,
}

impl ParsingMachine {
    pub closed spec fn pstate(&self) -> PState {
        PState { cur: self.cur_tok.0@, loc: self.cur_tok.1, rest: tokens_view(self.tok_vec@) }
    }

    pub closed spec fn is_finished(&self) -> bool {
        self.finished
    }

    /// A parser over `all_tha_tokens`, which must not be empty.
    pub fn new(all_tha_tokens: Vec<(Token, Loc)>) -> (r: Self)
        requires
            all_tha_tokens@.len() > 0,
        ensures
            r.pstate() == (PState {
                cur: tokens_view(all_tha_tokens@)[0].0,
                loc: tokens_view(all_tha_tokens@)[0].1,
                rest: tokens_view(all_tha_tokens@).drop_first(),
            }),
            !r.is_finished(),
    {
        let mut tok_vec: VecDeque<(Token, Loc)> = VecDeque::new();
        let mut toks = all_tha_tokens;
        let ghost all = toks@;
        let mut rev: Vec<(Token, Loc)> = Vec::new();
        while toks.len() > 0
            invariant
                rev@.len() + toks@.len() == all.len(),
                forall|i: int| 0 <= i < toks@.len() ==> toks@[i] == all[i],
                forall|i: int|
                    0 <= i < rev@.len() ==> rev@[i] == all[all.len() - 1 - i],
            decreases toks@.len(),
        {
            let t = toks.pop().unwrap();
            rev.push(t);
        }
        while rev.len() > 0
            invariant
                tok_vec@.len() + rev@.len() == all.len(),
                tok_vec@ == all.take(tok_vec@.len() as int),
                forall|i: int|
                    0 <= i < rev@.len() ==> rev@[i] == all[all.len() - 1 - i],
            decreases rev@.len(),
        {
            let t = rev.pop().unwrap();
            tok_vec.push_back(t);
            assert(tok_vec@ =~= all.take(tok_vec@.len() as int));
        }
        assert(tok_vec@ =~= all);
        let cur_tok = tok_vec.pop_front().unwrap();
        assert(tokens_view(all)[0] == (cur_tok.0@, cur_tok.1));
        assert(tokens_view(tok_vec@) =~= tokens_view(all).drop_first());
        ParsingMachine { cur_tok, tok_vec, finished: false }
    }

    /// Appends tokens after the ones left; the parser goes on.
    pub fn append_tok(&mut self, new_stuff: Vec<(Token, Loc)>)
        ensures
            final(self).pstate() == (PState {
                rest: old(self).pstate().rest + tokens_view(new_stuff@),
                ..old(self).pstate()
            }),
            !final(self).is_finished(),
    {
        let mut toks = new_stuff;
        let ghost all = toks@;
        let mut rev: Vec<(Token, Loc)> = Vec::new();
        while toks.len() > 0
            invariant
                rev@.len() + toks@.len() == all.len(),
                forall|i: int| 0 <= i < toks@.len() ==> toks@[i] == all[i],
                forall|i: int|
                    0 <= i < rev@.len() ==> rev@[i] == all[all.len() - 1 - i],
            decreases toks@.len(),
        {
            let t = toks.pop().unwrap();
            rev.push(t);
        }
        let ghost before = self.tok_vec@;
        while rev.len() > 0
            invariant
                self.tok_vec@.len() + rev@.len() == before.len() + all.len(),
                self.tok_vec@ == before + all.take(self.tok_vec@.len() - before.len()),
                self.tok_vec@.len() >= before.len(),
                self.cur_tok == old(self).cur_tok,
                before == old(self).tok_vec@,
                forall|i: int|
                    0 <= i < rev@.len() ==> rev@[i] == all[all.len() - 1 - i],
            decreases rev@.len(),
        {
            let t = rev.pop().unwrap();
            self.tok_vec.push_back(t);
            assert(self.tok_vec@ =~= before + all.take(self.tok_vec@.len() - before.len()));
        }
        assert(all.take(all.len() as int) =~= all);
        assert(tokens_view(before + all) =~= tokens_view(before) + tokens_view(all));
        self.finished = false;
    }

    fn eat_tok(&mut self)
        ensures
            final(self).pstate() == advance(old(self).pstate()),
            final(self).finished == old(self).finished,
    {
        self.cur_tok = match self.tok_vec.pop_front() {
            Some(x) => x,
            None => (Token::EndOfFile, Loc { line: 0, col: 0 }),
        };
        proof {
            if old(self).tok_vec@.len() > 0 {
                assert(tokens_view(self.tok_vec@) =~= tokens_view(old(self).tok_vec@).drop_first());
            }
        }
    }

    /// The next token is `=`.
    fn peek_is_assign(&self) -> (r: bool)
        ensures
            r == (self.pstate().rest.len() > 0 && self.pstate().rest[0].0 is Assign),
    {
        if self.tok_vec.len() > 0 {
            match &self.tok_vec[0].0 {
                Token::Assign => true,
                _ => false,
            }
        } else {
            false
        }
    }

    fn err(&self, msg: &str) -> (r: CompileError)
        ensures
            perr_is(r, (msg@, self.pstate().loc)),
    {
        CompileError {
            e_type: ErrorType::ParsingError(string_from(msg)),
            line: self.cur_tok.1.line,
            col: self.cur_tok.1.col,
        }
    }

    fn cur_is(&self, t: &Token) -> (r: bool)
        requires
            match t {
                Token::Ident(_) | Token::Lit(_) | Token::DcmlText(_) | Token::ShortHand(_) | Token::Op(_)
                | Token::DeclareType(_) => false,
                _ => true,
            },
        ensures
            r == (self.pstate().cur == t@),
    {
        match (&self.cur_tok.0, t) {
            (Token::Semicolon, Token::Semicolon) => true,
            (Token::Fun, Token::Fun) => true,
            (Token::While, Token::While) => true,
            (Token::If, Token::If) => true,
            (Token::Else, Token::Else) => true,
            (Token::LeftParen, Token::LeftParen) => true,
            (Token::RightParen, Token::RightParen) => true,
            (Token::LeftBrack, Token::LeftBrack) => true,
            (Token::RightBrack, Token::RightBrack) => true,
            (Token::LeftCurly, Token::LeftCurly) => true,
            (Token::RightCurly, Token::RightCurly) => true,
            (Token::Comma, Token::Comma) => true,
            (Token::Assign, Token::Assign) => true,
            (Token::Return, Token::Return) => true,
            (Token::RArrow, Token::RArrow) => true,
            (Token::EndOfFile, Token::EndOfFile) => true,
            _ => false,
        }
    }
}

pub proof fn lemma_advance(s: PState)
    ensures
        !(s.rest.len() == 0 && s.cur is EndOfFile) ==> pm(advance(s)) < pm(s),
        pm(advance(s)) <= pm(s),
{
}

} // verus!

verus! {

/// Binding strength of a binary operator.
fn get_priority(op: &Operator) -> (r: u32)
    ensures
        r == priority(*op),
{
    match op {
        Operator::And | Operator::Or | Operator::Xor => 10,
        Operator::LEq | Operator::Less | Operator::GEq | Operator::Greater | Operator::Eq
        | Operator::NEq => 20,
        Operator::BAnd | Operator::BOr | Operator::BXor => 30,
        Operator::Add | Operator::Sub => 40,
        Operator::Mult | Operator::Div | Operator::Mod => 50,
    }
}

impl ParsingMachine {
    fn parse_expression(&mut self) -> (r: Result<Expression, CompileError>)
        ensures
            match p_expression(old(self).pstate()) {
                Ok((v, s1)) => r matches Ok(x) && expression_view(x) == v && final(self).pstate()
                    == s1,
                Err(e) => r matches Err(ce) && perr_is(ce, e),
            },
            r is Ok ==> pm(final(self).pstate()) < pm(old(self).pstate()),
            final(self).finished == old(self).finished,
        decreases pm(old(self).pstate()), 6nat,
    {
        let expr = match self.parse_expr() {
            Ok(e) => e,
            Err(e) => {
                return Err(e);
            },
        };
        Ok(Expression { expr, loc: self.cur_tok.1 })
    }

    fn parse_expr(&mut self) -> (r: Result<ExprAST, CompileError>)
        ensures
            match p_expr(old(self).pstate()) {
                Ok((v, s1)) => r matches Ok(x) && expr_view(x) == v && final(self).pstate() == s1,
                Err(e) => r matches Err(ce) && perr_is(ce, e),
            },
            r is Ok ==> pm(final(self).pstate()) < pm(old(self).pstate()),
            final(self).finished == old(self).finished,
        decreases pm(old(self).pstate()), 5nat,
    {
        let lhs = match self.parse_primary() {
            Ok(e) => e,
            Err(e) => {
                return Err(e);
            },
        };
        self.parse_rhs(0, lhs)
    }

    fn parse_rhs(&mut self, expr_prior: u32, lhs_in: ExprAST) -> (r: Result<ExprAST, CompileError>)
        ensures
            match p_rhs(old(self).pstate(), expr_prior as nat, expr_view(lhs_in)) {
                Ok((v, s1)) => r matches Ok(x) && expr_view(x) == v && final(self).pstate() == s1,
                Err(e) => r matches Err(ce) && perr_is(ce, e),
            },
            r is Ok ==> pm(final(self).pstate()) <= pm(old(self).pstate()),
            final(self).finished == old(self).finished,
        decreases pm(old(self).pstate()), 4nat,
    {
        let ghost s0 = self.pstate();
        let ghost l0 = expr_view(lhs_in);
        let mut lhs = lhs_in;
        loop
            invariant
                p_rhs(self.pstate(), expr_prior as nat, expr_view(lhs)) == p_rhs(
                    s0,
                    expr_prior as nat,
                    l0,
                ),
                s0 == old(self).pstate(),
                l0 == expr_view(lhs_in),
                pm(self.pstate()) <= pm(s0),
                self.finished == old(self).finished,
            decreases pm(self.pstate()),
        {
            let binop = match &self.cur_tok.0 {
                Token::Op(b) => *b,
                _ => {
                    return Ok(lhs);
                },
            };
            let tok_prior = get_priority(&binop);
            if tok_prior < expr_prior {
                return Ok(lhs);
            }
            let ghost cur = self.pstate();
            proof {
                lemma_advance(cur);
            }
            self.eat_tok();
            let rhs = match self.parse_primary() {
                Ok(e) => e,
                Err(e) => {
                    return Err(e);
                },
            };
            let stronger = match &self.cur_tok.0 {
                Token::Op(nb) => get_priority(nb) > tok_prior,
                _ => false,
            };
            let rhs = if stronger {
                match self.parse_rhs(tok_prior + 1, rhs) {
                    Ok(e) => e,
                    Err(e) => {
                        return Err(e);
                    },
                }
            } else {
                rhs
            };
            lhs = ExprAST::BinOp(binop, Box::new(lhs), Box::new(rhs));
        }
    }

    fn parse_primary(&mut self) -> (r: Result<ExprAST, CompileError>)
        ensures
            match p_primary(old(self).pstate()) {
                Ok((v, s1)) => r matches Ok(x) && expr_view(x) == v && final(self).pstate() == s1,
                Err(e) => r matches Err(ce) && perr_is(ce, e),
            },
            r is Ok ==> pm(final(self).pstate()) < pm(old(self).pstate()),
            final(self).finished == old(self).finished,
        decreases pm(old(self).pstate()), 3nat,
    {
        proof {
            lemma_advance(self.pstate());
        }
        match &self.cur_tok.0 {
            Token::Ident(_) => self.parse_ident(),
            Token::Lit(lit) => {
                let ans = ExprAST::Lit(lit.duplicate());
                self.eat_tok();
                Ok(ans)
            },
            Token::LeftParen => self.parse_paren(),
            _ => Err(self.err("Expected an Identifier, Literal, or '(', got unknown token")),
        }
    }

    fn parse_ident(&mut self) -> (r: Result<ExprAST, CompileError>)
        requires
            old(self).pstate().cur is Ident,
        ensures
            match p_ident(old(self).pstate()) {
                Ok((v, s1)) => r matches Ok(x) && expr_view(x) == v && final(self).pstate() == s1,
                Err(e) => r matches Err(ce) && perr_is(ce, e),
            },
            r is Ok ==> pm(final(self).pstate()) < pm(old(self).pstate()),
            final(self).finished == old(self).finished,
        decreases pm(old(self).pstate()), 2nat,
    {
        let ident = match &self.cur_tok.0 {
            Token::Ident(s) => s.clone(),
            _ => {
                return Err(self.err(""));
            },
        };
        proof {
            lemma_advance(self.pstate());
        }
        self.eat_tok();
        if self.cur_is(&Token::LeftParen) {
            proof {
                lemma_advance(self.pstate());
            }
            self.eat_tok();
            let ghost s_args = self.pstate();
            let mut param_vec: Vec<Expression> = Vec::new();
            loop
                invariant
                    p_args(s_args, Seq::empty()) == match p_args(
                        self.pstate(),
                        expressions_view(param_vec@),
                    ) {
                        Ok(x) => Ok(x),
                        Err(e) => Err(e),
                    },
                    pm(self.pstate()) <= pm(s_args),
                    pm(s_args) < pm(old(self).pstate()),
                    self.finished == old(self).finished,
                    p_ident(old(self).pstate()) == match p_args(s_args, Seq::empty()) {
                        Ok((args, s2)) => Ok((ExprView::Call(ident@, args), advance(s2))),
                        Err(e) => Err(e),
                    },
                decreases pm(self.pstate()),
            {
                let ghost before = self.pstate();
                let expr = match self.parse_expression() {
                    Ok(e) => e,
                    Err(e) => {
                        return Err(e);
                    },
                };
                proof {
                    lemma_expressions_view_push(param_vec@, expr);
                }
                param_vec.push(expr);
                if self.cur_is(&Token::Comma) {
                    proof {
                        lemma_advance(self.pstate());
                    }
                    self.eat_tok();
                } else if self.cur_is(&Token::RightParen) {
                    proof {
                        lemma_advance(self.pstate());
                    }
                    self.eat_tok();
                    return Ok(ExprAST::Call(ident, param_vec));
                } else {
                    return Err(self.err("Expected a ',' or ')' in call parameters"));
                }
            }
        } else {
            Ok(ExprAST::Var(ident))
        }
    }

    fn parse_paren(&mut self) -> (r: Result<ExprAST, CompileError>)
        ensures
            match p_paren(old(self).pstate()) {
                Ok((v, s1)) => r matches Ok(x) && expr_view(x) == v && final(self).pstate() == s1,
                Err(e) => r matches Err(ce) && perr_is(ce, e),
            },
            r is Ok ==> pm(final(self).pstate()) < pm(old(self).pstate()),
            final(self).finished == old(self).finished,
        decreases pm(old(self).pstate()), 2nat,
    {
        if self.cur_is(&Token::EndOfFile) && self.tok_vec.len() == 0 {
            proof {
                reveal_strlit("");
                assert(""@ =~= Seq::<char>::empty());
            }
            return Err(self.err(""));
        }
        proof {
            lemma_advance(self.pstate());
        }
        self.eat_tok();
        let expr = match self.parse_expr() {
            Ok(e) => e,
            Err(e) => {
                return Err(e);
            },
        };
        if !self.cur_is(&Token::RightParen) {
            return Err(self.err("Expected a closed parenthesis in expression"));
        }
        Ok(expr)
    }
}

} // verus!

verus! {

impl ParsingMachine {
    fn parse_statement(&mut self) -> (r: Result<Statement, CompileError>)
        ensures
            match p_statement(old(self).pstate()) {
                Ok((v, s1)) => r matches Ok(x) && statement_view(x) == v && final(self).pstate()
                    == s1,
                Err(e) => r matches Err(ce) && perr_is(ce, e),
            },
            r is Ok ==> pm(final(self).pstate()) < pm(old(self).pstate()),
            final(self).finished == old(self).finished,
        decreases pm(old(self).pstate()), 10nat,
    {
        proof {
            lemma_advance(self.pstate());
        }
        match &self.cur_tok.0 {
            Token::DeclareType(_) => self.parse_decl(),
            Token::Ident(_) => {
                if self.peek_is_assign() {
                    self.parse_assign()
                } else {
                    match self.parse_expression() {
                        Ok(e) => Ok(Statement::Expr(e)),
                        Err(e) => Err(e),
                    }
                }
            },
            Token::If => self.parse_if(),
            Token::While => self.parse_while(),
            Token::Return => {
                self.eat_tok();
                let expr = match self.parse_expression() {
                    Ok(e) => e,
                    Err(e) => {
                        return Err(e);
                    },
                };
                let ans = Statement::Return(Return { expr, loc: self.cur_tok.1 });
                if !self.cur_is(&Token::Semicolon) {
                    return Err(self.err("Expected semicolon after return statement"));
                }
                proof {
                    lemma_advance(self.pstate());
                }
                self.eat_tok();
                Ok(ans)
            },
            _ => Err(self.err("Unexpected Token")),
        }
    }

    fn parse_if(&mut self) -> (r: Result<Statement, CompileError>)
        requires
            old(self).pstate().cur is If,
        ensures
            match p_if(old(self).pstate()) {
                Ok((v, s1)) => r matches Ok(x) && statement_view(x) == v && final(self).pstate()
                    == s1,
                Err(e) => r matches Err(ce) && perr_is(ce, e),
            },
            r is Ok ==> pm(final(self).pstate()) < pm(old(self).pstate()),
            final(self).finished == old(self).finished,
        decreases pm(old(self).pstate()), 9nat,
    {
        let loc = self.cur_tok.1;
        proof {
            lemma_advance(self.pstate());
        }
        self.eat_tok();
        let cond = match self.parse_expression() {
            Ok(e) => e,
            Err(e) => {
                return Err(e);
            },
        };
        if !self.cur_is(&Token::LeftCurly) {
            return Err(self.err("Expected block after if conditional"));
        }
        let block = match self.collect_curly_statements() {
            Ok(b) => b,
            Err(e) => {
                return Err(e);
            },
        };
        let ecode;
        if self.cur_is(&Token::Else) {
            proof {
                lemma_advance(self.pstate());
            }
            self.eat_tok();
            if self.cur_is(&Token::LeftCurly) {
                ecode = match self.collect_curly_statements() {
                    Ok(b) => b,
                    Err(e) => {
                        return Err(e);
                    },
                };
            } else {
                let st = match self.parse_statement() {
                    Ok(b) => b,
                    Err(e) => {
                        return Err(e);
                    },
                };
                let mut v: Vec<Statement> = Vec::new();
                proof {
                    lemma_statements_view_push(v@, st);
                    assert(v@.push(st) =~= seq![st]);
                }
                v.push(st);
                proof {
                    assert(statements_view(v@) =~= seq![statement_view(st)]);
                }
                ecode = v;
            }
        } else {
            ecode = Vec::new();
        }
        Ok(Statement::If(IfBlock { cond, loc, tcode: block, ecode }))
    }

    fn parse_while(&mut self) -> (r: Result<Statement, CompileError>)
        requires
            old(self).pstate().cur is While,
        ensures
            match p_while(old(self).pstate()) {
                Ok((v, s1)) => r matches Ok(x) && statement_view(x) == v && final(self).pstate()
                    == s1,
                Err(e) => r matches Err(ce) && perr_is(ce, e),
            },
            r is Ok ==> pm(final(self).pstate()) < pm(old(self).pstate()),
            final(self).finished == old(self).finished,
        decreases pm(old(self).pstate()), 9nat,
    {
        let loc = self.cur_tok.1;
        proof {
            lemma_advance(self.pstate());
        }
        self.eat_tok();
        let cond = match self.parse_expression() {
            Ok(e) => e,
            Err(e) => {
                return Err(e);
            },
        };
        if !self.cur_is(&Token::LeftCurly) {
            return Err(self.err("Expected block after while conditional"));
        }
        let block = match self.collect_curly_statements() {
            Ok(b) => b,
            Err(e) => {
                return Err(e);
            },
        };
        Ok(Statement::While(WhileBlock { cond, loc, code: block }))
    }

    fn parse_decl(&mut self) -> (r: Result<Statement, CompileError>)
        requires
            old(self).pstate().cur is DeclareType,
        ensures
            match p_decl(old(self).pstate()) {
                Ok((v, s1)) => r matches Ok(x) && statement_view(x) == v && final(self).pstate()
                    == s1,
                Err(e) => r matches Err(ce) && perr_is(ce, e),
            },
            r is Ok ==> pm(final(self).pstate()) < pm(old(self).pstate()),
            final(self).finished == old(self).finished,
        decreases pm(old(self).pstate()), 9nat,
    {
        let typ = match &self.cur_tok.0 {
            Token::DeclareType(t) => *t,
            _ => {
                return Err(self.err(""));
            },
        };
        proof {
            lemma_advance(self.pstate());
        }
        self.eat_tok();
        let ident = match &self.cur_tok.0 {
            Token::Ident(s) => s.clone(),
            _ => {
                return Err(self.err("Expected ident after type declaration"));
            },
        };
        let ident_loc = self.cur_tok.1;
        proof {
            lemma_advance(self.pstate());
        }
        self.eat_tok();
        if !self.cur_is(&Token::Assign) {
            return Err(
                self.err(
                    "Expected an '=' after declaration (you have to declare and assign in one line)",
                ),
            );
        }
        proof {
            lemma_advance(self.pstate());
        }
        self.eat_tok();
        let expr = match self.parse_expression() {
            Ok(e) => e,
            Err(e) => {
                return Err(e);
            },
        };
        if !self.cur_is(&Token::Semicolon) {
            return Err(self.err("Expected a semicolon"));
        }
        proof {
            lemma_advance(self.pstate());
        }
        self.eat_tok();
        Ok(
            Statement::Decl(
                Declaration { typ, ident, ident_loc, val: expr.expr, val_loc: expr.loc },
            ),
        )
    }

    fn parse_assign(&mut self) -> (r: Result<Statement, CompileError>)
        requires
            old(self).pstate().cur is Ident,
            old(self).pstate().rest.len() > 0,
            old(self).pstate().rest[0].0 is Assign,
        ensures
            match p_assign(old(self).pstate()) {
                Ok((v, s1)) => r matches Ok(x) && statement_view(x) == v && final(self).pstate()
                    == s1,
                Err(e) => r matches Err(ce) && perr_is(ce, e),
            },
            r is Ok ==> pm(final(self).pstate()) < pm(old(self).pstate()),
            final(self).finished == old(self).finished,
        decreases pm(old(self).pstate()), 9nat,
    {
        let name = match &self.cur_tok.0 {
            Token::Ident(s) => s.clone(),
            _ => {
                return Err(self.err(""));
            },
        };
        let id_loc = self.cur_tok.1;
        proof {
            lemma_advance(self.pstate());
            lemma_advance(advance(self.pstate()));
        }
        self.eat_tok();
        self.eat_tok();
        let v_loc = self.cur_tok.1;
        let expr = match self.parse_expr() {
            Ok(e) => e,
            Err(e) => {
                return Err(e);
            },
        };
        if !self.cur_is(&Token::Semicolon) {
            return Err(self.err("Expected a semicolon"));
        }
        Ok(Statement::Assign(Assignment { ident: name, ident_loc: id_loc, val: expr, val_loc: v_loc }))
    }

    fn collect_curly_statements(&mut self) -> (r: Result<Vec<Statement>, CompileError>)
        ensures
            match p_block(old(self).pstate()) {
                Ok((v, s1)) => r matches Ok(x) && statements_view(x@) == v && final(self).pstate()
                    == s1,
                Err(e) => r matches Err(ce) && perr_is(ce, e),
            },
            r is Ok ==> pm(final(self).pstate()) < pm(old(self).pstate()),
            final(self).finished == old(self).finished,
        decreases pm(old(self).pstate()), 8nat,
    {
        if !self.cur_is(&Token::LeftCurly) {
            return Err(self.err("Expected a block"));
        }
        proof {
            lemma_advance(self.pstate());
        }
        self.eat_tok();
        let ghost s_start = self.pstate();
        let mut state_vec: Vec<Statement> = Vec::new();
        loop
            invariant
                p_stmts(s_start, Seq::empty()) == p_stmts(self.pstate(), statements_view(state_vec@)),
                p_block(old(self).pstate()) == p_stmts(s_start, Seq::empty()),
                pm(self.pstate()) <= pm(s_start),
                pm(s_start) < pm(old(self).pstate()),
                self.finished == old(self).finished,
            decreases pm(self.pstate()),
        {
            if self.cur_is(&Token::RightCurly) {
                proof {
                    lemma_advance(self.pstate());
                }
                self.eat_tok();
                return Ok(state_vec);
            }
            let statement = match self.parse_statement() {
                Ok(s) => s,
                Err(e) => {
                    return Err(e);
                },
            };
            proof {
                lemma_statements_view_push(state_vec@, statement);
            }
            state_vec.push(statement);
        }
    }

    fn parse_params(&mut self) -> (r: Result<Vec<(String, Type)>, CompileError>)
        ensures
            match p_params(old(self).pstate(), Seq::empty()) {
                Ok((v, s1)) => r matches Ok(x) && params_view(x@) == v && final(self).pstate()
                    == s1,
                Err(e) => r matches Err(ce) && perr_is(ce, e),
            },
            pm(final(self).pstate()) <= pm(old(self).pstate()),
            final(self).finished == old(self).finished,
    {
        let mut param_vec: Vec<(String, Type)> = Vec::new();
        proof {
            assert(params_view(param_vec@) =~= Seq::empty());
        }
        while !self.cur_is(&Token::RightParen)
            invariant
                p_params(old(self).pstate(), Seq::empty()) == p_params(
                    self.pstate(),
                    params_view(param_vec@),
                ),
                pm(self.pstate()) <= pm(old(self).pstate()),
                self.finished == old(self).finished,
            decreases pm(self.pstate()),
        {
            let typ = match &self.cur_tok.0 {
                Token::DeclareType(t) => *t,
                _ => {
                    return Err(self.err("Expected a type in function parameters"));
                },
            };
            proof {
                lemma_advance(self.pstate());
            }
            self.eat_tok();
            let arg_name = match &self.cur_tok.0 {
                Token::Ident(s) => s.clone(),
                _ => {
                    return Err(self.err("Expected ident after type in function parameters"));
                },
            };
            proof {
                lemma_advance(self.pstate());
            }
            self.eat_tok();
            let ghost pv = param_vec@;
            param_vec.push((arg_name, typ));
            proof {
                assert(params_view(param_vec@) =~= params_view(pv).push((arg_name@, typ)));
            }
            if self.cur_is(&Token::Comma) {
                proof {
                    lemma_advance(self.pstate());
                }
                self.eat_tok();
            } else if self.cur_is(&Token::RightParen) {
                return Ok(param_vec);
            } else {
                return Err(self.err("Expected ',' or ')' after parameter in function"));
            }
        }
        Ok(param_vec)
    }

    /// Parses one function.
    pub fn parse_function(&mut self) -> (r: Result<FunctionAst, CompileError>)
        ensures
            match p_function(old(self).pstate()) {
                Ok((v, s1)) => r matches Ok(x) && function_view(x) == v && final(self).pstate()
                    == s1 && final(self).is_finished() == (old(self).is_finished() || s1.cur is EndOfFile),
                Err(e) => r matches Err(ce) && perr_is(ce, e),
            },
            r is Ok ==> pm(final(self).pstate()) < pm(old(self).pstate()),
    {
        reveal(p_function);
        if !self.cur_is(&Token::Fun) {
            return Err(self.err("Did not find keyword 'fun'."));
        }
        let loc = self.cur_tok.1;
        proof {
            lemma_advance(self.pstate());
        }
        self.eat_tok();
        let func_ident = match &self.cur_tok.0 {
            Token::Ident(s) => s.clone(),
            _ => {
                return Err(self.err("Expected function name after 'fun' keyword"));
            },
        };
        proof {
            lemma_advance(self.pstate());
        }
        self.eat_tok();
        if !self.cur_is(&Token::LeftParen) {
            return Err(self.err("Expected left parenthesis after function name"));
        }
        proof {
            lemma_advance(self.pstate());
        }
        self.eat_tok();
        let param_vec = match self.parse_params() {
            Ok(p) => p,
            Err(e) => {
                return Err(e);
            },
        };
        proof {
            lemma_advance(self.pstate());
        }
        self.eat_tok();
        if !self.cur_is(&Token::RArrow) {
            return Err(self.err("Expected return arrow ('->')"));
        }
        proof {
            lemma_advance(self.pstate());
        }
        self.eat_tok();
        let ret_type = match &self.cur_tok.0 {
            Token::DeclareType(t) => *t,
            _ => {
                return Err(self.err("Expected return arrow to point to type"));
            },
        };
        proof {
            lemma_advance(self.pstate());
        }
        self.eat_tok();
        let block = match self.collect_curly_statements() {
            Ok(b) => b,
            Err(e) => {
                return Err(e);
            },
        };
        if self.cur_is(&Token::EndOfFile) {
            self.finished = true;
        }
        Ok(FunctionAst { loc, name: func_ident, params: param_vec, code: block, ret_type })
    }

    /// Parses functions until one is followed by the end of the input.
    pub fn parse_all(self) -> (r: Result<Vec<FunctionAst>, CompileError>)
        requires
            !self.is_finished(),
        ensures
            match p_all(self.pstate()) {
                Ok(v) => r matches Ok(x) && functions_view(x@) == v,
                Err(e) => r matches Err(ce) && perr_is(ce, e),
            },
    {
        let mut pm_ = self;
        let mut all_funcs: Vec<FunctionAst> = Vec::new();
        proof {
            match p_all(pm_.pstate()) {
                Ok(v) => {
                    assert(functions_view(all_funcs@) + v =~= v);
                },
                _ => {},
            }
        }
        while !pm_.finished
            invariant
                !pm_.finished ==> p_all(self.pstate()) == match p_all(pm_.pstate()) {
                    Ok(v) => Ok(functions_view(all_funcs@) + v),
                    Err(e) => Err(e),
                },
                pm_.finished ==> (p_all(self.pstate()) == Ok::<Seq<FunctionView>, PErr>(functions_view(all_funcs@))),
            decreases pm(pm_.pstate()),
        {
            let ghost s0 = pm_.pstate();
            let f = match pm_.parse_function() {
                Ok(f) => f,
                Err(e) => {
                    return Err(e);
                },
            };
            let ghost fs = all_funcs@;
            all_funcs.push(f);
            proof {
                assert(functions_view(all_funcs@) =~= functions_view(fs).push(function_view(f)));
                match p_all(pm_.pstate()) {
                    Ok(v) => {
                        assert(functions_view(fs) + (seq![function_view(f)] + v) =~= functions_view(all_funcs@) + v);
                    },
                    _ => {},
                }
                if pm_.pstate().cur is EndOfFile {
                    assert(functions_view(fs) + seq![function_view(f)] =~= functions_view(all_funcs@));
                }
            }
        }
        Ok(all_funcs)
    }
}

/// Operators group by binding strength, from the loosest: logic (`&&`,
/// `||`, logical xor), comparisons, bitwise operators, `+` and `-`, then
/// `*`, `/` and `%`, which bind the most tightly.
pub proof fn law_priorities(m: Operator, a: Operator, b: Operator, c: Operator, g: Operator)
    requires
        m is Mult || m is Div || m is Mod,
        a is Add || a is Sub,
        b is BAnd || b is BOr || b is BXor,
        c is Less || c is LEq || c is Greater || c is GEq || c is Eq || c is NEq,
        g is And || g is Or || g is Xor,
    ensures
        priority(m) > priority(a),
        priority(a) > priority(b),
        priority(b) > priority(c),
        priority(c) > priority(g),
{
}

/// The tokens `x o1 y o2 z` followed by `tail`, at location `l`.
pub open spec fn three_operands(
    x: LiteralView,
    o1: Operator,
    y: LiteralView,
    o2: Operator,
    z: LiteralView,
    l: Loc,
    tail: Seq<(TokenView, Loc)>,
) -> PState {
    PState {
        cur: TokenView::Lit(x),
        loc: l,
        rest: seq![
            (TokenView::Op(o1), l),
            (TokenView::Lit(y), l),
            (TokenView::Op(o2), l),
            (TokenView::Lit(z), l),
        ] + tail,
    }
}

/// In `x + y * z` the product is the right operand of the sum, whatever
/// follows the expression: `+` or `-` with `*`, `/` or `%` on its right.
pub proof fn law_product_binds_tighter_on_the_right(
    x: LiteralView,
    o1: Operator,
    y: LiteralView,
    o2: Operator,
    z: LiteralView,
    l: Loc,
    tail: Seq<(TokenView, Loc)>,
)
    requires
        o1 is Add || o1 is Sub,
        o2 is Mult || o2 is Div || o2 is Mod,
        tail.len() > 0,
        !(tail[0].0 is Op),
    ensures
        p_expr(three_operands(x, o1, y, o2, z, l, tail)) matches Ok((e, _)) && e == ExprView::BinOp(
            o1,
            Box::new(ExprView::Lit(x)),
            Box::new(ExprView::BinOp(o2, Box::new(ExprView::Lit(y)), Box::new(ExprView::Lit(z)))),
        ),
{
    let s0 = three_operands(x, o1, y, o2, z, l, tail);
    let s1 = advance(s0);
    let s2 = advance(s1);
    let s3 = advance(s2);
    let s4 = advance(s3);
    let s5 = advance(s4);
    assert(s1.cur == TokenView::Op(o1));
    assert(s2.cur == TokenView::Lit(y));
    assert(s3.cur == TokenView::Op(o2));
    assert(s4.cur == TokenView::Lit(z));
    assert(s5.cur == tail[0].0);
    let yz = ExprView::BinOp(o2, Box::new(ExprView::Lit(y)), Box::new(ExprView::Lit(z)));
    assert(p_primary(s4) == Ok::<(ExprView, PState), PErr>((ExprView::Lit(z), s5)));
    assert(p_rhs(s5, priority(o1) + 1, yz) == Ok::<(ExprView, PState), PErr>((yz, s5)));
    assert(p_rhs(s3, priority(o1) + 1, ExprView::Lit(y)) == Ok::<(ExprView, PState), PErr>((yz, s5)));
    assert(p_primary(s2) == Ok::<(ExprView, PState), PErr>((ExprView::Lit(y), s3)));
    let all = ExprView::BinOp(o1, Box::new(ExprView::Lit(x)), Box::new(yz));
    assert(p_rhs(s5, 0, all) == Ok::<(ExprView, PState), PErr>((all, s5)));
    assert(p_rhs(s1, 0, ExprView::Lit(x)) == Ok::<(ExprView, PState), PErr>((all, s5)));
    assert(p_primary(s0) == Ok::<(ExprView, PState), PErr>((ExprView::Lit(x), s1)));
}

/// In `x o1 y o2 z` the first operation is the left operand of the second
/// where the second binds no more tightly: `x * y + z` is `(x * y) + z`, and
/// operators of one strength group from the left, as in `(x - y) - z` or
/// `(x / y) * z`.
pub proof fn law_left_operation_groups_first(
    x: LiteralView,
    o1: Operator,
    y: LiteralView,
    o2: Operator,
    z: LiteralView,
    l: Loc,
    tail: Seq<(TokenView, Loc)>,
)
    requires
        ((o1 is Mult || o1 is Div || o1 is Mod) && (o2 is Add || o2 is Sub || o2 is Mult
            || o2 is Div || o2 is Mod)) || ((o1 is Add || o1 is Sub) && (o2 is Add || o2 is Sub)),
        tail.len() > 0,
        !(tail[0].0 is Op),
    ensures
        p_expr(three_operands(x, o1, y, o2, z, l, tail)) matches Ok((e, _)) && e == ExprView::BinOp(
            o2,
            Box::new(ExprView::BinOp(o1, Box::new(ExprView::Lit(x)), Box::new(ExprView::Lit(y)))),
            Box::new(ExprView::Lit(z)),
        ),
{
    let s0 = three_operands(x, o1, y, o2, z, l, tail);
    let s1 = advance(s0);
    let s2 = advance(s1);
    let s3 = advance(s2);
    let s4 = advance(s3);
    let s5 = advance(s4);
    assert(s1.cur == TokenView::Op(o1));
    assert(s2.cur == TokenView::Lit(y));
    assert(s3.cur == TokenView::Op(o2));
    assert(s4.cur == TokenView::Lit(z));
    assert(s5.cur == tail[0].0);
    let xy = ExprView::BinOp(o1, Box::new(ExprView::Lit(x)), Box::new(ExprView::Lit(y)));
    let all = ExprView::BinOp(o2, Box::new(xy), Box::new(ExprView::Lit(z)));
    assert(p_primary(s4) == Ok::<(ExprView, PState), PErr>((ExprView::Lit(z), s5)));
    assert(p_rhs(s5, 0, all) == Ok::<(ExprView, PState), PErr>((all, s5)));
    assert(p_rhs(s3, 0, xy) == Ok::<(ExprView, PState), PErr>((all, s5)));
    assert(p_primary(s2) == Ok::<(ExprView, PState), PErr>((ExprView::Lit(y), s3)));
    assert(p_rhs(s1, 0, ExprView::Lit(x)) == Ok::<(ExprView, PState), PErr>((all, s5)));
    assert(p_primary(s0) == Ok::<(ExprView, PState), PErr>((ExprView::Lit(x), s1)));
}

} // verus!
