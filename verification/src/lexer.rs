//! The lexer: turns source text into tokens with their locations.
use vstd::prelude::*;
use std::collections::VecDeque;
use crate::ast::Loc;
use crate::errors::{CompileError, ErrorType};
use crate::text::{chars_of, string_of};
use crate::tokens::{Literal, LiteralView, Operator, ShortHand, Token, TokenView, Type};

verus! {

/// The lexer's state: the position of the current character, the current
/// character, the characters after it, and whether the input is used up
/// (then the current character is a space that stands for nothing).
pub struct LexState {
    pub line: u32,
    pub col: u32,
    pub cur: char,
    pub rest: Seq<char>,
    pub finished: bool,
}

/// A used-up input has a space as its current character and nothing after.
pub open spec fn lex_wf(s: LexState) -> bool {
    s.finished ==> (s.cur == ' ' && s.rest.len() == 0)
}

/// Characters still to read, the current one included.
pub open spec fn measure(s: LexState) -> nat {
    s.rest.len() + if s.finished {
        0nat
    } else {
        1nat
    }
}

/// Positions the lexer may still reach: lines and columns are 32-bit.
pub open spec fn budget(s: LexState) -> int {
    s.line + s.col + measure(s)
}

/// Moves to the next character: a newline starts a new line.
pub open spec fn eat(s: LexState) -> LexState {
    let line = if s.cur == '\n' {
        (s.line + 1) as u32
    } else {
        s.line
    };
    let col = if s.cur == '\n' {
        0u32
    } else {
        (s.col + 1) as u32
    };
    if s.rest.len() > 0 {
        LexState { line, col, cur: s.rest[0], rest: s.rest.drop_first(), finished: s.finished }
    } else {
        LexState { line, col, cur: ' ', rest: s.rest, finished: true }
    }
}

/// Unicode white space (the `White_Space` property).
pub open spec fn is_ws(c: char) -> bool {
    ('\t' <= c <= '\r') || c == ' ' || c == '\u{85}' || c == '\u{a0}' || c == '\u{1680}' || (
    '\u{2000}' <= c <= '\u{200a}') || c == '\u{2028}' || c == '\u{2029}' || c == '\u{202f}'
        || c == '\u{205f}' || c == '\u{3000}'
}

pub open spec fn is_letter(c: char) -> bool {
    ('a' <= c <= 'z') || ('A' <= c <= 'Z')
}

pub open spec fn is_digit(c: char) -> bool {
    '0' <= c <= '9'
}

/// Characters that may continue an identifier.
pub open spec fn is_alnum(c: char) -> bool {
    is_letter(c) || is_digit(c)
}

/// Characters of numbers: digits and the decimal point.
pub open spec fn is_numeric(c: char) -> bool {
    is_digit(c) || c == '.'
}

/// Characters of operators and punctuation.
pub open spec fn is_symbol_char(c: char) -> bool {
    c == '+' || c == '-' || c == '*' || c == '/' || c == '%' || c == '=' || c == '!' || c == '<'
        || c == '>' || c == '&' || c == '|' || c == '^' || c == ',' || c == ';' || c == '('
        || c == ')' || c == '[' || c == ']' || c == '{' || c == '}'
}

/// Skips white space; stops at the first other character or at the end.
pub open spec fn skip_ws(s: LexState) -> LexState
    decreases measure(s),
{
    if s.finished || !is_ws(s.cur) {
        s
    } else {
        let s1 = eat(s);
        if s1.finished {
            s1
        } else {
            skip_ws(s1)
        }
    }
}

/// Skips to the newline that ends a comment, or to the end.
pub open spec fn skip_to_newline(s: LexState) -> LexState
    decreases measure(s),
{
    if s.finished || s.cur == '\n' {
        s
    } else {
        let s1 = eat(s);
        if s1.finished {
            s1
        } else {
            skip_to_newline(s1)
        }
    }
}

/// Reads the letters and digits that continue an identifier.
pub open spec fn scan_ident(s: LexState, acc: Seq<char>) -> (Seq<char>, LexState)
    decreases measure(s),
{
    if !s.finished && is_alnum(s.cur) {
        scan_ident(eat(s), acc.push(s.cur))
    } else {
        (acc, s)
    }
}

/// Reads the rest of a number. The first component says whether a second
/// decimal point stopped it.
pub open spec fn scan_number(s: LexState, acc: Seq<char>, has_point: bool) -> (
    bool,
    Seq<char>,
    bool,
    LexState,
)
    decreases measure(s),
{
    if !s.finished && is_numeric(s.cur) {
        if s.cur == '.' && has_point {
            (false, acc, has_point, s)
        } else {
            scan_number(eat(s), acc.push(s.cur), has_point || s.cur == '.')
        }
    } else {
        (true, acc, has_point, s)
    }
}

/// Reads the body of a string literal up to its closing quote. The first
/// component says whether an invalid escape stopped it.
pub open spec fn scan_string(s: LexState, acc: Seq<char>) -> (bool, Seq<char>, LexState)
    decreases measure(s),
{
    if s.finished || s.cur == '"' {
        (true, acc, s)
    } else if s.cur == '\\' {
        if s.rest.len() == 0 {
            (false, acc, s)
        } else {
            let n = s.rest[0];
            if n == '\\' || n == 'n' || n == '"' {
                scan_string(
                    eat(eat(s)),
                    acc.push(
                        if n == 'n' {
                            '\n'
                        } else {
                            n
                        },
                    ),
                )
            } else {
                (false, acc, eat(s))
            }
        }
    } else {
        scan_string(eat(s), acc.push(s.cur))
    }
}

/// The value of a string of decimal digits.
pub open spec fn digits_value(s: Seq<char>) -> nat
    decreases s.len(),
{
    if s.len() == 0 {
        0
    } else {
        digits_value(s.drop_last()) * 10 + (s.last() as nat - '0' as nat) as nat
    }
}

/// The token of a word: a keyword, a boolean literal or an identifier.
pub open spec fn keyword(w: Seq<char>) -> TokenView {
    if w == seq!['f', 'u', 'n'] {
        TokenView::Fun
    } else if w == seq!['i', 'n', 't'] {
        TokenView::DeclareType(Type::Int)
    } else if w == seq!['s', 't', 'r', 'i', 'n', 'g'] {
        TokenView::DeclareType(Type::String)
    } else if w == seq!['d', 'c', 'm', 'l'] {
        TokenView::DeclareType(Type::Dcml)
    } else if w == seq!['b', 'o', 'o', 'l'] {
        TokenView::DeclareType(Type::Bool)
    } else if w == seq!['i', 'f'] {
        TokenView::If
    } else if w == seq!['w', 'h', 'i', 'l', 'e'] {
        TokenView::While
    } else if w == seq!['t', 'r', 'u', 'e'] {
        TokenView::Lit(LiteralView::Bool(true))
    } else if w == seq!['f', 'a', 'l', 's', 'e'] {
        TokenView::Lit(LiteralView::Bool(false))
    } else if w == seq!['r', 'e', 't', 'u', 'r', 'n'] {
        TokenView::Return
    } else {
        TokenView::Ident(w)
    }
}

/// The token of a one-character symbol.
pub open spec fn sym1(c: char) -> Option<TokenView> {
    if c == '+' {
        Some(TokenView::Op(Operator::Add))
    } else if c == '-' {
        Some(TokenView::Op(Operator::Sub))
    } else if c == '*' {
        Some(TokenView::Op(Operator::Mult))
    } else if c == '/' {
        Some(TokenView::Op(Operator::Div))
    } else if c == '%' {
        Some(TokenView::Op(Operator::Mod))
    } else if c == '<' {
        Some(TokenView::Op(Operator::Less))
    } else if c == '>' {
        Some(TokenView::Op(Operator::Greater))
    } else if c == '&' {
        Some(TokenView::Op(Operator::BAnd))
    } else if c == '|' {
        Some(TokenView::Op(Operator::BOr))
    } else if c == '^' {
        Some(TokenView::Op(Operator::BXor))
    } else if c == '=' {
        Some(TokenView::Assign)
    } else if c == ';' {
        Some(TokenView::Semicolon)
    } else if c == ',' {
        Some(TokenView::Comma)
    } else if c == '(' {
        Some(TokenView::LeftParen)
    } else if c == ')' {
        Some(TokenView::RightParen)
    } else if c == '[' {
        Some(TokenView::LeftBrack)
    } else if c == ']' {
        Some(TokenView::RightBrack)
    } else if c == '{' {
        Some(TokenView::LeftCurly)
    } else if c == '}' {
        Some(TokenView::RightCurly)
    } else {
        None
    }
}

/// The token of a two-character symbol.
pub open spec fn sym2(c: char, d: char) -> Option<TokenView> {
    if c == '=' && d == '=' {
        Some(TokenView::Op(Operator::Eq))
    } else if c == '!' && d == '=' {
        Some(TokenView::Op(Operator::NEq))
    } else if c == '<' && d == '=' {
        Some(TokenView::Op(Operator::LEq))
    } else if c == '>' && d == '=' {
        Some(TokenView::Op(Operator::GEq))
    } else if c == '+' && d == '=' {
        Some(TokenView::ShortHand(ShortHand::AddEq))
    } else if c == '-' && d == '=' {
        Some(TokenView::ShortHand(ShortHand::SubEq))
    } else if c == '*' && d == '=' {
        Some(TokenView::ShortHand(ShortHand::MultEq))
    } else if c == '/' && d == '=' {
        Some(TokenView::ShortHand(ShortHand::DivEq))
    } else if c == '%' && d == '=' {
        Some(TokenView::ShortHand(ShortHand::ModEq))
    } else if c == '-' && d == '>' {
        Some(TokenView::RArrow)
    } else {
        None
    }
}

/// What reading one token gives: a token with the position after it, a
/// lexing error at a position, or an integer literal too large for 32 bits.
pub enum LexOutcome {
    Tok(TokenView, u32, u32),
    Fail(u32, u32),
    Overflow,
}

/// Reads a token that starts at the current character (white space and a
/// comment already skipped).
pub open spec fn lex_body(s: LexState) -> (LexOutcome, LexState) {
    if is_letter(s.cur) {
        let (w, t) = scan_ident(eat(s), seq![s.cur]);
        (LexOutcome::Tok(keyword(w), t.line, t.col), t)
    } else if is_numeric(s.cur) {
        let start = if s.cur == '.' {
            seq!['0', '.']
        } else {
            seq![s.cur]
        };
        let (ok, num, has_point, t) = scan_number(eat(s), start, s.cur == '.');
        if !ok {
            (LexOutcome::Fail(t.line, t.col), t)
        } else if has_point {
            (LexOutcome::Tok(TokenView::DcmlText(num), t.line, t.col), t)
        } else if digits_value(num) <= i32::MAX {
            (
                LexOutcome::Tok(
                    TokenView::Lit(LiteralView::Int(digits_value(num) as i32)),
                    t.line,
                    t.col,
                ),
                t,
            )
        } else {
            (LexOutcome::Overflow, t)
        }
    } else if s.cur == '"' {
        let (ok, body, t) = scan_string(eat(s), Seq::empty());
        if !ok || t.finished {
            (LexOutcome::Fail(t.line, t.col), t)
        } else {
            let u = eat(t);
            (LexOutcome::Tok(TokenView::Lit(LiteralView::String(body)), u.line, u.col), u)
        }
    } else if is_symbol_char(s.cur) {
        if s.rest.len() > 0 && sym2(s.cur, s.rest[0]) is Some {
            let t = eat(eat(s));
            (LexOutcome::Tok(sym2(s.cur, s.rest[0]).unwrap(), t.line, t.col), t)
        } else if sym1(s.cur) is Some {
            let t = eat(s);
            (LexOutcome::Tok(sym1(s.cur).unwrap(), t.line, t.col), t)
        } else {
            let t = eat(s);
            (LexOutcome::Fail(t.line, t.col), t)
        }
    } else {
        let t = eat(s);
        (LexOutcome::Fail(t.line, t.col), t)
    }
}

/// Reads the next token: skips white space, then a comment (from `#` to the
/// end of its line, the newline included), then reads a token. At the end
/// of the input the token is `EndOfFile`.
pub open spec fn lex_step(s: LexState) -> (LexOutcome, LexState) {
    if s.finished {
        (LexOutcome::Tok(TokenView::EndOfFile, s.line, s.col), s)
    } else {
        let s1 = skip_ws(s);
        if s1.finished {
            (LexOutcome::Tok(TokenView::EndOfFile, s1.line, s1.col), s1)
        } else if s1.cur == '#' {
            let t = skip_to_newline(s1);
            if t.finished {
                (LexOutcome::Tok(TokenView::EndOfFile, t.line, t.col), t)
            } else {
                lex_body(eat(t))
            }
        } else {
            lex_body(s1)
        }
    }
}

} // verus!

verus! {

/// The lexer can take a step: its state is well formed and a step keeps
/// lines and columns within 32 bits.
pub open spec fn lex_ok(s: LexState) -> bool {
    lex_wf(s) && budget(s) + 1 <= u32::MAX
}

pub proof fn lemma_eat(s: LexState)
    requires
        lex_wf(s),
    ensures
        lex_wf(eat(s)),
        !s.finished ==> measure(eat(s)) < measure(s),
        !s.finished && s.line + s.col + 1 <= u32::MAX ==> budget(eat(s)) <= budget(s),
        s.finished && s.line + s.col + 1 <= u32::MAX ==> eat(s).finished && budget(eat(s))
            == budget(s) + 1,
        s.rest.len() > 0 ==> !eat(s).finished && eat(s).rest == s.rest.drop_first() && eat(
            s,
        ).cur == s.rest[0],
{
}

fn is_ws_exec(c: char) -> (r: bool)
    ensures
        r == is_ws(c),
{
    ('\t' <= c && c <= '\r') || c == ' ' || c == '\u{85}' || c == '\u{a0}' || c == '\u{1680}'
        || ('\u{2000}' <= c && c <= '\u{200a}') || c == '\u{2028}' || c == '\u{2029}' || c
        == '\u{202f}' || c == '\u{205f}' || c == '\u{3000}'
}

fn is_symbol_char_exec(c: char) -> (r: bool)
    ensures
        r == is_symbol_char(c),
{
    c == '+' || c == '-' || c == '*' || c == '/' || c == '%' || c == '=' || c == '!' || c == '<'
        || c == '>' || c == '&' || c == '|' || c == '^' || c == ',' || c == ';' || c == '('
        || c == ')' || c == '[' || c == ']' || c == '{' || c == '}'
}

fn word_is(w: &Vec<char>, k: &str) -> (r: bool)
    ensures
        r == (w@ == k@),
{
    let kc = chars_of(k);
    if w.len() != kc.len() {
        assert(w@.len() != k@.len());
        return false;
    }
    let mut i: usize = 0;
    while i < w.len()
        invariant
            w@.len() == kc@.len(),
            kc@ == k@,
            i <= w@.len(),
            forall|j: int| 0 <= j < i ==> w@[j] == kc@[j],
        decreases w@.len() - i,
    {
        if w[i] != kc[i] {
            assert(w@[i as int] != kc@[i as int]);
            assert(w@ != kc@);
            return false;
        }
        i = i + 1;
    }
    assert(w@ =~= kc@);
    true
}

/// The token of a word: keywords, `true` and `false`, or an identifier.
fn keyword_token(w: &Vec<char>) -> (r: Token)
    ensures
        r@ == keyword(w@),
{
    proof {
        reveal_strlit("fun");
        reveal_strlit("int");
        reveal_strlit("string");
        reveal_strlit("dcml");
        reveal_strlit("bool");
        reveal_strlit("if");
        reveal_strlit("while");
        reveal_strlit("true");
        reveal_strlit("false");
        reveal_strlit("return");
        assert("fun"@ =~= seq!['f', 'u', 'n']);
        assert("int"@ =~= seq!['i', 'n', 't']);
        assert("string"@ =~= seq!['s', 't', 'r', 'i', 'n', 'g']);
        assert("dcml"@ =~= seq!['d', 'c', 'm', 'l']);
        assert("bool"@ =~= seq!['b', 'o', 'o', 'l']);
        assert("if"@ =~= seq!['i', 'f']);
        assert("while"@ =~= seq!['w', 'h', 'i', 'l', 'e']);
        assert("true"@ =~= seq!['t', 'r', 'u', 'e']);
        assert("false"@ =~= seq!['f', 'a', 'l', 's', 'e']);
        assert("return"@ =~= seq!['r', 'e', 't', 'u', 'r', 'n']);
    }
    if word_is(w, "fun") {
        Token::Fun
    } else if word_is(w, "int") {
        Token::DeclareType(Type::Int)
    } else if word_is(w, "string") {
        Token::DeclareType(Type::String)
    } else if word_is(w, "dcml") {
        Token::DeclareType(Type::Dcml)
    } else if word_is(w, "bool") {
        Token::DeclareType(Type::Bool)
    } else if word_is(w, "if") {
        Token::If
    } else if word_is(w, "while") {
        Token::While
    } else if word_is(w, "true") {
        Token::Lit(Literal::Bool(true))
    } else if word_is(w, "false") {
        Token::Lit(Literal::Bool(false))
    } else if word_is(w, "return") {
        Token::Return
    } else {
        Token::Ident(string_of(w))
    }
}

fn symbol1(c: char) -> (r: Option<Token>)
    ensures
        match sym1(c) {
            Some(t) => r matches Some(x) && x@ == t,
            None => r is None,
        },
{
    if c == '+' {
        Some(Token::Op(Operator::Add))
    } else if c == '-' {
        Some(Token::Op(Operator::Sub))
    } else if c == '*' {
        Some(Token::Op(Operator::Mult))
    } else if c == '/' {
        Some(Token::Op(Operator::Div))
    } else if c == '%' {
        Some(Token::Op(Operator::Mod))
    } else if c == '<' {
        Some(Token::Op(Operator::Less))
    } else if c == '>' {
        Some(Token::Op(Operator::Greater))
    } else if c == '&' {
        Some(Token::Op(Operator::BAnd))
    } else if c == '|' {
        Some(Token::Op(Operator::BOr))
    } else if c == '^' {
        Some(Token::Op(Operator::BXor))
    } else if c == '=' {
        Some(Token::Assign)
    } else if c == ';' {
        Some(Token::Semicolon)
    } else if c == ',' {
        Some(Token::Comma)
    } else if c == '(' {
        Some(Token::LeftParen)
    } else if c == ')' {
        Some(Token::RightParen)
    } else if c == '[' {
        Some(Token::LeftBrack)
    } else if c == ']' {
        Some(Token::RightBrack)
    } else if c == '{' {
        Some(Token::LeftCurly)
    } else if c == '}' {
        Some(Token::RightCurly)
    } else {
        None
    }
}

fn symbol2(c: char, d: char) -> (r: Option<Token>)
    ensures
        match sym2(c, d) {
            Some(t) => r matches Some(x) && x@ == t,
            None => r is None,
        },
{
    if c == '=' && d == '=' {
        Some(Token::Op(Operator::Eq))
    } else if c == '!' && d == '=' {
        Some(Token::Op(Operator::NEq))
    } else if c == '<' && d == '=' {
        Some(Token::Op(Operator::LEq))
    } else if c == '>' && d == '=' {
        Some(Token::Op(Operator::GEq))
    } else if c == '+' && d == '=' {
        Some(Token::ShortHand(ShortHand::AddEq))
    } else if c == '-' && d == '=' {
        Some(Token::ShortHand(ShortHand::SubEq))
    } else if c == '*' && d == '=' {
        Some(Token::ShortHand(ShortHand::MultEq))
    } else if c == '/' && d == '=' {
        Some(Token::ShortHand(ShortHand::DivEq))
    } else if c == '%' && d == '=' {
        Some(Token::ShortHand(ShortHand::ModEq))
    } else if c == '-' && d == '>' {
        Some(Token::RArrow)
    } else {
        None
    }
}

pub proof fn lemma_digits_prefix(s: Seq<char>, i: int)
    requires
        0 <= i <= s.len(),
        forall|j: int| 0 <= j < s.len() ==> is_digit(#[trigger] s[j]),
    ensures
        digits_value(s.take(i)) <= digits_value(s),
    decreases s.len(),
{
    if i < s.len() {
        let p = s.drop_last();
        assert(p.take(i) =~= s.take(i));
        lemma_digits_prefix(p, i);
    } else {
        assert(s.take(i) =~= s);
    }
}

/// The value of a string of digits, if it fits in an `i32`.
fn parse_digits(d: &Vec<char>) -> (r: Option<i32>)
    requires
        forall|j: int| 0 <= j < d@.len() ==> is_digit(#[trigger] d@[j]),
    ensures
        digits_value(d@) <= i32::MAX ==> r == Some(digits_value(d@) as i32),
        digits_value(d@) > i32::MAX ==> r is None,
{
    let mut v: i64 = 0;
    let mut i: usize = 0;
    while i < d.len()
        invariant
            i <= d@.len(),
            forall|j: int| 0 <= j < d@.len() ==> is_digit(#[trigger] d@[j]),
            v == digits_value(d@.take(i as int)),
            v <= i32::MAX,
        decreases d@.len() - i,
    {
        let c = d[i];
        let digit = (c as u32 - '0' as u32) as i64;
        assert(d@.take(i + 1).drop_last() =~= d@.take(i as int));
        v = v * 10 + digit;
        i = i + 1;
        if v > 0x7fff_ffff {
            proof {
                lemma_digits_prefix(d@, i as int);
            }
            return None;
        }
    }
    assert(d@.take(d@.len() as int) =~= d@);
    Some(v as i32)
}

/// The lexer: the current character with its position, and the characters
/// after it.
pub struct LexEngine {
    line: u32,
    col: u32,
    cur_char: char,
    char_collect: VecDeque<char>,
    finished: bool,
}

/// What reading all the tokens of an input gives.
pub enum LexAll {
    Tokens(Seq<(TokenView, Loc)>),
    Fail(u32, u32),
    Overflow,
}

/// Reads tokens until `EndOfFile` (which is the last token) or the first
/// error.
pub open spec fn lex_all_spec(s: LexState) -> LexAll
    decreases measure(s),
{
    match lex_step(s) {
        (LexOutcome::Tok(t, l, c), s1) => if t is EndOfFile {
            LexAll::Tokens(seq![(t, Loc { line: l, col: c })])
        } else if measure(s1) < measure(s) {
            match lex_all_spec(s1) {
                LexAll::Tokens(ts) => LexAll::Tokens(seq![(t, Loc { line: l, col: c })] + ts),
                other => other,
            }
        } else {
            LexAll::Tokens(seq![(t, Loc { line: l, col: c })])
        },
        (LexOutcome::Fail(l, c), _) => LexAll::Fail(l, c),
        (LexOutcome::Overflow, _) => LexAll::Overflow,
    }
}

/// The state of a lexer at the start of `text`.
pub open spec fn initial_state(text: Seq<char>) -> LexState {
    if text.len() > 0 {
        LexState { line: 0, col: 0, cur: text[0], rest: text.drop_first(), finished: false }
    } else {
        LexState { line: 0, col: 0, cur: ' ', rest: text, finished: false }
    }
}

impl LexEngine {
    pub closed spec fn state(&self) -> LexState {
        LexState {
            line: self.line,
            col: self.col,
            cur: self.cur_char,
            rest: self.char_collect@,
            finished: self.finished,
        }
    }

    /// A lexer at the start of `langstr`.
    pub fn new(langstr: String) -> (r: Self)
        ensures
            r.state() == initial_state(langstr@),
    {
        let chars = chars_of(langstr.as_str());
        let mut char_vec: VecDeque<char> = VecDeque::new();
        let mut i: usize = 0;
        while i < chars.len()
            invariant
                i <= chars@.len(),
                char_vec@ == chars@.take(i as int),
            decreases chars@.len() - i,
        {
            char_vec.push_back(chars[i]);
            i = i + 1;
            assert(char_vec@ =~= chars@.take(i as int));
        }
        assert(chars@.take(chars@.len() as int) =~= chars@);
        let first_char = match char_vec.pop_front() {
            Some(x) => x,
            None => ' ',
        };
        LexEngine { line: 0, col: 0, cur_char: first_char, char_collect: char_vec, finished: false }
    }

    /// Appends more input after what is left; the lexer goes on reading.
    pub fn append_string(&mut self, new_stuff: String)
        ensures
            final(self).state() == (LexState {
                rest: old(self).state().rest + new_stuff@,
                finished: false,
                ..old(self).state()
            }),
    {
        let chars = chars_of(new_stuff.as_str());
        let mut i: usize = 0;
        while i < chars.len()
            invariant
                i <= chars@.len(),
                self.char_collect@ == old(self).char_collect@ + chars@.take(i as int),
                self.line == old(self).line,
                self.col == old(self).col,
                self.cur_char == old(self).cur_char,
                self.finished == old(self).finished,
            decreases chars@.len() - i,
        {
            self.char_collect.push_back(chars[i]);
            i = i + 1;
            assert(self.char_collect@ =~= old(self).char_collect@ + chars@.take(i as int));
        }
        assert(chars@.take(chars@.len() as int) =~= chars@);
        self.finished = false;
    }

    fn eat_char(&mut self)
        requires
            lex_wf(old(self).state()),
            old(self).line + old(self).col + 1 <= u32::MAX,
        ensures
            final(self).state() == eat(old(self).state()),
    {
        if self.cur_char == '\n' {
            self.line = self.line + 1;
            self.col = 0;
        } else {
            self.col = self.col + 1;
        }
        match self.char_collect.pop_front() {
            Some(x) => self.cur_char = x,
            None => {
                self.cur_char = ' ';
                self.finished = true;
            },
        }
    }

    /// The character after the current one.
    fn peek_char(&self) -> (r: Option<char>)
        ensures
            self.state().rest.len() > 0 ==> r == Some(self.state().rest[0]),
            self.state().rest.len() == 0 ==> r is None,
    {
        if self.char_collect.len() > 0 {
            Some(self.char_collect[0])
        } else {
            None
        }
    }

    /// The current character is a letter; with `numeric`, a letter or a
    /// digit.
    fn is_alpha(&self, numeric: bool) -> (r: bool)
        ensures
            r == (is_letter(self.state().cur) || (numeric && is_digit(self.state().cur))),
    {
        (self.cur_char >= 'a' && self.cur_char <= 'z') || (self.cur_char >= 'A' && self.cur_char
            <= 'Z') || (numeric && self.cur_char >= '0' && self.cur_char <= '9')
    }

    /// The current character is a digit or a decimal point.
    fn is_numeric(&self) -> (r: bool)
        ensures
            r == is_numeric(self.state().cur),
    {
        (self.cur_char >= '0' && self.cur_char <= '9') || self.cur_char == '.'
    }

    /// The current character belongs to an operator or punctuation.
    fn is_part_of_symbol(&self) -> (r: bool)
        ensures
            r == is_symbol_char(self.state().cur),
    {
        is_symbol_char_exec(self.cur_char)
    }

    fn loc(&self) -> (r: Loc)
        ensures
            r == (Loc { line: self.state().line, col: self.state().col }),
    {
        Loc { line: self.line, col: self.col }
    }
}

} // verus!

verus! {

pub proof fn lemma_skip_ws(s: LexState)
    requires
        lex_wf(s),
    ensures
        lex_wf(skip_ws(s)),
        measure(skip_ws(s)) <= measure(s),
    decreases measure(s),
{
    if !s.finished && is_ws(s.cur) {
        lemma_eat(s);
        if !eat(s).finished {
            lemma_skip_ws(eat(s));
        }
    }
}

pub proof fn lemma_skip_to_newline(s: LexState)
    requires
        lex_wf(s),
    ensures
        lex_wf(skip_to_newline(s)),
        measure(skip_to_newline(s)) <= measure(s),
    decreases measure(s),
{
    if !s.finished && s.cur != '\n' {
        lemma_eat(s);
        if !eat(s).finished {
            lemma_skip_to_newline(eat(s));
        }
    }
}

pub proof fn lemma_scan_ident(s: LexState, acc: Seq<char>)
    requires
        lex_wf(s),
    ensures
        lex_wf(scan_ident(s, acc).1),
        measure(scan_ident(s, acc).1) <= measure(s),
    decreases measure(s),
{
    if !s.finished && is_alnum(s.cur) {
        lemma_eat(s);
        lemma_scan_ident(eat(s), acc.push(s.cur));
    }
}

pub proof fn lemma_scan_number(s: LexState, acc: Seq<char>, hp: bool)
    requires
        lex_wf(s),
    ensures
        lex_wf(scan_number(s, acc, hp).3),
        measure(scan_number(s, acc, hp).3) <= measure(s),
    decreases measure(s),
{
    if !s.finished && is_numeric(s.cur) && !(s.cur == '.' && hp) {
        lemma_eat(s);
        lemma_scan_number(eat(s), acc.push(s.cur), hp || s.cur == '.');
    }
}

pub proof fn lemma_scan_string(s: LexState, acc: Seq<char>)
    requires
        lex_wf(s),
    ensures
        lex_wf(scan_string(s, acc).2),
        measure(scan_string(s, acc).2) <= measure(s),
    decreases measure(s),
{
    if !s.finished && s.cur != '"' {
        lemma_eat(s);
        if s.cur == '\\' {
            if s.rest.len() > 0 {
                let n = s.rest[0];
                lemma_eat(eat(s));
                if n == '\\' || n == 'n' || n == '"' {
                    lemma_scan_string(
                        eat(eat(s)),
                        acc.push(
                            if n == 'n' {
                                '\n'
                            } else {
                                n
                            },
                        ),
                    );
                }
            }
        } else {
            lemma_scan_string(eat(s), acc.push(s.cur));
        }
    }
}

pub proof fn lemma_lex_body(s: LexState)
    requires
        lex_wf(s),
    ensures
        lex_wf(lex_body(s).1),
        lex_body(s).0 is Tok ==> !s.finished && measure(lex_body(s).1) < measure(s),
{
    lemma_eat(s);
    if is_letter(s.cur) {
        lemma_scan_ident(eat(s), seq![s.cur]);
    } else if is_numeric(s.cur) {
        let start = if s.cur == '.' {
            seq!['0', '.']
        } else {
            seq![s.cur]
        };
        lemma_scan_number(eat(s), start, s.cur == '.');
    } else if s.cur == '"' {
        lemma_scan_string(eat(s), Seq::empty());
        let t = scan_string(eat(s), Seq::empty()).2;
        lemma_eat(t);
    } else if is_symbol_char(s.cur) {
        if s.rest.len() > 0 {
            lemma_eat(eat(s));
        }
    }
}

/// Every token other than `EndOfFile` uses up input.
pub proof fn lemma_lex_step(s: LexState)
    requires
        lex_wf(s),
    ensures
        lex_wf(lex_step(s).1),
        lex_step(s).0 matches LexOutcome::Tok(t, _, _) && !(t is EndOfFile) ==> measure(
            lex_step(s).1,
        ) < measure(s),
{
    if !s.finished {
        lemma_skip_ws(s);
        let s1 = skip_ws(s);
        if !s1.finished {
            if s1.cur == '#' {
                lemma_skip_to_newline(s1);
                let t = skip_to_newline(s1);
                if !t.finished {
                    lemma_eat(t);
                    lemma_lex_body(eat(t));
                }
            } else {
                lemma_lex_body(s1);
            }
        }
    }
}

impl LexEngine {
    fn skip_whitespace(&mut self)
        requires
            lex_ok(old(self).state()),
        ensures
            final(self).state() == skip_ws(old(self).state()),
            budget(final(self).state()) <= budget(old(self).state()),
    {
        while !self.finished && is_ws_exec(self.cur_char)
            invariant
                lex_ok(self.state()),
                skip_ws(self.state()) == skip_ws(old(self).state()),
                budget(self.state()) <= budget(old(self).state()),
            decreases measure(self.state()),
        {
            proof {
                lemma_eat(self.state());
            }
            self.eat_char();
        }
    }

    fn skip_comment(&mut self)
        requires
            lex_ok(old(self).state()),
        ensures
            final(self).state() == skip_to_newline(old(self).state()),
            budget(final(self).state()) <= budget(old(self).state()),
    {
        while !self.finished && self.cur_char != '\n'
            invariant
                lex_ok(self.state()),
                skip_to_newline(self.state()) == skip_to_newline(old(self).state()),
                budget(self.state()) <= budget(old(self).state()),
            decreases measure(self.state()),
        {
            proof {
                lemma_eat(self.state());
            }
            self.eat_char();
        }
    }

    fn scan_ident_from(&mut self, acc: Vec<char>) -> (r: Vec<char>)
        requires
            lex_ok(old(self).state()),
        ensures
            (r@, final(self).state()) == scan_ident(old(self).state(), acc@),
            budget(final(self).state()) <= budget(old(self).state()),
    {
        let ghost acc0 = acc@;
        let mut acc = acc;
        while self.is_alpha(true) && !self.finished
            invariant
                lex_ok(self.state()),
                scan_ident(self.state(), acc@) == scan_ident(old(self).state(), acc0),
                budget(self.state()) <= budget(old(self).state()),
            decreases measure(self.state()),
        {
            proof {
                lemma_eat(self.state());
            }
            acc.push(self.cur_char);
            self.eat_char();
        }
        acc
    }

    fn scan_number_from(&mut self, acc_in: Vec<char>, hp_in: bool) -> (r: (bool, Vec<char>, bool))
        requires
            lex_ok(old(self).state()),
            !hp_in ==> forall|j: int| 0 <= j < acc_in@.len() ==> is_digit(#[trigger] acc_in@[j]),
        ensures
            (r.0, r.1@, r.2, final(self).state()) == scan_number(old(self).state(), acc_in@, hp_in),
            budget(final(self).state()) <= budget(old(self).state()),
            !r.2 ==> forall|j: int| 0 <= j < r.1@.len() ==> is_digit(#[trigger] r.1@[j]),
    {
        let ghost acc0 = acc_in@;
        let ghost hp0 = hp_in;
        let mut acc = acc_in;
        let mut has_point = hp_in;
        while self.is_numeric() && !self.finished
            invariant
                lex_ok(self.state()),
                scan_number(self.state(), acc@, has_point) == scan_number(
                    old(self).state(),
                    acc0,
                    hp0,
                ),
                acc0 == acc_in@,
                hp0 == hp_in,
                budget(self.state()) <= budget(old(self).state()),
                !has_point ==> forall|j: int| 0 <= j < acc@.len() ==> is_digit(#[trigger] acc@[j]),
            decreases measure(self.state()),
        {
            if self.cur_char == '.' {
                if has_point {
                    assert(scan_number(self.state(), acc@, has_point) == (false, acc@, has_point, self.state()));
                    return (false, acc, has_point);
                }
                has_point = true;
            }
            proof {
                lemma_eat(self.state());
            }
            acc.push(self.cur_char);
            self.eat_char();
        }
        (true, acc, has_point)
    }

    fn scan_string_from(&mut self, acc_in: Vec<char>) -> (r: (bool, Vec<char>))
        requires
            lex_ok(old(self).state()),
        ensures
            (r.0, r.1@, final(self).state()) == scan_string(old(self).state(), acc_in@),
            budget(final(self).state()) <= budget(old(self).state()),
    {
        let ghost acc0 = acc_in@;
        let mut acc = acc_in;
        while self.cur_char != '"' && !self.finished
            invariant
                lex_ok(self.state()),
                acc0 == acc_in@,
                scan_string(self.state(), acc@) == scan_string(old(self).state(), acc0),
                budget(self.state()) <= budget(old(self).state()),
            decreases measure(self.state()),
        {
            proof {
                lemma_eat(self.state());
            }
            if self.cur_char == '\\' {
                let next_char = match self.peek_char() {
                    Some(x) => x,
                    None => {
                        return (false, acc);
                    },
                };
                if next_char == '\\' {
                    acc.push('\\');
                } else if next_char == 'n' {
                    acc.push('\n');
                } else if next_char == '"' {
                    acc.push('"');
                } else {
                    self.eat_char();
                    return (false, acc);
                }
                self.eat_char();
                proof {
                    lemma_eat(self.state());
                }
                self.eat_char();
            } else {
                acc.push(self.cur_char);
                self.eat_char();
            }
        }
        (true, acc)
    }
}

} // verus!

verus! {

/// The result of reading one token, as the spec describes it; `None` stands
/// for an integer literal too large for 32 bits.
pub open spec fn token_result_matches(
    r: Option<Result<(Token, Loc), CompileError>>,
    o: LexOutcome,
) -> bool {
    match o {
        LexOutcome::Tok(t, l, c) => r matches Some(Ok((tok, loc))) && tok@ == t && loc == Loc {
            line: l,
            col: c,
        },
        LexOutcome::Fail(l, c) => r matches Some(Err(e)) && e.e_type == ErrorType::LexingError
            && e.line == l && e.col == c,
        LexOutcome::Overflow => r is None,
    }
}

/// The tokens with their locations, strings seen as sequences.
pub open spec fn tokens_view(s: Seq<(Token, Loc)>) -> Seq<(TokenView, Loc)> {
    s.map_values(|p: (Token, Loc)| (p.0@, p.1))
}

impl LexEngine {
    fn lex_error(&self) -> (r: Option<Result<(Token, Loc), CompileError>>)
        ensures
            r matches Some(Err(e)) && e.e_type == ErrorType::LexingError && e.line
                == self.state().line && e.col == self.state().col,
    {
        Some(Err(CompileError::new(ErrorType::LexingError, self.line, self.col)))
    }

    fn lex_body(&mut self) -> (r: Option<Result<(Token, Loc), CompileError>>)
        requires
            lex_wf(old(self).state()),
            budget(old(self).state()) + 1 <= u32::MAX,
        ensures
            final(self).state() == lex_body(old(self).state()).1,
            token_result_matches(r, lex_body(old(self).state()).0),
            budget(final(self).state()) <= budget(old(self).state()) + 1,
            r matches Some(Ok(_)) ==> budget(final(self).state()) <= budget(old(self).state()),
    {
        proof {
            lemma_eat(self.state());
        }
        if self.is_alpha(false) {
            let c = self.cur_char;
            let mut w: Vec<char> = Vec::new();
            w.push(c);
            self.eat_char();
            let w = self.scan_ident_from(w);
            let tok = keyword_token(&w);
            return Some(Ok((tok, self.loc())));
        }
        if self.is_numeric() {
            let c = self.cur_char;
            let has_point = c == '.';
            let mut num: Vec<char> = Vec::new();
            if has_point {
                num.push('0');
            }
            num.push(c);
            proof {
                if has_point {
                    assert(num@ =~= seq!['0', '.']);
                } else {
                    assert(num@ =~= seq![c]);
                }
            }
            self.eat_char();
            let (ok, num, has_point) = self.scan_number_from(num, has_point);
            if !ok {
                return self.lex_error();
            }
            if has_point {
                return Some(Ok((Token::DcmlText(string_of(&num)), self.loc())));
            }
            return match parse_digits(&num) {
                Some(x) => Some(Ok((Token::Lit(Literal::Int(x)), self.loc()))),
                None => None,
            };
        }
        if self.cur_char == '"' {
            self.eat_char();
            let empty: Vec<char> = Vec::new();
            let (ok, body) = self.scan_string_from(empty);
            if !ok || self.finished {
                return self.lex_error();
            }
            proof {
                lemma_eat(self.state());
            }
            self.eat_char();
            return Some(Ok((Token::Lit(Literal::String(string_of(&body))), self.loc())));
        }
        if self.is_part_of_symbol() {
            let c = self.cur_char;
            if let Some(d) = self.peek_char() {
                if let Some(t) = symbol2(c, d) {
                    self.eat_char();
                    proof {
                        lemma_eat(self.state());
                    }
                    self.eat_char();
                    return Some(Ok((t, self.loc())));
                }
            }
            if let Some(t) = symbol1(c) {
                self.eat_char();
                return Some(Ok((t, self.loc())));
            }
            self.eat_char();
            return self.lex_error();
        }
        self.eat_char();
        self.lex_error()
    }

    /// Reads the next token; `None` when it is an integer literal too large
    /// for 32 bits.
    pub fn next_token(&mut self) -> (r: Option<Result<(Token, Loc), CompileError>>)
        requires
            lex_ok(old(self).state()),
        ensures
            final(self).state() == lex_step(old(self).state()).1,
            token_result_matches(r, lex_step(old(self).state()).0),
            lex_wf(final(self).state()),
            budget(final(self).state()) <= budget(old(self).state()) + 1,
            r matches Some(Ok(_)) ==> budget(final(self).state()) <= budget(old(self).state()),
    {
        proof {
            lemma_lex_step(self.state());
        }
        if self.finished {
            return Some(Ok((Token::EndOfFile, self.loc())));
        }
        self.skip_whitespace();
        if self.finished {
            return Some(Ok((Token::EndOfFile, self.loc())));
        }
        if self.cur_char == '#' {
            proof {
                lemma_skip_ws(old(self).state());
            }
            self.skip_comment();
            if self.finished {
                return Some(Ok((Token::EndOfFile, self.loc())));
            }
            proof {
                lemma_skip_to_newline(skip_ws(old(self).state()));
                lemma_eat(self.state());
            }
            self.eat_char();
        }
        proof {
            lemma_skip_ws(old(self).state());
        }
        let ghost before = self.state();
        let r = self.lex_body();
        proof {
            lemma_lex_body(before);
        }
        r
    }

    /// Reads the next token. White space is skipped, then a comment that
    /// runs from `#` to the end of its line; the token's location is the
    /// position just after it. At the end of the input the token is
    /// `EndOfFile`. An unknown character, an unknown symbol, a second
    /// decimal point in a number, an unknown escape or an unterminated
    /// string is a lexing error.
    pub fn get_tok(&mut self) -> (r: Result<(Token, Loc), CompileError>)
        requires
            lex_ok(old(self).state()),
            !(lex_step(old(self).state()).0 is Overflow),
        ensures
            final(self).state() == lex_step(old(self).state()).1,
            token_result_matches(Some(r), lex_step(old(self).state()).0),
    {
        match self.next_token() {
            Some(r) => r,
            None => Err(CompileError::new(ErrorType::LexingError, self.line, self.col)),
        }
    }

    /// Whether the lines and columns of the rest of the input fit in 32 bits.
    pub fn within_limits(&self) -> (r: bool)
        ensures
            r == lex_ok(self.state()),
    {
        let wf = !self.finished || (self.cur_char == ' ' && self.char_collect.len() == 0);
        let rest = self.char_collect.len();
        if rest as u64 > u32::MAX as u64 {
            return false;
        }
        let m: u64 = rest as u64 + if self.finished {
            0
        } else {
            1
        };
        wf && self.line as u64 + self.col as u64 + m + 1 <= u32::MAX as u64
    }

    /// Reads all the tokens, `EndOfFile` included as the last; stops at the
    /// first lexing error. `None` when an integer literal is too large for
    /// 32 bits.
    pub fn lex_all(self) -> (r: Option<Result<Vec<(Token, Loc)>, CompileError>>)
        requires
            lex_ok(self.state()),
        ensures
            match lex_all_spec(self.state()) {
                LexAll::Tokens(ts) => r matches Some(Ok(v)) && v@.len() == ts.len() && forall|
                    i: int,
                | 0 <= i < ts.len() ==> (#[trigger] v@[i]).0@ == ts[i].0 && v@[i].1 == ts[i].1,
                LexAll::Fail(l, c) => r matches Some(Err(e)) && e.e_type == ErrorType::LexingError
                    && e.line == l && e.col == c,
                LexAll::Overflow => r is None,
            },
    {
        let mut lex = self;
        let mut toks: Vec<(Token, Loc)> = Vec::new();
        loop
            invariant
                lex_ok(lex.state()),
                lex_all_spec(self.state()) == match lex_all_spec(lex.state()) {
                    LexAll::Tokens(ts) => LexAll::Tokens(tokens_view(toks@) + ts),
                    other => other,
                },
            decreases measure(lex.state()),
        {
            let ghost s0 = lex.state();
            proof {
                lemma_lex_step(s0);
            }
            match lex.next_token() {
                None => {
                    return None;
                },
                Some(Err(e)) => {
                    return Some(Err(e));
                },
                Some(Ok((t, loc))) => {
                    let is_eof = match t {
                        Token::EndOfFile => true,
                        _ => false,
                    };
                    let ghost tv = t@;
                    let ghost prev = toks@;
                    toks.push((t, loc));
                    assert(tokens_view(toks@) =~= tokens_view(prev).push((tv, loc)));
                    if is_eof {
                        return Some(Ok(toks));
                    }
                    proof {
                        let s1 = lex.state();
                        assert(lex_all_spec(s0) == match lex_all_spec(s1) {
                            LexAll::Tokens(ts) => LexAll::Tokens(seq![(tv, loc)] + ts),
                            other => other,
                        });
                        match lex_all_spec(s1) {
                            LexAll::Tokens(ts) => {
                                assert(tokens_view(prev) + (seq![(tv, loc)] + ts) =~= tokens_view(
                                    toks@,
                                ) + ts);
                            },
                            _ => {},
                        }
                    }
                },
            }
        }
    }
}

} // verus!

verus! {

/// The tokens of a whole input end with `EndOfFile`, and no token before
/// the last is `EndOfFile`.
pub proof fn law_tokens_end_with_eof(s: LexState)
    requires
        lex_wf(s),
    ensures
        lex_all_spec(s) matches LexAll::Tokens(ts) ==> ts.len() > 0 && ts.last().0 is EndOfFile
            && forall|i: int| 0 <= i < ts.len() - 1 ==> !(#[trigger] ts[i].0 is EndOfFile),
    decreases measure(s),
{
    lemma_lex_step(s);
    match lex_step(s) {
        (LexOutcome::Tok(t, l, c), s1) => {
            if !(t is EndOfFile) {
                law_tokens_end_with_eof(s1);
                match lex_all_spec(s1) {
                    LexAll::Tokens(ts) => {
                        let all = seq![(t, Loc { line: l, col: c })] + ts;
                        assert(all.last() == ts.last());
                        assert forall|i: int| 0 <= i < all.len() - 1 implies !(
                        #[trigger] all[i].0 is EndOfFile) by {
                            if i > 0 {
                                assert(all[i] == ts[i - 1]);
                            }
                        }
                    },
                    _ => {},
                }
            }
        },
        _ => {},
    }
}

/// The lexer of `a` with `b` appended before any token is read: the state
/// appending gives from a fresh lexer of `a`.
pub open spec fn appended_state(a: Seq<char>, b: Seq<char>) -> LexState {
    LexState { rest: initial_state(a).rest + b, finished: false, ..initial_state(a) }
}

/// Appending `b` to a fresh lexer of a non-empty `a` gives the lexer of
/// `a + b`, so both read the same tokens at the same places; appending to a
/// fresh lexer of the empty text reads `b` after one space.
pub proof fn law_append_is_joined(a: Seq<char>, b: Seq<char>)
    ensures
        a.len() > 0 ==> appended_state(a, b) == initial_state(a + b),
        a.len() > 0 ==> lex_all_spec(appended_state(a, b)) == lex_all_spec(initial_state(a + b)),
        a.len() == 0 ==> appended_state(a, b) == initial_state(seq![' '] + b),
{
    if a.len() > 0 {
        assert((a + b)[0] == a[0]);
        assert(a.drop_first() + b =~= (a + b).drop_first());
    } else {
        assert((seq![' '] + b)[0] == ' ');
        assert((seq![' '] + b).drop_first() =~= b);
        assert(a + b =~= b);
    }
}

/// Two lexer states with the same characters still to read, whatever their
/// positions.
pub open spec fn same_input(s: LexState, t: LexState) -> bool {
    s.cur == t.cur && s.rest == t.rest && s.finished == t.finished
}

/// Two outcomes of reading a token that agree but for positions.
pub open spec fn same_outcome(a: LexOutcome, b: LexOutcome) -> bool {
    match (a, b) {
        (LexOutcome::Tok(x, _, _), LexOutcome::Tok(y, _, _)) => x == y,
        (LexOutcome::Fail(_, _), LexOutcome::Fail(_, _)) => true,
        (LexOutcome::Overflow, LexOutcome::Overflow) => true,
        _ => false,
    }
}

/// Two results of reading all tokens that agree but for positions: the
/// same tokens, or both an error, or both no answer.
pub open spec fn same_tokens(a: LexAll, b: LexAll) -> bool {
    match (a, b) {
        (LexAll::Tokens(x), LexAll::Tokens(y)) => x.len() == y.len() && forall|i: int|
            0 <= i < x.len() ==> (#[trigger] x[i]).0 == y[i].0,
        (LexAll::Fail(_, _), LexAll::Fail(_, _)) => true,
        (LexAll::Overflow, LexAll::Overflow) => true,
        _ => false,
    }
}

proof fn lemma_skip_ws_same(s: LexState, t: LexState)
    requires
        same_input(s, t),
    ensures
        same_input(skip_ws(s), skip_ws(t)),
    decreases measure(s),
{
    if !s.finished && is_ws(s.cur) {
        let s1 = eat(s);
        if !s1.finished {
            lemma_skip_ws_same(s1, eat(t));
        }
    }
}

proof fn lemma_skip_to_newline_same(s: LexState, t: LexState)
    requires
        same_input(s, t),
    ensures
        same_input(skip_to_newline(s), skip_to_newline(t)),
    decreases measure(s),
{
    if !s.finished && s.cur != '\n' {
        let s1 = eat(s);
        if !s1.finished {
            lemma_skip_to_newline_same(s1, eat(t));
        }
    }
}

proof fn lemma_scan_ident_same(s: LexState, t: LexState, acc: Seq<char>)
    requires
        same_input(s, t),
    ensures
        scan_ident(s, acc).0 == scan_ident(t, acc).0,
        same_input(scan_ident(s, acc).1, scan_ident(t, acc).1),
    decreases measure(s),
{
    if !s.finished && is_alnum(s.cur) {
        lemma_scan_ident_same(eat(s), eat(t), acc.push(s.cur));
    }
}

proof fn lemma_scan_number_same(s: LexState, t: LexState, acc: Seq<char>, hp: bool)
    requires
        same_input(s, t),
    ensures
        scan_number(s, acc, hp).0 == scan_number(t, acc, hp).0,
        scan_number(s, acc, hp).1 == scan_number(t, acc, hp).1,
        scan_number(s, acc, hp).2 == scan_number(t, acc, hp).2,
        same_input(scan_number(s, acc, hp).3, scan_number(t, acc, hp).3),
    decreases measure(s),
{
    if !s.finished && is_numeric(s.cur) && !(s.cur == '.' && hp) {
        lemma_scan_number_same(eat(s), eat(t), acc.push(s.cur), hp || s.cur == '.');
    }
}

proof fn lemma_scan_string_same(s: LexState, t: LexState, acc: Seq<char>)
    requires
        same_input(s, t),
    ensures
        scan_string(s, acc).0 == scan_string(t, acc).0,
        scan_string(s, acc).1 == scan_string(t, acc).1,
        same_input(scan_string(s, acc).2, scan_string(t, acc).2),
    decreases measure(s),
{
    if !s.finished && s.cur != '"' {
        if s.cur == '\\' {
            if s.rest.len() > 0 {
                let n = s.rest[0];
                if n == '\\' || n == 'n' || n == '"' {
                    lemma_scan_string_same(
                        eat(eat(s)),
                        eat(eat(t)),
                        acc.push(
                            if n == 'n' {
                                '\n'
                            } else {
                                n
                            },
                        ),
                    );
                }
            }
        } else {
            lemma_scan_string_same(eat(s), eat(t), acc.push(s.cur));
        }
    }
}

proof fn lemma_lex_body_same(s: LexState, t: LexState)
    requires
        same_input(s, t),
    ensures
        same_outcome(lex_body(s).0, lex_body(t).0),
        same_input(lex_body(s).1, lex_body(t).1),
{
    if is_letter(s.cur) {
        lemma_scan_ident_same(eat(s), eat(t), seq![s.cur]);
    } else if is_numeric(s.cur) {
        let start = if s.cur == '.' {
            seq!['0', '.']
        } else {
            seq![s.cur]
        };
        lemma_scan_number_same(eat(s), eat(t), start, s.cur == '.');
    } else if s.cur == '"' {
        lemma_scan_string_same(eat(s), eat(t), Seq::empty());
    }
}

/// Reading a token from two states whose input after the white space is the
/// same gives the same token, or both an error, or both no answer.
proof fn lemma_lex_step_same(s: LexState, t: LexState)
    requires
        s.finished == t.finished,
        !s.finished ==> same_input(skip_ws(s), skip_ws(t)),
    ensures
        same_outcome(lex_step(s).0, lex_step(t).0),
        !s.finished ==> same_input(lex_step(s).1, lex_step(t).1),
{
    if !s.finished {
        let s1 = skip_ws(s);
        let t1 = skip_ws(t);
        if !s1.finished {
            if s1.cur == '#' {
                lemma_skip_to_newline_same(s1, t1);
                let u = skip_to_newline(s1);
                if !u.finished {
                    lemma_lex_body_same(eat(u), eat(skip_to_newline(t1)));
                }
            } else {
                lemma_lex_body_same(s1, t1);
            }
        }
    }
}

proof fn lemma_lex_all_same(s: LexState, t: LexState)
    requires
        lex_wf(s),
        lex_wf(t),
        s.finished == t.finished,
        !s.finished ==> same_input(skip_ws(s), skip_ws(t)),
    ensures
        same_tokens(lex_all_spec(s), lex_all_spec(t)),
    decreases measure(s),
{
    lemma_lex_step_same(s, t);
    lemma_lex_step(s);
    lemma_lex_step(t);
    let (o, s1) = lex_step(s);
    let (p, t1) = lex_step(t);
    if let LexOutcome::Tok(x, l, c) = o {
        if !(x is EndOfFile) {
            assert(!s.finished);
            lemma_skip_ws_same(s1, t1);
            lemma_lex_all_same(s1, t1);
            if let LexOutcome::Tok(y, l2, c2) = p {
                match (lex_all_spec(s1), lex_all_spec(t1)) {
                    (LexAll::Tokens(ts), LexAll::Tokens(us)) => {
                        let a = seq![(x, Loc { line: l, col: c })] + ts;
                        let b = seq![(y, Loc { line: l2, col: c2 })] + us;
                        assert forall|i: int| 0 <= i < a.len() implies (#[trigger] a[i]).0
                            == b[i].0 by {
                            if i > 0 {
                                assert(a[i] == ts[i - 1]);
                                assert(b[i] == us[i - 1]);
                            }
                        }
                    },
                    _ => {},
                }
            }
        }
    }
}

/// Appending `b` to a fresh lexer of the empty text reads the same tokens
/// as a fresh lexer of `b`, in the same order, and fails or has no answer
/// exactly where it does; only the positions differ, by the one space that
/// the empty lexer starts on.
pub proof fn law_append_to_empty_reads_the_same(a: Seq<char>, b: Seq<char>)
    requires
        a.len() == 0,
    ensures
        same_tokens(lex_all_spec(appended_state(a, b)), lex_all_spec(initial_state(a + b))),
{
    law_append_is_joined(a, b);
    let s = appended_state(a, b);
    let t = initial_state(a + b);
    assert(a + b =~= b);
    if b.len() == 0 {
        assert(s == t);
        assert(skip_ws(s) == skip_ws(t));
    } else {
        let e = eat(s);
        assert(same_input(e, t));
        lemma_skip_ws_same(e, t);
        assert(skip_ws(s) == skip_ws(e));
    }
    lemma_lex_all_same(s, t);
}

/// The operator symbols: `<=`, `>=`, `==` and `!=` are read as one
/// operator each; otherwise `<`, `>`, `+`, `-`, `*`, `/`, `%`, `&`, `|`
/// and `^` are read alone (`-` followed by `>` is the arrow, and `+=` and
/// the like are compound assignments).
pub proof fn law_operator_symbols(s: LexState)
    requires
        !s.finished,
        s.rest.len() > 0,
    ensures
        (s.cur == '<' && s.rest[0] == '=') ==> (lex_body(s).0 matches LexOutcome::Tok(TokenView::Op(Operator::LEq), _, _)),
        (s.cur == '>' && s.rest[0] == '=') ==> (lex_body(s).0 matches LexOutcome::Tok(TokenView::Op(Operator::GEq), _, _)),
        (s.cur == '=' && s.rest[0] == '=') ==> (lex_body(s).0 matches LexOutcome::Tok(TokenView::Op(Operator::Eq), _, _)),
        (s.cur == '!' && s.rest[0] == '=') ==> (lex_body(s).0 matches LexOutcome::Tok(TokenView::Op(Operator::NEq), _, _)),
        (s.cur == '<' && s.rest[0] != '=') ==> (lex_body(s).0 matches LexOutcome::Tok(TokenView::Op(Operator::Less), _, _)),
        (s.cur == '>' && s.rest[0] != '=') ==> (lex_body(s).0 matches LexOutcome::Tok(TokenView::Op(Operator::Greater), _, _)),
        (s.cur == '+' && s.rest[0] != '=') ==> (lex_body(s).0 matches LexOutcome::Tok(TokenView::Op(Operator::Add), _, _)),
        (s.cur == '-' && s.rest[0] != '=' && s.rest[0] != '>') ==> (lex_body(s).0 matches LexOutcome::Tok(TokenView::Op(Operator::Sub), _, _)),
        (s.cur == '*' && s.rest[0] != '=') ==> (lex_body(s).0 matches LexOutcome::Tok(TokenView::Op(Operator::Mult), _, _)),
        (s.cur == '/' && s.rest[0] != '=') ==> (lex_body(s).0 matches LexOutcome::Tok(TokenView::Op(Operator::Div), _, _)),
        (s.cur == '%' && s.rest[0] != '=') ==> (lex_body(s).0 matches LexOutcome::Tok(TokenView::Op(Operator::Mod), _, _)),
        (s.cur == '&') ==> (lex_body(s).0 matches LexOutcome::Tok(TokenView::Op(Operator::BAnd), _, _)),
        (s.cur == '|') ==> (lex_body(s).0 matches LexOutcome::Tok(TokenView::Op(Operator::BOr), _, _)),
        (s.cur == '^') ==> (lex_body(s).0 matches LexOutcome::Tok(TokenView::Op(Operator::BXor), _, _)),
{
}

} // verus!
