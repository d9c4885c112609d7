//! Tokens produced by the lexer.
use vstd::prelude::*;

verus! {

/// The operators of the language.
#[derive(Clone, Copy, Debug, PartialEq, Eq, Structural)]
pub enum Operator {
    Add,
    Sub,
    Mult,
    Div,
    Mod,
    Eq,
    NEq,
    Less,
    LEq,
    Greater,
    GEq,
    And,
    Or,
    Xor,
    BAnd,
    BOr,
    BXor,
}

/// The value types of the language (`CallStack` is the type of a saved
/// return address on the machine's stack).
#[derive(Clone, Copy, Debug, PartialEq, Eq, Structural)]
pub enum Type {
    Int,
    Dcml,
    Bool,
    String,
    CallStack,
}

/// Size in bytes of a value of the type on the machine's stack: the payload
/// followed by a one-byte tag.
pub open spec fn spec_type_size(t: Type) -> nat {
    match t {
        Type::Int => 5,
        Type::Dcml => 9,
        Type::Bool => 2,
        Type::String => 3,
        Type::CallStack => 5,
    }
}

impl Type {
    /// Size in bytes, tag included.
    pub fn size(&self) -> (r: usize)
        ensures
            r == spec_type_size(*self),
    {
        (match self {
            Type::Int => 4,
            Type::Dcml => 8,
            Type::Bool => 1,
            Type::String => 2,
            Type::CallStack => 4,
        }) + 1
    }
}

/// A literal value. A decimal holds the bit pattern of its IEEE-754 double.
#[derive(Debug, PartialEq)]
pub enum Literal {
    Int(i32),
    Dcml(u64),
    Bool(bool),
    String(String),
}

pub open spec fn spec_literal_type(l: Literal) -> Type {
    match l {
        Literal::Int(_) => Type::Int,
        Literal::Dcml(_) => Type::Dcml,
        Literal::Bool(_) => Type::Bool,
        Literal::String(_) => Type::String,
    }
}

impl Literal {
    /// The type of the literal.
    pub fn get_type(&self) -> (t: Type)
        ensures
            t == spec_literal_type(*self),
    {
        match self {
            Literal::Int(_) => Type::Int,
            Literal::Dcml(_) => Type::Dcml,
            Literal::Bool(_) => Type::Bool,
            Literal::String(_) => Type::String,
        }
    }

    /// A copy of the literal.
    pub fn duplicate(&self) -> (r: Literal)
        ensures
            r == *self,
    {
        match self {
            Literal::Int(i) => Literal::Int(*i),
            Literal::Dcml(x) => Literal::Dcml(*x),
            Literal::Bool(b) => Literal::Bool(*b),
            Literal::String(s) => Literal::String(s.clone()),
        }
    }
}

/// Compound assignment operators.
#[derive(Clone, Copy, Debug, PartialEq, Eq, Structural)]
pub enum ShortHand {
    AddEq,
    SubEq,
    MultEq,
    DivEq,
    ModEq,
}

/// A token of the language.
#[derive(Debug, PartialEq)]
pub enum Token {
    Ident(String),
    Lit(Literal),
    /// A decimal literal as written, before its value is known.
    DcmlText(String),
    ShortHand(ShortHand),
    Op(Operator),
    Semicolon,
    Fun,
    DeclareType(Type),
    While,
    If,
    Else,
    LeftParen,
    RightParen,
    LeftBrack,
    RightBrack,
    LeftCurly,
    RightCurly,
    Comma,
    Assign,
    Return,
    RArrow,
    EndOfFile,
}

impl Token {
    /// A copy of the token.
    pub fn duplicate(&self) -> (r: Token)
        ensures
            r == *self,
    {
        match self {
            Token::Ident(s) => Token::Ident(s.clone()),
            Token::Lit(l) => Token::Lit(l.duplicate()),
            Token::DcmlText(s) => Token::DcmlText(s.clone()),
            Token::ShortHand(s) => Token::ShortHand(*s),
            Token::Op(o) => Token::Op(*o),
            Token::Semicolon => Token::Semicolon,
            Token::Fun => Token::Fun,
            Token::DeclareType(t) => Token::DeclareType(*t),
            Token::While => Token::While,
            Token::If => Token::If,
            Token::Else => Token::Else,
            Token::LeftParen => Token::LeftParen,
            Token::RightParen => Token::RightParen,
            Token::LeftBrack => Token::LeftBrack,
            Token::RightBrack => Token::RightBrack,
            Token::LeftCurly => Token::LeftCurly,
            Token::RightCurly => Token::RightCurly,
            Token::Comma => Token::Comma,
            Token::Assign => Token::Assign,
            Token::Return => Token::Return,
            Token::RArrow => Token::RArrow,
            Token::EndOfFile => Token::EndOfFile,
        }
    }
}

} // verus!

verus! {

/// A literal with its strings seen as sequences of characters.
pub enum LiteralView {
    Int(i32),
    Dcml(u64),
    Bool(bool),
    String(Seq<char>),
}

impl View for Literal {
    type V = LiteralView;

    open spec fn view(&self) -> LiteralView {
        match self {
            Literal::Int(i) => LiteralView::Int(*i),
            Literal::Dcml(x) => LiteralView::Dcml(*x),
            Literal::Bool(b) => LiteralView::Bool(*b),
            Literal::String(s) => LiteralView::String(s@),
        }
    }
}

/// A token with its strings seen as sequences of characters.
pub enum TokenView {
    Ident(Seq<char>),
    Lit(LiteralView),
    DcmlText(Seq<char>),
    ShortHand(ShortHand),
    Op(Operator),
    Semicolon,
    Fun,
    DeclareType(Type),
    While,
    If,
    Else,
    LeftParen,
    RightParen,
    LeftBrack,
    RightBrack,
    LeftCurly,
    RightCurly,
    Comma,
    Assign,
    Return,
    RArrow,
    EndOfFile,
}

impl View for Token {
    type V = TokenView;

    open spec fn view(&self) -> TokenView {
        match self {
            Token::Ident(s) => TokenView::Ident(s@),
            Token::Lit(l) => TokenView::Lit(l@),
            Token::DcmlText(s) => TokenView::DcmlText(s@),
            Token::ShortHand(s) => TokenView::ShortHand(*s),
            Token::Op(o) => TokenView::Op(*o),
            Token::Semicolon => TokenView::Semicolon,
            Token::Fun => TokenView::Fun,
            Token::DeclareType(t) => TokenView::DeclareType(*t),
            Token::While => TokenView::While,
            Token::If => TokenView::If,
            Token::Else => TokenView::Else,
            Token::LeftParen => TokenView::LeftParen,
            Token::RightParen => TokenView::RightParen,
            Token::LeftBrack => TokenView::LeftBrack,
            Token::RightBrack => TokenView::RightBrack,
            Token::LeftCurly => TokenView::LeftCurly,
            Token::RightCurly => TokenView::RightCurly,
            Token::Comma => TokenView::Comma,
            Token::Assign => TokenView::Assign,
            Token::Return => TokenView::Return,
            Token::RArrow => TokenView::RArrow,
            Token::EndOfFile => TokenView::EndOfFile,
        }
    }
}

} // verus!
