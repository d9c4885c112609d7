use prism::decimals::{decimal_texts, resolve_decimals};
use prism::strmap::StrMap;
use prism::ast::Loc;
use prism::errors::{CompileError, ErrorType};
use prism::lexer::LexEngine;
use prism::parser::ParsingMachine;
use prism::tokens::{Literal, Operator, ShortHand, Token, Type};

fn lex(src: &str) -> Vec<Token> {
    LexEngine::new(src.to_string())
        .lex_all()
        .unwrap()
        .unwrap()
        .into_iter()
        .map(|(t, _)| t)
        .collect()
}

#[test]
fn loc_new_keeps_its_fields() {
    let l = Loc::new(3, 4);
    assert_eq!((l.line, l.col), (3, 4));
}

#[test]
fn compile_error_new_keeps_its_fields() {
    let e = CompileError::new(ErrorType::LexingError, 1, 2);
    assert_eq!(e.e_type, ErrorType::LexingError);
    assert_eq!((e.line, e.col), (1, 2));
}

#[test]
fn type_sizes_include_the_tag() {
    assert_eq!(Type::Int.size(), 5);
    assert_eq!(Type::Dcml.size(), 9);
    assert_eq!(Type::Bool.size(), 2);
    assert_eq!(Type::String.size(), 3);
    assert_eq!(Type::CallStack.size(), 5);
}

#[test]
fn literals_know_their_type() {
    assert_eq!(Literal::Int(1).get_type(), Type::Int);
    assert_eq!(Literal::Dcml(1.5f64.to_bits()).get_type(), Type::Dcml);
    assert_eq!(Literal::Bool(true).get_type(), Type::Bool);
    assert_eq!(Literal::String("s".to_string()).get_type(), Type::String);
}

#[test]
fn lexes_a_function() {
    assert_eq!(
        lex("fun main() -> int { return 1 + 2; }"),
        vec![
            Token::Fun,
            Token::Ident("main".to_string()),
            Token::LeftParen,
            Token::RightParen,
            Token::RArrow,
            Token::DeclareType(Type::Int),
            Token::LeftCurly,
            Token::Return,
            Token::Lit(Literal::Int(1)),
            Token::Op(Operator::Add),
            Token::Lit(Literal::Int(2)),
            Token::Semicolon,
            Token::RightCurly,
            Token::EndOfFile,
        ]
    );
}

#[test]
fn lexes_two_character_symbols() {
    assert_eq!(
        lex("== != <= >= += -> <"),
        vec![
            Token::Op(Operator::Eq),
            Token::Op(Operator::NEq),
            Token::Op(Operator::LEq),
            Token::Op(Operator::GEq),
            Token::ShortHand(ShortHand::AddEq),
            Token::RArrow,
            Token::Op(Operator::Less),
            Token::EndOfFile,
        ]
    );
}

#[test]
fn lexes_literals_and_keywords() {
    assert_eq!(
        lex("true false 2.5 \"hi\" while if dcml bool string"),
        vec![
            Token::Lit(Literal::Bool(true)),
            Token::Lit(Literal::Bool(false)),
            Token::DcmlText("2.5".to_string()),
            Token::Lit(Literal::String("hi".to_string())),
            Token::While,
            Token::If,
            Token::DeclareType(Type::Dcml),
            Token::DeclareType(Type::Bool),
            Token::DeclareType(Type::String),
            Token::EndOfFile,
        ]
    );
}

#[test]
fn the_empty_text_is_just_the_end() {
    assert_eq!(lex(""), vec![Token::EndOfFile]);
}

#[test]
fn tokens_carry_the_position_after_them() {
    let toks = LexEngine::new("fun\nmain".to_string()).lex_all().unwrap().unwrap();
    assert_eq!(toks[0].1, Loc::new(0, 3));
    assert_eq!(toks[1].1, Loc::new(1, 4));
}

#[test]
fn an_unknown_character_is_a_lexing_error() {
    match LexEngine::new("@".to_string()).lex_all() {
        Some(Err(e)) => assert_eq!(e.e_type, ErrorType::LexingError),
        _ => panic!("expected a lexing error"),
    }
}

#[test]
fn an_integer_beyond_32_bits_has_no_token() {
    assert!(LexEngine::new("4294967296".to_string()).lex_all().is_none());
}

#[test]
fn appended_text_is_lexed_after_the_rest() {
    let mut lex = LexEngine::new("fun".to_string());
    lex.append_string(" main".to_string());
    let toks: Vec<Token> = lex.lex_all().unwrap().unwrap().into_iter().map(|(t, _)| t).collect();
    assert_eq!(toks, vec![Token::Fun, Token::Ident("main".to_string()), Token::EndOfFile]);
}

#[test]
fn parses_functions_in_order() {
    let toks = LexEngine::new(
        "fun a(int x, bool y) -> int { return x; } fun b() -> bool { return true; }".to_string(),
    )
    .lex_all()
    .unwrap()
    .unwrap();
    let fns = ParsingMachine::new(toks).parse_all().unwrap();
    assert_eq!(fns.len(), 2);
    assert_eq!(fns[0].name, "a");
    assert_eq!(fns[0].params.len(), 2);
    assert_eq!(fns[0].params[0], ("x".to_string(), Type::Int));
    assert_eq!(fns[0].params[1], ("y".to_string(), Type::Bool));
    assert_eq!(fns[0].ret_type, Type::Int);
    assert_eq!(fns[1].name, "b");
    assert_eq!(fns[1].ret_type, Type::Bool);
}

#[test]
fn a_missing_semicolon_after_return_is_a_parsing_error() {
    let toks = LexEngine::new("fun a() -> int { return 1 }".to_string())
        .lex_all()
        .unwrap()
        .unwrap();
    match ParsingMachine::new(toks).parse_all() {
        Err(e) => assert_eq!(
            e.e_type,
            ErrorType::ParsingError("Expected semicolon after return statement".to_string())
        ),
        Ok(_) => panic!("expected a parsing error"),
    }
}

#[test]
fn appending_to_a_fresh_lexer_is_lexing_the_joined_text() {
    let mut lex = LexEngine::new("fun ma".to_string());
    lex.append_string("in() -> int { return 1; }".to_string());
    let joined = LexEngine::new("fun main() -> int { return 1; }".to_string());
    assert_eq!(lex.lex_all().unwrap().unwrap(), joined.lex_all().unwrap().unwrap());
}

#[test]
fn decimal_texts_are_replaced_by_their_bits() {
    let toks = LexEngine::new("1.5 + 2".to_string()).lex_all().unwrap().unwrap();
    assert_eq!(decimal_texts(&toks), vec!["1.5".to_string()]);
    let mut table = StrMap::new();
    assert!(resolve_decimals(&toks, &table).is_none());
    table.insert("1.5".to_string(), 1.5f64.to_bits());
    let resolved = resolve_decimals(&toks, &table).unwrap();
    assert_eq!(resolved[0].0, Token::Lit(Literal::Dcml(1.5f64.to_bits())));
    assert_eq!(resolved[2].0, Token::Lit(Literal::Int(2)));
}

#[test]
fn appending_to_an_empty_lexer_reads_the_same_tokens() {
    let mut lex = LexEngine::new(String::new());
    lex.append_string("fun main() -> int { return 1; }".to_string());
    let joined = LexEngine::new("fun main() -> int { return 1; }".to_string());
    let a: Vec<Token> = lex.lex_all().unwrap().unwrap().into_iter().map(|(t, _)| t).collect();
    let b: Vec<Token> = joined.lex_all().unwrap().unwrap().into_iter().map(|(t, _)| t).collect();
    assert_eq!(a, b);
}
