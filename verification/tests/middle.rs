use prism::ast::{
    Assignment, Declaration, ExprAST, Expression, FunctionAst, Loc, Return, Statement,
};
use prism::ctrlflow::check_for_returns;
use prism::errors::ErrorType;
use prism::strmap::StrMap;
use prism::tokens::{Literal, Operator, Type};
use prism::typecheck::{binop_result, TypeChecker};

fn lit(i: i32) -> ExprAST {
    ExprAST::Lit(Literal::Int(i))
}

fn ret(e: ExprAST, at: u32) -> Statement {
    Statement::Return(Return { expr: Expression { expr: e, loc: Loc::new(0, at) }, loc: Loc::new(0, at) })
}

fn func(name: &str, params: Vec<(String, Type)>, code: Vec<Statement>, ret_type: Type) -> FunctionAst {
    FunctionAst { loc: Loc::new(0, 0), name: name.to_string(), params, code, ret_type }
}

fn decl(typ: Type, name: &str, val: ExprAST, at: u32) -> Statement {
    Statement::Decl(Declaration {
        typ,
        ident: name.to_string(),
        ident_loc: Loc::new(0, at),
        val,
        val_loc: Loc::new(0, at + 1),
    })
}

fn type_errors(ast: &Vec<FunctionAst>) -> Vec<(ErrorType, u32, u32)> {
    match TypeChecker::new(ast).try_check_all() {
        Some(Err(v)) => v.into_iter().map(|e| (e.e_type, e.line, e.col)).collect(),
        Some(Ok(())) => vec![],
        None => panic!("unbound name"),
    }
}

fn te(s: &str) -> ErrorType {
    ErrorType::TypeError(s.to_string())
}

#[test]
fn binop_types_follow_the_table() {
    assert_eq!(binop_result(Operator::Mod, Type::Int, Type::Int), Some(Type::Int));
    assert_eq!(binop_result(Operator::Mod, Type::Dcml, Type::Dcml), None);
    assert_eq!(binop_result(Operator::Div, Type::Dcml, Type::Dcml), Some(Type::Dcml));
    assert_eq!(binop_result(Operator::Eq, Type::String, Type::String), Some(Type::Bool));
    assert_eq!(binop_result(Operator::Less, Type::Bool, Type::Bool), None);
    assert_eq!(binop_result(Operator::BXor, Type::Bool, Type::Bool), Some(Type::Bool));
    assert_eq!(binop_result(Operator::And, Type::Int, Type::Int), None);
    assert_eq!(binop_result(Operator::Add, Type::Int, Type::Dcml), None);
}

#[test]
fn a_well_typed_program_passes() {
    let ast = vec![func(
        "main",
        vec![],
        vec![decl(Type::Int, "x", lit(1), 5), ret(ExprAST::Var("x".to_string()), 9)],
        Type::Int,
    )];
    assert_eq!(type_errors(&ast), vec![]);
}

#[test]
fn reports_a_bad_operator() {
    let ast = vec![func(
        "main",
        vec![],
        vec![ret(ExprAST::BinOp(Operator::Add, Box::new(lit(1)), Box::new(ExprAST::Lit(Literal::Bool(true)))), 7)],
        Type::Int,
    )];
    assert_eq!(
        type_errors(&ast),
        vec![(te("Cannot use binary operator 'Add' on values of type 'Int' and 'Bool'"), 0, 7)]
    );
}

#[test]
fn reports_a_wrong_number_of_arguments() {
    let call = ExprAST::Call("f".to_string(), vec![Expression { expr: lit(1), loc: Loc::new(0, 3) }]);
    let ast = vec![
        func("f", vec![], vec![ret(lit(0), 1)], Type::Int),
        func("main", vec![], vec![ret(call, 8)], Type::Int),
    ];
    assert_eq!(
        type_errors(&ast),
        vec![(te("Expected 0 arguments in call to function 'f', got 1 args"), 0, 8)]
    );
}

#[test]
fn reports_a_wrong_argument_type() {
    let call = ExprAST::Call(
        "f".to_string(),
        vec![Expression { expr: ExprAST::Lit(Literal::Bool(false)), loc: Loc::new(0, 3) }],
    );
    let ast = vec![
        func("f", vec![("a".to_string(), Type::Int)], vec![ret(lit(0), 1)], Type::Int),
        func("main", vec![], vec![ret(call, 8)], Type::Int),
    ];
    assert_eq!(
        type_errors(&ast),
        vec![(te("Expected type 'Int', got type 'Bool' in function 'f'"), 0, 8)]
    );
}

#[test]
fn reports_a_declaration_of_the_wrong_type() {
    let ast = vec![func(
        "main",
        vec![],
        vec![decl(Type::Int, "x", ExprAST::Lit(Literal::Bool(true)), 4)],
        Type::Int,
    )];
    assert_eq!(
        type_errors(&ast),
        vec![(te("Tried to set variable 'x' of type 'Int' to type of 'Bool'"), 0, 4)]
    );
}

#[test]
fn reports_shadowing() {
    let ast = vec![func(
        "main",
        vec![],
        vec![decl(Type::Int, "x", lit(1), 4), decl(Type::Int, "x", lit(2), 9)],
        Type::Int,
    )];
    assert_eq!(
        type_errors(&ast),
        vec![(
            te("Cannot declare the same named variable 'x' twice in the same scope (Shadowing is not allowed)."),
            0,
            9
        )]
    );
}

#[test]
fn reports_an_assignment_to_an_unknown_variable() {
    let ast = vec![func(
        "main",
        vec![],
        vec![Statement::Assign(Assignment {
            ident: "y".to_string(),
            ident_loc: Loc::new(0, 2),
            val: lit(1),
            val_loc: Loc::new(0, 3),
        })],
        Type::Int,
    )];
    assert_eq!(type_errors(&ast), vec![(te("Could not find variable 'y' in current scope"), 0, 2)]);
}

#[test]
fn records_a_repeated_operator_error_once() {
    let bad = || ExprAST::BinOp(Operator::Sub, Box::new(lit(1)), Box::new(ExprAST::Lit(Literal::Bool(true))));
    let ast = vec![
        func("f", vec![], vec![ret(bad(), 7)], Type::Int),
        func("main", vec![], vec![ret(bad(), 7)], Type::Int),
    ];
    assert_eq!(type_errors(&ast).len(), 1);
}

#[test]
fn records_each_mismatched_declaration() {
    let ast = vec![
        func("f", vec![], vec![decl(Type::Int, "x", ExprAST::Lit(Literal::Bool(true)), 4)], Type::Int),
        func("main", vec![], vec![decl(Type::Int, "x", ExprAST::Lit(Literal::Bool(true)), 4)], Type::Int),
    ];
    assert_eq!(type_errors(&ast).len(), 2);
}

#[test]
fn an_undeclared_variable_stops_the_check() {
    let ast = vec![func("main", vec![], vec![ret(ExprAST::Var("q".to_string()), 1)], Type::Int)];
    assert!(TypeChecker::new(&ast).try_check_all().is_none());
}

#[test]
fn check_all_gives_the_errors_in_order() {
    let ast = vec![
        func("f", vec![], vec![decl(Type::Bool, "b", lit(1), 3)], Type::Int),
        func("main", vec![], vec![decl(Type::Int, "x", ExprAST::Lit(Literal::Bool(true)), 4)], Type::Int),
    ];
    match TypeChecker::new(&ast).check_all() {
        Err(v) => {
            assert_eq!(v.len(), 2);
            assert_eq!(v[0].e_type, te("Tried to set variable 'b' of type 'Bool' to type of 'Int'"));
            assert_eq!(v[1].e_type, te("Tried to set variable 'x' of type 'Int' to type of 'Bool'"));
        }
        Ok(()) => panic!("expected errors"),
    }
}

#[test]
fn a_function_without_return_is_reported() {
    let ast = vec![
        func("ok", vec![], vec![ret(lit(1), 1)], Type::Int),
        func("bad", vec![], vec![decl(Type::Int, "x", lit(1), 3)], Type::Int),
    ];
    match check_for_returns(&ast) {
        Err(v) => {
            assert_eq!(v.len(), 1);
            assert_eq!(
                v[0].e_type,
                ErrorType::ControlFlowError("The function 'bad' might not return".to_string())
            );
        }
        Ok(()) => panic!("expected an error"),
    }
}

#[test]
fn an_if_returning_on_both_sides_returns() {
    let ast = vec![func(
        "main",
        vec![],
        vec![Statement::If(prism::ast::IfBlock {
            cond: Expression { expr: ExprAST::Lit(Literal::Bool(true)), loc: Loc::new(0, 1) },
            loc: Loc::new(0, 1),
            tcode: vec![ret(lit(1), 2)],
            ecode: vec![ret(lit(2), 3)],
        })],
        Type::Int,
    )];
    assert!(check_for_returns(&ast).is_ok());
}

#[test]
fn a_loop_alone_does_not_return() {
    let ast = vec![func(
        "main",
        vec![],
        vec![Statement::While(prism::ast::WhileBlock {
            cond: Expression { expr: ExprAST::Lit(Literal::Bool(true)), loc: Loc::new(0, 1) },
            loc: Loc::new(0, 1),
            code: vec![ret(lit(1), 2)],
        })],
        Type::Int,
    )];
    assert!(check_for_returns(&ast).is_err());
}

#[test]
fn a_later_insert_hides_an_earlier_one() {
    let mut m: StrMap<u64> = StrMap::new();
    m.insert("a".to_string(), 1);
    m.insert("b".to_string(), 2);
    m.insert("a".to_string(), 3);
    assert_eq!(m.get(&"a".to_string()), Some(&3));
    assert_eq!(m.get(&"b".to_string()), Some(&2));
    assert_eq!(m.get(&"c".to_string()), None);
    assert!(m.contains_key(&"b".to_string()));
    assert_eq!(m.duplicate().get(&"a".to_string()), Some(&3));
}
