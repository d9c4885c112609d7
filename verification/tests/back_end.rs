use prism::array::Array;
use prism::assembler::{assemble, NoLabelInst};
use prism::assembly::{Assembler, Instruction};
use prism::ast::{ExprAST, Expression, FunctionAst, Loc, Return, Statement};
use prism::codegen::{CompilerComposer, FuncCompiler};
use prism::errors::{CompileError, ErrorType};
use prism::repl::Repl;
use prism::tester::{driver_source, tally_line, verdict_line, TestResult, TestTally};
use prism::tokens::{Literal, Operator, Type};
use prism::vm::{get_inst_size, read_const, ConstRead};
use prism::wrapped_val::{pop_value, push_value, read_value, WrappedVal};

fn main_returning(e: ExprAST) -> Vec<FunctionAst> {
    vec![FunctionAst {
        loc: Loc::new(0, 0),
        name: "main".to_string(),
        params: vec![],
        code: vec![Statement::Return(Return {
            expr: Expression { expr: e, loc: Loc::new(0, 1) },
            loc: Loc::new(0, 1),
        })],
        ret_type: Type::Int,
    }]
}

#[test]
fn compiles_an_addition() {
    let ast = main_returning(ExprAST::BinOp(
        Operator::Add,
        Box::new(ExprAST::Lit(Literal::Int(1))),
        Box::new(ExprAST::Lit(Literal::Int(2))),
    ));
    let composer = CompilerComposer::new(ast);
    let code = composer.parallel_compile().unwrap();
    assert_eq!(
        code,
        vec![
            Instruction::Label("main".to_string()),
            Instruction::Fun(0),
            Instruction::Push(1, 0),
            Instruction::Push(1, 5),
            Instruction::Add,
            Instruction::Ret(5),
        ]
    );
    let (pool, consts) = composer.extract_pool_and_consts();
    assert!(pool.is_empty());
    assert_eq!(consts, vec![1, 1, 0, 0, 0, 1, 2, 0, 0, 0]);
}

#[test]
fn compiles_not_equal_as_equal_then_not() {
    let ast = main_returning(ExprAST::BinOp(
        Operator::NEq,
        Box::new(ExprAST::Lit(Literal::Bool(true))),
        Box::new(ExprAST::Lit(Literal::Bool(true))),
    ));
    let code = CompilerComposer::new(ast).parallel_compile().unwrap();
    assert_eq!(
        code,
        vec![
            Instruction::Label("main".to_string()),
            Instruction::Fun(0),
            Instruction::Push(1, 0),
            Instruction::Push(1, 0),
            Instruction::Eq,
            Instruction::Not,
            Instruction::Ret(2),
        ]
    );
}

#[test]
fn strings_go_to_the_string_pool_once_and_decimals_hold_their_bits() {
    let ast = main_returning(ExprAST::BinOp(
        Operator::Eq,
        Box::new(ExprAST::Lit(Literal::String("hi".to_string()))),
        Box::new(ExprAST::BinOp(
            Operator::Eq,
            Box::new(ExprAST::Lit(Literal::Dcml(2.5f64.to_bits()))),
            Box::new(ExprAST::Lit(Literal::String("hi".to_string()))),
        )),
    ));
    let (pool, consts) = CompilerComposer::new(ast).extract_pool_and_consts();
    assert_eq!(pool, vec!["hi".to_string()]);
    assert_eq!(consts, vec![4, 0, 0, 2, 0, 0, 0, 0, 0, 0, 4, 0x40]);
}

#[test]
fn get_const_finds_the_first_entry() {
    let consts = vec![1, 2, 0, 0, 0, 3, 1, 4, 0, 0, 1, 2, 0, 0, 0];
    let pool = vec!["hi".to_string()];
    assert_eq!(FuncCompiler::get_const(&consts, &pool, &Literal::Int(2)), Some(0));
    assert_eq!(FuncCompiler::get_const(&consts, &pool, &Literal::Bool(true)), Some(5));
    assert_eq!(FuncCompiler::get_const(&consts, &pool, &Literal::String("hi".to_string())), Some(7));
    assert_eq!(FuncCompiler::get_const(&consts, &pool, &Literal::Int(3)), None);
    assert_eq!(FuncCompiler::get_const(&consts, &pool, &Literal::Bool(false)), None);
}

#[test]
fn assembles_labels_to_offsets() {
    let code = vec![
        Instruction::Label("a".to_string()),
        Instruction::Push(1, 0),
        Instruction::Jmp("a".to_string()),
        Instruction::Call("b".to_string()),
        Instruction::Label("b".to_string()),
        Instruction::Ret(5),
    ];
    let (consts, pool, bc) = Assembler::new(vec![9], vec!["s".to_string()], code)
        .assemble_checked()
        .unwrap();
    assert_eq!(consts, vec![9]);
    assert_eq!(pool, vec!["s".to_string()]);
    assert_eq!(bc, vec![2, 1, 0, 0, 19, 0, 0, 0, 0, 22, 14, 0, 0, 0, 1, 5, 0]);
}

#[test]
fn the_last_definition_of_a_label_wins() {
    let code = vec![
        Instruction::Label("a".to_string()),
        Instruction::Pop,
        Instruction::Label("a".to_string()),
        Instruction::Jmp("a".to_string()),
    ];
    let (_, _, bc) = Assembler::new(vec![], vec![], code).assemble();
    assert_eq!(bc, vec![3, 19, 1, 0, 0, 0]);
}

#[test]
fn an_undefined_label_cannot_be_assembled() {
    let assembler = Assembler::new(vec![], vec![], vec![Instruction::Jz("x".to_string())]);
    assert!(!assembler.can_assemble());
    assert!(assembler.assemble_checked().is_none());
}

#[test]
fn extract_consts_and_pool_gives_them_back() {
    let assembler = Assembler::new(vec![1, 2], vec!["a".to_string()], vec![]);
    let (c, p) = assembler.extract_consts_and_pool();
    assert_eq!(c, &vec![1, 2]);
    assert_eq!(p, &vec!["a".to_string()]);
}

#[test]
fn instructions_have_sizes_and_texts() {
    assert_eq!(Instruction::Push(1, 5).size(), 4);
    assert_eq!(Instruction::Label("x".to_string()).size(), 0);
    assert_eq!(Instruction::Call("x".to_string()).size(), 5);
    assert_eq!(Instruction::Push(1, 5).text(), "push 1 5");
    assert_eq!(Instruction::Label("main".to_string()).text(), "label main");
    assert_eq!(Instruction::Ret(12).text(), "ret 12");
    assert_eq!(Instruction::Not.text(), "not");
    assert_eq!(get_inst_size(2), 4);
    assert_eq!(get_inst_size(22), 5);
    assert_eq!(get_inst_size(5), 1);
}

#[test]
fn fixed_width_instructions_take_six_bytes() {
    assert_eq!(assemble(&NoLabelInst::Mov(0x0102, 7, 0x0304)), [4, 2, 1, 7, 4, 3]);
    assert_eq!(assemble(&NoLabelInst::Jmp(0x01020304)), [16, 4, 3, 2, 1, 0]);
    assert_eq!(assemble(&NoLabelInst::Or), [13, 0, 0, 0, 0, 0]);
    assert_eq!(assemble(&NoLabelInst::Push(9, 0x0a0b)), [2, 9, 0x0b, 0x0a, 0, 0]);
    assert_eq!(assemble(&NoLabelInst::Fun(3)), [23, 3, 0, 0, 0, 0]);
}

#[test]
fn a_pushed_value_pops_back() {
    let mut stack = vec![7u8];
    push_value(&mut stack, &WrappedVal::Int(-5));
    assert_eq!(stack, vec![7, 0xfb, 0xff, 0xff, 0xff, 1]);
    assert_eq!(read_value(&stack, 0), Some(WrappedVal::Int(-5)));
    assert_eq!(pop_value(&mut stack), Some(WrappedVal::Int(-5)));
    assert_eq!(stack, vec![7]);
    assert_eq!(pop_value(&mut stack), None);
    assert_eq!(stack, vec![7]);
}

#[test]
fn arrays_index_push_and_pop() {
    let mut a = Array { data_type: Type::Int, data: vec![] };
    a.push_wrap(WrappedVal::Int(7));
    a.push_wrap(WrappedVal::Int(-1));
    assert_eq!(a.index(1), WrappedVal::Int(-1));
    assert_eq!(a.index(0), WrappedVal::Int(7));
    a.pop();
    assert_eq!(a.data.len(), 4);
    let mut b = Array { data_type: Type::Bool, data: vec![] };
    b.push_wrap(WrappedVal::Bool(true));
    assert_eq!(b.data, vec![1]);
    assert_eq!(b.index(0), WrappedVal::Bool(true));
    b.pop();
    b.pop();
    assert!(b.data.is_empty());
}

#[test]
fn builds_the_test_driver() {
    let code = "X".to_string();
    assert_eq!(
        driver_source(&code, &vec!["1".to_string(), "2".to_string()], &"3".to_string()),
        "Xfun main() -> int { if test(1, 2,) == 3 { return 0; } return 1; }"
    );
    assert_eq!(
        driver_source(&code, &vec![], &"3".to_string()),
        "Xfun main() -> int { if test() == 3 { return 0; } return 1; }"
    );
}

#[test]
fn tallies_test_runs() {
    let mut t = TestTally::new();
    t.record(Ok(Some(0)));
    t.record(Ok(Some(1)));
    t.record(Err(vec![CompileError::new(ErrorType::LexingError, 1, 1)]));
    t.record(Err(vec![CompileError::new(ErrorType::LexingError, 2, 2)]));
    t.record(Ok(None));
    let r = t.finish(6);
    assert!(!r.success);
    assert_eq!(r.correct, 1);
    assert_eq!(r.incorrect, 4);
    assert_eq!(r.errors.len(), 1);
    assert_eq!(r.errors[0].line, 1);
}

#[test]
fn repl_keeps_its_settings() {
    let r = Repl::new(true, false, true, false, true);
    assert!(r.lex_output && !r.ast_output && r.ir_output && !r.bytecode_text_output && r.execution);
}

#[test]
fn a_found_constant_reads_back_as_its_value() {
    let ast = main_returning(ExprAST::BinOp(
        Operator::Add,
        Box::new(ExprAST::Lit(Literal::Int(42))),
        Box::new(ExprAST::Lit(Literal::String("hi".to_string()))),
    ));
    let composer = CompilerComposer::new(ast);
    let (pool, consts) = composer.extract_pool_and_consts();
    let k = FuncCompiler::get_const(&consts, &pool, &Literal::Int(42)).unwrap();
    match read_const(&consts, k as usize) {
        ConstRead::Value(v) => assert_eq!(v, WrappedVal::Int(42)),
        _ => panic!("the constant does not read back"),
    }
    let k = FuncCompiler::get_const(&consts, &pool, &Literal::String("hi".to_string())).unwrap();
    match read_const(&consts, k as usize) {
        ConstRead::Value(WrappedVal::String(j)) => assert_eq!(pool[j as usize], "hi"),
        _ => panic!("the constant does not read back"),
    }
}

#[test]
fn indexing_after_a_push_gives_the_pushed_value() {
    let mut a = Array { data_type: Type::String, data: vec![] };
    a.push_wrap(WrappedVal::String(3));
    a.push_wrap(WrappedVal::String(700));
    a.push_wrap(WrappedVal::String(9));
    assert_eq!(a.index(2), WrappedVal::String(9));
    assert_eq!(a.index(1), WrappedVal::String(700));
    assert_eq!(a.index(0), WrappedVal::String(3));
}

#[test]
fn each_instruction_starts_after_the_ones_before_it() {
    let code = vec![
        Instruction::Push(1, 2),
        Instruction::Label("l".to_string()),
        Instruction::Add,
        Instruction::Jmp("l".to_string()),
    ];
    let (_, _, bc) = Assembler::new(vec![], vec![], code).assemble_checked().unwrap();
    assert_eq!(bc.len(), 4 + 1 + 5);
    assert_eq!(bc[0], 2);
    assert_eq!(bc[4], 5);
    assert_eq!(&bc[5..10], &[19, 4, 0, 0, 0]);
}

#[test]
fn equal_decimals_share_one_constant() {
    let ast = main_returning(ExprAST::BinOp(
        Operator::Add,
        Box::new(ExprAST::Lit(Literal::Dcml("1.0".parse::<f64>().unwrap().to_bits()))),
        Box::new(ExprAST::Lit(Literal::Dcml("1.00".parse::<f64>().unwrap().to_bits()))),
    ));
    let (pool, consts) = CompilerComposer::new(ast).extract_pool_and_consts();
    assert!(pool.is_empty());
    assert_eq!(consts.len(), 9);
    match read_const(&consts, 0) {
        ConstRead::Value(v) => assert_eq!(v, WrappedVal::Dcml(1.0f64.to_bits())),
        _ => panic!("the decimal does not read back"),
    }
}

#[test]
fn a_result_reports_its_verdict_and_counts() {
    let won = TestResult { success: true, errors: vec![], correct: 12, incorrect: 0 };
    assert_eq!(verdict_line(&won), "You Won!\n");
    assert_eq!(tally_line(&won), "Correct: 12 |#| Incorrect: 0");
    let lost = TestResult { success: false, errors: vec![], correct: 1, incorrect: 305 };
    assert_eq!(verdict_line(&lost), "You LOSE! LOL!\n");
    assert_eq!(tally_line(&lost), "Correct: 1 |#| Incorrect: 305");
}
