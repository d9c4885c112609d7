use prism::decimals::decimal_texts;
use prism::errors::{CompileError, ErrorType};
use prism::lexer::LexEngine;
use prism::strmap::StrMap;
use prism::vm::{FloatAnswer, FloatCmp, FloatOp, FloatRequest, ProgState, VM};

/// Compiles with the decimal literals read by the host's `f64`.
fn run_code(src: String) -> Option<Result<VM, Vec<CompileError>>> {
    let mut table = StrMap::new();
    if let Some(Ok(toks)) = LexEngine::new(src.clone()).lex_all() {
        for text in decimal_texts(&toks) {
            let v: f64 = text.parse().unwrap();
            table.insert(text, v.to_bits());
        }
    }
    prism::run::run_code(src, &table)
}

fn answer(req: FloatRequest) -> FloatAnswer {
    match req {
        FloatRequest::Arith(op, a, b) => {
            let (x, y) = (f64::from_bits(a), f64::from_bits(b));
            FloatAnswer::Bits(
                match op {
                    FloatOp::Add => x + y,
                    FloatOp::Sub => x - y,
                    FloatOp::Mul => x * y,
                    FloatOp::Div => x / y,
                }
                .to_bits(),
            )
        }
        FloatRequest::Compare(c, a, b) => {
            let (x, y) = (f64::from_bits(a), f64::from_bits(b));
            FloatAnswer::Truth(match c {
                FloatCmp::Eq => x == y,
                FloatCmp::Less => x < y,
                FloatCmp::LEq => x <= y,
                FloatCmp::Greater => x > y,
                FloatCmp::GEq => x >= y,
            })
        }
    }
}

fn run(src: &str) -> ProgState {
    let mut vm = match run_code(src.to_string()) {
        Some(Ok(vm)) => vm,
        _ => panic!("did not compile"),
    };
    for _ in 0..1000 {
        match vm.execute_order_66(1000) {
            ProgState::NeedsFloat(req) => {
                let ans = answer(req);
                match vm.eval_inst(Some(ans)) {
                    ProgState::Running => {}
                    other => return other,
                }
            }
            ProgState::Running => {}
            other => return other,
        }
    }
    ProgState::Running
}

#[test]
fn adds_two_constants() {
    assert_eq!(run("fun main() -> int { return 1 + 2; }"), ProgState::Halt(3));
}

#[test]
fn calls_another_function() {
    assert_eq!(
        run("fun two(int x) -> int { return 2; } fun main() -> int { return two(5) + 1; }"),
        ProgState::Halt(3)
    );
}

#[test]
fn takes_the_true_branch() {
    assert_eq!(
        run("fun main() -> int { if 1 < 2 { return 10; } return 20; }"),
        ProgState::Halt(10)
    );
}

#[test]
fn skips_a_false_branch() {
    assert_eq!(
        run("fun main() -> int { if 2 < 1 { return 10; } return 20; }"),
        ProgState::Halt(20)
    );
}

#[test]
fn skips_a_loop_on_false() {
    assert_eq!(run("fun main() -> int { while false { } return 7; }"), ProgState::Halt(7));
}

#[test]
fn compares_decimals_through_the_host() {
    assert_eq!(
        run("fun main() -> int { if 1.5 < 2.5 { return 1; } return 0; }"),
        ProgState::Halt(1)
    );
}

#[test]
fn multiplies_and_takes_remainders() {
    assert_eq!(run("fun main() -> int { return 7 * 6 % 5; }"), ProgState::Halt(2));
}

#[test]
fn division_by_zero_faults() {
    assert_eq!(run("fun main() -> int { return 1 / 0; }"), ProgState::Fault);
}

#[test]
fn a_call_without_arguments_does_not_parse() {
    assert!(matches!(
        run_code("fun two() -> int { return 2; } fun main() -> int { return two() + 1; }".to_string()),
        Some(Err(_))
    ));
}

#[test]
fn reports_a_missing_main() {
    match run_code("fun f() -> int { return 1; }".to_string()) {
        Some(Err(v)) => {
            assert_eq!(v.len(), 1);
            assert_eq!(v[0].e_type, ErrorType::ParsingError("No main func bro".to_string()));
            assert_eq!((v[0].line, v[0].col), (0, 0));
        }
        _ => panic!("expected an error"),
    }
}

#[test]
fn reports_a_function_that_might_not_return() {
    match run_code("fun main() -> int { int x = 1; }".to_string()) {
        Some(Err(v)) => {
            assert_eq!(v.len(), 1);
            assert_eq!(
                v[0].e_type,
                ErrorType::ControlFlowError("The function 'main' might not return".to_string())
            );
        }
        _ => panic!("expected an error"),
    }
}

#[test]
fn reports_a_type_error() {
    match run_code("fun main() -> int { return 1 + true; }".to_string()) {
        Some(Err(v)) => {
            assert_eq!(v.len(), 1);
            assert_eq!(
                v[0].e_type,
                ErrorType::TypeError(
                    "Cannot use binary operator 'Add' on values of type 'Int' and 'Bool'"
                        .to_string()
                )
            );
        }
        _ => panic!("expected an error"),
    }
}

#[test]
fn reports_a_lexing_error() {
    match run_code("fun main() -> int { return @; }".to_string()) {
        Some(Err(v)) => {
            assert_eq!(v.len(), 1);
            assert_eq!(v[0].e_type, ErrorType::LexingError);
        }
        _ => panic!("expected an error"),
    }
}

#[test]
fn an_undeclared_variable_has_no_answer() {
    assert!(run_code("fun main() -> int { return y; }".to_string()).is_none());
}

#[test]
fn an_oversized_integer_has_no_answer() {
    assert!(run_code("fun main() -> int { return 99999999999; }".to_string()).is_none());
}

#[test]
fn running_in_two_parts_is_running_once() {
    let mut a = match run_code("fun main() -> int { return 1 + 2; }".to_string()) {
        Some(Ok(vm)) => vm,
        _ => panic!(),
    };
    let mut b = match run_code("fun main() -> int { return 1 + 2; }".to_string()) {
        Some(Ok(vm)) => vm,
        _ => panic!(),
    };
    assert_eq!(a.execute_order_66(2), ProgState::Running);
    assert_eq!(a.execute_order_66(100), ProgState::Halt(3));
    assert_eq!(b.execute_order_66(102), ProgState::Halt(3));
}

#[test]
fn a_faulting_step_leaves_the_machine_as_it_was() {
    let mut vm = match run_code("fun main() -> int { return 1 / 0; }".to_string()) {
        Some(Ok(vm)) => vm,
        _ => panic!(),
    };
    loop {
        let ip = vm.instruction_pointer();
        let stack = vm.stack_bytes().clone();
        match vm.eval_inst(None) {
            ProgState::Running => {}
            ProgState::Fault => {
                assert_eq!(vm.instruction_pointer(), ip);
                assert_eq!(vm.stack_bytes(), &stack);
                break;
            }
            other => panic!("unexpected {:?}", other),
        }
    }
}

#[test]
fn the_stack_reads_bottom_first() {
    let mut vm = match run_code("fun main() -> int { return 1 + 2; }".to_string()) {
        Some(Ok(vm)) => vm,
        _ => panic!(),
    };
    assert_eq!(vm.execute_order_66(3), ProgState::Running);
    assert_eq!(
        vm.get_entire_stack_wrapped(),
        Some(vec![prism::wrapped_val::WrappedVal::Int(1), prism::wrapped_val::WrappedVal::Int(2)])
    );
}

#[test]
fn a_checked_program_with_loops_branches_and_calls_compiles() {
    let src = "fun inc(int a) -> int { return a + 1; } \
               fun main() -> int { int x = 3; while x < 3 { int y = x; } \
               if x == 3 { return inc(x); } return 0; }";
    match run_code(src.to_string()) {
        Some(Ok(vm)) => {
            assert_eq!(vm.instruction_pointer(), 0);
            assert!(vm.stack_bytes().is_empty());
        }
        Some(Err(e)) => panic!("unexpected errors: {:?}", e),
        None => panic!("compilation got stuck"),
    }
}

#[test]
fn a_declared_variable_reads_back() {
    assert_eq!(run("fun main() -> int { int x = 5; return x + 1; }"), ProgState::Halt(6));
}

#[test]
fn two_declared_variables_read_back() {
    assert_eq!(
        run("fun main() -> int { int x = 5; int y = 7; return y - x; }"),
        ProgState::Halt(2)
    );
}

#[test]
fn decimals_written_two_ways_compare_equal() {
    assert_eq!(
        run("fun main() -> int { if 1.0 == 1.00 { return 1; } return 0; }"),
        ProgState::Halt(1)
    );
}

#[test]
fn a_decimal_constant_is_pushed_as_its_value() {
    let bits = 2.5f64.to_bits();
    let mut consts = vec![2u8];
    consts.extend_from_slice(&bits.to_le_bytes());
    let mut vm = VM::new(vec![], consts, vec![2, 1, 0, 0]);
    assert_eq!(vm.eval_inst(None), ProgState::Running);
    assert_eq!(vm.instruction_pointer(), 4);
    assert_eq!(
        vm.get_entire_stack_wrapped().unwrap(),
        vec![prism::wrapped_val::WrappedVal::Dcml(bits)]
    );
}

#[test]
fn a_decimal_without_bits_leaves_compilation_stuck() {
    let table = StrMap::new();
    assert!(prism::run::run_code("fun main() -> dcml { return 1.5; }".to_string(), &table).is_none());
}
