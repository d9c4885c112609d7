//! The byte-code virtual machine.
//!
//! The machine's stack is a byte vector: each value is its little-endian
//! payload followed by a tag byte. The machine computes with integers,
//! booleans, string indices and return addresses itself; every computation on
//! decimals (reading a decimal constant, arithmetic, comparison) is handed to
//! the caller as a [`FloatRequest`] and finished with the caller's
//! [`FloatAnswer`].
use vstd::prelude::*;
use crate::bytes::{u16_at, u32_at, u32_bytes, i32_at, read_u16, read_u32, read_u64, u64_at, read_i32, push_u32, lemma_u32_roundtrip};
use crate::tokens::{spec_type_size};
use crate::wrapped_val::{lemma_push_pop, 
    WrappedVal, INT_NUM, DCML_NUM, BOOL_NUM, STRING_NUM, CALLSTACK_NUM, encode, value_at,
    value_with_tag_at, pop_top, spec_type_enum, tag_size, read_value, push_value, pop_value,
    lemma_encode_len,
};

verus! {

pub const RET_NUM: u8 = 1;
pub const PUSH_NUM: u8 = 2;
pub const POP_NUM: u8 = 3;
pub const MOV_NUM: u8 = 4;
pub const ADD_NUM: u8 = 5;
pub const SUB_NUM: u8 = 6;
pub const MUL_NUM: u8 = 7;
pub const DIV_NUM: u8 = 8;
pub const MOD_NUM: u8 = 9;
pub const AND_NUM: u8 = 10;
pub const OR_NUM: u8 = 11;
pub const NOT_NUM: u8 = 12;
pub const XOR_NUM: u8 = 13;
pub const EQ_NUM: u8 = 14;
pub const L_NUM: u8 = 15;
pub const LE_NUM: u8 = 16;
pub const G_NUM: u8 = 17;
pub const GE_NUM: u8 = 18;
pub const JMP_NUM: u8 = 19;
pub const JZ_NUM: u8 = 20;
pub const JNZ_NUM: u8 = 21;
pub const CALL_NUM: u8 = 22;
pub const FUN_NUM: u8 = 23;

/// `push` reads from the stack (an offset below the top) or from the
/// constant pool (a byte index).
pub const PUSH_FROM_STACK: u8 = 0;
pub const PUSH_FROM_CONSTS: u8 = 1;

/// Length in bytes of an instruction, opcode included; `None` for a byte
/// that is no opcode.
pub open spec fn inst_size(op: u8) -> Option<nat> {
    if op == RET_NUM || op == MOV_NUM || op == FUN_NUM {
        Some(3)
    } else if op == PUSH_NUM {
        Some(4)
    } else if op == JMP_NUM || op == JZ_NUM || op == JNZ_NUM || op == CALL_NUM {
        Some(5)
    } else if POP_NUM <= op <= GE_NUM {
        Some(1)
    } else {
        None
    }
}

/// Length in bytes of the instruction with the given opcode.
pub fn get_inst_size(instruction_num: u8) -> (r: usize)
    requires
        inst_size(instruction_num) is Some,
    ensures
        r == inst_size(instruction_num).unwrap(),
{
    if instruction_num == RET_NUM || instruction_num == MOV_NUM || instruction_num == FUN_NUM {
        3
    } else if instruction_num == PUSH_NUM {
        4
    } else if instruction_num == JMP_NUM || instruction_num == JZ_NUM || instruction_num
        == JNZ_NUM || instruction_num == CALL_NUM {
        5
    } else {
        1
    }
}

/// Decimal arithmetic the machine asks for.
#[derive(Clone, Copy, Debug, PartialEq, Eq, Structural)]
pub enum FloatOp {
    Add,
    Sub,
    Mul,
    Div,
}

/// Decimal comparisons the machine asks for.
#[derive(Clone, Copy, Debug, PartialEq, Eq, Structural)]
pub enum FloatCmp {
    Eq,
    Less,
    LEq,
    Greater,
    GEq,
}

/// Work on decimals that the machine hands to its caller. Decimals are the
/// bit patterns of IEEE-754 doubles.
#[derive(Clone, Copy, Debug, PartialEq, Eq, Structural)]
pub enum FloatRequest {
    /// The result of an operation on two decimals.
    Arith(FloatOp, u64, u64),
    /// The truth of a comparison of two decimals.
    Compare(FloatCmp, u64, u64),
}

/// The caller's answer to a [`FloatRequest`].
#[derive(Clone, Copy, Debug, PartialEq, Eq, Structural)]
pub enum FloatAnswer {
    Bits(u64),
    Truth(bool),
}

/// What one step of the machine leads to.
#[derive(Clone, Copy, Debug, PartialEq, Eq, Structural)]
pub enum ProgState {
    /// The program returned from its entry function with this integer.
    Halt(i32),
    /// The step was taken; the program goes on.
    Running,
    /// The step needs work on decimals; the machine is unchanged.
    NeedsFloat(FloatRequest),
    /// The byte code or the stack does not allow the step (a malformed
    /// instruction, a value of the wrong type, an integer overflow or a
    /// division by zero); the machine is unchanged.
    Fault,
}

/// The result of a binary operation on two values.
pub enum BinOutcome {
    Value(WrappedVal),
    Need(FloatRequest),
    Fault,
}

pub open spec fn float_result(req: FloatRequest, ans: Option<FloatAnswer>) -> BinOutcome {
    match ans {
        None => BinOutcome::Need(req),
        Some(FloatAnswer::Bits(x)) => match req {
            FloatRequest::Compare(_, _, _) => BinOutcome::Fault,
            _ => BinOutcome::Value(WrappedVal::Dcml(x)),
        },
        Some(FloatAnswer::Truth(b)) => match req {
            FloatRequest::Compare(_, _, _) => BinOutcome::Value(WrappedVal::Bool(b)),
            _ => BinOutcome::Fault,
        },
    }
}

pub open spec fn int_arith(code: u8, a: i32, b: i32) -> Option<i32> {
    if code == ADD_NUM {
        a.checked_add(b)
    } else if code == SUB_NUM {
        a.checked_sub(b)
    } else if code == MUL_NUM {
        a.checked_mul(b)
    } else if code == DIV_NUM {
        a.checked_div(b)
    } else {
        a.checked_rem(b)
    }
}

pub open spec fn float_op_of(code: u8) -> FloatOp {
    if code == ADD_NUM {
        FloatOp::Add
    } else if code == SUB_NUM {
        FloatOp::Sub
    } else if code == MUL_NUM {
        FloatOp::Mul
    } else {
        FloatOp::Div
    }
}

pub open spec fn int_cmp(code: u8, a: i32, b: i32) -> bool {
    if code == L_NUM {
        a < b
    } else if code == LE_NUM {
        a <= b
    } else if code == G_NUM {
        a > b
    } else {
        a >= b
    }
}

pub open spec fn float_cmp_of(code: u8) -> FloatCmp {
    if code == L_NUM {
        FloatCmp::Less
    } else if code == LE_NUM {
        FloatCmp::LEq
    } else if code == G_NUM {
        FloatCmp::Greater
    } else {
        FloatCmp::GEq
    }
}

pub open spec fn is_binop(code: u8) -> bool {
    (ADD_NUM <= code <= GE_NUM) && code != NOT_NUM
}

/// The result of the binary instruction `code` on `l` (the deeper operand)
/// and `r` (the top of the stack).
pub open spec fn binop_result(
    code: u8,
    l: WrappedVal,
    r: WrappedVal,
    ans: Option<FloatAnswer>,
) -> BinOutcome {
    if code == ADD_NUM || code == SUB_NUM || code == MUL_NUM || code == DIV_NUM {
        match (l, r) {
            (WrappedVal::Int(a), WrappedVal::Int(b)) => match int_arith(code, a, b) {
                Some(x) => BinOutcome::Value(WrappedVal::Int(x)),
                None => BinOutcome::Fault,
            },
            (WrappedVal::Dcml(a), WrappedVal::Dcml(b)) => float_result(
                FloatRequest::Arith(float_op_of(code), a, b),
                ans,
            ),
            _ => BinOutcome::Fault,
        }
    } else if code == MOD_NUM {
        match (l, r) {
            (WrappedVal::Int(a), WrappedVal::Int(b)) => match int_arith(code, a, b) {
                Some(x) => BinOutcome::Value(WrappedVal::Int(x)),
                None => BinOutcome::Fault,
            },
            _ => BinOutcome::Fault,
        }
    } else if code == AND_NUM || code == OR_NUM || code == XOR_NUM {
        match (l, r) {
            (WrappedVal::Int(a), WrappedVal::Int(b)) => BinOutcome::Value(
                WrappedVal::Int(
                    if code == AND_NUM {
                        a & b
                    } else if code == OR_NUM {
                        a | b
                    } else {
                        a ^ b
                    },
                ),
            ),
            (WrappedVal::Bool(a), WrappedVal::Bool(b)) => BinOutcome::Value(
                WrappedVal::Bool(
                    if code == AND_NUM {
                        a && b
                    } else if code == OR_NUM {
                        a || b
                    } else {
                        a != b
                    },
                ),
            ),
            _ => BinOutcome::Fault,
        }
    } else if code == EQ_NUM {
        match (l, r) {
            (WrappedVal::Dcml(a), WrappedVal::Dcml(b)) => float_result(
                FloatRequest::Compare(FloatCmp::Eq, a, b),
                ans,
            ),
            _ => BinOutcome::Value(WrappedVal::Bool(l == r)),
        }
    } else if code == L_NUM || code == LE_NUM || code == G_NUM || code == GE_NUM {
        match (l, r) {
            (WrappedVal::Int(a), WrappedVal::Int(b)) => BinOutcome::Value(
                WrappedVal::Bool(int_cmp(code, a, b)),
            ),
            (WrappedVal::Dcml(a), WrappedVal::Dcml(b)) => float_result(
                FloatRequest::Compare(float_cmp_of(code), a, b),
                ans,
            ),
            _ => BinOutcome::Fault,
        }
    } else {
        BinOutcome::Fault
    }
}

fn float_result_exec(req: FloatRequest, ans: Option<FloatAnswer>) -> (r: BinOutcome)
    ensures
        r == float_result(req, ans),
{
    match ans {
        None => BinOutcome::Need(req),
        Some(FloatAnswer::Bits(x)) => match req {
            FloatRequest::Compare(_, _, _) => BinOutcome::Fault,
            _ => BinOutcome::Value(WrappedVal::Dcml(x)),
        },
        Some(FloatAnswer::Truth(b)) => match req {
            FloatRequest::Compare(_, _, _) => BinOutcome::Value(WrappedVal::Bool(b)),
            _ => BinOutcome::Fault,
        },
    }
}

fn int_arith_exec(code: u8, a: i32, b: i32) -> (r: Option<i32>)
    ensures
        r == int_arith(code, a, b),
{
    if code == ADD_NUM {
        a.checked_add(b)
    } else if code == SUB_NUM {
        a.checked_sub(b)
    } else if code == MUL_NUM {
        a.checked_mul(b)
    } else if code == DIV_NUM {
        a.checked_div(b)
    } else {
        a.checked_rem(b)
    }
}

/// Computes a binary instruction on two values.
pub fn binop(code: u8, l: WrappedVal, r: WrappedVal, ans: Option<FloatAnswer>) -> (res:
    BinOutcome)
    ensures
        res == binop_result(code, l, r, ans),
{
    if code == ADD_NUM || code == SUB_NUM || code == MUL_NUM || code == DIV_NUM {
        match (l, r) {
            (WrappedVal::Int(a), WrappedVal::Int(b)) => match int_arith_exec(code, a, b) {
                Some(x) => BinOutcome::Value(WrappedVal::Int(x)),
                None => BinOutcome::Fault,
            },
            (WrappedVal::Dcml(a), WrappedVal::Dcml(b)) => {
                let op = if code == ADD_NUM {
                    FloatOp::Add
                } else if code == SUB_NUM {
                    FloatOp::Sub
                } else if code == MUL_NUM {
                    FloatOp::Mul
                } else {
                    FloatOp::Div
                };
                float_result_exec(FloatRequest::Arith(op, a, b), ans)
            },
            _ => BinOutcome::Fault,
        }
    } else if code == MOD_NUM {
        match (l, r) {
            (WrappedVal::Int(a), WrappedVal::Int(b)) => match int_arith_exec(code, a, b) {
                Some(x) => BinOutcome::Value(WrappedVal::Int(x)),
                None => BinOutcome::Fault,
            },
            _ => BinOutcome::Fault,
        }
    } else if code == AND_NUM || code == OR_NUM || code == XOR_NUM {
        match (l, r) {
            (WrappedVal::Int(a), WrappedVal::Int(b)) => BinOutcome::Value(
                WrappedVal::Int(
                    if code == AND_NUM {
                        a & b
                    } else if code == OR_NUM {
                        a | b
                    } else {
                        a ^ b
                    },
                ),
            ),
            (WrappedVal::Bool(a), WrappedVal::Bool(b)) => BinOutcome::Value(
                WrappedVal::Bool(
                    if code == AND_NUM {
                        a && b
                    } else if code == OR_NUM {
                        a || b
                    } else {
                        a != b
                    },
                ),
            ),
            _ => BinOutcome::Fault,
        }
    } else if code == EQ_NUM {
        match (l, r) {
            (WrappedVal::Dcml(a), WrappedVal::Dcml(b)) => float_result_exec(
                FloatRequest::Compare(FloatCmp::Eq, a, b),
                ans,
            ),
            _ => BinOutcome::Value(WrappedVal::Bool(l == r)),
        }
    } else if code == L_NUM || code == LE_NUM || code == G_NUM || code == GE_NUM {
        match (l, r) {
            (WrappedVal::Int(a), WrappedVal::Int(b)) => BinOutcome::Value(
                WrappedVal::Bool(
                    if code == L_NUM {
                        a < b
                    } else if code == LE_NUM {
                        a <= b
                    } else if code == G_NUM {
                        a > b
                    } else {
                        a >= b
                    },
                ),
            ),
            (WrappedVal::Dcml(a), WrappedVal::Dcml(b)) => {
                let c = if code == L_NUM {
                    FloatCmp::Less
                } else if code == LE_NUM {
                    FloatCmp::LEq
                } else if code == G_NUM {
                    FloatCmp::Greater
                } else {
                    FloatCmp::GEq
                };
                float_result_exec(FloatRequest::Compare(c, a, b), ans)
            },
            _ => BinOutcome::Fault,
        }
    } else {
        BinOutcome::Fault
    }
}

} // verus!

verus! {

/// What reading the constant pool at a byte index gives: a value, or
/// nothing readable.
pub enum ConstRead {
    Value(WrappedVal),
    Bad,
}

/// The constant at byte index `idx`: a tag byte, then the payload
/// (4 bytes for an integer, 8 for the bits of a decimal, 1 for a boolean, a
/// 2-byte string-pool index for a string).
pub open spec fn const_at(consts: Seq<u8>, idx: int) -> ConstRead {
    if idx < 0 || idx >= consts.len() {
        ConstRead::Bad
    } else {
        let tag = consts[idx];
        if tag == INT_NUM && idx + 5 <= consts.len() {
            ConstRead::Value(WrappedVal::Int(i32_at(consts, idx + 1)))
        } else if tag == BOOL_NUM && idx + 2 <= consts.len() {
            ConstRead::Value(WrappedVal::Bool(consts[idx + 1] != 0))
        } else if tag == STRING_NUM && idx + 3 <= consts.len() {
            ConstRead::Value(WrappedVal::String(u16_at(consts, idx + 1)))
        } else if tag == DCML_NUM && idx + 9 <= consts.len() {
            ConstRead::Value(WrappedVal::Dcml(u64_at(consts, idx + 1)))
        } else {
            ConstRead::Bad
        }
    }
}

/// Copies `k` bytes from index `src` to index `dst`, one byte at a time in
/// increasing order.
pub open spec fn copy_bytes(s: Seq<u8>, src: int, dst: int, k: nat) -> Seq<u8>
    decreases k,
{
    if k == 0 {
        s
    } else {
        let s1 = copy_bytes(s, src, dst, (k - 1) as nat);
        s1.update(dst + k - 1, s1[src + k - 1])
    }
}

/// The effect of `mov offset`: the payload of the top value is written over
/// the variable whose tag lies `offset` bytes below the top; both must have
/// the same tag. For integers, strings and decimals the bytes moved are
/// those that start one byte below each payload.
pub open spec fn mov_result(stack: Seq<u8>, off: int) -> Option<Seq<u8>> {
    let len = stack.len() as int;
    if len == 0 || off > len - 1 {
        None
    } else {
        let vp = len - 1 - off;
        let np = len - 1;
        let tag = stack[vp];
        if tag != stack[np] {
            None
        } else if tag == INT_NUM {
            if np < 5 || vp < 5 {
                None
            } else {
                Some(copy_bytes(stack, np - 5, vp - 5, 4))
            }
        } else if tag == DCML_NUM {
            if np < 9 || vp < 9 {
                None
            } else {
                Some(copy_bytes(stack, np - 9, vp - 9, 8))
            }
        } else if tag == BOOL_NUM {
            if np < 2 || vp < 2 {
                None
            } else {
                Some(stack.update(vp - 2, stack[np - 2]))
            }
        } else if tag == STRING_NUM {
            if np < 3 || vp < 3 {
                None
            } else {
                Some(copy_bytes(stack, np - 3, vp - 3, 2))
            }
        } else {
            None
        }
    }
}

/// Bytes taken by the top `k` values of the stack.
pub open spec fn args_span(s: Seq<u8>, k: nat) -> Option<nat>
    decreases k,
{
    if k == 0 {
        Some(0)
    } else {
        match pop_top(s) {
            None => None,
            Some((v, rest)) => match args_span(rest, (k - 1) as nat) {
                Some(w) => Some(w + spec_type_size(spec_type_enum(v))),
                None => None,
            },
        }
    }
}

/// One step of the machine: from the instruction pointer and the stack, the
/// next instruction pointer, the next stack and what the step leads to.
/// `ans` answers the decimal work that the step asks for, if any.
pub open spec fn step_spec(
    inst: Seq<u8>,
    consts: Seq<u8>,
    npool: nat,
    ip: usize,
    stack: Seq<u8>,
    ans: Option<FloatAnswer>,
) -> (usize, Seq<u8>, ProgState) {
    let fault = (ip, stack, ProgState::Fault);
    if ip >= inst.len() {
        fault
    } else {
        let op = inst[ip as int];
        match inst_size(op) {
            None => fault,
            Some(sz) => if ip + sz > usize::MAX {
                fault
            } else {
                let next = (ip + sz) as usize;
                let st = ip + 1;
                if op == RET_NUM {
                    if st + 2 > inst.len() {
                        fault
                    } else {
                        let how = u16_at(inst, st);
                        match pop_top(stack) {
                            None => fault,
                            Some((v, s1)) => {
                                let vs = spec_type_size(spec_type_enum(v));
                                if how < vs {
                                    fault
                                } else {
                                    let n = how - vs;
                                    let s2 = if n <= s1.len() {
                                        s1.take(s1.len() - n)
                                    } else {
                                        Seq::<u8>::empty()
                                    };
                                    if s2.len() > 0 && s2.last() == CALLSTACK_NUM {
                                        if s2.len() < 5 {
                                            fault
                                        } else {
                                            (
                                                u32_at(s2, s2.len() - 5) as usize,
                                                s2.take(s2.len() - 5) + encode(v),
                                                ProgState::Running,
                                            )
                                        }
                                    } else {
                                        match v {
                                            WrappedVal::Int(x) => (next, s2, ProgState::Halt(x)),
                                            _ => fault,
                                        }
                                    }
                                }
                            },
                        }
                    }
                } else if op == PUSH_NUM {
                    if st + 3 > inst.len() {
                        fault
                    } else {
                        let mode = inst[st];
                        let arg = u16_at(inst, st + 1);
                        if mode == PUSH_FROM_STACK {
                            match value_at(stack, arg as int) {
                                Some(v) => (next, stack + encode(v), ProgState::Running),
                                None => fault,
                            }
                        } else if mode == PUSH_FROM_CONSTS {
                            match const_at(consts, arg as int) {
                                ConstRead::Value(v) => (
                                    next,
                                    stack + encode(v),
                                    ProgState::Running,
                                ),
                                ConstRead::Bad => fault,
                            }
                        } else {
                            fault
                        }
                    }
                } else if op == POP_NUM {
                    if stack.len() == 0 {
                        fault
                    } else {
                        match tag_size(stack.last()) {
                            None => fault,
                            Some(ts) => (
                                next,
                                if ts <= stack.len() {
                                    stack.take(stack.len() - ts)
                                } else {
                                    Seq::<u8>::empty()
                                },
                                ProgState::Running,
                            ),
                        }
                    }
                } else if op == MOV_NUM {
                    if st + 2 > inst.len() {
                        fault
                    } else {
                        match mov_result(stack, u16_at(inst, st) as int) {
                            Some(s) => (next, s, ProgState::Running),
                            None => fault,
                        }
                    }
                } else if is_binop(op) {
                    match pop_top(stack) {
                        None => fault,
                        Some((r, s1)) => match pop_top(s1) {
                            None => fault,
                            Some((l, s2)) => match binop_result(op, l, r, ans) {
                                BinOutcome::Value(x) => (next, s2 + encode(x), ProgState::Running),
                                BinOutcome::Need(req) => (ip, stack, ProgState::NeedsFloat(req)),
                                BinOutcome::Fault => fault,
                            },
                        },
                    }
                } else if op == JMP_NUM {
                    if st + 4 > inst.len() {
                        fault
                    } else {
                        (u32_at(inst, st) as usize, stack, ProgState::Running)
                    }
                } else if op == JZ_NUM || op == JNZ_NUM {
                    match pop_top(stack) {
                        None => fault,
                        Some((v, s1)) => {
                            let taken = if op == JZ_NUM {
                                v == WrappedVal::Bool(true)
                            } else {
                                v == WrappedVal::Bool(false)
                            };
                            if !taken {
                                (next, s1, ProgState::Running)
                            } else if st + 4 > inst.len() {
                                fault
                            } else {
                                (u32_at(inst, st) as usize, s1, ProgState::Running)
                            }
                        },
                    }
                } else if op == CALL_NUM {
                    if st + 4 > inst.len() {
                        fault
                    } else {
                        (
                            u32_at(inst, st) as usize,
                            stack + encode(WrappedVal::CallStack(next as u32)),
                            ProgState::Running,
                        )
                    }
                } else if op == FUN_NUM {
                    if stack.len() == 0 {
                        (next, stack, ProgState::Running)
                    } else {
                        match pop_top(stack) {
                            None => fault,
                            Some((cs, s1)) => if st + 2 > inst.len() {
                                fault
                            } else {
                                match args_span(s1, u16_at(inst, st) as nat) {
                                    None => fault,
                                    Some(w) => (
                                        next,
                                        s1.take(s1.len() - w) + encode(cs) + s1.skip(
                                            s1.len() - w,
                                        ),
                                        ProgState::Running,
                                    ),
                                }
                            },
                        }
                    }
                } else {
                    fault
                }
            },
        }
    }
}

/// Runs up to `fuel` steps without answers to decimal work: stops at the
/// first step that does not lead to `Running`.
pub open spec fn run_spec(
    inst: Seq<u8>,
    consts: Seq<u8>,
    npool: nat,
    ip: usize,
    stack: Seq<u8>,
    fuel: nat,
) -> (usize, Seq<u8>, ProgState)
    decreases fuel,
{
    if fuel == 0 {
        (ip, stack, ProgState::Running)
    } else {
        let (ip1, s1, o) = step_spec(inst, consts, npool, ip, stack, None);
        if o == ProgState::Running {
            run_spec(inst, consts, npool, ip1, s1, (fuel - 1) as nat)
        } else {
            (ip1, s1, o)
        }
    }
}

/// Reading below a prefix's end does not depend on what follows it.
/// Size in bytes, tag included, of a value with this tag; 0 for a byte that
/// is no tag.
fn tag_size_exec(tag: u8) -> (r: usize)
    ensures
        match tag_size(tag) {
            Some(n) => r == n,
            None => r == 0,
        },
{
    if tag == INT_NUM {
        5
    } else if tag == DCML_NUM {
        9
    } else if tag == BOOL_NUM {
        2
    } else if tag == STRING_NUM {
        3
    } else if tag == CALLSTACK_NUM {
        5
    } else {
        0
    }
}

/// Reads the constant pool at byte index `idx`.
pub fn read_const(consts: &Vec<u8>, idx: usize) -> (r: ConstRead)
    ensures
        r == const_at(consts@, idx as int),
{
    let len = consts.len();
    if idx >= len {
        return ConstRead::Bad;
    }
    let tag = consts[idx];
    if tag == INT_NUM && len - idx >= 5 {
        ConstRead::Value(WrappedVal::Int(read_i32(consts, idx + 1)))
    } else if tag == BOOL_NUM && len - idx >= 2 {
        ConstRead::Value(WrappedVal::Bool(consts[idx + 1] != 0))
    } else if tag == STRING_NUM && len - idx >= 3 {
        ConstRead::Value(WrappedVal::String(read_u16(consts, idx + 1)))
    } else if tag == DCML_NUM && len - idx >= 9 {
        ConstRead::Value(WrappedVal::Dcml(read_u64(consts, idx + 1)))
    } else {
        ConstRead::Bad
    }
}

pub proof fn lemma_value_prefix(s: Seq<u8>, m: int, t: int)
    requires
        0 <= t < m <= s.len(),
    ensures
        value_with_tag_at(s, t) == value_with_tag_at(s.take(m), t),
{
    let p = s.take(m);
    if t >= 8 {
        assert(p.subrange(t - 8, t) =~= s.subrange(t - 8, t));
    }
}

} // verus!

verus! {

/// The machine: its instruction pointer, constant pool, byte code, stack and
/// string pool.
pub struct VM {
    ip: usize,
    consts: Vec<u8>,
    inst: Vec<u8>,
    stack: Vec<u8>,
    pool: Vec<String>,
}

impl VM {
    pub closed spec fn ip_view(&self) -> usize {
        self.ip
    }

    pub closed spec fn stack_view(&self) -> Seq<u8> {
        self.stack@
    }

    pub closed spec fn inst_view(&self) -> Seq<u8> {
        self.inst@
    }

    pub closed spec fn consts_view(&self) -> Seq<u8> {
        self.consts@
    }

    pub closed spec fn pool_view(&self) -> Seq<Seq<char>> {
        self.pool@.map_values(|s: String| s@)
    }

    pub open spec fn npool(&self) -> nat {
        self.pool_view().len()
    }

    /// The byte code, the constant pool, the stack and the string pool each
    /// hold at most `usize::MAX` items.
    pub proof fn lemma_views_fit(&self)
        ensures
            self.inst_view().len() <= usize::MAX,
            self.consts_view().len() <= usize::MAX,
            self.stack_view().len() <= usize::MAX,
            self.npool() <= usize::MAX,
    {
        assert(self.inst@.len() == self.inst.len());
        assert(self.consts@.len() == self.consts.len());
        assert(self.stack@.len() == self.stack.len());
        assert(self.pool@.len() == self.pool.len());
    }

    /// The program (byte code, constants and string pool) of two machines is
    /// the same.
    pub open spec fn same_program(&self, other: &VM) -> bool {
        &&& self.inst_view() == other.inst_view()
        &&& self.consts_view() == other.consts_view()
        &&& self.pool_view() == other.pool_view()
    }

    /// The step this machine takes with the given answer to decimal work.
    pub open spec fn next_step(&self, ans: Option<FloatAnswer>) -> (usize, Seq<u8>, ProgState) {
        step_spec(
            self.inst_view(),
            self.consts_view(),
            self.npool(),
            self.ip_view(),
            self.stack_view(),
            ans,
        )
    }

    /// A machine at the start of the byte code with an empty stack.
    pub fn new(pool: Vec<String>, consts: Vec<u8>, inst: Vec<u8>) -> (r: Self)
        ensures
            r.ip_view() == 0,
            r.stack_view() == Seq::<u8>::empty(),
            r.inst_view() == inst@,
            r.consts_view() == consts@,
            r.pool_view() == pool@.map_values(|s: String| s@),
    {
        VM { ip: 0, consts, inst, pool, stack: Vec::new() }
    }

    /// The text of the string pool's entry `i`.
    pub fn pool_entry(&self, i: u16) -> (r: Option<&String>)
        ensures
            (i as int) < self.npool() ==> (r matches Some(s) && s@ == self.pool_view()[i as int]),
            (i as int) >= self.npool() ==> r is None,
    {
        if (i as usize) < self.pool.len() {
            Some(&self.pool[i as usize])
        } else {
            None
        }
    }

    /// The stack's bytes.
    pub fn stack_bytes(&self) -> (r: &Vec<u8>)
        ensures
            r@ == self.stack_view(),
    {
        &self.stack
    }

    /// The instruction pointer.
    pub fn instruction_pointer(&self) -> (r: usize)
        ensures
            r == self.ip_view(),
    {
        self.ip
    }

    fn exec_ret(&mut self, st: usize, next: usize) -> (r: ProgState)
        requires
            old(self).ip < old(self).inst@.len(),
            old(self).inst@[old(self).ip as int] == RET_NUM,
            st == old(self).ip + 1,
            next == old(self).ip + 3,
        ensures
            final(self).same_program(old(self)),
            (final(self).ip, final(self).stack@, r) == old(self).next_step(None),
    {
        if st + 2 > self.inst.len() {
            return ProgState::Fault;
        }
        let how = read_u16(&self.inst, st);
        let ghost s = self.stack@;
        let v = match read_value(&self.stack, 0) {
            Some(v) => v,
            None => {
                return ProgState::Fault;
            },
        };
        proof {
            lemma_encode_len(v);
        }
        let vs = v.type_enum().size();
        if (how as usize) < vs {
            return ProgState::Fault;
        }
        let n = how as usize - vs;
        let len1 = self.stack.len() - vs;
        let len2 = if n <= len1 {
            len1 - n
        } else {
            0
        };
        let ghost s1 = s.take(s.len() - vs);
        let ghost s2 = if n <= s1.len() {
            s1.take(s1.len() - n)
        } else {
            Seq::<u8>::empty()
        };
        assert(s2 =~= s.take(len2 as int));
        if len2 > 0 && self.stack[len2 - 1] == CALLSTACK_NUM {
            if len2 < 5 {
                return ProgState::Fault;
            }
            let target = read_u32(&self.stack, len2 - 5);
            assert(u32_at(s2, s2.len() - 5) == u32_at(s, len2 - 5));
            self.stack.truncate(len2 - 5);
            assert(self.stack@ =~= s2.take(s2.len() - 5));
            push_value(&mut self.stack, &v);
            self.ip = target as usize;
            ProgState::Running
        } else {
            match v {
                WrappedVal::Int(x) => {
                    self.stack.truncate(len2);
                    self.ip = next;
                    ProgState::Halt(x)
                },
                _ => ProgState::Fault,
            }
        }
    }

    fn exec_push(&mut self, st: usize, next: usize, ans: Option<FloatAnswer>) -> (r: ProgState)
        requires
            old(self).ip < old(self).inst@.len(),
            old(self).inst@[old(self).ip as int] == PUSH_NUM,
            st == old(self).ip + 1,
            next == old(self).ip + 4,
        ensures
            final(self).same_program(old(self)),
            (final(self).ip, final(self).stack@, r) == old(self).next_step(ans),
    {
        if st + 3 > self.inst.len() {
            return ProgState::Fault;
        }
        let mode = self.inst[st];
        let arg = read_u16(&self.inst, st + 1);
        if mode == PUSH_FROM_STACK {
            match read_value(&self.stack, arg as usize) {
                Some(v) => {
                    push_value(&mut self.stack, &v);
                    self.ip = next;
                    ProgState::Running
                },
                None => ProgState::Fault,
            }
        } else if mode == PUSH_FROM_CONSTS {
            match read_const(&self.consts, arg as usize) {
                ConstRead::Value(v) => {
                    push_value(&mut self.stack, &v);
                    self.ip = next;
                    ProgState::Running
                },
                ConstRead::Bad => ProgState::Fault,
            }
        } else {
            ProgState::Fault
        }
    }

    fn exec_pop(&mut self, next: usize) -> (r: ProgState)
        requires
            old(self).ip < old(self).inst@.len(),
            old(self).inst@[old(self).ip as int] == POP_NUM,
            next == old(self).ip + 1,
        ensures
            final(self).same_program(old(self)),
            (final(self).ip, final(self).stack@, r) == old(self).next_step(None),
    {
        let len = self.stack.len();
        if len == 0 {
            return ProgState::Fault;
        }
        let tag = self.stack[len - 1];
        if tag_size_exec(tag) == 0 {
            return ProgState::Fault;
        }
        let ts = tag_size_exec(tag);
        if ts <= len {
            self.stack.truncate(len - ts);
        } else {
            self.stack.truncate(0);
        }
        assert(ts <= len ==> self.stack@ =~= old(self).stack@.take(len - ts));
        assert(ts > len ==> self.stack@ =~= Seq::<u8>::empty());
        self.ip = next;
        ProgState::Running
    }

    fn exec_mov(&mut self, st: usize, next: usize) -> (r: ProgState)
        requires
            old(self).ip < old(self).inst@.len(),
            old(self).inst@[old(self).ip as int] == MOV_NUM,
            st == old(self).ip + 1,
            next == old(self).ip + 3,
        ensures
            final(self).same_program(old(self)),
            (final(self).ip, final(self).stack@, r) == old(self).next_step(None),
    {
        if st + 2 > self.inst.len() {
            return ProgState::Fault;
        }
        let off = read_u16(&self.inst, st) as usize;
        let len = self.stack.len();
        if len == 0 || off > len - 1 {
            return ProgState::Fault;
        }
        let vp = len - 1 - off;
        let np = len - 1;
        let tag = self.stack[vp];
        if tag != self.stack[np] {
            return ProgState::Fault;
        }
        let k: usize = if tag == INT_NUM {
            4
        } else if tag == DCML_NUM {
            8
        } else if tag == BOOL_NUM {
            1
        } else if tag == STRING_NUM {
            2
        } else {
            return ProgState::Fault;
        };
        if tag == BOOL_NUM {
            if np < 2 || vp < 2 {
                return ProgState::Fault;
            }
            let val = self.stack[np - 2];
            self.stack.set(vp - 2, val);
        } else {
            if np < k + 1 || vp < k + 1 {
                return ProgState::Fault;
            }
            let src = np - k - 1;
            let dst = vp - k - 1;
            let ghost s0 = self.stack@;
            let mut i: usize = 0;
            while i < k
                invariant
                    i <= k,
                    k <= 8,
                    src + k <= self.stack.len(),
                    dst + k <= self.stack.len(),
                    self.stack@ == copy_bytes(s0, src as int, dst as int, i as nat),
                    self.stack@.len() == s0.len(),
                    self.same_program(old(self)),
                    self.ip == old(self).ip,
                decreases k - i,
            {
                let b = self.stack[src + i];
                self.stack.set(dst + i, b);
                i = i + 1;
            }
        }
        self.ip = next;
        ProgState::Running
    }

    fn exec_binop(&mut self, op: u8, next: usize, ans: Option<FloatAnswer>) -> (r: ProgState)
        requires
            old(self).ip < old(self).inst@.len(),
            old(self).inst@[old(self).ip as int] == op,
            is_binop(op),
            next == old(self).ip + 1,
        ensures
            final(self).same_program(old(self)),
            (final(self).ip, final(self).stack@, r) == old(self).next_step(ans),
    {
        let ghost s = self.stack@;
        let r = match read_value(&self.stack, 0) {
            Some(v) => v,
            None => {
                return ProgState::Fault;
            },
        };
        proof {
            lemma_encode_len(r);
        }
        let rs = r.type_enum().size();
        let ghost s1 = s.take(s.len() - rs);
        let l = match read_value(&self.stack, rs) {
            Some(v) => v,
            None => {
                proof {
                    if rs < s.len() {
                        lemma_value_prefix(s, s.len() - rs, s.len() - rs - 1);
                    }
                }
                return ProgState::Fault;
            },
        };
        proof {
            lemma_encode_len(l);
            lemma_value_prefix(s, s.len() - rs, s.len() - rs - 1);
        }
        let ls = l.type_enum().size();
        let ghost s2 = s1.take(s1.len() - ls);
        match binop(op, l, r, ans) {
            BinOutcome::Value(x) => {
                let len = self.stack.len();
                self.stack.truncate(len - rs - ls);
                assert(self.stack@ =~= s2);
                push_value(&mut self.stack, &x);
                self.ip = next;
                ProgState::Running
            },
            BinOutcome::Need(req) => ProgState::NeedsFloat(req),
            BinOutcome::Fault => ProgState::Fault,
        }
    }

    fn exec_jump(&mut self, op: u8, st: usize, next: usize) -> (r: ProgState)
        requires
            old(self).ip < old(self).inst@.len(),
            old(self).inst@[old(self).ip as int] == op,
            op == JMP_NUM || op == JZ_NUM || op == JNZ_NUM,
            st == old(self).ip + 1,
            next == old(self).ip + 5,
        ensures
            final(self).same_program(old(self)),
            (final(self).ip, final(self).stack@, r) == old(self).next_step(None),
    {
        if op == JMP_NUM {
            if st + 4 > self.inst.len() {
                return ProgState::Fault;
            }
            self.ip = read_u32(&self.inst, st) as usize;
            return ProgState::Running;
        }
        let v = match read_value(&self.stack, 0) {
            Some(v) => v,
            None => {
                return ProgState::Fault;
            },
        };
        let taken = if op == JZ_NUM {
            v == WrappedVal::Bool(true)
        } else {
            v == WrappedVal::Bool(false)
        };
        if taken && st + 4 > self.inst.len() {
            return ProgState::Fault;
        }
        let _ = pop_value(&mut self.stack);
        if taken {
            self.ip = read_u32(&self.inst, st) as usize;
        } else {
            self.ip = next;
        }
        ProgState::Running
    }

    fn exec_call(&mut self, st: usize, next: usize) -> (r: ProgState)
        requires
            old(self).ip < old(self).inst@.len(),
            old(self).inst@[old(self).ip as int] == CALL_NUM,
            st == old(self).ip + 1,
            next == old(self).ip + 5,
        ensures
            final(self).same_program(old(self)),
            (final(self).ip, final(self).stack@, r) == old(self).next_step(None),
    {
        if st + 4 > self.inst.len() {
            return ProgState::Fault;
        }
        let target = read_u32(&self.inst, st);
        push_value(&mut self.stack, &WrappedVal::CallStack(next as u32));
        self.ip = target as usize;
        ProgState::Running
    }

    fn exec_fun(&mut self, st: usize, next: usize) -> (r: ProgState)
        requires
            old(self).ip < old(self).inst@.len(),
            old(self).inst@[old(self).ip as int] == FUN_NUM,
            st == old(self).ip + 1,
            next == old(self).ip + 3,
        ensures
            final(self).same_program(old(self)),
            (final(self).ip, final(self).stack@, r) == old(self).next_step(None),
    {
        let len = self.stack.len();
        if len == 0 {
            self.ip = next;
            return ProgState::Running;
        }
        let ghost s = self.stack@;
        let cs = match read_value(&self.stack, 0) {
            Some(v) => v,
            None => {
                return ProgState::Fault;
            },
        };
        proof {
            lemma_encode_len(cs);
        }
        let cs_size = cs.type_enum().size();
        let ghost s1 = s.take(s.len() - cs_size);
        if st + 2 > self.inst.len() {
            return ProgState::Fault;
        }
        let k = read_u16(&self.inst, st);
        let mut off = cs_size;
        let mut i: u16 = 0;
        while i < k
            invariant
                self.stack@ == s,
                s == old(self).stack@,
                self.ip == old(self).ip,
                self.same_program(old(self)),
                self.inst@ == old(self).inst@,
                st == old(self).ip + 1,
                next == old(self).ip + 3,
                len > 0,
                old(self).ip < old(self).inst@.len(),
                old(self).inst@[old(self).ip as int] == FUN_NUM,
                st + 2 <= self.inst.len(),
                k == u16_at(self.inst@, st as int),
                cs_size == spec_type_size(spec_type_enum(cs)),
                pop_top(s) == Some((cs, s1)),
                s.len() == len,
                len == self.stack.len(),
                cs_size <= off <= len,
                s1 == s.take(len - cs_size),
                i <= k,
                args_span(s1, k as nat) == match args_span(s.take(len - off), (k - i) as nat) {
                    Some(w) => Some((w + (off - cs_size)) as nat),
                    None => None,
                },
            decreases k - i,
        {
            let ghost cur = s.take(len - off);
            let v = match read_value(&self.stack, off) {
                Some(v) => v,
                None => {
                    proof {
                        if off < len {
                            lemma_value_prefix(s, len - off, len - off - 1);
                        }
                        assert(pop_top(cur) is None);
                        assert(args_span(cur, (k - i) as nat) is None);
                        assert(args_span(s1, k as nat) is None);
                    }
                    return ProgState::Fault;
                },
            };
            proof {
                lemma_encode_len(v);
                lemma_value_prefix(s, len - off, len - off - 1);
                assert(pop_top(cur) == Some((v, cur.take(cur.len() - spec_type_size(spec_type_enum(v))))));
                assert(cur.take(cur.len() - spec_type_size(spec_type_enum(v))) =~= s.take(len - off - spec_type_size(spec_type_enum(v))));
            }
            off = off + v.type_enum().size();
            i = i + 1;
        }
        let ghost w = (off - cs_size) as nat;
        assert(args_span(s.take(len - off), 0) == Some(0nat));
        let mut tail = self.stack.split_off(len - off);
        tail.truncate(off - cs_size);
        assert(self.stack@ =~= s1.take(s1.len() - w));
        assert(tail@ =~= s1.skip(s1.len() - w));
        push_value(&mut self.stack, &cs);
        self.stack.append(&mut tail);
        self.ip = next;
        ProgState::Running
    }

    /// Takes one step of the program. `ans` answers the decimal work that a
    /// previous step asked for; a step that needs such work and has no
    /// answer leaves the machine unchanged and returns the request.
    pub fn eval_inst(&mut self, ans: Option<FloatAnswer>) -> (r: ProgState)
        ensures
            final(self).same_program(old(self)),
            (final(self).ip_view(), final(self).stack_view(), r) == old(self).next_step(ans),
    {
        let ip = self.ip;
        if ip >= self.inst.len() {
            return ProgState::Fault;
        }
        let op = self.inst[ip];
        if !(RET_NUM <= op && op <= FUN_NUM) {
            return ProgState::Fault;
        }
        let len = get_inst_size(op);
        if ip > usize::MAX - len {
            return ProgState::Fault;
        }
        let next = ip + len;
        let st = ip + 1;
        if op == RET_NUM {
            self.exec_ret(st, next)
        } else if op == PUSH_NUM {
            self.exec_push(st, next, ans)
        } else if op == POP_NUM {
            self.exec_pop(next)
        } else if op == MOV_NUM {
            self.exec_mov(st, next)
        } else if ADD_NUM <= op && op <= GE_NUM && op != NOT_NUM {
            self.exec_binop(op, next, ans)
        } else if op == JMP_NUM || op == JZ_NUM || op == JNZ_NUM {
            self.exec_jump(op, st, next)
        } else if op == CALL_NUM {
            self.exec_call(st, next)
        } else if op == FUN_NUM {
            self.exec_fun(st, next)
        } else {
            ProgState::Fault
        }
    }

    /// Runs the program for at most `fuel` steps: returns what the first
    /// step that does not lead to `Running` leads to, or `Running` when the
    /// fuel runs out. Decimal work stops the run with `NeedsFloat`; the
    /// caller answers it with [`VM::eval_inst`] and runs on.
    pub fn execute_order_66(&mut self, fuel: u64) -> (r: ProgState)
        ensures
            final(self).same_program(old(self)),
            (final(self).ip_view(), final(self).stack_view(), r) == run_spec(
                old(self).inst_view(),
                old(self).consts_view(),
                old(self).npool(),
                old(self).ip_view(),
                old(self).stack_view(),
                fuel as nat,
            ),
    {
        let mut left = fuel;
        while left > 0
            invariant
                self.same_program(old(self)),
                run_spec(
                    old(self).inst_view(),
                    old(self).consts_view(),
                    old(self).npool(),
                    old(self).ip_view(),
                    old(self).stack_view(),
                    fuel as nat,
                ) == run_spec(
                    self.inst_view(),
                    self.consts_view(),
                    self.npool(),
                    self.ip_view(),
                    self.stack_view(),
                    left as nat,
                ),
            decreases left,
        {
            let r = self.eval_inst(None);
            if r != ProgState::Running {
                return r;
            }
            left = left - 1;
        }
        ProgState::Running
    }
}

} // verus!

verus! {

/// Running for `a` steps, then for `b` more, is running for `a + b` steps:
/// a run that stopped stays stopped.
pub proof fn law_run_split(
    inst: Seq<u8>,
    consts: Seq<u8>,
    npool: nat,
    ip: usize,
    stack: Seq<u8>,
    a: nat,
    b: nat,
)
    ensures
        run_spec(inst, consts, npool, ip, stack, a + b) == ({
            let (ip1, s1, o1) = run_spec(inst, consts, npool, ip, stack, a);
            if o1 == ProgState::Running {
                run_spec(inst, consts, npool, ip1, s1, b)
            } else {
                (ip1, s1, o1)
            }
        }),
    decreases a,
{
    if a > 0 {
        let (ip1, s1, o) = step_spec(inst, consts, npool, ip, stack, None);
        assert((a + b - 1) as nat == ((a - 1) as nat + b));
        if o == ProgState::Running {
            law_run_split(inst, consts, npool, ip1, s1, (a - 1) as nat, b);
        }
    }
}

/// A step that stops for decimal work or on a fault leaves the machine as
/// it was.
pub proof fn law_stopped_step_unchanged(
    inst: Seq<u8>,
    consts: Seq<u8>,
    npool: nat,
    ip: usize,
    stack: Seq<u8>,
    ans: Option<FloatAnswer>,
)
    ensures
        ({
            let (ip1, s1, o) = step_spec(inst, consts, npool, ip, stack, ans);
            (o is Fault || o is NeedsFloat) ==> ip1 == ip && s1 == stack
        }),
{
}

} // verus!

verus! {

/// The values on a stack, bottom first, read from the top down; `None`
/// where the stack holds bytes that are no value.
pub open spec fn stack_values(s: Seq<u8>) -> Option<Seq<WrappedVal>>
    decreases s.len(),
{
    if s.len() == 0 {
        Some(Seq::empty())
    } else {
        match pop_top(s) {
            None => None,
            Some((v, rest)) => if rest.len() < s.len() {
                match stack_values(rest) {
                    None => None,
                    Some(vs) => Some(vs.push(v)),
                }
            } else {
                None
            },
        }
    }
}

impl VM {
    /// The values on the stack, bottom first: see [`stack_values`]. Offsets
    /// into the stack are 16-bit, so the stack must not be longer than
    /// 2^16 bytes.
    pub fn get_entire_stack_wrapped(&self) -> (r: Option<Vec<WrappedVal>>)
        requires
            self.stack_view().len() <= 65536,
        ensures
            match stack_values(self.stack_view()) {
                None => r is None,
                Some(vs) => r matches Some(v) && v@ == vs,
            },
    {
        let mut s: Vec<u8> = Vec::new();
        let mut i: usize = 0;
        while i < self.stack.len()
            invariant
                i <= self.stack@.len(),
                s@ == self.stack@.take(i as int),
            decreases self.stack@.len() - i,
        {
            s.push(self.stack[i]);
            i = i + 1;
            assert(s@ =~= self.stack@.take(i as int));
        }
        assert(self.stack@.take(i as int) =~= self.stack@);
        let mut top_down: Vec<WrappedVal> = Vec::new();
        while s.len() > 0
            invariant
                stack_values(self.stack@) == match stack_values(s@) {
                    None => None,
                    Some(vs) => Some(vs + top_down@.reverse()),
                },
            decreases s@.len(),
        {
            let ghost before = s@;
            match pop_value(&mut s) {
                None => {
                    return None;
                },
                Some(v) => {
                    proof {
                        assert(s@.len() < before.len());
                    }
                    let ghost prev = top_down@;
                    top_down.push(v);
                    proof {
                        assert(top_down@.reverse() =~= seq![v] + prev.reverse());
                        match stack_values(s@) {
                            Some(vs) => {
                                assert(vs.push(v) + prev.reverse() =~= vs + top_down@.reverse());
                            },
                            None => {},
                        }
                    }
                },
            }
        }
        proof {
            assert(stack_values(s@) == Some(Seq::<WrappedVal>::empty()));
            assert(Seq::<WrappedVal>::empty() + top_down@.reverse() =~= top_down@.reverse());
        }
        let mut vals: Vec<WrappedVal> = Vec::new();
        let mut k = top_down.len();
        while k > 0
            invariant
                k <= top_down@.len(),
                vals@ == top_down@.reverse().take(top_down@.len() - k),
            decreases k,
        {
            vals.push(top_down[k - 1]);
            k = k - 1;
            assert(vals@ =~= top_down@.reverse().take(top_down@.len() - k));
        }
        assert(top_down@.reverse().take(top_down@.len() as int) =~= top_down@.reverse());
        Some(vals)
    }
}

/// The binary instructions on two integers `a` (the deeper operand) and
/// `b` (the top of the stack): `add`, `sub` and `mul` (opcodes 5 to 7)
/// give the exact result where it fits in 32 bits and fault otherwise;
/// `div` and `mod` (8 and 9) give the truncating quotient and remainder and
/// fault on a zero divisor or an overflow; `eq` (14) says whether they are
/// equal; `l`, `le`, `g` and `ge` (15 to 18) say whether `a < b`, `a <= b`,
/// `a > b` and `a >= b`.
pub proof fn law_int_binops(a: i32, b: i32, ans: Option<FloatAnswer>)
    ensures
        binop_result(5u8, WrappedVal::Int(a), WrappedVal::Int(b), ans) == (if i32::MIN <= a + b
            <= i32::MAX {
            BinOutcome::Value(WrappedVal::Int((a + b) as i32))
        } else {
            BinOutcome::Fault
        }),
        binop_result(6u8, WrappedVal::Int(a), WrappedVal::Int(b), ans) == (if i32::MIN <= a - b
            <= i32::MAX {
            BinOutcome::Value(WrappedVal::Int((a - b) as i32))
        } else {
            BinOutcome::Fault
        }),
        binop_result(7u8, WrappedVal::Int(a), WrappedVal::Int(b), ans) == (if i32::MIN <= a * b
            <= i32::MAX {
            BinOutcome::Value(WrappedVal::Int((a * b) as i32))
        } else {
            BinOutcome::Fault
        }),
        binop_result(8u8, WrappedVal::Int(a), WrappedVal::Int(b), ans) == (match a.checked_div(b) {
            Some(q) => BinOutcome::Value(WrappedVal::Int(q)),
            None => BinOutcome::Fault,
        }),
        binop_result(9u8, WrappedVal::Int(a), WrappedVal::Int(b), ans) == (match a.checked_rem(b) {
            Some(r) => BinOutcome::Value(WrappedVal::Int(r)),
            None => BinOutcome::Fault,
        }),
        binop_result(14u8, WrappedVal::Int(a), WrappedVal::Int(b), ans) == BinOutcome::Value(
            WrappedVal::Bool(a == b),
        ),
        binop_result(15u8, WrappedVal::Int(a), WrappedVal::Int(b), ans) == BinOutcome::Value(
            WrappedVal::Bool(a < b),
        ),
        binop_result(16u8, WrappedVal::Int(a), WrappedVal::Int(b), ans) == BinOutcome::Value(
            WrappedVal::Bool(a <= b),
        ),
        binop_result(17u8, WrappedVal::Int(a), WrappedVal::Int(b), ans) == BinOutcome::Value(
            WrappedVal::Bool(a > b),
        ),
        binop_result(18u8, WrappedVal::Int(a), WrappedVal::Int(b), ans) == BinOutcome::Value(
            WrappedVal::Bool(a >= b),
        ),
{
}


/// `and`, `or` and `xor` (opcodes 10, 11 and 13) work bit by bit on two
/// integers and as logic on two booleans; on two values of one other type
/// they fault.
pub proof fn law_logic_binops(a: i32, b: i32, p: bool, q: bool, ans: Option<FloatAnswer>)
    ensures
        binop_result(10u8, WrappedVal::Int(a), WrappedVal::Int(b), ans) == BinOutcome::Value(
            WrappedVal::Int(a & b),
        ),
        binop_result(11u8, WrappedVal::Int(a), WrappedVal::Int(b), ans) == BinOutcome::Value(
            WrappedVal::Int(a | b),
        ),
        binop_result(13u8, WrappedVal::Int(a), WrappedVal::Int(b), ans) == BinOutcome::Value(
            WrappedVal::Int(a ^ b),
        ),
        binop_result(10u8, WrappedVal::Bool(p), WrappedVal::Bool(q), ans) == BinOutcome::Value(
            WrappedVal::Bool(p && q),
        ),
        binop_result(11u8, WrappedVal::Bool(p), WrappedVal::Bool(q), ans) == BinOutcome::Value(
            WrappedVal::Bool(p || q),
        ),
        binop_result(13u8, WrappedVal::Bool(p), WrappedVal::Bool(q), ans) == BinOutcome::Value(
            WrappedVal::Bool(p != q),
        ),
        binop_result(14u8, WrappedVal::Bool(p), WrappedVal::Bool(q), ans) == BinOutcome::Value(
            WrappedVal::Bool(p == q),
        ),
{
}

/// A binary instruction at `ip` takes the two values on top of the stack,
/// `l` below `r`, and puts the result of the operation in their place,
/// moving to the next instruction.
pub proof fn law_step_binop(
    inst: Seq<u8>,
    consts: Seq<u8>,
    npool: nat,
    ip: usize,
    s: Seq<u8>,
    l: WrappedVal,
    r: WrappedVal,
    x: WrappedVal,
    ans: Option<FloatAnswer>,
)
    requires
        ip < inst.len(),
        ip + 1 <= usize::MAX,
        5 <= inst[ip as int] <= 18,
        inst[ip as int] != 12,
        binop_result(inst[ip as int], l, r, ans) == BinOutcome::Value(x),
    ensures
        step_spec(inst, consts, npool, ip, s + encode(l) + encode(r), ans) == (
            (ip + 1) as usize,
            s + encode(x),
            ProgState::Running,
        ),
{
    lemma_push_pop(s + encode(l), r);
    lemma_push_pop(s, l);
}

/// `jmp` (opcode 19) moves to its target; `jz` (20) pops a boolean and moves
/// to its target when it is true, `jnz` (21) when it is false; otherwise
/// they go on to the next instruction. The target is the 32-bit number
/// after the opcode.
pub proof fn law_step_jumps(
    inst: Seq<u8>,
    consts: Seq<u8>,
    npool: nat,
    ip: usize,
    s: Seq<u8>,
    c: bool,
    ans: Option<FloatAnswer>,
)
    requires
        ip + 5 <= inst.len(),
        ip + 5 <= usize::MAX,
    ensures
        inst[ip as int] == 19u8 ==> step_spec(inst, consts, npool, ip, s, ans) == (
            u32_at(inst, ip + 1) as usize,
            s,
            ProgState::Running,
        ),
        inst[ip as int] == 20u8 ==> step_spec(
            inst,
            consts,
            npool,
            ip,
            s + encode(WrappedVal::Bool(c)),
            ans,
        ) == (
            if c {
                u32_at(inst, ip + 1) as usize
            } else {
                (ip + 5) as usize
            },
            s,
            ProgState::Running,
        ),
        inst[ip as int] == 21u8 ==> step_spec(
            inst,
            consts,
            npool,
            ip,
            s + encode(WrappedVal::Bool(c)),
            ans,
        ) == (
            if !c {
                u32_at(inst, ip + 1) as usize
            } else {
                (ip + 5) as usize
            },
            s,
            ProgState::Running,
        ),
{
    lemma_push_pop(s, WrappedVal::Bool(c));
}

/// The binary instructions on two decimals hand the work to the caller:
/// `add`, `sub`, `mul` and `div` ask for that operation on the two bit
/// patterns and push the decimal that comes back; `eq`, `l`, `le`, `g` and
/// `ge` ask for that comparison and push the truth that comes back; `mod`
/// faults.
pub proof fn law_dcml_binops(x: u64, y: u64, z: u64, t: bool)
    ensures
        binop_result(5u8, WrappedVal::Dcml(x), WrappedVal::Dcml(y), None) == BinOutcome::Need(
            FloatRequest::Arith(FloatOp::Add, x, y),
        ),
        binop_result(5u8, WrappedVal::Dcml(x), WrappedVal::Dcml(y), Some(FloatAnswer::Bits(z))) == BinOutcome::Value(WrappedVal::Dcml(z)),
        binop_result(6u8, WrappedVal::Dcml(x), WrappedVal::Dcml(y), None) == BinOutcome::Need(
            FloatRequest::Arith(FloatOp::Sub, x, y),
        ),
        binop_result(6u8, WrappedVal::Dcml(x), WrappedVal::Dcml(y), Some(FloatAnswer::Bits(z))) == BinOutcome::Value(WrappedVal::Dcml(z)),
        binop_result(7u8, WrappedVal::Dcml(x), WrappedVal::Dcml(y), None) == BinOutcome::Need(
            FloatRequest::Arith(FloatOp::Mul, x, y),
        ),
        binop_result(7u8, WrappedVal::Dcml(x), WrappedVal::Dcml(y), Some(FloatAnswer::Bits(z))) == BinOutcome::Value(WrappedVal::Dcml(z)),
        binop_result(8u8, WrappedVal::Dcml(x), WrappedVal::Dcml(y), None) == BinOutcome::Need(
            FloatRequest::Arith(FloatOp::Div, x, y),
        ),
        binop_result(8u8, WrappedVal::Dcml(x), WrappedVal::Dcml(y), Some(FloatAnswer::Bits(z))) == BinOutcome::Value(WrappedVal::Dcml(z)),
        binop_result(14u8, WrappedVal::Dcml(x), WrappedVal::Dcml(y), None) == BinOutcome::Need(
            FloatRequest::Compare(FloatCmp::Eq, x, y),
        ),
        binop_result(14u8, WrappedVal::Dcml(x), WrappedVal::Dcml(y), Some(FloatAnswer::Truth(t))) == BinOutcome::Value(WrappedVal::Bool(t)),
        binop_result(15u8, WrappedVal::Dcml(x), WrappedVal::Dcml(y), None) == BinOutcome::Need(
            FloatRequest::Compare(FloatCmp::Less, x, y),
        ),
        binop_result(15u8, WrappedVal::Dcml(x), WrappedVal::Dcml(y), Some(FloatAnswer::Truth(t))) == BinOutcome::Value(WrappedVal::Bool(t)),
        binop_result(16u8, WrappedVal::Dcml(x), WrappedVal::Dcml(y), None) == BinOutcome::Need(
            FloatRequest::Compare(FloatCmp::LEq, x, y),
        ),
        binop_result(16u8, WrappedVal::Dcml(x), WrappedVal::Dcml(y), Some(FloatAnswer::Truth(t))) == BinOutcome::Value(WrappedVal::Bool(t)),
        binop_result(17u8, WrappedVal::Dcml(x), WrappedVal::Dcml(y), None) == BinOutcome::Need(
            FloatRequest::Compare(FloatCmp::Greater, x, y),
        ),
        binop_result(17u8, WrappedVal::Dcml(x), WrappedVal::Dcml(y), Some(FloatAnswer::Truth(t))) == BinOutcome::Value(WrappedVal::Bool(t)),
        binop_result(18u8, WrappedVal::Dcml(x), WrappedVal::Dcml(y), None) == BinOutcome::Need(
            FloatRequest::Compare(FloatCmp::GEq, x, y),
        ),
        binop_result(18u8, WrappedVal::Dcml(x), WrappedVal::Dcml(y), Some(FloatAnswer::Truth(t))) == BinOutcome::Value(WrappedVal::Bool(t)),
        binop_result(9u8, WrappedVal::Dcml(x), WrappedVal::Dcml(y), None) == BinOutcome::Fault,
{
}

} // verus!
