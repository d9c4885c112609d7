//! The fixed-width instruction format: every instruction takes six bytes,
//! its opcode first, then its operands in little-endian order, then zeros.
use vstd::prelude::*;
use crate::bytes::{u16_bytes, u32_bytes};

verus! {

/// An instruction of the fixed-width format.
#[derive(Clone, Copy, Debug, PartialEq, Eq, Structural)]
pub enum NoLabelInst {
    Ret,
    Push(u8, u16),
    Pop,
    Mov(u16, u8, u16),
    Alloc(u8, u16),
    Freet,
    Add,
    Sub,
    Mul,
    Div,
    And,
    Or,
    Xor,
    Cmp,
    Jmp(u32),
    Je(u32),
    Jl(u32),
    Jle(u32),
    Jg(u32),
    Jge(u32),
    Call(u32),
    Fun(u16),
}

/// An opcode alone, padded with zeros.
pub open spec fn bare(op: u8) -> Seq<u8> {
    seq![op, 0u8, 0u8, 0u8, 0u8, 0u8]
}

/// An opcode with a 32-bit operand, padded with a zero.
pub open spec fn with_u32(op: u8, x: u32) -> Seq<u8> {
    seq![op] + u32_bytes(x) + seq![0u8]
}

/// The six bytes of an instruction. Opcode 12 is not used.
pub open spec fn six_bytes(inst: NoLabelInst) -> Seq<u8> {
    match inst {
        NoLabelInst::Ret => bare(1),
        NoLabelInst::Push(x, y) => seq![2u8, x] + u16_bytes(y) + seq![0u8, 0u8],
        NoLabelInst::Pop => bare(3),
        NoLabelInst::Mov(x, y, z) => seq![4u8] + u16_bytes(x) + seq![y] + u16_bytes(z),
        NoLabelInst::Alloc(x, y) => seq![5u8, x] + u16_bytes(y) + seq![0u8, 0u8],
        NoLabelInst::Freet => bare(6),
        NoLabelInst::Add => bare(7),
        NoLabelInst::Sub => bare(8),
        NoLabelInst::Mul => bare(9),
        NoLabelInst::Div => bare(10),
        NoLabelInst::And => bare(11),
        NoLabelInst::Or => bare(13),
        NoLabelInst::Xor => bare(14),
        NoLabelInst::Cmp => bare(15),
        NoLabelInst::Jmp(x) => with_u32(16, x),
        NoLabelInst::Je(x) => with_u32(17, x),
        NoLabelInst::Jl(x) => with_u32(18, x),
        NoLabelInst::Jle(x) => with_u32(19, x),
        NoLabelInst::Jg(x) => with_u32(20, x),
        NoLabelInst::Jge(x) => with_u32(21, x),
        NoLabelInst::Call(x) => with_u32(22, x),
        NoLabelInst::Fun(x) => seq![23u8] + u16_bytes(x) + seq![0u8, 0u8, 0u8],
    }
}

fn lo16(x: u16) -> (r: u8)
    ensures
        r == u16_bytes(x)[0],
{
    (x & 0xff) as u8
}

fn hi16(x: u16) -> (r: u8)
    ensures
        r == u16_bytes(x)[1],
{
    ((x >> 8u16) & 0xff) as u8
}

fn jump(op: u8, x: u32) -> (r: [u8; 6])
    ensures
        r@ == with_u32(op, x),
{
    let r = [
        op,
        (x & 0xff) as u8,
        ((x >> 8u32) & 0xff) as u8,
        ((x >> 16u32) & 0xff) as u8,
        ((x >> 24u32) & 0xff) as u8,
        0u8,
    ];
    assert(r@ =~= with_u32(op, x));
    r
}

/// The six bytes of an instruction: see [`six_bytes`].
pub fn assemble(inst: &NoLabelInst) -> (r: [u8; 6])
    ensures
        r@ == six_bytes(*inst),
{
    let r: [u8; 6] = match *inst {
        NoLabelInst::Ret => [1u8, 0, 0, 0, 0, 0],
        NoLabelInst::Push(x, y) => [2u8, x, lo16(y), hi16(y), 0, 0],
        NoLabelInst::Pop => [3u8, 0, 0, 0, 0, 0],
        NoLabelInst::Mov(x, y, z) => [4u8, lo16(x), hi16(x), y, lo16(z), hi16(z)],
        NoLabelInst::Alloc(x, y) => [5u8, x, lo16(y), hi16(y), 0, 0],
        NoLabelInst::Freet => [6u8, 0, 0, 0, 0, 0],
        NoLabelInst::Add => [7u8, 0, 0, 0, 0, 0],
        NoLabelInst::Sub => [8u8, 0, 0, 0, 0, 0],
        NoLabelInst::Mul => [9u8, 0, 0, 0, 0, 0],
        NoLabelInst::Div => [10u8, 0, 0, 0, 0, 0],
        NoLabelInst::And => [11u8, 0, 0, 0, 0, 0],
        NoLabelInst::Or => [13u8, 0, 0, 0, 0, 0],
        NoLabelInst::Xor => [14u8, 0, 0, 0, 0, 0],
        NoLabelInst::Cmp => [15u8, 0, 0, 0, 0, 0],
        NoLabelInst::Jmp(x) => jump(16, x),
        NoLabelInst::Je(x) => jump(17, x),
        NoLabelInst::Jl(x) => jump(18, x),
        NoLabelInst::Jle(x) => jump(19, x),
        NoLabelInst::Jg(x) => jump(20, x),
        NoLabelInst::Jge(x) => jump(21, x),
        NoLabelInst::Call(x) => jump(22, x),
        NoLabelInst::Fun(x) => [23u8, lo16(x), hi16(x), 0, 0, 0],
    };
    assert(r@ =~= six_bytes(*inst));
    r
}

} // verus!
