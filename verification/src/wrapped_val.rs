//! Values on the machine's stack, and the operations on them.
use vstd::prelude::*;
use crate::bytes::{u16_bytes, u32_bytes, u64_bytes, i32_bytes, u16_at, u32_at, i32_at, u64_at, lemma_u16_roundtrip, lemma_u32_roundtrip, lemma_i32_roundtrip, lemma_u64_roundtrip, push_u16, push_u32, push_i32, push_u64, read_u16, read_u32, read_i32, read_u64};
use crate::tokens::{Type, spec_type_size};

verus! {

/// Tag bytes that follow each value on the stack and in the constant pool.
pub const INT_NUM: u8 = 1;
pub const DCML_NUM: u8 = 2;
pub const BOOL_NUM: u8 = 3;
pub const STRING_NUM: u8 = 4;
pub const CALLSTACK_NUM: u8 = 5;

/// A value read from the stack. A decimal is held by the bit pattern of its
/// IEEE-754 double; a string by its index in the string pool.
#[derive(Clone, Copy, Debug, PartialEq, Eq, Structural)]
pub enum WrappedVal {
    CallStack(u32),
    Int(i32),
    Dcml(u64),
    Bool(bool),
    String(u16),
}

pub open spec fn spec_type_enum(v: WrappedVal) -> Type {
    match v {
        WrappedVal::CallStack(_) => Type::CallStack,
        WrappedVal::Int(_) => Type::Int,
        WrappedVal::Dcml(_) => Type::Dcml,
        WrappedVal::Bool(_) => Type::Bool,
        WrappedVal::String(_) => Type::String,
    }
}

/// The tag byte of a value.
pub open spec fn tag_of(v: WrappedVal) -> u8 {
    match v {
        WrappedVal::CallStack(_) => CALLSTACK_NUM,
        WrappedVal::Int(_) => INT_NUM,
        WrappedVal::Dcml(_) => DCML_NUM,
        WrappedVal::Bool(_) => BOOL_NUM,
        WrappedVal::String(_) => STRING_NUM,
    }
}

/// The bytes a value occupies on the stack: its little-endian payload, then
/// its tag.
pub open spec fn encode(v: WrappedVal) -> Seq<u8> {
    match v {
        WrappedVal::CallStack(x) => u32_bytes(x).push(CALLSTACK_NUM),
        WrappedVal::Int(x) => i32_bytes(x).push(INT_NUM),
        WrappedVal::Dcml(x) => u64_bytes(x).push(DCML_NUM),
        WrappedVal::Bool(b) => seq![if b { 1u8 } else { 0u8 }].push(BOOL_NUM),
        WrappedVal::String(x) => u16_bytes(x).push(STRING_NUM),
    }
}

/// Size in bytes, tag included, of a value with the given tag; `None` for a
/// byte that is no tag.
pub open spec fn tag_size(tag: u8) -> Option<nat> {
    if tag == INT_NUM {
        Some(5)
    } else if tag == DCML_NUM {
        Some(9)
    } else if tag == BOOL_NUM {
        Some(2)
    } else if tag == STRING_NUM {
        Some(3)
    } else if tag == CALLSTACK_NUM {
        Some(5)
    } else {
        None
    }
}

/// Decodes the value whose tag is at index `t` of `s`; `None` when the tag
/// is unknown or its payload would start before the sequence.
pub open spec fn value_with_tag_at(s: Seq<u8>, t: int) -> Option<WrappedVal> {
    if t < 0 || t >= s.len() {
        None
    } else {
        let tag = s[t];
        if tag == INT_NUM && t >= 4 {
            Some(WrappedVal::Int(i32_at(s, t - 4)))
        } else if tag == DCML_NUM && t >= 8 {
            Some(WrappedVal::Dcml(u64_at(s, t - 8)))
        } else if tag == BOOL_NUM && t >= 1 {
            Some(WrappedVal::Bool(s[t - 1] != 0))
        } else if tag == STRING_NUM && t >= 2 {
            Some(WrappedVal::String(u16_at(s, t - 2)))
        } else if tag == CALLSTACK_NUM && t >= 4 {
            Some(WrappedVal::CallStack(u32_at(s, t - 4)))
        } else {
            None
        }
    }
}

/// The value whose tag lies `offset` bytes below the top of the stack.
pub open spec fn value_at(stack: Seq<u8>, offset: int) -> Option<WrappedVal> {
    if offset < 0 {
        None
    } else {
        value_with_tag_at(stack, stack.len() - 1 - offset)
    }
}

/// The top value of the stack and the stack without it.
pub open spec fn pop_top(stack: Seq<u8>) -> Option<(WrappedVal, Seq<u8>)> {
    match value_at(stack, 0) {
        Some(v) => Some((v, stack.take(stack.len() - spec_type_size(spec_type_enum(v))))),
        None => None,
    }
}

pub proof fn lemma_encode_len(v: WrappedVal)
    ensures
        encode(v).len() == spec_type_size(spec_type_enum(v)),
        encode(v).last() == tag_of(v),
        tag_size(tag_of(v)) == Some(spec_type_size(spec_type_enum(v))),
{
    match v {
        WrappedVal::CallStack(x) => lemma_u32_roundtrip(x),
        WrappedVal::Int(x) => lemma_i32_roundtrip(x),
        WrappedVal::Dcml(x) => lemma_u64_roundtrip(x),
        WrappedVal::Bool(b) => {},
        WrappedVal::String(x) => lemma_u16_roundtrip(x),
    }
}

/// Pushing a value and then popping the top gives back the value and the
/// stack as it was.
pub proof fn lemma_push_pop(stack: Seq<u8>, v: WrappedVal)
    ensures
        pop_top(stack + encode(v)) == Some((v, stack)),
{
    lemma_encode_len(v);
    let s = stack + encode(v);
    let n = stack.len() as int;
    match v {
        WrappedVal::CallStack(x) => {
            lemma_u32_roundtrip(x);
            assert(s.subrange(n, n + 4) =~= u32_bytes(x));
        },
        WrappedVal::Int(x) => {
            lemma_i32_roundtrip(x);
            assert(s.subrange(n, n + 4) =~= i32_bytes(x));
        },
        WrappedVal::Dcml(x) => {
            lemma_u64_roundtrip(x);
            assert(s.subrange(n, n + 8) =~= u64_bytes(x));
        },
        WrappedVal::Bool(b) => {},
        WrappedVal::String(x) => {
            lemma_u16_roundtrip(x);
            assert(s.subrange(n, n + 2) =~= u16_bytes(x));
        },
    }
    assert(s.take(s.len() - encode(v).len()) =~= stack);
}

impl WrappedVal {
    /// The type of the value.
    pub fn type_enum(&self) -> (t: Type)
        ensures
            t == spec_type_enum(*self),
    {
        match self {
            WrappedVal::CallStack(_) => Type::CallStack,
            WrappedVal::Int(_) => Type::Int,
            WrappedVal::Dcml(_) => Type::Dcml,
            WrappedVal::Bool(_) => Type::Bool,
            WrappedVal::String(_) => Type::String,
        }
    }
}

/// Size in bytes, tag included, of a value with the given tag.
pub fn get_type_size(type_num: u8) -> (r: usize)
    requires
        tag_size(type_num) is Some,
    ensures
        r == tag_size(type_num).unwrap(),
{
    (if type_num == INT_NUM {
        4
    } else if type_num == DCML_NUM {
        8
    } else if type_num == BOOL_NUM {
        1
    } else if type_num == STRING_NUM {
        2
    } else {
        4
    }) + 1
}

/// Appends the encoding of a value to the stack.
pub fn push_value(stack: &mut Vec<u8>, v: &WrappedVal)
    ensures
        final(stack)@ == old(stack)@ + encode(*v),
{
    match v {
        WrappedVal::Int(x) => {
            push_i32(stack, *x);
            stack.push(INT_NUM);
        },
        WrappedVal::Dcml(x) => {
            push_u64(stack, *x);
            stack.push(DCML_NUM);
        },
        WrappedVal::Bool(b) => {
            stack.push(if *b { 1u8 } else { 0u8 });
            stack.push(BOOL_NUM);
        },
        WrappedVal::String(x) => {
            push_u16(stack, *x);
            stack.push(STRING_NUM);
        },
        WrappedVal::CallStack(x) => {
            push_u32(stack, *x);
            stack.push(CALLSTACK_NUM);
        },
    }
    assert(final(stack)@ =~= old(stack)@ + encode(*v));
}

/// Reads the value whose tag lies `offset` bytes below the top of `stack`.
pub fn read_value(stack: &Vec<u8>, offset: usize) -> (r: Option<WrappedVal>)
    ensures
        r == value_at(stack@, offset as int),
{
    let len = stack.len();
    if offset >= len {
        return None;
    }
    let t = len - 1 - offset;
    let tag = stack[t];
    if tag == INT_NUM && t >= 4 {
        Some(WrappedVal::Int(read_i32(stack, t - 4)))
    } else if tag == DCML_NUM && t >= 8 {
        Some(WrappedVal::Dcml(read_u64(stack, t - 8)))
    } else if tag == BOOL_NUM && t >= 1 {
        Some(WrappedVal::Bool(stack[t - 1] != 0))
    } else if tag == STRING_NUM && t >= 2 {
        Some(WrappedVal::String(read_u16(stack, t - 2)))
    } else if tag == CALLSTACK_NUM && t >= 4 {
        Some(WrappedVal::CallStack(read_u32(stack, t - 4)))
    } else {
        None
    }
}

/// Removes the top value of the stack and returns it; `None`, with the stack
/// unchanged, when the top holds no value.
pub fn pop_value(stack: &mut Vec<u8>) -> (r: Option<WrappedVal>)
    ensures
        match pop_top(old(stack)@) {
            Some((v, rest)) => r == Some(v) && final(stack)@ == rest,
            None => r is None && final(stack)@ == old(stack)@,
        },
{
    let v = read_value(stack, 0);
    match v {
        Some(val) => {
            let size = val.type_enum().size();
            let ghost target = old(stack)@.take(old(stack)@.len() - size);
            let mut i: usize = 0;
            while i < size
                invariant
                    size == spec_type_size(spec_type_enum(val)),
                    size <= old(stack)@.len(),
                    i <= size,
                    stack@ == old(stack)@.take(old(stack)@.len() - i),
                decreases size - i,
            {
                stack.pop();
                i = i + 1;
                assert(stack@ =~= old(stack)@.take(old(stack)@.len() - i));
            }
            Some(val)
        },
        None => None,
    }
}

} // verus!
