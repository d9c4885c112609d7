//! Arrays of one value type, kept as the values' little-endian payloads
//! back to back, without tags.
use vstd::prelude::*;
use crate::bytes::{lemma_i32_roundtrip, lemma_u16_roundtrip, lemma_u64_roundtrip, i32_at, u16_at, u64_at, i32_bytes, u16_bytes, u64_bytes, push_i32, push_u16, push_u64, read_i32, read_u16, read_u64};
use crate::tokens::{Type, spec_type_size};
use crate::wrapped_val::{WrappedVal, spec_type_enum};

verus! {

/// An array: its element type and the payloads of its elements.
pub struct Array {
    pub data_type: Type,
    pub data: Vec<u8>,
}

/// Size in bytes of one element's payload.
pub open spec fn elem_size(t: Type) -> nat {
    (spec_type_size(t) - 1) as nat
}

/// The element types an array can hold.
pub open spec fn storable(t: Type) -> bool {
    t == Type::Int || t == Type::Dcml || t == Type::Bool || t == Type::String
}

/// The element at `index` of an array of `t` with payload bytes `data`.
pub open spec fn element_at(t: Type, data: Seq<u8>, index: int) -> WrappedVal {
    let at = index * elem_size(t);
    match t {
        Type::Int => WrappedVal::Int(i32_at(data, at)),
        Type::Dcml => WrappedVal::Dcml(u64_at(data, at)),
        Type::Bool => WrappedVal::Bool(data[at] != 0),
        _ => WrappedVal::String(u16_at(data, at)),
    }
}

/// The payload bytes of a value.
pub open spec fn payload(v: WrappedVal) -> Seq<u8> {
    match v {
        WrappedVal::Int(x) => i32_bytes(x),
        WrappedVal::Dcml(x) => u64_bytes(x),
        WrappedVal::Bool(b) => seq![if b { 1u8 } else { 0u8 }],
        WrappedVal::String(x) => u16_bytes(x),
        WrappedVal::CallStack(x) => crate::bytes::u32_bytes(x),
    }
}

impl Array {
    /// The element at `index`. The element type must be one an array can
    /// hold and the element must lie wholly within the data.
    pub fn index(&self, index: i32) -> (r: WrappedVal)
        requires
            storable(self.data_type),
            index >= 0,
            index * elem_size(self.data_type) + elem_size(self.data_type) <= self.data@.len(),
        ensures
            r == element_at(self.data_type, self.data@, index as int),
    {
        let size = self.data_type.size() - 1;
        let len = self.data.len();
        proof {
            assert(size == elem_size(self.data_type));
            assert((index as usize) as int == index as int);
        }
        let byte_ind = index as usize * size;
        match self.data_type {
            Type::Int => WrappedVal::Int(read_i32(&self.data, byte_ind)),
            Type::Dcml => WrappedVal::Dcml(read_u64(&self.data, byte_ind)),
            Type::Bool => WrappedVal::Bool(self.data[byte_ind] != 0),
            _ => WrappedVal::String(read_u16(&self.data, byte_ind)),
        }
    }

    /// Appends a value of the array's element type.
    pub fn push_wrap(&mut self, val: WrappedVal)
        requires
            spec_type_enum(val) == old(self).data_type,
            storable(old(self).data_type),
        ensures
            final(self).data_type == old(self).data_type,
            final(self).data@ == old(self).data@ + payload(val),
    {
        match val {
            WrappedVal::Int(x) => push_i32(&mut self.data, x),
            WrappedVal::Dcml(x) => push_u64(&mut self.data, x),
            WrappedVal::Bool(b) => {
                self.data.push(if b {
                    1u8
                } else {
                    0u8
                });
                assert(self.data@ =~= old(self).data@ + payload(val));
            },
            WrappedVal::String(x) => push_u16(&mut self.data, x),
            WrappedVal::CallStack(_) => {},
        }
    }

    /// Removes the last element's payload: the last bytes of the data, as
    /// many as one element takes, or all of them where there are fewer.
    pub fn pop(&mut self)
        ensures
            final(self).data_type == old(self).data_type,
            final(self).data@ == old(self).data@.take(
                if old(self).data@.len() >= elem_size(old(self).data_type) {
                    old(self).data@.len() - elem_size(old(self).data_type)
                } else {
                    0
                },
            ),
    {
        let size = self.data_type.size() - 1;
        let mut i: usize = 0;
        while i < size
            invariant
                size == elem_size(self.data_type),
                self.data_type == old(self).data_type,
                i <= size,
                self.data@ == old(self).data@.take(
                    if old(self).data@.len() >= i {
                        old(self).data@.len() - i
                    } else {
                        0
                    },
                ),
            decreases size - i,
        {
            self.data.pop();
            i = i + 1;
            assert(self.data@ =~= old(self).data@.take(
                if old(self).data@.len() >= i {
                    old(self).data@.len() - i
                } else {
                    0
                },
            ));
        }
    }
}

/// After a value is appended to an array of `n` whole elements, the element
/// at `n` is that value and each element before it is what it was.
pub proof fn law_push_then_index(t: Type, data: Seq<u8>, n: int, v: WrappedVal, i: int)
    requires
        storable(t),
        spec_type_enum(v) == t,
        0 <= n,
        data.len() == n * elem_size(t),
        0 <= i <= n,
    ensures
        element_at(t, data + payload(v), i) == (if i == n {
            v
        } else {
            element_at(t, data, i)
        }),
{
    let d = data + payload(v);
    match v {
        WrappedVal::Int(x) => {
            lemma_i32_roundtrip(x);
            let p = i32_bytes(x);
            let at = i * 4;
            assert(elem_size(t) == 4);
            assert(data.len() == n * 4);
            assert(at + 4 <= d.len());
            if i == n {
                assert(d[at] == p[0] && d[at + 1] == p[1] && d[at + 2] == p[2] && d[at + 3] == p[3]);
            } else {
                assert(d[at] == data[at] && d[at + 1] == data[at + 1] && d[at + 2] == data[at + 2]
                    && d[at + 3] == data[at + 3]);
            }
        },
        WrappedVal::Dcml(x) => {
            lemma_u64_roundtrip(x);
            let p = u64_bytes(x);
            let at = i * 8;
            assert(elem_size(t) == 8);
            assert(data.len() == n * 8);
            if i == n {
                assert(d.subrange(at, at + 8) =~= p.subrange(0, 8));
            } else {
                assert(d.subrange(at, at + 8) =~= data.subrange(at, at + 8));
            }
        },
        WrappedVal::Bool(b) => {
            assert(elem_size(t) == 1);
            assert(data.len() == n * 1);
            if i == n {
                assert(d[i] == payload(v)[0]);
            } else {
                assert(d[i] == data[i]);
            }
        },
        WrappedVal::String(x) => {
            lemma_u16_roundtrip(x);
            let p = u16_bytes(x);
            let at = i * 2;
            assert(elem_size(t) == 2);
            assert(data.len() == n * 2);
            assert(at + 2 <= d.len());
            if i == n {
                assert(d[at] == p[0] && d[at + 1] == p[1]);
            } else {
                assert(d[at] == data[at] && d[at + 1] == data[at + 1]);
            }
        },
        WrappedVal::CallStack(_) => {},
    }
}

} // verus!
