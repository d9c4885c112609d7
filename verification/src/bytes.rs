//! Little-endian encodings of the integers that the byte code and the
//! machine's stack hold.
use vstd::prelude::*;

verus! {

pub open spec fn u16_bytes(x: u16) -> Seq<u8> {
    seq![(x & 0xff) as u8, ((x >> 8u16) & 0xff) as u8]
}

pub open spec fn u16_of(b0: u8, b1: u8) -> u16 {
    ((b0 as u16) | ((b1 as u16) << 8u16)) as u16
}

pub open spec fn u32_bytes(x: u32) -> Seq<u8> {
    seq![
        (x & 0xff) as u8,
        ((x >> 8u32) & 0xff) as u8,
        ((x >> 16u32) & 0xff) as u8,
        ((x >> 24u32) & 0xff) as u8,
    ]
}

pub open spec fn u32_of(b0: u8, b1: u8, b2: u8, b3: u8) -> u32 {
    ((b0 as u32) | ((b1 as u32) << 8u32) | ((b2 as u32) << 16u32) | ((b3 as u32) << 24u32)) as u32
}

pub open spec fn u64_bytes(x: u64) -> Seq<u8> {
    seq![
        (x & 0xff) as u8,
        ((x >> 8u64) & 0xff) as u8,
        ((x >> 16u64) & 0xff) as u8,
        ((x >> 24u64) & 0xff) as u8,
        ((x >> 32u64) & 0xff) as u8,
        ((x >> 40u64) & 0xff) as u8,
        ((x >> 48u64) & 0xff) as u8,
        ((x >> 56u64) & 0xff) as u8,
    ]
}

pub open spec fn u64_of(s: Seq<u8>) -> u64 {
    ((s[0] as u64) | ((s[1] as u64) << 8u64) | ((s[2] as u64) << 16u64) | ((s[3] as u64)
        << 24u64) | ((s[4] as u64) << 32u64) | ((s[5] as u64) << 40u64) | ((s[6] as u64)
        << 48u64) | ((s[7] as u64) << 56u64)) as u64
}

/// The value of the two bytes at `at`, least significant first.
pub open spec fn u16_at(s: Seq<u8>, at: int) -> u16 {
    u16_of(s[at], s[at + 1])
}

/// The value of the four bytes at `at`, least significant first.
pub open spec fn u32_at(s: Seq<u8>, at: int) -> u32 {
    u32_of(s[at], s[at + 1], s[at + 2], s[at + 3])
}

pub open spec fn i32_at(s: Seq<u8>, at: int) -> i32 {
    u32_at(s, at) as i32
}

pub open spec fn u64_at(s: Seq<u8>, at: int) -> u64 {
    u64_of(s.subrange(at, at + 8))
}

pub open spec fn i32_bytes(x: i32) -> Seq<u8> {
    u32_bytes(x as u32)
}

/// Decoding the encoding of a number gives the number back.
pub proof fn lemma_u16_roundtrip(x: u16)
    ensures
        u16_at(u16_bytes(x), 0) == x,
        u16_bytes(x).len() == 2,
{
    let b = u16_bytes(x);
    assert(u16_of((x & 0xff) as u8, ((x >> 8u16) & 0xff) as u8) == x) by (bit_vector);
}

pub proof fn lemma_u32_roundtrip(x: u32)
    ensures
        u32_at(u32_bytes(x), 0) == x,
        u32_bytes(x).len() == 4,
{
    assert(u32_of(
        (x & 0xff) as u8,
        ((x >> 8u32) & 0xff) as u8,
        ((x >> 16u32) & 0xff) as u8,
        ((x >> 24u32) & 0xff) as u8,
    ) == x) by (bit_vector);
}

pub proof fn lemma_i32_roundtrip(x: i32)
    ensures
        i32_at(i32_bytes(x), 0) == x,
        i32_bytes(x).len() == 4,
{
    lemma_u32_roundtrip(x as u32);
    assert((x as u32) as i32 == x) by (bit_vector);
}

pub proof fn lemma_u64_roundtrip(x: u64)
    ensures
        u64_at(u64_bytes(x), 0) == x,
        u64_bytes(x).len() == 8,
{
    let b = u64_bytes(x);
    assert(b.subrange(0, 8) =~= b);
    assert(((((x & 0xff) as u8) as u64) | ((((x >> 8u64) & 0xff) as u8) as u64) << 8u64 | ((((x
        >> 16u64) & 0xff) as u8) as u64) << 16u64 | ((((x >> 24u64) & 0xff) as u8) as u64)
        << 24u64 | ((((x >> 32u64) & 0xff) as u8) as u64) << 32u64 | ((((x >> 40u64) & 0xff)
        as u8) as u64) << 40u64 | ((((x >> 48u64) & 0xff) as u8) as u64) << 48u64 | ((((x
        >> 56u64) & 0xff) as u8) as u64) << 56u64) == x) by (bit_vector);
}

/// Appends the two bytes of `x`.
pub fn push_u16(v: &mut Vec<u8>, x: u16)
    ensures
        final(v)@ == old(v)@ + u16_bytes(x),
{
    v.push((x & 0xff) as u8);
    v.push(((x >> 8u16) & 0xff) as u8);
    assert(final(v)@ =~= old(v)@ + u16_bytes(x));
}

pub fn push_u32(v: &mut Vec<u8>, x: u32)
    ensures
        final(v)@ == old(v)@ + u32_bytes(x),
{
    v.push((x & 0xff) as u8);
    v.push(((x >> 8u32) & 0xff) as u8);
    v.push(((x >> 16u32) & 0xff) as u8);
    v.push(((x >> 24u32) & 0xff) as u8);
    assert(final(v)@ =~= old(v)@ + u32_bytes(x));
}

pub fn push_i32(v: &mut Vec<u8>, x: i32)
    ensures
        final(v)@ == old(v)@ + i32_bytes(x),
{
    push_u32(v, x as u32);
}

pub fn push_u64(v: &mut Vec<u8>, x: u64)
    ensures
        final(v)@ == old(v)@ + u64_bytes(x),
{
    v.push((x & 0xff) as u8);
    v.push(((x >> 8u64) & 0xff) as u8);
    v.push(((x >> 16u64) & 0xff) as u8);
    v.push(((x >> 24u64) & 0xff) as u8);
    v.push(((x >> 32u64) & 0xff) as u8);
    v.push(((x >> 40u64) & 0xff) as u8);
    v.push(((x >> 48u64) & 0xff) as u8);
    v.push(((x >> 56u64) & 0xff) as u8);
    assert(final(v)@ =~= old(v)@ + u64_bytes(x));
}

pub fn read_u16(v: &Vec<u8>, at: usize) -> (r: u16)
    requires
        at + 2 <= v.len(),
    ensures
        r == u16_at(v@, at as int),
{
    (v[at] as u16) | ((v[at + 1] as u16) << 8u16)
}

pub fn read_u32(v: &Vec<u8>, at: usize) -> (r: u32)
    requires
        at + 4 <= v.len(),
    ensures
        r == u32_at(v@, at as int),
{
    (v[at] as u32) | ((v[at + 1] as u32) << 8u32) | ((v[at + 2] as u32) << 16u32) | ((v[at
        + 3] as u32) << 24u32)
}

pub fn read_i32(v: &Vec<u8>, at: usize) -> (r: i32)
    requires
        at + 4 <= v.len(),
    ensures
        r == i32_at(v@, at as int),
{
    read_u32(v, at) as i32
}

pub fn read_u64(v: &Vec<u8>, at: usize) -> (r: u64)
    requires
        at + 8 <= v.len(),
    ensures
        r == u64_at(v@, at as int),
{
    let ghost s = v@.subrange(at as int, at + 8);
    assert(s[0] == v@[at as int] && s[1] == v@[at + 1] && s[2] == v@[at + 2] && s[3] == v@[at
        + 3] && s[4] == v@[at + 4] && s[5] == v@[at + 5] && s[6] == v@[at + 6] && s[7] == v@[at
        + 7]);
    (v[at] as u64) | ((v[at + 1] as u64) << 8u64) | ((v[at + 2] as u64) << 16u64) | ((v[at
        + 3] as u64) << 24u64) | ((v[at + 4] as u64) << 32u64) | ((v[at + 5] as u64) << 40u64)
        | ((v[at + 6] as u64) << 48u64) | ((v[at + 7] as u64) << 56u64)
}

} // verus!
