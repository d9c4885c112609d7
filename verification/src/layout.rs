//! Laying out the blocks of the editor: the height each block takes, and
//! where each block stands. Maps from block ids are kept as lists of
//! entries with distinct keys; setting a key that is there replaces its
//! value in place.
use vstd::prelude::*;
use crate::blockdata::{Block, BlockID, BlockType, World};

verus! {

broadcast use vstd::std_specs::hash::group_hash_axioms;

/// The height of one row of blocks.
pub const ROW: u64 = 63;

/// How far a body is indented.
pub const INDENT: u64 = 50;

/// The index of the entry with key `k`.
pub open spec fn find_key<T>(s: Seq<(BlockID, T)>, k: BlockID) -> Option<int>
    decreases s.len(),
{
    if s.len() == 0 {
        None
    } else if s.last().0 == k {
        Some(s.len() - 1)
    } else {
        find_key(s.drop_last(), k)
    }
}

/// The entries with `k` set to `v`: replaced where it is, appended where
/// it is not.
pub open spec fn set_entry<T>(s: Seq<(BlockID, T)>, k: BlockID, v: T) -> Seq<(BlockID, T)> {
    match find_key(s, k) {
        Some(i) => s.update(i, (k, v)),
        None => s.push((k, v)),
    }
}

/// The entries of `a` with each entry of `b` set, in order.
pub open spec fn extend<T>(a: Seq<(BlockID, T)>, b: Seq<(BlockID, T)>) -> Seq<(BlockID, T)>
    decreases b.len(),
{
    if b.len() == 0 {
        a
    } else {
        let e = b.last();
        set_entry(extend(a, b.drop_last()), e.0, e.1)
    }
}

/// The sum of the values.
pub open spec fn total(s: Seq<(BlockID, u64)>) -> int
    decreases s.len(),
{
    if s.len() == 0 {
        0
    } else {
        total(s.drop_last()) + s.last().1
    }
}

/// The height of each block from `b` on: a plain block takes a row, an
/// `if` or `while` a row more than its body, an `if`/`else` two rows more
/// than its two bodies together, an empty block nothing; then the blocks
/// after `b`, unless the next one is empty. `None` where a named block is
/// missing, a sum overflows, or the links run in a circle, which `fuel`
/// detects.
pub open spec fn heights(w: Map<BlockID, Block>, b: Block, fuel: nat) -> Option<
    Seq<(BlockID, u64)>,
>
    decreases fuel, 0nat,
{
    if fuel == 0 {
        None
    } else {
        let own: Option<(u64, Seq<(BlockID, u64)>)> = match b.btype {
            BlockType::If(ib) => body_heights(w, ib.if_stuff, (fuel - 1) as nat, ROW),
            BlockType::IfElse(ib, e) => match child_heights(w, ib.if_stuff, (fuel - 1) as nat) {
                None => None,
                Some(m1) => match child_heights(w, e, (fuel - 1) as nat) {
                    None => None,
                    Some(m2) => {
                        let m = extend(m1, m2);
                        if total(m) + 2 * ROW > u64::MAX {
                            None
                        } else {
                            Some(((total(m) + 2 * ROW) as u64, m))
                        }
                    },
                },
            },
            BlockType::While(wb) => body_heights(w, wb.while_stuff, (fuel - 1) as nat, ROW),
            BlockType::Blank => Some((0u64, Seq::empty())),
            _ => Some((ROW, Seq::empty())),
        };
        match own {
            None => None,
            Some((len, kids)) => {
                let here = set_entry(kids, b.id, len);
                if b.next == 0 {
                    Some(here)
                } else if !w.contains_key(b.next) {
                    None
                } else if w[b.next].btype is Blank {
                    Some(here)
                } else {
                    match heights(w, w[b.next], (fuel - 1) as nat) {
                        None => None,
                        Some(rest) => Some(extend(here, rest)),
                    }
                }
            },
        }
    }
}

/// The heights from the block with id `id`.
pub open spec fn child_heights(w: Map<BlockID, Block>, id: BlockID, fuel: nat) -> Option<
    Seq<(BlockID, u64)>,
>
    decreases fuel, 1nat,
{
    if !w.contains_key(id) {
        None
    } else {
        heights(w, w[id], fuel)
    }
}

/// The heights of a body and the height of its block: the body's total
/// and `extra` more.
pub open spec fn body_heights(w: Map<BlockID, Block>, id: BlockID, fuel: nat, extra: u64) -> Option<
    (u64, Seq<(BlockID, u64)>),
>
    decreases fuel, 2nat,
{
    match child_heights(w, id, fuel) {
        None => None,
        Some(m) => if total(m) + extra > u64::MAX {
            None
        } else {
            Some(((total(m) + extra) as u64, m))
        },
    }
}

/// The place of each block from `b` on, with `b` at `(x, y)`: a body stands
/// indented and a row down, the next block below by its height; an empty
/// block stands at `(0, 0)`. `None` where a named block or height is
/// missing, a coordinate overflows, or the links run in a circle.
pub open spec fn places(
    w: Map<BlockID, Block>,
    len: Seq<(BlockID, u64)>,
    b: Block,
    x: u64,
    y: u64,
    fuel: nat,
) -> Option<Seq<(BlockID, (u64, u64))>>
    decreases fuel, 0nat,
{
    if fuel == 0 {
        None
    } else {
        let inner = x + INDENT <= u64::MAX && y + ROW <= u64::MAX;
        let ix = (x + INDENT) as u64;
        let iy = (y + ROW) as u64;
        let own: Option<((u64, u64), Seq<(BlockID, (u64, u64))>)> = match b.btype {
            BlockType::If(ib) => if !inner {
                None
            } else {
                match child_places(w, len, ib.if_stuff, ix, iy, (fuel - 1) as nat) {
                    None => None,
                    Some(m) => Some(((x, y), m)),
                }
            },
            BlockType::IfElse(ib, e) => if !inner {
                None
            } else {
                match child_places(w, len, ib.if_stuff, ix, iy, (fuel - 1) as nat) {
                    None => None,
                    Some(m1) => match child_places(w, len, e, ix, iy, (fuel - 1) as nat) {
                        None => None,
                        Some(m2) => Some(((x, y), extend(m1, m2))),
                    },
                }
            },
            BlockType::While(wb) => if !inner {
                None
            } else {
                match child_places(w, len, wb.while_stuff, ix, iy, (fuel - 1) as nat) {
                    None => None,
                    Some(m) => Some(((x, y), m)),
                }
            },
            BlockType::Blank => Some(((0u64, 0u64), Seq::empty())),
            _ => Some(((x, y), Seq::empty())),
        };
        match own {
            None => None,
            Some((at, kids)) => {
                let here = set_entry(kids, b.id, at);
                if b.next == 0 {
                    Some(here)
                } else if !w.contains_key(b.next) {
                    None
                } else {
                    match find_key(len, b.next) {
                        None => None,
                        Some(i) => if y + len[i].1 > u64::MAX {
                            None
                        } else {
                            match places(
                                w,
                                len,
                                w[b.next],
                                x,
                                (y + len[i].1) as u64,
                                (fuel - 1) as nat,
                            ) {
                                None => None,
                                Some(rest) => Some(extend(here, rest)),
                            }
                        },
                    }
                }
            },
        }
    }
}

/// The places from the block with id `id`.
pub open spec fn child_places(
    w: Map<BlockID, Block>,
    len: Seq<(BlockID, u64)>,
    id: BlockID,
    x: u64,
    y: u64,
    fuel: nat,
) -> Option<Seq<(BlockID, (u64, u64))>>
    decreases fuel, 1nat,
{
    if !w.contains_key(id) {
        None
    } else {
        places(w, len, w[id], x, y, fuel)
    }
}

} // verus!

verus! {

/// The index of the entry with key `k`: see [`find_key`].
fn find_key_in<T>(v: &Vec<(BlockID, T)>, k: BlockID) -> (r: Option<usize>)
    ensures
        r matches Some(i) ==> find_key(v@, k) == Some(i as int) && i < v@.len(),
        r is None ==> find_key(v@, k) is None,
{
    let mut i = v.len();
    proof {
        assert(v@.take(i as int) =~= v@);
    }
    while i > 0
        invariant
            i <= v@.len(),
            find_key(v@, k) == find_key(v@.take(i as int), k),
        decreases i,
    {
        proof {
            assert(v@.take(i as int).drop_last() =~= v@.take(i - 1));
        }
        if v[i - 1].0 == k {
            return Some(i - 1);
        }
        i = i - 1;
    }
    None
}

/// Sets `k` to `val`: see [`set_entry`].
fn set_entry_in<T: Copy>(v: &mut Vec<(BlockID, T)>, k: BlockID, val: T)
    ensures
        final(v)@ == set_entry(old(v)@, k, val),
{
    match find_key_in(v, k) {
        Some(i) => {
            v.set(i, (k, val));
            assert(v@ =~= old(v)@.update(i as int, (k, val)));
        },
        None => {
            v.push((k, val));
            assert(v@ =~= old(v)@.push((k, val)));
        },
    }
}

/// Sets each entry of `b` in `a`, in order: see [`extend`].
fn extend_in<T: Copy>(a: &mut Vec<(BlockID, T)>, b: &Vec<(BlockID, T)>)
    ensures
        final(a)@ == extend(old(a)@, b@),
{
    let mut i: usize = 0;
    proof {
        assert(b@.take(0) =~= Seq::<(BlockID, T)>::empty());
    }
    while i < b.len()
        invariant
            i <= b@.len(),
            a@ == extend(old(a)@, b@.take(i as int)),
        decreases b@.len() - i,
    {
        proof {
            assert(b@.take(i + 1).drop_last() =~= b@.take(i as int));
        }
        set_entry_in(a, b[i].0, b[i].1);
        i = i + 1;
    }
    proof {
        assert(b@.take(i as int) =~= b@);
    }
}

proof fn lemma_total_prefix(s: Seq<(BlockID, u64)>, i: int)
    requires
        0 <= i <= s.len(),
    ensures
        total(s.take(i)) <= total(s),
    decreases s.len(),
{
    if i < s.len() {
        assert(s.drop_last().take(i) =~= s.take(i));
        lemma_total_prefix(s.drop_last(), i);
    } else {
        assert(s.take(i) =~= s);
    }
}

proof fn lemma_total_nonneg(s: Seq<(BlockID, u64)>)
    ensures
        total(s) >= 0,
    decreases s.len(),
{
    if s.len() > 0 {
        lemma_total_nonneg(s.drop_last());
    }
}

/// The sum of the values; `None` where it overflows.
fn total_of(v: &Vec<(BlockID, u64)>) -> (r: Option<u64>)
    ensures
        0 <= total(v@),
        total(v@) <= u64::MAX ==> r == Some(total(v@) as u64),
        total(v@) > u64::MAX ==> r is None,
{
    proof {
        lemma_total_nonneg(v@);
    }
    let mut acc: u64 = 0;
    let mut i: usize = 0;
    proof {
        assert(v@.take(0) =~= Seq::<(BlockID, u64)>::empty());
    }
    while i < v.len()
        invariant
            i <= v@.len(),
            acc == total(v@.take(i as int)),
        decreases v@.len() - i,
    {
        proof {
            assert(v@.take(i + 1).drop_last() =~= v@.take(i as int));
        }
        match acc.checked_add(v[i].1) {
            None => {
                proof {
                    lemma_total_prefix(v@, i + 1);
                }
                return None;
            },
            Some(s) => {
                acc = s;
            },
        }
        i = i + 1;
    }
    proof {
        assert(v@.take(i as int) =~= v@);
    }
    Some(acc)
}

} // verus!

verus! {

fn heights_of(world: &World, block: &Block, fuel: u128) -> (r: Option<Vec<(BlockID, u64)>>)
    ensures
        match heights(world.0@, *block, fuel as nat) {
            None => r is None,
            Some(s) => r matches Some(v) && v@ == s,
        },
    decreases fuel, 0nat,
{
    if fuel == 0 {
        return None;
    }
    let (len, mut here): (u64, Vec<(BlockID, u64)>) = match &block.btype {
        BlockType::If(ib) => match body_heights_of(world, ib.if_stuff, fuel - 1, ROW) {
            None => {
                return None;
            },
            Some(p) => p,
        },
        BlockType::IfElse(ib, e) => {
            let mut m1 = match child_heights_of(world, ib.if_stuff, fuel - 1) {
                None => {
                    return None;
                },
                Some(m) => m,
            };
            let m2 = match child_heights_of(world, *e, fuel - 1) {
                None => {
                    return None;
                },
                Some(m) => m,
            };
            extend_in(&mut m1, &m2);
            match total_of(&m1) {
                None => {
                    return None;
                },
                Some(t) => {
                    if t > u64::MAX - 2 * ROW {
                        return None;
                    }
                    (t + 2 * ROW, m1)
                },
            }
        },
        BlockType::While(wb) => match body_heights_of(world, wb.while_stuff, fuel - 1, ROW) {
            None => {
                return None;
            },
            Some(p) => p,
        },
        BlockType::Blank => (0, Vec::new()),
        _ => (ROW, Vec::new()),
    };
    set_entry_in(&mut here, block.id, len);
    if block.next == 0 {
        return Some(here);
    }
    match world.0.get(&block.next) {
        None => None,
        Some(nb) => {
            if let BlockType::Blank = nb.btype {
                return Some(here);
            }
            match heights_of(world, nb, fuel - 1) {
                None => None,
                Some(rest) => {
                    extend_in(&mut here, &rest);
                    Some(here)
                },
            }
        },
    }
}

fn child_heights_of(world: &World, id: BlockID, fuel: u128) -> (r: Option<Vec<(BlockID, u64)>>)
    ensures
        match child_heights(world.0@, id, fuel as nat) {
            None => r is None,
            Some(s) => r matches Some(v) && v@ == s,
        },
    decreases fuel, 1nat,
{
    match world.0.get(&id) {
        None => None,
        Some(b) => heights_of(world, b, fuel),
    }
}

fn body_heights_of(world: &World, id: BlockID, fuel: u128, extra: u64) -> (r: Option<
    (u64, Vec<(BlockID, u64)>),
>)
    ensures
        match body_heights(world.0@, id, fuel as nat, extra) {
            None => r is None,
            Some(p) => r matches Some(q) && q.0 == p.0 && q.1@ == p.1,
        },
    decreases fuel, 2nat,
{
    match child_heights_of(world, id, fuel) {
        None => None,
        Some(m) => match total_of(&m) {
            None => None,
            Some(t) => {
                if t > u64::MAX - extra {
                    None
                } else {
                    Some((t + extra, m))
                }
            },
        },
    }
}

/// The height of each block from `block` on: see [`heights`]; `None` where
/// a named block is missing, a sum overflows, or the links run in a circle.
pub fn ylength_for_block_recur(world: &World, block: &Block) -> (r: Option<Vec<(BlockID, u64)>>)
    ensures
        match heights(world.0@, *block, world.0@.len() + 1) {
            None => r is None,
            Some(s) => r matches Some(v) && v@ == s,
        },
{
    heights_of(world, block, world.0.len() as u128 + 1)
}

} // verus!

verus! {

fn places_of(
    world: &World,
    length: &Vec<(BlockID, u64)>,
    block: &Block,
    x: u64,
    y: u64,
    fuel: u128,
) -> (r: Option<Vec<(BlockID, (u64, u64))>>)
    ensures
        match places(world.0@, length@, *block, x, y, fuel as nat) {
            None => r is None,
            Some(s) => r matches Some(v) && v@ == s,
        },
    decreases fuel, 0nat,
{
    if fuel == 0 {
        return None;
    }
    let inner = x <= u64::MAX - INDENT && y <= u64::MAX - ROW;
    let (at, mut here): ((u64, u64), Vec<(BlockID, (u64, u64))>) = match &block.btype {
        BlockType::If(ib) => {
            if !inner {
                return None;
            }
            match child_places_of(world, length, ib.if_stuff, x + INDENT, y + ROW, fuel - 1) {
                None => {
                    return None;
                },
                Some(m) => ((x, y), m),
            }
        },
        BlockType::IfElse(ib, e) => {
            if !inner {
                return None;
            }
            let mut m1 = match child_places_of(
                world,
                length,
                ib.if_stuff,
                x + INDENT,
                y + ROW,
                fuel - 1,
            ) {
                None => {
                    return None;
                },
                Some(m) => m,
            };
            let m2 = match child_places_of(world, length, *e, x + INDENT, y + ROW, fuel - 1) {
                None => {
                    return None;
                },
                Some(m) => m,
            };
            extend_in(&mut m1, &m2);
            ((x, y), m1)
        },
        BlockType::While(wb) => {
            if !inner {
                return None;
            }
            match child_places_of(world, length, wb.while_stuff, x + INDENT, y + ROW, fuel - 1) {
                None => {
                    return None;
                },
                Some(m) => ((x, y), m),
            }
        },
        BlockType::Blank => ((0, 0), Vec::new()),
        _ => ((x, y), Vec::new()),
    };
    set_entry_in(&mut here, block.id, at);
    if block.next == 0 {
        return Some(here);
    }
    match world.0.get(&block.next) {
        None => None,
        Some(nb) => match find_key_in(length, block.next) {
            None => None,
            Some(i) => {
                let h = length[i].1;
                if y > u64::MAX - h {
                    return None;
                }
                match places_of(world, length, nb, x, y + h, fuel - 1) {
                    None => None,
                    Some(rest) => {
                        extend_in(&mut here, &rest);
                        Some(here)
                    },
                }
            },
        },
    }
}

fn child_places_of(
    world: &World,
    length: &Vec<(BlockID, u64)>,
    id: BlockID,
    x: u64,
    y: u64,
    fuel: u128,
) -> (r: Option<Vec<(BlockID, (u64, u64))>>)
    ensures
        match child_places(world.0@, length@, id, x, y, fuel as nat) {
            None => r is None,
            Some(s) => r matches Some(v) && v@ == s,
        },
    decreases fuel, 1nat,
{
    match world.0.get(&id) {
        None => None,
        Some(b) => places_of(world, length, b, x, y, fuel),
    }
}

/// The place of each block from `block` on, with `block` at `(x, y)`:
/// see [`places`]; `None` where a named block or height is missing, a
/// coordinate overflows, or the links run in a circle.
pub fn location_for_block_recur(
    world: &World,
    length: &Vec<(BlockID, u64)>,
    block: &Block,
    x: u64,
    y: u64,
) -> (r: Option<Vec<(BlockID, (u64, u64))>>)
    ensures
        match places(world.0@, length@, *block, x, y, world.0@.len() + 1) {
            None => r is None,
            Some(s) => r matches Some(v) && v@ == s,
        },
{
    places_of(world, length, block, x, y, world.0.len() as u128 + 1)
}

} // verus!
