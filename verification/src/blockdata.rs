//! The blocks of the block editor and how they hang together: each block
//! names the block after it, and `if`, `if`/`else` and `while` blocks name
//! the first block of each body; 0 names no block. Positions on screen are
//! worked out elsewhere.
use vstd::prelude::*;
use std::collections::HashMap;
use vstd::std_specs::iter::IteratorSpec;

verus! {

broadcast use vstd::std_specs::hash::group_hash_axioms;

pub type BlockID = u64;

pub type ExprID = u64;

#[derive(Debug)]
pub struct Block {
    pub btype: BlockType,
    pub id: BlockID,
    pub next: BlockID,
    pub loc: (u64, u64),
    pub is_root: bool,
}

#[derive(Debug)]
pub enum BlockType {
    FuncStart(Func),
    Declaration(Type, Assign),
    Assignment(Assign),
    Expression(String),
    Return(String),
    If(IfBlk),
    IfElse(IfBlk, BlockID),
    While(WhileBlk),
    Blank,
}

/// An expression block of the editor.
#[derive(Clone, Debug)]
pub struct VisualExpr {
    pub vtype: VExprType,
    pub id: String,
}

#[derive(Clone, Debug)]
pub enum VExprType {
    BinOp(BinOperator),
    Literal(Type, Value),
    Variable(String),
    Blank,
}

/// A literal's value; a decimal is kept as the bit pattern of its
/// IEEE-754 double.
#[derive(Clone, Debug)]
pub enum Value {
    Int(i32),
    Dcml(u64),
    Bool(bool),
    Blank,
}

#[derive(Clone, Copy, Debug, PartialEq, Eq, Structural)]
pub enum Type {
    Int,
    Dcml,
    Bool,
    Blank,
}

#[derive(Debug)]
pub struct Func {
    pub fname: String,
    pub ret_type: Type,
    pub args: Vec<(String, Type)>,
}

#[derive(Clone, Debug)]
pub struct Assign {
    pub vname: String,
    pub set_to: String,
}

#[derive(Clone, Debug)]
pub struct IfBlk {
    pub cond: String,
    pub if_stuff: BlockID,
}

#[derive(Clone, Debug)]
pub struct WhileBlk {
    pub cond: String,
    pub while_stuff: BlockID,
}

#[derive(Clone, Debug)]
pub struct BinOperator {
    pub op_enum: BinOp,
    pub left: String,
    pub right: String,
}

#[derive(Clone, Copy, Debug, PartialEq, Eq, Structural)]
pub enum BinOp {
    Add,
    Sub,
    Mul,
    Div,
    Eq,
    Neq,
    Ls,
    Gr,
    Le,
    Ge,
    And,
    Or,
    Xor,
}

/// The blocks by id, the expressions by id, and two counters.
pub type World = (HashMap<BlockID, Block>, HashMap<ExprID, VisualExpr>, u64, u64);

/// A block with the first block of its `if` body set to `to`; other blocks
/// unchanged.
pub open spec fn with_if_body(b: Block, to: BlockID) -> Block {
    match b.btype {
        BlockType::If(ib) => Block { btype: BlockType::If(IfBlk { if_stuff: to, ..ib }), ..b },
        BlockType::IfElse(ib, e) => Block {
            btype: BlockType::IfElse(IfBlk { if_stuff: to, ..ib }, e),
            ..b
        },
        _ => b,
    }
}

/// A block with the first block of its `else` body set to `to`.
pub open spec fn with_else_body(b: Block, to: BlockID) -> Block {
    match b.btype {
        BlockType::IfElse(ib, _) => Block { btype: BlockType::IfElse(ib, to), ..b },
        _ => b,
    }
}

/// A block with the first block of its `while` body set to `to`.
pub open spec fn with_while_body(b: Block, to: BlockID) -> Block {
    match b.btype {
        BlockType::While(wb) => Block {
            btype: BlockType::While(WhileBlk { while_stuff: to, ..wb }),
            ..b
        },
        _ => b,
    }
}

/// A block with every link to `d` cut: the link to the next block if it
/// names `d`; otherwise the first body link that names `d`.
pub open spec fn cut_link(b: Block, d: BlockID) -> Block {
    if b.next == d {
        Block { next: 0, ..b }
    } else {
        match b.btype {
            BlockType::If(ib) => if ib.if_stuff == d {
                with_if_body(b, 0)
            } else {
                b
            },
            BlockType::IfElse(ib, e) => if ib.if_stuff == d {
                with_if_body(b, 0)
            } else if e == d {
                with_else_body(b, 0)
            } else {
                b
            },
            BlockType::While(wb) => if wb.while_stuff == d {
                with_while_body(b, 0)
            } else {
                b
            },
            _ => b,
        }
    }
}

/// The blocks after cutting every link to `d` and making `d` a root.
pub open spec fn detached(m: Map<BlockID, Block>, d: BlockID) -> Map<BlockID, Block> {
    let cut = m.map_values(|b: Block| cut_link(b, d));
    cut.insert(d, Block { is_root: true, ..cut[d] })
}

/// The ids that removing `cur` removes, in the order they are gathered:
/// the block, then (for a block whose own id is not 0) what follows it,
/// then its bodies. `None` where a named block is missing or the links
/// run in a circle, which `fuel` (one more than the number of blocks)
/// detects.
pub open spec fn doomed(m: Map<BlockID, Block>, cur: BlockID, fuel: nat) -> Option<Seq<BlockID>>
    decreases fuel, 0nat,
{
    if fuel == 0 || !m.contains_key(cur) {
        None
    } else {
        let b = m[cur];
        let head = if b.id != 0 {
            match doomed(m, b.next, (fuel - 1) as nat) {
                None => None,
                Some(s) => Some(seq![cur] + s),
            }
        } else {
            Some(seq![cur])
        };
        match head {
            None => None,
            Some(acc) => match doomed_bodies(m, b.btype, (fuel - 1) as nat) {
                None => None,
                Some(s) => Some(acc + s),
            },
        }
    }
}

/// The ids that removing the bodies of a block of type `bt` removes.
pub open spec fn doomed_bodies(m: Map<BlockID, Block>, bt: BlockType, fuel: nat) -> Option<
    Seq<BlockID>,
>
    decreases fuel, 1nat,
{
    match bt {
        BlockType::If(ib) => doomed(m, ib.if_stuff, fuel),
        BlockType::IfElse(ib, e) => match doomed(m, ib.if_stuff, fuel) {
            None => None,
            Some(s1) => match doomed(m, e, fuel) {
                None => None,
                Some(s2) => Some(s1 + s2),
            },
        },
        BlockType::While(wb) => doomed(m, wb.while_stuff, fuel),
        _ => Some(Seq::empty()),
    }
}

/// The ids that removing `cur` from the blocks `m` removes: see [`doomed`].
pub open spec fn removal(m: Map<BlockID, Block>, cur: BlockID) -> Option<Seq<BlockID>> {
    doomed(m, cur, m.dom().len() + 1)
}

/// The blocks without the given ids.
pub open spec fn without(m: Map<BlockID, Block>, ids: Seq<BlockID>) -> Map<BlockID, Block> {
    m.remove_keys(ids.to_set())
}

/// Editing the links between blocks.
pub trait WorldManipulation {
    spec fn has_block(&self, id: BlockID) -> bool;

    /// Removing the block stops: every block it reaches exists and the
    /// links from it run in no circle.
    spec fn removable(&self, id: BlockID) -> bool;

    fn attach(&mut self, block: BlockID, attaching: BlockID)
        requires
            old(self).has_block(block),
    ;

    fn rem(&mut self, block_deleted: BlockID)
        requires
            old(self).removable(block_deleted),
    ;

    fn detach(&mut self, detaching: BlockID)
        requires
            old(self).has_block(detaching),
    ;

    fn attach_if(&mut self, block: BlockID, attaching: BlockID)
        requires
            old(self).has_block(block),
    ;

    fn attach_else(&mut self, block: BlockID, attaching: BlockID)
        requires
            old(self).has_block(block),
    ;

    fn attach_while(&mut self, block: BlockID, attaching: BlockID)
        requires
            old(self).has_block(block),
    ;

    fn move_block(&mut self, block: BlockID, x: u64, y: u64)
        requires
            old(self).has_block(block),
    ;
}

} // verus!

verus! {

/// Cuts the links of `b` to `d`: see [`cut_link`].
fn cut_link_in(b: &mut Block, d: BlockID)
    ensures
        *final(b) == cut_link(*old(b), d),
{
    if b.next == d {
        b.next = 0;
    } else {
        match &mut b.btype {
            BlockType::If(ib) => {
                if ib.if_stuff == d {
                    ib.if_stuff = 0;
                }
            },
            BlockType::IfElse(ib, e) => {
                if ib.if_stuff == d {
                    ib.if_stuff = 0;
                } else if *e == d {
                    *e = 0;
                }
            },
            BlockType::While(wb) => {
                if wb.while_stuff == d {
                    wb.while_stuff = 0;
                }
            },
            _ => {},
        }
    }
}

/// Gathers the ids that removing `cur` removes: see [`doomed`].
fn gather(m: &HashMap<BlockID, Block>, cur: BlockID, fuel: u128, out: &mut Vec<BlockID>) -> (ok:
    bool)
    ensures
        match doomed(m@, cur, fuel as nat) {
            Some(s) => ok && final(out)@ == old(out)@ + s,
            None => !ok,
        },
    decreases fuel, 0nat,
{
    if fuel == 0 {
        return false;
    }
    match m.get(&cur) {
        None => false,
        Some(b) => {
            out.push(cur);
            let ghost after_self = out@;
            if b.id != 0 {
                if !gather(m, b.next, fuel - 1, out) {
                    return false;
                }
            }
            let ghost after_next = out@;
            let ok = gather_bodies(m, &b.btype, fuel - 1, out);
            proof {
                if ok {
                    assert(out@ =~= old(out)@ + (seq![cur] + after_next.subrange(
                        after_self.len() as int,
                        after_next.len() as int,
                    ) + out@.subrange(after_next.len() as int, out@.len() as int)));
                    if b.id != 0 {
                        assert(after_next =~= after_self + after_next.subrange(
                            after_self.len() as int,
                            after_next.len() as int,
                        ));
                    } else {
                        assert(after_next.subrange(after_self.len() as int, after_next.len() as int)
                            =~= Seq::<BlockID>::empty());
                    }
                }
            }
            ok
        },
    }
}

/// Gathers the ids that removing the bodies of a block of type `bt`
/// removes: see [`doomed_bodies`].
fn gather_bodies(m: &HashMap<BlockID, Block>, bt: &BlockType, fuel: u128, out: &mut Vec<BlockID>) -> (ok:
    bool)
    ensures
        match doomed_bodies(m@, *bt, fuel as nat) {
            Some(s) => ok && final(out)@ == old(out)@ + s,
            None => !ok,
        },
    decreases fuel, 1nat,
{
    match bt {
        BlockType::If(ib) => gather(m, ib.if_stuff, fuel, out),
        BlockType::IfElse(ib, e) => {
            if !gather(m, ib.if_stuff, fuel, out) {
                return false;
            }
            let ghost mid = out@;
            let ok = gather(m, *e, fuel, out);
            proof {
                if ok {
                    assert(out@ =~= old(out)@ + (mid.subrange(old(out)@.len() as int, mid.len() as int)
                        + out@.subrange(mid.len() as int, out@.len() as int)));
                }
            }
            ok
        },
        BlockType::While(wb) => gather(m, wb.while_stuff, fuel, out),
        _ => {
            assert(out@ =~= old(out)@ + Seq::<BlockID>::empty());
            true
        },
    }
}

} // verus!

verus! {

/// The ids of the blocks, each once.
fn block_ids(m: &HashMap<BlockID, Block>) -> (r: Vec<BlockID>)
    ensures
        r@.to_set() == m@.dom(),
        r@.no_duplicates(),
{
    let mut ids: Vec<BlockID> = Vec::new();
    for k in it: m.keys()
        invariant
            ids@ == it.seq().take(it.index()).unref(),
            it.seq() == vstd::std_specs::hash::spec_keys_iter(m).remaining(),
    {
        ids.push(*k);
        proof {
            assert(ids@ =~= it.seq().take(it.index() + 1).unref());
        }
    }
    proof {
        assert(ids@ =~= vstd::std_specs::hash::spec_keys_iter(m).remaining().unref());
    }
    ids
}

/// The ids that removing `cur` removes, in order: see [`removal`]; `None`
/// where a named block is missing or the links run in a circle.
pub fn kill_everything_in_sight(cur: BlockID, world: &World) -> (r: Option<Vec<BlockID>>)
    ensures
        match removal(world.0@, cur) {
            Some(s) => r matches Some(v) && v@ == s,
            None => r is None,
        },
{
    let mut murdervec: Vec<BlockID> = Vec::new();
    let n = world.0.len();
    if gather(&world.0, cur, n as u128 + 1, &mut murdervec) {
        proof {
            assert(murdervec@ =~= removal(world.0@, cur).unwrap());
        }
        Some(murdervec)
    } else {
        None
    }
}

impl WorldManipulation for World {
    open spec fn has_block(&self, id: BlockID) -> bool {
        self.0@.contains_key(id)
    }

    open spec fn removable(&self, id: BlockID) -> bool {
        removal(self.0@, id) is Some
    }

    /// Links `attaching` as the block after `block`.
    fn attach(&mut self, block: BlockID, attaching: BlockID)
        ensures
            final(self).0@ == old(self).0@.insert(
                block,
                (Block { next: attaching, ..old(self).0@[block] }),
            ),
            final(self).1@ == old(self).1@,
            final(self).2 == old(self).2,
            final(self).3 == old(self).3,
    {
        let mut b = self.0.remove(&block).unwrap();
        b.next = attaching;
        self.0.insert(block, b);
        proof {
            assert(self.0@ =~= old(self).0@.insert(
                block,
                (Block { next: attaching, ..old(self).0@[block] }),
            ));
        }
    }

    /// Removes the block with everything that hangs from it: see
    /// [`removal`].
    fn rem(&mut self, block_deleted: BlockID)
        ensures
            final(self).0@ == without(old(self).0@, removal(old(self).0@, block_deleted).unwrap()),
            final(self).1@ == old(self).1@,
            final(self).2 == old(self).2,
            final(self).3 == old(self).3,
    {
        let ghost m0 = self.0@;
        let murdervec = match kill_everything_in_sight(block_deleted, self) {
            Some(v) => v,
            None => {
                return ;
            },
        };
        let mut i: usize = 0;
        while i < murdervec.len()
            invariant
                i <= murdervec@.len(),
                self.0@ == m0.remove_keys(murdervec@.take(i as int).to_set()),
                self.1@ == old(self).1@,
                self.2 == old(self).2,
                self.3 == old(self).3,
            decreases murdervec@.len() - i,
        {
            let ghost before = self.0@;
            self.0.remove(&murdervec[i]);
            proof {
                let t0 = murdervec@.take(i as int);
                let t1 = murdervec@.take(i + 1);
                assert(t1 =~= t0.push(murdervec@[i as int]));
                assert forall|k: BlockID| t1.to_set().contains(k) <==> (t0.to_set().contains(k) || k
                    == murdervec@[i as int]) by {
                    if t1.contains(k) && k != murdervec@[i as int] {
                        let j = choose|j: int| 0 <= j < t1.len() && t1[j] == k;
                        assert(t0[j] == k);
                    }
                    if t0.contains(k) {
                        let j = choose|j: int| 0 <= j < t0.len() && t0[j] == k;
                        assert(t1[j] == k);
                    }
                    if k == murdervec@[i as int] {
                        assert(t1[i as int] == k);
                    }
                }
                assert(self.0@ =~= m0.remove_keys(t1.to_set()));
            }
            i = i + 1;
        }
        proof {
            assert(murdervec@.take(i as int) =~= murdervec@);
        }
    }

    /// Cuts every link to `detaching` and makes it a root: see
    /// [`detached`].
    fn detach(&mut self, detaching: BlockID)
        ensures
            final(self).0@ == detached(old(self).0@, detaching),
            final(self).1@ == old(self).1@,
            final(self).2 == old(self).2,
            final(self).3 == old(self).3,
    {
        let ghost m0 = self.0@;
        let ids = block_ids(&self.0);
        let mut i: usize = 0;
        while i < ids.len()
            invariant
                i <= ids@.len(),
                ids@.to_set() == m0.dom(),
                ids@.no_duplicates(),
                self.0@.dom() == m0.dom(),
                forall|k: BlockID|
                    m0.contains_key(k) ==> #[trigger] self.0@[k] == if ids@.take(
                        i as int,
                    ).contains(k) {
                        cut_link(m0[k], detaching)
                    } else {
                        m0[k]
                    },
                self.1@ == old(self).1@,
                self.2 == old(self).2,
                self.3 == old(self).3,
            decreases ids@.len() - i,
        {
            let k = ids[i];
            proof {
                assert(ids@.to_set().contains(k));
                assert(!ids@.take(i as int).contains(k)) by {
                    if ids@.take(i as int).contains(k) {
                        let j = choose|j: int| 0 <= j < i && #[trigger] ids@[j] == k;
                        assert(ids@.take(i as int)[j] == k);
                        assert(ids@[j] == ids@[i as int]);
                    }
                }
            }
            let mut b = self.0.remove(&k).unwrap();
            cut_link_in(&mut b, detaching);
            self.0.insert(k, b);
            proof {
                assert forall|q: BlockID| m0.contains_key(q) implies #[trigger] self.0@[q] == if ids@.take(
                    i + 1,
                ).contains(q) {
                    cut_link(m0[q], detaching)
                } else {
                    m0[q]
                } by {
                    if q == k {
                        assert(ids@.take(i + 1)[i as int] == k);
                    } else {
                        if ids@.take(i + 1).contains(q) {
                            let j = choose|j: int| 0 <= j < i + 1 && #[trigger] ids@[j] == q;
                            assert(ids@.take(i + 1)[j] == q);
                            assert(ids@.take(i as int)[j] == q);
                        }
                        if ids@.take(i as int).contains(q) {
                            let j = choose|j: int| 0 <= j < i && #[trigger] ids@[j] == q;
                            assert(ids@.take(i as int)[j] == q);
                            assert(ids@.take(i + 1)[j] == q);
                        }
                    }
                }
                assert(self.0@.dom() =~= m0.dom());
            }
            i = i + 1;
        }
        let mut b = self.0.remove(&detaching).unwrap();
        b.is_root = true;
        self.0.insert(detaching, b);
        proof {
            assert forall|k: BlockID| m0.contains_key(k) implies ids@.take(i as int).contains(k) by {
                assert(ids@.to_set().contains(k));
                let j = choose|j: int| 0 <= j < ids@.len() && ids@[j] == k;
                assert(ids@.take(i as int)[j] == k);
            }
            let cut = m0.map_values(|b: Block| cut_link(b, detaching));
            assert(self.0@ =~= cut.insert(detaching, (Block { is_root: true, ..cut[detaching] })));
        }
    }

    /// Links `attaching` as the first block of the `if` body.
    fn attach_if(&mut self, block: BlockID, attaching: BlockID)
        ensures
            final(self).0@ == old(self).0@.insert(block, with_if_body(old(self).0@[block], attaching)),
            final(self).1@ == old(self).1@,
            final(self).2 == old(self).2,
            final(self).3 == old(self).3,
    {
        let mut b = self.0.remove(&block).unwrap();
        match &mut b.btype {
            BlockType::If(ib) => {
                ib.if_stuff = attaching;
            },
            BlockType::IfElse(ib, _) => {
                ib.if_stuff = attaching;
            },
            _ => {},
        }
        self.0.insert(block, b);
        proof {
            assert(self.0@ =~= old(self).0@.insert(block, with_if_body(old(self).0@[block], attaching)));
        }
    }

    /// Links `attaching` as the first block of the `else` body.
    fn attach_else(&mut self, block: BlockID, attaching: BlockID)
        ensures
            final(self).0@ == old(self).0@.insert(block, with_else_body(old(self).0@[block], attaching)),
            final(self).1@ == old(self).1@,
            final(self).2 == old(self).2,
            final(self).3 == old(self).3,
    {
        let mut b = self.0.remove(&block).unwrap();
        match &mut b.btype {
            BlockType::IfElse(_, e) => {
                *e = attaching;
            },
            _ => {},
        }
        self.0.insert(block, b);
        proof {
            assert(self.0@ =~= old(self).0@.insert(block, with_else_body(old(self).0@[block], attaching)));
        }
    }

    /// Links `attaching` as the first block of the `while` body.
    fn attach_while(&mut self, block: BlockID, attaching: BlockID)
        ensures
            final(self).0@ == old(self).0@.insert(block, with_while_body(old(self).0@[block], attaching)),
            final(self).1@ == old(self).1@,
            final(self).2 == old(self).2,
            final(self).3 == old(self).3,
    {
        let mut b = self.0.remove(&block).unwrap();
        match &mut b.btype {
            BlockType::While(wb) => {
                wb.while_stuff = attaching;
            },
            _ => {},
        }
        self.0.insert(block, b);
        proof {
            assert(self.0@ =~= old(self).0@.insert(block, with_while_body(old(self).0@[block], attaching)));
        }
    }

    /// Moves the block to `(x, y)`; a block that is not a root is then
    /// detached.
    fn move_block(&mut self, block: BlockID, x: u64, y: u64)
        ensures
            ({
                let moved = old(self).0@.insert(block, (Block { loc: (x, y), ..old(self).0@[block] }));
                final(self).0@ == if old(self).0@[block].is_root {
                    moved
                } else {
                    detached(moved, block)
                }
            }),
            final(self).1@ == old(self).1@,
            final(self).2 == old(self).2,
            final(self).3 == old(self).3,
    {
        let mut b = self.0.remove(&block).unwrap();
        let is_root = b.is_root;
        b.loc.0 = x;
        b.loc.1 = y;
        self.0.insert(block, b);
        proof {
            assert(self.0@ =~= old(self).0@.insert(block, (Block { loc: (x, y), ..old(self).0@[block] })));
        }
        if !is_root {
            self.detach(block);
        }
    }
}

} // verus!

verus! {

/// After detaching `d`, no block names `d` as the block after it, and `d`
/// is a root.
pub proof fn law_detach_cuts_next(m: Map<BlockID, Block>, d: BlockID, k: BlockID)
    requires
        m.contains_key(d),
        m.contains_key(k),
        d != 0,
    ensures
        detached(m, d)[k].next != d,
        detached(m, d)[d].is_root,
        detached(m, d).dom() == m.dom(),
{
    let cut = m.map_values(|b: Block| cut_link(b, d));
    assert(cut[k] == cut_link(m[k], d));
    assert(detached(m, d).dom() =~= m.dom());
}

/// Removing a block takes the block itself out.
pub proof fn law_removed_block_is_gone(m: Map<BlockID, Block>, id: BlockID)
    requires
        removal(m, id) is Some,
    ensures
        !without(m, removal(m, id).unwrap()).contains_key(id),
{
    let s = removal(m, id).unwrap();
    assert(s[0] == id);
    assert(s.to_set().contains(id));
}

} // verus!
