use std::collections::HashMap;

use prism::blockdata::{
    kill_everything_in_sight, Block, BlockType, IfBlk, WhileBlk, World, WorldManipulation,
};
use prism::layout::{location_for_block_recur, ylength_for_block_recur};

fn block(id: u64, next: u64, btype: BlockType) -> Block {
    Block { btype, id, next, loc: (0, 0), is_root: false }
}

fn expr(id: u64, next: u64) -> Block {
    block(id, next, BlockType::Expression(format!("e{}", id)))
}

fn world(blocks: Vec<Block>) -> World {
    let mut m = HashMap::new();
    for b in blocks {
        m.insert(b.id, b);
    }
    (m, HashMap::new(), 1, 1)
}

fn if_stuff(b: &Block) -> u64 {
    match &b.btype {
        BlockType::If(ib) => ib.if_stuff,
        BlockType::IfElse(ib, _) => ib.if_stuff,
        _ => panic!("not an if"),
    }
}

#[test]
fn attach_links_the_next_block() {
    let mut w = world(vec![expr(1, 0), expr(2, 0)]);
    w.attach(1, 2);
    assert_eq!(w.0[&1].next, 2);
    assert_eq!(w.0[&2].next, 0);
}

#[test]
fn attach_if_else_and_while_set_the_bodies() {
    let mut w = world(vec![
        block(1, 0, BlockType::If(IfBlk { cond: "c".to_string(), if_stuff: 0 })),
        block(2, 0, BlockType::IfElse(IfBlk { cond: "c".to_string(), if_stuff: 0 }, 0)),
        block(3, 0, BlockType::While(WhileBlk { cond: "c".to_string(), while_stuff: 0 })),
        expr(4, 0),
    ]);
    w.attach_if(1, 4);
    w.attach_if(2, 4);
    w.attach_else(2, 9);
    w.attach_while(3, 4);
    w.attach_while(4, 7);
    assert_eq!(if_stuff(&w.0[&1]), 4);
    assert_eq!(if_stuff(&w.0[&2]), 4);
    match &w.0[&2].btype {
        BlockType::IfElse(_, e) => assert_eq!(*e, 9),
        _ => panic!(),
    }
    match &w.0[&3].btype {
        BlockType::While(wb) => assert_eq!(wb.while_stuff, 4),
        _ => panic!(),
    }
    assert_eq!(w.0[&4].next, 0);
}

#[test]
fn detach_cuts_links_and_makes_a_root() {
    let mut w = world(vec![
        expr(1, 2),
        expr(2, 0),
        block(3, 0, BlockType::If(IfBlk { cond: "c".to_string(), if_stuff: 2 })),
    ]);
    w.detach(2);
    assert_eq!(w.0[&1].next, 0);
    assert_eq!(if_stuff(&w.0[&3]), 0);
    assert!(w.0[&2].is_root);
}

#[test]
fn moving_a_root_keeps_its_links() {
    let mut w = world(vec![expr(1, 2), expr(2, 0)]);
    w.0.get_mut(&2).unwrap().is_root = true;
    w.move_block(2, 5, 6);
    assert_eq!(w.0[&2].loc, (5, 6));
    assert_eq!(w.0[&1].next, 2);
}

#[test]
fn moving_an_attached_block_detaches_it() {
    let mut w = world(vec![expr(1, 2), expr(2, 0)]);
    w.move_block(2, 5, 6);
    assert_eq!(w.0[&2].loc, (5, 6));
    assert!(w.0[&2].is_root);
    assert_eq!(w.0[&1].next, 0);
}

#[test]
fn removal_follows_bodies_and_stops_at_id_zero() {
    let mut m = HashMap::new();
    m.insert(5, block(0, 0, BlockType::While(WhileBlk { cond: "c".to_string(), while_stuff: 6 })));
    m.insert(6, block(0, 9, BlockType::Expression("x".to_string())));
    m.insert(7, expr(7, 0));
    let mut w: World = (m, HashMap::new(), 1, 1);
    assert_eq!(kill_everything_in_sight(5, &w), Some(vec![5, 6]));
    w.rem(5);
    assert_eq!(w.0.len(), 1);
    assert!(w.0.contains_key(&7));
}

#[test]
fn removal_without_an_end_has_no_answer() {
    let w = world(vec![expr(1, 0)]);
    assert_eq!(kill_everything_in_sight(1, &w), None);
    let c = world(vec![block(0, 0, BlockType::If(IfBlk { cond: "c".to_string(), if_stuff: 0 }))]);
    assert_eq!(kill_everything_in_sight(0, &c), None);
}

#[test]
fn heights_and_places_of_an_if() {
    let w = world(vec![
        block(1, 3, BlockType::If(IfBlk { cond: "c".to_string(), if_stuff: 2 })),
        expr(2, 0),
        block(3, 0, BlockType::Return("r".to_string())),
    ]);
    let lengths = ylength_for_block_recur(&w, &w.0[&1]).unwrap();
    assert_eq!(lengths, vec![(2, 63), (1, 126), (3, 63)]);
    let places = location_for_block_recur(&w, &lengths, &w.0[&1], 10, 20).unwrap();
    assert_eq!(places, vec![(2, (60, 83)), (1, (10, 20)), (3, (10, 83))]);
}

#[test]
fn an_if_else_is_two_rows_taller_than_its_bodies() {
    let w = world(vec![
        block(1, 0, BlockType::IfElse(IfBlk { cond: "c".to_string(), if_stuff: 2 }, 3)),
        expr(2, 0),
        expr(3, 4),
        expr(4, 0),
    ]);
    let lengths = ylength_for_block_recur(&w, &w.0[&1]).unwrap();
    assert_eq!(lengths, vec![(2, 63), (3, 63), (4, 63), (1, 315)]);
}

#[test]
fn a_circle_of_blocks_has_no_layout() {
    let w = world(vec![expr(7, 7)]);
    assert_eq!(ylength_for_block_recur(&w, &w.0[&7]), None);
    assert_eq!(location_for_block_recur(&w, &vec![(7, 63)], &w.0[&7], 0, 0), None);
}
