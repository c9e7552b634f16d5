use ir_graph::basic_block::BasicBlock;
use ir_graph::instruction::{Inst, Opcode, Type};
use ir_graph::listing::insert_ascending;

fn forward(block: &BasicBlock) -> Vec<u32> {
    block.iterate().into_iter().map(|(id, _)| id).collect()
}

fn backward(block: &BasicBlock) -> Vec<u32> {
    block.iterate_back().into_iter().map(|(id, _)| id).collect()
}

#[test]
fn an_empty_block_has_no_ends() {
    let block = BasicBlock::new();
    assert_eq!(block.first, u32::MAX);
    assert_eq!(block.last, u32::MAX);
    assert!(block.instructions.is_empty());
    assert_eq!(forward(&block), Vec::<u32>::new());
    assert_eq!(backward(&block), Vec::<u32>::new());
    assert!(!block.contains(0));
    assert!(block.get(0).is_none());
}

#[test]
fn the_first_append_sets_both_ends() {
    let mut block = BasicBlock::new();
    let mut inst = Inst::new(Opcode::Parameter);
    inst.set_prev(77);
    inst.set_next(78);
    block.push_back(5, inst);
    assert_eq!((block.first, block.last), (5, 5));
    let stored = block.get(5).unwrap();
    assert_eq!(stored.get_prev(), u32::MAX);
    assert_eq!(stored.get_next(), u32::MAX);
    assert_eq!(forward(&block), vec![5]);
    assert_eq!(backward(&block), vec![5]);
}

#[test]
fn a_walk_meets_the_appended_in_order() {
    let mut block = BasicBlock::new();
    let ids = [9, 2, 30, 0, 17];
    for id in ids {
        block.push_back(id, Inst::new(Opcode::Add));
    }
    assert_eq!((block.first, block.last), (9, 17));
    assert_eq!(forward(&block), vec![9, 2, 30, 0, 17]);
    assert_eq!(backward(&block), vec![17, 0, 30, 2, 9]);
    assert_eq!(block.instructions.len(), 5);

    let mut next = block.first;
    let mut sentinels = 0;
    let mut seen = Vec::new();
    for _ in 0..=ids.len() {
        if next == u32::MAX {
            sentinels += 1;
            break;
        }
        seen.push(next);
        next = block.get(next).unwrap().get_next();
    }
    assert_eq!(seen, vec![9, 2, 30, 0, 17]);
    assert_eq!(sentinels, 1);
}

#[test]
fn links_name_the_neighbours() {
    let mut block = BasicBlock::new();
    block.push_back(1, Inst::new(Opcode::Parameter));
    block.push_back(2, Inst::new(Opcode::Constant));
    block.push_back(3, Inst::new(Opcode::Add));
    let links: Vec<(u32, u32)> = [1, 2, 3]
        .iter()
        .map(|id| {
            let inst = block.get(*id).unwrap();
            (inst.get_prev(), inst.get_next())
        })
        .collect();
    assert_eq!(links, vec![(u32::MAX, 2), (1, 3), (2, u32::MAX)]);
}

#[test]
fn an_append_keeps_what_the_instruction_holds() {
    let mut block = BasicBlock::new();
    let mut con = Inst::new(Opcode::Constant);
    assert!(con.set_value(12).is_ok());
    con.set_type(Type::I32);
    con.insert_user(8);
    block.push_back(4, con);
    let items = block.iterate();
    assert_eq!(items.len(), 1);
    let (id, inst) = items[0];
    assert_eq!(id, 4);
    assert_eq!(inst.opcode(), Opcode::Constant);
    assert_eq!(inst.base().type_, Type::I32);
    assert_eq!(inst.sorted_users(), vec![8]);
    match inst {
        Inst::Constant(c) => assert_eq!(c.value, 12),
        _ => panic!("a constant was appended"),
    }
}

#[test]
fn a_stored_instruction_is_changed_in_place() {
    let mut block = BasicBlock::new();
    block.push_back(1, Inst::new(Opcode::Parameter));
    block.push_back(2, Inst::new(Opcode::Parameter));
    block.inst_mut(1).unwrap().set_type(Type::I32);
    assert!(block.inst_mut(3).is_none());
    assert_eq!(block.get(1).unwrap().base().type_, Type::I32);
    assert_eq!(block.get(2).unwrap().base().type_, Type::NoType);
    assert_eq!(forward(&block), vec![1, 2]);
}

#[test]
fn insertion_keeps_the_order_and_skips_what_is_there() {
    let mut v: Vec<u32> = Vec::new();
    insert_ascending(&mut v, 5);
    insert_ascending(&mut v, 1);
    insert_ascending(&mut v, 9);
    insert_ascending(&mut v, 5);
    insert_ascending(&mut v, 0);
    insert_ascending(&mut v, 9);
    insert_ascending(&mut v, 7);
    assert_eq!(v, vec![0, 1, 5, 7, 9]);
}
