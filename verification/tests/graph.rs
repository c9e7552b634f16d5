use ir_graph::basic_block::BasicBlock;
use ir_graph::error::IrError;
use ir_graph::graph::{Graph, END_BLOCK, START_BLOCK};
use ir_graph::instruction::{Inst, Opcode, Type};

fn order(graph: &Graph, bb: i8) -> Vec<u32> {
    graph.blocks[&bb].iterate().into_iter().map(|(id, _)| id).collect()
}

fn users(graph: &Graph, bb: i8, id: u32) -> Vec<u32> {
    graph.get(bb, id).unwrap().sorted_users()
}

fn operands(graph: &Graph, bb: i8, id: u32) -> (u32, u32) {
    match graph.get(bb, id).unwrap() {
        Inst::Add(op) => (op.input1, op.input2),
        _ => panic!("a binary operation is expected"),
    }
}

fn small() -> Graph {
    let mut graph = Graph::new();
    assert_eq!(graph.push_inst(0, 1, Inst::new(Opcode::Parameter)), Ok(()));
    assert_eq!(graph.push_inst(0, 2, Inst::new(Opcode::Constant)), Ok(()));
    assert_eq!(graph.push(2, BasicBlock::new()), Ok(()));
    assert_eq!(graph.push_inst(2, 3, Inst::new(Opcode::Add)), Ok(()));
    graph
}

#[test]
fn a_new_graph_has_the_two_reserved_blocks() {
    let graph = Graph::new();
    assert_eq!((START_BLOCK, END_BLOCK), (0, -1));
    assert_eq!(graph.blocks.len(), 2);
    assert!(graph.blocks[&0].instructions.is_empty());
    assert!(graph.blocks[&-1].instructions.is_empty());
    assert_eq!(graph.block_ids(), vec![0, -1]);
    assert_eq!(graph.contains_inst(0), -1);
}

#[test]
fn a_block_identity_is_taken_once() {
    let mut graph = Graph::new();
    assert_eq!(graph.push(0, BasicBlock::new()), Err(IrError::DuplicateId));
    assert_eq!(graph.push(-1, BasicBlock::new()), Err(IrError::DuplicateId));
    assert_eq!(graph.push(7, BasicBlock::new()), Ok(()));
    assert_eq!(graph.push_inst(7, 1, Inst::new(Opcode::Parameter)), Ok(()));
    assert_eq!(graph.push(7, BasicBlock::new()), Err(IrError::DuplicateId));
    assert_eq!(order(&graph, 7), vec![1]);
    assert_eq!(graph.blocks.len(), 3);
}

#[test]
fn blocks_are_listed_ascending_with_the_end_block_last() {
    let mut graph = Graph::new();
    for id in [5, -128, 127, -2, 1] {
        assert_eq!(graph.push(id, BasicBlock::new()), Ok(()));
    }
    assert_eq!(graph.block_ids(), vec![-128, -2, 0, 1, 5, 127, -1]);
}

#[test]
fn an_instruction_identity_is_taken_once_in_the_whole_graph() {
    let mut graph = small();
    assert_eq!(graph.push_inst(0, 1, Inst::new(Opcode::Parameter)), Err(IrError::DuplicateId));
    assert_eq!(graph.push_inst(2, 1, Inst::new(Opcode::Add)), Err(IrError::DuplicateId));
    assert_eq!(graph.push_inst(0, 3, Inst::new(Opcode::Constant)), Err(IrError::DuplicateId));
    assert_eq!(graph.push_inst(9, 3, Inst::new(Opcode::Constant)), Err(IrError::DuplicateId));
    assert_eq!(graph.push_inst(-1, 2, Inst::new(Opcode::Constant)), Err(IrError::DuplicateId));
    assert_eq!(order(&graph, 0), vec![1, 2]);
    assert_eq!(order(&graph, 2), vec![3]);
    assert_eq!(graph.get(0, 1).unwrap().opcode(), Opcode::Parameter);
}

#[test]
fn an_instruction_needs_a_block_that_exists() {
    let mut graph = small();
    assert_eq!(graph.push_inst(9, 4, Inst::new(Opcode::Add)), Err(IrError::UnknownBlock));
    assert_eq!(graph.contains_inst(4), -1);
    assert_eq!(graph.blocks.len(), 3);
}

#[test]
fn the_end_block_and_the_sentinel_identity_are_reserved() {
    let mut graph = small();
    assert_eq!(graph.push_inst(-1, 4, Inst::new(Opcode::Add)), Err(IrError::ReservedId));
    assert_eq!(graph.push_inst(0, u32::MAX, Inst::new(Opcode::Add)), Err(IrError::ReservedId));
    assert_eq!(graph.push_inst(9, u32::MAX, Inst::new(Opcode::Add)), Err(IrError::UnknownBlock));
    assert!(graph.blocks[&-1].instructions.is_empty());
    assert_eq!(order(&graph, 0), vec![1, 2]);
    assert_eq!(graph.contains_inst(4), -1);
}

#[test]
fn lookup_finds_the_block_of_an_instruction() {
    let graph = small();
    assert_eq!(graph.contains_inst(1), 0);
    assert_eq!(graph.contains_inst(2), 0);
    assert_eq!(graph.contains_inst(3), 2);
    assert_eq!(graph.contains_inst(4), -1);
    assert_eq!(graph.contains_inst(u32::MAX), -1);
    assert!(graph.get(2, 3).is_some());
    assert!(graph.get(0, 3).is_none());
    assert!(graph.get(5, 3).is_none());
}

#[test]
fn wiring_sets_operands_and_users() {
    let mut graph = small();
    assert_eq!(graph.set_inputs(3, &[2, 1]), Ok(()));
    assert_eq!(operands(&graph, 2, 3), (2, 1));
    assert_eq!(users(&graph, 0, 1), vec![3]);
    assert_eq!(users(&graph, 0, 2), vec![3]);
    assert_eq!(users(&graph, 2, 3), Vec::<u32>::new());
    assert_eq!(order(&graph, 0), vec![1, 2]);
    assert_eq!(order(&graph, 2), vec![3]);
}

#[test]
fn wiring_an_instruction_to_itself_and_twice_to_another() {
    let mut graph = small();
    assert_eq!(graph.set_inputs(3, &[3, 3]), Ok(()));
    assert_eq!(operands(&graph, 2, 3), (3, 3));
    assert_eq!(users(&graph, 2, 3), vec![3]);
    assert_eq!(graph.set_inputs(3, &[1, 1]), Ok(()));
    assert_eq!(operands(&graph, 2, 3), (1, 1));
    assert_eq!(users(&graph, 0, 1), vec![3]);
    assert_eq!(users(&graph, 2, 3), vec![3]);
}

#[test]
fn wiring_an_unknown_target_fails() {
    let mut graph = small();
    assert_eq!(graph.set_inputs(9, &[1, 2]), Err(IrError::UnknownInstruction));
    assert_eq!(graph.set_inputs(u32::MAX, &[1, 2]), Err(IrError::UnknownInstruction));
    assert_eq!(users(&graph, 0, 1), Vec::<u32>::new());
    assert_eq!(users(&graph, 0, 2), Vec::<u32>::new());
}

#[test]
fn wiring_an_unknown_input_fails_and_changes_nothing() {
    let mut graph = small();
    assert_eq!(graph.set_inputs(3, &[1, 2]), Ok(()));
    assert_eq!(graph.push_inst(2, 4, Inst::new(Opcode::Add)), Ok(()));
    assert_eq!(graph.set_inputs(4, &[1, 9]), Err(IrError::UnknownInstruction));
    assert_eq!(graph.set_inputs(4, &[9, 1]), Err(IrError::UnknownInstruction));
    assert_eq!(graph.set_inputs(4, &[1, u32::MAX]), Err(IrError::UnknownInstruction));
    assert_eq!(graph.set_inputs(4, &[1, 2, 9]), Err(IrError::UnknownInstruction));
    assert_eq!(graph.set_inputs(1, &[9]), Err(IrError::UnknownInstruction));
    assert!(IrError::UnknownInstruction.is_unknown_reference());
    assert_eq!(operands(&graph, 2, 4), (u32::MAX, u32::MAX));
    assert_eq!(users(&graph, 0, 1), vec![3]);
    assert_eq!(users(&graph, 0, 2), vec![3]);
    assert_eq!(graph.contains_inst(9), -1);
}

#[test]
fn wiring_into_another_variant_is_unsupported_and_changes_nothing() {
    let mut graph = small();
    assert_eq!(graph.set_inputs(1, &[2, 3]), Err(IrError::UnsupportedOperation));
    assert_eq!(graph.set_inputs(2, &[1]), Err(IrError::UnsupportedOperation));
    assert_eq!(graph.set_inputs(2, &[]), Err(IrError::UnsupportedOperation));
    assert_eq!(users(&graph, 0, 1), Vec::<u32>::new());
    assert_eq!(users(&graph, 0, 2), Vec::<u32>::new());
    assert_eq!(users(&graph, 2, 3), Vec::<u32>::new());
}

#[test]
fn wiring_the_wrong_number_of_operands_changes_nothing() {
    let mut graph = small();
    assert_eq!(graph.set_inputs(3, &[]), Err(IrError::ArityMismatch));
    assert_eq!(graph.set_inputs(3, &[1]), Err(IrError::ArityMismatch));
    assert_eq!(graph.set_inputs(3, &[1, 2, 1]), Err(IrError::ArityMismatch));
    assert_eq!(operands(&graph, 2, 3), (u32::MAX, u32::MAX));
    assert_eq!(users(&graph, 0, 1), Vec::<u32>::new());
    assert_eq!(users(&graph, 0, 2), Vec::<u32>::new());
}

#[test]
fn wiring_again_keeps_the_earlier_users() {
    let mut graph = small();
    assert_eq!(graph.push_inst(2, 4, Inst::new(Opcode::Add)), Ok(()));
    assert_eq!(graph.set_inputs(4, &[1, 2]), Ok(()));
    assert_eq!(graph.set_inputs(4, &[3, 3]), Ok(()));
    assert_eq!(operands(&graph, 2, 4), (3, 3));
    assert_eq!(users(&graph, 0, 1), vec![4]);
    assert_eq!(users(&graph, 2, 3), vec![4]);
}

#[test]
fn an_instruction_of_the_graph_is_changed_in_place() {
    let mut graph = small();
    graph.inst_mut(0, 2).unwrap().set_type(Type::I32);
    assert!(graph.inst_mut(2, 2).is_none());
    assert!(graph.inst_mut(9, 2).is_none());
    assert_eq!(graph.get(0, 2).unwrap().base().type_, Type::I32);
    assert_eq!(graph.get(0, 1).unwrap().base().type_, Type::NoType);
    assert_eq!(order(&graph, 0), vec![1, 2]);
}

#[test]
fn an_identity_stays_taken_after_wiring_and_new_blocks() {
    let mut graph = small();
    assert_eq!(graph.set_inputs(3, &[1, 2]), Ok(()));
    assert_eq!(graph.push(5, BasicBlock::new()), Ok(()));
    for id in [1, 2, 3] {
        for bb in [0, 2, 5, 9, -1] {
            assert_eq!(
                graph.push_inst(bb, id, Inst::new(Opcode::Add)),
                Err(IrError::DuplicateId)
            );
        }
    }
    assert_eq!(order(&graph, 0), vec![1, 2]);
    assert_eq!(order(&graph, 2), vec![3]);
    assert_eq!(order(&graph, 5), Vec::<u32>::new());
}

#[test]
fn a_block_comes_into_the_graph_with_what_it_holds() {
    let mut graph = Graph::new();
    let mut block = BasicBlock::new();
    block.push_back(4, Inst::new(Opcode::Parameter));
    block.push_back(6, Inst::new(Opcode::Constant));
    assert_eq!(graph.push(1, block), Ok(()));
    assert_eq!(graph.contains_inst(4), 1);
    assert_eq!(graph.contains_inst(6), 1);
    assert_eq!(order(&graph, 1), vec![4, 6]);
    assert_eq!(graph.push_inst(0, 6, Inst::new(Opcode::Add)), Err(IrError::DuplicateId));
}
