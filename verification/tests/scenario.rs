use ir_graph::error::IrError;
use ir_graph::graph::Graph;
use ir_graph::instruction::{Inst, Opcode, Type};
use ir_graph::ir_constructor::IrConstructor;

fn ids(items: Vec<(u32, &Inst)>) -> Vec<u32> {
    items.into_iter().map(|(id, _)| id).collect()
}

fn users_of(graph: &Graph, bb: i8, id: u32) -> Vec<u32> {
    graph.get(bb, id).unwrap().sorted_users()
}

fn build(graph: &mut Graph) -> Result<(), IrError> {
    let mut z = IrConstructor::new(graph);
    z.start_bb(2);
    z.parameter(1)?.s32()?;
    z.constant(2)?.val(7)?.s32()?;
    z.basic_block(2, &[3])?;
    z.inst(Opcode::Add, 3)?.s32()?.inputs(&[1, 2])?;
    z.inst(Opcode::Add, 4)?.s32()?.inputs(&[1, 2])?;
    z.basic_block(3, &[-1])?;
    z.inst(Opcode::Add, 5)?.s32()?.inputs(&[1, 2])?;
    z.inst(Opcode::Add, 6)?.s32()?.inputs(&[4, 5])?;
    Ok(())
}

#[test]
fn end_to_end_users_and_order() {
    let mut graph = Graph::new();
    assert_eq!(build(&mut graph), Ok(()));

    assert_eq!(users_of(&graph, 0, 1), vec![3, 4, 5]);
    assert_eq!(users_of(&graph, 0, 2), vec![3, 4, 5]);
    assert_eq!(users_of(&graph, 2, 4), vec![6]);
    assert_eq!(users_of(&graph, 3, 5), vec![6]);
    assert_eq!(users_of(&graph, 2, 3), Vec::<u32>::new());
    assert_eq!(users_of(&graph, 3, 6), Vec::<u32>::new());

    assert_eq!(ids(graph.blocks[&0].iterate()), vec![1, 2]);
    assert_eq!(ids(graph.blocks[&2].iterate()), vec![3, 4]);
    assert_eq!(ids(graph.blocks[&3].iterate()), vec![5, 6]);
    assert_eq!(ids(graph.blocks[&-1].iterate()), Vec::<u32>::new());
    assert_eq!(graph.block_ids(), vec![0, 2, 3, -1]);

    match graph.get(0, 2).unwrap() {
        Inst::Constant(con) => {
            assert_eq!(con.value, 7);
            assert_eq!(con.inst_base.type_, Type::I32);
        }
        _ => panic!("instruction 2 is a constant"),
    }
    match graph.get(3, 6).unwrap() {
        Inst::Add(op) => {
            assert_eq!((op.input1, op.input2), (4, 5));
            assert_eq!(op.inst_base.type_, Type::I32);
        }
        _ => panic!("instruction 6 is a binary operation"),
    }
}
