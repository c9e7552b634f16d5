//! The builder: a cursor over a graph, for writing a program down call by
//! call.

use crate::basic_block::{BasicBlock, BlockView};
use crate::error::IrError;
use crate::graph::{lemma_same_inst, Graph, GraphView, START_BLOCK};
use crate::instruction::{Inst, InstView, Opcode, Type};
use vstd::prelude::*;

verus! {

/// A builder over a graph that it borrows. `current_bb` is the block that
/// new instructions go to, `current_inst` the instruction that `s32`, `val`
/// and `inputs` change.
pub struct IrConstructor<'a> {
    pub graph: &'a mut Graph,
    pub current_bb: Option<i8>,
    pub current_inst: Option<u32>,
}

/// The mathematical value of an [`IrConstructor`]: the graph and the cursor.
pub struct BuilderView {
    pub graph: GraphView,
    pub current_bb: Option<i8>,
    pub current_inst: Option<u32>,
}

impl BuilderView {
    /// A block is selected.
    pub open spec fn on_block(self) -> bool {
        self.current_bb is Some
    }

    /// An instruction is selected: the cursor names an instruction of the
    /// current block.
    pub open spec fn on_inst(self) -> bool {
        &&& self.current_bb is Some
        &&& self.current_inst is Some
        &&& self.graph.holds(self.current_bb->Some_0, self.current_inst->Some_0)
    }

    /// The selected instruction.
    pub open spec fn inst(self) -> InstView
        recommends
            self.on_inst(),
    {
        self.graph.blocks[self.current_bb->Some_0].insts[self.current_inst->Some_0]
    }

    /// The builder with `inst` in the place of the selected instruction.
    pub open spec fn with_inst(self, inst: InstView) -> BuilderView {
        BuilderView {
            graph: self.graph.with_inst(
                self.current_bb->Some_0,
                self.current_inst->Some_0,
                inst,
            ),
            ..self
        }
    }

    /// Whether an instruction can be created under `id`, and if not, why: a
    /// block is selected, and the graph takes the instruction there.
    pub open spec fn creating_verdict(self, id: u32) -> Result<(), IrError> {
        if !self.on_block() {
            Err(IrError::InvalidCursorState)
        } else {
            self.graph.placing_verdict(self.current_bb->Some_0, id)
        }
    }

    /// The builder after an instruction of variant `opcode` was created
    /// under `id` in the current block, and selected.
    pub open spec fn created(self, opcode: Opcode, id: u32) -> BuilderView {
        BuilderView {
            graph: self.graph.placed(self.current_bb->Some_0, id, InstView::fresh(opcode)),
            current_bb: self.current_bb,
            current_inst: Some(id),
        }
    }

    /// Whether the selected instruction can be given a value, and if not,
    /// why: an instruction is selected, and it is a constant.
    pub open spec fn valuing_verdict(self) -> Result<(), IrError> {
        if !self.on_inst() {
            Err(IrError::InvalidCursorState)
        } else if self.inst().opcode != Opcode::Constant {
            Err(IrError::UnsupportedOperation)
        } else {
            Ok(())
        }
    }

    /// Whether `inputs` can be wired into the selected instruction, and if
    /// not, why.
    pub open spec fn wiring_verdict(self, inputs: Seq<u32>) -> Result<(), IrError> {
        if !self.on_inst() {
            Err(IrError::InvalidCursorState)
        } else {
            self.graph.wiring_verdict(self.current_inst->Some_0, inputs)
        }
    }
}

impl<'a> View for IrConstructor<'a> {
    type V = BuilderView;

    open spec fn view(&self) -> BuilderView {
        BuilderView {
            graph: self.graph@,
            current_bb: self.current_bb,
            current_inst: self.current_inst,
        }
    }
}

impl<'a> IrConstructor<'a> {
    /// A builder over `graph`, with no block and no instruction selected.
    /// What the builder does to its graph is done to `graph`.
    pub fn new(graph: &'a mut Graph) -> (builder: IrConstructor<'a>)
        ensures
            builder@ == (BuilderView { graph: old(graph)@, current_bb: None, current_inst: None }),
            *final(graph) == *final(builder.graph),
    {
        IrConstructor { graph, current_bb: None, current_inst: None }
    }

    /// Selects the start block. No instruction is selected afterwards.
    /// `_succ` names the block that follows; the graph keeps no edges
    /// between blocks, so it is not recorded.
    pub fn start_bb(&mut self, _succ: i8)
        ensures
            final(self)@ == (BuilderView {
                current_bb: Some(START_BLOCK),
                current_inst: None,
                ..old(self)@
            }),
            *final(final(self).graph) == *final(old(self).graph),
    {
        self.current_bb = Some(START_BLOCK);
        self.current_inst = None;
    }

    /// Creates an empty block under `id` and selects it. No instruction is
    /// selected afterwards. Refused where the graph has a block `id`.
    /// `_succs` names the blocks that follow; the graph keeps no edges
    /// between blocks, so they are not recorded.
    pub fn basic_block(&mut self, id: i8, _succs: &[i8]) -> (r: Result<(), IrError>)
        ensures
            r == old(self)@.graph.adding_verdict(id),
            r is Ok ==> final(self)@ == (BuilderView {
                graph: old(self)@.graph.with_block(id, BlockView::empty()),
                current_bb: Some(id),
                current_inst: None,
            }),
            r is Err ==> final(self)@ == old(self)@,
            old(self)@.graph.wf() ==> final(self)@.graph.wf(),
            *final(final(self).graph) == *final(old(self).graph),
    {
        let bb = BasicBlock::new();
        match self.graph.push(id, bb) {
            Ok(_) => {
                self.current_bb = Some(id);
                self.current_inst = None;
                Ok(())
            },
            Err(e) => Err(e),
        }
    }

    /// Creates an instruction of variant `opcode` under `id` at the end of
    /// the current block, and selects it.
    pub fn inst(&mut self, opcode: Opcode, id: u32) -> (r: Result<&mut Self, IrError>)
        requires
            old(self)@.graph.wf(),
        ensures
            r is Ok <==> old(self)@.creating_verdict(id) is Ok,
            r matches Err(e) ==> old(self)@.creating_verdict(id) == Err::<(), IrError>(e),
            r matches Ok(builder) ==> builder@ == old(self)@.created(opcode, id),
            r matches Ok(builder) ==> builder@.graph.wf(),
            r matches Ok(builder) ==> *final(self) == *final(builder),
            r matches Ok(builder) ==> *final(builder.graph) == *final(old(self).graph),
            r is Err ==> final(self)@ == old(self)@,
            r is Err ==> *final(final(self).graph) == *final(old(self).graph),
    {
        let bb = match self.current_bb {
            Some(bb) => bb,
            None => {
                return Err(IrError::InvalidCursorState);
            },
        };
        match self.graph.push_inst(bb, id, Inst::new(opcode)) {
            Ok(_) => {
                self.current_inst = Some(id);
                Ok(self)
            },
            Err(e) => Err(e),
        }
    }

    /// Creates a parameter under `id` at the end of the current block, and
    /// selects it.
    pub fn parameter(&mut self, id: u32) -> (r: Result<&mut Self, IrError>)
        requires
            old(self)@.graph.wf(),
        ensures
            r is Ok <==> old(self)@.creating_verdict(id) is Ok,
            r matches Err(e) ==> old(self)@.creating_verdict(id) == Err::<(), IrError>(e),
            r matches Ok(builder) ==> builder@ == old(self)@.created(Opcode::Parameter, id),
            r matches Ok(builder) ==> builder@.graph.wf(),
            r matches Ok(builder) ==> *final(self) == *final(builder),
            r matches Ok(builder) ==> *final(builder.graph) == *final(old(self).graph),
            r is Err ==> final(self)@ == old(self)@,
            r is Err ==> *final(final(self).graph) == *final(old(self).graph),
    {
        self.inst(Opcode::Parameter, id)
    }

    /// Creates a constant under `id` at the end of the current block, and
    /// selects it.
    pub fn constant(&mut self, id: u32) -> (r: Result<&mut Self, IrError>)
        requires
            old(self)@.graph.wf(),
        ensures
            r is Ok <==> old(self)@.creating_verdict(id) is Ok,
            r matches Err(e) ==> old(self)@.creating_verdict(id) == Err::<(), IrError>(e),
            r matches Ok(builder) ==> builder@ == old(self)@.created(Opcode::Constant, id),
            r matches Ok(builder) ==> builder@.graph.wf(),
            r matches Ok(builder) ==> *final(self) == *final(builder),
            r matches Ok(builder) ==> *final(builder.graph) == *final(old(self).graph),
            r is Err ==> final(self)@ == old(self)@,
            r is Err ==> *final(final(self).graph) == *final(old(self).graph),
    {
        self.inst(Opcode::Constant, id)
    }

    /// The selected instruction, to be changed in place. What the caller
    /// leaves behind the reference is what the graph then holds in that
    /// place; the graph stays well formed if the caller leaves links, users
    /// and operands as they are. Refused where no instruction is selected.
    pub fn get_mut_inst(&mut self) -> (r: Result<&mut Inst, IrError>)
        ensures
            r is Ok <==> old(self)@.on_inst(),
            r matches Err(e) ==> e == IrError::InvalidCursorState,
            r matches Ok(inst) ==> inst@ == old(self)@.inst(),
            r matches Ok(inst) ==> final(self)@ == old(self)@.with_inst(final(inst)@),
            r matches Ok(inst) ==> (old(self)@.graph.wf() && final(inst)@.same_edges(inst@)
                ==> final(self)@.graph.wf()),
            r is Err ==> final(self)@ == old(self)@,
            *final(final(self).graph) == *final(old(self).graph),
    {
        match (self.current_bb, self.current_inst) {
            (Some(bb), Some(id)) => match self.graph.inst_mut(bb, id) {
                Some(inst) => Ok(inst),
                None => Err(IrError::InvalidCursorState),
            },
            _ => Err(IrError::InvalidCursorState),
        }
    }

    /// Gives the selected instruction the type `I32`. Refused where no
    /// instruction is selected.
    pub fn s32(&mut self) -> (r: Result<&mut Self, IrError>)
        ensures
            r is Ok <==> old(self)@.on_inst(),
            r matches Err(e) ==> e == IrError::InvalidCursorState,
            r matches Ok(builder) ==> builder@ == old(self)@.with_inst(
                InstView { type_: Type::I32, ..old(self)@.inst() },
            ),
            r matches Ok(builder) ==> (old(self)@.graph.wf() ==> builder@.graph.wf()),
            r matches Ok(builder) ==> *final(self) == *final(builder),
            r matches Ok(builder) ==> *final(builder.graph) == *final(old(self).graph),
            r is Err ==> final(self)@ == old(self)@,
            r is Err ==> *final(final(self).graph) == *final(old(self).graph),
    {
        match self.get_mut_inst() {
            Ok(inst) => inst.set_type(Type::I32),
            Err(e) => {
                return Err(e);
            },
        }
        Ok(self)
    }

    /// Gives the selected instruction the value `value`. Refused where no
    /// instruction is selected, and where the selected one is no constant.
    pub fn val(&mut self, value: i64) -> (r: Result<&mut Self, IrError>)
        ensures
            r is Ok <==> old(self)@.valuing_verdict() is Ok,
            r matches Err(e) ==> old(self)@.valuing_verdict() == Err::<(), IrError>(e),
            r matches Ok(builder) ==> builder@ == old(self)@.with_inst(
                InstView { value, ..old(self)@.inst() },
            ),
            r matches Ok(builder) ==> (old(self)@.graph.wf() ==> builder@.graph.wf()),
            r matches Ok(builder) ==> *final(self) == *final(builder),
            r matches Ok(builder) ==> *final(builder.graph) == *final(old(self).graph),
            r is Err ==> final(self)@ == old(self)@,
            r is Err ==> *final(final(self).graph) == *final(old(self).graph),
    {
        let set = match self.get_mut_inst() {
            Ok(inst) => inst.set_value(value),
            Err(e) => {
                return Err(e);
            },
        };
        match set {
            Ok(_) => Ok(self),
            Err(e) => {
                proof {
                    lemma_same_inst(
                        old(self)@.graph,
                        old(self)@.current_bb->Some_0,
                        old(self)@.current_inst->Some_0,
                    );
                }
                Err(e)
            },
        }
    }

    /// Wires `inputs` into the selected instruction. Refused where no
    /// instruction is selected, and where the graph refuses the wiring.
    pub fn inputs(&mut self, inputs: &[u32]) -> (r: Result<&mut Self, IrError>)
        requires
            old(self)@.graph.wf(),
        ensures
            r is Ok <==> old(self)@.wiring_verdict(inputs@) is Ok,
            r matches Err(e) ==> old(self)@.wiring_verdict(inputs@) == Err::<(), IrError>(e),
            r matches Ok(builder) ==> builder@ == (BuilderView {
                graph: old(self)@.graph.wired(old(self)@.current_inst->Some_0, inputs@),
                ..old(self)@
            }),
            r matches Ok(builder) ==> builder@.graph.wf(),
            r matches Ok(builder) ==> *final(self) == *final(builder),
            r matches Ok(builder) ==> *final(builder.graph) == *final(old(self).graph),
            r is Err ==> final(self)@ == old(self)@,
            r is Err ==> *final(final(self).graph) == *final(old(self).graph),
    {
        let id = match (self.current_bb, self.current_inst) {
            (Some(bb), Some(id)) => {
                if self.graph.get(bb, id).is_none() {
                    return Err(IrError::InvalidCursorState);
                }
                id
            },
            _ => {
                return Err(IrError::InvalidCursorState);
            },
        };
        match self.graph.set_inputs(id, inputs) {
            Ok(_) => Ok(self),
            Err(e) => Err(e),
        }
    }
}

} // verus!
