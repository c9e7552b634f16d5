//! The graph: the owner of all blocks, and the one place that knows every
//! instruction identity.

use crate::basic_block::{
    lemma_appended_wf, lemma_block_with_inst_wf, BasicBlock, BlockView,
};
use crate::error::IrError;
use crate::instruction::{Inst, InstView, Opcode, NO_INST};
use crate::slot::slot_mut;
use std::collections::HashMap;
use vstd::prelude::*;

verus! {

broadcast use vstd::std_specs::hash::group_hash_axioms;

/// The identity of the start block, which every graph has.
pub const START_BLOCK: i8 = 0;

/// The identity of the end block, which every graph has and which holds no
/// instruction.
pub const END_BLOCK: i8 = -1;

/// The blocks of a program, by identity.
pub struct Graph {
    pub blocks: HashMap<i8, BasicBlock>,
}

/// The mathematical value of a [`Graph`].
pub struct GraphView {
    pub blocks: Map<i8, BlockView>,
}

/// The views of the blocks of a store, by identity.
pub open spec fn block_views(store: Map<i8, BasicBlock>) -> Map<i8, BlockView> {
    Map::new(|b: i8| store.contains_key(b), |b: i8| store[b]@)
}

impl View for Graph {
    type V = GraphView;

    open spec fn view(&self) -> GraphView {
        GraphView { blocks: block_views(self.blocks@) }
    }
}

impl GraphView {
    /// The graph that `Graph::new` makes: the start block and the end
    /// block, both empty.
    pub open spec fn initial() -> GraphView {
        GraphView {
            blocks: Map::empty().insert(START_BLOCK, BlockView::empty()).insert(
                END_BLOCK,
                BlockView::empty(),
            ),
        }
    }

    /// Block `b` exists and holds an instruction under `id`.
    pub open spec fn holds(self, b: i8, id: u32) -> bool {
        self.blocks.contains_key(b) && self.blocks[b].insts.contains_key(id)
    }

    /// Some block holds an instruction under `id`.
    pub open spec fn has_inst(self, id: u32) -> bool {
        exists|b: i8| self.holds(b, id)
    }

    /// A block that holds `id`; in a well-formed graph, the block.
    pub open spec fn block_of(self, id: u32) -> i8 {
        choose|b: i8| self.holds(b, id)
    }

    /// The instruction `id` of the graph.
    pub open spec fn inst(self, id: u32) -> InstView
        recommends
            self.has_inst(id),
    {
        self.blocks[self.block_of(id)].insts[id]
    }

    /// Instruction `x` exists and has `y` among its operands.
    pub open spec fn lists(self, x: u32, y: u32) -> bool {
        self.has_inst(x) && self.inst(x).inputs.contains(y)
    }

    /// Instruction `y` exists and has `x` among its users.
    pub open spec fn used_by(self, y: u32, x: u32) -> bool {
        self.has_inst(y) && self.inst(y).users.contains(x)
    }

    /// The invariants of the graph: the two reserved blocks exist and the
    /// end block is empty; each block is a list; no identity names
    /// instructions in two blocks; and each wired operand of an instruction
    /// exists and has that instruction among its users.
    pub open spec fn wf(self) -> bool {
        &&& self.blocks.contains_key(START_BLOCK)
        &&& self.blocks.contains_key(END_BLOCK)
        &&& forall|id: u32| !self.holds(END_BLOCK, id)
        &&& forall|b: i8| self.blocks.contains_key(b) ==> (#[trigger] self.blocks[b]).wf()
        &&& self.one_place_each()
        &&& self.users_know_operands()
    }

    /// No identity names instructions in two blocks.
    pub open spec fn one_place_each(self) -> bool {
        forall|b: i8, c: i8, id: u32| self.holds(b, id) && self.holds(c, id) ==> b == c
    }

    /// Each wired operand of an instruction exists and has that instruction
    /// among its users.
    pub open spec fn users_know_operands(self) -> bool {
        forall|x: u32, y: u32| #[trigger] self.lists(x, y) && y != NO_INST ==> self.used_by(y, x)
    }

    /// The graph after `inst` was appended under `id` to block `b`.
    pub open spec fn placed(self, b: i8, id: u32, inst: InstView) -> GraphView {
        self.with_block(b, self.blocks[b].appended(id, inst))
    }

    /// The graph can take `block` as a new block and stay well formed: the
    /// block is a list, its instructions are new to the graph, and none of
    /// them has an operand wired.
    pub open spec fn takes(self, block: BlockView) -> bool {
        &&& block.wf()
        &&& forall|id: u32| block.insts.contains_key(id) ==> !self.has_inst(id)
        &&& forall|id: u32| block.insts.contains_key(id) ==> (#[trigger] block.insts[id]).unwired()
    }

    /// The graph with `block` under `b`.
    pub open spec fn with_block(self, b: i8, block: BlockView) -> GraphView {
        GraphView { blocks: self.blocks.insert(b, block) }
    }

    /// The graph with `inst` in the place of instruction `id` of block `b`.
    pub open spec fn with_inst(self, b: i8, id: u32, inst: InstView) -> GraphView {
        self.with_block(b, self.blocks[b].with_inst(id, inst))
    }

    /// The graph in which each instruction whose identity is in `to` has
    /// `user` among its users, and nothing else differs.
    pub open spec fn users_added(self, user: u32, to: Seq<u32>) -> GraphView {
        GraphView {
            blocks: Map::new(
                |b: i8| self.blocks.contains_key(b),
                |b: i8| self.blocks[b].users_added(user, to),
            ),
        }
    }

    /// The graph after `inputs` were wired into `target`: each input has
    /// `target` among its users, `target` has `inputs` as its operand list,
    /// and nothing else differs.
    pub open spec fn wired(self, target: u32, inputs: Seq<u32>) -> GraphView {
        GraphView {
            blocks: Map::new(
                |b: i8| self.blocks.contains_key(b),
                |b: i8| self.blocks[b].wired(target, inputs),
            ),
        }
    }

    /// Whether `inputs` can be wired into `target`, and if not, why: the
    /// target and every input exist, the target is a binary operation, and
    /// there are two inputs.
    pub open spec fn wiring_verdict(self, target: u32, inputs: Seq<u32>) -> Result<(), IrError> {
        if !self.has_inst(target) {
            Err(IrError::UnknownInstruction)
        } else if exists|k: int| 0 <= k < inputs.len() && !self.has_inst(#[trigger] inputs[k]) {
            Err(IrError::UnknownInstruction)
        } else if self.inst(target).opcode != Opcode::Add {
            Err(IrError::UnsupportedOperation)
        } else if inputs.len() != 2 {
            Err(IrError::ArityMismatch)
        } else {
            Ok(())
        }
    }

    /// Whether a block can be added under `b`, and if not, why: the graph
    /// has no block `b` yet.
    pub open spec fn adding_verdict(self, b: i8) -> Result<(), IrError> {
        if self.blocks.contains_key(b) {
            Err(IrError::DuplicateId)
        } else {
            Ok(())
        }
    }

    /// Whether an instruction can be placed under `id` in block `b`, and if
    /// not, why: the identity is new to the whole graph and is not the
    /// sentinel, and the block exists and is not the end block.
    pub open spec fn placing_verdict(self, b: i8, id: u32) -> Result<(), IrError> {
        if self.has_inst(id) {
            Err(IrError::DuplicateId)
        } else if !self.blocks.contains_key(b) {
            Err(IrError::UnknownBlock)
        } else if b == END_BLOCK || id == NO_INST {
            Err(IrError::ReservedId)
        } else {
            Ok(())
        }
    }

    /// The result of looking `id` up: its block, or the end block where no
    /// block holds it.
    pub open spec fn owner(self, id: u32) -> i8 {
        if self.has_inst(id) {
            self.block_of(id)
        } else {
            END_BLOCK
        }
    }
}

/// Storing a block under `b` stores its view under `b`.
pub proof fn lemma_block_views_insert(store: Map<i8, BasicBlock>, b: i8, block: BasicBlock)
    ensures
        block_views(store.insert(b, block)) == block_views(store).insert(b, block@),
{
    assert(block_views(store.insert(b, block)) =~= block_views(store).insert(b, block@));
}

/// In a well-formed graph an instruction is found in the one block that
/// holds it.
pub proof fn lemma_inst_at(g: GraphView, b: i8, id: u32)
    requires
        g.one_place_each(),
        g.holds(b, id),
    ensures
        g.has_inst(id),
        g.block_of(id) == b,
        g.inst(id) == g.blocks[b].insts[id],
{
    assert(g.holds(g.block_of(id), id));
}

/// Two graphs with the same identities in the same blocks find each
/// instruction in the same block.
pub proof fn lemma_same_places(g: GraphView, h: GraphView)
    requires
        g.one_place_each(),
        forall|b: i8, id: u32| g.holds(b, id) <==> h.holds(b, id),
    ensures
        forall|id: u32| g.has_inst(id) <==> h.has_inst(id),
        forall|id: u32| g.has_inst(id) ==> h.block_of(id) == g.block_of(id),
{
    assert forall|id: u32| g.has_inst(id) <==> h.has_inst(id) by {
        if g.has_inst(id) {
            assert(h.holds(g.block_of(id), id));
        }
        if h.has_inst(id) {
            assert(g.holds(h.block_of(id), id));
        }
    }
    assert forall|id: u32| g.has_inst(id) implies h.block_of(id) == g.block_of(id) by {
        assert(h.holds(g.block_of(id), id));
        assert(h.holds(h.block_of(id), id));
        assert(g.holds(h.block_of(id), id));
    }
}

/// Adding users keeps a graph well formed, and moves no instruction.
pub proof fn lemma_users_added_wf(g: GraphView, user: u32, to: Seq<u32>)
    requires
        g.wf(),
    ensures
        g.users_added(user, to).wf(),
        forall|b: i8, id: u32| g.holds(b, id) <==> g.users_added(user, to).holds(b, id),
        forall|id: u32| g.has_inst(id) <==> g.users_added(user, to).has_inst(id),
        forall|id: u32|
            g.has_inst(id) ==> g.users_added(user, to).block_of(id) == g.block_of(id),
{
    let h = g.users_added(user, to);
    assert forall|b: i8, id: u32| g.holds(b, id) <==> h.holds(b, id) by {}
    lemma_same_places(g, h);
    assert forall|b: i8| h.blocks.contains_key(b) implies (#[trigger] h.blocks[b]).wf() by {
        let old_block = g.blocks[b];
        let new_block = h.blocks[b];
        assert(old_block.wf());
        assert forall|i: int| 0 <= i < new_block.order.len() implies (
        #[trigger] new_block.insts[new_block.order[i]]).next == new_block.successor(i)
            && new_block.insts[new_block.order[i]].prev == new_block.predecessor(i) by {
            assert(old_block.order.contains(old_block.order[i]));
            assert(old_block.insts[old_block.order[i]].next == old_block.successor(i));
            assert(old_block.insts[old_block.order[i]].prev == old_block.predecessor(i));
        }
    }
    assert forall|x: u32, y: u32| #[trigger] h.lists(x, y) && y != NO_INST implies h.used_by(
        y,
        x,
    ) by {
        assert(g.holds(g.block_of(x), x));
        assert(g.lists(x, y));
        assert(g.used_by(y, x));
        assert(g.holds(g.block_of(y), y));
    }
}

/// One more user for an instruction that the graph holds, on top of users
/// added before.
pub proof fn lemma_users_added_step(g: GraphView, user: u32, to: Seq<u32>, b: i8, y: u32)
    requires
        g.one_place_each(),
        g.holds(b, y),
    ensures
        ({
            let h = g.users_added(user, to);
            let inst = h.blocks[b].insts[y];
            h.with_inst(b, y, InstView { users: inst.users.insert(user), ..inst })
                == g.users_added(user, to.push(y))
        }),
{
    let h = g.users_added(user, to);
    let inst = h.blocks[b].insts[y];
    let stepped = h.with_inst(b, y, InstView { users: inst.users.insert(user), ..inst });
    let all = g.users_added(user, to.push(y));
    assert forall|id: u32| to.push(y).contains(id) <==> to.contains(id) || id == y by {
        if to.contains(id) {
            let i = choose|i: int| 0 <= i < to.len() && to[i] == id;
            assert(to.push(y)[i] == id);
        }
        assert(to.push(y)[to.len() as int] == y);
    }
    assert forall|c: i8| all.blocks.contains_key(c) implies stepped.blocks[c] == all.blocks[c] by {
        assert forall|id: u32|
            all.blocks[c].insts.contains_key(id) implies stepped.blocks[c].insts[id]
            == all.blocks[c].insts[id] by {
            assert(g.holds(c, id));
            assert(stepped.blocks[c].insts[id].users =~= all.blocks[c].insts[id].users);
        }
        assert(stepped.blocks[c].insts =~= all.blocks[c].insts);
    }
    assert(stepped.blocks =~= all.blocks);
}

/// Appending an instruction without wired operands, under a new identity
/// and in a block that takes instructions, keeps a graph well formed.
pub proof fn lemma_placed_wf(g: GraphView, b: i8, id: u32, inst: InstView)
    requires
        g.wf(),
        g.placing_verdict(b, id) is Ok,
        inst.unwired(),
    ensures
        g.placed(b, id, inst).wf(),
{
    let h = g.placed(b, id, inst);
    assert(!g.holds(b, id));
    lemma_appended_wf(g.blocks[b], id, inst);
    assert forall|c: i8, x: u32| h.holds(c, x) <==> g.holds(c, x) || (c == b && x == id) by {}
    assert(h.one_place_each()) by {
        assert forall|c: i8, d: i8, x: u32| h.holds(c, x) && h.holds(d, x) implies c == d by {
            if x == id {
                assert(!g.holds(c, x) && !g.holds(d, x));
            }
        }
    }
    assert forall|x: u32, y: u32| #[trigger] h.lists(x, y) && y != NO_INST implies h.used_by(
        y,
        x,
    ) by {
        let c = h.block_of(x);
        assert(h.holds(c, x));
        if x == id {
            lemma_inst_at(h, b, id);
            let k = choose|k: int| 0 <= k < inst.inputs.len() && inst.inputs[k] == y;
        } else {
            lemma_inst_at(g, c, x);
            assert(h.blocks[c].insts[x].inputs == g.blocks[c].insts[x].inputs);
            assert(g.lists(x, y));
            assert(g.used_by(y, x));
            let d = g.block_of(y);
            assert(g.holds(d, y));
            assert(h.holds(d, y));
            lemma_inst_at(h, d, y);
            assert(h.blocks[d].insts[y].users == g.blocks[d].insts[y].users);
        }
    }
}

/// Wiring is adding the users and then giving the target its operands.
pub proof fn lemma_wired_in_steps(g: GraphView, target: u32, inputs: Seq<u32>, b: i8)
    requires
        g.one_place_each(),
        g.holds(b, target),
    ensures
        ({
            let u = g.users_added(target, inputs);
            u.with_inst(b, target, InstView { inputs, ..u.blocks[b].insts[target] }) == g.wired(
                target,
                inputs,
            )
        }),
{
    let u = g.users_added(target, inputs);
    let stepped = u.with_inst(b, target, InstView { inputs, ..u.blocks[b].insts[target] });
    let all = g.wired(target, inputs);
    assert forall|c: i8| all.blocks.contains_key(c) implies stepped.blocks[c] == all.blocks[c] by {
        assert forall|id: u32|
            all.blocks[c].insts.contains_key(id) implies stepped.blocks[c].insts[id]
            == all.blocks[c].insts[id] by {
            assert(g.holds(c, id));
        }
        assert(stepped.blocks[c].insts =~= all.blocks[c].insts);
    }
    assert(stepped.blocks =~= all.blocks);
}

/// Wiring operands that exist into a binary operation that exists keeps a
/// graph well formed, moves no instruction, gives the target its operand
/// list, and makes the target a user of each operand.
pub proof fn lemma_wired_wf(g: GraphView, target: u32, inputs: Seq<u32>)
    requires
        g.wf(),
        g.wiring_verdict(target, inputs) is Ok,
    ensures
        g.wired(target, inputs).wf(),
        g.wired(target, inputs).has_inst(target),
        g.wired(target, inputs).inst(target).inputs == inputs,
        forall|k: int|
            0 <= k < inputs.len() ==> g.wired(target, inputs).used_by(#[trigger] inputs[k], target),
{
    let h = g.wired(target, inputs);
    assert forall|c: i8, id: u32| g.holds(c, id) <==> h.holds(c, id) by {}
    lemma_same_places(g, h);
    assert forall|c: i8| h.blocks.contains_key(c) implies (#[trigger] h.blocks[c]).wf() by {
        let old_block = g.blocks[c];
        let new_block = h.blocks[c];
        assert(old_block.wf());
        assert forall|i: int| 0 <= i < new_block.order.len() implies (
        #[trigger] new_block.insts[new_block.order[i]]).next == new_block.successor(i)
            && new_block.insts[new_block.order[i]].prev == new_block.predecessor(i) by {
            assert(old_block.order.contains(old_block.order[i]));
            assert(old_block.insts[old_block.order[i]].next == old_block.successor(i));
            assert(old_block.insts[old_block.order[i]].prev == old_block.predecessor(i));
        }
    }
    assert(h.one_place_each());
    assert(g.holds(g.block_of(target), target));
    assert forall|k: int| 0 <= k < inputs.len() implies h.used_by(
        #[trigger] inputs[k],
        target,
    ) by {
        let y = inputs[k];
        assert(g.has_inst(y));
        assert(g.holds(g.block_of(y), y));
        assert(inputs.contains(y));
    }
    assert forall|x: u32, y: u32| #[trigger] h.lists(x, y) && y != NO_INST implies h.used_by(
        y,
        x,
    ) by {
        assert(g.holds(g.block_of(x), x));
        if x == target {
            let k = choose|k: int| 0 <= k < inputs.len() && inputs[k] == y;
            assert(h.used_by(inputs[k], target));
        } else {
            assert(g.lists(x, y));
            assert(g.used_by(y, x));
            assert(g.holds(g.block_of(y), y));
        }
    }
}

/// Replacing an instruction by one with the same links, users and operands
/// keeps a graph well formed.
pub proof fn lemma_with_inst_wf(g: GraphView, b: i8, id: u32, inst: InstView)
    requires
        g.wf(),
        g.holds(b, id),
    ensures
        inst.same_edges(g.blocks[b].insts[id]) ==> g.with_inst(b, id, inst).wf(),
{
    if inst.same_edges(g.blocks[b].insts[id]) {
        let h = g.with_inst(b, id, inst);
        assert forall|c: i8, x: u32| g.holds(c, x) <==> h.holds(c, x) by {}
        lemma_same_places(g, h);
        lemma_block_with_inst_wf(g.blocks[b], id, inst);
        assert forall|x: u32, y: u32| #[trigger] h.lists(x, y) && y != NO_INST implies h.used_by(
            y,
            x,
        ) by {
            assert(g.holds(g.block_of(x), x));
            assert(g.lists(x, y));
            assert(g.used_by(y, x));
            assert(g.holds(g.block_of(y), y));
        }
    }
}

/// Putting an instruction where it is changes nothing.
pub proof fn lemma_same_inst(g: GraphView, b: i8, id: u32)
    requires
        g.holds(b, id),
    ensures
        g.with_inst(b, id, g.blocks[b].insts[id]) == g,
{
    let h = g.with_inst(b, id, g.blocks[b].insts[id]);
    assert(h.blocks[b].insts =~= g.blocks[b].insts);
    assert(h.blocks =~= g.blocks);
}

/// A new block that the graph takes keeps it well formed.
pub proof fn lemma_with_block_wf(g: GraphView, b: i8, block: BlockView)
    requires
        g.wf(),
        !g.blocks.contains_key(b),
        g.takes(block),
    ensures
        g.with_block(b, block).wf(),
{
    let h = g.with_block(b, block);
    assert forall|c: i8, id: u32| h.holds(c, id) <==> g.holds(c, id) || (c == b
        && block.insts.contains_key(id)) by {}
    assert(h.one_place_each()) by {
        assert forall|c: i8, d: i8, x: u32| h.holds(c, x) && h.holds(d, x) implies c == d by {
            if g.holds(c, x) || g.holds(d, x) {
                assert(g.has_inst(x));
            }
        }
    }
    assert forall|x: u32, y: u32| #[trigger] h.lists(x, y) && y != NO_INST implies h.used_by(
        y,
        x,
    ) by {
        let c = h.block_of(x);
        assert(h.holds(c, x));
        lemma_inst_at(h, c, x);
        if c == b {
            let k = choose|k: int|
                0 <= k < block.insts[x].inputs.len() && block.insts[x].inputs[k] == y;
        } else {
            lemma_inst_at(g, c, x);
            assert(g.lists(x, y));
            assert(g.used_by(y, x));
            let d = g.block_of(y);
            assert(g.holds(d, y));
            lemma_inst_at(h, d, y);
        }
    }
}

/// An identity that a block was added under is taken: whatever block is
/// offered under it next is refused as a duplicate.
pub proof fn block_identity_is_taken_once(g: GraphView, b: i8, block: BlockView)
    requires
        g.adding_verdict(b) is Ok,
    ensures
        g.with_block(b, block).adding_verdict(b) == Err::<(), IrError>(IrError::DuplicateId),
{
}

/// An identity that an instruction was placed under is taken in the whole
/// graph: whatever instruction is offered under it next, for whichever
/// block, is refused as a duplicate.
pub proof fn instruction_identity_is_taken_once(
    g: GraphView,
    b: i8,
    id: u32,
    inst: InstView,
    other: i8,
)
    requires
        g.wf(),
        g.placing_verdict(b, id) is Ok,
    ensures
        g.placed(b, id, inst).placing_verdict(other, id) == Err::<(), IrError>(
            IrError::DuplicateId,
        ),
{
    assert(!g.holds(b, id));
    lemma_appended_wf(g.blocks[b], id, inst);
    assert(g.placed(b, id, inst).holds(b, id));
}

/// An instruction that the graph holds stays in it, under its identity and
/// in its block, when a block is added, an instruction is placed or
/// operands are wired; so its identity stays taken.
pub proof fn identities_stay_taken(g: GraphView, b: i8, id: u32)
    requires
        g.wf(),
        g.holds(b, id),
    ensures
        forall|c: i8, block: BlockView|
            g.adding_verdict(c) is Ok ==> #[trigger] g.with_block(c, block).holds(b, id),
        forall|c: i8, x: u32, inst: InstView|
            g.placing_verdict(c, x) is Ok ==> #[trigger] g.placed(c, x, inst).holds(b, id),
        forall|x: u32, inputs: Seq<u32>| #[trigger] g.wired(x, inputs).holds(b, id),
{
    assert forall|c: i8, x: u32, inst: InstView|
        g.placing_verdict(c, x) is Ok implies #[trigger] g.placed(c, x, inst).holds(b, id) by {
        assert(!g.holds(c, x));
        lemma_appended_wf(g.blocks[c], x, inst);
    }
}

impl Graph {
    /// A graph with the start block and the end block, both empty.
    pub fn new() -> (graph: Graph)
        ensures
            graph@ == GraphView::initial(),
            graph@.wf(),
    {
        let mut blocks: HashMap<i8, BasicBlock> = HashMap::new();
        blocks.insert(START_BLOCK, BasicBlock::new());
        blocks.insert(END_BLOCK, BasicBlock::new());
        let graph = Graph { blocks };
        proof {
            assert(graph@.blocks =~= GraphView::initial().blocks);
            assert forall|x: u32| !graph@.has_inst(x) by {}
        }
        graph
    }

    /// The block that holds instruction `id`, or `END_BLOCK` where none
    /// does. Looks through every block.
    pub fn contains_inst(&self, id: u32) -> (ret: i8)
        requires
            self@.wf(),
        ensures
            ret == self@.owner(id),
            ret != END_BLOCK <==> self@.has_inst(id),
            ret != END_BLOCK ==> self@.holds(ret, id),
    {
        let mut ret: i8 = END_BLOCK;
        for entry in it: self.blocks.iter()
            invariant
                self@.wf(),
                ret != END_BLOCK ==> self@.holds(ret, id),
                ret == END_BLOCK ==> forall|j: int|
                    0 <= j < it.index() ==> !(*it.seq()[j].1)@.insts.contains_key(id),
        {
            let (id_bb, block) = entry;
            if block.contains(id) {
                ret = *id_bb;
            }
        }
        proof {
            if ret == END_BLOCK {
                assert forall|b: i8| !self@.holds(b, id) by {}
            }
        }
        ret
    }

    /// Adds `bb` to the graph under `id`, with what it holds. An identity
    /// that a block of the graph has already, a reserved one too, is
    /// refused.
    pub fn push(&mut self, id: i8, bb: BasicBlock) -> (r: Result<(), IrError>)
        ensures
            r == old(self)@.adding_verdict(id),
            r is Ok ==> final(self)@ == old(self)@.with_block(id, bb@),
            r is Err ==> final(self)@ == old(self)@,
            forall|b: i8, x: u32|
                final(self)@.holds(b, x) <==> old(self)@.holds(b, x) || (r is Ok && b == id
                    && bb@.insts.contains_key(x)),
            old(self)@.wf() && (id == START_BLOCK || id == END_BLOCK) ==> r is Err,
            old(self)@.wf() && (r is Err || old(self)@.takes(bb@)) ==> final(self)@.wf(),
    {
        if self.blocks.contains_key(&id) {
            return Err(IrError::DuplicateId);
        }
        self.blocks.insert(id, bb);
        proof {
            assert(self@.blocks =~= old(self)@.with_block(id, bb@).blocks);
            if old(self)@.wf() && old(self)@.takes(bb@) {
                lemma_with_block_wf(old(self)@, id, bb@);
            }
        }
        Ok(())
    }

    /// The instruction `id` of block `bb`.
    pub fn get(&self, bb: i8, id: u32) -> (r: Option<&Inst>)
        ensures
            match r {
                Some(inst) => self@.holds(bb, id) && inst@ == self@.blocks[bb].insts[id],
                None => !self@.holds(bb, id),
            },
    {
        match self.blocks.get(&bb) {
            Some(block) => block.get(id),
            None => None,
        }
    }

    /// The instruction `id` of block `bb`, to be changed in place. What the
    /// caller leaves behind the reference is what the graph then holds in
    /// that place; the graph stays well formed if the caller leaves links,
    /// users and operands as they are.
    pub fn inst_mut(&mut self, bb: i8, id: u32) -> (r: Option<&mut Inst>)
        ensures
            match r {
                Some(inst) => old(self)@.holds(bb, id) && inst@ == old(self)@.blocks[bb].insts[id]
                    && final(self)@ == old(self)@.with_inst(bb, id, final(inst)@),
                None => !old(self)@.holds(bb, id) && final(self)@ == old(self)@,
            },
            r matches Some(inst) ==> (old(self)@.wf() && final(inst)@.same_edges(inst@)
                ==> final(self)@.wf()),
    {
        match slot_mut(&mut self.blocks, bb) {
            Some(block) => {
                proof {
                    lemma_block_views_insert(old(self).blocks@, bb, *final(block));
                    assert(old(self)@.blocks.insert(bb, old(self)@.blocks[bb]) =~= old(
                        self,
                    )@.blocks);
                }
                let r = block.inst_mut(id);
                proof {
                    if r is Some && old(self)@.wf() {
                        lemma_with_inst_wf(old(self)@, bb, id, final(r->Some_0)@);
                    }
                }
                r
            },
            None => None,
        }
    }

    /// Appends `inst` under `id_inst` to block `id_bb`. Refused where the
    /// identity is taken anywhere in the graph, where the block does not
    /// exist, and where the identity is the sentinel or the block is the
    /// end block.
    pub fn push_inst(&mut self, id_bb: i8, id_inst: u32, inst: Inst) -> (r: Result<(), IrError>)
        requires
            old(self)@.wf(),
        ensures
            r == old(self)@.placing_verdict(id_bb, id_inst),
            r is Ok ==> final(self)@ == old(self)@.placed(id_bb, id_inst, inst@),
            r is Err ==> final(self)@ == old(self)@,
            forall|b: i8, id: u32|
                final(self)@.holds(b, id) <==> old(self)@.holds(b, id) || (r is Ok && b == id_bb
                    && id == id_inst),
            r is Err || inst@.unwired() ==> final(self)@.wf(),
    {
        if self.contains_inst(id_inst) != END_BLOCK {
            return Err(IrError::DuplicateId);
        }
        match slot_mut(&mut self.blocks, id_bb) {
            None => Err(IrError::UnknownBlock),
            Some(block) => {
                proof {
                    lemma_block_views_insert(old(self).blocks@, id_bb, *final(block));
                    assert(old(self)@.blocks.insert(id_bb, old(self)@.blocks[id_bb]) =~= old(
                        self,
                    )@.blocks);
                    assert(!old(self)@.holds(id_bb, id_inst));
                }
                if id_bb == END_BLOCK || id_inst == NO_INST {
                    return Err(IrError::ReservedId);
                }
                proof {
                    lemma_appended_wf(
                        old(self)@.blocks[id_bb],
                        id_inst,
                        inst@,
                    );
                    if inst@.unwired() {
                        lemma_placed_wf(old(self)@, id_bb, id_inst, inst@);
                    }
                }
                block.push_back(id_inst, inst);
                Ok(())
            },
        }
    }

    /// Wires `inputs` into instruction `id`: each input gets `id` as a
    /// user, and `id` gets `inputs` as its operands, in order. Refused, with
    /// nothing changed, unless `id` and every input exist in the graph, `id`
    /// is a binary operation and there are two inputs.
    pub fn set_inputs(&mut self, id: u32, inputs: &[u32]) -> (r: Result<(), IrError>)
        requires
            old(self)@.wf(),
        ensures
            r == old(self)@.wiring_verdict(id, inputs@),
            r is Ok ==> final(self)@ == old(self)@.wired(id, inputs@),
            r is Err ==> final(self)@ == old(self)@,
            final(self)@.wf(),
            forall|b: i8, x: u32| final(self)@.holds(b, x) <==> old(self)@.holds(b, x),
            r is Ok ==> final(self)@.has_inst(id) && final(self)@.inst(id).inputs == inputs@,
            r is Ok ==> forall|k: int|
                0 <= k < inputs@.len() ==> final(self)@.used_by(#[trigger] inputs@[k], id),
            (exists|k: int| 0 <= k < inputs@.len() && !old(self)@.has_inst(#[trigger] inputs@[k]))
                ==> r == Err::<(), IrError>(IrError::UnknownInstruction),
    {
        let ghost before = self@;
        let bb = self.contains_inst(id);
        if bb == END_BLOCK {
            return Err(IrError::UnknownInstruction);
        }
        let mut k: usize = 0;
        while k < inputs.len()
            invariant
                k <= inputs@.len(),
                self@ == before,
                before.wf(),
                forall|j: int| 0 <= j < k ==> before.has_inst(#[trigger] inputs@[j]),
            decreases inputs@.len() - k,
        {
            if self.contains_inst(inputs[k]) == END_BLOCK {
                return Err(IrError::UnknownInstruction);
            }
            k += 1;
        }
        proof {
            lemma_inst_at(before, bb, id);
        }
        match self.get(bb, id).unwrap().opcode() {
            Opcode::Add => {},
            _ => {
                return Err(IrError::UnsupportedOperation);
            },
        }
        if inputs.len() != 2 {
            return Err(IrError::ArityMismatch);
        }
        proof {
            assert(self@ =~= before.users_added(id, inputs@.take(0))) by {
                let h = before.users_added(id, inputs@.take(0));
                assert forall|c: i8| h.blocks.contains_key(c) implies h.blocks[c]
                    == before.blocks[c] by {
                    assert(h.blocks[c].insts =~= before.blocks[c].insts);
                }
                assert(h.blocks =~= before.blocks);
            }
        }
        k = 0;
        while k < inputs.len()
            invariant
                k <= inputs@.len(),
                before.wf(),
                self@ == before.users_added(id, inputs@.take(k as int)),
                forall|j: int| 0 <= j < inputs@.len() ==> before.has_inst(#[trigger] inputs@[j]),
            decreases inputs@.len() - k,
        {
            let input = inputs[k];
            proof {
                lemma_users_added_wf(before, id, inputs@.take(k as int));
                assert(before.has_inst(inputs@[k as int]));
            }
            let input_bb = self.contains_inst(input);
            self.inst_mut(input_bb, input).unwrap().insert_user(id);
            proof {
                lemma_users_added_step(before, id, inputs@.take(k as int), input_bb, input);
                assert(inputs@.take(k as int).push(input) =~= inputs@.take(k + 1));
            }
            k += 1;
        }
        proof {
            assert(inputs@.take(k as int) =~= inputs@);
            lemma_wired_in_steps(before, id, inputs@, bb);
            lemma_wired_wf(before, id, inputs@);
        }
        self.inst_mut(bb, id).unwrap().set_inputs(inputs)?;
        Ok(())
    }
}

} // verus!
