//! Basic blocks: instructions in emission order, linked through their
//! identities.

use crate::instruction::{Inst, InstView, NO_INST};
use crate::slot::slot_mut;
use std::collections::HashMap;
use vstd::prelude::*;

verus! {

broadcast use vstd::std_specs::hash::group_hash_axioms;

/// A block of instructions. `instructions` owns them by identity; `first`
/// and `last` are the ends of the list that their `prev` and `next` links
/// form, `NO_INST` in an empty block. `order` names the identities in the
/// order of that list.
pub struct BasicBlock {
    pub instructions: HashMap<u32, Inst>,
    pub first: u32,
    pub last: u32,
    pub order: Ghost<Seq<u32>>,
}

/// The mathematical value of a [`BasicBlock`].
pub struct BlockView {
    pub insts: Map<u32, InstView>,
    pub first: u32,
    pub last: u32,
    pub order: Seq<u32>,
}

/// The views of the instructions of a store, by identity.
pub open spec fn inst_views(store: Map<u32, Inst>) -> Map<u32, InstView> {
    Map::new(|id: u32| store.contains_key(id), |id: u32| store[id]@)
}

impl BlockView {
    /// The block without instructions.
    pub open spec fn empty() -> BlockView {
        BlockView { insts: Map::empty(), first: NO_INST, last: NO_INST, order: Seq::empty() }
    }

    /// The identity after place `i` of the order: the link `next` of the
    /// instruction at that place.
    pub open spec fn successor(self, i: int) -> u32 {
        if i + 1 < self.order.len() {
            self.order[i + 1]
        } else {
            NO_INST
        }
    }

    /// The identity before place `i` of the order: the link `prev` of the
    /// instruction at that place.
    pub open spec fn predecessor(self, i: int) -> u32 {
        if 0 < i {
            self.order[i - 1]
        } else {
            NO_INST
        }
    }

    /// The block is a list: `order` names each stored instruction once and
    /// never the sentinel, `first` and `last` are its ends, and the links of
    /// each instruction name its neighbours in `order`.
    pub open spec fn wf(self) -> bool {
        &&& self.order.no_duplicates()
        &&& !self.order.contains(NO_INST)
        &&& forall|id: u32| self.insts.contains_key(id) <==> self.order.contains(id)
        &&& self.first == self.successor(-1)
        &&& self.last == self.predecessor(self.order.len() as int)
        &&& forall|i: int|
            0 <= i < self.order.len() ==> (#[trigger] self.insts[self.order[i]]).next
                == self.successor(i)
        &&& forall|i: int|
            0 <= i < self.order.len() ==> (#[trigger] self.insts[self.order[i]]).prev
                == self.predecessor(i)
    }

    /// The block after `inst` was appended under `id`: the old last
    /// instruction, if there is one, links forward to `id`; the new
    /// instruction links back to it and forward to nothing.
    pub open spec fn appended(self, id: u32, inst: InstView) -> BlockView {
        let linked = if self.last == NO_INST {
            self.insts
        } else {
            self.insts.insert(self.last, InstView { next: id, ..self.insts[self.last] })
        };
        BlockView {
            insts: linked.insert(id, InstView { prev: self.last, next: NO_INST, ..inst }),
            first: if self.last == NO_INST {
                id
            } else {
                self.first
            },
            last: id,
            order: self.order.push(id),
        }
    }

    /// The identities met on a walk from `from` along the `next` links,
    /// which ends at the sentinel, or after `steps` steps.
    pub open spec fn walk(self, from: u32, steps: nat) -> Seq<u32>
        decreases steps,
    {
        if steps == 0 || from == NO_INST {
            Seq::empty()
        } else {
            seq![from] + self.walk(self.insts[from].next, (steps - 1) as nat)
        }
    }

    /// The identities met on a walk from `from` along the `prev` links,
    /// which ends at the sentinel, or after `steps` steps.
    pub open spec fn walk_back(self, from: u32, steps: nat) -> Seq<u32>
        decreases steps,
    {
        if steps == 0 || from == NO_INST {
            Seq::empty()
        } else {
            seq![from] + self.walk_back(self.insts[from].prev, (steps - 1) as nat)
        }
    }

    /// The block after the instructions `insts` were appended one after the
    /// other, `insts[i]` under `ids[i]`.
    pub open spec fn appended_all(self, ids: Seq<u32>, insts: Seq<InstView>) -> BlockView
        decreases ids.len(),
    {
        if ids.len() == 0 {
            self
        } else {
            self.appended_all(ids.drop_last(), insts.drop_last()).appended(
                ids.last(),
                insts.last(),
            )
        }
    }

    /// The block with `inst` in the place of the instruction stored under
    /// `id`.
    pub open spec fn with_inst(self, id: u32, inst: InstView) -> BlockView {
        BlockView { insts: self.insts.insert(id, inst), ..self }
    }

    /// The block in which each instruction whose identity is in `to` has
    /// `user` among its users, and nothing else differs.
    pub open spec fn users_added(self, user: u32, to: Seq<u32>) -> BlockView {
        BlockView {
            insts: Map::new(
                |id: u32| self.insts.contains_key(id),
                |id: u32|
                    if to.contains(id) {
                        self.insts[id].with_user(user)
                    } else {
                        self.insts[id]
                    },
            ),
            ..self
        }
    }

    /// The block after `inputs` were wired into the instruction `target`,
    /// of this block or of another.
    pub open spec fn wired(self, target: u32, inputs: Seq<u32>) -> BlockView {
        BlockView {
            insts: Map::new(
                |id: u32| self.insts.contains_key(id),
                |id: u32| self.insts[id].wired(id, target, inputs),
            ),
            ..self
        }
    }
}

impl View for BasicBlock {
    type V = BlockView;

    open spec fn view(&self) -> BlockView {
        BlockView {
            insts: inst_views(self.instructions@),
            first: self.first,
            last: self.last,
            order: self.order@,
        }
    }
}

/// Appending under a new identity, other than the sentinel, keeps a list a
/// list.
pub proof fn lemma_appended_wf(block: BlockView, id: u32, inst: InstView)
    requires
        block.wf(),
        id != NO_INST,
        !block.insts.contains_key(id),
    ensures
        block.appended(id, inst).wf(),
        forall|x: u32|
            block.appended(id, inst).insts.contains_key(x) <==> block.insts.contains_key(x) || x
                == id,
        forall|x: u32|
            block.insts.contains_key(x) ==> (#[trigger] block.appended(id, inst).insts[x]) == (
            InstView { next: block.appended(id, inst).insts[x].next, ..block.insts[x] }),
        block.appended(id, inst).insts[id] == (InstView {
            prev: block.last,
            next: NO_INST,
            ..inst
        }),
{
    let after = block.appended(id, inst);
    let n = block.order.len() as int;
    assert(after.order.len() == n + 1);
    assert(forall|i: int| 0 <= i < n ==> after.order[i] == block.order[i]);
    assert(after.order[n] == id);
    assert(!block.order.contains(id));
    assert(after.order.no_duplicates());
    if n > 0 {
        assert(block.order.contains(block.order[n - 1]));
    }
    assert forall|x: u32| after.insts.contains_key(x) <==> after.order.contains(x) by {
        if after.order.contains(x) {
            let i = choose|i: int| 0 <= i < after.order.len() && after.order[i] == x;
            if i < n {
                assert(block.order.contains(x));
            }
        }
        if after.insts.contains_key(x) {
            if x == id {
                assert(after.order[n] == x);
            } else {
                assert(block.order.contains(x));
                let i = choose|i: int| 0 <= i < n && block.order[i] == x;
                assert(after.order[i] == x);
            }
        }
    }
    assert forall|i: int| 0 <= i < after.order.len() implies (
    #[trigger] after.insts[after.order[i]]).next == after.successor(i)
        && after.insts[after.order[i]].prev == after.predecessor(i) by {
        if i < n {
            assert(block.order.contains(block.order[i]));
            assert(block.insts[block.order[i]].next == block.successor(i));
            assert(block.insts[block.order[i]].prev == block.predecessor(i));
        }
    }
}

/// Storing an instruction under `id` stores its view under `id`.
pub proof fn lemma_inst_views_insert(store: Map<u32, Inst>, id: u32, inst: Inst)
    ensures
        inst_views(store.insert(id, inst)) == inst_views(store).insert(id, inst@),
{
    assert(inst_views(store.insert(id, inst)) =~= inst_views(store).insert(id, inst@));
}

/// Replacing a stored instruction by one with the same links keeps a list a
/// list.
pub proof fn lemma_block_with_inst_wf(block: BlockView, id: u32, inst: InstView)
    requires
        block.wf(),
        block.insts.contains_key(id),
    ensures
        inst.same_edges(block.insts[id]) ==> block.with_inst(id, inst).wf(),
{
    let after = block.with_inst(id, inst);
    assert forall|i: int|
        inst.same_edges(block.insts[id]) && 0 <= i < after.order.len() implies (
    #[trigger] after.insts[after.order[i]]).next == after.successor(i)
        && after.insts[after.order[i]].prev == after.predecessor(i) by {
        assert(block.insts[block.order[i]].next == block.successor(i));
        assert(block.insts[block.order[i]].prev == block.predecessor(i));
    }
}

/// In a list, a walk from place `i` of the order along the `next` links
/// meets the identities of the order from `i` on, as far as the steps reach.
pub proof fn lemma_walk_from(block: BlockView, i: int, steps: nat)
    requires
        block.wf(),
        0 <= i <= block.order.len(),
    ensures
        block.walk(block.successor(i - 1), steps) == block.order.subrange(
            i,
            if i + steps <= block.order.len() {
                i + steps
            } else {
                block.order.len() as int
            },
        ),
    decreases steps,
{
    let n = block.order.len() as int;
    let end = if i + steps <= n {
        i + steps
    } else {
        n
    };
    if steps == 0 || i == n {
        assert(block.walk(block.successor(i - 1), steps) =~= block.order.subrange(i, end));
    } else {
        assert(block.order.contains(block.order[i]));
        assert(block.insts[block.order[i]].next == block.successor(i));
        lemma_walk_from(block, i + 1, (steps - 1) as nat);
        assert(block.walk(block.successor(i - 1), steps) =~= block.order.subrange(i, end));
    }
}

/// In a list, a walk from place `i` of the order along the `prev` links
/// meets the identities of the order from `i` down, as far as the steps
/// reach.
pub proof fn lemma_walk_back_from(block: BlockView, i: int, steps: nat)
    requires
        block.wf(),
        -1 <= i < block.order.len(),
    ensures
        block.walk_back(block.predecessor(i + 1), steps) == block.order.subrange(
            if 0 <= i + 1 - steps {
                i + 1 - steps
            } else {
                0
            },
            i + 1,
        ).reverse(),
    decreases steps,
{
    let start = if 0 <= i + 1 - steps {
        i + 1 - steps
    } else {
        0
    };
    if steps == 0 || i == -1 {
        assert(block.walk_back(block.predecessor(i + 1), steps) =~= block.order.subrange(
            start,
            i + 1,
        ).reverse());
    } else {
        assert(block.order.contains(block.order[i]));
        assert(block.insts[block.order[i]].prev == block.predecessor(i));
        lemma_walk_back_from(block, i - 1, (steps - 1) as nat);
        assert(block.walk_back(block.predecessor(i + 1), steps) =~= block.order.subrange(
            start,
            i + 1,
        ).reverse());
    }
}

/// Appending to a list one instruction after the other, each under an
/// identity that is new and not the sentinel, gives a list whose order is
/// the old order and then the new identities as they came.
pub proof fn lemma_appended_all(block: BlockView, ids: Seq<u32>, insts: Seq<InstView>)
    requires
        block.wf(),
        ids.len() == insts.len(),
        ids.no_duplicates(),
        !ids.contains(NO_INST),
        forall|i: int| 0 <= i < ids.len() ==> !block.insts.contains_key(ids[i]),
    ensures
        block.appended_all(ids, insts).wf(),
        block.appended_all(ids, insts).order == block.order + ids,
    decreases ids.len(),
{
    if ids.len() == 0 {
        assert(block.order + ids =~= block.order);
    } else {
        let n = ids.len() as int;
        let before = block.appended_all(ids.drop_last(), insts.drop_last());
        assert forall|i: int| 0 <= i < n - 1 implies ids.drop_last()[i] == ids[i] by {}
        assert(!ids.drop_last().contains(NO_INST)) by {
            if ids.drop_last().contains(NO_INST) {
                let i = choose|i: int| 0 <= i < n - 1 && ids.drop_last()[i] == NO_INST;
                assert(ids[i] == NO_INST);
            }
        }
        lemma_appended_all(block, ids.drop_last(), insts.drop_last());
        assert(ids.last() == ids[n - 1]);
        assert(!before.order.contains(ids.last())) by {
            if before.order.contains(ids.last()) {
                let i = choose|i: int|
                    0 <= i < before.order.len() && before.order[i] == ids.last();
                if i < block.order.len() {
                    assert(block.order.contains(ids[n - 1]));
                } else {
                    assert(ids[i - block.order.len()] == ids[n - 1]);
                }
            }
        }
        lemma_appended_wf(before, ids.last(), insts.last());
        assert(block.appended_all(ids, insts).order =~= block.order + ids);
    }
}

/// Whatever is appended to an empty block, one instruction after the other
/// and each under an identity that is new and not the sentinel: a walk from
/// `first` along the `next` links then meets the appended identities, all of
/// them and each once, in the order in which they were appended, and ends at
/// the sentinel after the last of them; a walk from `last` along the `prev`
/// links meets them in the opposite order and ends at the sentinel too.
pub proof fn walk_meets_what_was_appended(ids: Seq<u32>, insts: Seq<InstView>, steps: nat)
    requires
        ids.len() == insts.len(),
        ids.no_duplicates(),
        !ids.contains(NO_INST),
    ensures
        ({
            let block = BlockView::empty().appended_all(ids, insts);
            &&& block.wf()
            &&& block.order == ids
            &&& steps >= ids.len() ==> block.walk(block.first, steps) == ids
            &&& steps >= ids.len() ==> block.walk_back(block.last, steps) == ids.reverse()
            &&& steps < ids.len() ==> block.walk(block.first, steps) == ids.take(steps as int)
            &&& steps < ids.len() ==> block.walk_back(block.last, steps) == ids.reverse().take(
                steps as int,
            )
        }),
{
    let start = BlockView::empty();
    assert(start.wf());
    lemma_appended_all(start, ids, insts);
    let block = start.appended_all(ids, insts);
    assert(block.order =~= ids);
    let n = ids.len() as int;
    lemma_walk_from(block, 0, steps);
    lemma_walk_back_from(block, n - 1, steps);
    if steps >= n {
        assert(ids.subrange(0, n) =~= ids);
    } else {
        assert(ids.subrange(0, steps as int) =~= ids.take(steps as int));
        assert(ids.subrange(n - steps, n).reverse() =~= ids.reverse().take(steps as int));
    }
}

impl BasicBlock {
    /// A block without instructions.
    pub fn new() -> (block: BasicBlock)
        ensures
            block@ == BlockView::empty(),
            block@.wf(),
    {
        let block = BasicBlock {
            instructions: HashMap::new(),
            first: NO_INST,
            last: NO_INST,
            order: Ghost(Seq::empty()),
        };
        assert(block@.insts =~= Map::empty());
        block
    }

    /// Whether the block holds an instruction under `id`.
    pub fn contains(&self, id: u32) -> (found: bool)
        ensures
            found == self@.insts.contains_key(id),
    {
        self.instructions.contains_key(&id)
    }

    /// The instruction stored under `id`.
    pub fn get(&self, id: u32) -> (r: Option<&Inst>)
        ensures
            match r {
                Some(inst) => self@.insts.contains_key(id) && inst@ == self@.insts[id],
                None => !self@.insts.contains_key(id),
            },
    {
        self.instructions.get(&id)
    }

    /// The instruction stored under `id`, to be changed in place. What the
    /// caller leaves behind the reference is what the block then holds
    /// under `id`; the block stays a list if the caller leaves the links as
    /// they are.
    pub fn inst_mut(&mut self, id: u32) -> (r: Option<&mut Inst>)
        ensures
            match r {
                Some(inst) => old(self)@.insts.contains_key(id) && inst@ == old(self)@.insts[id]
                    && final(self)@ == old(self)@.with_inst(id, final(inst)@),
                None => !old(self)@.insts.contains_key(id) && final(self)@ == old(self)@,
            },
            r matches Some(inst) ==> (old(self)@.wf() && final(inst)@.same_edges(inst@)
                ==> final(self)@.wf()),
    {
        let r = slot_mut(&mut self.instructions, id);
        proof {
            if r is Some {
                lemma_inst_views_insert(old(self).instructions@, id, *final(r->Some_0));
                if old(self)@.wf() {
                    lemma_block_with_inst_wf(old(self)@, id, final(r->Some_0)@);
                }
            }
        }
        r
    }

    /// Appends `inst` under `id` at the end of the block and sets its links;
    /// what else `inst` holds is kept.
    pub fn push_back(&mut self, id: u32, inst: Inst)
        requires
            old(self)@.wf(),
            id != NO_INST,
            !old(self)@.insts.contains_key(id),
        ensures
            final(self)@ == old(self)@.appended(id, inst@),
            final(self)@.wf(),
    {
        let mut linked = inst;
        let last = self.last;
        proof {
            if last != NO_INST {
                assert(old(self)@.order.contains(old(self)@.order.last()));
            }
        }
        if last == NO_INST {
            self.first = id;
        } else {
            self.inst_mut(last).unwrap().set_next(id);
        }
        linked.set_prev(last);
        linked.set_next(NO_INST);
        self.last = id;
        self.instructions.insert(id, linked);
        self.order = Ghost(self.order@.push(id));
        proof {
            assert(self@.insts =~= old(self)@.appended(id, inst@).insts);
            lemma_appended_wf(old(self)@, id, inst@);
        }
    }
}

} // verus!
