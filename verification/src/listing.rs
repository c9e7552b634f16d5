//! The orders in which a reader goes through a graph: blocks and users by
//! ascending identity, instructions as the block's links chain them.

use crate::basic_block::BasicBlock;
use crate::graph::{Graph, END_BLOCK};
use crate::instruction::{Inst, NO_INST};
use vstd::prelude::*;
use vstd::std_specs::iter::IteratorSpec;

verus! {

broadcast use vstd::std_specs::hash::group_hash_axioms;

/// Instruction identities in ascending order: each is less than the next.
pub open spec fn ascending(ids: Seq<u32>) -> bool {
    forall|i: int, j: int| 0 <= i < j < ids.len() ==> ids[i] < ids[j]
}

/// Block identities in ascending order: each is less than the next.
pub open spec fn blocks_ascending(ids: Seq<i8>) -> bool {
    forall|i: int, j: int| 0 <= i < j < ids.len() ==> ids[i] < ids[j]
}

/// Puts `x` into `v` at its place in ascending order, unless `v` has it.
pub fn insert_ascending(v: &mut Vec<u32>, x: u32)
    requires
        ascending(old(v)@),
    ensures
        ascending(final(v)@),
        forall|e: u32| final(v)@.contains(e) <==> old(v)@.contains(e) || e == x,
{
    let mut i: usize = 0;
    while i < v.len() && v[i] < x
        invariant
            i <= v@.len(),
            v@ == old(v)@,
            forall|j: int| 0 <= j < i ==> v@[j] < x,
        decreases v@.len() - i,
    {
        i += 1;
    }
    if i < v.len() && v[i] == x {
        return ;
    }
    v.insert(i, x);
    proof {
        let before = old(v)@;
        let after = v@;
        assert forall|e: u32| after.contains(e) <==> before.contains(e) || e == x by {
            if after.contains(e) {
                let j = choose|j: int| 0 <= j < after.len() && after[j] == e;
                if j < i {
                    assert(before[j] == e);
                } else if j > i {
                    assert(before[j - 1] == e);
                }
            }
            if before.contains(e) {
                let j = choose|j: int| 0 <= j < before.len() && before[j] == e;
                if j < i {
                    assert(after[j] == e);
                } else {
                    assert(after[j + 1] == e);
                }
            }
            assert(after[i as int] == x);
        }
        assert forall|a: int, b: int| 0 <= a < b < after.len() implies after[a] < after[b] by {
            let pa = if a < i { a } else { a - 1 };
            let pb = if b < i { b } else { b - 1 };
            if a != i && b != i {
                assert(before[pa] < before[pb]);
            } else if a == i {
                if (i as int) < pb {
                    assert(before[i as int] < before[pb]);
                }
            }
        }
    }
}

impl Inst {
    /// The users of the instruction, by ascending identity.
    pub fn sorted_users(&self) -> (users: Vec<u32>)
        ensures
            ascending(users@),
            forall|e: u32| users@.contains(e) <==> self@.users.contains(e),
    {
        let mut users: Vec<u32> = Vec::new();
        let set = &self.base().users;
        proof {
            let all = vstd::std_specs::hash::spec_hash_keys_iter(set).remaining();
            assert forall|e: u32| set@.contains(e) <==> exists|j: int|
                0 <= j < all.len() && *all[j] == e by {
                assert(all.unref().to_set() == set@);
                if set@.contains(e) {
                    assert(all.unref().contains(e));
                    let j = choose|j: int| 0 <= j < all.unref().len() && all.unref()[j] == e;
                    assert(*all[j] == e);
                }
                if exists|j: int| 0 <= j < all.len() && *all[j] == e {
                    let j = choose|j: int| 0 <= j < all.len() && *all[j] == e;
                    assert(all.unref()[j] == e);
                    assert(all.unref().contains(e));
                }
            }
        }
        for user in it: set.iter()
            invariant
                forall|e: u32|
                    set@.contains(e) <==> exists|j: int|
                        0 <= j < it.seq().len() && *it.seq()[j] == e,
                ascending(users@),
                forall|e: u32|
                    users@.contains(e) <==> exists|j: int|
                        0 <= j < it.index() && *it.seq()[j] == e,
        {
            insert_ascending(&mut users, *user);
        }
        users
    }
}

impl BasicBlock {
    /// The instructions of the block with their identities, from the first
    /// along the `next` links to the last.
    pub fn iterate(&self) -> (items: Vec<(u32, &Inst)>)
        requires
            self@.wf(),
        ensures
            items@.len() == self@.order.len(),
            forall|i: int|
                0 <= i < items@.len() ==> (#[trigger] items@[i]).0 == self@.order[i] && items@[i].1@
                    == self@.insts[self@.order[i]],
    {
        let mut items: Vec<(u32, &Inst)> = Vec::new();
        let mut next = self.first;
        while next != NO_INST
            invariant
                self@.wf(),
                items@.len() <= self@.order.len(),
                next == self@.successor(items@.len() - 1),
                forall|i: int|
                    0 <= i < items@.len() ==> (#[trigger] items@[i]).0 == self@.order[i]
                        && items@[i].1@ == self@.insts[self@.order[i]],
            decreases self@.order.len() - items@.len(),
        {
            proof {
                assert(self@.order.contains(self@.order[items@.len() as int]));
            }
            let inst = self.get(next).unwrap();
            items.push((next, inst));
            next = inst.get_next();
        }
        items
    }

    /// The instructions of the block with their identities, from the last
    /// along the `prev` links to the first.
    pub fn iterate_back(&self) -> (items: Vec<(u32, &Inst)>)
        requires
            self@.wf(),
        ensures
            items@.len() == self@.order.len(),
            forall|i: int|
                0 <= i < items@.len() ==> (#[trigger] items@[i]).0 == self@.order[self@.order.len()
                    - 1 - i] && items@[i].1@ == self@.insts[items@[i].0],
    {
        let mut items: Vec<(u32, &Inst)> = Vec::new();
        let mut prev = self.last;
        while prev != NO_INST
            invariant
                self@.wf(),
                items@.len() <= self@.order.len(),
                prev == self@.predecessor(self@.order.len() - items@.len()),
                forall|i: int|
                    0 <= i < items@.len() ==> (#[trigger] items@[i]).0
                        == self@.order[self@.order.len() - 1 - i] && items@[i].1@
                        == self@.insts[items@[i].0],
            decreases self@.order.len() - items@.len(),
        {
            proof {
                assert(self@.order.contains(self@.order[self@.order.len() - 1 - items@.len()]));
            }
            let inst = self.get(prev).unwrap();
            items.push((prev, inst));
            prev = inst.get_prev();
        }
        items
    }
}

impl Graph {
    /// The identities of the blocks in the order in which a reader goes
    /// through them: the blocks other than the end block by ascending
    /// identity, and the end block last.
    pub fn block_ids(&self) -> (ids: Vec<i8>)
        ensures
            ids@.len() > 0,
            ids@.last() == END_BLOCK,
            blocks_ascending(ids@.drop_last()),
            forall|b: i8|
                ids@.drop_last().contains(b) <==> self@.blocks.contains_key(b) && b != END_BLOCK,
    {
        let mut ids: Vec<i8> = Vec::new();
        let mut b: i8 = i8::MIN;
        loop
            invariant_except_break
                blocks_ascending(ids@),
                forall|c: i8| ids@.contains(c) ==> c < b,
                forall|c: i8|
                    c < b ==> (ids@.contains(c) <==> self@.blocks.contains_key(c) && c
                        != END_BLOCK),
            ensures
                blocks_ascending(ids@),
                forall|c: i8| ids@.contains(c) <==> self@.blocks.contains_key(c) && c != END_BLOCK,
            decreases i8::MAX - b,
        {
            let ghost before = ids@;
            let listed = b != END_BLOCK && self.blocks.contains_key(&b);
            if listed {
                ids.push(b);
            }
            proof {
                assert forall|c: i8| #[trigger]
                    ids@.contains(c) <==> before.contains(c) || (listed && c == b) by {
                    if ids@.contains(c) {
                        let j = choose|j: int| 0 <= j < ids@.len() && ids@[j] == c;
                        if j < before.len() {
                            assert(before[j] == c);
                        }
                    }
                    if before.contains(c) {
                        let j = choose|j: int| 0 <= j < before.len() && before[j] == c;
                        assert(ids@[j] == c);
                    }
                    if listed {
                        assert(ids@[before.len() as int] == b);
                    }
                }
                assert forall|i: int, j: int| 0 <= i < j < ids@.len() implies ids@[i] < ids@[j] by {
                    if j == before.len() {
                        assert(before.contains(before[i]));
                    }
                }
                assert forall|c: i8| c <= b implies (ids@.contains(c)
                    <==> self@.blocks.contains_key(c) && c != END_BLOCK) by {
                    if c < b {
                        assert(before.contains(c) <==> self@.blocks.contains_key(c) && c
                            != END_BLOCK);
                    } else {
                        assert(!before.contains(c));
                    }
                }
            }
            if b == i8::MAX {
                break ;
            }
            b += 1;
        }
        let ghost listed = ids@;
        ids.push(END_BLOCK);
        assert(ids@.drop_last() =~= listed);
        ids
    }
}

} // verus!
