//! Instructions: a closed set of variants over a shared base.

use crate::error::IrError;
use std::collections::HashSet;
use vstd::prelude::*;

verus! {

broadcast use vstd::std_specs::hash::group_hash_axioms;

/// The link value that stands for "no instruction": the `prev` of a block's
/// first instruction, the `next` of its last. No instruction has it as identity.
pub const NO_INST: u32 = u32::MAX;

/// The type of the value that an instruction produces.
#[derive(Clone, Copy, Debug, PartialEq, Eq, Structural)]
pub enum Type {
    NoType,
    I32,
}

impl Default for Type {
    fn default() -> (t: Type)
        ensures
            t == Type::NoType,
    {
        Type::NoType
    }
}

/// The variant of an instruction.
#[derive(Clone, Copy, Debug, PartialEq, Eq, Structural)]
pub enum Opcode {
    Parameter,
    Constant,
    Add,
}

/// What all instructions share: the result type, the links to the
/// neighbours in the block, and the instructions that use the result.
pub struct InstBase {
    pub type_: Type,
    pub prev: u32,
    pub next: u32,
    pub users: HashSet<u32>,
}

/// The mathematical value of an [`InstBase`].
pub struct BaseView {
    pub type_: Type,
    pub prev: u32,
    pub next: u32,
    pub users: Set<u32>,
}

impl BaseView {
    /// The base of an instruction that was just made.
    pub open spec fn fresh() -> BaseView {
        BaseView { type_: Type::NoType, prev: NO_INST, next: NO_INST, users: Set::empty() }
    }
}

impl View for InstBase {
    type V = BaseView;

    open spec fn view(&self) -> BaseView {
        BaseView { type_: self.type_, prev: self.prev, next: self.next, users: self.users@ }
    }
}

impl Default for InstBase {
    fn default() -> (b: InstBase)
        ensures
            b@ == BaseView::fresh(),
    {
        InstBase {
            type_: Type::NoType,
            prev: NO_INST,
            next: NO_INST,
            users: HashSet::new(),
        }
    }
}

/// A constant: the base and a signed value.
pub struct ConstantInst {
    pub inst_base: InstBase,
    pub value: i64,
}

impl Default for ConstantInst {
    fn default() -> (c: ConstantInst)
        ensures
            c.inst_base@ == BaseView::fresh(),
            c.value == 0,
    {
        ConstantInst { inst_base: InstBase::default(), value: 0 }
    }
}

/// A binary operation: the base and the identities of its two operands.
pub struct BinaryOp {
    pub inst_base: InstBase,
    pub input1: u32,
    pub input2: u32,
}

impl Default for BinaryOp {
    fn default() -> (op: BinaryOp)
        ensures
            op.inst_base@ == BaseView::fresh(),
            op.input1 == NO_INST,
            op.input2 == NO_INST,
    {
        BinaryOp { inst_base: InstBase::default(), input1: NO_INST, input2: NO_INST }
    }
}

/// An instruction.
pub enum Inst {
    Parameter(InstBase),
    Constant(ConstantInst),
    Add(BinaryOp),
}

/// The mathematical value of an [`Inst`].
///
/// `value` is 0 unless the instruction is a constant. `inputs` is the operand
/// list: empty for a parameter and a constant, of length two for a binary
/// operation, where `NO_INST` stands for an operand that is not wired yet.
pub struct InstView {
    pub opcode: Opcode,
    pub type_: Type,
    pub prev: u32,
    pub next: u32,
    pub users: Set<u32>,
    pub value: i64,
    pub inputs: Seq<u32>,
}

impl InstView {
    /// The instruction of variant `opcode` as `Inst::new` makes it.
    pub open spec fn fresh(opcode: Opcode) -> InstView {
        InstView {
            opcode,
            type_: Type::NoType,
            prev: NO_INST,
            next: NO_INST,
            users: Set::empty(),
            value: 0,
            inputs: if opcode == Opcode::Add {
                seq![NO_INST, NO_INST]
            } else {
                Seq::empty()
            },
        }
    }

    /// The part that the instruction shares with all others.
    pub open spec fn base(self) -> BaseView {
        BaseView { type_: self.type_, prev: self.prev, next: self.next, users: self.users }
    }

    /// No operand is wired: each place of the operand list holds the
    /// sentinel.
    pub open spec fn unwired(self) -> bool {
        forall|k: int| 0 <= k < self.inputs.len() ==> self.inputs[k] == NO_INST
    }

    /// The two instructions have the same links, the same users and the
    /// same operands: what the invariants of a block and of a graph rest on.
    pub open spec fn same_edges(self, other: InstView) -> bool {
        &&& self.prev == other.prev
        &&& self.next == other.next
        &&& self.users == other.users
        &&& self.inputs == other.inputs
    }

    /// The instruction with `user` among its users.
    pub open spec fn with_user(self, user: u32) -> InstView {
        InstView { users: self.users.insert(user), ..self }
    }

    /// What becomes of this instruction, which has the identity `id`, when
    /// `inputs` are wired into the instruction `target`: as one of the
    /// inputs it has `target` among its users, as the target it has
    /// `inputs` as its operand list, and nothing else differs.
    pub open spec fn wired(self, id: u32, target: u32, inputs: Seq<u32>) -> InstView {
        let used = if inputs.contains(id) {
            self.with_user(target)
        } else {
            self
        };
        if id == target {
            InstView { inputs, ..used }
        } else {
            used
        }
    }

    /// The variant-specific part over the given base.
    pub open spec fn over(
        base: BaseView,
        opcode: Opcode,
        value: i64,
        inputs: Seq<u32>,
    ) -> InstView {
        InstView {
            opcode,
            type_: base.type_,
            prev: base.prev,
            next: base.next,
            users: base.users,
            value,
            inputs,
        }
    }
}

impl View for Inst {
    type V = InstView;

    open spec fn view(&self) -> InstView {
        match *self {
            Inst::Parameter(base) => InstView::over(base@, Opcode::Parameter, 0, Seq::empty()),
            Inst::Constant(con) => InstView::over(
                con.inst_base@,
                Opcode::Constant,
                con.value,
                Seq::empty(),
            ),
            Inst::Add(op) => InstView::over(
                op.inst_base@,
                Opcode::Add,
                0,
                seq![op.input1, op.input2],
            ),
        }
    }
}

/// A binary operation has two operands, wired or not; a parameter and a
/// constant have none, and only a constant has a value other than 0.
pub proof fn operands_fit_the_variant(inst: Inst)
    ensures
        inst@.opcode == Opcode::Add ==> inst@.inputs.len() == 2,
        inst@.opcode != Opcode::Add ==> inst@.inputs.len() == 0,
        inst@.opcode != Opcode::Constant ==> inst@.value == 0,
{
}

/// Recording a user a second time changes nothing.
pub proof fn a_user_is_recorded_once(inst: InstView, user: u32)
    ensures
        inst.with_user(user).with_user(user) == inst.with_user(user),
{
    assert(inst.users.insert(user).insert(user) =~= inst.users.insert(user));
}

impl Inst {
    /// A new instruction of the given variant: no type, no links, no users,
    /// value 0 for a constant, no operand wired for a binary operation.
    pub fn new(opcode: Opcode) -> (inst: Inst)
        ensures
            inst@ == InstView::fresh(opcode),
    {
        match opcode {
            Opcode::Parameter => Inst::Parameter(InstBase::default()),
            Opcode::Constant => Inst::Constant(ConstantInst::default()),
            Opcode::Add => Inst::Add(BinaryOp::default()),
        }
    }

    /// The part that the instruction shares with all others.
    pub fn base(&self) -> (base: &InstBase)
        ensures
            base@ == self@.base(),
    {
        match self {
            Inst::Parameter(base) => base,
            Inst::Constant(con) => &con.inst_base,
            Inst::Add(op) => &op.inst_base,
        }
    }

    /// The variant of the instruction.
    pub fn opcode(&self) -> (op: Opcode)
        ensures
            op == self@.opcode,
    {
        match self {
            Inst::Parameter(_) => Opcode::Parameter,
            Inst::Constant(_) => Opcode::Constant,
            Inst::Add(_) => Opcode::Add,
        }
    }

    pub fn get_next(&self) -> (next: u32)
        ensures
            next == self@.next,
    {
        match self {
            Inst::Parameter(base) => base.next,
            Inst::Constant(con) => con.inst_base.next,
            Inst::Add(op) => op.inst_base.next,
        }
    }

    pub fn get_prev(&self) -> (prev: u32)
        ensures
            prev == self@.prev,
    {
        match self {
            Inst::Parameter(base) => base.prev,
            Inst::Constant(con) => con.inst_base.prev,
            Inst::Add(op) => op.inst_base.prev,
        }
    }

    pub fn set_next(&mut self, next: u32)
        ensures
            final(self)@ == (InstView { next, ..old(self)@ }),
    {
        match self {
            Inst::Parameter(base) => base.next = next,
            Inst::Constant(con) => con.inst_base.next = next,
            Inst::Add(op) => op.inst_base.next = next,
        }
    }

    pub fn set_prev(&mut self, prev: u32)
        ensures
            final(self)@ == (InstView { prev, ..old(self)@ }),
    {
        match self {
            Inst::Parameter(base) => base.prev = prev,
            Inst::Constant(con) => con.inst_base.prev = prev,
            Inst::Add(op) => op.inst_base.prev = prev,
        }
    }

    pub fn set_type(&mut self, type_: Type)
        ensures
            final(self)@ == (InstView { type_, ..old(self)@ }),
    {
        match self {
            Inst::Parameter(base) => base.type_ = type_,
            Inst::Constant(con) => con.inst_base.type_ = type_,
            Inst::Add(op) => op.inst_base.type_ = type_,
        }
    }

    /// Sets the value of a constant. Any other variant is refused.
    pub fn set_value(&mut self, value: i64) -> (r: Result<(), IrError>)
        ensures
            match r {
                Ok(_) => old(self)@.opcode == Opcode::Constant && final(self)@ == (InstView {
                    value,
                    ..old(self)@
                }),
                Err(e) => e == IrError::UnsupportedOperation && old(self)@.opcode
                    != Opcode::Constant && final(self)@ == old(self)@,
            },
    {
        match self {
            Inst::Constant(con) => {
                con.value = value;
                Ok(())
            },
            _ => Err(IrError::UnsupportedOperation),
        }
    }

    /// Sets the two operands of a binary operation, in order. Any other
    /// variant is refused, and so is a list that does not hold two operands.
    pub fn set_inputs(&mut self, inputs: &[u32]) -> (r: Result<(), IrError>)
        ensures
            match r {
                Ok(_) => old(self)@.opcode == Opcode::Add && inputs@.len() == 2 && final(self)@ == (
                InstView { inputs: inputs@, ..old(self)@ }),
                Err(e) => final(self)@ == old(self)@ && if old(self)@.opcode != Opcode::Add {
                    e == IrError::UnsupportedOperation
                } else {
                    e == IrError::ArityMismatch && inputs@.len() != 2
                },
            },
    {
        match self {
            Inst::Add(op) => {
                if inputs.len() != 2 {
                    return Err(IrError::ArityMismatch);
                }
                op.input1 = inputs[0];
                op.input2 = inputs[1];
                assert(inputs@ =~= seq![inputs@[0], inputs@[1]]);
                Ok(())
            },
            _ => Err(IrError::UnsupportedOperation),
        }
    }

    /// Records `user` as an instruction that has this one as an operand.
    pub fn insert_user(&mut self, user: u32)
        ensures
            final(self)@ == old(self)@.with_user(user),
    {
        match self {
            Inst::Parameter(base) => {
                base.users.insert(user);
            },
            Inst::Constant(con) => {
                con.inst_base.users.insert(user);
            },
            Inst::Add(op) => {
                op.inst_base.users.insert(user);
            },
        }
    }
}

} // verus!
