//! A graph-based intermediate representation: basic blocks that hold ordered
//! instructions, with definition-use edges between the instructions, and a
//! cursor-driven builder on top.
//!
//! Every mutation is stated over the view of the value it changes, and every
//! operation that can be refused returns the reason as an [`error::IrError`]
//! and leaves the value as it was.

pub mod basic_block;
pub mod error;
pub mod graph;
pub mod instruction;
pub mod ir_constructor;
pub mod listing;
mod slot;
