//! The fixed instruction set. Register and constant-pool operands are small
//! unsigned integers; the set contains no jumps, so execution is always
//! straight-line.

use vstd::prelude::*;

verus! {

/// One virtual-machine instruction.
#[derive(Clone, Copy, Debug, PartialEq, Eq, Structural)]
pub enum Bytecode {
    /// Look the string constant up in the global environment and write the
    /// bound value, or `Nil`, into the destination register.
    GetGlobal(u8, u8),
    /// Copy a constant-pool value into the destination register.
    LoadConst(u8, u8),
    /// Write `Nil` into the destination register.
    LoadNil(u8),
    /// Write a boolean immediate into the destination register.
    LoadBool(u8, bool),
    /// Write an integer immediate into the destination register.
    LoadInt(u8, i16),
    /// Invoke the callable held in the named register.
    Call(u8, u8),
}

} // verus!
