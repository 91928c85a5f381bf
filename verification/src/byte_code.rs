use vstd::prelude::*;

verus! {

/// The instruction alphabet of the virtual machine.
///
/// `NoOp` is reserved and never emitted by the current pipeline.
#[derive(Debug, Clone, Copy, PartialEq, Eq, Structural)]
pub enum OpCode {
    NoOp,
    Label,
    Push0,
    Pop,
    Bump,
    Func,
    Jump,
    PushConst,
}

/// One bytecode instruction.
///
/// The meaning of `arg` depends on `op_code`: it is the label identifier for
/// `Label` and `Jump`, the literal value for `PushConst`, and unused (zero)
/// for every other opcode.
#[derive(Debug, Clone, Copy, PartialEq, Eq, Structural)]
pub struct ByteCode {
    pub op_code: OpCode,
    pub arg: i32,
}

} // verus!
