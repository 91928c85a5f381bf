use vstd::prelude::*;

verus! {

/// Selector values of the eleven fixed builtins, popped by a `Func`
/// instruction to choose the operation.
pub const INPUT: i32 = 0;

pub const OUTPUT: i32 = 1;

pub const ADD: i32 = 2;

pub const SUBTRACT: i32 = 3;

pub const MULTIPLY: i32 = 4;

pub const DIVIDE: i32 = 5;

pub const MOD_: i32 = 6;

pub const DOUBLE_VAL: i32 = 7;

pub const NEGATE: i32 = 8;

pub const SQUARE: i32 = 9;

pub const CLONE: i32 = 10;

} // verus!
