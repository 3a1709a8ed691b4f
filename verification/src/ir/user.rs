//! Users (values with operands): instruction opcodes, constants and the
//! def-use record.

use vstd::prelude::*;

verus! {

#[derive(Clone, Copy, PartialEq, Eq, Structural)]
pub enum OpID {
    // Terminator instructions
    Ret,
    Br,
    // Standard binary operators
    Add,
    Sub,
    Mul,
    SDiv,
    // Float binary operators
    FAdd,
    FSub,
    FMul,
    FDiv,
    // Memory operators
    Alloca,
    Load,
    Store,
    // Int compare operators
    Ge,
    Gt,
    Le,
    Lt,
    Eq,
    Ne,
    // Float compare operators
    FGe,
    FGt,
    FLe,
    FLt,
    FEq,
    FNe,
    // Other operators
    Phi,
    Call,
    GetElementPtr,
    ZExt,
    FPToSI,
    SIToFP,
}

/// One use of a value: operand slot `arg_no` of the user at index `user`.
#[derive(Clone, Copy, PartialEq, Eq, Structural)]
pub struct Use {
    pub user: usize,
    pub arg_no: usize,
}

/// The payload of a constant. Floating-point constants are held as their
/// IEEE-754 single-precision bit pattern.
pub enum ConstantClass {
    Int(i32),
    Zero,
    Float(u32),
    Arr(Vec<usize>),
}

} // verus!
