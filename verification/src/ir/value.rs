//! Values of the IR arena and the typed handles that refer to them.

use vstd::prelude::*;
use crate::ir::user::{ConstantClass, OpID, Use};

verus! {

/// What kind of value an arena slot holds, with the kind's own data.
/// All `usize` fields are indices into the module's value arena.
pub enum ValueClass {
    /// A plain value with no further class.
    Bare,
    /// A user that is none of the kinds below.
    User,
    GlobalVariable { is_const: bool, init_val: Option<usize> },
    Inst { op_id: OpID, bb: usize },
    Constant(ConstantClass),
    Function { args: Vec<usize>, bbs: Vec<usize> },
    BasicBlock { function: usize, pre_bbs: Vec<usize>, succ_bbs: Vec<usize>, insts: Vec<usize> },
    Arg { function: usize, arg_no: usize },
}

/// A value: its type (an index into the type table), its name, the list of
/// its uses, its operands (for users) and its class.
pub struct Value {
    pub type_: usize,
    pub name: String,
    pub use_list: Vec<Use>,
    pub operands: Vec<usize>,
    pub class: ValueClass,
}

/// Counter of value identities (each value's id is its arena index plus one).
pub struct Cnt {
    pub id: usize,
}

#[derive(Clone, Copy, PartialEq, Eq, Structural)]
pub struct ValuePtr(pub usize);

#[derive(Clone, Copy, PartialEq, Eq, Structural)]
pub struct UserPtr(pub usize);

#[derive(Clone, Copy, PartialEq, Eq, Structural)]
pub struct GVPtr(pub usize);

#[derive(Clone, Copy, PartialEq, Eq, Structural)]
pub struct InstPtr(pub usize);

#[derive(Clone, Copy, PartialEq, Eq, Structural)]
pub struct ConstantPtr(pub usize);

#[derive(Clone, Copy, PartialEq, Eq, Structural)]
pub struct FunctionPtr(pub usize);

#[derive(Clone, Copy, PartialEq, Eq, Structural)]
pub struct BasicBlockPtr(pub usize);

#[derive(Clone, Copy, PartialEq, Eq, Structural)]
pub struct ArgPtr(pub usize);

} // verus!
