//! A cursor over the IR: instructions are created at the end of the
//! current insertion block.

use vstd::prelude::*;
use crate::ir::func_impl::{func_param_tys, func_ret_ty};
use crate::ir::inst_impl::{
    gep_elem, gep_ok, inst_added, insts_of, int_or_bool, is_bool_ty, is_float_ty, is_int_ty, open_block, ptr_ids,
    val_ty,
};
use crate::ir::module::{Module, BOOL_TY, FLOAT_TY, INT_TY, VOID_TY};
use crate::ir::type_::ptr_elem_spec;
use crate::ir::user::OpID;
use crate::ir::value::{BasicBlockPtr, FunctionPtr, InstPtr, ValuePtr};

verus! {

/// The insertion point: the block new instructions go to, if set.
pub struct InstBuilder {
    pub bb: Option<BasicBlockPtr>,
}

impl InstBuilder {
    pub fn new() -> (r: Self)
        ensures
            r.bb is None,
    {
        InstBuilder { bb: None }
    }

    /// The insertion block.
    pub fn get_insert_block(&self) -> (r: BasicBlockPtr)
        requires
            self.bb is Some,
        ensures
            r == self.bb.unwrap(),
    {
        self.bb.unwrap()
    }

    /// Makes `bb` the insertion block.
    pub fn set_insert_point(&mut self, bb: BasicBlockPtr)
        ensures
            final(self).bb == Some(bb),
    {
        self.bb = Some(bb);
    }

    pub fn create_iadd(&self, m: &mut Module, lhs: ValuePtr, rhs: ValuePtr) -> (r: InstPtr)
        requires
            self.bb is Some,
            old(m).wf(),
            open_block(*old(m), self.bb.unwrap()),
            lhs.0 < old(m).nv(),
            rhs.0 < old(m).nv(),
            is_int_ty(*old(m), val_ty(*old(m), lhs)),
            is_int_ty(*old(m), val_ty(*old(m), rhs)),
        ensures
            final(m).wf(),
            inst_added(
                *final(m),
                *old(m),
                r.0,
                INT_TY,
                OpID::Add,
                self.bb.unwrap().0,
                seq![lhs.0, rhs.0],
                insts_of(*old(m), self.bb.unwrap()).push(r.0),
                Seq::empty(),
            ),
    {
        let b = self.bb.unwrap();
        InstPtr::ibinary_inst(m, OpID::Add, lhs, rhs, b)
    }

    pub fn create_isub(&self, m: &mut Module, lhs: ValuePtr, rhs: ValuePtr) -> (r: InstPtr)
        requires
            self.bb is Some,
            old(m).wf(),
            open_block(*old(m), self.bb.unwrap()),
            lhs.0 < old(m).nv(),
            rhs.0 < old(m).nv(),
            is_int_ty(*old(m), val_ty(*old(m), lhs)),
            is_int_ty(*old(m), val_ty(*old(m), rhs)),
        ensures
            final(m).wf(),
            inst_added(
                *final(m),
                *old(m),
                r.0,
                INT_TY,
                OpID::Sub,
                self.bb.unwrap().0,
                seq![lhs.0, rhs.0],
                insts_of(*old(m), self.bb.unwrap()).push(r.0),
                Seq::empty(),
            ),
    {
        let b = self.bb.unwrap();
        InstPtr::ibinary_inst(m, OpID::Sub, lhs, rhs, b)
    }

    pub fn create_imul(&self, m: &mut Module, lhs: ValuePtr, rhs: ValuePtr) -> (r: InstPtr)
        requires
            self.bb is Some,
            old(m).wf(),
            open_block(*old(m), self.bb.unwrap()),
            lhs.0 < old(m).nv(),
            rhs.0 < old(m).nv(),
            is_int_ty(*old(m), val_ty(*old(m), lhs)),
            is_int_ty(*old(m), val_ty(*old(m), rhs)),
        ensures
            final(m).wf(),
            inst_added(
                *final(m),
                *old(m),
                r.0,
                INT_TY,
                OpID::Mul,
                self.bb.unwrap().0,
                seq![lhs.0, rhs.0],
                insts_of(*old(m), self.bb.unwrap()).push(r.0),
                Seq::empty(),
            ),
    {
        let b = self.bb.unwrap();
        InstPtr::ibinary_inst(m, OpID::Mul, lhs, rhs, b)
    }

    pub fn create_isdiv(&self, m: &mut Module, lhs: ValuePtr, rhs: ValuePtr) -> (r: InstPtr)
        requires
            self.bb is Some,
            old(m).wf(),
            open_block(*old(m), self.bb.unwrap()),
            lhs.0 < old(m).nv(),
            rhs.0 < old(m).nv(),
            is_int_ty(*old(m), val_ty(*old(m), lhs)),
            is_int_ty(*old(m), val_ty(*old(m), rhs)),
        ensures
            final(m).wf(),
            inst_added(
                *final(m),
                *old(m),
                r.0,
                INT_TY,
                OpID::SDiv,
                self.bb.unwrap().0,
                seq![lhs.0, rhs.0],
                insts_of(*old(m), self.bb.unwrap()).push(r.0),
                Seq::empty(),
            ),
    {
        let b = self.bb.unwrap();
        InstPtr::ibinary_inst(m, OpID::SDiv, lhs, rhs, b)
    }

    pub fn create_icmp_eq(&self, m: &mut Module, lhs: ValuePtr, rhs: ValuePtr) -> (r: InstPtr)
        requires
            self.bb is Some,
            old(m).wf(),
            open_block(*old(m), self.bb.unwrap()),
            lhs.0 < old(m).nv(),
            rhs.0 < old(m).nv(),
            int_or_bool(*old(m), val_ty(*old(m), lhs)),
            int_or_bool(*old(m), val_ty(*old(m), rhs)),
        ensures
            final(m).wf(),
            inst_added(
                *final(m),
                *old(m),
                r.0,
                BOOL_TY,
                OpID::Eq,
                self.bb.unwrap().0,
                seq![lhs.0, rhs.0],
                insts_of(*old(m), self.bb.unwrap()).push(r.0),
                Seq::empty(),
            ),
    {
        let b = self.bb.unwrap();
        InstPtr::icmp_inst(m, OpID::Eq, lhs, rhs, b)
    }

    pub fn create_icmp_ne(&self, m: &mut Module, lhs: ValuePtr, rhs: ValuePtr) -> (r: InstPtr)
        requires
            self.bb is Some,
            old(m).wf(),
            open_block(*old(m), self.bb.unwrap()),
            lhs.0 < old(m).nv(),
            rhs.0 < old(m).nv(),
            int_or_bool(*old(m), val_ty(*old(m), lhs)),
            int_or_bool(*old(m), val_ty(*old(m), rhs)),
        ensures
            final(m).wf(),
            inst_added(
                *final(m),
                *old(m),
                r.0,
                BOOL_TY,
                OpID::Ne,
                self.bb.unwrap().0,
                seq![lhs.0, rhs.0],
                insts_of(*old(m), self.bb.unwrap()).push(r.0),
                Seq::empty(),
            ),
    {
        let b = self.bb.unwrap();
        InstPtr::icmp_inst(m, OpID::Ne, lhs, rhs, b)
    }

    pub fn create_icmp_gt(&self, m: &mut Module, lhs: ValuePtr, rhs: ValuePtr) -> (r: InstPtr)
        requires
            self.bb is Some,
            old(m).wf(),
            open_block(*old(m), self.bb.unwrap()),
            lhs.0 < old(m).nv(),
            rhs.0 < old(m).nv(),
            int_or_bool(*old(m), val_ty(*old(m), lhs)),
            int_or_bool(*old(m), val_ty(*old(m), rhs)),
        ensures
            final(m).wf(),
            inst_added(
                *final(m),
                *old(m),
                r.0,
                BOOL_TY,
                OpID::Gt,
                self.bb.unwrap().0,
                seq![lhs.0, rhs.0],
                insts_of(*old(m), self.bb.unwrap()).push(r.0),
                Seq::empty(),
            ),
    {
        let b = self.bb.unwrap();
        InstPtr::icmp_inst(m, OpID::Gt, lhs, rhs, b)
    }

    pub fn create_icmp_ge(&self, m: &mut Module, lhs: ValuePtr, rhs: ValuePtr) -> (r: InstPtr)
        requires
            self.bb is Some,
            old(m).wf(),
            open_block(*old(m), self.bb.unwrap()),
            lhs.0 < old(m).nv(),
            rhs.0 < old(m).nv(),
            int_or_bool(*old(m), val_ty(*old(m), lhs)),
            int_or_bool(*old(m), val_ty(*old(m), rhs)),
        ensures
            final(m).wf(),
            inst_added(
                *final(m),
                *old(m),
                r.0,
                BOOL_TY,
                OpID::Ge,
                self.bb.unwrap().0,
                seq![lhs.0, rhs.0],
                insts_of(*old(m), self.bb.unwrap()).push(r.0),
                Seq::empty(),
            ),
    {
        let b = self.bb.unwrap();
        InstPtr::icmp_inst(m, OpID::Ge, lhs, rhs, b)
    }

    pub fn create_icmp_lt(&self, m: &mut Module, lhs: ValuePtr, rhs: ValuePtr) -> (r: InstPtr)
        requires
            self.bb is Some,
            old(m).wf(),
            open_block(*old(m), self.bb.unwrap()),
            lhs.0 < old(m).nv(),
            rhs.0 < old(m).nv(),
            int_or_bool(*old(m), val_ty(*old(m), lhs)),
            int_or_bool(*old(m), val_ty(*old(m), rhs)),
        ensures
            final(m).wf(),
            inst_added(
                *final(m),
                *old(m),
                r.0,
                BOOL_TY,
                OpID::Lt,
                self.bb.unwrap().0,
                seq![lhs.0, rhs.0],
                insts_of(*old(m), self.bb.unwrap()).push(r.0),
                Seq::empty(),
            ),
    {
        let b = self.bb.unwrap();
        InstPtr::icmp_inst(m, OpID::Lt, lhs, rhs, b)
    }

    pub fn create_icmp_le(&self, m: &mut Module, lhs: ValuePtr, rhs: ValuePtr) -> (r: InstPtr)
        requires
            self.bb is Some,
            old(m).wf(),
            open_block(*old(m), self.bb.unwrap()),
            lhs.0 < old(m).nv(),
            rhs.0 < old(m).nv(),
            int_or_bool(*old(m), val_ty(*old(m), lhs)),
            int_or_bool(*old(m), val_ty(*old(m), rhs)),
        ensures
            final(m).wf(),
            inst_added(
                *final(m),
                *old(m),
                r.0,
                BOOL_TY,
                OpID::Le,
                self.bb.unwrap().0,
                seq![lhs.0, rhs.0],
                insts_of(*old(m), self.bb.unwrap()).push(r.0),
                Seq::empty(),
            ),
    {
        let b = self.bb.unwrap();
        InstPtr::icmp_inst(m, OpID::Le, lhs, rhs, b)
    }

    pub fn create_fadd(&self, m: &mut Module, lhs: ValuePtr, rhs: ValuePtr) -> (r: InstPtr)
        requires
            self.bb is Some,
            old(m).wf(),
            open_block(*old(m), self.bb.unwrap()),
            lhs.0 < old(m).nv(),
            rhs.0 < old(m).nv(),
            is_float_ty(*old(m), val_ty(*old(m), lhs)),
            is_float_ty(*old(m), val_ty(*old(m), rhs)),
        ensures
            final(m).wf(),
            inst_added(
                *final(m),
                *old(m),
                r.0,
                FLOAT_TY,
                OpID::FAdd,
                self.bb.unwrap().0,
                seq![lhs.0, rhs.0],
                insts_of(*old(m), self.bb.unwrap()).push(r.0),
                Seq::empty(),
            ),
    {
        let b = self.bb.unwrap();
        InstPtr::fbinary_inst(m, OpID::FAdd, lhs, rhs, b)
    }

    pub fn create_fsub(&self, m: &mut Module, lhs: ValuePtr, rhs: ValuePtr) -> (r: InstPtr)
        requires
            self.bb is Some,
            old(m).wf(),
            open_block(*old(m), self.bb.unwrap()),
            lhs.0 < old(m).nv(),
            rhs.0 < old(m).nv(),
            is_float_ty(*old(m), val_ty(*old(m), lhs)),
            is_float_ty(*old(m), val_ty(*old(m), rhs)),
        ensures
            final(m).wf(),
            inst_added(
                *final(m),
                *old(m),
                r.0,
                FLOAT_TY,
                OpID::FSub,
                self.bb.unwrap().0,
                seq![lhs.0, rhs.0],
                insts_of(*old(m), self.bb.unwrap()).push(r.0),
                Seq::empty(),
            ),
    {
        let b = self.bb.unwrap();
        InstPtr::fbinary_inst(m, OpID::FSub, lhs, rhs, b)
    }

    pub fn create_fmul(&self, m: &mut Module, lhs: ValuePtr, rhs: ValuePtr) -> (r: InstPtr)
        requires
            self.bb is Some,
            old(m).wf(),
            open_block(*old(m), self.bb.unwrap()),
            lhs.0 < old(m).nv(),
            rhs.0 < old(m).nv(),
            is_float_ty(*old(m), val_ty(*old(m), lhs)),
            is_float_ty(*old(m), val_ty(*old(m), rhs)),
        ensures
            final(m).wf(),
            inst_added(
                *final(m),
                *old(m),
                r.0,
                FLOAT_TY,
                OpID::FMul,
                self.bb.unwrap().0,
                seq![lhs.0, rhs.0],
                insts_of(*old(m), self.bb.unwrap()).push(r.0),
                Seq::empty(),
            ),
    {
        let b = self.bb.unwrap();
        InstPtr::fbinary_inst(m, OpID::FMul, lhs, rhs, b)
    }

    pub fn create_fdiv(&self, m: &mut Module, lhs: ValuePtr, rhs: ValuePtr) -> (r: InstPtr)
        requires
            self.bb is Some,
            old(m).wf(),
            open_block(*old(m), self.bb.unwrap()),
            lhs.0 < old(m).nv(),
            rhs.0 < old(m).nv(),
            is_float_ty(*old(m), val_ty(*old(m), lhs)),
            is_float_ty(*old(m), val_ty(*old(m), rhs)),
        ensures
            final(m).wf(),
            inst_added(
                *final(m),
                *old(m),
                r.0,
                FLOAT_TY,
                OpID::FDiv,
                self.bb.unwrap().0,
                seq![lhs.0, rhs.0],
                insts_of(*old(m), self.bb.unwrap()).push(r.0),
                Seq::empty(),
            ),
    {
        let b = self.bb.unwrap();
        InstPtr::fbinary_inst(m, OpID::FDiv, lhs, rhs, b)
    }

    pub fn create_fcmp_eq(&self, m: &mut Module, lhs: ValuePtr, rhs: ValuePtr) -> (r: InstPtr)
        requires
            self.bb is Some,
            old(m).wf(),
            open_block(*old(m), self.bb.unwrap()),
            lhs.0 < old(m).nv(),
            rhs.0 < old(m).nv(),
            is_float_ty(*old(m), val_ty(*old(m), lhs)),
            is_float_ty(*old(m), val_ty(*old(m), rhs)),
        ensures
            final(m).wf(),
            inst_added(
                *final(m),
                *old(m),
                r.0,
                BOOL_TY,
                OpID::FEq,
                self.bb.unwrap().0,
                seq![lhs.0, rhs.0],
                insts_of(*old(m), self.bb.unwrap()).push(r.0),
                Seq::empty(),
            ),
    {
        let b = self.bb.unwrap();
        InstPtr::fcmp_inst(m, OpID::FEq, lhs, rhs, b)
    }

    pub fn create_fcmp_ne(&self, m: &mut Module, lhs: ValuePtr, rhs: ValuePtr) -> (r: InstPtr)
        requires
            self.bb is Some,
            old(m).wf(),
            open_block(*old(m), self.bb.unwrap()),
            lhs.0 < old(m).nv(),
            rhs.0 < old(m).nv(),
            is_float_ty(*old(m), val_ty(*old(m), lhs)),
            is_float_ty(*old(m), val_ty(*old(m), rhs)),
        ensures
            final(m).wf(),
            inst_added(
                *final(m),
                *old(m),
                r.0,
                BOOL_TY,
                OpID::FNe,
                self.bb.unwrap().0,
                seq![lhs.0, rhs.0],
                insts_of(*old(m), self.bb.unwrap()).push(r.0),
                Seq::empty(),
            ),
    {
        let b = self.bb.unwrap();
        InstPtr::fcmp_inst(m, OpID::FNe, lhs, rhs, b)
    }

    pub fn create_fcmp_gt(&self, m: &mut Module, lhs: ValuePtr, rhs: ValuePtr) -> (r: InstPtr)
        requires
            self.bb is Some,
            old(m).wf(),
            open_block(*old(m), self.bb.unwrap()),
            lhs.0 < old(m).nv(),
            rhs.0 < old(m).nv(),
            is_float_ty(*old(m), val_ty(*old(m), lhs)),
            is_float_ty(*old(m), val_ty(*old(m), rhs)),
        ensures
            final(m).wf(),
            inst_added(
                *final(m),
                *old(m),
                r.0,
                BOOL_TY,
                OpID::FGt,
                self.bb.unwrap().0,
                seq![lhs.0, rhs.0],
                insts_of(*old(m), self.bb.unwrap()).push(r.0),
                Seq::empty(),
            ),
    {
        let b = self.bb.unwrap();
        InstPtr::fcmp_inst(m, OpID::FGt, lhs, rhs, b)
    }

    pub fn create_fcmp_ge(&self, m: &mut Module, lhs: ValuePtr, rhs: ValuePtr) -> (r: InstPtr)
        requires
            self.bb is Some,
            old(m).wf(),
            open_block(*old(m), self.bb.unwrap()),
            lhs.0 < old(m).nv(),
            rhs.0 < old(m).nv(),
            is_float_ty(*old(m), val_ty(*old(m), lhs)),
            is_float_ty(*old(m), val_ty(*old(m), rhs)),
        ensures
            final(m).wf(),
            inst_added(
                *final(m),
                *old(m),
                r.0,
                BOOL_TY,
                OpID::FGe,
                self.bb.unwrap().0,
                seq![lhs.0, rhs.0],
                insts_of(*old(m), self.bb.unwrap()).push(r.0),
                Seq::empty(),
            ),
    {
        let b = self.bb.unwrap();
        InstPtr::fcmp_inst(m, OpID::FGe, lhs, rhs, b)
    }

    pub fn create_fcmp_lt(&self, m: &mut Module, lhs: ValuePtr, rhs: ValuePtr) -> (r: InstPtr)
        requires
            self.bb is Some,
            old(m).wf(),
            open_block(*old(m), self.bb.unwrap()),
            lhs.0 < old(m).nv(),
            rhs.0 < old(m).nv(),
            is_float_ty(*old(m), val_ty(*old(m), lhs)),
            is_float_ty(*old(m), val_ty(*old(m), rhs)),
        ensures
            final(m).wf(),
            inst_added(
                *final(m),
                *old(m),
                r.0,
                BOOL_TY,
                OpID::FLt,
                self.bb.unwrap().0,
                seq![lhs.0, rhs.0],
                insts_of(*old(m), self.bb.unwrap()).push(r.0),
                Seq::empty(),
            ),
    {
        let b = self.bb.unwrap();
        InstPtr::fcmp_inst(m, OpID::FLt, lhs, rhs, b)
    }

    pub fn create_fcmp_le(&self, m: &mut Module, lhs: ValuePtr, rhs: ValuePtr) -> (r: InstPtr)
        requires
            self.bb is Some,
            old(m).wf(),
            open_block(*old(m), self.bb.unwrap()),
            lhs.0 < old(m).nv(),
            rhs.0 < old(m).nv(),
            is_float_ty(*old(m), val_ty(*old(m), lhs)),
            is_float_ty(*old(m), val_ty(*old(m), rhs)),
        ensures
            final(m).wf(),
            inst_added(
                *final(m),
                *old(m),
                r.0,
                BOOL_TY,
                OpID::FLe,
                self.bb.unwrap().0,
                seq![lhs.0, rhs.0],
                insts_of(*old(m), self.bb.unwrap()).push(r.0),
                Seq::empty(),
            ),
    {
        let b = self.bb.unwrap();
        InstPtr::fcmp_inst(m, OpID::FLe, lhs, rhs, b)
    }

    pub fn create_call(&self, m: &mut Module, func: FunctionPtr, args: Vec<ValuePtr>) -> (r: InstPtr)
        requires
            self.bb is Some,
            old(m).wf(),
            open_block(*old(m), self.bb.unwrap()),
            func.0 < old(m).nv(),
            old(m).class_of(func.0 as int) is Function,
            args@.len() == func_param_tys(*old(m), func.0 as int).len(),
            forall|i: int| 0 <= i < args@.len() ==> (#[trigger] args@[i]).0 < old(m).nv()
                && old(m).type_of(args@[i].0 as int) == func_param_tys(*old(m), func.0 as int)[i],
        ensures
            final(m).wf(),
            inst_added(
                *final(m),
                *old(m),
                r.0,
                func_ret_ty(*old(m), func.0 as int),
                OpID::Call,
                self.bb.unwrap().0,
                seq![func.0] + ptr_ids(args@),
                insts_of(*old(m), self.bb.unwrap()).push(r.0),
                Seq::empty(),
            ),
    {
        let b = self.bb.unwrap();
        InstPtr::call_inst(m, func, args, b)
    }

    pub fn create_br(&self, m: &mut Module, if_true: BasicBlockPtr) -> (r: InstPtr)
        requires
            self.bb is Some,
            old(m).wf(),
            open_block(*old(m), self.bb.unwrap()),
            if_true.0 < old(m).nv(),
            old(m).class_of(if_true.0 as int) is BasicBlock,
        ensures
            final(m).wf(),
            inst_added(
                *final(m),
                *old(m),
                r.0,
                VOID_TY,
                OpID::Br,
                self.bb.unwrap().0,
                seq![if_true.0],
                insts_of(*old(m), self.bb.unwrap()).push(r.0),
                seq![if_true.0],
            ),
    {
        let b = self.bb.unwrap();
        InstPtr::br_inst(m, if_true, b)
    }

    pub fn create_cond_br(&self, m: &mut Module, cond: ValuePtr, if_true: BasicBlockPtr, if_false: BasicBlockPtr) -> (r: InstPtr)
        requires
            self.bb is Some,
            old(m).wf(),
            open_block(*old(m), self.bb.unwrap()),
            cond.0 < old(m).nv(),
            is_bool_ty(*old(m), val_ty(*old(m), cond)),
            if_true.0 < old(m).nv(),
            old(m).class_of(if_true.0 as int) is BasicBlock,
            if_false.0 < old(m).nv(),
            old(m).class_of(if_false.0 as int) is BasicBlock,
        ensures
            final(m).wf(),
            inst_added(
                *final(m),
                *old(m),
                r.0,
                VOID_TY,
                OpID::Br,
                self.bb.unwrap().0,
                seq![cond.0, if_true.0, if_false.0],
                insts_of(*old(m), self.bb.unwrap()).push(r.0),
                seq![if_true.0, if_false.0],
            ),
    {
        let b = self.bb.unwrap();
        InstPtr::cond_br_inst(m, cond, if_true, if_false, b)
    }

    pub fn create_ret(&self, m: &mut Module, val: ValuePtr) -> (r: InstPtr)
        requires
            self.bb is Some,
            old(m).wf(),
            open_block(*old(m), self.bb.unwrap()),
            val.0 < old(m).nv(),
            !(old(m).tdata_of(func_ret_ty(*old(m), old(m).bb_parent(self.bb.unwrap().0 as int) as int) as int) is VoidType),
            func_ret_ty(*old(m), old(m).bb_parent(self.bb.unwrap().0 as int) as int) == val_ty(*old(m), val),
        ensures
            final(m).wf(),
            inst_added(*final(m), *old(m), r.0, VOID_TY, OpID::Ret, self.bb.unwrap().0, seq![val.0], insts_of(*old(m), self.bb.unwrap()).push(r.0), Seq::empty()),
    {
        let b = self.bb.unwrap();
        InstPtr::ret_inst(m, val, b)
    }

    pub fn create_void_ret(&self, m: &mut Module) -> (r: InstPtr)
        requires
            self.bb is Some,
            old(m).wf(),
            open_block(*old(m), self.bb.unwrap()),
            old(m).tdata_of(func_ret_ty(*old(m), old(m).bb_parent(self.bb.unwrap().0 as int) as int) as int) is VoidType,
        ensures
            final(m).wf(),
            inst_added(*final(m), *old(m), r.0, VOID_TY, OpID::Ret, self.bb.unwrap().0, Seq::empty(), insts_of(*old(m), self.bb.unwrap()).push(r.0), Seq::empty()),
    {
        let b = self.bb.unwrap();
        InstPtr::void_ret_inst(m, b)
    }

    pub fn create_gep(&self, m: &mut Module, ptr: ValuePtr, idxs: Vec<ValuePtr>) -> (r: InstPtr)
        requires
            self.bb is Some,
            old(m).wf(),
            open_block(*old(m), self.bb.unwrap()),
            ptr.0 < old(m).nv(),
            gep_ok(*old(m), val_ty(*old(m), ptr), idxs@.len()),
            forall|i: int| 0 <= i < idxs@.len() ==> (#[trigger] idxs@[i]).0 < old(m).nv()
                && int_or_bool(*old(m), old(m).type_of(idxs@[i].0 as int)),
        ensures
            final(m).wf(),
            inst_added(
                *final(m),
                *old(m),
                r.0,
                final(m).type_of(r.0 as int),
                OpID::GetElementPtr,
                self.bb.unwrap().0,
                seq![ptr.0] + ptr_ids(idxs@),
                insts_of(*old(m), self.bb.unwrap()).push(r.0),
                Seq::empty(),
            ),
            ptr_elem_spec(final(m).tdata_of(final(m).type_of(r.0 as int) as int)) == Some(
                gep_elem(*old(m), val_ty(*old(m), ptr), idxs@.len()),
            ),
    {
        let b = self.bb.unwrap();
        InstPtr::gep_inst(m, ptr, idxs, b)
    }

    pub fn create_store(&self, m: &mut Module, val: ValuePtr, ptr: ValuePtr) -> (r: InstPtr)
        requires
            self.bb is Some,
            old(m).wf(),
            open_block(*old(m), self.bb.unwrap()),
            val.0 < old(m).nv(),
            ptr.0 < old(m).nv(),
            ptr_elem_spec(old(m).tdata_of(val_ty(*old(m), ptr) as int)) == Some(val_ty(*old(m), val)),
        ensures
            final(m).wf(),
            inst_added(*final(m), *old(m), r.0, VOID_TY, OpID::Store, self.bb.unwrap().0, seq![val.0, ptr.0], insts_of(*old(m), self.bb.unwrap()).push(r.0), Seq::empty()),
    {
        let b = self.bb.unwrap();
        InstPtr::store_inst(m, val, ptr, b)
    }

    pub fn create_load(&self, m: &mut Module, ptr: ValuePtr) -> (r: InstPtr)
        requires
            self.bb is Some,
            old(m).wf(),
            open_block(*old(m), self.bb.unwrap()),
            ptr.0 < old(m).nv(),
            ptr_elem_spec(old(m).tdata_of(val_ty(*old(m), ptr) as int)) matches Some(e) && (
                old(m).tdata_of(e as int) is IntegerType || old(m).tdata_of(e as int) is FloatType
                    || old(m).tdata_of(e as int) is PointerType),
        ensures
            final(m).wf(),
            inst_added(
                *final(m),
                *old(m),
                r.0,
                ptr_elem_spec(old(m).tdata_of(val_ty(*old(m), ptr) as int)).unwrap(),
                OpID::Load,
                self.bb.unwrap().0,
                seq![ptr.0],
                insts_of(*old(m), self.bb.unwrap()).push(r.0),
                Seq::empty(),
            ),
    {
        let b = self.bb.unwrap();
        InstPtr::load_inst(m, ptr, b)
    }

    pub fn create_alloca(&self, m: &mut Module, ty: usize) -> (r: InstPtr)
        requires
            self.bb is Some,
            old(m).wf(),
            open_block(*old(m), self.bb.unwrap()),
            ty < old(m).nt(),
            old(m).tdata_of(ty as int) is IntegerType || old(m).tdata_of(ty as int) is FloatType
                || old(m).tdata_of(ty as int) is ArrayType || old(m).tdata_of(ty as int) is PointerType,
        ensures
            final(m).wf(),
            inst_added(
                *final(m),
                *old(m),
                r.0,
                final(m).type_of(r.0 as int),
                OpID::Alloca,
                self.bb.unwrap().0,
                Seq::empty(),
                insts_of(*old(m), self.bb.unwrap()).push(r.0),
                Seq::empty(),
            ),
            ptr_elem_spec(final(m).tdata_of(final(m).type_of(r.0 as int) as int)) == Some(ty),
    {
        let b = self.bb.unwrap();
        InstPtr::alloca_inst(m, ty, b)
    }

    pub fn create_zext(&self, m: &mut Module, val: ValuePtr, ty: usize) -> (r: InstPtr)
        requires
            self.bb is Some,
            old(m).wf(),
            open_block(*old(m), self.bb.unwrap()),
            val.0 < old(m).nv(),
            int_or_bool(*old(m), val_ty(*old(m), val)),
            ty < old(m).nt(),
            int_or_bool(*old(m), ty),
        ensures
            final(m).wf(),
            inst_added(*final(m), *old(m), r.0, ty, OpID::ZExt, self.bb.unwrap().0, seq![val.0], insts_of(*old(m), self.bb.unwrap()).push(r.0), Seq::empty()),
    {
        let b = self.bb.unwrap();
        InstPtr::zext_inst(m, val, ty, b)
    }

    pub fn create_sitofp(&self, m: &mut Module, val: ValuePtr) -> (r: InstPtr)
        requires
            self.bb is Some,
            old(m).wf(),
            open_block(*old(m), self.bb.unwrap()),
            val.0 < old(m).nv(),
            int_or_bool(*old(m), val_ty(*old(m), val)),
        ensures
            final(m).wf(),
            inst_added(*final(m), *old(m), r.0, FLOAT_TY, OpID::SIToFP, self.bb.unwrap().0, seq![val.0], insts_of(*old(m), self.bb.unwrap()).push(r.0), Seq::empty()),
    {
        let b = self.bb.unwrap();
        InstPtr::sitofp_inst(m, val, b)
    }

    pub fn create_fptosi(&self, m: &mut Module, val: ValuePtr, ty: usize) -> (r: InstPtr)
        requires
            self.bb is Some,
            old(m).wf(),
            open_block(*old(m), self.bb.unwrap()),
            val.0 < old(m).nv(),
            is_float_ty(*old(m), val_ty(*old(m), val)),
            ty < old(m).nt(),
            int_or_bool(*old(m), ty),
        ensures
            final(m).wf(),
            inst_added(*final(m), *old(m), r.0, ty, OpID::FPToSI, self.bb.unwrap().0, seq![val.0], insts_of(*old(m), self.bb.unwrap()).push(r.0), Seq::empty()),
    {
        let b = self.bb.unwrap();
        InstPtr::fptosi_inst(m, val, ty, b)
    }
}

} // verus!
