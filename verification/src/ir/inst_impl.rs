//! Instructions: creation of each kind with the type checks the IR demands,
//! and the queries on instructions.

use vstd::prelude::*;
use crate::ir::bb_impl::terminated_spec;
use crate::ir::func_impl::{func_param_tys, func_ret_ty};
use crate::ir::module::{seq_below, Module, BOOL_TY, FLOAT_TY, INT_TY, VOID_TY};
use crate::ir::type_::{arr_elem_spec, ptr_elem_spec};
use crate::ir::user::{OpID, Use};
use crate::ir::value::{BasicBlockPtr, FunctionPtr, InstPtr, UserPtr, ValueClass, ValuePtr};

verus! {

/// The arena indices of a list of value handles.
pub open spec fn ptr_ids(v: Seq<ValuePtr>) -> Seq<usize> {
    v.map_values(|p: ValuePtr| p.0)
}

/// The use records that operand list `ops` of user `r` creates for value `w`,
/// in slot order.
pub open spec fn uses_from(ops: Seq<usize>, r: usize, w: int) -> Seq<Use>
    decreases ops.len(),
{
    if ops.len() == 0 {
        Seq::empty()
    } else {
        let prev = uses_from(ops.drop_last(), r, w);
        if ops.last() == w {
            prev.push(Use { user: r, arg_no: (ops.len() - 1) as usize })
        } else {
            prev
        }
    }
}

/// The operand list of a phi: value, block, value, block, ...
pub open spec fn phi_ops(vals: Seq<ValuePtr>, bbs: Seq<BasicBlockPtr>) -> Seq<usize>
    decreases vals.len(),
{
    if vals.len() == 0 || bbs.len() == 0 {
        Seq::empty()
    } else {
        phi_ops(vals.drop_last(), bbs.drop_last()).push(vals.last().0).push(bbs.last().0)
    }
}

/// One `bb` per occurrence of `x` in `succ_add`.
pub open spec fn preds_added(succ_add: Seq<usize>, bb: usize, x: int) -> Seq<usize>
    decreases succ_add.len(),
{
    if succ_add.len() == 0 {
        Seq::empty()
    } else {
        let p = preds_added(succ_add.drop_last(), bb, x);
        if succ_add.last() == x {
            p.push(bb)
        } else {
            p
        }
    }
}

/// Between `m0` and `m1`, only block lists changed: block `bb` now holds
/// `bb_insts`, gained successors `succ_add`, and each of those gained `bb`
/// as predecessor; every other class is unchanged.
pub open spec fn blocks_updated(m1: Module, m0: Module, bb: usize, bb_insts: Seq<usize>, succ_add: Seq<usize>) -> bool {
    forall|x: int|
        0 <= x < m0.nv() ==> {
            &&& crate::ir::module::same_class_kind(#[trigger] m1.class_of(x), m0.class_of(x))
            &&& !(m0.class_of(x) is BasicBlock) ==> m1.class_of(x) == m0.class_of(x)
            &&& m0.class_of(x) is BasicBlock ==> {
                &&& m1.bb_parent(x) == m0.bb_parent(x)
                &&& m1.bb_insts(x) == (if x == bb { bb_insts } else { m0.bb_insts(x) })
                &&& m1.bb_succs(x) == (if x == bb { m0.bb_succs(x) + succ_add } else { m0.bb_succs(x) })
                &&& m1.bb_preds(x) == m0.bb_preds(x) + preds_added(succ_add, bb, x)
            }
        }
}

/// State `m1` is `m0` plus a new instruction `r` of type `ty` and opcode
/// `op` with operands `ops`, placed in block `bb` (whose instruction list
/// becomes `bb_insts`), with `succ_add` added to the block's successors.
pub open spec fn inst_added(
    m1: Module,
    m0: Module,
    r: usize,
    ty: usize,
    op: OpID,
    bb: usize,
    ops: Seq<usize>,
    bb_insts: Seq<usize>,
    succ_add: Seq<usize>,
) -> bool {
    &&& r == m0.nv()
    &&& m1.nv() == m0.nv() + 1
    &&& m1.type_of(r as int) == ty
    &&& m1.class_of(r as int) == (ValueClass::Inst { op_id: op, bb })
    &&& m1.values@[r as int].name@.len() == 0
    &&& m1.ops(r as int) == ops
    &&& m1.uses(r as int).len() == 0
    &&& forall|x: int| 0 <= x < m0.nv() ==> {
        &&& (#[trigger] m1.values@[x]).type_ == m0.values@[x].type_
        &&& m1.values@[x].name == m0.values@[x].name
        &&& m1.ops(x) == m0.ops(x)
        &&& m1.uses(x) == m0.uses(x) + uses_from(ops, r, x)
    }
    &&& blocks_updated(m1, m0, bb, bb_insts, succ_add)
    &&& m0.types@.is_prefix_of(m1.types@)
    &&& m1.gv_list@ == m0.gv_list@
    &&& m1.func_list@ == m0.func_list@
    &&& m1.const_pool@ == m0.const_pool@
}

/// Array layers peeled off type `t`, `k` times.
pub open spec fn peel_arrays(m: Module, t: usize, k: nat) -> Option<usize>
    decreases k,
{
    if k == 0 {
        Some(t)
    } else {
        match peel_arrays(m, t, (k - 1) as nat) {
            Some(u) => arr_elem_spec(m.tdata_of(u as int)),
            None => None,
        }
    }
}

/// A GEP with `n` indices from a pointer of type `ptr_ty` is well typed:
/// the pointee is an array, `i32` or `float`, and an array pointee has at
/// least `n - 1` nested array layers.
pub open spec fn gep_ok(m: Module, ptr_ty: usize, n: nat) -> bool {
    &&& ptr_ty < m.nt()
    &&& ptr_elem_spec(m.tdata_of(ptr_ty as int)) matches Some(e) && {
        &&& m.tdata_of(e as int) is ArrayType || m.tdata_of(e as int) is IntegerType || m.tdata_of(e as int) is FloatType
        &&& (m.tdata_of(e as int) is ArrayType && n >= 1) ==> peel_arrays(m, e, (n - 1) as nat) is Some
    }
}

/// The element type a GEP with `n` indices reaches.
pub open spec fn gep_elem(m: Module, ptr_ty: usize, n: nat) -> usize {
    let e = ptr_elem_spec(m.tdata_of(ptr_ty as int)).unwrap();
    if m.tdata_of(e as int) is ArrayType && n >= 1 {
        peel_arrays(m, e, (n - 1) as nat).unwrap()
    } else {
        e
    }
}

pub proof fn lemma_peel_prefix(m: Module, t: usize, i: nat, n: nat)
    requires
        i <= n,
        peel_arrays(m, t, n) is Some,
    ensures
        peel_arrays(m, t, i) is Some,
    decreases n - i,
{
    if i < n {
        lemma_peel_prefix(m, t, i, (n - 1) as nat);
    }
}

/// The instruction list of block `bb`.
pub open spec fn insts_of(m: Module, bb: BasicBlockPtr) -> Seq<usize> {
    m.bb_insts(bb.0 as int)
}

pub open spec fn is_int_ty(m: Module, t: usize) -> bool {
    m.tdata_of(t as int) is IntegerType
}

pub open spec fn is_float_ty(m: Module, t: usize) -> bool {
    m.tdata_of(t as int) is FloatType
}

pub open spec fn is_bool_ty(m: Module, t: usize) -> bool {
    m.tdata_of(t as int) is BoolType
}

pub open spec fn int_or_bool(m: Module, t: usize) -> bool {
    is_int_ty(m, t) || is_bool_ty(m, t)
}

pub open spec fn val_ty(m: Module, v: ValuePtr) -> usize {
    m.type_of(v.0 as int)
}

/// Block `bb` is a block of the module that can take one more instruction.
pub open spec fn open_block(m: Module, bb: BasicBlockPtr) -> bool {
    &&& bb.0 < m.nv()
    &&& m.class_of(bb.0 as int) is BasicBlock
    &&& !terminated_spec(m, bb.0 as int)
}

impl InstPtr {
    pub fn to_val(&self) -> (r: ValuePtr)
        ensures
            r.0 == self.0,
    {
        ValuePtr(self.0)
    }

    pub fn to_user(&self) -> (r: UserPtr)
        ensures
            r.0 == self.0,
    {
        UserPtr(self.0)
    }

    pub fn get_inst_op_id(&self, m: &Module) -> (r: OpID)
        requires
            self.0 < m.nv(),
            m.class_of(self.0 as int) is Inst,
        ensures
            r == m.inst_op(self.0 as int),
    {
        match &m.values[self.0].class {
            ValueClass::Inst { op_id, .. } => *op_id,
            _ => OpID::Ret,
        }
    }

    /// The function the instruction's block belongs to.
    pub fn get_func(&self, m: &Module) -> (r: FunctionPtr)
        requires
            m.wf(),
            self.0 < m.nv(),
            m.class_of(self.0 as int) is Inst,
        ensures
            r.0 == m.bb_parent(m.inst_bb(self.0 as int) as int),
    {
        proof {
            assert(crate::ir::module::value_below(m.values@[self.0 as int], m.nt(), m.nv()));
        }
        let bb = match &m.values[self.0].class {
            ValueClass::Inst { bb, .. } => *bb,
            _ => 0,
        };
        BasicBlockPtr(bb).get_parent(m)
    }

    /// A new instruction of block `parent`, without operands and not yet
    /// placed in the block.
    pub fn new(m: &mut Module, ty: usize, id: OpID, parent: BasicBlockPtr) -> (r: Self)
        requires
            old(m).wf(),
            ty < old(m).nt(),
            parent.0 < old(m).nv(),
            old(m).class_of(parent.0 as int) is BasicBlock,
        ensures
            final(m).wf(),
            r.0 == old(m).nv(),
            final(m).nv() == old(m).nv() + 1,
            forall|w: int| 0 <= w < old(m).nv() ==> #[trigger] final(m).values@[w] == old(m).values@[w],
            final(m).type_of(r.0 as int) == ty,
            final(m).values@[r.0 as int].name@.len() == 0,
            final(m).class_of(r.0 as int) == (ValueClass::Inst { op_id: id, bb: parent.0 }),
            final(m).ops(r.0 as int).len() == 0,
            final(m).uses(r.0 as int).len() == 0,
            final(m).types@ == old(m).types@,
            final(m).gv_list@ == old(m).gv_list@,
            final(m).func_list@ == old(m).func_list@,
            final(m).const_pool@ == old(m).const_pool@,
    {
        InstPtr(m.push_value(ty, String::new(), ValueClass::Inst { op_id: id, bb: parent.0 }))
    }

    /// Gives the fresh user `r` (the newest value) the operands `v`, in order.
    pub fn add_operands(m: &mut Module, r: usize, v: &Vec<ValuePtr>)
        requires
            old(m).wf(),
            r + 1 == old(m).nv(),
            old(m).ops(r as int).len() == 0,
            old(m).uses(r as int).len() == 0,
            seq_below(ptr_ids(v@), r as nat),
        ensures
            final(m).wf(),
            final(m).frame_defuse(*old(m)),
            final(m).ops(r as int) == ptr_ids(v@),
            final(m).uses(r as int).len() == 0,
            forall|x: int| 0 <= x < r ==> {
                &&& #[trigger] final(m).ops(x) == old(m).ops(x)
                &&& final(m).uses(x) == old(m).uses(x) + uses_from(ptr_ids(v@), r, x)
            },
    {
        let ghost m0 = *m;
        let ghost ids = ptr_ids(v@);
        let n = v.len();
        let mut k: usize = 0;
        while k < n
            invariant
                m.wf(),
                m0.wf(),
                r + 1 == m0.nv(),
                m.frame_defuse(m0),
                n == v@.len(),
                ids == ptr_ids(v@),
                seq_below(ids, r as nat),
                0 <= k <= n,
                m.ops(r as int) == ids.take(k as int),
                m.uses(r as int).len() == 0,
                forall|x: int| 0 <= x < r ==> #[trigger] m.ops(x) == m0.ops(x),
                forall|x: int| 0 <= x < r ==> #[trigger] m.uses(x) == m0.uses(x) + uses_from(ids.take(k as int), r, x),
            decreases n - k,
        {
            let ghost mb = *m;
            let x = v[k].0;
            proof {
                assert(ids[k as int] == x);
            }
            m.add_operand_at(r, x);
            proof {
                let t1 = ids.take(k + 1);
                assert(t1 =~= ids.take(k as int).push(x));
                assert(t1.drop_last() =~= ids.take(k as int));
                assert(t1.last() == x);
                assert(t1.len() - 1 == k);
                assert(mb.ops(r as int).len() == k);
                assert forall|w: int| 0 <= w < r implies #[trigger] m.uses(w) == m0.uses(w) + uses_from(ids.take(k + 1), r, w) by {
                    assert(m.ops(w) == mb.ops(w));
                    assert(mb.uses(w) == m0.uses(w) + uses_from(ids.take(k as int), r, w));
                    let prev = uses_from(ids.take(k as int), r, w);
                    if w == x as int {
                        assert(uses_from(t1, r, w) == prev.push(Use { user: r, arg_no: k }));
                        assert(m.uses(w) == mb.uses(w).push(Use { user: r, arg_no: k }));
                        assert(m.uses(w) =~= m0.uses(w) + uses_from(ids.take(k + 1), r, w));
                    } else {
                        assert(uses_from(t1, r, w) == prev);
                        assert(m.uses(w) == mb.uses(w));
                    }
                }
                assert(m.ops(r as int) =~= ids.take(k + 1));
                assert(m.uses(r as int) == mb.uses(r as int));
                assert forall|w: int| 0 <= w < r implies #[trigger] m.ops(w) == m0.ops(w) by {
                    assert(m.ops(w) == mb.ops(w));
                }
            }
            k = k + 1;
        }
        proof {
            assert(ids.take(n as int) =~= ids);
        }
    }

    /// A new instruction with operands `v`, appended to block `parent`.
    pub fn create(m: &mut Module, ty: usize, id: OpID, parent: BasicBlockPtr, v: Vec<ValuePtr>) -> (r: Self)
        requires
            old(m).wf(),
            ty < old(m).nt(),
            open_block(*old(m), parent),
            seq_below(ptr_ids(v@), old(m).nv()),
        ensures
            final(m).wf(),
            inst_added(
                *final(m),
                *old(m),
                r.0,
                ty,
                id,
                parent.0,
                ptr_ids(v@),
                old(m).bb_insts(parent.0 as int).push(r.0),
                Seq::empty(),
            ),
    {
        let ghost m0 = *m;
        let ghost ids = ptr_ids(v@);
        let base = Self::new(m, ty, id, parent);
        let r = base.0;
        Self::add_operands(m, r, &v);
        let ghost mh = *m;
        proof {
            assert forall|x: int| 0 <= x < m0.nv() implies #[trigger] mh.values@[x].class == m0.values@[x].class by {}
            assert(!terminated_spec(mh, parent.0 as int)) by {
                assert(mh.class_of(parent.0 as int) == m0.class_of(parent.0 as int));
                if m0.bb_insts(parent.0 as int).len() > 0 {
                    let l = m0.bb_insts(parent.0 as int).last() as int;
                    assert(crate::ir::module::value_below(m0.values@[parent.0 as int], m0.nt(), m0.nv()));
                    assert(mh.class_of(l) == m0.class_of(l));
                }
            }
        }
        parent.add_inst(m, base);
        proof {
            assert forall|x: int| 0 <= x < m0.nv() implies {
                &&& (#[trigger] m.values@[x]).type_ == m0.values@[x].type_
                &&& m.values@[x].name == m0.values@[x].name
                &&& m.ops(x) == m0.ops(x)
                &&& m.uses(x) == m0.uses(x) + uses_from(ids, r, x)
            } by {
                if x != parent.0 as int {
                    assert(m.values@[x] == mh.values@[x]);
                }
                assert(mh.ops(x) == m0.ops(x));
            }
            assert forall|x: int| 0 <= x < m0.nv() implies {
                &&& crate::ir::module::same_class_kind(#[trigger] m.class_of(x), m0.class_of(x))
                &&& !(m0.class_of(x) is BasicBlock) ==> m.class_of(x) == m0.class_of(x)
                &&& m0.class_of(x) is BasicBlock ==> {
                    &&& m.bb_parent(x) == m0.bb_parent(x)
                    &&& m.bb_insts(x) == (if x == parent.0 { m0.bb_insts(parent.0 as int).push(r) } else { m0.bb_insts(x) })
                    &&& m.bb_succs(x) == (if x == parent.0 { m0.bb_succs(x) + Seq::<usize>::empty() } else { m0.bb_succs(x) })
                    &&& m.bb_preds(x) == m0.bb_preds(x) + preds_added(Seq::<usize>::empty(), parent.0, x)
                }
            } by {
                if x != parent.0 as int {
                    assert(m.values@[x] == mh.values@[x]);
                }
                assert(mh.values@[x].class == m0.values@[x].class);
                assert(m0.bb_succs(x) + Seq::<usize>::empty() =~= m0.bb_succs(x));
                assert(m0.bb_preds(x) + preds_added(Seq::<usize>::empty(), parent.0, x) =~= m0.bb_preds(x));
            }
            assert(m.ops(r as int) == mh.ops(r as int));
            assert(m.uses(r as int) == mh.uses(r as int));
            assert(m0.types@.is_prefix_of(m.types@));
        }
        base
    }

    /// Integer binary operation: both operands `i32`, result `i32`.
    pub fn ibinary_inst(m: &mut Module, id: OpID, v1: ValuePtr, v2: ValuePtr, bb: BasicBlockPtr) -> (r: Self)
        requires
            old(m).wf(),
            open_block(*old(m), bb),
            v1.0 < old(m).nv(),
            v2.0 < old(m).nv(),
            is_int_ty(*old(m), val_ty(*old(m), v1)),
            is_int_ty(*old(m), val_ty(*old(m), v2)),
            id == OpID::Add || id == OpID::Sub || id == OpID::Mul || id == OpID::SDiv,
        ensures
            final(m).wf(),
            inst_added(
                *final(m),
                *old(m),
                r.0,
                INT_TY,
                id,
                bb.0,
                seq![v1.0, v2.0],
                insts_of(*old(m), bb).push(r.0),
                Seq::empty(),
            ),
    {
        let v = vec![v1, v2];
        assert(ptr_ids(v@) =~= seq![v1.0, v2.0]);
        Self::create(m, INT_TY, id, bb, v)
    }

    /// Float binary operation: both operands `float`; the result is a `float`.
    pub fn fbinary_inst(m: &mut Module, id: OpID, v1: ValuePtr, v2: ValuePtr, bb: BasicBlockPtr) -> (r: Self)
        requires
            old(m).wf(),
            open_block(*old(m), bb),
            v1.0 < old(m).nv(),
            v2.0 < old(m).nv(),
            is_float_ty(*old(m), val_ty(*old(m), v1)),
            is_float_ty(*old(m), val_ty(*old(m), v2)),
            id == OpID::FAdd || id == OpID::FSub || id == OpID::FMul || id == OpID::FDiv,
        ensures
            final(m).wf(),
            inst_added(
                *final(m),
                *old(m),
                r.0,
                FLOAT_TY,
                id,
                bb.0,
                seq![v1.0, v2.0],
                insts_of(*old(m), bb).push(r.0),
                Seq::empty(),
            ),
    {
        let v = vec![v1, v2];
        assert(ptr_ids(v@) =~= seq![v1.0, v2.0]);
        Self::create(m, FLOAT_TY, id, bb, v)
    }

    /// Integer comparison: operands `i32` or `i1`, result `i1`.
    pub fn icmp_inst(m: &mut Module, id: OpID, v1: ValuePtr, v2: ValuePtr, bb: BasicBlockPtr) -> (r: Self)
        requires
            old(m).wf(),
            open_block(*old(m), bb),
            v1.0 < old(m).nv(),
            v2.0 < old(m).nv(),
            int_or_bool(*old(m), val_ty(*old(m), v1)),
            int_or_bool(*old(m), val_ty(*old(m), v2)),
            id == OpID::Ge || id == OpID::Gt || id == OpID::Le || id == OpID::Lt || id == OpID::Eq || id == OpID::Ne,
        ensures
            final(m).wf(),
            inst_added(
                *final(m),
                *old(m),
                r.0,
                BOOL_TY,
                id,
                bb.0,
                seq![v1.0, v2.0],
                insts_of(*old(m), bb).push(r.0),
                Seq::empty(),
            ),
    {
        let v = vec![v1, v2];
        assert(ptr_ids(v@) =~= seq![v1.0, v2.0]);
        Self::create(m, BOOL_TY, id, bb, v)
    }

    /// Float comparison: operands `float`, result `i1`.
    pub fn fcmp_inst(m: &mut Module, id: OpID, v1: ValuePtr, v2: ValuePtr, bb: BasicBlockPtr) -> (r: Self)
        requires
            old(m).wf(),
            open_block(*old(m), bb),
            v1.0 < old(m).nv(),
            v2.0 < old(m).nv(),
            is_float_ty(*old(m), val_ty(*old(m), v1)),
            is_float_ty(*old(m), val_ty(*old(m), v2)),
            id == OpID::FGe || id == OpID::FGt || id == OpID::FLe || id == OpID::FLt || id == OpID::FEq || id == OpID::FNe,
        ensures
            final(m).wf(),
            inst_added(
                *final(m),
                *old(m),
                r.0,
                BOOL_TY,
                id,
                bb.0,
                seq![v1.0, v2.0],
                insts_of(*old(m), bb).push(r.0),
                Seq::empty(),
            ),
    {
        let v = vec![v1, v2];
        assert(ptr_ids(v@) =~= seq![v1.0, v2.0]);
        Self::create(m, BOOL_TY, id, bb, v)
    }

    /// A value of type `ty` becomes the only operand of a new instruction.
    fn unary(m: &mut Module, ty: usize, id: OpID, val: ValuePtr, bb: BasicBlockPtr) -> (r: Self)
        requires
            old(m).wf(),
            open_block(*old(m), bb),
            val.0 < old(m).nv(),
            ty < old(m).nt(),
        ensures
            final(m).wf(),
            inst_added(
                *final(m),
                *old(m),
                r.0,
                ty,
                id,
                bb.0,
                seq![val.0],
                insts_of(*old(m), bb).push(r.0),
                Seq::empty(),
            ),
    {
        let v = vec![val];
        assert(ptr_ids(v@) =~= seq![val.0]);
        Self::create(m, ty, id, bb, v)
    }

    /// Zero extension of an `i1`/`i32` value to the integer type `ty`.
    pub fn zext_inst(m: &mut Module, val: ValuePtr, ty: usize, bb: BasicBlockPtr) -> (r: Self)
        requires
            old(m).wf(),
            open_block(*old(m), bb),
            val.0 < old(m).nv(),
            int_or_bool(*old(m), val_ty(*old(m), val)),
            ty < old(m).nt(),
            int_or_bool(*old(m), ty),
        ensures
            final(m).wf(),
            inst_added(*final(m), *old(m), r.0, ty, OpID::ZExt, bb.0, seq![val.0], insts_of(*old(m), bb).push(r.0), Seq::empty()),
    {
        Self::unary(m, ty, OpID::ZExt, val, bb)
    }

    /// Zero extension to `i32`.
    pub fn zext_to_i32_inst(m: &mut Module, val: ValuePtr, bb: BasicBlockPtr) -> (r: Self)
        requires
            old(m).wf(),
            open_block(*old(m), bb),
            val.0 < old(m).nv(),
            int_or_bool(*old(m), val_ty(*old(m), val)),
        ensures
            final(m).wf(),
            inst_added(*final(m), *old(m), r.0, INT_TY, OpID::ZExt, bb.0, seq![val.0], insts_of(*old(m), bb).push(r.0), Seq::empty()),
    {
        let t = m.get_int_ty();
        Self::zext_inst(m, val, t, bb)
    }

    /// Float to signed integer conversion to the integer type `ty`.
    pub fn fptosi_inst(m: &mut Module, val: ValuePtr, ty: usize, bb: BasicBlockPtr) -> (r: Self)
        requires
            old(m).wf(),
            open_block(*old(m), bb),
            val.0 < old(m).nv(),
            is_float_ty(*old(m), val_ty(*old(m), val)),
            ty < old(m).nt(),
            int_or_bool(*old(m), ty),
        ensures
            final(m).wf(),
            inst_added(*final(m), *old(m), r.0, ty, OpID::FPToSI, bb.0, seq![val.0], insts_of(*old(m), bb).push(r.0), Seq::empty()),
    {
        Self::unary(m, ty, OpID::FPToSI, val, bb)
    }

    /// Float to `i32` conversion.
    pub fn fptosi_to_i32_inst(m: &mut Module, val: ValuePtr, bb: BasicBlockPtr) -> (r: Self)
        requires
            old(m).wf(),
            open_block(*old(m), bb),
            val.0 < old(m).nv(),
            is_float_ty(*old(m), val_ty(*old(m), val)),
        ensures
            final(m).wf(),
            inst_added(*final(m), *old(m), r.0, INT_TY, OpID::FPToSI, bb.0, seq![val.0], insts_of(*old(m), bb).push(r.0), Seq::empty()),
    {
        let t = m.get_int_ty();
        Self::fptosi_inst(m, val, t, bb)
    }

    /// Signed integer to float conversion.
    pub fn sitofp_inst(m: &mut Module, val: ValuePtr, bb: BasicBlockPtr) -> (r: Self)
        requires
            old(m).wf(),
            open_block(*old(m), bb),
            val.0 < old(m).nv(),
            int_or_bool(*old(m), val_ty(*old(m), val)),
        ensures
            final(m).wf(),
            inst_added(*final(m), *old(m), r.0, FLOAT_TY, OpID::SIToFP, bb.0, seq![val.0], insts_of(*old(m), bb).push(r.0), Seq::empty()),
    {
        let t = m.get_float_ty();
        Self::unary(m, t, OpID::SIToFP, val, bb)
    }

    /// Stores `val` through `ptr`, a pointer to `val`'s type.
    pub fn store_inst(m: &mut Module, val: ValuePtr, ptr: ValuePtr, bb: BasicBlockPtr) -> (r: Self)
        requires
            old(m).wf(),
            open_block(*old(m), bb),
            val.0 < old(m).nv(),
            ptr.0 < old(m).nv(),
            ptr_elem_spec(old(m).tdata_of(val_ty(*old(m), ptr) as int)) == Some(val_ty(*old(m), val)),
        ensures
            final(m).wf(),
            inst_added(*final(m), *old(m), r.0, VOID_TY, OpID::Store, bb.0, seq![val.0, ptr.0], insts_of(*old(m), bb).push(r.0), Seq::empty()),
    {
        let v = vec![val, ptr];
        assert(ptr_ids(v@) =~= seq![val.0, ptr.0]);
        let t = m.get_void_ty();
        Self::create(m, t, OpID::Store, bb, v)
    }

    /// Loads through `ptr`, a pointer to an `i32`, a `float` or a pointer.
    pub fn load_inst(m: &mut Module, ptr: ValuePtr, bb: BasicBlockPtr) -> (r: Self)
        requires
            old(m).wf(),
            open_block(*old(m), bb),
            ptr.0 < old(m).nv(),
            ptr_elem_spec(old(m).tdata_of(val_ty(*old(m), ptr) as int)) matches Some(e) && (
                old(m).tdata_of(e as int) is IntegerType || old(m).tdata_of(e as int) is FloatType
                    || old(m).tdata_of(e as int) is PointerType),
        ensures
            final(m).wf(),
            inst_added(
                *final(m),
                *old(m),
                r.0,
                ptr_elem_spec(old(m).tdata_of(val_ty(*old(m), ptr) as int)).unwrap(),
                OpID::Load,
                bb.0,
                seq![ptr.0],
                insts_of(*old(m), bb).push(r.0),
                Seq::empty(),
            ),
    {
        proof {
            assert(crate::ir::module::value_below(m.values@[ptr.0 as int], m.nt(), m.nv()));
            let t = m.type_of(ptr.0 as int) as int;
            assert(crate::ir::type_::tdata_children_below(m.tdata_of(t), t as nat));
        }
        let pt = ptr.get_type(m);
        let e = match m.ty(pt).get_ptr_elem_ty() {
            Some(e) => e,
            None => 0,
        };
        Self::unary(m, e, OpID::Load, ptr, bb)
    }

    /// Stack slot for a value of type `ty` (`i32`, `float`, array or
    /// pointer); the result is a pointer to `ty`.
    pub fn alloca_inst(m: &mut Module, ty: usize, bb: BasicBlockPtr) -> (r: Self)
        requires
            old(m).wf(),
            open_block(*old(m), bb),
            ty < old(m).nt(),
            old(m).tdata_of(ty as int) is IntegerType || old(m).tdata_of(ty as int) is FloatType
                || old(m).tdata_of(ty as int) is ArrayType || old(m).tdata_of(ty as int) is PointerType,
        ensures
            final(m).wf(),
            inst_added(
                *final(m),
                *old(m),
                r.0,
                final(m).type_of(r.0 as int),
                OpID::Alloca,
                bb.0,
                Seq::empty(),
                insts_of(*old(m), bb).push(r.0),
                Seq::empty(),
            ),
            ptr_elem_spec(final(m).tdata_of(final(m).type_of(r.0 as int) as int)) == Some(ty),
    {
        let ghost m0 = *m;
        let pt = m.get_ptr_ty(ty);
        let ghost mid = *m;
        proof {
            lemma_block_state_types_grow(m0, mid, bb);
        }
        let r = Self::create(m, pt, OpID::Alloca, bb, Vec::new());
        proof {
            assert(ptr_ids(Seq::<ValuePtr>::empty()) =~= Seq::<usize>::empty());
            lemma_inst_added_from_mid(*m, mid, m0, r.0, pt, OpID::Alloca, bb.0, Seq::empty(), mid.bb_insts(bb.0 as int).push(r.0), Seq::empty());
            assert(m.tdata_of(pt as int) == mid.tdata_of(pt as int)) by {
                assert(mid.types@.is_prefix_of(m.types@));
                assert(mid.types@ == m.types@.subrange(0, mid.types@.len() as int));
                assert(mid.types@[pt as int] == m.types@.subrange(0, mid.types@.len() as int)[pt as int]);
            }
        }
        r
    }
    /// Call of `func` with `args`, whose types must be the parameter types.
    pub fn call_inst(m: &mut Module, func: FunctionPtr, args: Vec<ValuePtr>, bb: BasicBlockPtr) -> (r: Self)
        requires
            old(m).wf(),
            open_block(*old(m), bb),
            func.0 < old(m).nv(),
            old(m).class_of(func.0 as int) is Function,
            args@.len() == func_param_tys(*old(m), func.0 as int).len(),
            forall|i: int| 0 <= i < args@.len() ==> (#[trigger] args@[i]).0 < old(m).nv()
                && old(m).type_of(args@[i].0 as int) == func_param_tys(*old(m), func.0 as int)[i],
        ensures
            final(m).wf(),
            inst_added(
                *final(m),
                *old(m),
                r.0,
                func_ret_ty(*old(m), func.0 as int),
                OpID::Call,
                bb.0,
                seq![func.0] + ptr_ids(args@),
                insts_of(*old(m), bb).push(r.0),
                Seq::empty(),
            ),
    {
        let ret = func.get_return_type(m);
        let mut v: Vec<ValuePtr> = Vec::new();
        v.push(func.to_val());
        let n = args.len();
        let mut i: usize = 0;
        while i < n
            invariant
                n == args@.len(),
                0 <= i <= n,
                ptr_ids(v@) == seq![func.0] + ptr_ids(args@.take(i as int)),
            decreases n - i,
        {
            let ghost vb = v@;
            v.push(args[i]);
            assert(args@.take(i + 1) =~= args@.take(i as int).push(args@[i as int]));
            assert(ptr_ids(v@) =~= ptr_ids(vb).push(args@[i as int].0));
            assert(ptr_ids(args@.take(i + 1)) =~= ptr_ids(args@.take(i as int)).push(args@[i as int].0));
            assert(ptr_ids(v@) =~= seq![func.0] + ptr_ids(args@.take(i + 1)));
            i = i + 1;
        }
        assert(args@.take(n as int) =~= args@);
        assert forall|k: int| 0 <= k < ptr_ids(v@).len() implies #[trigger] ptr_ids(v@)[k] < m.nv() by {
            if k > 0 {
                assert(ptr_ids(v@)[k] == args@[k - 1].0);
            }
        }
        Self::create(m, ret, OpID::Call, bb, v)
    }

    /// Return of `val` from the block's function, whose return type must be
    /// `val`'s type and not `void`.
    pub fn ret_inst(m: &mut Module, val: ValuePtr, bb: BasicBlockPtr) -> (r: Self)
        requires
            old(m).wf(),
            open_block(*old(m), bb),
            val.0 < old(m).nv(),
            !(old(m).tdata_of(func_ret_ty(*old(m), old(m).bb_parent(bb.0 as int) as int) as int) is VoidType),
            func_ret_ty(*old(m), old(m).bb_parent(bb.0 as int) as int) == val_ty(*old(m), val),
        ensures
            final(m).wf(),
            inst_added(*final(m), *old(m), r.0, VOID_TY, OpID::Ret, bb.0, seq![val.0], insts_of(*old(m), bb).push(r.0), Seq::empty()),
    {
        let t = m.get_void_ty();
        Self::unary(m, t, OpID::Ret, val, bb)
    }

    /// Return without a value from a `void` function.
    pub fn void_ret_inst(m: &mut Module, bb: BasicBlockPtr) -> (r: Self)
        requires
            old(m).wf(),
            open_block(*old(m), bb),
            old(m).tdata_of(func_ret_ty(*old(m), old(m).bb_parent(bb.0 as int) as int) as int) is VoidType,
        ensures
            final(m).wf(),
            inst_added(*final(m), *old(m), r.0, VOID_TY, OpID::Ret, bb.0, Seq::empty(), insts_of(*old(m), bb).push(r.0), Seq::empty()),
    {
        let t = m.get_void_ty();
        let r = Self::create(m, t, OpID::Ret, bb, Vec::new());
        assert(ptr_ids(Seq::<ValuePtr>::empty()) =~= Seq::<usize>::empty());
        r
    }

    /// Whether the instruction is a conditional branch.
    pub fn is_cond_br(&self, m: &Module) -> (r: bool)
        requires
            self.0 < m.nv(),
            m.class_of(self.0 as int) is Inst,
        ensures
            r == (m.inst_op(self.0 as int) == OpID::Br && m.ops(self.0 as int).len() == 3),
    {
        matches!(self.get_inst_op_id(m), OpID::Br) && m.values[self.0].operands.len() == 3
    }

    /// Whether the instruction has no operands (a `ret` without value).
    pub fn is_void_ret(&self, m: &Module) -> (r: bool)
        requires
            self.0 < m.nv(),
        ensures
            r == (m.ops(self.0 as int).len() == 0),
    {
        m.values[self.0].operands.len() == 0
    }

    /// Element type reached by a GEP with `n` indices from a pointer of type
    /// `ptr_ty`.
    fn get_element_type(m: &Module, ptr_ty: usize, n: usize) -> (r: usize)
        requires
            m.wf(),
            gep_ok(*m, ptr_ty, n as nat),
        ensures
            r == gep_elem(*m, ptr_ty, n as nat),
            r < m.nt(),
    {
        proof {
            assert(crate::ir::type_::tdata_children_below(m.tdata_of(ptr_ty as int), ptr_ty as nat));
        }
        let mut ty = match m.ty(ptr_ty).get_ptr_elem_ty() {
            Some(e) => e,
            None => 0,
        };
        let ghost e = ty;
        if m.ty(ty).is_arr() && n >= 1 {
            let mut i: usize = 1;
            while i < n
                invariant
                    m.wf(),
                    1 <= i <= n,
                    ty < m.nt(),
                    peel_arrays(*m, e, (n - 1) as nat) is Some,
                    peel_arrays(*m, e, (i - 1) as nat) == Some(ty),
                decreases n - i,
            {
                proof {
                    lemma_peel_prefix(*m, e, i as nat, (n - 1) as nat);
                    assert(crate::ir::type_::tdata_children_below(m.tdata_of(ty as int), ty as nat));
                }
                ty = match m.ty(ty).get_arr_elem_ty() {
                    Some(t) => t,
                    None => 0,
                };
                i = i + 1;
            }
        }
        ty
    }

    /// Whether a GEP with `n` indices from a pointer of type `ptr_ty` is
    /// well typed.
    pub fn gep_check(m: &Module, ptr_ty: usize, n: usize) -> (r: bool)
        requires
            m.wf(),
            ptr_ty < m.nt(),
        ensures
            r == gep_ok(*m, ptr_ty, n as nat),
    {
        proof {
            assert(crate::ir::type_::tdata_children_below(m.tdata_of(ptr_ty as int), ptr_ty as nat));
        }
        let e = match m.ty(ptr_ty).get_ptr_elem_ty() {
            Some(e) => e,
            None => {
                return false;
            },
        };
        let et = m.ty(e);
        if !(et.is_arr() || et.is_int() || et.is_float()) {
            return false;
        }
        if !(et.is_arr() && n >= 1) {
            return true;
        }
        let mut ty = e;
        let mut i: usize = 1;
        while i < n
            invariant
                m.wf(),
                1 <= i <= n,
                ty < m.nt(),
                e < m.nt(),
                ptr_ty < m.nt(),
                ptr_elem_spec(m.tdata_of(ptr_ty as int)) == Some(e),
                m.tdata_of(e as int) is ArrayType,
                peel_arrays(*m, e, (i - 1) as nat) == Some(ty),
            decreases n - i,
        {
            proof {
                assert(crate::ir::type_::tdata_children_below(m.tdata_of(ty as int), ty as nat));
            }
            match m.ty(ty).get_arr_elem_ty() {
                Some(t) => {
                    ty = t;
                },
                None => {
                    proof {
                        assert(peel_arrays(*m, e, i as nat) is None);
                        if peel_arrays(*m, e, (n - 1) as nat) is Some {
                            lemma_peel_prefix(*m, e, i as nat, (n - 1) as nat);
                        }
                    }
                    return false;
                },
            }
            i = i + 1;
        }
        true
    }

    /// Address computation from `ptr` through the indices `idxs`.
    pub fn gep_inst(m: &mut Module, ptr: ValuePtr, idxs: Vec<ValuePtr>, bb: BasicBlockPtr) -> (r: Self)
        requires
            old(m).wf(),
            open_block(*old(m), bb),
            ptr.0 < old(m).nv(),
            gep_ok(*old(m), val_ty(*old(m), ptr), idxs@.len()),
            forall|i: int| 0 <= i < idxs@.len() ==> (#[trigger] idxs@[i]).0 < old(m).nv()
                && int_or_bool(*old(m), old(m).type_of(idxs@[i].0 as int)),
        ensures
            final(m).wf(),
            inst_added(
                *final(m),
                *old(m),
                r.0,
                final(m).type_of(r.0 as int),
                OpID::GetElementPtr,
                bb.0,
                seq![ptr.0] + ptr_ids(idxs@),
                insts_of(*old(m), bb).push(r.0),
                Seq::empty(),
            ),
            ptr_elem_spec(final(m).tdata_of(final(m).type_of(r.0 as int) as int)) == Some(
                gep_elem(*old(m), val_ty(*old(m), ptr), idxs@.len()),
            ),
    {
        let ghost m0 = *m;
        let pty = ptr.get_type(m);
        let elem = Self::get_element_type(m, pty, idxs.len());
        let result_ty = m.get_ptr_ty(elem);
        let ghost mid = *m;
        let mut v: Vec<ValuePtr> = Vec::new();
        v.push(ptr);
        let n = idxs.len();
        let mut i: usize = 0;
        while i < n
            invariant
                n == idxs@.len(),
                0 <= i <= n,
                ptr_ids(v@) == seq![ptr.0] + ptr_ids(idxs@.take(i as int)),
            decreases n - i,
        {
            let ghost vb = v@;
            v.push(idxs[i]);
            assert(idxs@.take(i + 1) =~= idxs@.take(i as int).push(idxs@[i as int]));
            assert(ptr_ids(v@) =~= ptr_ids(vb).push(idxs@[i as int].0));
            assert(ptr_ids(idxs@.take(i + 1)) =~= ptr_ids(idxs@.take(i as int)).push(idxs@[i as int].0));
            assert(ptr_ids(v@) =~= seq![ptr.0] + ptr_ids(idxs@.take(i + 1)));
            i = i + 1;
        }
        assert(idxs@.take(n as int) =~= idxs@);
        assert forall|k: int| 0 <= k < ptr_ids(v@).len() implies #[trigger] ptr_ids(v@)[k] < m.nv() by {
            if k > 0 {
                assert(ptr_ids(v@)[k] == idxs@[k - 1].0);
            }
        }
        proof {
            lemma_block_state_types_grow(m0, mid, bb);
        }
        let r = Self::create(m, result_ty, OpID::GetElementPtr, bb, v);
        proof {
            lemma_inst_added_from_mid(*m, mid, m0, r.0, result_ty, OpID::GetElementPtr, bb.0, seq![ptr.0] + ptr_ids(idxs@), mid.bb_insts(bb.0 as int).push(r.0), Seq::empty());
            assert(m.tdata_of(result_ty as int) == mid.tdata_of(result_ty as int)) by {
                assert(mid.types@.is_prefix_of(m.types@));
                assert(mid.types@ == m.types@.subrange(0, mid.types@.len() as int));
                assert(mid.types@[result_ty as int] == m.types@.subrange(0, mid.types@.len() as int)[result_ty as int]);
            }
        }
        r
    }

    /// Unconditional branch from `bb` to `if_true`; records the edge.
    pub fn br_inst(m: &mut Module, if_true: BasicBlockPtr, bb: BasicBlockPtr) -> (r: Self)
        requires
            old(m).wf(),
            open_block(*old(m), bb),
            if_true.0 < old(m).nv(),
            old(m).class_of(if_true.0 as int) is BasicBlock,
        ensures
            final(m).wf(),
            inst_added(
                *final(m),
                *old(m),
                r.0,
                VOID_TY,
                OpID::Br,
                bb.0,
                seq![if_true.0],
                insts_of(*old(m), bb).push(r.0),
                seq![if_true.0],
            ),
    {
        let ghost m0 = *m;
        let t = m.get_void_ty();
        let v = vec![if_true.to_val()];
        assert(ptr_ids(v@) =~= seq![if_true.0]);
        let r = Self::create(m, t, OpID::Br, bb, v);
        let ghost m1 = *m;
        add_edge(m, bb, if_true);
        proof {
            lemma_edge_after_inst(*m, m1, m0, r.0, VOID_TY, OpID::Br, bb.0, seq![if_true.0], insts_of(m0, bb).push(r.0), Seq::empty(), if_true.0);
            assert(Seq::<usize>::empty().push(if_true.0) =~= seq![if_true.0]);
        }
        r
    }

    /// Conditional branch on the `i1` value `cond`; records both edges.
    #[verifier::rlimit(30)]
    pub fn cond_br_inst(m: &mut Module, cond: ValuePtr, if_true: BasicBlockPtr, if_false: BasicBlockPtr, bb: BasicBlockPtr) -> (r: Self)
        requires
            old(m).wf(),
            open_block(*old(m), bb),
            cond.0 < old(m).nv(),
            is_bool_ty(*old(m), val_ty(*old(m), cond)),
            if_true.0 < old(m).nv(),
            old(m).class_of(if_true.0 as int) is BasicBlock,
            if_false.0 < old(m).nv(),
            old(m).class_of(if_false.0 as int) is BasicBlock,
        ensures
            final(m).wf(),
            inst_added(
                *final(m),
                *old(m),
                r.0,
                VOID_TY,
                OpID::Br,
                bb.0,
                seq![cond.0, if_true.0, if_false.0],
                insts_of(*old(m), bb).push(r.0),
                seq![if_true.0, if_false.0],
            ),
    {
        let ghost m0 = *m;
        let t = m.get_void_ty();
        let v = vec![cond, if_true.to_val(), if_false.to_val()];
        assert(ptr_ids(v@) =~= seq![cond.0, if_true.0, if_false.0]);
        let r = Self::create(m, t, OpID::Br, bb, v);
        let ghost m1 = *m;
        add_edge(m, bb, if_true);
        let ghost m2 = *m;
        proof {
            lemma_edge_after_inst(m2, m1, m0, r.0, VOID_TY, OpID::Br, bb.0, seq![cond.0, if_true.0, if_false.0], insts_of(m0, bb).push(r.0), Seq::empty(), if_true.0);
            assert(m2.class_of(if_false.0 as int) is BasicBlock);
        }
        add_edge(m, bb, if_false);
        proof {
            lemma_edge_after_inst(*m, m2, m0, r.0, VOID_TY, OpID::Br, bb.0, seq![cond.0, if_true.0, if_false.0], insts_of(m0, bb).push(r.0), Seq::<usize>::empty().push(if_true.0), if_false.0);
            assert(Seq::<usize>::empty().push(if_true.0).push(if_false.0) =~= seq![if_true.0, if_false.0]);
        }
        r
    }

    /// Phi of type `ty` of `vals[i]` arriving from `val_bbs[i]`, placed at
    /// the front of `bb`.
    pub fn phi_inst(m: &mut Module, ty: usize, vals: Vec<ValuePtr>, val_bbs: Vec<BasicBlockPtr>, bb: BasicBlockPtr) -> (r: Self)
        requires
            old(m).wf(),
            ty < old(m).nt(),
            bb.0 < old(m).nv(),
            old(m).class_of(bb.0 as int) is BasicBlock,
            vals@.len() == val_bbs@.len(),
            forall|i: int| 0 <= i < vals@.len() ==> (#[trigger] vals@[i]).0 < old(m).nv(),
            forall|i: int| 0 <= i < val_bbs@.len() ==> (#[trigger] val_bbs@[i]).0 < old(m).nv(),
        ensures
            final(m).wf(),
            inst_added(
                *final(m),
                *old(m),
                r.0,
                ty,
                OpID::Phi,
                bb.0,
                phi_ops(vals@, val_bbs@),
                seq![r.0] + old(m).bb_insts(bb.0 as int),
                Seq::empty(),
            ),
    {
        let ghost m0 = *m;
        let mut v: Vec<ValuePtr> = Vec::new();
        let n = vals.len();
        let mut i: usize = 0;
        while i < n
            invariant
                n == vals@.len(),
                n == val_bbs@.len(),
                0 <= i <= n,
                ptr_ids(v@) == phi_ops(vals@.take(i as int), val_bbs@.take(i as int)),
                forall|k: int| 0 <= k < v@.len() ==> (#[trigger] v@[k]).0 < m0.nv(),
                forall|k: int| 0 <= k < vals@.len() ==> (#[trigger] vals@[k]).0 < m0.nv(),
                forall|k: int| 0 <= k < val_bbs@.len() ==> (#[trigger] val_bbs@[k]).0 < m0.nv(),
            decreases n - i,
        {
            v.push(vals[i]);
            v.push(val_bbs[i].to_val());
            assert(vals@.take(i + 1) =~= vals@.take(i as int).push(vals@[i as int]));
            assert(val_bbs@.take(i + 1) =~= val_bbs@.take(i as int).push(val_bbs@[i as int]));
            assert(vals@.take(i + 1).drop_last() =~= vals@.take(i as int));
            assert(val_bbs@.take(i + 1).drop_last() =~= val_bbs@.take(i as int));
            assert(ptr_ids(v@) =~= phi_ops(vals@.take(i + 1), val_bbs@.take(i + 1)));
            i = i + 1;
        }
        assert(vals@.take(n as int) =~= vals@);
        assert(val_bbs@.take(n as int) =~= val_bbs@);
        let base = Self::new(m, ty, OpID::Phi, bb);
        let r = base.0;
        assert forall|k: int| 0 <= k < ptr_ids(v@).len() implies #[trigger] ptr_ids(v@)[k] < r by {
            assert(v@[k].0 < m0.nv());
        }
        Self::add_operands(m, r, &v);
        let ghost mh = *m;
        bb.add_inst_at_begin(m, base);
        proof {
            let ids = ptr_ids(v@);
            assert forall|x: int| 0 <= x < m0.nv() implies {
                &&& (#[trigger] m.values@[x]).type_ == m0.values@[x].type_
                &&& m.values@[x].name == m0.values@[x].name
                &&& m.ops(x) == m0.ops(x)
                &&& m.uses(x) == m0.uses(x) + uses_from(ids, r, x)
            } by {
                if x != bb.0 as int {
                    assert(m.values@[x] == mh.values@[x]);
                }
                assert(mh.ops(x) == m0.ops(x));
            }
            assert forall|x: int| 0 <= x < m0.nv() implies {
                &&& crate::ir::module::same_class_kind(#[trigger] m.class_of(x), m0.class_of(x))
                &&& !(m0.class_of(x) is BasicBlock) ==> m.class_of(x) == m0.class_of(x)
                &&& m0.class_of(x) is BasicBlock ==> {
                    &&& m.bb_parent(x) == m0.bb_parent(x)
                    &&& m.bb_insts(x) == (if x == bb.0 { seq![r] + m0.bb_insts(bb.0 as int) } else { m0.bb_insts(x) })
                    &&& m.bb_succs(x) == (if x == bb.0 { m0.bb_succs(x) + Seq::<usize>::empty() } else { m0.bb_succs(x) })
                    &&& m.bb_preds(x) == m0.bb_preds(x) + preds_added(Seq::<usize>::empty(), bb.0, x)
                }
            } by {
                if x != bb.0 as int {
                    assert(m.values@[x] == mh.values@[x]);
                }
                assert(mh.values@[x].class == m0.values@[x].class);
                assert(m0.bb_succs(x) + Seq::<usize>::empty() =~= m0.bb_succs(x));
                assert(m0.bb_preds(x) + preds_added(Seq::<usize>::empty(), bb.0, x) =~= m0.bb_preds(x));
            }
            assert(m.ops(r as int) == mh.ops(r as int));
            assert(m.uses(r as int) == mh.uses(r as int));
            assert(m0.types@.is_prefix_of(m.types@));
        }
        base
    }
}

/// Between `m0` and `m1` only the edge `from -> to` was recorded.
pub open spec fn edge_added(m1: Module, m0: Module, from: usize, to: usize) -> bool {
    &&& m1.nv() == m0.nv()
    &&& m1.types@ == m0.types@
    &&& m1.gv_list@ == m0.gv_list@
    &&& m1.func_list@ == m0.func_list@
    &&& m1.const_pool@ == m0.const_pool@
    &&& forall|x: int| 0 <= x < m0.nv() ==> {
        &&& (#[trigger] m1.values@[x]).type_ == m0.values@[x].type_
        &&& m1.values@[x].name == m0.values@[x].name
        &&& m1.ops(x) == m0.ops(x)
        &&& m1.uses(x) == m0.uses(x)
        &&& crate::ir::module::same_class_kind(m1.class_of(x), m0.class_of(x))
        &&& !(m0.class_of(x) is BasicBlock) ==> m1.class_of(x) == m0.class_of(x)
        &&& m0.class_of(x) is BasicBlock ==> {
            &&& m1.bb_parent(x) == m0.bb_parent(x)
            &&& m1.bb_insts(x) == m0.bb_insts(x)
            &&& m1.bb_succs(x) == (if x == from { m0.bb_succs(x).push(to) } else { m0.bb_succs(x) })
            &&& m1.bb_preds(x) == (if x == to { m0.bb_preds(x).push(from) } else { m0.bb_preds(x) })
        }
    }
}

/// Records the control-flow edge `from -> to` in both blocks.
pub fn add_edge(m: &mut Module, from: BasicBlockPtr, to: BasicBlockPtr)
    requires
        old(m).wf(),
        from.0 < old(m).nv(),
        to.0 < old(m).nv(),
        old(m).class_of(from.0 as int) is BasicBlock,
        old(m).class_of(to.0 as int) is BasicBlock,
    ensures
        final(m).wf(),
        edge_added(*final(m), *old(m), from.0, to.0),
{
    let ghost m0 = *m;
    to.add_pre_bbs(m, from);
    let ghost m1 = *m;
    assert(m1.class_of(from.0 as int) is BasicBlock) by {
        if from.0 != to.0 {
            assert(m1.values@[from.0 as int] == m0.values@[from.0 as int]);
        }
    }
    from.add_succ_bbs(m, to);
    assert forall|x: int| 0 <= x < m0.nv() implies {
        &&& (#[trigger] m.values@[x]).type_ == m0.values@[x].type_
        &&& m.values@[x].name == m0.values@[x].name
        &&& m.ops(x) == m0.ops(x)
        &&& m.uses(x) == m0.uses(x)
        &&& crate::ir::module::same_class_kind(m.class_of(x), m0.class_of(x))
        &&& !(m0.class_of(x) is BasicBlock) ==> m.class_of(x) == m0.class_of(x)
        &&& m0.class_of(x) is BasicBlock ==> {
            &&& m.bb_parent(x) == m0.bb_parent(x)
            &&& m.bb_insts(x) == m0.bb_insts(x)
            &&& m.bb_succs(x) == (if x == from.0 { m0.bb_succs(x).push(to.0) } else { m0.bb_succs(x) })
            &&& m.bb_preds(x) == (if x == to.0 { m0.bb_preds(x).push(from.0) } else { m0.bb_preds(x) })
        }
    } by {
        if x != to.0 as int {
            assert(m1.values@[x] == m0.values@[x]);
        }
        if x != from.0 as int {
            assert(m.values@[x] == m1.values@[x]);
        }
    }
}

/// Recording an edge from the block that just received an instruction
/// extends the block changes by that successor.
pub proof fn lemma_edge_after_inst(
    m2: Module,
    m1: Module,
    m0: Module,
    r: usize,
    ty: usize,
    op: OpID,
    bb: usize,
    ops: Seq<usize>,
    bb_insts: Seq<usize>,
    succ_add: Seq<usize>,
    to: usize,
)
    requires
        inst_added(m1, m0, r, ty, op, bb, ops, bb_insts, succ_add),
        edge_added(m2, m1, bb, to),
        bb < m0.nv(),
        m0.class_of(bb as int) is BasicBlock,
    ensures
        inst_added(m2, m0, r, ty, op, bb, ops, bb_insts, succ_add.push(to)),
{
    assert(m2.values@[r as int] == m1.values@[r as int] || true);
    assert(m2.values@[r as int].type_ == m1.values@[r as int].type_);
    assert(m1.class_of(r as int) is Inst);
    assert forall|x: int| 0 <= x < m0.nv() implies {
        &&& crate::ir::module::same_class_kind(#[trigger] m2.class_of(x), m0.class_of(x))
        &&& !(m0.class_of(x) is BasicBlock) ==> m2.class_of(x) == m0.class_of(x)
        &&& m0.class_of(x) is BasicBlock ==> {
            &&& m2.bb_parent(x) == m0.bb_parent(x)
            &&& m2.bb_insts(x) == (if x == bb { bb_insts } else { m0.bb_insts(x) })
            &&& m2.bb_succs(x) == (if x == bb { m0.bb_succs(x) + succ_add.push(to) } else { m0.bb_succs(x) })
            &&& m2.bb_preds(x) == m0.bb_preds(x) + preds_added(succ_add.push(to), bb, x)
        }
    } by {
        assert(crate::ir::module::same_class_kind(m1.class_of(x), m0.class_of(x)));
        assert(m2.values@[x].type_ == m1.values@[x].type_);
        if m0.class_of(x) is BasicBlock {
            assert(m1.class_of(x) is BasicBlock);
            assert(succ_add.push(to).drop_last() =~= succ_add);
            assert(m0.bb_succs(x) + succ_add.push(to) =~= (m0.bb_succs(x) + succ_add).push(to));
            let p = preds_added(succ_add, bb, x);
            if to == x {
                assert(preds_added(succ_add.push(to), bb, x) == p.push(bb));
                assert(m0.bb_preds(x) + p.push(bb) =~= (m0.bb_preds(x) + p).push(bb));
            } else {
                assert(preds_added(succ_add.push(to), bb, x) == p);
            }
        }
    }
    assert forall|x: int| 0 <= x < m0.nv() implies {
        &&& (#[trigger] m2.values@[x]).type_ == m0.values@[x].type_
        &&& m2.values@[x].name == m0.values@[x].name
        &&& m2.ops(x) == m0.ops(x)
        &&& m2.uses(x) == m0.uses(x) + uses_from(ops, r, x)
    } by {
        assert(m2.values@[x].type_ == m1.values@[x].type_);
        assert(m1.values@[x].type_ == m0.values@[x].type_);
    }
}

pub proof fn lemma_block_state_types_grow(m0: Module, m1: Module, bb: BasicBlockPtr)
    requires
        m0.values@ == m1.values@,
    ensures
        open_block(m0, bb) ==> open_block(m1, bb),
{
}

/// A change of only the type table before an instruction is added does not
/// alter what the addition amounts to.
pub proof fn lemma_inst_added_from_mid(
    m1: Module,
    mid: Module,
    m0: Module,
    r: usize,
    ty: usize,
    op: OpID,
    bb: usize,
    ops: Seq<usize>,
    bb_insts: Seq<usize>,
    succ_add: Seq<usize>,
)
    requires
        inst_added(m1, mid, r, ty, op, bb, ops, bb_insts, succ_add),
        mid.values@ == m0.values@,
        m0.types@.is_prefix_of(mid.types@),
        mid.gv_list@ == m0.gv_list@,
        mid.func_list@ == m0.func_list@,
        mid.const_pool@ == m0.const_pool@,
    ensures
        inst_added(m1, m0, r, ty, op, bb, ops, bb_insts, succ_add),
{
    assert forall|x: int| 0 <= x < m0.nv() implies {
        &&& crate::ir::module::same_class_kind(#[trigger] m1.class_of(x), m0.class_of(x))
        &&& !(m0.class_of(x) is BasicBlock) ==> m1.class_of(x) == m0.class_of(x)
        &&& m0.class_of(x) is BasicBlock ==> {
            &&& m1.bb_parent(x) == m0.bb_parent(x)
            &&& m1.bb_insts(x) == (if x == bb { bb_insts } else { m0.bb_insts(x) })
            &&& m1.bb_succs(x) == (if x == bb { m0.bb_succs(x) + succ_add } else { m0.bb_succs(x) })
            &&& m1.bb_preds(x) == m0.bb_preds(x) + preds_added(succ_add, bb, x)
        }
    } by {
        assert(mid.class_of(x) == m0.class_of(x));
        assert(crate::ir::module::same_class_kind(m1.class_of(x), mid.class_of(x)));
    }
    assert forall|x: int| 0 <= x < m0.nv() implies {
        &&& (#[trigger] m1.values@[x]).type_ == m0.values@[x].type_
        &&& m1.values@[x].name == m0.values@[x].name
        &&& m1.ops(x) == m0.ops(x)
        &&& m1.uses(x) == m0.uses(x) + uses_from(ops, r, x)
    } by {
        assert(m1.values@[x].type_ == mid.values@[x].type_);
    }

}

} // verus!
