//! Constants: integer, zero-initialiser, float (by bit pattern) and array
//! constants. An array constant holds its elements both in its class and
//! as its operands.

use vstd::prelude::*;
use crate::ir::inst_impl::ptr_ids;
use crate::ir::module::Module;
use crate::ir::user::ConstantClass;
use crate::ir::value::{ConstantPtr, InstPtr, ValueClass, ValuePtr};

verus! {

/// The arena indices of a list of constant handles.
pub open spec fn const_ids(v: Seq<ConstantPtr>) -> Seq<usize> {
    v.map_values(|p: ConstantPtr| p.0)
}

/// What a constructor of a scalar constant leaves: a fresh value at the end
/// of the arena with type `ty`, name `name` and payload `cc`, nothing else
/// touched.
pub open spec fn const_added(m1: Module, m0: Module, r: usize, ty: usize, name: Seq<char>, cc: ConstantClass) -> bool {
    &&& m1.wf()
    &&& r == m0.nv()
    &&& m1.nv() == m0.nv() + 1
    &&& forall|w: int| 0 <= w < m0.nv() ==> #[trigger] m1.values@[w] == m0.values@[w]
    &&& m1.values@[r as int].type_ == ty
    &&& m1.values@[r as int].name@ == name
    &&& m1.values@[r as int].class == ValueClass::Constant(cc)
    &&& m1.uses(r as int).len() == 0
    &&& m1.ops(r as int).len() == 0
    &&& m1.types@ == m0.types@
    &&& m1.gv_list@ == m0.gv_list@
    &&& m1.func_list@ == m0.func_list@
    &&& m1.const_pool@ == m0.const_pool@
}

impl ConstantPtr {
    pub fn to_val(&self) -> (r: ValuePtr)
        ensures
            r.0 == self.0,
    {
        ValuePtr(self.0)
    }

    /// A new integer constant.
    pub fn new_int(m: &mut Module, ty: usize, name: String, val: i32) -> (r: Self)
        requires
            old(m).wf(),
            ty < old(m).nt(),
        ensures
            const_added(*final(m), *old(m), r.0, ty, name@, ConstantClass::Int(val)),
    {
        ConstantPtr(m.push_value(ty, name, ValueClass::Constant(ConstantClass::Int(val))))
    }

    /// A new zero-initialiser constant.
    pub fn new_zero(m: &mut Module, ty: usize, name: String) -> (r: Self)
        requires
            old(m).wf(),
            ty < old(m).nt(),
        ensures
            const_added(*final(m), *old(m), r.0, ty, name@, ConstantClass::Zero),
    {
        ConstantPtr(m.push_value(ty, name, ValueClass::Constant(ConstantClass::Zero)))
    }

    /// A new float constant, given by its single-precision bit pattern.
    pub fn new_float(m: &mut Module, ty: usize, name: String, bits: u32) -> (r: Self)
        requires
            old(m).wf(),
            ty < old(m).nt(),
        ensures
            const_added(*final(m), *old(m), r.0, ty, name@, ConstantClass::Float(bits)),
    {
        ConstantPtr(m.push_value(ty, name, ValueClass::Constant(ConstantClass::Float(bits))))
    }

    /// A new array constant whose elements (and operands, in order) are the
    /// constants `val`.
    pub fn new_arr(m: &mut Module, ty: usize, name: String, val: Vec<ConstantPtr>) -> (r: Self)
        requires
            old(m).wf(),
            ty < old(m).nt(),
            forall|k: int| 0 <= k < val@.len() ==> (#[trigger] val@[k]).0 < old(m).nv(),
            forall|k: int| 0 <= k < val@.len() ==> old(m).class_of((#[trigger] val@[k]).0 as int) is Constant,
        ensures
            final(m).wf(),
            r.0 == old(m).nv(),
            final(m).nv() == old(m).nv() + 1,
            final(m).values@[r.0 as int].type_ == ty,
            final(m).values@[r.0 as int].name@ == name@,
            final(m).class_of(r.0 as int) matches ValueClass::Constant(ConstantClass::Arr(v)) && v@ == const_ids(val@),
            final(m).ops(r.0 as int) == const_ids(val@),
            final(m).uses(r.0 as int).len() == 0,
            forall|w: int| 0 <= w < old(m).nv() ==> {
                &&& #[trigger] final(m).ops(w) == old(m).ops(w)
                &&& final(m).class_of(w) == old(m).class_of(w)
                &&& final(m).type_of(w) == old(m).type_of(w)
                &&& final(m).values@[w].name == old(m).values@[w].name
            },
            final(m).types@ == old(m).types@,
            final(m).gv_list@ == old(m).gv_list@,
            final(m).func_list@ == old(m).func_list@,
            final(m).const_pool@ == old(m).const_pool@,
    {
        let n = val.len();
        let mut ids: Vec<usize> = Vec::new();
        let mut vals: Vec<ValuePtr> = Vec::new();
        let mut i: usize = 0;
        while i < n
            invariant
                n == val@.len(),
                0 <= i <= n,
                ids@ == const_ids(val@).take(i as int),
                ptr_ids(vals@) == const_ids(val@).take(i as int),
                vals@.len() == i,
            decreases n - i,
        {
            ids.push(val[i].0);
            vals.push(ValuePtr(val[i].0));
            proof {
                assert(ptr_ids(vals@) =~= const_ids(val@).take(i + 1));
            }
            i = i + 1;
        }
        assert(ids@ =~= const_ids(val@));
        assert(ptr_ids(vals@) =~= const_ids(val@));
        let ghost m0 = *m;
        assert(m0.class_kinds_ok(ValueClass::Constant(ConstantClass::Arr(ids)), ty)) by {
            assert forall|k: int| 0 <= k < ids@.len() implies m0.class_of(#[trigger] ids@[k] as int) is Constant by {
                assert(ids@[k] == val@[k].0);
            }
        }
        assert(crate::ir::module::class_below(ValueClass::Constant(ConstantClass::Arr(ids)), m0.nv())) by {
            assert forall|k: int| 0 <= k < ids@.len() implies ids@[k] < m0.nv() by {
                assert(ids@[k] == val@[k].0);
            }
        }
        let r = m.push_value(ty, name, ValueClass::Constant(ConstantClass::Arr(ids)));
        proof {
            assert forall|k: int| 0 <= k < ptr_ids(vals@).len() implies ptr_ids(vals@)[k] < r by {
                assert(ptr_ids(vals@)[k] == val@[k].0);
            }
        }
        InstPtr::add_operands(m, r, &vals);
        ConstantPtr(r)
    }
}

} // verus!
