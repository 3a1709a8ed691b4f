//! Creation of values and the value-level API (names, ids, uses, class
//! queries).

use vstd::prelude::*;
use crate::ir::module::{class_below, has_use, value_below, Module};
use crate::ir::user::Use;
use crate::ir::user_impl::drop_use;
use crate::ir::value::{ArgPtr, BasicBlockPtr, ConstantPtr, FunctionPtr, GVPtr, InstPtr, UserPtr, Value, ValueClass, ValuePtr};

verus! {

/// Copies a list of indices.
pub fn copy_indices(v: &Vec<usize>) -> (res: Vec<usize>)
    ensures
        res@ == v@,
{
    let mut res: Vec<usize> = Vec::new();
    let n = v.len();
    let mut i: usize = 0;
    while i < n
        invariant
            n == v@.len(),
            0 <= i <= n,
            res@ == v@.take(i as int),
        decreases n - i,
    {
        res.push(v[i]);
        assert(v@.take(i + 1) =~= v@.take(i as int).push(v@[i as int]));
        i = i + 1;
    }
    assert(v@.take(n as int) =~= v@);
    res
}

pub proof fn lemma_class_below_mono(c: ValueClass, n: nat, n2: nat)
    requires
        class_below(c, n),
        n <= n2,
    ensures
        class_below(c, n2),
{
}

impl Module {
    /// Appends a new value (no operands, no uses) to the arena; its index is
    /// the old arena size.
    pub fn push_value(&mut self, type_: usize, name: String, class: ValueClass) -> (r: usize)
        requires
            old(self).wf(),
            type_ < old(self).nt(),
            class_below(class, old(self).nv()),
            old(self).class_kinds_ok(class, type_),
        ensures
            final(self).wf(),
            r == old(self).nv(),
            final(self).nv() == old(self).nv() + 1,
            forall|w: int| 0 <= w < old(self).nv() ==> #[trigger] final(self).values@[w] == old(self).values@[w],
            final(self).values@[r as int].type_ == type_,
            final(self).values@[r as int].name@ == name@,
            final(self).values@[r as int].class == class,
            final(self).uses(r as int).len() == 0,
            final(self).ops(r as int).len() == 0,
            final(self).types@ == old(self).types@,
            final(self).gv_list@ == old(self).gv_list@,
            final(self).func_list@ == old(self).func_list@,
            final(self).const_pool@ == old(self).const_pool@,
    {
        let ghost m0 = *self;
        let r = self.values.len();
        let ghost c = class;
        self.values.push(Value { type_, name, use_list: Vec::new(), operands: Vec::new(), class });
        let ghost m1 = *self;
        assert forall|w: int| 0 <= w < m0.nv() implies #[trigger] m1.values@[w] == m0.values@[w] by {}
        proof {
            crate::ir::module::lemma_types_wf_frame(m0, m1);
            assert(m0.types@.is_prefix_of(m1.types@));
            crate::ir::module::lemma_struct_wf_grow(m0, m1, -1);
            assert forall|i: int| 0 <= i < m1.nv() implies value_below(#[trigger] m1.values@[i], m1.nt(), m1.nv()) by {
                if i < r {
                    assert(value_below(m0.values@[i], m0.nt(), m0.nv()));
                    lemma_class_below_mono(m1.values@[i].class, m0.nv(), m1.nv());
                } else {
                    lemma_class_below_mono(c, m0.nv(), m1.nv());
                }
            }
            assert(m1.refs_wf());
            assert forall|w: int, k: int| 0 <= w < m1.nv() && 0 <= k < m1.uses(w).len() implies {
                let y = #[trigger] m1.values@[w].use_list@[k];
                &&& y.user < m1.nv()
                &&& y.arg_no < m1.ops(y.user as int).len()
                &&& m1.ops(y.user as int)[y.arg_no as int] == w
            } by {
                assert(w < r);
                assert(m0.values@[w].use_list@[k] == m1.values@[w].use_list@[k]);
            }
            assert forall|uu: int, j: int| 0 <= uu < m1.nv() && 0 <= j < m1.ops(uu).len() implies has_use(
                m1.uses(#[trigger] m1.values@[uu].operands@[j] as int),
                uu,
                j,
            ) by {
                assert(uu < r);
                assert(m0.values@[uu].operands@[j] == m1.values@[uu].operands@[j]);
                let t = m0.values@[uu].operands@[j] as int;
                assert(has_use(m0.uses(t), uu, j));
                assert(m1.uses(t) == m0.uses(t));
            }
            assert forall|w: int| 0 <= w < m1.nv() implies (#[trigger] m1.values@[w].use_list@).no_duplicates() by {
                if w < r {
                    assert(m0.uses(w).no_duplicates());
                }
            }
        }
        r
    }

    /// Puts class `c` in place of the class of value `w` (same kind) and
    /// hands back the old class.
    pub fn replace_class(&mut self, w: usize, c: ValueClass) -> (r: ValueClass)
        requires
            old(self).wf(),
            w < old(self).nv(),
            class_below(c, old(self).nv()),
            crate::ir::module::same_class_kind(c, old(self).class_of(w as int)),
            old(self).class_kinds_ok(c, old(self).type_of(w as int)),
        ensures
            final(self).wf(),
            r == old(self).class_of(w as int),
            final(self).class_of(w as int) == c,
            final(self).nv() == old(self).nv(),
            final(self).type_of(w as int) == old(self).type_of(w as int),
            final(self).values@[w as int].name == old(self).values@[w as int].name,
            final(self).ops(w as int) == old(self).ops(w as int),
            final(self).uses(w as int) == old(self).uses(w as int),
            forall|x: int| 0 <= x < old(self).nv() && x != w ==> #[trigger] final(self).values@[x] == old(self).values@[x],
            final(self).types@ == old(self).types@,
            final(self).gv_list@ == old(self).gv_list@,
            final(self).func_list@ == old(self).func_list@,
            final(self).const_pool@ == old(self).const_pool@,
    {
        let ghost m0 = *self;
        let mut c2 = c;
        let val = &mut self.values[w];
        core::mem::swap(&mut val.class, &mut c2);
        let ghost m1 = *self;
        assert forall|x: int| 0 <= x < m0.nv() && x != w implies #[trigger] m1.values@[x] == m0.values@[x] by {}
        proof {
            crate::ir::module::lemma_types_wf_frame(m0, m1);
            assert(m0.types@.is_prefix_of(m1.types@));
            crate::ir::module::lemma_struct_wf_grow(m0, m1, w as int);
            assert forall|i: int| 0 <= i < m1.nv() implies value_below(#[trigger] m1.values@[i], m1.nt(), m1.nv()) by {
                assert(value_below(m0.values@[i], m0.nt(), m0.nv()));
            }
            assert forall|x: int, k: int| 0 <= x < m1.nv() && 0 <= k < m1.uses(x).len() implies {
                let y = #[trigger] m1.values@[x].use_list@[k];
                &&& y.user < m1.nv()
                &&& y.arg_no < m1.ops(y.user as int).len()
                &&& m1.ops(y.user as int)[y.arg_no as int] == x
            } by {
                assert(m0.values@[x].use_list@[k] == m1.values@[x].use_list@[k]);
                let y = m0.values@[x].use_list@[k];
                assert(m1.ops(y.user as int) == m0.ops(y.user as int));
            }
            assert forall|uu: int, j: int| 0 <= uu < m1.nv() && 0 <= j < m1.ops(uu).len() implies has_use(
                m1.uses(#[trigger] m1.values@[uu].operands@[j] as int),
                uu,
                j,
            ) by {
                assert(m0.values@[uu].operands@[j] == m1.values@[uu].operands@[j]);
                let t = m0.values@[uu].operands@[j] as int;
                assert(has_use(m0.uses(t), uu, j));
                assert(m1.uses(t) == m0.uses(t));
            }
            assert forall|x: int| 0 <= x < m1.nv() implies (#[trigger] m1.values@[x].use_list@).no_duplicates() by {
                assert(m0.uses(x).no_duplicates());
            }
        }
        c2
    }

    /// The index of `v`'s value is in range.
    pub open spec fn valid(self, v: usize) -> bool {
        v < self.nv()
    }
}

impl ValuePtr {
    /// A new plain value of type `ty` named `name`.
    pub fn new(m: &mut Module, ty: usize, name: String) -> (r: ValuePtr)
        requires
            old(m).wf(),
            ty < old(m).nt(),
        ensures
            final(m).wf(),
            r.0 == old(m).nv(),
            final(m).nv() == old(m).nv() + 1,
            forall|w: int| 0 <= w < old(m).nv() ==> #[trigger] final(m).values@[w] == old(m).values@[w],
            final(m).values@[r.0 as int].type_ == ty,
            final(m).values@[r.0 as int].name@ == name@,
            final(m).values@[r.0 as int].class is Bare,
            final(m).uses(r.0 as int).len() == 0,
            final(m).ops(r.0 as int).len() == 0,
            final(m).types@ == old(m).types@,
            final(m).gv_list@ == old(m).gv_list@,
            final(m).func_list@ == old(m).func_list@,
            final(m).const_pool@ == old(m).const_pool@,
    {
        ValuePtr(m.push_value(ty, name, ValueClass::Bare))
    }

    /// The value's identity: its arena position plus one, so ids count up
    /// from 1 in creation order.
    pub fn get_id(&self, m: &Module) -> (r: usize)
        requires
            self.0 < m.nv(),
        ensures
            r == self.0 + 1,
    {
        let n = m.values.len();
        self.0 + 1
    }

    pub fn get_name(&self, m: &Module) -> (r: String)
        requires
            self.0 < m.nv(),
        ensures
            r@ == m.values@[self.0 as int].name@,
    {
        m.values[self.0].name.clone()
    }

    pub fn get_type(&self, m: &Module) -> (r: usize)
        requires
            self.0 < m.nv(),
        ensures
            r == m.values@[self.0 as int].type_,
    {
        m.values[self.0].type_
    }

    pub fn get_use_list(&self, m: &Module) -> (r: Vec<Use>)
        requires
            self.0 < m.nv(),
        ensures
            r@ == m.uses(self.0 as int),
    {
        let l = &m.values[self.0].use_list;
        let mut res: Vec<Use> = Vec::new();
        let n = l.len();
        let mut i: usize = 0;
        while i < n
            invariant
                n == l@.len(),
                0 <= i <= n,
                res@ == l@.take(i as int),
            decreases n - i,
        {
            res.push(l[i]);
            assert(l@.take(i + 1) =~= l@.take(i as int).push(l@[i as int]));
            i = i + 1;
        }
        assert(l@.take(n as int) =~= l@);
        res
    }

    /// Names the value, unless it already has a name; reports whether the
    /// name was set.
    pub fn set_name(&self, m: &mut Module, name: String) -> (r: bool)
        requires
            old(m).wf(),
            self.0 < old(m).nv(),
        ensures
            final(m).wf(),
            r == (old(m).values@[self.0 as int].name@.len() == 0),
            final(m).nv() == old(m).nv(),
            final(m).types@ == old(m).types@,
            final(m).gv_list@ == old(m).gv_list@,
            final(m).func_list@ == old(m).func_list@,
            final(m).const_pool@ == old(m).const_pool@,
            forall|w: int| 0 <= w < old(m).nv() && w != self.0 ==> #[trigger] final(m).values@[w] == old(m).values@[w],
            final(m).values@[self.0 as int].name@ == (if r { name@ } else { old(m).values@[self.0 as int].name@ }),
            final(m).values@[self.0 as int].type_ == old(m).values@[self.0 as int].type_,
            final(m).values@[self.0 as int].class == old(m).values@[self.0 as int].class,
            final(m).ops(self.0 as int) == old(m).ops(self.0 as int),
            final(m).uses(self.0 as int) == old(m).uses(self.0 as int),
    {
        let ghost m0 = *m;
        if m.values[self.0].name.as_str().is_empty() {
            let val = &mut m.values[self.0];
            val.name = name;
            let ghost m1 = *m;
            assert forall|w: int| 0 <= w < m0.nv() && w != self.0 implies #[trigger] m1.values@[w] == m0.values@[w] by {}
            proof {
                crate::ir::module::lemma_types_wf_frame(m0, m1);
                assert forall|i: int| 0 <= i < m1.nv() implies value_below(#[trigger] m1.values@[i], m1.nt(), m1.nv()) by {
                    assert(value_below(m0.values@[i], m0.nt(), m0.nv()));
                }
                assert forall|w: int, k: int| 0 <= w < m1.nv() && 0 <= k < m1.uses(w).len() implies {
                    let y = #[trigger] m1.values@[w].use_list@[k];
                    &&& y.user < m1.nv()
                    &&& y.arg_no < m1.ops(y.user as int).len()
                    &&& m1.ops(y.user as int)[y.arg_no as int] == w
                } by {
                    assert(m0.values@[w].use_list@[k] == m1.values@[w].use_list@[k]);
                    let y = m0.values@[w].use_list@[k];
                    assert(m1.ops(y.user as int) == m0.ops(y.user as int));
                }
                assert forall|uu: int, j: int| 0 <= uu < m1.nv() && 0 <= j < m1.ops(uu).len() implies has_use(
                    m1.uses(#[trigger] m1.values@[uu].operands@[j] as int),
                    uu,
                    j,
                ) by {
                    assert(m0.values@[uu].operands@[j] == m1.values@[uu].operands@[j]);
                    let t = m0.values@[uu].operands@[j] as int;
                    assert(has_use(m0.uses(t), uu, j));
                    assert(m1.uses(t) == m0.uses(t));
                }
                assert forall|w: int| 0 <= w < m1.nv() implies (#[trigger] m1.values@[w].use_list@).no_duplicates() by {
                    assert(m0.uses(w).no_duplicates());
                }
            }
            true
        } else {
            false
        }
    }

    /// Records that operand `arg_no` of `user` holds this value.
    pub fn add_use(&self, m: &mut Module, user: UserPtr, arg_no: usize)
        requires
            self.0 < old(m).nv(),
        ensures
            final(m).frame_defuse(*old(m)),
            final(m).uses(self.0 as int) == old(m).uses(self.0 as int).push(Use { user: user.0, arg_no }),
            forall|w: int| 0 <= w < old(m).nv() ==> #[trigger] final(m).ops(w) == old(m).ops(w),
            forall|w: int|
                0 <= w < old(m).nv() && w != self.0 ==> #[trigger] final(m).uses(w) == old(m).uses(w),
    {
        m.push_use(self.0, Use { user: user.0, arg_no });
    }

    /// Forgets every record of operand `arg_no` of `user` holding this value.
    pub fn remove_use(&self, m: &mut Module, user: UserPtr, arg_no: usize)
        requires
            self.0 < old(m).nv(),
        ensures
            final(m).frame_defuse(*old(m)),
            final(m).uses(self.0 as int) == drop_use(old(m).uses(self.0 as int), Use { user: user.0, arg_no }),
            forall|w: int| 0 <= w < old(m).nv() ==> #[trigger] final(m).ops(w) == old(m).ops(w),
            forall|w: int|
                0 <= w < old(m).nv() && w != self.0 ==> #[trigger] final(m).uses(w) == old(m).uses(w),
    {
        m.drop_use_of(self.0, Use { user: user.0, arg_no });
    }

    /// Makes every operand slot that holds this value hold `new_val` instead.
    pub fn replace_all_use_with(&self, m: &mut Module, new_val: ValuePtr)
        requires
            old(m).wf(),
            self.0 < old(m).nv(),
            new_val.0 < old(m).nv(),
        ensures
            final(m).wf(),
            final(m).frame_defuse(*old(m)),
            self.0 != new_val.0 ==> final(m).uses(self.0 as int).len() == 0,
            forall|u: int|
                0 <= u < old(m).nv() ==> (#[trigger] final(m).ops(u)).len() == old(m).ops(u).len(),
            forall|u: int, i: int|
                0 <= u < old(m).nv() && 0 <= i < old(m).ops(u).len() ==> #[trigger] final(m).ops(u)[i]
                    == if old(m).ops(u)[i] == self.0 {
                    new_val.0
                } else {
                    old(m).ops(u)[i]
                },
    {
        m.replace_all_use_with_at(self.0, new_val.0);
    }

    pub fn to_gv(&self, m: &Module) -> (r: Option<GVPtr>)
        requires
            self.0 < m.nv(),
        ensures
            r is Some <==> m.class_of(self.0 as int) is GlobalVariable,
            r matches Some(g) ==> g.0 == self.0,
    {
        match &m.values[self.0].class {
            ValueClass::GlobalVariable { .. } => Some(GVPtr(self.0)),
            _ => None,
        }
    }

    pub fn to_inst(&self, m: &Module) -> (r: Option<InstPtr>)
        requires
            self.0 < m.nv(),
        ensures
            r is Some <==> m.class_of(self.0 as int) is Inst,
            r matches Some(g) ==> g.0 == self.0,
    {
        match &m.values[self.0].class {
            ValueClass::Inst { .. } => Some(InstPtr(self.0)),
            _ => None,
        }
    }

    pub fn to_const(&self, m: &Module) -> (r: Option<ConstantPtr>)
        requires
            self.0 < m.nv(),
        ensures
            r is Some <==> m.class_of(self.0 as int) is Constant,
            r matches Some(g) ==> g.0 == self.0,
    {
        match &m.values[self.0].class {
            ValueClass::Constant(_) => Some(ConstantPtr(self.0)),
            _ => None,
        }
    }

    pub fn to_arg(&self, m: &Module) -> (r: Option<ArgPtr>)
        requires
            self.0 < m.nv(),
        ensures
            r is Some <==> m.class_of(self.0 as int) is Arg,
            r matches Some(g) ==> g.0 == self.0,
    {
        match &m.values[self.0].class {
            ValueClass::Arg { .. } => Some(ArgPtr(self.0)),
            _ => None,
        }
    }

    pub fn to_bb(&self, m: &Module) -> (r: Option<BasicBlockPtr>)
        requires
            self.0 < m.nv(),
        ensures
            r is Some <==> m.class_of(self.0 as int) is BasicBlock,
            r matches Some(g) ==> g.0 == self.0,
    {
        match &m.values[self.0].class {
            ValueClass::BasicBlock { .. } => Some(BasicBlockPtr(self.0)),
            _ => None,
        }
    }

    pub fn to_function(&self, m: &Module) -> (r: Option<FunctionPtr>)
        requires
            self.0 < m.nv(),
        ensures
            r is Some <==> m.class_of(self.0 as int) is Function,
            r matches Some(g) ==> g.0 == self.0,
    {
        match &m.values[self.0].class {
            ValueClass::Function { .. } => Some(FunctionPtr(self.0)),
            _ => None,
        }
    }
}

} // verus!
