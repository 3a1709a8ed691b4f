//! Global variables: creation and queries.

use vstd::prelude::*;
use crate::ir::module::Module;
use crate::ir::value::{ConstantPtr, GVPtr, ValueClass, ValuePtr};

verus! {

/// The initialiser index of an optional constant handle.
pub open spec fn init_index(init: Option<ConstantPtr>) -> Option<usize> {
    match init {
        Some(c) => Some(c.0),
        None => None,
    }
}

impl GVPtr {
    pub fn to_val(&self) -> (r: ValuePtr)
        ensures
            r.0 == self.0,
    {
        ValuePtr(self.0)
    }

    /// A new global variable of (pointer) type `ty`; the module's list of
    /// globals is left as it is (`Module::add_gv` enters it there).
    pub fn new(name: String, m: &mut Module, ty: usize, is_const: bool, init: Option<ConstantPtr>) -> (r: Self)
        requires
            old(m).wf(),
            ty < old(m).nt(),
            init matches Some(c) ==> c.0 < old(m).nv() && old(m).class_of(c.0 as int) is Constant,
        ensures
            final(m).wf(),
            r.0 == old(m).nv(),
            final(m).nv() == old(m).nv() + 1,
            forall|w: int| 0 <= w < old(m).nv() ==> #[trigger] final(m).values@[w] == old(m).values@[w],
            final(m).values@[r.0 as int].type_ == ty,
            final(m).values@[r.0 as int].name@ == name@,
            final(m).class_of(r.0 as int) == (ValueClass::GlobalVariable {
                is_const,
                init_val: init_index(init),
            }),
            final(m).uses(r.0 as int).len() == 0,
            final(m).ops(r.0 as int).len() == 0,
            final(m).types@ == old(m).types@,
            final(m).gv_list@ == old(m).gv_list@,
            final(m).func_list@ == old(m).func_list@,
            final(m).const_pool@ == old(m).const_pool@,
    {
        let init_val = match init {
            Some(c) => Some(c.0),
            None => None,
        };
        GVPtr(m.push_value(ty, name, ValueClass::GlobalVariable { is_const, init_val }))
    }

    /// Same as `new`.
    pub fn create(name: String, m: &mut Module, ty: usize, is_const: bool, init: Option<ConstantPtr>) -> (r: Self)
        requires
            old(m).wf(),
            ty < old(m).nt(),
            init matches Some(c) ==> c.0 < old(m).nv() && old(m).class_of(c.0 as int) is Constant,
        ensures
            final(m).wf(),
            r.0 == old(m).nv(),
            final(m).nv() == old(m).nv() + 1,
            forall|w: int| 0 <= w < old(m).nv() ==> #[trigger] final(m).values@[w] == old(m).values@[w],
            final(m).values@[r.0 as int].type_ == ty,
            final(m).values@[r.0 as int].name@ == name@,
            final(m).class_of(r.0 as int) == (ValueClass::GlobalVariable {
                is_const,
                init_val: init_index(init),
            }),
            final(m).uses(r.0 as int).len() == 0,
            final(m).ops(r.0 as int).len() == 0,
            final(m).types@ == old(m).types@,
            final(m).gv_list@ == old(m).gv_list@,
            final(m).func_list@ == old(m).func_list@,
            final(m).const_pool@ == old(m).const_pool@,
    {
        Self::new(name, m, ty, is_const, init)
    }

    /// The initialiser; a global without one has none to give.
    pub fn get_init(&self, m: &Module) -> (r: ConstantPtr)
        requires
            self.0 < m.nv(),
            m.class_of(self.0 as int) matches ValueClass::GlobalVariable { init_val, .. } && init_val is Some,
        ensures
            m.class_of(self.0 as int) matches ValueClass::GlobalVariable { init_val, .. } && init_val == Some(
                r.0,
            ),
    {
        match &m.values[self.0].class {
            ValueClass::GlobalVariable { init_val, .. } => ConstantPtr(init_val.unwrap()),
            _ => ConstantPtr(0),
        }
    }

    pub fn is_const(&self, m: &Module) -> (r: bool)
        requires
            self.0 < m.nv(),
            m.class_of(self.0 as int) is GlobalVariable,
        ensures
            m.class_of(self.0 as int) matches ValueClass::GlobalVariable { is_const, .. } && r == is_const,
    {
        match &m.values[self.0].class {
            ValueClass::GlobalVariable { is_const, .. } => *is_const,
            _ => false,
        }
    }
}

} // verus!
