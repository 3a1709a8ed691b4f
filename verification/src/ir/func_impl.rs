//! Functions and their arguments.

use vstd::prelude::*;
use crate::ir::module::{seq_below, Module};
use crate::ir::type_::{func_args_spec, func_ret_spec};
use crate::strutil::{decimal, push_decimal, string_of};
use crate::ir::value::{ArgPtr, BasicBlockPtr, FunctionPtr, ValueClass, ValuePtr};

verus! {

impl Module {
    /// Takes the argument and block lists out of function `f`.
    pub fn take_func_lists(&mut self, f: usize) -> (r: (Vec<usize>, Vec<usize>))
        requires
            old(self).wf(),
            f < old(self).nv(),
            old(self).class_of(f as int) is Function,
        ensures
            final(self).wf(),
            final(self).frame_except_class(*old(self), f as int),
            final(self).class_of(f as int) is Function,
            final(self).func_args(f as int).len() == 0,
            final(self).func_bbs(f as int).len() == 0,
            r.0@ == old(self).func_args(f as int),
            r.1@ == old(self).func_bbs(f as int),
    {
        let ghost m0 = *self;
        proof {
            assert(m0.class_kinds_ok(m0.values@[f as int].class, m0.values@[f as int].type_));
        }
        let old_c = self.replace_class(f, ValueClass::Function { args: Vec::new(), bbs: Vec::new() });
        match old_c {
            ValueClass::Function { args, bbs } => (args, bbs),
            _ => (Vec::new(), Vec::new()),
        }
    }

    /// Puts argument and block lists into function `f`.
    pub fn put_func_lists(&mut self, f: usize, args: Vec<usize>, bbs: Vec<usize>)
        requires
            old(self).wf(),
            f < old(self).nv(),
            old(self).class_of(f as int) is Function,
            seq_below(args@, old(self).nv()),
            seq_below(bbs@, old(self).nv()),
            forall|k: int| 0 <= k < args@.len() ==> old(self).class_of(#[trigger] args@[k] as int) is Arg,
            forall|k: int| 0 <= k < bbs@.len() ==> old(self).class_of(#[trigger] bbs@[k] as int) is BasicBlock,
        ensures
            final(self).wf(),
            final(self).frame_except_class(*old(self), f as int),
            final(self).class_of(f as int) is Function,
            final(self).func_args(f as int) == args@,
            final(self).func_bbs(f as int) == bbs@,
    {
        let ghost m0 = *self;
        proof {
            assert(m0.class_kinds_ok(m0.values@[f as int].class, m0.values@[f as int].type_));
        }
        let _ = self.replace_class(f, ValueClass::Function { args, bbs });
    }

    /// Appends argument `a` to function `f`.
    pub fn func_push_arg(&mut self, f: usize, a: usize)
        requires
            old(self).wf(),
            f < old(self).nv(),
            a < old(self).nv(),
            old(self).class_of(f as int) is Function,
            old(self).class_of(a as int) is Arg,
        ensures
            final(self).wf(),
            final(self).frame_except_class(*old(self), f as int),
            final(self).class_of(f as int) is Function,
            final(self).func_args(f as int) == old(self).func_args(f as int).push(a),
            final(self).func_bbs(f as int) == old(self).func_bbs(f as int),
    {
        let ghost m0 = *self;
        let (mut args, bbs) = self.take_func_lists(f);
        proof {
            assert(m0.class_kinds_ok(m0.values@[f as int].class, m0.values@[f as int].type_));
            assert(crate::ir::module::value_below(m0.values@[f as int], m0.nt(), m0.nv()));
        }
        args.push(a);
        assert forall|k: int| 0 <= k < args@.len() implies self.class_of(#[trigger] args@[k] as int) is Arg by {
            if k < args@.len() - 1 {
                assert(m0.class_of(m0.func_args(f as int)[k] as int) is Arg);
            }
        }
        self.put_func_lists(f, args, bbs);
    }

    /// Appends block `b` to function `f`.
    pub fn func_push_bb(&mut self, f: usize, b: usize)
        requires
            old(self).wf(),
            f < old(self).nv(),
            b < old(self).nv(),
            old(self).class_of(f as int) is Function,
            old(self).class_of(b as int) is BasicBlock,
        ensures
            final(self).wf(),
            final(self).frame_except_class(*old(self), f as int),
            final(self).class_of(f as int) is Function,
            final(self).func_args(f as int) == old(self).func_args(f as int),
            final(self).func_bbs(f as int) == old(self).func_bbs(f as int).push(b),
    {
        let ghost m0 = *self;
        let (args, mut bbs) = self.take_func_lists(f);
        proof {
            assert(m0.class_kinds_ok(m0.values@[f as int].class, m0.values@[f as int].type_));
            assert(crate::ir::module::value_below(m0.values@[f as int], m0.nt(), m0.nv()));
        }
        bbs.push(b);
        assert forall|k: int| 0 <= k < bbs@.len() implies self.class_of(#[trigger] bbs@[k] as int) is BasicBlock by {
            if k < bbs@.len() - 1 {
                assert(m0.class_of(m0.func_bbs(f as int)[k] as int) is BasicBlock);
            }
        }
        self.put_func_lists(f, args, bbs);
    }
}

/// Parameter types of the function type of value `f`.
pub open spec fn func_param_tys(m: Module, f: int) -> Seq<usize> {
    match func_args_spec(m.tdata_of(m.type_of(f) as int)) {
        Some(a) => a,
        None => Seq::empty(),
    }
}

/// Return type of the function type of value `f`.
pub open spec fn func_ret_ty(m: Module, f: int) -> usize {
    match func_ret_spec(m.tdata_of(m.type_of(f) as int)) {
        Some(r) => r,
        None => 0,
    }
}

/// The name prefix given to unnamed arguments, blocks and instructions.
pub open spec fn name_prefix(c: ValueClass) -> Seq<char> {
    match c {
        ValueClass::Arg { .. } => "arg"@,
        ValueClass::BasicBlock { .. } => "lable"@,
        ValueClass::Inst { .. } => "op"@,
        _ => Seq::empty(),
    }
}

/// Value `x` is an instruction of one of the blocks `bbs`.
pub open spec fn in_blocks(m: Module, bbs: Seq<usize>, x: int) -> bool {
    exists|k: int| 0 <= k < bbs.len() && #[trigger] m.bb_insts(bbs[k] as int).contains(x as usize)
}

/// Value `x` is an argument, a block, or an instruction of a block, of `f`.
pub open spec fn in_func_scope(m: Module, f: int, x: int) -> bool {
    ||| m.func_args(f).contains(x as usize)
    ||| m.func_bbs(f).contains(x as usize)
    ||| in_blocks(m, m.func_bbs(f), x)
}

/// The name `x` has once it is named if `done` holds.
pub open spec fn named_by(m: Module, x: int, done: bool) -> Seq<char> {
    if done && m.values@[x].name@.len() == 0 {
        name_prefix(m.class_of(x)) + decimal((x + 1) as nat)
    } else {
        m.values@[x].name@
    }
}

pub proof fn lemma_decimal_nonempty(n: nat)
    ensures
        decimal(n).len() > 0,
    decreases n,
{
    if n >= 10 {
        lemma_decimal_nonempty(n / 10);
    }
}

/// The name `x` has after naming the values of `f`.
pub open spec fn auto_name(m: Module, f: int, x: int) -> Seq<char> {
    if in_func_scope(m, f, x) && m.values@[x].name@.len() == 0 {
        name_prefix(m.class_of(x)) + decimal((x + 1) as nat)
    } else {
        m.values@[x].name@
    }
}

impl Module {
    /// Only the names of values may differ from `old`.
    pub open spec fn frame_except_names(self, old: Module) -> bool {
        &&& self.nv() == old.nv()
        &&& self.types@ == old.types@
        &&& self.gv_list@ == old.gv_list@
        &&& self.func_list@ == old.func_list@
        &&& self.const_pool@ == old.const_pool@
        &&& forall|x: int|
            0 <= x < old.nv() ==> {
                &&& (#[trigger] self.values@[x]).type_ == old.values@[x].type_
                &&& self.values@[x].class == old.values@[x].class
                &&& self.values@[x].operands@ == old.values@[x].operands@
                &&& self.values@[x].use_list@ == old.values@[x].use_list@
            }
    }

    /// Gives value `x` the name `prefix` followed by its id, unless it
    /// already has a name.
    pub fn name_if_unnamed(&mut self, x: usize, prefix: &str)
        requires
            old(self).wf(),
            x < old(self).nv(),
        ensures
            final(self).wf(),
            final(self).frame_except_names(*old(self)),
            final(self).values@[x as int].name@ == (if old(self).values@[x as int].name@.len() == 0 {
                prefix@ + decimal((x + 1) as nat)
            } else {
                old(self).values@[x as int].name@
            }),
            forall|y: int| 0 <= y < old(self).nv() && y != x ==> #[trigger] final(self).values@[y].name == old(self).values@[y].name,
    {
        let v = ValuePtr(x);
        let id = v.get_id(self);
        let mut name = string_of(prefix);
        push_decimal(&mut name, id as u64);
        let _ = v.set_name(self, name);
    }
}

impl ArgPtr {
    pub fn to_val(&self) -> (r: ValuePtr)
        ensures
            r.0 == self.0,
    {
        ValuePtr(self.0)
    }

    /// A new argument number `arg_no` of function `f`, of type `ty`.
    pub fn new(m: &mut Module, ty: usize, name: String, f: FunctionPtr, arg_no: usize) -> (r: ArgPtr)
        requires
            old(m).wf(),
            ty < old(m).nt(),
            f.0 < old(m).nv(),
            old(m).class_of(f.0 as int) is Function,
        ensures
            final(m).wf(),
            r.0 == old(m).nv(),
            final(m).nv() == old(m).nv() + 1,
            forall|w: int| 0 <= w < old(m).nv() ==> #[trigger] final(m).values@[w] == old(m).values@[w],
            final(m).type_of(r.0 as int) == ty,
            final(m).values@[r.0 as int].name@ == name@,
            final(m).class_of(r.0 as int) == (ValueClass::Arg { function: f.0, arg_no }),
            final(m).ops(r.0 as int).len() == 0,
            final(m).uses(r.0 as int).len() == 0,
            final(m).types@ == old(m).types@,
            final(m).gv_list@ == old(m).gv_list@,
            final(m).func_list@ == old(m).func_list@,
            final(m).const_pool@ == old(m).const_pool@,
    {
        ArgPtr(m.push_value(ty, name, ValueClass::Arg { function: f.0, arg_no }))
    }
}

impl FunctionPtr {
    pub fn to_val(&self) -> (r: ValuePtr)
        ensures
            r.0 == self.0,
    {
        ValuePtr(self.0)
    }

    /// A new function of function type `ty` named `name`, with one argument
    /// per parameter type, added to the module's function list.
    pub fn create(ty: usize, name: String, m: &mut Module) -> (r: Self)
        requires
            old(m).wf(),
            ty < old(m).nt(),
            old(m).tdata_of(ty as int) is FunctionType,
        ensures
            final(m).wf(),
            r.0 == old(m).nv(),
            final(m).class_of(r.0 as int) is Function,
            final(m).type_of(r.0 as int) == ty,
            final(m).values@[r.0 as int].name@ == name@,
            final(m).ops(r.0 as int).len() == 0,
            final(m).uses(r.0 as int).len() == 0,
            final(m).func_bbs(r.0 as int).len() == 0,
            final(m).func_args(r.0 as int).len() == func_param_tys(*final(m), r.0 as int).len(),
            final(m).nv() == old(m).nv() + 1 + func_param_tys(*final(m), r.0 as int).len(),
            forall|j: int|
                0 <= j < final(m).func_args(r.0 as int).len() ==> {
                    &&& #[trigger] final(m).func_args(r.0 as int)[j] == old(m).nv() + 1 + j
                    &&& final(m).class_of(old(m).nv() + 1 + j) == (ValueClass::Arg { function: r.0, arg_no: j as usize })
                    &&& final(m).type_of(old(m).nv() + 1 + j) == func_param_tys(*final(m), r.0 as int)[j]
                    &&& final(m).values@[old(m).nv() + 1 + j].name@.len() == 0
                    &&& final(m).ops(old(m).nv() + 1 + j).len() == 0
                    &&& final(m).uses(old(m).nv() + 1 + j).len() == 0
                },
            forall|w: int| 0 <= w < old(m).nv() ==> #[trigger] final(m).values@[w] == old(m).values@[w],
            final(m).types@ == old(m).types@,
            final(m).gv_list@ == old(m).gv_list@,
            final(m).const_pool@ == old(m).const_pool@,
            final(m).func_list@ == old(m).func_list@.push(r.0),
    {
        let ghost m0 = *m;
        let f = m.push_value(ty, name, ValueClass::Function { args: Vec::new(), bbs: Vec::new() });
        let fp = FunctionPtr(f);
        let n = fp.get_num_of_args(m);
        let ghost params = func_param_tys(*m, f as int);
        let mut i: usize = 0;
        while i < n
            invariant
                m.wf(),
                f == m0.nv(),
                fp.0 == f,
                0 <= i <= n,
                n == params.len(),
                m.nv() == m0.nv() + 1 + i,
                m.class_of(f as int) is Function,
                m.type_of(f as int) == ty,
                m.values@[f as int].name@ == name@,
                m.ops(f as int).len() == 0,
                m.uses(f as int).len() == 0,
                m.func_bbs(f as int).len() == 0,
                m.func_args(f as int).len() == i,
                m.types@ == m0.types@,
                m.gv_list@ == m0.gv_list@,
                m.const_pool@ == m0.const_pool@,
                m.func_list@ == m0.func_list@,
                params == func_param_tys(*m, f as int),
                forall|w: int| 0 <= w < m0.nv() ==> #[trigger] m.values@[w] == m0.values@[w],
                forall|j: int|
                    0 <= j < i ==> {
                        &&& #[trigger] m.func_args(f as int)[j] == m0.nv() + 1 + j
                        &&& m.class_of(m0.nv() + 1 + j) == (ValueClass::Arg { function: f, arg_no: j as usize })
                        &&& m.type_of(m0.nv() + 1 + j) == params[j]
                        &&& m.values@[m0.nv() + 1 + j].name@.len() == 0
                        &&& m.ops(m0.nv() + 1 + j).len() == 0
                        &&& m.uses(m0.nv() + 1 + j).len() == 0
                    },
            decreases n - i,
        {
            let ghost mb = *m;
            let pty = m.ty(ty).get_func_param_ty(i);
            let pt = match pty {
                Some(t) => t,
                None => 0,
            };
            proof {
                assert(crate::ir::type_::tdata_children_below(m.tdata_of(ty as int), ty as nat));
            }
            let a = ArgPtr::new(m, pt, String::new(), fp, i);
            let ghost ma = *m;
            m.func_push_arg(f, a.0);
            proof {
                assert(ma.values@[f as int] == mb.values@[f as int]);
                assert forall|w: int| 0 <= w < m0.nv() implies #[trigger] m.values@[w] == m0.values@[w] by {
                    assert(mb.values@[w] == m0.values@[w]);
                    assert(ma.values@[w] == mb.values@[w]);
                }
                assert forall|j: int| 0 <= j < i + 1 implies {
                    &&& #[trigger] m.func_args(f as int)[j] == m0.nv() + 1 + j
                    &&& m.class_of(m0.nv() + 1 + j) == (ValueClass::Arg { function: f, arg_no: j as usize })
                    &&& m.type_of(m0.nv() + 1 + j) == params[j]
                    &&& m.values@[m0.nv() + 1 + j].name@.len() == 0
                    &&& m.ops(m0.nv() + 1 + j).len() == 0
                    &&& m.uses(m0.nv() + 1 + j).len() == 0
                } by {
                    let x = m0.nv() + 1 + j;
                    assert(m.values@[x] == ma.values@[x]);
                    if j < i {
                        assert(mb.func_args(f as int)[j] == m0.nv() + 1 + j);
                        assert(ma.values@[x] == mb.values@[x]);
                    }
                }
            }
            i = i + 1;
        }
        let ghost ml = *m;
        m.add_function(f);
        assert forall|j: int| 0 <= j < m.func_args(f as int).len() implies {
            &&& #[trigger] m.func_args(f as int)[j] == m0.nv() + 1 + j
            &&& m.class_of(m0.nv() + 1 + j) == (ValueClass::Arg { function: f, arg_no: j as usize })
            &&& m.type_of(m0.nv() + 1 + j) == func_param_tys(*m, f as int)[j]
            &&& m.values@[m0.nv() + 1 + j].name@.len() == 0
            &&& m.ops(m0.nv() + 1 + j).len() == 0
            &&& m.uses(m0.nv() + 1 + j).len() == 0
        } by {
            assert(ml.func_args(f as int)[j] == m0.nv() + 1 + j);
        }
        fp
    }

    /// Number of parameters.
    pub fn get_num_of_args(&self, m: &Module) -> (r: usize)
        requires
            m.wf(),
            self.0 < m.nv(),
            m.class_of(self.0 as int) is Function,
        ensures
            r == func_param_tys(*m, self.0 as int).len(),
    {
        proof {
            assert(m.class_kinds_ok(m.values@[self.0 as int].class, m.values@[self.0 as int].type_));
            assert(crate::ir::module::value_below(m.values@[self.0 as int], m.nt(), m.nv()));
        }
        let t = m.values[self.0].type_;
        match m.ty(t).get_func_arg_num() {
            Some(n) => n,
            None => 0,
        }
    }

    /// Return type.
    pub fn get_return_type(&self, m: &Module) -> (r: usize)
        requires
            m.wf(),
            self.0 < m.nv(),
            m.class_of(self.0 as int) is Function,
        ensures
            r == func_ret_ty(*m, self.0 as int),
            r < m.nt(),
    {
        proof {
            assert(m.class_kinds_ok(m.values@[self.0 as int].class, m.values@[self.0 as int].type_));
            assert(crate::ir::module::value_below(m.values@[self.0 as int], m.nt(), m.nv()));
            let t = m.values@[self.0 as int].type_ as int;
            assert(crate::ir::type_::tdata_children_below(m.tdata_of(t), t as nat));
        }
        let t = m.values[self.0].type_;
        match m.ty(t).get_func_ret_ty() {
            Some(r) => r,
            None => 0,
        }
    }

    pub fn get_num_bbs(&self, m: &Module) -> (r: usize)
        requires
            self.0 < m.nv(),
        ensures
            r == m.func_bbs(self.0 as int).len(),
    {
        match &m.values[self.0].class {
            ValueClass::Function { bbs, .. } => bbs.len(),
            _ => 0,
        }
    }

    pub fn get_type(&self, m: &Module) -> (r: usize)
        requires
            self.0 < m.nv(),
        ensures
            r == m.type_of(self.0 as int),
    {
        m.values[self.0].type_
    }

    /// The argument values, in order.
    pub fn get_args(&self, m: &Module) -> (r: Vec<usize>)
        requires
            self.0 < m.nv(),
        ensures
            r@ == m.func_args(self.0 as int),
    {
        match &m.values[self.0].class {
            ValueClass::Function { args, .. } => crate::ir::value_impl::copy_indices(args),
            _ => Vec::new(),
        }
    }

    /// The basic blocks, in order.
    pub fn get_bbs(&self, m: &Module) -> (r: Vec<usize>)
        requires
            self.0 < m.nv(),
        ensures
            r@ == m.func_bbs(self.0 as int),
    {
        match &m.values[self.0].class {
            ValueClass::Function { bbs, .. } => crate::ir::value_impl::copy_indices(bbs),
            _ => Vec::new(),
        }
    }

    /// Appends a block to the function.
    pub fn add_bbs(&self, m: &mut Module, bb: BasicBlockPtr)
        requires
            old(m).wf(),
            self.0 < old(m).nv(),
            bb.0 < old(m).nv(),
            old(m).class_of(self.0 as int) is Function,
            old(m).class_of(bb.0 as int) is BasicBlock,
        ensures
            final(m).wf(),
            final(m).frame_except_class(*old(m), self.0 as int),
            final(m).class_of(self.0 as int) is Function,
            final(m).func_args(self.0 as int) == old(m).func_args(self.0 as int),
            final(m).func_bbs(self.0 as int) == old(m).func_bbs(self.0 as int).push(bb.0),
    {
        m.func_push_bb(self.0, bb.0);
    }

    /// Names every unnamed argument, block and instruction of the function
    /// after its kind and id: `arg{id}`, `lable{id}`, `op{id}`.
    #[verifier::rlimit(60)]
    pub fn set_inst_name(&self, m: &mut Module)
        requires
            old(m).wf(),
            self.0 < old(m).nv(),
            old(m).class_of(self.0 as int) is Function,
        ensures
            final(m).wf(),
            final(m).frame_except_names(*old(m)),
            forall|x: int| 0 <= x < old(m).nv() ==> #[trigger] final(m).values@[x].name@ == auto_name(*old(m), self.0 as int, x),
    {
        let ghost m0 = *m;
        let nvals = m.values.len();
        let ghost f = self.0 as int;
        proof {
            assert(m0.class_kinds_ok(m0.values@[f].class, m0.values@[f].type_));
            assert(crate::ir::module::value_below(m0.values@[f], m0.nt(), m0.nv()));
        }
        let args = self.get_args(m);
        let na = args.len();
        let mut i: usize = 0;
        while i < na
            invariant
                m.wf(),
                m0.wf(),
                nvals == m0.nv(),
                m.frame_except_names(m0),
                na == args@.len(),
                args@ == m0.func_args(f),
                0 <= i <= na,
                crate::ir::module::seq_below(args@, m0.nv()),
                forall|k: int| 0 <= k < args@.len() ==> m0.class_of(#[trigger] args@[k] as int) is Arg,
                forall|x: int| 0 <= x < m0.nv() ==> #[trigger] m.values@[x].name@ == named_by(m0, x, args@.take(i as int).contains(x as usize)),
            decreases na - i,
        {
            let ghost mb = *m;
            let y = args[i];
            proof {
                assert(args@[i as int] == y);
                assert(m0.class_of(y as int) is Arg);
            }
            m.name_if_unnamed(y, "arg");
            proof {
                lemma_decimal_nonempty((y + 1) as nat);
                reveal_strlit("arg");
                assert forall|x: int| 0 <= x < m0.nv() implies #[trigger] m.values@[x].name@ == named_by(m0, x, args@.take(i + 1).contains(x as usize)) by {
                    assert(args@.take(i + 1) =~= args@.take(i as int).push(y));
                    assert(args@.take(i as int).push(y).contains(x as usize) <==> (args@.take(i as int).contains(x as usize) || x == y)) by {
                        let t = args@.take(i as int);
                        if t.push(y).contains(x as usize) {
                            let k = choose|k: int| 0 <= k < t.push(y).len() && t.push(y)[k] == x as usize;
                            if k < t.len() {
                                assert(t[k] == x as usize);
                            }
                        }
                        if t.contains(x as usize) {
                            let k = choose|k: int| 0 <= k < t.len() && t[k] == x as usize;
                            assert(t.push(y)[k] == x as usize);
                        }
                        if x == y {
                            assert(t.push(y)[t.len() as int] == y);
                        }
                    }
                    assert(m0.class_of(x) == mb.class_of(x));
                }
            }
            i = i + 1;
        }
        assert(args@.take(na as int) =~= args@);
        let bbs = self.get_bbs(m);
        let nb = bbs.len();
        let mut bi: usize = 0;
        while bi < nb
            invariant
                m.wf(),
                m0.wf(),
                nvals == m0.nv(),
                m.frame_except_names(m0),
                nb == bbs@.len(),
                bbs@ == m0.func_bbs(f),
                args@ == m0.func_args(f),
                0 <= bi <= nb,
                crate::ir::module::seq_below(bbs@, m0.nv()),
                forall|k: int| 0 <= k < bbs@.len() ==> m0.class_of(#[trigger] bbs@[k] as int) is BasicBlock,
                forall|x: int| 0 <= x < m0.nv() ==> #[trigger] m.values@[x].name@ == named_by(
                    m0,
                    x,
                    args@.contains(x as usize) || bbs@.take(bi as int).contains(x as usize) || in_blocks(m0, bbs@.take(bi as int), x),
                ),
            decreases nb - bi,
        {
            let b = bbs[bi];
            proof {
                assert(bbs@[bi as int] == b);
                assert(m0.class_of(b as int) is BasicBlock);
                assert(m0.class_kinds_ok(m0.values@[b as int].class, m0.values@[b as int].type_));
                assert(crate::ir::module::value_below(m0.values@[b as int], m0.nt(), m0.nv()));
            }
            let ghost mb = *m;
            m.name_if_unnamed(b, "lable");
            proof {
                lemma_decimal_nonempty((b + 1) as nat);
                reveal_strlit("lable");
                assert(m0.class_of(b as int) == mb.class_of(b as int));
            }
            let insts = BasicBlockPtr(b).get_insts(m);
            assert(m.class_of(b as int) == m0.class_of(b as int));
            assert(insts@ == m0.bb_insts(b as int));
            let ni = insts.len();
            let mut ii: usize = 0;
            while ii < ni
                invariant
                    m.wf(),
                    m0.wf(),
                    nvals == m0.nv(),
                    m.frame_except_names(m0),
                    nb == bbs@.len(),
                    bbs@ == m0.func_bbs(f),
                    args@ == m0.func_args(f),
                    0 <= bi < nb,
                    b == bbs@[bi as int],
                    ni == insts@.len(),
                    insts@ == m0.bb_insts(b as int),
                    0 <= ii <= ni,
                    crate::ir::module::seq_below(insts@, m0.nv()),
                    forall|k: int| 0 <= k < insts@.len() ==> m0.class_of(#[trigger] insts@[k] as int) is Inst,
                    forall|x: int| 0 <= x < m0.nv() ==> #[trigger] m.values@[x].name@ == named_by(
                        m0,
                        x,
                        args@.contains(x as usize) || bbs@.take(bi as int).contains(x as usize) || in_blocks(m0, bbs@.take(bi as int), x)
                            || x == b || insts@.take(ii as int).contains(x as usize),
                    ),
                decreases ni - ii,
            {
                let y = insts[ii];
                proof {
                    assert(insts@[ii as int] == y);
                    assert(m0.class_of(y as int) is Inst);
                }
                let ghost mc = *m;
                m.name_if_unnamed(y, "op");
                proof {
                    lemma_decimal_nonempty((y + 1) as nat);
                    reveal_strlit("op");
                    assert forall|x: int| 0 <= x < m0.nv() implies #[trigger] m.values@[x].name@ == named_by(
                        m0,
                        x,
                        args@.contains(x as usize) || bbs@.take(bi as int).contains(x as usize) || in_blocks(m0, bbs@.take(bi as int), x)
                            || x == b || insts@.take(ii + 1).contains(x as usize),
                    ) by {
                        let t = insts@.take(ii as int);
                        assert(insts@.take(ii + 1) =~= t.push(y));
                        assert(t.push(y).contains(x as usize) <==> (t.contains(x as usize) || x == y)) by {
                            if t.push(y).contains(x as usize) {
                                let k = choose|k: int| 0 <= k < t.push(y).len() && t.push(y)[k] == x as usize;
                                if k < t.len() {
                                    assert(t[k] == x as usize);
                                }
                            }
                            if t.contains(x as usize) {
                                let k = choose|k: int| 0 <= k < t.len() && t[k] == x as usize;
                                assert(t.push(y)[k] == x as usize);
                            }
                            if x == y {
                                assert(t.push(y)[t.len() as int] == y);
                            }
                        }
                        assert(m0.class_of(x) == mc.class_of(x));
                    }
                }
                ii = ii + 1;
            }
            proof {
                assert(insts@.take(ni as int) =~= insts@);
                let t = bbs@.take(bi as int);
                assert(bbs@.take(bi + 1) =~= t.push(b));
                assert forall|x: int| 0 <= x < m0.nv() implies (#[trigger] t.push(b).contains(x as usize) <==> (t.contains(x as usize) || x == b)) by {
                    if t.push(b).contains(x as usize) {
                        let k = choose|k: int| 0 <= k < t.push(b).len() && t.push(b)[k] == x as usize;
                        if k < t.len() {
                            assert(t[k] == x as usize);
                        }
                    }
                    if t.contains(x as usize) {
                        let k = choose|k: int| 0 <= k < t.len() && t[k] == x as usize;
                        assert(t.push(b)[k] == x as usize);
                    }
                    if x == b {
                        assert(t.push(b)[t.len() as int] == b);
                    }
                }
                assert forall|x: int| 0 <= x < m0.nv() implies (#[trigger] in_blocks(m0, t.push(b), x) <==> (in_blocks(m0, t, x) || insts@.contains(x as usize))) by {
                    if in_blocks(m0, t.push(b), x) {
                        let k = choose|k: int| 0 <= k < t.push(b).len() && #[trigger] m0.bb_insts(t.push(b)[k] as int).contains(x as usize);
                        if k < t.len() {
                            assert(t.push(b)[k] == t[k]);
                            assert(m0.bb_insts(t[k] as int).contains(x as usize));
                        }
                    }
                    if in_blocks(m0, t, x) {
                        let k = choose|k: int| 0 <= k < t.len() && #[trigger] m0.bb_insts(t[k] as int).contains(x as usize);
                        assert(t.push(b)[k] == t[k]);
                        assert(m0.bb_insts(t.push(b)[k] as int).contains(x as usize));
                    }
                    if insts@.contains(x as usize) {
                        assert(t.push(b)[t.len() as int] == b);
                        assert(m0.bb_insts(t.push(b)[t.len() as int] as int).contains(x as usize));
                    }
                }
            }
            bi = bi + 1;
        }
        assert(bbs@.take(nb as int) =~= bbs@);
    }
}

/// Value `x` belongs to a function among the first `k` of the module's
/// list whose values get named (all of them with `with_decls`, else those
/// with blocks).
pub open spec fn named_in_module(m: Module, x: int, k: int, with_decls: bool) -> bool {
    exists|j: int|
        0 <= j < k && (with_decls || m.func_bbs(m.func_list@[j] as int).len() > 0) && #[trigger] in_func_scope(
            m,
            m.func_list@[j] as int,
            x,
        )
}

/// The name of `x` after the functions of the module have been named.
pub open spec fn module_auto_name(m: Module, x: int, with_decls: bool) -> Seq<char> {
    if named_in_module(m, x, m.func_list@.len() as int, with_decls) && m.values@[x].name@.len() == 0 {
        name_prefix(m.class_of(x)) + decimal((x + 1) as nat)
    } else {
        m.values@[x].name@
    }
}

/// Membership in a function's scope reads only classes, which a renaming
/// keeps.
pub proof fn lemma_scope_same_classes(m1: Module, m0: Module, f: int, x: int)
    requires
        m0.wf(),
        m1.frame_except_names(m0),
        0 <= f < m0.nv(),
    ensures
        in_func_scope(m1, f, x) == in_func_scope(m0, f, x),
{
    assert(m1.values@[f].class == m0.values@[f].class);
    assert(crate::ir::module::value_below(m0.values@[f], m0.nt(), m0.nv()));
    let bbs = m0.func_bbs(f);
    assert(m1.func_bbs(f) == bbs);
    assert forall|k: int| 0 <= k < bbs.len() implies #[trigger] m1.bb_insts(bbs[k] as int) == m0.bb_insts(bbs[k] as int) by {
        assert(bbs[k] < m0.nv());
        assert(m1.values@[bbs[k] as int].class == m0.values@[bbs[k] as int].class);
    }
    if in_blocks(m0, bbs, x) {
        let k = choose|k: int| 0 <= k < bbs.len() && #[trigger] m0.bb_insts(bbs[k] as int).contains(x as usize);
        assert(m1.bb_insts(bbs[k] as int).contains(x as usize));
    }
    if in_blocks(m1, bbs, x) {
        let k = choose|k: int| 0 <= k < bbs.len() && #[trigger] m1.bb_insts(bbs[k] as int).contains(x as usize);
        assert(m0.bb_insts(bbs[k] as int).contains(x as usize));
    }
}

/// Naming is idempotent: once the functions of a module are named, naming
/// them again changes no name (so printing a module twice gives the same
/// text).
pub proof fn lemma_naming_idempotent(m1: Module, m0: Module, with_decls: bool)
    requires
        m0.wf(),
        m1.frame_except_names(m0),
        forall|x: int| 0 <= x < m0.nv() ==> #[trigger] m1.values@[x].name@ == module_auto_name(m0, x, with_decls),
    ensures
        forall|x: int| 0 <= x < m1.nv() ==> #[trigger] module_auto_name(m1, x, with_decls) == m1.values@[x].name@,
{
    assert forall|x: int| 0 <= x < m1.nv() implies #[trigger] module_auto_name(m1, x, with_decls) == m1.values@[x].name@ by {
        let n = m0.func_list@.len() as int;
        assert(crate::ir::module::seq_below(m0.func_list@, m0.nv()));
        if named_in_module(m1, x, n, with_decls) {
            let j = choose|j: int|
                0 <= j < n && (with_decls || m1.func_bbs(m1.func_list@[j] as int).len() > 0) && #[trigger] in_func_scope(
                    m1,
                    m1.func_list@[j] as int,
                    x,
                );
            let f = m0.func_list@[j] as int;
            lemma_scope_same_classes(m1, m0, f, x);
            assert(m1.values@[f].class == m0.values@[f].class);
            assert(in_func_scope(m0, f, x));
            assert(named_in_module(m0, x, n, with_decls));
            if m0.values@[x].name@.len() == 0 {
                lemma_decimal_nonempty((x + 1) as nat);
            }
        }
    }
}

impl Module {
    /// Names the unnamed arguments, blocks and instructions of every
    /// function of the module (of those with blocks only, unless
    /// `with_decls`), one function after another.
    pub fn name_functions(&mut self, with_decls: bool)
        requires
            old(self).wf(),
        ensures
            final(self).wf(),
            final(self).frame_except_names(*old(self)),
            forall|x: int|
                0 <= x < old(self).nv() ==> #[trigger] final(self).values@[x].name@ == module_auto_name(
                    *old(self),
                    x,
                    with_decls,
                ),
    {
        let ghost m0 = *self;
        let nvals = self.values.len();
        let n = self.func_list.len();
        let mut j: usize = 0;
        while j < n
            invariant
                self.wf(),
                m0.wf(),
                nvals == m0.nv(),
                n == m0.func_list@.len(),
                self.frame_except_names(m0),
                0 <= j <= n,
                forall|x: int|
                    0 <= x < m0.nv() ==> #[trigger] self.values@[x].name@ == (if named_in_module(m0, x, j as int, with_decls)
                        && m0.values@[x].name@.len() == 0 {
                        name_prefix(m0.class_of(x)) + decimal((x + 1) as nat)
                    } else {
                        m0.values@[x].name@
                    }),
            decreases n - j,
        {
            let f = self.func_list[j];
            let ghost mb = *self;
            proof {
                assert(self.func_list@[j as int] == m0.func_list@[j as int]);
                assert(seq_below(self.func_list@, self.nv()));
                assert(self.class_of(self.func_list@[j as int] as int) is Function);
            }
            let fp = FunctionPtr(f);
            if with_decls || fp.get_num_bbs(self) > 0 {
                fp.set_inst_name(self);
            }
            proof {
                let ma = *self;
                assert forall|x: int| 0 <= x < m0.nv() implies #[trigger] ma.values@[x].name@ == (if named_in_module(
                    m0,
                    x,
                    j + 1,
                    with_decls,
                ) && m0.values@[x].name@.len() == 0 {
                    name_prefix(m0.class_of(x)) + decimal((x + 1) as nat)
                } else {
                    m0.values@[x].name@
                }) by {
                    assert(mb.values@[x].class == m0.values@[x].class);
                    assert(mb.func_args(f as int) == m0.func_args(f as int));
                    assert(mb.func_bbs(f as int) == m0.func_bbs(f as int));
                    assert forall|k: int| 0 <= k < m0.func_bbs(f as int).len() implies #[trigger] mb.bb_insts(
                        m0.func_bbs(f as int)[k] as int,
                    ) == m0.bb_insts(m0.func_bbs(f as int)[k] as int) by {
                        let bk = m0.func_bbs(f as int)[k] as int;
                        assert(crate::ir::module::value_below(m0.values@[f as int], m0.nt(), m0.nv()));
                        assert(mb.values@[bk].class == m0.values@[bk].class);
                    }
                    assert(in_func_scope(mb, f as int, x) == in_func_scope(m0, f as int, x)) by {
                        if in_blocks(m0, m0.func_bbs(f as int), x) {
                            let k = choose|k: int| 0 <= k < m0.func_bbs(f as int).len() && #[trigger] m0.bb_insts(
                                m0.func_bbs(f as int)[k] as int,
                            ).contains(x as usize);
                            assert(mb.bb_insts(mb.func_bbs(f as int)[k] as int).contains(x as usize));
                        }
                        if in_blocks(mb, mb.func_bbs(f as int), x) {
                            let k = choose|k: int| 0 <= k < mb.func_bbs(f as int).len() && #[trigger] mb.bb_insts(
                                mb.func_bbs(f as int)[k] as int,
                            ).contains(x as usize);
                            assert(m0.bb_insts(m0.func_bbs(f as int)[k] as int).contains(x as usize));
                        }
                    }
                    let sel = with_decls || m0.func_bbs(f as int).len() > 0;
                    let scoped = sel && in_func_scope(m0, f as int, x);
                    assert(named_in_module(m0, x, j + 1, with_decls) == (named_in_module(m0, x, j as int, with_decls)
                        || scoped)) by {
                        if scoped {
                            assert(in_func_scope(m0, m0.func_list@[j as int] as int, x));
                        }
                        if named_in_module(m0, x, j + 1, with_decls) && !named_in_module(m0, x, j as int, with_decls) {
                            let jj = choose|jj: int|
                                0 <= jj < j + 1 && (with_decls || m0.func_bbs(m0.func_list@[jj] as int).len() > 0)
                                    && #[trigger] in_func_scope(m0, m0.func_list@[jj] as int, x);
                            assert(jj == j);
                        }
                    }
                    if named_in_module(m0, x, j as int, with_decls) && m0.values@[x].name@.len() == 0 {
                        lemma_decimal_nonempty((x + 1) as nat);
                    }
                }
            }
            j = j + 1;
        }
    }
}

} // verus!
