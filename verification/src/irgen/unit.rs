//! The generator as a whole: a new one with the runtime library declared,
//! a compilation unit, and the module it built.

use vstd::prelude::*;
use crate::ast::{CompUnit, Decl, GlobalItem};
use crate::ir::func_impl::{func_param_tys, func_ret_ty};
use crate::ir::inst_builder::InstBuilder;
use crate::ir::module::{Module, FLOAT_TY, INT_TY, VOID_TY};
use crate::ir::value::{FunctionPtr, ValuePtr};
use crate::irgen::decl::{bound, lemma_grew_refl, lemma_grew_trans, only_innermost_grew, var_def_name};
use crate::irgen::func::lemma_signature_kept;
use crate::irgen::number::FloatArith;
use crate::irgen::scope::Scope;
use crate::irgen::visit::{grows, lemma_grows_refl, lemma_grows_trans, Context, GenError, IRGenerator};
use crate::ir::func_impl::module_auto_name;
use crate::ir::ir_printer::{module_text, print_module, printable_module};
use crate::ir::printable::module_printable;
use crate::strutil::string_of;

verus! {

/// The names of the runtime library's functions, in order of declaration.
pub open spec fn runtime_name(k: int) -> Seq<char> {
    if k == 0 {
        "input"@
    } else if k == 1 {
        "output"@
    } else if k == 2 {
        "outputFloat"@
    } else {
        "neg_idx_except"@
    }
}

/// The return type of the `k`-th runtime function.
pub open spec fn runtime_ret(k: int) -> usize {
    if k == 0 {
        INT_TY
    } else {
        VOID_TY
    }
}

/// The parameter types of the `k`-th runtime function.
pub open spec fn runtime_params(k: int) -> Seq<usize> {
    if k == 1 {
        seq![INT_TY]
    } else if k == 2 {
        seq![FLOAT_TY]
    } else {
        Seq::empty()
    }
}

/// Function `f` of `m` has the signature of the `k`-th runtime function.
pub open spec fn runtime_sig(m: Module, f: usize, k: int) -> bool {
    &&& f < m.nv()
    &&& m.class_of(f as int) is Function
    &&& func_ret_ty(m, f as int) == runtime_ret(k)
    &&& func_param_tys(m, f as int) == runtime_params(k)
}

/// The names an item of a compilation unit declares are bound in `level`.
pub open spec fn item_bound(item: GlobalItem, level: Map<Seq<char>, ValuePtr>) -> bool {
    match item {
        GlobalItem::Decl(Decl::ConstDecl(c)) => forall|k: int|
            0 <= k < c.const_defs@.len() ==> level.contains_key(#[trigger] c.const_defs@[k].ident@),
        GlobalItem::Decl(Decl::VarDecl(v)) => forall|k: int|
            0 <= k < v.var_defs@.len() ==> level.contains_key(var_def_name(#[trigger] v.var_defs@[k])),
        GlobalItem::FuncDef(f) => level.contains_key(f.ident@),
    }
}

pub proof fn lemma_item_bound_grows(item: GlobalItem, l1: Map<Seq<char>, ValuePtr>, l0: Map<Seq<char>, ValuePtr>)
    requires
        item_bound(item, l0),
        forall|name: Seq<char>| #[trigger] l0.contains_key(name) ==> l1.contains_key(name),
    ensures
        item_bound(item, l1),
{
    match item {
        GlobalItem::Decl(Decl::ConstDecl(c)) => {
            assert forall|k: int| 0 <= k < c.const_defs@.len() implies l1.contains_key(
                #[trigger] c.const_defs@[k].ident@,
            ) by {
                assert(l0.contains_key(c.const_defs@[k].ident@));
            }
        },
        GlobalItem::Decl(Decl::VarDecl(v)) => {
            assert forall|k: int| 0 <= k < v.var_defs@.len() implies l1.contains_key(
                var_def_name(#[trigger] v.var_defs@[k]),
            ) by {
                assert(l0.contains_key(var_def_name(v.var_defs@[k])));
            }
        },
        GlobalItem::FuncDef(f) => {},
    }
}

impl IRGenerator {
    /// The module's functions are the runtime library's, in order, each
    /// bound to its name in the outermost scope level.
    pub open spec fn runtime_declared(&self) -> bool {
        &&& self.m.func_list@.len() == 4
        &&& forall|k: int|
            0 <= k < 4 ==> runtime_sig(self.m, #[trigger] self.m.func_list@[k], k) && self.scope.levels()[0].contains_key(
                runtime_name(k),
            ) && self.scope.levels()[0][runtime_name(k)].0 == self.m.func_list@[k]
    }

    /// Declares runtime function `name` of return type `ret` and parameter
    /// types `params`.
    fn declare_runtime(&mut self, name: &str, ret: usize, params: Vec<usize>) -> (f: FunctionPtr)
        requires
            old(self).inv(),
            ret < old(self).m.nt(),
            forall|k: int| 0 <= k < params@.len() ==> #[trigger] params@[k] < old(self).m.nt(),
        ensures
            final(self).declared(*old(self)),
            f.0 == old(self).m.nv(),
            final(self).m.class_of(f.0 as int) is Function,
            f.0 < final(self).m.nv(),
            func_ret_ty(final(self).m, f.0 as int) == ret,
            func_param_tys(final(self).m, f.0 as int) == params@,
            final(self).m.func_list@ == old(self).m.func_list@.push(f.0),
            final(self).scope.levels() == bound(old(self).scope.levels(), name@, ValuePtr(f.0)),
            final(self).m.func_bbs(f.0 as int).len() == 0,
            final(self).m.gv_list@ == old(self).m.gv_list@,
            final(self).m.values@[f.0 as int].name@ == name@,
            forall|w: int| 0 <= w < old(self).m.nv() ==> #[trigger] final(self).m.values@[w] == old(self).m.values@[w],
    {
        let n = string_of(name);
        self.declare_function(&n, ret, &params)
    }

    /// Declares the runtime library: `int input()`, `void output(int)`,
    /// `void outputFloat(float)` and `void neg_idx_except()`, each bound to
    /// its name in the innermost scope level.
    #[verifier::rlimit(40)]
    fn register_runtime_functions(&mut self)
        requires
            old(self).inv(),
            old(self).scope.levels().len() == 1,
            old(self).scope.levels()[0] == Map::<Seq<char>, ValuePtr>::empty(),
            old(self).m.func_list@.len() == 0,
        ensures
            final(self).declared(*old(self)),
            final(self).runtime_declared(),
            final(self).m.gv_list@ == old(self).m.gv_list@,
            forall|k: int|
                0 <= k < 4 ==> final(self).m.values@[#[trigger] final(self).m.func_list@[k] as int].name@ == runtime_name(k)
                    && final(self).m.func_bbs(final(self).m.func_list@[k] as int).len() == 0,
    {
        let ghost s0 = *self;
        proof {
            reveal_strlit("input");
            reveal_strlit("output");
            reveal_strlit("outputFloat");
            reveal_strlit("neg_idx_except");
            lemma_grows_refl(self.m);
            lemma_grew_refl(self.scope.levels());
        }
        let int_ty = self.m.get_int_ty();
        let float_ty = self.m.get_float_ty();
        let void_ty = self.m.get_void_ty();
        let f0 = self.declare_runtime("input", int_ty, Vec::new());
        let ghost s1 = *self;
        let p1 = vec![int_ty];
        assert(p1@ =~= seq![INT_TY]);
        let f1 = self.declare_runtime("output", void_ty, p1);
        let ghost s2 = *self;
        let p2 = vec![float_ty];
        assert(p2@ =~= seq![FLOAT_TY]);
        let f2 = self.declare_runtime("outputFloat", void_ty, p2);
        let ghost s3 = *self;
        let f3 = self.declare_runtime("neg_idx_except", void_ty, Vec::new());
        proof {
            lemma_grows_trans(s2.m, s1.m, s0.m);
            lemma_grows_trans(s3.m, s2.m, s0.m);
            lemma_grows_trans(self.m, s3.m, s0.m);
            lemma_grew_trans(s2.scope.levels(), s1.scope.levels(), s0.scope.levels());
            lemma_grew_trans(s3.scope.levels(), s2.scope.levels(), s0.scope.levels());
            lemma_grew_trans(self.scope.levels(), s3.scope.levels(), s0.scope.levels());
            lemma_grows_trans(self.m, s3.m, s1.m);
            lemma_grows_trans(self.m, s3.m, s2.m);
            lemma_signature_kept(self.m, s1.m, f0.0 as int);
            lemma_signature_kept(self.m, s2.m, f1.0 as int);
            lemma_signature_kept(self.m, s3.m, f2.0 as int);
            lemma_value_kept_fn(self.m, s1.m, f0.0 as int);
            lemma_value_kept_fn(self.m, s2.m, f1.0 as int);
            lemma_value_kept_fn(self.m, s3.m, f2.0 as int);
            assert(self.m.func_list@ == seq![f0.0, f1.0, f2.0, f3.0]);
            assert(self.m.values@[f0.0 as int] == s1.m.values@[f0.0 as int]);
            assert(self.m.values@[f1.0 as int] == s2.m.values@[f1.0 as int]);
            assert(self.m.values@[f2.0 as int] == s3.m.values@[f2.0 as int]);
            assert(runtime_params(1) == seq![INT_TY]);
            assert(runtime_params(2) == seq![FLOAT_TY]);
            assert(runtime_params(0) =~= Seq::<usize>::empty());
            assert(runtime_params(3) =~= Seq::<usize>::empty());
            assert(runtime_name(0).len() == 5);
            assert(runtime_name(1).len() == 6);
            assert(runtime_name(2).len() == 11);
            assert(runtime_name(3).len() == 14);
            assert(runtime_name(0) != runtime_name(1));
            assert(runtime_name(0) != runtime_name(2));
            assert(runtime_name(0) != runtime_name(3));
            assert(runtime_name(1) != runtime_name(2));
            assert(runtime_name(1) != runtime_name(3));
            assert(runtime_name(2) != runtime_name(3));
            let e = Map::<Seq<char>, ValuePtr>::empty();
            assert(s0.scope.levels().last() == e);
            assert(s1.scope.levels().len() == 1);
            assert(s1.scope.levels()[0] == e.insert(runtime_name(0), ValuePtr(f0.0)));
            assert(s2.scope.levels()[0] == e.insert(runtime_name(0), ValuePtr(f0.0)).insert(runtime_name(1), ValuePtr(f1.0)));
            assert(s3.scope.levels()[0] == e.insert(runtime_name(0), ValuePtr(f0.0)).insert(runtime_name(1), ValuePtr(f1.0)).insert(runtime_name(2), ValuePtr(f2.0)));
            let l = self.scope.levels()[0];
            assert(l == e.insert(runtime_name(0), ValuePtr(f0.0)).insert(runtime_name(1), ValuePtr(f1.0)).insert(runtime_name(2), ValuePtr(f2.0)).insert(runtime_name(3), ValuePtr(f3.0)));
            assert(l[runtime_name(0)].0 == f0.0);
            assert(l[runtime_name(1)].0 == f1.0);
            assert(l[runtime_name(2)].0 == f2.0);
            assert(l[runtime_name(3)].0 == f3.0);
            assert(runtime_sig(self.m, f0.0, 0));
            assert(runtime_sig(self.m, f1.0, 1));
            assert(runtime_sig(self.m, f2.0, 2));
            assert(runtime_sig(self.m, f3.0, 3));
        }
    }

    /// A new generator: an empty module holding the runtime library's
    /// declarations, one scope level binding their names, no current
    /// function and no insertion point.
    pub fn new() -> (r: Self)
        ensures
            r.inv(),
            !r.context.is_const,
            r.context.curr_func is None,
            r.buidler.bb is None,
            r.scope.levels().len() == 1,
            r.runtime_declared(),
            r.loops@.len() == 0,
            r.m.gv_list@.len() == 0,
            forall|k: int|
                0 <= k < 4 ==> r.m.values@[#[trigger] r.m.func_list@[k] as int].name@ == runtime_name(k)
                    && r.m.func_bbs(r.m.func_list@[k] as int).len() == 0,
    {
        let mut g = IRGenerator {
            context: Context::new(),
            scope: Scope::new(),
            buidler: InstBuilder::new(),
            m: Module::new(),
            loops: Vec::new(),
        };
        g.register_runtime_functions();
        g
    }

    /// The module built so far.
    pub fn get_module(&self) -> (r: &Module)
        ensures
            *r == self.m,
    {
        &self.m
    }

    /// A compilation unit: each item in order, declarations and functions
    /// alike in the innermost scope level.
    pub fn visit<A: FloatArith>(&mut self, ast: &CompUnit) -> (res: Result<(), GenError>)
        requires
            old(self).inv(),
            !old(self).context.is_const,
        ensures
            final(self).inv(),
            grows(final(self).m, old(self).m),
            !final(self).context.is_const,
            res is Ok ==> only_innermost_grew(final(self).scope.levels(), old(self).scope.levels()),
            res is Ok ==> forall|k: int|
                0 <= k < ast.items@.len() ==> item_bound(#[trigger] ast.items@[k], final(self).scope.levels().last()),
    {
        let ghost s0 = *self;
        proof {
            lemma_grows_refl(self.m);
            lemma_grew_refl(self.scope.levels());
        }
        let n = ast.items.len();
        let mut k: usize = 0;
        while k < n
            invariant
                self.inv(),
                grows(self.m, s0.m),
                !self.context.is_const,
                s0 == *old(self),
                only_innermost_grew(self.scope.levels(), s0.scope.levels()),
                n == ast.items@.len(),
                0 <= k <= n,
                forall|j: int| 0 <= j < k ==> item_bound(#[trigger] ast.items@[j], self.scope.levels().last()),
            decreases n - k,
        {
            let ghost sk = *self;
            match &ast.items[k] {
                GlobalItem::Decl(Decl::ConstDecl(c)) => self.visit_const_decl::<A>(c)?,
                GlobalItem::Decl(Decl::VarDecl(v)) => self.visit_global_var_decl::<A>(v)?,
                GlobalItem::FuncDef(f) => self.visit_func_def::<A>(f)?,
            }
            proof {
                lemma_grows_trans(self.m, sk.m, s0.m);
                lemma_grew_trans(self.scope.levels(), sk.scope.levels(), s0.scope.levels());
                assert forall|j: int| 0 <= j < k + 1 implies item_bound(
                    #[trigger] ast.items@[j],
                    self.scope.levels().last(),
                ) by {
                    if j < k {
                        assert(item_bound(ast.items@[j], sk.scope.levels().last()));
                        lemma_item_bound_grows(ast.items@[j], self.scope.levels().last(), sk.scope.levels().last());
                    }
                }
            }
            k = k + 1;
        }
        Ok(())
    }

    /// The module as text, with every unnamed value of a defined function
    /// named first (as `print_module` does); `None` when some instruction
    /// lacks the operands its text needs, which never happens to a module
    /// the generator built.
    pub fn dump_to_string(&mut self) -> (r: Option<String>)
        requires
            old(self).m.wf(),
        ensures
            final(self).m.wf(),
            final(self).same_place(*old(self)),
            r is Some <==> printable_module(old(self).m),
            old(self).inv() ==> r is Some,
            r is None ==> final(self).m == old(self).m,
            r matches Some(s) ==> {
                &&& final(self).m.frame_except_names(old(self).m)
                &&& forall|x: int|
                    0 <= x < old(self).m.nv() ==> #[trigger] final(self).m.values@[x].name@ == module_auto_name(
                        old(self).m,
                        x,
                        false,
                    )
                &&& s@ == module_text(final(self).m)
            },
    {
        if !module_printable(&self.m) {
            return None;
        }
        Some(print_module(&mut self.m))
    }
}

/// A function of `m0` is still one in `m1`.
pub proof fn lemma_value_kept_fn(m1: Module, m0: Module, f: int)
    requires
        grows(m1, m0),
        0 <= f < m0.nv(),
        m0.class_of(f) is Function,
    ensures
        m1.class_of(f) is Function,
        f < m1.nv(),
{
    assert(crate::ir::module::same_class_kind(m1.class_of(f), m0.class_of(f)));
}

} // verus!
