//! Function definitions: the function and its entry block, a stack slot
//! per parameter, the body, and a default return where the body does not
//! end with one.

use vstd::prelude::*;
use crate::ast::{FuncDef, FuncFParam, FuncType};
use crate::ir::func_impl::{func_param_tys, func_ret_ty};
use crate::ir::inst_impl::insts_of;
use crate::ir::module::{Module, FLOAT_TY, INT_TY, VOID_TY};
use crate::ir::type_::ptr_elem_spec;
use crate::ir::user::{ConstantClass, OpID};
use crate::ir::value::ValueClass;
use crate::ir::value::{BasicBlockPtr, FunctionPtr, InstPtr, ValuePtr};
use crate::irgen::cond::lemma_grows_new_block;
use crate::irgen::decl::{arr_shape, lemma_arr_shape_values, btype_ty, dims_exact, dims_refused, lemma_arr_shape_grow, lemma_grew_refl, lemma_grew_trans, lemma_value_kept, only_innermost_grew};
use crate::irgen::number::FloatArith;
use crate::irgen::stmt::{lemma_scope_below_drop, lemma_scope_below_push};
use crate::irgen::visit::{fold_add, lemma_fold_add_values, grows, lemma_grows_frame, lemma_grows_inst, lemma_grows_refl, lemma_grows_trans, lemma_inv_grows, GenError, IRGenerator};
use crate::strutil::string_of;

verus! {

/// The return type index of a function's declared type.
pub open spec fn func_type_ty(t: FuncType) -> usize {
    match t {
        FuncType::Int => INT_TY,
        FuncType::Float => FLOAT_TY,
        FuncType::Void => VOID_TY,
    }
}

/// `t` is a type a parameter can have: `i32`, `float` or a pointer.
pub open spec fn param_ty_ok(m: Module, t: usize) -> bool {
    &&& t < m.nt()
    &&& m.tdata_of(t as int) is IntegerType || m.tdata_of(t as int) is FloatType || m.tdata_of(t as int) is PointerType
}

/// The parameters a definition declares.
pub open spec fn params_of(fd: FuncDef) -> Seq<FuncFParam> {
    match fd.func_f_params {
        Some(ps) => ps.items@,
        None => Seq::empty(),
    }
}

/// Type `t` of `m` is the type parameter `p` declares: its base type, or a
/// pointer where it has dimensions.
pub open spec fn param_ty_matches(m: Module, t: usize, p: FuncFParam) -> bool {
    &&& p.dims is None ==> t == btype_ty(p.btype)
    &&& p.dims is Some ==> m.tdata_of(t as int) is PointerType
}

/// Every dimension parameter `p` declares folds exactly.
pub open spec fn param_exact(p: FuncFParam, m: Module, levels: Seq<Map<Seq<char>, ValuePtr>>) -> bool {
    p.dims matches Some(d) ==> dims_exact(d@, m, levels)
}

/// Some dimension parameter `p` declares is refused by folding.
pub open spec fn param_refused(p: FuncFParam, m: Module, levels: Seq<Map<Seq<char>, ValuePtr>>) -> bool {
    p.dims matches Some(d) && dims_refused(d@, m, levels)
}

/// Type `t` of `m` is the exact type parameter `p` declares: its base
/// type, or a pointer to the array of its further dimensions as they fold
/// in `m0` under `levels`.
pub open spec fn param_shape(
    m: Module,
    t: usize,
    p: FuncFParam,
    m0: Module,
    levels: Seq<Map<Seq<char>, ValuePtr>>,
) -> bool {
    match p.dims {
        None => t == btype_ty(p.btype),
        Some(d) => t < m.nt() && (ptr_elem_spec(m.tdata_of(t as int)) matches Some(e) && arr_shape(
            m,
            e,
            btype_ty(p.btype),
            d@,
            m0,
            levels,
        )),
    }
}

/// A parameter's shape stays when the module's types only grow.
pub proof fn lemma_param_shape_grow(
    m1: Module,
    m: Module,
    t: usize,
    p: FuncFParam,
    m0: Module,
    levels: Seq<Map<Seq<char>, ValuePtr>>,
)
    requires
        param_shape(m, t, p, m0, levels),
        m.types@.is_prefix_of(m1.types@),
    ensures
        param_shape(m1, t, p, m0, levels),
{
    if let Some(d) = p.dims {
        assert(m1.types@[t as int] == m.types@[t as int]);
        let e = ptr_elem_spec(m.tdata_of(t as int))->0;
        lemma_arr_shape_grow(m1, m, e, btype_ty(p.btype), d@, m0, levels);
    }
}

/// A function of `m0` keeps its signature in `m1`.
pub proof fn lemma_signature_kept(m1: Module, m0: Module, f: int)
    requires
        grows(m1, m0),
        m0.wf(),
        0 <= f < m0.nv(),
    ensures
        func_ret_ty(m1, f) == func_ret_ty(m0, f),
        func_param_tys(m1, f) == func_param_tys(m0, f),
{
    lemma_value_kept(m1, m0, f);
}

impl IRGenerator {
    /// The type of a parameter: the base type, a pointer to it (`a[]`), or
    /// a pointer to the array of the further dimensions (`a[][n]...`).
    pub(crate) fn get_param_type<A: FloatArith>(&mut self, p: &FuncFParam) -> (res: Result<usize, GenError>)
        requires
            old(self).inv(),
        ensures
            final(self).stepped(*old(self)),
            final(self).m.values@ == old(self).m.values@,
            final(self).scope == old(self).scope,
            res matches Ok(t) ==> t < final(self).m.nt(),
            res matches Ok(t) ==> (p.dims is None ==> t == btype_ty(p.btype)),
            res matches Ok(t) ==> (p.dims is Some ==> final(self).m.tdata_of(t as int) is PointerType),
            res matches Ok(t) ==> (p.dims matches Some(d) && d@.len() == 0 ==> ptr_elem_spec(
                final(self).m.tdata_of(t as int),
            ) == Some(btype_ty(p.btype))),
            param_exact(*p, old(self).m, old(self).scope.levels()) ==> (res matches Ok(t) && param_shape(
                final(self).m,
                t,
                *p,
                old(self).m,
                old(self).scope.levels(),
            )),
            param_refused(*p, old(self).m, old(self).scope.levels()) ==> res is Err,
    {
        let ghost m0 = self.m;
        proof {
            lemma_grows_refl(self.m);
        }
        let base = self.base_type(&p.btype);
        match &p.dims {
            None => Ok(base),
            Some(dims) => {
                let inner = if dims.len() == 0 {
                    base
                } else {
                    self.array_type::<A>(base, dims)?
                };
                let ghost m1 = self.m;
                let t = self.m.get_ptr_ty(inner);
                proof {
                    lemma_grows_frame(self.m, m1);
                    lemma_inv_grows(self.m, m1, self.scope, self.context, self.buidler);
                    lemma_grows_trans(self.m, m1, m0);
                    if dims_exact(dims@, m0, self.scope.levels()) {
                        if dims@.len() > 0 {
                            lemma_arr_shape_grow(self.m, m1, inner, base, dims@, m0, self.scope.levels());
                        }
                    }
                }
                Ok(t)
            },
        }
    }

    /// The parameter types and names of a definition, in order.
    fn param_types<A: FloatArith>(&mut self, func_def: &FuncDef) -> (res: Result<(Vec<usize>, Vec<String>), GenError>)
        requires
            old(self).inv(),
        ensures
            final(self).stepped(*old(self)),
            res matches Ok((tys, names)) ==> {
                &&& tys@.len() == names@.len()
                &&& tys@.len() == params_of(*func_def).len()
                &&& forall|k: int| 0 <= k < tys@.len() ==> param_ty_ok(final(self).m, #[trigger] tys@[k])
                &&& forall|k: int|
                    0 <= k < tys@.len() ==> param_ty_matches(final(self).m, #[trigger] tys@[k], params_of(*func_def)[k])
                &&& forall|k: int| 0 <= k < names@.len() ==> #[trigger] names@[k]@ == params_of(*func_def)[k].ident@
                &&& forall|k: int|
                    0 <= k < tys@.len() && param_exact(params_of(*func_def)[k], old(self).m, old(self).scope.levels())
                        ==> param_shape(final(self).m, #[trigger] tys@[k], params_of(*func_def)[k], old(self).m, old(self).scope.levels())
            },
            final(self).m.values@ == old(self).m.values@,
            final(self).scope == old(self).scope,
            (forall|k: int|
                0 <= k < params_of(*func_def).len() ==> param_exact(
                    #[trigger] params_of(*func_def)[k],
                    old(self).m,
                    old(self).scope.levels(),
                )) ==> res is Ok,
            (exists|k: int|
                0 <= k < params_of(*func_def).len() && param_refused(
                    #[trigger] params_of(*func_def)[k],
                    old(self).m,
                    old(self).scope.levels(),
                )) ==> res is Err,
    {
        let ghost levels = self.scope.levels();
        let ghost m0 = self.m;
        proof {
            lemma_grows_refl(self.m);
        }
        let mut tys: Vec<usize> = Vec::new();
        let mut names: Vec<String> = Vec::new();
        match &func_def.func_f_params {
            None => {},
            Some(ps) => {
                let n = ps.items.len();
                let mut k: usize = 0;
                while k < n
                    invariant
                        self.stepped(*old(self)),
                        m0 == old(self).m,
                        n == ps.items@.len(),
                        0 <= k <= n,
                        tys@.len() == k,
                        names@.len() == k,
                        forall|j: int| 0 <= j < tys@.len() ==> param_ty_ok(self.m, #[trigger] tys@[j]),
                        forall|j: int| 0 <= j < tys@.len() ==> param_ty_matches(self.m, #[trigger] tys@[j], ps.items@[j]),
                        params_of(*func_def) == ps.items@,
                        levels == old(self).scope.levels(),
                        self.scope == old(self).scope,
                        self.m.values@ == m0.values@,
                        forall|j: int| 0 <= j < names@.len() ==> #[trigger] names@[j]@ == ps.items@[j].ident@,
                        forall|j: int|
                            0 <= j < tys@.len() && param_exact(ps.items@[j], m0, levels) ==> param_shape(
                                self.m,
                                #[trigger] tys@[j],
                                ps.items@[j],
                                m0,
                                levels,
                            ),
                        forall|j: int| 0 <= j < k ==> !param_refused(#[trigger] ps.items@[j], m0, levels),
                    decreases n - k,
                {
                    let ghost mk = self.m;
                    let ghost before = tys@;
                    proof {
                        if let Some(d) = ps.items@[k as int].dims {
                            assert forall|j: int| 0 <= j < d@.len() implies #[trigger] fold_add(d@[j].item, self.m, levels)
                                == fold_add(d@[j].item, m0, levels) by {
                                lemma_fold_add_values(d@[j].item, self.m, m0, levels);
                            }
                        }
                    }
                    let t = self.get_param_type::<A>(&ps.items[k])?;
                    proof {
                        if let Some(d) = ps.items@[k as int].dims {
                            if dims_refused(d@, m0, levels) {
                                let j = choose|j: int| 0 <= j < d@.len() && #[trigger] fold_add(d@[j].item, m0, levels) is Refused;
                                lemma_fold_add_values(d@[j].item, mk, m0, levels);
                                assert(dims_refused(d@, mk, levels));
                            }
                            if dims_exact(d@, m0, levels) {
                                let e = ptr_elem_spec(self.m.tdata_of(t as int))->0;
                                lemma_arr_shape_values(self.m, e, btype_ty(ps.items@[k as int].btype), d@, mk, m0, levels);
                            }
                        }
                        assert forall|j: int|
                            0 <= j < before.len() && param_exact(ps.items@[j], m0, levels) implies param_shape(
                            self.m,
                            #[trigger] before[j],
                            ps.items@[j],
                            m0,
                            levels,
                        ) by {
                            lemma_param_shape_grow(self.m, mk, before[j], ps.items@[j], m0, levels);
                        }
                        lemma_grows_trans(self.m, mk, m0);
                        assert forall|j: int| 0 <= j < before.len() implies #[trigger] self.m.types@[before[j] as int]
                            == mk.types@[before[j] as int] by {
                            assert(mk.types@.is_prefix_of(self.m.types@));
                        }
                        assert(btype_ty(ps.items@[k as int].btype) == INT_TY || btype_ty(ps.items@[k as int].btype)
                            == FLOAT_TY);
                    }
                    tys.push(t);
                    names.push(ps.items[k].ident.clone());
                    proof {
                        assert forall|j: int| 0 <= j < tys@.len() implies param_ty_ok(self.m, #[trigger] tys@[j]) by {
                            if j < before.len() {
                                assert(tys@[j] == before[j]);
                                assert(self.m.types@[before[j] as int] == mk.types@[before[j] as int]);
                            }
                        }
                        assert forall|j: int| 0 <= j < tys@.len() implies param_ty_matches(self.m, #[trigger] tys@[j], ps.items@[j]) by {
                            if j < before.len() {
                                assert(tys@[j] == before[j]);
                                assert(self.m.types@[before[j] as int] == mk.types@[before[j] as int]);
                            }
                        }
                    }
                    k = k + 1;
                }
            },
        }
        Ok((tys, names))
    }
    /// A new function `name` of return type `ret_ty` and parameter types
    /// `tys`, entered in the module's function list and bound in the
    /// innermost scope level.
    pub(crate) fn declare_function(&mut self, name: &String, ret_ty: usize, tys: &Vec<usize>) -> (f: FunctionPtr)
        requires
            old(self).inv(),
            ret_ty < old(self).m.nt(),
            forall|k: int| 0 <= k < tys@.len() ==> #[trigger] tys@[k] < old(self).m.nt(),
        ensures
            final(self).declared(*old(self)),
            f.0 == old(self).m.nv(),
            f.0 < final(self).m.nv(),
            final(self).m.class_of(f.0 as int) is Function,
            final(self).m.values@[f.0 as int].name@ == name@,
            func_ret_ty(final(self).m, f.0 as int) == ret_ty,
            func_param_tys(final(self).m, f.0 as int) == tys@,
            final(self).m.func_args(f.0 as int).len() == tys@.len(),
            forall|j: int|
                0 <= j < tys@.len() ==> #[trigger] final(self).m.func_args(f.0 as int)[j] < final(self).m.nv()
                    && final(self).m.type_of(final(self).m.func_args(f.0 as int)[j] as int) == tys@[j],
            final(self).m.func_list@ == old(self).m.func_list@.push(f.0),
            final(self).scope.levels() == crate::irgen::decl::bound(old(self).scope.levels(), name@, ValuePtr(f.0)),
            final(self).m.func_bbs(f.0 as int).len() == 0,
            final(self).m.gv_list@ == old(self).m.gv_list@,
            forall|w: int| 0 <= w < old(self).m.nv() ==> #[trigger] final(self).m.values@[w] == old(self).m.values@[w],
    {
        let ghost m0 = self.m;
        let args = crate::ir::value_impl::copy_indices(tys);
        let ft = self.m.get_func_ty(ret_ty, args);
        proof {
            lemma_grows_frame(self.m, m0);
        }
        let ghost m1 = self.m;
        let f = FunctionPtr::create(ft, name.clone(), &mut self.m);
        proof {
            assert forall|w: int| m1.nv() <= w < self.m.nv() implies !(#[trigger] self.m.class_of(w) matches ValueClass::Constant(
                ConstantClass::Arr(_),
            )) by {
                if w > f.0 as int {
                    let j = w - m1.nv() - 1;
                    assert(self.m.func_args(f.0 as int)[j] == m1.nv() + 1 + j);
                }
            }
            lemma_grows_frame(self.m, m1);
            lemma_grows_trans(self.m, m1, m0);
            lemma_inv_grows(self.m, m0, self.scope, self.context, self.buidler);
            assert forall|j: int| 0 <= j < tys@.len() implies #[trigger] self.m.func_args(f.0 as int)[j] < self.m.nv()
                && self.m.type_of(self.m.func_args(f.0 as int)[j] as int) == tys@[j] by {
                assert(self.m.func_args(f.0 as int)[j] == m1.nv() + 1 + j);
            }
        }
        self.bind(name, f.to_val());
        f
    }

    /// A stack slot per parameter of `f`, holding the argument, bound to
    /// the parameter's name.
    fn spill_params(&mut self, f: FunctionPtr, tys: &Vec<usize>, names: &Vec<String>) -> (res: Result<(), GenError>)
        requires
            old(self).inv(),
            f.0 < old(self).m.nv(),
            old(self).m.class_of(f.0 as int) is Function,
            old(self).m.func_args(f.0 as int).len() == tys@.len(),
            names@.len() == tys@.len(),
            forall|j: int|
                0 <= j < tys@.len() ==> param_ty_ok(old(self).m, #[trigger] tys@[j]) && old(self).m.func_args(
                    f.0 as int,
                )[j] < old(self).m.nv() && old(self).m.type_of(old(self).m.func_args(f.0 as int)[j] as int) == tys@[j],
        ensures
            final(self).declared(*old(self)),
            res is Ok <==> (tys@.len() == 0 || old(self).can_insert()),
            res is Ok ==> forall|j: int|
                0 <= j < names@.len() ==> final(self).scope.levels().last().contains_key(#[trigger] names@[j]@),
            res is Ok && tys@.len() > 0 ==> final(self).can_insert(),
    {
        let ghost s0 = *self;
        proof {
            lemma_grows_refl(self.m);
            lemma_grew_refl(self.scope.levels());
        }
        let args = f.get_args(&self.m);
        let n = tys.len();
        let mut i: usize = 0;
        while i < n
            invariant
                self.declared(s0),
                s0 == *old(self),
                n == tys@.len(),
                n == names@.len(),
                args@ == s0.m.func_args(f.0 as int),
                args@.len() == n,
                0 <= i <= n,
                forall|j: int| 0 <= j < tys@.len() ==> param_ty_ok(s0.m, #[trigger] tys@[j]) && args@[j] < s0.m.nv(),
                forall|j: int| 0 <= j < tys@.len() ==> s0.m.type_of(#[trigger] args@[j] as int) == tys@[j],
                i == 0 ==> *self == s0,
                i > 0 ==> self.can_insert() && s0.can_insert(),
                forall|j: int| 0 <= j < i ==> self.scope.levels().last().contains_key(#[trigger] names@[j]@),
            decreases n - i,
        {
            let ghost si = *self;
            proof {
                assert(param_ty_ok(s0.m, tys@[i as int]));
                assert(s0.m.types@.is_prefix_of(self.m.types@));
                assert(self.m.types@[tys@[i as int] as int] == s0.m.types@[tys@[i as int] as int]);
            }
            let ptr = self.emit_alloca(tys[i])?;
            let ghost s1 = *self;
            proof {
                lemma_grows_trans(s1.m, si.m, s0.m);
                assert(s1.m.type_of(args@[i as int] as int) == s0.m.type_of(args@[i as int] as int));
                assert(s1.m.type_of(args@[i as int] as int) == tys@[i as int]);
            }
            self.emit_store(ValuePtr(args[i]), ptr)?;
            let ghost s2 = *self;
            self.bind(&names[i], ptr);
            proof {
                assert(s2.can_insert());
                assert forall|j: int| 0 <= j < i + 1 implies self.scope.levels().last().contains_key(#[trigger] names@[j]@) by {
                    if j < i {
                        assert(si.scope.levels().last().contains_key(names@[j]@));
                    }
                }
                lemma_grows_trans(s2.m, s1.m, si.m);
                lemma_grows_trans(self.m, si.m, s0.m);
                lemma_grew_trans(self.scope.levels(), si.scope.levels(), s0.scope.levels());
            }
            i = i + 1;
        }
        Ok(())
    }

    /// Ends the insertion block, unless it ends already, with a return of
    /// nothing, of float `0` or of integer `0`, by the return type.
    fn default_return(&mut self, ret_ty: usize) -> (res: Result<(), GenError>)
        requires
            old(self).inv(),
            ret_ty == INT_TY || ret_ty == FLOAT_TY || ret_ty == VOID_TY,
            old(self).context.curr_func matches Some(f) && func_ret_ty(old(self).m, f.0 as int) == ret_ty,
        ensures
            final(self).stepped(*old(self)),
            res is Ok ==> final(self).at_terminated_block(),
            res is Ok <==> old(self).buidler.bb is Some,
    {
        let ghost m0 = self.m;
        proof {
            lemma_grows_refl(self.m);
        }
        let b = match self.buidler.bb {
            Some(b) => b,
            None => {
                return Err(GenError::NoInsertPoint);
            },
        };
        if b.is_terminated(&self.m) {
            return Ok(());
        }
        let f = self.context.curr_func.unwrap();
        if self.m.ty(ret_ty).is_void() {
            let r = InstPtr::void_ret_inst(&mut self.m, b);
            proof {
                lemma_grows_inst(self.m, m0, r.0, VOID_TY, OpID::Ret, b.0, Seq::empty(), insts_of(m0, b).push(r.0), Seq::empty());
                lemma_inv_grows(self.m, m0, self.scope, self.context, self.buidler);
                assert(self.m.bb_insts(b.0 as int).last() == r.0);
            }
        } else {
            let c = if self.m.ty(ret_ty).is_float() {
                self.const_float(0)
            } else {
                self.const_int(0)
            };
            let ghost m1 = self.m;
            proof {
                lemma_signature_kept(m1, m0, f.0 as int);
            }
            let b2 = self.insert_block()?;
            let r = InstPtr::ret_inst(&mut self.m, c, b2);
            proof {
                lemma_grows_inst(self.m, m1, r.0, VOID_TY, OpID::Ret, b2.0, seq![c.0], insts_of(m1, b2).push(r.0), Seq::empty());
                lemma_inv_grows(self.m, m1, self.scope, self.context, self.buidler);
                lemma_grows_trans(self.m, m1, m0);
                assert(self.m.bb_insts(b2.0 as int).last() == r.0);
            }
        }
        Ok(())
    }
    /// The current function is one created since the module held `n`
    /// values, returning `ret`.
    pub open spec fn in_new_function(&self, n: nat, ret: usize) -> bool {
        self.context.curr_func matches Some(f) && f.0 >= n && self.m.class_of(f.0 as int) is Function
            && func_ret_ty(self.m, f.0 as int) == ret
    }

    /// The current function's parameter types are those `fd` declares.
    pub open spec fn current_params_match(&self, fd: FuncDef) -> bool {
        &&& self.context.curr_func is Some
        &&& func_param_tys(self.m, self.context.curr_func.unwrap().0 as int).len() == params_of(fd).len()
        &&& forall|k: int|
            0 <= k < params_of(fd).len() ==> param_ty_matches(
                self.m,
                #[trigger] func_param_tys(self.m, self.context.curr_func.unwrap().0 as int)[k],
                params_of(fd)[k],
            )
    }

    /// A function definition: the function (bound in the innermost scope
    /// level) with its entry block, which becomes the insertion point; a
    /// new scope level holding a stack slot per parameter; the body; a
    /// default return where the body does not end with one.
    #[verifier::rlimit(40)]
    pub fn visit_func_def<A: FloatArith>(&mut self, func_def: &FuncDef) -> (res: Result<(), GenError>)
        requires
            old(self).inv(),
            !old(self).context.is_const,
        ensures
            final(self).inv(),
            grows(final(self).m, old(self).m),
            !final(self).context.is_const,
            res is Ok ==> only_innermost_grew(final(self).scope.levels(), old(self).scope.levels()),
            res is Ok ==> final(self).scope.levels().last().contains_key(func_def.ident@),
            res is Ok ==> final(self).in_new_function(old(self).m.nv(), func_type_ty(func_def.func_type)),
            res is Ok ==> final(self).current_params_match(*func_def),
            res is Ok ==> final(self).at_terminated_block(),
            (exists|k: int|
                0 <= k < params_of(*func_def).len() && param_refused(
                    #[trigger] params_of(*func_def)[k],
                    old(self).m,
                    old(self).scope.levels(),
                )) ==> res is Err,
    {
        let ghost s0 = *self;
        let ret_ty = match func_def.func_type {
            FuncType::Int => self.m.get_int_ty(),
            FuncType::Float => self.m.get_float_ty(),
            FuncType::Void => self.m.get_void_ty(),
        };
        let (tys, names) = self.param_types::<A>(func_def)?;
        let ghost s1 = *self;
        proof {
            assert forall|k: int| 0 <= k < tys@.len() implies #[trigger] tys@[k] < self.m.nt() by {
                assert(param_ty_ok(self.m, tys@[k]));
            }
        }
        let f = self.declare_function(&func_def.ident, ret_ty, &tys);
        let ghost s2 = *self;
        let entry = BasicBlockPtr::create(&mut self.m, string_of("entry"), f);
        proof {
            lemma_grows_new_block(self.m, s2.m, f.0 as int);
            lemma_inv_grows(self.m, s2.m, self.scope, self.context, self.buidler);
            lemma_grows_trans(self.m, s2.m, s1.m);
            lemma_grows_trans(self.m, s1.m, s0.m);
            lemma_signature_kept(self.m, s2.m, f.0 as int);
            assert forall|j: int| 0 <= j < tys@.len() implies param_ty_ok(self.m, #[trigger] tys@[j]) && self.m.func_args(
                f.0 as int,
            )[j] < self.m.nv() by {
                assert(param_ty_ok(s1.m, tys@[j]));
                assert(s1.m.types@.is_prefix_of(self.m.types@));
                assert(self.m.types@[tys@[j] as int] == s1.m.types@[tys@[j] as int]);
                assert(self.m.type_of(self.m.func_args(f.0 as int)[j] as int) == s2.m.type_of(
                    s2.m.func_args(f.0 as int)[j] as int,
                ));
            }
        }
        self.context.curr_func = Some(f);
        self.buidler.set_insert_point(entry);
        let ghost l1 = self.scope.levels();
        self.scope.enter();
        proof {
            lemma_scope_below_push(l1, self.m.nv());
            assert(self.scope.levels().drop_last() == l1);
            crate::irgen::decl::lemma_bound(s1.scope.levels(), func_def.ident@, ValuePtr(f.0), s2.m.nv());
        }
        let ghost s3 = *self;
        self.spill_params(f, &tys, &names)?;
        self.loops = Vec::new();
        let ghost s4 = *self;
        self.visit_block::<A>(&func_def.block)?;
        let ghost s5 = *self;
        proof {
            lemma_grows_trans(s5.m, s4.m, s3.m);
            lemma_signature_kept(s5.m, s3.m, f.0 as int);
        }
        self.default_return(ret_ty)?;
        proof {
            lemma_grows_trans(self.m, s5.m, s3.m);
            lemma_grows_trans(self.m, s3.m, s0.m);
            lemma_value_kept(self.m, s3.m, f.0 as int);
            lemma_signature_kept(self.m, s3.m, f.0 as int);
            lemma_grew_trans(l1, s1.scope.levels(), s0.scope.levels());
        }
        self.scope.exit();
        proof {
            lemma_scope_below_drop(self.scope.levels().push(Map::empty()), self.m.nv());
            assert(self.scope.levels() == l1);
            assert(func_param_tys(self.m, f.0 as int) == tys@);
            assert(s1.m.types@.is_prefix_of(self.m.types@));
            assert forall|k: int| 0 <= k < params_of(*func_def).len() implies param_ty_matches(
                self.m,
                #[trigger] func_param_tys(self.m, f.0 as int)[k],
                params_of(*func_def)[k],
            ) by {
                assert(param_ty_matches(s1.m, tys@[k], params_of(*func_def)[k]));
                assert(param_ty_ok(s1.m, tys@[k]));
                assert(self.m.types@[tys@[k] as int] == s1.m.types@[tys@[k] as int]);
            }
        }
        Ok(())
    }
}

} // verus!
