//! Declarations: constants (folded, or a stack array), global variables
//! (with constant initialisers) and local variables (stack slots).

use vstd::prelude::*;
use crate::ast::{AddExp, AddOp, Btype, ConstDecl, ConstDef, ConstExp, ConstInitVal, Exp, InitVal, Number, VarDecl, VarDef};
use crate::ir::inst_impl::insts_of;
use crate::ir::module::{Module, FLOAT_TY, INT_TY};
use crate::ir::type_::{ptr_elem_spec, TypeData};
use crate::ir::user::{ConstantClass, OpID};
use crate::ir::value::{ConstantPtr, GVPtr, InstPtr, ValueClass, ValuePtr};
use crate::irgen::number::{as_float, as_int, fold, FloatArith, IntOp};
use crate::irgen::visit::{blocks_kept_but, lookups_kept, lemma_fold_add_exact_kept, add_kind, computed_add, converted_to, lemma_computed_add_grows, lemma_converted_to_grows, lemma_scalar_type_unique, lemma_add_kind_grows, const_folds, fold_add, lemma_fold_add_values, lemma_terminated_kept, Folded, grows, lemma_grows_frame, lemma_grows_inst, lemma_grows_refl, lemma_grows_trans, lemma_inv_grows, scope_below, Calcu, GenError, IRGenerator};
use crate::irgen::scope::lookup;

verus! {

/// `levels` after binding `name` to `v` in the innermost level, unless
/// that level binds it already.
pub open spec fn bound(levels: Seq<Map<Seq<char>, ValuePtr>>, name: Seq<char>, v: ValuePtr) -> Seq<
    Map<Seq<char>, ValuePtr>,
> {
    if levels.last().contains_key(name) {
        levels
    } else {
        levels.update(levels.len() - 1, levels.last().insert(name, v))
    }
}

/// `l1` is `l0` with more bindings in the innermost level only.
pub open spec fn only_innermost_grew(l1: Seq<Map<Seq<char>, ValuePtr>>, l0: Seq<Map<Seq<char>, ValuePtr>>) -> bool {
    &&& l1.len() == l0.len()
    &&& l1.drop_last() == l0.drop_last()
    &&& forall|name: Seq<char>| #[trigger] l0.last().contains_key(name) ==> l1.last().contains_key(name)
            && l1.last()[name] == l0.last()[name]
}

/// The innermost level of `l1` binds nothing beyond that of `l0` but
/// `name`.
pub open spec fn binds_only(l1: Seq<Map<Seq<char>, ValuePtr>>, l0: Seq<Map<Seq<char>, ValuePtr>>, name: Seq<char>) -> bool {
    forall|n: Seq<char>| #[trigger] l1.last().contains_key(n) ==> l0.last().contains_key(n) || n == name
}

/// `v` is a stack slot of `m`.
pub open spec fn is_slot(m: Module, v: ValuePtr) -> bool {
    m.class_of(v.0 as int) is Inst && m.inst_op(v.0 as int) == OpID::Alloca
}

/// Binding `n` in `l1` is the one `l0` had, or a stack slot of `m`.
pub open spec fn slot_or_kept(m: Module, l1: Map<Seq<char>, ValuePtr>, l0: Map<Seq<char>, ValuePtr>, n: Seq<char>) -> bool {
    (l0.contains_key(n) && l1[n] == l0[n]) || is_slot(m, l1[n])
}

/// Binding `n` in `l1` is the one `l0` had, or a global variable of `m`.
pub open spec fn global_or_kept(m: Module, l1: Map<Seq<char>, ValuePtr>, l0: Map<Seq<char>, ValuePtr>, n: Seq<char>) -> bool {
    (l0.contains_key(n) && l1[n] == l0[n]) || m.class_of(l1[n].0 as int) is GlobalVariable
}

/// Binding `n` in `l1` is the one `l0` had, a constant or a stack slot of
/// `m`.
pub open spec fn const_or_kept(m: Module, l1: Map<Seq<char>, ValuePtr>, l0: Map<Seq<char>, ValuePtr>, n: Seq<char>) -> bool {
    (l0.contains_key(n) && l1[n] == l0[n]) || m.class_of(l1[n].0 as int) is Constant || is_slot(m, l1[n])
}

/// The base type index of a declared type.
pub open spec fn btype_ty(b: Btype) -> usize {
    match b {
        Btype::Int => INT_TY,
        Btype::Float => FLOAT_TY,
    }
}

/// The name a variable definition declares.
pub open spec fn var_def_name(d: VarDef) -> Seq<char> {
    match d {
        VarDef::WithInitVal(n, _, _) => n@,
        VarDef::Without(n, _) => n@,
    }
}

/// The dimensions a variable definition declares.
pub open spec fn var_def_dims(d: VarDef) -> Seq<ConstExp> {
    match d {
        VarDef::WithInitVal(_, d, _) => d@,
        VarDef::Without(_, d) => d@,
    }
}

/// Every dimension in `dims` folds to an exact integer.
pub open spec fn dims_exact(dims: Seq<ConstExp>, m: Module, levels: Seq<Map<Seq<char>, ValuePtr>>) -> bool {
    forall|j: int| 0 <= j < dims.len() ==> #[trigger] fold_add(dims[j].item, m, levels) is Exact
}

/// Some dimension in `dims` is refused by folding.
pub open spec fn dims_refused(dims: Seq<ConstExp>, m: Module, levels: Seq<Map<Seq<char>, ValuePtr>>) -> bool {
    exists|j: int| 0 <= j < dims.len() && #[trigger] fold_add(dims[j].item, m, levels) is Refused
}

/// The element count an exactly folded dimension gives.
pub open spec fn dim_count(f: Folded) -> usize {
    match f {
        Folded::Exact(v) => v as usize,
        _ => 0,
    }
}

/// `t` is a type of `m` made of nested array types, one per dimension of
/// `dims` (outermost first), with the counts the dimensions fold to in
/// `m0` under `levels`, around `base`.
pub open spec fn arr_shape(
    m: Module,
    t: usize,
    base: usize,
    dims: Seq<ConstExp>,
    m0: Module,
    levels: Seq<Map<Seq<char>, ValuePtr>>,
) -> bool
    decreases dims.len(),
{
    &&& t < m.nt()
    &&& if dims.len() == 0 {
        t == base
    } else {
        match m.tdata_of(t as int) {
            TypeData::ArrayType(a) => a.elem_count == dim_count(fold_add(dims[0].item, m0, levels)) && arr_shape(
                m,
                a.item,
                base,
                dims.drop_first(),
                m0,
                levels,
            ),
            _ => false,
        }
    }
}

/// The initialiser an optional reference gives.
pub open spec fn opt_init(init: Option<&InitVal>) -> Option<InitVal> {
    match init {
        Some(i) => Some(*i),
        None => None,
    }
}

/// A global's scalar initialiser is refused by folding.
pub open spec fn init_refused(init: Option<InitVal>, m: Module, levels: Seq<Map<Seq<char>, ValuePtr>>) -> bool {
    init matches Some(InitVal::Exp(e)) && fold_add(e.item, m, levels) is Refused
}

/// A global's initialiser is settled without float arithmetic: none, a
/// list (which gives no initial value), or a scalar folding exactly.
pub open spec fn init_settled(init: Option<InitVal>, m: Module, levels: Seq<Map<Seq<char>, ValuePtr>>) -> bool {
    match init {
        Some(InitVal::Exp(e)) => fold_add(e.item, m, levels) is Exact,
        _ => true,
    }
}

/// A variable definition with neither dimensions nor an initialiser.
pub open spec fn plain_def(d: VarDef) -> bool {
    d matches VarDef::Without(_, dims) && dims@.len() == 0
}

/// What a constant's initialiser folds to: a list is refused.
pub open spec fn const_init_fold(init: ConstInitVal, m: Module, levels: Seq<Map<Seq<char>, ValuePtr>>) -> Folded {
    match init {
        ConstInitVal::ConstExp(e) => fold_add(e.item, m, levels),
        ConstInitVal::ConstInitVals(_) => Folded::Refused,
    }
}

/// The initialiser a variable definition gives, if any.
pub open spec fn var_def_init(d: VarDef) -> Option<InitVal> {
    match d {
        VarDef::WithInitVal(_, _, i) => Some(i),
        VarDef::Without(_, _) => None,
    }
}

/// Global `g` of `m` has the initial value `init` gives, folded in `m0`
/// under `levels`, as a constant of the base type `base`: none for no
/// initialiser or a list; for a scalar, an integer constant (the value an
/// exact scalar folds to) for an `i32` global and a float constant for a
/// `float` one (its bits are the host's float arithmetic, left open).
pub open spec fn gv_init_is(
    m: Module,
    g: int,
    init: Option<InitVal>,
    base: usize,
    m0: Module,
    levels: Seq<Map<Seq<char>, ValuePtr>>,
) -> bool {
    match init {
        Some(InitVal::Exp(e)) => m.class_of(g) matches ValueClass::GlobalVariable { init_val: Some(c), .. } && {
            &&& m.type_of(c as int) == base
            &&& base == INT_TY ==> (m.class_of(c as int) matches ValueClass::Constant(ConstantClass::Int(i)) && (fold_add(
                e.item,
                m0,
                levels,
            ) matches Folded::Exact(v) ==> i == v))
            &&& base == FLOAT_TY ==> m.class_of(c as int) matches ValueClass::Constant(ConstantClass::Float(_))
        },
        _ => m.class_of(g) matches ValueClass::GlobalVariable { init_val: None, .. },
    }
}

/// A global definition that is sure to succeed: its dimensions fold
/// exactly and its initialiser settles.
pub open spec fn global_def_sure(d: VarDef, m: Module, levels: Seq<Map<Seq<char>, ValuePtr>>) -> bool {
    dims_exact(var_def_dims(d), m, levels) && init_settled(var_def_init(d), m, levels)
}

/// Global `g` of `m` is what definition `d` of base type `base` makes,
/// folded in `m0` under `levels`: a pointer to the array shape of its
/// dimensions around the base type, with the initial value `gv_init_is`
/// describes.
pub open spec fn global_def_made(
    m: Module,
    g: usize,
    d: VarDef,
    base: usize,
    m0: Module,
    levels: Seq<Map<Seq<char>, ValuePtr>>,
) -> bool {
    &&& g < m.nv()
    &&& gv_init_is(m, g as int, var_def_init(d), base, m0, levels)
    &&& ptr_elem_spec(m.tdata_of(m.type_of(g as int) as int)) matches Some(e) && arr_shape(
        m,
        e,
        base,
        var_def_dims(d),
        m0,
        levels,
    )
}

/// At the outermost level, bindings only added keep every name bound
/// alike.
pub proof fn lemma_outermost_lookups_kept(l1: Seq<Map<Seq<char>, ValuePtr>>, l0: Seq<Map<Seq<char>, ValuePtr>>)
    requires
        only_innermost_grew(l1, l0),
        l0.len() == 1,
    ensures
        lookups_kept(l1, l0),
{
    assert forall|n: Seq<char>| #[trigger] lookup(l0, n) is Some implies lookup(l1, n) == lookup(l0, n) by {
        assert(l0.drop_last().len() == 0);
        assert(l1.drop_last().len() == 0);
        assert(lookup(l0.drop_last(), n) is None);
        assert(l0.last().contains_key(n));
    }
}

/// A shape read against foldings that agree on each dimension is the same.
pub proof fn lemma_arr_shape_folds(
    m: Module,
    t: usize,
    base: usize,
    dims: Seq<ConstExp>,
    ma: Module,
    la: Seq<Map<Seq<char>, ValuePtr>>,
    mb: Module,
    lb: Seq<Map<Seq<char>, ValuePtr>>,
)
    requires
        arr_shape(m, t, base, dims, ma, la),
        forall|j: int| 0 <= j < dims.len() ==> #[trigger] fold_add(dims[j].item, ma, la) == fold_add(dims[j].item, mb, lb),
    ensures
        arr_shape(m, t, base, dims, mb, lb),
    decreases dims.len(),
{
    if dims.len() > 0 {
        assert(fold_add(dims[0].item, ma, la) == fold_add(dims[0].item, mb, lb));
        if let TypeData::ArrayType(a) = m.tdata_of(t as int) {
            assert forall|j: int| 0 <= j < dims.drop_first().len() implies #[trigger] fold_add(
                dims.drop_first()[j].item,
                ma,
                la,
            ) == fold_add(dims.drop_first()[j].item, mb, lb) by {
                assert(dims.drop_first()[j] == dims[j + 1]);
                assert(fold_add(dims[j + 1].item, ma, la) == fold_add(dims[j + 1].item, mb, lb));
            }
            lemma_arr_shape_folds(m, a.item, base, dims.drop_first(), ma, la, mb, lb);
        }
    }
}

/// What a global definition made stays as the module grows.
pub proof fn lemma_global_def_made_grows(
    m1: Module,
    m: Module,
    g: usize,
    d: VarDef,
    base: usize,
    m0: Module,
    levels: Seq<Map<Seq<char>, ValuePtr>>,
)
    requires
        m.wf(),
        grows(m1, m),
        global_def_made(m, g, d, base, m0, levels),
    ensures
        global_def_made(m1, g, d, base, m0, levels),
{
    assert(crate::ir::module::value_below(m.values@[g as int], m.nt(), m.nv()));
    let t = m.type_of(g as int);
    assert(m1.types@[t as int] == m.types@[t as int]);
    let e = ptr_elem_spec(m.tdata_of(t as int))->0;
    lemma_arr_shape_grow(m1, m, e, base, var_def_dims(d), m0, levels);
    if let ValueClass::GlobalVariable { init_val: Some(c), .. } = m.class_of(g as int) {
        assert(m1.class_of(c as int) == m.class_of(c as int));
    }
}

/// A global declaration that is sure to succeed: made at the outermost
/// scope level, with every definition sure to succeed.
pub open spec fn decl_sure(d: VarDecl, m: Module, levels: Seq<Map<Seq<char>, ValuePtr>>) -> bool {
    &&& levels.len() == 1
    &&& forall|k: int| 0 <= k < d.var_defs@.len() ==> global_def_sure(#[trigger] d.var_defs@[k], m, levels)
}

/// A shape read against modules with the same values is the same.
pub proof fn lemma_arr_shape_values(
    m: Module,
    t: usize,
    base: usize,
    dims: Seq<ConstExp>,
    m0: Module,
    m1: Module,
    levels: Seq<Map<Seq<char>, ValuePtr>>,
)
    requires
        arr_shape(m, t, base, dims, m0, levels),
        m1.values@ == m0.values@,
    ensures
        arr_shape(m, t, base, dims, m1, levels),
    decreases dims.len(),
{
    if dims.len() > 0 {
        lemma_fold_add_values(dims[0].item, m1, m0, levels);
        if let TypeData::ArrayType(a) = m.tdata_of(t as int) {
            lemma_arr_shape_values(m, a.item, base, dims.drop_first(), m0, m1, levels);
        }
    }
}

/// A shape stays when the module's types only grow.
pub proof fn lemma_arr_shape_grow(
    m1: Module,
    m: Module,
    t: usize,
    base: usize,
    dims: Seq<ConstExp>,
    m0: Module,
    levels: Seq<Map<Seq<char>, ValuePtr>>,
)
    requires
        arr_shape(m, t, base, dims, m0, levels),
        m.types@.is_prefix_of(m1.types@),
    ensures
        arr_shape(m1, t, base, dims, m0, levels),
    decreases dims.len(),
{
    assert(m1.types@[t as int] == m.types@[t as int]);
    if dims.len() > 0 {
        if let TypeData::ArrayType(a) = m.tdata_of(t as int) {
            lemma_arr_shape_grow(m1, m, a.item, base, dims.drop_first(), m0, levels);
        }
    }
}

pub proof fn lemma_bound(levels: Seq<Map<Seq<char>, ValuePtr>>, name: Seq<char>, v: ValuePtr, n: nat)
    requires
        levels.len() >= 1,
        scope_below(levels, n),
        v.0 < n,
    ensures
        only_innermost_grew(bound(levels, name, v), levels),
        bound(levels, name, v).last().contains_key(name),
        scope_below(bound(levels, name, v), n),
{
    let l1 = bound(levels, name, v);
    assert(l1.drop_last() =~= levels.drop_last());
    assert forall|k: int, nm: Seq<char>| 0 <= k < l1.len() && #[trigger] l1[k].contains_key(nm) implies l1[k][nm].0
        < n by {
        if k < levels.len() - 1 || levels.last().contains_key(name) {
            assert(l1[k] == levels[k]);
        } else if nm != name {
            assert(levels[k].contains_key(nm));
        }
    }
}

pub proof fn lemma_grew_trans(
    l2: Seq<Map<Seq<char>, ValuePtr>>,
    l1: Seq<Map<Seq<char>, ValuePtr>>,
    l0: Seq<Map<Seq<char>, ValuePtr>>,
)
    requires
        only_innermost_grew(l2, l1),
        only_innermost_grew(l1, l0),
    ensures
        only_innermost_grew(l2, l0),
{
    assert forall|name: Seq<char>| #[trigger] l0.last().contains_key(name) implies l2.last().contains_key(name)
        && l2.last()[name] == l0.last()[name] by {
        assert(l1.last().contains_key(name));
    }
}

pub proof fn lemma_grew_refl(l: Seq<Map<Seq<char>, ValuePtr>>)
    ensures
        only_innermost_grew(l, l),
{
}

/// The expression of a scalar initialiser; a list is refused.
pub fn init_val_to_exp(init: &InitVal) -> (r: Result<&Exp, GenError>)
    ensures
        r is Ok <==> init is Exp,
        r matches Ok(e) ==> *init == InitVal::Exp(*e),
        init is InitVals ==> r == Err::<&Exp, GenError>(GenError::NotScalarInit),
{
    match init {
        InitVal::Exp(e) => Ok(e),
        InitVal::InitVals(_) => Err(GenError::NotScalarInit),
    }
}

/// A value of `m0` keeps its kind, type and type description in `m1`.
pub proof fn lemma_value_kept(m1: Module, m0: Module, v: int)
    requires
        grows(m1, m0),
        m0.wf(),
        0 <= v < m0.nv(),
    ensures
        crate::ir::module::same_class_kind(m1.class_of(v), m0.class_of(v)),
        m0.class_of(v) is Inst ==> m1.class_of(v) == m0.class_of(v),
        m1.type_of(v) == m0.type_of(v),
        m1.tdata_of(m1.type_of(v) as int) == m0.tdata_of(m0.type_of(v) as int),
{
    assert(crate::ir::module::same_class_kind(m1.class_of(v), m0.class_of(v)));
    assert(crate::ir::module::value_below(m0.values@[v], m0.nt(), m0.nv()));
    let t = m0.type_of(v) as int;
    assert(m0.types@[t] == m1.types@[t]);
}

impl IRGenerator {
    /// The generator moved on from `old` by declaring: its invariant holds,
    /// the module grew, the context and insertion point are unchanged, and
    /// only the innermost scope level gained bindings.
    pub open spec fn declared(&self, old: IRGenerator) -> bool {
        &&& self.inv()
        &&& grows(self.m, old.m)
        &&& self.context == old.context
        &&& self.buidler == old.buidler
        &&& only_innermost_grew(self.scope.levels(), old.scope.levels())
        &&& self.loops@ == old.loops@
        &&& blocks_kept_but(self.m, old.m, old.buidler.bb)
    }

    /// Binds `name` to `v` in the innermost scope level (a name that level
    /// binds already keeps its value).
    pub(crate) fn bind(&mut self, name: &String, v: ValuePtr)
        requires
            old(self).inv(),
            v.0 < old(self).m.nv(),
        ensures
            final(self).declared(*old(self)),
            final(self).m == old(self).m,
            final(self).scope.levels() == bound(old(self).scope.levels(), name@, v),
    {
        let _ = self.scope.add(name, v);
        proof {
            lemma_bound(old(self).scope.levels(), name@, v, self.m.nv());
            lemma_grows_refl(self.m);
        }
    }

    /// The base type of a declaration.
    pub(crate) fn base_type(&self, b: &Btype) -> (r: usize)
        ensures
            r == btype_ty(*b),
    {
        match b {
            Btype::Int => self.m.get_int_ty(),
            Btype::Float => self.m.get_float_ty(),
        }
    }

    /// A stack slot of type `ty` at the insertion point.
    pub(crate) fn emit_alloca(&mut self, ty: usize) -> (res: Result<ValuePtr, GenError>)
        requires
            old(self).inv(),
            ty < old(self).m.nt(),
            old(self).m.tdata_of(ty as int) is IntegerType || old(self).m.tdata_of(ty as int) is FloatType
                || old(self).m.tdata_of(ty as int) is ArrayType || old(self).m.tdata_of(ty as int) is PointerType,
        ensures
            final(self).stepped(*old(self)),
            res matches Ok(p) ==> {
                &&& p.0 < final(self).m.nv()
                &&& final(self).m.class_of(p.0 as int) is Inst
                &&& final(self).m.inst_op(p.0 as int) == OpID::Alloca
                &&& ptr_elem_spec(final(self).m.tdata_of(final(self).m.type_of(p.0 as int) as int)) == Some(ty)
            },
            res is Ok <==> old(self).can_insert(),
            res is Ok ==> final(self).can_insert(),
    {
        let ghost m0 = self.m;
        proof {
            lemma_grows_refl(self.m);
        }
        let b = self.insert_block()?;
        let i = InstPtr::alloca_inst(&mut self.m, ty, b);
        proof {
            lemma_grows_inst(self.m, m0, i.0, self.m.type_of(i.0 as int), OpID::Alloca, b.0, Seq::empty(), insts_of(m0, b).push(i.0), Seq::empty());
            lemma_inv_grows(self.m, m0, self.scope, self.context, self.buidler);
        }
        Ok(i.to_val())
    }

    /// A constant expression given as an additive expression, folded.
    pub fn visit_const_add_exp<A: FloatArith>(&mut self, add_exp: &AddExp) -> (res: Result<Number, GenError>)
        requires
            old(self).inv(),
        ensures
            final(self).stepped(*old(self)),
            *final(self) == *old(self),
            const_folds(res, fold_add(*add_exp, old(self).m, old(self).scope.levels())),
    {
        let pre_is_const = self.context.is_const;
        self.context.is_const = true;
        let r = self.visit_add_exp::<A>(add_exp);
        self.context.is_const = pre_is_const;
        match r {
            Ok(Calcu::Number(n)) => Ok(n),
            Ok(Calcu::Value(_)) => Err(GenError::WrongKind),
            Err(e) => Err(e),
        }
    }

    /// A constant expression folded along its additive spine: the left
    /// operands recursively, each right operand as a multiplicative
    /// expression.
    pub(crate) fn visit_const_exp_inner<A: FloatArith>(&mut self, add_exp: &AddExp) -> (res: Result<Number, GenError>)
        requires
            old(self).inv(),
        ensures
            final(self).stepped(*old(self)),
            *final(self) == *old(self),
            const_folds(res, fold_add(*add_exp, old(self).m, old(self).scope.levels())),
        decreases add_exp,
    {
        let ghost m0 = self.m;
        let pre = self.context.is_const;
        self.context.is_const = true;
        let res = match add_exp {
            AddExp::MulExp(a) => {
                match self.visit_mul_exp::<A>(a) {
                    Ok(Calcu::Number(n)) => Ok(n),
                    Ok(Calcu::Value(_)) => Err(GenError::WrongKind),
                    Err(e) => Err(e),
                }
            },
            AddExp::AddExp(a, op, c) => {
                let ghost s0 = *self;
                match self.visit_const_exp_inner::<A>(a) {
                    Ok(lhs) => {
                        let ghost m1 = self.m;
                        let r = match self.visit_mul_exp::<A>(c) {
                            Ok(Calcu::Number(rhs)) => {
                                let f = match op {
                                    AddOp::Add => fold::<A>(IntOp::Add, lhs, rhs),
                                    AddOp::Sub => fold::<A>(IntOp::Sub, lhs, rhs),
                                };
                                match f {
                                    Ok(n) => Ok(n),
                                    Err(e) => Err(GenError::Fold(e)),
                                }
                            },
                            Ok(Calcu::Value(_)) => Err(GenError::WrongKind),
                            Err(e) => Err(e),
                        };
                        proof {
                            lemma_grows_trans(self.m, m1, m0);
                        }
                        r
                    },
                    Err(e) => Err(e),
                }
            },
        };
        self.context.is_const = pre;
        res
    }

    /// The array type of `base` with the dimensions `dims` (outermost
    /// first), each folded; `base` itself when there are none.
    pub(crate) fn array_type<A: FloatArith>(&mut self, base: usize, dims: &Vec<ConstExp>) -> (res: Result<usize, GenError>)
        requires
            old(self).inv(),
            base < old(self).m.nt(),
        ensures
            final(self).stepped(*old(self)),
            final(self).m.values@ == old(self).m.values@,
            final(self).m.gv_list@ == old(self).m.gv_list@,
            final(self).scope == old(self).scope,
            res matches Ok(t) ==> t < final(self).m.nt(),
            res matches Ok(t) ==> (dims@.len() == 0 ==> t == base),
            res matches Ok(t) ==> (dims@.len() > 0 ==> final(self).m.tdata_of(t as int) is ArrayType),
            dims_exact(dims@, old(self).m, old(self).scope.levels()) ==> (res matches Ok(t) && arr_shape(
                final(self).m,
                t,
                base,
                dims@,
                old(self).m,
                old(self).scope.levels(),
            )),
            dims_refused(dims@, old(self).m, old(self).scope.levels()) ==> res is Err,
    {
        let ghost m0 = self.m;
        let ghost levels = self.scope.levels();
        proof {
            lemma_grows_refl(self.m);
        }
        let mut t = base;
        let mut k = dims.len();
        while k > 0
            invariant
                self.stepped(*old(self)),
                m0 == old(self).m,
                levels == old(self).scope.levels(),
                self.scope == old(self).scope,
                self.m.values@ == m0.values@,
                self.m.gv_list@ == m0.gv_list@,
                k <= dims@.len(),
                t < self.m.nt(),
                k == dims@.len() ==> t == base,
                k < dims@.len() ==> self.m.tdata_of(t as int) is ArrayType,
                dims_exact(dims@.subrange(k as int, dims@.len() as int), m0, levels) ==> arr_shape(
                    self.m,
                    t,
                    base,
                    dims@.subrange(k as int, dims@.len() as int),
                    m0,
                    levels,
                ),
                forall|j: int| k <= j < dims@.len() ==> !(#[trigger] fold_add(dims@[j].item, m0, levels) is Refused),
            decreases k,
        {
            k = k - 1;
            let ghost mk = self.m;
            let ghost tk = t;
            proof {
                lemma_fold_add_values(dims@[k as int].item, self.m, m0, levels);
            }
            let n = self.visit_const_add_exp::<A>(&dims[k].item)?;
            let ghost mn = self.m;
            let c = as_int::<A>(&n);
            t = self.m.get_arr_ty(t, c as usize);
            proof {
                lemma_grows_frame(self.m, mn);
                lemma_inv_grows(self.m, mn, self.scope, self.context, self.buidler);
                lemma_grows_trans(self.m, mn, mk);
                lemma_grows_trans(self.m, mk, m0);
                let sub = dims@.subrange(k as int, dims@.len() as int);
                let sub1 = dims@.subrange(k + 1, dims@.len() as int);
                assert(sub.drop_first() =~= sub1);
                if dims_exact(sub, m0, levels) {
                    assert forall|j: int| 0 <= j < sub1.len() implies #[trigger] fold_add(sub1[j].item, m0, levels)
                        is Exact by {
                        assert(sub1[j] == sub[j + 1]);
                    }
                    lemma_arr_shape_grow(self.m, mk, tk, base, sub1, m0, levels);
                    assert(sub[0] == dims@[k as int]);
                }
            }
        }
        proof {
            assert(dims@.subrange(0, dims@.len() as int) =~= dims@);
        }
        Ok(t)
    }
    /// The folded value of a scalar constant's initialiser; a list is
    /// refused.
    pub(crate) fn visit_const_init_val_scalar<A: FloatArith>(&mut self, init: &ConstInitVal) -> (res: Result<
        Number,
        GenError,
    >)
        requires
            old(self).inv(),
        ensures
            final(self).stepped(*old(self)),
            init is ConstInitVals ==> res == Err::<Number, GenError>(GenError::NotScalarInit),
            init is ConstExp ==> *final(self) == *old(self),
            const_folds(res, const_init_fold(*init, old(self).m, old(self).scope.levels())),
    {
        match init {
            ConstInitVal::ConstExp(e) => self.visit_const_exp_inner::<A>(&e.item),
            ConstInitVal::ConstInitVals(_) => {
                proof {
                    lemma_grows_refl(self.m);
                }
                Err(GenError::NotScalarInit)
            },
        }
    }

    /// A constant definition: a scalar binds its name to the folded
    /// constant (entered in the constant pool); an array binds it to a new
    /// stack slot of the array type (its initialiser is not stored).
    fn visit_const_def<A: FloatArith>(&mut self, btype: &Btype, def: &ConstDef) -> (res: Result<(), GenError>)
        requires
            old(self).inv(),
            !old(self).context.is_const,
        ensures
            final(self).declared(*old(self)),
            res is Ok ==> final(self).scope.levels().last().contains_key(def.ident@),
            binds_only(final(self).scope.levels(), old(self).scope.levels(), def.ident@),
            res is Err ==> final(self).scope.levels() == old(self).scope.levels(),
            res is Ok && !old(self).scope.levels().last().contains_key(def.ident@) ==> {
                let v = final(self).scope.levels().last()[def.ident@];
                &&& def.const_exps@.len() == 0 ==> final(self).m.class_of(v.0 as int) is Constant
                &&& def.const_exps@.len() > 0 ==> final(self).m.class_of(v.0 as int) is Inst
                    && final(self).m.inst_op(v.0 as int) == OpID::Alloca
            },
            def.const_exps@.len() == 0 && def.const_init_val is ConstInitVals ==> res == Err::<(), GenError>(
                GenError::NotScalarInit,
            ),
            def.const_exps@.len() == 0 && const_init_fold(def.const_init_val, old(self).m, old(self).scope.levels())
                is Refused ==> res is Err,
            def.const_exps@.len() == 0 ==> (const_init_fold(def.const_init_val, old(self).m, old(self).scope.levels())
                matches Folded::Exact(i) ==> {
                &&& res is Ok
                &&& !old(self).scope.levels().last().contains_key(def.ident@) ==> final(self).m.class_of(
                    final(self).scope.levels().last()[def.ident@].0 as int,
                ) == ValueClass::Constant(ConstantClass::Int(i))
            }),
            def.const_exps@.len() > 0 && dims_refused(def.const_exps@, old(self).m, old(self).scope.levels())
                ==> res is Err,
            def.const_exps@.len() > 0 && dims_exact(def.const_exps@, old(self).m, old(self).scope.levels()) ==> {
                &&& res is Ok <==> old(self).can_insert()
                &&& res is Ok && !old(self).scope.levels().last().contains_key(def.ident@) ==> (ptr_elem_spec(
                    final(self).m.tdata_of(
                        final(self).m.type_of(final(self).scope.levels().last()[def.ident@].0 as int) as int,
                    ),
                ) matches Some(e) && arr_shape(
                    final(self).m,
                    e,
                    btype_ty(*btype),
                    def.const_exps@,
                    old(self).m,
                    old(self).scope.levels(),
                ))
            },
    {
        let ghost m0 = self.m;
        let ghost s0 = *self;
        let base_ty = self.base_type(btype);
        if def.const_exps.len() == 0 {
            self.context.is_const = true;
            let r = self.visit_const_init_val_scalar::<A>(&def.const_init_val);
            self.context.is_const = false;
            let init_val = r?;
            let ghost m1 = self.m;
            let val = match init_val {
                Number::IntConst(i) => self.const_int(i),
                Number::FloatConst(f) => self.const_float(f),
            };
            let ghost m2 = self.m;
            self.bind(&def.ident, val);
            proof {
                lemma_grows_trans(m2, m1, m0);
                assert(self.m.class_of(val.0 as int) is Constant);
            }
            Ok(())
        } else {
            let ty = self.array_type::<A>(base_ty, &def.const_exps)?;
            let ghost m1 = self.m;
            proof {
                if s0.buidler.bb is Some {
                    lemma_terminated_kept(m1, m0, s0.buidler.bb.unwrap().0 as int);
                }
            }
            let ptr = self.emit_alloca(ty)?;
            let ghost m2 = self.m;
            self.bind(&def.ident, ptr);
            proof {
                lemma_grows_trans(m2, m1, m0);
                if dims_exact(def.const_exps@, m0, s0.scope.levels()) {
                    lemma_arr_shape_grow(self.m, m1, ty, base_ty, def.const_exps@, m0, s0.scope.levels());
                }
            }
            Ok(())
        }
    }

    /// A constant declaration: each definition in turn.
    pub fn visit_const_decl<A: FloatArith>(&mut self, const_decl: &ConstDecl) -> (res: Result<(), GenError>)
        requires
            old(self).inv(),
            !old(self).context.is_const,
        ensures
            final(self).declared(*old(self)),
            res is Ok ==> forall|k: int|
                0 <= k < const_decl.const_defs@.len() ==> final(self).scope.levels().last().contains_key(
                    (#[trigger] const_decl.const_defs@[k]).ident@,
                ),
            forall|n: Seq<char>|
                #[trigger] final(self).scope.levels().last().contains_key(n) ==> const_or_kept(
                    final(self).m,
                    final(self).scope.levels().last(),
                    old(self).scope.levels().last(),
                    n,
                ),
    {
        let ghost s0 = *self;
        proof {
            lemma_grows_refl(self.m);
        }
        let n = const_decl.const_defs.len();
        let mut k: usize = 0;
        while k < n
            invariant
                self.declared(s0),
                !self.context.is_const,
                s0 == *old(self),
                n == const_decl.const_defs@.len(),
                0 <= k <= n,
                forall|j: int|
                    0 <= j < k ==> self.scope.levels().last().contains_key(
                        (#[trigger] const_decl.const_defs@[j]).ident@,
                    ),
                forall|nm: Seq<char>|
                    #[trigger] self.scope.levels().last().contains_key(nm) ==> const_or_kept(
                        self.m,
                        self.scope.levels().last(),
                        s0.scope.levels().last(),
                        nm,
                    ),
            decreases n - k,
        {
            let ghost sk = *self;
            let r = self.visit_const_def::<A>(&const_decl.btype, &const_decl.const_defs[k]);
            proof {
                lemma_grows_trans(self.m, sk.m, s0.m);
                lemma_grew_trans(self.scope.levels(), sk.scope.levels(), s0.scope.levels());
                assert forall|nm: Seq<char>| #[trigger] self.scope.levels().last().contains_key(nm) implies const_or_kept(
                    self.m,
                    self.scope.levels().last(),
                    s0.scope.levels().last(),
                    nm,
                ) by {
                    if sk.scope.levels().last().contains_key(nm) {
                        assert(const_or_kept(sk.m, sk.scope.levels().last(), s0.scope.levels().last(), nm));
                        let v = sk.scope.levels().last()[nm];
                        assert(self.scope.levels().last()[nm] == v);
                        assert(crate::irgen::visit::scope_below(sk.scope.levels(), sk.m.nv()));
                        assert(sk.scope.levels()[sk.scope.levels().len() - 1].contains_key(nm));
                        assert(v.0 < sk.m.nv());
                        assert(crate::ir::module::same_class_kind(self.m.class_of(v.0 as int), sk.m.class_of(v.0 as int)));
                    }
                }
            }
            if r.is_err() {
                return r;
            }
            proof {
                assert forall|j: int| 0 <= j < k + 1 implies self.scope.levels().last().contains_key(
                    (#[trigger] const_decl.const_defs@[j]).ident@,
                ) by {
                    if j < k {
                        assert(sk.scope.levels().last().contains_key(const_decl.const_defs@[j].ident@));
                    }
                }
            }
            k = k + 1;
        }
        Ok(())
    }
    /// A global variable of type `ty` named `name`, with an optional
    /// constant initialiser folded from `init` (typed `base`, not entered
    /// in the constant pool; a list initialiser gives none), bound in the
    /// innermost scope level.
    #[verifier::rlimit(30)]
    fn global_var<A: FloatArith>(&mut self, name: &String, base: usize, ty: usize, init: Option<&InitVal>) -> (res:
        Result<(), GenError>)
        requires
            old(self).inv(),
            !old(self).context.is_const,
            base == INT_TY || base == FLOAT_TY,
            ty < old(self).m.nt(),
        ensures
            final(self).declared(*old(self)),
            res is Ok ==> final(self).scope.levels().last().contains_key(name@),
            binds_only(final(self).scope.levels(), old(self).scope.levels(), name@),
            res is Err ==> final(self).scope.levels() == old(self).scope.levels(),
            res is Ok && !old(self).scope.levels().last().contains_key(name@) ==> {
                let g = final(self).scope.levels().last()[name@];
                &&& final(self).m.class_of(g.0 as int) is GlobalVariable
                &&& ptr_elem_spec(final(self).m.tdata_of(final(self).m.type_of(g.0 as int) as int)) == Some(ty)
                &&& final(self).m.gv_list@.last() == g.0
            },
            final(self).scope.levels().len() == old(self).scope.levels().len(),
            init_refused(opt_init(init), old(self).m, old(self).scope.levels()) ==> res is Err,
            init_settled(opt_init(init), old(self).m, old(self).scope.levels()) ==> res is Ok,
            res is Ok ==> ptr_elem_spec(
                final(self).m.tdata_of(final(self).m.type_of(final(self).m.gv_list@.last() as int) as int),
            ) == Some(ty),
            res is Ok ==> final(self).m.gv_list@.drop_last() == old(self).m.gv_list@,
            res is Ok ==> final(self).m.gv_list@.len() == old(self).m.gv_list@.len() + 1 && gv_init_is(
                final(self).m,
                final(self).m.gv_list@.last() as int,
                opt_init(init),
                base,
                old(self).m,
                old(self).scope.levels(),
            ),
    {
        let ghost m0 = self.m;
        let ghost levels = self.scope.levels();
        let ptr_ty = self.m.get_ptr_ty(ty);
        proof {
            lemma_grows_frame(self.m, m0);
            lemma_inv_grows(self.m, m0, self.scope, self.context, self.buidler);
        }
        let ghost m1 = self.m;
        let init_c: Option<ConstantPtr> = match init {
            Some(InitVal::Exp(e)) => {
                proof {
                    lemma_fold_add_values(e.item, self.m, m0, levels);
                }
                let c = self.visit_const_add_exp::<A>(&e.item)?;
                let ghost m2 = self.m;
                let cp = if base == FLOAT_TY {
                    ConstantPtr::new_float(&mut self.m, base, String::new(), as_float::<A>(&c))
                } else {
                    ConstantPtr::new_int(&mut self.m, base, String::new(), as_int::<A>(&c))
                };
                proof {
                    assert(m2.types@.is_prefix_of(self.m.types@));
                    lemma_grows_frame(self.m, m2);
                    lemma_inv_grows(self.m, m2, self.scope, self.context, self.buidler);
                    lemma_grows_trans(self.m, m2, m1);
                }
                Some(cp)
            },
            _ => {
                proof {
                    lemma_grows_refl(self.m);
                }
                None
            },
        };
        let ghost m3 = self.m;
        proof {
            assert(m1.types@.is_prefix_of(m3.types@));
            assert(m3.types@[ptr_ty as int] == m1.types@[ptr_ty as int]);
        }
        let gv = GVPtr::new(name.clone(), &mut self.m, ptr_ty, false, init_c);
        self.m.add_gv(gv.0);
        proof {
            lemma_grows_frame(self.m, m3);
            lemma_inv_grows(self.m, m3, self.scope, self.context, self.buidler);
            lemma_grows_trans(self.m, m3, m1);
            lemma_grows_trans(self.m, m1, m0);
        }
        let ghost m4 = self.m;
        self.bind(name, gv.to_val());
        proof {
            assert(self.m.class_of(gv.0 as int) is GlobalVariable);
        }
        Ok(())
    }

    /// A global variable definition: a global of the declared type (array
    /// dimensions folded), initialised by a folded scalar where one is
    /// given, bound to its name.
    fn visit_global_var_def<A: FloatArith>(&mut self, base_ty: usize, def: &VarDef) -> (res: Result<(), GenError>)
        requires
            old(self).inv(),
            !old(self).context.is_const,
            base_ty == INT_TY || base_ty == FLOAT_TY,
        ensures
            final(self).declared(*old(self)),
            res is Ok ==> final(self).scope.levels().last().contains_key(var_def_name(*def)),
            binds_only(final(self).scope.levels(), old(self).scope.levels(), var_def_name(*def)),
            res is Err ==> final(self).scope.levels() == old(self).scope.levels(),
            res is Ok && !old(self).scope.levels().last().contains_key(var_def_name(*def)) ==> final(self).m.class_of(
                final(self).scope.levels().last()[var_def_name(*def)].0 as int,
            ) is GlobalVariable,
            final(self).scope.levels().len() == old(self).scope.levels().len(),
            dims_refused(var_def_dims(*def), old(self).m, old(self).scope.levels()) ==> res is Err,
            dims_exact(var_def_dims(*def), old(self).m, old(self).scope.levels()) ==> {
                &&& init_refused(var_def_init(*def), old(self).m, old(self).scope.levels()) ==> res is Err
                &&& init_settled(var_def_init(*def), old(self).m, old(self).scope.levels()) ==> res is Ok
            },
            res is Ok ==> final(self).m.gv_list@.drop_last() == old(self).m.gv_list@,
            res is Ok ==> final(self).m.gv_list@.len() == old(self).m.gv_list@.len() + 1 && gv_init_is(
                final(self).m,
                final(self).m.gv_list@.last() as int,
                var_def_init(*def),
                base_ty,
                old(self).m,
                old(self).scope.levels(),
            ),
            res is Ok && dims_exact(var_def_dims(*def), old(self).m, old(self).scope.levels()) ==> (ptr_elem_spec(
                final(self).m.tdata_of(final(self).m.type_of(final(self).m.gv_list@.last() as int) as int),
            ) matches Some(e) && arr_shape(
                final(self).m,
                e,
                base_ty,
                var_def_dims(*def),
                old(self).m,
                old(self).scope.levels(),
            )),
    {
        let ghost s0 = *self;
        proof {
            lemma_grew_refl(self.scope.levels());
        }
        let (name, dims, init) = match def {
            VarDef::Without(name, dims) => (name, dims, None),
            VarDef::WithInitVal(name, dims, init) => (name, dims, Some(init)),
        };
        let ty = self.array_type::<A>(base_ty, dims)?;
        let ghost sm = *self;
        proof {
            assert(opt_init(init) == var_def_init(*def));
            assert(dims@ == var_def_dims(*def));
            if let Some(InitVal::Exp(e)) = var_def_init(*def) {
                lemma_fold_add_values(e.item, sm.m, s0.m, s0.scope.levels());
            }
        }
        let r = self.global_var::<A>(name, base_ty, ty, init);
        proof {
            lemma_grows_trans(self.m, sm.m, s0.m);
            if r is Ok && dims_exact(dims@, s0.m, s0.scope.levels()) {
                lemma_arr_shape_grow(self.m, sm.m, ty, base_ty, dims@, s0.m, s0.scope.levels());
            }
        }
        r
    }

    /// A global variable declaration: each definition in turn.
    pub fn visit_global_var_decl<A: FloatArith>(&mut self, var_decl: &VarDecl) -> (res: Result<(), GenError>)
        requires
            old(self).inv(),
            !old(self).context.is_const,
        ensures
            final(self).declared(*old(self)),
            res is Ok ==> forall|k: int|
                0 <= k < var_decl.var_defs@.len() ==> final(self).scope.levels().last().contains_key(
                    var_def_name(#[trigger] var_decl.var_defs@[k]),
                ),
            forall|n: Seq<char>|
                #[trigger] final(self).scope.levels().last().contains_key(n) ==> global_or_kept(
                    final(self).m,
                    final(self).scope.levels().last(),
                    old(self).scope.levels().last(),
                    n,
                ),
            (forall|k: int| 0 <= k < var_decl.var_defs@.len() ==> plain_def(#[trigger] var_decl.var_defs@[k])) ==> res is Ok,
            decl_sure(*var_decl, old(self).m, old(self).scope.levels()) ==> {
                let n0 = old(self).m.gv_list@.len();
                &&& res is Ok
                &&& final(self).m.gv_list@.len() == n0 + var_decl.var_defs@.len()
                &&& final(self).m.gv_list@.subrange(0, n0 as int) == old(self).m.gv_list@
                &&& forall|k: int|
                    0 <= k < var_decl.var_defs@.len() ==> global_def_made(
                        final(self).m,
                        final(self).m.gv_list@[n0 + k],
                        #[trigger] var_decl.var_defs@[k],
                        btype_ty(var_decl.btype),
                        old(self).m,
                        old(self).scope.levels(),
                    )
            },
    {
        let ghost s0 = *self;
        proof {
            lemma_grows_refl(self.m);
        }
        let base_ty = self.base_type(&var_decl.btype);
        let n = var_decl.var_defs.len();
        let mut k: usize = 0;
        while k < n
            invariant
                self.declared(s0),
                !self.context.is_const,
                s0 == *old(self),
                s0.inv(),
                base_ty == crate::irgen::decl::btype_ty(var_decl.btype),
                n == var_decl.var_defs@.len(),
                0 <= k <= n,
                forall|j: int|
                    0 <= j < k ==> self.scope.levels().last().contains_key(
                        var_def_name(#[trigger] var_decl.var_defs@[j]),
                    ),
                forall|nm: Seq<char>|
                    #[trigger] self.scope.levels().last().contains_key(nm) ==> global_or_kept(
                        self.m,
                        self.scope.levels().last(),
                        s0.scope.levels().last(),
                        nm,
                    ),
                decl_sure(*var_decl, s0.m, s0.scope.levels()) ==> {
                    let n0 = s0.m.gv_list@.len();
                    &&& self.m.gv_list@.len() == n0 + k
                    &&& self.m.gv_list@.subrange(0, n0 as int) == s0.m.gv_list@
                    &&& forall|j: int|
                        0 <= j < k ==> global_def_made(
                            self.m,
                            self.m.gv_list@[n0 + j],
                            #[trigger] var_decl.var_defs@[j],
                            base_ty,
                            s0.m,
                            s0.scope.levels(),
                        )
                },
            decreases n - k,
        {
            let ghost sk = *self;
            let ghost d = var_decl.var_defs@[k as int];
            proof {
                if decl_sure(*var_decl, s0.m, s0.scope.levels()) {
                    lemma_outermost_lookups_kept(self.scope.levels(), s0.scope.levels());
                    assert(global_def_sure(d, s0.m, s0.scope.levels()));
                    assert forall|j: int| 0 <= j < var_def_dims(d).len() implies #[trigger] fold_add(
                        var_def_dims(d)[j].item,
                        self.m,
                        self.scope.levels(),
                    ) == fold_add(var_def_dims(d)[j].item, s0.m, s0.scope.levels()) by {
                        lemma_fold_add_exact_kept(var_def_dims(d)[j].item, self.m, s0.m, self.scope.levels(), s0.scope.levels());
                    }
                    if let Some(InitVal::Exp(e)) = var_def_init(d) {
                        lemma_fold_add_exact_kept(e.item, self.m, s0.m, self.scope.levels(), s0.scope.levels());
                    }
                    assert(dims_exact(var_def_dims(d), self.m, self.scope.levels()));
                    assert(init_settled(var_def_init(d), self.m, self.scope.levels()));
                }
            }
            let r = self.visit_global_var_def::<A>(base_ty, &var_decl.var_defs[k]);
            proof {
                lemma_grows_trans(self.m, sk.m, s0.m);
                lemma_grew_trans(self.scope.levels(), sk.scope.levels(), s0.scope.levels());
                assert forall|nm: Seq<char>| #[trigger] self.scope.levels().last().contains_key(nm) implies global_or_kept(
                    self.m,
                    self.scope.levels().last(),
                    s0.scope.levels().last(),
                    nm,
                ) by {
                    if sk.scope.levels().last().contains_key(nm) {
                        assert(global_or_kept(sk.m, sk.scope.levels().last(), s0.scope.levels().last(), nm));
                        let v = sk.scope.levels().last()[nm];
                        assert(self.scope.levels().last()[nm] == v);
                        assert(crate::irgen::visit::scope_below(sk.scope.levels(), sk.m.nv()));
                        assert(sk.scope.levels()[sk.scope.levels().len() - 1].contains_key(nm));
                        assert(v.0 < sk.m.nv());
                        assert(crate::ir::module::same_class_kind(self.m.class_of(v.0 as int), sk.m.class_of(v.0 as int)));
                    }
                }
            }
            if r.is_err() {
                return r;
            }
            proof {
                if decl_sure(*var_decl, s0.m, s0.scope.levels()) {
                    let n0 = s0.m.gv_list@.len();
                    let g = self.m.gv_list@.last();
                    assert(self.m.gv_list@.drop_last() == sk.m.gv_list@);
                    assert(self.m.gv_list@[n0 + k] == g);
                    assert forall|j: int| 0 <= j < var_def_dims(d).len() implies #[trigger] fold_add(
                        var_def_dims(d)[j].item,
                        sk.m,
                        sk.scope.levels(),
                    ) == fold_add(var_def_dims(d)[j].item, s0.m, s0.scope.levels()) by {
                        lemma_fold_add_exact_kept(var_def_dims(d)[j].item, sk.m, s0.m, sk.scope.levels(), s0.scope.levels());
                    }
                    if let Some(InitVal::Exp(e)) = var_def_init(d) {
                        lemma_fold_add_exact_kept(e.item, sk.m, s0.m, sk.scope.levels(), s0.scope.levels());
                    }
                    let el = ptr_elem_spec(self.m.tdata_of(self.m.type_of(g as int) as int))->0;
                    lemma_arr_shape_folds(self.m, el, base_ty, var_def_dims(d), sk.m, sk.scope.levels(), s0.m, s0.scope.levels());
                    assert(global_def_made(self.m, g, d, base_ty, s0.m, s0.scope.levels()));
                    assert forall|j: int| 0 <= j < k + 1 implies global_def_made(
                        self.m,
                        self.m.gv_list@[n0 + j],
                        #[trigger] var_decl.var_defs@[j],
                        base_ty,
                        s0.m,
                        s0.scope.levels(),
                    ) by {
                        if j < k {
                            assert(self.m.gv_list@[n0 + j] == sk.m.gv_list@[n0 + j]);
                            lemma_global_def_made_grows(self.m, sk.m, sk.m.gv_list@[n0 + j], var_decl.var_defs@[j], base_ty, s0.m, s0.scope.levels());
                        }
                    }
                    assert(self.m.gv_list@.subrange(0, n0 as int) =~= s0.m.gv_list@) by {
                        assert(sk.m.gv_list@.subrange(0, n0 as int) == s0.m.gv_list@);
                        assert forall|i: int| 0 <= i < n0 implies self.m.gv_list@[i] == sk.m.gv_list@[i] by {
                            assert(self.m.gv_list@.drop_last()[i] == sk.m.gv_list@[i]);
                        }
                    }
                }
            }
            proof {
                assert forall|j: int| 0 <= j < k + 1 implies self.scope.levels().last().contains_key(
                    var_def_name(#[trigger] var_decl.var_defs@[j]),
                ) by {
                    if j < k {
                        assert(sk.scope.levels().last().contains_key(var_def_name(var_decl.var_defs@[j])));
                    }
                }
            }
            k = k + 1;
        }
        Ok(())
    }
    /// Computes the initialiser `e`, converts it to `base` and stores it
    /// through `ptr`, a slot for a `base`; a value that does not convert
    /// (a pointer, or nothing) is refused.
    #[verifier::rlimit(40)]
    fn store_init<A: FloatArith>(&mut self, ptr: ValuePtr, base: usize, e: &Exp) -> (res: Result<(), GenError>)
        requires
            old(self).inv(),
            !old(self).context.is_const,
            ptr.0 < old(self).m.nv(),
            ptr_elem_spec(old(self).m.tdata_of(old(self).m.type_of(ptr.0 as int) as int)) == Some(base),
            base == INT_TY || base == FLOAT_TY,
        ensures
            final(self).stepped(*old(self)),
            res is Ok ==> exists|v: usize|
                v < final(self).m.nv() && #[trigger] final(self).m.type_of(v as int) == base && final(self).ends_with(
                    OpID::Store,
                    seq![v, ptr.0],
                ),
            res is Ok ==> exists|v: usize, x: usize|
                #![trigger computed_add(final(self).m, ValuePtr(v), e.item, old(self).scope.levels()), final(self).m.type_of(x as int)]
                v < final(self).m.nv() && computed_add(final(self).m, ValuePtr(v), e.item, old(self).scope.levels())
                    && converted_to(final(self).m, x, v, base) && final(self).ends_with(OpID::Store, seq![x, ptr.0]),
            old(self).can_insert() && add_kind(e.item, old(self).m, old(self).scope.levels()) != 0 ==> res is Ok
                && final(self).can_insert(),
    {
        let ghost m0 = self.m;
        let ghost levels = self.scope.levels();
        let val = self.visit_exp_as_value::<A>(e)?;
        let ghost m1 = self.m;
        proof {
            lemma_value_kept(m1, m0, ptr.0 as int);
        }
        let cv = self.convert_to_target(val, base)?;
        let ghost m2 = self.m;
        proof {
            lemma_value_kept(m2, m1, ptr.0 as int);
            lemma_grows_trans(m2, m1, m0);
            lemma_scalar_type_unique(m2, m2.type_of(cv.0 as int));
            lemma_scalar_type_unique(m1, m1.type_of(val.0 as int));
        }
        let vt = self.type_of_val(cv);
        if vt != base {
            return Err(GenError::TypeMismatch);
        }
        let b = self.insert_block()?;
        let st = InstPtr::store_inst(&mut self.m, cv, ptr, b);
        proof {
            lemma_grows_inst(self.m, m2, st.0, crate::ir::module::VOID_TY, OpID::Store, b.0, seq![cv.0, ptr.0], insts_of(m2, b).push(st.0), Seq::empty());
            lemma_inv_grows(self.m, m2, self.scope, self.context, self.buidler);
            lemma_grows_trans(self.m, m2, m0);
            assert(self.m.bb_insts(b.0 as int).last() == st.0);
            assert(self.ends_with(OpID::Store, seq![cv.0, ptr.0]));
            assert(self.m.type_of(cv.0 as int) == m2.type_of(cv.0 as int));
            assert(self.m.type_of(cv.0 as int) == base);
            lemma_computed_add_grows(self.m, m1, val, e.item, levels);
            lemma_converted_to_grows(self.m, m2, cv.0, val.0, base);
            assert(computed_add(self.m, val, e.item, levels));
        }
        Ok(())
    }

    /// A local variable definition: a new stack slot of the declared type
    /// (array dimensions folded) bound to its name; a scalar initialiser is
    /// computed after the slot, converted to the declared type and stored
    /// into it (a list is refused); an array's initialiser is not stored.
    #[verifier::rlimit(30)]
    fn visit_var_def<A: FloatArith>(&mut self, btype: &Btype, def: &VarDef) -> (res: Result<(), GenError>)
        requires
            old(self).inv(),
            !old(self).context.is_const,
        ensures
            final(self).declared(*old(self)),
            res is Ok ==> final(self).scope.levels().last().contains_key(var_def_name(*def)),
            binds_only(final(self).scope.levels(), old(self).scope.levels(), var_def_name(*def)),
            res is Err ==> final(self).scope.levels() == old(self).scope.levels(),
            res is Ok && !old(self).scope.levels().last().contains_key(var_def_name(*def)) ==> {
                let p = final(self).scope.levels().last()[var_def_name(*def)];
                &&& final(self).m.class_of(p.0 as int) is Inst
                &&& final(self).m.inst_op(p.0 as int) == OpID::Alloca
                &&& var_def_dims(*def).len() == 0 ==> ptr_elem_spec(
                    final(self).m.tdata_of(final(self).m.type_of(p.0 as int) as int),
                ) == Some(btype_ty(*btype))
            },
            dims_refused(var_def_dims(*def), old(self).m, old(self).scope.levels()) ==> res is Err,
            dims_exact(var_def_dims(*def), old(self).m, old(self).scope.levels()) && (var_def_init(*def) is None
                || var_def_dims(*def).len() > 0) ==> (res is Ok <==> old(self).can_insert()),
            var_def_dims(*def).len() == 0 && (var_def_init(*def) matches Some(InitVal::InitVals(_))) ==> res is Err,
            res is Ok && var_def_init(*def) is None ==> final(self).can_insert(),
            var_def_dims(*def).len() == 0 && (var_def_init(*def) matches Some(InitVal::Exp(e)) && add_kind(
                e.item,
                old(self).m,
                old(self).scope.levels(),
            ) != 0) ==> (res is Ok <==> old(self).can_insert()) && (res is Ok ==> final(self).can_insert()),
            res is Ok && var_def_dims(*def).len() == 0 && (var_def_init(*def) matches Some(InitVal::Exp(e)))
                && !old(self).scope.levels().last().contains_key(var_def_name(*def)) ==> exists|v: usize, x: usize|
                #![trigger computed_add(final(self).m, ValuePtr(v), var_def_init(*def)->0->Exp_0.item, old(self).scope.levels()), final(self).m.type_of(x as int)]
                v < final(self).m.nv() && computed_add(
                    final(self).m,
                    ValuePtr(v),
                    var_def_init(*def)->0->Exp_0.item,
                    old(self).scope.levels(),
                ) && converted_to(final(self).m, x, v, btype_ty(*btype)) && final(self).ends_with(
                    OpID::Store,
                    seq![x, final(self).scope.levels().last()[var_def_name(*def)].0],
                ),
            res is Ok && var_def_dims(*def).len() == 0 && (var_def_init(*def) matches Some(InitVal::Exp(_)))
                && !old(self).scope.levels().last().contains_key(var_def_name(*def)) ==> exists|v: usize|
                v < final(self).m.nv() && #[trigger] final(self).m.type_of(v as int) == btype_ty(*btype)
                    && final(self).ends_with(OpID::Store, seq![v, final(self).scope.levels().last()[var_def_name(*def)].0]),
            res is Ok && dims_exact(var_def_dims(*def), old(self).m, old(self).scope.levels())
                && !old(self).scope.levels().last().contains_key(var_def_name(*def)) ==> (ptr_elem_spec(
                final(self).m.tdata_of(
                    final(self).m.type_of(final(self).scope.levels().last()[var_def_name(*def)].0 as int) as int,
                ),
            ) matches Some(e) && arr_shape(
                final(self).m,
                e,
                btype_ty(*btype),
                var_def_dims(*def),
                old(self).m,
                old(self).scope.levels(),
            )),
    {
        let ghost m0 = self.m;
        let ghost s0 = *self;
        let base_ty = self.base_type(btype);
        let (name, dims, init) = match def {
            VarDef::Without(name, dims) => (name, dims, None),
            VarDef::WithInitVal(name, dims, init) => (name, dims, Some(init)),
        };
        let ty = self.array_type::<A>(base_ty, dims)?;
        let ghost m1 = self.m;
        proof {
            assert(dims@ == var_def_dims(*def));
            if s0.buidler.bb is Some {
                lemma_terminated_kept(m1, m0, s0.buidler.bb.unwrap().0 as int);
            }
        }
        let ptr = self.emit_alloca(ty)?;
        let ghost m2 = self.m;
        proof {
            lemma_grows_trans(m2, m1, m0);
            if dims_exact(dims@, m0, s0.scope.levels()) {
                lemma_arr_shape_grow(m2, m1, ty, base_ty, dims@, m0, s0.scope.levels());
            }
        }
        if dims.len() == 0 {
            match init {
                Some(iv) => {
                    let e = init_val_to_exp(iv)?;
                    proof {
                        lemma_add_kind_grows(e.item, m2, m0, s0.scope.levels());
                    }
                    self.store_init::<A>(ptr, base_ty, e)?;
                    proof {
                        lemma_grows_trans(self.m, m2, m0);
                    }
                },
                None => {},
            }
        }
        proof {
            lemma_value_kept(self.m, m2, ptr.0 as int);
            if dims_exact(dims@, m0, s0.scope.levels()) {
                lemma_arr_shape_grow(self.m, m2, ty, base_ty, dims@, m0, s0.scope.levels());
            }
        }
        self.bind(name, ptr);
        Ok(())
    }

    /// A local variable declaration: each definition in turn.
    pub fn visit_var_decl<A: FloatArith>(&mut self, var_decl: &VarDecl) -> (res: Result<(), GenError>)
        requires
            old(self).inv(),
            !old(self).context.is_const,
        ensures
            final(self).declared(*old(self)),
            res is Ok ==> forall|k: int|
                0 <= k < var_decl.var_defs@.len() ==> final(self).scope.levels().last().contains_key(
                    var_def_name(#[trigger] var_decl.var_defs@[k]),
                ),
            forall|n: Seq<char>|
                #[trigger] final(self).scope.levels().last().contains_key(n) ==> slot_or_kept(
                    final(self).m,
                    final(self).scope.levels().last(),
                    old(self).scope.levels().last(),
                    n,
                ),
            (forall|k: int| 0 <= k < var_decl.var_defs@.len() ==> plain_def(#[trigger] var_decl.var_defs@[k])) ==> (res
                is Ok <==> (var_decl.var_defs@.len() == 0 || old(self).can_insert())),
    {
        let ghost s0 = *self;
        proof {
            lemma_grows_refl(self.m);
        }
        let n = var_decl.var_defs.len();
        let mut k: usize = 0;
        while k < n
            invariant
                self.declared(s0),
                !self.context.is_const,
                s0 == *old(self),
                n == var_decl.var_defs@.len(),
                0 <= k <= n,
                k == 0 ==> self.m == s0.m && self.buidler == s0.buidler,
                (forall|j: int| 0 <= j < n ==> plain_def(#[trigger] var_decl.var_defs@[j])) && k > 0 ==> self.can_insert()
                    && s0.can_insert(),
                forall|j: int|
                    0 <= j < k ==> self.scope.levels().last().contains_key(
                        var_def_name(#[trigger] var_decl.var_defs@[j]),
                    ),
                forall|nm: Seq<char>|
                    #[trigger] self.scope.levels().last().contains_key(nm) ==> slot_or_kept(
                        self.m,
                        self.scope.levels().last(),
                        s0.scope.levels().last(),
                        nm,
                    ),
            decreases n - k,
        {
            let ghost sk = *self;
            let r = self.visit_var_def::<A>(&var_decl.btype, &var_decl.var_defs[k]);
            proof {
                lemma_grows_trans(self.m, sk.m, s0.m);
                lemma_grew_trans(self.scope.levels(), sk.scope.levels(), s0.scope.levels());
                assert forall|nm: Seq<char>| #[trigger] self.scope.levels().last().contains_key(nm) implies slot_or_kept(
                    self.m,
                    self.scope.levels().last(),
                    s0.scope.levels().last(),
                    nm,
                ) by {
                    if sk.scope.levels().last().contains_key(nm) {
                        assert(slot_or_kept(sk.m, sk.scope.levels().last(), s0.scope.levels().last(), nm));
                        let v = sk.scope.levels().last()[nm];
                        assert(self.scope.levels().last()[nm] == v);
                        if is_slot(sk.m, v) {
                            assert(crate::irgen::visit::scope_below(sk.scope.levels(), sk.m.nv()));
                            assert(sk.scope.levels()[sk.scope.levels().len() - 1].contains_key(nm));
                            assert(v.0 < sk.m.nv());
                            assert(crate::ir::module::same_class_kind(self.m.class_of(v.0 as int), sk.m.class_of(v.0 as int)));
                        }
                    }
                }
            }
            if r.is_err() {
                return r;
            }
            proof {
                assert forall|j: int| 0 <= j < k + 1 implies self.scope.levels().last().contains_key(
                    var_def_name(#[trigger] var_decl.var_defs@[j]),
                ) by {
                    if j < k {
                        assert(sk.scope.levels().last().contains_key(var_def_name(var_decl.var_defs@[j])));
                    }
                }
            }
            k = k + 1;
        }
        Ok(())
    }
}

} // verus!
