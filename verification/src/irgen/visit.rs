//! IR generation from the SysY syntax tree. The generator keeps the module
//! well formed, every scope binding and the insertion point within it, and
//! refuses (with a `GenError`) the inputs it cannot translate.

use vstd::prelude::*;
use crate::ast::{AddExp, AddOp, ConstExp, Exp, FuncRParams, LVal, MulExp, MulOp, Number, PrimaryExp, UnaryExp, UnaryOp};
use crate::ir::func_impl::{func_param_tys, func_ret_ty};
use crate::ir::bb_impl::terminated_spec;
use crate::ir::inst_builder::InstBuilder;
use crate::ir::ir_printer::{printable_inst, printable_module};
use crate::ir::printable::{lemma_printable_frame, lemma_printable_inst_added};
use crate::ir::inst_impl::{inst_added, open_block};
use crate::ir::module::{same_class_kind, Module, BOOL_TY, FLOAT_TY, INT_TY};
use crate::ir::type_::{ptr_elem_spec, TypeData};
use crate::ir::user::{ConstantClass, OpID};
use crate::ir::value::{BasicBlockPtr, ConstantPtr, FunctionPtr, InstPtr, ValueClass, ValuePtr};
use crate::irgen::number::{as_int, fold, int_fold, FloatArith, FoldError, IntOp};
use crate::irgen::scope::{lookup, Scope};

verus! {

/// Why a translation was refused.
#[derive(Clone, Copy, PartialEq, Eq, Structural)]
pub enum GenError {
    /// A name is bound nowhere in scope.
    NameNotFound,
    /// A called name is not bound to a function.
    NotAFunction,
    /// A name used in a constant expression is not bound to a number.
    NotAConstant,
    /// An operand's type does not fit the operation.
    TypeMismatch,
    /// A call passes a different number of arguments than declared.
    ArityMismatch,
    /// A statement or expression needs a function or block to be in.
    NoInsertPoint,
    /// An instruction would follow a block's terminator.
    BlockTerminated,
    /// A constant expression overflows or divides by zero.
    Fold(FoldError),
    /// A scalar was initialised with a list.
    NotScalarInit,
    /// A function call stands in a constant expression.
    CallInConstContext,
    /// A computed value was used where a number was expected, or the other
    /// way round.
    WrongKind,
    /// A `break` or `continue` stands outside any loop.
    NoEnclosingLoop,
}

/// Where generation stands: in a constant expression or not, and the
/// function being generated.
pub struct Context {
    pub is_const: bool,
    pub curr_func: Option<FunctionPtr>,
    pub func_param_idx: usize,
}

impl Context {
    pub fn new() -> (r: Self)
        ensures
            !r.is_const,
            r.curr_func is None,
            r.func_param_idx == 0,
    {
        Context { is_const: false, curr_func: None, func_param_idx: 0 }
    }
}

/// A folded number or a computed value.
pub enum Calcu {
    Number(Number),
    Value(ValuePtr),
}

impl Calcu {
    pub fn is_number(&self) -> (r: bool)
        ensures
            r == (self is Number),
    {
        matches!(self, Calcu::Number(_))
    }

    pub fn is_value(&self) -> (r: bool)
        ensures
            r == (self is Value),
    {
        matches!(self, Calcu::Value(_))
    }

    pub fn get_number(self) -> (r: Option<Number>)
        ensures
            self is Number <==> r is Some,
            self matches Calcu::Number(n) ==> r == Some(n),
    {
        match self {
            Calcu::Number(a) => Some(a),
            _ => None,
        }
    }

    pub fn get_value(self) -> (r: Option<ValuePtr>)
        ensures
            self is Value <==> r is Some,
            self matches Calcu::Value(v) ==> r == Some(v),
    {
        match self {
            Calcu::Value(v) => Some(v),
            _ => None,
        }
    }

    pub fn unwrap_value(self) -> (r: ValuePtr)
        requires
            self is Value,
        ensures
            self matches Calcu::Value(v) && r == v,
    {
        match self {
            Calcu::Value(v) => v,
            Calcu::Number(_) => ValuePtr(0),
        }
    }
}

/// `m1` extends `m0`: old values keep their kind, type and (for blocks)
/// function; old types stay.
pub open spec fn grows(m1: Module, m0: Module) -> bool {
    &&& m0.nv() <= m1.nv()
    &&& m0.types@.is_prefix_of(m1.types@)
    &&& forall|x: int|
        #![trigger m1.class_of(x)]
        #![trigger m1.type_of(x)]
        0 <= x < m0.nv() ==> {
            &&& same_class_kind(m1.class_of(x), m0.class_of(x))
            &&& m1.type_of(x) == m0.type_of(x)
            &&& m0.class_of(x) is BasicBlock ==> m1.bb_parent(x) == m0.bb_parent(x)
            &&& m0.class_of(x) is Inst ==> m1.class_of(x) == m0.class_of(x)
            &&& m0.class_of(x) is Inst ==> m1.ops(x) == m0.ops(x)
            &&& m0.class_of(x) is Constant ==> m1.class_of(x) == m0.class_of(x)
            &&& m0.class_of(x) is GlobalVariable ==> m1.class_of(x) == m0.class_of(x)
        }
    &&& printable_module(m0) ==> printable_module(m1)
}

pub proof fn lemma_grows_refl(m: Module)
    ensures
        grows(m, m),
{
    assert(m.types@.is_prefix_of(m.types@));
}

pub proof fn lemma_grows_trans(m2: Module, m1: Module, m0: Module)
    requires
        grows(m2, m1),
        grows(m1, m0),
    ensures
        grows(m2, m0),
{
    assert forall|x: int| 0 <= x < m0.nv() implies {
        &&& same_class_kind(#[trigger] m2.class_of(x), m0.class_of(x))
        &&& m2.type_of(x) == m0.type_of(x)
        &&& m0.class_of(x) is BasicBlock ==> m2.bb_parent(x) == m0.bb_parent(x)
        &&& m0.class_of(x) is Inst ==> m2.class_of(x) == m0.class_of(x)
        &&& m0.class_of(x) is Inst ==> m2.ops(x) == m0.ops(x)
        &&& m0.class_of(x) is Constant ==> m2.class_of(x) == m0.class_of(x)
        &&& m0.class_of(x) is GlobalVariable ==> m2.class_of(x) == m0.class_of(x)
    } by {
        assert(same_class_kind(m1.class_of(x), m0.class_of(x)));
        assert(same_class_kind(m2.class_of(x), m1.class_of(x)));
    }
}

/// Old values untouched and old types kept is growth.
pub proof fn lemma_grows_frame(m1: Module, m0: Module)
    requires
        m0.wf(),
        m0.nv() <= m1.nv(),
        m0.types@.is_prefix_of(m1.types@),
        forall|w: int| 0 <= w < m0.nv() ==> #[trigger] m1.values@[w] == m0.values@[w],
        forall|w: int|
            m0.nv() <= w < m1.nv() ==> !(#[trigger] m1.class_of(w) matches ValueClass::Constant(ConstantClass::Arr(_))),
        m0.func_list@.is_prefix_of(m1.func_list@),
        forall|k: int|
            m0.func_list@.len() <= k < m1.func_list@.len() ==> m1.func_bbs(#[trigger] m1.func_list@[k] as int).len() == 0,
    ensures
        grows(m1, m0),
{
    if printable_module(m0) {
        lemma_printable_frame(m1, m0);
    }
    assert forall|x: int| 0 <= x < m0.nv() implies {
        &&& same_class_kind(#[trigger] m1.class_of(x), m0.class_of(x))
        &&& m1.type_of(x) == m0.type_of(x)
        &&& m0.class_of(x) is BasicBlock ==> m1.bb_parent(x) == m0.bb_parent(x)
        &&& m0.class_of(x) is Inst ==> m1.class_of(x) == m0.class_of(x)
        &&& m0.class_of(x) is Inst ==> m1.ops(x) == m0.ops(x)
        &&& m0.class_of(x) is Constant ==> m1.class_of(x) == m0.class_of(x)
        &&& m0.class_of(x) is GlobalVariable ==> m1.class_of(x) == m0.class_of(x)
    } by {
        assert(m1.values@[x] == m0.values@[x]);
    }
}

/// A new instruction is growth.
pub proof fn lemma_grows_inst(
    m1: Module,
    m0: Module,
    r: usize,
    ty: usize,
    op: OpID,
    bb: usize,
    ops: Seq<usize>,
    insts: Seq<usize>,
    succ: Seq<usize>,
)
    requires
        m0.wf(),
        inst_added(m1, m0, r, ty, op, bb, ops, insts, succ),
        printable_inst(m1, r as int),
        insts == m0.bb_insts(bb as int).push(r) || insts == seq![r] + m0.bb_insts(bb as int),
    ensures
        grows(m1, m0),
{
    if printable_module(m0) {
        lemma_printable_inst_added(m1, m0, r, ty, op, bb, ops, insts, succ);
    }
    assert forall|x: int| 0 <= x < m0.nv() implies {
        &&& same_class_kind(#[trigger] m1.class_of(x), m0.class_of(x))
        &&& m1.type_of(x) == m0.type_of(x)
        &&& m0.class_of(x) is BasicBlock ==> m1.bb_parent(x) == m0.bb_parent(x)
        &&& m0.class_of(x) is Inst ==> m1.class_of(x) == m0.class_of(x)
        &&& m0.class_of(x) is Inst ==> m1.ops(x) == m0.ops(x)
        &&& m0.class_of(x) is Constant ==> m1.class_of(x) == m0.class_of(x)
        &&& m0.class_of(x) is GlobalVariable ==> m1.class_of(x) == m0.class_of(x)
    } by {
        assert(m1.values@[x].type_ == m0.values@[x].type_);
    }
}

/// A block keeps whether it ends while the values of the module stay.
pub proof fn lemma_terminated_kept(m1: Module, m0: Module, b: int)
    requires
        m0.wf(),
        0 <= b < m0.nv(),
        forall|w: int| 0 <= w < m0.nv() ==> #[trigger] m1.values@[w] == m0.values@[w],
    ensures
        terminated_spec(m1, b) == terminated_spec(m0, b),
{
    assert(m1.values@[b] == m0.values@[b]);
    assert(crate::ir::module::value_below(m0.values@[b], m0.nt(), m0.nv()));
    if m0.bb_insts(b).len() > 0 {
        let k = m0.bb_insts(b).len() - 1;
        assert(m0.bb_insts(b)[k] < m0.nv());
        assert(m1.values@[m0.bb_insts(b)[k] as int] == m0.values@[m0.bb_insts(b)[k] as int]);
    }
}

/// The scope binds only values below `n`.
pub open spec fn scope_below(levels: Seq<Map<Seq<char>, ValuePtr>>, n: nat) -> bool {
    forall|k: int, name: Seq<char>|
        0 <= k < levels.len() && #[trigger] levels[k].contains_key(name) ==> levels[k][name].0 < n
}

/// What a lookup in a scope below `n` finds is below `n`.
pub proof fn lemma_lookup_below(levels: Seq<Map<Seq<char>, ValuePtr>>, name: Seq<char>, n: nat)
    requires
        scope_below(levels, n),
    ensures
        lookup(levels, name) matches Some(v) ==> v.0 < n,
    decreases levels.len(),
{
    if levels.len() > 0 {
        let p = levels.drop_last();
        assert(scope_below(p, n)) by {
            assert forall|k: int, nm: Seq<char>| 0 <= k < p.len() && #[trigger] p[k].contains_key(nm) implies p[k][nm].0
                < n by {
                assert(p[k] == levels[k]);
            }
        }
        lemma_lookup_below(p, name, n);
        if levels.last().contains_key(name) {
            assert(levels[levels.len() - 1].contains_key(name));
        }
    }
}

/// The generator's invariant over its parts: a well-formed module, a
/// well-formed scope binding values of the module, and a current function
/// and insertion block (if any) of the module.
pub open spec fn gen_inv(m: Module, scope: Scope, ctx: Context, b: InstBuilder) -> bool {
    &&& m.wf()
    &&& printable_module(m)
    &&& scope.wf()
    &&& scope.levels().len() >= 1
    &&& scope_below(scope.levels(), m.nv())
    &&& ctx.curr_func matches Some(f) ==> f.0 < m.nv() && m.class_of(f.0 as int) is Function
    &&& b.bb matches Some(bb) ==> bb.0 < m.nv() && m.class_of(bb.0 as int) is BasicBlock && m.bb_parent(bb.0 as int)
        < m.nv()
    &&& ctx.curr_func matches Some(f) ==> (b.bb matches Some(bb) ==> m.bb_parent(bb.0 as int) == f.0)
}

pub proof fn lemma_inv_grows(m1: Module, m0: Module, scope: Scope, ctx: Context, b: InstBuilder)
    requires
        gen_inv(m0, scope, ctx, b),
        grows(m1, m0),
        m1.wf(),
    ensures
        gen_inv(m1, scope, ctx, b),
{
    assert forall|k: int, name: Seq<char>|
        0 <= k < scope.levels().len() && #[trigger] scope.levels()[k].contains_key(name) implies scope.levels()[k][name].0
        < m1.nv() by {
    }
    match ctx.curr_func {
        Some(f) => {
            assert(same_class_kind(m1.class_of(f.0 as int), m0.class_of(f.0 as int)));
        },
        None => {},
    }
    match b.bb {
        Some(bb) => {
            assert(same_class_kind(m1.class_of(bb.0 as int), m0.class_of(bb.0 as int)));
        },
        None => {},
    }
}

/// Every block of `m0` other than `b` keeps its instructions in `m1`.
pub open spec fn blocks_kept_but(m1: Module, m0: Module, b: Option<BasicBlockPtr>) -> bool {
    forall|x: int|
        0 <= x < m0.nv() && m0.class_of(x) is BasicBlock && b != Some(BasicBlockPtr(x as usize)) ==> #[trigger] m1.bb_insts(x)
            == m0.bb_insts(x)
}

/// Blocks kept across two steps, where the second step's excepted block is
/// the first's or one created in the first step.
pub proof fn lemma_blocks_kept_trans(
    m2: Module,
    m1: Module,
    m0: Module,
    b1: Option<BasicBlockPtr>,
    b0: Option<BasicBlockPtr>,
)
    requires
        blocks_kept_but(m2, m1, b1),
        blocks_kept_but(m1, m0, b0),
        grows(m1, m0),
        b1 == b0 || (b1 matches Some(x) && x.0 >= m0.nv()),
    ensures
        blocks_kept_but(m2, m0, b0),
{
    assert forall|x: int|
        0 <= x < m0.nv() && m0.class_of(x) is BasicBlock && b0 != Some(BasicBlockPtr(x as usize)) implies #[trigger] m2.bb_insts(
        x,
    ) == m0.bb_insts(x) by {
        assert(same_class_kind(m1.class_of(x), m0.class_of(x)));
        assert(m1.bb_insts(x) == m0.bb_insts(x));
    }
}

/// Every block of `m0` other than `b` and `c` keeps its instructions in
/// `m1`.
pub open spec fn blocks_kept_but_two(m1: Module, m0: Module, b: Option<BasicBlockPtr>, c: usize) -> bool {
    forall|x: int|
        0 <= x < m0.nv() && m0.class_of(x) is BasicBlock && b != Some(BasicBlockPtr(x as usize)) && x != c
            ==> #[trigger] m1.bb_insts(x) == m0.bb_insts(x)
}

/// Two steps of growth keeping blocks, the second excepting its own
/// insertion block and a block `c`, both created in the first step (or the
/// first step's excepted block).
pub proof fn lemma_blocks_kept_trans_two(
    m2: Module,
    m1: Module,
    m0: Module,
    b1: Option<BasicBlockPtr>,
    c: usize,
    b0: Option<BasicBlockPtr>,
)
    requires
        blocks_kept_but_two(m2, m1, b1, c),
        blocks_kept_but(m1, m0, b0),
        grows(m1, m0),
        b1 == b0 || (b1 matches Some(x) && x.0 >= m0.nv()),
        c >= m0.nv(),
    ensures
        blocks_kept_but(m2, m0, b0),
{
    assert forall|x: int|
        0 <= x < m0.nv() && m0.class_of(x) is BasicBlock && b0 != Some(BasicBlockPtr(x as usize)) implies #[trigger] m2.bb_insts(
        x,
    ) == m0.bb_insts(x) by {
        assert(same_class_kind(m1.class_of(x), m0.class_of(x)));
        assert(m1.bb_insts(x) == m0.bb_insts(x));
    }
}

/// Blocks are kept across no step.
pub proof fn lemma_blocks_kept_refl(m: Module, b: Option<BasicBlockPtr>)
    ensures
        blocks_kept_but(m, m, b),
{
}

/// The IR generator: its context, scopes, insertion point, module, and
/// the loops being generated around the insertion point (each as its
/// condition block and the block that follows it, innermost last).
pub struct IRGenerator {
    pub context: Context,
    pub scope: Scope,
    pub buidler: InstBuilder,
    pub m: Module,
    pub loops: Vec<(BasicBlockPtr, BasicBlockPtr)>,
}

/// Every loop target in `loops` is a block of `m`.
pub open spec fn loops_in(m: Module, loops: Seq<(BasicBlockPtr, BasicBlockPtr)>) -> bool {
    forall|i: int|
        0 <= i < loops.len() ==> {
            &&& (#[trigger] loops[i]).0.0 < m.nv()
            &&& m.class_of(loops[i].0.0 as int) is BasicBlock
            &&& loops[i].1.0 < m.nv()
            &&& m.class_of(loops[i].1.0 as int) is BasicBlock
        }
}

/// Loop targets stay blocks as the module grows.
pub proof fn lemma_loops_grow(m1: Module, m0: Module, loops: Seq<(BasicBlockPtr, BasicBlockPtr)>)
    requires
        loops_in(m0, loops),
        grows(m1, m0),
    ensures
        loops_in(m1, loops),
{
    assert forall|i: int| 0 <= i < loops.len() implies {
        &&& (#[trigger] loops[i]).0.0 < m1.nv()
        &&& m1.class_of(loops[i].0.0 as int) is BasicBlock
        &&& loops[i].1.0 < m1.nv()
        &&& m1.class_of(loops[i].1.0 as int) is BasicBlock
    } by {
        assert(same_class_kind(m1.class_of(loops[i].0.0 as int), m0.class_of(loops[i].0.0 as int)));
        assert(same_class_kind(m1.class_of(loops[i].1.0 as int), m0.class_of(loops[i].1.0 as int)));
    }
}

impl IRGenerator {
    pub open spec fn inv(&self) -> bool {
        gen_inv(self.m, self.scope, self.context, self.buidler)
    }

    /// The type of value `v`.
    pub open spec fn ty(&self, v: ValuePtr) -> TypeData {
        self.m.tdata_of(self.m.type_of(v.0 as int) as int)
    }
}

impl IRGenerator {
    /// Scopes, context and insertion point are as in `old`.
    pub open spec fn same_place(&self, old: IRGenerator) -> bool {
        &&& self.scope == old.scope
        &&& self.context == old.context
        &&& self.buidler == old.buidler
        &&& self.loops@ == old.loops@
        &&& blocks_kept_but(self.m, old.m, old.buidler.bb)
    }

    /// The type index of value `v`.
    pub(crate) fn type_of_val(&self, v: ValuePtr) -> (r: usize)
        requires
            self.inv(),
            v.0 < self.m.nv(),
        ensures
            r == self.m.type_of(v.0 as int),
            r < self.m.nt(),
    {
        proof {
            assert(crate::ir::module::value_below(self.m.values@[v.0 as int], self.m.nt(), self.m.nv()));
        }
        self.m.values[v.0].type_
    }

    /// The open insertion block.
    pub(crate) fn insert_block(&self) -> (r: Result<BasicBlockPtr, GenError>)
        requires
            self.inv(),
        ensures
            r matches Ok(b) ==> open_block(self.m, b) && self.buidler.bb == Some(b) && self.m.bb_parent(b.0 as int)
                < self.m.nv(),
            r is Ok <==> (self.buidler.bb is Some && !terminated_spec(self.m, self.buidler.bb.unwrap().0 as int)),
    {
        match self.buidler.bb {
            None => Err(GenError::NoInsertPoint),
            Some(b) => {
                if b.is_terminated(&self.m) {
                    Err(GenError::BlockTerminated)
                } else {
                    Ok(b)
                }
            },
        }
    }

    /// A new integer constant `val`, entered in the constant pool.
    pub(crate) fn const_int(&mut self, val: i32) -> (r: ValuePtr)
        requires
            old(self).inv(),
        ensures
            final(self).inv(),
            grows(final(self).m, old(self).m),
            final(self).same_place(*old(self)),
            r.0 == old(self).m.nv(),
            r.0 < final(self).m.nv(),
            final(self).m.class_of(r.0 as int) == ValueClass::Constant(ConstantClass::Int(val)),
            final(self).m.type_of(r.0 as int) == INT_TY,
            final(self).can_insert() == old(self).can_insert(),
    {
        let ghost m0 = self.m;
        let t = self.m.get_int_ty();
        let c = ConstantPtr::new_int(&mut self.m, t, String::new(), val);
        self.m.add_const(c.0);
        proof {
            if self.buidler.bb is Some {
                lemma_terminated_kept(self.m, m0, self.buidler.bb.unwrap().0 as int);
            }
            lemma_grows_frame(self.m, m0);
            lemma_inv_grows(self.m, m0, self.scope, self.context, self.buidler);
        }
        c.to_val()
    }

    /// A new float constant with bit pattern `bits`, entered in the constant
    /// pool.
    pub(crate) fn const_float(&mut self, bits: u32) -> (r: ValuePtr)
        requires
            old(self).inv(),
        ensures
            final(self).inv(),
            grows(final(self).m, old(self).m),
            final(self).same_place(*old(self)),
            r.0 == old(self).m.nv(),
            r.0 < final(self).m.nv(),
            final(self).m.class_of(r.0 as int) == ValueClass::Constant(ConstantClass::Float(bits)),
            final(self).m.type_of(r.0 as int) == FLOAT_TY,
            final(self).can_insert() == old(self).can_insert(),
    {
        let ghost m0 = self.m;
        let t = self.m.get_float_ty();
        let c = ConstantPtr::new_float(&mut self.m, t, String::new(), bits);
        self.m.add_const(c.0);
        proof {
            if self.buidler.bb is Some {
                lemma_terminated_kept(self.m, m0, self.buidler.bb.unwrap().0 as int);
            }
            lemma_grows_frame(self.m, m0);
            lemma_inv_grows(self.m, m0, self.scope, self.context, self.buidler);
        }
        c.to_val()
    }

    /// A new zero-initialiser constant of type `ty`, entered in the constant
    /// pool.
    pub(crate) fn const_zero(&mut self, ty: usize) -> (r: ValuePtr)
        requires
            old(self).inv(),
            ty < old(self).m.nt(),
        ensures
            final(self).inv(),
            grows(final(self).m, old(self).m),
            final(self).same_place(*old(self)),
            r.0 == old(self).m.nv(),
            r.0 < final(self).m.nv(),
            final(self).m.class_of(r.0 as int) == ValueClass::Constant(ConstantClass::Zero),
            final(self).m.type_of(r.0 as int) == ty,
            final(self).can_insert() == old(self).can_insert(),
    {
        let ghost m0 = self.m;
        let c = ConstantPtr::new_zero(&mut self.m, ty, String::new());
        self.m.add_const(c.0);
        proof {
            if self.buidler.bb is Some {
                lemma_terminated_kept(self.m, m0, self.buidler.bb.unwrap().0 as int);
            }
            lemma_grows_frame(self.m, m0);
            lemma_inv_grows(self.m, m0, self.scope, self.context, self.buidler);
        }
        c.to_val()
    }

    /// Converts an `i32` (or `i1`) value to `float` at the insertion point.
    pub(crate) fn emit_sitofp(&mut self, v: ValuePtr) -> (r: Result<ValuePtr, GenError>)
        requires
            old(self).inv(),
            v.0 < old(self).m.nv(),
            crate::ir::inst_impl::int_or_bool(old(self).m, old(self).m.type_of(v.0 as int)),
        ensures
            final(self).inv(),
            grows(final(self).m, old(self).m),
            final(self).same_place(*old(self)),
            r matches Ok(x) ==> x.0 < final(self).m.nv() && final(self).m.type_of(x.0 as int) == FLOAT_TY,
            r matches Ok(x) ==> x.0 == old(self).m.nv(),
            r is Ok <==> old(self).can_insert(),
            r is Ok ==> final(self).can_insert(),
            r matches Ok(x) ==> inst_with(final(self).m, x, |id: OpID| id == OpID::SIToFP) && final(self).m.ops(x.0 as int)
                == seq![v.0],
            forall|w: int| 0 <= w < old(self).m.nv() ==> #[trigger] final(self).m.ops(w) == old(self).m.ops(w),
    {
        let ghost m0 = self.m;
        let b = self.insert_block()?;
        let i = InstPtr::sitofp_inst(&mut self.m, v, b);
        proof {
            assert forall|w: int| 0 <= w < m0.nv() implies #[trigger] self.m.ops(w) == m0.ops(w) by {
                assert(self.m.values@[w].type_ == m0.values@[w].type_);
            }
            lemma_grows_inst(self.m, m0, i.0, FLOAT_TY, OpID::SIToFP, b.0, seq![v.0], crate::ir::inst_impl::insts_of(m0, b).push(i.0), Seq::empty());
            lemma_inv_grows(self.m, m0, self.scope, self.context, self.buidler);
        }
        Ok(i.to_val())
    }

    /// Makes both operands `float` when one is an `i32` and the other a
    /// `float`.
    pub(crate) fn promote(&mut self, l: ValuePtr, r: ValuePtr) -> (res: Result<(ValuePtr, ValuePtr), GenError>)
        requires
            old(self).inv(),
            l.0 < old(self).m.nv(),
            r.0 < old(self).m.nv(),
        ensures
            final(self).inv(),
            grows(final(self).m, old(self).m),
            final(self).same_place(*old(self)),
            res matches Ok((a, b)) ==> {
                &&& a.0 < final(self).m.nv()
                &&& b.0 < final(self).m.nv()
                &&& if old(self).ty(l) is IntegerType && old(self).ty(r) is FloatType {
                    final(self).ty(a) is FloatType && b == r
                } else if old(self).ty(l) is FloatType && old(self).ty(r) is IntegerType {
                    a == l && final(self).ty(b) is FloatType
                } else {
                    a == l && b == r
                }
            },
            res is Ok <==> (!(int_val(old(self).m, l) && float_val(old(self).m, r) || float_val(old(self).m, l) && int_val(
                old(self).m,
                r,
            )) || old(self).can_insert()),
            res is Ok ==> final(self).can_insert() == old(self).can_insert(),
            res matches Ok((a, b)) ==> promoted(final(self).m, a.0, l.0) && promoted(final(self).m, b.0, r.0),
    {
        let ghost m0 = self.m;
        let lt = self.type_of_val(l);
        let rt = self.type_of_val(r);
        if self.m.ty(lt).is_int() && self.m.ty(rt).is_float() {
            let nl = self.emit_sitofp(l)?;
            assert(self.m.types@[FLOAT_TY as int] == m0.types@[FLOAT_TY as int]);
            Ok((nl, r))
        } else if self.m.ty(lt).is_float() && self.m.ty(rt).is_int() {
            let nr = self.emit_sitofp(r)?;
            assert(self.m.types@[FLOAT_TY as int] == m0.types@[FLOAT_TY as int]);
            Ok((l, nr))
        } else {
            proof {
                lemma_grows_refl(self.m);
            }
            Ok((l, r))
        }
    }
}

/// `x` is an instruction `id` of the module on operands `l` and `r`.
pub open spec fn binary_inst(m: Module, x: ValuePtr, id: OpID, l: ValuePtr, r: ValuePtr) -> bool {
    &&& m.class_of(x.0 as int) is Inst
    &&& m.inst_op(x.0 as int) == id
    &&& m.ops(x.0 as int) == seq![l.0, r.0]
}

/// `val` differs from type `target` by `i32`/`float` or `i1`/`i32`, so
/// converting it takes an instruction.
pub open spec fn conversion_needed(m: Module, val: ValuePtr, target: usize) -> bool {
    let vt = m.type_of(val.0 as int);
    &&& vt != target
    &&& ((m.tdata_of(vt as int) is IntegerType || m.tdata_of(vt as int) is BoolType) && m.tdata_of(target as int) is FloatType)
        || ((m.tdata_of(vt as int) is FloatType || m.tdata_of(vt as int) is BoolType) && m.tdata_of(target as int) is IntegerType)
}

/// `x` in `m` is `val` (of type data `vt` in the module before) converted
/// to type data `t`: `sitofp` from `i32`, `fptosi` from `float`, `zext`
/// from `i1` to `i32`, and `zext` to `i32` then `sitofp` from `i1` to
/// `float`.
pub open spec fn converted(m: Module, x: ValuePtr, val: ValuePtr, vt: TypeData, t: TypeData) -> bool {
    let one_step = |id: OpID| m.class_of(x.0 as int) is Inst && m.inst_op(x.0 as int) == id && m.ops(x.0 as int) == seq![val.0];
    if vt is IntegerType && t is FloatType {
        one_step(OpID::SIToFP)
    } else if vt is FloatType && t is IntegerType {
        one_step(OpID::FPToSI)
    } else if vt is BoolType && t is IntegerType {
        one_step(OpID::ZExt)
    } else {
        &&& m.class_of(x.0 as int) is Inst
        &&& m.inst_op(x.0 as int) == OpID::SIToFP
        &&& m.ops(x.0 as int).len() == 1
        &&& m.class_of(m.ops(x.0 as int)[0] as int) is Inst
        &&& m.inst_op(m.ops(x.0 as int)[0] as int) == OpID::ZExt
        &&& m.type_of(m.ops(x.0 as int)[0] as int) == INT_TY
        &&& m.ops(m.ops(x.0 as int)[0] as int) == seq![val.0]
    }
}

/// `ptr` points to an `i32`, a `float` or a pointer.
pub open spec fn loadable_ptr(m: Module, ptr: ValuePtr) -> bool {
    ptr_elem_spec(m.tdata_of(m.type_of(ptr.0 as int) as int)) matches Some(e) && (m.tdata_of(e as int) is IntegerType
        || m.tdata_of(e as int) is FloatType || m.tdata_of(e as int) is PointerType)
}

/// `v` is a value of the module whose type is `i32`.
pub open spec fn int_val(m: Module, v: ValuePtr) -> bool {
    v.0 < m.nv() && m.tdata_of(m.type_of(v.0 as int) as int) is IntegerType
}

/// `v` is a value of the module whose type is `float`.
pub open spec fn float_val(m: Module, v: ValuePtr) -> bool {
    v.0 < m.nv() && m.tdata_of(m.type_of(v.0 as int) as int) is FloatType
}

/// `v` is a value of the module whose type is `i1`.
pub open spec fn bool_val(m: Module, v: ValuePtr) -> bool {
    v.0 < m.nv() && m.tdata_of(m.type_of(v.0 as int) as int) is BoolType
}

impl IRGenerator {
    /// Whether `v` is an `i32`.
    pub(crate) fn is_int(&self, v: ValuePtr) -> (r: bool)
        requires
            self.inv(),
            v.0 < self.m.nv(),
        ensures
            r == int_val(self.m, v),
    {
        let t = self.type_of_val(v);
        self.m.ty(t).is_int()
    }

    /// Whether `v` is a `float`.
    pub(crate) fn is_float(&self, v: ValuePtr) -> (r: bool)
        requires
            self.inv(),
            v.0 < self.m.nv(),
        ensures
            r == float_val(self.m, v),
    {
        let t = self.type_of_val(v);
        self.m.ty(t).is_float()
    }

    /// Whether `v` is an `i1`.
    pub(crate) fn is_bool(&self, v: ValuePtr) -> (r: bool)
        requires
            self.inv(),
            v.0 < self.m.nv(),
        ensures
            r == bool_val(self.m, v),
    {
        let t = self.type_of_val(v);
        self.m.ty(t).is_bool()
    }

    /// Integer arithmetic `id` on two `i32` values at the insertion point.
    pub(crate) fn emit_int_arith(&mut self, id: OpID, l: ValuePtr, r: ValuePtr) -> (res: Result<ValuePtr, GenError>)
        requires
            old(self).inv(),
            l.0 < old(self).m.nv(),
            r.0 < old(self).m.nv(),
            id == OpID::Add || id == OpID::Sub || id == OpID::Mul || id == OpID::SDiv,
        ensures
            final(self).inv(),
            grows(final(self).m, old(self).m),
            final(self).same_place(*old(self)),
            res matches Ok(x) ==> int_val(final(self).m, x),
            res is Ok <==> int_val(old(self).m, l) && int_val(old(self).m, r) && old(self).can_insert(),
            res is Ok ==> final(self).can_insert(),
            res matches Ok(x) ==> binary_inst(final(self).m, x, id, l, r),
            res matches Ok(x) ==> x.0 == old(self).m.nv(),
    {
        let ghost m0 = self.m;
        if !(self.is_int(l) && self.is_int(r)) {
            return Err(GenError::TypeMismatch);
        }
        let b = self.insert_block()?;
        let i = InstPtr::ibinary_inst(&mut self.m, id, l, r, b);
        proof {
            lemma_grows_inst(self.m, m0, i.0, INT_TY, id, b.0, seq![l.0, r.0], crate::ir::inst_impl::insts_of(m0, b).push(i.0), Seq::empty());
            lemma_inv_grows(self.m, m0, self.scope, self.context, self.buidler);
            assert(self.m.types@[INT_TY as int] == m0.types@[INT_TY as int]);
        }
        Ok(i.to_val())
    }

    /// Float arithmetic `id` on two `float` values at the insertion point;
    /// the result is a `float`.
    pub(crate) fn emit_float_arith(&mut self, id: OpID, l: ValuePtr, r: ValuePtr) -> (res: Result<ValuePtr, GenError>)
        requires
            old(self).inv(),
            l.0 < old(self).m.nv(),
            r.0 < old(self).m.nv(),
            id == OpID::FAdd || id == OpID::FSub || id == OpID::FMul || id == OpID::FDiv,
        ensures
            final(self).inv(),
            grows(final(self).m, old(self).m),
            final(self).same_place(*old(self)),
            res matches Ok(x) ==> float_val(final(self).m, x),
            res is Ok <==> float_val(old(self).m, l) && float_val(old(self).m, r) && old(self).can_insert(),
            res is Ok ==> final(self).can_insert(),
            res matches Ok(x) ==> binary_inst(final(self).m, x, id, l, r),
            res matches Ok(x) ==> x.0 == old(self).m.nv(),
    {
        let ghost m0 = self.m;
        if !(self.is_float(l) && self.is_float(r)) {
            return Err(GenError::TypeMismatch);
        }
        let b = self.insert_block()?;
        let i = InstPtr::fbinary_inst(&mut self.m, id, l, r, b);
        proof {
            lemma_grows_inst(self.m, m0, i.0, FLOAT_TY, id, b.0, seq![l.0, r.0], crate::ir::inst_impl::insts_of(m0, b).push(i.0), Seq::empty());
            lemma_inv_grows(self.m, m0, self.scope, self.context, self.buidler);
            assert(self.m.types@[FLOAT_TY as int] == m0.types@[FLOAT_TY as int]);
        }
        Ok(i.to_val())
    }

    /// Integer comparison `id` on two `i32`/`i1` values at the insertion
    /// point.
    pub(crate) fn emit_int_compare(&mut self, id: OpID, l: ValuePtr, r: ValuePtr) -> (res: Result<ValuePtr, GenError>)
        requires
            old(self).inv(),
            l.0 < old(self).m.nv(),
            r.0 < old(self).m.nv(),
            id == OpID::Ge || id == OpID::Gt || id == OpID::Le || id == OpID::Lt || id == OpID::Eq || id == OpID::Ne,
        ensures
            final(self).inv(),
            grows(final(self).m, old(self).m),
            final(self).same_place(*old(self)),
            res matches Ok(x) ==> bool_val(final(self).m, x),
            res matches Ok(x) ==> binary_inst(final(self).m, x, id, l, r),
            res is Ok <==> (int_val(old(self).m, l) || bool_val(old(self).m, l)) && (int_val(old(self).m, r) || bool_val(
                old(self).m,
                r,
            )) && old(self).can_insert(),
            res is Ok ==> final(self).can_insert(),
            res matches Ok(x) ==> x.0 == old(self).m.nv(),
    {
        let ghost m0 = self.m;
        if !((self.is_int(l) || self.is_bool(l)) && (self.is_int(r) || self.is_bool(r))) {
            return Err(GenError::TypeMismatch);
        }
        let b = self.insert_block()?;
        let i = InstPtr::icmp_inst(&mut self.m, id, l, r, b);
        proof {
            lemma_grows_inst(self.m, m0, i.0, BOOL_TY, id, b.0, seq![l.0, r.0], crate::ir::inst_impl::insts_of(m0, b).push(i.0), Seq::empty());
            lemma_inv_grows(self.m, m0, self.scope, self.context, self.buidler);
        }
        Ok(i.to_val())
    }

    /// Float comparison `id` on two `float` values at the insertion point.
    pub(crate) fn emit_float_compare(&mut self, id: OpID, l: ValuePtr, r: ValuePtr) -> (res: Result<ValuePtr, GenError>)
        requires
            old(self).inv(),
            l.0 < old(self).m.nv(),
            r.0 < old(self).m.nv(),
            id == OpID::FGe || id == OpID::FGt || id == OpID::FLe || id == OpID::FLt || id == OpID::FEq || id == OpID::FNe,
        ensures
            final(self).inv(),
            grows(final(self).m, old(self).m),
            final(self).same_place(*old(self)),
            res matches Ok(x) ==> bool_val(final(self).m, x),
            res matches Ok(x) ==> binary_inst(final(self).m, x, id, l, r),
            res is Ok <==> float_val(old(self).m, l) && float_val(old(self).m, r) && old(self).can_insert(),
            res is Ok ==> final(self).can_insert(),
            res matches Ok(x) ==> x.0 == old(self).m.nv(),
    {
        let ghost m0 = self.m;
        if !(self.is_float(l) && self.is_float(r)) {
            return Err(GenError::TypeMismatch);
        }
        let b = self.insert_block()?;
        let i = InstPtr::fcmp_inst(&mut self.m, id, l, r, b);
        proof {
            lemma_grows_inst(self.m, m0, i.0, BOOL_TY, id, b.0, seq![l.0, r.0], crate::ir::inst_impl::insts_of(m0, b).push(i.0), Seq::empty());
            lemma_inv_grows(self.m, m0, self.scope, self.context, self.buidler);
        }
        Ok(i.to_val())
    }

    /// Converts `val` to the type at index `target` where the two differ
    /// by `i32`/`float` or `i1`/`i32`; any other value is kept.
    pub(crate) fn convert_to_target(&mut self, val: ValuePtr, target: usize) -> (res: Result<ValuePtr, GenError>)
        requires
            old(self).inv(),
            val.0 < old(self).m.nv(),
            target < old(self).m.nt(),
        ensures
            final(self).inv(),
            grows(final(self).m, old(self).m),
            final(self).same_place(*old(self)),
            res matches Ok(x) ==> x.0 < final(self).m.nv(),
            res matches Ok(x) ==> {
                let vt = old(self).m.type_of(val.0 as int);
                let t = old(self).m.tdata_of(target as int);
                if vt == target {
                    x == val
                } else if (old(self).ty(val) is IntegerType || old(self).ty(val) is BoolType) && t is FloatType {
                    final(self).ty(x) is FloatType
                } else if (old(self).ty(val) is FloatType || old(self).ty(val) is BoolType) && t is IntegerType {
                    final(self).m.type_of(x.0 as int) == target
                } else {
                    x == val
                }
            },
            res is Ok <==> (!conversion_needed(old(self).m, val, target) || old(self).can_insert()),
            res is Ok ==> final(self).can_insert() == old(self).can_insert(),
            res matches Ok(x) ==> converted_to(final(self).m, x.0, val.0, target),
            !conversion_needed(old(self).m, val, target) ==> res == Ok::<ValuePtr, GenError>(val) && *final(self) == *old(
                self,
            ),
            res matches Ok(x) ==> (conversion_needed(old(self).m, val, target) ==> x.0 >= old(self).m.nv()),
            res matches Ok(x) ==> (conversion_needed(old(self).m, val, target) ==> converted(
                final(self).m,
                x,
                val,
                old(self).ty(val),
                old(self).m.tdata_of(target as int),
            )),
    {
        let ghost m0 = self.m;
        let vt = self.type_of_val(val);
        proof {
            lemma_grows_refl(self.m);
        }
        if vt == target {
            return Ok(val);
        }
        let vint = self.m.ty(vt).is_int();
        let vfloat = self.m.ty(vt).is_float();
        let vbool = self.m.ty(vt).is_bool();
        let tint = self.m.ty(target).is_int();
        let tfloat = self.m.ty(target).is_float();
        if vint && tfloat {
            let r = self.emit_sitofp(val)?;
            assert(self.m.types@[FLOAT_TY as int] == m0.types@[FLOAT_TY as int]);
            Ok(r)
        } else if vfloat && tint {
            let b = self.insert_block()?;
            let i = InstPtr::fptosi_inst(&mut self.m, val, target, b);
            proof {
                lemma_grows_inst(self.m, m0, i.0, target, OpID::FPToSI, b.0, seq![val.0], crate::ir::inst_impl::insts_of(m0, b).push(i.0), Seq::empty());
                lemma_inv_grows(self.m, m0, self.scope, self.context, self.buidler);
            }
            Ok(i.to_val())
        } else if vbool && tint {
            let b = self.insert_block()?;
            let i = InstPtr::zext_inst(&mut self.m, val, target, b);
            proof {
                lemma_grows_inst(self.m, m0, i.0, target, OpID::ZExt, b.0, seq![val.0], crate::ir::inst_impl::insts_of(m0, b).push(i.0), Seq::empty());
                lemma_inv_grows(self.m, m0, self.scope, self.context, self.buidler);
            }
            Ok(i.to_val())
        } else if vbool && tfloat {
            let b = self.insert_block()?;
            let z = InstPtr::zext_to_i32_inst(&mut self.m, val, b);
            let ghost m1 = self.m;
            proof {
                lemma_grows_inst(self.m, m0, z.0, INT_TY, OpID::ZExt, b.0, seq![val.0], crate::ir::inst_impl::insts_of(m0, b).push(z.0), Seq::empty());
                lemma_inv_grows(self.m, m0, self.scope, self.context, self.buidler);
                assert(self.m.bb_insts(b.0 as int).last() == z.0);
                assert(self.can_insert());
            }
            let r = self.emit_sitofp(z.to_val())?;
            proof {
                lemma_grows_trans(self.m, m1, m0);
                assert(self.m.types@[FLOAT_TY as int] == m0.types@[FLOAT_TY as int]);
                assert(self.m.ops(z.0 as int) == m1.ops(z.0 as int));
            }
            Ok(r)
        } else {
            Ok(val)
        }
    }

    /// `val` as an `i1`: kept if it is one, else compared not-equal with
    /// zero (of its own type).
    #[verifier::rlimit(40)]
    pub(crate) fn to_bool(&mut self, val: ValuePtr) -> (res: Result<ValuePtr, GenError>)
        requires
            old(self).inv(),
            val.0 < old(self).m.nv(),
        ensures
            final(self).inv(),
            grows(final(self).m, old(self).m),
            final(self).same_place(*old(self)),
            res matches Ok(x) ==> bool_val(final(self).m, x),
            res matches Ok(x) ==> (bool_val(old(self).m, val) ==> x == val),
            res is Ok <==> bool_val(old(self).m, val) || ((int_val(old(self).m, val) || float_val(old(self).m, val))
                && old(self).can_insert()),
            res is Ok ==> final(self).can_insert() == old(self).can_insert(),
            res matches Ok(x) ==> (!bool_val(old(self).m, val) ==> inst_with(
                final(self).m,
                x,
                |id: OpID| id == OpID::Ne || id == OpID::FNe,
            ) && final(self).m.ops(x.0 as int).len() == 2 && final(self).m.ops(x.0 as int)[0] == val.0),
            res matches Ok(x) ==> (int_val(old(self).m, val) ==> final(self).m.inst_op(x.0 as int) == OpID::Ne
                && final(self).m.class_of(final(self).m.ops(x.0 as int)[1] as int) == ValueClass::Constant(
                ConstantClass::Int(0),
            )),
            res matches Ok(x) ==> (float_val(old(self).m, val) ==> final(self).m.inst_op(x.0 as int) == OpID::FNe
                && final(self).m.class_of(final(self).m.ops(x.0 as int)[1] as int) == ValueClass::Constant(
                ConstantClass::Float(0),
            )),
            bool_val(old(self).m, val) ==> res == Ok::<ValuePtr, GenError>(val) && *final(self) == *old(self),
            res matches Ok(x) ==> (!bool_val(old(self).m, val) ==> x.0 >= old(self).m.nv()),
    {
        let ghost m0 = self.m;
        if self.is_bool(val) {
            proof {
                lemma_grows_refl(self.m);
            }
            Ok(val)
        } else if self.is_int(val) {
            let zero = self.const_int(0);
            let r = self.emit_int_compare(OpID::Ne, val, zero);
            proof {
                lemma_grows_trans(self.m, m0, m0);
            }
            r
        } else {
            let zero = self.const_float(0);
            let ghost m1 = self.m;
            assert(float_val(m1, zero));
            let r = self.emit_float_compare(OpID::FNe, val, zero);
            r
        }
    }
}

impl IRGenerator {
    /// The generator moved on from `old`: its invariant holds, the module
    /// grew, and the scopes, context and insertion point are unchanged.
    pub open spec fn stepped(&self, old: IRGenerator) -> bool {
        &&& self.inv()
        &&& grows(self.m, old.m)
        &&& self.same_place(old)
    }

    /// The parameter types of function `f`.
    pub(crate) fn func_params(&self, f: FunctionPtr) -> (r: Vec<usize>)
        requires
            self.inv(),
            f.0 < self.m.nv(),
        ensures
            r@ == crate::ir::func_impl::func_param_tys(self.m, f.0 as int),
            crate::ir::module::seq_below(r@, self.m.nt()),
    {
        let t = self.type_of_val(f.to_val());
        proof {
            assert(crate::ir::type_::tdata_children_below(self.m.tdata_of(t as int), t as nat));
        }
        match self.m.ty(t).tdata() {
            TypeData::FunctionType(ft) => crate::ir::value_impl::copy_indices(&ft.args),
            _ => Vec::new(),
        }
    }

    /// A load through `ptr` at the insertion point.
    pub(crate) fn emit_load(&mut self, ptr: ValuePtr) -> (res: Result<ValuePtr, GenError>)
        requires
            old(self).inv(),
            ptr.0 < old(self).m.nv(),
        ensures
            final(self).stepped(*old(self)),
            res matches Ok(x) ==> x.0 < final(self).m.nv(),
            res matches Ok(x) ==> inst_with(final(self).m, x, |id: OpID| id == OpID::Load) && final(self).m.ops(x.0 as int)
                == seq![ptr.0],
            res matches Ok(x) ==> ptr_elem_spec(old(self).m.tdata_of(old(self).m.type_of(ptr.0 as int) as int)) == Some(
                final(self).m.type_of(x.0 as int),
            ),
            res is Ok <==> loadable_ptr(old(self).m, ptr) && old(self).can_insert(),
            res is Ok ==> final(self).can_insert(),
    {
        let ghost m0 = self.m;
        proof {
            lemma_grows_refl(self.m);
        }
        let t = self.type_of_val(ptr);
        proof {
            assert(crate::ir::type_::tdata_children_below(self.m.tdata_of(t as int), t as nat));
        }
        let e = match self.m.ty(t).get_ptr_elem_ty() {
            Some(e) => e,
            None => {
                return Err(GenError::TypeMismatch);
            },
        };
        let et = self.m.ty(e);
        if !(et.is_int() || et.is_float() || et.is_ptr()) {
            return Err(GenError::TypeMismatch);
        }
        let b = self.insert_block()?;
        let i = InstPtr::load_inst(&mut self.m, ptr, b);
        proof {
            lemma_grows_inst(self.m, m0, i.0, e, OpID::Load, b.0, seq![ptr.0], crate::ir::inst_impl::insts_of(m0, b).push(i.0), Seq::empty());
            lemma_inv_grows(self.m, m0, self.scope, self.context, self.buidler);
        }
        Ok(i.to_val())
    }

    /// An address computation from `base` through `idxs` at the insertion
    /// point.
    pub(crate) fn emit_gep(&mut self, base: ValuePtr, idxs: Vec<ValuePtr>) -> (res: Result<ValuePtr, GenError>)
        requires
            old(self).inv(),
            base.0 < old(self).m.nv(),
            forall|i: int| 0 <= i < idxs@.len() ==> (#[trigger] idxs@[i]).0 < old(self).m.nv(),
        ensures
            final(self).stepped(*old(self)),
            res matches Ok(x) ==> x.0 < final(self).m.nv(),
            res matches Ok(x) ==> inst_with(final(self).m, x, |id: OpID| id == OpID::GetElementPtr),
            res matches Ok(x) ==> final(self).m.ops(x.0 as int) == seq![base.0] + crate::ir::inst_impl::ptr_ids(idxs@),
            res is Ok <==> crate::ir::inst_impl::gep_ok(old(self).m, old(self).m.type_of(base.0 as int), idxs@.len())
                && (forall|i: int|
                0 <= i < idxs@.len() ==> crate::ir::inst_impl::int_or_bool(
                    old(self).m,
                    old(self).m.type_of((#[trigger] idxs@[i]).0 as int),
                )) && old(self).can_insert(),
            res is Ok ==> final(self).can_insert(),
    {
        let ghost m0 = self.m;
        proof {
            lemma_grows_refl(self.m);
        }
        let t = self.type_of_val(base);
        if !InstPtr::gep_check(&self.m, t, idxs.len()) {
            return Err(GenError::TypeMismatch);
        }
        let n = idxs.len();
        let mut k: usize = 0;
        while k < n
            invariant
                self.m == m0,
                self.inv(),
                n == idxs@.len(),
                0 <= k <= n,
                forall|i: int| 0 <= i < idxs@.len() ==> (#[trigger] idxs@[i]).0 < m0.nv(),
                forall|i: int|
                    0 <= i < k ==> crate::ir::inst_impl::int_or_bool(m0, m0.type_of((#[trigger] idxs@[i]).0 as int)),
            decreases n - k,
        {
            if !(self.is_int(idxs[k]) || self.is_bool(idxs[k])) {
                return Err(GenError::TypeMismatch);
            }
            k = k + 1;
        }
        let b = self.insert_block()?;
        let ghost ids = idxs@;
        let i = InstPtr::gep_inst(&mut self.m, base, idxs, b);
        proof {
            lemma_grows_inst(
                self.m,
                m0,
                i.0,
                self.m.type_of(i.0 as int),
                OpID::GetElementPtr,
                b.0,
                seq![base.0] + crate::ir::inst_impl::ptr_ids(ids),
                crate::ir::inst_impl::insts_of(m0, b).push(i.0),
                Seq::empty(),
            );
            lemma_inv_grows(self.m, m0, self.scope, self.context, self.buidler);
        }
        Ok(i.to_val())
    }
}

/// What folding a constant expression gives, as far as it is fixed without
/// float arithmetic: an exact integer, a refusal, or an outcome left open
/// (where a float takes part).
pub enum Folded {
    Exact(i32),
    Refused,
    Open,
}

/// Folding `l op r` from the foldings of its operands.
pub open spec fn fold_combine(op: IntOp, l: Folded, r: Folded) -> Folded {
    match (l, r) {
        (Folded::Refused, _) => Folded::Refused,
        (_, Folded::Refused) => Folded::Refused,
        (Folded::Exact(a), Folded::Exact(b)) => match int_fold(op, a, b) {
            Some(v) => Folded::Exact(v),
            None => Folded::Refused,
        },
        _ => Folded::Open,
    }
}

/// Folding of a primary expression, names looked up in `levels` and their
/// constants read in `m`.
pub open spec fn fold_prim(p: PrimaryExp, m: Module, levels: Seq<Map<Seq<char>, ValuePtr>>) -> Folded
    decreases p,
{
    match p {
        PrimaryExp::Number(Number::IntConst(i)) => Folded::Exact(i),
        PrimaryExp::Number(Number::FloatConst(_)) => Folded::Open,
        PrimaryExp::Exp(e) => fold_add(e.item, m, levels),
        PrimaryExp::LVal(l) => match lookup(levels, l.ident@) {
            None => Folded::Refused,
            Some(v) => match m.class_of(v.0 as int) {
                ValueClass::Constant(ConstantClass::Int(i)) => Folded::Exact(i),
                ValueClass::Constant(ConstantClass::Float(_)) => Folded::Open,
                _ => Folded::Refused,
            },
        },
    }
}

/// Folding of a unary expression: a call is refused.
pub open spec fn fold_unary(u: UnaryExp, m: Module, levels: Seq<Map<Seq<char>, ValuePtr>>) -> Folded
    decreases u,
{
    match u {
        UnaryExp::PrimaryExp(p) => fold_prim(*p, m, levels),
        UnaryExp::CallExp(_, _) => Folded::Refused,
        UnaryExp::UnaryExp(op, b) => match fold_unary(*b, m, levels) {
            Folded::Exact(x) => match op {
                UnaryOp::Pos => Folded::Exact(x),
                UnaryOp::Minus => match int_fold(IntOp::Sub, 0, x) {
                    Some(v) => Folded::Exact(v),
                    None => Folded::Refused,
                },
                UnaryOp::Not => Folded::Exact(if x == 0 { 1 } else { 0 }),
            },
            Folded::Refused => Folded::Refused,
            Folded::Open => Folded::Open,
        },
    }
}

/// Folding of a multiplicative expression.
pub open spec fn fold_mul(e: MulExp, m: Module, levels: Seq<Map<Seq<char>, ValuePtr>>) -> Folded
    decreases e,
{
    match e {
        MulExp::UnaryExp(a) => fold_unary(*a, m, levels),
        MulExp::MulExp(a, op, c) => fold_combine(
            match op {
                MulOp::Mul => IntOp::Mul,
                MulOp::Div => IntOp::Div,
                MulOp::Mod => IntOp::Rem,
            },
            fold_mul(*a, m, levels),
            fold_unary(c, m, levels),
        ),
    }
}

/// Folding of an additive expression.
pub open spec fn fold_add(e: AddExp, m: Module, levels: Seq<Map<Seq<char>, ValuePtr>>) -> Folded
    decreases e,
{
    match e {
        AddExp::MulExp(a) => fold_mul(*a, m, levels),
        AddExp::AddExp(a, op, c) => fold_combine(
            match op {
                AddOp::Add => IntOp::Add,
                AddOp::Sub => IntOp::Sub,
            },
            fold_add(*a, m, levels),
            fold_mul(c, m, levels),
        ),
    }
}

/// Folding reads the module's values only: two modules with the same
/// values fold a primary expression alike.
pub proof fn lemma_fold_prim_values(p: PrimaryExp, m1: Module, m0: Module, levels: Seq<Map<Seq<char>, ValuePtr>>)
    requires
        m1.values@ == m0.values@,
    ensures
        fold_prim(p, m1, levels) == fold_prim(p, m0, levels),
    decreases p,
{
    match p {
        PrimaryExp::Exp(e) => lemma_fold_add_values(e.item, m1, m0, levels),
        _ => {},
    }
}

/// Two modules with the same values fold a unary expression alike.
pub proof fn lemma_fold_unary_values(u: UnaryExp, m1: Module, m0: Module, levels: Seq<Map<Seq<char>, ValuePtr>>)
    requires
        m1.values@ == m0.values@,
    ensures
        fold_unary(u, m1, levels) == fold_unary(u, m0, levels),
    decreases u,
{
    match u {
        UnaryExp::PrimaryExp(p) => lemma_fold_prim_values(*p, m1, m0, levels),
        UnaryExp::CallExp(_, _) => {},
        UnaryExp::UnaryExp(_, b) => lemma_fold_unary_values(*b, m1, m0, levels),
    }
}

/// Two modules with the same values fold a multiplicative expression alike.
pub proof fn lemma_fold_mul_values(e: MulExp, m1: Module, m0: Module, levels: Seq<Map<Seq<char>, ValuePtr>>)
    requires
        m1.values@ == m0.values@,
    ensures
        fold_mul(e, m1, levels) == fold_mul(e, m0, levels),
    decreases e,
{
    match e {
        MulExp::UnaryExp(a) => lemma_fold_unary_values(*a, m1, m0, levels),
        MulExp::MulExp(a, _, c) => {
            lemma_fold_mul_values(*a, m1, m0, levels);
            lemma_fold_unary_values(c, m1, m0, levels);
        },
    }
}

/// Two modules with the same values fold an additive expression alike.
pub proof fn lemma_fold_add_values(e: AddExp, m1: Module, m0: Module, levels: Seq<Map<Seq<char>, ValuePtr>>)
    requires
        m1.values@ == m0.values@,
    ensures
        fold_add(e, m1, levels) == fold_add(e, m0, levels),
    decreases e,
{
    match e {
        AddExp::MulExp(a) => lemma_fold_mul_values(*a, m1, m0, levels),
        AddExp::AddExp(a, _, c) => {
            lemma_fold_add_values(*a, m1, m0, levels);
            lemma_fold_mul_values(c, m1, m0, levels);
        },
    }
}

/// Every name `l0` binds is bound alike in `l1`.
pub open spec fn lookups_kept(l1: Seq<Map<Seq<char>, ValuePtr>>, l0: Seq<Map<Seq<char>, ValuePtr>>) -> bool {
    forall|n: Seq<char>| #[trigger] lookup(l0, n) is Some ==> lookup(l1, n) == lookup(l0, n)
}

/// A combination folds exactly only where both operands do.
pub proof fn lemma_combine_exact(op: IntOp, l: Folded, r: Folded)
    requires
        fold_combine(op, l, r) is Exact,
    ensures
        l is Exact,
        r is Exact,
{
}

/// An exact folding of a primary expression stays as the module grows and
/// the names it reads stay bound alike.
pub proof fn lemma_fold_prim_exact_kept(
    p: PrimaryExp,
    m1: Module,
    m0: Module,
    l1: Seq<Map<Seq<char>, ValuePtr>>,
    l0: Seq<Map<Seq<char>, ValuePtr>>,
)
    requires
        grows(m1, m0),
        scope_below(l0, m0.nv()),
        lookups_kept(l1, l0),
        fold_prim(p, m0, l0) is Exact,
    ensures
        fold_prim(p, m1, l1) == fold_prim(p, m0, l0),
    decreases p,
{
    match p {
        PrimaryExp::Exp(e) => lemma_fold_add_exact_kept(e.item, m1, m0, l1, l0),
        PrimaryExp::LVal(l) => {
            lemma_lookup_below(l0, l.ident@, m0.nv());
            assert(lookup(l0, l.ident@) is Some);
            assert(lookup(l1, l.ident@) == lookup(l0, l.ident@));
        },
        _ => {},
    }
}

/// An exact folding of a unary expression stays alike.
pub proof fn lemma_fold_unary_exact_kept(
    u: UnaryExp,
    m1: Module,
    m0: Module,
    l1: Seq<Map<Seq<char>, ValuePtr>>,
    l0: Seq<Map<Seq<char>, ValuePtr>>,
)
    requires
        grows(m1, m0),
        scope_below(l0, m0.nv()),
        lookups_kept(l1, l0),
        fold_unary(u, m0, l0) is Exact,
    ensures
        fold_unary(u, m1, l1) == fold_unary(u, m0, l0),
    decreases u,
{
    match u {
        UnaryExp::PrimaryExp(p) => lemma_fold_prim_exact_kept(*p, m1, m0, l1, l0),
        UnaryExp::UnaryExp(_, b) => lemma_fold_unary_exact_kept(*b, m1, m0, l1, l0),
        UnaryExp::CallExp(_, _) => {},
    }
}

/// An exact folding of a multiplicative expression stays alike.
pub proof fn lemma_fold_mul_exact_kept(
    e: MulExp,
    m1: Module,
    m0: Module,
    l1: Seq<Map<Seq<char>, ValuePtr>>,
    l0: Seq<Map<Seq<char>, ValuePtr>>,
)
    requires
        grows(m1, m0),
        scope_below(l0, m0.nv()),
        lookups_kept(l1, l0),
        fold_mul(e, m0, l0) is Exact,
    ensures
        fold_mul(e, m1, l1) == fold_mul(e, m0, l0),
    decreases e,
{
    match e {
        MulExp::UnaryExp(a) => lemma_fold_unary_exact_kept(*a, m1, m0, l1, l0),
        MulExp::MulExp(a, op, c) => {
            let iop = match op {
                MulOp::Mul => IntOp::Mul,
                MulOp::Div => IntOp::Div,
                MulOp::Mod => IntOp::Rem,
            };
            lemma_combine_exact(iop, fold_mul(*a, m0, l0), fold_unary(c, m0, l0));
            lemma_fold_mul_exact_kept(*a, m1, m0, l1, l0);
            lemma_fold_unary_exact_kept(c, m1, m0, l1, l0);
        },
    }
}

/// An exact folding of an additive expression stays as the module grows
/// and the names it reads stay bound alike.
pub proof fn lemma_fold_add_exact_kept(
    e: AddExp,
    m1: Module,
    m0: Module,
    l1: Seq<Map<Seq<char>, ValuePtr>>,
    l0: Seq<Map<Seq<char>, ValuePtr>>,
)
    requires
        grows(m1, m0),
        scope_below(l0, m0.nv()),
        lookups_kept(l1, l0),
        fold_add(e, m0, l0) is Exact,
    ensures
        fold_add(e, m1, l1) == fold_add(e, m0, l0),
    decreases e,
{
    match e {
        AddExp::MulExp(a) => lemma_fold_mul_exact_kept(*a, m1, m0, l1, l0),
        AddExp::AddExp(a, op, c) => {
            let iop = match op {
                AddOp::Add => IntOp::Add,
                AddOp::Sub => IntOp::Sub,
            };
            lemma_combine_exact(iop, fold_add(*a, m0, l0), fold_mul(c, m0, l0));
            lemma_fold_add_exact_kept(*a, m1, m0, l1, l0);
            lemma_fold_mul_exact_kept(c, m1, m0, l1, l0);
        },
    }
}

/// The instructions an additive operator becomes (integer or float).
pub open spec fn add_op_ids(op: AddOp, id: OpID) -> bool {
    match op {
        AddOp::Add => id == OpID::Add || id == OpID::FAdd,
        AddOp::Sub => id == OpID::Sub || id == OpID::FSub,
    }
}

/// The instructions a multiplicative operator ends with (`%` ends with the
/// subtraction of `a - (a / b) * b`).
pub open spec fn mul_op_ids(op: MulOp, id: OpID) -> bool {
    match op {
        MulOp::Mul => id == OpID::Mul || id == OpID::FMul,
        MulOp::Div => id == OpID::SDiv || id == OpID::FDiv,
        MulOp::Mod => id == OpID::Sub || id == OpID::FSub,
    }
}

/// `v` is an instruction of `m` whose opcode satisfies `ok`.
pub open spec fn inst_with(m: Module, v: ValuePtr, ok: spec_fn(OpID) -> bool) -> bool {
    m.class_of(v.0 as int) is Inst && ok(m.inst_op(v.0 as int))
}

/// `x` is `v`, or `v` made a `float` by `sitofp` (as promotion does).
pub open spec fn promoted(m: Module, x: usize, v: usize) -> bool {
    x == v || (m.class_of(x as int) is Inst && m.inst_op(x as int) == OpID::SIToFP && m.ops(x as int) == seq![v])
}

/// `x` is a `sitofp` instruction (on one operand).
pub open spec fn is_sitofp(m: Module, x: usize) -> bool {
    m.class_of(x as int) is Inst && m.inst_op(x as int) == OpID::SIToFP && m.ops(x as int).len() == 1
}

/// `x` is the constant zero of `i32` or of `float`.
pub open spec fn zero_const(m: Module, x: usize) -> bool {
    m.class_of(x as int) == ValueClass::Constant(ConstantClass::Int(0)) || m.class_of(x as int) == ValueClass::Constant(
        ConstantClass::Float(0),
    )
}

/// What an additive expression computes outside a constant expression: a
/// binary operation gives the matching instruction on the (promoted)
/// values of its operands, in order.
pub open spec fn computed_add(m: Module, v: ValuePtr, e: AddExp, levels: Seq<Map<Seq<char>, ValuePtr>>) -> bool
    decreases e,
{
    match e {
        AddExp::MulExp(a) => computed_mul(m, v, *a, levels),
        AddExp::AddExp(a, op, c) => {
            &&& inst_with(m, v, |id: OpID| add_op_ids(op, id))
            &&& m.ops(v.0 as int).len() == 2
            &&& {
                let x = m.ops(v.0 as int)[0];
                ||| computed_add(m, ValuePtr(x), *a, levels)
                ||| is_sitofp(m, x) && computed_add(m, ValuePtr(m.ops(x as int)[0]), *a, levels)
            }
            &&& {
                let y = m.ops(v.0 as int)[1];
                ||| computed_mul(m, ValuePtr(y), c, levels)
                ||| is_sitofp(m, y) && computed_mul(m, ValuePtr(m.ops(y as int)[0]), c, levels)
            }
        },
    }
}

/// What a multiplicative expression computes outside a constant
/// expression: `*` and `/` the matching instruction on the (promoted)
/// values of its operands, in order; `a % b` the sequence
/// `a - (a / b) * b`.
pub open spec fn computed_mul(m: Module, v: ValuePtr, e: MulExp, levels: Seq<Map<Seq<char>, ValuePtr>>) -> bool
    decreases e,
{
    match e {
        MulExp::UnaryExp(a) => computed_unary(m, v, *a, levels),
        MulExp::MulExp(a, op, c) => {
            let s = v.0 as int;
            let (x, y) = if op == MulOp::Mod {
                let d = m.ops(m.ops(s)[1] as int)[0] as int;
                (m.ops(d)[0], m.ops(d)[1])
            } else {
                (m.ops(s)[0], m.ops(s)[1])
            };
            &&& inst_with(m, v, |id: OpID| mul_op_ids(op, id))
            &&& m.ops(s).len() == 2
            &&& op == MulOp::Mod ==> {
                let p = m.ops(s)[1] as int;
                let d = m.ops(p)[0] as int;
                &&& m.class_of(p) is Inst
                &&& (m.inst_op(p) == OpID::Mul || m.inst_op(p) == OpID::FMul)
                &&& m.ops(p).len() == 2
                &&& m.class_of(d) is Inst
                &&& (m.inst_op(d) == OpID::SDiv || m.inst_op(d) == OpID::FDiv)
                &&& m.ops(d).len() == 2
                &&& m.ops(s)[0] == m.ops(d)[0]
                &&& m.ops(p)[1] == m.ops(d)[1]
                &&& (m.inst_op(s) == OpID::Sub && m.inst_op(p) == OpID::Mul && m.inst_op(d) == OpID::SDiv) || (m.inst_op(s)
                    == OpID::FSub && m.inst_op(p) == OpID::FMul && m.inst_op(d) == OpID::FDiv)
            }
            &&& computed_mul(m, ValuePtr(x), *a, levels) || is_sitofp(m, x) && computed_mul(
                m,
                ValuePtr(m.ops(x as int)[0]),
                *a,
                levels,
            )
            &&& computed_unary(m, ValuePtr(y), c, levels) || is_sitofp(m, y) && computed_unary(
                m,
                ValuePtr(m.ops(y as int)[0]),
                c,
                levels,
            )
        },
    }
}

/// What a unary expression computes outside a constant expression: `+x`
/// the value of `x`, `-x` a subtraction from zero, `!x` an equality
/// compare with zero, a call a call of the function bound to the name.
pub open spec fn computed_unary(m: Module, v: ValuePtr, u: UnaryExp, levels: Seq<Map<Seq<char>, ValuePtr>>) -> bool
    decreases u,
{
    match u {
        UnaryExp::PrimaryExp(p) => computed_prim(m, v, *p, levels),
        UnaryExp::UnaryExp(UnaryOp::Pos, b) => computed_unary(m, v, *b, levels),
        UnaryExp::UnaryExp(UnaryOp::Minus, b) => {
            &&& inst_with(m, v, |id: OpID| id == OpID::Sub || id == OpID::FSub)
            &&& m.ops(v.0 as int).len() == 2
            &&& zero_const(m, m.ops(v.0 as int)[0])
            &&& computed_unary(m, ValuePtr(m.ops(v.0 as int)[1]), *b, levels)
        },
        UnaryExp::UnaryExp(UnaryOp::Not, b) => {
            &&& inst_with(m, v, |id: OpID| id == OpID::Eq || id == OpID::FEq)
            &&& m.ops(v.0 as int).len() == 2
            &&& zero_const(m, m.ops(v.0 as int)[1])
            &&& computed_unary(m, ValuePtr(m.ops(v.0 as int)[0]), *b, levels)
        },
        UnaryExp::CallExp(name, args) => {
            let f = m.ops(v.0 as int)[0] as int;
            &&& inst_with(m, v, |id: OpID| id == OpID::Call)
            &&& lookup(levels, name@) is Some
            &&& m.ops(v.0 as int).len() == call_args_len(args) + 1
            &&& f == lookup(levels, name@).unwrap().0
            &&& m.type_of(v.0 as int) == func_ret_ty(m, f)
            &&& forall|k: int|
                0 <= k < call_args_len(args) ==> #[trigger] m.type_of(m.ops(v.0 as int)[k + 1] as int) == func_param_tys(
                    m,
                    f,
                )[k]
        },
    }
}

/// The number of arguments a call passes.
pub open spec fn call_args_len(args: Option<FuncRParams>) -> int {
    match args {
        Some(ps) => ps.items@.len() as int,
        None => 0,
    }
}

/// What a primary expression computes outside a constant expression: a
/// number a new constant of it; a name without indices the value bound to
/// it or a load through it; a name with indices a load through an address
/// computation on the bound value, index 0 and one index per dimension; a
/// parenthesised expression its value.
pub open spec fn computed_prim(m: Module, v: ValuePtr, p: PrimaryExp, levels: Seq<Map<Seq<char>, ValuePtr>>) -> bool
    decreases p,
{
    match p {
        PrimaryExp::Number(Number::IntConst(i)) => m.class_of(v.0 as int) == ValueClass::Constant(ConstantClass::Int(i)),
        PrimaryExp::Number(Number::FloatConst(f)) => m.class_of(v.0 as int) == ValueClass::Constant(
            ConstantClass::Float(f),
        ),
        PrimaryExp::LVal(l) => if l.dims@.len() == 0 {
            &&& lookup(levels, l.ident@) is Some
            &&& (v == lookup(levels, l.ident@).unwrap() || (inst_with(m, v, |id: OpID| id == OpID::Load) && m.ops(
                v.0 as int,
            ) == seq![lookup(levels, l.ident@).unwrap().0]))
        } else {
            let g = m.ops(v.0 as int)[0] as int;
            &&& inst_with(m, v, |id: OpID| id == OpID::Load)
            &&& m.ops(v.0 as int).len() == 1
            &&& m.class_of(g) is Inst
            &&& m.inst_op(g) == OpID::GetElementPtr
            &&& m.ops(g).len() == l.dims@.len() + 2
            &&& lookup(levels, l.ident@) is Some
            &&& m.ops(g)[0] == lookup(levels, l.ident@).unwrap().0
        },
        PrimaryExp::Exp(e) => computed_add(m, v, e.item, levels),
    }
}

/// The kind of a type: 1 for `i32`, 2 for `float`, 3 for `i1`, 0 for any
/// other.
pub open spec fn tdata_kind(t: TypeData) -> int {
    if t is IntegerType {
        1
    } else if t is FloatType {
        2
    } else if t is BoolType {
        3
    } else {
        0
    }
}

/// The kind of the type of value `v` of `m`.
pub open spec fn val_kind(m: Module, v: ValuePtr) -> int {
    tdata_kind(m.tdata_of(m.type_of(v.0 as int) as int))
}

/// A number's kind: `i32` or `float`.
pub open spec fn num_kind(k: int) -> bool {
    k == 1 || k == 2
}

/// The kind of a binary arithmetic result on operands of kinds `k1` and
/// `k2`: `i32` on two `i32`s, `float` on numbers of which one is a
/// `float`, none otherwise.
pub open spec fn arith_kind(k1: int, k2: int) -> int {
    if k1 == 1 && k2 == 1 {
        1
    } else if num_kind(k1) && num_kind(k2) {
        2
    } else {
        0
    }
}

/// The kind a name bound to `v` gives in an expression: the number a
/// variable's address points to, or the number `v` is.
pub open spec fn name_kind(m: Module, v: ValuePtr) -> int {
    let t = m.tdata_of(m.type_of(v.0 as int) as int);
    let k = match t {
        TypeData::PointerType(p) => tdata_kind(m.tdata_of(p.item as int)),
        _ => tdata_kind(t),
    };
    if num_kind(k) {
        k
    } else {
        0
    }
}

/// The kind of value a primary expression computes where it is sure to
/// succeed (names without indices, numbers, parenthesised expressions);
/// 0 where nothing is promised.
pub open spec fn prim_kind(p: PrimaryExp, m: Module, levels: Seq<Map<Seq<char>, ValuePtr>>) -> int
    decreases p,
{
    match p {
        PrimaryExp::Number(Number::IntConst(_)) => 1,
        PrimaryExp::Number(Number::FloatConst(_)) => 2,
        PrimaryExp::LVal(l) => if l.dims@.len() == 0 && lookup(levels, l.ident@) is Some {
            name_kind(m, lookup(levels, l.ident@).unwrap())
        } else {
            0
        },
        PrimaryExp::Exp(e) => add_kind(e.item, m, levels),
    }
}

/// The kind of value a unary expression computes where it is sure to
/// succeed: `-x` keeps a number's kind, `!x` of a number is an `i1`; calls
/// are promised nothing.
pub open spec fn unary_kind(u: UnaryExp, m: Module, levels: Seq<Map<Seq<char>, ValuePtr>>) -> int
    decreases u,
{
    match u {
        UnaryExp::PrimaryExp(p) => prim_kind(*p, m, levels),
        UnaryExp::UnaryExp(UnaryOp::Pos, b) => unary_kind(*b, m, levels),
        UnaryExp::UnaryExp(UnaryOp::Minus, b) => if num_kind(unary_kind(*b, m, levels)) {
            unary_kind(*b, m, levels)
        } else {
            0
        },
        UnaryExp::UnaryExp(UnaryOp::Not, b) => if num_kind(unary_kind(*b, m, levels)) {
            3
        } else {
            0
        },
        UnaryExp::CallExp(_, _) => 0,
    }
}

/// The kind of value a multiplicative expression computes where it is
/// sure to succeed.
pub open spec fn mul_kind(e: MulExp, m: Module, levels: Seq<Map<Seq<char>, ValuePtr>>) -> int
    decreases e,
{
    match e {
        MulExp::UnaryExp(a) => unary_kind(*a, m, levels),
        MulExp::MulExp(a, _, c) => arith_kind(mul_kind(*a, m, levels), unary_kind(c, m, levels)),
    }
}

/// The kind of value an additive expression computes where it is sure to
/// succeed.
pub open spec fn add_kind(e: AddExp, m: Module, levels: Seq<Map<Seq<char>, ValuePtr>>) -> int
    decreases e,
{
    match e {
        AddExp::MulExp(a) => mul_kind(*a, m, levels),
        AddExp::AddExp(a, _, c) => arith_kind(add_kind(*a, m, levels), mul_kind(c, m, levels)),
    }
}

/// The kind of a comparison on operands of kinds `k1` and `k2`: an `i1`
/// where both are `i32` or `i1`, or both numbers; none otherwise.
pub open spec fn cmp_kind(k1: int, k2: int) -> int {
    if ((k1 == 1 || k1 == 3) && (k2 == 1 || k2 == 3)) || (num_kind(k1) && num_kind(k2)) {
        3
    } else {
        0
    }
}

/// In a well-formed module the `i32` and `float` types are the basic ones.
pub proof fn lemma_scalar_type_unique(m: Module, t: usize)
    requires
        m.wf(),
        t < m.nt(),
    ensures
        m.tdata_of(t as int) is IntegerType ==> t == INT_TY,
        m.tdata_of(t as int) is FloatType ==> t == FLOAT_TY,
{
    if m.tdata_of(t as int) is IntegerType && t != INT_TY {
        assert(crate::ir::type_::same_tdata(m.tdata_of(t as int), m.tdata_of(INT_TY as int)));
    }
    if m.tdata_of(t as int) is FloatType && t != FLOAT_TY {
        assert(crate::ir::type_::same_tdata(m.tdata_of(t as int), m.tdata_of(FLOAT_TY as int)));
    }
}

/// A value keeps its kind as the module grows.
pub proof fn lemma_val_kind_grows(m1: Module, m0: Module, v: ValuePtr)
    requires
        m0.wf(),
        grows(m1, m0),
        v.0 < m0.nv(),
    ensures
        val_kind(m1, v) == val_kind(m0, v),
        name_kind(m1, v) == name_kind(m0, v),
{
    assert(crate::ir::module::value_below(m0.values@[v.0 as int], m0.nt(), m0.nv()));
    let t = m0.type_of(v.0 as int);
    assert(m1.types@[t as int] == m0.types@[t as int]);
    assert(crate::ir::type_::tdata_children_below(m0.tdata_of(t as int), t as nat));
    if let TypeData::PointerType(p) = m0.tdata_of(t as int) {
        assert(m1.types@[p.item as int] == m0.types@[p.item as int]);
    }
}

/// The kind of a primary expression stays as the module grows.
pub proof fn lemma_prim_kind_grows(p: PrimaryExp, m1: Module, m0: Module, levels: Seq<Map<Seq<char>, ValuePtr>>)
    requires
        m0.wf(),
        grows(m1, m0),
        scope_below(levels, m0.nv()),
    ensures
        prim_kind(p, m1, levels) == prim_kind(p, m0, levels),
    decreases p,
{
    match p {
        PrimaryExp::LVal(l) => {
            lemma_lookup_below(levels, l.ident@, m0.nv());
            if let Some(v) = lookup(levels, l.ident@) {
                lemma_val_kind_grows(m1, m0, v);
            }
        },
        PrimaryExp::Exp(e) => lemma_add_kind_grows(e.item, m1, m0, levels),
        _ => {},
    }
}

/// The kind of a unary expression stays as the module grows.
pub proof fn lemma_unary_kind_grows(u: UnaryExp, m1: Module, m0: Module, levels: Seq<Map<Seq<char>, ValuePtr>>)
    requires
        m0.wf(),
        grows(m1, m0),
        scope_below(levels, m0.nv()),
    ensures
        unary_kind(u, m1, levels) == unary_kind(u, m0, levels),
    decreases u,
{
    match u {
        UnaryExp::PrimaryExp(p) => lemma_prim_kind_grows(*p, m1, m0, levels),
        UnaryExp::UnaryExp(_, b) => lemma_unary_kind_grows(*b, m1, m0, levels),
        UnaryExp::CallExp(_, _) => {},
    }
}

/// The kind of a multiplicative expression stays as the module grows.
pub proof fn lemma_mul_kind_grows(e: MulExp, m1: Module, m0: Module, levels: Seq<Map<Seq<char>, ValuePtr>>)
    requires
        m0.wf(),
        grows(m1, m0),
        scope_below(levels, m0.nv()),
    ensures
        mul_kind(e, m1, levels) == mul_kind(e, m0, levels),
    decreases e,
{
    match e {
        MulExp::UnaryExp(a) => lemma_unary_kind_grows(*a, m1, m0, levels),
        MulExp::MulExp(a, _, c) => {
            lemma_mul_kind_grows(*a, m1, m0, levels);
            lemma_unary_kind_grows(c, m1, m0, levels);
        },
    }
}

/// The kind of an additive expression stays as the module grows.
pub proof fn lemma_add_kind_grows(e: AddExp, m1: Module, m0: Module, levels: Seq<Map<Seq<char>, ValuePtr>>)
    requires
        m0.wf(),
        grows(m1, m0),
        scope_below(levels, m0.nv()),
    ensures
        add_kind(e, m1, levels) == add_kind(e, m0, levels),
    decreases e,
{
    match e {
        AddExp::MulExp(a) => lemma_mul_kind_grows(*a, m1, m0, levels),
        AddExp::AddExp(a, _, c) => {
            lemma_add_kind_grows(*a, m1, m0, levels);
            lemma_mul_kind_grows(c, m1, m0, levels);
        },
    }
}

/// `x` is `v` converted to the type `target` (or `v` itself where no
/// conversion is needed).
pub open spec fn converted_to(m: Module, x: usize, v: usize, target: usize) -> bool {
    if conversion_needed(m, ValuePtr(v), target) {
        converted(m, ValuePtr(x), ValuePtr(v), m.tdata_of(m.type_of(v as int) as int), m.tdata_of(target as int))
    } else {
        x == v
    }
}

/// A conversion stays as the module grows.
pub proof fn lemma_converted_to_grows(m1: Module, m0: Module, x: usize, v: usize, target: usize)
    requires
        m0.wf(),
        grows(m1, m0),
        x < m0.nv(),
        v < m0.nv(),
        target < m0.nt(),
        converted_to(m0, x, v, target),
    ensures
        converted_to(m1, x, v, target),
{
    assert(crate::ir::module::value_below(m0.values@[v as int], m0.nt(), m0.nv()));
    let t = m0.type_of(v as int);
    assert(m1.types@[t as int] == m0.types@[t as int]);
    assert(m1.types@[target as int] == m0.types@[target as int]);
    if conversion_needed(m0, ValuePtr(v), target) {
        lemma_inst_kept(m1, m0, x as int);
        lemma_ops_below(m0, x as int);
        if m0.ops(x as int).len() == 1 && m0.class_of(m0.ops(x as int)[0] as int) is Inst {
            lemma_inst_kept(m1, m0, m0.ops(x as int)[0] as int);
        }
    }
}

/// An instruction keeps its class and operands as the module grows.
pub proof fn lemma_inst_kept(m1: Module, m0: Module, x: int)
    requires
        grows(m1, m0),
        0 <= x < m0.nv(),
        m0.class_of(x) is Inst,
    ensures
        m1.class_of(x) == m0.class_of(x),
        m1.inst_op(x) == m0.inst_op(x),
        m1.ops(x) == m0.ops(x),
{
}

/// A promotion stays as the module grows.
pub proof fn lemma_promoted_grows(m1: Module, m0: Module, x: usize, v: usize)
    requires
        grows(m1, m0),
        x < m0.nv(),
        promoted(m0, x, v),
    ensures
        promoted(m1, x, v),
{
    if x != v {
        lemma_inst_kept(m1, m0, x as int);
    }
}

/// The operands of value `x` of a well-formed module are values of it.
pub proof fn lemma_ops_below(m: Module, x: int)
    requires
        m.wf(),
        0 <= x < m.nv(),
    ensures
        forall|k: int| 0 <= k < m.ops(x).len() ==> #[trigger] m.ops(x)[k] < m.nv(),
{
    assert(crate::ir::module::value_below(m.values@[x], m.nt(), m.nv()));
}

/// What an additive expression computes stays as the module grows.
pub proof fn lemma_computed_add_grows(m1: Module, m0: Module, v: ValuePtr, e: AddExp, levels: Seq<Map<Seq<char>, ValuePtr>>)
    requires
        m0.wf(),
        grows(m1, m0),
        v.0 < m0.nv(),
        computed_add(m0, v, e, levels),
    ensures
        computed_add(m1, v, e, levels),
    decreases e,
{
    match e {
        AddExp::MulExp(a) => lemma_computed_mul_grows(m1, m0, v, *a, levels),
        AddExp::AddExp(a, op, c) => {
            let x = v.0 as int;
            lemma_inst_kept(m1, m0, x);
            lemma_ops_below(m0, x);
            let l = m0.ops(x)[0];
            let r = m0.ops(x)[1];
            if computed_add(m0, ValuePtr(l), *a, levels) {
                lemma_computed_add_grows(m1, m0, ValuePtr(l), *a, levels);
            } else {
                lemma_inst_kept(m1, m0, l as int);
                lemma_ops_below(m0, l as int);
                lemma_computed_add_grows(m1, m0, ValuePtr(m0.ops(l as int)[0]), *a, levels);
            }
            if computed_mul(m0, ValuePtr(r), c, levels) {
                lemma_computed_mul_grows(m1, m0, ValuePtr(r), c, levels);
            } else {
                lemma_inst_kept(m1, m0, r as int);
                lemma_ops_below(m0, r as int);
                lemma_computed_mul_grows(m1, m0, ValuePtr(m0.ops(r as int)[0]), c, levels);
            }
        },
    }
}

/// An additive operation built on the values of its operands computes
/// the expression: the operands' values were computed in earlier modules
/// and promoted in a later one, and the instruction takes them in order.
pub proof fn lemma_add_built(
    m: Module,
    m1: Module,
    m2: Module,
    m3: Module,
    e: AddExp,
    inst: ValuePtr,
    lv: ValuePtr,
    rv: ValuePtr,
    x: ValuePtr,
    y: ValuePtr,
    levels: Seq<Map<Seq<char>, ValuePtr>>,
)
    requires
        m1.wf(),
        m2.wf(),
        grows(m2, m1),
        grows(m3, m2),
        grows(m, m3),
        lv.0 < m1.nv(),
        rv.0 < m2.nv(),
        x.0 < m3.nv(),
        y.0 < m3.nv(),
        e matches AddExp::AddExp(a, op, c) && computed_add(m1, lv, *a, levels) && computed_mul(m2, rv, c, levels)
            && inst_with(m, inst, |id: OpID| add_op_ids(op, id)),
        promoted(m3, x.0, lv.0),
        promoted(m3, y.0, rv.0),
        m.ops(inst.0 as int) == seq![x.0, y.0],
    ensures
        computed_add(m, inst, e, levels),
{
    if let AddExp::AddExp(a, op, c) = e {
        lemma_grows_trans(m3, m2, m1);
        lemma_grows_trans(m, m3, m1);
        lemma_grows_trans(m, m3, m2);
        lemma_computed_add_grows(m, m1, lv, *a, levels);
        lemma_computed_mul_grows(m, m2, rv, c, levels);
        lemma_promoted_grows(m, m3, x.0, lv.0);
        lemma_promoted_grows(m, m3, y.0, rv.0);
        assert(m.ops(inst.0 as int)[0] == x.0);
        assert(m.ops(inst.0 as int)[1] == y.0);
    }
}

/// A `*` or `/` built on the values of its operands computes the
/// expression (as for addition).
pub proof fn lemma_mul_built(
    m: Module,
    m1: Module,
    m2: Module,
    m3: Module,
    e: MulExp,
    inst: ValuePtr,
    lv: ValuePtr,
    rv: ValuePtr,
    x: ValuePtr,
    y: ValuePtr,
    levels: Seq<Map<Seq<char>, ValuePtr>>,
)
    requires
        m1.wf(),
        m2.wf(),
        grows(m2, m1),
        grows(m3, m2),
        grows(m, m3),
        lv.0 < m1.nv(),
        rv.0 < m2.nv(),
        x.0 < m3.nv(),
        y.0 < m3.nv(),
        e matches MulExp::MulExp(a, op, c) && op != MulOp::Mod && computed_mul(m1, lv, *a, levels) && computed_unary(
            m2,
            rv,
            c,
            levels,
        ) && inst_with(m, inst, |id: OpID| mul_op_ids(op, id)),
        promoted(m3, x.0, lv.0),
        promoted(m3, y.0, rv.0),
        m.ops(inst.0 as int) == seq![x.0, y.0],
    ensures
        computed_mul(m, inst, e, levels),
{
    if let MulExp::MulExp(a, op, c) = e {
        lemma_grows_trans(m3, m2, m1);
        lemma_grows_trans(m, m3, m1);
        lemma_grows_trans(m, m3, m2);
        lemma_computed_mul_grows(m, m1, lv, *a, levels);
        lemma_computed_unary_grows(m, m2, rv, c, levels);
        lemma_promoted_grows(m, m3, x.0, lv.0);
        lemma_promoted_grows(m, m3, y.0, rv.0);
    }
}

/// `a % b` built as `a - (a / b) * b` on the values of its operands
/// computes the expression.
pub proof fn lemma_rem_built(
    m: Module,
    m1: Module,
    m2: Module,
    m3: Module,
    e: MulExp,
    s: ValuePtr,
    p: ValuePtr,
    d: ValuePtr,
    lv: ValuePtr,
    rv: ValuePtr,
    x: ValuePtr,
    y: ValuePtr,
    levels: Seq<Map<Seq<char>, ValuePtr>>,
)
    requires
        m1.wf(),
        m2.wf(),
        grows(m2, m1),
        grows(m3, m2),
        grows(m, m3),
        lv.0 < m1.nv(),
        rv.0 < m2.nv(),
        x.0 < m3.nv(),
        y.0 < m3.nv(),
        e matches MulExp::MulExp(a, op, c) && op == MulOp::Mod && computed_mul(m1, lv, *a, levels) && computed_unary(
            m2,
            rv,
            c,
            levels,
        ),
        promoted(m3, x.0, lv.0),
        promoted(m3, y.0, rv.0),
        m.class_of(s.0 as int) is Inst,
        m.class_of(p.0 as int) is Inst,
        m.class_of(d.0 as int) is Inst,
        (m.inst_op(s.0 as int) == OpID::Sub && m.inst_op(p.0 as int) == OpID::Mul && m.inst_op(d.0 as int) == OpID::SDiv) || (
        m.inst_op(s.0 as int) == OpID::FSub && m.inst_op(p.0 as int) == OpID::FMul && m.inst_op(d.0 as int)
            == OpID::FDiv),
        m.ops(s.0 as int) == seq![x.0, p.0],
        m.ops(p.0 as int) == seq![d.0, y.0],
        m.ops(d.0 as int) == seq![x.0, y.0],
    ensures
        computed_mul(m, s, e, levels),
{
    if let MulExp::MulExp(a, op, c) = e {
        lemma_grows_trans(m3, m2, m1);
        lemma_grows_trans(m, m3, m1);
        lemma_grows_trans(m, m3, m2);
        lemma_computed_mul_grows(m, m1, lv, *a, levels);
        lemma_computed_unary_grows(m, m2, rv, c, levels);
        lemma_promoted_grows(m, m3, x.0, lv.0);
        lemma_promoted_grows(m, m3, y.0, rv.0);
    }
}

/// What a multiplicative expression computes stays as the module grows.
pub proof fn lemma_computed_mul_grows(m1: Module, m0: Module, v: ValuePtr, e: MulExp, levels: Seq<Map<Seq<char>, ValuePtr>>)
    requires
        m0.wf(),
        grows(m1, m0),
        v.0 < m0.nv(),
        computed_mul(m0, v, e, levels),
    ensures
        computed_mul(m1, v, e, levels),
    decreases e,
{
    match e {
        MulExp::UnaryExp(a) => lemma_computed_unary_grows(m1, m0, v, *a, levels),
        MulExp::MulExp(a, op, c) => {
            let s = v.0 as int;
            lemma_inst_kept(m1, m0, s);
            lemma_ops_below(m0, s);
            if op == MulOp::Mod {
                let p = m0.ops(s)[1] as int;
                lemma_inst_kept(m1, m0, p);
                lemma_ops_below(m0, p);
                let d = m0.ops(p)[0] as int;
                lemma_inst_kept(m1, m0, d);
                lemma_ops_below(m0, d);
            }
            let (x, y) = if op == MulOp::Mod {
                let d = m0.ops(m0.ops(s)[1] as int)[0] as int;
                (m0.ops(d)[0], m0.ops(d)[1])
            } else {
                (m0.ops(s)[0], m0.ops(s)[1])
            };
            lemma_ops_below(m0, x as int);
            lemma_ops_below(m0, y as int);
            if computed_mul(m0, ValuePtr(x), *a, levels) {
                lemma_computed_mul_grows(m1, m0, ValuePtr(x), *a, levels);
            } else {
                lemma_inst_kept(m1, m0, x as int);
                lemma_computed_mul_grows(m1, m0, ValuePtr(m0.ops(x as int)[0]), *a, levels);
            }
            if computed_unary(m0, ValuePtr(y), c, levels) {
                lemma_computed_unary_grows(m1, m0, ValuePtr(y), c, levels);
            } else {
                lemma_inst_kept(m1, m0, y as int);
                lemma_computed_unary_grows(m1, m0, ValuePtr(m0.ops(y as int)[0]), c, levels);
            }
        },
    }
}

/// What a unary expression computes stays as the module grows.
pub proof fn lemma_computed_unary_grows(m1: Module, m0: Module, v: ValuePtr, u: UnaryExp, levels: Seq<Map<Seq<char>, ValuePtr>>)
    requires
        m0.wf(),
        grows(m1, m0),
        v.0 < m0.nv(),
        computed_unary(m0, v, u, levels),
    ensures
        computed_unary(m1, v, u, levels),
    decreases u,
{
    match u {
        UnaryExp::PrimaryExp(p) => lemma_computed_prim_grows(m1, m0, v, *p, levels),
        UnaryExp::UnaryExp(UnaryOp::Pos, b) => lemma_computed_unary_grows(m1, m0, v, *b, levels),
        UnaryExp::UnaryExp(UnaryOp::Minus, b) => {
            lemma_inst_kept(m1, m0, v.0 as int);
            lemma_ops_below(m0, v.0 as int);
            lemma_computed_unary_grows(m1, m0, ValuePtr(m0.ops(v.0 as int)[1]), *b, levels);
        },
        UnaryExp::UnaryExp(UnaryOp::Not, b) => {
            lemma_inst_kept(m1, m0, v.0 as int);
            lemma_ops_below(m0, v.0 as int);
            lemma_computed_unary_grows(m1, m0, ValuePtr(m0.ops(v.0 as int)[0]), *b, levels);
        },
        UnaryExp::CallExp(_, args) => {
            lemma_inst_kept(m1, m0, v.0 as int);
            lemma_ops_below(m0, v.0 as int);
            let f = m0.ops(v.0 as int)[0] as int;
            crate::irgen::func::lemma_signature_kept(m1, m0, f);
            assert forall|k: int| 0 <= k < call_args_len(args) implies #[trigger] m1.type_of(
                m1.ops(v.0 as int)[k + 1] as int,
            ) == func_param_tys(m1, f)[k] by {
                assert(m0.ops(v.0 as int)[k + 1] < m0.nv());
                assert(m0.type_of(m0.ops(v.0 as int)[k + 1] as int) == func_param_tys(m0, f)[k]);
            }
        },
    }
}

/// What a primary expression computes stays as the module grows.
pub proof fn lemma_computed_prim_grows(m1: Module, m0: Module, v: ValuePtr, p: PrimaryExp, levels: Seq<Map<Seq<char>, ValuePtr>>)
    requires
        m0.wf(),
        grows(m1, m0),
        v.0 < m0.nv(),
        computed_prim(m0, v, p, levels),
    ensures
        computed_prim(m1, v, p, levels),
    decreases p,
{
    match p {
        PrimaryExp::Exp(e) => lemma_computed_add_grows(m1, m0, v, e.item, levels),
        PrimaryExp::LVal(l) => {
            if m0.class_of(v.0 as int) is Inst {
                lemma_inst_kept(m1, m0, v.0 as int);
                if l.dims@.len() > 0 {
                    lemma_ops_below(m0, v.0 as int);
                    lemma_inst_kept(m1, m0, m0.ops(v.0 as int)[0] as int);
                }
            }
        },
        _ => {},
    }
}

/// In a constant expression the generator is left as it was, and the
/// result is what folding fixes: the exact integer, or a refusal.
pub open spec fn folds_as(res: Result<Calcu, GenError>, f: Folded) -> bool {
    &&& f matches Folded::Exact(v) ==> res == Ok::<Calcu, GenError>(Calcu::Number(Number::IntConst(v)))
    &&& f is Refused ==> res is Err
}

/// A folded constant expression: the exact integer where folding fixes
/// one, an error where folding refuses.
pub open spec fn const_folds(res: Result<Number, GenError>, f: Folded) -> bool {
    &&& f matches Folded::Exact(v) ==> res == Ok::<Number, GenError>(Number::IntConst(v))
    &&& f is Refused ==> res is Err
}

/// What an expression gives: a number in a constant expression, else a
/// value of the module.
pub open spec fn calcu_ok(c: Calcu, is_const: bool, m: Module) -> bool {
    if is_const {
        c is Number
    } else {
        c matches Calcu::Value(v) && v.0 < m.nv()
    }
}

/// Maps a folding failure to a generation error.
fn fold_result(r: Result<Number, FoldError>) -> (res: Result<Number, GenError>)
    ensures
        r matches Ok(n) ==> res == Ok::<Number, GenError>(n),
        r matches Err(e) ==> res == Err::<Number, GenError>(GenError::Fold(e)),
{
    match r {
        Ok(n) => Ok(n),
        Err(e) => Err(GenError::Fold(e)),
    }
}

impl IRGenerator {
    /// An expression as a value: a folded number becomes a constant.
    pub fn visit_exp_as_value<A: FloatArith>(&mut self, exp: &Exp) -> (res: Result<ValuePtr, GenError>)
        requires
            old(self).inv(),
            !old(self).context.is_const,
        ensures
            final(self).stepped(*old(self)),
            res matches Ok(v) ==> v.0 < final(self).m.nv(),
            res matches Ok(v) ==> computed_add(final(self).m, v, exp.item, old(self).scope.levels()),
            old(self).can_insert() && add_kind(exp.item, old(self).m, old(self).scope.levels()) != 0 ==> (res matches Ok(v)
                && val_kind(final(self).m, v) == add_kind(exp.item, old(self).m, old(self).scope.levels()) && final(self).can_insert()),
        decreases exp,
    {
        let ghost m0 = self.m;
        let c = self.visit_add_exp::<A>(&exp.item)?;
        match c {
            Calcu::Value(v) => Ok(v),
            Calcu::Number(n) => {
                let ghost m1 = self.m;
                let v = match n {
                    Number::IntConst(i) => self.const_int(i),
                    Number::FloatConst(f) => self.const_float(f),
                };
                proof {
                    lemma_grows_trans(self.m, m1, m0);
                }
                Ok(v)
            },
        }
    }

    /// The value of an additive expression.
    pub(crate) fn visit_add_exp_as_value<A: FloatArith>(&mut self, add_exp: &AddExp) -> (res: Result<ValuePtr, GenError>)
        requires
            old(self).inv(),
            !old(self).context.is_const,
        ensures
            final(self).stepped(*old(self)),
            res matches Ok(v) ==> v.0 < final(self).m.nv(),
            res matches Ok(v) ==> computed_add(final(self).m, v, *add_exp, old(self).scope.levels()),
            old(self).can_insert() && add_kind(*add_exp, old(self).m, old(self).scope.levels()) != 0 ==> (res matches Ok(v)
                && val_kind(final(self).m, v) == add_kind(*add_exp, old(self).m, old(self).scope.levels()) && final(self).can_insert()),
    {
        let c = self.visit_add_exp::<A>(add_exp)?;
        Ok(c.unwrap_value())
    }

    /// An additive expression: folded in a constant expression, else
    /// computed at the insertion point (operands promoted to `float` when
    /// mixed).
    #[verifier::spinoff_prover]
    #[verifier::rlimit(80)]
    pub fn visit_add_exp<A: FloatArith>(&mut self, add_exp: &AddExp) -> (res: Result<Calcu, GenError>)
        requires
            old(self).inv(),
        ensures
            final(self).stepped(*old(self)),
            res matches Ok(c) ==> calcu_ok(c, old(self).context.is_const, final(self).m),
            old(self).context.is_const ==> *final(self) == *old(self),
            old(self).context.is_const ==> folds_as(res, fold_add(*add_exp, old(self).m, old(self).scope.levels())),
            res matches Ok(Calcu::Value(v)) ==> (!old(self).context.is_const ==> computed_add(final(self).m, v, *add_exp, old(self).scope.levels())),
            !old(self).context.is_const && old(self).can_insert() && add_kind(*add_exp, old(self).m, old(self).scope.levels()) != 0 ==> (res matches Ok(Calcu::Value(v)) && val_kind(final(self).m, v) == add_kind(*add_exp, old(self).m, old(self).scope.levels()) && final(self).can_insert()),
        decreases add_exp,
    {
        let ghost m0 = self.m;
        match add_exp {
            AddExp::MulExp(a) => self.visit_mul_exp::<A>(a),
            AddExp::AddExp(a, op, c) => {
                let l = self.visit_add_exp::<A>(a)?;
                let ghost m1 = self.m;
                proof {
                    lemma_mul_kind_grows(*c, m1, m0, old(self).scope.levels());
                }
                let r = self.visit_mul_exp::<A>(c)?;
                let ghost m2 = self.m;
                proof {
                    lemma_grows_trans(m2, m1, m0);
                }
                if self.context.is_const {
                    let ln = match l {
                        Calcu::Number(n) => n,
                        Calcu::Value(_) => {
                            return Err(GenError::WrongKind);
                        },
                    };
                    let rn = match r {
                        Calcu::Number(n) => n,
                        Calcu::Value(_) => {
                            return Err(GenError::WrongKind);
                        },
                    };
                    let v = match op {
                        AddOp::Add => fold_result(fold::<A>(IntOp::Add, ln, rn))?,
                        AddOp::Sub => fold_result(fold::<A>(IntOp::Sub, ln, rn))?,
                    };
                    Ok(Calcu::Number(v))
                } else {
                    let lv = l.unwrap_value();
                    let rv = r.unwrap_value();
                    proof {
                        lemma_val_kind_grows(m2, m1, lv);
                    }
                    let (x, y) = self.promote(lv, rv)?;
                    let ghost m3 = self.m;
                    let inst = if self.is_int(x) {
                        match op {
                            AddOp::Add => self.emit_int_arith(OpID::Add, x, y)?,
                            AddOp::Sub => self.emit_int_arith(OpID::Sub, x, y)?,
                        }
                    } else {
                        match op {
                            AddOp::Add => self.emit_float_arith(OpID::FAdd, x, y)?,
                            AddOp::Sub => self.emit_float_arith(OpID::FSub, x, y)?,
                        }
                    };
                    proof {
                        lemma_grows_trans(m3, m2, m0);
                        lemma_grows_trans(self.m, m3, m0);
                        assert(inst_with(self.m, inst, |id: OpID| add_op_ids(*op, id)));
                        assert(self.m.ops(inst.0 as int) == seq![x.0, y.0]);
                        lemma_add_built(self.m, m1, m2, m3, *add_exp, inst, lv, rv, x, y, old(self).scope.levels());
                    }
                    Ok(Calcu::Value(inst))
                }
            },
        }
    }

    /// A multiplicative expression: folded in a constant expression, else
    /// computed at the insertion point; `%` is `a - (a / b) * b`.
    #[verifier::spinoff_prover]
    #[verifier::rlimit(80)]
    pub fn visit_mul_exp<A: FloatArith>(&mut self, mul_exp: &MulExp) -> (res: Result<Calcu, GenError>)
        requires
            old(self).inv(),
        ensures
            final(self).stepped(*old(self)),
            res matches Ok(c) ==> calcu_ok(c, old(self).context.is_const, final(self).m),
            old(self).context.is_const ==> *final(self) == *old(self),
            old(self).context.is_const ==> folds_as(res, fold_mul(*mul_exp, old(self).m, old(self).scope.levels())),
            res matches Ok(Calcu::Value(v)) ==> (!old(self).context.is_const ==> computed_mul(final(self).m, v, *mul_exp, old(self).scope.levels())),
            !old(self).context.is_const && old(self).can_insert() && mul_kind(*mul_exp, old(self).m, old(self).scope.levels()) != 0 ==> (res matches Ok(Calcu::Value(v)) && val_kind(final(self).m, v) == mul_kind(*mul_exp, old(self).m, old(self).scope.levels()) && final(self).can_insert()),
        decreases mul_exp,
    {
        let ghost m0 = self.m;
        match mul_exp {
            MulExp::UnaryExp(a) => self.visit_unary_exp::<A>(a),
            MulExp::MulExp(a, op, c) => {
                let l = self.visit_mul_exp::<A>(a)?;
                let ghost m1 = self.m;
                proof {
                    lemma_unary_kind_grows(*c, m1, m0, old(self).scope.levels());
                }
                let r = self.visit_unary_exp::<A>(c)?;
                let ghost m2 = self.m;
                proof {
                    lemma_grows_trans(m2, m1, m0);
                }
                if self.context.is_const {
                    let ln = match l {
                        Calcu::Number(n) => n,
                        Calcu::Value(_) => {
                            return Err(GenError::WrongKind);
                        },
                    };
                    let rn = match r {
                        Calcu::Number(n) => n,
                        Calcu::Value(_) => {
                            return Err(GenError::WrongKind);
                        },
                    };
                    let v = match op {
                        MulOp::Mul => fold_result(fold::<A>(IntOp::Mul, ln, rn))?,
                        MulOp::Div => fold_result(fold::<A>(IntOp::Div, ln, rn))?,
                        MulOp::Mod => fold_result(fold::<A>(IntOp::Rem, ln, rn))?,
                    };
                    Ok(Calcu::Number(v))
                } else {
                    let lv = l.unwrap_value();
                    let rv = r.unwrap_value();
                    proof {
                        lemma_val_kind_grows(m2, m1, lv);
                    }
                    let (x, y) = self.promote(lv, rv)?;
                    let ghost m3 = self.m;
                    let ghost levels = old(self).scope.levels();
                    let inst = if self.is_int(x) {
                        match op {
                            MulOp::Mul => {
                                let r = self.emit_int_arith(OpID::Mul, x, y)?;
                                proof {
                                    lemma_mul_built(self.m, m1, m2, m3, *mul_exp, r, lv, rv, x, y, levels);
                                }
                                r
                            },
                            MulOp::Div => {
                                let r = self.emit_int_arith(OpID::SDiv, x, y)?;
                                proof {
                                    lemma_mul_built(self.m, m1, m2, m3, *mul_exp, r, lv, rv, x, y, levels);
                                }
                                r
                            },
                            MulOp::Mod => {
                                let d = self.emit_int_arith(OpID::SDiv, x, y)?;
                                let ghost m4 = self.m;
                                let p = self.emit_int_arith(OpID::Mul, d, y)?;
                                let ghost m5 = self.m;
                                let s = self.emit_int_arith(OpID::Sub, x, p)?;
                                proof {
                                    lemma_grows_trans(m5, m4, m3);
                                    lemma_grows_trans(self.m, m5, m3);
                                    lemma_grows_trans(self.m, m5, m4);
                                    lemma_inst_kept(self.m, m4, d.0 as int);
                                    lemma_inst_kept(self.m, m5, p.0 as int);
                                    lemma_rem_built(self.m, m1, m2, m3, *mul_exp, s, p, d, lv, rv, x, y, levels);
                                }
                                s
                            },
                        }
                    } else {
                        match op {
                            MulOp::Mul => {
                                let r = self.emit_float_arith(OpID::FMul, x, y)?;
                                proof {
                                    lemma_mul_built(self.m, m1, m2, m3, *mul_exp, r, lv, rv, x, y, levels);
                                }
                                r
                            },
                            MulOp::Div => {
                                let r = self.emit_float_arith(OpID::FDiv, x, y)?;
                                proof {
                                    lemma_mul_built(self.m, m1, m2, m3, *mul_exp, r, lv, rv, x, y, levels);
                                }
                                r
                            },
                            MulOp::Mod => {
                                let d = self.emit_float_arith(OpID::FDiv, x, y)?;
                                let ghost m4 = self.m;
                                let p = self.emit_float_arith(OpID::FMul, d, y)?;
                                let ghost m5 = self.m;
                                let s = self.emit_float_arith(OpID::FSub, x, p)?;
                                proof {
                                    lemma_grows_trans(m5, m4, m3);
                                    lemma_grows_trans(self.m, m5, m3);
                                    lemma_grows_trans(self.m, m5, m4);
                                    lemma_inst_kept(self.m, m4, d.0 as int);
                                    lemma_inst_kept(self.m, m5, p.0 as int);
                                    lemma_rem_built(self.m, m1, m2, m3, *mul_exp, s, p, d, lv, rv, x, y, levels);
                                }
                                s
                            },
                        }
                    };
                    proof {
                        lemma_grows_trans(m3, m2, m0);
                        lemma_grows_trans(self.m, m3, m0);
                    }
                    Ok(Calcu::Value(inst))
                }
            },
        }
    }

    /// A unary expression: folded in a constant expression (a call there is
    /// refused), else computed at the insertion point; `-x` is `0 - x`,
    /// `!x` is `x == 0`.
    #[verifier::spinoff_prover]
    #[verifier::rlimit(80)]
    pub fn visit_unary_exp<A: FloatArith>(&mut self, unary_exp: &UnaryExp) -> (res: Result<Calcu, GenError>)
        requires
            old(self).inv(),
        ensures
            final(self).stepped(*old(self)),
            res matches Ok(c) ==> calcu_ok(c, old(self).context.is_const, final(self).m),
            old(self).context.is_const ==> *final(self) == *old(self),
            old(self).context.is_const ==> folds_as(res, fold_unary(*unary_exp, old(self).m, old(self).scope.levels())),
            res matches Ok(Calcu::Value(v)) ==> (!old(self).context.is_const ==> computed_unary(
                final(self).m,
                v,
                *unary_exp,
                old(self).scope.levels(),
            )),
            !old(self).context.is_const && old(self).can_insert() && unary_kind(*unary_exp, old(self).m, old(self).scope.levels()) != 0 ==> (res matches Ok(Calcu::Value(v)) && val_kind(final(self).m, v) == unary_kind(*unary_exp, old(self).m, old(self).scope.levels()) && final(self).can_insert()),
        decreases unary_exp,
    {
        let ghost m0 = self.m;
        proof {
            lemma_grows_refl(self.m);
        }
        match unary_exp {
            UnaryExp::PrimaryExp(a) => self.visit_prim_exp::<A>(a),
            UnaryExp::UnaryExp(op, b) => {
                let v = self.visit_unary_exp::<A>(b)?;
                let ghost m1 = self.m;
                if self.context.is_const {
                    let n = match v {
                        Calcu::Number(n) => n,
                        Calcu::Value(_) => {
                            return Err(GenError::WrongKind);
                        },
                    };
                    let r = match op {
                        UnaryOp::Minus => fold_result(fold::<A>(IntOp::Sub, Number::IntConst(0), n))?,
                        UnaryOp::Not => {
                            if as_int::<A>(&n) == 0 {
                                Number::IntConst(1)
                            } else {
                                Number::IntConst(0)
                            }
                        },
                        UnaryOp::Pos => n,
                    };
                    Ok(Calcu::Number(r))
                } else {
                    let val = v.unwrap_value();
                    let result = match op {
                        UnaryOp::Pos => val,
                        UnaryOp::Minus => {
                            if self.is_int(val) {
                                let zero = self.const_int(0);
                                let ghost m2 = self.m;
                                let r = self.emit_int_arith(OpID::Sub, zero, val)?;
                                proof {
                                    lemma_grows_trans(self.m, m2, m1);
                                    lemma_computed_unary_grows(self.m, m1, val, **b, old(self).scope.levels());
                                }
                                r
                            } else {
                                let zero = self.const_float(0);
                                let ghost m2 = self.m;
                                let r = self.emit_float_arith(OpID::FSub, zero, val)?;
                                proof {
                                    lemma_grows_trans(self.m, m2, m1);
                                    lemma_computed_unary_grows(self.m, m1, val, **b, old(self).scope.levels());
                                }
                                r
                            }
                        },
                        UnaryOp::Not => {
                            if self.is_int(val) {
                                let zero = self.const_int(0);
                                let ghost m2 = self.m;
                                let r = self.emit_int_compare(OpID::Eq, val, zero)?;
                                proof {
                                    lemma_grows_trans(self.m, m2, m1);
                                    lemma_computed_unary_grows(self.m, m1, val, **b, old(self).scope.levels());
                                }
                                r
                            } else {
                                let zero = self.const_float(0);
                                let ghost m2 = self.m;
                                let r = self.emit_float_compare(OpID::FEq, val, zero)?;
                                proof {
                                    lemma_grows_trans(self.m, m2, m1);
                                    lemma_computed_unary_grows(self.m, m1, val, **b, old(self).scope.levels());
                                }
                                r
                            }
                        },
                    };
                    proof {
                        lemma_grows_trans(self.m, m1, m0);
                    }
                    Ok(Calcu::Value(result))
                }
            },
            UnaryExp::CallExp(name, args) => {
                if self.context.is_const {
                    return Err(GenError::CallInConstContext);
                }
                let fv = match self.scope.find(name) {
                    Some(v) => v,
                    None => {
                        return Err(GenError::NameNotFound);
                    },
                };
                proof {
                    lemma_lookup_below(self.scope.levels(), name@, self.m.nv());
                }
                let func = match fv.to_function(&self.m) {
                    Some(f) => f,
                    None => {
                        return Err(GenError::NotAFunction);
                    },
                };
                let params = self.func_params(func);
                let mut v_args: Vec<ValuePtr> = Vec::new();
                match args {
                    Some(ps) => {
                        let n = ps.items.len();
                        let mut k: usize = 0;
                        while k < n
                            invariant
                                self.stepped(*old(self)),
                                !self.context.is_const,
                                n == ps.items@.len(),
                                0 <= k <= n,
                                v_args@.len() == k,
                                m0 == old(self).m,
                                unary_exp matches UnaryExp::CallExp(_, Some(p)) && p == *ps,
                                func.0 < m0.nv(),
                                m0.class_of(func.0 as int) is Function,
                                crate::ir::module::seq_below(params@, m0.nt()),
                                params@ == crate::ir::func_impl::func_param_tys(m0, func.0 as int),
                                forall|i: int|
                                    0 <= i < k ==> (#[trigger] v_args@[i]).0 < self.m.nv() && self.m.type_of(
                                        v_args@[i].0 as int,
                                    ) == params@[i],
                            decreases n - k,
                        {
                            if k >= params.len() {
                                return Err(GenError::ArityMismatch);
                            }
                            let ghost mk = self.m;
                            let ghost before = v_args@;
                            proof {
                                assert(decreases_to!(unary_exp => ps));
                                assert(decreases_to!(ps => ps.items));
                                assert(decreases_to!(ps.items => ps.items@));
                                assert(decreases_to!(ps.items@ => ps.items@[k as int]));
                            }
                            let v = self.visit_exp_as_value::<A>(&ps.items[k])?;
                            let ghost mv = self.m;
                            proof {
                                assert(crate::ir::module::seq_below(params@, m0.nt()));
                            }
                            let cv = self.convert_to_target(v, params[k])?;
                            let t = self.type_of_val(cv);
                            if t != params[k] {
                                return Err(GenError::TypeMismatch);
                            }
                            v_args.push(cv);
                            proof {
                                lemma_grows_trans(self.m, mv, mk);
                                assert forall|i: int| 0 <= i < k + 1 implies (#[trigger] v_args@[i]).0 < self.m.nv()
                                    && self.m.type_of(v_args@[i].0 as int) == params@[i] by {
                                    if i < k {
                                        assert(v_args@[i] == before[i]);
                                    }
                                }
                                lemma_grows_trans(self.m, mk, m0);
                            }
                            k = k + 1;
                        }
                    },
                    None => {},
                }
                if v_args.len() != params.len() {
                    return Err(GenError::ArityMismatch);
                }
                let ghost m1 = self.m;
                let b = self.insert_block()?;
                proof {
                    assert(same_class_kind(m1.class_of(func.0 as int), m0.class_of(func.0 as int)));
                    assert(crate::ir::func_impl::func_param_tys(m1, func.0 as int) == params@) by {
                        assert(m1.types@[m0.type_of(func.0 as int) as int] == m0.types@[m0.type_of(func.0 as int) as int]) by {
                            assert(crate::ir::module::value_below(m0.values@[func.0 as int], m0.nt(), m0.nv()));
                        }
                    }
                }
                let ghost args_v = v_args@;
                let i = InstPtr::call_inst(&mut self.m, func, v_args, b);
                proof {
                    lemma_grows_inst(
                        self.m,
                        m1,
                        i.0,
                        crate::ir::func_impl::func_ret_ty(m1, func.0 as int),
                        OpID::Call,
                        b.0,
                        seq![func.0] + crate::ir::inst_impl::ptr_ids(args_v),
                        crate::ir::inst_impl::insts_of(m1, b).push(i.0),
                        Seq::empty(),
                    );
                    lemma_inv_grows(self.m, m1, self.scope, self.context, self.buidler);
                    lemma_grows_trans(self.m, m1, m0);
                    let ops = seq![func.0] + crate::ir::inst_impl::ptr_ids(args_v);
                    assert(self.m.ops(i.0 as int)[0] == func.0);
                    assert forall|k: int| 0 <= k < call_args_len(*args) implies #[trigger] self.m.type_of(
                        self.m.ops(i.0 as int)[k + 1] as int,
                    ) == func_param_tys(self.m, func.0 as int)[k] by {
                        assert(self.m.ops(i.0 as int)[k + 1] == args_v[k].0);
                    }
                }
                Ok(Calcu::Value(i.to_val()))
            },
        }
    }

    /// A primary expression: a number, a parenthesised expression or a
    /// name (in a constant expression the number a constant holds; else the
    /// value loaded from a variable's address, or the value itself).
    pub fn visit_prim_exp<A: FloatArith>(&mut self, prim_exp: &PrimaryExp) -> (res: Result<Calcu, GenError>)
        requires
            old(self).inv(),
        ensures
            final(self).stepped(*old(self)),
            res matches Ok(c) ==> calcu_ok(c, old(self).context.is_const, final(self).m),
            old(self).context.is_const ==> *final(self) == *old(self),
            old(self).context.is_const ==> folds_as(res, fold_prim(*prim_exp, old(self).m, old(self).scope.levels())),
            res matches Ok(Calcu::Value(v)) ==> (!old(self).context.is_const ==> computed_prim(
                final(self).m,
                v,
                *prim_exp,
                old(self).scope.levels(),
            )),
            !old(self).context.is_const && old(self).can_insert() && prim_kind(*prim_exp, old(self).m, old(self).scope.levels()) != 0 ==> (res matches Ok(Calcu::Value(v)) && val_kind(final(self).m, v) == prim_kind(*prim_exp, old(self).m, old(self).scope.levels()) && final(self).can_insert()),
        decreases prim_exp,
    {
        let ghost m0 = self.m;
        proof {
            lemma_grows_refl(self.m);
        }
        match prim_exp {
            PrimaryExp::Number(n) => {
                if self.context.is_const {
                    Ok(Calcu::Number(copy_number(n)))
                } else {
                    match n {
                        Number::IntConst(i) => Ok(Calcu::Value(self.const_int(*i))),
                        Number::FloatConst(f) => Ok(Calcu::Value(self.const_float(*f))),
                    }
                }
            },
            PrimaryExp::Exp(e) => {
                if self.context.is_const {
                    let c = self.visit_add_exp::<A>(&e.item)?;
                    match c {
                        Calcu::Number(n) => Ok(Calcu::Number(n)),
                        Calcu::Value(_) => Err(GenError::WrongKind),
                    }
                } else {
                    let v = self.visit_exp_as_value::<A>(e)?;
                    Ok(Calcu::Value(v))
                }
            },
            PrimaryExp::LVal(lval) => {
                if self.context.is_const {
                    let v = match self.scope.find(&lval.ident) {
                        Some(v) => v,
                        None => {
                            return Err(GenError::NameNotFound);
                        },
                    };
                    proof {
                        lemma_lookup_below(self.scope.levels(), lval.ident@, self.m.nv());
                    }
                    match &self.m.values[v.0].class {
                        ValueClass::Constant(ConstantClass::Int(i)) => Ok(Calcu::Number(Number::IntConst(*i))),
                        ValueClass::Constant(ConstantClass::Float(f)) => Ok(Calcu::Number(Number::FloatConst(*f))),
                        _ => Err(GenError::NotAConstant),
                    }
                } else if lval.dims.len() == 0 {
                    let p = match self.scope.find(&lval.ident) {
                        Some(v) => v,
                        None => {
                            return Err(GenError::NameNotFound);
                        },
                    };
                    proof {
                        lemma_lookup_below(self.scope.levels(), lval.ident@, self.m.nv());
                    }
                    let t = self.type_of_val(p);
                    if self.m.ty(t).is_ptr() {
                        let v = self.emit_load(p)?;
                        Ok(Calcu::Value(v))
                    } else {
                        Ok(Calcu::Value(p))
                    }
                } else {
                    let p = self.visit_lval_as_ptr::<A>(lval)?;
                    let ghost m1 = self.m;
                    let v = self.emit_load(p)?;
                    proof {
                        lemma_grows_trans(self.m, m1, m0);
                        lemma_inst_kept(self.m, m1, p.0 as int);
                    }
                    Ok(Calcu::Value(v))
                }
            },
        }
    }

    /// The address a name (with indices) denotes: the bound value itself,
    /// or an address computation through index 0 and each index (a `float`
    /// index is converted to `i32`).
    pub(crate) fn visit_lval_as_ptr<A: FloatArith>(&mut self, lval: &LVal) -> (res: Result<ValuePtr, GenError>)
        requires
            old(self).inv(),
            !old(self).context.is_const,
        ensures
            final(self).stepped(*old(self)),
            res matches Ok(v) ==> v.0 < final(self).m.nv(),
            res matches Ok(v) ==> (lval.dims@.len() == 0 ==> lookup(old(self).scope.levels(), lval.ident@) == Some(v)),
            res matches Ok(v) ==> (lval.dims@.len() > 0 ==> inst_with(
                final(self).m,
                v,
                |id: OpID| id == OpID::GetElementPtr,
            )),
            res matches Ok(v) ==> (lval.dims@.len() > 0 ==> final(self).m.ops(v.0 as int).len() == lval.dims@.len() + 2
                && final(self).m.ops(v.0 as int)[0] == lookup(old(self).scope.levels(), lval.ident@).unwrap().0),
            lookup(old(self).scope.levels(), lval.ident@) is None ==> res == Err::<ValuePtr, GenError>(
                GenError::NameNotFound,
            ),
            lval.dims@.len() == 0 ==> (lookup(old(self).scope.levels(), lval.ident@) matches Some(v) ==> res == Ok::<
                ValuePtr,
                GenError,
            >(v)),
            lval.dims@.len() == 0 ==> *final(self) == *old(self),
        decreases lval,
    {
        let ghost m0 = self.m;
        proof {
            lemma_grows_refl(self.m);
        }
        let base = match self.scope.find(&lval.ident) {
            Some(v) => v,
            None => {
                return Err(GenError::NameNotFound);
            },
        };
        proof {
            lemma_lookup_below(self.scope.levels(), lval.ident@, self.m.nv());
        }
        if lval.dims.len() == 0 {
            return Ok(base);
        }
        let z = self.const_int(0);
        let mut idxs: Vec<ValuePtr> = vec![z];
        let n = lval.dims.len();
        let mut k: usize = 0;
        while k < n
            invariant
                self.stepped(*old(self)),
                !self.context.is_const,
                n == lval.dims@.len(),
                0 <= k <= n,
                m0 == old(self).m,
                base.0 < self.m.nv(),
                lookup(old(self).scope.levels(), lval.ident@) is Some,
                base == lookup(old(self).scope.levels(), lval.ident@).unwrap(),
                idxs@.len() == k + 1,
                forall|i: int| 0 <= i < idxs@.len() ==> (#[trigger] idxs@[i]).0 < self.m.nv(),
            decreases n - k,
        {
            let ghost mk = self.m;
            let ghost before = idxs@;
            let v = self.visit_exp_as_value::<A>(&lval.dims[k])?;
            let ghost mv = self.m;
            let idx = if self.is_float(v) {
                let it = self.m.get_int_ty();
                let b = self.insert_block()?;
                let i = InstPtr::fptosi_inst(&mut self.m, v, it, b);
                proof {
                    lemma_grows_inst(self.m, mv, i.0, it, OpID::FPToSI, b.0, seq![v.0], crate::ir::inst_impl::insts_of(mv, b).push(i.0), Seq::empty());
                    lemma_inv_grows(self.m, mv, self.scope, self.context, self.buidler);
                }
                i.to_val()
            } else {
                proof {
                    lemma_grows_refl(self.m);
                }
                v
            };
            idxs.push(idx);
            proof {
                lemma_grows_trans(self.m, mv, mk);
                lemma_grows_trans(self.m, mk, m0);
                assert forall|i: int| 0 <= i < idxs@.len() implies (#[trigger] idxs@[i]).0 < self.m.nv() by {
                    if i < before.len() {
                        assert(idxs@[i] == before[i]);
                    }
                }
            }
            k = k + 1;
        }
        let ghost m1 = self.m;
        let ghost ids = idxs@;
        let r = self.emit_gep(base, idxs)?;
        proof {
            lemma_grows_trans(self.m, m1, m0);
            assert(crate::ir::inst_impl::ptr_ids(ids).len() == ids.len());
        }
        Ok(r)
    }

    /// A constant expression, folded.
    pub fn visit_const_exp<A: FloatArith>(&mut self, const_exp: &ConstExp) -> (res: Result<Number, GenError>)
        requires
            old(self).inv(),
        ensures
            final(self).stepped(*old(self)),
            *final(self) == *old(self),
            const_folds(res, fold_add(const_exp.item, old(self).m, old(self).scope.levels())),
    {
        self.visit_const_add_exp::<A>(&const_exp.item)
    }
}

/// A copy of a number.
pub fn copy_number(n: &Number) -> (r: Number)
    ensures
        r == *n,
{
    match n {
        Number::IntConst(i) => Number::IntConst(*i),
        Number::FloatConst(f) => Number::FloatConst(*f),
    }
}

} // verus!
