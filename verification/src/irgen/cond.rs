//! Conditions: comparisons, and `&&` / `||` evaluated by short circuit
//! (a branch on the left operand and a phi that merges both ways).

use vstd::prelude::*;
use crate::ast::{Cond, EqExp, EqOp, LAndExp, LOrExp, RelExp, RelOp};
use crate::ir::inst_impl::{insts_of, phi_ops};
use crate::ir::module::{same_class_kind, Module, VOID_TY};
use crate::ir::user::{ConstantClass, OpID};
use crate::ir::value::{BasicBlockPtr, FunctionPtr, InstPtr, ValueClass, ValuePtr};
use crate::irgen::number::FloatArith;
use crate::irgen::visit::{computed_add, is_sitofp, lemma_computed_add_grows, lemma_inst_kept, lemma_ops_below, lemma_promoted_grows, promoted, blocks_kept_but, blocks_kept_but_two, lemma_blocks_kept_trans, lemma_blocks_kept_trans_two, add_kind, cmp_kind, lemma_add_kind_grows, lemma_val_kind_grows, val_kind, scope_below, bool_val, grows, inst_with, lemma_grows_inst, lemma_grows_refl, lemma_grows_trans, lemma_inv_grows, GenError, IRGenerator};

verus! {

/// The comparisons a relational operator becomes (integer or float).
pub open spec fn rel_op_ids(op: RelOp, id: OpID) -> bool {
    match op {
        RelOp::GT => id == OpID::Gt || id == OpID::FGt,
        RelOp::GE => id == OpID::Ge || id == OpID::FGe,
        RelOp::LT => id == OpID::Lt || id == OpID::FLt,
        RelOp::LE => id == OpID::Le || id == OpID::FLe,
    }
}

/// The comparisons an equality operator becomes (integer or float).
pub open spec fn eq_op_ids(op: EqOp, id: OpID) -> bool {
    match op {
        EqOp::EQ => id == OpID::Eq || id == OpID::FEq,
        EqOp::NE => id == OpID::Ne || id == OpID::FNe,
    }
}

/// What a relational expression computes: a comparison gives the
/// matching comparison instruction on the (promoted) values of its
/// operands, the left one first; a lone operand its value.
#[verifier::opaque]
pub open spec fn computed_rel(m: Module, v: ValuePtr, e: RelExp, levels: Seq<Map<Seq<char>, ValuePtr>>) -> bool
    decreases e,
{
    match e {
        RelExp::AddExp(a) => computed_add(m, v, a, levels),
        RelExp::RelExp(a, op, c) => {
            &&& inst_with(m, v, |id: OpID| rel_op_ids(op, id))
            &&& m.ops(v.0 as int).len() == 2
            &&& {
                let x = m.ops(v.0 as int)[0];
                ||| computed_rel(m, ValuePtr(x), *a, levels)
                ||| is_sitofp(m, x) && computed_rel(m, ValuePtr(m.ops(x as int)[0]), *a, levels)
            }
            &&& {
                let y = m.ops(v.0 as int)[1];
                ||| computed_add(m, ValuePtr(y), c, levels)
                ||| is_sitofp(m, y) && computed_add(m, ValuePtr(m.ops(y as int)[0]), c, levels)
            }
        },
    }
}

/// What an equality expression computes: a comparison gives the matching
/// comparison instruction on the (promoted) values of its operands, the
/// left one first; a lone operand its value.
#[verifier::opaque]
pub open spec fn computed_eq(m: Module, v: ValuePtr, e: EqExp, levels: Seq<Map<Seq<char>, ValuePtr>>) -> bool
    decreases e,
{
    match e {
        EqExp::RelExp(a) => computed_rel(m, v, a, levels),
        EqExp::EqExp(a, op, c) => {
            &&& inst_with(m, v, |id: OpID| eq_op_ids(op, id))
            &&& m.ops(v.0 as int).len() == 2
            &&& {
                let x = m.ops(v.0 as int)[0];
                ||| computed_eq(m, ValuePtr(x), *a, levels)
                ||| is_sitofp(m, x) && computed_eq(m, ValuePtr(m.ops(x as int)[0]), *a, levels)
            }
            &&& {
                let y = m.ops(v.0 as int)[1];
                ||| computed_rel(m, ValuePtr(y), c, levels)
                ||| is_sitofp(m, y) && computed_rel(m, ValuePtr(m.ops(y as int)[0]), c, levels)
            }
        },
    }
}

/// What a relational expression computes stays as the module grows.
pub proof fn lemma_computed_rel_grows(m1: Module, m0: Module, v: ValuePtr, e: RelExp, levels: Seq<Map<Seq<char>, ValuePtr>>)
    requires
        m0.wf(),
        grows(m1, m0),
        v.0 < m0.nv(),
        computed_rel(m0, v, e, levels),
    ensures
        computed_rel(m1, v, e, levels),
    decreases e,
{
    reveal(computed_rel);
    reveal(computed_eq);
    match e {
        RelExp::AddExp(a) => lemma_computed_add_grows(m1, m0, v, a, levels),
        RelExp::RelExp(a, op, c) => {
            let x = v.0 as int;
            lemma_inst_kept(m1, m0, x);
            lemma_ops_below(m0, x);
            let l = m0.ops(x)[0];
            let r = m0.ops(x)[1];
            if computed_rel(m0, ValuePtr(l), *a, levels) {
                lemma_computed_rel_grows(m1, m0, ValuePtr(l), *a, levels);
            } else {
                lemma_inst_kept(m1, m0, l as int);
                lemma_ops_below(m0, l as int);
                lemma_computed_rel_grows(m1, m0, ValuePtr(m0.ops(l as int)[0]), *a, levels);
            }
            if computed_add(m0, ValuePtr(r), c, levels) {
                lemma_computed_add_grows(m1, m0, ValuePtr(r), c, levels);
            } else {
                lemma_inst_kept(m1, m0, r as int);
                lemma_ops_below(m0, r as int);
                lemma_computed_add_grows(m1, m0, ValuePtr(m0.ops(r as int)[0]), c, levels);
            }
        },
    }
}

/// What an equality expression computes stays as the module grows.
pub proof fn lemma_computed_eq_grows(m1: Module, m0: Module, v: ValuePtr, e: EqExp, levels: Seq<Map<Seq<char>, ValuePtr>>)
    requires
        m0.wf(),
        grows(m1, m0),
        v.0 < m0.nv(),
        computed_eq(m0, v, e, levels),
    ensures
        computed_eq(m1, v, e, levels),
    decreases e,
{
    reveal(computed_rel);
    reveal(computed_eq);
    match e {
        EqExp::RelExp(a) => lemma_computed_rel_grows(m1, m0, v, a, levels),
        EqExp::EqExp(a, op, c) => {
            let x = v.0 as int;
            lemma_inst_kept(m1, m0, x);
            lemma_ops_below(m0, x);
            let l = m0.ops(x)[0];
            let r = m0.ops(x)[1];
            if computed_eq(m0, ValuePtr(l), *a, levels) {
                lemma_computed_eq_grows(m1, m0, ValuePtr(l), *a, levels);
            } else {
                lemma_inst_kept(m1, m0, l as int);
                lemma_ops_below(m0, l as int);
                lemma_computed_eq_grows(m1, m0, ValuePtr(m0.ops(l as int)[0]), *a, levels);
            }
            if computed_rel(m0, ValuePtr(r), c, levels) {
                lemma_computed_rel_grows(m1, m0, ValuePtr(r), c, levels);
            } else {
                lemma_inst_kept(m1, m0, r as int);
                lemma_ops_below(m0, r as int);
                lemma_computed_rel_grows(m1, m0, ValuePtr(m0.ops(r as int)[0]), c, levels);
            }
        },
    }
}

/// A comparison built on the values of its operands computes the
/// relational expression: the left value was computed in `m1`, the right
/// one in `m2`, both promoted in `m3`, and the instruction takes them in
/// order.
pub proof fn lemma_rel_built(
    m: Module,
    m1: Module,
    m2: Module,
    m3: Module,
    e: RelExp,
    inst: ValuePtr,
    lv: ValuePtr,
    rv: ValuePtr,
    x: ValuePtr,
    y: ValuePtr,
    levels: Seq<Map<Seq<char>, ValuePtr>>,
)
    requires
        m1.wf(),
        m2.wf(),
        grows(m2, m1),
        grows(m3, m2),
        grows(m, m3),
        lv.0 < m1.nv(),
        rv.0 < m2.nv(),
        x.0 < m3.nv(),
        y.0 < m3.nv(),
        e matches RelExp::RelExp(a, op, c) && computed_rel(m1, lv, *a, levels) && computed_add(m2, rv, c, levels)
            && inst_with(m, inst, |id: OpID| rel_op_ids(op, id)),
        promoted(m3, x.0, lv.0),
        promoted(m3, y.0, rv.0),
        m.ops(inst.0 as int) == seq![x.0, y.0],
    ensures
        computed_rel(m, inst, e, levels),
{
    reveal(computed_rel);
    reveal(computed_eq);
    if let RelExp::RelExp(a, op, c) = e {
        lemma_grows_trans(m3, m2, m1);
        lemma_grows_trans(m, m3, m1);
        lemma_grows_trans(m, m3, m2);
        lemma_computed_rel_grows(m, m1, lv, *a, levels);
        lemma_computed_add_grows(m, m2, rv, c, levels);
        lemma_promoted_grows(m, m3, x.0, lv.0);
        lemma_promoted_grows(m, m3, y.0, rv.0);
        assert(m.ops(inst.0 as int)[0] == x.0);
        assert(m.ops(inst.0 as int)[1] == y.0);
    }
}

/// A comparison built on the values of its operands computes the
/// equality expression (as for relational ones).
pub proof fn lemma_eq_built(
    m: Module,
    m1: Module,
    m2: Module,
    m3: Module,
    e: EqExp,
    inst: ValuePtr,
    lv: ValuePtr,
    rv: ValuePtr,
    x: ValuePtr,
    y: ValuePtr,
    levels: Seq<Map<Seq<char>, ValuePtr>>,
)
    requires
        m1.wf(),
        m2.wf(),
        grows(m2, m1),
        grows(m3, m2),
        grows(m, m3),
        lv.0 < m1.nv(),
        rv.0 < m2.nv(),
        x.0 < m3.nv(),
        y.0 < m3.nv(),
        e matches EqExp::EqExp(a, op, c) && computed_eq(m1, lv, *a, levels) && computed_rel(m2, rv, c, levels)
            && inst_with(m, inst, |id: OpID| eq_op_ids(op, id)),
        promoted(m3, x.0, lv.0),
        promoted(m3, y.0, rv.0),
        m.ops(inst.0 as int) == seq![x.0, y.0],
    ensures
        computed_eq(m, inst, e, levels),
{
    reveal(computed_rel);
    reveal(computed_eq);
    if let EqExp::EqExp(a, op, c) = e {
        lemma_grows_trans(m3, m2, m1);
        lemma_grows_trans(m, m3, m1);
        lemma_grows_trans(m, m3, m2);
        lemma_computed_eq_grows(m, m1, lv, *a, levels);
        lemma_computed_rel_grows(m, m2, rv, c, levels);
        lemma_promoted_grows(m, m3, x.0, lv.0);
        lemma_promoted_grows(m, m3, y.0, rv.0);
        assert(m.ops(inst.0 as int)[0] == x.0);
        assert(m.ops(inst.0 as int)[1] == y.0);
    }
}

/// A block of `m0` is still a block of `m1`, in the same function.
pub proof fn lemma_block_kept(m1: Module, m0: Module, b: int)
    requires
        grows(m1, m0),
        0 <= b < m0.nv(),
        m0.class_of(b) is BasicBlock,
    ensures
        m1.class_of(b) is BasicBlock,
        m1.bb_parent(b) == m0.bb_parent(b),
{
    assert(same_class_kind(m1.class_of(b), m0.class_of(b)));
}

/// A new block appended to function `f` is growth.
pub proof fn lemma_grows_new_block(m1: Module, m0: Module, f: int)
    requires
        m0.wf(),
        crate::ir::printable::block_appended(m1, m0, f, m0.nv() as usize),
        m1.kinds_kept(m0),
        0 <= f < m0.nv(),
        forall|x: int| 0 <= x < m0.nv() && x != f ==> #[trigger] m1.values@[x] == m0.values@[x],
        m1.type_of(f) == m0.type_of(f),
        m0.class_of(f) is Function,
        m1.types@ == m0.types@,
    ensures
        grows(m1, m0),
{
    if crate::ir::ir_printer::printable_module(m0) {
        crate::ir::printable::lemma_printable_new_block(m1, m0, f, m0.nv() as usize);
    }
    assert(m0.types@.is_prefix_of(m1.types@));
    assert forall|x: int| 0 <= x < m0.nv() implies {
        &&& same_class_kind(#[trigger] m1.class_of(x), m0.class_of(x))
        &&& m1.type_of(x) == m0.type_of(x)
        &&& m0.class_of(x) is BasicBlock ==> m1.bb_parent(x) == m0.bb_parent(x)
        &&& m0.class_of(x) is Inst ==> m1.class_of(x) == m0.class_of(x)
        &&& m0.class_of(x) is Inst ==> m1.ops(x) == m0.ops(x)
        &&& m0.class_of(x) is Constant ==> m1.class_of(x) == m0.class_of(x)
        &&& m0.class_of(x) is GlobalVariable ==> m1.class_of(x) == m0.class_of(x)
    } by {
        if x != f {
            assert(m1.values@[x] == m0.values@[x]);
        }
    }
}

/// The kind of value a relational expression computes where it is sure
/// to succeed (1 `i32`, 2 `float`, 3 `i1`, 0 nothing promised).
pub open spec fn rel_kind(e: RelExp, m: Module, levels: Seq<Map<Seq<char>, ValuePtr>>) -> int
    decreases e,
{
    match e {
        RelExp::AddExp(a) => add_kind(a, m, levels),
        RelExp::RelExp(l, _, r) => cmp_kind(rel_kind(*l, m, levels), add_kind(r, m, levels)),
    }
}

/// The kind of value an equality expression computes where it is sure to
/// succeed.
pub open spec fn eq_kind(e: EqExp, m: Module, levels: Seq<Map<Seq<char>, ValuePtr>>) -> int
    decreases e,
{
    match e {
        EqExp::RelExp(a) => rel_kind(a, m, levels),
        EqExp::EqExp(l, _, r) => cmp_kind(eq_kind(*l, m, levels), rel_kind(r, m, levels)),
    }
}

/// The kind of a relational expression stays as the module grows.
pub proof fn lemma_rel_kind_grows(e: RelExp, m1: Module, m0: Module, levels: Seq<Map<Seq<char>, ValuePtr>>)
    requires
        m0.wf(),
        grows(m1, m0),
        scope_below(levels, m0.nv()),
    ensures
        rel_kind(e, m1, levels) == rel_kind(e, m0, levels),
    decreases e,
{
    match e {
        RelExp::AddExp(a) => lemma_add_kind_grows(a, m1, m0, levels),
        RelExp::RelExp(l, _, r) => {
            lemma_rel_kind_grows(*l, m1, m0, levels);
            lemma_add_kind_grows(r, m1, m0, levels);
        },
    }
}

/// The kind of an equality expression stays as the module grows.
pub proof fn lemma_eq_kind_grows(e: EqExp, m1: Module, m0: Module, levels: Seq<Map<Seq<char>, ValuePtr>>)
    requires
        m0.wf(),
        grows(m1, m0),
        scope_below(levels, m0.nv()),
    ensures
        eq_kind(e, m1, levels) == eq_kind(e, m0, levels),
    decreases e,
{
    match e {
        EqExp::RelExp(a) => lemma_rel_kind_grows(a, m1, m0, levels),
        EqExp::EqExp(l, _, r) => {
            lemma_eq_kind_grows(*l, m1, m0, levels);
            lemma_rel_kind_grows(r, m1, m0, levels);
        },
    }
}

/// A logical and is sure to give a value: each of its equality operands
/// computes a value of some kind.
pub open spec fn land_sure(e: LAndExp, m: Module, levels: Seq<Map<Seq<char>, ValuePtr>>) -> bool
    decreases e,
{
    match e {
        LAndExp::EqExp(x) => eq_kind(x, m, levels) != 0,
        LAndExp::LAndExp(l, r) => land_sure(*l, m, levels) && eq_kind(r, m, levels) != 0,
    }
}

/// A logical or is sure to give a value: each of its operands is.
pub open spec fn lor_sure(e: LOrExp, m: Module, levels: Seq<Map<Seq<char>, ValuePtr>>) -> bool
    decreases e,
{
    match e {
        LOrExp::LAndExp(x) => land_sure(x, m, levels),
        LOrExp::LOrExp(l, r) => lor_sure(*l, m, levels) && land_sure(r, m, levels),
    }
}

/// Sureness of a logical and stays as the module grows.
pub proof fn lemma_land_sure_grows(e: LAndExp, m1: Module, m0: Module, levels: Seq<Map<Seq<char>, ValuePtr>>)
    requires
        m0.wf(),
        grows(m1, m0),
        scope_below(levels, m0.nv()),
    ensures
        land_sure(e, m1, levels) == land_sure(e, m0, levels),
    decreases e,
{
    match e {
        LAndExp::EqExp(x) => lemma_eq_kind_grows(x, m1, m0, levels),
        LAndExp::LAndExp(l, r) => {
            lemma_land_sure_grows(*l, m1, m0, levels);
            lemma_eq_kind_grows(r, m1, m0, levels);
        },
    }
}

/// Sureness of a logical or stays as the module grows.
pub proof fn lemma_lor_sure_grows(e: LOrExp, m1: Module, m0: Module, levels: Seq<Map<Seq<char>, ValuePtr>>)
    requires
        m0.wf(),
        grows(m1, m0),
        scope_below(levels, m0.nv()),
    ensures
        lor_sure(e, m1, levels) == lor_sure(e, m0, levels),
    decreases e,
{
    match e {
        LOrExp::LAndExp(x) => lemma_land_sure_grows(x, m1, m0, levels),
        LOrExp::LOrExp(l, r) => {
            lemma_lor_sure_grows(*l, m1, m0, levels);
            lemma_land_sure_grows(r, m1, m0, levels);
        },
    }
}

/// The last instruction of block `b`.
pub open spec fn block_last(m: Module, b: int) -> int {
    m.bb_insts(b).last() as int
}

/// Block `b` ends with a branch.
pub open spec fn ends_in_br(m: Module, b: int) -> bool {
    m.bb_insts(b).len() > 0 && m.inst_op(block_last(m, b)) == OpID::Br
}

/// The operands of the instruction that ends block `b`.
pub open spec fn branch_ops(m: Module, b: int) -> Seq<usize> {
    m.ops(block_last(m, b))
}

/// A block whose instructions are kept keeps the branch that ends it.
pub proof fn lemma_br_kept(m1: Module, m0: Module, b: int)
    requires
        m0.wf(),
        grows(m1, m0),
        0 <= b < m0.nv(),
        m0.class_of(b) is BasicBlock,
        m1.bb_insts(b) == m0.bb_insts(b),
        ends_in_br(m0, b),
    ensures
        ends_in_br(m1, b),
        branch_ops(m1, b) == branch_ops(m0, b),
{
    let insts = m0.bb_insts(b);
    assert(crate::ir::module::value_below(m0.values@[b], m0.nt(), m0.nv()));
    assert(crate::ir::module::seq_below(insts, m0.nv()));
    assert(insts[insts.len() - 1] < m0.nv());
    assert(m0.class_of(block_last(m0, b)) is Inst);
    assert(same_class_kind(m1.class_of(block_last(m0, b)), m0.class_of(block_last(m0, b))));
}

/// Block `c` ends with a conditional branch on an `i1` that goes to block
/// `t` when true and to block `f` when false.
pub open spec fn cond_br_to(m: Module, c: int, t: usize, f: usize) -> bool {
    &&& ends_in_br(m, c)
    &&& branch_ops(m, c).len() == 3
    &&& bool_val(m, ValuePtr(branch_ops(m, c)[0]))
    &&& branch_ops(m, c)[1] == t
    &&& branch_ops(m, c)[2] == f
}

/// A block whose instructions are kept keeps its conditional branch.
pub proof fn lemma_cond_br_kept(m1: Module, m0: Module, c: int, t: usize, f: usize)
    requires
        m0.wf(),
        grows(m1, m0),
        0 <= c < m0.nv(),
        m0.class_of(c) is BasicBlock,
        m1.bb_insts(c) == m0.bb_insts(c),
        cond_br_to(m0, c, t, f),
    ensures
        cond_br_to(m1, c, t, f),
{
    lemma_br_kept(m1, m0, c);
    let insts = m0.bb_insts(c);
    assert(crate::ir::module::value_below(m0.values@[c], m0.nt(), m0.nv()));
    assert(crate::ir::module::seq_below(insts, m0.nv()));
    let l = block_last(m0, c);
    assert(insts[insts.len() - 1] < m0.nv());
    lemma_ops_below(m0, l);
    assert(branch_ops(m0, c)[0] < m0.nv());
    lemma_val_kind_grows(m1, m0, ValuePtr(branch_ops(m0, c)[0]));
}

/// What a short circuit builds, seen from its result `v`: an `i1` phi at
/// the head of block `merge` (created after the first `n` values), taking
/// the constant `short` from the block where the left operand ended, and
/// an `i1` from the block where the right one ended. The first ends with a
/// conditional branch on an `i1` to `merge` and to a block created after
/// the first `n` values (the right operand's first block: on true when
/// `on_true_rhs`, else on false); the second ends with a branch to `merge`.
pub open spec fn short_circuit_made(m: Module, v: ValuePtr, short: i32, on_true_rhs: bool, merge: usize, n: nat) -> bool {
    let ops = m.ops(v.0 as int);
    let lo = branch_ops(m, ops[1] as int);
    &&& merge >= n
    &&& m.class_of(v.0 as int) == (ValueClass::Inst { op_id: OpID::Phi, bb: merge })
    &&& m.bb_insts(merge as int).len() > 0 && m.bb_insts(merge as int)[0] == v.0
    &&& ops.len() == 4
    &&& m.class_of(ops[0] as int) == ValueClass::Constant(ConstantClass::Int(short))
    &&& bool_val(m, ValuePtr(ops[2]))
    &&& ends_in_br(m, ops[1] as int)
    &&& lo.len() == 3 && bool_val(m, ValuePtr(lo[0]))
    &&& if on_true_rhs {
        lo[2] == merge && lo[1] >= n
    } else {
        lo[1] == merge && lo[2] >= n
    }
    &&& ends_in_br(m, ops[3] as int)
    &&& branch_ops(m, ops[3] as int) == seq![merge]
}

impl IRGenerator {
    /// The generator moved on from `old`: its invariant holds, the module
    /// grew, and the scopes and context are unchanged; the insertion point
    /// may have moved.
    pub open spec fn moved(&self, old: IRGenerator) -> bool {
        &&& self.moved_to(old)
        &&& blocks_kept_but(self.m, old.m, old.buidler.bb)
    }

    /// As `moved`, with no word on the blocks.
    pub open spec fn moved_to(&self, old: IRGenerator) -> bool {
        &&& self.inv()
        &&& grows(self.m, old.m)
        &&& self.scope == old.scope
        &&& self.context == old.context
        &&& self.loops@ == old.loops@
    }

    /// A new unnamed, empty block appended to the current function.
    pub(crate) fn new_block(&mut self) -> (r: Result<BasicBlockPtr, GenError>)
        requires
            old(self).inv(),
        ensures
            final(self).stepped(*old(self)),
            r matches Ok(b) ==> {
                &&& b.0 == old(self).m.nv()
                &&& b.0 < final(self).m.nv()
                &&& final(self).m.nv() == old(self).m.nv() + 1
                &&& final(self).m.class_of(b.0 as int) is BasicBlock
                &&& final(self).m.bb_insts(b.0 as int).len() == 0
                &&& old(self).context.curr_func == Some(FunctionPtr(final(self).m.bb_parent(b.0 as int)))
                &&& final(self).can_insert() == old(self).can_insert()
            },
            r is Err ==> old(self).context.curr_func is None,
    {
        let f = match self.context.curr_func {
            Some(f) => f,
            None => {
                proof {
                    lemma_grows_refl(self.m);
                }
                return Err(GenError::NoInsertPoint);
            },
        };
        let ghost m0 = self.m;
        let b = BasicBlockPtr::create(&mut self.m, String::new(), f);
        proof {
            lemma_grows_new_block(self.m, m0, f.0 as int);
            lemma_inv_grows(self.m, m0, self.scope, self.context, self.buidler);
            if let Some(c) = self.buidler.bb {
                if old(self).can_insert() {
                    let insts = m0.bb_insts(c.0 as int);
                    assert(c.0 < m0.nv() && m0.class_of(c.0 as int) is BasicBlock);
                    assert(self.m.values@[c.0 as int] == m0.values@[c.0 as int]);
                    assert(self.m.bb_insts(c.0 as int) == insts);
                    if insts.len() > 0 {
                        let l = insts.last() as int;
                        assert(crate::ir::module::value_below(m0.values@[c.0 as int], m0.nt(), m0.nv()));
                        assert(crate::ir::module::seq_below(insts, m0.nv()));
                        assert(insts[insts.len() - 1] < m0.nv());
                        if m0.class_of(l) is Inst {
                            assert(self.m.class_of(l) == m0.class_of(l));
                        }
                    }
                }
            }
        }
        Ok(b)
    }

    /// A relational expression: an `i1` comparison of its operands
    /// (promoted to `float` when mixed), or the value of a lone operand.
    #[verifier::spinoff_prover]
    #[verifier::rlimit(40)]
    pub fn visit_rel_exp<A: FloatArith>(&mut self, exp: &RelExp) -> (res: Result<ValuePtr, GenError>)
        requires
            old(self).inv(),
            !old(self).context.is_const,
        ensures
            final(self).stepped(*old(self)),
            res matches Ok(v) ==> v.0 < final(self).m.nv(),
            res matches Ok(v) ==> (exp is RelExp ==> bool_val(final(self).m, v)),
            res matches Ok(v) ==> computed_rel(final(self).m, v, *exp, old(self).scope.levels()),
            old(self).can_insert() && rel_kind(*exp, old(self).m, old(self).scope.levels()) != 0 ==> (res matches Ok(v)
                && val_kind(final(self).m, v) == rel_kind(*exp, old(self).m, old(self).scope.levels()) && final(self).can_insert()),
        decreases exp,
    {
        let ghost m0 = self.m;
        match exp {
            RelExp::AddExp(e) => {
                proof {
                    reveal(computed_rel);
                }
                self.visit_add_exp_as_value::<A>(e)
            },
            RelExp::RelExp(lhs, op, rhs) => {
                let l = self.visit_rel_exp::<A>(lhs)?;
                let ghost m1 = self.m;
                proof {
                    lemma_add_kind_grows(*rhs, m1, m0, old(self).scope.levels());
                }
                let r = self.visit_add_exp_as_value::<A>(rhs)?;
                let ghost m2 = self.m;
                proof {
                    lemma_val_kind_grows(m2, m1, l);
                }
                let (x, y) = self.promote(l, r)?;
                let ghost m3 = self.m;
                proof {
                    lemma_grows_trans(m2, m1, m0);
                    lemma_grows_trans(m3, m2, m0);
                }
                let v = if self.is_int(x) || self.is_bool(x) {
                    match op {
                        RelOp::GT => self.emit_int_compare(OpID::Gt, x, y)?,
                        RelOp::GE => self.emit_int_compare(OpID::Ge, x, y)?,
                        RelOp::LT => self.emit_int_compare(OpID::Lt, x, y)?,
                        RelOp::LE => self.emit_int_compare(OpID::Le, x, y)?,
                    }
                } else {
                    match op {
                        RelOp::GT => self.emit_float_compare(OpID::FGt, x, y)?,
                        RelOp::GE => self.emit_float_compare(OpID::FGe, x, y)?,
                        RelOp::LT => self.emit_float_compare(OpID::FLt, x, y)?,
                        RelOp::LE => self.emit_float_compare(OpID::FLe, x, y)?,
                    }
                };
                proof {
                    lemma_grows_trans(self.m, m3, m0);
                    lemma_rel_built(self.m, m1, m2, m3, *exp, v, l, r, x, y, old(self).scope.levels());
                }
                Ok(v)
            },
        }
    }

    /// An equality expression: an `i1` comparison of its operands
    /// (promoted to `float` when mixed), or the value of a lone operand.
    #[verifier::spinoff_prover]
    #[verifier::rlimit(40)]
    pub fn visit_eq_exp<A: FloatArith>(&mut self, exp: &EqExp) -> (res: Result<ValuePtr, GenError>)
        requires
            old(self).inv(),
            !old(self).context.is_const,
        ensures
            final(self).stepped(*old(self)),
            res matches Ok(v) ==> v.0 < final(self).m.nv(),
            res matches Ok(v) ==> (exp is EqExp ==> bool_val(final(self).m, v)),
            res matches Ok(v) ==> computed_eq(final(self).m, v, *exp, old(self).scope.levels()),
            old(self).can_insert() && eq_kind(*exp, old(self).m, old(self).scope.levels()) != 0 ==> (res matches Ok(v)
                && val_kind(final(self).m, v) == eq_kind(*exp, old(self).m, old(self).scope.levels()) && final(self).can_insert()),
        decreases exp,
    {
        let ghost m0 = self.m;
        match exp {
            EqExp::RelExp(e) => {
                let r = self.visit_rel_exp::<A>(e);
                proof {
                    reveal(computed_eq);
                }
                r
            },
            EqExp::EqExp(lhs, op, rhs) => {
                let l = self.visit_eq_exp::<A>(lhs)?;
                let ghost m1 = self.m;
                proof {
                    lemma_rel_kind_grows(*rhs, m1, m0, old(self).scope.levels());
                }
                let r = self.visit_rel_exp::<A>(rhs)?;
                let ghost m2 = self.m;
                proof {
                    lemma_val_kind_grows(m2, m1, l);
                }
                let (x, y) = self.promote(l, r)?;
                let ghost m3 = self.m;
                proof {
                    lemma_grows_trans(m2, m1, m0);
                    lemma_grows_trans(m3, m2, m0);
                }
                let v = if self.is_int(x) || self.is_bool(x) {
                    match op {
                        EqOp::EQ => self.emit_int_compare(OpID::Eq, x, y)?,
                        EqOp::NE => self.emit_int_compare(OpID::Ne, x, y)?,
                    }
                } else {
                    match op {
                        EqOp::EQ => self.emit_float_compare(OpID::FEq, x, y)?,
                        EqOp::NE => self.emit_float_compare(OpID::FNe, x, y)?,
                    }
                };
                proof {
                    lemma_grows_trans(self.m, m3, m0);
                    lemma_eq_built(self.m, m1, m2, m3, *exp, v, l, r, x, y, old(self).scope.levels());
                }
                Ok(v)
            },
        }
    }
    /// The branch from the end of the left operand, the right operand in
    /// its own block, and the phi in the merge block, shared by `&&` and
    /// `||`: `short` is the value the phi takes when the left operand
    /// decides (`0` for `&&`, `1` for `||`); `on_true_rhs` says whether a
    /// true left operand goes on to the right one.
    #[verifier::rlimit(40)]
    fn short_circuit_tail(
        &mut self,
        lhs_bool: ValuePtr,
        rhs_bb: BasicBlockPtr,
        merge_bb: BasicBlockPtr,
        on_true_rhs: bool,
    ) -> (res: Result<BasicBlockPtr, GenError>)
        requires
            old(self).inv(),
            !old(self).context.is_const,
            bool_val(old(self).m, lhs_bool),
            rhs_bb.0 < old(self).m.nv(),
            merge_bb.0 < old(self).m.nv(),
            old(self).m.class_of(rhs_bb.0 as int) is BasicBlock,
            old(self).m.class_of(merge_bb.0 as int) is BasicBlock,
            old(self).context.curr_func == Some(FunctionPtr(old(self).m.bb_parent(rhs_bb.0 as int))),
        ensures
            final(self).moved(*old(self)),
            res matches Ok(lhs_bb) ==> {
                &&& lhs_bb.0 < final(self).m.nv()
                &&& final(self).m.class_of(lhs_bb.0 as int) is BasicBlock
                &&& final(self).buidler.bb == Some(rhs_bb)
                &&& old(self).buidler.bb == Some(lhs_bb)
                &&& ends_in_br(final(self).m, lhs_bb.0 as int)
                &&& branch_ops(final(self).m, lhs_bb.0 as int) == (if on_true_rhs {
                    seq![lhs_bool.0, rhs_bb.0, merge_bb.0]
                } else {
                    seq![lhs_bool.0, merge_bb.0, rhs_bb.0]
                })
            },
            res is Ok <==> old(self).can_insert(),
            res is Err ==> *final(self) == *old(self),
    {
        let ghost m0 = self.m;
        let lhs_bb = self.insert_block()?;
        let br = if on_true_rhs {
            InstPtr::cond_br_inst(&mut self.m, lhs_bool, rhs_bb, merge_bb, lhs_bb)
        } else {
            InstPtr::cond_br_inst(&mut self.m, lhs_bool, merge_bb, rhs_bb, lhs_bb)
        };
        proof {
            if on_true_rhs {
                lemma_grows_inst(self.m, m0, br.0, VOID_TY, OpID::Br, lhs_bb.0, seq![lhs_bool.0, rhs_bb.0, merge_bb.0], insts_of(m0, lhs_bb).push(br.0), seq![rhs_bb.0, merge_bb.0]);
            } else {
                lemma_grows_inst(self.m, m0, br.0, VOID_TY, OpID::Br, lhs_bb.0, seq![lhs_bool.0, merge_bb.0, rhs_bb.0], insts_of(m0, lhs_bb).push(br.0), seq![merge_bb.0, rhs_bb.0]);
            }
            lemma_inv_grows(self.m, m0, self.scope, self.context, self.buidler);
            lemma_block_kept(self.m, m0, rhs_bb.0 as int);
            lemma_block_kept(self.m, m0, lhs_bb.0 as int);
        }
        self.buidler.set_insert_point(rhs_bb);
        Ok(lhs_bb)
    }

    /// The merge of a short circuit: a branch from the end of the right
    /// operand to `merge_bb`, and there an `i1` phi of the `i32` constant
    /// `short` (from `lhs_bb`) and `rhs_bool` (from the right operand's last
    /// block).
    #[verifier::rlimit(40)]
    fn short_circuit_merge(
        &mut self,
        rhs_bool: ValuePtr,
        lhs_bb: BasicBlockPtr,
        merge_bb: BasicBlockPtr,
        short: i32,
    ) -> (res: Result<ValuePtr, GenError>)
        requires
            old(self).inv(),
            bool_val(old(self).m, rhs_bool),
            lhs_bb.0 < old(self).m.nv(),
            merge_bb.0 < old(self).m.nv(),
            old(self).m.class_of(merge_bb.0 as int) is BasicBlock,
            old(self).context.curr_func == Some(FunctionPtr(old(self).m.bb_parent(merge_bb.0 as int))),
        ensures
            final(self).moved_to(*old(self)),
            blocks_kept_but_two(final(self).m, old(self).m, old(self).buidler.bb, merge_bb.0),
            res matches Ok(v) ==> bool_val(final(self).m, v),
            res is Ok ==> final(self).buidler.bb == Some(merge_bb),
            res is Ok <==> old(self).can_insert(),
            res is Ok && old(self).buidler.bb != Some(merge_bb) && old(self).m.bb_insts(merge_bb.0 as int).len() == 0
                ==> final(self).can_insert(),
            res matches Ok(v) ==> inst_with(final(self).m, v, |id: OpID| id == OpID::Phi) && final(self).m.ops(v.0 as int).len()
                == 4 && final(self).m.ops(v.0 as int)[2] == rhs_bool.0 && final(self).m.ops(v.0 as int)[1] == lhs_bb.0,
            res matches Ok(v) ==> final(self).m.class_of(final(self).m.ops(v.0 as int)[0] as int) == ValueClass::Constant(
                ConstantClass::Int(short),
            ) && final(self).m.ops(v.0 as int)[3] == old(self).buidler.bb.unwrap().0,
            res matches Ok(v) ==> final(self).m.class_of(v.0 as int) == (ValueClass::Inst { op_id: OpID::Phi, bb: merge_bb.0 })
                && final(self).m.bb_insts(merge_bb.0 as int).len() > 0 && final(self).m.bb_insts(merge_bb.0 as int)[0] == v.0,
            res is Ok && old(self).buidler.bb != Some(merge_bb) ==> ends_in_br(final(self).m, old(self).buidler.bb.unwrap().0 as int)
                && branch_ops(final(self).m, old(self).buidler.bb.unwrap().0 as int) == seq![merge_bb.0],
            res is Err ==> *final(self) == *old(self),
    {
        let ghost m0 = self.m;
        let rhs_end = self.insert_block()?;
        let t = self.m.get_bool_ty();
        let c = self.const_int(short);
        let ghost mc = self.m;
        proof {
            lemma_block_kept(mc, m0, merge_bb.0 as int);
            lemma_block_kept(mc, m0, rhs_end.0 as int);
            if rhs_end != merge_bb {
                assert(mc.bb_insts(merge_bb.0 as int) == m0.bb_insts(merge_bb.0 as int));
            }
        }
        let br = InstPtr::br_inst(&mut self.m, merge_bb, rhs_end);
        proof {
            lemma_grows_inst(self.m, mc, br.0, VOID_TY, OpID::Br, rhs_end.0, seq![merge_bb.0], insts_of(mc, rhs_end).push(br.0), seq![merge_bb.0]);
            lemma_inv_grows(self.m, mc, self.scope, self.context, self.buidler);
            lemma_block_kept(self.m, mc, merge_bb.0 as int);
            lemma_grows_trans(self.m, mc, m0);
        }
        let ghost m1 = self.m;
        proof {
            if rhs_end != merge_bb {
                assert(m1.class_of(merge_bb.0 as int) is BasicBlock);
                assert(m1.bb_insts(merge_bb.0 as int) == mc.bb_insts(merge_bb.0 as int));
            }
            assert(m1.bb_insts(rhs_end.0 as int) == insts_of(mc, rhs_end).push(br.0));
            assert(ends_in_br(m1, rhs_end.0 as int));
        }
        self.buidler.set_insert_point(merge_bb);
        let ghost m2 = self.m;
        let vals = vec![c, rhs_bool];
        let bbs = vec![lhs_bb, rhs_end];
        proof {
            let vs = vals@;
            let bs = bbs@;
            assert(vs =~= seq![c, rhs_bool]);
            assert(bs =~= seq![lhs_bb, rhs_end]);
            assert(vs.drop_last() =~= seq![c]);
            assert(bs.drop_last() =~= seq![lhs_bb]);
            assert(vs.drop_last().drop_last().len() == 0);
            assert(phi_ops(vs.drop_last().drop_last(), bs.drop_last().drop_last()) =~= Seq::<usize>::empty());
            assert(phi_ops(vs.drop_last(), bs.drop_last()) =~= seq![c.0, lhs_bb.0]);
            assert(phi_ops(vs, bs) =~= seq![c.0, lhs_bb.0, rhs_bool.0, rhs_end.0]);
        }
        proof {
            if rhs_end != merge_bb && m0.bb_insts(merge_bb.0 as int).len() == 0 {
                assert(m2.bb_insts(merge_bb.0 as int).len() == 0);
            }
        }
        let phi = InstPtr::phi_inst(&mut self.m, t, vals, bbs, merge_bb);
        proof {
            lemma_grows_inst(self.m, m2, phi.0, t, OpID::Phi, merge_bb.0, crate::ir::inst_impl::phi_ops(vals@, bbs@), seq![phi.0] + m2.bb_insts(merge_bb.0 as int), Seq::empty());
            lemma_inv_grows(self.m, m2, self.scope, self.context, self.buidler);
            lemma_grows_trans(self.m, m2, m0);
            if rhs_end != merge_bb {
                assert(self.m.bb_insts(rhs_end.0 as int) == m2.bb_insts(rhs_end.0 as int));
                lemma_br_kept(self.m, m2, rhs_end.0 as int);
            }
        }
        Ok(phi.to_val())
    }

    /// A logical and: the value of a lone operand, or the short circuit
    /// that evaluates the right operand only when the left one is true,
    /// giving an `i1`.
    #[verifier::spinoff_prover]
    #[verifier::rlimit(100)]
    pub fn visit_land_exp<A: FloatArith>(&mut self, exp: &LAndExp) -> (res: Result<ValuePtr, GenError>)
        requires
            old(self).inv(),
            !old(self).context.is_const,
        ensures
            final(self).moved(*old(self)),
            final(self).buidler.bb == old(self).buidler.bb || final(self).at_block_from(old(self).m.nv()),
            res matches Ok(v) ==> v.0 < final(self).m.nv(),
            res matches Ok(v) ==> (exp is LAndExp ==> bool_val(final(self).m, v)),
            res is Ok && exp is LAndExp ==> final(self).at_block_from(old(self).m.nv()),
            exp is LAndExp ==> (res matches Ok(v) ==> short_circuit_made(
                final(self).m,
                v,
                0,
                true,
                final(self).buidler.bb.unwrap().0,
                old(self).m.nv(),
            )),
            old(self).can_insert() && old(self).context.curr_func is Some && land_sure(*exp, old(self).m, old(self).scope.levels())
                ==> (res matches Ok(v) && final(self).can_insert() && 1 <= val_kind(final(self).m, v) <= 3),
        decreases exp, 0int,
    {
        match exp {
            LAndExp::EqExp(e) => self.visit_eq_exp::<A>(e),
            LAndExp::LAndExp(lhs, rhs) => self.land_short_circuit::<A>(lhs, rhs),
        }
    }

    /// The short circuit of `lhs && rhs`: the right operand is evaluated
    /// only when the left one is true, and the result is an `i1` phi.
    #[verifier::spinoff_prover]
    #[verifier::rlimit(100)]
    fn land_short_circuit<A: FloatArith>(&mut self, lhs: &LAndExp, rhs: &EqExp) -> (res: Result<ValuePtr, GenError>)
        requires
            old(self).inv(),
            !old(self).context.is_const,
        ensures
            final(self).moved(*old(self)),
            final(self).buidler.bb == old(self).buidler.bb || final(self).at_block_from(old(self).m.nv()),
            res matches Ok(v) ==> v.0 < final(self).m.nv() && bool_val(final(self).m, v),
            res is Ok ==> final(self).at_block_from(old(self).m.nv()),
            res matches Ok(v) ==> short_circuit_made(
                final(self).m,
                v,
                0,
                true,
                final(self).buidler.bb.unwrap().0,
                old(self).m.nv(),
            ),
            old(self).can_insert() && old(self).context.curr_func is Some && land_sure(*lhs, old(self).m, old(self).scope.levels())
                && eq_kind(*rhs, old(self).m, old(self).scope.levels()) != 0
                ==> (res matches Ok(v) && final(self).can_insert() && 1 <= val_kind(final(self).m, v) <= 3),
        decreases lhs, 1int,
    {
        let ghost s0 = *self;
        let ghost m0 = self.m;
        let rhs_bb = self.new_block()?;
        let ghost sa = *self;
        let merge_bb = self.new_block();
        proof {
            lemma_blocks_kept_trans(self.m, sa.m, m0, sa.buidler.bb, s0.buidler.bb);
            lemma_grows_trans(self.m, sa.m, m0);
        }
        let merge_bb = merge_bb?;
        let ghost m1 = self.m;
        let ghost sure = old(self).can_insert() && old(self).context.curr_func is Some && land_sure(*lhs, m0, old(self).scope.levels()) && eq_kind(*rhs, m0, old(self).scope.levels()) != 0;
        proof {
            if sure {
                lemma_land_sure_grows(*lhs, m1, m0, old(self).scope.levels());
                assert(m1.bb_insts(rhs_bb.0 as int).len() == 0);
                assert(m1.bb_insts(merge_bb.0 as int).len() == 0);
            }
        }
        let lhs_val = self.visit_land_exp::<A>(lhs);
        proof {
            lemma_blocks_kept_trans(self.m, m1, m0, s0.buidler.bb, s0.buidler.bb);
            lemma_grows_trans(self.m, m1, m0);
        }
        let lhs_val = lhs_val?;
        let ghost sb = *self;
        proof {
            if sure {
                assert(self.m.bb_insts(rhs_bb.0 as int).len() == 0);
                assert(self.m.bb_insts(merge_bb.0 as int).len() == 0);
                assert(sb.buidler.bb != Some(rhs_bb) && sb.buidler.bb != Some(merge_bb));
            }
        }
        let lhs_bool = self.to_bool(lhs_val);
        proof {
            lemma_blocks_kept_trans(self.m, sb.m, m0, sb.buidler.bb, s0.buidler.bb);
            lemma_grows_trans(self.m, sb.m, m0);
        }
        let lhs_bool = lhs_bool?;
        let ghost m2 = self.m;
        let ghost sc = *self;
        proof {
            lemma_block_kept(m2, m1, rhs_bb.0 as int);
            lemma_block_kept(m2, m1, merge_bb.0 as int);
        }
        let lhs_bb = self.short_circuit_tail(lhs_bool, rhs_bb, merge_bb, true);
        proof {
            lemma_blocks_kept_trans(self.m, sc.m, m0, sc.buidler.bb, s0.buidler.bb);
            lemma_grows_trans(self.m, sc.m, m0);
        }
        let lhs_bb = lhs_bb?;
        let ghost m3 = self.m;
        let ghost sd = *self;
        proof {
            if sure {
                lemma_eq_kind_grows(*rhs, self.m, m0, old(self).scope.levels());
                assert(self.m.bb_insts(rhs_bb.0 as int).len() == 0);
                assert(self.m.bb_insts(merge_bb.0 as int).len() == 0);
                assert(self.can_insert());
            }
        }
        let rhs_val = self.visit_eq_exp::<A>(rhs);
        proof {
            lemma_blocks_kept_trans(self.m, sd.m, m0, sd.buidler.bb, s0.buidler.bb);
            lemma_grows_trans(self.m, sd.m, m0);
        }
        let rhs_val = rhs_val?;
        let ghost se = *self;
        proof {
            if sure {
                assert(self.buidler.bb == Some(rhs_bb) || self.at_block_from(m3.nv()));
                assert(self.buidler.bb != Some(merge_bb));
                assert(self.m.bb_insts(merge_bb.0 as int).len() == 0);
            }
        }
        let rhs_bool = self.to_bool(rhs_val);
        proof {
            lemma_blocks_kept_trans(self.m, se.m, m0, se.buidler.bb, s0.buidler.bb);
            lemma_grows_trans(self.m, se.m, m0);
        }
        let rhs_bool = rhs_bool?;
        let ghost m4 = self.m;
        let ghost sf = *self;
        proof {
            lemma_grows_trans(m3, m2, m1);
            lemma_block_kept(m3, m1, merge_bb.0 as int);
            lemma_block_kept(m4, m3, merge_bb.0 as int);
            lemma_block_kept(m4, m3, lhs_bb.0 as int);
        }
        let v = self.short_circuit_merge(rhs_bool, lhs_bb, merge_bb, 0);
        proof {
            lemma_blocks_kept_trans_two(self.m, sf.m, m0, sf.buidler.bb, merge_bb.0, s0.buidler.bb);
            lemma_grows_trans(m4, m3, m1);
            lemma_grows_trans(self.m, m4, m1);
            lemma_grows_trans(self.m, m1, m0);
        }
        let v = v?;
        proof {
            assert(sb.buidler.bb != Some(rhs_bb) && sb.buidler.bb != Some(merge_bb));
            assert(lhs_bb != rhs_bb && lhs_bb != merge_bb);
            assert(sf.buidler.bb == se.buidler.bb);
            assert(se.buidler.bb != Some(merge_bb) && se.buidler.bb != Some(lhs_bb));
            lemma_block_kept(m3, m2, lhs_bb.0 as int);
            lemma_br_kept(se.m, m3, lhs_bb.0 as int);
            lemma_br_kept(sf.m, se.m, lhs_bb.0 as int);
            lemma_block_kept(sf.m, m3, lhs_bb.0 as int);
            lemma_br_kept(self.m, sf.m, lhs_bb.0 as int);
            lemma_val_kind_grows(self.m, m2, lhs_bool);
            lemma_val_kind_grows(self.m, m4, rhs_bool);
        }
        Ok(v)
    }

    /// A logical or: the value of a lone operand, or the short circuit
    /// that evaluates the right operand only when the left one is false,
    /// giving an `i1`.
    #[verifier::spinoff_prover]
    #[verifier::rlimit(100)]
    pub fn visit_lor_exp<A: FloatArith>(&mut self, exp: &LOrExp) -> (res: Result<ValuePtr, GenError>)
        requires
            old(self).inv(),
            !old(self).context.is_const,
        ensures
            final(self).moved(*old(self)),
            final(self).buidler.bb == old(self).buidler.bb || final(self).at_block_from(old(self).m.nv()),
            res matches Ok(v) ==> v.0 < final(self).m.nv(),
            res matches Ok(v) ==> (exp is LOrExp ==> bool_val(final(self).m, v)),
            res is Ok && exp is LOrExp ==> final(self).at_block_from(old(self).m.nv()),
            exp is LOrExp ==> (res matches Ok(v) ==> short_circuit_made(
                final(self).m,
                v,
                1,
                false,
                final(self).buidler.bb.unwrap().0,
                old(self).m.nv(),
            )),
            old(self).can_insert() && old(self).context.curr_func is Some && lor_sure(*exp, old(self).m, old(self).scope.levels())
                ==> (res matches Ok(v) && final(self).can_insert() && 1 <= val_kind(final(self).m, v) <= 3),
        decreases exp, 0int,
    {
        match exp {
            LOrExp::LAndExp(e) => self.visit_land_exp::<A>(e),
            LOrExp::LOrExp(lhs, rhs) => self.lor_short_circuit::<A>(lhs, rhs),
        }
    }

    /// The short circuit of `lhs || rhs`: the right operand is evaluated
    /// only when the left one is false, and the result is an `i1` phi.
    #[verifier::spinoff_prover]
    #[verifier::rlimit(100)]
    fn lor_short_circuit<A: FloatArith>(&mut self, lhs: &LOrExp, rhs: &LAndExp) -> (res: Result<ValuePtr, GenError>)
        requires
            old(self).inv(),
            !old(self).context.is_const,
        ensures
            final(self).moved(*old(self)),
            final(self).buidler.bb == old(self).buidler.bb || final(self).at_block_from(old(self).m.nv()),
            res matches Ok(v) ==> v.0 < final(self).m.nv() && bool_val(final(self).m, v),
            res is Ok ==> final(self).at_block_from(old(self).m.nv()),
            res matches Ok(v) ==> short_circuit_made(
                final(self).m,
                v,
                1,
                false,
                final(self).buidler.bb.unwrap().0,
                old(self).m.nv(),
            ),
            old(self).can_insert() && old(self).context.curr_func is Some && lor_sure(*lhs, old(self).m, old(self).scope.levels())
                && land_sure(*rhs, old(self).m, old(self).scope.levels())
                ==> (res matches Ok(v) && final(self).can_insert() && 1 <= val_kind(final(self).m, v) <= 3),
        decreases lhs, 1int,
    {
        let ghost s0 = *self;
        let ghost m0 = self.m;
        let rhs_bb = self.new_block()?;
        let ghost sa = *self;
        let merge_bb = self.new_block();
        proof {
            lemma_blocks_kept_trans(self.m, sa.m, m0, sa.buidler.bb, s0.buidler.bb);
            lemma_grows_trans(self.m, sa.m, m0);
        }
        let merge_bb = merge_bb?;
        let ghost m1 = self.m;
        let ghost sure = old(self).can_insert() && old(self).context.curr_func is Some && lor_sure(*lhs, m0, old(self).scope.levels()) && land_sure(*rhs, m0, old(self).scope.levels());
        proof {
            if sure {
                lemma_lor_sure_grows(*lhs, m1, m0, old(self).scope.levels());
                assert(m1.bb_insts(rhs_bb.0 as int).len() == 0);
                assert(m1.bb_insts(merge_bb.0 as int).len() == 0);
            }
        }
        let lhs_val = self.visit_lor_exp::<A>(lhs);
        proof {
            lemma_blocks_kept_trans(self.m, m1, m0, s0.buidler.bb, s0.buidler.bb);
            lemma_grows_trans(self.m, m1, m0);
        }
        let lhs_val = lhs_val?;
        let ghost sb = *self;
        proof {
            if sure {
                assert(self.m.bb_insts(rhs_bb.0 as int).len() == 0);
                assert(self.m.bb_insts(merge_bb.0 as int).len() == 0);
                assert(sb.buidler.bb != Some(rhs_bb) && sb.buidler.bb != Some(merge_bb));
            }
        }
        let lhs_bool = self.to_bool(lhs_val);
        proof {
            lemma_blocks_kept_trans(self.m, sb.m, m0, sb.buidler.bb, s0.buidler.bb);
            lemma_grows_trans(self.m, sb.m, m0);
        }
        let lhs_bool = lhs_bool?;
        let ghost m2 = self.m;
        let ghost sc = *self;
        proof {
            lemma_block_kept(m2, m1, rhs_bb.0 as int);
            lemma_block_kept(m2, m1, merge_bb.0 as int);
        }
        let lhs_bb = self.short_circuit_tail(lhs_bool, rhs_bb, merge_bb, false);
        proof {
            lemma_blocks_kept_trans(self.m, sc.m, m0, sc.buidler.bb, s0.buidler.bb);
            lemma_grows_trans(self.m, sc.m, m0);
        }
        let lhs_bb = lhs_bb?;
        let ghost m3 = self.m;
        let ghost sd = *self;
        proof {
            if sure {
                lemma_land_sure_grows(*rhs, self.m, m0, old(self).scope.levels());
                assert(self.m.bb_insts(rhs_bb.0 as int).len() == 0);
                assert(self.m.bb_insts(merge_bb.0 as int).len() == 0);
                assert(self.can_insert());
            }
        }
        let rhs_val = self.visit_land_exp::<A>(rhs);
        proof {
            lemma_blocks_kept_trans(self.m, sd.m, m0, sd.buidler.bb, s0.buidler.bb);
            lemma_grows_trans(self.m, sd.m, m0);
        }
        let rhs_val = rhs_val?;
        let ghost se = *self;
        proof {
            if sure {
                assert(self.buidler.bb == Some(rhs_bb) || self.at_block_from(m3.nv()));
                assert(self.buidler.bb != Some(merge_bb));
                assert(self.m.bb_insts(merge_bb.0 as int).len() == 0);
            }
        }
        let rhs_bool = self.to_bool(rhs_val);
        proof {
            lemma_blocks_kept_trans(self.m, se.m, m0, se.buidler.bb, s0.buidler.bb);
            lemma_grows_trans(self.m, se.m, m0);
        }
        let rhs_bool = rhs_bool?;
        let ghost m4 = self.m;
        let ghost sf = *self;
        proof {
            lemma_grows_trans(m3, m2, m1);
            lemma_block_kept(m3, m1, merge_bb.0 as int);
            lemma_block_kept(m4, m3, merge_bb.0 as int);
            lemma_block_kept(m4, m3, lhs_bb.0 as int);
        }
        let v = self.short_circuit_merge(rhs_bool, lhs_bb, merge_bb, 1);
        proof {
            lemma_blocks_kept_trans_two(self.m, sf.m, m0, sf.buidler.bb, merge_bb.0, s0.buidler.bb);
            lemma_grows_trans(m4, m3, m1);
            lemma_grows_trans(self.m, m4, m1);
            lemma_grows_trans(self.m, m1, m0);
        }
        let v = v?;
        assert(short_circuit_made(self.m, v, 1, false, merge_bb.0, m0.nv())) by {
            assert(sb.buidler.bb != Some(rhs_bb) && sb.buidler.bb != Some(merge_bb));
            assert(lhs_bb != rhs_bb && lhs_bb != merge_bb);
            assert(sf.buidler.bb == se.buidler.bb);
            assert(se.buidler.bb != Some(merge_bb) && se.buidler.bb != Some(lhs_bb));
            lemma_block_kept(m3, m2, lhs_bb.0 as int);
            lemma_br_kept(se.m, m3, lhs_bb.0 as int);
            lemma_br_kept(sf.m, se.m, lhs_bb.0 as int);
            lemma_block_kept(sf.m, m3, lhs_bb.0 as int);
            lemma_br_kept(self.m, sf.m, lhs_bb.0 as int);
            lemma_val_kind_grows(self.m, m2, lhs_bool);
            lemma_val_kind_grows(self.m, m4, rhs_bool);
        }
        Ok(v)
    }

    /// A condition: its value as an `i1`.
    pub fn visit_cond<A: FloatArith>(&mut self, cond: &Cond) -> (res: Result<ValuePtr, GenError>)
        requires
            old(self).inv(),
            !old(self).context.is_const,
        ensures
            final(self).moved(*old(self)),
            final(self).buidler.bb == old(self).buidler.bb || final(self).at_block_from(old(self).m.nv()),
            res matches Ok(v) ==> bool_val(final(self).m, v),
            old(self).can_insert() && old(self).context.curr_func is Some && lor_sure(cond.item, old(self).m, old(self).scope.levels())
                ==> res is Ok && final(self).can_insert(),
    {
        let ghost m0 = self.m;
        let ghost s0 = *self;
        let v = self.visit_lor_exp::<A>(&cond.item)?;
        let ghost m1 = self.m;
        let ghost s1 = *self;
        let r = self.to_bool(v);
        proof {
            lemma_grows_trans(self.m, m1, m0);
            lemma_blocks_kept_trans(self.m, m1, m0, s1.buidler.bb, s0.buidler.bb);
        }
        r
    }
}

} // verus!
