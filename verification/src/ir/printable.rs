//! Whether a module can be printed: array constants refer to earlier
//! constants only, and every instruction of every function has the
//! operands its text needs.

use vstd::prelude::*;
use crate::ir::ir_printer::{consts_below, printable_bb, printable_func, printable_inst, printable_module};
use crate::ir::inst_impl::inst_added;
use crate::ir::module::{same_class_kind, value_below, Module};
use crate::ir::user::{ConstantClass, OpID};
use crate::ir::value::{BasicBlockPtr, FunctionPtr, ValueClass};

verus! {

/// Whether instruction `i` has the operands its text needs.
fn inst_printable(m: &Module, i: usize) -> (r: bool)
    requires
        m.wf(),
        i < m.nv(),
    ensures
        r == printable_inst(*m, i as int),
{
    let op = match &m.values[i].class {
        ValueClass::Inst { op_id, .. } => *op_id,
        _ => OpID::Ret,
    };
    let ops = &m.values[i].operands;
    proof {
        assert(crate::ir::module::value_below(m.values@[i as int], m.nt(), m.nv()));
    }
    match op {
        OpID::Ret => true,
        OpID::Call | OpID::Br | OpID::ZExt | OpID::FPToSI | OpID::SIToFP | OpID::Phi => ops.len() >= 1,
        OpID::GetElementPtr | OpID::Load => {
            if ops.len() == 0 {
                false
            } else {
                let p = ops[0];
                proof {
                    assert(m.ops(i as int)[0] < m.nv());
                    assert(crate::ir::module::value_below(m.values@[p as int], m.nt(), m.nv()));
                }
                m.ty(m.values[p].type_).get_ptr_elem_ty().is_some()
            }
        },
        OpID::Alloca => m.ty(m.values[i].type_).get_ptr_elem_ty().is_some(),
        _ => ops.len() >= 2,
    }
}

/// Whether every instruction of block `b` is printable.
fn bb_printable(m: &Module, b: usize) -> (r: bool)
    requires
        m.wf(),
        b < m.nv(),
        m.class_of(b as int) is BasicBlock,
    ensures
        r == printable_bb(*m, b as int),
{
    let insts = BasicBlockPtr(b).get_insts(m);
    proof {
        assert(m.class_kinds_ok(m.values@[b as int].class, m.values@[b as int].type_));
        assert(crate::ir::module::value_below(m.values@[b as int], m.nt(), m.nv()));
    }
    let n = insts.len();
    let mut k: usize = 0;
    while k < n
        invariant
            m.wf(),
            b < m.nv(),
            insts@ == m.bb_insts(b as int),
            crate::ir::module::seq_below(insts@, m.nv()),
            n == insts@.len(),
            0 <= k <= n,
            forall|j: int| 0 <= j < k ==> printable_inst(*m, #[trigger] m.bb_insts(b as int)[j] as int),
        decreases n - k,
    {
        if !inst_printable(m, insts[k]) {
            return false;
        }
        k = k + 1;
    }
    true
}

/// Whether every block of function `f` is printable.
fn func_printable(m: &Module, f: usize) -> (r: bool)
    requires
        m.wf(),
        f < m.nv(),
        m.class_of(f as int) is Function,
    ensures
        r == printable_func(*m, f as int),
{
    let bbs = FunctionPtr(f).get_bbs(m);
    proof {
        assert(m.class_kinds_ok(m.values@[f as int].class, m.values@[f as int].type_));
        assert(crate::ir::module::value_below(m.values@[f as int], m.nt(), m.nv()));
    }
    let n = bbs.len();
    let mut k: usize = 0;
    while k < n
        invariant
            m.wf(),
            f < m.nv(),
            m.class_of(f as int) is Function,
            bbs@ == m.func_bbs(f as int),
            crate::ir::module::seq_below(bbs@, m.nv()),
            forall|j: int| 0 <= j < bbs@.len() ==> m.class_of(#[trigger] bbs@[j] as int) is BasicBlock,
            n == bbs@.len(),
            0 <= k <= n,
            forall|j: int| 0 <= j < k ==> printable_bb(*m, #[trigger] m.func_bbs(f as int)[j] as int),
        decreases n - k,
    {
        if !bb_printable(m, bbs[k]) {
            return false;
        }
        k = k + 1;
    }
    true
}

/// Whether the module can be printed.
pub fn module_printable(m: &Module) -> (r: bool)
    requires
        m.wf(),
    ensures
        r == printable_module(*m),
{
    let nv = m.values.len();
    let mut v: usize = 0;
    while v < nv
        invariant
            m.wf(),
            nv == m.nv(),
            0 <= v <= nv,
            forall|w: int|
                0 <= w < v ==> (#[trigger] m.class_of(w) matches ValueClass::Constant(ConstantClass::Arr(els))
                    ==> forall|k: int| 0 <= k < els@.len() ==> els@[k] < w),
        decreases nv - v,
    {
        match &m.values[v].class {
            ValueClass::Constant(ConstantClass::Arr(els)) => {
                let ne = els.len();
                let mut k: usize = 0;
                while k < ne
                    invariant
                        0 <= k <= ne,
                        ne == els@.len(),
                        v < nv,
                        nv == m.nv(),
                        m.class_of(v as int) == ValueClass::Constant(ConstantClass::Arr(*els)),
                        forall|j: int| 0 <= j < k ==> els@[j] < v,
                    decreases ne - k,
                {
                    if els[k] >= v {
                        proof {
                            if consts_below(*m) {
                                let c = m.class_of(v as int);
                                assert(c matches ValueClass::Constant(ConstantClass::Arr(e)) ==> forall|j: int|
                                    0 <= j < e@.len() ==> e@[j] < v);
                                assert(els@[k as int] < v);
                            }
                        }
                        return false;
                    }
                    k = k + 1;
                }
            },
            _ => {},
        }
        v = v + 1;
    }
    assert(consts_below(*m));
    let nf = m.func_list.len();
    let mut j: usize = 0;
    while j < nf
        invariant
            m.wf(),
            consts_below(*m),
            nf == m.func_list@.len(),
            0 <= j <= nf,
            forall|i: int| 0 <= i < j ==> printable_func(*m, #[trigger] m.func_list@[i] as int),
        decreases nf - j,
    {
        proof {
            assert(crate::ir::module::seq_below(m.func_list@, m.nv()));
            assert(m.class_of(m.func_list@[j as int] as int) is Function);
        }
        if !func_printable(m, m.func_list[j]) {
            return false;
        }
        j = j + 1;
    }
    true
}

/// An instruction whose class, operands and type are as in `m0`, and whose
/// first operand keeps its type, is printable in `m1` as it is in `m0`.
pub proof fn lemma_inst_printable_same(m1: Module, m0: Module, i: int)
    requires
        m0.wf(),
        0 <= i < m0.nv(),
        m1.class_of(i) == m0.class_of(i),
        m1.ops(i) == m0.ops(i),
        m1.type_of(i) == m0.type_of(i),
        m0.ops(i).len() > 0 ==> m1.type_of(m0.ops(i)[0] as int) == m0.type_of(m0.ops(i)[0] as int),
        m0.types@.is_prefix_of(m1.types@),
    ensures
        printable_inst(m1, i) == printable_inst(m0, i),
{
    assert(value_below(m0.values@[i], m0.nt(), m0.nv()));
    assert(m1.types@[m0.type_of(i) as int] == m0.types@[m0.type_of(i) as int]);
    if m0.ops(i).len() > 0 {
        let o = m0.ops(i)[0] as int;
        assert(m0.ops(i)[0] < m0.nv());
        assert(value_below(m0.values@[o], m0.nt(), m0.nv()));
        assert(m1.types@[m0.type_of(o) as int] == m0.types@[m0.type_of(o) as int]);
    }
}

/// Printability survives new values that are no array constants, new
/// types, and new functions without blocks, when the old values stay.
pub proof fn lemma_printable_frame(m1: Module, m0: Module)
    requires
        m0.wf(),
        printable_module(m0),
        m0.nv() <= m1.nv(),
        m0.types@.is_prefix_of(m1.types@),
        forall|w: int| 0 <= w < m0.nv() ==> #[trigger] m1.values@[w] == m0.values@[w],
        forall|w: int|
            m0.nv() <= w < m1.nv() ==> !(#[trigger] m1.class_of(w) matches ValueClass::Constant(ConstantClass::Arr(_))),
        m0.func_list@.is_prefix_of(m1.func_list@),
        forall|k: int|
            m0.func_list@.len() <= k < m1.func_list@.len() ==> m1.func_bbs(#[trigger] m1.func_list@[k] as int).len() == 0,
    ensures
        printable_module(m1),
{
    assert forall|v: int| 0 <= v < m1.nv() implies (#[trigger] m1.class_of(v) matches ValueClass::Constant(
        ConstantClass::Arr(els),
    ) ==> forall|k: int| 0 <= k < els@.len() ==> els@[k] < v) by {
        if v < m0.nv() {
            assert(m1.values@[v] == m0.values@[v]);
            assert(m0.class_of(v) matches ValueClass::Constant(ConstantClass::Arr(els)) ==> forall|k: int|
                0 <= k < els@.len() ==> els@[k] < v);
        }
    }
    assert forall|k: int| 0 <= k < m1.func_list@.len() implies printable_func(m1, #[trigger] m1.func_list@[k] as int) by {
        if k < m0.func_list@.len() {
            let f = m1.func_list@[k] as int;
            assert(m0.func_list@[k] as int == f);
            assert(printable_func(m0, f));
            assert(crate::ir::module::seq_below(m0.func_list@, m0.nv()));
            assert(m1.values@[f] == m0.values@[f]);
            assert(value_below(m0.values@[f], m0.nt(), m0.nv()));
            assert forall|j: int| 0 <= j < m1.func_bbs(f).len() implies printable_bb(m1, #[trigger] m1.func_bbs(f)[j] as int) by {
                let b = m0.func_bbs(f)[j] as int;
                assert(printable_bb(m0, b));
                assert(m1.values@[b] == m0.values@[b]);
                assert(value_below(m0.values@[b], m0.nt(), m0.nv()));
                assert forall|q: int| 0 <= q < m1.bb_insts(b).len() implies printable_inst(m1, #[trigger] m1.bb_insts(b)[q] as int) by {
                    let i = m0.bb_insts(b)[q] as int;
                    assert(printable_inst(m0, i));
                    assert(m1.values@[i] == m0.values@[i]);
                    assert(value_below(m0.values@[i], m0.nt(), m0.nv()));
                    if m0.ops(i).len() > 0 {
                        assert(m1.values@[m0.ops(i)[0] as int] == m0.values@[m0.ops(i)[0] as int]);
                    }
                    lemma_inst_printable_same(m1, m0, i);
                }
            }
        }
    }
}

/// Printability survives a new printable instruction placed in a block.
pub proof fn lemma_printable_inst_added(
    m1: Module,
    m0: Module,
    r: usize,
    ty: usize,
    op: OpID,
    bb: usize,
    ops: Seq<usize>,
    bb_insts: Seq<usize>,
    succ_add: Seq<usize>,
)
    requires
        m0.wf(),
        printable_module(m0),
        inst_added(m1, m0, r, ty, op, bb, ops, bb_insts, succ_add),
        printable_inst(m1, r as int),
        bb_insts == m0.bb_insts(bb as int).push(r) || bb_insts == seq![r] + m0.bb_insts(bb as int),
    ensures
        printable_module(m1),
{
    assert forall|v: int| 0 <= v < m1.nv() implies (#[trigger] m1.class_of(v) matches ValueClass::Constant(
        ConstantClass::Arr(els),
    ) ==> forall|k: int| 0 <= k < els@.len() ==> els@[k] < v) by {
        if v < m0.nv() {
            assert(same_class_kind(m1.class_of(v), m0.class_of(v)));
            assert(m0.class_of(v) matches ValueClass::Constant(ConstantClass::Arr(els)) ==> forall|k: int|
                0 <= k < els@.len() ==> els@[k] < v);
        }
    }
    assert forall|k: int| 0 <= k < m1.func_list@.len() implies printable_func(m1, #[trigger] m1.func_list@[k] as int) by {
        let f = m1.func_list@[k] as int;
        assert(m0.func_list@[k] as int == f);
        assert(printable_func(m0, f));
        assert(crate::ir::module::seq_below(m0.func_list@, m0.nv()));
        assert(m0.class_of(f) is Function);
        assert(same_class_kind(m1.class_of(f), m0.class_of(f)));
        assert(m1.class_of(f) == m0.class_of(f));
        assert(m0.class_kinds_ok(m0.values@[f].class, m0.values@[f].type_));
        assert(value_below(m0.values@[f], m0.nt(), m0.nv()));
        assert forall|j: int| 0 <= j < m1.func_bbs(f).len() implies printable_bb(m1, #[trigger] m1.func_bbs(f)[j] as int) by {
            let b = m0.func_bbs(f)[j] as int;
            assert(printable_bb(m0, b));
            assert(m0.class_of(b) is BasicBlock);
            assert(same_class_kind(m1.class_of(b), m0.class_of(b)));
            assert(m0.class_kinds_ok(m0.values@[b].class, m0.values@[b].type_));
            assert(value_below(m0.values@[b], m0.nt(), m0.nv()));
            assert forall|q: int| 0 <= q < m1.bb_insts(b).len() implies printable_inst(m1, #[trigger] m1.bb_insts(b)[q] as int) by {
                let i = m1.bb_insts(b)[q] as int;
                if i != r as int {
                    let q0: int = if b != bb as int {
                        q
                    } else if bb_insts == m0.bb_insts(bb as int).push(r) {
                        q
                    } else {
                        q - 1
                    };
                    if b == bb as int {
                        if bb_insts == m0.bb_insts(bb as int).push(r) {
                            if q == m0.bb_insts(b).len() {
                                assert(bb_insts[q] == r);
                            }
                        } else {
                            if q == 0 {
                                assert(bb_insts[0] == r);
                            }
                            assert(bb_insts[q] == m0.bb_insts(b)[q - 1]);
                        }
                    }
                    assert(0 <= q0 < m0.bb_insts(b).len());
                    assert(m0.bb_insts(b)[q0] as int == i);
                    assert(printable_inst(m0, i));
                    assert(m0.class_of(i) is Inst);
                    assert(same_class_kind(m1.class_of(i), m0.class_of(i)));
                    assert(m1.values@[i].type_ == m0.values@[i].type_);
                    assert(value_below(m0.values@[i], m0.nt(), m0.nv()));
                    if m0.ops(i).len() > 0 {
                        assert(m0.ops(i)[0] < m0.nv());
                        assert(m1.values@[m0.ops(i)[0] as int].type_ == m0.values@[m0.ops(i)[0] as int].type_);
                    }
                    lemma_inst_printable_same(m1, m0, i);
                }
            }
        }
    }
}

/// A block whose instructions keep their values, in a module where every
/// old value keeps its type, stays printable.
pub proof fn lemma_bb_printable_same(m1: Module, m0: Module, c: int)
    requires
        m0.wf(),
        0 <= c < m0.nv(),
        m0.class_of(c) is BasicBlock,
        printable_bb(m0, c),
        m1.bb_insts(c) == m0.bb_insts(c),
        m0.types@.is_prefix_of(m1.types@),
        forall|x: int| 0 <= x < m0.nv() ==> #[trigger] m1.type_of(x) == m0.type_of(x),
        forall|q: int| 0 <= q < m0.bb_insts(c).len() ==> #[trigger] m1.values@[m0.bb_insts(c)[q] as int] == m0.values@[m0.bb_insts(c)[q] as int],
    ensures
        printable_bb(m1, c),
{
    assert(value_below(m0.values@[c], m0.nt(), m0.nv()));
    assert forall|q: int| 0 <= q < m1.bb_insts(c).len() implies printable_inst(m1, #[trigger] m1.bb_insts(c)[q] as int) by {
        let i = m0.bb_insts(c)[q] as int;
        assert(printable_inst(m0, i));
        assert(m1.values@[i] == m0.values@[i]);
        assert(value_below(m0.values@[i], m0.nt(), m0.nv()));
        if m0.ops(i).len() > 0 {
            assert(m0.ops(i)[0] < m0.nv());
            assert(m1.type_of(m0.ops(i)[0] as int) == m0.type_of(m0.ops(i)[0] as int));
        }
        lemma_inst_printable_same(m1, m0, i);
    }
}

/// The common frame of adding a new empty block `b` to function `f`.
pub open spec fn block_appended(m1: Module, m0: Module, f: int, b: usize) -> bool {
    &&& 0 <= f < m0.nv()
    &&& b == m0.nv()
    &&& m1.nv() == m0.nv() + 1
    &&& m0.class_of(f) is Function
    &&& m1.class_of(f) is Function
    &&& m1.type_of(f) == m0.type_of(f)
    &&& m1.func_bbs(f) == m0.func_bbs(f).push(b)
    &&& m1.class_of(b as int) is BasicBlock
    &&& m1.bb_insts(b as int).len() == 0
    &&& forall|x: int| 0 <= x < m0.nv() && x != f ==> #[trigger] m1.values@[x] == m0.values@[x]
    &&& m1.types@ == m0.types@
    &&& m1.func_list@ == m0.func_list@
}

/// One function stays printable when a new empty block is added to `f`.
pub proof fn lemma_func_printable_new_block(m1: Module, m0: Module, f: int, b: usize, g: int)
    requires
        m0.wf(),
        block_appended(m1, m0, f, b),
        0 <= g < m0.nv(),
        m0.class_of(g) is Function,
        printable_func(m0, g),
        forall|x: int| 0 <= x < m0.nv() ==> #[trigger] m1.type_of(x) == m0.type_of(x),
    ensures
        printable_func(m1, g),
{
    if g != f {
        assert(m1.values@[g] == m0.values@[g]);
    }
    assert(m0.types@.is_prefix_of(m1.types@));
    assert(m0.class_kinds_ok(m0.values@[g].class, m0.values@[g].type_));
    assert(value_below(m0.values@[g], m0.nt(), m0.nv()));
    assert forall|j: int| 0 <= j < m1.func_bbs(g).len() implies printable_bb(m1, #[trigger] m1.func_bbs(g)[j] as int) by {
        let c = m1.func_bbs(g)[j] as int;
        if g == f && j == m0.func_bbs(f).len() {
            assert(m1.func_bbs(f)[j] == b);
            assert(printable_bb(m1, b as int));
        } else {
            assert(c == m0.func_bbs(g)[j] as int);
            assert(printable_bb(m0, c));
            assert(m0.class_of(c) is BasicBlock);
            assert(c != f);
            assert(m1.values@[c] == m0.values@[c]);
            assert(m0.class_kinds_ok(m0.values@[c].class, m0.values@[c].type_));
            assert(value_below(m0.values@[c], m0.nt(), m0.nv()));
            assert forall|q: int| 0 <= q < m0.bb_insts(c).len() implies #[trigger] m1.values@[m0.bb_insts(c)[q] as int] == m0.values@[m0.bb_insts(c)[q] as int] by {
                let i = m0.bb_insts(c)[q] as int;
                assert(m0.class_of(i) is Inst);
            }
            lemma_bb_printable_same(m1, m0, c);
        }
    }
}

/// Printability survives a new empty block appended to function `f`.
pub proof fn lemma_printable_new_block(m1: Module, m0: Module, f: int, b: usize)
    requires
        m0.wf(),
        printable_module(m0),
        block_appended(m1, m0, f, b),
    ensures
        printable_module(m1),
{
    assert forall|v: int| 0 <= v < m1.nv() implies (#[trigger] m1.class_of(v) matches ValueClass::Constant(
        ConstantClass::Arr(els),
    ) ==> forall|k: int| 0 <= k < els@.len() ==> els@[k] < v) by {
        if v < m0.nv() && v != f {
            assert(m1.values@[v] == m0.values@[v]);
            assert(m0.class_of(v) matches ValueClass::Constant(ConstantClass::Arr(els)) ==> forall|k: int|
                0 <= k < els@.len() ==> els@[k] < v);
        }
    }
    assert forall|x: int| 0 <= x < m0.nv() implies #[trigger] m1.type_of(x) == m0.type_of(x) by {
        if x != f {
            assert(m1.values@[x] == m0.values@[x]);
        }
    }
    assert forall|k: int| 0 <= k < m1.func_list@.len() implies printable_func(m1, #[trigger] m1.func_list@[k] as int) by {
        let g = m1.func_list@[k] as int;
        assert(m0.func_list@[k] as int == g);
        assert(printable_func(m0, g));
        assert(crate::ir::module::seq_below(m0.func_list@, m0.nv()));
        lemma_func_printable_new_block(m1, m0, f, b, g);
    }
}

} // verus!
