//! Removing a block from a function, with the edges into and out of it.

use vstd::prelude::*;
use crate::ir::bb_impl::{drop_index, lemma_drop_index_absent, lemma_drop_index_sub, retain_ne};
use crate::ir::module::{same_class_kind, Module};
use crate::ir::value::{BasicBlockPtr, FunctionPtr, ValueClass};
use crate::ir::value_impl::copy_indices;

verus! {

pub proof fn lemma_drop_index_idem(s: Seq<usize>, x: usize)
    ensures
        drop_index(drop_index(s, x), x) == drop_index(s, x),
{
    lemma_drop_index_sub(s, x);
    lemma_drop_index_absent(drop_index(s, x), x);
}

/// `s`, or `s` without `bb` where `hit`.
pub open spec fn dropped_if(s: Seq<usize>, hit: bool, bb: usize) -> Seq<usize> {
    if hit {
        drop_index(s, bb)
    } else {
        s
    }
}

/// From `m0` to `m1` only block lists changed: the blocks in `from` lost
/// `bb` from their successors (`succs`) or their predecessors (`!succs`).
pub open spec fn unlinked(m1: Module, m0: Module, from: Seq<usize>, bb: usize, succs: bool) -> bool {
    &&& m1.nv() == m0.nv()
    &&& m1.types@ == m0.types@
    &&& m1.gv_list@ == m0.gv_list@
    &&& m1.func_list@ == m0.func_list@
    &&& m1.const_pool@ == m0.const_pool@
    &&& forall|x: int|
        0 <= x < m0.nv() ==> {
            &&& same_class_kind(#[trigger] m1.class_of(x), m0.class_of(x))
            &&& m1.values@[x].type_ == m0.values@[x].type_
            &&& m1.values@[x].name == m0.values@[x].name
            &&& m1.ops(x) == m0.ops(x)
            &&& m1.uses(x) == m0.uses(x)
            &&& !(m0.class_of(x) is BasicBlock) ==> m1.values@[x] == m0.values@[x]
            &&& m0.class_of(x) is BasicBlock ==> {
                &&& m1.bb_parent(x) == m0.bb_parent(x)
                &&& m1.bb_insts(x) == m0.bb_insts(x)
                &&& m1.bb_succs(x) == dropped_if(m0.bb_succs(x), succs && from.contains(x as usize), bb)
                &&& m1.bb_preds(x) == dropped_if(m0.bb_preds(x), !succs && from.contains(x as usize), bb)
            }
        }
}

pub proof fn lemma_unlinked_refl(m: Module, bb: usize, succs: bool)
    ensures
        unlinked(m, m, Seq::empty(), bb, succs),
{
}

/// One more block unlinked.
pub proof fn lemma_unlinked_step(m2: Module, m1: Module, m0: Module, from: Seq<usize>, p: usize, bb: usize, succs: bool)
    requires
        unlinked(m1, m0, from, bb, succs),
        m0.nv() <= usize::MAX,
        m2.frame_except_class(m1, p as int),
        p < m0.nv(),
        m0.class_of(p as int) is BasicBlock,
        m2.class_of(p as int) is BasicBlock,
        m2.bb_parent(p as int) == m1.bb_parent(p as int),
        m2.bb_insts(p as int) == m1.bb_insts(p as int),
        succs ==> m2.bb_preds(p as int) == m1.bb_preds(p as int),
        succs ==> m2.bb_succs(p as int) == drop_index(m1.bb_succs(p as int), bb),
        !succs ==> m2.bb_succs(p as int) == m1.bb_succs(p as int),
        !succs ==> m2.bb_preds(p as int) == drop_index(m1.bb_preds(p as int), bb),
    ensures
        unlinked(m2, m0, from.push(p), bb, succs),
{
    assert forall|x: int| 0 <= x < m0.nv() implies {
        &&& same_class_kind(#[trigger] m2.class_of(x), m0.class_of(x))
        &&& m2.values@[x].type_ == m0.values@[x].type_
        &&& m2.values@[x].name == m0.values@[x].name
        &&& m2.ops(x) == m0.ops(x)
        &&& m2.uses(x) == m0.uses(x)
        &&& !(m0.class_of(x) is BasicBlock) ==> m2.values@[x] == m0.values@[x]
        &&& m0.class_of(x) is BasicBlock ==> {
            &&& m2.bb_parent(x) == m0.bb_parent(x)
            &&& m2.bb_insts(x) == m0.bb_insts(x)
            &&& m2.bb_succs(x) == dropped_if(m0.bb_succs(x), succs && from.push(p).contains(x as usize), bb)
            &&& m2.bb_preds(x) == dropped_if(m0.bb_preds(x), !succs && from.push(p).contains(x as usize), bb)
        }
    } by {
        assert(same_class_kind(m1.class_of(x), m0.class_of(x)));
        if x == p as int {
            assert(from.push(p).contains(p)) by {
                assert(from.push(p)[from.len() as int] == p);
            }
            lemma_drop_index_idem(m0.bb_succs(x), bb);
            lemma_drop_index_idem(m0.bb_preds(x), bb);
        } else {
            assert(m2.values@[x] == m1.values@[x]);
            assert(from.push(p).contains(x as usize) == from.contains(x as usize)) by {
                if from.push(p).contains(x as usize) {
                    let j = choose|j: int| 0 <= j < from.push(p).len() && from.push(p)[j] == x as usize;
                    if j == from.len() {
                        assert(from.push(p)[j] == p);
                        assert(x == p as int);
                    }
                    assert(from[j] == x as usize);
                }
                if from.contains(x as usize) {
                    let j = choose|j: int| 0 <= j < from.len() && from[j] == x as usize;
                    assert(from.push(p)[j] == x as usize);
                }
            }
        }
    }
}

impl FunctionPtr {
    /// Removes block `bb` from the function's blocks, and `bb` from the
    /// successors of its predecessors and the predecessors of its
    /// successors; `bb` must not be its own neighbour.
    pub fn remove(&self, m: &mut Module, bb: BasicBlockPtr)
        requires
            old(m).wf(),
            self.0 < old(m).nv(),
            old(m).class_of(self.0 as int) is Function,
            bb.0 < old(m).nv(),
            old(m).class_of(bb.0 as int) is BasicBlock,
            !old(m).bb_preds(bb.0 as int).contains(bb.0),
            !old(m).bb_succs(bb.0 as int).contains(bb.0),
        ensures
            final(m).wf(),
            final(m).nv() == old(m).nv(),
            final(m).class_of(self.0 as int) is Function,
            final(m).func_bbs(self.0 as int) == drop_index(old(m).func_bbs(self.0 as int), bb.0),
            final(m).func_args(self.0 as int) == old(m).func_args(self.0 as int),
            forall|x: int|
                0 <= x < old(m).nv() && x != self.0 ==> {
                    &&& same_class_kind(#[trigger] final(m).class_of(x), old(m).class_of(x))
                    &&& !(old(m).class_of(x) is BasicBlock) ==> final(m).values@[x] == old(m).values@[x]
                    &&& old(m).class_of(x) is BasicBlock ==> {
                        &&& final(m).bb_parent(x) == old(m).bb_parent(x)
                        &&& final(m).bb_insts(x) == old(m).bb_insts(x)
                        &&& final(m).bb_succs(x) == dropped_if(
                            old(m).bb_succs(x),
                            old(m).bb_preds(bb.0 as int).contains(x as usize),
                            bb.0,
                        )
                        &&& final(m).bb_preds(x) == dropped_if(
                            old(m).bb_preds(x),
                            old(m).bb_succs(bb.0 as int).contains(x as usize),
                            bb.0,
                        )
                    }
                },
    {
        let ghost m0 = *m;
        let (args, bbs) = m.take_func_lists(self.0);
        let bbs2 = retain_ne(&bbs, bb.0);
        proof {
            lemma_drop_index_sub(bbs@, bb.0);
            assert(m0.class_kinds_ok(m0.values@[self.0 as int].class, m0.values@[self.0 as int].type_));
            assert(crate::ir::module::value_below(m0.values@[self.0 as int], m0.nt(), m0.nv()));
            assert forall|k: int| 0 <= k < bbs2@.len() implies m.class_of(#[trigger] bbs2@[k] as int) is BasicBlock
                && bbs2@[k] < m.nv() by {
                let j = choose|j: int| 0 <= j < bbs@.len() && bbs@[j] == bbs2@[k];
                assert(m0.class_of(bbs@[j] as int) is BasicBlock);
            }
            assert forall|k: int| 0 <= k < args@.len() implies m.class_of(#[trigger] args@[k] as int) is Arg by {
                assert(m0.class_of(args@[k] as int) is Arg);
            }
        }
        m.put_func_lists(self.0, args, bbs2);
        let ghost m1 = *m;
        let total = m.values.len();
        proof {
            assert(m1.values@[bb.0 as int] == m0.values@[bb.0 as int]);
            assert(m0.class_kinds_ok(m0.values@[bb.0 as int].class, m0.values@[bb.0 as int].type_));
            assert(crate::ir::module::value_below(m0.values@[bb.0 as int], m0.nt(), m0.nv()));
            assert(unlinked(m1, m1, Seq::empty(), bb.0, true));
        }
        let (preds, succs) = match &m.values[bb.0].class {
            ValueClass::BasicBlock { pre_bbs, succ_bbs, .. } => (copy_indices(pre_bbs), copy_indices(succ_bbs)),
            _ => (Vec::new(), Vec::new()),
        };
        let n = preds.len();
        let mut i: usize = 0;
        while i < n
            invariant
                m.wf(),
                n == preds@.len(),
                preds@ == m1.bb_preds(bb.0 as int),
                forall|k: int| 0 <= k < preds@.len() ==> #[trigger] preds@[k] < m1.nv() && m1.class_of(preds@[k] as int) is BasicBlock,
                0 <= i <= n,
                total == m1.nv(),
                unlinked(*m, m1, preds@.take(i as int), bb.0, true),
            decreases n - i,
        {
            let ghost mi = *m;
            let p = preds[i];
            proof {
                assert(same_class_kind(mi.class_of(p as int), m1.class_of(p as int)));
            }
            BasicBlockPtr(p).remove_succ_bb(m, &bb);
            proof {
                lemma_unlinked_step(*m, mi, m1, preds@.take(i as int), p, bb.0, true);
                assert(preds@.take(i as int).push(p) =~= preds@.take(i + 1));
            }
            i = i + 1;
        }
        let ghost m2 = *m;
        proof {
            assert(preds@.take(n as int) =~= preds@);
            lemma_unlinked_refl(m2, bb.0, false);
        }
        let ns = succs.len();
        let mut j: usize = 0;
        while j < ns
            invariant
                m.wf(),
                ns == succs@.len(),
                succs@ == m1.bb_succs(bb.0 as int),
                forall|k: int| 0 <= k < succs@.len() ==> #[trigger] succs@[k] < m1.nv() && m1.class_of(succs@[k] as int) is BasicBlock,
                unlinked(m2, m1, preds@, bb.0, true),
                0 <= j <= ns,
                total == m1.nv(),
                m2.nv() == m1.nv(),
                unlinked(*m, m2, succs@.take(j as int), bb.0, false),
            decreases ns - j,
        {
            let ghost mj = *m;
            let s = succs[j];
            proof {
                assert(same_class_kind(m2.class_of(s as int), m1.class_of(s as int)));
                assert(same_class_kind(mj.class_of(s as int), m2.class_of(s as int)));
            }
            BasicBlockPtr(s).remove_pre_bb(m, &bb);
            proof {
                lemma_unlinked_step(*m, mj, m2, succs@.take(j as int), s, bb.0, false);
                assert(succs@.take(j as int).push(s) =~= succs@.take(j + 1));
            }
            j = j + 1;
        }
        proof {
            assert(succs@.take(ns as int) =~= succs@);
            assert forall|x: int| 0 <= x < m0.nv() && x != self.0 implies {
                &&& same_class_kind(#[trigger] m.class_of(x), m0.class_of(x))
                &&& !(m0.class_of(x) is BasicBlock) ==> m.values@[x] == m0.values@[x]
                &&& m0.class_of(x) is BasicBlock ==> {
                    &&& m.bb_parent(x) == m0.bb_parent(x)
                    &&& m.bb_insts(x) == m0.bb_insts(x)
                    &&& m.bb_succs(x) == dropped_if(m0.bb_succs(x), m0.bb_preds(bb.0 as int).contains(x as usize), bb.0)
                    &&& m.bb_preds(x) == dropped_if(m0.bb_preds(x), m0.bb_succs(bb.0 as int).contains(x as usize), bb.0)
                }
            } by {
                assert(m1.values@[x] == m0.values@[x]);
                assert(same_class_kind(m2.class_of(x), m1.class_of(x)));
            }
            assert(m2.values@[self.0 as int] == m1.values@[self.0 as int]);
            assert(m.values@[self.0 as int] == m2.values@[self.0 as int]);
        }
    }
}

impl BasicBlockPtr {
    /// Removes the block from its function, as `FunctionPtr::remove` does.
    pub fn erase_from_parent(&self, m: &mut Module)
        requires
            old(m).wf(),
            self.0 < old(m).nv(),
            old(m).class_of(self.0 as int) is BasicBlock,
            !old(m).bb_preds(self.0 as int).contains(self.0),
            !old(m).bb_succs(self.0 as int).contains(self.0),
        ensures
            final(m).wf(),
            final(m).nv() == old(m).nv(),
            final(m).func_bbs(old(m).bb_parent(self.0 as int) as int) == drop_index(
                old(m).func_bbs(old(m).bb_parent(self.0 as int) as int),
                self.0,
            ),
            final(m).bb_parent(self.0 as int) == old(m).bb_parent(self.0 as int),
    {
        proof {
            assert(m.class_kinds_ok(m.values@[self.0 as int].class, m.values@[self.0 as int].type_));
            assert(crate::ir::module::value_below(m.values@[self.0 as int], m.nt(), m.nv()));
        }
        let parent = self.get_parent(m);
        parent.remove(m, *self);
    }
}

} // verus!
