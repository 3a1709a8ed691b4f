//! Basic blocks: their instruction lists and their predecessor and
//! successor lists.

use vstd::prelude::*;
use crate::ir::module::{seq_below, Module, LABEL_TY};
use crate::ir::user::OpID;
use crate::ir::value::{BasicBlockPtr, FunctionPtr, InstPtr, ValueClass, ValuePtr};
use crate::ir::value_impl::copy_indices;

verus! {

/// `s` without the entries equal to `x`, order kept.
pub open spec fn drop_index(s: Seq<usize>, x: usize) -> Seq<usize>
    decreases s.len(),
{
    if s.len() == 0 {
        s
    } else {
        let r = drop_index(s.drop_last(), x);
        if s.last() == x {
            r
        } else {
            r.push(s.last())
        }
    }
}

pub proof fn lemma_drop_index_sub(s: Seq<usize>, x: usize)
    ensures
        forall|k: int| 0 <= k < drop_index(s, x).len() ==> s.contains(#[trigger] drop_index(s, x)[k]) && drop_index(s, x)[k] != x,
        drop_index(s, x).len() <= s.len(),
    decreases s.len(),
{
    if s.len() > 0 {
        lemma_drop_index_sub(s.drop_last(), x);
        let r = drop_index(s.drop_last(), x);
        assert forall|k: int| 0 <= k < r.len() implies s.contains(#[trigger] r[k]) by {
            let j = choose|j: int| 0 <= j < s.drop_last().len() && s.drop_last()[j] == r[k];
            assert(s[j] == r[k]);
        }
        if s.last() != x {
            assert forall|k: int| 0 <= k < r.push(s.last()).len() implies s.contains(#[trigger] r.push(s.last())[k]) by {
                if k < r.len() {
                    assert(r.push(s.last())[k] == r[k]);
                } else {
                    assert(s[s.len() - 1] == s.last());
                }
            }
        }
    }
}

pub proof fn lemma_drop_index_absent(s: Seq<usize>, x: usize)
    requires
        !s.contains(x),
    ensures
        drop_index(s, x) == s,
    decreases s.len(),
{
    if s.len() > 0 {
        assert(!s.drop_last().contains(x)) by {
            if s.drop_last().contains(x) {
                let j = choose|j: int| 0 <= j < s.drop_last().len() && s.drop_last()[j] == x;
                assert(s[j] == x);
            }
        }
        lemma_drop_index_absent(s.drop_last(), x);
        assert(s.last() != x) by {
            assert(s[s.len() - 1] == s.last());
        }
        assert(s =~= s.drop_last().push(s.last()));
    }
}

/// A copy of `v` without the entries equal to `x`.
pub fn retain_ne(v: &Vec<usize>, x: usize) -> (r: Vec<usize>)
    ensures
        r@ == drop_index(v@, x),
{
    let n = v.len();
    let mut r: Vec<usize> = Vec::new();
    let mut i: usize = 0;
    while i < n
        invariant
            n == v@.len(),
            0 <= i <= n,
            r@ == drop_index(v@.take(i as int), x),
        decreases n - i,
    {
        assert(v@.take(i + 1).drop_last() =~= v@.take(i as int));
        if v[i] != x {
            r.push(v[i]);
        }
        i = i + 1;
    }
    assert(v@.take(n as int) =~= v@);
    r
}

/// Whether the block's last instruction is a branch or a return.
pub open spec fn terminated_spec(m: Module, b: int) -> bool {
    let insts = m.bb_insts(b);
    insts.len() > 0 && (m.inst_op(insts.last() as int) == OpID::Br || m.inst_op(insts.last() as int) == OpID::Ret)
}

impl Module {
    /// Takes the predecessor, successor and instruction lists out of block
    /// `b`, leaving them empty.
    pub fn take_bb_lists(&mut self, b: usize) -> (r: (Vec<usize>, Vec<usize>, Vec<usize>))
        requires
            old(self).wf(),
            b < old(self).nv(),
            old(self).class_of(b as int) is BasicBlock,
        ensures
            final(self).wf(),
            final(self).frame_except_class(*old(self), b as int),
            final(self).class_of(b as int) is BasicBlock,
            final(self).bb_parent(b as int) == old(self).bb_parent(b as int),
            final(self).bb_preds(b as int).len() == 0,
            final(self).bb_succs(b as int).len() == 0,
            final(self).bb_insts(b as int).len() == 0,
            r.0@ == old(self).bb_preds(b as int),
            r.1@ == old(self).bb_succs(b as int),
            r.2@ == old(self).bb_insts(b as int),
    {
        let function = match &self.values[b].class {
            ValueClass::BasicBlock { function, .. } => *function,
            _ => 0,
        };
        let ghost m0 = *self;
        proof {
            assert(m0.class_kinds_ok(m0.values@[b as int].class, m0.values@[b as int].type_));
            assert(crate::ir::module::value_below(m0.values@[b as int], m0.nt(), m0.nv()));
        }
        let old_c = self.replace_class(
            b,
            ValueClass::BasicBlock { function, pre_bbs: Vec::new(), succ_bbs: Vec::new(), insts: Vec::new() },
        );
        match old_c {
            ValueClass::BasicBlock { pre_bbs, succ_bbs, insts, .. } => (pre_bbs, succ_bbs, insts),
            _ => (Vec::new(), Vec::new(), Vec::new()),
        }
    }

    /// Puts predecessor, successor and instruction lists into block `b`.
    pub fn put_bb_lists(&mut self, b: usize, pre_bbs: Vec<usize>, succ_bbs: Vec<usize>, insts: Vec<usize>)
        requires
            old(self).wf(),
            b < old(self).nv(),
            old(self).class_of(b as int) is BasicBlock,
            seq_below(pre_bbs@, old(self).nv()),
            seq_below(succ_bbs@, old(self).nv()),
            seq_below(insts@, old(self).nv()),
            forall|k: int| 0 <= k < pre_bbs@.len() ==> old(self).class_of(#[trigger] pre_bbs@[k] as int) is BasicBlock,
            forall|k: int| 0 <= k < succ_bbs@.len() ==> old(self).class_of(#[trigger] succ_bbs@[k] as int) is BasicBlock,
            forall|k: int| 0 <= k < insts@.len() ==> old(self).class_of(#[trigger] insts@[k] as int) is Inst,
        ensures
            final(self).wf(),
            final(self).frame_except_class(*old(self), b as int),
            final(self).class_of(b as int) is BasicBlock,
            final(self).bb_parent(b as int) == old(self).bb_parent(b as int),
            final(self).bb_preds(b as int) == pre_bbs@,
            final(self).bb_succs(b as int) == succ_bbs@,
            final(self).bb_insts(b as int) == insts@,
    {
        let function = match &self.values[b].class {
            ValueClass::BasicBlock { function, .. } => *function,
            _ => 0,
        };
        let ghost m0 = *self;
        proof {
            assert(m0.class_kinds_ok(m0.values@[b as int].class, m0.values@[b as int].type_));
            assert(crate::ir::module::value_below(m0.values@[b as int], m0.nt(), m0.nv()));
        }
        let _ = self.replace_class(b, ValueClass::BasicBlock { function, pre_bbs, succ_bbs, insts });
    }

    /// Same kinds for every value as in `old`.
    pub open spec fn kinds_kept(self, old: Module) -> bool {
        &&& old.nv() <= self.nv()
        &&& forall|x: int| 0 <= x < old.nv() ==> crate::ir::module::same_class_kind(#[trigger] self.class_of(x), old.class_of(x))
    }
}

impl BasicBlockPtr {
    pub fn to_val(&self) -> (r: ValuePtr)
        ensures
            r.0 == self.0,
    {
        ValuePtr(self.0)
    }

    /// Identity of blocks.
    pub fn eq(&self, other: &BasicBlockPtr) -> (r: bool)
        ensures
            r == (self.0 == other.0),
    {
        self.0 == other.0
    }

    /// A new empty block named `name` appended to function `parent`.
    pub fn create(m: &mut Module, name: String, parent: FunctionPtr) -> (r: Self)
        requires
            old(m).wf(),
            parent.0 < old(m).nv(),
            old(m).class_of(parent.0 as int) is Function,
        ensures
            final(m).wf(),
            r.0 == old(m).nv(),
            final(m).nv() == old(m).nv() + 1,
            final(m).type_of(r.0 as int) == LABEL_TY,
            final(m).values@[r.0 as int].name@ == name@,
            final(m).class_of(r.0 as int) is BasicBlock,
            final(m).bb_parent(r.0 as int) == parent.0,
            final(m).bb_preds(r.0 as int).len() == 0,
            final(m).bb_succs(r.0 as int).len() == 0,
            final(m).bb_insts(r.0 as int).len() == 0,
            final(m).ops(r.0 as int).len() == 0,
            final(m).uses(r.0 as int).len() == 0,
            final(m).func_bbs(parent.0 as int) == old(m).func_bbs(parent.0 as int).push(r.0),
            final(m).func_args(parent.0 as int) == old(m).func_args(parent.0 as int),
            final(m).class_of(parent.0 as int) is Function,
            final(m).kinds_kept(*old(m)),
            forall|x: int| 0 <= x < old(m).nv() && x != parent.0 ==> #[trigger] final(m).values@[x] == old(m).values@[x],
            final(m).values@[parent.0 as int].name == old(m).values@[parent.0 as int].name,
            final(m).type_of(parent.0 as int) == old(m).type_of(parent.0 as int),
            final(m).types@ == old(m).types@,
            final(m).gv_list@ == old(m).gv_list@,
            final(m).func_list@ == old(m).func_list@,
            final(m).const_pool@ == old(m).const_pool@,
    {
        let ty = m.get_lable_ty();
        let b = m.push_value(
            ty,
            name,
            ValueClass::BasicBlock { function: parent.0, pre_bbs: Vec::new(), succ_bbs: Vec::new(), insts: Vec::new() },
        );
        m.func_push_bb(parent.0, b);
        BasicBlockPtr(b)
    }

    pub fn add_pre_bbs(&self, m: &mut Module, bb: BasicBlockPtr)
        requires
            old(m).wf(),
            self.0 < old(m).nv(),
            bb.0 < old(m).nv(),
            old(m).class_of(self.0 as int) is BasicBlock,
            old(m).class_of(bb.0 as int) is BasicBlock,
        ensures
            final(m).wf(),
            final(m).frame_except_class(*old(m), self.0 as int),
            final(m).class_of(self.0 as int) is BasicBlock,
            final(m).bb_parent(self.0 as int) == old(m).bb_parent(self.0 as int),
            final(m).bb_preds(self.0 as int) == old(m).bb_preds(self.0 as int).push(bb.0),
            final(m).bb_succs(self.0 as int) == old(m).bb_succs(self.0 as int),
            final(m).bb_insts(self.0 as int) == old(m).bb_insts(self.0 as int),
    {
        let (mut p, s, i) = m.take_bb_lists(self.0);
        p.push(bb.0);
        m.put_bb_lists(self.0, p, s, i);
    }

    pub fn add_succ_bbs(&self, m: &mut Module, bb: BasicBlockPtr)
        requires
            old(m).wf(),
            self.0 < old(m).nv(),
            bb.0 < old(m).nv(),
            old(m).class_of(self.0 as int) is BasicBlock,
            old(m).class_of(bb.0 as int) is BasicBlock,
        ensures
            final(m).wf(),
            final(m).frame_except_class(*old(m), self.0 as int),
            final(m).class_of(self.0 as int) is BasicBlock,
            final(m).bb_parent(self.0 as int) == old(m).bb_parent(self.0 as int),
            final(m).bb_preds(self.0 as int) == old(m).bb_preds(self.0 as int),
            final(m).bb_succs(self.0 as int) == old(m).bb_succs(self.0 as int).push(bb.0),
            final(m).bb_insts(self.0 as int) == old(m).bb_insts(self.0 as int),
    {
        let (p, mut s, i) = m.take_bb_lists(self.0);
        s.push(bb.0);
        m.put_bb_lists(self.0, p, s, i);
    }

    pub fn remove_pre_bb(&self, m: &mut Module, bb: &BasicBlockPtr)
        requires
            old(m).wf(),
            self.0 < old(m).nv(),
            old(m).class_of(self.0 as int) is BasicBlock,
        ensures
            final(m).wf(),
            final(m).frame_except_class(*old(m), self.0 as int),
            final(m).class_of(self.0 as int) is BasicBlock,
            final(m).bb_parent(self.0 as int) == old(m).bb_parent(self.0 as int),
            final(m).bb_preds(self.0 as int) == drop_index(old(m).bb_preds(self.0 as int), bb.0),
            final(m).bb_succs(self.0 as int) == old(m).bb_succs(self.0 as int),
            final(m).bb_insts(self.0 as int) == old(m).bb_insts(self.0 as int),
    {
        let ghost m0 = *m;
        let (p, s, i) = m.take_bb_lists(self.0);
        let p2 = retain_ne(&p, bb.0);
        proof {
            lemma_drop_index_sub(p@, bb.0);
            assert(m0.class_kinds_ok(m0.values@[self.0 as int].class, m0.values@[self.0 as int].type_));
            assert(crate::ir::module::value_below(m0.values@[self.0 as int], m0.nt(), m0.nv()));
            assert forall|k: int| 0 <= k < p2@.len() implies m.class_of(#[trigger] p2@[k] as int) is BasicBlock && p2@[k] < m.nv() by {
                let j = choose|j: int| 0 <= j < p@.len() && p@[j] == p2@[k];
                assert(m0.class_of(p@[j] as int) is BasicBlock);
            }
        }
        m.put_bb_lists(self.0, p2, s, i);
    }

    pub fn remove_succ_bb(&self, m: &mut Module, bb: &BasicBlockPtr)
        requires
            old(m).wf(),
            self.0 < old(m).nv(),
            old(m).class_of(self.0 as int) is BasicBlock,
        ensures
            final(m).wf(),
            final(m).frame_except_class(*old(m), self.0 as int),
            final(m).class_of(self.0 as int) is BasicBlock,
            final(m).bb_parent(self.0 as int) == old(m).bb_parent(self.0 as int),
            final(m).bb_preds(self.0 as int) == old(m).bb_preds(self.0 as int),
            final(m).bb_succs(self.0 as int) == drop_index(old(m).bb_succs(self.0 as int), bb.0),
            final(m).bb_insts(self.0 as int) == old(m).bb_insts(self.0 as int),
    {
        let ghost m0 = *m;
        let (p, s, i) = m.take_bb_lists(self.0);
        let s2 = retain_ne(&s, bb.0);
        proof {
            lemma_drop_index_sub(s@, bb.0);
            assert(m0.class_kinds_ok(m0.values@[self.0 as int].class, m0.values@[self.0 as int].type_));
            assert(crate::ir::module::value_below(m0.values@[self.0 as int], m0.nt(), m0.nv()));
            assert forall|k: int| 0 <= k < s2@.len() implies m.class_of(#[trigger] s2@[k] as int) is BasicBlock && s2@[k] < m.nv() by {
                let j = choose|j: int| 0 <= j < s@.len() && s@[j] == s2@[k];
                assert(m0.class_of(s@[j] as int) is BasicBlock);
            }
        }
        m.put_bb_lists(self.0, p, s2, i);
    }

    /// Whether the block ends with a branch or a return.
    pub fn is_terminated(&self, m: &Module) -> (r: bool)
        requires
            m.wf(),
            self.0 < m.nv(),
            m.class_of(self.0 as int) is BasicBlock,
        ensures
            r == terminated_spec(*m, self.0 as int),
    {
        match &m.values[self.0].class {
            ValueClass::BasicBlock { insts, .. } => {
                let n = insts.len();
                if n == 0 {
                    return false;
                }
                let last = insts[n - 1];
                proof {
                    assert(crate::ir::module::value_below(m.values@[self.0 as int], m.nt(), m.nv()));
                }
                match &m.values[last].class {
                    ValueClass::Inst { op_id, .. } => matches!(op_id, OpID::Br | OpID::Ret),
                    _ => false,
                }
            },
            _ => false,
        }
    }

    /// The block's last instruction, which must be a terminator.
    pub fn get_terminator(&self, m: &Module) -> (r: InstPtr)
        requires
            m.wf(),
            self.0 < m.nv(),
            m.class_of(self.0 as int) is BasicBlock,
            terminated_spec(*m, self.0 as int),
        ensures
            r.0 == m.bb_insts(self.0 as int).last(),
    {
        match &m.values[self.0].class {
            ValueClass::BasicBlock { insts, .. } => InstPtr(insts[insts.len() - 1]),
            _ => InstPtr(0),
        }
    }

    /// Appends an instruction; the block must not be terminated yet.
    pub fn add_inst(&self, m: &mut Module, inst: InstPtr)
        requires
            old(m).wf(),
            self.0 < old(m).nv(),
            inst.0 < old(m).nv(),
            old(m).class_of(self.0 as int) is BasicBlock,
            old(m).class_of(inst.0 as int) is Inst,
            !terminated_spec(*old(m), self.0 as int),
        ensures
            final(m).wf(),
            final(m).frame_except_class(*old(m), self.0 as int),
            final(m).class_of(self.0 as int) is BasicBlock,
            final(m).bb_parent(self.0 as int) == old(m).bb_parent(self.0 as int),
            final(m).bb_preds(self.0 as int) == old(m).bb_preds(self.0 as int),
            final(m).bb_succs(self.0 as int) == old(m).bb_succs(self.0 as int),
            final(m).bb_insts(self.0 as int) == old(m).bb_insts(self.0 as int).push(inst.0),
    {
        let (p, s, mut i) = m.take_bb_lists(self.0);
        i.push(inst.0);
        m.put_bb_lists(self.0, p, s, i);
    }

    /// Inserts an instruction at the front of the block.
    pub fn add_inst_at_begin(&self, m: &mut Module, inst: InstPtr)
        requires
            old(m).wf(),
            self.0 < old(m).nv(),
            inst.0 < old(m).nv(),
            old(m).class_of(self.0 as int) is BasicBlock,
            old(m).class_of(inst.0 as int) is Inst,
        ensures
            final(m).wf(),
            final(m).frame_except_class(*old(m), self.0 as int),
            final(m).class_of(self.0 as int) is BasicBlock,
            final(m).bb_parent(self.0 as int) == old(m).bb_parent(self.0 as int),
            final(m).bb_preds(self.0 as int) == old(m).bb_preds(self.0 as int),
            final(m).bb_succs(self.0 as int) == old(m).bb_succs(self.0 as int),
            final(m).bb_insts(self.0 as int) == seq![inst.0] + old(m).bb_insts(self.0 as int),
    {
        let (p, s, mut i) = m.take_bb_lists(self.0);
        i.insert(0, inst.0);
        assert(i@ =~= seq![inst.0] + old(m).bb_insts(self.0 as int));
        m.put_bb_lists(self.0, p, s, i);
    }

    /// Removes an instruction from the block's list.
    pub fn remove_inst(&self, m: &mut Module, inst: InstPtr)
        requires
            old(m).wf(),
            self.0 < old(m).nv(),
            old(m).class_of(self.0 as int) is BasicBlock,
        ensures
            final(m).wf(),
            final(m).frame_except_class(*old(m), self.0 as int),
            final(m).class_of(self.0 as int) is BasicBlock,
            final(m).bb_parent(self.0 as int) == old(m).bb_parent(self.0 as int),
            final(m).bb_preds(self.0 as int) == old(m).bb_preds(self.0 as int),
            final(m).bb_succs(self.0 as int) == old(m).bb_succs(self.0 as int),
            final(m).bb_insts(self.0 as int) == drop_index(old(m).bb_insts(self.0 as int), inst.0),
    {
        let ghost m0 = *m;
        let (p, s, i) = m.take_bb_lists(self.0);
        let i2 = retain_ne(&i, inst.0);
        proof {
            lemma_drop_index_sub(i@, inst.0);
            assert(m0.class_kinds_ok(m0.values@[self.0 as int].class, m0.values@[self.0 as int].type_));
            assert(crate::ir::module::value_below(m0.values@[self.0 as int], m0.nt(), m0.nv()));
            assert forall|k: int| 0 <= k < i2@.len() implies m.class_of(#[trigger] i2@[k] as int) is Inst && i2@[k] < m.nv() by {
                let j = choose|j: int| 0 <= j < i@.len() && i@[j] == i2@[k];
                assert(m0.class_of(i@[j] as int) is Inst);
            }
        }
        m.put_bb_lists(self.0, p, s, i2);
    }

    pub fn is_empty(&self, m: &Module) -> (r: bool)
        requires
            self.0 < m.nv(),
        ensures
            r == (m.bb_insts(self.0 as int).len() == 0),
    {
        match &m.values[self.0].class {
            ValueClass::BasicBlock { insts, .. } => insts.len() == 0,
            _ => true,
        }
    }

    pub fn get_num_of_inst(&self, m: &Module) -> (r: usize)
        requires
            self.0 < m.nv(),
        ensures
            r == m.bb_insts(self.0 as int).len(),
    {
        match &m.values[self.0].class {
            ValueClass::BasicBlock { insts, .. } => insts.len(),
            _ => 0,
        }
    }

    /// The instructions of the block, in order.
    pub fn get_insts(&self, m: &Module) -> (r: Vec<usize>)
        requires
            self.0 < m.nv(),
        ensures
            r@ == m.bb_insts(self.0 as int),
    {
        match &m.values[self.0].class {
            ValueClass::BasicBlock { insts, .. } => copy_indices(insts),
            _ => Vec::new(),
        }
    }

    /// The function the block belongs to.
    pub fn get_parent(&self, m: &Module) -> (r: FunctionPtr)
        requires
            self.0 < m.nv(),
        ensures
            r.0 == m.bb_parent(self.0 as int),
    {
        match &m.values[self.0].class {
            ValueClass::BasicBlock { function, .. } => FunctionPtr(*function),
            _ => FunctionPtr(0),
        }
    }
}

} // verus!
