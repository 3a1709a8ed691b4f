//! Operand and use-list maintenance. Every operation here keeps the module's
//! def-use bookkeeping exact: the uses recorded for a value are precisely the
//! operand slots that hold it.

use vstd::prelude::*;
use crate::ir::module::{has_use, Module};
use crate::ir::user::Use;
use crate::ir::inst_impl::ptr_ids;
use crate::ir::value::{ConstantPtr, GVPtr, InstPtr, UserPtr, ValueClass, ValuePtr};

verus! {

/// `s` without the entries equal to `x`, order kept.
pub open spec fn drop_use(s: Seq<Use>, x: Use) -> Seq<Use>
    decreases s.len(),
{
    if s.len() == 0 {
        s
    } else {
        let r = drop_use(s.drop_last(), x);
        if s.last() == x {
            r
        } else {
            r.push(s.last())
        }
    }
}

pub proof fn lemma_drop_use_contains(s: Seq<Use>, x: Use, y: Use)
    ensures
        drop_use(s, x).contains(y) <==> (s.contains(y) && y != x),
    decreases s.len(),
{
    if s.len() > 0 {
        let p = s.drop_last();
        let r = drop_use(p, x);
        lemma_drop_use_contains(p, x, y);
        assert(s =~= p.push(s.last()));
        assert(s.contains(y) <==> (p.contains(y) || s.last() == y)) by {
            if s.contains(y) {
                let k = choose|k: int| 0 <= k < s.len() && s[k] == y;
                if k < s.len() - 1 {
                    assert(p[k] == y);
                }
            }
            if p.contains(y) {
                let k = choose|k: int| 0 <= k < p.len() && p[k] == y;
                assert(s[k] == y);
            }
            if s.last() == y {
                assert(s[s.len() - 1] == y);
            }
        }
        if s.last() != x {
            let q = r.push(s.last());
            assert(q.contains(y) <==> (r.contains(y) || s.last() == y)) by {
                if q.contains(y) {
                    let k = choose|k: int| 0 <= k < q.len() && q[k] == y;
                    if k < r.len() {
                        assert(r[k] == y);
                    }
                }
                if r.contains(y) {
                    let k = choose|k: int| 0 <= k < r.len() && r[k] == y;
                    assert(q[k] == y);
                }
                if s.last() == y {
                    assert(q[r.len() as int] == y);
                }
            }
        }
    }
}

pub proof fn lemma_drop_use_unique(s: Seq<Use>, x: Use)
    requires
        s.no_duplicates(),
    ensures
        drop_use(s, x).no_duplicates(),
    decreases s.len(),
{
    if s.len() > 0 {
        let r = drop_use(s.drop_last(), x);
        lemma_drop_use_unique(s.drop_last(), x);
        if s.last() != x {
            lemma_drop_use_contains(s.drop_last(), x, s.last());
            assert(!s.drop_last().contains(s.last())) by {
                if s.drop_last().contains(s.last()) {
                    let k = choose|k: int| 0 <= k < s.drop_last().len() && s.drop_last()[k] == s.last();
                    assert(s[k] == s[s.len() - 1]);
                }
            }
            assert forall|i: int, j: int|
                0 <= i < r.push(s.last()).len() && 0 <= j < r.push(s.last()).len() && i != j implies
                r.push(s.last())[i] != r.push(s.last())[j] by {
                if i == r.len() as int {
                    assert(r[j] == r.push(s.last())[j]);
                    assert(r.contains(r[j]));
                } else if j == r.len() as int {
                    assert(r.contains(r[i]));
                }
            }
        }
    }
}

pub proof fn lemma_drop_use_len(s: Seq<Use>, x: Use)
    requires
        s.no_duplicates(),
    ensures
        s.contains(x) ==> drop_use(s, x).len() + 1 == s.len(),
        !s.contains(x) ==> drop_use(s, x) == s,
    decreases s.len(),
{
    if s.len() > 0 {
        assert(s.drop_last().no_duplicates());
        lemma_drop_use_len(s.drop_last(), x);
        assert(s =~= s.drop_last().push(s.last()));
        if s.last() == x {
            assert(!s.drop_last().contains(x)) by {
                if s.drop_last().contains(x) {
                    let k = choose|k: int| 0 <= k < s.drop_last().len() && s.drop_last()[k] == x;
                    assert(s[k] == s[s.len() - 1]);
                }
            }
        } else {
            if s.contains(x) {
                let k = choose|k: int| 0 <= k < s.len() && s[k] == x;
                assert(s.drop_last()[k] == x);
            } else {
                assert(!s.drop_last().contains(x)) by {
                    if s.drop_last().contains(x) {
                        let k = choose|k: int| 0 <= k < s.drop_last().len() && s.drop_last()[k] == x;
                        assert(s[k] == x);
                    }
                }
            }
        }
    }
}

impl Module {
    /// Everything except operand lists and use lists is as in `old`.
    pub open spec fn frame_defuse(self, old: Module) -> bool {
        &&& self.types@ == old.types@
        &&& self.gv_list@ == old.gv_list@
        &&& self.func_list@ == old.func_list@
        &&& self.const_pool@ == old.const_pool@
        &&& self.nv() == old.nv()
        &&& forall|w: int|
            0 <= w < self.nv() ==> {
                &&& (#[trigger] self.values@[w]).type_ == old.values@[w].type_
                &&& self.values@[w].name == old.values@[w].name
                &&& self.values@[w].class == old.values@[w].class
            }
    }

    /// Appends `x` to the use list of value `v`.
    pub fn push_use(&mut self, v: usize, x: Use)
        requires
            v < old(self).nv(),
        ensures
            final(self).frame_defuse(*old(self)),
            final(self).uses(v as int) == old(self).uses(v as int).push(x),
            forall|w: int| 0 <= w < old(self).nv() ==> #[trigger] final(self).ops(w) == old(self).ops(w),
            forall|w: int|
                0 <= w < old(self).nv() && w != v ==> #[trigger] final(self).uses(w) == old(self).uses(w),
    {
        let val = &mut self.values[v];
        val.use_list.push(x);
    }

    /// Removes every entry equal to `x` from the use list of value `v`.
    pub fn drop_use_of(&mut self, v: usize, x: Use)
        requires
            v < old(self).nv(),
        ensures
            final(self).frame_defuse(*old(self)),
            final(self).uses(v as int) == drop_use(old(self).uses(v as int), x),
            forall|w: int| 0 <= w < old(self).nv() ==> #[trigger] final(self).ops(w) == old(self).ops(w),
            forall|w: int|
                0 <= w < old(self).nv() && w != v ==> #[trigger] final(self).uses(w) == old(self).uses(w),
    {
        let n = self.values[v].use_list.len();
        let mut kept: Vec<Use> = Vec::new();
        let mut i: usize = 0;
        while i < n
            invariant
                n == self.uses(v as int).len(),
                v < self.nv(),
                0 <= i <= n,
                kept@ == drop_use(self.uses(v as int).take(i as int), x),
            decreases n - i,
        {
            let y = self.values[v].use_list[i];
            assert(self.uses(v as int).take(i + 1).drop_last() =~= self.uses(v as int).take(i as int));
            if y != x {
                kept.push(y);
            }
            i = i + 1;
        }
        assert(self.uses(v as int).take(n as int) =~= self.uses(v as int));
        let val = &mut self.values[v];
        val.use_list = kept;
    }

    /// Appends value `v` as a new last operand of user `u`.
    pub fn add_operand_at(&mut self, u: usize, v: usize)
        requires
            old(self).wf(),
            u < old(self).nv(),
            v < old(self).nv(),
        ensures
            final(self).wf(),
            final(self).frame_defuse(*old(self)),
            final(self).ops(u as int) == old(self).ops(u as int).push(v),
            final(self).uses(v as int) == old(self).uses(v as int).push(
                Use { user: u, arg_no: old(self).ops(u as int).len() as usize },
            ),
            forall|w: int| 0 <= w < old(self).nv() && w != u ==> #[trigger] final(self).ops(w) == old(self).ops(w),
            forall|w: int|
                0 <= w < old(self).nv() && w != v ==> #[trigger] final(self).uses(w) == old(self).uses(w),
    {
        let ghost m0 = *self;
        let n = self.values[u].operands.len();
        let x = Use { user: u, arg_no: n };
        assert(!m0.uses(v as int).contains(x)) by {
            if m0.uses(v as int).contains(x) {
                let k = choose|k: int| 0 <= k < m0.uses(v as int).len() && m0.uses(v as int)[k] == x;
                assert(m0.values@[v as int].use_list@[k] == x);
            }
        }
        self.push_use(v, x);
        let ghost mh = *self;
        let val = &mut self.values[u];
        val.operands.push(v);
        let ghost m1 = *self;
        assert(m1.values@ == mh.values@.update(u as int, m1.values@[u as int]));
        assert(m1.values@[u as int].use_list == mh.values@[u as int].use_list);
        assert(m1.values@[u as int].class == mh.values@[u as int].class);
        assert(m1.values@[u as int].type_ == mh.values@[u as int].type_);
        assert(m1.values@[u as int].name == mh.values@[u as int].name);
        assert forall|w: int| 0 <= w < m1.nv() implies #[trigger] m1.uses(w) == mh.uses(w) by {
            if w != u {
                assert(m1.values@[w] == mh.values@[w]);
            }
        }
        assert(mh.ops(u as int) == m0.ops(u as int));
        assert(m1.ops(u as int) =~= m0.ops(u as int).push(v));
        assert forall|w: int| 0 <= w < m1.nv() && w != u implies #[trigger] m1.ops(w) == m0.ops(w) by {
            assert(m1.values@[w] == mh.values@[w]);
            assert(mh.ops(w) == m0.ops(w));
        }
        assert(m1.types@ == m0.types@);
        proof { crate::ir::module::lemma_types_wf_frame(m0, m1); }
        assert(m1.refs_wf()) by {
            assert forall|i: int| 0 <= i < m1.nv() implies crate::ir::module::value_below(
                #[trigger] m1.values@[i],
                m1.nt(),
                m1.nv(),
            ) by {
                assert(crate::ir::module::value_below(m0.values@[i], m0.nt(), m0.nv()));
                assert(m1.values@[i].class == m0.values@[i].class);
                assert(m1.values@[i].type_ == m0.values@[i].type_);
                if i == u {
                    assert(crate::ir::module::seq_below(m1.ops(i), m1.nv())) by {
                        assert forall|k: int| 0 <= k < m1.ops(i).len() implies #[trigger] m1.ops(i)[k] < m1.nv() by {
                            if k < m0.ops(i).len() {
                                assert(m1.ops(i)[k] == m0.ops(i)[k]);
                            }
                        }
                    }
                } else {
                    assert(m1.ops(i) == m0.ops(i));
                }
            }
        }
        assert(m1.uses_sound()) by {
            assert forall|w: int, k: int| 0 <= w < m1.nv() && 0 <= k < m1.uses(w).len() implies {
                let y = #[trigger] m1.values@[w].use_list@[k];
                &&& y.user < m1.nv()
                &&& y.arg_no < m1.ops(y.user as int).len()
                &&& m1.ops(y.user as int)[y.arg_no as int] == w
            } by {
                if w == v && k == m0.uses(w).len() {
                } else {
                    assert(m0.values@[w].use_list@[k] == m1.values@[w].use_list@[k]);
                    let y = m0.values@[w].use_list@[k];
                    if y.user == u {
                        assert(m1.ops(u as int)[y.arg_no as int] == m0.ops(u as int)[y.arg_no as int]);
                    } else {
                        assert(m1.ops(y.user as int) == m0.ops(y.user as int));
                    }
                }
            }
        }
        assert(m1.uses_complete()) by {
            assert forall|uu: int, i: int| 0 <= uu < m1.nv() && 0 <= i < m1.ops(uu).len() implies has_use(
                m1.uses(#[trigger] m1.values@[uu].operands@[i] as int),
                uu,
                i,
            ) by {
                if uu == u && i == n {
                    assert(m1.uses(v as int)[m0.uses(v as int).len() as int] == x);
                } else {
                    assert(m0.values@[uu].operands@[i] == m1.values@[uu].operands@[i]);
                    let t = m0.values@[uu].operands@[i] as int;
                    assert(has_use(m0.uses(t), uu, i));
                    let k = choose|k: int| 0 <= k < m0.uses(t).len() && (#[trigger] m0.uses(t)[k]).user == uu && m0.uses(t)[k].arg_no == i;
                    assert(m1.uses(t)[k] == m0.uses(t)[k]);
                }
            }
        }
        assert(m1.uses_unique()) by {
            assert forall|w: int| 0 <= w < m1.nv() implies (#[trigger] m1.values@[w].use_list@).no_duplicates() by {
                assert(m0.uses(w).no_duplicates());
                if w == v {
                    assert forall|i: int, j: int|
                        0 <= i < m1.uses(w).len() && 0 <= j < m1.uses(w).len() && i != j implies m1.uses(w)[i]
                        != m1.uses(w)[j] by {
                        if i == m0.uses(w).len() {
                            assert(m0.uses(w)[j] == m1.uses(w)[j]);
                        } else if j == m0.uses(w).len() {
                            assert(m0.uses(w)[i] == m1.uses(w)[i]);
                        }
                    }
                }
            }
        }
    }

    /// Replaces operand `arg_no` of user `u` with value `v`.
    pub fn set_operand_at(&mut self, u: usize, arg_no: usize, v: usize)
        requires
            old(self).wf(),
            u < old(self).nv(),
            arg_no < old(self).ops(u as int).len(),
            v < old(self).nv(),
        ensures
            final(self).wf(),
            final(self).frame_defuse(*old(self)),
            final(self).ops(u as int) == old(self).ops(u as int).update(arg_no as int, v),
            forall|w: int| 0 <= w < old(self).nv() && w != u ==> #[trigger] final(self).ops(w) == old(self).ops(w),
            forall|w: int|
                0 <= w < old(self).nv() ==> #[trigger] final(self).uses(w) == ({
                    let x = Use { user: u, arg_no };
                    let dropped = if w == old(self).ops(u as int)[arg_no as int] {
                        drop_use(old(self).uses(w), x)
                    } else {
                        old(self).uses(w)
                    };
                    if w == v {
                        dropped.push(x)
                    } else {
                        dropped
                    }
                }),
    {
        let ghost m0 = *self;
        let nvals = self.values.len();
        let old_op = self.values[u].operands[arg_no];
        let x = Use { user: u, arg_no };
        self.drop_use_of(old_op, x);
        let ghost ma = *self;
        self.push_use(v, x);
        let ghost mh = *self;
        assert(ma.ops(u as int) == m0.ops(u as int));
        assert(mh.ops(u as int) == m0.ops(u as int));
        let val = &mut self.values[u];
        val.operands.set(arg_no, v);
        let ghost m1 = *self;
        assert(m1.values@ == mh.values@.update(u as int, m1.values@[u as int]));
        assert forall|w: int| 0 <= w < m1.nv() implies #[trigger] m1.uses(w) == mh.uses(w) by {
            if w != u {
                assert(m1.values@[w] == mh.values@[w]);
            }
        }
        assert(m1.ops(u as int) =~= m0.ops(u as int).update(arg_no as int, v));
        assert forall|w: int| 0 <= w < m1.nv() && w != u implies #[trigger] m1.ops(w) == m0.ops(w) by {
            assert(m1.values@[w] == mh.values@[w]);
            assert(ma.ops(w) == m0.ops(w));
            assert(mh.ops(w) == ma.ops(w));
        }
        assert forall|w: int| 0 <= w < m1.nv() implies {
            &&& (#[trigger] m1.values@[w]).type_ == m0.values@[w].type_
            &&& m1.values@[w].name == m0.values@[w].name
            &&& m1.values@[w].class == m0.values@[w].class
        } by {
            if w != u {
                assert(m1.values@[w] == mh.values@[w]);
            }
        }
        proof {
            crate::ir::module::lemma_types_wf_frame(m0, m1);
            lemma_drop_use_unique(m0.uses(old_op as int), x);
        }
        // the slot (u, arg_no) was recorded only in the old operand's use list
        assert forall|w: int| 0 <= w < m0.nv() && w != old_op implies !(#[trigger] m0.uses(w)).contains(x) by {
            if m0.uses(w).contains(x) {
                let k = choose|k: int| 0 <= k < m0.uses(w).len() && m0.uses(w)[k] == x;
                assert(m0.values@[w].use_list@[k] == x);
            }
        }
        assert(!ma.uses(v as int).contains(x)) by {
            lemma_drop_use_contains(m0.uses(old_op as int), x, x);
        }
        assert(m1.refs_wf()) by {
            assert forall|i: int| 0 <= i < m1.nv() implies crate::ir::module::value_below(
                #[trigger] m1.values@[i],
                m1.nt(),
                m1.nv(),
            ) by {
                assert(crate::ir::module::value_below(m0.values@[i], m0.nt(), m0.nv()));
                assert(m1.values@[i].class == m0.values@[i].class);
                assert(m1.values@[i].type_ == m0.values@[i].type_);
                if i != u {
                    assert(m1.ops(i) == m0.ops(i));
                }
                if i == u {
                    assert(crate::ir::module::seq_below(m1.ops(i), m1.nv())) by {
                        assert forall|k: int| 0 <= k < m1.ops(i).len() implies #[trigger] m1.ops(i)[k] < m1.nv() by {
                            if k != arg_no {
                                assert(m1.ops(i)[k] == m0.ops(i)[k]);
                            }
                        }
                    }
                }
            }
        }
        assert(m1.uses_sound()) by {
            assert forall|w: int, k: int| 0 <= w < m1.nv() && 0 <= k < m1.uses(w).len() implies {
                let y = #[trigger] m1.values@[w].use_list@[k];
                &&& y.user < m1.nv()
                &&& y.arg_no < m1.ops(y.user as int).len()
                &&& m1.ops(y.user as int)[y.arg_no as int] == w
            } by {
                let y = m1.values@[w].use_list@[k];
                assert(m1.uses(w).contains(y));
                if y != x {
                    let before = if w == old_op as int { drop_use(m0.uses(w), x) } else { m0.uses(w) };
                    assert(before.contains(y)) by {
                        if w == v as int {
                            if k < before.len() {
                                assert(before[k] == y);
                            }
                        } else {
                            assert(before[k] == y);
                        }
                    }
                    if w == old_op as int {
                        lemma_drop_use_contains(m0.uses(w), x, y);
                    }
                    let j = choose|j: int| 0 <= j < m0.uses(w).len() && m0.uses(w)[j] == y;
                    assert(m0.values@[w].use_list@[j] == y);
                    if y.user == u {
                        assert(m1.ops(u as int)[y.arg_no as int] == m0.ops(u as int)[y.arg_no as int]);
                    }
                } else {
                    if w != v as int {
                        // x is in no list but v's
                        let before = if w == old_op as int { drop_use(m0.uses(w), x) } else { m0.uses(w) };
                        assert(m1.uses(w) == before);
                        if w == old_op as int {
                            lemma_drop_use_contains(m0.uses(w), x, x);
                        }
                        assert(before.contains(x));
                        assert(false);
                    }
                }
            }
        }
        assert(m1.uses_complete()) by {
            assert forall|uu: int, i: int| 0 <= uu < m1.nv() && 0 <= i < m1.ops(uu).len() implies has_use(
                m1.uses(#[trigger] m1.values@[uu].operands@[i] as int),
                uu,
                i,
            ) by {
                if uu == u && i == arg_no {
                    assert(m1.uses(v as int)[m1.uses(v as int).len() - 1] == x);
                } else {
                    assert(m0.values@[uu].operands@[i] == m1.values@[uu].operands@[i]);
                    let t = m0.values@[uu].operands@[i] as int;
                    assert(has_use(m0.uses(t), uu, i));
                    let k0 = choose|k: int| 0 <= k < m0.uses(t).len() && (#[trigger] m0.uses(t)[k]).user == uu && m0.uses(t)[k].arg_no == i;
                    let y = m0.uses(t)[k0];
                    assert(m0.uses(t).contains(y));
                    assert(y != x);
                    let before = if t == old_op as int { drop_use(m0.uses(t), x) } else { m0.uses(t) };
                    if t == old_op as int {
                        lemma_drop_use_contains(m0.uses(t), x, y);
                    }
                    assert(before.contains(y));
                    let k = choose|k: int| 0 <= k < before.len() && before[k] == y;
                    assert(m1.uses(t)[k] == y);
                }
            }
        }
        assert(m1.uses_unique()) by {
            assert forall|w: int| 0 <= w < m1.nv() implies (#[trigger] m1.values@[w].use_list@).no_duplicates() by {
                assert(m0.uses(w).no_duplicates());
                let before = if w == old_op as int { drop_use(m0.uses(w), x) } else { m0.uses(w) };
                assert(before.no_duplicates());
                if w == v as int {
                    assert(!before.contains(x));
                    assert forall|i: int, j: int|
                        0 <= i < m1.uses(w).len() && 0 <= j < m1.uses(w).len() && i != j implies m1.uses(w)[i]
                        != m1.uses(w)[j] by {
                        if i == before.len() {
                            assert(before[j] == m1.uses(w)[j]);
                        } else if j == before.len() {
                            assert(before[i] == m1.uses(w)[i]);
                        }
                    }
                }
            }
        }
    }

    /// Detaches every operand of user `u` (their use records are removed)
    /// and empties its operand list.
    pub fn remove_all_operands_of(&mut self, u: usize)
        requires
            old(self).wf(),
            u < old(self).nv(),
        ensures
            final(self).wf(),
            final(self).frame_defuse(*old(self)),
            final(self).ops(u as int).len() == 0,
            forall|w: int| 0 <= w < old(self).nv() && w != u ==> #[trigger] final(self).ops(w) == old(self).ops(w),
            forall|w: int, k: int|
                0 <= w < final(self).nv() && 0 <= k < final(self).uses(w).len() ==> (#[trigger] final(self).uses(w)[k]).user != u,
            forall|w: int, y: Use|
                0 <= w < old(self).nv() && y.user != u ==> (#[trigger] final(self).uses(w).contains(y)
                    <==> old(self).uses(w).contains(y)),
    {
        let ghost m0 = *self;
        let nvals = self.values.len();
        let n = self.values[u].operands.len();
        let mut i: usize = 0;
        while i < n
            invariant
                m0.wf(),
                nvals == m0.nv(),
                u < m0.nv(),
                n == m0.ops(u as int).len(),
                0 <= i <= n,
                self.frame_defuse(m0),
                forall|w: int| 0 <= w < m0.nv() ==> #[trigger] self.ops(w) == m0.ops(w),
                self.uses_sound(),
                self.uses_unique(),
                forall|uu: int, j: int|
                    0 <= uu < self.nv() && 0 <= j < self.ops(uu).len() && (uu != u || j >= i) ==> has_use(
                        self.uses(#[trigger] self.values@[uu].operands@[j] as int),
                        uu,
                        j,
                    ),
                forall|w: int, k: int|
                    0 <= w < self.nv() && 0 <= k < self.uses(w).len() && (#[trigger] self.uses(w)[k]).user == u
                        ==> self.uses(w)[k].arg_no >= i,
                forall|w: int, y: Use|
                    0 <= w < m0.nv() && y.user != u ==> (#[trigger] self.uses(w).contains(y) <==> m0.uses(w).contains(y)),
            decreases n - i,
        {
            let ghost mb = *self;
            assert(self.ops(u as int) == m0.ops(u as int));
            let v = self.values[u].operands[i];
            let x = Use { user: u, arg_no: i };
            self.drop_use_of(v, x);
            let ghost ma = *self;
            proof {
                lemma_drop_use_unique(mb.uses(v as int), x);
                assert forall|w: int, k: int| 0 <= w < ma.nv() && 0 <= k < ma.uses(w).len() implies {
                    let y = #[trigger] ma.values@[w].use_list@[k];
                    &&& y.user < ma.nv()
                    &&& y.arg_no < ma.ops(y.user as int).len()
                    &&& ma.ops(y.user as int)[y.arg_no as int] == w
                } by {
                    let y = ma.values@[w].use_list@[k];
                    assert(ma.uses(w).contains(y));
                    if w == v as int {
                        lemma_drop_use_contains(mb.uses(w), x, y);
                    }
                    assert(mb.uses(w).contains(y));
                    let j = choose|j: int| 0 <= j < mb.uses(w).len() && mb.uses(w)[j] == y;
                    assert(mb.values@[w].use_list@[j] == y);
                }
                assert(ma.uses_sound());
                assert forall|w: int| 0 <= w < ma.nv() implies (#[trigger] ma.values@[w].use_list@).no_duplicates() by {
                    assert(mb.uses(w).no_duplicates());
                }
                assert forall|uu: int, j: int|
                    0 <= uu < ma.nv() && 0 <= j < ma.ops(uu).len() && (uu != u || j >= i + 1) implies has_use(
                        ma.uses(#[trigger] ma.values@[uu].operands@[j] as int),
                        uu,
                        j,
                    ) by {
                    let t = mb.values@[uu].operands@[j] as int;
                    assert(ma.values@[uu].operands@[j] == mb.values@[uu].operands@[j]);
                    assert(has_use(mb.uses(t), uu, j));
                    let k0 = choose|k: int| 0 <= k < mb.uses(t).len() && (#[trigger] mb.uses(t)[k]).user == uu && mb.uses(t)[k].arg_no == j;
                    let y = mb.uses(t)[k0];
                    assert(mb.uses(t).contains(y));
                    assert(y != x);
                    if t == v as int {
                        lemma_drop_use_contains(mb.uses(t), x, y);
                    }
                    assert(ma.uses(t).contains(y));
                    let k = choose|k: int| 0 <= k < ma.uses(t).len() && ma.uses(t)[k] == y;
                    assert(ma.uses(t)[k] == y);
                }
                assert forall|w: int, k: int|
                    0 <= w < ma.nv() && 0 <= k < ma.uses(w).len() && (#[trigger] ma.uses(w)[k]).user == u implies ma.uses(w)[k].arg_no >= i + 1 by {
                    let y = ma.uses(w)[k];
                    assert(ma.uses(w).contains(y));
                    if w == v as int {
                        lemma_drop_use_contains(mb.uses(w), x, y);
                    }
                    assert(mb.uses(w).contains(y));
                    let j = choose|j: int| 0 <= j < mb.uses(w).len() && mb.uses(w)[j] == y;
                    assert(mb.values@[w].use_list@[j] == y);
                    if y.arg_no == i {
                        // the only record of slot (u, i) lives in the list of the value it holds
                        assert(mb.ops(u as int)[i as int] == w);
                        assert(w == v as int);
                        assert(y == x);
                        lemma_drop_use_contains(mb.uses(w), x, x);
                    }
                }
                assert forall|w: int, y: Use|
                    0 <= w < m0.nv() && y.user != u implies (#[trigger] ma.uses(w).contains(y) <==> m0.uses(w).contains(y)) by {
                    if w == v as int {
                        lemma_drop_use_contains(mb.uses(w), x, y);
                    }
                    assert(mb.uses(w).contains(y) <==> m0.uses(w).contains(y));
                }
            }
            i = i + 1;
        }
        let ghost mh = *self;
        let val = &mut self.values[u];
        val.operands.clear();
        let ghost m1 = *self;
        assert(m1.values@ == mh.values@.update(u as int, m1.values@[u as int]));
        assert forall|w: int| 0 <= w < m1.nv() && w != u implies #[trigger] m1.values@[w] == mh.values@[w] by {}
        assert(m1.uses(u as int) == mh.uses(u as int));
        assert forall|w: int| 0 <= w < m1.nv() implies #[trigger] m1.uses(w) == mh.uses(w) by {
            if w != u {
                assert(m1.values@[w] == mh.values@[w]);
            }
        }
        assert forall|w: int| 0 <= w < m1.nv() && w != u implies #[trigger] m1.ops(w) == m0.ops(w) by {
            assert(m1.values@[w] == mh.values@[w]);
            assert(mh.ops(w) == m0.ops(w));
        }
        assert forall|w: int| 0 <= w < m1.nv() implies {
            &&& (#[trigger] m1.values@[w]).type_ == m0.values@[w].type_
            &&& m1.values@[w].name == m0.values@[w].name
            &&& m1.values@[w].class == m0.values@[w].class
        } by {
            if w != u {
                assert(m1.values@[w] == mh.values@[w]);
            }
        }
        proof {
            crate::ir::module::lemma_types_wf_frame(m0, m1);
        }
        assert(m1.refs_wf()) by {
            assert forall|ii: int| 0 <= ii < m1.nv() implies crate::ir::module::value_below(
                #[trigger] m1.values@[ii],
                m1.nt(),
                m1.nv(),
            ) by {
                assert(crate::ir::module::value_below(m0.values@[ii], m0.nt(), m0.nv()));
                assert(m1.values@[ii].class == m0.values@[ii].class);
                assert(m1.values@[ii].type_ == m0.values@[ii].type_);
                if ii != u {
                    assert(m1.ops(ii) == m0.ops(ii));
                }
            }
        }
        assert(m1.uses_sound()) by {
            assert forall|w: int, k: int| 0 <= w < m1.nv() && 0 <= k < m1.uses(w).len() implies {
                let y = #[trigger] m1.values@[w].use_list@[k];
                &&& y.user < m1.nv()
                &&& y.arg_no < m1.ops(y.user as int).len()
                &&& m1.ops(y.user as int)[y.arg_no as int] == w
            } by {
                let y = m1.values@[w].use_list@[k];
                assert(mh.values@[w].use_list@[k] == y);
                if y.user == u {
                    assert(mh.uses(w)[k].arg_no >= n);
                }
            }
        }
        assert(m1.uses_complete()) by {
            assert forall|uu: int, j: int| 0 <= uu < m1.nv() && 0 <= j < m1.ops(uu).len() implies has_use(
                m1.uses(#[trigger] m1.values@[uu].operands@[j] as int),
                uu,
                j,
            ) by {
                assert(uu != u);
                assert(m1.values@[uu].operands@[j] == mh.values@[uu].operands@[j]);
                let t = mh.values@[uu].operands@[j] as int;
                assert(has_use(mh.uses(t), uu, j));
            }
        }
        assert(m1.uses_unique()) by {
            assert forall|w: int| 0 <= w < m1.nv() implies (#[trigger] m1.values@[w].use_list@).no_duplicates() by {
                assert(mh.uses(w).no_duplicates());
            }
        }
        assert forall|w: int, k: int|
            0 <= w < m1.nv() && 0 <= k < m1.uses(w).len() implies (#[trigger] m1.uses(w)[k]).user != u by {
            if m1.uses(w)[k].user == u {
                assert(mh.uses(w)[k].arg_no >= n);
                assert(mh.values@[w].use_list@[k] == m1.uses(w)[k]);
            }
        }
    }

    /// Redirects every use of value `v` to value `new_val`.
    pub fn replace_all_use_with_at(&mut self, v: usize, new_val: usize)
        requires
            old(self).wf(),
            v < old(self).nv(),
            new_val < old(self).nv(),
        ensures
            final(self).wf(),
            final(self).frame_defuse(*old(self)),
            v != new_val ==> final(self).uses(v as int).len() == 0,
            forall|u: int|
                0 <= u < old(self).nv() ==> (#[trigger] final(self).ops(u)).len() == old(self).ops(u).len(),
            forall|u: int, i: int|
                0 <= u < old(self).nv() && 0 <= i < old(self).ops(u).len() ==> #[trigger] final(self).ops(u)[i]
                    == if old(self).ops(u)[i] == v {
                    new_val
                } else {
                    old(self).ops(u)[i]
                },
    {
        let ghost m0 = *self;
        if v == new_val {
            return;
        }
        while self.values[v].use_list.len() > 0
            invariant
                self.wf(),
                v < self.nv(),
                new_val < self.nv(),
                v != new_val,
                self.frame_defuse(m0),
                forall|u: int| 0 <= u < m0.nv() ==> (#[trigger] self.ops(u)).len() == m0.ops(u).len(),
                forall|u: int, i: int|
                    0 <= u < m0.nv() && 0 <= i < m0.ops(u).len() ==> #[trigger] self.ops(u)[i] == m0.ops(u)[i] || (
                    m0.ops(u)[i] == v && self.ops(u)[i] == new_val),
            decreases self.uses(v as int).len(),
        {
            let ghost mb = *self;
            let x = self.values[v].use_list[0];
            assert(mb.values@[v as int].use_list@[0] == x);
            assert(mb.uses(v as int).contains(x));
            self.set_operand_at(x.user, x.arg_no, new_val);
            proof {
                lemma_drop_use_len(mb.uses(v as int), x);
            }
            assert forall|u: int, i: int|
                0 <= u < m0.nv() && 0 <= i < m0.ops(u).len() implies #[trigger] self.ops(u)[i] == m0.ops(u)[i] || (
                m0.ops(u)[i] == v && self.ops(u)[i] == new_val) by {
                if u == x.user as int {
                    if i != x.arg_no as int {
                        assert(self.ops(u)[i] == mb.ops(u)[i]);
                    }
                } else {
                    assert(self.ops(u) == mb.ops(u));
                }
            }
        }
        assert forall|u: int, i: int|
            0 <= u < m0.nv() && 0 <= i < m0.ops(u).len() implies #[trigger] self.ops(u)[i]
                == if m0.ops(u)[i] == v {
                new_val
            } else {
                m0.ops(u)[i]
            } by {
            if self.ops(u)[i] == v {
                assert(self.values@[u].operands@[i] == v);
                assert(has_use(self.uses(v as int), u, i));
            }
        }
    }
}

impl UserPtr {
    pub fn to_val(&self) -> (r: ValuePtr)
        ensures
            r.0 == self.0,
    {
        ValuePtr(self.0)
    }

    /// A new user of type `ty` named `name`, with no operands.
    pub fn new(m: &mut Module, ty: usize, name: String) -> (r: Self)
        requires
            old(m).wf(),
            ty < old(m).nt(),
        ensures
            final(m).wf(),
            r.0 == old(m).nv(),
            final(m).nv() == old(m).nv() + 1,
            forall|w: int| 0 <= w < old(m).nv() ==> #[trigger] final(m).values@[w] == old(m).values@[w],
            final(m).values@[r.0 as int].type_ == ty,
            final(m).values@[r.0 as int].name@ == name@,
            final(m).class_of(r.0 as int) is User,
            final(m).uses(r.0 as int).len() == 0,
            final(m).ops(r.0 as int).len() == 0,
            final(m).types@ == old(m).types@,
            final(m).gv_list@ == old(m).gv_list@,
            final(m).func_list@ == old(m).func_list@,
            final(m).const_pool@ == old(m).const_pool@,
    {
        UserPtr(m.push_value(ty, name, ValueClass::User))
    }

    /// The operands, in slot order.
    pub fn get_operands(&self, m: &Module) -> (r: Vec<ValuePtr>)
        requires
            self.0 < m.nv(),
        ensures
            ptr_ids(r@) == m.ops(self.0 as int),
    {
        let ops = &m.values[self.0].operands;
        let n = ops.len();
        let mut res: Vec<ValuePtr> = Vec::new();
        let mut i: usize = 0;
        while i < n
            invariant
                n == ops@.len(),
                0 <= i <= n,
                res@.len() == i,
                ptr_ids(res@) == ops@.take(i as int),
            decreases n - i,
        {
            let ghost prev = res@;
            res.push(ValuePtr(ops[i]));
            proof {
                assert forall|k: int| 0 <= k < i + 1 implies #[trigger] ptr_ids(res@)[k] == ops@.take(i + 1)[k] by {
                    if k < i {
                        assert(res@[k] == prev[k]);
                        assert(ptr_ids(prev)[k] == ops@.take(i as int)[k]);
                    }
                }
                assert(ptr_ids(res@) =~= ops@.take(i + 1));
            }
            i = i + 1;
        }
        assert(ops@.take(n as int) =~= ops@);
        res
    }

    /// Puts `v` into operand slot `arg_no`; the old operand loses that use.
    pub fn set_operand(&self, m: &mut Module, arg_no: usize, v: ValuePtr)
        requires
            old(m).wf(),
            self.0 < old(m).nv(),
            arg_no < old(m).ops(self.0 as int).len(),
            v.0 < old(m).nv(),
        ensures
            final(m).wf(),
            final(m).frame_defuse(*old(m)),
            final(m).ops(self.0 as int) == old(m).ops(self.0 as int).update(arg_no as int, v.0),
            forall|w: int| 0 <= w < old(m).nv() && w != self.0 ==> #[trigger] final(m).ops(w) == old(m).ops(w),
    {
        m.set_operand_at(self.0, arg_no, v.0);
    }

    /// Appends `v` as the last operand.
    pub fn add_operand(&self, m: &mut Module, v: ValuePtr)
        requires
            old(m).wf(),
            self.0 < old(m).nv(),
            v.0 < old(m).nv(),
        ensures
            final(m).wf(),
            final(m).frame_defuse(*old(m)),
            final(m).ops(self.0 as int) == old(m).ops(self.0 as int).push(v.0),
            final(m).uses(v.0 as int) == old(m).uses(v.0 as int).push(
                Use { user: self.0, arg_no: old(m).ops(self.0 as int).len() as usize },
            ),
            forall|w: int| 0 <= w < old(m).nv() && w != self.0 ==> #[trigger] final(m).ops(w) == old(m).ops(w),
    {
        m.add_operand_at(self.0, v.0);
    }

    /// Detaches every operand.
    pub fn remove_all_operands(&self, m: &mut Module)
        requires
            old(m).wf(),
            self.0 < old(m).nv(),
        ensures
            final(m).wf(),
            final(m).frame_defuse(*old(m)),
            final(m).ops(self.0 as int).len() == 0,
            forall|w: int| 0 <= w < old(m).nv() && w != self.0 ==> #[trigger] final(m).ops(w) == old(m).ops(w),
            forall|w: int, k: int|
                0 <= w < final(m).nv() && 0 <= k < final(m).uses(w).len() ==> (#[trigger] final(m).uses(w)[k]).user
                    != self.0,
    {
        m.remove_all_operands_of(self.0);
    }

    /// Takes operand slot `arg_no` out; the later operands move down one
    /// slot and their use records follow them. The use records of this
    /// user are rebuilt, so their order within a use list may change.
    pub fn remove_operand(&self, m: &mut Module, arg_no: usize)
        requires
            old(m).wf(),
            self.0 < old(m).nv(),
            arg_no < old(m).ops(self.0 as int).len(),
        ensures
            final(m).wf(),
            final(m).frame_defuse(*old(m)),
            final(m).ops(self.0 as int) == old(m).ops(self.0 as int).remove(arg_no as int),
            forall|w: int| 0 <= w < old(m).nv() && w != self.0 ==> #[trigger] final(m).ops(w) == old(m).ops(w),
    {
        let ghost m0 = *m;
        let ops = self.get_operands(m);
        let n = ops.len();
        m.remove_all_operands_of(self.0);
        let ghost target = m0.ops(self.0 as int).remove(arg_no as int);
        let mut i: usize = 0;
        while i < n
            invariant
                m.wf(),
                m.frame_defuse(m0),
                m0.wf(),
                self.0 < m0.nv(),
                arg_no < n,
                n == ops@.len(),
                ptr_ids(ops@) == m0.ops(self.0 as int),
                target == m0.ops(self.0 as int).remove(arg_no as int),
                0 <= i <= n,
                m.ops(self.0 as int) == (if i <= arg_no {
                    target.take(i as int)
                } else {
                    target.take(i - 1)
                }),
                forall|w: int| 0 <= w < m0.nv() && w != self.0 ==> #[trigger] m.ops(w) == m0.ops(w),
            decreases n - i,
        {
            if i != arg_no {
                let ghost mb = *m;
                assert(ops@[i as int].0 == m0.ops(self.0 as int)[i as int]);
                assert(ops@[i as int].0 < m0.nv()) by {
                    assert(crate::ir::module::value_below(m0.values@[self.0 as int], m0.nt(), m0.nv()));
                    assert(m0.values@[self.0 as int].operands@[i as int] == m0.ops(self.0 as int)[i as int]);
                }
                m.add_operand_at(self.0, ops[i].0);
                proof {
                    if i < arg_no {
                        assert(target[i as int] == m0.ops(self.0 as int)[i as int]);
                        assert(m.ops(self.0 as int) =~= target.take(i + 1));
                    } else {
                        assert(target[i - 1] == m0.ops(self.0 as int)[i as int]);
                        assert(m.ops(self.0 as int) =~= target.take(i as int));
                    }
                }
            } else {
                assert(target.take(i as int) =~= target.take(i + 1 - 1));
            }
            i = i + 1;
        }
        assert(target.take(n - 1) =~= target);
    }

    pub fn to_gv(&self, m: &Module) -> (r: Option<GVPtr>)
        requires
            self.0 < m.nv(),
        ensures
            r is Some <==> m.class_of(self.0 as int) is GlobalVariable,
            r matches Some(g) ==> g.0 == self.0,
    {
        ValuePtr(self.0).to_gv(m)
    }

    pub fn to_inst(&self, m: &Module) -> (r: Option<InstPtr>)
        requires
            self.0 < m.nv(),
        ensures
            r is Some <==> m.class_of(self.0 as int) is Inst,
            r matches Some(g) ==> g.0 == self.0,
    {
        ValuePtr(self.0).to_inst(m)
    }

    pub fn to_const(&self, m: &Module) -> (r: Option<ConstantPtr>)
        requires
            self.0 < m.nv(),
        ensures
            r is Some <==> m.class_of(self.0 as int) is Constant,
            r matches Some(g) ==> g.0 == self.0,
    {
        ValuePtr(self.0).to_const(m)
    }
}

} // verus!
