//! The module: an arena holding the type table and all values, plus the
//! lists of global variables, functions and pooled constants.

use vstd::prelude::*;
use crate::ir::type_::{
    same_tdata, tdata_children_below, ArrayType, FunctionType, PointerType, Type, TypeData,
};
use crate::ir::user::{ConstantClass, OpID, Use};
use crate::ir::value::{Value, ValueClass};

verus! {

pub const BOOL_TY: usize = 0;
pub const INT_TY: usize = 1;
pub const LABEL_TY: usize = 2;
pub const VOID_TY: usize = 3;
pub const FLOAT_TY: usize = 4;

/// Every index of `s` is below `n`.
pub open spec fn seq_below(s: Seq<usize>, n: nat) -> bool {
    forall|k: int| 0 <= k < s.len() ==> #[trigger] s[k] < n
}

/// Every value index held by a class is below `n`.
pub open spec fn class_below(c: ValueClass, n: nat) -> bool {
    match c {
        ValueClass::GlobalVariable { init_val, .. } => init_val matches Some(i) ==> i < n,
        ValueClass::Inst { bb, .. } => bb < n,
        ValueClass::Constant(cc) => cc matches ConstantClass::Arr(v) ==> seq_below(v@, n),
        ValueClass::Function { args, bbs } => seq_below(args@, n) && seq_below(bbs@, n),
        ValueClass::BasicBlock { function, pre_bbs, succ_bbs, insts } => function < n && seq_below(
            pre_bbs@,
            n,
        ) && seq_below(succ_bbs@, n) && seq_below(insts@, n),
        ValueClass::Arg { function, .. } => function < n,
        _ => true,
    }
}

/// Every index held by a value is in range of a module with `nt` types and
/// `nv` values.
pub open spec fn value_below(v: Value, nt: nat, nv: nat) -> bool {
    &&& v.type_ < nt
    &&& seq_below(v.operands@, nv)
    &&& class_below(v.class, nv)
}

/// `s` records the use of operand slot `i` of user `u`.
pub open spec fn has_use(s: Seq<Use>, u: int, i: int) -> bool {
    exists|k: int| 0 <= k < s.len() && (#[trigger] s[k]).user == u && s[k].arg_no == i
}

pub struct Module {
    pub types: Vec<Type>,
    pub values: Vec<Value>,
    pub gv_list: Vec<usize>,
    pub func_list: Vec<usize>,
    pub const_pool: Vec<usize>,
}

impl Module {
    pub open spec fn nt(self) -> nat {
        self.types@.len()
    }

    pub open spec fn nv(self) -> nat {
        self.values@.len()
    }

    pub open spec fn tdata_of(self, t: int) -> TypeData {
        self.types@[t].tdata
    }

    pub open spec fn ops(self, u: int) -> Seq<usize> {
        self.values@[u].operands@
    }

    pub open spec fn uses(self, v: int) -> Seq<Use> {
        self.values@[v].use_list@
    }

    pub open spec fn class_of(self, v: int) -> ValueClass {
        self.values@[v].class
    }

    pub open spec fn type_of(self, v: int) -> usize {
        self.values@[v].type_
    }

    pub open spec fn func_args(self, f: int) -> Seq<usize> {
        match self.class_of(f) {
            ValueClass::Function { args, .. } => args@,
            _ => Seq::empty(),
        }
    }

    pub open spec fn func_bbs(self, f: int) -> Seq<usize> {
        match self.class_of(f) {
            ValueClass::Function { bbs, .. } => bbs@,
            _ => Seq::empty(),
        }
    }

    pub open spec fn bb_parent(self, b: int) -> usize {
        match self.class_of(b) {
            ValueClass::BasicBlock { function, .. } => function,
            _ => 0,
        }
    }

    pub open spec fn bb_insts(self, b: int) -> Seq<usize> {
        match self.class_of(b) {
            ValueClass::BasicBlock { insts, .. } => insts@,
            _ => Seq::empty(),
        }
    }

    pub open spec fn bb_preds(self, b: int) -> Seq<usize> {
        match self.class_of(b) {
            ValueClass::BasicBlock { pre_bbs, .. } => pre_bbs@,
            _ => Seq::empty(),
        }
    }

    pub open spec fn bb_succs(self, b: int) -> Seq<usize> {
        match self.class_of(b) {
            ValueClass::BasicBlock { succ_bbs, .. } => succ_bbs@,
            _ => Seq::empty(),
        }
    }

    pub open spec fn inst_op(self, i: int) -> OpID {
        match self.class_of(i) {
            ValueClass::Inst { op_id, .. } => op_id,
            _ => OpID::Ret,
        }
    }

    pub open spec fn inst_bb(self, i: int) -> usize {
        match self.class_of(i) {
            ValueClass::Inst { bb, .. } => bb,
            _ => 0,
        }
    }

    /// Only the class of value `w` may differ from `old`.
    pub open spec fn frame_except_class(self, old: Module, w: int) -> bool {
        &&& self.nv() == old.nv()
        &&& self.types@ == old.types@
        &&& self.gv_list@ == old.gv_list@
        &&& self.func_list@ == old.func_list@
        &&& self.const_pool@ == old.const_pool@
        &&& forall|x: int| 0 <= x < old.nv() && x != w ==> #[trigger] self.values@[x] == old.values@[x]
        &&& self.type_of(w) == old.type_of(w)
        &&& self.values@[w].name == old.values@[w].name
        &&& self.ops(w) == old.ops(w)
        &&& self.uses(w) == old.uses(w)
    }

    /// The type table: the five basic types at fixed indices, children of
    /// each type at smaller indices, and no two entries structurally equal.
    pub open spec fn types_wf(self) -> bool {
        &&& self.nt() >= 5
        &&& self.tdata_of(BOOL_TY as int) is BoolType
        &&& self.tdata_of(INT_TY as int) is IntegerType
        &&& self.tdata_of(LABEL_TY as int) is LabelType
        &&& self.tdata_of(VOID_TY as int) is VoidType
        &&& self.tdata_of(FLOAT_TY as int) is FloatType
        &&& forall|i: int| 0 <= i < self.nt() ==> tdata_children_below(#[trigger] self.tdata_of(i), i as nat)
        &&& forall|i: int, j: int|
            0 <= i < self.nt() && 0 <= j < self.nt() && i != j ==> !same_tdata(
                #[trigger] self.tdata_of(i),
                #[trigger] self.tdata_of(j),
            )
    }

    /// Every index stored in the arena or the module lists is in range.
    pub open spec fn refs_wf(self) -> bool {
        &&& forall|i: int| 0 <= i < self.nv() ==> value_below(#[trigger] self.values@[i], self.nt(), self.nv())
        &&& seq_below(self.gv_list@, self.nv())
        &&& seq_below(self.func_list@, self.nv())
        &&& seq_below(self.const_pool@, self.nv())
    }

    /// Every recorded use names an operand slot that holds the used value.
    pub open spec fn uses_sound(self) -> bool {
        forall|v: int, k: int|
            0 <= v < self.nv() && 0 <= k < self.uses(v).len() ==> {
                let x = #[trigger] self.values@[v].use_list@[k];
                &&& x.user < self.nv()
                &&& x.arg_no < self.ops(x.user as int).len()
                &&& self.ops(x.user as int)[x.arg_no as int] == v
            }
    }

    /// Every operand slot is recorded as a use of the value it holds.
    pub open spec fn uses_complete(self) -> bool {
        forall|u: int, i: int|
            0 <= u < self.nv() && 0 <= i < self.ops(u).len() ==> has_use(
                self.uses(#[trigger] self.values@[u].operands@[i] as int),
                u,
                i,
            )
    }

    /// No use is recorded twice.
    pub open spec fn uses_unique(self) -> bool {
        forall|v: int| 0 <= v < self.nv() ==> (#[trigger] self.values@[v].use_list@).no_duplicates()
    }

    /// The kinds of the values a class refers to are the expected ones.
    pub open spec fn class_kinds_ok(self, c: ValueClass, ty: usize) -> bool {
        match c {
            ValueClass::Function { args, bbs } => {
                &&& self.tdata_of(ty as int) is FunctionType
                &&& forall|k: int| 0 <= k < args@.len() ==> self.class_of(#[trigger] args@[k] as int) is Arg
                &&& forall|k: int| 0 <= k < bbs@.len() ==> self.class_of(#[trigger] bbs@[k] as int) is BasicBlock
            },
            ValueClass::BasicBlock { function, pre_bbs, succ_bbs, insts } => {
                &&& self.class_of(function as int) is Function
                &&& forall|k: int| 0 <= k < pre_bbs@.len() ==> self.class_of(#[trigger] pre_bbs@[k] as int) is BasicBlock
                &&& forall|k: int| 0 <= k < succ_bbs@.len() ==> self.class_of(#[trigger] succ_bbs@[k] as int) is BasicBlock
                &&& forall|k: int| 0 <= k < insts@.len() ==> self.class_of(#[trigger] insts@[k] as int) is Inst
            },
            ValueClass::Inst { bb, .. } => self.class_of(bb as int) is BasicBlock,
            ValueClass::Arg { function, .. } => self.class_of(function as int) is Function,
            ValueClass::GlobalVariable { init_val, .. } => init_val matches Some(i) ==> self.class_of(
                i as int,
            ) is Constant,
            ValueClass::Constant(cc) => cc matches ConstantClass::Arr(v) ==> forall|k: int|
                0 <= k < v@.len() ==> self.class_of(#[trigger] v@[k] as int) is Constant,
            _ => true,
        }
    }

    /// Every value's class refers to values of the right kinds, and the
    /// module lists hold global variables, functions and constants.
    pub open spec fn struct_wf(self) -> bool {
        &&& forall|v: int|
            0 <= v < self.nv() ==> self.class_kinds_ok(#[trigger] self.values@[v].class, self.values@[v].type_)
        &&& forall|k: int| 0 <= k < self.gv_list@.len() ==> self.class_of(#[trigger] self.gv_list@[k] as int) is GlobalVariable
        &&& forall|k: int| 0 <= k < self.func_list@.len() ==> self.class_of(#[trigger] self.func_list@[k] as int) is Function
        &&& forall|k: int| 0 <= k < self.const_pool@.len() ==> self.class_of(#[trigger] self.const_pool@[k] as int) is Constant
    }

    pub open spec fn wf(self) -> bool {
        &&& self.struct_wf()
        &&& self.types_wf()
        &&& self.refs_wf()
        &&& self.uses_sound()
        &&& self.uses_complete()
        &&& self.uses_unique()
    }

    /// An empty module holding only the five basic types.
    pub fn new() -> (m: Module)
        ensures
            m.wf(),
            m.nt() == 5,
            m.nv() == 0,
            m.gv_list@.len() == 0,
            m.func_list@.len() == 0,
            m.const_pool@.len() == 0,
    {
        let mut types: Vec<Type> = Vec::new();
        types.push(Type::new(TypeData::BoolType));
        types.push(Type::new(TypeData::IntegerType));
        types.push(Type::new(TypeData::LabelType));
        types.push(Type::new(TypeData::VoidType));
        types.push(Type::new(TypeData::FloatType));
        let m = Module {
            types,
            values: Vec::new(),
            gv_list: Vec::new(),
            func_list: Vec::new(),
            const_pool: Vec::new(),
        };
        assert(m.types_wf());
        m
    }

    /// Appends function `f` to the module's function list.
    pub fn add_function(&mut self, f: usize)
        requires
            old(self).wf(),
            f < old(self).nv(),
            old(self).class_of(f as int) is Function,
        ensures
            final(self).wf(),
            final(self).func_list@ == old(self).func_list@.push(f),
            final(self).values@ == old(self).values@,
            final(self).types@ == old(self).types@,
            final(self).gv_list@ == old(self).gv_list@,
            final(self).const_pool@ == old(self).const_pool@,
    {
        let ghost m0 = *self;
        self.func_list.push(f);
        proof {
            lemma_types_wf_frame(m0, *self);
            lemma_lists_frame(m0, *self);
        }
        assert forall|k: int| 0 <= k < self.func_list@.len() implies self.class_of(#[trigger] self.func_list@[k] as int) is Function by {
            if k < m0.func_list@.len() {
                assert(m0.class_of(m0.func_list@[k] as int) is Function);
            }
        }
        assert(seq_below(self.func_list@, self.nv()));
    }

    /// Appends global variable `g` to the module's global list.
    pub fn add_gv(&mut self, g: usize)
        requires
            old(self).wf(),
            g < old(self).nv(),
            old(self).class_of(g as int) is GlobalVariable,
        ensures
            final(self).wf(),
            final(self).gv_list@ == old(self).gv_list@.push(g),
            final(self).values@ == old(self).values@,
            final(self).types@ == old(self).types@,
            final(self).func_list@ == old(self).func_list@,
            final(self).const_pool@ == old(self).const_pool@,
    {
        let ghost m0 = *self;
        self.gv_list.push(g);
        proof {
            lemma_types_wf_frame(m0, *self);
            lemma_lists_frame(m0, *self);
        }
        assert forall|k: int| 0 <= k < self.gv_list@.len() implies self.class_of(#[trigger] self.gv_list@[k] as int) is GlobalVariable by {
            if k < m0.gv_list@.len() {
                assert(m0.class_of(m0.gv_list@[k] as int) is GlobalVariable);
            }
        }
        assert(seq_below(self.gv_list@, self.nv()));
    }

    /// Appends constant `c` to the module's constant pool.
    pub fn add_const(&mut self, c: usize)
        requires
            old(self).wf(),
            c < old(self).nv(),
            old(self).class_of(c as int) is Constant,
        ensures
            final(self).wf(),
            final(self).const_pool@ == old(self).const_pool@.push(c),
            final(self).values@ == old(self).values@,
            final(self).types@ == old(self).types@,
            final(self).func_list@ == old(self).func_list@,
            final(self).gv_list@ == old(self).gv_list@,
    {
        let ghost m0 = *self;
        self.const_pool.push(c);
        proof {
            lemma_types_wf_frame(m0, *self);
            lemma_lists_frame(m0, *self);
        }
        assert forall|k: int| 0 <= k < self.const_pool@.len() implies self.class_of(#[trigger] self.const_pool@[k] as int) is Constant by {
            if k < m0.const_pool@.len() {
                assert(m0.class_of(m0.const_pool@[k] as int) is Constant);
            }
        }
        assert(seq_below(self.const_pool@, self.nv()));
    }

    pub fn get_void_ty(&self) -> (r: usize)
        ensures
            r == VOID_TY,
    {
        VOID_TY
    }

    pub fn get_lable_ty(&self) -> (r: usize)
        ensures
            r == LABEL_TY,
    {
        LABEL_TY
    }

    pub fn get_bool_ty(&self) -> (r: usize)
        ensures
            r == BOOL_TY,
    {
        BOOL_TY
    }

    pub fn get_int_ty(&self) -> (r: usize)
        ensures
            r == INT_TY,
    {
        INT_TY
    }

    pub fn get_float_ty(&self) -> (r: usize)
        ensures
            r == FLOAT_TY,
    {
        FLOAT_TY
    }

    /// The type stored at index `t`.
    pub fn ty(&self, t: usize) -> (r: &Type)
        requires
            t < self.nt(),
        ensures
            *r == self.types@[t as int],
    {
        &self.types[t]
    }

    /// Structural comparison of two type descriptions.
    #[verifier::loop_isolation(false)]
    fn tdata_eq(a: &TypeData, b: &TypeData) -> (r: bool)
        ensures
            r == same_tdata(*a, *b),
    {
        match (a, b) {
            (TypeData::VoidType, TypeData::VoidType) => true,
            (TypeData::LabelType, TypeData::LabelType) => true,
            (TypeData::IntegerType, TypeData::IntegerType) => true,
            (TypeData::FloatType, TypeData::FloatType) => true,
            (TypeData::BoolType, TypeData::BoolType) => true,
            (TypeData::FunctionType(f), TypeData::FunctionType(g)) => {
                if f.result != g.result || f.args.len() != g.args.len() {
                    return false;
                }
                let n = f.args.len();
                let mut k: usize = 0;
                while k < n
                    invariant
                        n == f.args@.len(),
                        n == g.args@.len(),
                        0 <= k <= n,
                        forall|j: int| 0 <= j < k ==> f.args@[j] == g.args@[j],
                    decreases n - k,
                {
                    if f.args[k] != g.args[k] {
                        assert(f.args@[k as int] != g.args@[k as int]);
                        return false;
                    }
                    k = k + 1;
                }
                assert(f.args@ =~= g.args@);
                true
            },
            (TypeData::ArrayType(f), TypeData::ArrayType(g)) => f.item == g.item && f.elem_count
                == g.elem_count,
            (TypeData::PointerType(f), TypeData::PointerType(g)) => f.item == g.item,
            _ => false,
        }
    }

    /// The index of the type structurally equal to `t`, if the table has one.
    pub fn find_type(&self, t: &TypeData) -> (r: Option<usize>)
        requires
            self.types_wf(),
        ensures
            r matches Some(i) ==> i < self.nt() && same_tdata(self.tdata_of(i as int), *t),
            r is None ==> forall|i: int| 0 <= i < self.nt() ==> !same_tdata(#[trigger] self.tdata_of(i), *t),
    {
        let n = self.types.len();
        let mut i: usize = 0;
        while i < n
            invariant
                n == self.nt(),
                0 <= i <= n,
                forall|j: int| 0 <= j < i ==> !same_tdata(#[trigger] self.tdata_of(j), *t),
            decreases n - i,
        {
            if Self::tdata_eq(&self.types[i].tdata, t) {
                return Some(i);
            }
            i = i + 1;
        }
        None
    }

    /// The canonical index of type `t`: the existing entry if the table has
    /// one, else a new entry appended at the end.
    pub fn intern_type(&mut self, t: TypeData) -> (r: usize)
        requires
            old(self).wf(),
            tdata_children_below(t, old(self).nt()),
        ensures
            final(self).wf(),
            r < final(self).nt(),
            same_tdata(final(self).tdata_of(r as int), t),
            final(self).values@ == old(self).values@,
            final(self).gv_list@ == old(self).gv_list@,
            final(self).func_list@ == old(self).func_list@,
            final(self).const_pool@ == old(self).const_pool@,
            old(self).types@.is_prefix_of(final(self).types@),
            (exists|j: int| 0 <= j < old(self).nt() && same_tdata(#[trigger] old(self).tdata_of(j), t))
                ==> final(self).types@ == old(self).types@,
            !(exists|j: int| 0 <= j < old(self).nt() && same_tdata(#[trigger] old(self).tdata_of(j), t))
                ==> final(self).types@ == old(self).types@.push(Type { tdata: t }),
    {
        match self.find_type(&t) {
            Some(i) => {
                assert(old(self).types@.is_prefix_of(self.types@));
                i
            },
            None => {
                let ghost old_m = *self;
                let idx = self.types.len();
                self.types.push(Type::new(t));
                assert(forall|j: int| 0 <= j < idx ==> self.tdata_of(j) == old_m.tdata_of(j));
                assert(self.tdata_of(idx as int) == t);
                assert forall|i: int, j: int|
                    0 <= i < self.nt() && 0 <= j < self.nt() && i != j implies !same_tdata(
                    #[trigger] self.tdata_of(i),
                    #[trigger] self.tdata_of(j),
                ) by {
                    if i == idx as int {
                        assert(!same_tdata(old_m.tdata_of(j), t));
                        lemma_same_tdata_symmetric(self.tdata_of(i), self.tdata_of(j));
                    } else if j == idx as int {
                        assert(!same_tdata(old_m.tdata_of(i), t));
                    }
                }
                assert forall|i: int| 0 <= i < self.nt() implies tdata_children_below(
                    #[trigger] self.tdata_of(i),
                    i as nat,
                ) by {
                    if i < idx as int {
                        assert(tdata_children_below(old_m.tdata_of(i), i as nat));
                    }
                }
                assert forall|i: int| 0 <= i < self.nv() implies value_below(
                    #[trigger] self.values@[i],
                    self.nt(),
                    self.nv(),
                ) by {
                    assert(value_below(old_m.values@[i], old_m.nt(), old_m.nv()));
                }
                assert(old_m.types@.is_prefix_of(self.types@));
                assert(!(exists|j: int| 0 <= j < old_m.nt() && same_tdata(#[trigger] old_m.tdata_of(j), t)));
                idx
            },
        }
    }

    /// The pointer type to `item`.
    pub fn get_ptr_ty(&mut self, item: usize) -> (r: usize)
        requires
            old(self).wf(),
            item < old(self).nt(),
        ensures
            final(self).wf(),
            r < final(self).nt(),
            final(self).tdata_of(r as int) matches TypeData::PointerType(p) && p.item == item,
            final(self).values@ == old(self).values@,
            final(self).gv_list@ == old(self).gv_list@,
            final(self).func_list@ == old(self).func_list@,
            final(self).const_pool@ == old(self).const_pool@,
            old(self).types@.is_prefix_of(final(self).types@),
    {
        self.intern_type(TypeData::PointerType(PointerType { item }))
    }

    /// The array type of `elem_count` elements of type `item`.
    pub fn get_arr_ty(&mut self, item: usize, elem_count: usize) -> (r: usize)
        requires
            old(self).wf(),
            item < old(self).nt(),
        ensures
            final(self).wf(),
            r < final(self).nt(),
            final(self).tdata_of(r as int) matches TypeData::ArrayType(a) && a.item == item
                && a.elem_count == elem_count,
            final(self).values@ == old(self).values@,
            final(self).gv_list@ == old(self).gv_list@,
            final(self).func_list@ == old(self).func_list@,
            final(self).const_pool@ == old(self).const_pool@,
            old(self).types@.is_prefix_of(final(self).types@),
    {
        self.intern_type(TypeData::ArrayType(ArrayType { item, elem_count }))
    }

    /// The function type with return type `ret_ty` and parameter types `args`.
    pub fn get_func_ty(&mut self, ret_ty: usize, args: Vec<usize>) -> (r: usize)
        requires
            old(self).wf(),
            ret_ty < old(self).nt(),
            seq_below(args@, old(self).nt()),
        ensures
            final(self).wf(),
            r < final(self).nt(),
            final(self).tdata_of(r as int) matches TypeData::FunctionType(f) && f.result == ret_ty
                && f.args@ == args@,
            final(self).values@ == old(self).values@,
            final(self).gv_list@ == old(self).gv_list@,
            final(self).func_list@ == old(self).func_list@,
            final(self).const_pool@ == old(self).const_pool@,
            old(self).types@.is_prefix_of(final(self).types@),
    {
        let ghost a = args@;
        self.intern_type(TypeData::FunctionType(FunctionType { result: ret_ty, args }))
    }

    pub fn get_int_ptr_ty(&mut self) -> (r: usize)
        requires
            old(self).wf(),
        ensures
            final(self).wf(),
            r < final(self).nt(),
            final(self).tdata_of(r as int) matches TypeData::PointerType(p) && p.item == INT_TY,
            final(self).values@ == old(self).values@,
            final(self).gv_list@ == old(self).gv_list@,
            final(self).func_list@ == old(self).func_list@,
            final(self).const_pool@ == old(self).const_pool@,
            old(self).types@.is_prefix_of(final(self).types@),
    {
        let t = self.get_int_ty();
        self.get_ptr_ty(t)
    }

    pub fn get_float_ptr_ty(&mut self) -> (r: usize)
        requires
            old(self).wf(),
        ensures
            final(self).wf(),
            r < final(self).nt(),
            final(self).tdata_of(r as int) matches TypeData::PointerType(p) && p.item == FLOAT_TY,
            final(self).values@ == old(self).values@,
            final(self).gv_list@ == old(self).gv_list@,
            final(self).func_list@ == old(self).func_list@,
            final(self).const_pool@ == old(self).const_pool@,
            old(self).types@.is_prefix_of(final(self).types@),
    {
        let t = self.get_float_ty();
        self.get_ptr_ty(t)
    }
}

/// Same variant, payload ignored.
pub open spec fn same_class_kind(a: ValueClass, b: ValueClass) -> bool {
    match (a, b) {
        (ValueClass::Bare, ValueClass::Bare) => true,
        (ValueClass::User, ValueClass::User) => true,
        (ValueClass::GlobalVariable { .. }, ValueClass::GlobalVariable { .. }) => true,
        (ValueClass::Inst { .. }, ValueClass::Inst { .. }) => true,
        (ValueClass::Constant(_), ValueClass::Constant(_)) => true,
        (ValueClass::Function { .. }, ValueClass::Function { .. }) => true,
        (ValueClass::BasicBlock { .. }, ValueClass::BasicBlock { .. }) => true,
        (ValueClass::Arg { .. }, ValueClass::Arg { .. }) => true,
        _ => false,
    }
}

/// The kind conditions survive growth of the arena and of the type table,
/// as long as existing classes keep their kinds and the lists are unchanged.
pub proof fn lemma_struct_wf_grow(a: Module, b: Module, changed: int)
    requires
        a.struct_wf(),
        a.refs_wf(),
        a.types@.is_prefix_of(b.types@),
        a.nv() <= b.nv(),
        forall|v: int|
            0 <= v < a.nv() && v != changed ==> (#[trigger] b.values@[v]).class == a.values@[v].class
                && b.values@[v].type_ == a.values@[v].type_,
        0 <= changed < a.nv() ==> same_class_kind(b.values@[changed].class, a.values@[changed].class)
            && b.class_kinds_ok(b.values@[changed].class, b.values@[changed].type_),
        forall|v: int| a.nv() <= v < b.nv() ==> b.class_kinds_ok(#[trigger] b.values@[v].class, b.values@[v].type_),
        b.gv_list@ == a.gv_list@,
        b.func_list@ == a.func_list@,
        b.const_pool@ == a.const_pool@,
    ensures
        b.struct_wf(),
{
    assert forall|x: int| 0 <= x < a.nv() implies same_class_kind(#[trigger] b.class_of(x), a.class_of(x)) by {
        if x != changed {
            assert(b.values@[x].class == a.values@[x].class);
        }
    }
    assert forall|v: int| 0 <= v < b.nv() implies b.class_kinds_ok(#[trigger] b.values@[v].class, b.values@[v].type_) by {
        if v < a.nv() && v != changed {
            assert(value_below(a.values@[v], a.nt(), a.nv()));
            let c = a.values@[v].class;
            assert(a.class_kinds_ok(c, a.values@[v].type_));
            assert(b.values@[v].class == c);
            match c {
                ValueClass::Function { args, bbs } => {
                    let t = a.values@[v].type_ as int;
                    assert(value_below(a.values@[v], a.nt(), a.nv()));
                    assert(a.types@ == b.types@.subrange(0, a.types@.len() as int));
                    assert(a.types@[t] == b.types@.subrange(0, a.types@.len() as int)[t]);
                    assert(b.tdata_of(t) == a.tdata_of(t));
                    assert forall|k: int| 0 <= k < args@.len() implies b.class_of(#[trigger] args@[k] as int) is Arg by {
                        assert(a.class_of(args@[k] as int) is Arg);
                        assert(same_class_kind(b.class_of(args@[k] as int), a.class_of(args@[k] as int)));
                    }
                    assert forall|k: int| 0 <= k < bbs@.len() implies b.class_of(#[trigger] bbs@[k] as int) is BasicBlock by {
                        assert(a.class_of(bbs@[k] as int) is BasicBlock);
                        assert(same_class_kind(b.class_of(bbs@[k] as int), a.class_of(bbs@[k] as int)));
                    }
                },
                ValueClass::BasicBlock { function, pre_bbs, succ_bbs, insts } => {
                    assert(same_class_kind(b.class_of(function as int), a.class_of(function as int)));
                    assert forall|k: int| 0 <= k < pre_bbs@.len() implies b.class_of(#[trigger] pre_bbs@[k] as int) is BasicBlock by {
                        assert(a.class_of(pre_bbs@[k] as int) is BasicBlock);
                        assert(same_class_kind(b.class_of(pre_bbs@[k] as int), a.class_of(pre_bbs@[k] as int)));
                    }
                    assert forall|k: int| 0 <= k < succ_bbs@.len() implies b.class_of(#[trigger] succ_bbs@[k] as int) is BasicBlock by {
                        assert(a.class_of(succ_bbs@[k] as int) is BasicBlock);
                        assert(same_class_kind(b.class_of(succ_bbs@[k] as int), a.class_of(succ_bbs@[k] as int)));
                    }
                    assert forall|k: int| 0 <= k < insts@.len() implies b.class_of(#[trigger] insts@[k] as int) is Inst by {
                        assert(a.class_of(insts@[k] as int) is Inst);
                        assert(same_class_kind(b.class_of(insts@[k] as int), a.class_of(insts@[k] as int)));
                    }
                },
                ValueClass::Inst { bb, .. } => {
                    assert(same_class_kind(b.class_of(bb as int), a.class_of(bb as int)));
                },
                ValueClass::Arg { function, .. } => {
                    assert(same_class_kind(b.class_of(function as int), a.class_of(function as int)));
                },
                ValueClass::GlobalVariable { init_val, .. } => {
                    if let Some(i) = init_val {
                        assert(same_class_kind(b.class_of(i as int), a.class_of(i as int)));
                    }
                },
                ValueClass::Constant(cc) => {
                    if let ConstantClass::Arr(el) = cc {
                        assert forall|k: int| 0 <= k < el@.len() implies b.class_of(#[trigger] el@[k] as int) is Constant by {
                            assert(a.class_of(el@[k] as int) is Constant);
                            assert(same_class_kind(b.class_of(el@[k] as int), a.class_of(el@[k] as int)));
                        }
                    }
                },
                _ => {},
            }
        }
    }
    assert forall|k: int| 0 <= k < b.gv_list@.len() implies b.class_of(#[trigger] b.gv_list@[k] as int) is GlobalVariable by {
        assert(a.class_of(a.gv_list@[k] as int) is GlobalVariable);
        assert(same_class_kind(b.class_of(a.gv_list@[k] as int), a.class_of(a.gv_list@[k] as int)));
    }
    assert forall|k: int| 0 <= k < b.func_list@.len() implies b.class_of(#[trigger] b.func_list@[k] as int) is Function by {
        assert(a.class_of(a.func_list@[k] as int) is Function);
        assert(same_class_kind(b.class_of(a.func_list@[k] as int), a.class_of(a.func_list@[k] as int)));
    }
    assert forall|k: int| 0 <= k < b.const_pool@.len() implies b.class_of(#[trigger] b.const_pool@[k] as int) is Constant by {
        assert(a.class_of(a.const_pool@[k] as int) is Constant);
        assert(same_class_kind(b.class_of(a.const_pool@[k] as int), a.class_of(a.const_pool@[k] as int)));
    }
}

/// When only the module lists change, every invariant that does not
/// mention the lists carries over.
pub proof fn lemma_lists_frame(a: Module, b: Module)
    requires
        a.wf(),
        a.values@ == b.values@,
        a.types@ == b.types@,
    ensures
        forall|v: int| 0 <= v < b.nv() ==> b.class_kinds_ok(#[trigger] b.values@[v].class, b.values@[v].type_),
        forall|i: int| 0 <= i < b.nv() ==> value_below(#[trigger] b.values@[i], b.nt(), b.nv()),
        b.uses_sound(),
        b.uses_complete(),
        b.uses_unique(),
{
    assert forall|v: int| 0 <= v < b.nv() implies b.class_kinds_ok(#[trigger] b.values@[v].class, b.values@[v].type_) by {
        assert(a.class_kinds_ok(a.values@[v].class, a.values@[v].type_));
    }
    assert forall|i: int| 0 <= i < b.nv() implies value_below(#[trigger] b.values@[i], b.nt(), b.nv()) by {
        assert(value_below(a.values@[i], a.nt(), a.nv()));
    }
    assert forall|v: int, k: int| 0 <= v < b.nv() && 0 <= k < b.uses(v).len() implies {
        let x = #[trigger] b.values@[v].use_list@[k];
        &&& x.user < b.nv()
        &&& x.arg_no < b.ops(x.user as int).len()
        &&& b.ops(x.user as int)[x.arg_no as int] == v
    } by {
        assert(a.values@[v].use_list@[k] == b.values@[v].use_list@[k]);
    }
    assert forall|u: int, i: int| 0 <= u < b.nv() && 0 <= i < b.ops(u).len() implies has_use(
        b.uses(#[trigger] b.values@[u].operands@[i] as int),
        u,
        i,
    ) by {
        assert(a.values@[u].operands@[i] == b.values@[u].operands@[i]);
    }
    assert forall|v: int| 0 <= v < b.nv() implies (#[trigger] b.values@[v].use_list@).no_duplicates() by {
        assert(a.values@[v].use_list@ == b.values@[v].use_list@);
    }
}

/// The type-table invariant only depends on the type table.
pub proof fn lemma_types_wf_frame(a: Module, b: Module)
    requires
        a.types_wf(),
        a.types@ == b.types@,
    ensures
        b.types_wf(),
{
    assert forall|i: int| 0 <= i < b.nt() implies tdata_children_below(#[trigger] b.tdata_of(i), i as nat) by {
        assert(a.tdata_of(i) == b.tdata_of(i));
    }
    assert forall|i: int, j: int|
        0 <= i < b.nt() && 0 <= j < b.nt() && i != j implies !same_tdata(
        #[trigger] b.tdata_of(i),
        #[trigger] b.tdata_of(j),
    ) by {
        assert(a.tdata_of(i) == b.tdata_of(i));
        assert(a.tdata_of(j) == b.tdata_of(j));
    }
}

pub proof fn lemma_same_tdata_symmetric(a: TypeData, b: TypeData)
    ensures
        same_tdata(a, b) == same_tdata(b, a),
{
}

/// The type table is hash-consed: in a well-formed module, two type indices
/// whose types are structurally equal are the same index.
pub proof fn lemma_type_identity_is_structural(m: Module, i: int, j: int)
    requires
        m.wf(),
        0 <= i < m.nt(),
        0 <= j < m.nt(),
        same_tdata(m.tdata_of(i), m.tdata_of(j)),
    ensures
        i == j,
{
}

} // verus!
