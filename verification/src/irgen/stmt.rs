//! Statements and blocks: assignments, branches and loops (each a set of
//! new blocks of the current function), returns and nested scopes.

use vstd::prelude::*;
use crate::ast::{Block, BlockItem, Decl, Exp, LVal, Stmt};
use crate::ir::bb_impl::terminated_spec;

use crate::ir::func_impl::func_ret_ty;
use crate::ir::inst_impl::{insts_of, val_ty};
use crate::ir::module::{Module, VOID_TY};
use crate::ir::type_::ptr_elem_spec;
use crate::ir::user::OpID;
use crate::ir::value::{BasicBlockPtr, FunctionPtr, InstPtr, ValuePtr};
use crate::irgen::cond::{branch_ops, cond_br_to, ends_in_br, lemma_block_kept, lemma_br_kept, lemma_cond_br_kept};
use crate::irgen::func::lemma_signature_kept;
use crate::irgen::decl::lemma_value_kept;
use crate::irgen::number::FloatArith;
use crate::irgen::scope::lookup;
use crate::irgen::visit::{blocks_kept_but, lemma_blocks_kept_trans, add_kind, lemma_lookup_below, lemma_scalar_type_unique, lemma_loops_grow, loops_in, inst_with, bool_val, grows, lemma_grows_inst, lemma_grows_refl, lemma_grows_trans, lemma_inv_grows, scope_below, GenError, IRGenerator};

verus! {

/// Dropping the innermost level keeps a scope below `n`.
pub proof fn lemma_scope_below_drop(levels: Seq<Map<Seq<char>, ValuePtr>>, n: nat)
    requires
        scope_below(levels, n),
        levels.len() >= 1,
    ensures
        scope_below(levels.drop_last(), n),
{
    let p = levels.drop_last();
    assert forall|k: int, name: Seq<char>| 0 <= k < p.len() && #[trigger] p[k].contains_key(name) implies p[k][name].0
        < n by {
        assert(p[k] == levels[k]);
    }
}

/// Adding an empty innermost level keeps a scope below `n`.
pub proof fn lemma_scope_below_push(levels: Seq<Map<Seq<char>, ValuePtr>>, n: nat)
    requires
        scope_below(levels, n),
    ensures
        scope_below(levels.push(Map::empty()), n),
{
    let p = levels.push(Map::empty());
    assert forall|k: int, name: Seq<char>| 0 <= k < p.len() && #[trigger] p[k].contains_key(name) implies p[k][name].0
        < n by {
        assert(p[k] == levels[k]);
    }
}

/// An assignment that is sure to succeed at an insertion point that can
/// take instructions: to a name without indices bound to the address of an
/// `i32` or a `float`, of an expression whose kind is promised.
pub open spec fn assign_sure(lval: LVal, e: Exp, m: Module, levels: Seq<Map<Seq<char>, ValuePtr>>) -> bool {
    &&& lval.dims@.len() == 0
    &&& lookup(levels, lval.ident@) is Some
    &&& ptr_elem_spec(m.tdata_of(m.type_of(lookup(levels, lval.ident@).unwrap().0 as int) as int)) matches Some(el) && (
    m.tdata_of(el as int) is IntegerType || m.tdata_of(el as int) is FloatType)
    &&& add_kind(e.item, m, levels) != 0
}

/// A return of a value that is sure to succeed at an insertion point that
/// can take instructions: from a function returning `i32` or `float`, of an
/// expression whose kind is promised.
pub open spec fn ret_sure(
    exp: Option<Exp>,
    m: Module,
    levels: Seq<Map<Seq<char>, ValuePtr>>,
    curr_func: Option<FunctionPtr>,
) -> bool {
    &&& exp matches Some(e) && add_kind(e.item, m, levels) != 0
    &&& curr_func matches Some(f) && (m.tdata_of(func_ret_ty(m, f.0 as int) as int) is IntegerType || m.tdata_of(
        func_ret_ty(m, f.0 as int) as int,
    ) is FloatType)
}

/// The block a `break` (the one after the innermost loop) or a `continue`
/// (the innermost loop's condition block) branches to.
pub open spec fn jump_target(stmt: Stmt, loops: Seq<(BasicBlockPtr, BasicBlockPtr)>) -> BasicBlockPtr {
    if stmt is BreakStmt {
        loops.last().1
    } else {
        loops.last().0
    }
}

impl IRGenerator {
    /// The generator moved on from `old` within the same scopes: its
    /// invariant holds, the module grew, the context and the scope levels
    /// are unchanged; the insertion point may have moved.
    pub open spec fn advanced(&self, old: IRGenerator) -> bool {
        &&& self.inv()
        &&& grows(self.m, old.m)
        &&& self.context == old.context
        &&& self.scope.levels() == old.scope.levels()
        &&& self.loops@ == old.loops@
        &&& blocks_kept_but(self.m, old.m, old.buidler.bb)
        &&& self.buidler.bb == old.buidler.bb || (self.buidler.bb matches Some(b) && b.0 >= old.m.nv())
    }

    /// The insertion block ends with a branch or a return.
    pub open spec fn at_terminated_block(&self) -> bool {
        self.buidler.bb matches Some(b) && terminated_spec(self.m, b.0 as int)
    }

    /// The insertion block is one created since the module held `n` values.
    pub open spec fn at_block_from(&self, n: nat) -> bool {
        self.buidler.bb matches Some(b) && b.0 >= n
    }

    /// The insertion block ends with instruction `id` on operands `ops`.
    pub open spec fn ends_with(&self, id: OpID, ops: Seq<usize>) -> bool {
        &&& self.buidler.bb matches Some(b) && self.m.bb_insts(b.0 as int).len() > 0
        &&& self.m.class_of(self.m.bb_insts(self.buidler.bb.unwrap().0 as int).last() as int) is Inst
        &&& self.m.inst_op(self.m.bb_insts(self.buidler.bb.unwrap().0 as int).last() as int) == id
        &&& self.m.ops(self.m.bb_insts(self.buidler.bb.unwrap().0 as int).last() as int) == ops
    }

    /// The insertion block ends with a store through the address `lval`
    /// denotes: the value bound to its name, or an address computation.
    pub open spec fn stores_to(&self, lval: LVal, levels: Seq<Map<Seq<char>, ValuePtr>>) -> bool {
        &&& self.buidler.bb matches Some(b) && self.m.bb_insts(b.0 as int).len() > 0
        &&& {
            let i = self.m.bb_insts(self.buidler.bb.unwrap().0 as int).last() as int;
            &&& self.m.class_of(i) is Inst
            &&& self.m.inst_op(i) == OpID::Store
            &&& self.m.ops(i).len() == 2
            &&& lval.dims@.len() == 0 ==> lookup(levels, lval.ident@) == Some(ValuePtr(self.m.ops(i)[1]))
            &&& lval.dims@.len() > 0 ==> inst_with(self.m, ValuePtr(self.m.ops(i)[1]), |id: OpID| id == OpID::GetElementPtr)
        }
    }

    /// There is an insertion block and it does not end yet.
    pub open spec fn can_insert(&self) -> bool {
        self.buidler.bb matches Some(b) && !terminated_spec(self.m, b.0 as int)
    }

    /// Ends the insertion block with a branch to `target`, unless it ends
    /// already.
    fn close_with_br(&mut self, target: BasicBlockPtr) -> (res: Result<(), GenError>)
        requires
            old(self).inv(),
            target.0 < old(self).m.nv(),
            old(self).m.class_of(target.0 as int) is BasicBlock,
        ensures
            final(self).stepped(*old(self)),
            res is Ok ==> final(self).at_terminated_block(),
            res is Ok <==> old(self).buidler.bb is Some,
            res is Ok && old(self).can_insert() ==> final(self).ends_with(OpID::Br, seq![target.0]),
            !old(self).can_insert() ==> final(self).m == old(self).m,
    {
        let ghost m0 = self.m;
        proof {
            lemma_grows_refl(self.m);
        }
        let b = match self.buidler.bb {
            Some(b) => b,
            None => {
                return Err(GenError::NoInsertPoint);
            },
        };
        if !b.is_terminated(&self.m) {
            let br = InstPtr::br_inst(&mut self.m, target, b);
            proof {
                lemma_grows_inst(self.m, m0, br.0, VOID_TY, OpID::Br, b.0, seq![target.0], insts_of(m0, b).push(br.0), seq![target.0]);
                lemma_inv_grows(self.m, m0, self.scope, self.context, self.buidler);
                assert(self.m.bb_insts(b.0 as int).last() == br.0);
            }
        }
        Ok(())
    }

    /// Ends the insertion block with a branch on the `i1` value `cond` to
    /// `if_true` or `if_false`.
    fn cond_branch(&mut self, cond: ValuePtr, if_true: BasicBlockPtr, if_false: BasicBlockPtr) -> (res: Result<
        (),
        GenError,
    >)
        requires
            old(self).inv(),
            bool_val(old(self).m, cond),
            if_true.0 < old(self).m.nv(),
            old(self).m.class_of(if_true.0 as int) is BasicBlock,
            if_false.0 < old(self).m.nv(),
            old(self).m.class_of(if_false.0 as int) is BasicBlock,
        ensures
            final(self).stepped(*old(self)),
            res is Ok ==> final(self).at_terminated_block(),
            res is Ok <==> old(self).can_insert(),
            res is Ok ==> final(self).ends_with(OpID::Br, seq![cond.0, if_true.0, if_false.0]),
    {
        let ghost m0 = self.m;
        proof {
            lemma_grows_refl(self.m);
        }
        let b = self.insert_block()?;
        let br = InstPtr::cond_br_inst(&mut self.m, cond, if_true, if_false, b);
        proof {
            lemma_grows_inst(self.m, m0, br.0, VOID_TY, OpID::Br, b.0, seq![cond.0, if_true.0, if_false.0], insts_of(m0, b).push(br.0), seq![if_true.0, if_false.0]);
            lemma_inv_grows(self.m, m0, self.scope, self.context, self.buidler);
            assert(self.m.bb_insts(b.0 as int).last() == br.0);
        }
        Ok(())
    }

    /// A store of `val` through `ptr` at the insertion point; `ptr` must
    /// point to `val`'s type.
    pub(crate) fn emit_store(&mut self, val: ValuePtr, ptr: ValuePtr) -> (res: Result<(), GenError>)
        requires
            old(self).inv(),
            val.0 < old(self).m.nv(),
            ptr.0 < old(self).m.nv(),
        ensures
            final(self).stepped(*old(self)),
            res is Ok <==> ptr_elem_spec(old(self).m.tdata_of(val_ty(old(self).m, ptr) as int)) == Some(
                val_ty(old(self).m, val),
            ) && old(self).can_insert(),
            res is Ok ==> final(self).ends_with(OpID::Store, seq![val.0, ptr.0]),
    {
        let ghost m0 = self.m;
        proof {
            lemma_grows_refl(self.m);
        }
        let pt = self.type_of_val(ptr);
        let vt = self.type_of_val(val);
        match self.m.ty(pt).get_ptr_elem_ty() {
            Some(e) => {
                if e != vt {
                    return Err(GenError::TypeMismatch);
                }
            },
            None => {
                return Err(GenError::TypeMismatch);
            },
        }
        let b = self.insert_block()?;
        let st = InstPtr::store_inst(&mut self.m, val, ptr, b);
        proof {
            lemma_grows_inst(self.m, m0, st.0, VOID_TY, OpID::Store, b.0, seq![val.0, ptr.0], insts_of(m0, b).push(st.0), Seq::empty());
            lemma_inv_grows(self.m, m0, self.scope, self.context, self.buidler);
        }
        Ok(())
    }

    /// An assignment: the value, then the address, then the value converted
    /// to the addressed type and stored.
    #[verifier::spinoff_prover]
    #[verifier::rlimit(100)]
    fn visit_assign<A: FloatArith>(&mut self, lval: &LVal, exp: &Exp) -> (res: Result<(), GenError>)
        requires
            old(self).inv(),
            !old(self).context.is_const,
        ensures
            final(self).stepped(*old(self)),
            res is Ok ==> final(self).stores_to(*lval, old(self).scope.levels()),
            lookup(old(self).scope.levels(), lval.ident@) is None ==> res is Err,
            old(self).can_insert() && assign_sure(*lval, *exp, old(self).m, old(self).scope.levels()) ==> res is Ok
                && final(self).can_insert(),
    {
        let ghost m0 = self.m;
        let ghost levels = self.scope.levels();
        let val = self.visit_exp_as_value::<A>(exp)?;
        let ghost m1 = self.m;
        let ptr = self.visit_lval_as_ptr::<A>(lval)?;
        let ghost m2 = self.m;
        proof {
            lemma_grows_trans(m2, m1, m0);
            lemma_lookup_below(levels, lval.ident@, m0.nv());
            if assign_sure(*lval, *exp, m0, levels) {
                let p = lookup(levels, lval.ident@).unwrap();
                assert(ptr == p);
                assert(crate::ir::module::value_below(m0.values@[p.0 as int], m0.nt(), m0.nv()));
                let t = m0.type_of(p.0 as int);
                assert(m2.types@[t as int] == m0.types@[t as int]);
                assert(crate::ir::type_::tdata_children_below(m0.tdata_of(t as int), t as nat));
                let el = ptr_elem_spec(m0.tdata_of(t as int))->0;
                assert(m2.types@[el as int] == m0.types@[el as int]);
                lemma_scalar_type_unique(m2, el);
                lemma_scalar_type_unique(m2, m2.type_of(val.0 as int));
            }
        }
        let pt = self.type_of_val(ptr);
        proof {
            assert(crate::ir::type_::tdata_children_below(self.m.tdata_of(pt as int), pt as nat));
        }
        let elem = match self.m.ty(pt).get_ptr_elem_ty() {
            Some(e) => e,
            None => {
                return Err(GenError::TypeMismatch);
            },
        };
        let cv = self.convert_to_target(val, elem)?;
        let ghost m3 = self.m;
        proof {
            lemma_grows_trans(m3, m2, m0);
            lemma_value_kept(m3, m2, ptr.0 as int);
            lemma_scalar_type_unique(m3, m3.type_of(cv.0 as int));
        }
        let r = self.emit_store(cv, ptr);
        proof {
            lemma_grows_trans(self.m, m3, m0);
        }
        r
    }

    /// A return: of the value converted to the function's return type, or
    /// of nothing from a `void` function; a value returned from a `void`
    /// function, or none from another, is refused.
    fn visit_ret<A: FloatArith>(&mut self, exp: &Option<Exp>) -> (res: Result<(), GenError>)
        requires
            old(self).inv(),
            !old(self).context.is_const,
        ensures
            final(self).stepped(*old(self)),
            res is Ok ==> final(self).at_terminated_block(),
            old(self).context.curr_func is None ==> res is Err,
            exp is None ==> (res is Ok <==> (old(self).context.curr_func matches Some(f) && old(self).m.tdata_of(
                func_ret_ty(old(self).m, f.0 as int) as int,
            ) is VoidType && old(self).can_insert())),
            exp is None && res is Ok ==> final(self).ends_with(OpID::Ret, Seq::empty()),
            exp is Some && (old(self).context.curr_func matches Some(f) && old(self).m.tdata_of(
                func_ret_ty(old(self).m, f.0 as int) as int,
            ) is VoidType) ==> res is Err,
            exp is Some && res is Ok ==> exists|v: usize|
                #[trigger] final(self).m.type_of(v as int) == func_ret_ty(final(self).m, final(self).context.curr_func.unwrap().0 as int)
                    && final(self).ends_with(OpID::Ret, seq![v]),
            old(self).can_insert() && ret_sure(*exp, old(self).m, old(self).scope.levels(), old(self).context.curr_func)
                ==> res is Ok,
    {
        let ghost m0 = self.m;
        proof {
            lemma_grows_refl(self.m);
        }
        match exp {
            Some(e) => {
                let val = self.visit_exp_as_value::<A>(e)?;
                let ghost m1 = self.m;
                let f = match self.context.curr_func {
                    Some(f) => f,
                    None => {
                        return Err(GenError::NoInsertPoint);
                    },
                };
                let rt = f.get_return_type(&self.m);
                proof {
                    lemma_signature_kept(m1, m0, f.0 as int);
                    assert(m1.types@[rt as int] == m0.types@[rt as int]);
                    lemma_scalar_type_unique(m1, rt);
                    lemma_scalar_type_unique(m1, m1.type_of(val.0 as int));
                }
                if self.m.ty(rt).is_void() {
                    return Err(GenError::TypeMismatch);
                }
                let cv = self.convert_to_target(val, rt)?;
                let ghost m2 = self.m;
                proof {
                    lemma_grows_trans(m2, m1, m0);
                    lemma_value_kept(m2, m1, f.0 as int);
                    assert(m2.types@[rt as int] == m1.types@[rt as int]);
                    lemma_scalar_type_unique(m2, m2.type_of(cv.0 as int));
                }
                let t = self.type_of_val(cv);
                if t != rt {
                    return Err(GenError::TypeMismatch);
                }
                let b = self.insert_block()?;
                let r = InstPtr::ret_inst(&mut self.m, cv, b);
                proof {
                    lemma_grows_inst(self.m, m2, r.0, VOID_TY, OpID::Ret, b.0, seq![cv.0], insts_of(m2, b).push(r.0), Seq::empty());
                    lemma_inv_grows(self.m, m2, self.scope, self.context, self.buidler);
                    lemma_grows_trans(self.m, m2, m0);
                    assert(self.m.bb_insts(b.0 as int).last() == r.0);
                    lemma_signature_kept(self.m, m1, f.0 as int);
                    assert(self.m.type_of(cv.0 as int) == m2.type_of(cv.0 as int));
                    assert(self.ends_with(OpID::Ret, seq![cv.0]));
                }
                Ok(())
            },
            None => {
                let f = match self.context.curr_func {
                    Some(f) => f,
                    None => {
                        return Err(GenError::NoInsertPoint);
                    },
                };
                let rt = f.get_return_type(&self.m);
                if !self.m.ty(rt).is_void() {
                    return Err(GenError::TypeMismatch);
                }
                let b = self.insert_block()?;
                let r = InstPtr::void_ret_inst(&mut self.m, b);
                proof {
                    lemma_grows_inst(self.m, m0, r.0, VOID_TY, OpID::Ret, b.0, Seq::empty(), insts_of(m0, b).push(r.0), Seq::empty());
                    lemma_inv_grows(self.m, m0, self.scope, self.context, self.buidler);
                    assert(self.m.bb_insts(b.0 as int).last() == r.0);
                    assert(self.ends_with(OpID::Ret, Seq::empty()));
                }
                Ok(())
            },
        }
    }
    /// An `if`: new blocks for the branch taken and for what follows (and
    /// for the other branch), the condition, a branch on it, each branch's
    /// statement in its block ending with a branch to what follows (unless
    /// it ends already); generation goes on in the block that follows.
    #[verifier::rlimit(40)]
    fn visit_if<A: FloatArith>(&mut self, stmt: &Stmt) -> (res: Result<(), GenError>)
        requires
            old(self).inv(),
            !old(self).context.is_const,
            stmt is IfStmt,
            loops_in(old(self).m, old(self).loops@),
        ensures
            final(self).advanced(*old(self)),
            res is Ok ==> final(self).at_block_from(old(self).m.nv()),
            res is Ok ==> final(self).buidler.bb == Some(BasicBlockPtr((old(self).m.nv() + 1) as usize)),
            res is Ok && (stmt matches Stmt::IfStmt(_, _, None)) ==> exists|c: int|
                #[trigger] cond_br_to(final(self).m, c, old(self).m.nv() as usize, (old(self).m.nv() + 1) as usize),
            res is Ok && (stmt matches Stmt::IfStmt(_, _, Some(_))) ==> exists|c: int, e: usize|
                #[trigger] cond_br_to(final(self).m, c, old(self).m.nv() as usize, e) && e >= old(self).m.nv() + 2,
        decreases stmt, 1int,
    {
        match stmt {
            Stmt::IfStmt(_, _, Some(_)) => self.visit_if_else::<A>(stmt),
            _ => self.visit_if_then::<A>(stmt),
        }
    }

    /// An `if` with an `else` (see `visit_if`).
    #[verifier::spinoff_prover]
    #[verifier::rlimit(100)]
    fn visit_if_else<A: FloatArith>(&mut self, stmt: &Stmt) -> (res: Result<(), GenError>)
        requires
            old(self).inv(),
            !old(self).context.is_const,
            stmt matches Stmt::IfStmt(_, _, Some(_)),
            loops_in(old(self).m, old(self).loops@),
        ensures
            final(self).advanced(*old(self)),
            res is Ok ==> final(self).at_block_from(old(self).m.nv()),
            res is Ok ==> final(self).buidler.bb == Some(BasicBlockPtr((old(self).m.nv() + 1) as usize)),
            res is Ok && (stmt matches Stmt::IfStmt(_, _, None)) ==> exists|c: int|
                #[trigger] cond_br_to(final(self).m, c, old(self).m.nv() as usize, (old(self).m.nv() + 1) as usize),
            res is Ok && (stmt matches Stmt::IfStmt(_, _, Some(_))) ==> exists|c: int, e: usize|
                #[trigger] cond_br_to(final(self).m, c, old(self).m.nv() as usize, e) && e >= old(self).m.nv() + 2,
        decreases stmt, 0int,
    {
        let ghost m0 = self.m;
        let ghost b0 = self.buidler.bb;
        proof {
            lemma_grows_refl(self.m);
        }
        match stmt {
            Stmt::IfStmt(cond, if_stmt, else_stmt) => {
                let ghost st1 = *self;
                let rr1 = self.new_block();
                proof {
                    lemma_blocks_kept_trans(self.m, st1.m, m0, st1.buidler.bb, b0);
                    lemma_grows_trans(self.m, st1.m, m0);
                }
                let if_bb = rr1?;
                let ghost ma = self.m;
                let ghost st2 = *self;
                let rr2 = self.new_block();
                proof {
                    lemma_blocks_kept_trans(self.m, st2.m, m0, st2.buidler.bb, b0);
                    lemma_grows_trans(self.m, st2.m, m0);
                }
                let cont_bb = rr2?;
                let ghost m1 = self.m;
                proof {
                    lemma_block_kept(m1, ma, if_bb.0 as int);
                    lemma_grows_trans(m1, ma, m0);
                }
                let ghost st3 = *self;
                let rr3 = self.visit_cond::<A>(cond);
                proof {
                    lemma_blocks_kept_trans(self.m, st3.m, m0, st3.buidler.bb, b0);
                    lemma_grows_trans(self.m, st3.m, m0);
                }
                let cond_val = rr3?;
                let ghost m2 = self.m;
                proof {
                    lemma_grows_trans(m2, m1, m0);
                    lemma_block_kept(m2, m1, if_bb.0 as int);
                    lemma_block_kept(m2, m1, cont_bb.0 as int);
                }
                match else_stmt {
                    Some(e) => {
                        let ghost st4 = *self;
                        let rr4 = self.new_block();
                        proof {
                            lemma_blocks_kept_trans(self.m, st4.m, m0, st4.buidler.bb, b0);
                            lemma_grows_trans(self.m, st4.m, m0);
                        }
                        let else_bb = rr4?;
                        let ghost m3 = self.m;
                        proof {
                            lemma_block_kept(m3, m2, if_bb.0 as int);
                            lemma_block_kept(m3, m2, cont_bb.0 as int);
                        }
                        let ghost st5 = *self;
                        let ghost cb: int = self.buidler.bb.unwrap().0 as int;
                        let rr5 = self.cond_branch(cond_val, if_bb, else_bb);
                        proof {
                            lemma_blocks_kept_trans(self.m, st5.m, m0, st5.buidler.bb, b0);
                            lemma_grows_trans(self.m, st5.m, m0);
                        }
                        rr5?;
                        let ghost m4 = self.m;
                        proof {
                            lemma_block_kept(m4, m3, if_bb.0 as int);
                            lemma_block_kept(m4, m3, else_bb.0 as int);
                            lemma_block_kept(m4, m3, cont_bb.0 as int);
                        }
                        self.buidler.set_insert_point(if_bb);
                        proof {
                            assert(decreases_to!(stmt => if_stmt));
                            lemma_grows_trans(m3, m2, m0);
                            lemma_grows_trans(m4, m3, m0);
                            lemma_loops_grow(m4, m0, self.loops@);
                        }
                        let ghost st6 = *self;
                        let rr6 = self.visit_stmt::<A>(if_stmt);
                        proof {
                            lemma_blocks_kept_trans(self.m, st6.m, m0, st6.buidler.bb, b0);
                            lemma_grows_trans(self.m, st6.m, m0);
                        }
                        rr6?;
                        let ghost m5 = self.m;
                        proof {
                            lemma_block_kept(m5, m4, else_bb.0 as int);
                            lemma_block_kept(m5, m4, cont_bb.0 as int);
                        }
                        let ghost st7 = *self;
                        let rr7 = self.close_with_br(cont_bb);
                        proof {
                            lemma_blocks_kept_trans(self.m, st7.m, m0, st7.buidler.bb, b0);
                            lemma_grows_trans(self.m, st7.m, m0);
                        }
                        rr7?;
                        let ghost m6 = self.m;
                        proof {
                            lemma_block_kept(m6, m5, else_bb.0 as int);
                            lemma_block_kept(m6, m5, cont_bb.0 as int);
                        }
                        self.buidler.set_insert_point(else_bb);
                        proof {
                            assert(decreases_to!(stmt => else_stmt));
                            assert(decreases_to!(else_stmt => e));
                            lemma_grows_trans(m5, m4, m0);
                            lemma_grows_trans(m6, m5, m0);
                            lemma_loops_grow(m6, m0, self.loops@);
                        }
                        let ghost st8 = *self;
                        let rr8 = self.visit_stmt::<A>(e);
                        proof {
                            lemma_blocks_kept_trans(self.m, st8.m, m0, st8.buidler.bb, b0);
                            lemma_grows_trans(self.m, st8.m, m0);
                        }
                        rr8?;
                        let ghost m7 = self.m;
                        proof {
                            lemma_block_kept(m7, m6, cont_bb.0 as int);
                        }
                        let ghost st9 = *self;
                        let rr9 = self.close_with_br(cont_bb);
                        proof {
                            lemma_blocks_kept_trans(self.m, st9.m, m0, st9.buidler.bb, b0);
                            lemma_grows_trans(self.m, st9.m, m0);
                        }
                        rr9?;
                        assert(cond_br_to(self.m, cb, if_bb.0, else_bb.0)) by {
                            assert(cond_br_to(m4, cb, if_bb.0, else_bb.0));
                            assert(cb < m2.nv() && m2.class_of(cb) is BasicBlock);
                            lemma_block_kept(m4, m2, cb);
                            lemma_grows_trans(m4, m3, m2);
                            lemma_grows_trans(m5, m4, m2);
                            lemma_grows_trans(m6, m5, m2);
                            lemma_grows_trans(m7, m6, m2);
                            lemma_cond_br_kept(m5, m4, cb, if_bb.0, else_bb.0);
                            lemma_block_kept(m5, m2, cb);
                            lemma_cond_br_kept(m6, m5, cb, if_bb.0, else_bb.0);
                            lemma_block_kept(m6, m2, cb);
                            lemma_cond_br_kept(m7, m6, cb, if_bb.0, else_bb.0);
                            lemma_block_kept(m7, m2, cb);
                            lemma_cond_br_kept(self.m, m7, cb, if_bb.0, else_bb.0);
                        }
                        assert(if_bb.0 == m0.nv() && cont_bb.0 == m0.nv() + 1 && else_bb.0 >= m0.nv() + 2);
                        proof {
                            lemma_block_kept(self.m, m7, cont_bb.0 as int);
                            lemma_grows_trans(m4, m3, m2);
                            lemma_grows_trans(m5, m4, m2);
                            lemma_grows_trans(m6, m5, m2);
                            lemma_grows_trans(m7, m6, m2);
                            lemma_grows_trans(self.m, m7, m2);
                            lemma_grows_trans(self.m, m2, m0);
                        }
                    },
                    None => {},
                }
                self.buidler.set_insert_point(cont_bb);
                Ok(())
            },
            _ => Ok(()),
        }
    }

    /// An `if` without an `else` (see `visit_if`).
    #[verifier::spinoff_prover]
    #[verifier::rlimit(100)]
    fn visit_if_then<A: FloatArith>(&mut self, stmt: &Stmt) -> (res: Result<(), GenError>)
        requires
            old(self).inv(),
            !old(self).context.is_const,
            stmt matches Stmt::IfStmt(_, _, None),
            loops_in(old(self).m, old(self).loops@),
        ensures
            final(self).advanced(*old(self)),
            res is Ok ==> final(self).at_block_from(old(self).m.nv()),
            res is Ok ==> final(self).buidler.bb == Some(BasicBlockPtr((old(self).m.nv() + 1) as usize)),
            res is Ok && (stmt matches Stmt::IfStmt(_, _, None)) ==> exists|c: int|
                #[trigger] cond_br_to(final(self).m, c, old(self).m.nv() as usize, (old(self).m.nv() + 1) as usize),
            res is Ok && (stmt matches Stmt::IfStmt(_, _, Some(_))) ==> exists|c: int, e: usize|
                #[trigger] cond_br_to(final(self).m, c, old(self).m.nv() as usize, e) && e >= old(self).m.nv() + 2,
        decreases stmt, 0int,
    {
        let ghost m0 = self.m;
        let ghost b0 = self.buidler.bb;
        proof {
            lemma_grows_refl(self.m);
        }
        match stmt {
            Stmt::IfStmt(cond, if_stmt, else_stmt) => {
                let ghost st1 = *self;
                let rr1 = self.new_block();
                proof {
                    lemma_blocks_kept_trans(self.m, st1.m, m0, st1.buidler.bb, b0);
                    lemma_grows_trans(self.m, st1.m, m0);
                }
                let if_bb = rr1?;
                let ghost ma = self.m;
                let ghost st2 = *self;
                let rr2 = self.new_block();
                proof {
                    lemma_blocks_kept_trans(self.m, st2.m, m0, st2.buidler.bb, b0);
                    lemma_grows_trans(self.m, st2.m, m0);
                }
                let cont_bb = rr2?;
                let ghost m1 = self.m;
                proof {
                    lemma_block_kept(m1, ma, if_bb.0 as int);
                    lemma_grows_trans(m1, ma, m0);
                }
                let ghost st3 = *self;
                let rr3 = self.visit_cond::<A>(cond);
                proof {
                    lemma_blocks_kept_trans(self.m, st3.m, m0, st3.buidler.bb, b0);
                    lemma_grows_trans(self.m, st3.m, m0);
                }
                let cond_val = rr3?;
                let ghost m2 = self.m;
                proof {
                    lemma_grows_trans(m2, m1, m0);
                    lemma_block_kept(m2, m1, if_bb.0 as int);
                    lemma_block_kept(m2, m1, cont_bb.0 as int);
                }
                match else_stmt {
                    Some(_) => {},
                    None => {
                        let ghost st10 = *self;
                        let ghost cb: int = self.buidler.bb.unwrap().0 as int;
                        let rr10 = self.cond_branch(cond_val, if_bb, cont_bb);
                        proof {
                            lemma_blocks_kept_trans(self.m, st10.m, m0, st10.buidler.bb, b0);
                            lemma_grows_trans(self.m, st10.m, m0);
                        }
                        rr10?;
                        let ghost m4 = self.m;
                        proof {
                            lemma_block_kept(m4, m2, if_bb.0 as int);
                            lemma_block_kept(m4, m2, cont_bb.0 as int);
                        }
                        self.buidler.set_insert_point(if_bb);
                        proof {
                            assert(decreases_to!(stmt => if_stmt));
                            lemma_grows_trans(m4, m2, m0);
                            lemma_loops_grow(m4, m0, self.loops@);
                        }
                        let ghost st11 = *self;
                        let rr11 = self.visit_stmt::<A>(if_stmt);
                        proof {
                            lemma_blocks_kept_trans(self.m, st11.m, m0, st11.buidler.bb, b0);
                            lemma_grows_trans(self.m, st11.m, m0);
                        }
                        rr11?;
                        let ghost m5 = self.m;
                        proof {
                            lemma_block_kept(m5, m4, cont_bb.0 as int);
                        }
                        let ghost st12 = *self;
                        let rr12 = self.close_with_br(cont_bb);
                        proof {
                            lemma_blocks_kept_trans(self.m, st12.m, m0, st12.buidler.bb, b0);
                            lemma_grows_trans(self.m, st12.m, m0);
                        }
                        rr12?;
                        assert(cond_br_to(self.m, cb, if_bb.0, cont_bb.0)) by {
                            assert(cond_br_to(m4, cb, if_bb.0, cont_bb.0));
                            assert(cb < m2.nv() && m2.class_of(cb) is BasicBlock);
                            lemma_block_kept(m4, m2, cb);
                            lemma_grows_trans(m5, m4, m2);
                            lemma_cond_br_kept(m5, m4, cb, if_bb.0, cont_bb.0);
                            lemma_block_kept(m5, m2, cb);
                            lemma_cond_br_kept(self.m, m5, cb, if_bb.0, cont_bb.0);
                        }
                        assert(if_bb.0 == m0.nv() && cont_bb.0 == m0.nv() + 1);
                        assert(cond_br_to(self.m, cb, m0.nv() as usize, (m0.nv() + 1) as usize));
                        proof {
                            lemma_block_kept(self.m, m5, cont_bb.0 as int);
                            lemma_grows_trans(m5, m4, m2);
                            lemma_grows_trans(self.m, m5, m2);
                            lemma_grows_trans(self.m, m2, m0);
                        }
                    },
                }
                self.buidler.set_insert_point(cont_bb);
                Ok(())
            },
            _ => Ok(()),
        }
    }

    /// A `while`: new blocks for the condition, the body and what follows;
    /// a branch into the condition block (unless the current block ends
    /// already), the condition and a branch on it, the body ending with a
    /// branch back to the condition (unless it ends already); generation
    /// goes on in the block that follows.
    #[verifier::spinoff_prover]
    #[verifier::rlimit(100)]
    fn visit_while<A: FloatArith>(&mut self, stmt: &Stmt) -> (res: Result<(), GenError>)
        requires
            old(self).inv(),
            !old(self).context.is_const,
            stmt is WhileStmt,
            loops_in(old(self).m, old(self).loops@),
        ensures
            final(self).advanced(*old(self)),
            res is Ok ==> final(self).at_block_from(old(self).m.nv()),
            res is Ok ==> final(self).buidler.bb == Some(BasicBlockPtr((old(self).m.nv() + 2) as usize)),
            res is Ok ==> final(self).m.bb_insts((old(self).m.nv() + 2) as int).len() == 0,
            res is Ok ==> exists|c: int|
                #[trigger] cond_br_to(final(self).m, c, (old(self).m.nv() + 1) as usize, (old(self).m.nv() + 2) as usize),
            res is Ok && old(self).can_insert() ==> ends_in_br(final(self).m, old(self).buidler.bb.unwrap().0 as int)
                && branch_ops(final(self).m, old(self).buidler.bb.unwrap().0 as int) == seq![old(self).m.nv() as usize],
        decreases stmt, 0int,
    {
        let ghost m0 = self.m;
        let ghost b0 = self.buidler.bb;
        proof {
            lemma_grows_refl(self.m);
        }
        match stmt {
            Stmt::WhileStmt(cond, body) => {
                let ghost st13 = *self;
                let rr13 = self.new_block();
                proof {
                    lemma_blocks_kept_trans(self.m, st13.m, m0, st13.buidler.bb, b0);
                    lemma_grows_trans(self.m, st13.m, m0);
                }
                let cond_bb = rr13?;
                let ghost ma = self.m;
                let ghost st14 = *self;
                let rr14 = self.new_block();
                proof {
                    lemma_blocks_kept_trans(self.m, st14.m, m0, st14.buidler.bb, b0);
                    lemma_grows_trans(self.m, st14.m, m0);
                }
                let body_bb = rr14?;
                let ghost mb = self.m;
                let ghost st15 = *self;
                let rr15 = self.new_block();
                proof {
                    lemma_blocks_kept_trans(self.m, st15.m, m0, st15.buidler.bb, b0);
                    lemma_grows_trans(self.m, st15.m, m0);
                }
                let end_bb = rr15?;
                let ghost m1 = self.m;
                proof {
                    lemma_block_kept(mb, ma, cond_bb.0 as int);
                    lemma_block_kept(m1, mb, cond_bb.0 as int);
                    lemma_block_kept(m1, mb, body_bb.0 as int);
                    lemma_grows_trans(mb, ma, m0);
                    lemma_grows_trans(m1, mb, m0);
                }
                let ghost st16 = *self;
                let rr16 = self.close_with_br(cond_bb);
                proof {
                    lemma_blocks_kept_trans(self.m, st16.m, m0, st16.buidler.bb, b0);
                    lemma_grows_trans(self.m, st16.m, m0);
                }
                rr16?;
                let ghost m2 = self.m;
                proof {
                    lemma_block_kept(m2, m1, cond_bb.0 as int);
                    lemma_block_kept(m2, m1, body_bb.0 as int);
                    lemma_block_kept(m2, m1, end_bb.0 as int);
                }
                self.buidler.set_insert_point(cond_bb);
                let ghost st17 = *self;
                let rr17 = self.visit_cond::<A>(cond);
                proof {
                    lemma_blocks_kept_trans(self.m, st17.m, m0, st17.buidler.bb, b0);
                    lemma_grows_trans(self.m, st17.m, m0);
                }
                let cond_val = rr17?;
                let ghost m3 = self.m;
                proof {
                    lemma_block_kept(m3, m2, cond_bb.0 as int);
                    lemma_block_kept(m3, m2, body_bb.0 as int);
                    lemma_block_kept(m3, m2, end_bb.0 as int);
                }
                let ghost st18 = *self;
                let ghost cb: int = self.buidler.bb.unwrap().0 as int;
                let rr18 = self.cond_branch(cond_val, body_bb, end_bb);
                proof {
                    lemma_blocks_kept_trans(self.m, st18.m, m0, st18.buidler.bb, b0);
                    lemma_grows_trans(self.m, st18.m, m0);
                }
                rr18?;
                let ghost m4 = self.m;
                proof {
                    lemma_block_kept(m4, m3, cond_bb.0 as int);
                    lemma_block_kept(m4, m3, body_bb.0 as int);
                    lemma_block_kept(m4, m3, end_bb.0 as int);
                }
                self.buidler.set_insert_point(body_bb);
                proof {
                    assert(decreases_to!(stmt => body));
                    lemma_grows_trans(m2, m1, m0);
                    lemma_grows_trans(m3, m2, m0);
                    lemma_grows_trans(m4, m3, m0);
                    lemma_loops_grow(m4, m0, self.loops@);
                }
                let ghost outer = self.loops@;
                self.loops.push((cond_bb, end_bb));
                proof {
                    assert forall|i: int| 0 <= i < self.loops@.len() implies {
                        &&& (#[trigger] self.loops@[i]).0.0 < self.m.nv()
                        &&& self.m.class_of(self.loops@[i].0.0 as int) is BasicBlock
                        &&& self.loops@[i].1.0 < self.m.nv()
                        &&& self.m.class_of(self.loops@[i].1.0 as int) is BasicBlock
                    } by {
                        if i < outer.len() {
                            assert(self.loops@[i] == outer[i]);
                        }
                    }
                }
                let ghost sb = *self;
                let r = self.visit_stmt::<A>(body);
                let _ = self.loops.pop();
                proof {
                    assert(self.loops@ =~= outer);
                    lemma_blocks_kept_trans(self.m, sb.m, m0, sb.buidler.bb, b0);
                    lemma_grows_trans(self.m, sb.m, m0);
                }
                r?;
                let ghost m5 = self.m;
                proof {
                    lemma_block_kept(m5, m4, cond_bb.0 as int);
                    lemma_block_kept(m5, m4, end_bb.0 as int);
                }
                let ghost st19 = *self;
                let rr19 = self.close_with_br(cond_bb);
                proof {
                    lemma_blocks_kept_trans(self.m, st19.m, m0, st19.buidler.bb, b0);
                    lemma_grows_trans(self.m, st19.m, m0);
                }
                rr19?;
                proof {
                    lemma_block_kept(self.m, m5, end_bb.0 as int);
                    lemma_grows_trans(m2, m1, m0);
                    lemma_grows_trans(m3, m2, m0);
                    lemma_grows_trans(m4, m3, m0);
                    lemma_grows_trans(m5, m4, m0);
                    lemma_grows_trans(self.m, m5, m0);
                }
                assert(cond_bb.0 == m0.nv() && body_bb.0 == m0.nv() + 1 && end_bb.0 == m0.nv() + 2);
                assert(cond_br_to(self.m, cb, (m0.nv() + 1) as usize, (m0.nv() + 2) as usize)) by {
                    assert(cond_br_to(m4, cb, body_bb.0, end_bb.0));
                    assert(cb < m3.nv() && m3.class_of(cb) is BasicBlock);
                    lemma_block_kept(m4, m3, cb);
                    lemma_grows_trans(m5, m4, m3);
                    lemma_cond_br_kept(m5, m4, cb, body_bb.0, end_bb.0);
                    lemma_block_kept(m5, m3, cb);
                    lemma_cond_br_kept(self.m, m5, cb, body_bb.0, end_bb.0);
                }
                assert(self.m.bb_insts(end_bb.0 as int).len() == 0) by {
                    assert(m1.bb_insts(end_bb.0 as int).len() == 0);
                    assert(m2.bb_insts(end_bb.0 as int) == m1.bb_insts(end_bb.0 as int));
                    assert(m3.bb_insts(end_bb.0 as int) == m2.bb_insts(end_bb.0 as int));
                    assert(m4.bb_insts(end_bb.0 as int) == m3.bb_insts(end_bb.0 as int));
                    assert(m5.bb_insts(end_bb.0 as int) == m4.bb_insts(end_bb.0 as int));
                }
                assert(old(self).can_insert() ==> ends_in_br(self.m, b0.unwrap().0 as int) && branch_ops(self.m, b0.unwrap().0 as int) == seq![m0.nv() as usize]) by {
                    if old(self).can_insert() {
                        let c0 = b0.unwrap().0 as int;
                        assert(c0 < m0.nv() && m0.class_of(c0) is BasicBlock);
                        assert(ends_in_br(m2, c0) && branch_ops(m2, c0) == seq![cond_bb.0]);
                        lemma_block_kept(m2, m0, c0);
                        lemma_br_kept(m3, m2, c0);
                        lemma_block_kept(m3, m0, c0);
                        lemma_br_kept(m4, m3, c0);
                        lemma_block_kept(m4, m0, c0);
                        lemma_br_kept(m5, m4, c0);
                        lemma_block_kept(m5, m0, c0);
                        lemma_br_kept(self.m, m5, c0);
                    }
                }
                self.buidler.set_insert_point(end_bb);
                Ok(())
            },
            _ => Ok(()),
        }
    }

    /// A statement; `break` and `continue` end the insertion block with a
    /// branch to the block after the innermost loop or to its condition
    /// block, and are refused outside any loop.
    pub fn visit_stmt<A: FloatArith>(&mut self, stmt: &Stmt) -> (res: Result<(), GenError>)
        requires
            old(self).inv(),
            !old(self).context.is_const,
            loops_in(old(self).m, old(self).loops@),
        ensures
            final(self).advanced(*old(self)),
            res is Ok && stmt is RetStmt ==> final(self).at_terminated_block(),
            res is Ok ==> (*stmt matches Stmt::AssignStmt(lval, _) ==> final(self).stores_to(lval, old(self).scope.levels())),
            old(self).can_insert() && (*stmt matches Stmt::AssignStmt(lval, e) && assign_sure(
                lval,
                e,
                old(self).m,
                old(self).scope.levels(),
            )) ==> res is Ok && final(self).can_insert(),
            old(self).can_insert() && (*stmt matches Stmt::ExpStmt(Some(e)) && add_kind(
                e.item,
                old(self).m,
                old(self).scope.levels(),
            ) != 0) ==> res is Ok && final(self).can_insert(),
            *stmt matches Stmt::ExpStmt(None) ==> res is Ok && *final(self) == *old(self),
            old(self).can_insert() && (*stmt matches Stmt::RetStmt(e) && ret_sure(
                e,
                old(self).m,
                old(self).scope.levels(),
                old(self).context.curr_func,
            )) ==> res is Ok,
            res is Ok && (stmt is IfStmt || stmt is WhileStmt) ==> final(self).at_block_from(old(self).m.nv()),
            (stmt is BreakStmt || stmt is ContStmt) && old(self).loops@.len() == 0 ==> res == Err::<(), GenError>(
                GenError::NoEnclosingLoop,
            ),
            (stmt is BreakStmt || stmt is ContStmt) && old(self).loops@.len() > 0 ==> {
                &&& res is Ok <==> old(self).buidler.bb is Some
                &&& res is Ok ==> final(self).at_terminated_block()
                &&& res is Ok && old(self).can_insert() ==> final(self).ends_with(
                    OpID::Br,
                    seq![jump_target(*stmt, old(self).loops@).0],
                )
                &&& final(self).buidler == old(self).buidler
            },
        decreases stmt, 2int,
    {
        match stmt {
            Stmt::AssignStmt(lval, exp) => self.visit_assign::<A>(lval, exp),
            Stmt::ExpStmt(e) => match e {
                Some(e) => {
                    self.visit_exp_as_value::<A>(e)?;
                    Ok(())
                },
                None => {
                    proof {
                        lemma_grows_refl(self.m);
                    }
                    Ok(())
                },
            },
            Stmt::BlockStmt(b) => self.visit_block::<A>(b),
            Stmt::IfStmt(..) => self.visit_if::<A>(stmt),
            Stmt::WhileStmt(..) => self.visit_while::<A>(stmt),
            Stmt::BreakStmt | Stmt::ContStmt => {
                proof {
                    lemma_grows_refl(self.m);
                }
                let n = self.loops.len();
                if n == 0 {
                    return Err(GenError::NoEnclosingLoop);
                }
                let (cond_bb, end_bb) = self.loops[n - 1];
                let target = if matches!(stmt, Stmt::BreakStmt) {
                    end_bb
                } else {
                    cond_bb
                };
                assert(target == jump_target(*stmt, self.loops@));
                self.close_with_br(target)
            },
            Stmt::RetStmt(e) => self.visit_ret::<A>(e),
        }
    }

    /// A block: a new innermost scope level for its items, which are
    /// generated in order until the current block ends (what follows a
    /// return or branch is dropped); the level is left again.
    pub fn visit_block<A: FloatArith>(&mut self, block: &Block) -> (res: Result<(), GenError>)
        requires
            old(self).inv(),
            !old(self).context.is_const,
            loops_in(old(self).m, old(self).loops@),
        ensures
            final(self).advanced(*old(self)),
            block.items@.len() == 0 ==> res is Ok,
            block.items@.len() > 0 && old(self).buidler.bb is None ==> res == Err::<(), GenError>(
                GenError::NoInsertPoint,
            ),
            old(self).at_terminated_block() ==> res is Ok && final(self).m == old(self).m,
        decreases block, 0int,
    {
        let ghost s0 = *self;
        self.scope.enter();
        proof {
            lemma_scope_below_push(s0.scope.levels(), self.m.nv());
            lemma_grows_refl(self.m);
            assert(self.scope.levels().drop_last() == s0.scope.levels());
        }
        let n = block.items.len();
        let mut k: usize = 0;
        let mut res: Result<(), GenError> = Ok(());
        while k < n
            invariant_except_break
                k == 0 ==> self.m == s0.m && self.buidler == s0.buidler && res is Ok,
            invariant
                self.inv(),
                !self.context.is_const,
                grows(self.m, s0.m),
                self.context == s0.context,
                s0 == *old(self),
                self.scope.levels().len() == s0.scope.levels().len() + 1,
                self.scope.levels().drop_last() == s0.scope.levels(),
                self.loops@ == s0.loops@,
                loops_in(self.m, self.loops@),
                blocks_kept_but(self.m, s0.m, s0.buidler.bb),
                self.buidler.bb == s0.buidler.bb || (self.buidler.bb matches Some(b) && b.0 >= s0.m.nv()),
                n == block.items@.len(),
                0 <= k <= n,
                k > 0 ==> s0.can_insert(),
            ensures
                n == 0 ==> res is Ok,
                n > 0 && s0.buidler.bb is None ==> res == Err::<(), GenError>(GenError::NoInsertPoint),
                s0.at_terminated_block() ==> res is Ok && self.m == s0.m,
            decreases n - k,
        {
            if self.buidler.bb.is_none() {
                res = Err(GenError::NoInsertPoint);
                break;
            }
            let b = self.buidler.bb.unwrap();
            if b.is_terminated(&self.m) {
                break;
            }
            let ghost sk = *self;
            let r = match &block.items[k] {
                BlockItem::Decl(Decl::ConstDecl(c)) => self.visit_const_decl::<A>(c),
                BlockItem::Decl(Decl::VarDecl(v)) => self.visit_var_decl::<A>(v),
                BlockItem::Stmt(st) => {
                    proof {
                        assert(decreases_to!(block => block.items));
                        assert(decreases_to!(block.items => block.items@));
                        assert(decreases_to!(block.items@ => block.items@[k as int]));
                    }
                    self.visit_stmt::<A>(st)
                },
            };
            proof {
                lemma_grows_trans(self.m, sk.m, s0.m);
                lemma_loops_grow(self.m, sk.m, self.loops@);
                lemma_blocks_kept_trans(self.m, sk.m, s0.m, sk.buidler.bb, s0.buidler.bb);
            }
            if r.is_err() {
                res = r;
                break;
            }
            k = k + 1;
        }
        self.scope.exit();
        proof {
            lemma_scope_below_drop(self.scope.levels().push(Map::empty()), self.m.nv());
        }
        res
    }
}

} // verus!
