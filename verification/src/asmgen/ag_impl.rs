//! RISC-V 64 code generation from the IR: frame layout, loads and stores
//! of values between registers and their frame slots, one generator per
//! instruction kind, and the driver over the whole module.

use vstd::prelude::*;
use crate::asmgen::ag::{ins, lines, string_views, AsmGen, AsmInst, AsmLine};
use crate::asmgen::codegen_util::{align, align_spec, is_imm_12, IMM_12_MAX, IMM_12_MIN, PROLOGUE_OFFSET_BASE};
use crate::asmgen::register::{freg_name, reg_name, t_reg_id, FReg, Reg};
use crate::ir::module::Module;
use crate::ir::type_::{ptr_elem_spec, TypeData};
use crate::ir::user::{ConstantClass, OpID};
use crate::ir::value::{InstPtr, ValueClass, ValuePtr};
use crate::strutil::{decimal, int_decimal, int_string, push_str, push_string, string_of, usize_decimal, usize_string};

verus! {

broadcast use vstd::std_specs::hash::group_hash_axioms;

/// Bytes taken by a value of the type at index `t`: 1 for `i1`, 4 for `i32`
/// and `float`, 8 for pointers, element size times count for arrays.
pub open spec fn type_size(m: Module, t: nat) -> nat
    decreases t,
{
    if t >= m.nt() {
        0
    } else {
        match m.tdata_of(t as int) {
            TypeData::BoolType => 1,
            TypeData::IntegerType => 4,
            TypeData::FloatType => 4,
            TypeData::PointerType(_) => 8,
            TypeData::ArrayType(a) => if a.item < t {
                type_size(m, a.item as nat) * (a.elem_count as nat)
            } else {
                0
            },
            _ => 0,
        }
    }
}

/// The type at index `t` has a size (it is `i1`, `i32`, `float`, a pointer
/// or an array of such), and every size on the way fits a `usize`.
pub open spec fn sized(m: Module, t: nat) -> bool
    decreases t,
{
    if t >= m.nt() {
        false
    } else {
        match m.tdata_of(t as int) {
            TypeData::BoolType | TypeData::IntegerType | TypeData::FloatType | TypeData::PointerType(_) => true,
            TypeData::ArrayType(a) => a.item < t && sized(m, a.item as nat) && type_size(m, t) <= usize::MAX,
            _ => false,
        }
    }
}

/// Whether `x` fits a signed 12-bit immediate.
pub open spec fn imm12(x: int) -> bool {
    IMM_12_MIN <= x <= IMM_12_MAX
}

/// Argument list of two texts.
pub open spec fn a2(a: Seq<char>, b: Seq<char>) -> Seq<Seq<char>> {
    seq![a, b]
}

/// Argument list of three texts.
pub open spec fn a3(a: Seq<char>, b: Seq<char>, c: Seq<char>) -> Seq<Seq<char>> {
    seq![a, b, c]
}

fn args2(a: String, b: String) -> (r: Vec<String>)
    ensures
        string_views(r@) == a2(a@, b@),
{
    let r = vec![a, b];
    assert(string_views(r@) =~= a2(a@, b@));
    r
}

fn int_arith_string(o: OpID) -> (r: String)
    ensures
        r@ == int_arith_text(o),
{
    match o {
        OpID::Add => string_of("add t2, t0, t1"),
        OpID::Sub => string_of("sub t2, t0, t1"),
        OpID::Mul => string_of("mul t2, t0, t1"),
        _ => string_of("div t2, t0, t1"),
    }
}

fn float_arith_string(o: OpID) -> (r: String)
    ensures
        r@ == float_arith_text(o),
{
    match o {
        OpID::FAdd => string_of("fadd.s ft2, ft0, ft1"),
        OpID::FSub => string_of("fsub.s ft2, ft0, ft1"),
        OpID::FMul => string_of("fmul.s ft2, ft0, ft1"),
        _ => string_of("fdiv.s ft2, ft0, ft1"),
    }
}

fn op_comment_string(o: OpID) -> (r: String)
    ensures
        r@ == op_comment(o),
{
    match o {
        OpID::Ret => string_of("ret"),
        OpID::Br => string_of("br"),
        OpID::Add => string_of("add"),
        OpID::Sub => string_of("sub"),
        OpID::Mul => string_of("mul"),
        OpID::SDiv => string_of("sdiv"),
        OpID::FAdd => string_of("fadd"),
        OpID::FSub => string_of("fsub"),
        OpID::FMul => string_of("fmul"),
        OpID::FDiv => string_of("fdiv"),
        OpID::Alloca => string_of("alloca"),
        OpID::Load => string_of("load"),
        OpID::Store => string_of("store"),
        OpID::Ge => string_of("ge"),
        OpID::Gt => string_of("gt"),
        OpID::Le => string_of("le"),
        OpID::Lt => string_of("lt"),
        OpID::Eq => string_of("eq"),
        OpID::Ne => string_of("ne"),
        OpID::FGe => string_of("fge"),
        OpID::FGt => string_of("fgt"),
        OpID::FLe => string_of("fle"),
        OpID::FLt => string_of("flt"),
        OpID::FEq => string_of("feq"),
        OpID::FNe => string_of("fne"),
        OpID::Phi => string_of("phi"),
        OpID::Call => string_of("call"),
        OpID::GetElementPtr => string_of("getelementptr"),
        OpID::ZExt => string_of("zext"),
        OpID::FPToSI => string_of("fptosi"),
        OpID::SIToFP => string_of("sitofp"),
    }
}

fn args1(a: String) -> (r: Vec<String>)
    ensures
        string_views(r@) == seq![a@],
{
    let r = vec![a];
    assert(string_views(r@) =~= seq![a@]);
    r
}

fn args3(a: String, b: String, c: String) -> (r: Vec<String>)
    ensures
        string_views(r@) == a3(a@, b@, c@),
{
    let r = vec![a, b, c];
    assert(string_views(r@) =~= a3(a@, b@, c@));
    r
}

/// The upper 20 bits `lui` loads for `val`: bits 12 and up, one more when
/// the lower 12 bits are negative as a signed immediate, kept to 20 bits.
#[verifier::opaque]
pub open spec fn lli32_hi(val: i32) -> int {
    if (val & 0xFFF) & 0x800 != 0 {
        (((((val >> 12) & 0xFFFFF) + 1) as i32) & 0xFFFFFi32) as int
    } else {
        ((val >> 12) & 0xFFFFF) as int
    }
}

/// The signed 12-bit immediate `addiw` adds for `val`.
#[verifier::opaque]
pub open spec fn lli32_lo(val: i32) -> int {
    if (val & 0xFFF) & 0x800 != 0 {
        ((val & 0xFFF) | !0xFFFi32) as int
    } else {
        (val & 0xFFF) as int
    }
}

/// `lui` of the upper part and, if the lower part is not zero, `addiw` of
/// the lower part into register `r`.
#[verifier::opaque]
pub open spec fn lli32_lines(val: i32, r: nat) -> Seq<AsmLine> {
    let first = seq![ins("lui"@, a2(reg_name(r), int_decimal(lli32_hi(val))))];
    if lli32_lo(val) != 0 {
        first.push(ins("addiw"@, a3(reg_name(r), reg_name(r), int_decimal(lli32_lo(val)))))
    } else {
        first
    }
}

/// The lines of `lli32_lines` load `val`: `lui` takes a 20-bit immediate
/// and `addiw` a signed 12-bit one, and the low 32 bits of `hi << 12`
/// plus `lo` are those of `val`. On RV64, `lui` and `addiw` both
/// sign-extend their 32-bit result, so the register ends holding `val`.
pub proof fn lemma_lli32_loads(val: i32)
    ensures
        0 <= lli32_hi(val) <= 0xFFFFF,
        -2048 <= lli32_lo(val) <= 2047,
        (lli32_hi(val) * 4096 + lli32_lo(val)) as u32 == val as u32,
{
    reveal(lli32_hi);
    reveal(lli32_lo);
    if (val & 0xFFF) & 0x800 != 0 {
        assert({
            let hi = ((((val >> 12) & 0xFFFFF) + 1) as i32) & 0xFFFFFi32;
            let lo = (val & 0xFFF) | !0xFFFi32;
            &&& 0 <= hi <= 0xFFFFF
            &&& -2048 <= lo <= 2047
            &&& (hi * 4096 + lo) as u32 == val as u32
        }) by (bit_vector)
            requires
                (val & 0xFFF) & 0x800 != 0,
        ;
    } else {
        assert({
            let hi = (val >> 12) & 0xFFFFF;
            let lo = val & 0xFFF;
            &&& 0 <= hi <= 0xFFFFF
            &&& -2048 <= lo <= 2047
            &&& (hi * 4096 + lo) as u32 == val as u32
        }) by (bit_vector)
            requires
                (val & 0xFFF) & 0x800 == 0,
        ;
    }
}

/// Loading a 64-bit value: its low 32 bits as above, and, when it does not
/// fit 32 bits and its upper half is neither 0 nor -1, the upper half via
/// `t5` shifted left 32 and added.
pub open spec fn lli64_lines(val: i64, r: nat) -> Seq<AsmLine> {
    let low = lli32_lines(val as i32, r);
    if val > i32::MAX || val < i32::MIN {
        let high_32 = (val >> 32) as i32;
        if high_32 != 0 && high_32 != -1 {
            let t5 = reg_name(t_reg_id(5));
            low + lli32_lines(high_32, t_reg_id(5)) + seq![
                ins("slli"@, a3(t5, t5, "32"@)),
                ins("add"@, a3(reg_name(r), reg_name(r), t5)),
            ]
        } else {
            low
        }
    } else {
        low
    }
}

/// The mnemonic moving a value of the type at index `t` between memory and
/// an integer register: byte for `i1`, word for `i32`, doubleword otherwise.
pub open spec fn width_op(m: Module, t: usize, b: Seq<char>, w: Seq<char>, d: Seq<char>) -> Seq<char> {
    if m.tdata_of(t as int) is BoolType {
        b
    } else if m.tdata_of(t as int) is IntegerType {
        w
    } else {
        d
    }
}

/// Value `v` and its type are in range.
pub open spec fn typed(m: Module, v: nat) -> bool {
    v < m.nv() && m.type_of(v as int) < m.nt()
}

/// The frame offset recorded for value `v` (keyed by its id, `v + 1`).
pub open spec fn slot(offs: Map<usize, i32>, v: nat) -> i32 {
    offs[(v + 1) as usize]
}

/// Value `v` has a frame offset.
pub open spec fn has_slot(offs: Map<usize, i32>, v: nat) -> bool {
    offs.contains_key((v + 1) as usize)
}

/// `off(s0)` as an address operand.
pub open spec fn s0_addr(off: i32) -> Seq<char> {
    int_decimal(off as int) + "(s0)"@
}

/// `0(r)` as an address operand.
pub open spec fn reg_addr(r: Seq<char>) -> Seq<char> {
    "0("@ + r + ")"@
}

/// Loading a value of type `t` from frame offset `off` into register `r`:
/// directly when the offset fits 12 bits, else through `r` as address.
pub open spec fn stack_load_lines(m: Module, t: usize, off: i32, r: nat) -> Seq<AsmLine> {
    let op = width_op(m, t, "lb"@, "lw"@, "ld"@);
    if imm12(off as int) {
        seq![ins(op, a2(reg_name(r), s0_addr(off)))]
    } else {
        lli64_lines(off as i64, r) + seq![
            ins("add"@, a3(reg_name(r), "s0"@, reg_name(r))),
            ins(op, a2(reg_name(r), reg_addr(reg_name(r)))),
        ]
    }
}

/// Storing register `r` holding a value of type `t` to frame offset `off`:
/// directly when the offset fits 12 bits, else through `t6` as address.
pub open spec fn stack_store_lines(m: Module, t: usize, off: i32, r: nat) -> Seq<AsmLine> {
    let op = width_op(m, t, "sb"@, "sw"@, "sd"@);
    if imm12(off as int) {
        seq![ins(op, a2(reg_name(r), s0_addr(off)))]
    } else {
        let t6 = reg_name(t_reg_id(6));
        lli64_lines(off as i64, t_reg_id(6)) + seq![
            ins("add"@, a3(t6, "s0"@, t6)),
            ins(op, a2(reg_name(r), reg_addr(t6))),
        ]
    }
}

/// Loading value `v` into integer register `r`: an integer constant as an
/// immediate, a global by address, anything else from its frame slot.
pub open spec fn load_greg_lines(m: Module, offs: Map<usize, i32>, v: nat, r: nat) -> Seq<AsmLine> {
    match m.class_of(v as int) {
        ValueClass::Constant(ConstantClass::Int(x)) => if imm12(x as int) {
            seq![ins("addi"@, a3(reg_name(r), "zero"@, int_decimal(x as int)))]
        } else {
            lli32_lines(x, r)
        },
        ValueClass::Constant(_) => Seq::empty(),
        ValueClass::GlobalVariable { .. } => seq![ins("la"@, a2(reg_name(r), m.values@[v as int].name@))],
        _ => stack_load_lines(m, m.type_of(v as int), slot(offs, v), r),
    }
}

/// Value `v` can be loaded into an integer register: it is an `i32`, `i1`
/// or pointer, and, unless a constant or a global, has a frame slot.
pub open spec fn greg_loadable(m: Module, offs: Map<usize, i32>, v: nat) -> bool {
    let t = m.tdata_of(m.type_of(v as int) as int);
    &&& typed(m, v)
    &&& (t is IntegerType || t is BoolType || t is PointerType)
    &&& (!(m.class_of(v as int) is Constant) && !(m.class_of(v as int) is GlobalVariable)) ==> has_slot(offs, v)
}

/// Loading value `v` into float register `fr` from its frame slot (a
/// constant other than a float gives nothing).
pub open spec fn load_freg_lines(m: Module, offs: Map<usize, i32>, v: nat, fr: nat) -> Seq<AsmLine> {
    if m.class_of(v as int) is Constant {
        Seq::empty()
    } else {
        seq![ins("flw"@, a3(freg_name(fr), "s0"@, int_decimal(slot(offs, v) as int)))]
    }
}

/// Value `v` can be loaded into a float register without a panic: it is a
/// `float`, not a float constant, and, unless a constant, has a frame slot
/// whose offset fits 12 bits.
pub open spec fn freg_loadable(m: Module, offs: Map<usize, i32>, v: nat) -> bool {
    &&& typed(m, v)
    &&& m.tdata_of(m.type_of(v as int) as int) is FloatType
    &&& !(m.class_of(v as int) matches ValueClass::Constant(ConstantClass::Float(_)))
    &&& !(m.class_of(v as int) is Constant) ==> has_slot(offs, v) && imm12(slot(offs, v) as int)
}

/// Storing float register `fr` to the frame slot of `v`.
pub open spec fn store_freg_lines(offs: Map<usize, i32>, v: nat, fr: nat) -> Seq<AsmLine> {
    seq![ins("fsw"@, a3(freg_name(fr), "s0"@, int_decimal(slot(offs, v) as int)))]
}

/// Offset and slot map while a frame is laid out.
pub type Layout = Option<(nat, Map<usize, i32>)>;

/// The offset after a slot of `size` bytes placed after `off` (rounded up
/// with `align`), if the slot can be placed: `size` is not zero and the
/// offset fits an `i32`.
pub open spec fn slot_step(off: nat, size: nat) -> Option<nat> {
    if size >= 1 && off + size + size <= usize::MAX && off + size <= i32::MAX {
        let o = align_spec((off + size) as usize, size as usize);
        if o <= i32::MAX {
            Some(o as nat)
        } else {
            None
        }
    } else {
        None
    }
}

/// Lays out value `x` of type `t` after `l`: a slot of the type's size,
/// whose negated offset is recorded under the value's id.
pub open spec fn value_slot(m: Module, x: usize, l: Layout) -> Layout {
    match l {
        None => None,
        Some((off, mp)) => {
            let t = m.type_of(x as int) as nat;
            if !sized(m, t) {
                None
            } else {
                match slot_step(off, type_size(m, t)) {
                    None => None,
                    Some(o) => Some((o, mp.insert((x + 1) as usize, (-(o as int)) as i32))),
                }
            }
        },
    }
}

/// Lays out the arguments `args` after `l`.
pub open spec fn arg_layout(m: Module, args: Seq<usize>, l: Layout) -> Layout
    decreases args.len(),
{
    if args.len() == 0 {
        l
    } else {
        value_slot(m, args.last(), arg_layout(m, args.drop_last(), l))
    }
}

/// Lays out instruction `x` after `l`: a slot for a non-void result, and
/// for an `alloca` the space of the allocated object.
pub open spec fn inst_step(m: Module, x: usize, l: Layout) -> Layout {
    let t = m.type_of(x as int);
    let after = if m.tdata_of(t as int) is VoidType {
        l
    } else {
        value_slot(m, x, l)
    };
    match after {
        None => None,
        Some((o, mp)) => if m.inst_op(x as int) == OpID::Alloca {
            match ptr_elem_spec(m.tdata_of(t as int)) {
                Some(e) => if sized(m, e as nat) && o + type_size(m, e as nat) <= i32::MAX {
                    Some((o + type_size(m, e as nat), mp))
                } else {
                    None
                },
                None => None,
            }
        } else {
            Some((o, mp))
        },
    }
}

/// Lays out the instructions `insts` after `l`.
pub open spec fn insts_layout(m: Module, insts: Seq<usize>, l: Layout) -> Layout
    decreases insts.len(),
{
    if insts.len() == 0 {
        l
    } else {
        inst_step(m, insts.last(), insts_layout(m, insts.drop_last(), l))
    }
}

/// Lays out the instructions of the blocks `bbs`, block by block.
pub open spec fn bbs_layout(m: Module, bbs: Seq<usize>, l: Layout) -> Layout
    decreases bbs.len(),
{
    if bbs.len() == 0 {
        l
    } else {
        insts_layout(m, m.bb_insts(bbs.last() as int), bbs_layout(m, bbs.drop_last(), l))
    }
}

/// The frame of function `f` laid out from the prologue's save area on,
/// with slot map `mp0` to start from: arguments first, then instruction
/// results, in order.
pub open spec fn frame_layout(m: Module, f: int, mp0: Map<usize, i32>) -> Layout {
    bbs_layout(m, m.func_bbs(f), arg_layout(m, m.func_args(f), Some((PROLOGUE_OFFSET_BASE as nat, mp0))))
}

pub proof fn lemma_arg_layout_none(m: Module, args: Seq<usize>)
    ensures
        arg_layout(m, args, None) is None,
    decreases args.len(),
{
    if args.len() > 0 {
        lemma_arg_layout_none(m, args.drop_last());
    }
}

pub proof fn lemma_insts_layout_none(m: Module, insts: Seq<usize>)
    ensures
        insts_layout(m, insts, None) is None,
    decreases insts.len(),
{
    if insts.len() > 0 {
        lemma_insts_layout_none(m, insts.drop_last());
    }
}

pub proof fn lemma_bbs_layout_none(m: Module, bbs: Seq<usize>)
    ensures
        bbs_layout(m, bbs, None) is None,
    decreases bbs.len(),
{
    if bbs.len() > 0 {
        lemma_bbs_layout_none(m, bbs.drop_last());
        lemma_insts_layout_none(m, m.bb_insts(bbs.last() as int));
    }
}

/// A layout that succeeds succeeded on every prefix.
pub proof fn lemma_arg_layout_prefix(m: Module, args: Seq<usize>, l: Layout, i: int)
    requires
        arg_layout(m, args, l) is Some,
        0 <= i <= args.len(),
    ensures
        arg_layout(m, args.take(i), l) is Some,
    decreases args.len(),
{
    if i < args.len() {
        assert(arg_layout(m, args.drop_last(), l) is Some);
        lemma_arg_layout_prefix(m, args.drop_last(), l, i);
        assert(args.drop_last().take(i) =~= args.take(i));
    } else {
        assert(args.take(i) =~= args);
    }
}

pub proof fn lemma_insts_layout_prefix(m: Module, insts: Seq<usize>, l: Layout, i: int)
    requires
        insts_layout(m, insts, l) is Some,
        0 <= i <= insts.len(),
    ensures
        insts_layout(m, insts.take(i), l) is Some,
    decreases insts.len(),
{
    if i < insts.len() {
        assert(insts_layout(m, insts.drop_last(), l) is Some);
        lemma_insts_layout_prefix(m, insts.drop_last(), l, i);
        assert(insts.drop_last().take(i) =~= insts.take(i));
    } else {
        assert(insts.take(i) =~= insts);
    }
}

pub proof fn lemma_bbs_layout_prefix(m: Module, bbs: Seq<usize>, l: Layout, i: int)
    requires
        bbs_layout(m, bbs, l) is Some,
        0 <= i <= bbs.len(),
    ensures
        bbs_layout(m, bbs.take(i), l) is Some,
    decreases bbs.len(),
{
    if i < bbs.len() {
        let prev = bbs_layout(m, bbs.drop_last(), l);
        if prev is None {
            lemma_insts_layout_none(m, m.bb_insts(bbs.last() as int));
        }
        lemma_bbs_layout_prefix(m, bbs.drop_last(), l, i);
        assert(bbs.drop_last().take(i) =~= bbs.take(i));
    } else {
        assert(bbs.take(i) =~= bbs);
    }
}

/// The label of block `b`: `.` + its function's name + `_` + its name.
pub open spec fn label_text(m: Module, b: int) -> Seq<char> {
    "."@ + m.values@[m.bb_parent(b) as int].name@ + "_"@ + m.values@[b].name@
}

/// `bb` is a block of the module.
pub open spec fn is_block(m: Module, bb: crate::ir::value::BasicBlockPtr) -> bool {
    labelable(m, bb.0 as nat)
}

/// Value `b` is a block whose function is in range.
pub open spec fn labelable(m: Module, b: nat) -> bool {
    b < m.nv() && m.class_of(b as int) is BasicBlock && m.bb_parent(b as int) < m.nv()
}

/// The label of block `bb`.
pub open spec fn block_label(m: Module, bb: crate::ir::value::BasicBlockPtr) -> Seq<char> {
    label_text(m, bb.0 as int)
}

/// Value `i` is an instruction.
pub open spec fn inst_ok(m: Module, i: usize) -> bool {
    i < m.nv() && m.class_of(i as int) is Inst
}

/// The opcode of instruction `i`.
pub open spec fn opcode(m: Module, i: usize) -> OpID {
    m.inst_op(i as int)
}

/// The `k`-th operand of instruction `i`, as a value index.
pub open spec fn op(m: Module, i: usize, k: int) -> nat {
    m.ops(i as int)[k] as nat
}

/// The type of value `v`.
pub open spec fn ty_of(m: Module, v: nat) -> TypeData {
    m.tdata_of(m.type_of(v as int) as int)
}

/// Loading value `v` into a float register if it is a `float`, else into
/// an integer register.
pub open spec fn load_any_lines(m: Module, offs: Map<usize, i32>, v: nat, r: nat, fr: nat) -> Seq<AsmLine> {
    if ty_of(m, v) is FloatType {
        load_freg_lines(m, offs, v, fr)
    } else {
        load_greg_lines(m, offs, v, r)
    }
}

/// `load_any_lines` does not panic.
pub open spec fn any_loadable(m: Module, offs: Map<usize, i32>, v: nat) -> bool {
    if ty_of(m, v) is FloatType {
        freg_loadable(m, offs, v)
    } else {
        greg_loadable(m, offs, v)
    }
}

/// A `ret`: its value (if any) into `fa0`/`a0`, else `a0` cleared, then a
/// jump to the function's exit label.
pub open spec fn ret_lines(m: Module, offs: Map<usize, i32>, f: nat, i: usize) -> Seq<AsmLine> {
    let val = if m.ops(i as int).len() != 0 {
        load_any_lines(m, offs, op(m, i, 0), 10, 10)
    } else {
        seq![AsmLine::Instruction("addi a0, zero, 0"@)]
    };
    val + seq![ins("j"@, seq![m.values@[f as int].name@ + "_exit"@])]
}

/// A `ret` can be generated.
pub open spec fn ret_ready(m: Module, offs: Map<usize, i32>, f: nat, i: usize) -> bool {
    &&& f < m.nv()
    &&& m.ops(i as int).len() != 0 ==> any_loadable(m, offs, op(m, i, 0))
}

/// A `br`: a conditional one tests `t0` with `bnez` and jumps on; a plain
/// one jumps.
pub open spec fn br_lines(m: Module, offs: Map<usize, i32>, i: usize) -> Seq<AsmLine> {
    if m.ops(i as int).len() == 3 {
        load_greg_lines(m, offs, op(m, i, 0), t_reg_id(0)) + seq![
            ins("bnez"@, a2("t0"@, label_text(m, op(m, i, 1) as int))),
            ins("j"@, seq![label_text(m, op(m, i, 2) as int)]),
        ]
    } else {
        seq![ins("j"@, seq![label_text(m, op(m, i, 0) as int)])]
    }
}

/// A `br` can be generated: its targets are blocks and a condition can be
/// loaded.
pub open spec fn br_ready(m: Module, offs: Map<usize, i32>, i: usize) -> bool {
    if m.ops(i as int).len() == 3 {
        &&& greg_loadable(m, offs, op(m, i, 0))
        &&& labelable(m, op(m, i, 1))
        &&& labelable(m, op(m, i, 2))
    } else {
        &&& m.ops(i as int).len() >= 1
        &&& labelable(m, op(m, i, 0))
    }
}

/// The instruction computing `t2` from `t0` and `t1` for an integer
/// arithmetic opcode.
pub open spec fn int_arith_text(o: OpID) -> Seq<char> {
    match o {
        OpID::Add => "add t2, t0, t1"@,
        OpID::Sub => "sub t2, t0, t1"@,
        OpID::Mul => "mul t2, t0, t1"@,
        _ => "div t2, t0, t1"@,
    }
}

/// The instruction computing `ft2` from `ft0` and `ft1` for a float
/// arithmetic opcode.
pub open spec fn float_arith_text(o: OpID) -> Seq<char> {
    match o {
        OpID::FAdd => "fadd.s ft2, ft0, ft1"@,
        OpID::FSub => "fsub.s ft2, ft0, ft1"@,
        OpID::FMul => "fmul.s ft2, ft0, ft1"@,
        _ => "fdiv.s ft2, ft0, ft1"@,
    }
}

/// Integer arithmetic: operands into `t0`, `t1`, result from `t2`.
pub open spec fn binary_lines(m: Module, offs: Map<usize, i32>, i: usize) -> Seq<AsmLine> {
    load_greg_lines(m, offs, op(m, i, 0), t_reg_id(0)) + load_greg_lines(m, offs, op(m, i, 1), t_reg_id(1)) + seq![
        AsmLine::Instruction(int_arith_text(m.inst_op(i as int))),
    ] + stack_store_lines(m, m.type_of(i as int), slot(offs, i as nat), t_reg_id(2))
}

/// Two integer operands and a result slot.
pub open spec fn binary_ready(m: Module, offs: Map<usize, i32>, i: usize) -> bool {
    &&& m.ops(i as int).len() >= 2
    &&& greg_loadable(m, offs, op(m, i, 0))
    &&& greg_loadable(m, offs, op(m, i, 1))
    &&& typed(m, i as nat)
    &&& has_slot(offs, i as nat)
}

/// Float arithmetic: operands into `ft0`, `ft1`, result from `ft2`.
pub open spec fn float_binary_lines(m: Module, offs: Map<usize, i32>, i: usize) -> Seq<AsmLine> {
    load_freg_lines(m, offs, op(m, i, 0), 0) + load_freg_lines(m, offs, op(m, i, 1), 1) + seq![
        AsmLine::Instruction(float_arith_text(m.inst_op(i as int))),
    ] + store_freg_lines(offs, i as nat, 2)
}

/// Two float operands and a result slot within 12 bits.
pub open spec fn float_binary_ready(m: Module, offs: Map<usize, i32>, i: usize) -> bool {
    &&& m.ops(i as int).len() >= 2
    &&& freg_loadable(m, offs, op(m, i, 0))
    &&& freg_loadable(m, offs, op(m, i, 1))
    &&& typed(m, i as nat)
    &&& has_slot(offs, i as nat)
    &&& imm12(slot(offs, i as nat) as int)
}

/// Zero extension: the operand through `t0`.
pub open spec fn zext_lines(m: Module, offs: Map<usize, i32>, i: usize) -> Seq<AsmLine> {
    load_greg_lines(m, offs, op(m, i, 0), t_reg_id(0)) + stack_store_lines(
        m,
        m.type_of(i as int),
        slot(offs, i as nat),
        t_reg_id(0),
    )
}

/// An integer operand and a result slot.
pub open spec fn unary_int_ready(m: Module, offs: Map<usize, i32>, i: usize) -> bool {
    &&& m.ops(i as int).len() >= 1
    &&& greg_loadable(m, offs, op(m, i, 0))
    &&& typed(m, i as nat)
    &&& has_slot(offs, i as nat)
}

/// Integer to float: `fmv.w.x` then `fcvt.s.w`, result from `ft1`.
pub open spec fn sitofp_lines(m: Module, offs: Map<usize, i32>, i: usize) -> Seq<AsmLine> {
    load_greg_lines(m, offs, op(m, i, 0), t_reg_id(0)) + seq![
        AsmLine::Instruction("fmv.w.x ft0, t0"@),
        AsmLine::Instruction("fcvt.s.w ft1, ft0"@),
    ] + store_freg_lines(offs, i as nat, 1)
}

/// Float to integer: `fcvt.w.s` (round to zero) then `fmv.x.w`, result from
/// `t0`.
pub open spec fn fptosi_lines(m: Module, offs: Map<usize, i32>, i: usize) -> Seq<AsmLine> {
    load_freg_lines(m, offs, op(m, i, 0), 0) + seq![
        AsmLine::Instruction("fcvt.w.s ft1, ft0, rtz"@),
        AsmLine::Instruction("fmv.x.w t0, ft1"@),
    ] + stack_store_lines(m, m.type_of(i as int), slot(offs, i as nat), t_reg_id(0))
}

/// A load: the address into `t0`, the value through `ft0` or `t0`.
pub open spec fn load_lines(m: Module, offs: Map<usize, i32>, i: usize) -> Seq<AsmLine> {
    let addr = load_greg_lines(m, offs, op(m, i, 0), t_reg_id(0));
    if m.tdata_of(m.type_of(i as int) as int) is FloatType {
        addr + seq![ins("flw"@, a2("ft0"@, "0(t0)"@))] + store_freg_lines(offs, i as nat, 0)
    } else {
        addr + seq![ins(width_op(m, m.type_of(i as int), "lb"@, "lw"@, "ld"@), a2("t0"@, "0(t0)"@))]
            + stack_store_lines(m, m.type_of(i as int), slot(offs, i as nat), t_reg_id(0))
    }
}

/// A load can be generated.
pub open spec fn load_ready(m: Module, offs: Map<usize, i32>, i: usize) -> bool {
    &&& m.ops(i as int).len() >= 1
    &&& greg_loadable(m, offs, op(m, i, 0))
    &&& typed(m, i as nat)
    &&& has_slot(offs, i as nat)
    &&& m.tdata_of(m.type_of(i as int) as int) is FloatType ==> imm12(slot(offs, i as nat) as int)
}

/// A store: the address into `t0`, the value through `ft1` or `t1`, stored
/// by the width of its type (nothing is stored for other types).
pub open spec fn store_lines(m: Module, offs: Map<usize, i32>, i: usize) -> Seq<AsmLine> {
    let v = op(m, i, 0);
    let t = ty_of(m, v);
    let addr = load_greg_lines(m, offs, op(m, i, 1), t_reg_id(0));
    if t is FloatType {
        addr + load_freg_lines(m, offs, v, 1) + seq![ins("fst.s"@, a3("ft1"@, "t0"@, "0"@))]
    } else if t is IntegerType {
        addr + load_greg_lines(m, offs, v, t_reg_id(1)) + seq![ins("sw"@, a2("t1"@, "0(t0)"@))]
    } else if t is BoolType {
        addr + load_greg_lines(m, offs, v, t_reg_id(1)) + seq![ins("sb"@, a2("t1"@, "0(t0)"@))]
    } else if t is PointerType {
        addr + load_greg_lines(m, offs, v, t_reg_id(1)) + seq![ins("sd"@, a2("t1"@, "0(t0)"@))]
    } else {
        addr
    }
}

/// A store can be generated.
pub open spec fn store_ready(m: Module, offs: Map<usize, i32>, i: usize) -> bool {
    &&& m.ops(i as int).len() >= 2
    &&& greg_loadable(m, offs, op(m, i, 1))
    &&& typed(m, op(m, i, 0))
    &&& (ty_of(m, op(m, i, 0)) is FloatType ==> freg_loadable(m, offs, op(m, i, 0)))
    &&& (ty_of(m, op(m, i, 0)) is IntegerType || ty_of(m, op(m, i, 0)) is BoolType || ty_of(m, op(m, i, 0)) is PointerType)
        ==> greg_loadable(m, offs, op(m, i, 0))
}

/// The size of the object an `alloca` allocates.
pub open spec fn alloca_size(m: Module, i: usize) -> nat {
    type_size(m, ptr_elem_spec(m.tdata_of(m.type_of(i as int) as int)).unwrap() as nat)
}

/// An `alloca`: the object's address (below the result slot) into `t0`,
/// stored to the result slot.
pub open spec fn alloca_lines(m: Module, offs: Map<usize, i32>, i: usize) -> Seq<AsmLine> {
    let s = slot(offs, i as nat) - alloca_size(m, i);
    let addr = if imm12(s) {
        seq![ins("addi"@, a3("t0"@, "s0"@, int_decimal(s)))]
    } else {
        lli32_lines(s as i32, t_reg_id(1)) + seq![ins("add"@, a3("t0"@, "s0"@, "t1"@))]
    };
    addr + stack_store_lines(m, m.type_of(i as int), slot(offs, i as nat), t_reg_id(0))
}

/// An `alloca` can be generated: its type points to a sized type whose
/// size, taken from the result slot's offset, stays within `i32`.
pub open spec fn alloca_ready(m: Module, offs: Map<usize, i32>, i: usize) -> bool {
    &&& typed(m, i as nat)
    &&& has_slot(offs, i as nat)
    &&& ptr_elem_spec(m.tdata_of(m.type_of(i as int) as int)) is Some
    &&& sized(m, ptr_elem_spec(m.tdata_of(m.type_of(i as int) as int)).unwrap() as nat)
    &&& alloca_size(m, i) <= i32::MAX
    &&& slot(offs, i as nat) - alloca_size(m, i) >= i32::MIN
}

/// The instructions setting `t2` to an integer comparison of `t0` with `t1`.
pub open spec fn int_compare_text(o: OpID) -> Seq<AsmLine> {
    match o {
        OpID::Ge => seq![AsmLine::Instruction("slt t2, t0, t1"@), AsmLine::Instruction("xori t2, t2, 1"@)],
        OpID::Gt => seq![AsmLine::Instruction("slt t2, t1, t0"@)],
        OpID::Le => seq![AsmLine::Instruction("slt t2, t1, t0"@), AsmLine::Instruction("xori t2, t2, 1"@)],
        OpID::Lt => seq![AsmLine::Instruction("slt t2, t0, t1"@)],
        OpID::Eq => seq![AsmLine::Instruction("xor t2, t0, t1"@), AsmLine::Instruction("sltiu t2, t2, 1"@)],
        _ => seq![AsmLine::Instruction("xor t2, t0, t1"@), AsmLine::Instruction("sltu t2, zero, t2"@)],
    }
}

/// The instructions setting `t2` to a float comparison of `ft0` with `ft1`.
pub open spec fn float_compare_text(o: OpID) -> Seq<AsmLine> {
    match o {
        OpID::FGe => seq![AsmLine::Instruction("fle.s t2, ft1, ft0"@)],
        OpID::FGt => seq![AsmLine::Instruction("flt.s t2, ft1, ft0"@)],
        OpID::FLe => seq![AsmLine::Instruction("fle.s t2, ft0, ft1"@)],
        OpID::FLt => seq![AsmLine::Instruction("flt.s t2, ft0, ft1"@)],
        OpID::FEq => seq![AsmLine::Instruction("feq.s t2, ft0, ft1"@)],
        _ => seq![AsmLine::Instruction("feq.s t2, ft0, ft1"@), AsmLine::Instruction("xori t2, t2, 1"@)],
    }
}

/// An integer comparison: operands into `t0`, `t1`, result from `t2`.
pub open spec fn int_compare_lines(m: Module, offs: Map<usize, i32>, i: usize) -> Seq<AsmLine> {
    load_greg_lines(m, offs, op(m, i, 0), t_reg_id(0)) + load_greg_lines(m, offs, op(m, i, 1), t_reg_id(1))
        + int_compare_text(m.inst_op(i as int)) + stack_store_lines(
        m,
        m.type_of(i as int),
        slot(offs, i as nat),
        t_reg_id(2),
    )
}

/// A float comparison: operands into `ft0`, `ft1`, result from `t2`.
pub open spec fn float_compare_lines(m: Module, offs: Map<usize, i32>, i: usize) -> Seq<AsmLine> {
    load_freg_lines(m, offs, op(m, i, 0), 0) + load_freg_lines(m, offs, op(m, i, 1), 1) + float_compare_text(
        m.inst_op(i as int),
    ) + stack_store_lines(m, m.type_of(i as int), slot(offs, i as nat), t_reg_id(2))
}

/// Two float operands and a result slot.
pub open spec fn float_compare_ready(m: Module, offs: Map<usize, i32>, i: usize) -> bool {
    &&& m.ops(i as int).len() >= 2
    &&& freg_loadable(m, offs, op(m, i, 0))
    &&& freg_loadable(m, offs, op(m, i, 1))
    &&& typed(m, i as nat)
    &&& has_slot(offs, i as nat)
}

/// The type a GEP index steps into from type `cur`: a pointer's pointee,
/// an array's element, else `cur` itself.
pub open spec fn gep_next(m: Module, cur: nat) -> nat {
    match m.tdata_of(cur as int) {
        TypeData::PointerType(p) => p.item as nat,
        TypeData::ArrayType(a) => a.item as nat,
        _ => cur,
    }
}

/// The GEP indices from the `k`-th on, from type `cur`: each index into
/// `t1`, the stepped-into type's size into `t2`, their product added to
/// `t0`.
pub open spec fn gep_steps(m: Module, offs: Map<usize, i32>, ops: Seq<usize>, k: nat, cur: nat) -> Seq<AsmLine>
    decreases ops.len() - k,
{
    if k >= ops.len() {
        Seq::empty()
    } else {
        let next = gep_next(m, cur);
        load_greg_lines(m, offs, ops[k as int] as nat, t_reg_id(1)) + lli32_lines(type_size(m, next) as i32, t_reg_id(2))
            + seq![AsmLine::Instruction("mul t3, t1, t2"@), AsmLine::Instruction("add t0, t0, t3"@)]
            + gep_steps(m, offs, ops, k + 1, next)
    }
}

/// The GEP steps from the `k`-th index on can be generated.
pub open spec fn gep_steps_ok(m: Module, offs: Map<usize, i32>, ops: Seq<usize>, k: nat, cur: nat) -> bool
    decreases ops.len() - k,
{
    if k >= ops.len() {
        true
    } else {
        let next = gep_next(m, cur);
        &&& greg_loadable(m, offs, ops[k as int] as nat)
        &&& sized(m, next)
        &&& gep_steps_ok(m, offs, ops, k + 1, next)
    }
}

/// A GEP: the base address into `t0`, the scaled indices added, the result
/// stored.
pub open spec fn gep_lines(m: Module, offs: Map<usize, i32>, i: usize) -> Seq<AsmLine> {
    let ops = m.ops(i as int);
    load_greg_lines(m, offs, op(m, i, 0), t_reg_id(0)) + gep_steps(m, offs, ops, 1, m.type_of(op(m, i, 0) as int) as nat)
        + stack_store_lines(m, m.type_of(i as int), slot(offs, i as nat), t_reg_id(0))
}

/// A GEP can be generated.
pub open spec fn gep_ready(m: Module, offs: Map<usize, i32>, i: usize) -> bool {
    &&& m.ops(i as int).len() >= 1
    &&& greg_loadable(m, offs, op(m, i, 0))
    &&& typed(m, i as nat)
    &&& has_slot(offs, i as nat)
    &&& gep_steps_ok(m, offs, m.ops(i as int), 1, m.type_of(op(m, i, 0) as int) as nat)
}

/// A parameter passed in an integer register (pointer, `i32` or `i1`).
pub open spec fn greg_param(m: Module, p: usize) -> bool {
    let t = m.tdata_of(m.type_of(p as int) as int);
    t is PointerType || t is IntegerType || t is BoolType
}

/// A parameter passed in a float register.
pub open spec fn freg_param(m: Module, p: usize) -> bool {
    !greg_param(m, p) && m.tdata_of(m.type_of(p as int) as int) is FloatType
}

/// How many of `ps` go in integer registers.
pub open spec fn count_greg(m: Module, ps: Seq<usize>) -> nat
    decreases ps.len(),
{
    if ps.len() == 0 {
        0
    } else {
        count_greg(m, ps.drop_last()) + if greg_param(m, ps.last()) {
            1nat
        } else {
            0nat
        }
    }
}

/// How many of `ps` go in float registers.
pub open spec fn count_freg(m: Module, ps: Seq<usize>) -> nat
    decreases ps.len(),
{
    if ps.len() == 0 {
        0
    } else {
        count_freg(m, ps.drop_last()) + if freg_param(m, ps.last()) {
            1nat
        } else {
            0nat
        }
    }
}

pub proof fn lemma_count_prefix(m: Module, ps: Seq<usize>, k: int)
    requires
        0 <= k < ps.len(),
    ensures
        count_greg(m, ps.take(k)) + (if greg_param(m, ps[k]) {
            1nat
        } else {
            0nat
        }) <= count_greg(m, ps),
        count_freg(m, ps.take(k)) + (if freg_param(m, ps[k]) {
            1nat
        } else {
            0nat
        }) <= count_freg(m, ps),
    decreases ps.len(),
{
    if k < ps.len() - 1 {
        lemma_count_prefix(m, ps.drop_last(), k);
        assert(ps.drop_last().take(k) =~= ps.take(k));
    } else {
        assert(ps.drop_last() =~= ps.take(k));
    }
}

/// The call arguments for parameters `ps` from operands `ops` (shifted by
/// one past the callee): integer-like ones into `a0`.., floats into `fa0`...
pub open spec fn call_args_lines(m: Module, offs: Map<usize, i32>, ps: Seq<usize>, ops: Seq<usize>) -> Seq<AsmLine>
    decreases ps.len(),
{
    if ps.len() == 0 {
        Seq::empty()
    } else {
        let k = ps.len() - 1;
        let p = ps.last();
        let v = ops[k + 1] as nat;
        let prev = call_args_lines(m, offs, ps.drop_last(), ops);
        if greg_param(m, p) {
            prev + load_greg_lines(m, offs, v, 10 + count_greg(m, ps.drop_last()))
        } else if freg_param(m, p) {
            prev + load_freg_lines(m, offs, v, 10 + count_freg(m, ps.drop_last()))
        } else {
            prev
        }
    }
}

/// A call: the arguments into registers, `call`, the result (if any) from
/// `a0` or `fa0` into the result slot.
pub open spec fn call_lines(m: Module, offs: Map<usize, i32>, i: usize) -> Seq<AsmLine> {
    let f = op(m, i, 0);
    let rt = m.tdata_of(crate::ir::func_impl::func_ret_ty(m, f as int) as int);
    let res = if rt is IntegerType || rt is BoolType {
        stack_store_lines(m, m.type_of(i as int), slot(offs, i as nat), 10)
    } else if rt is FloatType {
        store_freg_lines(offs, i as nat, 10)
    } else {
        Seq::empty()
    };
    call_args_lines(m, offs, m.func_args(f as int), m.ops(i as int)) + seq![
        ins("call"@, seq![m.values@[f as int].name@]),
    ] + res
}

/// A call can be generated: the callee is a function, there is an operand
/// for each parameter, at most eight of each register kind are needed, each
/// argument can be loaded, and the result has its slot.
pub open spec fn call_ready(m: Module, offs: Map<usize, i32>, i: usize) -> bool {
    let f = op(m, i, 0);
    let ps = m.func_args(f as int);
    let rt = m.tdata_of(crate::ir::func_impl::func_ret_ty(m, f as int) as int);
    &&& m.ops(i as int).len() >= 1
    &&& typed(m, f) && m.class_of(f as int) is Function
    &&& crate::ir::func_impl::func_ret_ty(m, f as int) < m.nt()
    &&& m.ops(i as int).len() >= ps.len() + 1
    &&& count_greg(m, ps) <= 8
    &&& count_freg(m, ps) <= 8
    &&& forall|k: int|
        0 <= k < ps.len() ==> {
            &&& typed(m, #[trigger] ps[k] as nat)
            &&& greg_param(m, ps[k]) ==> greg_loadable(m, offs, m.ops(i as int)[k + 1] as nat)
            &&& freg_param(m, ps[k]) ==> freg_loadable(m, offs, m.ops(i as int)[k + 1] as nat)
        }
    &&& (rt is IntegerType || rt is BoolType || rt is FloatType) ==> typed(m, i as nat) && has_slot(offs, i as nat)
    &&& rt is FloatType ==> imm12(slot(offs, i as nat) as int)
}

/// Value `a` is a `float`.
pub open spec fn float_val(m: Module, a: usize) -> bool {
    m.tdata_of(m.type_of(a as int) as int) is FloatType
}

/// How many of `args` are floats.
pub open spec fn count_float(m: Module, args: Seq<usize>) -> nat
    decreases args.len(),
{
    if args.len() == 0 {
        0
    } else {
        count_float(m, args.drop_last()) + if float_val(m, args.last()) {
            1nat
        } else {
            0nat
        }
    }
}

/// How many of `args` are not floats.
pub open spec fn count_nonfloat(m: Module, args: Seq<usize>) -> nat
    decreases args.len(),
{
    if args.len() == 0 {
        0
    } else {
        count_nonfloat(m, args.drop_last()) + if float_val(m, args.last()) {
            0nat
        } else {
            1nat
        }
    }
}

pub proof fn lemma_count_float_prefix(m: Module, args: Seq<usize>, k: int)
    requires
        0 <= k < args.len(),
    ensures
        count_float(m, args.take(k)) + (if float_val(m, args[k]) {
            1nat
        } else {
            0nat
        }) <= count_float(m, args),
        count_nonfloat(m, args.take(k)) + (if float_val(m, args[k]) {
            0nat
        } else {
            1nat
        }) <= count_nonfloat(m, args),
    decreases args.len(),
{
    if k < args.len() - 1 {
        lemma_count_float_prefix(m, args.drop_last(), k);
        assert(args.drop_last().take(k) =~= args.take(k));
    } else {
        assert(args.drop_last() =~= args.take(k));
    }
}

/// The incoming arguments stored to their slots: floats from `fa0`..,
/// the others from `a0`...
pub open spec fn arg_store_lines(m: Module, offs: Map<usize, i32>, args: Seq<usize>) -> Seq<AsmLine>
    decreases args.len(),
{
    if args.len() == 0 {
        Seq::empty()
    } else {
        let a = args.last();
        let prev = arg_store_lines(m, offs, args.drop_last());
        if float_val(m, a) {
            prev + store_freg_lines(offs, a as nat, 10 + count_float(m, args.drop_last()))
        } else {
            prev + stack_store_lines(m, m.type_of(a as int), slot(offs, a as nat), 10 + count_nonfloat(m, args.drop_last()))
        }
    }
}

/// The prologue for a frame of `fs` bytes: `ra` and `s0` saved below `sp`,
/// `s0` set to the old `sp`, `sp` lowered (through `t0` when `fs` does not
/// fit 12 bits), then the arguments stored.
pub open spec fn prologue_lines(m: Module, offs: Map<usize, i32>, fs: usize, f: nat) -> Seq<AsmLine> {
    let frame = if imm12(-(fs as int)) {
        seq![
            AsmLine::Instruction("sd ra, -8(sp)"@),
            AsmLine::Instruction("sd s0, -16(sp)"@),
            AsmLine::Instruction("addi s0, sp, 0"@),
            AsmLine::Instruction("addi sp, sp, "@ + int_decimal(-(fs as int))),
        ]
    } else {
        lli64_lines(fs as i64, t_reg_id(0)) + seq![
            AsmLine::Instruction("sd ra, -8(sp)"@),
            AsmLine::Instruction("sd s0, -16(sp)"@),
            AsmLine::Instruction("sub sp, sp, t0"@),
            AsmLine::Instruction("add s0, sp, t0"@),
        ]
    };
    frame + arg_store_lines(m, offs, m.func_args(f as int))
}

/// The prologue can be generated: the frame size fits an `i32`, at most
/// eight arguments of each register kind, each with a slot (within 12 bits
/// for floats).
pub open spec fn prologue_ready(m: Module, offs: Map<usize, i32>, fs: usize, f: nat) -> bool {
    let args = m.func_args(f as int);
    &&& fs <= i32::MAX
    &&& f < m.nv()
    &&& count_float(m, args) <= 8
    &&& count_nonfloat(m, args) <= 8
    &&& forall|k: int|
        0 <= k < args.len() ==> {
            &&& typed(m, #[trigger] args[k] as nat)
            &&& has_slot(offs, args[k] as nat)
            &&& float_val(m, args[k]) ==> imm12(slot(offs, args[k] as nat) as int)
        }
}

/// The epilogue: the exit label, `ra` and `s0` restored, `sp` raised
/// (through `t0` when `fs` does not fit 12 bits), `ret`.
pub open spec fn epilogue_lines(m: Module, fs: usize, f: nat) -> Seq<AsmLine> {
    let body = if imm12(fs as int) {
        seq![
            AsmLine::Instruction("ld ra, -8(s0)"@),
            AsmLine::Instruction("ld s0, -16(s0)"@),
            AsmLine::Instruction("addi sp, sp, "@ + usize_decimal(fs)),
        ]
    } else {
        lli64_lines(fs as i64, t_reg_id(0)) + seq![
            AsmLine::Instruction("ld ra, -8(s0)"@),
            AsmLine::Instruction("ld s0, -16(s0)"@),
            AsmLine::Instruction("add sp, sp, t0"@),
        ]
    };
    seq![AsmLine::Label(m.values@[f as int].name@ + "_exit"@)] + body + seq![AsmLine::Instruction("ret"@)]
}

/// The first slot from `j` on (stepping by two) of a phi's operands `ops`
/// that holds block `b`.
pub open spec fn phi_pick(m: Module, ops: Seq<usize>, b: usize, j: nat) -> Option<nat>
    decreases ops.len() + 1 - j,
{
    if j >= ops.len() {
        None
    } else if m.class_of(ops[j as int] as int) is BasicBlock && ops[j as int] == b {
        Some(j)
    } else {
        phi_pick(m, ops, b, j + 2)
    }
}

/// The copy into phi `p` of its incoming value from block `b` (through
/// `fa0` or `a0`), if it has one.
pub open spec fn phi_copy_lines(m: Module, offs: Map<usize, i32>, b: usize, p: usize) -> Seq<AsmLine> {
    let ops = m.ops(p as int);
    match phi_pick(m, ops, b, 1) {
        None => Seq::empty(),
        Some(j) => {
            let l = ops[j - 1] as nat;
            if ty_of(m, l) is FloatType {
                load_freg_lines(m, offs, l, 10) + store_freg_lines(offs, p as nat, 10)
            } else {
                load_greg_lines(m, offs, l, 10) + stack_store_lines(m, m.type_of(p as int), slot(offs, p as nat), 10)
            }
        },
    }
}

/// The copy into phi `p` can be generated.
pub open spec fn phi_copy_ready(m: Module, offs: Map<usize, i32>, b: usize, p: usize) -> bool {
    let ops = m.ops(p as int);
    &&& forall|k: int| 0 <= k < ops.len() ==> #[trigger] ops[k] < m.nv()
    &&& match phi_pick(m, ops, b, 1) {
        None => true,
        Some(j) => {
            let l = ops[j - 1] as nat;
            &&& typed(m, p as nat)
            &&& has_slot(offs, p as nat)
            &&& typed(m, l)
            &&& if ty_of(m, l) is FloatType {
                freg_loadable(m, offs, l) && imm12(slot(offs, p as nat) as int)
            } else {
                greg_loadable(m, offs, l)
            }
        },
    }
}

/// The copies for the phis that lead the instructions `insts` from the
/// `k`-th on.
pub open spec fn block_phis_lines(m: Module, offs: Map<usize, i32>, b: usize, insts: Seq<usize>, k: nat) -> Seq<
    AsmLine,
>
    decreases insts.len() - k,
{
    if k >= insts.len() || m.inst_op(insts[k as int] as int) != OpID::Phi {
        Seq::empty()
    } else {
        phi_copy_lines(m, offs, b, insts[k as int]) + block_phis_lines(m, offs, b, insts, k + 1)
    }
}

/// The leading phis of `insts` from the `k`-th on can be copied.
pub open spec fn block_phis_ready(m: Module, offs: Map<usize, i32>, b: usize, insts: Seq<usize>, k: nat) -> bool
    decreases insts.len() - k,
{
    if k >= insts.len() {
        true
    } else {
        &&& inst_ok(m, insts[k as int])
        &&& m.inst_op(insts[k as int] as int) == OpID::Phi ==> phi_copy_ready(m, offs, b, insts[k as int])
            && block_phis_ready(m, offs, b, insts, k + 1)
    }
}

/// The phi copies into every successor `succs` of block `b`.
pub open spec fn succ_copies(m: Module, offs: Map<usize, i32>, b: usize, succs: Seq<usize>) -> Seq<AsmLine>
    decreases succs.len(),
{
    if succs.len() == 0 {
        Seq::empty()
    } else {
        succ_copies(m, offs, b, succs.drop_last()) + block_phis_lines(m, offs, b, m.bb_insts(succs.last() as int), 0)
    }
}

/// The phi copies of block `b` can be generated.
pub open spec fn copy_ready(m: Module, offs: Map<usize, i32>, b: usize) -> bool {
    let succs = m.bb_succs(b as int);
    &&& b < m.nv()
    &&& forall|k: int|
        0 <= k < succs.len() ==> {
            &&& #[trigger] succs[k] < m.nv()
            &&& block_phis_ready(m, offs, b, m.bb_insts(succs[k] as int), 0)
        }
}

/// The name of an opcode in the comment before its code.
pub open spec fn op_comment(o: OpID) -> Seq<char> {
    match o {
        OpID::Ret => "ret"@,
        OpID::Br => "br"@,
        OpID::Add => "add"@,
        OpID::Sub => "sub"@,
        OpID::Mul => "mul"@,
        OpID::SDiv => "sdiv"@,
        OpID::FAdd => "fadd"@,
        OpID::FSub => "fsub"@,
        OpID::FMul => "fmul"@,
        OpID::FDiv => "fdiv"@,
        OpID::Alloca => "alloca"@,
        OpID::Load => "load"@,
        OpID::Store => "store"@,
        OpID::Ge => "ge"@,
        OpID::Gt => "gt"@,
        OpID::Le => "le"@,
        OpID::Lt => "lt"@,
        OpID::Eq => "eq"@,
        OpID::Ne => "ne"@,
        OpID::FGe => "fge"@,
        OpID::FGt => "fgt"@,
        OpID::FLe => "fle"@,
        OpID::FLt => "flt"@,
        OpID::FEq => "feq"@,
        OpID::FNe => "fne"@,
        OpID::Phi => "phi"@,
        OpID::Call => "call"@,
        OpID::GetElementPtr => "getelementptr"@,
        OpID::ZExt => "zext"@,
        OpID::FPToSI => "fptosi"@,
        OpID::SIToFP => "sitofp"@,
    }
}

/// The code of instruction `i` of block `b` of function `f` (a branch is
/// preceded by the phi copies into the block's successors; a phi has none).
pub open spec fn inst_body_lines(m: Module, offs: Map<usize, i32>, f: usize, b: usize, i: usize) -> Seq<AsmLine> {
    match m.inst_op(i as int) {
        OpID::Ret => ret_lines(m, offs, f as nat, i),
        OpID::Br => succ_copies(m, offs, b, m.bb_succs(b as int)) + br_lines(m, offs, i),
        OpID::Add | OpID::Sub | OpID::Mul | OpID::SDiv => binary_lines(m, offs, i),
        OpID::FAdd | OpID::FSub | OpID::FMul | OpID::FDiv => float_binary_lines(m, offs, i),
        OpID::Alloca => alloca_lines(m, offs, i),
        OpID::Load => load_lines(m, offs, i),
        OpID::Store => store_lines(m, offs, i),
        OpID::Ge | OpID::Gt | OpID::Le | OpID::Lt | OpID::Eq | OpID::Ne => int_compare_lines(m, offs, i),
        OpID::FGe | OpID::FGt | OpID::FLe | OpID::FLt | OpID::FEq | OpID::FNe => float_compare_lines(m, offs, i),
        OpID::Phi => Seq::empty(),
        OpID::Call => call_lines(m, offs, i),
        OpID::GetElementPtr => gep_lines(m, offs, i),
        OpID::ZExt => zext_lines(m, offs, i),
        OpID::FPToSI => fptosi_lines(m, offs, i),
        OpID::SIToFP => sitofp_lines(m, offs, i),
    }
}

/// The code of instruction `i` can be generated.
pub open spec fn inst_body_ready(m: Module, offs: Map<usize, i32>, f: usize, b: usize, i: usize) -> bool {
    &&& inst_ok(m, i)
    &&& match m.inst_op(i as int) {
        OpID::Ret => ret_ready(m, offs, f as nat, i),
        OpID::Br => copy_ready(m, offs, b) && br_ready(m, offs, i),
        OpID::Add | OpID::Sub | OpID::Mul | OpID::SDiv => binary_ready(m, offs, i),
        OpID::FAdd | OpID::FSub | OpID::FMul | OpID::FDiv => float_binary_ready(m, offs, i),
        OpID::Alloca => alloca_ready(m, offs, i),
        OpID::Load => load_ready(m, offs, i),
        OpID::Store => store_ready(m, offs, i),
        OpID::Ge | OpID::Gt | OpID::Le | OpID::Lt | OpID::Eq | OpID::Ne => binary_ready(m, offs, i),
        OpID::FGe | OpID::FGt | OpID::FLe | OpID::FLt | OpID::FEq | OpID::FNe => float_compare_ready(m, offs, i),
        OpID::Phi => true,
        OpID::Call => call_ready(m, offs, i),
        OpID::GetElementPtr => gep_ready(m, offs, i),
        OpID::ZExt => unary_int_ready(m, offs, i),
        OpID::FPToSI => m.ops(i as int).len() >= 1 && freg_loadable(m, offs, op(m, i, 0)) && typed(m, i as nat)
            && has_slot(offs, i as nat),
        OpID::SIToFP => unary_int_ready(m, offs, i) && imm12(slot(offs, i as nat) as int),
    }
}

/// The instructions `insts` of block `b`, each after a comment naming it.
pub open spec fn insts_code(m: Module, offs: Map<usize, i32>, f: usize, b: usize, insts: Seq<usize>) -> Seq<AsmLine>
    decreases insts.len(),
{
    if insts.len() == 0 {
        Seq::empty()
    } else {
        let i = insts.last();
        insts_code(m, offs, f, b, insts.drop_last()) + seq![AsmLine::Comment(op_comment(m.inst_op(i as int)))]
            + inst_body_lines(m, offs, f, b, i)
    }
}

/// The blocks `bbs` of function `f`, each after its label.
pub open spec fn blocks_code(m: Module, offs: Map<usize, i32>, f: usize, bbs: Seq<usize>) -> Seq<AsmLine>
    decreases bbs.len(),
{
    if bbs.len() == 0 {
        Seq::empty()
    } else {
        let b = bbs.last();
        blocks_code(m, offs, f, bbs.drop_last()) + seq![AsmLine::Label(label_text(m, b as int))] + insts_code(
            m,
            offs,
            f,
            b,
            m.bb_insts(b as int),
        )
    }
}

/// The frame size of function `f`: its laid-out frame rounded up to 16.
pub open spec fn frame_size_of(m: Module, f: usize) -> usize {
    align_spec(frame_layout(m, f as int, Map::empty()).unwrap().0 as usize, 16)
}

/// The frame offsets of function `f`.
pub open spec fn offsets_of(m: Module, f: usize) -> Map<usize, i32> {
    frame_layout(m, f as int, Map::empty()).unwrap().1
}

/// The code of a function with blocks: its symbol directives and label,
/// prologue, blocks and epilogue.
pub open spec fn func_code(m: Module, f: usize) -> Seq<AsmLine> {
    let name = m.values@[f as int].name@;
    let offs = offsets_of(m, f);
    let fs = frame_size_of(m, f);
    seq![
        AsmLine::Attribute(".globl "@ + name),
        AsmLine::Attribute(".type "@ + name + ", @function"@),
        AsmLine::Label(name),
    ] + prologue_lines(m, offs, fs, f as nat) + blocks_code(m, offs, f, m.func_bbs(f as int)) + epilogue_lines(
        m,
        fs,
        f as nat,
    )
}

/// The code of the functions `fs` that have blocks.
pub open spec fn funcs_code(m: Module, fs: Seq<usize>) -> Seq<AsmLine>
    decreases fs.len(),
{
    if fs.len() == 0 {
        Seq::empty()
    } else {
        let f = fs.last();
        let own = if m.func_bbs(f as int).len() == 0 {
            Seq::empty()
        } else {
            func_code(m, f)
        };
        funcs_code(m, fs.drop_last()) + own
    }
}

/// The space of a global: the size of the type its pointer type points to.
pub open spec fn gv_size(m: Module, g: usize) -> nat {
    type_size(m, ptr_elem_spec(m.tdata_of(m.type_of(g as int) as int)).unwrap() as nat)
}

/// The 32-bit word a global starts with, where its initial value is a
/// scalar constant: an integer, or the bit pattern of a float.
pub open spec fn gv_init_word(m: Module, g: usize) -> Option<int> {
    match m.class_of(g as int) {
        ValueClass::GlobalVariable { init_val: Some(c), .. } => match m.class_of(c as int) {
            ValueClass::Constant(ConstantClass::Int(v)) => Some(v as int),
            ValueClass::Constant(ConstantClass::Float(b)) => Some(b as int),
            _ => None,
        },
        _ => None,
    }
}

/// The initial word of global `g`, if it has a scalar one.
fn gv_init_word_of(m: &Module, g: usize) -> (r: Option<i64>)
    requires
        m.wf(),
        g < m.nv(),
    ensures
        r matches Some(w) ==> gv_init_word(*m, g) == Some(w as int),
        r is None ==> gv_init_word(*m, g) is None,
{
    proof {
        assert(crate::ir::module::value_below(m.values@[g as int], m.nt(), m.nv()));
    }
    match &m.values[g].class {
        ValueClass::GlobalVariable { init_val: Some(c), .. } => match &m.values[*c].class {
            ValueClass::Constant(ConstantClass::Int(v)) => Some(*v as i64),
            ValueClass::Constant(ConstantClass::Float(b)) => Some(*b as i64),
            _ => None,
        },
        _ => None,
    }
}

/// Global `g` goes to the data section: it has a scalar initial word.
pub open spec fn gv_in_data(m: Module, g: usize) -> bool {
    gv_init_word(m, g) is Some
}

/// The directives laying out global `g` after a global that went to the
/// data section (`prev_data`) or to the zero-initialised one: a section
/// line where the section changes, then the symbol, and its initial word
/// (data) or the space of its type (zero-initialised).
pub open spec fn gv_lines(m: Module, g: usize, prev_data: bool) -> Seq<AsmLine> {
    let name = m.values@[g as int].name@;
    let size = decimal(gv_size(m, g));
    let switch: Seq<AsmLine> = if gv_in_data(m, g) == prev_data {
        Seq::empty()
    } else if gv_in_data(m, g) {
        seq![AsmLine::Attribute(".section .data"@)]
    } else {
        seq![AsmLine::Attribute(".section .bss, \"aw\", @nobits"@)]
    };
    let contents = match gv_init_word(m, g) {
        Some(w) => ".word "@ + int_decimal(w),
        None => ".space "@ + size,
    };
    switch + seq![
        AsmLine::Attribute(".globl "@ + name),
        AsmLine::Attribute(".type "@ + name + ", @object"@),
        AsmLine::Attribute(".size "@ + name + ", "@ + size),
        AsmLine::Label(name),
        AsmLine::Attribute(contents),
    ]
}

/// The last of the globals `gs` went to the data section.
pub open spec fn ends_in_data(m: Module, gs: Seq<usize>) -> bool {
    gs.len() > 0 && gv_in_data(m, gs.last())
}

/// The directives reserving the globals `gs`, which start in the
/// zero-initialised section.
pub open spec fn gvs_lines(m: Module, gs: Seq<usize>) -> Seq<AsmLine>
    decreases gs.len(),
{
    if gs.len() == 0 {
        Seq::empty()
    } else {
        gvs_lines(m, gs.drop_last()) + gv_lines(m, gs.last(), ends_in_data(m, gs.drop_last()))
    }
}

/// The whole program: the globals (if any), opening the zero-initialised
/// section, then the text section with every function that has blocks.
pub open spec fn program_lines(m: Module) -> Seq<AsmLine> {
    let globals = if m.gv_list@.len() == 0 {
        Seq::empty()
    } else {
        seq![
            AsmLine::Comment("Global variables"@),
            AsmLine::Attribute(".text"@),
            AsmLine::Attribute(".section .bss, \"aw\", @nobits"@),
        ] + gvs_lines(m, m.gv_list@)
    };
    globals + seq![AsmLine::Attribute(".text"@)] + funcs_code(m, m.func_list@)
}

/// The code of function `f` can be generated: its frame can be laid out and
/// fits an `i32`, its prologue can be generated, and so can the code of
/// each instruction of each of its blocks.
#[verifier::opaque]
pub open spec fn func_ready(m: Module, f: usize) -> bool {
    let offs = offsets_of(m, f);
    let fs = frame_size_of(m, f);
    m.func_bbs(f as int).len() > 0 ==> {
        &&& frame_layout(m, f as int, Map::empty()) is Some
        &&& fs <= i32::MAX
        &&& prologue_ready(m, offs, fs, f as nat)
        &&& forall|k: int|
            0 <= k < m.func_bbs(f as int).len() ==> {
                let b = #[trigger] m.func_bbs(f as int)[k];
                &&& labelable(m, b as nat)
                &&& forall|q: int|
                    0 <= q < m.bb_insts(b as int).len() ==> inst_body_ready(
                        m,
                        offs,
                        f,
                        b,
                        #[trigger] m.bb_insts(b as int)[q],
                    )
            }
    }
}

/// The whole module can be compiled: every global has a sized pointee and
/// every function is ready.
#[verifier::opaque]
pub open spec fn program_ready(m: Module) -> bool {
    &&& forall|k: int|
        0 <= k < m.gv_list@.len() ==> {
            let g = #[trigger] m.gv_list@[k];
            &&& ptr_elem_spec(m.tdata_of(m.type_of(g as int) as int)) is Some
            &&& sized(m, ptr_elem_spec(m.tdata_of(m.type_of(g as int) as int)).unwrap() as nat)
        }
    &&& forall|k: int| 0 <= k < m.func_list@.len() ==> func_ready(m, #[trigger] m.func_list@[k])
}

/// Naming values changes no type size.
pub proof fn lemma_size_renamed(m0: Module, m1: Module, t: nat)
    requires
        m1.frame_except_names(m0),
    ensures
        type_size(m1, t) == type_size(m0, t),
        sized(m1, t) == sized(m0, t),
    decreases t,
{
    if t < m0.nt() {
        match m0.tdata_of(t as int) {
            TypeData::ArrayType(a) => {
                if a.item < t {
                    lemma_size_renamed(m0, m1, a.item as nat);
                }
            },
            _ => {},
        }
    }
}

/// Naming values changes neither what can be loaded nor the load code's
/// shape (only names in it).
pub proof fn lemma_loadable_renamed(m0: Module, m1: Module, offs: Map<usize, i32>, v: nat)
    requires
        m1.frame_except_names(m0),
    ensures
        greg_loadable(m1, offs, v) == greg_loadable(m0, offs, v),
        freg_loadable(m1, offs, v) == freg_loadable(m0, offs, v),
        typed(m1, v) == typed(m0, v),
        v < m0.nv() ==> m1.type_of(v as int) == m0.type_of(v as int) && m1.class_of(v as int) == m0.class_of(v as int)
            && m1.ops(v as int) == m0.ops(v as int),
{
    if v < m0.nv() {
        assert(m1.values@[v as int].type_ == m0.values@[v as int].type_);
    }
}

pub proof fn lemma_arg_layout_renamed(m0: Module, m1: Module, args: Seq<usize>, l: Layout)
    requires
        m1.frame_except_names(m0),
        crate::ir::module::seq_below(args, m0.nv()),
    ensures
        arg_layout(m1, args, l) == arg_layout(m0, args, l),
    decreases args.len(),
{
    if args.len() > 0 {
        lemma_arg_layout_renamed(m0, m1, args.drop_last(), l);
        let x = args.last();
        lemma_loadable_renamed(m0, m1, Map::empty(), x as nat);
        lemma_size_renamed(m0, m1, m0.type_of(x as int) as nat);
    }
}

pub proof fn lemma_insts_layout_renamed(m0: Module, m1: Module, insts: Seq<usize>, l: Layout)
    requires
        m1.frame_except_names(m0),
        crate::ir::module::seq_below(insts, m0.nv()),
    ensures
        insts_layout(m1, insts, l) == insts_layout(m0, insts, l),
    decreases insts.len(),
{
    if insts.len() > 0 {
        lemma_insts_layout_renamed(m0, m1, insts.drop_last(), l);
        let x = insts.last();
        lemma_loadable_renamed(m0, m1, Map::empty(), x as nat);
        let t = m0.type_of(x as int);
        lemma_size_renamed(m0, m1, t as nat);
        match ptr_elem_spec(m0.tdata_of(t as int)) {
            Some(e) => lemma_size_renamed(m0, m1, e as nat),
            None => {},
        }
    }
}

pub proof fn lemma_bbs_layout_renamed(m0: Module, m1: Module, bbs: Seq<usize>, l: Layout)
    requires
        m0.wf(),
        m1.frame_except_names(m0),
        crate::ir::module::seq_below(bbs, m0.nv()),
    ensures
        bbs_layout(m1, bbs, l) == bbs_layout(m0, bbs, l),
    decreases bbs.len(),
{
    if bbs.len() > 0 {
        lemma_bbs_layout_renamed(m0, m1, bbs.drop_last(), l);
        let b = bbs.last();
        lemma_loadable_renamed(m0, m1, Map::empty(), b as nat);
        assert(crate::ir::module::value_below(m0.values@[b as int], m0.nt(), m0.nv()));
        lemma_insts_layout_renamed(m0, m1, m0.bb_insts(b as int), bbs_layout(m0, bbs.drop_last(), l));
    }
}

/// Naming values changes no frame layout.
pub proof fn lemma_frame_renamed(m0: Module, m1: Module, f: nat)
    requires
        m0.wf(),
        m1.frame_except_names(m0),
        f < m0.nv(),
    ensures
        frame_layout(m1, f as int, Map::empty()) == frame_layout(m0, f as int, Map::empty()),
{
    lemma_loadable_renamed(m0, m1, Map::empty(), f);
    assert(crate::ir::module::value_below(m0.values@[f as int], m0.nt(), m0.nv()));
    let start: Layout = Some((PROLOGUE_OFFSET_BASE as nat, Map::empty()));
    lemma_arg_layout_renamed(m0, m1, m0.func_args(f as int), start);
    lemma_bbs_layout_renamed(m0, m1, m0.func_bbs(f as int), arg_layout(m0, m0.func_args(f as int), start));
}

pub proof fn lemma_counts_renamed(m0: Module, m1: Module, ps: Seq<usize>)
    requires
        m1.frame_except_names(m0),
        crate::ir::module::seq_below(ps, m0.nv()),
    ensures
        count_greg(m1, ps) == count_greg(m0, ps),
        count_freg(m1, ps) == count_freg(m0, ps),
        count_float(m1, ps) == count_float(m0, ps),
        count_nonfloat(m1, ps) == count_nonfloat(m0, ps),
    decreases ps.len(),
{
    if ps.len() > 0 {
        lemma_counts_renamed(m0, m1, ps.drop_last());
        lemma_loadable_renamed(m0, m1, Map::empty(), ps.last() as nat);
    }
}

pub proof fn lemma_gep_renamed(m0: Module, m1: Module, offs: Map<usize, i32>, ops: Seq<usize>, k: nat, cur: nat)
    requires
        m1.frame_except_names(m0),
    ensures
        gep_steps_ok(m1, offs, ops, k, cur) == gep_steps_ok(m0, offs, ops, k, cur),
    decreases ops.len() - k,
{
    if k < ops.len() {
        let next = gep_next(m0, cur);
        lemma_loadable_renamed(m0, m1, offs, ops[k as int] as nat);
        lemma_size_renamed(m0, m1, next);
        lemma_gep_renamed(m0, m1, offs, ops, k + 1, next);
    }
}

pub proof fn lemma_phi_pick_renamed(m0: Module, m1: Module, ops: Seq<usize>, b: usize, j: nat)
    requires
        m1.frame_except_names(m0),
        crate::ir::module::seq_below(ops, m0.nv()),
    ensures
        phi_pick(m1, ops, b, j) == phi_pick(m0, ops, b, j),
    decreases ops.len() + 1 - j,
{
    if j < ops.len() {
        lemma_loadable_renamed(m0, m1, Map::empty(), ops[j as int] as nat);
        lemma_phi_pick_renamed(m0, m1, ops, b, j + 2);
    }
}

pub proof fn lemma_phis_renamed(m0: Module, m1: Module, offs: Map<usize, i32>, b: usize, insts: Seq<usize>, k: nat)
    requires
        m1.frame_except_names(m0),
    ensures
        block_phis_ready(m1, offs, b, insts, k) == block_phis_ready(m0, offs, b, insts, k),
    decreases insts.len() - k,
{
    if k < insts.len() {
        let p = insts[k as int];
        lemma_loadable_renamed(m0, m1, offs, p as nat);
        if p < m0.nv() {
            let ops = m0.ops(p as int);
            if forall|q: int| 0 <= q < ops.len() ==> #[trigger] ops[q] < m0.nv() {
                lemma_phi_pick_renamed(m0, m1, ops, b, 1);
                match phi_pick(m0, ops, b, 1) {
                    Some(j) => lemma_loadable_renamed(m0, m1, offs, ops[j - 1] as nat),
                    None => {},
                }
            }
        }
        lemma_phis_renamed(m0, m1, offs, b, insts, k + 1);
    }
}

/// Naming values keeps the code of an instruction generable.
pub proof fn lemma_inst_ready_renamed(m0: Module, m1: Module, offs: Map<usize, i32>, f: usize, b: usize, i: usize)
    requires
        m0.wf(),
        m1.frame_except_names(m0),
        inst_body_ready(m0, offs, f, b, i),
    ensures
        inst_body_ready(m1, offs, f, b, i),
{
    lemma_loadable_renamed(m0, m1, offs, i as nat);
    lemma_loadable_renamed(m0, m1, offs, f as nat);
    lemma_loadable_renamed(m0, m1, offs, b as nat);
    assert(crate::ir::module::value_below(m0.values@[i as int], m0.nt(), m0.nv()));
    let ops = m0.ops(i as int);
    assert forall|k: int| 0 <= k < ops.len() implies {
        &&& greg_loadable(m1, offs, #[trigger] ops[k] as nat) == greg_loadable(m0, offs, ops[k] as nat)
        &&& freg_loadable(m1, offs, ops[k] as nat) == freg_loadable(m0, offs, ops[k] as nat)
        &&& typed(m1, ops[k] as nat) == typed(m0, ops[k] as nat)
        &&& m1.type_of(ops[k] as int) == m0.type_of(ops[k] as int)
        &&& m1.class_of(ops[k] as int) == m0.class_of(ops[k] as int)
        &&& m1.ops(ops[k] as int) == m0.ops(ops[k] as int)
    } by {
        lemma_loadable_renamed(m0, m1, offs, ops[k] as nat);
    }
    match m0.inst_op(i as int) {
        OpID::Br => {
            assert(crate::ir::module::value_below(m0.values@[b as int], m0.nt(), m0.nv()));
            let succs = m0.bb_succs(b as int);
            assert forall|k: int| 0 <= k < succs.len() implies {
                &&& #[trigger] succs[k] < m1.nv()
                &&& block_phis_ready(m1, offs, b, m1.bb_insts(succs[k] as int), 0)
            } by {
                lemma_loadable_renamed(m0, m1, offs, succs[k] as nat);
                lemma_phis_renamed(m0, m1, offs, b, m0.bb_insts(succs[k] as int), 0);
            }
            if ops.len() >= 1 {
                lemma_loadable_renamed(m0, m1, offs, m0.bb_parent(ops[0] as int) as nat);
            }
            if ops.len() == 3 {
                lemma_loadable_renamed(m0, m1, offs, m0.bb_parent(ops[1] as int) as nat);
                lemma_loadable_renamed(m0, m1, offs, m0.bb_parent(ops[2] as int) as nat);
            }
        },
        OpID::Alloca => {
            let t = m0.type_of(i as int);
            lemma_size_renamed(m0, m1, ptr_elem_spec(m0.tdata_of(t as int)).unwrap() as nat);
        },
        OpID::GetElementPtr => {
            lemma_gep_renamed(m0, m1, offs, ops, 1, m0.type_of(ops[0] as int) as nat);
        },
        OpID::Call => {
            let g = ops[0];
            assert(crate::ir::module::value_below(m0.values@[g as int], m0.nt(), m0.nv()));
            let ps = m0.func_args(g as int);
            lemma_counts_renamed(m0, m1, ps);
            assert forall|k: int| 0 <= k < ps.len() implies {
                &&& typed(m1, #[trigger] ps[k] as nat) == typed(m0, ps[k] as nat)
                &&& greg_param(m1, ps[k]) == greg_param(m0, ps[k])
                &&& freg_param(m1, ps[k]) == freg_param(m0, ps[k])
            } by {
                lemma_loadable_renamed(m0, m1, offs, ps[k] as nat);
            }
        },
        _ => {},
    }
}

/// Naming values keeps a module compilable.
pub proof fn lemma_program_ready_renamed(m0: Module, m1: Module)
    requires
        m0.wf(),
        m1.frame_except_names(m0),
        program_ready(m0),
    ensures
        program_ready(m1),
{
    reveal(program_ready);
    assert forall|k: int| 0 <= k < m1.gv_list@.len() implies {
        let g = #[trigger] m1.gv_list@[k];
        &&& ptr_elem_spec(m1.tdata_of(m1.type_of(g as int) as int)) is Some
        &&& sized(m1, ptr_elem_spec(m1.tdata_of(m1.type_of(g as int) as int)).unwrap() as nat)
    } by {
        let g = m0.gv_list@[k];
        assert(crate::ir::module::seq_below(m0.gv_list@, m0.nv()));
        lemma_loadable_renamed(m0, m1, Map::empty(), g as nat);
        lemma_size_renamed(m0, m1, ptr_elem_spec(m0.tdata_of(m0.type_of(g as int) as int)).unwrap() as nat);
    }
    assert forall|k: int| 0 <= k < m1.func_list@.len() implies func_ready(m1, #[trigger] m1.func_list@[k]) by {
        let f = m0.func_list@[k];
        assert(crate::ir::module::seq_below(m0.func_list@, m0.nv()));
        assert(func_ready(m0, f));
        lemma_func_ready_renamed(m0, m1, f);
    }
}

/// Naming values keeps a function compilable.
pub proof fn lemma_func_ready_renamed(m0: Module, m1: Module, f: usize)
    requires
        m0.wf(),
        m1.frame_except_names(m0),
        f < m0.nv(),
        func_ready(m0, f),
    ensures
        func_ready(m1, f),
{
    reveal(func_ready);
    lemma_loadable_renamed(m0, m1, Map::empty(), f as nat);
    assert(crate::ir::module::value_below(m0.values@[f as int], m0.nt(), m0.nv()));
    if m0.func_bbs(f as int).len() > 0 {
        lemma_frame_renamed(m0, m1, f as nat);
        let offs = offsets_of(m0, f);
        let args = m0.func_args(f as int);
        lemma_counts_renamed(m0, m1, args);
        assert forall|k: int| 0 <= k < args.len() implies {
            &&& typed(m1, #[trigger] args[k] as nat) == typed(m0, args[k] as nat)
            &&& float_val(m1, args[k]) == float_val(m0, args[k])
        } by {
            lemma_loadable_renamed(m0, m1, offs, args[k] as nat);
        }
        let bbs = m0.func_bbs(f as int);
        assert forall|k: int| 0 <= k < bbs.len() implies {
            let b = #[trigger] bbs[k];
            &&& labelable(m1, b as nat)
            &&& forall|q: int|
                0 <= q < m1.bb_insts(b as int).len() ==> inst_body_ready(
                    m1,
                    offs,
                    f,
                    b,
                    #[trigger] m1.bb_insts(b as int)[q],
                )
        } by {
            let b = bbs[k];
            assert(labelable(m0, b as nat));
            lemma_loadable_renamed(m0, m1, offs, b as nat);
            lemma_loadable_renamed(m0, m1, offs, m0.bb_parent(b as int) as nat);
            assert forall|q: int| 0 <= q < m1.bb_insts(b as int).len() implies inst_body_ready(
                m1,
                offs,
                f,
                b,
                #[trigger] m1.bb_insts(b as int)[q],
            ) by {
                assert(inst_body_ready(m0, offs, f, b, m0.bb_insts(b as int)[q]));
                lemma_inst_ready_renamed(m0, m1, offs, f, b, m0.bb_insts(b as int)[q]);
            }
        }
    }
}

impl AsmGen {
    /// Size of the type at index `t`.
    fn get_type_size(m: &Module, t: usize) -> (r: usize)
        requires
            m.types_wf(),
            sized(*m, t as nat),
        ensures
            r == type_size(*m, t as nat),
        decreases t,
    {
        let ty = m.ty(t);
        if ty.is_bool() {
            1
        } else if ty.is_int() {
            4
        } else if ty.is_float() {
            4
        } else if ty.is_ptr() {
            8
        } else {
            match ty.tdata() {
                TypeData::ArrayType(a) => {
                    let elem_size = Self::get_type_size(m, a.item);
                    proof {
                        assert(elem_size * a.elem_count == type_size(*m, t as nat));
                    }
                    elem_size * a.elem_count
                },
                _ => 0,
            }
        }
    }

    /// Loads the 32-bit value `val` into `reg` (see `lemma_lli32_loads`).
    pub fn load_large_int32(&mut self, val: i32, reg: &Reg)
        requires
            reg.id <= 31,
        ensures
            final(self).same_but_output(*old(self)),
            lines(final(self).output@) == lines(old(self).output@) + lli32_lines(val, reg.id as nat),
    {
        let high_20 = (val >> 12) & 0xFFFFF;
        let low_12 = val & 0xFFF;
        assert(((val >> 12) & 0xFFFFF) <= 0xFFFFF) by (bit_vector);
        let (high_20, low_12) = if low_12 & 0x800 != 0 {
            ((high_20 + 1) & 0xFFFFF, low_12 | !0xFFF)
        } else {
            (high_20, low_12)
        };
        assert(high_20 == lli32_hi(val) && low_12 == lli32_lo(val)) by {
            reveal(lli32_hi);
            reveal(lli32_lo);
        }
        let ghost before = lines(self.output@);
        self.append_inst_parts("lui", args2(reg.print(), int_string(high_20 as i64)));
        if low_12 != 0 {
            self.append_inst_parts("addiw", args3(reg.print(), reg.print(), int_string(low_12 as i64)));
        }
        assert(lines(self.output@) =~= before + lli32_lines(val, reg.id as nat)) by {
            reveal(lli32_lines);
        }
    }

    /// Loads the float whose bit pattern is `bits` into float register `r`:
    /// the pattern goes into `t0` (see `load_large_int32`), then `fmv.w.x`
    /// moves it over unchanged.
    pub fn load_float_imm(&mut self, bits: u32, r: &FReg)
        requires
            r.id <= 31,
        ensures
            final(self).same_but_output(*old(self)),
            lines(final(self).output@) == lines(old(self).output@) + lli32_lines(bits as i32, t_reg_id(0))
                + seq![ins("fmv.w.x"@, a2(freg_name(r.id as nat), reg_name(t_reg_id(0))))],
    {
        let ghost before = lines(self.output@);
        let tmp = Reg::t(0);
        self.load_large_int32(bits as i32, &tmp);
        let ghost mid = lines(self.output@);
        self.append_inst_parts("fmv.w.x", args2(r.print(), tmp.print()));
        assert(lines(self.output@) =~= mid + seq![ins("fmv.w.x"@, a2(freg_name(r.id as nat), reg_name(t_reg_id(0))))]);
    }

    /// Loads the 64-bit value `val` into `reg`.
    pub fn load_large_int64(&mut self, val: i64, reg: &Reg)
        requires
            reg.id <= 31,
        ensures
            final(self).same_but_output(*old(self)),
            lines(final(self).output@) == lines(old(self).output@) + lli64_lines(val, reg.id as nat),
    {
        let ghost before = lines(self.output@);
        let low_32 = val as i32;
        self.load_large_int32(low_32, reg);
        if val > i32::MAX as i64 || val < i32::MIN as i64 {
            let high_32 = (val >> 32) as i32;
            if high_32 != 0 && high_32 != -1 {
                let temp = Reg::t(5);
                self.load_large_int32(high_32, &temp);
                self.append_inst_parts("slli", args3(temp.print(), temp.print(), string_of("32")));
                self.append_inst_parts("add", args3(reg.print(), reg.print(), temp.print()));
            }
        }
        assert(lines(self.output@) =~= before + lli64_lines(val, reg.id as nat));
    }

    /// The frame offset of value `v`.
    fn offset_of(&self, v: &ValuePtr) -> (r: i32)
        requires
            v.0 < self.m.nv(),
            has_slot(self.context.offset_map@, v.0 as nat),
        ensures
            r == slot(self.context.offset_map@, v.0 as nat),
    {
        let id = v.get_id(&self.m);
        *self.context.offset_map.get(&id).unwrap()
    }

    /// Loads `val` from its frame slot into `reg`.
    pub fn load_from_stack_to_greg(&mut self, val: &ValuePtr, reg: &Reg)
        requires
            typed(old(self).m, val.0 as nat),
            val.0 < old(self).m.nv(),
            has_slot(old(self).context.offset_map@, val.0 as nat),
            reg.id <= 31,
        ensures
            final(self).same_but_output(*old(self)),
            lines(final(self).output@) == lines(old(self).output@) + stack_load_lines(
                old(self).m,
                old(self).m.type_of(val.0 as int),
                slot(old(self).context.offset_map@, val.0 as nat),
                reg.id as nat,
            ),
    {
        let ghost before = lines(self.output@);
        let offset = self.offset_of(val);
        let t = val.get_type(&self.m);
        let is_bool = self.m.ty(t).is_bool();
        let is_int = self.m.ty(t).is_int();
        let op = if is_bool {
            "lb"
        } else if is_int {
            "lw"
        } else {
            "ld"
        };
        if is_imm_12(offset) {
            let mut addr = int_string(offset as i64);
            push_str(&mut addr, "(s0)");
            self.append_inst_parts(op, args2(reg.print(), addr));
        } else {
            self.load_large_int64(offset as i64, reg);
            self.append_inst_parts("add", args3(reg.print(), string_of("s0"), reg.print()));
            let mut addr = string_of("0(");
            push_string(&mut addr, &reg.print());
            push_str(&mut addr, ")");
            self.append_inst_parts(op, args2(reg.print(), addr));
        }
        assert(lines(self.output@) =~= before + stack_load_lines(
            self.m,
            self.m.type_of(val.0 as int),
            slot(self.context.offset_map@, val.0 as nat),
            reg.id as nat,
        ));
    }

    /// Stores `reg` to the frame slot of `val`.
    pub fn store_from_greg(&mut self, val: &ValuePtr, reg: &Reg)
        requires
            typed(old(self).m, val.0 as nat),
            val.0 < old(self).m.nv(),
            has_slot(old(self).context.offset_map@, val.0 as nat),
            reg.id <= 31,
        ensures
            final(self).same_but_output(*old(self)),
            lines(final(self).output@) == lines(old(self).output@) + stack_store_lines(
                old(self).m,
                old(self).m.type_of(val.0 as int),
                slot(old(self).context.offset_map@, val.0 as nat),
                reg.id as nat,
            ),
    {
        let ghost before = lines(self.output@);
        let offset = self.offset_of(val);
        let t = val.get_type(&self.m);
        let is_bool = self.m.ty(t).is_bool();
        let is_int = self.m.ty(t).is_int();
        let op = if is_bool {
            "sb"
        } else if is_int {
            "sw"
        } else {
            "sd"
        };
        if is_imm_12(offset) {
            let mut addr = int_string(offset as i64);
            push_str(&mut addr, "(s0)");
            self.append_inst_parts(op, args2(reg.print(), addr));
        } else {
            let tmp = Reg::t(6);
            self.load_large_int64(offset as i64, &tmp);
            self.append_inst_parts("add", args3(tmp.print(), string_of("s0"), tmp.print()));
            let mut addr = string_of("0(");
            push_string(&mut addr, &tmp.print());
            push_str(&mut addr, ")");
            self.append_inst_parts(op, args2(reg.print(), addr));
        }
        assert(lines(self.output@) =~= before + stack_store_lines(
            self.m,
            self.m.type_of(val.0 as int),
            slot(self.context.offset_map@, val.0 as nat),
            reg.id as nat,
        ));
    }

    /// Loads `val` into integer register `reg`.
    pub fn load_to_greg(&mut self, val: &ValuePtr, reg: &Reg)
        requires
            typed(old(self).m, val.0 as nat),
            greg_loadable(old(self).m, old(self).context.offset_map@, val.0 as nat),
            reg.id <= 31,
        ensures
            final(self).same_but_output(*old(self)),
            lines(final(self).output@) == lines(old(self).output@) + load_greg_lines(
                old(self).m,
                old(self).context.offset_map@,
                val.0 as nat,
                reg.id as nat,
            ),
    {
        let ghost before = lines(self.output@);
        if let Some(c) = val.to_const(&self.m) {
            match &self.m.values[c.0].class {
                ValueClass::Constant(ConstantClass::Int(v)) => {
                    let int_val = *v;
                    if is_imm_12(int_val) {
                        self.append_inst_parts("addi", args3(reg.print(), string_of("zero"), int_string(int_val as i64)));
                    } else {
                        self.load_large_int32(int_val, reg);
                    }
                },
                _ => {},
            }
        } else if val.to_gv(&self.m).is_some() {
            let name = val.get_name(&self.m);
            self.append_inst_parts("la", args2(reg.print(), name));
        } else {
            self.load_from_stack_to_greg(val, reg);
        }
        assert(lines(self.output@) =~= before + load_greg_lines(
            self.m,
            self.context.offset_map@,
            val.0 as nat,
            reg.id as nat,
        ));
    }

    /// Loads `val` into float register `freg`.
    pub fn load_to_freg(&mut self, val: &ValuePtr, freg: &FReg)
        requires
            typed(old(self).m, val.0 as nat),
            freg_loadable(old(self).m, old(self).context.offset_map@, val.0 as nat),
            freg.id <= 31,
        ensures
            final(self).same_but_output(*old(self)),
            lines(final(self).output@) == lines(old(self).output@) + load_freg_lines(
                old(self).m,
                old(self).context.offset_map@,
                val.0 as nat,
                freg.id as nat,
            ),
    {
        let ghost before = lines(self.output@);
        if val.to_const(&self.m).is_none() {
            let offset = self.offset_of(val);
            self.append_inst_parts("flw", args3(freg.print(), string_of("s0"), int_string(offset as i64)));
        }
        assert(lines(self.output@) =~= before + load_freg_lines(
            self.m,
            self.context.offset_map@,
            val.0 as nat,
            freg.id as nat,
        ));
    }

    /// Stores float register `r` to the frame slot of `val`.
    pub fn store_from_freg(&mut self, val: &ValuePtr, r: &FReg)
        requires
            typed(old(self).m, val.0 as nat),
            val.0 < old(self).m.nv(),
            has_slot(old(self).context.offset_map@, val.0 as nat),
            imm12(slot(old(self).context.offset_map@, val.0 as nat) as int),
            r.id <= 31,
        ensures
            final(self).same_but_output(*old(self)),
            lines(final(self).output@) == lines(old(self).output@) + store_freg_lines(
                old(self).context.offset_map@,
                val.0 as nat,
                r.id as nat,
            ),
    {
        let ghost before = lines(self.output@);
        let offset = self.offset_of(val);
        self.append_inst_parts("fsw", args3(r.print(), string_of("s0"), int_string(offset as i64)));
        assert(lines(self.output@) =~= before + store_freg_lines(self.context.offset_map@, val.0 as nat, r.id as nat));
    }

    /// Places one slot of `size` bytes after `offset`; gives the new offset.
    fn place_slot(offset: usize, size: usize) -> (r: usize)
        requires
            slot_step(offset as nat, size as nat) is Some,
        ensures
            r as nat == slot_step(offset as nat, size as nat).unwrap(),
    {
        align(offset + size, size)
    }

    /// Lays out the instructions of block `b` after `offset`; gives the new
    /// offset.
    fn allocate_block(&mut self, b: usize, offset: usize) -> (r: usize)
        requires
            old(self).m.wf(),
            b < old(self).m.nv(),
            old(self).m.class_of(b as int) is BasicBlock,
            offset <= i32::MAX,
            insts_layout(old(self).m, old(self).m.bb_insts(b as int), Some((offset as nat, old(self).context.offset_map@)))
                is Some,
        ensures
            final(self).m == old(self).m,
            final(self).output@ == old(self).output@,
            final(self).context.cursor_kept(old(self).context),
            final(self).context.frame_size == old(self).context.frame_size,
            Some((r as nat, final(self).context.offset_map@)) == insts_layout(
                old(self).m,
                old(self).m.bb_insts(b as int),
                Some((offset as nat, old(self).context.offset_map@)),
            ),
            r <= i32::MAX,
    {
        let ghost m = self.m;
        let ghost before: Layout = Some((offset as nat, self.context.offset_map@));
        let mut offset = offset;
        proof {
            assert(crate::ir::module::value_below(m.values@[b as int], m.nt(), m.nv()));
            lemma_insts_layout_prefix(m, m.bb_insts(b as int), before, 0);
        }
        let insts = crate::ir::value::BasicBlockPtr(b).get_insts(&self.m);
        let ni = insts.len();
        let mut k: usize = 0;
        while k < ni
            invariant
                self.m == m,
                m.wf(),
                ni == insts@.len(),
                insts@ == m.bb_insts(b as int),
                crate::ir::module::seq_below(insts@, m.nv()),
                insts_layout(m, insts@, before) is Some,
                0 <= k <= ni,
                insts_layout(m, insts@.take(k as int), before) == Some((offset as nat, self.context.offset_map@)),
                offset <= i32::MAX,
                self.output@ == old(self).output@,
                self.context.cursor_kept(old(self).context),
                self.context.frame_size == old(self).context.frame_size,
            decreases ni - k,
        {
            let x = insts[k];
            proof {
                lemma_insts_layout_prefix(m, insts@, before, k + 1);
                assert(insts@.take(k + 1).drop_last() =~= insts@.take(k as int));
                assert(insts@.take(k + 1).last() == x);
                assert(crate::ir::module::value_below(m.values@[x as int], m.nt(), m.nv()));
            }
            let t = ValuePtr(x).get_type(&self.m);
            let ty = self.m.ty(t);
            if !ty.is_void() {
                let size = Self::get_type_size(&self.m, t);
                offset = Self::place_slot(offset, size);
                let id = ValuePtr(x).get_id(&self.m);
                self.context.offset_map.insert(id, -(offset as i32));
            }
            let is_alloca = match &self.m.values[x].class {
                ValueClass::Inst { op_id: OpID::Alloca, .. } => true,
                _ => false,
            };
            if is_alloca {
                let e = self.m.ty(t).get_ptr_elem_ty().unwrap();
                proof {
                    assert(crate::ir::type_::tdata_children_below(m.tdata_of(t as int), t as nat));
                }
                let alloc_size = Self::get_type_size(&self.m, e);
                offset = offset + alloc_size;
            }
            k = k + 1;
        }
        assert(insts@.take(ni as int) =~= insts@);
        offset
    }

    /// Lays out the frame of the current function: a slot for each argument
    /// and each non-void instruction result (recorded, negated, under the
    /// value's id), the object of each `alloca`, and the frame size rounded
    /// up to 16.
    pub fn allocate(&mut self)
        requires
            old(self).m.wf(),
            old(self).context.func matches Some(f) && f < old(self).m.nv() && old(self).m.class_of(f as int) is Function
                && frame_layout(old(self).m, f as int, old(self).context.offset_map@) is Some,
        ensures
            final(self).m == old(self).m,
            final(self).output@ == old(self).output@,
            final(self).context.cursor_kept(old(self).context),
            ({
                let (off, mp) = frame_layout(old(self).m, old(self).context.func.unwrap() as int, old(self).context.offset_map@).unwrap();
                &&& final(self).context.offset_map@ == mp
                &&& final(self).context.frame_size == align_spec(off as usize, 16)
            }),
    {
        let f = self.context.func.unwrap();
        let ghost m = self.m;
        let ghost mp0 = self.context.offset_map@;
        let ghost start: Layout = Some((PROLOGUE_OFFSET_BASE as nat, mp0));
        let func = crate::ir::value::FunctionPtr(f);
        proof {
            assert(m.class_kinds_ok(m.values@[f as int].class, m.values@[f as int].type_));
            assert(crate::ir::module::value_below(m.values@[f as int], m.nt(), m.nv()));
            let al = arg_layout(m, m.func_args(f as int), start);
            if al is None {
                lemma_bbs_layout_none(m, m.func_bbs(f as int));
            }
        }
        let mut offset: usize = PROLOGUE_OFFSET_BASE;
        let args = func.get_args(&self.m);
        let na = args.len();
        let mut i: usize = 0;
        while i < na
            invariant
                self.m == m,
                m.wf(),
                na == args@.len(),
                args@ == m.func_args(f as int),
                crate::ir::module::seq_below(args@, m.nv()),
                arg_layout(m, args@, start) is Some,
                offset <= i32::MAX,
                0 <= i <= na,
                arg_layout(m, args@.take(i as int), start) == Some((offset as nat, self.context.offset_map@)),
                self.output@ == old(self).output@,
                self.context.cursor_kept(old(self).context),
                self.context.frame_size == old(self).context.frame_size,
            decreases na - i,
        {
            let a = args[i];
            proof {
                lemma_arg_layout_prefix(m, args@, start, i + 1);
                assert(args@.take(i + 1).drop_last() =~= args@.take(i as int));
                assert(args@.take(i + 1).last() == a);
                assert(crate::ir::module::value_below(m.values@[a as int], m.nt(), m.nv()));
            }
            let size = Self::get_type_size(&self.m, ValuePtr(a).get_type(&self.m));
            offset = Self::place_slot(offset, size);
            let id = ValuePtr(a).get_id(&self.m);
            self.context.offset_map.insert(id, -(offset as i32));
            i = i + 1;
        }
        assert(args@.take(na as int) =~= args@);
        let ghost after_args = arg_layout(m, args@, start);
        let bbs = func.get_bbs(&self.m);
        let nb = bbs.len();
        let mut j: usize = 0;
        while j < nb
            invariant
                self.m == m,
                m.wf(),
                nb == bbs@.len(),
                bbs@ == m.func_bbs(f as int),
                crate::ir::module::seq_below(bbs@, m.nv()),
                bbs_layout(m, bbs@, after_args) is Some,
                f < m.nv(),
                m.class_of(f as int) is Function,
                offset <= i32::MAX,
                0 <= j <= nb,
                bbs_layout(m, bbs@.take(j as int), after_args) == Some((offset as nat, self.context.offset_map@)),
                self.output@ == old(self).output@,
                self.context.cursor_kept(old(self).context),
            decreases nb - j,
        {
            let b = bbs[j];
            proof {
                lemma_bbs_layout_prefix(m, bbs@, after_args, j + 1);
                assert(bbs@.take(j + 1).drop_last() =~= bbs@.take(j as int));
                assert(bbs@.take(j + 1).last() == b);
                assert(m.class_kinds_ok(m.values@[f as int].class, m.values@[f as int].type_));
                assert(m.class_of(b as int) is BasicBlock);
                assert(crate::ir::module::value_below(m.values@[b as int], m.nt(), m.nv()));
            }
            offset = self.allocate_block(b, offset);
            j = j + 1;
        }
        assert(bbs@.take(nb as int) =~= bbs@);
        self.context.frame_size = align(offset, crate::asmgen::codegen_util::PROLOGUE_ALIGN);
    }

    /// The label of block `bb`.
    pub fn label_name(m: &Module, bb: &crate::ir::value::BasicBlockPtr) -> (r: String)
        requires
            labelable(*m, bb.0 as nat),
        ensures
            r@ == label_text(*m, bb.0 as int),
    {
        let f = match &m.values[bb.0].class {
            ValueClass::BasicBlock { function, .. } => *function,
            _ => 0,
        };
        let mut s = string_of(".");
        push_string(&mut s, &ValuePtr(f).get_name(m));
        push_str(&mut s, "_");
        push_string(&mut s, &ValuePtr(bb.0).get_name(m));
        s
    }

    /// The label of the `cnt`-th float comparison in block `bb`.
    pub fn fcmp_label_name(m: &Module, bb: &crate::ir::value::BasicBlockPtr, cnt: usize) -> (r: String)
        requires
            is_block(*m, *bb),
        ensures
            r@ == block_label(*m, *bb) + "_fcmp_"@ + usize_decimal(cnt),
    {
        let mut s = Self::label_name(m, bb);
        push_str(&mut s, "_fcmp_");
        push_string(&mut s, &usize_string(cnt));
        s
    }

    /// Generates the current `ret` instruction.
    pub fn gen_ret(&mut self)
        requires
            old(self).context.inst matches Some(i) && old(self).context.func matches Some(f) && i < old(self).m.nv()
                && ret_ready(old(self).m, old(self).context.offset_map@, f as nat, i),
        ensures
            final(self).same_but_output(*old(self)),
            lines(final(self).output@) == lines(old(self).output@) + ret_lines(
                old(self).m,
                old(self).context.offset_map@,
                old(self).context.func.unwrap() as nat,
                old(self).context.inst.unwrap(),
            ),
    {
        let ghost before = lines(self.output@);
        let i = self.context.inst.unwrap();
        let f = self.context.func.unwrap();
        if self.m.values[i].operands.len() != 0 {
            let v = self.m.values[i].operands[0];
            if self.m.ty(self.m.values[v].type_).is_float() {
                self.load_to_freg(&ValuePtr(v), &FReg::fa(0));
            } else {
                self.load_to_greg(&ValuePtr(v), &Reg::a(0));
            }
        } else {
            self.append_inst(string_of("addi a0, zero, 0"));
        }
        let mut target = ValuePtr(f).get_name(&self.m);
        push_str(&mut target, "_exit");
        self.append_inst_parts("j", args1(target));
        assert(lines(self.output@) =~= before + ret_lines(self.m, self.context.offset_map@, f as nat, i));
    }

    /// Generates the current `br` instruction.
    pub fn gen_br(&mut self)
        requires
            old(self).context.inst matches Some(i) && i < old(self).m.nv() && old(self).m.class_of(i as int) is Inst
                && old(self).m.inst_op(i as int) == OpID::Br && br_ready(old(self).m, old(self).context.offset_map@, i),
        ensures
            final(self).same_but_output(*old(self)),
            lines(final(self).output@) == lines(old(self).output@) + br_lines(
                old(self).m,
                old(self).context.offset_map@,
                old(self).context.inst.unwrap(),
            ),
    {
        let ghost before = lines(self.output@);
        let i = self.context.inst.unwrap();
        if InstPtr(i).is_cond_br(&self.m) {
            let c = self.m.values[i].operands[0];
            let t = self.m.values[i].operands[1];
            let e = self.m.values[i].operands[2];
            self.load_to_greg(&ValuePtr(c), &Reg::t(0));
            let lt = Self::label_name(&self.m, &crate::ir::value::BasicBlockPtr(t));
            self.append_inst_parts("bnez", args2(string_of("t0"), lt));
            let le = Self::label_name(&self.m, &crate::ir::value::BasicBlockPtr(e));
            self.append_inst_parts("j", args1(le));
        } else {
            let t = self.m.values[i].operands[0];
            let lt = Self::label_name(&self.m, &crate::ir::value::BasicBlockPtr(t));
            self.append_inst_parts("j", args1(lt));
        }
        assert(lines(self.output@) =~= before + br_lines(self.m, self.context.offset_map@, i));
    }

    /// Generates the current integer arithmetic instruction.
    pub fn gen_binary(&mut self)
        requires
            old(self).context.inst matches Some(i) && i < old(self).m.nv() && old(self).m.class_of(i as int) is Inst
                && binary_ready(old(self).m, old(self).context.offset_map@, i) && (old(self).m.inst_op(i as int)
                == OpID::Add || old(self).m.inst_op(i as int) == OpID::Sub || old(self).m.inst_op(i as int)
                == OpID::Mul || old(self).m.inst_op(i as int) == OpID::SDiv),
        ensures
            final(self).same_but_output(*old(self)),
            lines(final(self).output@) == lines(old(self).output@) + binary_lines(
                old(self).m,
                old(self).context.offset_map@,
                old(self).context.inst.unwrap(),
            ),
    {
        let ghost before = lines(self.output@);
        let i = self.context.inst.unwrap();
        let a = self.m.values[i].operands[0];
        let b = self.m.values[i].operands[1];
        self.load_to_greg(&ValuePtr(a), &Reg::t(0));
        self.load_to_greg(&ValuePtr(b), &Reg::t(1));
        let o = InstPtr(i).get_inst_op_id(&self.m);
        self.append_inst(int_arith_string(o));
        self.store_from_greg(&ValuePtr(i), &Reg::t(2));
        assert(lines(self.output@) =~= before + binary_lines(self.m, self.context.offset_map@, i));
    }

    /// Generates the current float arithmetic instruction.
    pub fn gen_float_binary(&mut self)
        requires
            old(self).context.inst matches Some(i) && i < old(self).m.nv() && old(self).m.class_of(i as int) is Inst
                && float_binary_ready(old(self).m, old(self).context.offset_map@, i) && (old(self).m.inst_op(i as int)
                == OpID::FAdd || old(self).m.inst_op(i as int) == OpID::FSub || old(self).m.inst_op(i as int)
                == OpID::FMul || old(self).m.inst_op(i as int) == OpID::FDiv),
        ensures
            final(self).same_but_output(*old(self)),
            lines(final(self).output@) == lines(old(self).output@) + float_binary_lines(
                old(self).m,
                old(self).context.offset_map@,
                old(self).context.inst.unwrap(),
            ),
    {
        let ghost before = lines(self.output@);
        let i = self.context.inst.unwrap();
        let a = self.m.values[i].operands[0];
        let b = self.m.values[i].operands[1];
        self.load_to_freg(&ValuePtr(a), &FReg::ft(0));
        self.load_to_freg(&ValuePtr(b), &FReg::ft(1));
        let o = InstPtr(i).get_inst_op_id(&self.m);
        self.append_inst(float_arith_string(o));
        self.store_from_freg(&ValuePtr(i), &FReg::ft(2));
        assert(lines(self.output@) =~= before + float_binary_lines(self.m, self.context.offset_map@, i));
    }

    /// Generates the current `zext` instruction.
    pub fn gen_zext(&mut self)
        requires
            old(self).context.inst matches Some(i) && i < old(self).m.nv() && unary_int_ready(
                old(self).m,
                old(self).context.offset_map@,
                i,
            ),
        ensures
            final(self).same_but_output(*old(self)),
            lines(final(self).output@) == lines(old(self).output@) + zext_lines(
                old(self).m,
                old(self).context.offset_map@,
                old(self).context.inst.unwrap(),
            ),
    {
        let ghost before = lines(self.output@);
        let i = self.context.inst.unwrap();
        let a = self.m.values[i].operands[0];
        self.load_to_greg(&ValuePtr(a), &Reg::t(0));
        self.store_from_greg(&ValuePtr(i), &Reg::t(0));
        assert(lines(self.output@) =~= before + zext_lines(self.m, self.context.offset_map@, i));
    }

    /// Generates the current `sitofp` instruction.
    pub fn gen_sitofp(&mut self)
        requires
            old(self).context.inst matches Some(i) && i < old(self).m.nv() && unary_int_ready(
                old(self).m,
                old(self).context.offset_map@,
                i,
            ) && imm12(slot(old(self).context.offset_map@, i as nat) as int),
        ensures
            final(self).same_but_output(*old(self)),
            lines(final(self).output@) == lines(old(self).output@) + sitofp_lines(
                old(self).m,
                old(self).context.offset_map@,
                old(self).context.inst.unwrap(),
            ),
    {
        let ghost before = lines(self.output@);
        let i = self.context.inst.unwrap();
        let a = self.m.values[i].operands[0];
        self.load_to_greg(&ValuePtr(a), &Reg::t(0));
        self.append_inst(string_of("fmv.w.x ft0, t0"));
        self.append_inst(string_of("fcvt.s.w ft1, ft0"));
        self.store_from_freg(&ValuePtr(i), &FReg::ft(1));
        assert(lines(self.output@) =~= before + sitofp_lines(self.m, self.context.offset_map@, i));
    }

    /// Generates the current `fptosi` instruction.
    pub fn gen_fptosi(&mut self)
        requires
            old(self).context.inst matches Some(i) && i < old(self).m.nv() && old(self).m.ops(i as int).len() >= 1
                && freg_loadable(old(self).m, old(self).context.offset_map@, op(old(self).m, i, 0)) && typed(
                old(self).m,
                i as nat,
            ) && has_slot(old(self).context.offset_map@, i as nat),
        ensures
            final(self).same_but_output(*old(self)),
            lines(final(self).output@) == lines(old(self).output@) + fptosi_lines(
                old(self).m,
                old(self).context.offset_map@,
                old(self).context.inst.unwrap(),
            ),
    {
        let ghost before = lines(self.output@);
        let i = self.context.inst.unwrap();
        let a = self.m.values[i].operands[0];
        self.load_to_freg(&ValuePtr(a), &FReg::ft(0));
        self.append_inst(string_of("fcvt.w.s ft1, ft0, rtz"));
        self.append_inst(string_of("fmv.x.w t0, ft1"));
        self.store_from_greg(&ValuePtr(i), &Reg::t(0));
        assert(lines(self.output@) =~= before + fptosi_lines(self.m, self.context.offset_map@, i));
    }

    /// Generates the current `load` instruction.
    pub fn gen_load(&mut self)
        requires
            old(self).context.inst matches Some(i) && i < old(self).m.nv() && load_ready(
                old(self).m,
                old(self).context.offset_map@,
                i,
            ),
        ensures
            final(self).same_but_output(*old(self)),
            lines(final(self).output@) == lines(old(self).output@) + load_lines(
                old(self).m,
                old(self).context.offset_map@,
                old(self).context.inst.unwrap(),
            ),
    {
        let ghost before = lines(self.output@);
        let i = self.context.inst.unwrap();
        let p = self.m.values[i].operands[0];
        let t = self.m.values[i].type_;
        self.load_to_greg(&ValuePtr(p), &Reg::t(0));
        if self.m.ty(t).is_float() {
            self.append_inst_parts("flw", args2(string_of("ft0"), string_of("0(t0)")));
            self.store_from_freg(&ValuePtr(i), &FReg::ft(0));
        } else {
            let op = if self.m.ty(t).is_bool() {
                "lb"
            } else if self.m.ty(t).is_int() {
                "lw"
            } else {
                "ld"
            };
            self.append_inst_parts(op, args2(string_of("t0"), string_of("0(t0)")));
            self.store_from_greg(&ValuePtr(i), &Reg::t(0));
        }
        assert(lines(self.output@) =~= before + load_lines(self.m, self.context.offset_map@, i));
    }

    /// Generates the current `store` instruction.
    pub fn gen_store(&mut self)
        requires
            old(self).context.inst matches Some(i) && i < old(self).m.nv() && store_ready(
                old(self).m,
                old(self).context.offset_map@,
                i,
            ),
        ensures
            final(self).same_but_output(*old(self)),
            lines(final(self).output@) == lines(old(self).output@) + store_lines(
                old(self).m,
                old(self).context.offset_map@,
                old(self).context.inst.unwrap(),
            ),
    {
        let ghost before = lines(self.output@);
        let i = self.context.inst.unwrap();
        let v = self.m.values[i].operands[0];
        let p = self.m.values[i].operands[1];
        let t = self.m.values[v].type_;
        self.load_to_greg(&ValuePtr(p), &Reg::t(0));
        if self.m.ty(t).is_float() {
            self.load_to_freg(&ValuePtr(v), &FReg::ft(1));
            self.append_inst_parts("fst.s", args3(string_of("ft1"), string_of("t0"), string_of("0")));
        } else if self.m.ty(t).is_int() {
            self.load_to_greg(&ValuePtr(v), &Reg::t(1));
            self.append_inst_parts("sw", args2(string_of("t1"), string_of("0(t0)")));
        } else if self.m.ty(t).is_bool() {
            self.load_to_greg(&ValuePtr(v), &Reg::t(1));
            self.append_inst_parts("sb", args2(string_of("t1"), string_of("0(t0)")));
        } else if self.m.ty(t).is_ptr() {
            self.load_to_greg(&ValuePtr(v), &Reg::t(1));
            self.append_inst_parts("sd", args2(string_of("t1"), string_of("0(t0)")));
        }
        assert(lines(self.output@) =~= before + store_lines(self.m, self.context.offset_map@, i));
    }

    /// Generates the current `alloca` instruction.
    pub fn gen_alloca(&mut self)
        requires
            old(self).m.types_wf(),
            old(self).context.inst matches Some(i) && i < old(self).m.nv() && alloca_ready(
                old(self).m,
                old(self).context.offset_map@,
                i,
            ),
        ensures
            final(self).same_but_output(*old(self)),
            lines(final(self).output@) == lines(old(self).output@) + alloca_lines(
                old(self).m,
                old(self).context.offset_map@,
                old(self).context.inst.unwrap(),
            ),
    {
        let ghost before = lines(self.output@);
        let i = self.context.inst.unwrap();
        let t = self.m.values[i].type_;
        let e = self.m.ty(t).get_ptr_elem_ty().unwrap();
        let size = Self::get_type_size(&self.m, e);
        let offset = self.offset_of(&ValuePtr(i));
        let s = offset - (size as i32);
        if is_imm_12(s) {
            self.append_inst_parts("addi", args3(string_of("t0"), string_of("s0"), int_string(s as i64)));
        } else {
            self.load_large_int32(s, &Reg::t(1));
            self.append_inst_parts("add", args3(string_of("t0"), string_of("s0"), string_of("t1")));
        }
        self.store_from_greg(&ValuePtr(i), &Reg::t(0));
        assert(lines(self.output@) =~= before + alloca_lines(self.m, self.context.offset_map@, i));
    }

    /// Generates the current integer comparison.
    #[verifier::rlimit(40)]
    pub fn gen_icmp(&mut self)
        requires
            old(self).context.inst matches Some(i) && inst_ok(old(self).m, i) && binary_ready(
                old(self).m,
                old(self).context.offset_map@,
                i,
            ) && (opcode(old(self).m, i) == OpID::Ge || opcode(old(self).m, i) == OpID::Gt || opcode(old(self).m, i)
                == OpID::Le || opcode(old(self).m, i) == OpID::Lt || opcode(old(self).m, i) == OpID::Eq || opcode(
                old(self).m,
                i,
            ) == OpID::Ne),
        ensures
            final(self).same_but_output(*old(self)),
            lines(final(self).output@) == lines(old(self).output@) + int_compare_lines(
                old(self).m,
                old(self).context.offset_map@,
                old(self).context.inst.unwrap(),
            ),
    {
        let ghost before = lines(self.output@);
        let i = self.context.inst.unwrap();
        let a = self.m.values[i].operands[0];
        let b = self.m.values[i].operands[1];
        self.load_to_greg(&ValuePtr(a), &Reg::t(0));
        self.load_to_greg(&ValuePtr(b), &Reg::t(1));
        let o = InstPtr(i).get_inst_op_id(&self.m);
        self.emit_int_compare(o);
        self.store_from_greg(&ValuePtr(i), &Reg::t(2));
        assert(lines(self.output@) =~= before + int_compare_lines(self.m, self.context.offset_map@, i));
    }

    /// Generates the current float comparison.
    pub fn gen_fcmp(&mut self)
        requires
            old(self).context.inst matches Some(i) && inst_ok(old(self).m, i) && float_compare_ready(
                old(self).m,
                old(self).context.offset_map@,
                i,
            ) && (opcode(old(self).m, i) == OpID::FGe || opcode(old(self).m, i) == OpID::FGt || opcode(old(self).m, i)
                == OpID::FLe || opcode(old(self).m, i) == OpID::FLt || opcode(old(self).m, i) == OpID::FEq || opcode(
                old(self).m,
                i,
            ) == OpID::FNe),
        ensures
            final(self).same_but_output(*old(self)),
            lines(final(self).output@) == lines(old(self).output@) + float_compare_lines(
                old(self).m,
                old(self).context.offset_map@,
                old(self).context.inst.unwrap(),
            ),
    {
        let ghost before = lines(self.output@);
        let i = self.context.inst.unwrap();
        let a = self.m.values[i].operands[0];
        let b = self.m.values[i].operands[1];
        self.load_to_freg(&ValuePtr(a), &FReg::ft(0));
        self.load_to_freg(&ValuePtr(b), &FReg::ft(1));
        let o = InstPtr(i).get_inst_op_id(&self.m);
        self.emit_float_compare(o);
        self.store_from_greg(&ValuePtr(i), &Reg::t(2));
        assert(lines(self.output@) =~= before + float_compare_lines(self.m, self.context.offset_map@, i));
    }

    /// Generates the current GEP instruction.
    #[verifier::rlimit(40)]
    pub fn gen_gep(&mut self)
        requires
            old(self).m.types_wf(),
            old(self).context.inst matches Some(i) && i < old(self).m.nv() && gep_ready(
                old(self).m,
                old(self).context.offset_map@,
                i,
            ),
        ensures
            final(self).same_but_output(*old(self)),
            lines(final(self).output@) == lines(old(self).output@) + gep_lines(
                old(self).m,
                old(self).context.offset_map@,
                old(self).context.inst.unwrap(),
            ),
    {
        let ghost before = lines(self.output@);
        let ghost m = self.m;
        let ghost offs = self.context.offset_map@;
        let i = self.context.inst.unwrap();
        let p = self.m.values[i].operands[0];
        let n = self.m.values[i].operands.len();
        let ghost ops = m.ops(i as int);
        self.load_to_greg(&ValuePtr(p), &Reg::t(0));
        let ghost mid = lines(self.output@);
        let ghost cur0 = m.type_of(p as int) as nat;
        let mut cur = self.m.values[p].type_;
        let mut k: usize = 1;
        while k < n
            invariant
                self.m == m,
                m.types_wf(),
                self.context.offset_map@ == offs,
                self.same_but_output(*old(self)),
                i < m.nv(),
                n == ops.len(),
                ops == m.ops(i as int),
                1 <= k <= n,
                cur < m.nt(),
                gep_steps_ok(m, offs, ops, k as nat, cur as nat),
                lines(self.output@) + gep_steps(m, offs, ops, k as nat, cur as nat) == mid + gep_steps(m, offs, ops, 1, cur0),
            decreases n - k,
        {
            let ghost here = lines(self.output@);
            proof {
                assert(crate::ir::type_::tdata_children_below(m.tdata_of(cur as int), cur as nat));
            }
            let ty = self.m.ty(cur);
            if ty.is_ptr() {
                cur = ty.get_ptr_elem_ty().unwrap();
            } else if ty.is_arr() {
                cur = ty.get_arr_elem_ty().unwrap();
            }
            let x = self.m.values[i].operands[k];
            self.load_to_greg(&ValuePtr(x), &Reg::t(1));
            let size = Self::get_type_size(&self.m, cur);
            self.load_large_int32(size as i32, &Reg::t(2));
            self.append_inst(string_of("mul t3, t1, t2"));
            self.append_inst(string_of("add t0, t0, t3"));
            assert(lines(self.output@) =~= here + load_greg_lines(m, offs, ops[k as int] as nat, t_reg_id(1))
                + lli32_lines(type_size(m, cur as nat) as i32, t_reg_id(2)) + seq![
                AsmLine::Instruction("mul t3, t1, t2"@),
                AsmLine::Instruction("add t0, t0, t3"@),
            ]);
            k = k + 1;
        }
        self.store_from_greg(&ValuePtr(i), &Reg::t(0));
        assert(lines(self.output@) =~= before + gep_lines(m, offs, i));
    }

    /// Appends the instructions of `int_compare_text(o)`.
    fn emit_int_compare(&mut self, o: OpID)
        ensures
            final(self).same_but_output(*old(self)),
            lines(final(self).output@) == lines(old(self).output@) + int_compare_text(o),
    {
        let ghost before = lines(self.output@);
        match o {
            OpID::Ge => {
                self.append_inst(string_of("slt t2, t0, t1"));
                self.append_inst(string_of("xori t2, t2, 1"));
            },
            OpID::Gt => {
                self.append_inst(string_of("slt t2, t1, t0"));
            },
            OpID::Le => {
                self.append_inst(string_of("slt t2, t1, t0"));
                self.append_inst(string_of("xori t2, t2, 1"));
            },
            OpID::Lt => {
                self.append_inst(string_of("slt t2, t0, t1"));
            },
            OpID::Eq => {
                self.append_inst(string_of("xor t2, t0, t1"));
                self.append_inst(string_of("sltiu t2, t2, 1"));
            },
            _ => {
                self.append_inst(string_of("xor t2, t0, t1"));
                self.append_inst(string_of("sltu t2, zero, t2"));
            },
        }
        assert(lines(self.output@) =~= before + int_compare_text(o));
    }

    /// Appends the instructions of `float_compare_text(o)`.
    fn emit_float_compare(&mut self, o: OpID)
        ensures
            final(self).same_but_output(*old(self)),
            lines(final(self).output@) == lines(old(self).output@) + float_compare_text(o),
    {
        let ghost before = lines(self.output@);
        match o {
            OpID::FGe => {
                self.append_inst(string_of("fle.s t2, ft1, ft0"));
            },
            OpID::FGt => {
                self.append_inst(string_of("flt.s t2, ft1, ft0"));
            },
            OpID::FLe => {
                self.append_inst(string_of("fle.s t2, ft0, ft1"));
            },
            OpID::FLt => {
                self.append_inst(string_of("flt.s t2, ft0, ft1"));
            },
            OpID::FEq => {
                self.append_inst(string_of("feq.s t2, ft0, ft1"));
            },
            _ => {
                self.append_inst(string_of("feq.s t2, ft0, ft1"));
                self.append_inst(string_of("xori t2, t2, 1"));
            },
        }
        assert(lines(self.output@) =~= before + float_compare_text(o));
    }

    /// Generates the current call.
    pub fn gen_call(&mut self)
        requires
            old(self).context.inst matches Some(i) && inst_ok(old(self).m, i) && call_ready(
                old(self).m,
                old(self).context.offset_map@,
                i,
            ),
        ensures
            final(self).same_but_output(*old(self)),
            lines(final(self).output@) == lines(old(self).output@) + call_lines(
                old(self).m,
                old(self).context.offset_map@,
                old(self).context.inst.unwrap(),
            ),
    {
        let ghost before = lines(self.output@);
        let ghost m = self.m;
        let ghost offs = self.context.offset_map@;
        let i = self.context.inst.unwrap();
        let ghost ops = m.ops(i as int);
        let fv = self.m.values[i].operands[0];
        let params = crate::ir::value::FunctionPtr(fv).get_args(&self.m);
        let n = params.len();
        let mut gidx: u32 = 0;
        let mut fidx: u32 = 0;
        let mut k: usize = 0;
        while k < n
            invariant
                self.m == m,
                self.context.offset_map@ == offs,
                self.same_but_output(*old(self)),
                i < m.nv(),
                ops == m.ops(i as int),
                call_ready(m, offs, i),
                params@ == m.func_args(fv as int),
                fv == op(m, i, 0),
                n == params@.len(),
                0 <= k <= n,
                gidx == count_greg(m, params@.take(k as int)),
                fidx == count_freg(m, params@.take(k as int)),
                lines(self.output@) == before + call_args_lines(m, offs, params@.take(k as int), ops),
            decreases n - k,
        {
            let p = params[k];
            let x = self.m.values[i].operands[k + 1];
            proof {
                lemma_count_prefix(m, params@, k as int);
                assert(params@.take(k + 1).drop_last() =~= params@.take(k as int));
                assert(params@.take(k + 1).last() == p);
                assert(typed(m, params@[k as int] as nat));
            }
            let ty = self.m.ty(self.m.values[p].type_);
            if ty.is_ptr() || ty.is_int() || ty.is_bool() {
                self.load_to_greg(&ValuePtr(x), &Reg::a(gidx));
                gidx = gidx + 1;
            } else if ty.is_float() {
                self.load_to_freg(&ValuePtr(x), &FReg::fa(fidx));
                fidx = fidx + 1;
            }
            k = k + 1;
        }
        assert(params@.take(n as int) =~= params@);
        self.append_inst_parts("call", args1(ValuePtr(fv).get_name(&self.m)));
        let ft = self.m.values[fv].type_;
        let rt = match self.m.ty(ft).get_func_ret_ty() {
            Some(r) => r,
            None => 0,
        };
        let rty = self.m.ty(rt);
        if rty.is_int() || rty.is_bool() {
            self.store_from_greg(&ValuePtr(i), &Reg::a(0));
        } else if rty.is_float() {
            self.store_from_freg(&ValuePtr(i), &FReg::fa(0));
        }
        assert(lines(self.output@) =~= before + call_lines(m, offs, i));
    }

    /// Generates the prologue of the current function.
    pub fn gen_prologue(&mut self)
        requires
            old(self).context.func matches Some(f) && prologue_ready(
                old(self).m,
                old(self).context.offset_map@,
                old(self).context.frame_size,
                f as nat,
            ),
        ensures
            final(self).same_but_output(*old(self)),
            lines(final(self).output@) == lines(old(self).output@) + prologue_lines(
                old(self).m,
                old(self).context.offset_map@,
                old(self).context.frame_size,
                old(self).context.func.unwrap() as nat,
            ),
    {
        let ghost before = lines(self.output@);
        let ghost m = self.m;
        let ghost offs = self.context.offset_map@;
        let frame_size = self.context.frame_size;
        let neg = -(frame_size as i32);
        if is_imm_12(neg) {
            self.append_inst(string_of("sd ra, -8(sp)"));
            self.append_inst(string_of("sd s0, -16(sp)"));
            self.append_inst(string_of("addi s0, sp, 0"));
            let mut t = string_of("addi sp, sp, ");
            push_string(&mut t, &int_string(neg as i64));
            self.append_inst(t);
        } else {
            self.load_large_int64(frame_size as i64, &Reg::t(0));
            self.append_inst(string_of("sd ra, -8(sp)"));
            self.append_inst(string_of("sd s0, -16(sp)"));
            self.append_inst(string_of("sub sp, sp, t0"));
            self.append_inst(string_of("add s0, sp, t0"));
        }
        let ghost mid = lines(self.output@);
        let f = self.context.func.unwrap();
        let args = crate::ir::value::FunctionPtr(f).get_args(&self.m);
        let n = args.len();
        let mut garg: u32 = 0;
        let mut farg: u32 = 0;
        let mut k: usize = 0;
        while k < n
            invariant
                self.m == m,
                self.context.offset_map@ == offs,
                self.same_but_output(*old(self)),
                prologue_ready(m, offs, frame_size, f as nat),
                args@ == m.func_args(f as int),
                n == args@.len(),
                0 <= k <= n,
                garg == count_nonfloat(m, args@.take(k as int)),
                farg == count_float(m, args@.take(k as int)),
                lines(self.output@) == mid + arg_store_lines(m, offs, args@.take(k as int)),
            decreases n - k,
        {
            let a = args[k];
            proof {
                lemma_count_float_prefix(m, args@, k as int);
                assert(args@.take(k + 1).drop_last() =~= args@.take(k as int));
                assert(args@.take(k + 1).last() == a);
                assert(typed(m, args@[k as int] as nat));
            }
            if self.m.ty(self.m.values[a].type_).is_float() {
                self.store_from_freg(&ValuePtr(a), &FReg::fa(farg));
                farg = farg + 1;
            } else {
                self.store_from_greg(&ValuePtr(a), &Reg::a(garg));
                garg = garg + 1;
            }
            k = k + 1;
        }
        assert(args@.take(n as int) =~= args@);
        assert(lines(self.output@) =~= before + prologue_lines(m, offs, frame_size, f as nat));
    }

    /// Generates the epilogue of the current function.
    pub fn gen_epilogue(&mut self)
        requires
            old(self).context.func matches Some(f) && f < old(self).m.nv(),
            old(self).context.frame_size <= i32::MAX,
        ensures
            final(self).same_but_output(*old(self)),
            lines(final(self).output@) == lines(old(self).output@) + epilogue_lines(
                old(self).m,
                old(self).context.frame_size,
                old(self).context.func.unwrap() as nat,
            ),
    {
        let ghost before = lines(self.output@);
        let f = self.context.func.unwrap();
        let mut exit = ValuePtr(f).get_name(&self.m);
        push_str(&mut exit, "_exit");
        self.emit(AsmInst::Label(exit));
        let frame_size = self.context.frame_size;
        if is_imm_12(frame_size as i32) {
            self.append_inst(string_of("ld ra, -8(s0)"));
            self.append_inst(string_of("ld s0, -16(s0)"));
            let mut t = string_of("addi sp, sp, ");
            push_string(&mut t, &usize_string(frame_size));
            self.append_inst(t);
        } else {
            self.load_large_int64(frame_size as i64, &Reg::t(0));
            self.append_inst(string_of("ld ra, -8(s0)"));
            self.append_inst(string_of("ld s0, -16(s0)"));
            self.append_inst(string_of("add sp, sp, t0"));
        }
        self.append_inst(string_of("ret"));
        assert(lines(self.output@) =~= before + epilogue_lines(self.m, frame_size, f as nat));
    }

    /// Copies into phi `p` its incoming value from block `b`.
    fn copy_phi(&mut self, b: usize, p: usize)
        requires
            inst_ok(old(self).m, p),
            phi_copy_ready(old(self).m, old(self).context.offset_map@, b, p),
        ensures
            final(self).same_but_output(*old(self)),
            lines(final(self).output@) == lines(old(self).output@) + phi_copy_lines(
                old(self).m,
                old(self).context.offset_map@,
                b,
                p,
            ),
    {
        let ghost before = lines(self.output@);
        let ghost m = self.m;
        let ghost ops = m.ops(p as int);
        let n = self.m.values[p].operands.len();
        let mut j: usize = 1;
        while j < n
            invariant_except_break
                lines(self.output@) == before,
            invariant
                self.m == m,
                self.same_but_output(*old(self)),
                p < m.nv(),
                ops == m.ops(p as int),
                n == ops.len(),
                j >= 1,
                phi_pick(m, ops, b, j as nat) == phi_pick(m, ops, b, 1),
                phi_copy_ready(m, self.context.offset_map@, b, p),
            ensures
                lines(self.output@) == before + phi_copy_lines(m, self.context.offset_map@, b, p),
                self.m == m,
                self.same_but_output(*old(self)),
            decreases n - j,
        {
            let x = self.m.values[p].operands[j];
            if ValuePtr(x).to_bb(&self.m).is_some() && x == b {
                let l = self.m.values[p].operands[j - 1];
                if self.m.ty(self.m.values[l].type_).is_float() {
                    self.load_to_freg(&ValuePtr(l), &FReg::fa(0));
                    self.store_from_freg(&ValuePtr(p), &FReg::fa(0));
                } else {
                    self.load_to_greg(&ValuePtr(l), &Reg::a(0));
                    self.store_from_greg(&ValuePtr(p), &Reg::a(0));
                }
                assert(lines(self.output@) =~= before + phi_copy_lines(m, self.context.offset_map@, b, p));
                break;
            }
            if n - j <= 2 {
                assert(phi_pick(m, ops, b, (j + 2) as nat) is None);
                assert(lines(self.output@) =~= before + phi_copy_lines(m, self.context.offset_map@, b, p));
                break;
            }
            j = j + 2;
        }
        proof {
            if j >= n {
                assert(lines(self.output@) =~= before + phi_copy_lines(m, self.context.offset_map@, b, p));
            }
        }
    }

    /// Copies, for every successor of the current block, the incoming values
    /// of its leading phis from this block.
    pub fn copy_stmt(&mut self)
        requires
            old(self).context.bb matches Some(b) && copy_ready(old(self).m, old(self).context.offset_map@, b),
        ensures
            final(self).same_but_output(*old(self)),
            lines(final(self).output@) == lines(old(self).output@) + succ_copies(
                old(self).m,
                old(self).context.offset_map@,
                old(self).context.bb.unwrap(),
                old(self).m.bb_succs(old(self).context.bb.unwrap() as int),
            ),
    {
        let ghost before = lines(self.output@);
        let ghost m = self.m;
        let ghost offs = self.context.offset_map@;
        let b = self.context.bb.unwrap();
        let succs: Vec<usize> = match &self.m.values[b].class {
            ValueClass::BasicBlock { succ_bbs, .. } => crate::ir::value_impl::copy_indices(succ_bbs),
            _ => Vec::new(),
        };
        let ns = succs.len();
        let mut k: usize = 0;
        while k < ns
            invariant
                self.m == m,
                self.context.offset_map@ == offs,
                self.same_but_output(*old(self)),
                copy_ready(m, offs, b),
                succs@ == m.bb_succs(b as int),
                ns == succs@.len(),
                0 <= k <= ns,
                lines(self.output@) == before + succ_copies(m, offs, b, succs@.take(k as int)),
            decreases ns - k,
        {
            let sb = succs[k];
            proof {
                assert(succs@.take(k + 1).drop_last() =~= succs@.take(k as int));
                assert(succs@.take(k + 1).last() == sb);
                assert(sb < m.nv());
            }
            let ghost base = lines(self.output@);
            let insts = crate::ir::value::BasicBlockPtr(sb).get_insts(&self.m);
            let ni = insts.len();
            let mut q: usize = 0;
            while q < ni
                invariant
                    self.m == m,
                    self.context.offset_map@ == offs,
                    self.same_but_output(*old(self)),
                    insts@ == m.bb_insts(sb as int),
                    ni == insts@.len(),
                    0 <= q <= ni,
                    block_phis_ready(m, offs, b, insts@, q as nat),
                    lines(self.output@) + block_phis_lines(m, offs, b, insts@, q as nat) == base + block_phis_lines(
                        m,
                        offs,
                        b,
                        insts@,
                        0,
                    ),
                ensures
                    self.m == m,
                    self.context.offset_map@ == offs,
                    self.same_but_output(*old(self)),
                    lines(self.output@) == base + block_phis_lines(m, offs, b, insts@, 0),
                decreases ni - q,
            {
                let x = insts[q];
                if InstPtr(x).get_inst_op_id(&self.m) == OpID::Phi {
                    let ghost here = lines(self.output@);
                    self.copy_phi(b, x);
                    assert(lines(self.output@) + block_phis_lines(m, offs, b, insts@, (q + 1) as nat) =~= here
                        + block_phis_lines(m, offs, b, insts@, q as nat));
                } else {
                    assert(lines(self.output@) =~= lines(self.output@) + block_phis_lines(m, offs, b, insts@, q as nat));
                    break;
                }
                q = q + 1;
            }
            proof {
                if q >= ni {
                    assert(lines(self.output@) =~= lines(self.output@) + block_phis_lines(m, offs, b, insts@, q as nat));
                }
            }
            k = k + 1;
        }
        assert(succs@.take(ns as int) =~= succs@);
    }

    /// Generates the code of the instruction at hand.
    pub fn gen_inst(&mut self)
        requires
            old(self).m.types_wf(),
            old(self).context.func matches Some(f) && old(self).context.bb matches Some(b)
                && old(self).context.inst matches Some(i) && inst_body_ready(
                old(self).m,
                old(self).context.offset_map@,
                f,
                b,
                i,
            ),
        ensures
            final(self).same_but_output(*old(self)),
            lines(final(self).output@) == lines(old(self).output@) + inst_body_lines(
                old(self).m,
                old(self).context.offset_map@,
                old(self).context.func.unwrap(),
                old(self).context.bb.unwrap(),
                old(self).context.inst.unwrap(),
            ),
    {
        let ghost before = lines(self.output@);
        let ghost m = self.m;
        let ghost offs = self.context.offset_map@;
        let i = self.context.inst.unwrap();
        match InstPtr(i).get_inst_op_id(&self.m) {
            OpID::Ret => self.gen_ret(),
            OpID::Br => {
                self.copy_stmt();
                let ghost mid = lines(self.output@);
                self.gen_br();
                assert(lines(self.output@) =~= before + inst_body_lines(
                    m,
                    offs,
                    self.context.func.unwrap(),
                    self.context.bb.unwrap(),
                    i,
                ));
            },
            OpID::Add | OpID::Sub | OpID::Mul | OpID::SDiv => self.gen_binary(),
            OpID::FAdd | OpID::FSub | OpID::FMul | OpID::FDiv => self.gen_float_binary(),
            OpID::Alloca => self.gen_alloca(),
            OpID::Load => self.gen_load(),
            OpID::Store => self.gen_store(),
            OpID::Ge | OpID::Gt | OpID::Le | OpID::Lt | OpID::Eq | OpID::Ne => self.gen_icmp(),
            OpID::FGe | OpID::FGt | OpID::FLe | OpID::FLt | OpID::FEq | OpID::FNe => self.gen_fcmp(),
            OpID::Phi => {
                assert(lines(self.output@) =~= before + inst_body_lines(
                    m,
                    offs,
                    self.context.func.unwrap(),
                    self.context.bb.unwrap(),
                    i,
                ));
            },
            OpID::Call => self.gen_call(),
            OpID::GetElementPtr => self.gen_gep(),
            OpID::ZExt => self.gen_zext(),
            OpID::FPToSI => self.gen_fptosi(),
            OpID::SIToFP => self.gen_sitofp(),
        }
    }

    /// Generates block `b` of the current function: its label, then each
    /// instruction after a comment naming it.
    pub fn gen_block(&mut self, b: usize)
        requires
            old(self).m.wf(),
            old(self).context.func matches Some(f) && labelable(old(self).m, b as nat) && forall|q: int|
                0 <= q < old(self).m.bb_insts(b as int).len() ==> inst_body_ready(
                    old(self).m,
                    old(self).context.offset_map@,
                    f,
                    b,
                    #[trigger] old(self).m.bb_insts(b as int)[q],
                ),
        ensures
            final(self).m == old(self).m,
            final(self).context.func == old(self).context.func,
            final(self).context.frame_size == old(self).context.frame_size,
            final(self).context.offset_map@ == old(self).context.offset_map@,
            lines(final(self).output@) == lines(old(self).output@) + seq![
                AsmLine::Label(label_text(old(self).m, b as int)),
            ] + insts_code(
                old(self).m,
                old(self).context.offset_map@,
                old(self).context.func.unwrap(),
                b,
                old(self).m.bb_insts(b as int),
            ),
    {
        let ghost before = lines(self.output@);
        let ghost m = self.m;
        let ghost offs = self.context.offset_map@;
        let f = self.context.func.unwrap();
        self.context.enter_block(b);
        let l = Self::label_name(&self.m, &crate::ir::value::BasicBlockPtr(b));
        self.emit(AsmInst::Label(l));
        let ghost head = lines(self.output@);
        let insts = crate::ir::value::BasicBlockPtr(b).get_insts(&self.m);
        let n = insts.len();
        let mut k: usize = 0;
        while k < n
            invariant
                self.m == m,
                m.wf(),
                self.context.offset_map@ == offs,
                self.context.func == Some(f),
                self.context.bb == Some(b),
                self.context.frame_size == old(self).context.frame_size,
                insts@ == m.bb_insts(b as int),
                n == insts@.len(),
                0 <= k <= n,
                forall|q: int| 0 <= q < m.bb_insts(b as int).len() ==> inst_body_ready(
                    m,
                    offs,
                    f,
                    b,
                    #[trigger] m.bb_insts(b as int)[q],
                ),
                lines(self.output@) == head + insts_code(m, offs, f, b, insts@.take(k as int)),
            decreases n - k,
        {
            let x = insts[k];
            proof {
                assert(inst_body_ready(m, offs, f, b, m.bb_insts(b as int)[k as int]));
                assert(insts@.take(k + 1).drop_last() =~= insts@.take(k as int));
                assert(insts@.take(k + 1).last() == x);
            }
            let o = InstPtr(x).get_inst_op_id(&self.m);
            self.emit(AsmInst::Comment(op_comment_string(o)));
            self.context.inst = Some(x);
            self.gen_inst();
            k = k + 1;
        }
        assert(insts@.take(n as int) =~= insts@);
    }

    /// Generates function `f`: its symbol directives and label, frame
    /// layout, prologue, blocks and epilogue.
    #[verifier::rlimit(100)]
    pub fn gen_function(&mut self, f: usize)
        requires
            old(self).m.wf(),
            f < old(self).m.nv(),
            old(self).m.class_of(f as int) is Function,
            old(self).m.func_bbs(f as int).len() > 0,
            func_ready(old(self).m, f),
        ensures
            final(self).m == old(self).m,
            lines(final(self).output@) == lines(old(self).output@) + func_code(old(self).m, f),
    {
        let ghost before = lines(self.output@);
        let ghost m = self.m;
        proof {
            reveal(func_ready);
        }
        assert(frame_layout(m, f as int, Map::empty()) is Some);
        assert(frame_size_of(m, f) <= i32::MAX);
        assert(prologue_ready(m, offsets_of(m, f), frame_size_of(m, f), f as nat));
        self.context.clear();
        self.context.func = Some(f);
        let name = ValuePtr(f).get_name(&self.m);
        let mut globl = string_of(".globl ");
        push_string(&mut globl, &name);
        self.emit(AsmInst::Attribute(globl));
        let mut ty = string_of(".type ");
        push_string(&mut ty, &name);
        push_str(&mut ty, ", @function");
        self.emit(AsmInst::Attribute(ty));
        self.emit(AsmInst::Label(name));
        self.allocate();
        let ghost offs = self.context.offset_map@;
        assert(offs == offsets_of(m, f));
        assert(self.context.frame_size == frame_size_of(m, f));
        self.gen_prologue();
        let ghost mid = lines(self.output@);
        let bbs = crate::ir::value::FunctionPtr(f).get_bbs(&self.m);
        let n = bbs.len();
        let mut j: usize = 0;
        while j < n
            invariant
                self.m == m,
                m.wf(),
                func_ready(m, f),
                m.func_bbs(f as int).len() > 0,
                offs == offsets_of(m, f),
                self.context.offset_map@ == offs,
                self.context.func == Some(f),
                self.context.frame_size == frame_size_of(m, f),
                bbs@ == m.func_bbs(f as int),
                n == bbs@.len(),
                0 <= j <= n,
                lines(self.output@) == mid + blocks_code(m, offs, f, bbs@.take(j as int)),
            decreases n - j,
        {
            let b = bbs[j];
            proof {
                assert(bbs@.take(j + 1).drop_last() =~= bbs@.take(j as int));
                assert(bbs@.take(j + 1).last() == b);
            }
            assert(labelable(m, b as nat) && forall|q: int|
                0 <= q < m.bb_insts(b as int).len() ==> inst_body_ready(
                    m,
                    offs,
                    f,
                    b,
                    #[trigger] m.bb_insts(b as int)[q],
                )) by {
                reveal(func_ready);
                assert(b == m.func_bbs(f as int)[j as int]);
            }
            self.gen_block(b);
            j = j + 1;
        }
        assert(bbs@.take(n as int) =~= bbs@);
        self.gen_epilogue();
        assert(lines(self.output@) =~= before + func_code(m, f));
    }

    /// Generates the whole program for the module as it is.
    #[verifier::rlimit(60)]
    pub fn gen_program(&mut self)
        requires
            old(self).m.wf(),
            program_ready(old(self).m),
        ensures
            final(self).m == old(self).m,
            lines(final(self).output@) == lines(old(self).output@) + program_lines(old(self).m),
    {
        let ghost before = lines(self.output@);
        let ghost m = self.m;
        let ng = self.m.gv_list.len();
        if ng > 0 {
            self.emit(AsmInst::Comment(string_of("Global variables")));
            self.emit(AsmInst::Attribute(string_of(".text")));
            self.emit(AsmInst::Attribute(string_of(".section .bss, \"aw\", @nobits")));
            let ghost head = lines(self.output@);
            let mut in_data = false;
            let mut k: usize = 0;
            while k < ng
                invariant
                    self.m == m,
                    m.wf(),
                    program_ready(m),
                    ng == m.gv_list@.len(),
                    0 <= k <= ng,
                    lines(self.output@) == head + gvs_lines(m, m.gv_list@.take(k as int)),
                    in_data == ends_in_data(m, m.gv_list@.take(k as int)),
                decreases ng - k,
            {
                let g = self.m.gv_list[k];
                proof {
                    assert(m.gv_list@.take(k + 1).drop_last() =~= m.gv_list@.take(k as int));
                    assert(m.gv_list@.take(k + 1).last() == g);
                    assert(crate::ir::module::seq_below(m.gv_list@, m.nv()));
                    assert(crate::ir::module::value_below(m.values@[g as int], m.nt(), m.nv()));
                    let t = m.type_of(g as int);
                    assert(crate::ir::type_::tdata_children_below(m.tdata_of(t as int), t as nat));
                }
                assert(ptr_elem_spec(m.tdata_of(m.type_of(g as int) as int)) is Some && sized(
                    m,
                    ptr_elem_spec(m.tdata_of(m.type_of(g as int) as int)).unwrap() as nat,
                )) by {
                    reveal(program_ready);
                    assert(g == m.gv_list@[k as int]);
                }
                in_data = self.gen_global(g, in_data);
                assert(lines(self.output@) =~= head + gvs_lines(m, m.gv_list@.take(k + 1)));
                k = k + 1;
            }
            assert(m.gv_list@.take(ng as int) =~= m.gv_list@);
        }
        self.emit(AsmInst::Attribute(string_of(".text")));
        self.gen_functions();
        assert(lines(self.output@) =~= before + program_lines(m));
    }

    /// Lays out global `g`, the one after a global in the data section
    /// (`prev_data`) or in the zero-initialised one; tells whether `g` went
    /// to the data section.
    fn gen_global(&mut self, g: usize, prev_data: bool) -> (now_data: bool)
        requires
            old(self).m.wf(),
            g < old(self).m.nv(),
            crate::ir::module::value_below(old(self).m.values@[g as int], old(self).m.nt(), old(self).m.nv()),
            crate::ir::type_::tdata_children_below(
                old(self).m.tdata_of(old(self).m.type_of(g as int) as int),
                old(self).m.type_of(g as int) as nat,
            ),
            ptr_elem_spec(old(self).m.tdata_of(old(self).m.type_of(g as int) as int)) is Some,
            sized(old(self).m, ptr_elem_spec(old(self).m.tdata_of(old(self).m.type_of(g as int) as int)).unwrap() as nat),
        ensures
            final(self).same_but_output(*old(self)),
            lines(final(self).output@) == lines(old(self).output@) + gv_lines(old(self).m, g, prev_data),
            now_data == gv_in_data(old(self).m, g),
    {
        let ghost before = lines(self.output@);
        let t = self.m.values[g].type_;
        let e = self.m.ty(t).get_ptr_elem_ty().unwrap();
        let size = Self::get_type_size(&self.m, e);
        let name = ValuePtr(g).get_name(&self.m);
        let sz = usize_string(size);
        let word = gv_init_word_of(&self.m, g);
        let now_data = word.is_some();
        if now_data != prev_data {
            if now_data {
                self.emit(AsmInst::Attribute(string_of(".section .data")));
            } else {
                self.emit(AsmInst::Attribute(string_of(".section .bss, \"aw\", @nobits")));
            }
        }
        let mut l1 = string_of(".globl ");
        push_string(&mut l1, &name);
        self.emit(AsmInst::Attribute(l1));
        let mut l2 = string_of(".type ");
        push_string(&mut l2, &name);
        push_str(&mut l2, ", @object");
        self.emit(AsmInst::Attribute(l2));
        let mut l3 = string_of(".size ");
        push_string(&mut l3, &name);
        push_str(&mut l3, ", ");
        push_string(&mut l3, &sz);
        self.emit(AsmInst::Attribute(l3));
        self.emit(AsmInst::Label(name));
        match word {
            Some(w) => {
                let mut l5 = string_of(".word ");
                push_string(&mut l5, &int_string(w));
                self.emit(AsmInst::Attribute(l5));
            },
            None => {
                let mut l5 = string_of(".space ");
                push_string(&mut l5, &sz);
                self.emit(AsmInst::Attribute(l5));
            },
        }
        assert(lines(self.output@) =~= before + gv_lines(self.m, g, prev_data));
        now_data
    }

    /// Generates every function of the module that has blocks, in order.
    #[verifier::rlimit(30)]
    fn gen_functions(&mut self)
        requires
            old(self).m.wf(),
            program_ready(old(self).m),
        ensures
            final(self).m == old(self).m,
            lines(final(self).output@) == lines(old(self).output@) + funcs_code(old(self).m, old(self).m.func_list@),
    {
        let ghost m = self.m;
        let ghost mid = lines(self.output@);
        let nf = self.m.func_list.len();
        let mut j: usize = 0;
        while j < nf
            invariant
                self.m == m,
                m.wf(),
                program_ready(m),
                nf == m.func_list@.len(),
                0 <= j <= nf,
                lines(self.output@) == mid + funcs_code(m, m.func_list@.take(j as int)),
            decreases nf - j,
        {
            let f = self.m.func_list[j];
            proof {
                assert(m.func_list@.take(j + 1).drop_last() =~= m.func_list@.take(j as int));
                assert(m.func_list@.take(j + 1).last() == f);
                assert(crate::ir::module::seq_below(m.func_list@, m.nv()));
                assert(m.class_of(m.func_list@[j as int] as int) is Function);
            }
            assert(func_ready(m, f)) by {
                reveal(program_ready);
                assert(f == m.func_list@[j as int]);
            }
            if crate::ir::value::FunctionPtr(f).get_num_bbs(&self.m) > 0 {
                self.gen_function(f);
            }
            j = j + 1;
        }
        assert(m.func_list@.take(nf as int) =~= m.func_list@);
    }

    /// Names the unnamed values of every function of the module, then
    /// generates the whole program.
    pub fn run(&mut self)
        requires
            old(self).m.wf(),
            program_ready(old(self).m),
        ensures
            final(self).m.wf(),
            final(self).m.frame_except_names(old(self).m),
            forall|x: int|
                0 <= x < old(self).m.nv() ==> #[trigger] final(self).m.values@[x].name@
                    == crate::ir::func_impl::module_auto_name(old(self).m, x, true),
            lines(final(self).output@) == lines(old(self).output@) + program_lines(final(self).m),
    {
        let ghost m0 = self.m;
        self.m.name_functions(true);
        proof {
            lemma_program_ready_renamed(m0, self.m);
        }
        self.gen_program();
    }
}

} // verus!
