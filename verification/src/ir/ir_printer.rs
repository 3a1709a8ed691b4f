//! Textual LLVM IR of a module: types, constants, operands, instructions,
//! blocks, functions and global variables. Each printer's result is stated
//! as a text function of the module.

use vstd::prelude::*;
use crate::ir::module::Module;
use crate::ir::type_::{ptr_elem_spec, TypeData};
use crate::ir::user::{ConstantClass, OpID};
use crate::ir::func_impl::{auto_name, func_param_tys, func_ret_ty, module_auto_name};
use crate::ir::value::{BasicBlockPtr, ConstantPtr, FunctionPtr, GVPtr, InstPtr, ValueClass, ValuePtr};
use vstd::arithmetic::power2::{lemma2_to64, lemma_pow2_strictly_increases, lemma_pow2_unfold, pow2};
use crate::strutil::{decimal, int_decimal, int_string, push_decimal, push_str, push_string, string_of};

verus! {

/// Items of `parts` separated by `", "`.
pub open spec fn join_comma(parts: Seq<Seq<char>>) -> Seq<char>
    decreases parts.len(),
{
    if parts.len() == 0 {
        Seq::empty()
    } else if parts.len() == 1 {
        parts[0]
    } else {
        join_comma(parts.drop_last()) + ", "@ + parts.last()
    }
}

/// Concatenation of `parts`.
pub open spec fn concat(parts: Seq<Seq<char>>) -> Seq<char>
    decreases parts.len(),
{
    if parts.len() == 0 {
        Seq::empty()
    } else {
        concat(parts.drop_last()) + parts.last()
    }
}

/// One more item at the end of a comma-separated list.
pub proof fn lemma_join_comma_push(parts: Seq<Seq<char>>, x: Seq<char>)
    ensures
        join_comma(parts.push(x)) == if parts.len() == 0 {
            x
        } else {
            join_comma(parts) + ", "@ + x
        },
{
    assert(parts.push(x).drop_last() =~= parts);
}

/// One more item at the end of a concatenation.
pub proof fn lemma_concat_push(parts: Seq<Seq<char>>, x: Seq<char>)
    ensures
        concat(parts.push(x)) == concat(parts) + x,
{
    assert(parts.push(x).drop_last() =~= parts);
}

/// LLVM spelling of the type at index `t` of the type table.
pub open spec fn type_text(m: Module, t: nat) -> Seq<char>
    decreases t, 1nat, 0nat,
{
    if t >= m.nt() {
        Seq::empty()
    } else {
        match m.tdata_of(t as int) {
            TypeData::VoidType => "void"@,
            TypeData::LabelType => "label"@,
            TypeData::IntegerType => "i32"@,
            TypeData::FloatType => "float"@,
            TypeData::BoolType => "i1"@,
            TypeData::FunctionType(f) => {
                let ret = if f.result < t {
                    type_text(m, f.result as nat)
                } else {
                    Seq::empty()
                };
                ret + " ("@ + type_list_text(m, t, f.args@) + ")"@
            },
            TypeData::PointerType(p) => {
                let item = if p.item < t {
                    type_text(m, p.item as nat)
                } else {
                    Seq::empty()
                };
                item + "*"@
            },
            TypeData::ArrayType(a) => {
                let item = if a.item < t {
                    type_text(m, a.item as nat)
                } else {
                    Seq::empty()
                };
                "["@ + decimal(a.elem_count as nat) + " x "@ + item + "]"@
            },
        }
    }
}

/// The types `args` (each below `t`) separated by `", "`.
pub open spec fn type_list_text(m: Module, t: nat, args: Seq<usize>) -> Seq<char>
    decreases t, 0nat, args.len(),
{
    if args.len() == 0 {
        Seq::empty()
    } else {
        let last = if args.last() < t {
            type_text(m, args.last() as nat)
        } else {
            Seq::empty()
        };
        if args.len() == 1 {
            last
        } else {
            type_list_text(m, t, args.drop_last()) + ", "@ + last
        }
    }
}

/// Prints the type at index `t`.
pub fn print_type(m: &Module, t: usize) -> (r: String)
    requires
        m.types_wf(),
        t < m.nt(),
    ensures
        r@ == type_text(*m, t as nat),
    decreases t,
{
    let ty = m.ty(t);
    proof {
        assert(crate::ir::type_::tdata_children_below(m.tdata_of(t as int), t as nat));
    }
    match ty.tdata() {
        TypeData::VoidType => string_of("void"),
        TypeData::LabelType => string_of("label"),
        TypeData::IntegerType => string_of("i32"),
        TypeData::FloatType => string_of("float"),
        TypeData::BoolType => string_of("i1"),
        TypeData::FunctionType(f) => {
            let mut s = print_type(m, f.result);
            push_str(&mut s, " (");
            let ghost head = s@;
            let n = f.args.len();
            let mut i: usize = 0;
            while i < n
                invariant
                    m.types_wf(),
                    t < m.nt(),
                    m.tdata_of(t as int) == TypeData::FunctionType(*f),
                    crate::ir::type_::tdata_children_below(m.tdata_of(t as int), t as nat),
                    n == f.args@.len(),
                    0 <= i <= n,
                    s@ == head + type_list_text(*m, t as nat, f.args@.take(i as int)),
                decreases n - i,
            {
                if i > 0 {
                    push_str(&mut s, ", ");
                }
                let a = print_type(m, f.args[i]);
                push_string(&mut s, &a);
                proof {
                    let pre = f.args@.take(i as int);
                    assert(f.args@.take(i + 1).drop_last() =~= pre);
                    assert(f.args@.take(i + 1).last() == f.args@[i as int]);
                    if i == 0 {
                        assert(type_list_text(*m, t as nat, pre) =~= Seq::<char>::empty());
                    }
                }
                i = i + 1;
            }
            assert(f.args@.take(n as int) =~= f.args@);
            push_str(&mut s, ")");
            s
        },
        TypeData::PointerType(p) => {
            let mut s = print_type(m, p.item);
            push_str(&mut s, "*");
            s
        },
        TypeData::ArrayType(a) => {
            let mut s = string_of("[");
            push_decimal(&mut s, a.elem_count as u64);
            push_str(&mut s, " x ");
            let item = print_type(m, a.item);
            push_string(&mut s, &item);
            push_str(&mut s, "]");
            s
        },
    }
}

/// The mnemonic of an opcode in the textual IR (comparisons give their
/// predicate).
pub open spec fn op_name(id: OpID) -> Seq<char> {
    match id {
        OpID::Ret => "ret"@,
        OpID::Br => "br"@,
        OpID::Add => "add"@,
        OpID::Sub => "sub"@,
        OpID::Mul => "mul"@,
        OpID::SDiv => "sdiv"@,
        OpID::FAdd => "fadd"@,
        OpID::FSub => "fsub"@,
        OpID::FMul => "fmul"@,
        OpID::FDiv => "fdiv"@,
        OpID::Alloca => "alloca"@,
        OpID::Load => "load"@,
        OpID::Store => "store"@,
        OpID::Ge => "sge"@,
        OpID::Gt => "sgt"@,
        OpID::Le => "sle"@,
        OpID::Lt => "slt"@,
        OpID::Eq => "eq"@,
        OpID::Ne => "ne"@,
        OpID::FGe => "uge"@,
        OpID::FGt => "ugt"@,
        OpID::FLe => "ule"@,
        OpID::FLt => "ult"@,
        OpID::FEq => "ueq"@,
        OpID::FNe => "une"@,
        OpID::Phi => "phi"@,
        OpID::Call => "call"@,
        OpID::GetElementPtr => "getelementptr"@,
        OpID::ZExt => "zext"@,
        OpID::FPToSI => "fptosi"@,
        OpID::SIToFP => "sitofp"@,
    }
}

/// The opcode an LLVM instruction name (or, for comparisons, `icmp` or
/// `fcmp` predicate) stands for in this IR; `None` for any other word.
pub open spec fn llvm_opcode(p: Seq<char>) -> Option<OpID> {
    if p == "ret"@ {
        Some(OpID::Ret)
    } else if p == "br"@ {
        Some(OpID::Br)
    } else if p == "add"@ {
        Some(OpID::Add)
    } else if p == "sub"@ {
        Some(OpID::Sub)
    } else if p == "mul"@ {
        Some(OpID::Mul)
    } else if p == "sdiv"@ {
        Some(OpID::SDiv)
    } else if p == "fadd"@ {
        Some(OpID::FAdd)
    } else if p == "fsub"@ {
        Some(OpID::FSub)
    } else if p == "fmul"@ {
        Some(OpID::FMul)
    } else if p == "fdiv"@ {
        Some(OpID::FDiv)
    } else if p == "alloca"@ {
        Some(OpID::Alloca)
    } else if p == "load"@ {
        Some(OpID::Load)
    } else if p == "store"@ {
        Some(OpID::Store)
    } else if p == "sge"@ {
        Some(OpID::Ge)
    } else if p == "sgt"@ {
        Some(OpID::Gt)
    } else if p == "sle"@ {
        Some(OpID::Le)
    } else if p == "slt"@ {
        Some(OpID::Lt)
    } else if p == "eq"@ {
        Some(OpID::Eq)
    } else if p == "ne"@ {
        Some(OpID::Ne)
    } else if p == "uge"@ {
        Some(OpID::FGe)
    } else if p == "ugt"@ {
        Some(OpID::FGt)
    } else if p == "ule"@ {
        Some(OpID::FLe)
    } else if p == "ult"@ {
        Some(OpID::FLt)
    } else if p == "ueq"@ {
        Some(OpID::FEq)
    } else if p == "une"@ {
        Some(OpID::FNe)
    } else if p == "phi"@ {
        Some(OpID::Phi)
    } else if p == "call"@ {
        Some(OpID::Call)
    } else if p == "getelementptr"@ {
        Some(OpID::GetElementPtr)
    } else if p == "zext"@ {
        Some(OpID::ZExt)
    } else if p == "fptosi"@ {
        Some(OpID::FPToSI)
    } else if p == "sitofp"@ {
        Some(OpID::SIToFP)
    } else {
        None
    }
}

/// Every opcode prints as the LLVM word that stands for it, so no two
/// opcodes print alike.
#[verifier::rlimit(100)]
pub proof fn law_op_names_denote_their_opcode(id: OpID)
    ensures
        llvm_opcode(op_name(id)) == Some(id),
{
    reveal_strlit("ret");
    assert("ret"@.len() == 3 && "ret"@[0] == 'r' && "ret"@[1] == 'e' && "ret"@[2] == 't');
    reveal_strlit("br");
    assert("br"@.len() == 2 && "br"@[0] == 'b' && "br"@[1] == 'r');
    reveal_strlit("add");
    assert("add"@.len() == 3 && "add"@[0] == 'a' && "add"@[1] == 'd' && "add"@[2] == 'd');
    reveal_strlit("sub");
    assert("sub"@.len() == 3 && "sub"@[0] == 's' && "sub"@[1] == 'u' && "sub"@[2] == 'b');
    reveal_strlit("mul");
    assert("mul"@.len() == 3 && "mul"@[0] == 'm' && "mul"@[1] == 'u' && "mul"@[2] == 'l');
    reveal_strlit("sdiv");
    assert("sdiv"@.len() == 4 && "sdiv"@[0] == 's' && "sdiv"@[1] == 'd' && "sdiv"@[2] == 'i' && "sdiv"@[3] == 'v');
    reveal_strlit("fadd");
    assert("fadd"@.len() == 4 && "fadd"@[0] == 'f' && "fadd"@[1] == 'a' && "fadd"@[2] == 'd' && "fadd"@[3] == 'd');
    reveal_strlit("fsub");
    assert("fsub"@.len() == 4 && "fsub"@[0] == 'f' && "fsub"@[1] == 's' && "fsub"@[2] == 'u' && "fsub"@[3] == 'b');
    reveal_strlit("fmul");
    assert("fmul"@.len() == 4 && "fmul"@[0] == 'f' && "fmul"@[1] == 'm' && "fmul"@[2] == 'u' && "fmul"@[3] == 'l');
    reveal_strlit("fdiv");
    assert("fdiv"@.len() == 4 && "fdiv"@[0] == 'f' && "fdiv"@[1] == 'd' && "fdiv"@[2] == 'i' && "fdiv"@[3] == 'v');
    reveal_strlit("alloca");
    assert("alloca"@.len() == 6 && "alloca"@[0] == 'a' && "alloca"@[1] == 'l' && "alloca"@[2] == 'l' && "alloca"@[3] == 'o' && "alloca"@[4] == 'c' && "alloca"@[5] == 'a');
    reveal_strlit("load");
    assert("load"@.len() == 4 && "load"@[0] == 'l' && "load"@[1] == 'o' && "load"@[2] == 'a' && "load"@[3] == 'd');
    reveal_strlit("store");
    assert("store"@.len() == 5 && "store"@[0] == 's' && "store"@[1] == 't' && "store"@[2] == 'o' && "store"@[3] == 'r' && "store"@[4] == 'e');
    reveal_strlit("sge");
    assert("sge"@.len() == 3 && "sge"@[0] == 's' && "sge"@[1] == 'g' && "sge"@[2] == 'e');
    reveal_strlit("sgt");
    assert("sgt"@.len() == 3 && "sgt"@[0] == 's' && "sgt"@[1] == 'g' && "sgt"@[2] == 't');
    reveal_strlit("sle");
    assert("sle"@.len() == 3 && "sle"@[0] == 's' && "sle"@[1] == 'l' && "sle"@[2] == 'e');
    reveal_strlit("slt");
    assert("slt"@.len() == 3 && "slt"@[0] == 's' && "slt"@[1] == 'l' && "slt"@[2] == 't');
    reveal_strlit("eq");
    assert("eq"@.len() == 2 && "eq"@[0] == 'e' && "eq"@[1] == 'q');
    reveal_strlit("ne");
    assert("ne"@.len() == 2 && "ne"@[0] == 'n' && "ne"@[1] == 'e');
    reveal_strlit("uge");
    assert("uge"@.len() == 3 && "uge"@[0] == 'u' && "uge"@[1] == 'g' && "uge"@[2] == 'e');
    reveal_strlit("ugt");
    assert("ugt"@.len() == 3 && "ugt"@[0] == 'u' && "ugt"@[1] == 'g' && "ugt"@[2] == 't');
    reveal_strlit("ule");
    assert("ule"@.len() == 3 && "ule"@[0] == 'u' && "ule"@[1] == 'l' && "ule"@[2] == 'e');
    reveal_strlit("ult");
    assert("ult"@.len() == 3 && "ult"@[0] == 'u' && "ult"@[1] == 'l' && "ult"@[2] == 't');
    reveal_strlit("ueq");
    assert("ueq"@.len() == 3 && "ueq"@[0] == 'u' && "ueq"@[1] == 'e' && "ueq"@[2] == 'q');
    reveal_strlit("une");
    assert("une"@.len() == 3 && "une"@[0] == 'u' && "une"@[1] == 'n' && "une"@[2] == 'e');
    reveal_strlit("phi");
    assert("phi"@.len() == 3 && "phi"@[0] == 'p' && "phi"@[1] == 'h' && "phi"@[2] == 'i');
    reveal_strlit("call");
    assert("call"@.len() == 4 && "call"@[0] == 'c' && "call"@[1] == 'a' && "call"@[2] == 'l' && "call"@[3] == 'l');
    reveal_strlit("getelementptr");
    assert("getelementptr"@.len() == 13 && "getelementptr"@[0] == 'g' && "getelementptr"@[1] == 'e' && "getelementptr"@[2] == 't' && "getelementptr"@[3] == 'e' && "getelementptr"@[4] == 'l' && "getelementptr"@[5] == 'e' && "getelementptr"@[6] == 'm' && "getelementptr"@[7] == 'e' && "getelementptr"@[8] == 'n' && "getelementptr"@[9] == 't' && "getelementptr"@[10] == 'p' && "getelementptr"@[11] == 't' && "getelementptr"@[12] == 'r');
    reveal_strlit("zext");
    assert("zext"@.len() == 4 && "zext"@[0] == 'z' && "zext"@[1] == 'e' && "zext"@[2] == 'x' && "zext"@[3] == 't');
    reveal_strlit("fptosi");
    assert("fptosi"@.len() == 6 && "fptosi"@[0] == 'f' && "fptosi"@[1] == 'p' && "fptosi"@[2] == 't' && "fptosi"@[3] == 'o' && "fptosi"@[4] == 's' && "fptosi"@[5] == 'i');
    reveal_strlit("sitofp");
    assert("sitofp"@.len() == 6 && "sitofp"@[0] == 's' && "sitofp"@[1] == 'i' && "sitofp"@[2] == 't' && "sitofp"@[3] == 'o' && "sitofp"@[4] == 'f' && "sitofp"@[5] == 'p');
}

/// What comparison opcode `id` computes on two values, by their order
/// (integers, or floats that are not NaN); `None` for any other opcode.
pub open spec fn relation_of(id: OpID, a: int, b: int) -> Option<bool> {
    match id {
        OpID::Eq | OpID::FEq => Some(a == b),
        OpID::Ne | OpID::FNe => Some(a != b),
        OpID::Lt | OpID::FLt => Some(a < b),
        OpID::Le | OpID::FLe => Some(a <= b),
        OpID::Gt | OpID::FGt => Some(a > b),
        OpID::Ge | OpID::FGe => Some(a >= b),
        _ => None,
    }
}

/// Whether an LLVM `icmp` predicate `p` holds between signed integers `a`
/// and `b`; `None` for a word that is no signed or equality predicate.
pub open spec fn icmp_predicate_holds(p: Seq<char>, a: int, b: int) -> Option<bool> {
    if p == "eq"@ {
        Some(a == b)
    } else if p == "ne"@ {
        Some(a != b)
    } else if p == "slt"@ {
        Some(a < b)
    } else if p == "sle"@ {
        Some(a <= b)
    } else if p == "sgt"@ {
        Some(a > b)
    } else if p == "sge"@ {
        Some(a >= b)
    } else {
        None
    }
}

/// Whether an LLVM `fcmp` predicate `p` (an unordered one: true also when
/// an operand is NaN) holds between floats `a` and `b` that are not NaN,
/// given by their order; `None` for a word that is no such predicate.
pub open spec fn fcmp_predicate_holds(p: Seq<char>, a: int, b: int) -> Option<bool> {
    if p == "ueq"@ {
        Some(a == b)
    } else if p == "une"@ {
        Some(a != b)
    } else if p == "ult"@ {
        Some(a < b)
    } else if p == "ule"@ {
        Some(a <= b)
    } else if p == "ugt"@ {
        Some(a > b)
    } else if p == "uge"@ {
        Some(a >= b)
    } else {
        None
    }
}

/// The name printed for an integer comparison opcode is the `icmp`
/// predicate of the same relation: on every pair of integers the
/// predicate holds exactly when the comparison does.
pub proof fn law_icmp_names_mean_their_relation(id: OpID, a: int, b: int)
    requires
        id is Eq || id is Ne || id is Lt || id is Le || id is Gt || id is Ge,
    ensures
        icmp_predicate_holds(op_name(id), a, b) == relation_of(id, a, b),
{
    reveal_strlit("eq");
    assert("eq"@.len() == 2 && "eq"@[0] == 'e' && "eq"@[1] == 'q');
    reveal_strlit("ne");
    assert("ne"@.len() == 2 && "ne"@[0] == 'n' && "ne"@[1] == 'e');
    reveal_strlit("slt");
    assert("slt"@.len() == 3 && "slt"@[0] == 's' && "slt"@[1] == 'l' && "slt"@[2] == 't');
    reveal_strlit("sle");
    assert("sle"@.len() == 3 && "sle"@[0] == 's' && "sle"@[1] == 'l' && "sle"@[2] == 'e');
    reveal_strlit("sgt");
    assert("sgt"@.len() == 3 && "sgt"@[0] == 's' && "sgt"@[1] == 'g' && "sgt"@[2] == 't');
    reveal_strlit("sge");
    assert("sge"@.len() == 3 && "sge"@[0] == 's' && "sge"@[1] == 'g' && "sge"@[2] == 'e');
}

/// The name printed for a float comparison opcode is the `fcmp`
/// predicate of the same relation on floats that are not NaN.
pub proof fn law_fcmp_names_mean_their_relation(id: OpID, a: int, b: int)
    requires
        id is FEq || id is FNe || id is FLt || id is FLe || id is FGt || id is FGe,
    ensures
        fcmp_predicate_holds(op_name(id), a, b) == relation_of(id, a, b),
{
    reveal_strlit("ueq");
    assert("ueq"@.len() == 3 && "ueq"@[0] == 'u' && "ueq"@[1] == 'e' && "ueq"@[2] == 'q');
    reveal_strlit("une");
    assert("une"@.len() == 3 && "une"@[0] == 'u' && "une"@[1] == 'n' && "une"@[2] == 'e');
    reveal_strlit("ult");
    assert("ult"@.len() == 3 && "ult"@[0] == 'u' && "ult"@[1] == 'l' && "ult"@[2] == 't');
    reveal_strlit("ule");
    assert("ule"@.len() == 3 && "ule"@[0] == 'u' && "ule"@[1] == 'l' && "ule"@[2] == 'e');
    reveal_strlit("ugt");
    assert("ugt"@.len() == 3 && "ugt"@[0] == 'u' && "ugt"@[1] == 'g' && "ugt"@[2] == 't');
    reveal_strlit("uge");
    assert("uge"@.len() == 3 && "uge"@[0] == 'u' && "uge"@[1] == 'g' && "uge"@[2] == 'e');
}

pub fn op_id_name(id: OpID) -> (r: &'static str)
    ensures
        r@ == op_name(id),
{
    match id {
        OpID::Ret => "ret",
        OpID::Br => "br",
        OpID::Add => "add",
        OpID::Sub => "sub",
        OpID::Mul => "mul",
        OpID::SDiv => "sdiv",
        OpID::FAdd => "fadd",
        OpID::FSub => "fsub",
        OpID::FMul => "fmul",
        OpID::FDiv => "fdiv",
        OpID::Alloca => "alloca",
        OpID::Load => "load",
        OpID::Store => "store",
        OpID::Ge => "sge",
        OpID::Gt => "sgt",
        OpID::Le => "sle",
        OpID::Lt => "slt",
        OpID::Eq => "eq",
        OpID::Ne => "ne",
        OpID::FGe => "uge",
        OpID::FGt => "ugt",
        OpID::FLe => "ule",
        OpID::FLt => "ult",
        OpID::FEq => "ueq",
        OpID::FNe => "une",
        OpID::Phi => "phi",
        OpID::Call => "call",
        OpID::GetElementPtr => "getelementptr",
        OpID::ZExt => "zext",
        OpID::FPToSI => "fptosi",
        OpID::SIToFP => "sitofp",
    }
}


/// Uppercase hexadecimal digit of `d` (expected below 16).
pub open spec fn hex_digit(d: nat) -> char {
    if d < 10 {
        (48 + d) as char
    } else {
        (55 + d) as char
    }
}

/// The low `n` hexadecimal digits of `v`, most significant first, padded
/// with zeros.
pub open spec fn hex_fixed(v: nat, n: nat) -> Seq<char>
    decreases n,
{
    if n == 0 {
        Seq::empty()
    } else {
        hex_fixed(v / 16, (n - 1) as nat).push(hex_digit(v % 16))
    }
}

/// Appends the low `n` hexadecimal digits of `v`.
fn push_hex_fixed(s: &mut String, v: u64, n: u64)
    ensures
        final(s)@ == old(s)@ + hex_fixed(v as nat, n as nat),
    decreases n,
{
    if n == 0 {
        assert(old(s)@ + hex_fixed(v as nat, 0) =~= old(s)@);
        return ;
    }
    let ghost s0 = s@;
    push_hex_fixed(s, v / 16, n - 1);
    let d: u8 = (v % 16) as u8;
    let c: char = if d < 10 {
        (48u8 + d) as char
    } else {
        (55u8 + d) as char
    };
    assert(c == hex_digit((v % 16) as nat));
    crate::strutil::string_push(s, c);
    assert(s0 + hex_fixed(v as nat, n as nat) =~= (s0 + hex_fixed((v / 16) as nat, (n - 1) as nat)).push(c));
}

/// Doubles a nonzero subnormal significand `f` until its bit 23 is set,
/// counting the doublings in `s`.
pub open spec fn subnormal_norm(f: nat, s: nat) -> (nat, nat)
    decreases 0x1000000 - f,
{
    if f == 0 || f >= 0x800000 {
        (f, s)
    } else {
        subnormal_norm(2 * f, s + 1)
    }
}

/// The bit pattern of the double-precision number equal to the
/// single-precision number with bit pattern `b`. The widening is exact;
/// a NaN keeps its payload and gets the quiet bit, as the x86-64 and
/// AArch64 conversion instructions give it.
pub open spec fn widen_f32_bits(b: u32) -> nat {
    let sign: nat = (b / 0x80000000) as nat;
    let e: nat = ((b / 0x800000) % 0x100) as nat;
    let f: nat = (b % 0x800000) as nat;
    let (exp64, frac64) = if e == 0 {
        if f == 0 {
            (0nat, 0nat)
        } else {
            let (x, sh) = subnormal_norm(f, 0);
            ((897 - sh) as nat, ((x - 0x800000) * 0x20000000) as nat)
        }
    } else if e == 0xFF {
        if f == 0 {
            (0x7FFnat, 0nat)
        } else {
            let q: nat = if f >= 0x400000 {
                f
            } else {
                f + 0x400000
            };
            (0x7FFnat, q * 0x20000000)
        }
    } else {
        (e + 896, f * 0x20000000)
    };
    sign * 0x8000000000000000 + exp64 * 0x10000000000000 + frac64
}

/// `widen_f32_bits` computed on machine integers.
fn widen_f32_bits_exec(b: u32) -> (r: u64)
    ensures
        r as nat == widen_f32_bits(b),
{
    let sign: u64 = (b / 0x80000000) as u64;
    let e: u64 = ((b / 0x800000) % 0x100) as u64;
    let f: u64 = (b % 0x800000) as u64;
    let mut exp64: u64 = 0;
    let mut frac64: u64 = 0;
    if e == 0 {
        if f != 0 {
            let mut x: u64 = f;
            let mut sh: u64 = 0;
            let mut p: u64 = 1;
            proof {
                lemma2_to64();
            }
            while x < 0x800000
                invariant
                    0 < x < 0x1000000,
                    subnormal_norm(x as nat, sh as nat) == subnormal_norm(f as nat, 0),
                    p as nat == pow2(sh as nat),
                    1 <= p <= x,
                    sh <= 24,
                    pow2(24) == 0x1000000,
                decreases 0x1000000 - x,
            {
                proof {
                    lemma2_to64();
                    if sh > 23 {
                        lemma_pow2_strictly_increases(23, sh as nat);
                    }
                    assert(sh <= 23);
                    lemma_pow2_unfold((sh + 1) as nat);
                }
                x = 2 * x;
                sh = sh + 1;
                p = 2 * p;
            }
            proof {
                if sh >= 24 {
                    if sh > 24 {
                        lemma_pow2_strictly_increases(24, sh as nat);
                    }
                }
            }
            exp64 = 897 - sh;
            frac64 = (x - 0x800000) * 0x20000000;
        }
    } else if e == 0xFF {
        exp64 = 0x7FF;
        if f != 0 {
            let q: u64 = if f >= 0x400000 {
                f
            } else {
                f + 0x400000
            };
            frac64 = q * 0x20000000;
        }
    } else {
        exp64 = e + 896;
        frac64 = f * 0x20000000;
    }
    sign * 0x8000000000000000 + exp64 * 0x10000000000000 + frac64
}


/// Every array constant's elements sit below it in the arena.
pub open spec fn consts_below(m: Module) -> bool {
    forall|v: int|
        0 <= v < m.nv() ==> (#[trigger] m.class_of(v) matches ValueClass::Constant(ConstantClass::Arr(els))
            ==> forall|k: int| 0 <= k < els@.len() ==> els@[k] < v)
}

/// Text of the constant at index `c`: an integer (or `true`/`false` for a
/// boolean constant), the hexadecimal double-precision pattern of a float,
/// `zeroinitializer`, or a typed element list.
pub open spec fn const_text(m: Module, c: nat) -> Seq<char>
    decreases c, 1nat, 0nat,
{
    if c >= m.nv() {
        Seq::empty()
    } else {
        match m.class_of(c as int) {
            ValueClass::Constant(ConstantClass::Int(v)) => {
                if m.tdata_of(m.type_of(c as int) as int) is BoolType {
                    if v == 0 {
                        "false"@
                    } else {
                        "true"@
                    }
                } else {
                    int_decimal(v as int)
                }
            },
            ValueClass::Constant(ConstantClass::Float(b)) => "0x"@ + hex_fixed(widen_f32_bits(b), 16),
            ValueClass::Constant(ConstantClass::Zero) => "zeroinitializer"@,
            ValueClass::Constant(ConstantClass::Arr(els)) => type_text(m, m.type_of(c as int) as nat) + " ["@
                + const_list_text(m, c, els@) + "]"@,
            _ => Seq::empty(),
        }
    }
}

/// The typed constants `els` (each below `c`) separated by `", "`.
pub open spec fn const_list_text(m: Module, c: nat, els: Seq<usize>) -> Seq<char>
    decreases c, 0nat, els.len(),
{
    if els.len() == 0 {
        Seq::empty()
    } else {
        let e = els.last();
        let last = if e < c {
            type_text(m, m.type_of(e as int) as nat) + " "@ + const_text(m, e as nat)
        } else {
            Seq::empty()
        };
        if els.len() == 1 {
            last
        } else {
            const_list_text(m, c, els.drop_last()) + ", "@ + last
        }
    }
}

/// Prints the constant at index `c.0`.
pub fn print_constant(m: &Module, c: &ConstantPtr) -> (r: String)
    requires
        m.wf(),
        consts_below(*m),
        c.0 < m.nv(),
        m.class_of(c.0 as int) is Constant,
    ensures
        r@ == const_text(*m, c.0 as nat),
    decreases c.0,
{
    let ci = c.0;
    proof {
        assert(crate::ir::module::value_below(m.values@[ci as int], m.nt(), m.nv()));
    }
    match &m.values[ci].class {
        ValueClass::Constant(ConstantClass::Int(v)) => {
            let ty = m.values[ci].type_;
            if m.ty(ty).is_bool() {
                if *v == 0 {
                    string_of("false")
                } else {
                    string_of("true")
                }
            } else {
                int_string(*v as i64)
            }
        },
        ValueClass::Constant(ConstantClass::Float(b)) => {
            let mut s = string_of("0x");
            let w = widen_f32_bits_exec(*b);
            push_hex_fixed(&mut s, w, 16);
            s
        },
        ValueClass::Constant(ConstantClass::Zero) => string_of("zeroinitializer"),
        ValueClass::Constant(ConstantClass::Arr(els)) => {
            let mut s = print_type(m, m.values[ci].type_);
            push_str(&mut s, " [");
            let ghost head = s@;
            let n = els.len();
            let mut i: usize = 0;
            while i < n
                invariant
                    m.wf(),
                    consts_below(*m),
                    ci == c.0,
                    ci < m.nv(),
                    m.class_of(ci as int) == ValueClass::Constant(ConstantClass::Arr(*els)),
                    n == els@.len(),
                    0 <= i <= n,
                    s@ == head + const_list_text(*m, ci as nat, els@.take(i as int)),
                decreases n - i,
            {
                if i > 0 {
                    push_str(&mut s, ", ");
                }
                let e = els[i];
                proof {
                    assert(m.class_kinds_ok(m.values@[ci as int].class, m.values@[ci as int].type_));
                    assert(m.class_of(e as int) is Constant);
                    assert(e < ci);
                }
                let t = print_type(m, m.values[e].type_);
                push_string(&mut s, &t);
                push_str(&mut s, " ");
                let x = print_constant(m, &ConstantPtr(e));
                push_string(&mut s, &x);
                proof {
                    let pre = els@.take(i as int);
                    assert(els@.take(i + 1).drop_last() =~= pre);
                    assert(els@.take(i + 1).last() == e);
                    if i == 0 {
                        assert(const_list_text(*m, ci as nat, pre) =~= Seq::<char>::empty());
                    }
                }
                i = i + 1;
            }
            assert(els@.take(n as int) =~= els@);
            push_str(&mut s, "]");
            s
        },
        _ => String::new(),
    }
}


/// The name of the value at index `v`.
pub open spec fn name_text(m: Module, v: int) -> Seq<char> {
    m.values@[v].name@
}

/// A value as an operand: `@name` for globals and functions, the constant's
/// text for constants, `%name` otherwise; with `print_ty`, preceded by its
/// type and a space.
pub open spec fn as_op_text(m: Module, v: nat, print_ty: bool) -> Seq<char> {
    let ty_part = if print_ty {
        type_text(m, m.type_of(v as int) as nat) + " "@
    } else {
        Seq::empty()
    };
    let body = if m.class_of(v as int) is GlobalVariable || m.class_of(v as int) is Function {
        "@"@ + name_text(m, v as int)
    } else if m.class_of(v as int) is Constant {
        const_text(m, v)
    } else {
        "%"@ + name_text(m, v as int)
    };
    ty_part + body
}

/// The operands `ops` separated by `", "`.
pub open spec fn ops_text(m: Module, ops: Seq<usize>, print_ty: bool) -> Seq<char>
    decreases ops.len(),
{
    if ops.len() == 0 {
        Seq::empty()
    } else if ops.len() == 1 {
        as_op_text(m, ops[0] as nat, print_ty)
    } else {
        ops_text(m, ops.drop_last(), print_ty) + ", "@ + as_op_text(m, ops.last() as nat, print_ty)
    }
}

/// The first `k` incoming pairs of a phi, `[ value, block ]`, separated by
/// `", "`.
pub open spec fn phi_pairs_text(m: Module, ops: Seq<usize>, k: nat) -> Seq<char>
    decreases k,
{
    if k == 0 {
        Seq::empty()
    } else {
        let pair = "[ "@ + as_op_text(m, ops[2 * (k - 1)] as nat, false) + ", "@ + as_op_text(
            m,
            ops[2 * (k - 1) + 1] as nat,
            false,
        ) + " ]"@;
        if k == 1 {
            pair
        } else {
            phi_pairs_text(m, ops, (k - 1) as nat) + ", "@ + pair
        }
    }
}

/// Prints value `v` as an operand.
pub fn print_as_op(m: &Module, v: &ValuePtr, print_ty: bool) -> (r: String)
    requires
        m.wf(),
        consts_below(*m),
        v.0 < m.nv(),
    ensures
        r@ == as_op_text(*m, v.0 as nat, print_ty),
{
    let mut s = String::new();
    proof {
        assert(crate::ir::module::value_below(m.values@[v.0 as int], m.nt(), m.nv()));
    }
    if print_ty {
        let t = print_type(m, v.get_type(m));
        push_string(&mut s, &t);
        push_str(&mut s, " ");
    }
    if v.to_gv(m).is_some() || v.to_function(m).is_some() {
        push_str(&mut s, "@");
        let n = v.get_name(m);
        push_string(&mut s, &n);
    } else if let Some(c) = v.to_const(m) {
        let t = print_constant(m, &c);
        push_string(&mut s, &t);
    } else {
        push_str(&mut s, "%");
        let n = v.get_name(m);
        push_string(&mut s, &n);
    }
    assert(s@ =~= as_op_text(*m, v.0 as nat, print_ty));
    s
}

/// Appends the operands `ops[start..]`, separated by `", "`.
fn push_ops_text(s: &mut String, m: &Module, ops: &Vec<usize>, start: usize, print_ty: bool)
    requires
        m.wf(),
        consts_below(*m),
        start <= ops@.len(),
        crate::ir::module::seq_below(ops@, m.nv()),
    ensures
        final(s)@ == old(s)@ + ops_text(*m, ops@.skip(start as int), print_ty),
{
    let ghost head = s@;
    let n = ops.len();
    let mut i: usize = start;
    while i < n
        invariant
            m.wf(),
            consts_below(*m),
            n == ops@.len(),
            start <= i <= n,
            crate::ir::module::seq_below(ops@, m.nv()),
            s@ == head + ops_text(*m, ops@.subrange(start as int, i as int), print_ty),
        decreases n - i,
    {
        if i > start {
            push_str(s, ", ");
        }
        let t = print_as_op(m, &ValuePtr(ops[i]), print_ty);
        push_string(s, &t);
        proof {
            let pre = ops@.subrange(start as int, i as int);
            assert(ops@.subrange(start as int, i + 1).drop_last() =~= pre);
            assert(ops@.subrange(start as int, i + 1).last() == ops@[i as int]);
            if i == start {
                assert(ops_text(*m, pre, print_ty) =~= Seq::<char>::empty());
            }
        }
        i = i + 1;
    }
    assert(ops@.subrange(start as int, n as int) =~= ops@.skip(start as int));
}

/// Appends the first `k` incoming pairs of a phi.
#[verifier::rlimit(30)]
fn push_phi_pairs(s: &mut String, m: &Module, ops: &Vec<usize>, k: usize)
    requires
        m.wf(),
        consts_below(*m),
        2 * k <= ops@.len(),
        crate::ir::module::seq_below(ops@, m.nv()),
    ensures
        final(s)@ == old(s)@ + phi_pairs_text(*m, ops@, k as nat),
{
    let ghost head = s@;
    let n = ops.len();
    let mut i: usize = 0;
    while i < k
        invariant
            m.wf(),
            consts_below(*m),
            n == ops@.len(),
            2 * k <= ops@.len(),
            0 <= i <= k,
            crate::ir::module::seq_below(ops@, m.nv()),
            s@ == head + phi_pairs_text(*m, ops@, i as nat),
        decreases k - i,
    {
        if i > 0 {
            push_str(s, ", ");
        }
        push_str(s, "[ ");
        let a = print_as_op(m, &ValuePtr(ops[2 * i]), false);
        push_string(s, &a);
        push_str(s, ", ");
        let b = print_as_op(m, &ValuePtr(ops[2 * i + 1]), false);
        push_string(s, &b);
        push_str(s, " ]");
        proof {
            if i == 0 {
                assert(phi_pairs_text(*m, ops@, 0) =~= Seq::<char>::empty());
            }
        }
        assert(s@ =~= head + phi_pairs_text(*m, ops@, (i + 1) as nat));
        i = i + 1;
    }
}


/// `%name = ` for instruction `i`.
pub open spec fn def_text(m: Module, i: int) -> Seq<char> {
    "%"@ + name_text(m, i) + " = "@
}

/// The pointee of the pointer type at index `t`.
pub open spec fn pointee(m: Module, t: int) -> nat {
    match ptr_elem_spec(m.tdata_of(t)) {
        Some(e) => e as nat,
        None => 0,
    }
}

/// A two-operand instruction: `%name = {kw}{op} ty a, b`.
pub open spec fn bin_text(m: Module, i: int, kw: Seq<char>) -> Seq<char> {
    let ops = m.ops(i);
    def_text(m, i) + kw + op_name(m.inst_op(i)) + " "@ + type_text(m, m.type_of(ops[0] as int) as nat) + " "@
        + as_op_text(m, ops[0] as nat, false) + ", "@ + as_op_text(m, ops[1] as nat, false)
}

/// A conversion: `%name = {op} ty a to ty2`.
pub open spec fn conv_text(m: Module, i: int) -> Seq<char> {
    def_text(m, i) + op_name(m.inst_op(i)) + " "@ + as_op_text(m, m.ops(i)[0] as nat, true) + " to "@ + type_text(
        m,
        m.type_of(i) as nat,
    )
}

/// The textual form of instruction `i`.
pub open spec fn inst_text(m: Module, i: int) -> Seq<char> {
    let ops = m.ops(i);
    match m.inst_op(i) {
        OpID::Add | OpID::Sub | OpID::Mul | OpID::SDiv | OpID::FAdd | OpID::FSub | OpID::FMul | OpID::FDiv => bin_text(
            m,
            i,
            ""@,
        ),
        OpID::Ge | OpID::Gt | OpID::Le | OpID::Lt | OpID::Eq | OpID::Ne => bin_text(m, i, "icmp "@),
        OpID::FGe | OpID::FGt | OpID::FLe | OpID::FLt | OpID::FEq | OpID::FNe => bin_text(m, i, "fcmp "@),
        OpID::Call => {
            let ret = m.type_of(i);
            let head = if m.tdata_of(ret as int) is VoidType {
                Seq::empty()
            } else {
                def_text(m, i)
            };
            head + "call "@ + type_text(m, ret as nat) + " "@ + as_op_text(m, ops[0] as nat, false) + "("@
                + ops_text(m, ops.skip(1), true) + ")"@
        },
        OpID::Br => {
            if ops.len() == 3 {
                "br "@ + as_op_text(m, ops[0] as nat, true) + ", "@ + as_op_text(m, ops[1] as nat, true) + ", "@
                    + as_op_text(m, ops[2] as nat, true)
            } else {
                "br "@ + as_op_text(m, ops[0] as nat, true)
            }
        },
        OpID::Ret => {
            if ops.len() == 0 {
                "ret void"@
            } else {
                "ret "@ + as_op_text(m, ops[0] as nat, true)
            }
        },
        OpID::GetElementPtr => def_text(m, i) + "getelementptr "@ + type_text(
            m,
            pointee(m, m.type_of(ops[0] as int) as int),
        ) + ", "@ + ops_text(m, ops, true),
        OpID::Store => "store "@ + as_op_text(m, ops[0] as nat, true) + ", "@ + as_op_text(m, ops[1] as nat, true),
        OpID::Load => def_text(m, i) + "load "@ + type_text(m, pointee(m, m.type_of(ops[0] as int) as int)) + ", "@
            + as_op_text(m, ops[0] as nat, true),
        OpID::Alloca => def_text(m, i) + "alloca "@ + type_text(m, pointee(m, m.type_of(i) as int)),
        OpID::ZExt | OpID::FPToSI | OpID::SIToFP => conv_text(m, i),
        OpID::Phi => def_text(m, i) + "phi "@ + type_text(m, m.type_of(ops[0] as int) as nat) + " "@
            + phi_pairs_text(m, ops, ops.len() / 2),
    }
}

/// Instruction `i` has the operands its printed form reads, and pointer
/// types where a pointee is printed.
pub open spec fn printable_inst(m: Module, i: int) -> bool {
    let ops = m.ops(i);
    match m.inst_op(i) {
        OpID::Ret => true,
        OpID::Call | OpID::Br | OpID::ZExt | OpID::FPToSI | OpID::SIToFP | OpID::Phi => ops.len() >= 1,
        OpID::GetElementPtr | OpID::Load => ops.len() >= 1 && ptr_elem_spec(m.tdata_of(m.type_of(ops[0] as int) as int)) is Some,
        OpID::Alloca => ptr_elem_spec(m.tdata_of(m.type_of(i) as int)) is Some,
        _ => ops.len() >= 2,
    }
}

/// Appends `%name = ` for instruction `i`.
fn push_def(s: &mut String, m: &Module, i: usize)
    requires
        i < m.nv(),
    ensures
        final(s)@ == old(s)@ + def_text(*m, i as int),
{
    push_str(s, "%");
    let n = ValuePtr(i).get_name(m);
    push_string(s, &n);
    push_str(s, " = ");
    assert(final(s)@ =~= old(s)@ + def_text(*m, i as int));
}

/// Appends a two-operand instruction with keyword `kw`.
fn push_bin(s: &mut String, m: &Module, i: usize, ops: &Vec<usize>, kw: &str)
    requires
        m.wf(),
        consts_below(*m),
        i < m.nv(),
        m.class_of(i as int) is Inst,
        ops@ == m.ops(i as int),
        ops@.len() >= 2,
    ensures
        final(s)@ == old(s)@ + bin_text(*m, i as int, kw@),
{
    proof {
        assert(crate::ir::module::value_below(m.values@[i as int], m.nt(), m.nv()));
        assert(ops@[0] < m.nv() && ops@[1] < m.nv());
        assert(crate::ir::module::value_below(m.values@[ops@[0] as int], m.nt(), m.nv()));
    }
    push_def(s, m, i);
    push_str(s, kw);
    push_str(s, op_id_name(InstPtr(i).get_inst_op_id(m)));
    push_str(s, " ");
    let t = print_type(m, ValuePtr(ops[0]).get_type(m));
    push_string(s, &t);
    push_str(s, " ");
    let a = print_as_op(m, &ValuePtr(ops[0]), false);
    push_string(s, &a);
    push_str(s, ", ");
    let b = print_as_op(m, &ValuePtr(ops[1]), false);
    push_string(s, &b);
    assert(final(s)@ =~= old(s)@ + bin_text(*m, i as int, kw@));
}

/// Prints instruction `inst`.
#[verifier::rlimit(40)]
pub fn print_inst(m: &Module, inst: &InstPtr) -> (r: String)
    requires
        m.wf(),
        consts_below(*m),
        inst.0 < m.nv(),
        m.class_of(inst.0 as int) is Inst,
        printable_inst(*m, inst.0 as int),
    ensures
        r@ == inst_text(*m, inst.0 as int),
{
    let i = inst.0;
    let op = inst.get_inst_op_id(m);
    let ops = &m.values[i].operands;
    proof {
        assert(crate::ir::module::value_below(m.values@[i as int], m.nt(), m.nv()));
        assert(crate::ir::module::seq_below(ops@, m.nv()));
    }
    let mut s = String::new();
    match op {
        OpID::Add | OpID::Sub | OpID::Mul | OpID::SDiv | OpID::FAdd | OpID::FSub | OpID::FMul | OpID::FDiv => {
            push_bin(&mut s, m, i, ops, "");
        },
        OpID::Ge | OpID::Gt | OpID::Le | OpID::Lt | OpID::Eq | OpID::Ne => {
            push_bin(&mut s, m, i, ops, "icmp ");
        },
        OpID::FGe | OpID::FGt | OpID::FLe | OpID::FLt | OpID::FEq | OpID::FNe => {
            push_bin(&mut s, m, i, ops, "fcmp ");
        },
        OpID::Call => {
            let ret = m.values[i].type_;
            if !m.ty(ret).is_void() {
                push_def(&mut s, m, i);
            }
            push_str(&mut s, "call ");
            let t = print_type(m, ret);
            push_string(&mut s, &t);
            push_str(&mut s, " ");
            let f = print_as_op(m, &ValuePtr(ops[0]), false);
            push_string(&mut s, &f);
            push_str(&mut s, "(");
            push_ops_text(&mut s, m, ops, 1, true);
            push_str(&mut s, ")");
        },
        OpID::Br => {
            push_str(&mut s, "br ");
            let a = print_as_op(m, &ValuePtr(ops[0]), true);
            push_string(&mut s, &a);
            if ops.len() == 3 {
                push_str(&mut s, ", ");
                let b = print_as_op(m, &ValuePtr(ops[1]), true);
                push_string(&mut s, &b);
                push_str(&mut s, ", ");
                let c = print_as_op(m, &ValuePtr(ops[2]), true);
                push_string(&mut s, &c);
            }
        },
        OpID::Ret => {
            if ops.len() == 0 {
                push_str(&mut s, "ret void");
            } else {
                push_str(&mut s, "ret ");
                let a = print_as_op(m, &ValuePtr(ops[0]), true);
                push_string(&mut s, &a);
            }
        },
        OpID::GetElementPtr => {
            push_def(&mut s, m, i);
            push_str(&mut s, "getelementptr ");
            proof {
                assert(crate::ir::module::value_below(m.values@[ops@[0] as int], m.nt(), m.nv()));
                let pt = m.type_of(ops@[0] as int) as int;
                assert(crate::ir::type_::tdata_children_below(m.tdata_of(pt), pt as nat));
            }
            let e = m.ty(m.values[ops[0]].type_).get_ptr_elem_ty().unwrap();
            let t = print_type(m, e);
            push_string(&mut s, &t);
            push_str(&mut s, ", ");
            push_ops_text(&mut s, m, ops, 0, true);
            assert(ops@.skip(0) =~= ops@);
        },
        OpID::Store => {
            push_str(&mut s, "store ");
            let a = print_as_op(m, &ValuePtr(ops[0]), true);
            push_string(&mut s, &a);
            push_str(&mut s, ", ");
            let b = print_as_op(m, &ValuePtr(ops[1]), true);
            push_string(&mut s, &b);
        },
        OpID::Load => {
            push_def(&mut s, m, i);
            push_str(&mut s, "load ");
            proof {
                assert(crate::ir::module::value_below(m.values@[ops@[0] as int], m.nt(), m.nv()));
                let pt = m.type_of(ops@[0] as int) as int;
                assert(crate::ir::type_::tdata_children_below(m.tdata_of(pt), pt as nat));
            }
            let e = m.ty(m.values[ops[0]].type_).get_ptr_elem_ty().unwrap();
            let t = print_type(m, e);
            push_string(&mut s, &t);
            push_str(&mut s, ", ");
            let a = print_as_op(m, &ValuePtr(ops[0]), true);
            push_string(&mut s, &a);
        },
        OpID::Alloca => {
            push_def(&mut s, m, i);
            push_str(&mut s, "alloca ");
            proof {
                let pt = m.type_of(i as int) as int;
                assert(crate::ir::type_::tdata_children_below(m.tdata_of(pt), pt as nat));
            }
            let e = m.ty(m.values[i].type_).get_ptr_elem_ty().unwrap();
            let t = print_type(m, e);
            push_string(&mut s, &t);
        },
        OpID::ZExt | OpID::FPToSI | OpID::SIToFP => {
            push_def(&mut s, m, i);
            push_str(&mut s, op_id_name(op));
            push_str(&mut s, " ");
            let a = print_as_op(m, &ValuePtr(ops[0]), true);
            push_string(&mut s, &a);
            push_str(&mut s, " to ");
            let t = print_type(m, m.values[i].type_);
            push_string(&mut s, &t);
        },
        OpID::Phi => {
            push_def(&mut s, m, i);
            push_str(&mut s, "phi ");
            proof {
                assert(crate::ir::module::value_below(m.values@[ops@[0] as int], m.nt(), m.nv()));
            }
            let t = print_type(m, m.values[ops[0]].type_);
            push_string(&mut s, &t);
            push_str(&mut s, " ");
            push_phi_pairs(&mut s, m, ops, ops.len() / 2);
        },
    }
    assert(s@ =~= inst_text(*m, i as int));
    s
}


/// The padding and label in front of a block's predecessor list.
pub open spec fn preds_pad() -> Seq<char> {
    "                                                ; preds = "@
}

/// The blocks `preds` as `%name`, separated by `", "`.
pub open spec fn preds_text(m: Module, preds: Seq<usize>) -> Seq<char>
    decreases preds.len(),
{
    if preds.len() == 0 {
        Seq::empty()
    } else if preds.len() == 1 {
        "%"@ + name_text(m, preds[0] as int)
    } else {
        preds_text(m, preds.drop_last()) + ", "@ + "%"@ + name_text(m, preds.last() as int)
    }
}

/// The instructions `insts`, each indented by two spaces and ended by a
/// line break.
pub open spec fn insts_text(m: Module, insts: Seq<usize>) -> Seq<char>
    decreases insts.len(),
{
    if insts.len() == 0 {
        Seq::empty()
    } else {
        insts_text(m, insts.drop_last()) + "  "@ + inst_text(m, insts.last() as int) + "\n"@
    }
}

/// A block: its label line (with the predecessors, if any) and its
/// instructions.
pub open spec fn bb_text(m: Module, b: int) -> Seq<char> {
    let preds = m.bb_preds(b);
    let pred_part = if preds.len() == 0 {
        Seq::empty()
    } else {
        preds_pad() + preds_text(m, preds)
    };
    name_text(m, b) + ":"@ + pred_part + "\n"@ + insts_text(m, m.bb_insts(b))
}

/// Every instruction of block `b` can be printed.
pub open spec fn printable_bb(m: Module, b: int) -> bool {
    forall|k: int| 0 <= k < m.bb_insts(b).len() ==> printable_inst(m, #[trigger] m.bb_insts(b)[k] as int)
}

/// Prints block `bb`.
pub fn print_bb(m: &Module, bb: &BasicBlockPtr) -> (r: String)
    requires
        m.wf(),
        consts_below(*m),
        bb.0 < m.nv(),
        m.class_of(bb.0 as int) is BasicBlock,
        printable_bb(*m, bb.0 as int),
    ensures
        r@ == bb_text(*m, bb.0 as int),
{
    let b = bb.0;
    proof {
        assert(m.class_kinds_ok(m.values@[b as int].class, m.values@[b as int].type_));
        assert(crate::ir::module::value_below(m.values@[b as int], m.nt(), m.nv()));
    }
    let mut s = ValuePtr(b).get_name(m);
    push_str(&mut s, ":");
    let preds: Vec<usize> = match &m.values[b].class {
        ValueClass::BasicBlock { pre_bbs, .. } => crate::ir::value_impl::copy_indices(pre_bbs),
        _ => Vec::new(),
    };
    let ghost head = s@;
    if preds.len() > 0 {
        push_str(&mut s, "                                                ; preds = ");
        let ghost head2 = s@;
        let n = preds.len();
        let mut i: usize = 0;
        while i < n
            invariant
                m.wf(),
                n == preds@.len(),
                preds@ == m.bb_preds(b as int),
                crate::ir::module::seq_below(preds@, m.nv()),
                0 <= i <= n,
                s@ == head2 + preds_text(*m, preds@.take(i as int)),
            decreases n - i,
        {
            if i > 0 {
                push_str(&mut s, ", ");
            }
            push_str(&mut s, "%");
            let nm = ValuePtr(preds[i]).get_name(m);
            push_string(&mut s, &nm);
            proof {
                let pre = preds@.take(i as int);
                assert(preds@.take(i + 1).drop_last() =~= pre);
                assert(preds@.take(i + 1).last() == preds@[i as int]);
                if i == 0 {
                    assert(preds_text(*m, pre) =~= Seq::<char>::empty());
                }
            }
            assert(s@ =~= head2 + preds_text(*m, preds@.take(i + 1)));
            i = i + 1;
        }
        assert(preds@.take(n as int) =~= preds@);
    }
    push_str(&mut s, "\n");
    let ghost head3 = s@;
    let insts = bb.get_insts(m);
    let n = insts.len();
    let mut i: usize = 0;
    while i < n
        invariant
            m.wf(),
            consts_below(*m),
            b < m.nv(),
            m.class_of(b as int) is BasicBlock,
            printable_bb(*m, b as int),
            n == insts@.len(),
            insts@ == m.bb_insts(b as int),
            0 <= i <= n,
            s@ == head3 + insts_text(*m, insts@.take(i as int)),
        decreases n - i,
    {
        proof {
            assert(m.class_kinds_ok(m.values@[b as int].class, m.values@[b as int].type_));
            assert(crate::ir::module::value_below(m.values@[b as int], m.nt(), m.nv()));
            assert(m.class_of(insts@[i as int] as int) is Inst);
            assert(printable_inst(*m, m.bb_insts(b as int)[i as int] as int));
        }
        push_str(&mut s, "  ");
        let t = print_inst(m, &InstPtr(insts[i]));
        push_string(&mut s, &t);
        push_str(&mut s, "\n");
        proof {
            assert(insts@.take(i + 1).drop_last() =~= insts@.take(i as int));
            assert(insts@.take(i + 1).last() == insts@[i as int]);
        }
        assert(s@ =~= head3 + insts_text(*m, insts@.take(i + 1)));
        i = i + 1;
    }
    assert(insts@.take(n as int) =~= insts@);
    assert(s@ =~= bb_text(*m, b as int));
    s
}

/// The arguments `args` as `type %name`, separated by `", "`.
pub open spec fn args_text(m: Module, args: Seq<usize>) -> Seq<char>
    decreases args.len(),
{
    if args.len() == 0 {
        Seq::empty()
    } else {
        let a = args.last() as int;
        let last = type_text(m, m.type_of(a) as nat) + " %"@ + name_text(m, a);
        if args.len() == 1 {
            last
        } else {
            args_text(m, args.drop_last()) + ", "@ + last
        }
    }
}

/// The blocks `bbs`, one after another.
pub open spec fn bbs_text(m: Module, bbs: Seq<usize>) -> Seq<char>
    decreases bbs.len(),
{
    if bbs.len() == 0 {
        Seq::empty()
    } else {
        bbs_text(m, bbs.drop_last()) + bb_text(m, bbs.last() as int)
    }
}

/// A function: a `declare` line with the parameter types for a function
/// without blocks, else a `define` line with the named arguments and the
/// blocks in braces.
pub open spec fn function_text(m: Module, f: int) -> Seq<char> {
    let ret = type_text(m, func_ret_ty(m, f) as nat);
    let name = name_text(m, f);
    if m.func_bbs(f).len() == 0 {
        "declare "@ + ret + " @"@ + name + "("@ + type_list_text(m, m.type_of(f) as nat, func_param_tys(m, f)) + ")\n"@
    } else {
        "define "@ + ret + " @"@ + name + "("@ + args_text(m, m.func_args(f)) + ") {\n"@ + bbs_text(m, m.func_bbs(f))
            + "}\n"@
    }
}

/// Every block of function `f` can be printed.
pub open spec fn printable_func(m: Module, f: int) -> bool {
    forall|k: int| 0 <= k < m.func_bbs(f).len() ==> printable_bb(m, #[trigger] m.func_bbs(f)[k] as int)
}

/// Prints function `func` with the names its values have now.
pub fn print_named_function(m: &Module, func: &FunctionPtr) -> (r: String)
    requires
        m.wf(),
        consts_below(*m),
        func.0 < m.nv(),
        m.class_of(func.0 as int) is Function,
        printable_func(*m, func.0 as int),
    ensures
        r@ == function_text(*m, func.0 as int),
{
    let f = func.0;
    proof {
        assert(m.class_kinds_ok(m.values@[f as int].class, m.values@[f as int].type_));
        assert(crate::ir::module::value_below(m.values@[f as int], m.nt(), m.nv()));
    }
    let is_decl = func.get_num_bbs(m) == 0;
    let mut s = if is_decl {
        string_of("declare ")
    } else {
        string_of("define ")
    };
    let rt = print_type(m, func.get_return_type(m));
    push_string(&mut s, &rt);
    push_str(&mut s, " @");
    let nm = ValuePtr(f).get_name(m);
    push_string(&mut s, &nm);
    push_str(&mut s, "(");
    let ghost head = s@;
    if is_decl {
        let ft = func.get_type(m);
        let fty = m.ty(ft);
        proof {
            assert(crate::ir::type_::tdata_children_below(m.tdata_of(ft as int), ft as nat));
        }
        let n = fty.get_func_arg_num().unwrap();
        let ghost params = func_param_tys(*m, f as int);
        let mut i: usize = 0;
        while i < n
            invariant
                m.wf(),
                ft < m.nt(),
                ft == m.type_of(f as int),
                *fty == m.types@[ft as int],
                crate::ir::type_::tdata_children_below(m.tdata_of(ft as int), ft as nat),
                crate::ir::type_::func_args_spec(fty.tdata) == Some(params),
                n == params.len(),
                0 <= i <= n,
                s@ == head + type_list_text(*m, ft as nat, params.take(i as int)),
            decreases n - i,
        {
            if i > 0 {
                push_str(&mut s, ", ");
            }
            let p = fty.get_func_param_ty(i).unwrap();
            let t = print_type(m, p);
            push_string(&mut s, &t);
            proof {
                let pre = params.take(i as int);
                assert(params.take(i + 1).drop_last() =~= pre);
                assert(params.take(i + 1).last() == params[i as int]);
                if i == 0 {
                    assert(type_list_text(*m, ft as nat, pre) =~= Seq::<char>::empty());
                }
            }
            i = i + 1;
        }
        assert(params.take(n as int) =~= params);
        push_str(&mut s, ")\n");
    } else {
        let args = func.get_args(m);
        let n = args.len();
        let mut i: usize = 0;
        while i < n
            invariant
                m.wf(),
                n == args@.len(),
                args@ == m.func_args(f as int),
                crate::ir::module::seq_below(args@, m.nv()),
                0 <= i <= n,
                s@ == head + args_text(*m, args@.take(i as int)),
            decreases n - i,
        {
            if i > 0 {
                push_str(&mut s, ", ");
            }
            let a = args[i];
            proof {
                assert(crate::ir::module::value_below(m.values@[a as int], m.nt(), m.nv()));
            }
            let t = print_type(m, ValuePtr(a).get_type(m));
            push_string(&mut s, &t);
            push_str(&mut s, " %");
            let an = ValuePtr(a).get_name(m);
            push_string(&mut s, &an);
            proof {
                let pre = args@.take(i as int);
                assert(args@.take(i + 1).drop_last() =~= pre);
                assert(args@.take(i + 1).last() == a);
                if i == 0 {
                    assert(args_text(*m, pre) =~= Seq::<char>::empty());
                }
            }
            assert(s@ =~= head + args_text(*m, args@.take(i + 1)));
            i = i + 1;
        }
        assert(args@.take(n as int) =~= args@);
        push_str(&mut s, ") {\n");
        let ghost head2 = s@;
        let bbs = func.get_bbs(m);
        let nb = bbs.len();
        let mut j: usize = 0;
        while j < nb
            invariant
                m.wf(),
                consts_below(*m),
                f < m.nv(),
                m.class_of(f as int) is Function,
                printable_func(*m, f as int),
                nb == bbs@.len(),
                bbs@ == m.func_bbs(f as int),
                0 <= j <= nb,
                s@ == head2 + bbs_text(*m, bbs@.take(j as int)),
            decreases nb - j,
        {
            proof {
                assert(m.class_kinds_ok(m.values@[f as int].class, m.values@[f as int].type_));
                assert(crate::ir::module::value_below(m.values@[f as int], m.nt(), m.nv()));
                assert(m.class_of(bbs@[j as int] as int) is BasicBlock);
                assert(printable_bb(*m, m.func_bbs(f as int)[j as int] as int));
            }
            let t = print_bb(m, &BasicBlockPtr(bbs[j]));
            push_string(&mut s, &t);
            proof {
                assert(bbs@.take(j + 1).drop_last() =~= bbs@.take(j as int));
                assert(bbs@.take(j + 1).last() == bbs@[j as int]);
            }
            j = j + 1;
        }
        assert(bbs@.take(nb as int) =~= bbs@);
        push_str(&mut s, "}\n");
    }
    assert(s@ =~= function_text(*m, f as int));
    s
}


/// Naming values changes neither what can be printed nor the constants'
/// layout.
pub proof fn lemma_renamed_printable(m0: Module, m1: Module)
    requires
        m0.wf(),
        m1.frame_except_names(m0),
        consts_below(m0),
    ensures
        consts_below(m1),
        forall|f: int| 0 <= f < m0.nv() && printable_func(m0, f) ==> #[trigger] printable_func(m1, f),
{
    assert forall|v: int| 0 <= v < m1.nv() implies (#[trigger] m1.class_of(v) matches ValueClass::Constant(
        ConstantClass::Arr(els),
    ) ==> forall|k: int| 0 <= k < els@.len() ==> els@[k] < v) by {
        assert(m1.values@[v].class == m0.values@[v].class);
        assert(m0.class_of(v) == m1.class_of(v));
    }
    assert forall|f: int| 0 <= f < m0.nv() && printable_func(m0, f) implies #[trigger] printable_func(m1, f) by {
        assert(m1.values@[f].class == m0.values@[f].class);
        assert forall|k: int| 0 <= k < m1.func_bbs(f).len() implies printable_bb(m1, #[trigger] m1.func_bbs(f)[k] as int) by {
            let b = m1.func_bbs(f)[k] as int;
            assert(printable_bb(m0, m0.func_bbs(f)[k] as int));
            if 0 <= b < m0.nv() {
                assert(m1.values@[b].class == m0.values@[b].class);
                assert forall|q: int| 0 <= q < m1.bb_insts(b).len() implies printable_inst(m1, #[trigger] m1.bb_insts(b)[q] as int) by {
                    let i = m1.bb_insts(b)[q] as int;
                    assert(printable_inst(m0, m0.bb_insts(b)[q] as int));
                    if 0 <= i < m0.nv() {
                        assert(m1.values@[i] .class == m0.values@[i].class);
                        assert(m1.values@[i].operands@ == m0.values@[i].operands@);
                        let ops = m0.ops(i);
                        assert(crate::ir::module::value_below(m0.values@[i], m0.nt(), m0.nv()));
                        if ops.len() >= 1 {
                            assert(ops[0] < m0.nv());
                            assert(m1.values@[ops[0] as int].type_ == m0.values@[ops[0] as int].type_);
                        }
                    }
                }
            }
        }
    }
}

/// Names the unnamed values of `func` (unless it is a declaration) and
/// prints it.
pub fn print_function(m: &mut Module, func: &FunctionPtr) -> (r: String)
    requires
        old(m).wf(),
        consts_below(*old(m)),
        func.0 < old(m).nv(),
        old(m).class_of(func.0 as int) is Function,
        printable_func(*old(m), func.0 as int),
    ensures
        final(m).wf(),
        final(m).frame_except_names(*old(m)),
        forall|x: int|
            0 <= x < old(m).nv() ==> #[trigger] final(m).values@[x].name@ == if old(m).func_bbs(func.0 as int).len()
                == 0 {
                old(m).values@[x].name@
            } else {
                auto_name(*old(m), func.0 as int, x)
            },
        r@ == function_text(*final(m), func.0 as int),
{
    let ghost m0 = *m;
    if func.get_num_bbs(m) > 0 {
        func.set_inst_name(m);
    }
    proof {
        lemma_renamed_printable(m0, *m);
        assert(m.values@[func.0 as int].class == m0.values@[func.0 as int].class);
    }
    print_named_function(m, func)
}

/// A global variable: `@name = constant|global T init`, where `T` is the
/// pointee of its pointer type (or the type itself) and a global without
/// initialiser gets `zeroinitializer`.
pub open spec fn gv_text(m: Module, g: int) -> Seq<char> {
    match m.class_of(g) {
        ValueClass::GlobalVariable { is_const, init_val } => {
            let kw = if is_const {
                "constant "@
            } else {
                "global "@
            };
            let t = m.type_of(g);
            let elem = match ptr_elem_spec(m.tdata_of(t as int)) {
                Some(e) => e,
                None => t,
            };
            let init = match init_val {
                Some(c) => const_text(m, c as nat),
                None => "zeroinitializer"@,
            };
            "@"@ + name_text(m, g) + " = "@ + kw + type_text(m, elem as nat) + " "@ + init
        },
        _ => Seq::empty(),
    }
}

/// Prints global variable `gv`.
pub fn print_gv(m: &Module, gv: &GVPtr) -> (r: String)
    requires
        m.wf(),
        consts_below(*m),
        gv.0 < m.nv(),
        m.class_of(gv.0 as int) is GlobalVariable,
    ensures
        r@ == gv_text(*m, gv.0 as int),
{
    let g = gv.0;
    proof {
        assert(m.class_kinds_ok(m.values@[g as int].class, m.values@[g as int].type_));
        assert(crate::ir::module::value_below(m.values@[g as int], m.nt(), m.nv()));
    }
    let mut s = string_of("@");
    let nm = ValuePtr(g).get_name(m);
    push_string(&mut s, &nm);
    push_str(&mut s, " = ");
    if gv.is_const(m) {
        push_str(&mut s, "constant ");
    } else {
        push_str(&mut s, "global ");
    }
    let t = m.values[g].type_;
    proof {
        assert(crate::ir::type_::tdata_children_below(m.tdata_of(t as int), t as nat));
    }
    let elem = match m.ty(t).get_ptr_elem_ty() {
        Some(e) => e,
        None => t,
    };
    let ts = print_type(m, elem);
    push_string(&mut s, &ts);
    push_str(&mut s, " ");
    match &m.values[g].class {
        ValueClass::GlobalVariable { init_val: Some(c), .. } => {
            let cs = print_constant(m, &ConstantPtr(*c));
            push_string(&mut s, &cs);
        },
        _ => {
            push_str(&mut s, "zeroinitializer");
        },
    }
    assert(s@ =~= gv_text(*m, g as int));
    s
}

/// The global variables `gvs`, each followed by a line break.
pub open spec fn gvs_text(m: Module, gvs: Seq<usize>) -> Seq<char>
    decreases gvs.len(),
{
    if gvs.len() == 0 {
        Seq::empty()
    } else {
        gvs_text(m, gvs.drop_last()) + gv_text(m, gvs.last() as int) + "\n"@
    }
}

/// The functions `fs`, each followed by a line break.
pub open spec fn funcs_text(m: Module, fs: Seq<usize>) -> Seq<char>
    decreases fs.len(),
{
    if fs.len() == 0 {
        Seq::empty()
    } else {
        funcs_text(m, fs.drop_last()) + function_text(m, fs.last() as int) + "\n"@
    }
}

/// The whole module: its global variables, a blank line if there are any,
/// then its functions.
pub open spec fn module_text(m: Module) -> Seq<char> {
    let sep = if m.gv_list@.len() == 0 {
        Seq::empty()
    } else {
        "\n"@
    };
    gvs_text(m, m.gv_list@) + sep + funcs_text(m, m.func_list@)
}

/// Every function of the module can be printed.
pub open spec fn printable_module(m: Module) -> bool {
    &&& consts_below(m)
    &&& forall|k: int| 0 <= k < m.func_list@.len() ==> printable_func(m, #[trigger] m.func_list@[k] as int)
}

/// Appends the text of every function of the module, each followed by a
/// line break.
fn push_funcs_text(s: &mut String, m: &Module)
    requires
        m.wf(),
        consts_below(*m),
        forall|k: int| 0 <= k < m.func_list@.len() ==> printable_func(*m, #[trigger] m.func_list@[k] as int),
    ensures
        final(s)@ == old(s)@ + funcs_text(*m, m.func_list@),
{
    let ghost head = s@;
    let nf = m.func_list.len();
    let mut j: usize = 0;
    while j < nf
        invariant
            m.wf(),
            consts_below(*m),
            forall|k: int| 0 <= k < m.func_list@.len() ==> printable_func(*m, #[trigger] m.func_list@[k] as int),
            nf == m.func_list@.len(),
            0 <= j <= nf,
            s@ == head + funcs_text(*m, m.func_list@.take(j as int)),
        decreases nf - j,
    {
        proof {
            assert(crate::ir::module::seq_below(m.func_list@, m.nv()));
            assert(m.class_of(m.func_list@[j as int] as int) is Function);
            assert(printable_func(*m, m.func_list@[j as int] as int));
        }
        let t = print_named_function(m, &FunctionPtr(m.func_list[j]));
        push_string(s, &t);
        push_str(s, "\n");
        proof {
            assert(m.func_list@.take(j + 1).drop_last() =~= m.func_list@.take(j as int));
        }
        assert(s@ =~= head + funcs_text(*m, m.func_list@.take(j + 1)));
        j = j + 1;
    }
    assert(m.func_list@.take(nf as int) =~= m.func_list@);
}

/// Names the unnamed values of every function with blocks, then prints the
/// module. All naming is done before any function is printed, so a
/// function's text shows the names of values of functions after it in the
/// list; functions built by the IR generator only use their own values,
/// globals, functions and constants.
pub fn print_module(m: &mut Module) -> (r: String)
    requires
        old(m).wf(),
        printable_module(*old(m)),
    ensures
        final(m).wf(),
        final(m).frame_except_names(*old(m)),
        forall|x: int|
            0 <= x < old(m).nv() ==> #[trigger] final(m).values@[x].name@ == module_auto_name(*old(m), x, false),
        r@ == module_text(*final(m)),
{
    let ghost m0 = *m;
    m.name_functions(false);
    proof {
        lemma_renamed_printable(m0, *m);
        assert forall|k: int| 0 <= k < m.func_list@.len() implies printable_func(*m, #[trigger] m.func_list@[k] as int) by {
            assert(m.func_list@[k] == m0.func_list@[k]);
            assert(printable_func(m0, m0.func_list@[k] as int));
            assert(crate::ir::module::seq_below(m0.func_list@, m0.nv()));
        }
    }
    let m: &Module = m;
    let mut s = String::new();
    let ng = m.gv_list.len();
    let mut i: usize = 0;
    while i < ng
        invariant
            m.wf(),
            consts_below(*m),
            ng == m.gv_list@.len(),
            0 <= i <= ng,
            s@ == gvs_text(*m, m.gv_list@.take(i as int)),
        decreases ng - i,
    {
        proof {
            assert(crate::ir::module::seq_below(m.gv_list@, m.nv()));
            assert(m.class_of(m.gv_list@[i as int] as int) is GlobalVariable);
        }
        let t = print_gv(m, &GVPtr(m.gv_list[i]));
        push_string(&mut s, &t);
        push_str(&mut s, "\n");
        proof {
            assert(m.gv_list@.take(i + 1).drop_last() =~= m.gv_list@.take(i as int));
        }
        assert(s@ =~= gvs_text(*m, m.gv_list@.take(i + 1)));
        i = i + 1;
    }
    assert(m.gv_list@.take(ng as int) =~= m.gv_list@);
    if ng > 0 {
        push_str(&mut s, "\n");
    }
    push_funcs_text(&mut s, m);
    assert(s@ =~= module_text(*m));
    s
}

} // verus!
