//! The meaning of the instructions that compute comparisons, as RISC-V
//! defines them, and the laws that the generated comparison code leaves
//! in `t2` the truth of the comparison it was generated for.

use vstd::prelude::*;
use crate::asmgen::ag::AsmLine;
use crate::asmgen::ag_impl::{float_compare_text, int_compare_text};
use crate::ir::ir_printer::relation_of;
use crate::ir::user::OpID;

verus! {

/// One instruction run on the integer registers `(t0, t1, t2)`, by its
/// RISC-V meaning (`slt`/`sltu`/`sltiu`: 1 when less, signed or
/// unsigned, else 0; `xor`/`xori`: bitwise exclusive or); `None` for an
/// instruction outside this set.
pub open spec fn run_int_line(l: AsmLine, r: (i64, i64, i64)) -> Option<(i64, i64, i64)> {
    let (t0, t1, t2) = r;
    if l == AsmLine::Instruction("slt t2, t0, t1"@) {
        Some((t0, t1, if t0 < t1 { 1 } else { 0 }))
    } else if l == AsmLine::Instruction("slt t2, t1, t0"@) {
        Some((t0, t1, if t1 < t0 { 1 } else { 0 }))
    } else if l == AsmLine::Instruction("xori t2, t2, 1"@) {
        Some((t0, t1, t2 ^ 1))
    } else if l == AsmLine::Instruction("xor t2, t0, t1"@) {
        Some((t0, t1, t0 ^ t1))
    } else if l == AsmLine::Instruction("sltiu t2, t2, 1"@) {
        Some((t0, t1, if (t2 as u64) < 1 { 1 } else { 0 }))
    } else if l == AsmLine::Instruction("sltu t2, zero, t2"@) {
        Some((t0, t1, if 0 < (t2 as u64) { 1 } else { 0 }))
    } else {
        None
    }
}

/// Instructions run in order on `(t0, t1, t2)`.
pub open spec fn run_int_lines(ls: Seq<AsmLine>, r: (i64, i64, i64)) -> Option<(i64, i64, i64)>
    decreases ls.len(),
{
    if ls.len() == 0 {
        Some(r)
    } else {
        match run_int_line(ls[0], r) {
            Some(r2) => run_int_lines(ls.drop_first(), r2),
            None => None,
        }
    }
}

/// One instruction run on the float registers `ft0`, `ft1` (holding floats
/// that are not NaN, given by their order) and the integer register `t2`,
/// by its RISC-V meaning (`flt.s`/`fle.s`/`feq.s`: 1 when the relation
/// holds, else 0; `xori`: bitwise exclusive or); `None` for an
/// instruction outside this set.
pub open spec fn run_float_line(l: AsmLine, r: (int, int, i64)) -> Option<(int, int, i64)> {
    let (f0, f1, t2) = r;
    if l == AsmLine::Instruction("flt.s t2, ft0, ft1"@) {
        Some((f0, f1, if f0 < f1 { 1 } else { 0 }))
    } else if l == AsmLine::Instruction("flt.s t2, ft1, ft0"@) {
        Some((f0, f1, if f1 < f0 { 1 } else { 0 }))
    } else if l == AsmLine::Instruction("fle.s t2, ft0, ft1"@) {
        Some((f0, f1, if f0 <= f1 { 1 } else { 0 }))
    } else if l == AsmLine::Instruction("fle.s t2, ft1, ft0"@) {
        Some((f0, f1, if f1 <= f0 { 1 } else { 0 }))
    } else if l == AsmLine::Instruction("feq.s t2, ft0, ft1"@) {
        Some((f0, f1, if f0 == f1 { 1 } else { 0 }))
    } else if l == AsmLine::Instruction("xori t2, t2, 1"@) {
        Some((f0, f1, t2 ^ 1))
    } else {
        None
    }
}

/// Instructions run in order on `(ft0, ft1, t2)`.
pub open spec fn run_float_lines(ls: Seq<AsmLine>, r: (int, int, i64)) -> Option<(int, int, i64)>
    decreases ls.len(),
{
    if ls.len() == 0 {
        Some(r)
    } else {
        match run_float_line(ls[0], r) {
            Some(r2) => run_float_lines(ls.drop_first(), r2),
            None => None,
        }
    }
}

/// 1 for true, 0 for false.
pub open spec fn truth(b: bool) -> i64 {
    if b {
        1
    } else {
        0
    }
}

/// The code generated for an integer comparison, run with its operands
/// `a` and `b` in `t0` and `t1` (whatever `t2` held), ends with `t2` holding
/// 1 exactly when the comparison holds on `a` and `b`.
pub proof fn law_int_compare_code_computes_relation(o: OpID, a: i32, b: i32, t2: i64)
    requires
        o is Eq || o is Ne || o is Lt || o is Le || o is Gt || o is Ge,
    ensures
        run_int_lines(int_compare_text(o), (a as i64, b as i64, t2)) == Some(
            (a as i64, b as i64, truth(relation_of(o, a as int, b as int).unwrap())),
        ),
{
    reveal_strlit("slt t2, t0, t1");
    assert("slt t2, t0, t1"@.len() == 14 && "slt t2, t0, t1"@[0] == 's' && "slt t2, t0, t1"@[1] == 'l' && "slt t2, t0, t1"@[2] == 't' && "slt t2, t0, t1"@[3] == ' ' && "slt t2, t0, t1"@[4] == 't' && "slt t2, t0, t1"@[5] == '2' && "slt t2, t0, t1"@[6] == ',' && "slt t2, t0, t1"@[7] == ' ' && "slt t2, t0, t1"@[8] == 't' && "slt t2, t0, t1"@[9] == '0' && "slt t2, t0, t1"@[10] == ',' && "slt t2, t0, t1"@[11] == ' ' && "slt t2, t0, t1"@[12] == 't' && "slt t2, t0, t1"@[13] == '1');
    reveal_strlit("slt t2, t1, t0");
    assert("slt t2, t1, t0"@.len() == 14 && "slt t2, t1, t0"@[0] == 's' && "slt t2, t1, t0"@[1] == 'l' && "slt t2, t1, t0"@[2] == 't' && "slt t2, t1, t0"@[3] == ' ' && "slt t2, t1, t0"@[4] == 't' && "slt t2, t1, t0"@[5] == '2' && "slt t2, t1, t0"@[6] == ',' && "slt t2, t1, t0"@[7] == ' ' && "slt t2, t1, t0"@[8] == 't' && "slt t2, t1, t0"@[9] == '1' && "slt t2, t1, t0"@[10] == ',' && "slt t2, t1, t0"@[11] == ' ' && "slt t2, t1, t0"@[12] == 't' && "slt t2, t1, t0"@[13] == '0');
    reveal_strlit("xori t2, t2, 1");
    assert("xori t2, t2, 1"@.len() == 14 && "xori t2, t2, 1"@[0] == 'x' && "xori t2, t2, 1"@[1] == 'o' && "xori t2, t2, 1"@[2] == 'r' && "xori t2, t2, 1"@[3] == 'i' && "xori t2, t2, 1"@[4] == ' ' && "xori t2, t2, 1"@[5] == 't' && "xori t2, t2, 1"@[6] == '2' && "xori t2, t2, 1"@[7] == ',' && "xori t2, t2, 1"@[8] == ' ' && "xori t2, t2, 1"@[9] == 't' && "xori t2, t2, 1"@[10] == '2' && "xori t2, t2, 1"@[11] == ',' && "xori t2, t2, 1"@[12] == ' ' && "xori t2, t2, 1"@[13] == '1');
    reveal_strlit("xor t2, t0, t1");
    assert("xor t2, t0, t1"@.len() == 14 && "xor t2, t0, t1"@[0] == 'x' && "xor t2, t0, t1"@[1] == 'o' && "xor t2, t0, t1"@[2] == 'r' && "xor t2, t0, t1"@[3] == ' ' && "xor t2, t0, t1"@[4] == 't' && "xor t2, t0, t1"@[5] == '2' && "xor t2, t0, t1"@[6] == ',' && "xor t2, t0, t1"@[7] == ' ' && "xor t2, t0, t1"@[8] == 't' && "xor t2, t0, t1"@[9] == '0' && "xor t2, t0, t1"@[10] == ',' && "xor t2, t0, t1"@[11] == ' ' && "xor t2, t0, t1"@[12] == 't' && "xor t2, t0, t1"@[13] == '1');
    reveal_strlit("sltiu t2, t2, 1");
    assert("sltiu t2, t2, 1"@.len() == 15 && "sltiu t2, t2, 1"@[0] == 's' && "sltiu t2, t2, 1"@[1] == 'l' && "sltiu t2, t2, 1"@[2] == 't' && "sltiu t2, t2, 1"@[3] == 'i' && "sltiu t2, t2, 1"@[4] == 'u' && "sltiu t2, t2, 1"@[5] == ' ' && "sltiu t2, t2, 1"@[6] == 't' && "sltiu t2, t2, 1"@[7] == '2' && "sltiu t2, t2, 1"@[8] == ',' && "sltiu t2, t2, 1"@[9] == ' ' && "sltiu t2, t2, 1"@[10] == 't' && "sltiu t2, t2, 1"@[11] == '2' && "sltiu t2, t2, 1"@[12] == ',' && "sltiu t2, t2, 1"@[13] == ' ' && "sltiu t2, t2, 1"@[14] == '1');
    reveal_strlit("sltu t2, zero, t2");
    assert("sltu t2, zero, t2"@.len() == 17 && "sltu t2, zero, t2"@[0] == 's' && "sltu t2, zero, t2"@[1] == 'l' && "sltu t2, zero, t2"@[2] == 't' && "sltu t2, zero, t2"@[3] == 'u' && "sltu t2, zero, t2"@[4] == ' ' && "sltu t2, zero, t2"@[5] == 't' && "sltu t2, zero, t2"@[6] == '2' && "sltu t2, zero, t2"@[7] == ',' && "sltu t2, zero, t2"@[8] == ' ' && "sltu t2, zero, t2"@[9] == 'z' && "sltu t2, zero, t2"@[10] == 'e' && "sltu t2, zero, t2"@[11] == 'r' && "sltu t2, zero, t2"@[12] == 'o' && "sltu t2, zero, t2"@[13] == ',' && "sltu t2, zero, t2"@[14] == ' ' && "sltu t2, zero, t2"@[15] == 't' && "sltu t2, zero, t2"@[16] == '2');
    let x = a as i64;
    let y = b as i64;
    assert((0i64 ^ 1i64) == 1i64 && (1i64 ^ 1i64) == 0i64) by (bit_vector);
    assert(((x ^ y) == 0i64) == (x == y)) by (bit_vector);
    let z = x ^ y;
    assert((((z as u64) < 1) == (z == 0)) && ((0 < (z as u64)) == (z != 0))) by (bit_vector);
    let ls = int_compare_text(o);
    assert(ls.len() >= 1);
    if ls.len() == 2 {
        assert(ls.drop_first().drop_first().len() == 0);
    } else {
        assert(ls.drop_first().len() == 0);
    }
    reveal_with_fuel(run_int_lines, 3);
}

/// The code generated for a float comparison, run with its operands `a`
/// and `b` (floats that are not NaN, given by their order) in `ft0` and
/// `ft1`, ends with `t2` holding 1 exactly when the comparison holds.
pub proof fn law_float_compare_code_computes_relation(o: OpID, a: int, b: int, t2: i64)
    requires
        o is FEq || o is FNe || o is FLt || o is FLe || o is FGt || o is FGe,
    ensures
        run_float_lines(float_compare_text(o), (a, b, t2)) == Some((a, b, truth(relation_of(o, a, b).unwrap()))),
{
    reveal_strlit("flt.s t2, ft0, ft1");
    assert("flt.s t2, ft0, ft1"@.len() == 18 && "flt.s t2, ft0, ft1"@[0] == 'f' && "flt.s t2, ft0, ft1"@[1] == 'l' && "flt.s t2, ft0, ft1"@[2] == 't' && "flt.s t2, ft0, ft1"@[3] == '.' && "flt.s t2, ft0, ft1"@[4] == 's' && "flt.s t2, ft0, ft1"@[5] == ' ' && "flt.s t2, ft0, ft1"@[6] == 't' && "flt.s t2, ft0, ft1"@[7] == '2' && "flt.s t2, ft0, ft1"@[8] == ',' && "flt.s t2, ft0, ft1"@[9] == ' ' && "flt.s t2, ft0, ft1"@[10] == 'f' && "flt.s t2, ft0, ft1"@[11] == 't' && "flt.s t2, ft0, ft1"@[12] == '0' && "flt.s t2, ft0, ft1"@[13] == ',' && "flt.s t2, ft0, ft1"@[14] == ' ' && "flt.s t2, ft0, ft1"@[15] == 'f' && "flt.s t2, ft0, ft1"@[16] == 't' && "flt.s t2, ft0, ft1"@[17] == '1');
    reveal_strlit("flt.s t2, ft1, ft0");
    assert("flt.s t2, ft1, ft0"@.len() == 18 && "flt.s t2, ft1, ft0"@[0] == 'f' && "flt.s t2, ft1, ft0"@[1] == 'l' && "flt.s t2, ft1, ft0"@[2] == 't' && "flt.s t2, ft1, ft0"@[3] == '.' && "flt.s t2, ft1, ft0"@[4] == 's' && "flt.s t2, ft1, ft0"@[5] == ' ' && "flt.s t2, ft1, ft0"@[6] == 't' && "flt.s t2, ft1, ft0"@[7] == '2' && "flt.s t2, ft1, ft0"@[8] == ',' && "flt.s t2, ft1, ft0"@[9] == ' ' && "flt.s t2, ft1, ft0"@[10] == 'f' && "flt.s t2, ft1, ft0"@[11] == 't' && "flt.s t2, ft1, ft0"@[12] == '1' && "flt.s t2, ft1, ft0"@[13] == ',' && "flt.s t2, ft1, ft0"@[14] == ' ' && "flt.s t2, ft1, ft0"@[15] == 'f' && "flt.s t2, ft1, ft0"@[16] == 't' && "flt.s t2, ft1, ft0"@[17] == '0');
    reveal_strlit("fle.s t2, ft0, ft1");
    assert("fle.s t2, ft0, ft1"@.len() == 18 && "fle.s t2, ft0, ft1"@[0] == 'f' && "fle.s t2, ft0, ft1"@[1] == 'l' && "fle.s t2, ft0, ft1"@[2] == 'e' && "fle.s t2, ft0, ft1"@[3] == '.' && "fle.s t2, ft0, ft1"@[4] == 's' && "fle.s t2, ft0, ft1"@[5] == ' ' && "fle.s t2, ft0, ft1"@[6] == 't' && "fle.s t2, ft0, ft1"@[7] == '2' && "fle.s t2, ft0, ft1"@[8] == ',' && "fle.s t2, ft0, ft1"@[9] == ' ' && "fle.s t2, ft0, ft1"@[10] == 'f' && "fle.s t2, ft0, ft1"@[11] == 't' && "fle.s t2, ft0, ft1"@[12] == '0' && "fle.s t2, ft0, ft1"@[13] == ',' && "fle.s t2, ft0, ft1"@[14] == ' ' && "fle.s t2, ft0, ft1"@[15] == 'f' && "fle.s t2, ft0, ft1"@[16] == 't' && "fle.s t2, ft0, ft1"@[17] == '1');
    reveal_strlit("fle.s t2, ft1, ft0");
    assert("fle.s t2, ft1, ft0"@.len() == 18 && "fle.s t2, ft1, ft0"@[0] == 'f' && "fle.s t2, ft1, ft0"@[1] == 'l' && "fle.s t2, ft1, ft0"@[2] == 'e' && "fle.s t2, ft1, ft0"@[3] == '.' && "fle.s t2, ft1, ft0"@[4] == 's' && "fle.s t2, ft1, ft0"@[5] == ' ' && "fle.s t2, ft1, ft0"@[6] == 't' && "fle.s t2, ft1, ft0"@[7] == '2' && "fle.s t2, ft1, ft0"@[8] == ',' && "fle.s t2, ft1, ft0"@[9] == ' ' && "fle.s t2, ft1, ft0"@[10] == 'f' && "fle.s t2, ft1, ft0"@[11] == 't' && "fle.s t2, ft1, ft0"@[12] == '1' && "fle.s t2, ft1, ft0"@[13] == ',' && "fle.s t2, ft1, ft0"@[14] == ' ' && "fle.s t2, ft1, ft0"@[15] == 'f' && "fle.s t2, ft1, ft0"@[16] == 't' && "fle.s t2, ft1, ft0"@[17] == '0');
    reveal_strlit("feq.s t2, ft0, ft1");
    assert("feq.s t2, ft0, ft1"@.len() == 18 && "feq.s t2, ft0, ft1"@[0] == 'f' && "feq.s t2, ft0, ft1"@[1] == 'e' && "feq.s t2, ft0, ft1"@[2] == 'q' && "feq.s t2, ft0, ft1"@[3] == '.' && "feq.s t2, ft0, ft1"@[4] == 's' && "feq.s t2, ft0, ft1"@[5] == ' ' && "feq.s t2, ft0, ft1"@[6] == 't' && "feq.s t2, ft0, ft1"@[7] == '2' && "feq.s t2, ft0, ft1"@[8] == ',' && "feq.s t2, ft0, ft1"@[9] == ' ' && "feq.s t2, ft0, ft1"@[10] == 'f' && "feq.s t2, ft0, ft1"@[11] == 't' && "feq.s t2, ft0, ft1"@[12] == '0' && "feq.s t2, ft0, ft1"@[13] == ',' && "feq.s t2, ft0, ft1"@[14] == ' ' && "feq.s t2, ft0, ft1"@[15] == 'f' && "feq.s t2, ft0, ft1"@[16] == 't' && "feq.s t2, ft0, ft1"@[17] == '1');
    reveal_strlit("xori t2, t2, 1");
    assert("xori t2, t2, 1"@.len() == 14 && "xori t2, t2, 1"@[0] == 'x' && "xori t2, t2, 1"@[1] == 'o' && "xori t2, t2, 1"@[2] == 'r' && "xori t2, t2, 1"@[3] == 'i' && "xori t2, t2, 1"@[4] == ' ' && "xori t2, t2, 1"@[5] == 't' && "xori t2, t2, 1"@[6] == '2' && "xori t2, t2, 1"@[7] == ',' && "xori t2, t2, 1"@[8] == ' ' && "xori t2, t2, 1"@[9] == 't' && "xori t2, t2, 1"@[10] == '2' && "xori t2, t2, 1"@[11] == ',' && "xori t2, t2, 1"@[12] == ' ' && "xori t2, t2, 1"@[13] == '1');
    assert((0i64 ^ 1i64) == 1i64 && (1i64 ^ 1i64) == 0i64) by (bit_vector);
    let ls = float_compare_text(o);
    assert(ls.len() >= 1);
    if ls.len() == 2 {
        assert(ls.drop_first().drop_first().len() == 0);
    } else {
        assert(ls.drop_first().len() == 0);
    }
    reveal_with_fuel(run_float_lines, 3);
}

} // verus!
