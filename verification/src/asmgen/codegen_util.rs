//! Constants and small helpers of the RISC-V 64 code generator:
//! immediate ranges, stack-frame layout and instruction mnemonics.

use vstd::prelude::*;
use vstd::arithmetic::power2::pow2;
use vstd::arithmetic::power2::lemma_pow2_pos;
use vstd::bits::{low_bits_mask, lemma_usize_low_bits_mask_is_mod, lemma_usize_pow2_no_overflow};

verus! {

/// Largest value of a signed 12-bit immediate.
pub const IMM_12_MAX: i32 = 0x7FF;
/// Smallest value of a signed 12-bit immediate.
pub const IMM_12_MIN: i32 = -0x800;

pub const LOW_12_MASK: u32 = 0x00000FFF;
pub const LOW_20_MASK: u32 = 0x000FFFFF;
pub const LOW_32_MASK: u64 = 0xFFFFFFFF;

/// `x` rounded up to the next multiple of `alignment`, computed with the
/// usual mask trick; `alignment` is meant to be a power of two.
pub open spec fn align_spec(x: usize, alignment: usize) -> usize {
    ((x + (alignment - 1)) as usize) & !((alignment - 1) as usize)
}

/// Rounds `x` up with the mask `!(alignment - 1)`.
pub fn align(x: usize, alignment: usize) -> (r: usize)
    requires
        alignment >= 1,
        x + (alignment - 1) <= usize::MAX,
    ensures
        r == align_spec(x, alignment),
{
    (x + (alignment - 1)) & !(alignment - 1)
}

/// For a power-of-two alignment `2^n`, `align` gives the least multiple of
/// the alignment that is not below `x`.
pub proof fn lemma_align_pow2(x: usize, alignment: usize, n: nat)
    requires
        n < usize::BITS,
        alignment == pow2(n),
        x + (alignment - 1) <= usize::MAX,
    ensures
        align_spec(x, alignment) % alignment == 0,
        x <= align_spec(x, alignment),
        align_spec(x, alignment) < x + alignment,
{
    let m: usize = (alignment - 1) as usize;
    let y: usize = (x + m) as usize;
    let z: usize = y & !m;
    assert(z <= y) by (bit_vector)
        requires
            z == y & !m;
    assert(y - z <= m) by (bit_vector)
        requires
            z == y & !m;
    assert(z & m == 0) by (bit_vector)
        requires
            z == y & !m;
    lemma_usize_pow2_no_overflow(n);
    lemma_usize_low_bits_mask_is_mod(z, n);
    lemma_pow2_pos(n);
    assert(low_bits_mask(n) == m);
}

/// Whether `x` fits a signed 12-bit immediate.
pub fn is_imm_12(x: i32) -> (r: bool)
    ensures
        r == (IMM_12_MIN <= x <= IMM_12_MAX),
{
    x <= IMM_12_MAX && x >= IMM_12_MIN
}

/// Bytes of the prologue's save area (ra and fp).
pub const PROLOGUE_OFFSET_BASE: usize = 16;
/// Alignment of a stack frame.
pub const PROLOGUE_ALIGN: usize = 16;

pub const ADD: &'static str = "add";
pub const SUB: &'static str = "sub";
pub const MUL: &'static str = "mul";
pub const DIV: &'static str = "div";
pub const ADDI: &'static str = "addi";
pub const ADDIW: &'static str = "addiw";
pub const FADD: &'static str = "fadd.s";
pub const FSUB: &'static str = "fsub.s";
pub const FMUL: &'static str = "fmul.s";
pub const FDIV: &'static str = "fdiv.s";
pub const LUI: &'static str = "lui";
pub const AUIPC: &'static str = "auipc";
pub const LB: &'static str = "lb";
pub const LH: &'static str = "lh";
pub const LW: &'static str = "lw";
pub const LD: &'static str = "ld";
pub const SB: &'static str = "sb";
pub const SH: &'static str = "sh";
pub const SW: &'static str = "sw";
pub const SD: &'static str = "sd";
pub const FLW: &'static str = "flw";
pub const FSW: &'static str = "fsw";
pub const BEQ: &'static str = "beq";
pub const BNE: &'static str = "bne";
pub const BLT: &'static str = "blt";
pub const BGE: &'static str = "bge";
pub const BLTU: &'static str = "bltu";
pub const BGEU: &'static str = "bgeu";
pub const JAL: &'static str = "jal";
pub const JALR: &'static str = "jalr";
pub const J: &'static str = "j";
pub const JR: &'static str = "jr";
pub const CALL: &'static str = "call";
pub const RET: &'static str = "ret";
pub const SLT: &'static str = "slt";
pub const SLTU: &'static str = "sltu";
pub const SLTI: &'static str = "slti";
pub const SLTIU: &'static str = "sltiu";
pub const AND: &'static str = "and";
pub const OR: &'static str = "or";
pub const XOR: &'static str = "xor";
pub const ANDI: &'static str = "andi";
pub const ORI: &'static str = "ori";
pub const XORI: &'static str = "xori";
pub const SLL: &'static str = "sll";
pub const SRL: &'static str = "srl";
pub const SRA: &'static str = "sra";
pub const FEQ: &'static str = "feq.s";
pub const FLT_CMP: &'static str = "flt.s";
pub const FLE: &'static str = "fle.s";
pub const FCVT_W_S: &'static str = "fcvt.w.s";
pub const FCVT_S_W: &'static str = "fcvt.s.w";
pub const FMV_W_X: &'static str = "fmv.w.x";
pub const FMV_X_W: &'static str = "fmv.x.w";
pub const LI: &'static str = "li";
pub const LA: &'static str = "la";
pub const MV: &'static str = "mv";
pub const SEQZ: &'static str = "seqz";
pub const SNEZ: &'static str = "snez";

} // verus!
