//! A small SysY compiler: an arena-based SSA IR with a verified type cache
//! and def-use bookkeeping, an LLVM-style IR printer, an IR generator from the
//! SysY syntax tree, and a RISC-V 64 assembly generator.

pub mod strutil;
pub mod ast;
pub mod asmgen;
pub mod ir;
pub mod irgen;
