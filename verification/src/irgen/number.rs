//! Compile-time arithmetic on SysY numbers. Integer arithmetic is exact
//! and refuses overflow and division by zero; float arithmetic (on bit
//! patterns) is delegated to a `FloatArith` implementation.

use vstd::prelude::*;
use crate::ast::Number;

verus! {

/// Single-precision arithmetic on bit patterns, as the host computes it.
pub trait FloatArith {
    fn fadd(a: u32, b: u32) -> u32;

    fn fsub(a: u32, b: u32) -> u32;

    fn fmul(a: u32, b: u32) -> u32;

    fn fdiv(a: u32, b: u32) -> u32;

    fn frem(a: u32, b: u32) -> u32;

    /// The float nearest to `i`.
    fn int_to_float(i: i32) -> u32;

    /// `f` truncated towards zero (saturating).
    fn float_to_int(f: u32) -> i32;
}

/// Why constant folding failed.
#[derive(Clone, Copy, PartialEq, Eq, Structural)]
pub enum FoldError {
    Overflow,
    DivisionByZero,
}

/// Integer arithmetic operators of constant folding.
#[derive(Clone, Copy, PartialEq, Eq, Structural)]
pub enum IntOp {
    Add,
    Sub,
    Mul,
    Div,
    Rem,
}

/// The exact result of `a op b` (truncating division and remainder), or
/// `None` when it overflows `i32` or divides by zero.
pub open spec fn int_fold(op: IntOp, a: i32, b: i32) -> Option<i32> {
    let r: int = match op {
        IntOp::Add => a + b,
        IntOp::Sub => a - b,
        IntOp::Mul => a * b,
        IntOp::Div => if b == 0 {
            0
        } else {
            trunc_div(a as int, b as int)
        },
        IntOp::Rem => if b == 0 {
            0
        } else {
            trunc_rem(a as int, b as int)
        },
    };
    if (op == IntOp::Div || op == IntOp::Rem) && b == 0 {
        None
    } else if i32::MIN <= r <= i32::MAX && !(op == IntOp::Rem && a == i32::MIN && b == -1) {
        Some(r as i32)
    } else {
        None
    }
}

/// The magnitude of `a`.
pub open spec fn magnitude(a: int) -> nat {
    if a < 0 {
        (-a) as nat
    } else {
        a as nat
    }
}

/// Division rounding towards zero: the quotient of the magnitudes, negated
/// when the signs differ.
pub open spec fn trunc_div(a: int, b: int) -> int {
    let q = (magnitude(a) / magnitude(b)) as int;
    if (a < 0) == (b < 0) {
        q
    } else {
        -q
    }
}

/// The remainder of division rounding towards zero: the remainder of the
/// magnitudes, with the sign of `a`.
pub open spec fn trunc_rem(a: int, b: int) -> int {
    let r = (magnitude(a) % magnitude(b)) as int;
    if a < 0 {
        -r
    } else {
        r
    }
}

/// The magnitude of `a` as a `u64`.
fn magnitude_u64(a: i32) -> (r: u64)
    ensures
        r == magnitude(a as int),
{
    if a < 0 {
        (-(a as i64)) as u64
    } else {
        a as u64
    }
}

/// Folds `a op b` on integers.
pub fn fold_int(op: IntOp, a: i32, b: i32) -> (r: Result<i32, FoldError>)
    ensures
        r is Ok <==> int_fold(op, a, b) is Some,
        r matches Ok(v) ==> Some(v) == int_fold(op, a, b),
        r == Err::<i32, FoldError>(FoldError::DivisionByZero) <==> ((op == IntOp::Div || op == IntOp::Rem) && b == 0),
{
    match op {
        IntOp::Add => match a.checked_add(b) {
            Some(v) => Ok(v),
            None => Err(FoldError::Overflow),
        },
        IntOp::Sub => match a.checked_sub(b) {
            Some(v) => Ok(v),
            None => Err(FoldError::Overflow),
        },
        IntOp::Mul => match a.checked_mul(b) {
            Some(v) => Ok(v),
            None => Err(FoldError::Overflow),
        },
        IntOp::Div => {
            if b == 0 {
                Err(FoldError::DivisionByZero)
            } else if a == i32::MIN && b == -1 {
                assert(magnitude(a as int) == 0x80000000 && magnitude(b as int) == 1);
                assert(0x80000000nat / 1nat == 0x80000000) by (nonlinear_arith);
                Err(FoldError::Overflow)
            } else {
                let qm = magnitude_u64(a) / magnitude_u64(b);
                assert(qm <= magnitude(a as int)) by (nonlinear_arith)
                    requires
                        qm == magnitude(a as int) / magnitude(b as int),
                        magnitude(b as int) >= 1,
                ;
                assert(magnitude(b as int) >= 2 ==> qm <= 0x40000000) by (nonlinear_arith)
                    requires
                        qm == magnitude(a as int) / magnitude(b as int),
                        magnitude(a as int) <= 0x80000000,
                ;
                let q: i64 = if (a < 0) == (b < 0) {
                    qm as i64
                } else {
                    -(qm as i64)
                };
                assert(q == trunc_div(a as int, b as int));
                assert(int_fold(op, a, b) == Some(q as i32));
                Ok(q as i32)
            }
        },
        IntOp::Rem => {
            if b == 0 {
                Err(FoldError::DivisionByZero)
            } else if a == i32::MIN && b == -1 {
                Err(FoldError::Overflow)
            } else {
                let rm = magnitude_u64(a) % magnitude_u64(b);
                assert(rm < 0x80000000) by (nonlinear_arith)
                    requires
                        rm == magnitude(a as int) % magnitude(b as int),
                        magnitude(b as int) <= 0x80000000,
                        magnitude(b as int) >= 1,
                ;
                let r: i64 = if a < 0 {
                    -(rm as i64)
                } else {
                    rm as i64
                };
                assert(r == trunc_rem(a as int, b as int));
                assert(int_fold(op, a, b) == Some(r as i32));
                Ok(r as i32)
            }
        },
    }
}

/// `r` is a result the float operation matching `op` gives on `a` and `b`
/// (in that order): `fadd` for `Add`, `fsub` for `Sub`, `fmul` for `Mul`,
/// `fdiv` for `Div`, `frem` for `Rem`.
pub open spec fn float_applied<A: FloatArith>(op: IntOp, a: u32, b: u32, r: u32) -> bool {
    match op {
        IntOp::Add => call_ensures(A::fadd, (a, b), r),
        IntOp::Sub => call_ensures(A::fsub, (a, b), r),
        IntOp::Mul => call_ensures(A::fmul, (a, b), r),
        IntOp::Div => call_ensures(A::fdiv, (a, b), r),
        IntOp::Rem => call_ensures(A::frem, (a, b), r),
    }
}

/// The float operators matching the integer ones.
fn fold_float<A: FloatArith>(op: IntOp, a: u32, b: u32) -> (r: u32)
    ensures
        float_applied::<A>(op, a, b, r),
{
    match op {
        IntOp::Add => {
            let f = A::fadd;
            f(a, b)
        },
        IntOp::Sub => {
            let f = A::fsub;
            f(a, b)
        },
        IntOp::Mul => {
            let f = A::fmul;
            f(a, b)
        },
        IntOp::Div => {
            let f = A::fdiv;
            f(a, b)
        },
        IntOp::Rem => {
            let f = A::frem;
            f(a, b)
        },
    }
}

/// The integer value of a number (a float is truncated).
pub fn as_int<A: FloatArith>(n: &Number) -> (r: i32)
    ensures
        n matches Number::IntConst(i) ==> r == i,
{
    match n {
        Number::FloatConst(f) => A::float_to_int(*f),
        Number::IntConst(i) => *i,
    }
}

/// The float bit pattern of a number (an integer is converted).
pub fn as_float<A: FloatArith>(n: &Number) -> (r: u32)
    ensures
        float_operand::<A>(*n, r),
{
    match n {
        Number::FloatConst(f) => *f,
        Number::IntConst(i) => {
            let conv = A::int_to_float;
            conv(*i)
        },
    }
}

/// `f` is the float bit pattern of number `n`: its own for a float, one
/// that `int_to_float` gives on it for an integer.
pub open spec fn float_operand<A: FloatArith>(n: Number, f: u32) -> bool {
    match n {
        Number::FloatConst(g) => f == g,
        Number::IntConst(i) => call_ensures(A::int_to_float, (i,), f),
    }
}

/// `x` is a float result of `a op b` on numbers that are not both
/// integers: the float operation matching `op` applied to the float bit
/// patterns of `a` and `b`.
#[verifier::opaque]
pub open spec fn folded_float<A: FloatArith>(op: IntOp, a: Number, b: Number, x: u32) -> bool {
    exists|fa: u32, fb: u32| #[trigger] float_operand::<A>(a, fa) && #[trigger] float_operand::<A>(b, fb) && float_applied::<A>(op, fa, fb, x)
}

/// `a op b`: on two integers the exact integer result (an error where it
/// overflows or divides by zero), else the float result of both operands
/// converted to float.
pub fn fold<A: FloatArith>(op: IntOp, a: Number, b: Number) -> (r: Result<Number, FoldError>)
    ensures
        a matches Number::IntConst(x) ==> (b matches Number::IntConst(y) ==> (match int_fold(op, x, y) {
            Some(v) => r == Ok::<Number, FoldError>(Number::IntConst(v)),
            None => r is Err,
        })),
        !(a is IntConst && b is IntConst) ==> r matches Ok(Number::FloatConst(_)),
        r matches Ok(Number::FloatConst(x)) ==> folded_float::<A>(op, a, b, x),
{
    match (&a, &b) {
        (Number::IntConst(x), Number::IntConst(y)) => match fold_int(op, *x, *y) {
            Ok(v) => Ok(Number::IntConst(v)),
            Err(e) => Err(e),
        },
        _ => {
            let fa = as_float::<A>(&a);
            let fb = as_float::<A>(&b);
            let x = fold_float::<A>(op, fa, fb);
            assert(float_operand::<A>(a, fa) && float_operand::<A>(b, fb) && float_applied::<A>(op, fa, fb, x));
            assert(folded_float::<A>(op, a, b, x)) by {
                reveal(folded_float);
            }
            Ok(Number::FloatConst(x))
        },
    }
}

} // verus!
