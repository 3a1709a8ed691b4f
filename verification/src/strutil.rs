//! Text building blocks shared by the printers: decimal rendering of
//! integers and character-level string appends.

use vstd::prelude::*;

verus! {

/// The ASCII digit for `d` (expected below 10).
pub open spec fn digit_char(d: nat) -> char {
    (48 + d) as char
}

/// Decimal rendering of a natural number, most significant digit first,
/// without leading zeros.
pub open spec fn decimal(n: nat) -> Seq<char>
    decreases n,
{
    if n < 10 {
        seq![digit_char(n)]
    } else {
        decimal(n / 10).push(digit_char(n % 10))
    }
}

/// Decimal rendering of an integer, with a leading `-` for negative values.
pub open spec fn int_decimal(i: int) -> Seq<char> {
    if i < 0 {
        seq!['-'] + decimal((-i) as nat)
    } else {
        decimal(i as nat)
    }
}

/// Appends one character to a `String` (`String::push`).
#[verifier::external_body]
pub(crate) fn string_push(s: &mut String, c: char)
    ensures
        final(s)@ == old(s)@.push(c),
{
    s.push(c);
}

/// Appends the contents of another `String`.
pub fn push_string(s: &mut String, t: &String)
    ensures
        final(s)@ == old(s)@ + t@,
{
    s.append(t.as_str());
}

/// Appends a string slice.
pub fn push_str(s: &mut String, t: &str)
    ensures
        final(s)@ == old(s)@ + t@,
{
    s.append(t);
}

/// A fresh `String` holding the contents of `t`.
pub fn string_of(t: &str) -> (res: String)
    ensures
        res@ == t@,
{
    String::from_str(t)
}

/// Appends the decimal rendering of `n`.
pub fn push_decimal(s: &mut String, n: u64)
    ensures
        final(s)@ == old(s)@ + decimal(n as nat),
    decreases n,
{
    let ghost s0 = s@;
    if n >= 10 {
        push_decimal(s, n / 10);
    }
    let d: u8 = (n % 10) as u8;
    let c: char = (48u8 + d) as char;
    assert(c == digit_char((n % 10) as nat));
    string_push(s, c);
    if n >= 10 {
        assert(s0 + decimal(n as nat) =~= (s0 + decimal((n / 10) as nat)).push(digit_char((n % 10) as nat)));
    } else {
        assert(s0 + decimal(n as nat) =~= s0.push(digit_char(n as nat)));
    }
}

/// Appends the decimal rendering of a signed integer.
pub fn push_int(s: &mut String, i: i64)
    ensures
        final(s)@ == old(s)@ + int_decimal(i as int),
{
    let ghost s0 = s@;
    if i < 0 {
        string_push(s, '-');
        let m: i128 = -(i as i128);
        push_decimal(s, m as u64);
        assert(s0 + int_decimal(i as int) =~= s0.push('-') + decimal((-i) as nat));
    } else {
        push_decimal(s, i as u64);
    }
}

/// The decimal rendering of `n` as a new `String`.
pub fn decimal_string(n: u64) -> (res: String)
    ensures
        res@ == decimal(n as nat),
{
    let mut s = String::new();
    push_decimal(&mut s, n);
    assert(Seq::<char>::empty() + decimal(n as nat) =~= decimal(n as nat));
    s
}

/// The decimal rendering of a signed integer as a new `String`.
pub fn int_string(i: i64) -> (res: String)
    ensures
        res@ == int_decimal(i as int),
{
    let mut s = String::new();
    push_int(&mut s, i);
    assert(Seq::<char>::empty() + int_decimal(i as int) =~= int_decimal(i as int));
    s
}


/// Decimal rendering of a `usize`.
pub open spec fn usize_decimal(n: usize) -> Seq<char> {
    decimal(n as nat)
}

/// The decimal rendering of a `usize` as a new `String`.
pub fn usize_string(n: usize) -> (res: String)
    ensures
        res@ == usize_decimal(n),
{
    decimal_string(n as u64)
}

} // verus!
