//! RISC-V 64 general-purpose and floating-point registers and their ABI names.
//!
//! General-purpose registers (RV64): x0 zero, x1 ra, x2 sp, x3 gp, x4 tp,
//! x5-x7 t0-t2, x8 s0/fp, x9 s1, x10-x17 a0-a7, x18-x27 s2-s11, x28-x31 t3-t6.
//!
//! Floating-point registers (RV64F/D): f0-f7 ft0-ft7, f8-f9 fs0-fs1,
//! f10-f17 fa0-fa7, f18-f27 fs2-fs11, f28-f31 ft8-ft11.

use vstd::prelude::*;
use crate::strutil::{decimal, digit_char, push_decimal, string_of};

verus! {

/// ABI name of general-purpose register `x{id}`.
pub open spec fn reg_name(id: nat) -> Seq<char> {
    if id == 0 {
        "zero"@
    } else if id == 1 {
        "ra"@
    } else if id == 2 {
        "sp"@
    } else if id == 3 {
        "gp"@
    } else if id == 4 {
        "tp"@
    } else if id == 5 {
        "t0"@
    } else if id == 6 {
        "t1"@
    } else if id == 7 {
        "t2"@
    } else if id == 8 {
        "s0"@
    } else if id == 9 {
        "s1"@
    } else if id <= 17 {
        "a"@ + decimal((id - 10) as nat)
    } else if id <= 27 {
        "s"@ + decimal((id - 16) as nat)
    } else {
        "t"@ + decimal((id - 25) as nat)
    }
}

/// ABI name of floating-point register `f{id}`.
pub open spec fn freg_name(id: nat) -> Seq<char> {
    if id <= 7 {
        "ft"@ + decimal(id)
    } else if id <= 9 {
        "fs"@ + decimal((id - 8) as nat)
    } else if id <= 17 {
        "fa"@ + decimal((id - 10) as nat)
    } else if id <= 27 {
        "fs"@ + decimal((id - 16) as nat)
    } else {
        "ft"@ + decimal((id - 20) as nat)
    }
}

/// Register number of temporary `t{i}`.
pub open spec fn t_reg_id(i: nat) -> nat {
    if i == 0 {
        5
    } else if i <= 2 {
        5 + i
    } else {
        25 + i
    }
}

/// Register number of saved register `s{i}`.
pub open spec fn s_reg_id(i: nat) -> nat {
    if i == 0 {
        8
    } else if i == 1 {
        9
    } else {
        16 + i
    }
}

/// Register number of floating-point temporary `ft{i}`.
pub open spec fn ft_reg_id(i: nat) -> nat {
    if i < 8 {
        i
    } else {
        20 + i
    }
}

/// Register number of floating-point saved register `fs{i}`.
pub open spec fn fs_reg_id(i: nat) -> nat {
    if i < 2 {
        8 + i
    } else {
        16 + i
    }
}

/// A general-purpose register `x{id}`.
#[derive(Clone, Copy)]
pub struct Reg {
    pub id: u32,
}

impl Reg {
    pub fn new(id: u32) -> (r: Self)
        requires
            id <= 31,
        ensures
            r.id == id,
    {
        Reg { id }
    }

    pub fn zero() -> (r: Self)
        ensures
            r.id == 0,
    {
        Reg::new(0)
    }

    pub fn ra() -> (r: Self)
        ensures
            r.id == 1,
    {
        Reg::new(1)
    }

    pub fn sp() -> (r: Self)
        ensures
            r.id == 2,
    {
        Reg::new(2)
    }

    pub fn gp() -> (r: Self)
        ensures
            r.id == 3,
    {
        Reg::new(3)
    }

    pub fn tp() -> (r: Self)
        ensures
            r.id == 4,
    {
        Reg::new(4)
    }

    /// The frame pointer `s0`.
    pub fn fp() -> (r: Self)
        ensures
            r.id == 8,
    {
        Reg::new(8)
    }

    /// Argument register `a{i}`.
    pub fn a(i: u32) -> (r: Self)
        requires
            i <= 7,
        ensures
            r.id == 10 + i,
    {
        Reg::new(10 + i)
    }

    /// Temporary register `t{i}`.
    pub fn t(i: u32) -> (r: Self)
        requires
            i <= 6,
        ensures
            r.id == t_reg_id(i as nat),
    {
        if i == 0 {
            Reg::new(5)
        } else if i <= 2 {
            Reg::new(5 + i)
        } else {
            Reg::new(25 + i)
        }
    }

    /// Saved register `s{i}`.
    pub fn s(i: u32) -> (r: Self)
        requires
            i <= 11,
        ensures
            r.id == s_reg_id(i as nat),
    {
        if i == 0 {
            Reg::new(8)
        } else if i == 1 {
            Reg::new(9)
        } else {
            Reg::new(16 + i)
        }
    }

    /// The register's ABI name.
    pub fn print(&self) -> (res: String)
        requires
            self.id <= 31,
        ensures
            res@ == reg_name(self.id as nat),
    {
        let id = self.id;
        if id == 0 {
            string_of("zero")
        } else if id == 1 {
            string_of("ra")
        } else if id == 2 {
            string_of("sp")
        } else if id == 3 {
            string_of("gp")
        } else if id == 4 {
            string_of("tp")
        } else if id == 5 {
            string_of("t0")
        } else if id == 6 {
            string_of("t1")
        } else if id == 7 {
            string_of("t2")
        } else if id == 8 {
            string_of("s0")
        } else if id == 9 {
            string_of("s1")
        } else if id <= 17 {
            let mut s = string_of("a");
            push_decimal(&mut s, (id - 10) as u64);
            s
        } else if id <= 27 {
            let mut s = string_of("s");
            push_decimal(&mut s, (id - 16) as u64);
            s
        } else {
            let mut s = string_of("t");
            push_decimal(&mut s, (id - 25) as u64);
            s
        }
    }
}

/// A floating-point register `f{id}`.
#[derive(Clone, Copy)]
pub struct FReg {
    pub id: u32,
}

impl FReg {
    pub fn new(id: u32) -> (r: Self)
        requires
            id <= 31,
        ensures
            r.id == id,
    {
        FReg { id }
    }

    /// Floating-point argument register `fa{i}`.
    pub fn fa(i: u32) -> (r: Self)
        requires
            i <= 7,
        ensures
            r.id == 10 + i,
    {
        FReg::new(10 + i)
    }

    /// Floating-point temporary `ft{i}`.
    pub fn ft(i: u32) -> (r: Self)
        requires
            i <= 11,
        ensures
            r.id == ft_reg_id(i as nat),
    {
        if i < 8 {
            FReg::new(i)
        } else {
            FReg::new(20 + i)
        }
    }

    /// Floating-point saved register `fs{i}`.
    pub fn fs(i: u32) -> (r: Self)
        requires
            i <= 11,
        ensures
            r.id == fs_reg_id(i as nat),
    {
        if i < 2 {
            FReg::new(8 + i)
        } else {
            FReg::new(16 + i)
        }
    }

    /// The register's ABI name.
    pub fn print(&self) -> (res: String)
        requires
            self.id <= 31,
        ensures
            res@ == freg_name(self.id as nat),
    {
        let id = self.id;
        if id <= 7 {
            let mut s = string_of("ft");
            push_decimal(&mut s, id as u64);
            s
        } else if id <= 9 {
            let mut s = string_of("fs");
            push_decimal(&mut s, (id - 8) as u64);
            s
        } else if id <= 17 {
            let mut s = string_of("fa");
            push_decimal(&mut s, (id - 10) as u64);
            s
        } else if id <= 27 {
            let mut s = string_of("fs");
            push_decimal(&mut s, (id - 16) as u64);
            s
        } else {
            let mut s = string_of("ft");
            push_decimal(&mut s, (id - 20) as u64);
            s
        }
    }
}

/// Each ABI constructor names the register it builds: `a{i}`, `t{i}`,
/// `s{i}` print as `a`, `t`, `s` followed by `i`.
pub proof fn lemma_gpr_abi_names(i: nat)
    ensures
        i <= 7 ==> reg_name(10 + i) == "a"@ + decimal(i),
        i <= 6 ==> reg_name(t_reg_id(i)) == "t"@ + decimal(i),
        i <= 11 ==> reg_name(s_reg_id(i)) == "s"@ + decimal(i),
{
    reveal_strlit("t0");
    reveal_strlit("t1");
    reveal_strlit("t2");
    reveal_strlit("s0");
    reveal_strlit("s1");
    reveal_strlit("t");
    reveal_strlit("s");
    if i <= 2 {
        assert(decimal(i) == seq![digit_char(i)]);
    }
    if i <= 1 {
        assert(decimal(i) == seq![digit_char(i)]);
    }
    assert(("t"@ + decimal(0)) =~= "t0"@);
    assert(("t"@ + decimal(1)) =~= "t1"@);
    assert(("t"@ + decimal(2)) =~= "t2"@);
    assert(("s"@ + decimal(0)) =~= "s0"@);
    assert(("s"@ + decimal(1)) =~= "s1"@);
}

/// Each floating-point ABI constructor names the register it builds:
/// `fa{i}`, `ft{i}`, `fs{i}` print as `fa`, `ft`, `fs` followed by `i`.
pub proof fn lemma_fpr_abi_names(i: nat)
    ensures
        i <= 7 ==> freg_name(10 + i) == "fa"@ + decimal(i),
        i <= 11 ==> freg_name(ft_reg_id(i)) == "ft"@ + decimal(i),
        i <= 11 ==> freg_name(fs_reg_id(i)) == "fs"@ + decimal(i),
{
}

} // verus!
