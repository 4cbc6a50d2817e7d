//! Fixed-width integer helpers with the meaning of the corresponding `i32`
//! methods, stated over mathematical integers.
use vstd::prelude::*;

verus! {

/// `v` reduced into the `i32` range by two's complement wrap-around.
pub open spec fn wrap32(v: int) -> int {
    ((v + 0x8000_0000) % 0x1_0000_0000) - 0x8000_0000
}

/// `v` limited to the `i32` range (saturating arithmetic).
pub open spec fn sat32(v: int) -> int {
    if v > i32::MAX {
        i32::MAX as int
    } else if v < i32::MIN {
        i32::MIN as int
    } else {
        v
    }
}

/// `Ord::clamp`.
pub open spec fn clamp(v: int, lo: int, hi: int) -> int {
    if v < lo {
        lo
    } else if v > hi {
        hi
    } else {
        v
    }
}

pub open spec fn abs(v: int) -> int {
    if v < 0 {
        -v
    } else {
        v
    }
}

pub open spec fn signum(v: int) -> int {
    if v > 0 {
        1
    } else if v < 0 {
        -1
    } else {
        0
    }
}

/// Integer division rounding toward zero, as `/` on Rust integers.
pub open spec fn div_trunc(a: int, b: int) -> int {
    if (a >= 0) == (b > 0) || a == 0 {
        abs(a) / abs(b)
    } else {
        -(abs(a) / abs(b))
    }
}

/// `i32::clamp`.
pub fn clamp_i32(v: i32, lo: i32, hi: i32) -> (r: i32)
    requires
        lo <= hi,
    ensures
        r == clamp(v as int, lo as int, hi as int),
{
    if v < lo {
        lo
    } else if v > hi {
        hi
    } else {
        v
    }
}

/// Reduces a 64-bit value into `i32` by wrap-around.
pub fn wrap_to_i32(v: i64) -> (r: i32)
    requires
        -0x1_8000_0000 <= v < 0x1_8000_0000,
    ensures
        r == wrap32(v as int),
{
    if v > i32::MAX as i64 {
        (v - 0x1_0000_0000) as i32
    } else if v < i32::MIN as i64 {
        (v + 0x1_0000_0000) as i32
    } else {
        v as i32
    }
}

/// `i32::wrapping_add`.
pub fn wrapping_add_i32(a: i32, b: i32) -> (r: i32)
    ensures
        r == wrap32(a + b),
{
    wrap_to_i32(a as i64 + b as i64)
}

/// `i32::wrapping_sub`.
pub fn wrapping_sub_i32(a: i32, b: i32) -> (r: i32)
    ensures
        r == wrap32(a - b),
{
    wrap_to_i32(a as i64 - b as i64)
}

/// `i32::wrapping_abs`.
pub fn wrapping_abs_i32(a: i32) -> (r: i32)
    ensures
        r == wrap32(abs(a as int)),
{
    if a < 0 {
        wrap_to_i32(-(a as i64))
    } else {
        a
    }
}

/// `i32::saturating_sub`.
pub fn saturating_sub_i32(a: i32, b: i32) -> (r: i32)
    ensures
        r == sat32(a - b),
{
    let v = a as i64 - b as i64;
    if v > i32::MAX as i64 {
        i32::MAX
    } else if v < i32::MIN as i64 {
        i32::MIN
    } else {
        v as i32
    }
}

/// `i32::saturating_add`.
pub fn saturating_add_i32(a: i32, b: i32) -> (r: i32)
    ensures
        r == sat32(a + b),
{
    let v = a as i64 + b as i64;
    if v > i32::MAX as i64 {
        i32::MAX
    } else if v < i32::MIN as i64 {
        i32::MIN
    } else {
        v as i32
    }
}

/// `i32::saturating_mul`.
pub fn saturating_mul_i32(a: i32, b: i32) -> (r: i32)
    ensures
        r == sat32(a * b),
{
    assert(-0x4000_0000_0000_0000 <= (a as int) * (b as int) <= 0x4000_0000_0000_0000)
        by (nonlinear_arith)
        requires
            -0x8000_0000 <= a <= 0x7fff_ffff,
            -0x8000_0000 <= b <= 0x7fff_ffff,
    ;
    let v = a as i64 * b as i64;
    if v > i32::MAX as i64 {
        i32::MAX
    } else if v < i32::MIN as i64 {
        i32::MIN
    } else {
        v as i32
    }
}

/// `i32::signum`.
pub fn signum_i32(a: i32) -> (r: i32)
    ensures
        r == signum(a as int),
{
    if a > 0 {
        1
    } else if a < 0 {
        -1
    } else {
        0
    }
}

} // verus!
