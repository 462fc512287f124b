use vstd::prelude::*;

verus! {

/// The value of `x` clamped into the range of `i32`.
pub open spec fn clamp_i32(x: int) -> int {
    if x > i32::MAX {
        i32::MAX as int
    } else if x < i32::MIN {
        i32::MIN as int
    } else {
        x
    }
}

/// The value of `x` clamped into the range of `u64`.
pub open spec fn clamp_u64(x: int) -> int {
    if x > u64::MAX {
        u64::MAX as int
    } else if x < 0 {
        0
    } else {
        x
    }
}

/// The sign of `x` as -1, 0 or 1.
pub open spec fn sign(x: int) -> int {
    if x > 0 {
        1
    } else if x < 0 {
        -1
    } else {
        0
    }
}

/// The absolute value of `x`.
pub open spec fn abs(x: int) -> int {
    if x < 0 {
        -x
    } else {
        x
    }
}

/// Saturating addition of two `i32` values.
pub fn sat_add_i32(a: i32, b: i32) -> (r: i32)
    ensures
        r == clamp_i32(a + b),
{
    match a.checked_add(b) {
        Some(v) => v,
        None => {
            if b > 0 {
                i32::MAX
            } else {
                i32::MIN
            }
        },
    }
}

/// Saturating subtraction of two `i32` values.
pub fn sat_sub_i32(a: i32, b: i32) -> (r: i32)
    ensures
        r == clamp_i32(a - b),
{
    match a.checked_sub(b) {
        Some(v) => v,
        None => {
            if b < 0 {
                i32::MAX
            } else {
                i32::MIN
            }
        },
    }
}

/// Saturating multiplication of two `i32` values.
pub fn sat_mul_i32(a: i32, b: i32) -> (r: i32)
    ensures
        r == clamp_i32(a * b),
{
    proof {
        assert((a as int) * (b as int) <= 0x4000_0000_0000_0000) by (nonlinear_arith)
            requires -0x8000_0000 <= a < 0x8000_0000, -0x8000_0000 <= b < 0x8000_0000;
        assert((a as int) * (b as int) >= -0x4000_0000_0000_0000) by (nonlinear_arith)
            requires -0x8000_0000 <= a < 0x8000_0000, -0x8000_0000 <= b < 0x8000_0000;
    }
    let p: i64 = (a as i64) * (b as i64);
    clamp_i64_to_i32(p)
}

/// An `i64` clamped into the range of `i32`.
pub fn clamp_i64_to_i32(value: i64) -> (r: i32)
    ensures
        r == clamp_i32(value as int),
{
    if value > i32::MAX as i64 {
        i32::MAX
    } else if value < i32::MIN as i64 {
        i32::MIN
    } else {
        value as i32
    }
}

/// Euclidean (floor) division of an `i32` by a positive `i32`.
pub fn div_euclid_i32(x: i32, d: i32) -> (r: i32)
    requires
        d > 0,
    ensures
        r == x as int / d as int,
{
    proof {
        if x < 0 {
            assert(x as int / d as int >= x as int) by (nonlinear_arith)
                requires x < 0, d >= 1;
            assert(x as int / d as int <= 0) by (nonlinear_arith)
                requires x < 0, d >= 1;
        } else {
            assert(x as int / d as int >= 0) by (nonlinear_arith)
                requires x >= 0, d >= 1;
            assert(x as int / d as int <= x as int) by (nonlinear_arith)
                requires x >= 0, d >= 1;
        }
    }
    x.checked_div_euclid(d).unwrap()
}

/// The sign of an `i32` as -1, 0 or 1.
pub fn signum_i32(x: i32) -> (r: i32)
    ensures
        r == sign(x as int),
{
    if x > 0 {
        1
    } else if x < 0 {
        -1
    } else {
        0
    }
}

/// The absolute value of an `i32` as a `u32`.
pub fn unsigned_abs_i32(x: i32) -> (r: u32)
    ensures
        r == abs(x as int),
{
    if x < 0 {
        ((-(x as i64)) as u64) as u32
    } else {
        x as u32
    }
}

/// Saturating addition of two `u64` values.
pub fn sat_add_u64(a: u64, b: u64) -> (r: u64)
    ensures
        r == clamp_u64(a + b),
{
    if a > u64::MAX - b {
        u64::MAX
    } else {
        a + b
    }
}

/// Saturating subtraction of two `u64` values.
pub fn sat_sub_u64(a: u64, b: u64) -> (r: u64)
    ensures
        r == clamp_u64(a - b),
{
    if a < b {
        0
    } else {
        a - b
    }
}

/// Saturating addition of two `u32` values.
pub fn sat_add_u32(a: u32, b: u32) -> (r: u32)
    ensures
        r == (if a + b > u32::MAX { u32::MAX as int } else { a + b }),
{
    if a > u32::MAX - b {
        u32::MAX
    } else {
        a + b
    }
}

} // verus!
