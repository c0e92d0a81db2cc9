//! Range checks on IEEE-754 values given by their bit patterns.

use vstd::prelude::*;

verus! {

/// Whether the `f32` with these bits is finite (neither infinite nor NaN).
pub open spec fn f32_is_finite(bits: u32) -> bool {
    (bits >> 23u32) & 0xffu32 != 0xffu32
}

/// The position of a finite `f32` on the number line, scaled so that the
/// order of keys is the order of the values (`-0.0` and `0.0` share key 0).
pub open spec fn f32_key(bits: u32) -> int {
    let magnitude = (bits & 0x7fff_ffffu32) as int;
    if bits & 0x8000_0000u32 != 0 { -magnitude } else { magnitude }
}

/// `value.is_finite() && (minimum..=maximum).contains(&value)` for `f32`.
pub open spec fn f32_finite_in(value: u32, minimum: u32, maximum: u32) -> bool {
    &&& f32_is_finite(value)
    &&& f32_key(minimum) <= f32_key(value)
    &&& f32_key(value) <= f32_key(maximum)
}

/// Whether the `f64` with these bits is finite.
pub open spec fn f64_is_finite(bits: u64) -> bool {
    (bits >> 52u64) & 0x7ffu64 != 0x7ffu64
}

/// The order key of a finite `f64`, as for [`f32_key`].
pub open spec fn f64_key(bits: u64) -> int {
    let magnitude = (bits & 0x7fff_ffff_ffff_ffffu64) as int;
    if bits & 0x8000_0000_0000_0000u64 != 0 { -magnitude } else { magnitude }
}

/// `(minimum..=maximum).contains(&value)` for `f64` with finite bounds.
pub open spec fn f64_in(value: u64, minimum: u64, maximum: u64) -> bool {
    &&& f64_is_finite(value)
    &&& f64_key(minimum) <= f64_key(value)
    &&& f64_key(value) <= f64_key(maximum)
}

fn f32_order_key(bits: u32) -> (key: i64)
    ensures
        key == f32_key(bits),
{
    let magnitude = (bits & 0x7fff_ffffu32) as i64;
    if bits & 0x8000_0000u32 != 0 {
        -magnitude
    } else {
        magnitude
    }
}

fn f64_order_key(bits: u64) -> (key: i128)
    ensures
        key == f64_key(bits),
{
    let magnitude = (bits & 0x7fff_ffff_ffff_ffffu64) as i128;
    if bits & 0x8000_0000_0000_0000u64 != 0 {
        -magnitude
    } else {
        magnitude
    }
}

/// Whether an `f32` is finite and lies in `minimum..=maximum`.
pub fn finite_in(value: u32, minimum: u32, maximum: u32) -> (inside: bool)
    ensures
        inside == f32_finite_in(value, minimum, maximum),
{
    if (value >> 23u32) & 0xffu32 == 0xffu32 {
        return false;
    }
    let key = f32_order_key(value);
    f32_order_key(minimum) <= key && key <= f32_order_key(maximum)
}

/// Whether an `f64` is finite and lies in `minimum..=maximum`.
pub fn f64_within(value: u64, minimum: u64, maximum: u64) -> (inside: bool)
    ensures
        inside == f64_in(value, minimum, maximum),
{
    if (value >> 52u64) & 0x7ffu64 == 0x7ffu64 {
        return false;
    }
    let key = f64_order_key(value);
    f64_order_key(minimum) <= key && key <= f64_order_key(maximum)
}

/// Whether the `f32` with these bits is NaN.
pub open spec fn f32_is_nan(bits: u32) -> bool {
    !f32_is_finite(bits) && bits & 0x007f_ffffu32 != 0
}

/// `a == b` on the `f32` values with these bits: a NaN equals nothing, not
/// even itself, and `-0.0` equals `0.0`.
pub open spec fn f32_equal(a: u32, b: u32) -> bool {
    &&& !f32_is_nan(a)
    &&& !f32_is_nan(b)
    &&& (a == b || (a & 0x7fff_ffffu32 == 0 && b & 0x7fff_ffffu32 == 0))
}

/// Whether the `f64` with these bits is NaN.
pub open spec fn f64_is_nan(bits: u64) -> bool {
    !f64_is_finite(bits) && bits & 0x000f_ffff_ffff_ffffu64 != 0
}

/// `a == b` on the `f64` values with these bits, as for [`f32_equal`].
pub open spec fn f64_equal(a: u64, b: u64) -> bool {
    &&& !f64_is_nan(a)
    &&& !f64_is_nan(b)
    &&& (a == b || (a & 0x7fff_ffff_ffff_ffffu64 == 0 && b & 0x7fff_ffff_ffff_ffffu64 == 0))
}

/// Compares two `f32` values, given by their bits, as `==` does.
pub fn f32_eq(a: u32, b: u32) -> (equal: bool)
    ensures
        equal == f32_equal(a, b),
{
    let a_nan = (a >> 23u32) & 0xffu32 == 0xffu32 && a & 0x007f_ffffu32 != 0;
    let b_nan = (b >> 23u32) & 0xffu32 == 0xffu32 && b & 0x007f_ffffu32 != 0;
    !a_nan && !b_nan && (a == b || (a & 0x7fff_ffffu32 == 0 && b & 0x7fff_ffffu32 == 0))
}

/// Compares two `f64` values, given by their bits, as `==` does.
pub fn f64_eq(a: u64, b: u64) -> (equal: bool)
    ensures
        equal == f64_equal(a, b),
{
    let a_nan = (a >> 52u64) & 0x7ffu64 == 0x7ffu64 && a & 0x000f_ffff_ffff_ffffu64 != 0;
    let b_nan = (b >> 52u64) & 0x7ffu64 == 0x7ffu64 && b & 0x000f_ffff_ffff_ffffu64 != 0;
    !a_nan && !b_nan && (a == b || (a & 0x7fff_ffff_ffff_ffffu64 == 0 && b & 0x7fff_ffff_ffff_ffffu64
        == 0))
}

} // verus!
