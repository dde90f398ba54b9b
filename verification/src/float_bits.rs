//! Floating-point numbers by their bit patterns: what they are and how they compare.
//!
//! A pattern is a sign bit above a magnitude. The magnitudes of numbers ascend with the numbers; the
//! one of infinity is the largest, and what is above it is no number.
use vstd::prelude::*;

verus! {

/// The magnitude of infinity in single precision.
pub const INFINITE32: u32 = 0x7f80_0000;

/// The magnitude of infinity in double precision.
pub const INFINITE64: u64 = 0x7ff0_0000_0000_0000;

/// The sign bit in single precision.
pub const SIGN32: u32 = 0x8000_0000;

/// The sign bit in double precision.
pub const SIGN64: u64 = 0x8000_0000_0000_0000;

/// A pattern without its sign.
pub open spec fn magnitude32(bits: u32) -> int {
    if bits < SIGN32 {
        bits as int
    } else {
        bits - SIGN32
    }
}

/// A pattern without its sign.
pub open spec fn magnitude64(bits: u64) -> int {
    if bits < SIGN64 {
        bits as int
    } else {
        bits - SIGN64
    }
}

/// Whether a pattern is no number.
pub open spec fn is_nan32(bits: u32) -> bool {
    magnitude32(bits) > INFINITE32
}

/// Whether a pattern is no number.
pub open spec fn is_nan64(bits: u64) -> bool {
    magnitude64(bits) > INFINITE64
}

/// Whether a pattern is a finite number.
pub open spec fn is_finite32(bits: u32) -> bool {
    magnitude32(bits) < INFINITE32
}

/// Whether a pattern is a finite number.
pub open spec fn is_finite64(bits: u64) -> bool {
    magnitude64(bits) < INFINITE64
}

/// An integer that is ordered as the number is: both zeros have the same.
pub open spec fn order32(bits: u32) -> int {
    if bits < SIGN32 {
        magnitude32(bits)
    } else {
        -magnitude32(bits)
    }
}

/// An integer that is ordered as the number is: both zeros have the same.
pub open spec fn order64(bits: u64) -> int {
    if bits < SIGN64 {
        magnitude64(bits)
    } else {
        -magnitude64(bits)
    }
}

/// Whether `a` is a smaller number than `b`.
pub open spec fn less32(a: u32, b: u32) -> bool {
    !is_nan32(a) && !is_nan32(b) && order32(a) < order32(b)
}

/// Whether `a` is a smaller number than `b`.
pub open spec fn less64(a: u64, b: u64) -> bool {
    !is_nan64(a) && !is_nan64(b) && order64(a) < order64(b)
}

/// Whether `a` is a number not larger than the number `b`.
pub open spec fn at_most32(a: u32, b: u32) -> bool {
    !is_nan32(a) && !is_nan32(b) && order32(a) <= order32(b)
}

/// Whether `a` is a number not larger than the number `b`.
pub open spec fn at_most64(a: u64, b: u64) -> bool {
    !is_nan64(a) && !is_nan64(b) && order64(a) <= order64(b)
}

/// An integer that is ordered as the number is.
fn order_of32(bits: u32) -> (r: i64)
    ensures
        r == order32(bits),
{
    if bits < SIGN32 {
        bits as i64
    } else {
        -((bits - SIGN32) as i64)
    }
}

/// An integer that is ordered as the number is.
fn order_of64(bits: u64) -> (r: i64)
    ensures
        r == order64(bits),
{
    if bits < SIGN64 {
        bits as i64
    } else {
        -((bits - SIGN64) as i64)
    }
}

/// Whether a pattern is no number.
pub fn nan32(bits: u32) -> (r: bool)
    ensures
        r == is_nan32(bits),
{
    if bits < SIGN32 {
        bits > INFINITE32
    } else {
        bits - SIGN32 > INFINITE32
    }
}

/// Whether a pattern is no number.
pub fn nan64(bits: u64) -> (r: bool)
    ensures
        r == is_nan64(bits),
{
    if bits < SIGN64 {
        bits > INFINITE64
    } else {
        bits - SIGN64 > INFINITE64
    }
}

/// Whether a pattern is a finite number.
pub fn finite32(bits: u32) -> (r: bool)
    ensures
        r == is_finite32(bits),
{
    if bits < SIGN32 {
        bits < INFINITE32
    } else {
        bits - SIGN32 < INFINITE32
    }
}

/// Whether a pattern is a finite number.
pub fn finite64(bits: u64) -> (r: bool)
    ensures
        r == is_finite64(bits),
{
    if bits < SIGN64 {
        bits < INFINITE64
    } else {
        bits - SIGN64 < INFINITE64
    }
}

/// Whether `a` is a smaller number than `b`.
pub fn below32(a: u32, b: u32) -> (r: bool)
    ensures
        r == less32(a, b),
{
    !nan32(a) && !nan32(b) && order_of32(a) < order_of32(b)
}

/// Whether `a` is a smaller number than `b`.
pub fn below64(a: u64, b: u64) -> (r: bool)
    ensures
        r == less64(a, b),
{
    !nan64(a) && !nan64(b) && order_of64(a) < order_of64(b)
}

/// Whether `a` is a number not larger than the number `b`.
pub fn not_above32(a: u32, b: u32) -> (r: bool)
    ensures
        r == at_most32(a, b),
{
    !nan32(a) && !nan32(b) && order_of32(a) <= order_of32(b)
}

/// Whether `a` is a number not larger than the number `b`.
pub fn not_above64(a: u64, b: u64) -> (r: bool)
    ensures
        r == at_most64(a, b),
{
    !nan64(a) && !nan64(b) && order_of64(a) <= order_of64(b)
}

/// Whether two patterns are the same number.
pub fn same_number64(a: u64, b: u64) -> (r: bool)
    ensures
        r == (!is_nan64(a) && !is_nan64(b) && order64(a) == order64(b)),
{
    !nan64(a) && !nan64(b) && order_of64(a) == order_of64(b)
}

/// How a pattern that is not a finite number is shown.
pub open spec fn shown_nonfinite32(bits: u32) -> Seq<char> {
    if is_nan32(bits) {
        "NaN"@
    } else if bits < SIGN32 {
        "inf"@
    } else {
        "-inf"@
    }
}

/// How a pattern that is not a finite number is shown.
pub fn show_nonfinite32(bits: u32) -> (r: &'static str)
    requires
        !is_finite32(bits),
    ensures
        r@ == shown_nonfinite32(bits),
{
    if nan32(bits) {
        "NaN"
    } else if bits < SIGN32 {
        "inf"
    } else {
        "-inf"
    }
}

/// Numbers are ordered as numbers are: none is below itself, the order is transitive, of two either one is
/// below the other or both are as large, and what is no number is not ordered. Of two positive ones the
/// larger pattern is larger, of two negative ones the smaller, and a negative one is below a positive one
/// but for zero.
pub proof fn numbers_are_ordered(a: u64, b: u64, c: u64)
    ensures
        !less64(a, a),
        less64(a, b) && less64(b, c) ==> less64(a, c),
        is_nan64(a) || is_nan64(b) ==> !less64(a, b) && !at_most64(a, b),
        !is_nan64(a) && !is_nan64(b) ==> (at_most64(a, b) <==> !less64(b, a)),
        a < b <= 0x7ff0_0000_0000_0000 ==> less64(a, b),
        0x8000_0000_0000_0000 <= a < b <= 0xfff0_0000_0000_0000 ==> less64(b, a),
        a <= 0x7ff0_0000_0000_0000 && 0x8000_0000_0000_0000 < b <= 0xfff0_0000_0000_0000 ==> less64(
            b,
            a,
        ),
        !less64(0, 0x8000_0000_0000_0000) && !less64(0x8000_0000_0000_0000, 0),
        is_nan64(a) <==> 0x7ff0_0000_0000_0000 < a < 0x8000_0000_0000_0000 || a
            > 0xfff0_0000_0000_0000,
        is_finite64(a) <==> a < 0x7ff0_0000_0000_0000 || 0x8000_0000_0000_0000 <= a
            < 0xfff0_0000_0000_0000,
{
}

/// The same of single precision.
pub proof fn singles_are_ordered(a: u32, b: u32, c: u32)
    ensures
        !less32(a, a),
        less32(a, b) && less32(b, c) ==> less32(a, c),
        is_nan32(a) || is_nan32(b) ==> !less32(a, b) && !at_most32(a, b),
        !is_nan32(a) && !is_nan32(b) ==> (at_most32(a, b) <==> !less32(b, a)),
        a < b <= 0x7f80_0000 ==> less32(a, b),
        0x8000_0000 <= a < b <= 0xff80_0000 ==> less32(b, a),
        a <= 0x7f80_0000 && 0x8000_0000 < b <= 0xff80_0000 ==> less32(b, a),
        !less32(0, 0x8000_0000) && !less32(0x8000_0000, 0),
        is_nan32(a) <==> 0x7f80_0000 < a < 0x8000_0000 || a > 0xff80_0000,
        is_finite32(a) <==> a < 0x7f80_0000 || 0x8000_0000 <= a < 0xff80_0000,
{
}

} // verus!
