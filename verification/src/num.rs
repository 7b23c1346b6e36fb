//! Small integer helpers shared by the scoring code.

use vstd::prelude::*;

verus! {

/// The larger of two integers.
pub open spec fn larger(a: int, b: int) -> int {
    if a >= b {
        a
    } else {
        b
    }
}

/// The smaller of two integers.
pub open spec fn smaller(a: int, b: int) -> int {
    if a <= b {
        a
    } else {
        b
    }
}

/// The distance of an integer from zero.
pub open spec fn magnitude(a: int) -> int {
    if a < 0 {
        -a
    } else {
        a
    }
}

/// One for `true`, zero for `false`.
pub open spec fn unit(b: bool) -> int {
    if b {
        1
    } else {
        0
    }
}

pub fn max_i32(a: i32, b: i32) -> (r: i32)
    ensures
        r == larger(a as int, b as int),
{
    if a >= b {
        a
    } else {
        b
    }
}

pub fn min_i32(a: i32, b: i32) -> (r: i32)
    ensures
        r == smaller(a as int, b as int),
{
    if a <= b {
        a
    } else {
        b
    }
}

pub fn max_i64(a: i64, b: i64) -> (r: i64)
    ensures
        r == larger(a as int, b as int),
{
    if a >= b {
        a
    } else {
        b
    }
}

pub fn min_i64(a: i64, b: i64) -> (r: i64)
    ensures
        r == smaller(a as int, b as int),
{
    if a <= b {
        a
    } else {
        b
    }
}

pub fn min_usize(a: usize, b: usize) -> (r: usize)
    ensures
        r == smaller(a as int, b as int),
{
    if a <= b {
        a
    } else {
        b
    }
}

pub fn max_usize(a: usize, b: usize) -> (r: usize)
    ensures
        r == larger(a as int, b as int),
{
    if a >= b {
        a
    } else {
        b
    }
}

/// The distance of `a` from zero, for every value whose negation exists.
pub fn abs_i32(a: i32) -> (r: i32)
    requires
        a > i32::MIN,
    ensures
        r == magnitude(a as int),
{
    if a < 0 {
        -a
    } else {
        a
    }
}

/// One more than `a`, or the largest value where that does not exist.
pub fn successor_i32(a: i32) -> (r: i32)
    ensures
        r == smaller(a + 1, i32::MAX as int),
{
    if a < i32::MAX {
        a + 1
    } else {
        a
    }
}

/// One for `true`, zero for `false`.
pub fn unit_i32(b: bool) -> (r: i32)
    ensures
        r == unit(b),
{
    if b {
        1
    } else {
        0
    }
}

/// One for `true`, zero for `false`.
pub fn unit_usize(b: bool) -> (r: usize)
    ensures
        r == unit(b),
{
    if b {
        1
    } else {
        0
    }
}

} // verus!
