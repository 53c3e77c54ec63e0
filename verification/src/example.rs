//! Integer arithmetic that the library offers to other languages' callers.
use vstd::prelude::*;

verus! {

/// `a + b`, where it fits in an `i32`.
pub fn add(a: i32, b: i32) -> (r: i32)
    requires
        i32::MIN <= a + b <= i32::MAX,
    ensures
        r == a + b,
{
    a + b
}

/// `a - b`, where it fits in an `i32`.
pub fn sub(a: i32, b: i32) -> (r: i32)
    requires
        i32::MIN <= a - b <= i32::MAX,
    ensures
        r == a - b,
{
    a - b
}

} // verus!
