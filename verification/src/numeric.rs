//! Small helpers on machine integers and ordered values.

use vstd::prelude::*;
use vstd::std_specs::cmp::PartialOrdSpec;

verus! {

/// Whether `num` is divisible by two.
pub fn is_even(num: i32) -> (even: bool)
    ensures
        even <==> num % 2 == 0,
{
    num % 2 == 0
}

/// The sum of `a` and `b`, for operands whose sum fits in an `i32`.
pub fn do_sum(a: i32, b: i32) -> (sum: i32)
    requires
        i32::MIN <= a + b <= i32::MAX,
    ensures
        sum == a + b,
{
    a + b
}

/// The greater of two values: `a` where `a > b`, otherwise `b`.
pub fn largest<T: PartialOrd>(a: T, b: T) -> (big: T)
    ensures
        T::obeys_partial_cmp_spec() ==> big == if a.partial_cmp_spec(&b) == Some(
            core::cmp::Ordering::Greater,
        ) {
            a
        } else {
            b
        },
        big == a || big == b,
{
    if a > b {
        a
    } else {
        b
    }
}

} // verus!
