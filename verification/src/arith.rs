//! Rust's `/` and `%` on signed integers, which round toward zero.
use vstd::prelude::*;

verus! {

/// `a / b` rounded toward zero, as Rust divides signed integers.
pub open spec fn trunc_div(a: int, b: int) -> int {
    if a >= 0 {
        if b > 0 {
            a / b
        } else {
            -(a / (-b))
        }
    } else {
        if b > 0 {
            -((-a) / b)
        } else {
            (-a) / (-b)
        }
    }
}

/// The remainder that goes with `trunc_div`; it has the sign of `a`.
pub open spec fn trunc_rem(a: int, b: int) -> int {
    a - b * trunc_div(a, b)
}

/// `a / b` on `i32`.
pub fn div_i32(a: i32, b: i32) -> (r: i32)
    requires
        b != 0,
        !(a == i32::MIN && b == -1),
    ensures
        r == trunc_div(a as int, b as int),
{
    let q = a.checked_div(b);
    assert(q is Some) by (nonlinear_arith)
        requires
            q == a.checked_div(b),
            b != 0,
            !(a == i32::MIN && b == -1),
    {
    }
    q.unwrap()
}

/// `a % b` on `i32`.
pub fn rem_i32(a: i32, b: i32) -> (r: i32)
    requires
        b != 0,
        !(a == i32::MIN && b == -1),
    ensures
        r == trunc_rem(a as int, b as int),
{
    let m = a.checked_rem(b);
    assert(m is Some && m.unwrap() == trunc_rem(a as int, b as int)) by (nonlinear_arith)
        requires
            m == a.checked_rem(b),
            b != 0,
            !(a == i32::MIN && b == -1),
    {
    }
    m.unwrap()
}

} // verus!
