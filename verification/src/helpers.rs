use vstd::prelude::*;

verus! {

/// Rust's truncating division on integers (rounds toward zero).
pub open spec fn trunc_div(a: int, b: int) -> int
    recommends
        b != 0,
{
    let q = (if a < 0 { -a } else { a }) / (if b < 0 { -b } else { b });
    if (a < 0) != (b < 0) { -q } else { q }
}

/// The average of two scores, rounded toward zero.
pub fn avg(a: i16, b: i16) -> (r: i16)
    ensures
        r == trunc_div(a + b, 2),
{
    let s: i32 = a as i32 + b as i32;
    (s / 2) as i16
}

/// Rust's `/` on `i32` (rounding toward zero), for operands whose negation fits.
pub fn div_trunc(a: i32, d: i32) -> (r: i32)
    requires
        d != 0,
        a > i32::MIN,
        d > i32::MIN,
    ensures
        r == trunc_div(a as int, d as int),
{
    let aa: i32 = if a < 0 { -a } else { a };
    let ad: i32 = if d < 0 { -d } else { d };
    let q: i32 = aa / ad;
    if (a < 0) != (d < 0) { -q } else { q }
}

} // verus!
