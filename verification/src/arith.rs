//! Two's-complement arithmetic on 64-bit signed integers.
//!
//! Every operation is total: addition, subtraction, multiplication and
//! negation wrap on overflow, and division truncates towards zero. The only
//! quotient that does not fit, `i64::MIN / -1`, wraps back to `i64::MIN`.

use vstd::prelude::*;

verus! {

/// The number of distinct 64-bit values.
pub open spec fn modulus() -> int {
    0x1_0000_0000_0000_0000
}

/// The 64-bit signed integer that is congruent to `x` modulo 2^64.
pub open spec fn wrap(x: int) -> i64 {
    if x % modulus() > i64::MAX {
        (x % modulus() - modulus()) as i64
    } else {
        (x % modulus()) as i64
    }
}

/// The quotient of `a` by `b` rounded towards zero (`b` is not zero).
pub open spec fn trunc_div(a: int, b: int) -> int
    recommends
        b != 0,
{
    if a >= 0 && b > 0 {
        a / b
    } else if a < 0 && b < 0 {
        (-a) / (-b)
    } else if a < 0 {
        -((-a) / b)
    } else {
        -(a / (-b))
    }
}

/// The quotient of `a` by a non-zero `b` as 64-bit division gives it.
pub open spec fn wrapped_quotient(a: i64, b: i64) -> i64
    recommends
        b != 0,
{
    wrap(trunc_div(a as int, b as int))
}

/// `wrap` leaves a value that already fits unchanged.
pub proof fn lemma_wrap_in_range(x: int)
    requires
        i64::MIN <= x <= i64::MAX,
    ensures
        wrap(x) == x,
{
}

/// `wrap(x)` differs from `x` by a multiple of 2^64.
pub proof fn lemma_wrap_congruent(x: int)
    ensures
        (wrap(x) - x) % modulus() == 0,
{
}

/// Bounds on the quotient of a non-negative integer by a positive one.
pub proof fn lemma_quotient_bounds(x: int, d: int)
    requires
        x >= 0,
        d > 0,
    ensures
        0 <= x / d <= x,
        d == 1 ==> x / d == x,
        d >= 2 ==> 2 * (x / d) <= x,
{
    assert(0 <= x / d <= x && (d == 1 ==> x / d == x) && (d >= 2 ==> 2 * (x / d) <= x))
        by (nonlinear_arith)
        requires
            x >= 0,
            d > 0,
    ;
}

/// The truncating quotient fits in 64 bits except for `i64::MIN / -1`.
pub proof fn lemma_trunc_div_range(a: i64, b: i64)
    requires
        b != 0,
    ensures
        a == i64::MIN && b == -1 ==> trunc_div(a as int, b as int) == i64::MAX + 1,
        !(a == i64::MIN && b == -1) ==> i64::MIN <= trunc_div(a as int, b as int) <= i64::MAX,
{
    let x: int = if a >= 0 { a as int } else { -(a as int) };
    let d: int = if b > 0 { b as int } else { -(b as int) };
    lemma_quotient_bounds(x, d);
}

/// Sum of `a` and `b`, wrapping on overflow.
pub fn wrapping_add(a: i64, b: i64) -> (r: i64)
    ensures
        r == wrap(a + b),
{
    a.wrapping_add(b)
}

/// Difference of `a` and `b`, wrapping on overflow.
pub fn wrapping_sub(a: i64, b: i64) -> (r: i64)
    ensures
        r == wrap(a - b),
{
    a.wrapping_sub(b)
}

/// Product of `a` and `b`, wrapping on overflow.
pub fn wrapping_mul(a: i64, b: i64) -> (r: i64)
    ensures
        r == wrap(a * b),
{
    a.wrapping_mul(b)
}

/// Negation of `a`; `i64::MIN` is its own negation.
pub fn wrapping_neg(a: i64) -> (r: i64)
    ensures
        r == wrap(-a),
        a != i64::MIN ==> r == -a,
        a == i64::MIN ==> r == i64::MIN,
{
    0i64.wrapping_sub(a)
}

/// Truncating quotient of `a` by a non-zero `b`, wrapping on overflow.
pub fn wrapping_div(a: i64, b: i64) -> (r: i64)
    requires
        b != 0,
    ensures
        r == wrapped_quotient(a, b),
        !(a == i64::MIN && b == -1) ==> r == trunc_div(a as int, b as int),
        a == i64::MIN && b == -1 ==> r == i64::MIN,
{
    proof {
        let x: int = if a >= 0 { a as int } else { -(a as int) };
        let d: int = if b > 0 { b as int } else { -(b as int) };
        lemma_quotient_bounds(x, d);
        lemma_trunc_div_range(a, b);
    }
    match a.checked_div(b) {
        Some(q) => q,
        None => a,
    }
}

} // verus!
