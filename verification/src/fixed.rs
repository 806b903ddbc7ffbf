//! Fixed-point arithmetic: a length is an integer that counts trillionths of
//! a unit, a cosine or sine one that counts billionths of a billionth, so
//! every rule of the renderer is exact integer arithmetic.

use vstd::prelude::*;

verus! {

/// The length of one unit: lengths and coordinates count trillionths.
pub const ONE: i64 = 1_000_000_000_000;

/// The cosine of a zero angle: cosines and sines count billionths of a
/// billionth, which is about as fine as the machine's own are.
pub const UNITY: i64 = 1_000_000_000_000_000_000;

/// The absolute value of an integer.
pub open spec fn magnitude(v: int) -> int {
    if v < 0 {
        -v
    } else {
        v
    }
}

/// The quotient `n / d` of the rationals rounded to the nearest integer, a
/// half rounding up. Meant for a positive `d`.
pub open spec fn round_div(n: int, d: int) -> int {
    (2 * n + d) / (2 * d)
}

/// The quotient `n / d` of the rationals rounded down, for a divisor of
/// either sign. Meant for a nonzero `d`.
pub open spec fn floor_div(n: int, d: int) -> int {
    if d > 0 {
        n / d
    } else {
        (-n) / (-d)
    }
}

/// The integer nearest to `v` that an `i64` can hold.
pub open spec fn saturate(v: int) -> int {
    if v < i64::MIN {
        i64::MIN as int
    } else if v > i64::MAX {
        i64::MAX as int
    } else {
        v
    }
}

/// A bound on the numerators that the rounding and flooring divisions take,
/// chosen so that doubling one and adding a divisor stays inside an `i128`.
pub open spec fn numerator_fits(n: int) -> bool {
    -0x2000_0000_0000_0000_0000_0000_0000_0000 <= n <= 0x2000_0000_0000_0000_0000_0000_0000_0000
}

/// Divides with rounding to nearest.
pub(crate) fn div_round(n: i128, d: i128) -> (q: i128)
    requires
        0 < d <= UNITY,
        numerator_fits(n as int),
    ensures
        q == round_div(n as int, d as int),
{
    proof {
        lemma_quotient_within(2 * n + d, 2 * d);
    }
    match (2 * n + d).checked_div_euclid(2 * d) {
        Some(q) => q,
        None => 0,
    }
}

/// Divides with rounding down.
pub(crate) fn div_floor(n: i128, d: i128) -> (q: i128)
    requires
        d != 0,
        numerator_fits(n as int),
        numerator_fits(d as int),
    ensures
        q == floor_div(n as int, d as int),
        -magnitude(n as int) <= q <= magnitude(n as int),
{
    let (num, den): (i128, i128) = if d > 0 {
        (n, d)
    } else {
        (-n, -d)
    };
    proof {
        lemma_quotient_within(num as int, den as int);
    }
    match num.checked_div_euclid(den) {
        Some(q) => q,
        None => 0,
    }
}

/// Brings a wide value into the range of an `i64`.
pub(crate) fn saturating(v: i128) -> (r: i64)
    ensures
        r == saturate(v as int),
{
    if v < -0x8000_0000_0000_0000 {
        i64::MIN
    } else if v > 0x7fff_ffff_ffff_ffff {
        i64::MAX
    } else {
        v as i64
    }
}

/// A product is no larger in magnitude than the product of bounds on its
/// factors.
pub proof fn lemma_product_within(a: int, b: int, bound_a: int, bound_b: int)
    by (nonlinear_arith)
    requires
        -bound_a <= a <= bound_a,
        -bound_b <= b <= bound_b,
    ensures
        -(bound_a * bound_b) <= a * b <= bound_a * bound_b,
{
}

/// A quotient by a positive divisor is no larger in magnitude than its
/// numerator, so it fits wherever the numerator does.
pub proof fn lemma_quotient_within(n: int, d: int)
    requires
        d > 0,
    ensures
        -magnitude(n) <= n / d <= magnitude(n),
{
    let q = n / d;
    let r = n % d;
    vstd::arithmetic::div_mod::lemma_fundamental_div_mod(n, d);
    vstd::arithmetic::div_mod::lemma_mod_bound(n, d);
    assert(n == d * q + r);
    assert(0 <= r < d);
    assert(-magnitude(n) <= q <= magnitude(n)) by (nonlinear_arith)
        requires
            n == d * q + r,
            0 <= r < d,
            d > 0,
    ;
}

/// Where a quotient by a positive divisor lies: `round_div(n, d)` is the one
/// integer `q` with `2 * d * q - d <= 2 * n < 2 * d * q + d`.
pub proof fn lemma_round_div_bounds(n: int, d: int)
    requires
        d > 0,
    ensures
        2 * d * round_div(n, d) - d <= 2 * n < 2 * d * round_div(n, d) + d,
{
    let m = 2 * n + d;
    let e = 2 * d;
    vstd::arithmetic::div_mod::lemma_fundamental_div_mod(m, e);
    vstd::arithmetic::div_mod::lemma_mod_bound(m, e);
    let q = m / e;
    assert(e * q == 2 * d * q) by (nonlinear_arith)
        requires
            e == 2 * d,
    ;
}

/// Rounding gives back an integer that was scaled up: `q * d / d` is `q`.
pub proof fn lemma_round_div_exact(q: int, d: int)
    requires
        d > 0,
    ensures
        round_div(q * d, d) == q,
{
    let e = 2 * d;
    assert(2 * (q * d) + d == q * e + d) by (nonlinear_arith)
        requires
            e == 2 * d,
    ;
    vstd::arithmetic::div_mod::lemma_fundamental_div_mod_converse(q * e + d, e, q, d);
}

/// A quotient rounded to the nearest is within `l` where the numerator is
/// within `d * l`.
pub proof fn lemma_round_within(n: int, d: int, l: int)
    requires
        d > 0,
        l >= 0,
        -(d * l) <= n <= d * l,
    ensures
        -l <= round_div(n, d) <= l,
{
    lemma_round_div_bounds(n, d);
    let q = round_div(n, d);
    assert(2 * d * q == d * (2 * q)) by (nonlinear_arith);
    assert(-l <= q <= l) by (nonlinear_arith)
        requires
            d > 0,
            d * (2 * q) - d <= 2 * n < d * (2 * q) + d,
            -(d * l) <= n <= d * l,
    ;
}

} // verus!
