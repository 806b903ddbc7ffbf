//! The length of a point, and how little a rotation changes it.

use vstd::prelude::*;
use crate::angle::{is_unit, Angle, SLACK};
use crate::fixed::{lemma_round_div_bounds, magnitude, saturate, UNITY};
use crate::point::{
    lemma_turn_within, lemma_zero_turn, ring, rotated, scaled, surface_point, turned_first,
    turned_second, Point,
};

verus! {

/// The farthest from the origin that the laws of this module reach: a
/// thousand units, in trillionths.
pub const REACH: i64 = 1_000_000_000_000_000;

/// How much a rotation may change the distance of a point from the origin:
/// a hundred trillionths of a unit, a tenth of a billionth.
pub const TOLERANCE: i64 = 100;

/// How much a turn and the turn back may move a coordinate: forty-one
/// trillionths of a unit.
pub const PLAY: i64 = 41;

/// The square of the distance of a point from the origin.
pub open spec fn norm_squared(p: Point) -> int {
    p.x * p.x + p.y * p.y + p.z * p.z
}

/// Turning a pair `(p, q)` by a pair `(c, s)` multiplies the sum of its
/// squares by the sum of the squares of `c` and `s`.
proof fn lemma_turn_keeps_squares(p: int, q: int, c: int, s: int)
    ensures
        (p * c - s * q) * (p * c - s * q) + (p * s + c * q) * (p * s + c * q) == (p * p + q * q)
            * (c * c + s * s),
{
    let pc = p * c;
    let sq = s * q;
    let ps = p * s;
    let cq = c * q;
    assert((pc - sq) * (pc - sq) == pc * pc - 2 * (pc * sq) + sq * sq) by (nonlinear_arith);
    assert((ps + cq) * (ps + cq) == ps * ps + 2 * (ps * cq) + cq * cq) by (nonlinear_arith);
    assert(pc * sq == ps * cq) by (nonlinear_arith)
        requires
            pc == p * c,
            sq == s * q,
            ps == p * s,
            cq == c * q,
    ;
    assert(pc * pc == (p * p) * (c * c)) by (nonlinear_arith)
        requires
            pc == p * c,
    ;
    assert(sq * sq == (q * q) * (s * s)) by (nonlinear_arith)
        requires
            sq == s * q,
    ;
    assert(ps * ps == (p * p) * (s * s)) by (nonlinear_arith)
        requires
            ps == p * s,
    ;
    assert(cq * cq == (q * q) * (c * c)) by (nonlinear_arith)
        requires
            cq == c * q,
    ;
    let pp = p * p;
    let qq = q * q;
    let cc = c * c;
    let ss = s * s;
    assert((pp + qq) * (cc + ss) == pp * cc + pp * ss + qq * cc + qq * ss) by (nonlinear_arith);
}

/// Where `q` is `n / d` rounded to the nearest, the square of `d * q` is
/// near the square of `n`.
proof fn lemma_rounding_of_square(n: int, d: int, q: int)
    requires
        d > 0,
        2 * d * q - d <= 2 * n < 2 * d * q + d,
    ensures
        4 * magnitude(d * d * q * q - n * n) <= 4 * (d * d) * magnitude(q) + d * d,
{
    let e = d * q - n;
    assert(2 * d * q == 2 * (d * q)) by (nonlinear_arith);
    assert(-d < 2 * e <= d);
    assert(d * d * q * q == (d * q) * (d * q)) by (nonlinear_arith);
    assert((d * q) * (d * q) - n * n == 2 * (d * q) * e - e * e) by (nonlinear_arith)
        requires
            e == d * q - n,
    ;
    assert(0 <= 4 * (e * e) <= d * d) by (nonlinear_arith)
        requires
            -d < 2 * e <= d,
            d > 0,
    ;
    let r = magnitude(q);
    assert(-((d * d) * r) <= 2 * (d * q) * e <= (d * d) * r) by (nonlinear_arith)
        requires
            -d < 2 * e <= d,
            d > 0,
            r >= 0,
            q == r || q == -r,
    ;
    assert(4 * (d * d) * r == 4 * ((d * d) * r)) by (nonlinear_arith);
    let diff = d * d * q * q - n * n;
    assert(diff == 2 * (d * q) * e - e * e);
    assert(-((d * d) * r) - e * e <= diff <= (d * d) * r);
}

/// What a turn in the plane does to the sum of the squares of a pair: it
/// changes it by no more than the rounding of the two lengths and the slack
/// of the angle allow.
proof fn lemma_turn_error(p: int, q: int, cos: int, sin: int)
    requires
        is_unit(cos, sin),
    ensures
        ({
            let p1 = turned_first(p, q, cos, sin);
            let q1 = turned_second(p, q, cos, sin);
            let t2 = UNITY * UNITY;
            4 * magnitude(t2 * (p1 * p1 + q1 * q1) - t2 * (p * p + q * q)) <= 4 * t2 * (magnitude(
                p1,
            ) + magnitude(q1)) + 2 * t2 + 4 * ((p * p + q * q) * SLACK)
        }),
{
    let t = UNITY as int;
    let t2 = UNITY * UNITY;
    let p1 = turned_first(p, q, cos, sin);
    let q1 = turned_second(p, q, cos, sin);
    let u = p * cos - sin * q;
    let v = p * sin + cos * q;
    let g = p * p + q * q;
    let g1 = p1 * p1 + q1 * q1;
    let n = cos * cos + sin * sin;
    lemma_turn_keeps_squares(p, q, cos, sin);
    assert(u * u + v * v == g * n);
    lemma_round_div_bounds(u, t);
    lemma_round_div_bounds(v, t);
    lemma_rounding_of_square(u, t, p1);
    lemma_rounding_of_square(v, t, q1);
    assert(t * t * p1 * p1 == t2 * (p1 * p1) && t * t * q1 * q1 == t2 * (q1 * q1))
        by (nonlinear_arith)
        requires
            t2 == t * t,
    ;
    assert(4 * (t * t) * magnitude(p1) == 4 * t2 * magnitude(p1) && 4 * (t * t) * magnitude(q1)
        == 4 * t2 * magnitude(q1)) by (nonlinear_arith)
        requires
            t2 == t * t,
    ;
    assert(t2 * g1 == t2 * (p1 * p1) + t2 * (q1 * q1)) by (nonlinear_arith)
        requires
            g1 == p1 * p1 + q1 * q1,
    ;
    assert(4 * t2 * (magnitude(p1) + magnitude(q1)) == 4 * t2 * magnitude(p1) + 4 * t2
        * magnitude(q1)) by (nonlinear_arith);
    assert(t2 == t * t);
    // the rounding of the two
    assert(4 * magnitude(t2 * g1 - g * n) <= 4 * t2 * (magnitude(p1) + magnitude(q1)) + 2 * t2);
    // the slack of the angle
    assert(g >= 0) by (nonlinear_arith)
        requires
            g == p * p + q * q,
    ;
    assert(-(g * SLACK) <= g * n - t2 * g <= g * SLACK) by (nonlinear_arith)
        requires
            g >= 0,
            -SLACK <= n - t2 <= SLACK,
    ;
}

/// The arithmetic of the upper bound: a sum of squares that grows by no
/// more than the error of a turn stays within fifty of its length.
proof fn lemma_length_upper(m: int, s: int, length: int)
    requires
        length >= 0,
        s >= 0,
        m <= length * length + 40 * length + s,
        s * s <= 2 * m,
    ensures
        m <= (length + 50) * (length + 50),
{
    assert(s <= 2 * length + 42) by (nonlinear_arith)
        requires
            length >= 0,
            s >= 0,
            s * s <= 2 * (length * length + 40 * length + s),
    ;
    assert((length + 50) * (length + 50) == length * length + 100 * length + 2500)
        by (nonlinear_arith);
}

/// The arithmetic of the lower bound.
proof fn lemma_length_lower(m: int, s: int, length: int)
    requires
        length >= 50,
        s >= 0,
        m >= length * length - 40 * length - s,
        s * s <= 2 * m,
    ensures
        m >= (length - 50) * (length - 50),
{
    assert((length - 50) * (length - 50) == length * length - 100 * length + 2500)
        by (nonlinear_arith);
    if m < (length - 50) * (length - 50) {
        assert(s <= 2 * length) by (nonlinear_arith)
            requires
                length >= 50,
                s >= 0,
                s * s <= 2 * m,
                m < length * length - 100 * length + 2500,
        ;
    }
}

/// A turn in the plane of two coordinates keeps the distance of a point from
/// the origin within fifty trillionths, for lengths up to twice the reach.
/// `r` is the coordinate that the turn leaves alone.
pub proof fn lemma_turn_keeps_length(p: int, q: int, r: int, cos: int, sin: int, length: int)
    requires
        is_unit(cos, sin),
        0 <= length <= 2 * REACH,
    ensures
        ({
            let p1 = turned_first(p, q, cos, sin);
            let q1 = turned_second(p, q, cos, sin);
            let before = p * p + q * q + r * r;
            let after = p1 * p1 + q1 * q1 + r * r;
            &&& before <= length * length ==> after <= (length + 50) * (length + 50)
            &&& before >= length * length && length >= 50 ==> after >= (length - 50) * (length
                - 50)
        }),
{
    let t2 = UNITY * UNITY;
    let e = SLACK as int;
    let p1 = turned_first(p, q, cos, sin);
    let q1 = turned_second(p, q, cos, sin);
    let g = p * p + q * q;
    let g1 = p1 * p1 + q1 * q1;
    let rr = r * r;
    let s = magnitude(p1) + magnitude(q1);
    let before = g + rr;
    let after = g1 + rr;
    lemma_turn_error(p, q, cos, sin);
    assert(g >= 0 && g1 >= 0 && rr >= 0) by (nonlinear_arith)
        requires
            g == p * p + q * q,
            g1 == p1 * p1 + q1 * q1,
            rr == r * r,
    ;
    assert(t2 == 1_000_000_000_000_000_000_000_000_000_000_000_000) by (nonlinear_arith)
        requires
            t2 == UNITY * UNITY,
            UNITY == 1_000_000_000_000_000_000,
    ;
    assert(s * s <= 2 * g1) by (nonlinear_arith)
        requires
            s == magnitude(p1) + magnitude(q1),
            g1 == p1 * p1 + q1 * q1,
    ;
    // the slack of the angle over a length within reach
    let ll = length * length;
    assert(ll >= 0 && ll * e <= 40 * length * t2) by (nonlinear_arith)
        requires
            ll == length * length,
            0 <= length <= 2_000_000_000_000_000,
            e == 20_000_000_000_000_000_000_000,
            t2 == 1_000_000_000_000_000_000_000_000_000_000_000_000,
    ;
    let d = t2 * g1 - t2 * g;
    assert(4 * magnitude(d) <= 4 * t2 * s + 2 * t2 + 4 * (g * e));
    if before <= ll {
        assert(g * e <= ll * e) by (nonlinear_arith)
            requires
                g <= ll,
                e >= 0,
        ;
        assert(g1 - g <= s + 40 * length) by (nonlinear_arith)
            requires
                d == t2 * g1 - t2 * g,
                4 * d <= 4 * t2 * s + 2 * t2 + 4 * (g * e),
                g * e <= 40 * length * t2,
                t2 > 0,
        ;
        assert(s * s <= 2 * after);
        lemma_length_upper(after, s, length);
    }
    if before >= ll && length >= 50 {
        let k = t2 - e;
        let w = after - ll + 40 * length + s;
        assert(g * k == t2 * g - g * e) by (nonlinear_arith)
            requires
                k == t2 - e,
        ;
        assert(rr * k <= t2 * rr) by (nonlinear_arith)
            requires
                rr >= 0,
                k <= t2,
        ;
        assert(before * k == g * k + rr * k) by (nonlinear_arith)
            requires
                before == g + rr,
        ;
        assert(before * k >= ll * k) by (nonlinear_arith)
            requires
                before >= ll,
                k > 0,
        ;
        assert(ll * k == t2 * ll - ll * e) by (nonlinear_arith)
            requires
                k == t2 - e,
        ;
        assert(t2 * w == t2 * g1 + t2 * rr - t2 * ll + 40 * length * t2 + t2 * s)
            by (nonlinear_arith)
            requires
                w == after - ll + 40 * length + s,
                after == g1 + rr,
        ;
        assert(4 * t2 * s == 4 * (t2 * s)) by (nonlinear_arith);
        assert(4 * (t2 * g1) >= 4 * (g * k) - 4 * (t2 * s) - 2 * t2);
        assert(4 * (t2 * w) >= -2 * t2);
        assert(w >= 0) by (nonlinear_arith)
            requires
                4 * (t2 * w) >= -2 * t2,
                t2 > 0,
        ;
        assert(s * s <= 2 * after);
        lemma_length_lower(after, s, length);
    }
}

/// A coordinate whose square is within the square of a bound is within the
/// bound.
proof fn lemma_within_square(v: int, rest: int, bound: int)
    requires
        bound >= 0,
        rest >= 0,
        v * v + rest <= bound * bound,
    ensures
        -bound <= v <= bound,
{
    assert(-bound <= v <= bound) by (nonlinear_arith)
        requires
            bound >= 0,
            v * v <= bound * bound,
    ;
}

/// A rotation is no scaling: it changes the distance of a point from the
/// origin by no more than [`TOLERANCE`], a tenth of a billionth of a unit,
/// for every point within [`REACH`] of the origin. The distance is held
/// against a whole number of trillionths: where the point is no farther than
/// `length`, the turned point is no farther than `length` and the tolerance;
/// where it is no nearer, the turned point is no nearer than `length` less
/// the tolerance.
pub proof fn lemma_rotation_keeps_length(p: Point, a: Angle, b: Angle, length: int)
    requires
        a.wf(),
        b.wf(),
        0 <= length <= REACH,
        norm_squared(p) <= REACH * REACH,
    ensures
        norm_squared(p) <= length * length ==> norm_squared(rotated(p, a, b)) <= (length
            + TOLERANCE) * (length + TOLERANCE),
        norm_squared(p) >= length * length && length >= TOLERANCE ==> norm_squared(
            rotated(p, a, b),
        ) >= (length - TOLERANCE) * (length - TOLERANCE),
{
    let x = p.x as int;
    let y = p.y as int;
    let z = p.z as int;
    let ca = a.cosine();
    let sa = a.sine();
    let cb = b.cosine();
    let sb = b.sine();
    let y1 = turned_first(y, z, ca, sa);
    let z1 = turned_second(y, z, ca, sa);
    let x2 = turned_first(x, y1, cb, sb);
    let y2 = turned_second(x, y1, cb, sb);
    let n = norm_squared(p);
    let n1 = y1 * y1 + z1 * z1 + x * x;
    let m = x2 * x2 + y2 * y2 + z1 * z1;
    let reach = REACH as int;
    assert(n == y * y + z * z + x * x);
    assert(n1 == x * x + y1 * y1 + z1 * z1);
    // within reach nothing saturates
    lemma_turn_keeps_length(y, z, x, ca, sa, reach);
    lemma_turn_keeps_length(x, y1, z1, cb, sb, reach + 50);
    assert((reach + 50 + 50) * (reach + 50 + 50) == (reach + 100) * (reach + 100));
    assert(m <= (reach + 100) * (reach + 100));
    assert(x2 * x2 >= 0 && y2 * y2 >= 0 && z1 * z1 >= 0) by (nonlinear_arith);
    lemma_within_square(x2, y2 * y2 + z1 * z1, reach + 100);
    lemma_within_square(y2, x2 * x2 + z1 * z1, reach + 100);
    lemma_within_square(z1, x2 * x2 + y2 * y2, reach + 100);
    let q = rotated(p, a, b);
    assert(q.x == x2 && q.y == y2 && q.z == z1);
    assert(norm_squared(q) == m);
    if n <= length * length {
        lemma_turn_keeps_length(y, z, x, ca, sa, length);
        lemma_turn_keeps_length(x, y1, z1, cb, sb, length + 50);
        assert((length + 50 + 50) * (length + 50 + 50) == (length + TOLERANCE) * (length
            + TOLERANCE));
    }
    if n >= length * length && length >= TOLERANCE {
        lemma_turn_keeps_length(y, z, x, ca, sa, length);
        lemma_turn_keeps_length(x, y1, z1, cb, sb, length - 50);
        assert((length - 50 - 50) * (length - 50 - 50) == (length - TOLERANCE) * (length
            - TOLERANCE));
    }
}

/// Turning back what was turned gives each length of the pair again, times
/// the sum of the squares of the cosine and the sine.
proof fn lemma_turn_back_exact(p: int, q: int, c: int, s: int)
    ensures
        (p * c - s * q) * c + s * (p * s + c * q) == p * (c * c + s * s),
        c * (p * s + c * q) - (p * c - s * q) * s == q * (c * c + s * s),
{
    let pc = p * c;
    let sq = s * q;
    let ps = p * s;
    let cq = c * q;
    assert((pc - sq) * c == pc * c - sq * c) by (nonlinear_arith);
    assert(s * (ps + cq) == s * ps + s * cq) by (nonlinear_arith);
    assert(c * (ps + cq) == c * ps + c * cq) by (nonlinear_arith);
    assert((pc - sq) * s == pc * s - sq * s) by (nonlinear_arith);
    assert(sq * c == s * cq) by (nonlinear_arith)
        requires
            sq == s * q,
            cq == c * q,
    ;
    assert(c * ps == pc * s) by (nonlinear_arith)
        requires
            ps == p * s,
            pc == p * c,
    ;
    assert(pc * c == p * (c * c) && s * ps == p * (s * s)) by (nonlinear_arith)
        requires
            pc == p * c,
            ps == p * s,
    ;
    assert(c * cq == q * (c * c) && sq * s == q * (s * s)) by (nonlinear_arith)
        requires
            cq == c * q,
            sq == s * q,
    ;
    assert(p * (c * c + s * s) == p * (c * c) + p * (s * s)) by (nonlinear_arith);
    assert(q * (c * c + s * s) == q * (c * c) + q * (s * s)) by (nonlinear_arith);
}

/// A turn in the plane and the turn back by the negative angle bring a pair
/// of lengths within [`PLAY`] of where they were, for lengths up to twice
/// the reach.
pub proof fn lemma_turn_back(p: int, q: int, cos: int, sin: int)
    requires
        is_unit(cos, sin),
        -2 * REACH <= p <= 2 * REACH,
        -2 * REACH <= q <= 2 * REACH,
    ensures
        ({
            let p1 = turned_first(p, q, cos, sin);
            let q1 = turned_second(p, q, cos, sin);
            &&& magnitude(turned_first(p1, q1, cos, -sin) - p) <= PLAY
            &&& magnitude(turned_second(p1, q1, cos, -sin) - q) <= PLAY
        }),
{
    let t = UNITY as int;
    let t2 = UNITY * UNITY;
    let e = SLACK as int;
    let p1 = turned_first(p, q, cos, sin);
    let q1 = turned_second(p, q, cos, sin);
    let u = p * cos - sin * q;
    let v = p * sin + cos * q;
    let n = cos * cos + sin * sin;
    lemma_round_div_bounds(u, t);
    lemma_round_div_bounds(v, t);
    let d1 = t * p1 - u;
    let d2 = t * q1 - v;
    assert(2 * t * p1 == 2 * (t * p1) && 2 * t * q1 == 2 * (t * q1)) by (nonlinear_arith);
    assert(-t <= 2 * d1 <= t && -t <= 2 * d2 <= t);
    assert(t2 == 1_000_000_000_000_000_000_000_000_000_000_000_000 && t2 == t * t)
        by (nonlinear_arith)
        requires
            t2 == UNITY * UNITY,
            t == UNITY,
            UNITY == 1_000_000_000_000_000_000,
    ;
    // what the rounding of the first turn adds
    assert(-t2 <= 2 * (d1 * cos) <= t2 && -t2 <= 2 * (d1 * sin) <= t2 && -t2 <= 2 * (sin * d2)
        <= t2 && -t2 <= 2 * (cos * d2) <= t2) by (nonlinear_arith)
        requires
            -t <= 2 * d1 <= t,
            -t <= 2 * d2 <= t,
            -t <= cos <= t,
            -t <= sin <= t,
            t2 == t * t,
            t > 0,
    ;
    // what the slack of the angle adds
    assert(-(40 * t2) <= p * n - p * t2 <= 40 * t2 && -(40 * t2) <= q * n - q * t2 <= 40 * t2)
        by (nonlinear_arith)
        requires
            -2_000_000_000_000_000 <= p <= 2_000_000_000_000_000,
            -2_000_000_000_000_000 <= q <= 2_000_000_000_000_000,
            -20_000_000_000_000_000_000_000 <= n - t2 <= 20_000_000_000_000_000_000_000,
            t2 == 1_000_000_000_000_000_000_000_000_000_000_000_000,
    ;
    // the first of the pair
    let w = p1 * cos - (-sin) * q1;
    lemma_turn_back_exact(p, q, cos, sin);
    assert(t * w == (t * p1) * cos + sin * (t * q1)) by (nonlinear_arith)
        requires
            w == p1 * cos - (-sin) * q1,
    ;
    assert((u + d1) * cos == u * cos + d1 * cos && sin * (v + d2) == sin * v + sin * d2)
        by (nonlinear_arith);
    assert(t * w == p * n + d1 * cos + sin * d2);
    let p2 = turned_first(p1, q1, cos, -sin);
    lemma_round_div_bounds(w, t);
    assert(2 * t * p2 == 2 * (t * p2)) by (nonlinear_arith);
    assert(p * t2 == t * (p * t) && t * (t * p2) == t2 * p2) by (nonlinear_arith)
        requires
            t2 == t * t,
    ;
    assert(-(83 * t2) <= 2 * (t2 * p2) - 2 * (p * t2) <= 83 * t2) by (nonlinear_arith)
        requires
            2 * (t * p2) - t <= 2 * w < 2 * (t * p2) + t,
            t * w == p * n + d1 * cos + sin * d2,
            -t2 <= 2 * (d1 * cos) <= t2,
            -t2 <= 2 * (sin * d2) <= t2,
            -(40 * t2) <= p * n - p * t2 <= 40 * t2,
            t * (t * p2) == t2 * p2,
            t2 == t * t,
            t > 0,
    ;
    assert(-41 <= p2 - p <= 41) by (nonlinear_arith)
        requires
            -(83 * t2) <= 2 * (t2 * p2) - 2 * (p * t2) <= 83 * t2,
            t2 > 0,
    ;
    // the second of the pair
    let w2 = p1 * (-sin) + cos * q1;
    assert(t * w2 == cos * (t * q1) - (t * p1) * sin) by (nonlinear_arith)
        requires
            w2 == p1 * (-sin) + cos * q1,
    ;
    assert((u + d1) * sin == u * sin + d1 * sin && cos * (v + d2) == cos * v + cos * d2)
        by (nonlinear_arith);
    assert(t * w2 == q * n - d1 * sin + cos * d2);
    let q2 = turned_second(p1, q1, cos, -sin);
    lemma_round_div_bounds(w2, t);
    assert(2 * t * q2 == 2 * (t * q2)) by (nonlinear_arith);
    assert(t * (t * q2) == t2 * q2) by (nonlinear_arith)
        requires
            t2 == t * t,
    ;
    assert(-(83 * t2) <= 2 * (t2 * q2) - 2 * (q * t2) <= 83 * t2) by (nonlinear_arith)
        requires
            2 * (t * q2) - t <= 2 * w2 < 2 * (t * q2) + t,
            t * w2 == q * n - d1 * sin + cos * d2,
            -t2 <= 2 * (d1 * sin) <= t2,
            -t2 <= 2 * (cos * d2) <= t2,
            -(40 * t2) <= q * n - q * t2 <= 40 * t2,
            t * (t * q2) == t2 * q2,
            t2 == t * t,
            t > 0,
    ;
    assert(-41 <= q2 - q <= 41) by (nonlinear_arith)
        requires
            -(83 * t2) <= 2 * (t2 * q2) - 2 * (q * t2) <= 83 * t2,
            t2 > 0,
    ;
}

/// A rotation about one axis is undone by the rotation by the negative
/// angle: each coordinate comes back within [`PLAY`] of where it was, and the
/// one along the axis exactly, for every point whose coordinates are within
/// [`REACH`].
pub proof fn lemma_rotation_is_undone(p: Point, a: Angle, back: Angle, nought: Angle)
    requires
        a.wf(),
        back.cosine() == a.cosine(),
        back.sine() == -a.sine(),
        nought.cosine() == UNITY,
        nought.sine() == 0,
        -REACH <= p.x <= REACH,
        -REACH <= p.y <= REACH,
        -REACH <= p.z <= REACH,
    ensures
        rotated(rotated(p, a, nought), back, nought).x == p.x,
        magnitude(rotated(rotated(p, a, nought), back, nought).y - p.y) <= PLAY,
        magnitude(rotated(rotated(p, a, nought), back, nought).z - p.z) <= PLAY,
        magnitude(rotated(rotated(p, nought, a), nought, back).x - p.x) <= PLAY,
        magnitude(rotated(rotated(p, nought, a), nought, back).y - p.y) <= PLAY,
        rotated(rotated(p, nought, a), nought, back).z == p.z,
{
    let x = p.x as int;
    let y = p.y as int;
    let z = p.z as int;
    let c = a.cosine();
    let s = a.sine();
    // about the first axis
    let y1 = turned_first(y, z, c, s);
    let z1 = turned_second(y, z, c, s);
    lemma_turn_within(y, z, c, s);
    lemma_zero_turn(x, y1);
    let there = rotated(p, a, nought);
    assert(there.x == x && there.y == y1 && there.z == z1);
    lemma_turn_back(y, z, c, s);
    let y2 = turned_first(y1, z1, c, -s);
    lemma_zero_turn(x, y2);
    // about the second axis
    let x1 = turned_first(x, y, c, s);
    let y3 = turned_second(x, y, c, s);
    lemma_zero_turn(y, z);
    lemma_turn_within(x, y, c, s);
    let out = rotated(p, nought, a);
    assert(out.x == x1 && out.y == y3 && out.z == z);
    lemma_turn_back(x, y, c, s);
    lemma_zero_turn(y3, z);
}

/// A product of a length and a cosine or sine is a turn of that length
/// and nought: by the cosine the first of the pair, by the sine the second.
proof fn lemma_scaled_is_turned(length: int, cos: int, sin: int)
    ensures
        scaled(length, cos) == turned_first(length, 0, cos, sin),
        scaled(length, sin) == turned_second(length, 0, cos, sin),
        scaled(-length, sin) == turned_second(length, 0, cos, -sin),
        scaled(length, cos) == turned_first(length, 0, cos, -sin),
{
    assert(length * cos - sin * 0 == length * cos) by (nonlinear_arith);
    assert(length * sin + cos * 0 == length * sin) by (nonlinear_arith);
    assert(length * (-sin) + cos * 0 == (-length) * sin) by (nonlinear_arith);
    assert(length * cos - (-sin) * 0 == length * cos) by (nonlinear_arith);
}

/// The points that the generator makes lie on the torus, for radii within
/// [`REACH`] and a tube no wider than the torus. With `w` the distance from
/// the axis of the torus to its surface at the angle `theta`, which is
/// [`ring`]: the point stands within fifty trillionths of `w` from the axis,
/// and `w` less the torus radius and the height of the point make, together,
/// a length within fifty trillionths of the tube radius. Each length is held
/// against the squares of the whole numbers on either side of it.
pub proof fn lemma_surface_point_on_torus(
    torus_radius: int,
    ring_radius: int,
    phi: Angle,
    theta: Angle,
)
    requires
        phi.wf(),
        theta.wf(),
        0 <= ring_radius <= torus_radius <= REACH,
    ensures
        ({
            let p = surface_point(torus_radius, ring_radius, phi, theta);
            let w = ring(torus_radius, ring_radius, theta);
            let from_axis = p.x * p.x + p.z * p.z;
            let across = (w - torus_radius) * (w - torus_radius) + p.y * p.y;
            &&& 0 <= w <= 2 * REACH
            &&& from_axis <= (w + 50) * (w + 50)
            &&& w >= 50 ==> from_axis >= (w - 50) * (w - 50)
            &&& across <= (ring_radius + 50) * (ring_radius + 50)
            &&& ring_radius >= 50 ==> across >= (ring_radius - 50) * (ring_radius - 50)
        }),
{
    let r = ring_radius;
    let ct = theta.cosine();
    let st = theta.sine();
    let cp = phi.cosine();
    let sp = phi.sine();
    let w = ring(torus_radius, ring_radius, theta);
    // round the tube
    lemma_scaled_is_turned(r, ct, st);
    lemma_turn_within(r, 0, ct, st);
    let h = scaled(r, ct);
    let y = scaled(r, st);
    assert(w - torus_radius == h);
    lemma_turn_keeps_length(r, 0, 0, ct, st, r);
    assert(r * r + 0 * 0 + 0 * 0 == r * r) by (nonlinear_arith);
    // round the hole
    assert(sp * sp == (-sp) * (-sp)) by (nonlinear_arith);
    assert(is_unit(cp, -sp));
    lemma_scaled_is_turned(w, cp, sp);
    lemma_turn_within(w, 0, cp, -sp);
    let x = scaled(w, cp);
    let z = scaled(-w, sp);
    lemma_turn_keeps_length(w, 0, 0, cp, -sp, w);
    assert(w * w + 0 * 0 + 0 * 0 == w * w) by (nonlinear_arith);
    // nothing saturates
    let p = surface_point(torus_radius, ring_radius, phi, theta);
    assert(saturate(x) == x && saturate(y) == y && saturate(z) == z);
    assert(p.x == x && p.y == y && p.z == z);
    assert(x * x + z * z + 0 * 0 == p.x * p.x + p.z * p.z) by (nonlinear_arith)
        requires
            p.x == x,
            p.z == z,
    ;
    assert(h * h + y * y + 0 * 0 == (w - torus_radius) * (w - torus_radius) + p.y * p.y)
        by (nonlinear_arith)
        requires
            p.y == y,
            w - torus_radius == h,
    ;
}

} // verus!
