//! Points of the cloud and the arithmetic that places and turns them.

use vstd::prelude::*;
use crate::angle::{lemma_unit_within_one, Angle};
use crate::fixed::{
    div_round, lemma_product_within, lemma_round_div_bounds, lemma_round_div_exact,
    lemma_round_within, magnitude, round_div, saturate, saturating, UNITY,
};

verus! {

/// A point in space. Each coordinate counts trillionths of a unit.
#[derive(Clone, Copy, Debug, PartialEq, Eq, Structural)]
pub struct Point {
    pub x: i64,
    pub y: i64,
    pub z: i64,
}

/// The product of a length and a cosine or sine, as a length: the exact
/// product rounded to the nearest trillionth.
pub open spec fn scaled(length: int, part: int) -> int {
    round_div(length * part, UNITY as int)
}

/// The distance from the axis of the torus to its surface at the angle
/// `theta` round the tube: `R + r cos theta`.
pub open spec fn ring(torus_radius: int, ring_radius: int, theta: Angle) -> int {
    torus_radius + scaled(ring_radius, theta.cosine())
}

/// The point of the torus surface at the angle `phi` round the hole and the
/// angle `theta` round the tube:
///
/// ```text
/// x =  (R + r cos theta) cos phi
/// y =   r sin theta
/// z = -(R + r cos theta) sin phi
/// ```
///
/// with `R` the distance `torus_radius` from the centre of the torus to the
/// centre of the tube and `r` the radius `ring_radius` of the tube. Every
/// product is rounded to the nearest trillionth, and a coordinate saturates
/// at the ends of an `i64`.
pub open spec fn surface_point(torus_radius: int, ring_radius: int, phi: Angle, theta: Angle) -> Point {
    let ring = ring(torus_radius, ring_radius, theta);
    Point {
        x: saturate(scaled(ring, phi.cosine())) as i64,
        y: saturate(scaled(ring_radius, theta.sine())) as i64,
        z: saturate(scaled(-ring, phi.sine())) as i64,
    }
}

/// The first of a pair of lengths after a turn in their plane by the angle
/// of cosine `cos` and sine `sin`: `p cos - q sin`, rounded to the nearest
/// trillionth.
pub open spec fn turned_first(p: int, q: int, cos: int, sin: int) -> int {
    round_div(p * cos - sin * q, UNITY as int)
}

/// The second of a pair of lengths after a turn in their plane:
/// `p sin + q cos`, rounded to the nearest trillionth.
pub open spec fn turned_second(p: int, q: int, cos: int, sin: int) -> int {
    round_div(p * sin + cos * q, UNITY as int)
}

/// The point `p` turned by the angle `a`, which mixes `y` and `z`, and then
/// by the angle `b`, which mixes `x` and the turned `y`:
///
/// ```text
/// y1 = y cos a - z sin a
/// z' = y sin a + z cos a
/// x' = x cos b - y1 sin b
/// y' = x sin b + y1 cos b
/// ```
///
/// Each of the four is rounded to the nearest trillionth, and a coordinate
/// saturates at the ends of an `i64`.
pub open spec fn rotated(p: Point, a: Angle, b: Angle) -> Point {
    let y1 = turned_first(p.y as int, p.z as int, a.cosine(), a.sine());
    let z1 = turned_second(p.y as int, p.z as int, a.cosine(), a.sine());
    Point {
        x: saturate(turned_first(p.x as int, y1, b.cosine(), b.sine())) as i64,
        y: saturate(turned_second(p.x as int, y1, b.cosine(), b.sine())) as i64,
        z: saturate(z1) as i64,
    }
}

/// A turn in the plane takes no length beyond the sum of the two it turns.
pub proof fn lemma_turn_within(p: int, q: int, cos: int, sin: int)
    requires
        -UNITY <= cos <= UNITY,
        -UNITY <= sin <= UNITY,
    ensures
        -((magnitude(p) + magnitude(q)) * UNITY) <= p * cos - sin * q <= (magnitude(p)
            + magnitude(q)) * UNITY,
        -((magnitude(p) + magnitude(q)) * UNITY) <= p * sin + cos * q <= (magnitude(p)
            + magnitude(q)) * UNITY,
        magnitude(turned_first(p, q, cos, sin)) <= magnitude(p) + magnitude(q),
        magnitude(turned_second(p, q, cos, sin)) <= magnitude(p) + magnitude(q),
{
    let one = UNITY as int;
    let mp = magnitude(p);
    let mq = magnitude(q);
    lemma_product_within(p, cos, mp, one);
    lemma_product_within(sin, q, one, mq);
    lemma_product_within(p, sin, mp, one);
    lemma_product_within(cos, q, one, mq);
    assert((mp + mq) * one == mp * one + one * mq && one * (mp + mq) == (mp + mq) * one)
        by (nonlinear_arith);
    lemma_round_within(p * cos - sin * q, one, mp + mq);
    lemma_round_within(p * sin + cos * q, one, mp + mq);
}

/// The two lengths of a pair after a turn in their plane.
fn turn(p: i128, q: i128, cos: i128, sin: i128) -> (r: (i128, i128))
    requires
        -0x1_0000_0000_0000_0000 <= p <= 0x1_0000_0000_0000_0000,
        -0x1_0000_0000_0000_0000 <= q <= 0x1_0000_0000_0000_0000,
        -UNITY <= cos <= UNITY,
        -UNITY <= sin <= UNITY,
    ensures
        r.0 == turned_first(p as int, q as int, cos as int, sin as int),
        r.1 == turned_second(p as int, q as int, cos as int, sin as int),
        magnitude(r.0 as int) <= magnitude(p as int) + magnitude(q as int),
        magnitude(r.1 as int) <= magnitude(p as int) + magnitude(q as int),
{
    proof {
        let word: int = 0x1_0000_0000_0000_0000;
        let one: int = 1_000_000_000_000_000_000;
        lemma_turn_within(p as int, q as int, cos as int, sin as int);
        lemma_product_within(p as int, cos as int, word, one);
        lemma_product_within(sin as int, q as int, one, word);
        lemma_product_within(p as int, sin as int, word, one);
        lemma_product_within(cos as int, q as int, one, word);
        assert(word * one == 0x1_0000_0000_0000_0000 * 1_000_000_000_000_000_000 && one * word
            == word * one) by (nonlinear_arith)
            requires
                word == 0x1_0000_0000_0000_0000,
                one == 1_000_000_000_000_000_000,
        ;
        assert((magnitude(p as int) + magnitude(q as int)) * UNITY <= (2 * word)
            * 1_000_000_000_000_000_000) by (nonlinear_arith)
            requires
                0 <= magnitude(p as int) + magnitude(q as int) <= 2 * word,
                UNITY == 1_000_000_000_000_000_000,
        ;
    }
    (div_round(p * cos - sin * q, UNITY as i128), div_round(p * sin + cos * q, UNITY as i128))
}

/// The product of a length and a cosine or sine.
fn scale(length: i128, part: i128) -> (r: i128)
    requires
        -0x1_0000_0000_0000_0000 <= length <= 0x1_0000_0000_0000_0000,
        -UNITY <= part <= UNITY,
    ensures
        r == scaled(length as int, part as int),
        -magnitude(length as int) <= r <= magnitude(length as int),
{
    proof {
        let word: int = 0x1_0000_0000_0000_0000;
        let one: int = 1_000_000_000_000_000_000;
        lemma_product_within(length as int, part as int, word, one);
        assert(word * one == 0x1_0000_0000_0000_0000 * 1_000_000_000_000_000_000)
            by (nonlinear_arith)
            requires
                word == 0x1_0000_0000_0000_0000,
                one == 1_000_000_000_000_000_000,
        ;
        let m = magnitude(length as int);
        lemma_product_within(length as int, part as int, m, one);
        assert(one * m == m * one) by (nonlinear_arith);
        lemma_round_within(length * part, one, m);
    }
    div_round(length * part, UNITY as i128)
}

impl Point {
    /// The point of the torus surface at the angles `phi` and `theta`.
    pub fn on_surface(torus_radius: i64, ring_radius: i64, phi: Angle, theta: Angle) -> (p: Point)
        ensures
            p == surface_point(torus_radius as int, ring_radius as int, phi, theta),
    {
        let cos_phi: i128 = phi.cos() as i128;
        let sin_phi: i128 = phi.sin() as i128;
        let cos_theta: i128 = theta.cos() as i128;
        let sin_theta: i128 = theta.sin() as i128;
        proof {
            lemma_unit_within_one(phi.cosine(), phi.sine());
            lemma_unit_within_one(theta.cosine(), theta.sine());
        }
        let ring: i128 = torus_radius as i128 + scale(ring_radius as i128, cos_theta);
        let x = scale(ring, cos_phi);
        let y = scale(ring_radius as i128, sin_theta);
        let z = scale(-ring, sin_phi);
        Point { x: saturating(x), y: saturating(y), z: saturating(z) }
    }

    /// The point turned by the angles `a` and `b`.
    pub fn rotate(&self, a: Angle, b: Angle) -> (p: Point)
        ensures
            p == rotated(*self, a, b),
    {
        let cos_a: i128 = a.cos() as i128;
        let sin_a: i128 = a.sin() as i128;
        let cos_b: i128 = b.cos() as i128;
        let sin_b: i128 = b.sin() as i128;
        proof {
            lemma_unit_within_one(a.cosine(), a.sine());
            lemma_unit_within_one(b.cosine(), b.sine());
        }
        let (y1, z1) = turn(self.y as i128, self.z as i128, cos_a, sin_a);
        let (new_x, new_y) = turn(self.x as i128, y1, cos_b, sin_b);
        Point { x: saturating(new_x), y: saturating(new_y), z: saturating(z1) }
    }
}

/// A turn by the zero angle leaves a pair of lengths as it is.
pub proof fn lemma_zero_turn(p: int, q: int)
    ensures
        turned_first(p, q, UNITY as int, 0) == p,
        turned_second(p, q, UNITY as int, 0) == q,
{
    let one = UNITY as int;
    assert(p * one - 0 * q == p * one) by (nonlinear_arith);
    assert(p * 0 + one * q == q * one) by (nonlinear_arith);
    lemma_round_div_exact(p, one);
    lemma_round_div_exact(q, one);
}

/// Turning by two zero angles leaves a point where it is, exactly.
pub proof fn lemma_zero_rotation_is_identity(p: Point, a: Angle, b: Angle)
    requires
        a.cosine() == UNITY,
        a.sine() == 0,
        b.cosine() == UNITY,
        b.sine() == 0,
    ensures
        rotated(p, a, b) == p,
{
    lemma_zero_turn(p.y as int, p.z as int);
    lemma_zero_turn(p.x as int, p.y as int);
}

/// Two turns are not one turn by the sums of their angles. Take a point on
/// the `z` axis, turn it by nought and `b`, and then by `a` and nought: it
/// stays in the plane `x = 0`. The sums of the angles are `a` and `b`, and
/// the one turn by `a` and `b` takes the point out of that plane, wherever
/// `z sin a sin b` is more than half a trillionth.
pub proof fn lemma_turns_do_not_add(z: i64, a: Angle, b: Angle, nought: Angle)
    requires
        nought.cosine() == UNITY,
        nought.sine() == 0,
        2 * magnitude(b.sine() * scaled(-z, a.sine())) > UNITY,
    ensures
        rotated(rotated(Point { x: 0, y: 0, z }, nought, b), a, nought).x == 0,
        rotated(Point { x: 0, y: 0, z }, a, b).x != 0,
{
    let one = UNITY as int;
    let p = Point { x: 0, y: 0, z };
    // the first of the two turns leaves the point where it is
    lemma_zero_turn(0, z as int);
    assert(0 * b.cosine() - b.sine() * 0 == 0 && 0 * b.sine() + b.cosine() * 0 == 0)
        by (nonlinear_arith);
    lemma_round_div_exact(0, one);
    assert(rotated(p, nought, b) == p);
    // the second keeps it in the plane
    let y1 = turned_first(0, z as int, a.cosine(), a.sine());
    lemma_zero_turn(0, y1);
    assert(rotated(p, a, nought).x == 0);
    // the one turn does not
    assert(0 * a.cosine() - a.sine() * z == (-z) * a.sine()) by (nonlinear_arith);
    assert(y1 == scaled(-z, a.sine()));
    let n = 0 * b.cosine() - b.sine() * y1;
    assert(n == -(b.sine() * y1)) by (nonlinear_arith)
        requires
            n == 0 * b.cosine() - b.sine() * y1,
    ;
    lemma_round_div_bounds(n, one);
    assert(round_div(n, one) != 0);
}

} // verus!
