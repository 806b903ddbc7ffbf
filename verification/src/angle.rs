//! Angles, held as the pair of their cosine and sine in fixed point, and the
//! sweep of sample angles round a full turn.

use vstd::prelude::*;
use crate::fixed::{magnitude, UNITY};

verus! {

/// A full turn in millionths of a radian, rounded down.
pub const TAU_MICRO: i64 = 6_283_185;

/// The step of the sweep round the hole of the torus, in millionths of a radian.
pub const RING_STEP_MICRO: i64 = 70_000;

/// The step of the sweep round the tube, in millionths of a radian.
pub const TUBE_STEP_MICRO: i64 = 20_000;

/// How far the sum of the squares of a cosine and a sine may stand from the
/// square of [`UNITY`]: two parts in a hundred million millions. The cosine
/// and sine that the machine computes in double precision are well within.
pub const SLACK: i128 = 20_000_000_000_000_000_000_000;

/// Whether `(cos, sin)` lies on the unit circle, to the precision of fixed
/// point: neither is beyond one, and the sum of the two squares is within
/// [`SLACK`] of one.
pub open spec fn is_unit(cos: int, sin: int) -> bool {
    &&& -UNITY <= cos <= UNITY
    &&& -UNITY <= sin <= UNITY
    &&& magnitude(cos * cos + sin * sin - UNITY * UNITY) <= SLACK
}

/// An angle, known by its cosine and sine in billionths of a billionth.
#[derive(Clone, Copy, Debug)]
pub struct Angle {
    cos: i64,
    sin: i64,
}

impl Angle {
    #[verifier::type_invariant]
    spec fn on_circle(self) -> bool {
        is_unit(self.cos as int, self.sin as int)
    }

    /// The cosine, in billionths of a billionth.
    pub closed spec fn cosine(&self) -> int {
        self.cos as int
    }

    /// The sine, in billionths of a billionth.
    pub closed spec fn sine(&self) -> int {
        self.sin as int
    }

    /// An angle is well formed when its cosine and sine lie on the unit
    /// circle. Every angle that a program holds is.
    pub open spec fn wf(&self) -> bool {
        is_unit(self.cosine(), self.sine())
    }

    /// The angle with the given cosine and sine, if the two lie on the unit
    /// circle.
    pub fn new(cos: i64, sin: i64) -> (angle: Option<Angle>)
        ensures
            angle is Some <==> is_unit(cos as int, sin as int),
            angle matches Some(a) ==> a.cosine() == cos && a.sine() == sin && a.wf(),
    {
        if cos < -UNITY || cos > UNITY || sin < -UNITY || sin > UNITY {
            return None;
        }
        assert(0 <= cos * cos <= 1_000_000_000_000_000_000_000_000_000_000_000_000)
            by (nonlinear_arith)
            requires
                -1_000_000_000_000_000_000 <= cos <= 1_000_000_000_000_000_000,
        ;
        assert(0 <= sin * sin <= 1_000_000_000_000_000_000_000_000_000_000_000_000)
            by (nonlinear_arith)
            requires
                -1_000_000_000_000_000_000 <= sin <= 1_000_000_000_000_000_000,
        ;
        assert(UNITY * UNITY == 1_000_000_000_000_000_000_000_000_000_000_000_000)
            by (nonlinear_arith)
            requires
                UNITY == 1_000_000_000_000_000_000,
        ;
        let c: i128 = cos as i128;
        let s: i128 = sin as i128;
        let excess: i128 = c * c + s * s - 1_000_000_000_000_000_000_000_000_000_000_000_000;
        if -SLACK <= excess && excess <= SLACK {
            Some(Angle { cos, sin })
        } else {
            None
        }
    }

    /// The zero angle: cosine one, sine nought.
    pub fn zero() -> (angle: Angle)
        ensures
            angle.cosine() == UNITY,
            angle.sine() == 0,
            angle.wf(),
    {
        assert(UNITY * UNITY == 1_000_000_000_000_000_000_000_000_000_000_000_000)
            by (nonlinear_arith)
            requires
                UNITY == 1_000_000_000_000_000_000,
        ;
        Angle { cos: UNITY, sin: 0 }
    }

    /// The cosine, in billionths of a billionth.
    pub fn cos(&self) -> (c: i64)
        ensures
            c == self.cosine(),
            self.wf(),
    {
        proof {
            use_type_invariant(self);
        }
        self.cos
    }

    /// The sine, in billionths of a billionth.
    pub fn sin(&self) -> (s: i64)
        ensures
            s == self.sine(),
            self.wf(),
    {
        proof {
            use_type_invariant(self);
        }
        self.sin
    }
}

/// On the unit circle neither coordinate exceeds one.
pub proof fn lemma_unit_within_one(cos: int, sin: int)
    requires
        is_unit(cos, sin),
    ensures
        -UNITY <= cos <= UNITY,
        -UNITY <= sin <= UNITY,
{
}

/// The number of multiples of `step` from nought up to, and short of, a full
/// turn.
pub open spec fn sweep_len(step: int) -> int {
    (TAU_MICRO as int) / step + 1
}

/// The sample angles of one sweep: nought, `step`, twice `step` and so on, as
/// long as they stay short of a full turn. In millionths of a radian.
pub fn sweep(step: i64) -> (angles: Vec<i64>)
    requires
        step > 0,
    ensures
        angles@.len() == sweep_len(step as int),
        forall|k: int| 0 <= k < angles@.len() ==> #[trigger] angles@[k] == k * step,
{
    let mut angles: Vec<i64> = Vec::new();
    let mut angle: i64 = 0;
    assert(angles@.len() * step == 0) by (nonlinear_arith)
        requires
            angles@.len() == 0,
    ;
    loop
        invariant_except_break
            angle == angles@.len() * step,
        invariant
            step > 0,
            0 <= angle <= TAU_MICRO,
            forall|k: int| 0 <= k < angles@.len() ==> #[trigger] angles@[k] == k * step,
        ensures
            angles@.len() == sweep_len(step as int),
            forall|k: int| 0 <= k < angles@.len() ==> #[trigger] angles@[k] == k * step,
        decreases TAU_MICRO - angle,
    {
        let ghost taken = angles@.len() as int;
        angles.push(angle);
        if step > TAU_MICRO - angle {
            proof {
                // taken * step <= TAU_MICRO < (taken + 1) * step
                assert((taken + 1) * step == taken * step + step) by (nonlinear_arith);
                let r = TAU_MICRO - taken * step;
                vstd::arithmetic::div_mod::lemma_fundamental_div_mod_converse(
                    TAU_MICRO as int,
                    step as int,
                    taken,
                    r,
                );
            }
            break ;
        }
        proof {
            assert((taken + 1) * step == taken * step + step) by (nonlinear_arith);
        }
        angle = angle + step;
    }
    angles
}

} // verus!
