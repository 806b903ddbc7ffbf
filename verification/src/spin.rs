//! The pace of the animation: the two angles by which every frame turns the
//! torus, and their change at a fixed period.

use vstd::prelude::*;

verus! {

/// The number of frames after which the spin takes new angles.
pub const RESPIN_PERIOD: u32 = 200;

/// The largest angle of a spin, either way, in millionths of a radian.
pub const SPIN_LIMIT_MICRO: i64 = 300_000;

/// The pause between two frames, in milliseconds.
pub const FRAME_INTERVAL_MS: u64 = 60;

/// Whether an angle, in millionths of a radian, is one that a spin may have.
pub open spec fn within_limit(angle: int) -> bool {
    -SPIN_LIMIT_MICRO <= angle <= SPIN_LIMIT_MICRO
}

/// A random integer from `low` to `high`, both included.
///
/// Calls `rand::thread_rng` and `Rng::gen_range` on the range `low..=high`.
/// Not proved: that the result lies in that range, which is what the
/// sampling of an integer range in rand computes. Nothing is said of which
/// value comes. `gen_range` panics on an empty range; the precondition
/// leaves that out. `thread_rng` panics where the system gives it no seed,
/// which no precondition can rule out.
#[verifier::external_body]
fn draw_between(low: i64, high: i64) -> (angle: i64)
    requires
        low <= high,
    ensures
        low <= angle <= high,
{
    rand::Rng::gen_range(&mut rand::thread_rng(), low..=high)
}

/// The angles of the spin, in millionths of a radian, and the count of
/// frames since they were taken.
#[derive(Clone, Copy, Debug, PartialEq, Eq, Structural)]
pub struct Spin {
    angle_1: i64,
    angle_2: i64,
    counter: u32,
}

impl Spin {
    /// The first angle of the spin, in millionths of a radian.
    pub closed spec fn first(&self) -> int {
        self.angle_1 as int
    }

    /// The second angle of the spin, in millionths of a radian.
    pub closed spec fn second(&self) -> int {
        self.angle_2 as int
    }

    /// The number of frames shown since the spin took its angles.
    pub closed spec fn frames(&self) -> int {
        self.counter as int
    }

    /// Both angles are within the limit and the count is short of the period.
    pub open spec fn wf(&self) -> bool {
        &&& within_limit(self.first())
        &&& within_limit(self.second())
        &&& 0 <= self.frames() < RESPIN_PERIOD
    }

    /// Whether the frame that comes next ends the period.
    pub open spec fn due(&self) -> bool {
        self.frames() + 1 == RESPIN_PERIOD
    }

    /// The spin with the given angles and no frame shown yet, if both angles
    /// are within the limit.
    pub fn steered(angle_1: i64, angle_2: i64) -> (spin: Option<Spin>)
        ensures
            spin is Some <==> within_limit(angle_1 as int) && within_limit(angle_2 as int),
            spin matches Some(s) ==> s.first() == angle_1 && s.second() == angle_2 && s.frames()
                == 0 && s.wf(),
    {
        if -SPIN_LIMIT_MICRO <= angle_1 && angle_1 <= SPIN_LIMIT_MICRO && -SPIN_LIMIT_MICRO
            <= angle_2 && angle_2 <= SPIN_LIMIT_MICRO {
            Some(Spin { angle_1, angle_2, counter: 0 })
        } else {
            None
        }
    }

    /// A spin with two random angles within the limit and no frame shown yet.
    pub fn new() -> (spin: Spin)
        ensures
            spin.wf(),
            spin.frames() == 0,
    {
        let angle_1 = draw_between(-SPIN_LIMIT_MICRO, SPIN_LIMIT_MICRO);
        let angle_2 = draw_between(-SPIN_LIMIT_MICRO, SPIN_LIMIT_MICRO);
        Spin { angle_1, angle_2, counter: 0 }
    }

    /// Counts one frame. Where that frame ends the period, the spin takes two
    /// new random angles within the limit and counts from nought again; else
    /// it keeps its angles.
    pub fn advance(&mut self)
        requires
            old(self).wf(),
        ensures
            final(self).wf(),
            old(self).due() ==> final(self).frames() == 0,
            !old(self).due() ==> final(self).frames() == old(self).frames() + 1,
            !old(self).due() ==> final(self).first() == old(self).first(),
            !old(self).due() ==> final(self).second() == old(self).second(),
    {
        if self.counter + 1 == RESPIN_PERIOD {
            *self = Spin::new();
        } else {
            self.counter = self.counter + 1;
        }
    }

    /// The first angle of the spin, in millionths of a radian.
    pub fn angle_1(&self) -> (angle: i64)
        ensures
            angle == self.first(),
    {
        self.angle_1
    }

    /// The second angle of the spin, in millionths of a radian.
    pub fn angle_2(&self) -> (angle: i64)
        ensures
            angle == self.second(),
    {
        self.angle_2
    }

    /// The number of frames shown since the spin took its angles.
    pub fn counter(&self) -> (frames: u32)
        ensures
            frames == self.frames(),
    {
        self.counter
    }
}

} // verus!
