use vstd::prelude::*;

use crate::limits::{MAX_COORD, MAX_DT, MAX_SPEED};
use crate::vector::{abs, ivec, norm2, within, IVec, Vec3};

verus! {

/// Position and velocity of one particle: its entry in a frame snapshot.
#[derive(Clone, Copy, Debug, PartialEq, Eq, Structural)]
pub struct Motion {
    pub position: Vec3,
    pub velocity: Vec3,
}

/// Mathematical model of a `Motion`.
pub struct MotionView {
    pub pos: IVec,
    pub vel: IVec,
}

impl View for Motion {
    type V = MotionView;

    open spec fn view(&self) -> MotionView {
        MotionView { pos: self.position@, vel: self.velocity@ }
    }
}

/// A velocity whose speed is within the simulation's limit.
#[verifier::opaque]
pub open spec fn speed_ok(v: IVec) -> bool {
    norm2(v) <= MAX_SPEED * MAX_SPEED
}

/// Position after moving with constant velocity for `dt`, flattened to the plane.
pub open spec fn integrate_spec(m: MotionView, dt: int) -> MotionView {
    MotionView {
        pos: ivec(m.pos.x + m.vel.x * dt, m.pos.y + m.vel.y * dt, 0),
        vel: m.vel,
    }
}

/// A component of a vector with bounded length is bounded by that length.
pub proof fn lemma_component_within(v: IVec, m: int)
    requires
        m >= 0,
        norm2(v) <= m * m,
    ensures
        within(v, m),
{
    assert(v.x * v.x >= 0 && v.y * v.y >= 0 && v.z * v.z >= 0) by (nonlinear_arith);
    assert forall|c: int| c * c <= m * m implies abs(c) <= m by {
        if abs(c) > m {
            assert(c * c > m * m) by (nonlinear_arith)
                requires
                    abs(c) > m,
                    m >= 0,
                    abs(c) == c || abs(c) == -c,
            ;
        }
    }
    assert(v.x * v.x <= m * m);
    assert(v.y * v.y <= m * m);
    assert(v.z * v.z <= m * m);
}

impl Motion {
    pub fn new(position: Vec3, velocity: Vec3) -> (r: Motion)
        ensures
            r.position == position,
            r.velocity == velocity,
    {
        Motion { position, velocity }
    }
}

/// Advances a position by `velocity * dt` and sets its `z` component to zero.
pub fn integrate(m: Motion, dt: i64) -> (r: Motion)
    requires
        within(m.position@, MAX_COORD as int),
        speed_ok(m.velocity@),
        0 <= dt <= MAX_DT,
    ensures
        r@ == integrate_spec(m@, dt as int),
        within(r.position@, MAX_COORD + MAX_SPEED * MAX_DT),
{
    proof {
        reveal(speed_ok);
        lemma_component_within(m.velocity@, MAX_SPEED as int);
    }
    let v = m.velocity;
    assert(abs(v.x * dt) <= MAX_SPEED * MAX_DT && abs(v.y * dt) <= MAX_SPEED * MAX_DT)
        by (nonlinear_arith)
        requires
            abs(v.x as int) <= MAX_SPEED,
            abs(v.y as int) <= MAX_SPEED,
            0 <= dt <= MAX_DT,
    ;
    let x = m.position.x + v.x * dt;
    let y = m.position.y + v.y * dt;
    Motion { position: Vec3 { x, y, z: 0 }, velocity: v }
}

} // verus!
