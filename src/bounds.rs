use vstd::prelude::*;

use crate::limits::{MAX_COORD, MAX_RADIUS, MAX_SPEED, WORK_COORD};
use crate::motion::{lemma_component_within, speed_ok, Motion, MotionView};
use crate::vector::{ivec, norm2, within, Vec3};

verus! {

/// The simulation rectangle, centred at the origin.
#[derive(Clone, Copy, Debug, PartialEq, Eq, Structural)]
pub struct Boundary {
    pub width: i64,
    pub height: i64,
}

impl Boundary {
    /// Extents that are non-negative and within the coordinate limit.
    pub open spec fn valid(&self) -> bool {
        0 <= self.width <= MAX_COORD && 0 <= self.height <= MAX_COORD
    }

    /// Tells whether the extents are non-negative and within the coordinate limit.
    pub fn is_valid(&self) -> (r: bool)
        ensures
            r == self.valid(),
    {
        0 <= self.width && self.width <= MAX_COORD && 0 <= self.height && self.height <= MAX_COORD
    }

    pub fn new(width: i64, height: i64) -> (r: Boundary)
        ensures
            r.width == width,
            r.height == height,
    {
        Boundary { width, height }
    }

    pub fn left(&self) -> (r: i64)
        requires
            self.valid(),
        ensures
            r == left_of(*self),
    {
        -(self.width / 2)
    }

    pub fn right(&self) -> (r: i64)
        requires
            self.valid(),
        ensures
            r == right_of(*self),
    {
        self.width / 2
    }

    pub fn bottom(&self) -> (r: i64)
        requires
            self.valid(),
        ensures
            r == bottom_of(*self),
    {
        -(self.height / 2)
    }

    pub fn top(&self) -> (r: i64)
        requires
            self.valid(),
        ensures
            r == top_of(*self),
    {
        self.height / 2
    }
}

/// Half of the width, rounded down, on each side of the origin.
pub open spec fn right_of(b: Boundary) -> int {
    b.width as int / 2
}

pub open spec fn left_of(b: Boundary) -> int {
    -right_of(b)
}

pub open spec fn top_of(b: Boundary) -> int {
    b.height as int / 2
}

pub open spec fn bottom_of(b: Boundary) -> int {
    -top_of(b)
}

/// Contact with the left wall: the x velocity flips and the particle is put back
/// to touch the wall.
pub open spec fn off_left(m: MotionView, r: int, left: int) -> MotionView {
    if m.pos.x - r <= left {
        MotionView { pos: ivec(left + r, m.pos.y, m.pos.z), vel: ivec(-m.vel.x, m.vel.y, 0) }
    } else {
        m
    }
}

pub open spec fn off_right(m: MotionView, r: int, right: int) -> MotionView {
    if m.pos.x + r >= right {
        MotionView { pos: ivec(right - r, m.pos.y, m.pos.z), vel: ivec(-m.vel.x, m.vel.y, 0) }
    } else {
        m
    }
}

pub open spec fn off_bottom(m: MotionView, r: int, bottom: int) -> MotionView {
    if m.pos.y - r <= bottom {
        MotionView { pos: ivec(m.pos.x, bottom + r, m.pos.z), vel: ivec(m.vel.x, -m.vel.y, 0) }
    } else {
        m
    }
}

pub open spec fn off_top(m: MotionView, r: int, top: int) -> MotionView {
    if m.pos.y + r >= top {
        MotionView { pos: ivec(m.pos.x, top - r, m.pos.z), vel: ivec(m.vel.x, -m.vel.y, 0) }
    } else {
        m
    }
}

/// The four wall checks in turn (left, right, bottom, top), then `z` pinned to zero.
pub open spec fn reflect_spec(m: MotionView, r: int, b: Boundary) -> MotionView {
    let m4 = off_top(
        off_bottom(off_right(off_left(m, r, left_of(b)), r, right_of(b)), r, bottom_of(b)),
        r,
        top_of(b),
    );
    MotionView { pos: ivec(m4.pos.x, m4.pos.y, 0), vel: m4.vel }
}

/// Reflects one particle of radius `r` off the walls of `b`.
pub fn reflect(m: Motion, r: i64, b: &Boundary) -> (out: Motion)
    requires
        within(m.position@, WORK_COORD as int),
        speed_ok(m.velocity@),
        0 <= r <= MAX_RADIUS,
        b.valid(),
    ensures
        out@ == reflect_spec(m@, r as int, *b),
        within(out.position@, MAX_COORD as int),
        speed_ok(out.velocity@),
{
    proof {
        reveal(speed_ok);
        lemma_component_within(m.velocity@, MAX_SPEED as int);
    }
    let left = b.left();
    let right = b.right();
    let bottom = b.bottom();
    let top = b.top();
    let mut p = m.position;
    let mut v = m.velocity;
    if p.x - r <= left {
        v = Vec3 { x: -v.x, y: v.y, z: 0 };
        p = Vec3 { x: left + r, y: p.y, z: p.z };
    }
    if p.x + r >= right {
        v = Vec3 { x: -v.x, y: v.y, z: 0 };
        p = Vec3 { x: right - r, y: p.y, z: p.z };
    }
    if p.y - r <= bottom {
        v = Vec3 { x: v.x, y: -v.y, z: 0 };
        p = Vec3 { x: p.x, y: bottom + r, z: p.z };
    }
    if p.y + r >= top {
        v = Vec3 { x: v.x, y: -v.y, z: 0 };
        p = Vec3 { x: p.x, y: top - r, z: p.z };
    }
    proof {
        let w = m.velocity@;
        assert(w.z * w.z >= 0 && w.x * w.x == (-w.x) * (-w.x) && w.y * w.y == (-w.y) * (-w.y))
            by (nonlinear_arith);
        assert(norm2(v@) <= norm2(w));
    }
    Motion { position: Vec3 { x: p.x, y: p.y, z: 0 }, velocity: v }
}

} // verus!
