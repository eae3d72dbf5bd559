use vstd::prelude::*;

verus! {

/// A point or displacement with integer components.
#[derive(Clone, Copy, Debug, PartialEq, Eq, Structural)]
pub struct Vec3 {
    pub x: i64,
    pub y: i64,
    pub z: i64,
}

/// Mathematical model of a `Vec3`: three unbounded integers.
pub struct IVec {
    pub x: int,
    pub y: int,
    pub z: int,
}

impl View for Vec3 {
    type V = IVec;

    open spec fn view(&self) -> IVec {
        IVec { x: self.x as int, y: self.y as int, z: self.z as int }
    }
}

pub open spec fn ivec(x: int, y: int, z: int) -> IVec {
    IVec { x, y, z }
}

pub open spec fn vadd(a: IVec, b: IVec) -> IVec {
    ivec(a.x + b.x, a.y + b.y, a.z + b.z)
}

pub open spec fn vsub(a: IVec, b: IVec) -> IVec {
    ivec(a.x - b.x, a.y - b.y, a.z - b.z)
}

pub open spec fn vneg(a: IVec) -> IVec {
    ivec(-a.x, -a.y, -a.z)
}

pub open spec fn dot(a: IVec, b: IVec) -> int {
    a.x * b.x + a.y * b.y + a.z * b.z
}

/// Squared Euclidean length.
pub open spec fn norm2(a: IVec) -> int {
    dot(a, a)
}

/// Squared Euclidean distance between two points.
pub open spec fn dist2(a: IVec, b: IVec) -> int {
    norm2(vsub(a, b))
}

pub open spec fn is_zero(a: IVec) -> bool {
    a.x == 0 && a.y == 0 && a.z == 0
}

pub open spec fn cross(a: IVec, b: IVec) -> IVec {
    ivec(a.y * b.z - a.z * b.y, a.z * b.x - a.x * b.z, a.x * b.y - a.y * b.x)
}

/// `b` is a positive multiple of `a`: both normalise to the same unit vector.
pub open spec fn same_direction(a: IVec, b: IVec) -> bool {
    is_zero(cross(a, b)) && dot(a, b) > 0
}

pub open spec fn abs(v: int) -> int {
    if v < 0 {
        -v
    } else {
        v
    }
}

/// Every component lies in `[-m, m]`.
pub open spec fn within(a: IVec, m: int) -> bool {
    abs(a.x) <= m && abs(a.y) <= m && abs(a.z) <= m
}

impl Vec3 {
    pub fn new(x: i64, y: i64, z: i64) -> (r: Vec3)
        ensures
            r@ == ivec(x as int, y as int, z as int),
    {
        Vec3 { x, y, z }
    }
}

} // verus!
