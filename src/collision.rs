use vstd::prelude::*;

use crate::arith::{
    abs_le, ceil_isqrt, ceil_sqrt, div_away, div_away_exec, div_toward, div_toward_exec,
    floor_isqrt, floor_sqrt, is_floor_sqrt, lemma_ceil_sqrt, lemma_component_le_floor_sqrt,
    lemma_div_away, lemma_div_away_bound, lemma_div_toward, lemma_floor_sqrt, lemma_mul_within,
};
use crate::limits::{MAX_RADIUS, MAX_SPEED, SAMPLE_SPAN, WORK_COORD};
use crate::motion::{lemma_component_within, speed_ok, Motion, MotionView};
use crate::vector::{
    cross, dist2, dot, is_zero, ivec, norm2, same_direction, vadd, vneg, vsub, within, IVec,
    Vec3,
};

verus! {

/// How the velocities of two colliding particles change.
#[derive(Clone, Copy, Debug, PartialEq, Eq, Structural)]
pub enum ResolutionPolicy {
    /// The two particles exchange their velocity vectors.
    SwapVelocities,
    /// Each particle keeps its own speed and heads away from the other.
    RedirectOwnSpeed,
}

/// Bound on the components of a direction handed to the scaling helpers.
pub const DIR_LIMIT: i64 = 18_014_398_509_481_984;

/// Two discs overlap when the distance of their centres is at most the sum of radii.
pub open spec fn overlapping(pa: IVec, pb: IVec, ra: int, rb: int) -> bool {
    dist2(pa, pb) <= (ra + rb) * (ra + rb)
}

/// Escape direction of the first particle of a coincident pair, from its sample.
pub open spec fn first_escape(sa: IVec) -> IVec {
    if is_zero(sa) {
        ivec(1, 0, 0)
    } else {
        sa
    }
}

/// The second particle's own sample, unless that is zero or points the same way
/// as the first direction; then the direction opposite to the first.
pub open spec fn candidate_escape(sa: IVec, sb: IVec) -> IVec {
    let ua = first_escape(sa);
    if is_zero(sb) || same_direction(ua, sb) {
        vneg(ua)
    } else {
        sb
    }
}

/// Escape direction of the second particle of a coincident pair that must move
/// apart by `depth`: the candidate, when pushing both particles by `depth` along
/// their directions separates them by at least `depth`; else opposite to the first.
pub open spec fn second_escape(sa: IVec, sb: IVec, depth: int) -> IVec {
    let ua = first_escape(sa);
    let cand = candidate_escape(sa, sb);
    if dist2(push_along(ua, depth), push_along(cand, depth)) >= depth * depth {
        cand
    } else {
        vneg(ua)
    }
}

/// The directions along which each particle of a pair moves away from the other.
pub open spec fn away_directions(pa: IVec, pb: IVec, sa: IVec, sb: IVec, depth: int) -> (
    IVec,
    IVec,
) {
    if pa == pb {
        (first_escape(sa), second_escape(sa, sb, depth))
    } else {
        (vsub(pa, pb), vsub(pb, pa))
    }
}

/// A displacement of length `depth` along `u`; each component is divided by the
/// rounded-down length of `u` and rounded away from zero.
pub open spec fn push_along(u: IVec, depth: int) -> IVec {
    let d = floor_sqrt(norm2(u));
    ivec(div_away(u.x * depth, d), div_away(u.y * depth, d), div_away(u.z * depth, d))
}

/// `u` rescaled to the rounded-down speed of `v`; each component is divided by the
/// rounded-up length of `u` and rounded toward zero.
pub open spec fn aim_along(u: IVec, v: IVec) -> IVec {
    let s = floor_sqrt(norm2(v));
    let c = ceil_sqrt(norm2(u));
    ivec(div_toward(u.x * s, c), div_toward(u.y * s, c), div_toward(u.z * s, c))
}

/// The outcome of resolving one pair: unchanged when the discs do not overlap;
/// otherwise both move apart by the penetration depth along their away-directions
/// and take velocities by the policy. `sa`, `sb` matter only for coincident centres.
pub open spec fn resolve_pair_spec(
    a: MotionView,
    b: MotionView,
    ra: int,
    rb: int,
    policy: ResolutionPolicy,
    sa: IVec,
    sb: IVec,
) -> (MotionView, MotionView) {
    if !overlapping(a.pos, b.pos, ra, rb) {
        (a, b)
    } else {
        let depth = ra + rb - floor_sqrt(dist2(a.pos, b.pos));
        let dirs = away_directions(a.pos, b.pos, sa, sb, depth);
        let vels = match policy {
            ResolutionPolicy::SwapVelocities => (b.vel, a.vel),
            ResolutionPolicy::RedirectOwnSpeed => (
                aim_along(dirs.0, a.vel),
                aim_along(dirs.1, b.vel),
            ),
        };
        (
            MotionView { pos: vadd(a.pos, push_along(dirs.0, depth)), vel: vels.0 },
            MotionView { pos: vadd(b.pos, push_along(dirs.1, depth)), vel: vels.1 },
        )
    }
}

/// Each component of `q` differs from that of `p` by at most `m`.
pub open spec fn moved_within(p: IVec, q: IVec, m: int) -> bool {
    within(vsub(q, p), m)
}

proof fn lemma_squares(u: IVec)
    ensures
        0 <= u.x * u.x <= norm2(u),
        0 <= u.y * u.y <= norm2(u),
        0 <= u.z * u.z <= norm2(u),
        is_zero(u) <==> norm2(u) == 0,
        !is_zero(u) ==> norm2(u) >= 1,
{
    assert(u.x * u.x >= 0 && u.y * u.y >= 0 && u.z * u.z >= 0) by (nonlinear_arith);
    if u.x != 0 {
        assert(u.x * u.x > 0) by (nonlinear_arith)
            requires
                u.x != 0,
        ;
    }
    if u.y != 0 {
        assert(u.y * u.y > 0) by (nonlinear_arith)
            requires
                u.y != 0,
        ;
    }
    if u.z != 0 {
        assert(u.z * u.z > 0) by (nonlinear_arith)
            requires
                u.z != 0,
        ;
    }
}

fn norm2_exec(u: Vec3) -> (r: u128)
    requires
        within(u@, DIR_LIMIT as int),
    ensures
        r as int == norm2(u@),
        r < 0x4000_0000_0000_0000_0000_0000_0000,
{
    proof {
        lemma_mul_within(u.x as int, u.x as int, DIR_LIMIT as int, DIR_LIMIT as int);
        lemma_mul_within(u.y as int, u.y as int, DIR_LIMIT as int, DIR_LIMIT as int);
        lemma_mul_within(u.z as int, u.z as int, DIR_LIMIT as int, DIR_LIMIT as int);
    }
    let x = u.x as i128;
    let y = u.y as i128;
    let z = u.z as i128;
    (x * x + y * y + z * z) as u128
}

proof fn lemma_push_component(c: int, n: int, depth: int)
    requires
        c * c <= n,
        n >= 1,
        depth >= 0,
    ensures
        floor_sqrt(n) >= 1,
        abs_le(c, floor_sqrt(n)),
        abs_le(div_away(c * depth, floor_sqrt(n)), depth),
{
    lemma_floor_sqrt(n);
    let d = floor_sqrt(n);
    if d == 0 {
        assert((d + 1) * (d + 1) == 1);
    }
    assert(c * c >= 0) by (nonlinear_arith);
    lemma_component_le_floor_sqrt(c, n);
    lemma_mul_within(c, depth, d, depth);
    lemma_div_away_bound(c * depth, d, depth);
}

fn push_along_exec(u: Vec3, depth: i64) -> (r: Vec3)
    requires
        !is_zero(u@),
        within(u@, DIR_LIMIT as int),
        0 <= depth <= 2 * MAX_RADIUS,
    ensures
        r@ == push_along(u@, depth as int),
        within(r@, depth as int),
{
    let n = norm2_exec(u);
    let d = floor_isqrt(n);
    proof {
        lemma_squares(u@);
        lemma_push_component(u.x as int, n as int, depth as int);
        lemma_push_component(u.y as int, n as int, depth as int);
        lemma_push_component(u.z as int, n as int, depth as int);
        lemma_mul_within(u.x as int, depth as int, DIR_LIMIT as int, 2 * MAX_RADIUS);
        lemma_mul_within(u.y as int, depth as int, DIR_LIMIT as int, 2 * MAX_RADIUS);
        lemma_mul_within(u.z as int, depth as int, DIR_LIMIT as int, 2 * MAX_RADIUS);
    }
    let di = d as i128;
    let k = depth as i128;
    let x = div_away_exec(u.x as i128 * k, di);
    let y = div_away_exec(u.y as i128 * k, di);
    let z = div_away_exec(u.z as i128 * k, di);
    Vec3 { x: x as i64, y: y as i64, z: z as i64 }
}

proof fn lemma_aim_component(c: int, n: int, s: int)
    requires
        c * c <= n,
        n >= 1,
        s >= 0,
    ensures
        ceil_sqrt(n) >= 1,
        abs_le(div_toward(c * s, ceil_sqrt(n)), s),
        (ceil_sqrt(n) * div_toward(c * s, ceil_sqrt(n))) * (ceil_sqrt(n) * div_toward(
            c * s,
            ceil_sqrt(n),
        )) <= (c * s) * (c * s),
{
    lemma_ceil_sqrt(n);
    lemma_floor_sqrt(n);
    let cs = ceil_sqrt(n);
    assert(c * c >= 0) by (nonlinear_arith);
    lemma_component_le_floor_sqrt(c, n);
    let q = div_toward(c * s, cs);
    lemma_div_toward(c * s, cs);
    lemma_mul_within(c, s, cs, s);
    if c * s >= 0 {
        assert(q <= s) by (nonlinear_arith)
            requires
                cs >= 1,
                cs * q <= c * s,
                c * s <= cs * s,
        ;
        assert((cs * q) * (cs * q) <= (c * s) * (c * s)) by (nonlinear_arith)
            requires
                0 <= cs * q <= c * s,
        ;
    } else {
        assert(q >= -s) by (nonlinear_arith)
            requires
                cs >= 1,
                cs * q >= c * s,
                c * s >= -(cs * s),
        ;
        assert((cs * q) * (cs * q) <= (c * s) * (c * s)) by (nonlinear_arith)
            requires
                cs >= 1,
                q <= 0,
                c * s <= cs * q,
        ;
    }
}

pub proof fn lemma_square_of_product(a: int, b: int)
    ensures
        (a * b) * (a * b) == (a * a) * (b * b),
{
    assert((a * b) * (a * b) == (a * a) * (b * b)) by (nonlinear_arith);
}

proof fn lemma_distribute3(k: int, x: int, y: int, z: int)
    ensures
        k * x + k * y + k * z == k * (x + y + z),
{
    assert(k * x + k * y + k * z == k * (x + y + z)) by (nonlinear_arith);
}

proof fn lemma_aim_norm(u: IVec, q: IVec, c: int, s: int)
    requires
        c >= 1,
        s >= 0,
        norm2(u) <= c * c,
        (c * q.x) * (c * q.x) <= (u.x * s) * (u.x * s),
        (c * q.y) * (c * q.y) <= (u.y * s) * (u.y * s),
        (c * q.z) * (c * q.z) <= (u.z * s) * (u.z * s),
    ensures
        norm2(q) <= s * s,
{
    let (qx, qy, qz) = (q.x, q.y, q.z);
    let (ux, uy, uz) = (u.x, u.y, u.z);
    let nq = norm2(q);
    let nu = norm2(u);
    lemma_square_of_product(c, qx);
    lemma_square_of_product(c, qy);
    lemma_square_of_product(c, qz);
    lemma_square_of_product(ux, s);
    lemma_square_of_product(uy, s);
    lemma_square_of_product(uz, s);
    lemma_distribute3(c * c, qx * qx, qy * qy, qz * qz);
    lemma_distribute3(s * s, ux * ux, uy * uy, uz * uz);
    assert((c * c) * nq <= (s * s) * nu) by {
        assert((ux * ux) * (s * s) == (s * s) * (ux * ux)) by (nonlinear_arith);
        assert((uy * uy) * (s * s) == (s * s) * (uy * uy)) by (nonlinear_arith);
        assert((uz * uz) * (s * s) == (s * s) * (uz * uz)) by (nonlinear_arith);
    }
    assert((s * s) * nu <= (s * s) * (c * c)) by (nonlinear_arith)
        requires
            nu <= c * c,
    ;
    assert(nq <= s * s) by (nonlinear_arith)
        requires
            c >= 1,
            (c * c) * nq <= (s * s) * (c * c),
    ;
}

fn aim_along_exec(u: Vec3, v: Vec3) -> (r: Vec3)
    requires
        !is_zero(u@),
        within(u@, DIR_LIMIT as int),
        speed_ok(v@),
    ensures
        r@ == aim_along(u@, v@),
        norm2(r@) <= norm2(v@),
        speed_ok(r@),
{
    proof {
        reveal(speed_ok);
        lemma_component_within(v@, MAX_SPEED as int);
    }
    let nv = norm2_exec(v);
    let s = floor_isqrt(nv);
    let nu = norm2_exec(u);
    let c = ceil_isqrt(nu);
    proof {
        lemma_squares(u@);
        lemma_squares(v@);
        lemma_floor_sqrt(nv as int);
        assert(s <= MAX_SPEED) by (nonlinear_arith)
            requires
                s * s <= nv,
                nv <= MAX_SPEED * MAX_SPEED,
                s >= 0,
        ;
        lemma_aim_component(u.x as int, nu as int, s as int);
        lemma_aim_component(u.y as int, nu as int, s as int);
        lemma_aim_component(u.z as int, nu as int, s as int);
        lemma_mul_within(u.x as int, s as int, DIR_LIMIT as int, MAX_SPEED as int);
        lemma_mul_within(u.y as int, s as int, DIR_LIMIT as int, MAX_SPEED as int);
        lemma_mul_within(u.z as int, s as int, DIR_LIMIT as int, MAX_SPEED as int);
        lemma_ceil_sqrt(nu as int);
    }
    let si = s as i128;
    let ci = c as i128;
    let x = div_toward_exec(u.x as i128 * si, ci);
    let y = div_toward_exec(u.y as i128 * si, ci);
    let z = div_toward_exec(u.z as i128 * si, ci);
    let r = Vec3 { x: x as i64, y: y as i64, z: z as i64 };
    proof {
        lemma_aim_norm(u@, r@, c as int, s as int);
    }
    r
}

/// A push of depth `k` moves each component by at most `k`, and keeps a zero
/// `z` direction in the plane.
pub proof fn lemma_push_within(u: IVec, k: int)
    requires
        !is_zero(u),
        k >= 0,
    ensures
        within(push_along(u, k), k),
        u.z == 0 ==> push_along(u, k).z == 0,
{
    lemma_squares(u);
    let n = norm2(u);
    lemma_push_component(u.x, n, k);
    lemma_push_component(u.y, n, k);
    lemma_push_component(u.z, n, k);
    if u.z == 0 {
        assert(u.z * k == 0) by (nonlinear_arith)
            requires
                u.z == 0,
        ;
        lemma_div_away(0, floor_sqrt(n));
    }
}

/// Pushing along `-u` is pushing along `u`, reversed.
pub proof fn lemma_push_reversed(u: IVec, k: int)
    requires
        !is_zero(u),
    ensures
        push_along(vneg(u), k) == vneg(push_along(u, k)),
{
    let (x, y, z) = (u.x, u.y, u.z);
    lemma_squares(u);
    lemma_floor_sqrt(norm2(u));
    let d = floor_sqrt(norm2(u));
    assert(d >= 1) by (nonlinear_arith)
        requires
            d >= 0,
            norm2(u) >= 1,
            norm2(u) < (d + 1) * (d + 1),
    ;
    assert(norm2(vneg(u)) == norm2(u)) by (nonlinear_arith)
        requires
            norm2(vneg(u)) == (-x) * (-x) + (-y) * (-y) + (-z) * (-z),
            norm2(u) == x * x + y * y + z * z,
    ;
    lemma_div_away(x * k, d);
    lemma_div_away(y * k, d);
    lemma_div_away(z * k, d);
    assert((-x) * k == -(x * k)) by (nonlinear_arith);
    assert((-y) * k == -(y * k)) by (nonlinear_arith);
    assert((-z) * k == -(z * k)) by (nonlinear_arith);
}

proof fn lemma_push_axis(c: int, d: int, k: int)
    requires
        d >= 1,
        k >= 0,
    ensures
        (d * d) * (div_away(c * k, d) * div_away(c * k, d)) >= (c * c) * (k * k),
{
    lemma_div_away(c * k, d);
    let q = div_away(c * k, d);
    if c >= 0 {
        assert(c * k >= 0) by (nonlinear_arith)
            requires
                c >= 0,
                k >= 0,
        ;
    } else {
        assert(c * k <= 0) by (nonlinear_arith)
            requires
                c < 0,
                k >= 0,
        ;
        if c * k == 0 {
            assert(q == 0);
        }
    }
    assert((d * q) * (d * q) >= (c * k) * (c * k)) by (nonlinear_arith)
        requires
            (d * q >= c * k && c * k >= 0) || (d * q <= c * k && c * k <= 0),
    ;
    lemma_square_of_product(d, q);
    lemma_square_of_product(c, k);
}

/// A push of depth `k` along a non-zero direction is at least `k` long.
pub proof fn lemma_push_length(u: IVec, k: int)
    requires
        !is_zero(u),
        k >= 0,
    ensures
        norm2(push_along(u, k)) >= k * k,
{
    lemma_squares(u);
    let n = norm2(u);
    lemma_floor_sqrt(n);
    let d = floor_sqrt(n);
    assert(d >= 1) by (nonlinear_arith)
        requires
            d >= 0,
            n >= 1,
            n < (d + 1) * (d + 1),
    ;
    let p = push_along(u, k);
    lemma_push_axis(u.x, d, k);
    lemma_push_axis(u.y, d, k);
    lemma_push_axis(u.z, d, k);
    let (px, py, pz) = (p.x, p.y, p.z);
    let (ux, uy, uz) = (u.x, u.y, u.z);
    let np = norm2(p);
    let kk = k * k;
    assert((d * d) * np >= n * kk) by (nonlinear_arith)
        requires
            (d * d) * (px * px) >= (ux * ux) * kk,
            (d * d) * (py * py) >= (uy * uy) * kk,
            (d * d) * (pz * pz) >= (uz * uz) * kk,
            np == px * px + py * py + pz * pz,
            n == ux * ux + uy * uy + uz * uz,
    ;
    assert(np >= kk) by (nonlinear_arith)
        requires
            (d * d) * np >= n * kk,
            n >= d * d,
            d >= 1,
            kk >= 0,
    ;
}

/// Two opposite pushes of depth `k` end at least `k` apart.
pub proof fn lemma_opposite_pushes_separate(u: IVec, k: int)
    requires
        !is_zero(u),
        k >= 0,
    ensures
        dist2(push_along(u, k), push_along(vneg(u), k)) >= k * k,
{
    lemma_push_reversed(u, k);
    lemma_push_length(u, k);
    let p = push_along(u, k);
    let (x, y, z) = (p.x, p.y, p.z);
    assert(dist2(p, vneg(p)) >= norm2(p)) by (nonlinear_arith)
        requires
            dist2(p, vneg(p)) == (x - (-x)) * (x - (-x)) + (y - (-y)) * (y - (-y)) + (z - (-z)) * (z
                - (-z)),
            norm2(p) == x * x + y * y + z * z,
    ;
}

fn dist2_small(p: Vec3, q: Vec3) -> (r: i128)
    requires
        within(p@, 2 * MAX_RADIUS),
        within(q@, 2 * MAX_RADIUS),
    ensures
        r as int == dist2(p@, q@),
{
    let d = Vec3 { x: p.x - q.x, y: p.y - q.y, z: p.z - q.z };
    let n = norm2_exec(d);
    n as i128
}

/// Turns two per-axis samples into escape directions for a coincident pair that
/// must move apart by `depth`: both are non-zero, they never point the same way,
/// and pushing along them by `depth` separates the pair by at least `depth`.
pub fn escape_directions(sa: Vec3, sb: Vec3, depth: i64) -> (r: (Vec3, Vec3))
    requires
        within(sa@, SAMPLE_SPAN as int),
        within(sb@, SAMPLE_SPAN as int),
        0 <= depth <= 2 * MAX_RADIUS,
    ensures
        r.0@ == first_escape(sa@),
        r.1@ == second_escape(sa@, sb@, depth as int),
        !is_zero(r.0@),
        !is_zero(r.1@),
        !same_direction(r.0@, r.1@),
        dist2(push_along(r.0@, depth as int), push_along(r.1@, depth as int)) >= depth * depth,
        within(r.0@, SAMPLE_SPAN as int),
        within(r.1@, SAMPLE_SPAN as int),
{
    let ua = if sa.x == 0 && sa.y == 0 && sa.z == 0 {
        Vec3 { x: 1, y: 0, z: 0 }
    } else {
        sa
    };
    proof {
        let m = SAMPLE_SPAN as int;
        lemma_mul_within(ua.x as int, sb.x as int, m, m);
        lemma_mul_within(ua.x as int, sb.y as int, m, m);
        lemma_mul_within(ua.x as int, sb.z as int, m, m);
        lemma_mul_within(ua.y as int, sb.x as int, m, m);
        lemma_mul_within(ua.y as int, sb.y as int, m, m);
        lemma_mul_within(ua.y as int, sb.z as int, m, m);
        lemma_mul_within(ua.z as int, sb.x as int, m, m);
        lemma_mul_within(ua.z as int, sb.y as int, m, m);
        lemma_mul_within(ua.z as int, sb.z as int, m, m);
    }
    let cx = ua.y * sb.z - ua.z * sb.y;
    let cy = ua.z * sb.x - ua.x * sb.z;
    let cz = ua.x * sb.y - ua.y * sb.x;
    let d = ua.x * sb.x + ua.y * sb.y + ua.z * sb.z;
    let sb_zero = sb.x == 0 && sb.y == 0 && sb.z == 0;
    let aligned = cx == 0 && cy == 0 && cz == 0 && d > 0;
    assert(aligned == same_direction(ua@, sb@));
    let back = Vec3 { x: -ua.x, y: -ua.y, z: -ua.z };
    let cand = if sb_zero || aligned {
        back
    } else {
        sb
    };
    let pa = push_along_exec(ua, depth);
    let pc = push_along_exec(cand, depth);
    proof {
        lemma_mul_within(depth as int, depth as int, 2 * MAX_RADIUS, 2 * MAX_RADIUS);
    }
    let ub = if dist2_small(pa, pc) >= depth as i128 * depth as i128 {
        cand
    } else {
        back
    };
    proof {
        lemma_squares(ua@);
        lemma_opposite_pushes_separate(ua@, depth as int);
        let (x, y, z) = (ua.x as int, ua.y as int, ua.z as int);
        assert(dot(ua@, back@) == -norm2(ua@)) by (nonlinear_arith)
            requires
                dot(ua@, back@) == x * (-x) + y * (-y) + z * (-z),
                norm2(ua@) == x * x + y * y + z * z,
        ;
        assert(!same_direction(ua@, back@));
    }
    (ua, ub)
}

/// Resolves one pair of particles against each other, given per-axis samples that
/// are used only when the two centres coincide.
pub fn resolve_pair(
    a: Motion,
    b: Motion,
    ra: i64,
    rb: i64,
    policy: ResolutionPolicy,
    sa: Vec3,
    sb: Vec3,
) -> (r: (Motion, Motion))
    requires
        within(a.position@, WORK_COORD as int),
        within(b.position@, WORK_COORD as int),
        speed_ok(a.velocity@),
        speed_ok(b.velocity@),
        0 <= ra <= MAX_RADIUS,
        0 <= rb <= MAX_RADIUS,
        within(sa@, SAMPLE_SPAN as int),
        within(sb@, SAMPLE_SPAN as int),
    ensures
        (r.0@, r.1@) == resolve_pair_spec(a@, b@, ra as int, rb as int, policy, sa@, sb@),
        moved_within(a.position@, r.0.position@, ra + rb),
        moved_within(b.position@, r.1.position@, ra + rb),
        speed_ok(r.0.velocity@),
        speed_ok(r.1.velocity@),
{
    let rsum = ra + rb;
    let delta = Vec3 {
        x: a.position.x - b.position.x,
        y: a.position.y - b.position.y,
        z: a.position.z - b.position.z,
    };
    let n = norm2_exec(delta);
    let rs = rsum as u128;
    proof {
        lemma_mul_within(rsum as int, rsum as int, 2 * MAX_RADIUS, 2 * MAX_RADIUS);
    }
    if n > rs * rs {
        return (a, b);
    }
    let d = floor_isqrt(n);
    proof {
        assert(d <= rsum) by (nonlinear_arith)
            requires
                d * d <= n,
                n <= rsum * rsum,
                d >= 0,
                rsum >= 0,
        ;
    }
    let depth = rsum - d as i64;
    let coincident = a.position == b.position;
    proof {
        lemma_squares(delta@);
        assert(coincident == (a.position@ == b.position@));
        assert(coincident == is_zero(delta@));
    }
    let dirs = if coincident {
        escape_directions(sa, sb, depth)
    } else {
        (delta, Vec3 { x: -delta.x, y: -delta.y, z: -delta.z })
    };
    assert(dirs.0@ == away_directions(a.position@, b.position@, sa@, sb@, depth as int).0);
    assert(dirs.1@ == away_directions(a.position@, b.position@, sa@, sb@, depth as int).1);
    let pa = push_along_exec(dirs.0, depth);
    let pb = push_along_exec(dirs.1, depth);
    let vels = match policy {
        ResolutionPolicy::SwapVelocities => (b.velocity, a.velocity),
        ResolutionPolicy::RedirectOwnSpeed => (
            aim_along_exec(dirs.0, a.velocity),
            aim_along_exec(dirs.1, b.velocity),
        ),
    };
    let na = Motion {
        position: Vec3 {
            x: a.position.x + pa.x,
            y: a.position.y + pa.y,
            z: a.position.z + pa.z,
        },
        velocity: vels.0,
    };
    let nb = Motion {
        position: Vec3 {
            x: b.position.x + pb.x,
            y: b.position.y + pb.y,
            z: b.position.z + pb.z,
        },
        velocity: vels.1,
    };
    proof {
        assert(vadd(a.position@, push_along(dirs.0@, depth as int)) == na.position@);
        assert(vadd(b.position@, push_along(dirs.1@, depth as int)) == nb.position@);
    }
    (na, nb)
}

} // verus!
