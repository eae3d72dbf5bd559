use vstd::prelude::*;

use crate::arith::{
    div_away, floor_sqrt, is_floor_sqrt, lemma_div_away, lemma_floor_sqrt, lemma_floor_sqrt_is,
};
use crate::bounds::{bottom_of, left_of, reflect_spec, right_of, top_of, Boundary};
use crate::collision::{
    away_directions, candidate_escape, first_escape, lemma_opposite_pushes_separate,
    lemma_push_length, lemma_push_reversed, lemma_push_within, lemma_square_of_product,
    moved_within, overlapping, push_along, resolve_pair_spec, second_escape, ResolutionPolicy,
};
use crate::motion::{integrate_spec, MotionView};
use crate::pass::{collide_all, collide_from, planar_sample, valid_draws};
use crate::step::step_spec;
use crate::vector::{dist2, dot, is_zero, ivec, norm2, same_direction, vadd, vneg, vsub, IVec};

verus! {

/// Strictly inside all four walls, with room for radius `r`.
pub open spec fn clear_of_walls(p: IVec, r: int, b: Boundary) -> bool {
    p.x - r > left_of(b) && p.x + r < right_of(b) && p.y - r > bottom_of(b) && p.y + r < top_of(b)
}

/// A lone particle that stays clear of the walls simply moves: after one step its
/// position is `position + velocity * dt` with `z` zero, and its velocity is kept.
pub proof fn lemma_lone_particle_integrates(
    m: MotionView,
    r: int,
    dt: int,
    b: Boundary,
    policy: ResolutionPolicy,
    draws: Seq<(IVec, IVec)>,
)
    requires
        r >= 0,
        clear_of_walls(integrate_spec(m, dt).pos, r, b),
    ensures
        step_spec(seq![m], seq![r], dt, b, policy, draws) == seq![integrate_spec(m, dt)],
        step_spec(seq![m], seq![r], dt, b, policy, draws)[0].pos == ivec(
            m.pos.x + m.vel.x * dt,
            m.pos.y + m.vel.y * dt,
            0,
        ),
        step_spec(seq![m], seq![r], dt, b, policy, draws)[0].vel == m.vel,
{
    lemma_lone_step(m, r, dt, b, policy, draws);
    assert(reflect_spec(integrate_spec(m, dt), r, b) == integrate_spec(m, dt));
}

/// Stepping a lone particle that rests clear of the walls in the plane twice with
/// `dt == 0` leaves its position and velocity unchanged.
pub proof fn lemma_zero_steps_are_idle(
    m: MotionView,
    r: int,
    b: Boundary,
    policy: ResolutionPolicy,
    first: Seq<(IVec, IVec)>,
    second: Seq<(IVec, IVec)>,
)
    requires
        r >= 0,
        m.pos.z == 0,
        clear_of_walls(m.pos, r, b),
    ensures
        step_spec(seq![m], seq![r], 0, b, policy, first) == seq![m],
        step_spec(step_spec(seq![m], seq![r], 0, b, policy, first), seq![r], 0, b, policy, second)
            == seq![m],
{
    assert(integrate_spec(m, 0) == m);
    lemma_lone_particle_integrates(m, r, 0, b, policy, first);
    lemma_lone_particle_integrates(m, r, 0, b, policy, second);
}

/// A particle that reaches the right wall (its centre at `right - r + eps`) while
/// the left wall is out of reach leaves with its x velocity negated and its centre
/// no further right than `right - r`.
pub proof fn lemma_right_wall_reflects(m: MotionView, r: int, b: Boundary, eps: int)
    requires
        eps >= 0,
        m.pos.x == right_of(b) - r + eps,
        m.pos.x - r > left_of(b),
    ensures
        reflect_spec(m, r, b).vel.x == -m.vel.x,
        reflect_spec(m, r, b).pos.x <= right_of(b) - r,
{
}

/// Under the swap policy, a resolved pair exchanges speeds: each particle leaves
/// with the other's velocity, hence with the other's speed.
pub proof fn lemma_swap_exchanges_speeds(
    a: MotionView,
    b: MotionView,
    ra: int,
    rb: int,
    sa: IVec,
    sb: IVec,
)
    requires
        overlapping(a.pos, b.pos, ra, rb),
    ensures
        resolve_pair_spec(a, b, ra, rb, ResolutionPolicy::SwapVelocities, sa, sb).0.vel == b.vel,
        resolve_pair_spec(a, b, ra, rb, ResolutionPolicy::SwapVelocities, sa, sb).1.vel == a.vel,
        norm2(resolve_pair_spec(a, b, ra, rb, ResolutionPolicy::SwapVelocities, sa, sb).0.vel)
            == norm2(b.vel),
        norm2(resolve_pair_spec(a, b, ra, rb, ResolutionPolicy::SwapVelocities, sa, sb).1.vel)
            == norm2(a.vel),
{
}

/// One axis of the separation: pushing both ends of `c` apart by `q` each stretches
/// it by at least the factor `(d + 2k) / d`.
proof fn lemma_axis_stretch(c: int, d: int, k: int)
    requires
        d >= 1,
        k >= 0,
    ensures
        (d * d) * ((c + 2 * div_away(c * k, d)) * (c + 2 * div_away(c * k, d))) >= (c * c) * ((d
            + 2 * k) * (d + 2 * k)),
{
    lemma_div_away(c * k, d);
    let q = div_away(c * k, d);
    let e = c + 2 * q;
    if c >= 0 {
        assert(c * k >= 0) by (nonlinear_arith)
            requires
                c >= 0,
                k >= 0,
        ;
        assert(d * e >= c * (d + 2 * k) >= 0) by (nonlinear_arith)
            requires
                d * q >= c * k,
                e == c + 2 * q,
                c >= 0,
                d >= 1,
                k >= 0,
        ;
    } else {
        assert(c * k <= 0) by (nonlinear_arith)
            requires
                c < 0,
                k >= 0,
        ;
        if c * k == 0 {
            assert(q == 0);
        }
        assert(d * e <= c * (d + 2 * k) <= 0) by (nonlinear_arith)
            requires
                d * q <= c * k,
                e == c + 2 * q,
                c < 0,
                d >= 1,
                k >= 0,
        ;
    }
    assert((d * e) * (d * e) >= (c * (d + 2 * k)) * (c * (d + 2 * k))) by (nonlinear_arith)
        requires
            (d * e >= c * (d + 2 * k) >= 0) || (d * e <= c * (d + 2 * k) <= 0),
    ;
    lemma_square_of_product(d, e);
    lemma_square_of_product(c, d + 2 * k);
}

/// Two particles at the same position escape along two directions that are
/// non-zero and never the same once normalised, whatever the samples.
pub proof fn lemma_coincident_directions_differ(p: IVec, sa: IVec, sb: IVec, depth: int)
    ensures
        !is_zero(away_directions(p, p, sa, sb, depth).0),
        !is_zero(away_directions(p, p, sa, sb, depth).1),
        !same_direction(away_directions(p, p, sa, sb, depth).0, away_directions(p, p, sa, sb, depth).1),
{
    let ua = first_escape(sa);
    let (x, y, z) = (ua.x, ua.y, ua.z);
    assert(x * x >= 0 && y * y >= 0 && z * z >= 0) by (nonlinear_arith);
    if x != 0 {
        assert(x * x > 0) by (nonlinear_arith)
            requires
                x != 0,
        ;
    }
    if y != 0 {
        assert(y * y > 0) by (nonlinear_arith)
            requires
                y != 0,
        ;
    }
    if z != 0 {
        assert(z * z > 0) by (nonlinear_arith)
            requires
                z != 0,
        ;
    }
    assert(dot(ua, vneg(ua)) == -norm2(ua)) by (nonlinear_arith)
        requires
            dot(ua, vneg(ua)) == x * (-x) + y * (-y) + z * (-z),
            norm2(ua) == x * x + y * y + z * z,
    ;
}

/// Resolving a pair with coincident centres moves them at least the sum of the
/// radii apart, whatever the samples.
proof fn lemma_coincident_separation(
    a: MotionView,
    b: MotionView,
    ra: int,
    rb: int,
    policy: ResolutionPolicy,
    sa: IVec,
    sb: IVec,
)
    requires
        ra >= 0,
        rb >= 0,
        a.pos == b.pos,
    ensures
        dist2(
            resolve_pair_spec(a, b, ra, rb, policy, sa, sb).0.pos,
            resolve_pair_spec(a, b, ra, rb, policy, sa, sb).1.pos,
        ) >= (ra + rb) * (ra + rb),
{
    let rs = ra + rb;
    assert(dist2(a.pos, b.pos) == 0);
    assert(is_floor_sqrt(0, 0));
    lemma_floor_sqrt_is(0, 0);
    assert(rs * rs >= 0) by (nonlinear_arith);
    assert(overlapping(a.pos, b.pos, ra, rb));
    let ua = first_escape(sa);
    let ub = second_escape(sa, sb, rs);
    let pa = push_along(ua, rs);
    let pb = push_along(ub, rs);
    if dist2(pa, push_along(candidate_escape(sa, sb), rs)) < rs * rs {
        lemma_opposite_pushes_separate(ua, rs);
    }
    let out = resolve_pair_spec(a, b, ra, rb, policy, sa, sb);
    assert(out.0.pos == vadd(a.pos, pa));
    assert(out.1.pos == vadd(b.pos, pb));
    assert(vsub(out.0.pos, out.1.pos) == vsub(pa, pb));
}

/// Resolving an overlapping pair whose centres differ pushes them apart along the
/// line through them, to at least the sum of the radii.
proof fn lemma_distinct_separation(
    a: MotionView,
    b: MotionView,
    ra: int,
    rb: int,
    policy: ResolutionPolicy,
    sa: IVec,
    sb: IVec,
)
    requires
        ra >= 0,
        rb >= 0,
        overlapping(a.pos, b.pos, ra, rb),
        a.pos != b.pos,
    ensures
        dist2(
            resolve_pair_spec(a, b, ra, rb, policy, sa, sb).0.pos,
            resolve_pair_spec(a, b, ra, rb, policy, sa, sb).1.pos,
        ) >= (ra + rb) * (ra + rb),
{
    let u = vsub(a.pos, b.pos);
    let w = vsub(b.pos, a.pos);
    let n2 = norm2(u);
    let rs = ra + rb;
    let (ux, uy, uz) = (u.x, u.y, u.z);
    assert(ux * ux >= 0 && uy * uy >= 0 && uz * uz >= 0) by (nonlinear_arith);
    assert(n2 >= 1) by {
        if ux != 0 {
            assert(ux * ux >= 1) by (nonlinear_arith)
                requires
                    ux != 0,
            ;
        } else if uy != 0 {
            assert(uy * uy >= 1) by (nonlinear_arith)
                requires
                    uy != 0,
            ;
        } else {
            assert(uz * uz >= 1) by (nonlinear_arith)
                requires
                    uz != 0,
            ;
        }
    }
    assert(norm2(w) == n2) by (nonlinear_arith)
        requires
            w == ivec(-ux, -uy, -uz),
            n2 == ux * ux + uy * uy + uz * uz,
            norm2(w) == (-ux) * (-ux) + (-uy) * (-uy) + (-uz) * (-uz),
    ;
    lemma_floor_sqrt(n2);
    let d = floor_sqrt(n2);
    assert(d >= 1) by (nonlinear_arith)
        requires
            d >= 0,
            n2 >= 1,
            n2 < (d + 1) * (d + 1),
    ;
    assert(d <= rs) by (nonlinear_arith)
        requires
            d * d <= n2,
            n2 <= rs * rs,
            d >= 0,
            rs >= 0,
    ;
    let k = rs - d;
    let m = push_along(u, k);
    let mw = push_along(w, k);
    assert(w == vneg(u));
    lemma_push_reversed(u, k);
    let out = resolve_pair_spec(a, b, ra, rb, policy, sa, sb);
    assert(out.0.pos == vadd(a.pos, m));
    assert(out.1.pos == vadd(b.pos, mw));
    let ex = ux + 2 * m.x;
    let ey = uy + 2 * m.y;
    let ez = uz + 2 * m.z;
    assert(vsub(out.0.pos, out.1.pos) == ivec(ex, ey, ez));
    lemma_axis_stretch(ux, d, k);
    lemma_axis_stretch(uy, d, k);
    lemma_axis_stretch(uz, d, k);
    let g = (d + 2 * k) * (d + 2 * k);
    let e2 = ex * ex + ey * ey + ez * ez;
    assert((d * d) * e2 >= n2 * g) by (nonlinear_arith)
        requires
            (d * d) * (ex * ex) >= (ux * ux) * g,
            (d * d) * (ey * ey) >= (uy * uy) * g,
            (d * d) * (ez * ez) >= (uz * uz) * g,
            e2 == ex * ex + ey * ey + ez * ez,
            n2 == ux * ux + uy * uy + uz * uz,
    ;
    assert(g >= rs * rs) by (nonlinear_arith)
        requires
            d + 2 * k >= rs,
            rs >= 0,
            g == (d + 2 * k) * (d + 2 * k),
    ;
    assert(n2 * g >= (d * d) * (rs * rs)) by (nonlinear_arith)
        requires
            n2 >= d * d,
            d * d >= 0,
            g >= rs * rs,
            rs * rs >= 0,
    ;
    assert(e2 >= rs * rs) by (nonlinear_arith)
        requires
            (d * d) * e2 >= (d * d) * (rs * rs),
            d >= 1,
    ;
    assert(dist2(out.0.pos, out.1.pos) == e2);
}

/// Resolving an overlapping pair leaves the centres at least the sum of the radii
/// apart.
pub proof fn lemma_pair_separation(
    a: MotionView,
    b: MotionView,
    ra: int,
    rb: int,
    policy: ResolutionPolicy,
    sa: IVec,
    sb: IVec,
)
    requires
        ra >= 0,
        rb >= 0,
        overlapping(a.pos, b.pos, ra, rb),
    ensures
        dist2(
            resolve_pair_spec(a, b, ra, rb, policy, sa, sb).0.pos,
            resolve_pair_spec(a, b, ra, rb, policy, sa, sb).1.pos,
        ) >= (ra + rb) * (ra + rb),
{
    if a.pos == b.pos {
        lemma_coincident_separation(a, b, ra, rb, policy, sa, sb);
    } else {
        lemma_distinct_separation(a, b, ra, rb, policy, sa, sb);
    }
}

/// One step of a lone particle: it is integrated, then reflected off the walls.
pub proof fn lemma_lone_step(
    m: MotionView,
    r: int,
    dt: int,
    b: Boundary,
    policy: ResolutionPolicy,
    draws: Seq<(IVec, IVec)>,
)
    ensures
        step_spec(seq![m], seq![r], dt, b, policy, draws) == seq![
            reflect_spec(integrate_spec(m, dt), r, b),
        ],
{
    let one = integrate_spec(m, dt);
    let moved = seq![m].map_values(|x: MotionView| integrate_spec(x, dt));
    assert(moved =~= seq![one]);
    assert(collide_from(moved, seq![r], policy, 1, 0, draws) == moved);
    assert(collide_from(moved, seq![r], policy, 0, 0, draws) == moved);
    assert(moved.map(|i: int, x: MotionView| reflect_spec(x, seq![r][i], b)) =~= seq![
        reflect_spec(one, r, b),
    ]);
}

/// A lone particle that reaches the right wall within a step (its integrated centre
/// at `right - r + eps`, clear of the floor and ceiling, in a box wider than the
/// particle) leaves with its x velocity negated and its centre at `right - r`.
pub proof fn lemma_lone_particle_meets_right_wall(
    m: MotionView,
    r: int,
    dt: int,
    b: Boundary,
    policy: ResolutionPolicy,
    draws: Seq<(IVec, IVec)>,
    eps: int,
)
    requires
        r > 0,
        b.width > 2 * r,
        eps > 0,
        integrate_spec(m, dt).pos.x == right_of(b) - r + eps,
        bottom_of(b) + r < integrate_spec(m, dt).pos.y < top_of(b) - r,
    ensures
        step_spec(seq![m], seq![r], dt, b, policy, draws)[0].vel.x == -m.vel.x,
        step_spec(seq![m], seq![r], dt, b, policy, draws)[0].vel.y == m.vel.y,
        step_spec(seq![m], seq![r], dt, b, policy, draws)[0].pos.x == right_of(b) - r,
{
    lemma_lone_step(m, r, dt, b, policy, draws);
}

/// The samples that the collision pass hands to the one pair of two particles.
pub open spec fn pair_samples(x: MotionView, y: MotionView, draws: Seq<(IVec, IVec)>) -> (
    IVec,
    IVec,
) {
    if y.pos == x.pos && draws.len() > 0 {
        draws[0]
    } else {
        (ivec(0, 0, 0), ivec(0, 0, 0))
    }
}

proof fn lemma_two_body_pass(
    x: MotionView,
    y: MotionView,
    rx: int,
    ry: int,
    policy: ResolutionPolicy,
    draws: Seq<(IVec, IVec)>,
)
    ensures
        collide_all(seq![x, y], seq![rx, ry], policy, draws) == seq![
            resolve_pair_spec(
                y,
                x,
                ry,
                rx,
                policy,
                pair_samples(x, y, draws).0,
                pair_samples(x, y, draws).1,
            ).1,
            resolve_pair_spec(
                y,
                x,
                ry,
                rx,
                policy,
                pair_samples(x, y, draws).0,
                pair_samples(x, y, draws).1,
            ).0,
        ],
{
    let bs = seq![x, y];
    let rs = seq![rx, ry];
    let smp = pair_samples(x, y, draws);
    let p = resolve_pair_spec(y, x, ry, rx, policy, smp.0, smp.1);
    let rest = if y.pos == x.pos && draws.len() > 0 {
        draws.drop_first()
    } else {
        draws
    };
    let b2 = bs.update(1, p.0).update(0, p.1);
    assert(b2 =~= seq![p.1, p.0]);
    assert(collide_from(b2, rs, policy, 2, 0, rest) == b2);
    assert(collide_from(b2, rs, policy, 1, 1, rest) == b2);
    assert(bs[1] == y && bs[0] == x && rs[1] == ry && rs[0] == rx);
    assert(collide_from(bs, rs, policy, 1, 0, draws) == b2);
    assert(collide_from(bs, rs, policy, 0, 0, draws) == b2);
}

/// Resolving an overlapping pair in the plane moves each centre by at most the sum
/// of the radii per component, and keeps both in the plane.
pub proof fn lemma_pair_moves(
    a: MotionView,
    b: MotionView,
    ra: int,
    rb: int,
    policy: ResolutionPolicy,
    sa: IVec,
    sb: IVec,
)
    requires
        ra >= 0,
        rb >= 0,
        overlapping(a.pos, b.pos, ra, rb),
        a.pos.z == 0,
        b.pos.z == 0,
        planar_sample(sa),
        planar_sample(sb),
    ensures
        moved_within(a.pos, resolve_pair_spec(a, b, ra, rb, policy, sa, sb).0.pos, ra + rb),
        moved_within(b.pos, resolve_pair_spec(a, b, ra, rb, policy, sa, sb).1.pos, ra + rb),
        resolve_pair_spec(a, b, ra, rb, policy, sa, sb).0.pos.z == 0,
        resolve_pair_spec(a, b, ra, rb, policy, sa, sb).1.pos.z == 0,
{
    let rs = ra + rb;
    let u = vsub(a.pos, b.pos);
    let n2 = dist2(a.pos, b.pos);
    let (ux, uy, uz) = (u.x, u.y, u.z);
    assert(n2 >= 0) by (nonlinear_arith)
        requires
            n2 == ux * ux + uy * uy + uz * uz,
    ;
    lemma_floor_sqrt(n2);
    let d = floor_sqrt(n2);
    assert(d <= rs) by (nonlinear_arith)
        requires
            d * d <= n2,
            n2 <= rs * rs,
            d >= 0,
            rs >= 0,
    ;
    let k = rs - d;
    let dirs = away_directions(a.pos, b.pos, sa, sb, k);
    if a.pos == b.pos {
        lemma_coincident_directions_differ(a.pos, sa, sb, k);
        reveal(planar_sample);
        assert(first_escape(sa).z == 0);
        assert(candidate_escape(sa, sb).z == 0);
        assert(dirs.1.z == 0);
    } else {
        assert(!is_zero(dirs.0));
        assert(!is_zero(dirs.1));
    }
    lemma_push_within(dirs.0, k);
    lemma_push_within(dirs.1, k);
}

/// The outcome of one step of two particles, in their order: the pair is resolved
/// with the later particle first, as the collision pass visits it.
pub open spec fn two_body_outcome(
    a: MotionView,
    b: MotionView,
    ra: int,
    rb: int,
    dt: int,
    policy: ResolutionPolicy,
    draws: Seq<(IVec, IVec)>,
) -> (MotionView, MotionView) {
    let ia = integrate_spec(a, dt);
    let ib = integrate_spec(b, dt);
    let smp = pair_samples(ia, ib, draws);
    let p = resolve_pair_spec(ib, ia, rb, ra, policy, smp.0, smp.1);
    (p.1, p.0)
}

proof fn lemma_reflect_idle(m: MotionView, r: int, b: Boundary)
    requires
        r >= 0,
        m.pos.z == 0,
        clear_of_walls(m.pos, r, b),
    ensures
        reflect_spec(m, r, b) == m,
{
}

/// Two particles whose integrated centres keep twice the sum of the radii from
/// every wall: one step is exactly the resolution of their one pair.
pub proof fn lemma_two_body_step(
    a: MotionView,
    b: MotionView,
    ra: int,
    rb: int,
    dt: int,
    bounds: Boundary,
    policy: ResolutionPolicy,
    draws: Seq<(IVec, IVec)>,
)
    requires
        ra >= 0,
        rb >= 0,
        valid_draws(draws),
        clear_of_walls(integrate_spec(a, dt).pos, 2 * (ra + rb), bounds),
        clear_of_walls(integrate_spec(b, dt).pos, 2 * (ra + rb), bounds),
    ensures
        step_spec(seq![a, b], seq![ra, rb], dt, bounds, policy, draws) == seq![
            two_body_outcome(a, b, ra, rb, dt, policy, draws).0,
            two_body_outcome(a, b, ra, rb, dt, policy, draws).1,
        ],
{
    let ia = integrate_spec(a, dt);
    let ib = integrate_spec(b, dt);
    let radii = seq![ra, rb];
    let moved = seq![a, b].map_values(|x: MotionView| integrate_spec(x, dt));
    assert(moved =~= seq![ia, ib]);
    lemma_two_body_pass(ia, ib, ra, rb, policy, draws);
    let smp = pair_samples(ia, ib, draws);
    if ib.pos == ia.pos && draws.len() > 0 {
        assert(planar_sample(draws[0].0) && planar_sample(draws[0].1));
    } else {
        reveal(planar_sample);
    }
    let p = resolve_pair_spec(ib, ia, rb, ra, policy, smp.0, smp.1);
    if overlapping(ib.pos, ia.pos, rb, ra) {
        lemma_pair_moves(ib, ia, rb, ra, policy, smp.0, smp.1);
    }
    lemma_reflect_idle(p.1, ra, bounds);
    lemma_reflect_idle(p.0, rb, bounds);
    let collided = seq![p.1, p.0];
    assert(collided.map(|i: int, x: MotionView| reflect_spec(x, radii[i], bounds)) =~= collided);
}

/// Two overlapping particles, clear of the walls, end a step at least the sum of
/// their radii apart, whether or not their centres coincided.
pub proof fn lemma_two_body_separation(
    a: MotionView,
    b: MotionView,
    ra: int,
    rb: int,
    dt: int,
    bounds: Boundary,
    policy: ResolutionPolicy,
    draws: Seq<(IVec, IVec)>,
)
    requires
        ra >= 0,
        rb >= 0,
        valid_draws(draws),
        overlapping(integrate_spec(a, dt).pos, integrate_spec(b, dt).pos, ra, rb),
        clear_of_walls(integrate_spec(a, dt).pos, 2 * (ra + rb), bounds),
        clear_of_walls(integrate_spec(b, dt).pos, 2 * (ra + rb), bounds),
    ensures
        dist2(
            step_spec(seq![a, b], seq![ra, rb], dt, bounds, policy, draws)[0].pos,
            step_spec(seq![a, b], seq![ra, rb], dt, bounds, policy, draws)[1].pos,
        ) >= (ra + rb) * (ra + rb),
{
    lemma_two_body_step(a, b, ra, rb, dt, bounds, policy, draws);
    let ia = integrate_spec(a, dt);
    let ib = integrate_spec(b, dt);
    let smp = pair_samples(ia, ib, draws);
    assert(dist2(ib.pos, ia.pos) == dist2(ia.pos, ib.pos)) by {
        lemma_dist2_symmetric(ia.pos, ib.pos);
    }
    lemma_pair_separation(ib, ia, rb, ra, policy, smp.0, smp.1);
    let p = resolve_pair_spec(ib, ia, rb, ra, policy, smp.0, smp.1);
    lemma_dist2_symmetric(p.0.pos, p.1.pos);
}

/// Under the swap policy two overlapping particles, clear of the walls, leave a
/// step with each other's velocities, hence with each other's speeds.
pub proof fn lemma_two_body_swap(
    a: MotionView,
    b: MotionView,
    ra: int,
    rb: int,
    dt: int,
    bounds: Boundary,
    draws: Seq<(IVec, IVec)>,
)
    requires
        ra >= 0,
        rb >= 0,
        valid_draws(draws),
        overlapping(integrate_spec(a, dt).pos, integrate_spec(b, dt).pos, ra, rb),
        clear_of_walls(integrate_spec(a, dt).pos, 2 * (ra + rb), bounds),
        clear_of_walls(integrate_spec(b, dt).pos, 2 * (ra + rb), bounds),
    ensures
        step_spec(
            seq![a, b],
            seq![ra, rb],
            dt,
            bounds,
            ResolutionPolicy::SwapVelocities,
            draws,
        )[0].vel == b.vel,
        step_spec(
            seq![a, b],
            seq![ra, rb],
            dt,
            bounds,
            ResolutionPolicy::SwapVelocities,
            draws,
        )[1].vel == a.vel,
        norm2(
            step_spec(
                seq![a, b],
                seq![ra, rb],
                dt,
                bounds,
                ResolutionPolicy::SwapVelocities,
                draws,
            )[0].vel,
        ) == norm2(b.vel),
        norm2(
            step_spec(
                seq![a, b],
                seq![ra, rb],
                dt,
                bounds,
                ResolutionPolicy::SwapVelocities,
                draws,
            )[1].vel,
        ) == norm2(a.vel),
{
    lemma_two_body_step(a, b, ra, rb, dt, bounds, ResolutionPolicy::SwapVelocities, draws);
    let ia = integrate_spec(a, dt);
    let ib = integrate_spec(b, dt);
    lemma_dist2_symmetric(ia.pos, ib.pos);
}

/// Two particles of positive total radius whose integrated centres coincide at `c`,
/// clear of the walls, end a step at different positions, each pushed out from `c`
/// by at least the sum of the radii.
pub proof fn lemma_coincident_pair_escapes(
    a: MotionView,
    b: MotionView,
    ra: int,
    rb: int,
    dt: int,
    bounds: Boundary,
    policy: ResolutionPolicy,
    draws: Seq<(IVec, IVec)>,
)
    requires
        ra >= 0,
        rb >= 0,
        ra + rb > 0,
        valid_draws(draws),
        integrate_spec(a, dt).pos == integrate_spec(b, dt).pos,
        clear_of_walls(integrate_spec(a, dt).pos, 2 * (ra + rb), bounds),
    ensures
        step_spec(seq![a, b], seq![ra, rb], dt, bounds, policy, draws)[0].pos != step_spec(
            seq![a, b],
            seq![ra, rb],
            dt,
            bounds,
            policy,
            draws,
        )[1].pos,
        norm2(
            vsub(
                step_spec(seq![a, b], seq![ra, rb], dt, bounds, policy, draws)[0].pos,
                integrate_spec(a, dt).pos,
            ),
        ) >= (ra + rb) * (ra + rb),
        norm2(
            vsub(
                step_spec(seq![a, b], seq![ra, rb], dt, bounds, policy, draws)[1].pos,
                integrate_spec(a, dt).pos,
            ),
        ) >= (ra + rb) * (ra + rb),
{
    let rs = ra + rb;
    let ia = integrate_spec(a, dt);
    let ib = integrate_spec(b, dt);
    assert(dist2(ia.pos, ib.pos) == 0);
    assert(rs * rs > 0) by (nonlinear_arith)
        requires
            rs > 0,
    ;
    lemma_two_body_separation(a, b, ra, rb, dt, bounds, policy, draws);
    lemma_two_body_step(a, b, ra, rb, dt, bounds, policy, draws);
    let smp = pair_samples(ia, ib, draws);
    let p = resolve_pair_spec(ib, ia, rb, ra, policy, smp.0, smp.1);
    assert(is_floor_sqrt(0, 0));
    lemma_floor_sqrt_is(0, 0);
    assert(dist2(ib.pos, ia.pos) == 0);
    assert(overlapping(ib.pos, ia.pos, rb, ra));
    assert(rb + ra - floor_sqrt(dist2(ib.pos, ia.pos)) == rs);
    let dirs = away_directions(ib.pos, ia.pos, smp.0, smp.1, rs);
    lemma_coincident_directions_differ(ib.pos, smp.0, smp.1, rs);
    lemma_push_length(dirs.0, rs);
    lemma_push_length(dirs.1, rs);
    assert(vsub(p.0.pos, ia.pos) == push_along(dirs.0, rs));
    assert(vsub(p.1.pos, ia.pos) == push_along(dirs.1, rs));
    if p.0.pos == p.1.pos {
        assert(dist2(p.1.pos, p.0.pos) == 0);
    }
}

/// Squared distance does not depend on the order of the points.
pub proof fn lemma_dist2_symmetric(p: IVec, q: IVec)
    ensures
        dist2(p, q) == dist2(q, p),
{
    let (x, y, z) = (p.x - q.x, p.y - q.y, p.z - q.z);
    assert(x * x == (-x) * (-x) && y * y == (-y) * (-y) && z * z == (-z) * (-z))
        by (nonlinear_arith);
}

} // verus!
