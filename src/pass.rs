use rand::Rng;
use vstd::prelude::*;

use crate::collision::{moved_within, resolve_pair, resolve_pair_spec, ResolutionPolicy};
use crate::limits::{MAX_COORD, MAX_DT, MAX_PARTICLES, MAX_RADIUS, MAX_SPEED, SAMPLE_SPAN, WORK_COORD};
use crate::motion::{speed_ok, Motion, MotionView};
use crate::vector::{ivec, within, IVec, Vec3};

verus! {

/// The model of a snapshot: each entry's position and velocity, in order.
pub open spec fn motions_view(v: Seq<Motion>) -> Seq<MotionView> {
    v.map_values(|m: Motion| m@)
}

pub open spec fn radii_view(v: Seq<i64>) -> Seq<int> {
    v.map_values(|r: i64| r as int)
}

/// Every entry's position components lie within `cap` and its speed within the limit.
pub open spec fn bodies_within(v: Seq<Motion>, cap: int) -> bool {
    forall|i: int| 0 <= i < v.len() ==> within(#[trigger] v[i].position@, cap) && speed_ok(v[i].velocity@)
}

/// Every radius is non-negative and within the limit.
pub open spec fn radii_ok(radii: Seq<i64>) -> bool {
    forall|i: int| 0 <= i < radii.len() ==> 0 <= #[trigger] radii[i] <= MAX_RADIUS
}

/// A sample as `draw_sample` gives it: `x` and `y` in `[0, SAMPLE_SPAN)`, `z` zero.
#[verifier::opaque]
pub open spec fn planar_sample(s: IVec) -> bool {
    0 <= s.x < SAMPLE_SPAN && 0 <= s.y < SAMPLE_SPAN && s.z == 0
}

/// Every draw is a pair of planar samples.
pub open spec fn valid_draws(draws: Seq<(IVec, IVec)>) -> bool {
    forall|i: int|
        0 <= i < draws.len() ==> #[trigger] planar_sample(draws[i].0) && planar_sample(
            draws[i].1,
        )
}

/// The collision pass from pair `(a, b)` on: pairs are visited with `a` ascending
/// and, for each `a`, every `b < a` ascending. Each pair reads the entries as
/// earlier pairs left them. A pair whose centres coincide takes the next draw, or
/// zero samples once the draws run out.
pub open spec fn collide_from(
    bodies: Seq<MotionView>,
    radii: Seq<int>,
    policy: ResolutionPolicy,
    a: int,
    b: int,
    draws: Seq<(IVec, IVec)>,
) -> Seq<MotionView>
    decreases bodies.len() - a, a - b,
{
    if a < 0 || b < 0 || a >= bodies.len() {
        bodies
    } else if b >= a {
        collide_from(bodies, radii, policy, a + 1, 0, draws)
    } else {
        let coincident = bodies[a].pos == bodies[b].pos;
        let takes = coincident && draws.len() > 0;
        let s = if takes {
            draws[0]
        } else {
            (ivec(0, 0, 0), ivec(0, 0, 0))
        };
        let pair = resolve_pair_spec(bodies[a], bodies[b], radii[a], radii[b], policy, s.0, s.1);
        let rest = if takes {
            draws.drop_first()
        } else {
            draws
        };
        collide_from(bodies.update(a, pair.0).update(b, pair.1), radii, policy, a, b + 1, rest)
    }
}

/// The whole collision pass over a snapshot.
pub open spec fn collide_all(
    bodies: Seq<MotionView>,
    radii: Seq<int>,
    policy: ResolutionPolicy,
    draws: Seq<(IVec, IVec)>,
) -> Seq<MotionView> {
    collide_from(bodies, radii, policy, 0, 0, draws)
}

/// Relies on rand's `thread_rng` and `Rng::gen_range`: a value of the range `lo..hi`,
/// which must not be empty.
#[verifier::external_body]
fn random_in(lo: i64, hi: i64) -> (r: i64)
    requires
        lo < hi,
    ensures
        lo <= r < hi,
{
    rand::thread_rng().gen_range(lo..hi)
}

/// One uniform sample per axis of the plane, each in `[0, SAMPLE_SPAN)`; the
/// simulation is planar, so `z` is zero.
fn draw_sample() -> (r: Vec3)
    ensures
        planar_sample(r@),
        within(r@, SAMPLE_SPAN as int),
{
    let x = random_in(0, SAMPLE_SPAN);
    let y = random_in(0, SAMPLE_SPAN);
    proof {
        reveal(planar_sample);
    }
    Vec3 { x, y, z: 0 }
}

/// How many pairs have moved particle `i` once the pass reaches pair `(a, b)`.
spec fn moves_before(i: int, a: int, b: int) -> int {
    if i < a {
        if i < b {
            a
        } else {
            a - 1
        }
    } else if i == a {
        b
    } else {
        0
    }
}

/// Bound on position components of a particle that `k` pairs have moved.
spec fn coord_cap(k: int) -> int {
    entry_coord() + k * 2_147_483_648
}

spec fn body_ok(m: Motion, k: int) -> bool {
    within(m.position@, coord_cap(k)) && speed_ok(m.velocity@)
}

proof fn lemma_work_bound(v: IVec, m: int)
    requires
        0 <= m <= MAX_PARTICLES,
        within(v, coord_cap(m)),
    ensures
        within(v, WORK_COORD as int),
{
}

proof fn lemma_caps_advance(prev: Seq<Motion>, next: Seq<Motion>, a: int, b: int)
    requires
        0 <= b < a < prev.len(),
        next.len() == prev.len(),
        forall|i: int| 0 <= i < prev.len() ==> body_ok(#[trigger] prev[i], moves_before(i, a, b)),
        forall|i: int| 0 <= i < prev.len() && i != a && i != b ==> #[trigger] next[i] == prev[i],
        moved_within(prev[a].position@, next[a].position@, 2 * MAX_RADIUS),
        moved_within(prev[b].position@, next[b].position@, 2 * MAX_RADIUS),
        speed_ok(next[a].velocity@),
        speed_ok(next[b].velocity@),
    ensures
        forall|i: int| 0 <= i < next.len() ==> body_ok(#[trigger] next[i], moves_before(i, a, b + 1)),
{
    assert(body_ok(prev[a], moves_before(a, a, b)));
    assert(body_ok(prev[b], moves_before(b, a, b)));
    assert forall|i: int| 0 <= i < next.len() implies body_ok(#[trigger] next[i], moves_before(i, a, b + 1)) by {
        if i != a && i != b {
            assert(body_ok(prev[i], moves_before(i, a, b)));
        }
    }
}

/// One pair of the pass, as the loop performs it, keeps the loop's account of
/// which draws the pass has taken so far.
proof fn lemma_pair_advance(
    init: Seq<MotionView>,
    rv: Seq<int>,
    policy: ResolutionPolicy,
    cur: Seq<MotionView>,
    a: int,
    b: int,
    drawn_before: Seq<(IVec, IVec)>,
    drawn: Seq<(IVec, IVec)>,
    s: (IVec, IVec),
    next: Seq<MotionView>,
)
    requires
        0 <= b < a < cur.len(),
        forall|rest: Seq<(IVec, IVec)>| #[trigger]
            collide_from(init, rv, policy, 0, 0, drawn_before + rest) == collide_from(
                cur,
                rv,
                policy,
                a,
                b,
                rest,
            ),
        cur[a].pos == cur[b].pos ==> drawn == drawn_before.push(s),
        cur[a].pos != cur[b].pos ==> drawn == drawn_before && s == (ivec(0, 0, 0), ivec(0, 0, 0)),
        next == cur.update(
            a,
            resolve_pair_spec(cur[a], cur[b], rv[a], rv[b], policy, s.0, s.1).0,
        ).update(b, resolve_pair_spec(cur[a], cur[b], rv[a], rv[b], policy, s.0, s.1).1),
    ensures
        forall|rest: Seq<(IVec, IVec)>| #[trigger]
            collide_from(init, rv, policy, 0, 0, drawn + rest) == collide_from(
                next,
                rv,
                policy,
                a,
                b + 1,
                rest,
            ),
{
    assert forall|rest: Seq<(IVec, IVec)>| #[trigger]
        collide_from(init, rv, policy, 0, 0, drawn + rest) == collide_from(
            next,
            rv,
            policy,
            a,
            b + 1,
            rest,
        ) by {
        if cur[a].pos == cur[b].pos {
            let r2 = seq![s] + rest;
            assert(drawn + rest =~= drawn_before + r2);
            assert(r2.drop_first() =~= rest);
            assert(r2[0] == s);
            assert(collide_from(init, rv, policy, 0, 0, drawn_before + r2) == collide_from(
                cur,
                rv,
                policy,
                a,
                b,
                r2,
            ));
        } else {
            assert(collide_from(init, rv, policy, 0, 0, drawn_before + rest) == collide_from(
                cur,
                rv,
                policy,
                a,
                b,
                rest,
            ));
        }
    }
}

proof fn lemma_draws_extend(before: Seq<(IVec, IVec)>, s: (IVec, IVec))
    requires
        valid_draws(before),
        planar_sample(s.0),
        planar_sample(s.1),
    ensures
        valid_draws(before.push(s)),
{
    let after = before.push(s);
    assert forall|i: int| 0 <= i < after.len() implies #[trigger] planar_sample(after[i].0)
        && planar_sample(after[i].1) by {
        if i < before.len() {
            assert(after[i] == before[i]);
            assert(planar_sample(before[i].0));
        } else {
            assert(after[i] == s);
        }
    }
}

/// Bound on position components when a snapshot enters the collision pass.
pub open spec fn entry_coord() -> int {
    MAX_COORD + MAX_SPEED * MAX_DT
}

/// Runs the collision pass over `bodies` in place. Coincident pairs draw their
/// escape samples at random, so the result is the pass for some valid draws.
pub fn resolve_collisions(bodies: &mut Vec<Motion>, radii: &Vec<i64>, policy: ResolutionPolicy)
    requires
        old(bodies).len() == radii.len(),
        radii.len() <= MAX_PARTICLES,
        radii_ok(radii@),
        bodies_within(old(bodies)@, entry_coord()),
    ensures
        final(bodies).len() == old(bodies).len(),
        exists|draws: Seq<(IVec, IVec)>|
            valid_draws(draws) && #[trigger] collide_all(
                motions_view(old(bodies)@),
                radii_view(radii@),
                policy,
                draws,
            ) == motions_view(final(bodies)@),
        bodies_within(final(bodies)@, WORK_COORD as int),
{
    let ghost init = motions_view(bodies@);
    let ghost rv = radii_view(radii@);
    let ghost mut drawn: Seq<(IVec, IVec)> = Seq::empty();
    let n = bodies.len();
    let mut a: usize = 0;
    assert forall|rest: Seq<(IVec, IVec)>| #[trigger]
        collide_from(init, rv, policy, 0, 0, drawn + rest) == collide_from(
            motions_view(bodies@),
            rv,
            policy,
            0,
            0,
            rest,
        ) by {
        assert(drawn + rest =~= rest);
    }
    while a < n
        invariant
            0 <= a <= n,
            n == bodies.len(),
            n == radii.len(),
            n <= MAX_PARTICLES,
            rv == radii_view(radii@),
            init.len() == n,
            forall|i: int| 0 <= i < n ==> 0 <= #[trigger] radii[i] <= MAX_RADIUS,
            forall|i: int| 0 <= i < n ==> body_ok(#[trigger] bodies[i], moves_before(i, a as int, 0)),
            valid_draws(drawn),
            forall|rest: Seq<(IVec, IVec)>| #[trigger]
                collide_from(init, rv, policy, 0, 0, drawn + rest) == collide_from(
                    motions_view(bodies@),
                    rv,
                    policy,
                    a as int,
                    0,
                    rest,
                ),
        decreases n - a,
    {
        let mut b: usize = 0;
        while b < a
            invariant
                0 <= b <= a < n,
                n == bodies.len(),
                n == radii.len(),
                n <= MAX_PARTICLES,
                rv == radii_view(radii@),
                init.len() == n,
                forall|i: int| 0 <= i < n ==> 0 <= #[trigger] radii[i] <= MAX_RADIUS,
                forall|i: int|
                    0 <= i < n ==> body_ok(#[trigger] bodies[i], moves_before(i, a as int, b as int)),
                valid_draws(drawn),
                forall|rest: Seq<(IVec, IVec)>| #[trigger]
                    collide_from(init, rv, policy, 0, 0, drawn + rest) == collide_from(
                        motions_view(bodies@),
                        rv,
                        policy,
                        a as int,
                        b as int,
                        rest,
                    ),
            decreases a - b,
        {
            let ghost cur = motions_view(bodies@);
            let ghost drawn_before = drawn;
            let ma = bodies[a];
            let mb = bodies[b];
            let ghost prev = bodies@;
            assert(body_ok(bodies[a as int], moves_before(a as int, a as int, b as int)));
            assert(body_ok(bodies[b as int], moves_before(b as int, a as int, b as int)));
            proof {
                lemma_work_bound(ma.position@, b as int);
                lemma_work_bound(mb.position@, a as int);
            }
            let coincident = ma.position == mb.position;
            let (sa, sb) = if coincident {
                let sa = draw_sample();
                let sb = draw_sample();
                proof {
                    drawn = drawn.push((sa@, sb@));
                }
                (sa, sb)
            } else {
                (Vec3 { x: 0, y: 0, z: 0 }, Vec3 { x: 0, y: 0, z: 0 })
            };
            let pair = resolve_pair(ma, mb, radii[a], radii[b], policy, sa, sb);
            bodies.set(a, pair.0);
            bodies.set(b, pair.1);
            proof {
                lemma_caps_advance(prev, bodies@, a as int, b as int);
                assert(cur[a as int] == ma@);
                assert(cur[b as int] == mb@);
                assert(motions_view(bodies@) =~= cur.update(a as int, pair.0@).update(
                    b as int,
                    pair.1@,
                ));
                if coincident {
                    lemma_draws_extend(drawn_before, (sa@, sb@));
                }
                lemma_pair_advance(
                    init,
                    rv,
                    policy,
                    cur,
                    a as int,
                    b as int,
                    drawn_before,
                    drawn,
                    (sa@, sb@),
                    motions_view(bodies@),
                );
            }
            b = b + 1;
        }
        proof {
            assert forall|rest: Seq<(IVec, IVec)>| #[trigger]
                collide_from(init, rv, policy, 0, 0, drawn + rest) == collide_from(
                    motions_view(bodies@),
                    rv,
                    policy,
                    a + 1,
                    0,
                    rest,
                ) by {
                assert(collide_from(init, rv, policy, 0, 0, drawn + rest) == collide_from(
                    motions_view(bodies@),
                    rv,
                    policy,
                    a as int,
                    a as int,
                    rest,
                ));
            }
        }
        a = a + 1;
    }
    proof {
        assert(drawn + Seq::empty() =~= drawn);
        assert(collide_from(init, rv, policy, 0, 0, drawn + Seq::empty()) == collide_from(
            motions_view(bodies@),
            rv,
            policy,
            n as int,
            0,
            Seq::empty(),
        ));
        assert(collide_all(init, rv, policy, drawn) == motions_view(bodies@));
    }
}

} // verus!
