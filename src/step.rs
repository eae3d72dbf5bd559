use vstd::prelude::*;

use crate::bounds::{reflect, reflect_spec, Boundary};
use crate::collision::ResolutionPolicy;
use crate::arith::lemma_mul_within;
use crate::limits::{MAX_COORD, MAX_DT, MAX_PARTICLES, MAX_RADIUS, MAX_SPEED, WORK_COORD};
use crate::motion::{
    integrate, integrate_spec, lemma_component_within, speed_ok, Motion, MotionView,
};
use crate::pass::{
    bodies_within, collide_all, entry_coord, motions_view, radii_ok, radii_view,
    resolve_collisions, valid_draws,
};
use crate::vector::{within, IVec, Vec3};

verus! {

/// A simulated disc: a stable identifier, its state, and its effective radius
/// (collider radius times the current visual scale, computed by the host).
#[derive(Clone, Copy, Debug, PartialEq, Eq, Structural)]
pub struct Particle {
    pub id: u32,
    pub position: Vec3,
    pub velocity: Vec3,
    pub radius: i64,
}

impl Particle {
    pub fn new(id: u32, position: Vec3, velocity: Vec3, radius: i64) -> (r: Particle)
        ensures
            r.id == id,
            r.position == position,
            r.velocity == velocity,
            r.radius == radius,
    {
        Particle { id, position, velocity, radius }
    }

    /// Within the limits that a step accepts.
    pub open spec fn valid(&self) -> bool {
        within(self.position@, MAX_COORD as int) && speed_ok(self.velocity@) && 0 <= self.radius
            <= MAX_RADIUS
    }

    /// Tells whether the particle is within the limits that a step accepts.
    pub fn is_valid(&self) -> (r: bool)
        ensures
            r == self.valid(),
    {
        let p = self.position;
        let in_range = -MAX_COORD <= p.x && p.x <= MAX_COORD && -MAX_COORD <= p.y && p.y
            <= MAX_COORD && -MAX_COORD <= p.z && p.z <= MAX_COORD;
        in_range && speed_within_limit(self.velocity) && 0 <= self.radius && self.radius
            <= MAX_RADIUS
    }
}

/// Tells whether a velocity's speed is within the limit.
pub fn speed_within_limit(v: Vec3) -> (r: bool)
    ensures
        r == speed_ok(v@),
{
    proof {
        reveal(speed_ok);
    }
    let m = MAX_SPEED;
    if v.x < -m || v.x > m || v.y < -m || v.y > m || v.z < -m || v.z > m {
        proof {
            if speed_ok(v@) {
                lemma_component_within(v@, MAX_SPEED as int);
            }
        }
        return false;
    }
    proof {
        lemma_mul_within(v.x as int, v.x as int, MAX_SPEED as int, MAX_SPEED as int);
        lemma_mul_within(v.y as int, v.y as int, MAX_SPEED as int, MAX_SPEED as int);
        lemma_mul_within(v.z as int, v.z as int, MAX_SPEED as int, MAX_SPEED as int);
    }
    let x = v.x as i128;
    let y = v.y as i128;
    let z = v.z as i128;
    let mi = m as i128;
    x * x + y * y + z * z <= mi * mi
}

/// The frame snapshot of a particle collection: position and velocity, in order.
pub open spec fn snapshot_of(ps: Seq<Particle>) -> Seq<MotionView> {
    ps.map_values(|p: Particle| MotionView { pos: p.position@, vel: p.velocity@ })
}

pub open spec fn radii_of(ps: Seq<Particle>) -> Seq<int> {
    ps.map_values(|p: Particle| p.radius as int)
}

/// One step on a snapshot: integrate every entry, run the collision pass, then
/// reflect every entry off the walls.
pub open spec fn step_spec(
    bodies: Seq<MotionView>,
    radii: Seq<int>,
    dt: int,
    bounds: Boundary,
    policy: ResolutionPolicy,
    draws: Seq<(IVec, IVec)>,
) -> Seq<MotionView> {
    let moved = bodies.map_values(|m: MotionView| integrate_spec(m, dt));
    let collided = collide_all(moved, radii, policy, draws);
    collided.map(|i: int, m: MotionView| reflect_spec(m, radii[i], bounds))
}

/// Integrates every entry of a snapshot.
pub fn integrate_all(bodies: &mut Vec<Motion>, dt: i64)
    requires
        0 <= dt <= MAX_DT,
        bodies_within(old(bodies)@, MAX_COORD as int),
    ensures
        final(bodies).len() == old(bodies).len(),
        motions_view(final(bodies)@) == motions_view(old(bodies)@).map_values(
            |m: MotionView| integrate_spec(m, dt as int),
        ),
        bodies_within(final(bodies)@, entry_coord()),
{
    let ghost start = bodies@;
    let n = bodies.len();
    let mut i: usize = 0;
    while i < n
        invariant
            0 <= i <= n,
            n == bodies.len(),
            start.len() == n,
            0 <= dt <= MAX_DT,
            bodies_within(start, MAX_COORD as int),
            forall|j: int| i <= j < n ==> #[trigger] bodies[j] == start[j],
            forall|j: int|
                0 <= j < i ==> #[trigger] bodies[j]@ == integrate_spec(start[j]@, dt as int),
            forall|j: int|
                0 <= j < i ==> within(#[trigger] bodies[j].position@, entry_coord()) && speed_ok(
                    bodies[j].velocity@,
                ),
        decreases n - i,
    {
        let m = bodies[i];
        assert(m == start[i as int]);
        let moved = integrate(m, dt);
        bodies.set(i, moved);
        i = i + 1;
    }
    assert(motions_view(bodies@) =~= motions_view(start).map_values(
        |m: MotionView| integrate_spec(m, dt as int),
    ));
}

/// Reflects every entry of a snapshot off the walls, each with its own radius.
pub fn reflect_all(bodies: &mut Vec<Motion>, radii: &Vec<i64>, bounds: &Boundary)
    requires
        old(bodies).len() == radii.len(),
        bounds.valid(),
        radii_ok(radii@),
        bodies_within(old(bodies)@, WORK_COORD as int),
    ensures
        final(bodies).len() == old(bodies).len(),
        motions_view(final(bodies)@) == motions_view(old(bodies)@).map(
            |i: int, m: MotionView| reflect_spec(m, radii_view(radii@)[i], *bounds),
        ),
        bodies_within(final(bodies)@, MAX_COORD as int),
{
    let ghost start = bodies@;
    let n = bodies.len();
    let mut i: usize = 0;
    while i < n
        invariant
            0 <= i <= n,
            n == bodies.len(),
            n == radii.len(),
            start.len() == n,
            bounds.valid(),
            forall|j: int| 0 <= j < n ==> 0 <= #[trigger] radii[j] <= MAX_RADIUS,
            bodies_within(start, WORK_COORD as int),
            forall|j: int| i <= j < n ==> #[trigger] bodies[j] == start[j],
            forall|j: int|
                0 <= j < i ==> #[trigger] bodies[j]@ == reflect_spec(
                    start[j]@,
                    radii[j] as int,
                    *bounds,
                ),
            forall|j: int|
                0 <= j < i ==> within(#[trigger] bodies[j].position@, MAX_COORD as int) && speed_ok(
                    bodies[j].velocity@,
                ),
        decreases n - i,
    {
        let m = bodies[i];
        assert(m == start[i as int]);
        let out = reflect(m, radii[i], bounds);
        bodies.set(i, out);
        i = i + 1;
    }
    assert(motions_view(bodies@) =~= motions_view(start).map(
        |i: int, m: MotionView| reflect_spec(m, radii_view(radii@)[i], *bounds),
    ));
}

/// Copies positions, velocities and radii out of a particle collection.
fn take_snapshot(particles: &Vec<Particle>) -> (r: (Vec<Motion>, Vec<i64>))
    requires
        forall|i: int| 0 <= i < particles.len() ==> #[trigger] particles[i].valid(),
    ensures
        r.0.len() == particles.len(),
        r.1.len() == particles.len(),
        motions_view(r.0@) == snapshot_of(particles@),
        radii_view(r.1@) == radii_of(particles@),
        bodies_within(r.0@, MAX_COORD as int),
        radii_ok(r.1@),
{
    let n = particles.len();
    let mut bodies: Vec<Motion> = Vec::new();
    let mut radii: Vec<i64> = Vec::new();
    let mut i: usize = 0;
    while i < n
        invariant
            0 <= i <= n,
            n == particles.len(),
            bodies.len() == i,
            radii.len() == i,
            forall|j: int| 0 <= j < n ==> #[trigger] particles[j].valid(),
            forall|j: int|
                0 <= j < i ==> #[trigger] bodies[j].position == particles[j].position
                    && bodies[j].velocity == particles[j].velocity,
            forall|j: int| 0 <= j < i ==> #[trigger] radii[j] == particles[j].radius,
        decreases n - i,
    {
        let p = particles[i];
        bodies.push(Motion { position: p.position, velocity: p.velocity });
        radii.push(p.radius);
        i = i + 1;
    }
    assert(motions_view(bodies@) =~= snapshot_of(particles@));
    assert(radii_view(radii@) =~= radii_of(particles@));
    assert forall|j: int| 0 <= j < n implies within(
        #[trigger] bodies[j].position@,
        MAX_COORD as int,
    ) && speed_ok(bodies[j].velocity@) by {
        assert(particles[j].valid());
    }
    assert forall|j: int| 0 <= j < n implies 0 <= #[trigger] radii[j] <= MAX_RADIUS by {
        assert(particles[j].valid());
    }
    (bodies, radii)
}

/// Copies a snapshot's positions and velocities back onto the particles.
fn write_back(particles: &mut Vec<Particle>, bodies: &Vec<Motion>)
    requires
        old(particles).len() == bodies.len(),
        forall|i: int| 0 <= i < old(particles).len() ==> #[trigger] old(particles)[i].valid(),
        bodies_within(bodies@, MAX_COORD as int),
    ensures
        final(particles).len() == old(particles).len(),
        snapshot_of(final(particles)@) == motions_view(bodies@),
        forall|i: int|
            0 <= i < final(particles).len() ==> #[trigger] final(particles)[i].valid()
                && final(particles)[i].id == old(particles)[i].id && final(particles)[i].radius
                == old(particles)[i].radius,
{
    let ghost start = particles@;
    let n = particles.len();
    let mut k: usize = 0;
    while k < n
        invariant
            0 <= k <= n,
            n == particles.len(),
            n == bodies.len(),
            start.len() == n,
            bodies_within(bodies@, MAX_COORD as int),
            forall|j: int| 0 <= j < n ==> #[trigger] start[j].valid(),
            forall|j: int| k <= j < n ==> #[trigger] particles[j] == start[j],
            forall|j: int|
                0 <= j < k ==> #[trigger] particles[j].position == bodies[j].position
                    && particles[j].velocity == bodies[j].velocity && particles[j].id == start[j].id
                    && particles[j].radius == start[j].radius,
        decreases n - k,
    {
        let mut p = particles[k];
        p.position = bodies[k].position;
        p.velocity = bodies[k].velocity;
        particles.set(k, p);
        k = k + 1;
    }
    assert forall|j: int| 0 <= j < n implies #[trigger] particles[j].valid() by {
        assert(start[j].valid());
        assert(within(bodies[j].position@, MAX_COORD as int));
        assert(particles[j].position == bodies[j].position);
        assert(within(particles[j].position@, MAX_COORD as int));
        assert(speed_ok(particles[j].velocity@));
        assert(0 <= particles[j].radius <= MAX_RADIUS);
    }
    assert(snapshot_of(particles@) =~= motions_view(bodies@));
}

/// Advances every particle by one step of `dt` inside `bounds`: integrate, resolve
/// collisions pair by pair in collection order, reflect off the walls, and write
/// the snapshot back. Identifiers and radii are untouched. Coincident pairs escape
/// along random directions, so the outcome is the step for some valid draws.
pub fn step(dt: i64, bounds: &Boundary, policy: ResolutionPolicy, particles: &mut Vec<Particle>)
    requires
        old(particles).len() <= MAX_PARTICLES,
        forall|i: int| 0 <= i < old(particles).len() ==> #[trigger] old(particles)[i].valid(),
        0 <= dt <= MAX_DT,
        bounds.valid(),
    ensures
        final(particles).len() == old(particles).len(),
        forall|i: int|
            0 <= i < final(particles).len() ==> #[trigger] final(particles)[i].valid()
                && final(particles)[i].id == old(particles)[i].id && final(particles)[i].radius
                == old(particles)[i].radius,
        exists|draws: Seq<(IVec, IVec)>|
            valid_draws(draws) && #[trigger] step_spec(
                snapshot_of(old(particles)@),
                radii_of(old(particles)@),
                dt as int,
                *bounds,
                policy,
                draws,
            ) == snapshot_of(final(particles)@),
{
    let ghost start = particles@;
    let (mut bodies, radii) = take_snapshot(particles);
    integrate_all(&mut bodies, dt);
    let ghost moved = motions_view(bodies@);
    resolve_collisions(&mut bodies, &radii, policy);
    let ghost draws = choose|draws: Seq<(IVec, IVec)>|
        valid_draws(draws) && #[trigger] collide_all(moved, radii_view(radii@), policy, draws)
            == motions_view(bodies@);
    reflect_all(&mut bodies, &radii, bounds);
    write_back(particles, &bodies);
    assert(step_spec(snapshot_of(start), radii_of(start), dt as int, *bounds, policy, draws)
        == snapshot_of(particles@));
}

} // verus!
