use particle_sim::arith::{ceil_isqrt, div_away_exec, div_toward_exec, floor_isqrt};
use particle_sim::{
    escape_directions, integrate, reflect, resolve_pair, step, Boundary, Motion, Particle,
    ResolutionPolicy, Vec3,
};

fn v(x: i64, y: i64, z: i64) -> Vec3 {
    Vec3::new(x, y, z)
}

fn dist2(a: Vec3, b: Vec3) -> i128 {
    let dx = (a.x - b.x) as i128;
    let dy = (a.y - b.y) as i128;
    let dz = (a.z - b.z) as i128;
    dx * dx + dy * dy + dz * dz
}

fn norm2(a: Vec3) -> i128 {
    dist2(a, v(0, 0, 0))
}

fn wide() -> Boundary {
    Boundary::new(200_000, 200_000)
}

#[test]
fn head_on_pair_swaps_and_separates() {
    let mut ps = vec![
        Particle::new(1, v(-1000, 0, 0), v(50, 0, 0), 1000),
        Particle::new(2, v(1000, 0, 0), v(-50, 0, 0), 1000),
    ];
    step(20, &wide(), ResolutionPolicy::SwapVelocities, &mut ps);
    assert_eq!(ps[0].velocity, v(-50, 0, 0));
    assert_eq!(ps[1].velocity, v(50, 0, 0));
    assert!(dist2(ps[0].position, ps[1].position) >= 2000 * 2000);
    assert_eq!(ps[0].position.z, 0);
    assert_eq!(ps[1].position.z, 0);
    assert_eq!(ps[0].id, 1);
    assert_eq!(ps[1].id, 2);
}

#[test]
fn lone_particle_moves_by_velocity_times_dt() {
    let mut ps = vec![Particle::new(7, v(100, 200, 7), v(30, -40, 5), 1000)];
    step(16, &wide(), ResolutionPolicy::SwapVelocities, &mut ps);
    assert_eq!(ps[0].position, v(580, -440, 0));
    assert_eq!(ps[0].velocity, v(30, -40, 5));
    assert_eq!(ps[0].radius, 1000);
}

#[test]
fn right_wall_reflects_and_pulls_back() {
    let mut ps = vec![Particle::new(1, v(99_005, 0, 0), v(300, 0, 0), 1000)];
    step(0, &wide(), ResolutionPolicy::SwapVelocities, &mut ps);
    assert_eq!(ps[0].velocity.x, -300);
    assert!(ps[0].position.x <= 100_000 - 1000);
    assert_eq!(ps[0].position, v(99_000, 0, 0));
}

#[test]
fn left_wall_flips_x_and_zeroes_z_velocity() {
    let m = Motion::new(v(-99_500, 0, 0), v(-10, 20, 3));
    let out = reflect(m, 1000, &wide());
    assert_eq!(out.position, v(-99_000, 0, 0));
    assert_eq!(out.velocity, v(10, 20, 0));
}

#[test]
fn corner_flips_both_axes() {
    let m = Motion::new(v(99_900, 99_900, 0), v(5, 7, 0));
    let out = reflect(m, 1000, &wide());
    assert_eq!(out.position, v(99_000, 99_000, 0));
    assert_eq!(out.velocity, v(-5, -7, 0));
}

#[test]
fn bottom_wall_flips_y() {
    let m = Motion::new(v(10, -99_999, 4), v(1, -2, 3));
    let out = reflect(m, 1000, &wide());
    assert_eq!(out.position, v(10, -99_000, 0));
    assert_eq!(out.velocity, v(1, 2, 0));
}

#[test]
fn inside_particle_is_not_reflected() {
    let m = Motion::new(v(10, 20, 0), v(1, -2, 3));
    let out = reflect(m, 1000, &wide());
    assert_eq!(out.position, v(10, 20, 0));
    assert_eq!(out.velocity, v(1, -2, 3));
}

#[test]
fn overlapping_pair_ends_apart() {
    let a = Motion::new(v(0, 0, 0), v(30, 40, 0));
    let b = Motion::new(v(300, 400, 0), v(0, -70, 0));
    let (na, nb) = resolve_pair(a, b, 400, 600, ResolutionPolicy::SwapVelocities, v(0, 0, 0), v(0, 0, 0));
    assert_eq!(na.position, v(-300, -400, 0));
    assert_eq!(nb.position, v(600, 800, 0));
    assert!(dist2(na.position, nb.position) >= 1000 * 1000);
}

#[test]
fn swap_exchanges_speeds() {
    let a = Motion::new(v(0, 0, 0), v(30, 40, 0));
    let b = Motion::new(v(300, 400, 0), v(0, -70, 0));
    let (na, nb) = resolve_pair(a, b, 400, 600, ResolutionPolicy::SwapVelocities, v(0, 0, 0), v(0, 0, 0));
    assert_eq!(na.velocity, v(0, -70, 0));
    assert_eq!(nb.velocity, v(30, 40, 0));
    assert_eq!(norm2(na.velocity), norm2(b.velocity));
    assert_eq!(norm2(nb.velocity), norm2(a.velocity));
}

#[test]
fn redirect_keeps_own_speed_and_points_away() {
    let a = Motion::new(v(0, 0, 0), v(30, 40, 0));
    let b = Motion::new(v(300, 400, 0), v(0, -70, 0));
    let (na, nb) = resolve_pair(a, b, 400, 600, ResolutionPolicy::RedirectOwnSpeed, v(0, 0, 0), v(0, 0, 0));
    assert_eq!(na.velocity, v(-30, -40, 0));
    assert_eq!(nb.velocity, v(42, 56, 0));
    assert_eq!(na.position, v(-300, -400, 0));
    assert_eq!(nb.position, v(600, 800, 0));
}

#[test]
fn separated_pair_is_untouched() {
    let a = Motion::new(v(0, 0, 0), v(1, 2, 0));
    let b = Motion::new(v(3000, 0, 0), v(3, 4, 0));
    let (na, nb) = resolve_pair(a, b, 1000, 1000, ResolutionPolicy::SwapVelocities, v(0, 0, 0), v(0, 0, 0));
    assert_eq!(na, a);
    assert_eq!(nb, b);
}

#[test]
fn touching_pair_swaps_without_moving() {
    let a = Motion::new(v(0, 0, 0), v(1, 2, 0));
    let b = Motion::new(v(2000, 0, 0), v(3, 4, 0));
    let (na, nb) = resolve_pair(a, b, 1000, 1000, ResolutionPolicy::SwapVelocities, v(0, 0, 0), v(0, 0, 0));
    assert_eq!(na.position, v(0, 0, 0));
    assert_eq!(nb.position, v(2000, 0, 0));
    assert_eq!(na.velocity, v(3, 4, 0));
    assert_eq!(nb.velocity, v(1, 2, 0));
}

#[test]
fn coincident_pair_uses_samples_and_separates() {
    let a = Motion::new(v(0, 0, 0), v(0, 0, 0));
    let b = Motion::new(v(0, 0, 0), v(0, 0, 0));
    let (na, nb) = resolve_pair(a, b, 1000, 1000, ResolutionPolicy::SwapVelocities, v(3, 4, 0), v(4, -3, 0));
    assert_eq!(na.position, v(1200, 1600, 0));
    assert_eq!(nb.position, v(1600, -1200, 0));
    assert!(dist2(na.position, nb.position) >= 2000 * 2000);
}

#[test]
fn equal_samples_give_distinct_directions() {
    let (ua, ub) = escape_directions(v(3, 4, 0), v(3, 4, 0), 2000);
    assert_eq!(ua, v(3, 4, 0));
    assert_eq!(ub, v(-3, -4, 0));
}

#[test]
fn zero_samples_give_non_zero_directions() {
    let (ua, ub) = escape_directions(v(0, 0, 0), v(0, 0, 0), 2000);
    assert_eq!(ua, v(1, 0, 0));
    assert_eq!(ub, v(-1, 0, 0));
}

#[test]
fn close_samples_fall_back_to_opposite() {
    let (ua, ub) = escape_directions(v(3, 4, 0), v(4, 3, 0), 2000);
    assert_eq!(ua, v(3, 4, 0));
    assert_eq!(ub, v(-3, -4, 0));
}

#[test]
fn wide_samples_are_kept() {
    let (ua, ub) = escape_directions(v(3, 4, 0), v(4, -3, 0), 2000);
    assert_eq!(ua, v(3, 4, 0));
    assert_eq!(ub, v(4, -3, 0));
}

#[test]
fn zero_radius_coincident_directions_still_differ() {
    let (ua, ub) = escape_directions(v(3, 4, 0), v(3, 4, 0), 0);
    assert_ne!(ua, ub);
    assert_ne!(ua, v(0, 0, 0));
    assert_ne!(ub, v(0, 0, 0));
}

#[test]
fn coincident_particles_escape_at_random() {
    let mut moved_off_axis = false;
    for _ in 0..8 {
        let mut ps = vec![
            Particle::new(1, v(0, 0, 0), v(0, 0, 0), 1000),
            Particle::new(2, v(0, 0, 0), v(0, 0, 0), 1000),
        ];
        step(0, &wide(), ResolutionPolicy::SwapVelocities, &mut ps);
        assert!(dist2(ps[0].position, ps[1].position) >= 2000 * 2000);
        assert_ne!(ps[0].position, ps[1].position);
        if ps[1].position.y != 0 {
            moved_off_axis = true;
        }
    }
    assert!(moved_off_axis);
}

#[test]
fn zero_dt_twice_leaves_resting_particle() {
    let start = Particle::new(3, v(1234, -5678, 0), v(70, -80, 9), 500);
    let mut ps = vec![start];
    step(0, &wide(), ResolutionPolicy::RedirectOwnSpeed, &mut ps);
    step(0, &wide(), ResolutionPolicy::RedirectOwnSpeed, &mut ps);
    assert_eq!(ps[0], start);
}

#[test]
fn pairs_read_earlier_corrections() {
    let mut ps = vec![
        Particle::new(0, v(0, 0, 0), v(0, 0, 0), 1000),
        Particle::new(1, v(1500, 0, 0), v(0, 0, 0), 1000),
        Particle::new(2, v(-1500, 0, 0), v(0, 0, 0), 1000),
    ];
    step(0, &wide(), ResolutionPolicy::SwapVelocities, &mut ps);
    assert_eq!(ps[0].position, v(500, 0, 0));
    assert_eq!(ps[1].position, v(2000, 0, 0));
    assert_eq!(ps[2].position, v(-2500, 0, 0));
}

#[test]
fn integrate_flattens_z() {
    let out = integrate(Motion::new(v(1, 2, 3), v(10, -20, 30)), 5);
    assert_eq!(out.position, v(51, -98, 0));
    assert_eq!(out.velocity, v(10, -20, 30));
}

#[test]
fn boundary_edges_are_half_extents() {
    let b = Boundary::new(201, 100);
    assert_eq!(b.left(), -100);
    assert_eq!(b.right(), 100);
    assert_eq!(b.bottom(), -50);
    assert_eq!(b.top(), 50);
}

#[test]
fn square_roots_round_as_named() {
    assert_eq!(floor_isqrt(0), 0);
    assert_eq!(floor_isqrt(15), 3);
    assert_eq!(floor_isqrt(16), 4);
    assert_eq!(floor_isqrt(17), 4);
    assert_eq!(floor_isqrt(1_000_000_000_000_000_000), 1_000_000_000);
    assert_eq!(ceil_isqrt(15), 4);
    assert_eq!(ceil_isqrt(16), 4);
    assert_eq!(ceil_isqrt(17), 5);
}

#[test]
fn divisions_round_as_named() {
    assert_eq!(div_away_exec(7, 2), 4);
    assert_eq!(div_away_exec(-7, 2), -4);
    assert_eq!(div_away_exec(6, 2), 3);
    assert_eq!(div_away_exec(0, 3), 0);
    assert_eq!(div_toward_exec(7, 2), 3);
    assert_eq!(div_toward_exec(-7, 2), -3);
}

#[test]
fn redirect_policy_through_step() {
    let mut ps = vec![
        Particle::new(1, v(0, 0, 0), v(30, 40, 0), 400),
        Particle::new(2, v(300, 400, 0), v(0, -70, 0), 600),
    ];
    step(0, &wide(), ResolutionPolicy::RedirectOwnSpeed, &mut ps);
    assert_eq!(ps[0].position, v(-300, -400, 0));
    assert_eq!(ps[1].position, v(600, 800, 0));
    assert_eq!(ps[0].velocity, v(-30, -40, 0));
    assert_eq!(ps[1].velocity, v(42, 56, 0));
}
