use fracture2d::bond::evaluate_bond;
use fracture2d::contact::{contact, is_movable};
use fracture2d::fixed::{Fixed, SCALE};
use fracture2d::particle::{Bond, Material, Particle};
use fracture2d::scene::{form_bonds, range};
use fracture2d::scheduler::{substeps, timestep, BATCH};
use fracture2d::simulation::Simulation;
use fracture2d::vec2::Vec2;

fn fx(v: f64) -> Fixed {
    Fixed::from_raw((v * 18446744073709551616.0) as i128)
}

fn fl(x: Fixed) -> f64 {
    x.raw() as f64 / 18446744073709551616.0
}

fn close(a: f64, b: f64, tol: f64) -> bool {
    (a - b).abs() <= tol * (1.0 + a.abs().max(b.abs()))
}

fn radius() -> Fixed {
    Fixed::from_ratio(2, 100)
}

fn stiffness() -> Fixed {
    Fixed::from_int(10_000_000)
}

fn material() -> Material {
    Material { kn: stiffness(), radius: radius() }
}

fn inverse_mass() -> Fixed {
    Fixed::from_ratio(13, 100_000).div(radius().mul(radius()))
}

fn inverse_moment() -> Fixed {
    let r2 = radius().mul(radius());
    Fixed::from_ratio(26, 100_000).div(r2.mul(r2))
}

fn grain(x: Fixed, y: Fixed) -> Particle {
    Particle::new(inverse_mass(), inverse_moment(), radius(), Vec2::new(x, y))
}

fn wall(x: Fixed, y: Fixed) -> Particle {
    Particle::new(Fixed::zero(), Fixed::zero(), radius(), Vec2::new(x, y))
}

fn step_length() -> Fixed {
    let fps = Fixed::from_int(60);
    timestep(fps, substeps(fps, stiffness(), radius()))
}

#[test]
fn new_particle_is_at_rest() {
    let p = grain(Fixed::from_int(1), Fixed::from_int(2));
    assert!(p.bonds.is_empty());
    assert_eq!(p.angle.raw(), 0);
    assert_eq!(p.angvel.raw(), 0);
    assert_eq!(p.angvel_mid.raw(), 0);
    assert_eq!(p.torque.raw(), 0);
    assert_eq!(p.velocity, Vec2::zero());
    assert_eq!(p.velocity_mid, Vec2::zero());
    assert_eq!(p.force, Vec2::zero());
    assert_eq!(p.position, Vec2::new(Fixed::from_int(1), Fixed::from_int(2)));
    assert_eq!(p.radius, radius());
}

#[test]
fn new_bond_is_unbroken() {
    let b = Bond::new(7, radius(), Vec2::new(Fixed::one(), Fixed::zero()), fx(1.0), fx(2.0));
    assert!(!b.broken);
    assert_eq!(b.endpoint, 7);
    assert_eq!(b.rest_length, radius());
    assert_eq!(b.max_normal_force, fx(1.0));
    assert_eq!(b.max_tangent_force, fx(2.0));
}

#[test]
fn movable_needs_inverse_mass_above_the_threshold() {
    assert!(is_movable(&grain(Fixed::zero(), Fixed::zero())));
    assert!(!is_movable(&wall(Fixed::zero(), Fixed::zero())));
    let mut p = wall(Fixed::zero(), Fixed::zero());
    p.inverse_mass = fx(1.0e-6);
    assert!(!is_movable(&p));
    p.inverse_mass = fx(1.1e-6);
    assert!(is_movable(&p));
}

#[test]
fn contact_force_of_two_resting_particles() {
    // Overlap 0.001: the force is kn * overlap along the line of centres.
    let a = grain(Fixed::zero(), Fixed::zero());
    let b = grain(Fixed::from_ratio(39, 1000), Fixed::zero());
    let f = contact(&a, &b, stiffness());
    assert!(close(fl(f.x), -1.0e4, 1e-9), "{}", fl(f.x));
    assert_eq!(f.y.raw(), 0);
}

#[test]
fn contact_force_with_damping() {
    let mut a = grain(fx(0.1), fx(0.2));
    let mut b = grain(fx(0.12), fx(0.23));
    a.velocity = Vec2::new(fx(0.5), fx(-0.25));
    b.velocity = Vec2::new(fx(-1.0), fx(0.75));
    let f = contact(&a, &b, stiffness());
    let (dx, dy) = (0.1 - 0.12, 0.2 - 0.23);
    let len = f64::sqrt(dx * dx + dy * dy);
    let o = 0.04 - len;
    let (nx, ny) = (dx / len, dy / len);
    let im = 1.3e-4 / 4.0e-4;
    let damp = 1.4 * f64::sqrt(1.0e7 / (im + im));
    let closing = (-1.0 - 0.5) * nx + (0.75 + 0.25) * ny;
    let size = 1.0e7 * o + damp * closing;
    assert!(close(fl(f.x), nx * size, 1e-9), "{} against {}", fl(f.x), nx * size);
    assert!(close(fl(f.y), ny * size, 1e-9), "{} against {}", fl(f.y), ny * size);
}

#[test]
fn contact_force_is_zero_for_particles_apart() {
    let a = grain(Fixed::zero(), Fixed::zero());
    let b = grain(Fixed::from_ratio(41, 1000), Fixed::zero());
    assert_eq!(contact(&a, &b, stiffness()), Vec2::zero());
    // Exactly touching is not yet a contact.
    let c = grain(radius().add(radius()), Fixed::zero());
    assert_eq!(contact(&a, &c, stiffness()), Vec2::zero());
}

#[test]
fn contact_force_is_zero_across_a_diagonal_gap() {
    // Within reach along each axis, yet apart: 0.03 * sqrt(2) > 0.04.
    let a = grain(Fixed::zero(), Fixed::zero());
    let b = grain(Fixed::from_ratio(3, 100), Fixed::from_ratio(3, 100));
    assert_eq!(contact(&a, &b, stiffness()), Vec2::zero());
    let c = grain(Fixed::from_ratio(28, 1000), Fixed::from_ratio(28, 1000));
    assert!(contact(&a, &c, stiffness()).x.raw() < 0);
}

#[test]
fn contact_force_on_coincident_centres_is_zero() {
    // There is no direction to push along.
    let a = grain(Fixed::from_int(1), Fixed::from_int(1));
    let b = grain(Fixed::from_int(1), Fixed::from_int(1));
    assert_eq!(contact(&a, &b, stiffness()), Vec2::zero());
}

#[test]
fn contact_forces_are_equal_and_opposite() {
    let mut a = grain(fx(0.31), fx(0.52));
    let mut b = wall(fx(0.335), fx(0.5));
    a.velocity = Vec2::new(fx(0.3), fx(0.1));
    b.velocity = Vec2::new(fx(-0.2), fx(0.9));
    let f = contact(&a, &b, stiffness());
    let g = contact(&b, &a, stiffness());
    assert!(f.x.raw() != 0);
    assert_eq!(f.x.raw(), -g.x.raw());
    assert_eq!(f.y.raw(), -g.y.raw());
}

#[test]
fn relaxed_bond_carries_nothing() {
    let a = grain(Fixed::zero(), Fixed::zero());
    let b = grain(Fixed::from_ratio(4, 100), Fixed::zero());
    let l = b.position.sub(a.position);
    let bond = Bond::new(1, l.length(), l.normalize(), fx(7.0e5), fx(7.0e5));
    let e = evaluate_bond(&a, &b, &bond, &material());
    assert_eq!(e.force, Vec2::zero());
    assert_eq!(e.torque.raw(), 0);
    assert!(!e.breaks);
}

#[test]
fn stretched_bond_pulls_along_its_axis() {
    let a = grain(Fixed::zero(), Fixed::zero());
    let b = grain(Fixed::zero(), Fixed::from_ratio(41, 1000));
    let bond = Bond::new(
        1,
        Fixed::from_ratio(4, 100),
        Vec2::new(Fixed::zero(), Fixed::one()),
        fx(7.0e5),
        fx(7.0e5),
    );
    let e = evaluate_bond(&a, &b, &bond, &material());
    assert_eq!(e.force.x.raw(), 0);
    assert!(close(fl(e.force.y), 1.0e7 * 0.001, 1e-9), "{}", fl(e.force.y));
    assert_eq!(e.torque.raw(), 0);
    // Normal stress: 1e4 / 0.04 = 2.5e5, below the threshold.
    assert!(!e.breaks);
}

#[test]
fn compressed_bond_pushes_back() {
    let a = grain(Fixed::zero(), Fixed::zero());
    let b = grain(Fixed::from_ratio(39, 1000), Fixed::zero());
    let bond = Bond::new(
        1,
        Fixed::from_ratio(4, 100),
        Vec2::new(Fixed::one(), Fixed::zero()),
        fx(7.0e5),
        fx(7.0e5),
    );
    let e = evaluate_bond(&a, &b, &bond, &material());
    assert!(close(fl(e.force.x), -1.0e4, 1e-9), "{}", fl(e.force.x));
    assert_eq!(e.force.y.raw(), 0);
    assert!(!e.breaks);
}

#[test]
fn bond_breaks_under_too_much_tension() {
    let a = grain(Fixed::zero(), Fixed::zero());
    // Stretch 0.004: normal stress 4e4 / 0.04 = 1e6, above 7e5.
    let b = grain(Fixed::from_ratio(44, 1000), Fixed::zero());
    let bond = Bond::new(
        1,
        Fixed::from_ratio(4, 100),
        Vec2::new(Fixed::one(), Fixed::zero()),
        fx(7.0e5),
        fx(7.0e5),
    );
    assert!(evaluate_bond(&a, &b, &bond, &material()).breaks);
    // The same compression does not break it.
    let c = grain(Fixed::from_ratio(36, 1000), Fixed::zero());
    assert!(!evaluate_bond(&a, &c, &bond, &material()).breaks);
}

#[test]
fn bent_bond_matches_the_formulas() {
    let mut a = grain(fx(0.2), fx(0.3));
    let mut b = grain(fx(0.239), fx(0.304));
    a.angle = fx(0.01);
    b.angle = fx(-0.02);
    let bond = Bond::new(
        1,
        Fixed::from_ratio(4, 100),
        Vec2::new(Fixed::one(), Fixed::zero()),
        fx(7.0e5),
        fx(7.0e5),
    );
    let e = evaluate_bond(&a, &b, &bond, &material());
    let (kn, r) = (1.0e7, 0.02);
    let (lx, ly) = (0.239 - 0.2, 0.304 - 0.3);
    let len = f64::sqrt(lx * lx + ly * ly);
    let (nx, ny) = (lx / len, ly / len);
    let (tx, ty) = (-ny, nx);
    let dl = len - 0.04;
    let qb = f64::atan2(0.0, 1.0) - f64::atan2(ny, nx);
    let ti = qb + 0.01;
    let tj = qb - 0.02;
    let fnx = nx * kn * dl;
    let fny = ny * kn * dl;
    let c = -kn / 3.0 * r * r / len * (ti + tj);
    let torque = kn / 6.0 * r * r * (tj - 3.0 * ti);
    assert!(close(fl(e.force.x), fnx + tx * c, 1e-8), "{} against {}", fl(e.force.x), fnx + tx * c);
    assert!(close(fl(e.force.y), fny + ty * c, 1e-8), "{} against {}", fl(e.force.y), fny + ty * c);
    assert!(close(fl(e.torque), torque, 1e-8), "{} against {}", fl(e.torque), torque);
    let normal = f64::sqrt(fnx * fnx + fny * fny) / (2.0 * r) + (kn / 2.0 * (tj - ti)).abs();
    let tangent = c.abs() / (2.0 * r);
    assert_eq!(e.breaks, (dl > 0.0 && normal > 7.0e5) || tangent > 7.0e5);
}

#[test]
fn bond_breaks_under_too_much_shear() {
    let mut a = grain(Fixed::zero(), Fixed::zero());
    let mut b = grain(Fixed::from_ratio(4, 100), Fixed::zero());
    a.angle = fx(1.0);
    b.angle = fx(1.0);
    let bond = Bond::new(
        1,
        Fixed::from_ratio(4, 100),
        Vec2::new(Fixed::one(), Fixed::zero()),
        fx(7.0e5),
        fx(7.0e5),
    );
    // Tangential stress: kn / 3 * r^2 / |l| * 2 / (2 r) = 1.67e6.
    assert!(evaluate_bond(&a, &b, &bond, &material()).breaks);
}

#[test]
fn substep_count_and_length() {
    let fps = Fixed::from_int(60);
    let count = substeps(fps, stiffness(), radius());
    assert_eq!(count, 555_550);
    let dt = timestep(fps, count);
    assert!(close(fl(dt), 1.0 / 60.0 / 555_550.0, 1e-12), "{}", fl(dt));
    assert_eq!(BATCH, 1000);
}

#[test]
fn substep_count_edge_cases() {
    let fps = Fixed::from_int(60);
    assert_eq!(substeps(fps.neg(), stiffness(), radius()), 0);
    assert_eq!(substeps(fps, stiffness().neg(), radius()), 0);
    // A soft material needs no subdivision at all.
    assert_eq!(substeps(fps, Fixed::from_int(1), Fixed::from_int(1)), 0);
    // With no stable time to speak of, the count saturates.
    assert_eq!(substeps(fps, stiffness(), Fixed::zero()), u64::MAX);
    // Dividing a frame into no sub-steps saturates the length.
    assert_eq!(timestep(fps, 0).raw(), fracture2d::fixed::MAX_RAW);
    assert_eq!(timestep(Fixed::from_int(1), 4).raw(), SCALE / 4);
    // A count beyond the range of a scalar counts as the largest scalar.
    assert_eq!(timestep(Fixed::from_int(1), u64::MAX).raw(), 2);
}

#[test]
fn range_yields_evenly_spaced_values_below_the_end() {
    let r = range(Fixed::zero(), Fixed::one(), Fixed::from_ratio(1, 4));
    let raws: Vec<i128> = r.iter().map(|x| x.raw()).collect();
    assert_eq!(raws, vec![0, SCALE / 4, SCALE / 2, 3 * (SCALE / 4)]);
    assert!(range(Fixed::one(), Fixed::one(), Fixed::one()).is_empty());
    assert!(range(Fixed::from_int(2), Fixed::one(), Fixed::one()).is_empty());
    let one = range(Fixed::from_int(-1), Fixed::from_raw(-SCALE + 1), Fixed::from_raw(1));
    assert_eq!(one.len(), 1);
    assert_eq!(one[0].raw(), -SCALE);
}

#[test]
fn range_stops_at_the_upper_limit() {
    let top = fracture2d::fixed::MAX_RAW;
    let r = range(Fixed::from_raw(top - 5), Fixed::from_raw(top), Fixed::from_raw(2));
    let raws: Vec<i128> = r.iter().map(|x| x.raw()).collect();
    assert_eq!(raws, vec![top - 5, top - 3, top - 1]);
}

#[test]
fn range_of_a_row_of_particles() {
    let r = range(fx(0.1), fx(0.9), radius().add(radius()));
    assert!(r.len() == 20 || r.len() == 21);
    for (k, x) in r.iter().enumerate() {
        assert!(close(fl(*x), 0.1 + 0.04 * k as f64, 1e-12));
        assert!(x.lt(fx(0.9)));
    }
}

#[test]
fn near_particles_are_bonded_both_ways() {
    let mut ps = vec![
        grain(Fixed::zero(), Fixed::zero()),
        grain(Fixed::from_ratio(39, 1000), Fixed::zero()),
        grain(Fixed::from_int(1), Fixed::from_int(1)),
    ];
    form_bonds(&mut ps, &material());
    assert_eq!(ps[0].bonds.len(), 1);
    assert_eq!(ps[1].bonds.len(), 1);
    assert_eq!(ps[2].bonds.len(), 0);
    let b = ps[0].bonds[0];
    assert_eq!(b.endpoint, 1);
    assert!(!b.broken);
    assert_eq!(b.rest_length.raw(), radius().add(radius()).raw());
    assert_eq!(b.initial_direction, Vec2::new(Fixed::one(), Fixed::zero()));
    assert!(close(fl(b.max_normal_force), 0.07 * 1.0e7, 1e-12));
    assert_eq!(b.max_tangent_force, b.max_normal_force);
    let c = ps[1].bonds[0];
    assert_eq!(c.endpoint, 0);
    assert_eq!(c.initial_direction, Vec2::new(Fixed::one().neg(), Fixed::zero()));
}

#[test]
fn bonding_reaches_a_tenth_of_the_radius() {
    // A gap of 0.0019 is within 0.1 * r = 0.002; a gap of 0.0021 is not.
    let mut ps = vec![
        grain(Fixed::zero(), Fixed::zero()),
        grain(Fixed::from_ratio(419, 10_000), Fixed::zero()),
        grain(Fixed::zero(), Fixed::from_ratio(421, 10_000)),
    ];
    form_bonds(&mut ps, &material());
    assert_eq!(ps[0].bonds.len(), 1);
    assert_eq!(ps[0].bonds[0].endpoint, 1);
    assert_eq!(ps[1].bonds.len(), 1);
    assert_eq!(ps[2].bonds.len(), 0);
}

#[test]
fn bonding_keeps_the_order_of_the_neighbours() {
    let d = Fixed::from_ratio(4, 100);
    let mut ps = vec![
        grain(d, Fixed::zero()),
        grain(Fixed::zero(), Fixed::zero()),
        grain(d.add(d), Fixed::zero()),
        grain(d, d),
    ];
    form_bonds(&mut ps, &material());
    let ends: Vec<u32> = ps[0].bonds.iter().map(|b| b.endpoint).collect();
    assert_eq!(ends, vec![1, 2, 3]);
    let ends: Vec<u32> = ps[3].bonds.iter().map(|b| b.endpoint).collect();
    assert_eq!(ends, vec![0]);
}

#[test]
fn simulation_rejects_a_bond_to_its_owner() {
    let mut p = grain(Fixed::zero(), Fixed::zero());
    p.bonds.push(Bond::new(0, radius(), Vec2::new(Fixed::one(), Fixed::zero()), fx(1.0), fx(1.0)));
    assert!(Simulation::new(vec![p], material(), Vec2::zero(), step_length()).is_none());
}

#[test]
fn simulation_rejects_a_bond_out_of_the_store() {
    let mut p = grain(Fixed::zero(), Fixed::zero());
    p.bonds.push(Bond::new(2, radius(), Vec2::new(Fixed::one(), Fixed::zero()), fx(1.0), fx(1.0)));
    let q = grain(Fixed::one(), Fixed::zero());
    assert!(Simulation::new(vec![p, q], material(), Vec2::zero(), step_length()).is_none());
}

#[test]
fn simulation_rejects_bad_lengths() {
    let mut p = grain(Fixed::zero(), Fixed::zero());
    p.radius = Fixed::zero();
    assert!(Simulation::new(vec![p], material(), Vec2::zero(), step_length()).is_none());
    let mut q = grain(Fixed::zero(), Fixed::zero());
    q.bonds.push(Bond::new(1, Fixed::zero(), Vec2::new(Fixed::one(), Fixed::zero()), fx(1.0), fx(1.0)));
    let r = grain(Fixed::one(), Fixed::zero());
    assert!(Simulation::new(vec![q, r], material(), Vec2::zero(), step_length()).is_none());
}

#[test]
fn simulation_accepts_a_bonded_scene() {
    let mut ps = vec![
        grain(Fixed::zero(), Fixed::zero()),
        grain(Fixed::from_ratio(39, 1000), Fixed::zero()),
    ];
    form_bonds(&mut ps, &material());
    let gravity = Vec2::new(Fixed::zero(), fx(-9.8));
    let sim = Simulation::new(ps, material(), gravity, step_length()).unwrap();
    assert_eq!(sim.particles().len(), 2);
    assert_eq!(sim.material(), material());
    assert_eq!(sim.gravity(), gravity);
    assert_eq!(sim.dt(), step_length());
    assert!(Simulation::new(Vec::new(), material(), gravity, step_length()).is_some());
}

#[test]
fn free_fall_follows_the_leapfrog_scheme() {
    let g = fx(-9.8);
    let dt = Fixed::from_ratio(1, 1024);
    let start = Vec2::new(Fixed::from_int(1), Fixed::from_int(2));
    let p = Particle::new(inverse_mass(), inverse_moment(), radius(), start);
    let mut sim = Simulation::new(vec![p], material(), Vec2::new(Fixed::zero(), g), dt).unwrap();
    sim.step();
    {
        let p = &sim.particles()[0];
        // The first drift uses the half-step velocity, which is still zero.
        assert_eq!(p.position, start);
        assert_eq!(p.velocity_mid.y.raw(), g.mul(dt).raw());
        assert_eq!(p.velocity.y.raw(), g.half().mul(dt).raw());
        assert_eq!(p.velocity.x.raw(), 0);
        assert_eq!(p.force, Vec2::zero());
    }
    sim.step();
    let p = &sim.particles()[0];
    let v1 = g.mul(dt);
    assert_eq!(p.position.y.raw(), start.y.add(v1.mul(dt)).raw());
    assert_eq!(p.position.x.raw(), start.x.raw());
    assert_eq!(p.velocity_mid.y.raw(), v1.add(v1).raw());
    assert_eq!(p.velocity.y.raw(), v1.add(g.half().mul(dt)).raw());
}

#[test]
fn spinning_particle_turns_and_wraps() {
    let dt = Fixed::from_int(1);
    let mut p = grain(Fixed::zero(), Fixed::zero());
    p.angle = Fixed::from_int(3);
    p.angvel_mid = Fixed::from_int(1);
    let mut sim = Simulation::new(vec![p], material(), Vec2::zero(), dt).unwrap();
    sim.step();
    let p = &sim.particles()[0];
    let wrapped = 4 * SCALE - fracture2d::angle::TWO_PI_RAW;
    assert_eq!(p.angle.raw(), wrapped);
    assert_eq!(p.angvel_mid.raw(), SCALE);
    assert_eq!(p.angvel.raw(), SCALE);
}

#[test]
fn immovable_particle_never_moves() {
    // A wall particle overlapped by a grain that falls onto it.
    let w = wall(Fixed::from_ratio(1, 2), Fixed::from_ratio(1, 2));
    let g = grain(Fixed::from_ratio(1, 2), Fixed::from_ratio(539, 1000));
    let mut ps = vec![w, g];
    form_bonds(&mut ps, &material());
    assert_eq!(ps[0].bonds.len(), 1);
    let gravity = Vec2::new(Fixed::zero(), fx(-9.8));
    let mut sim = Simulation::new(ps, material(), gravity, step_length()).unwrap();
    sim.advance(300);
    let w = &sim.particles()[0];
    assert_eq!(w.position, Vec2::new(Fixed::from_ratio(1, 2), Fixed::from_ratio(1, 2)));
    assert_eq!(w.velocity, Vec2::zero());
    assert_eq!(w.velocity_mid, Vec2::zero());
    assert_eq!(w.angle.raw(), 0);
    assert_eq!(w.angvel.raw(), 0);
    assert_eq!(w.angvel_mid.raw(), 0);
    assert_eq!(w.force, Vec2::zero());
    assert_eq!(w.torque.raw(), 0);
    assert!(!w.bonds[0].broken);
    // The grain was pushed up by the wall.
    let g = &sim.particles()[1];
    assert!(g.velocity.y.raw() > 0);
    assert!(g.position.y.gt(Fixed::from_ratio(539, 1000)));
}

#[test]
fn broken_bond_stays_broken_and_applies_nothing() {
    let mut ps = vec![
        grain(Fixed::zero(), Fixed::zero()),
        grain(Fixed::from_ratio(44, 1000), Fixed::zero()),
    ];
    let (right, left) = (Vec2::new(Fixed::one(), Fixed::zero()), Vec2::new(Fixed::one().neg(), Fixed::zero()));
    let rest = Fixed::from_ratio(4, 100);
    ps[0].bonds.push(Bond::new(1, rest, right, fx(7.0e5), fx(7.0e5)));
    ps[1].bonds.push(Bond::new(0, rest, left, fx(7.0e7), fx(7.0e7)));
    let mut sim = Simulation::new(ps, material(), Vec2::zero(), step_length()).unwrap();
    sim.step();
    {
        let ps = sim.particles();
        // The weak bond broke and applied nothing; its twin holds and pulls.
        assert!(ps[0].bonds[0].broken);
        assert_eq!(ps[0].force, Vec2::zero());
        assert_eq!(ps[0].torque.raw(), 0);
        assert!(!ps[1].bonds[0].broken);
        assert!(close(fl(ps[1].force.x), -4.0e4, 1e-9));
    }
    for _ in 0..50 {
        sim.step();
        let ps = sim.particles();
        assert!(ps[0].bonds[0].broken);
        assert_eq!(ps[0].force, Vec2::zero());
        assert_eq!(ps[0].torque.raw(), 0);
        assert_eq!(ps[0].position, Vec2::zero());
        assert_eq!(ps[0].bonds[0].endpoint, 1);
        assert_eq!(ps[0].bonds[0].rest_length, rest);
        assert_eq!(ps[0].bonds[0].initial_direction, right);
    }
}

#[test]
fn rest_state_is_stable() {
    let mut ps = vec![
        grain(Fixed::from_ratio(3, 10), Fixed::from_ratio(1, 2)),
        grain(Fixed::from_ratio(3, 10).add(radius()).add(radius()), Fixed::from_ratio(1, 2)),
    ];
    let start: Vec<Vec2> = ps.iter().map(|p| p.position).collect();
    let gap = ps[1].position.sub(ps[0].position).length();
    form_bonds(&mut ps, &material());
    // Placed exactly the rest length apart.
    assert_eq!(ps[0].bonds.len(), 1);
    assert_eq!(ps[0].bonds[0].rest_length, gap);
    let mut sim = Simulation::new(ps, material(), Vec2::zero(), step_length()).unwrap();
    for _ in 0..1000 {
        sim.step();
        for (p, at) in sim.particles().iter().zip(start.iter()) {
            assert_eq!(p.force, Vec2::zero());
            assert_eq!(p.torque.raw(), 0);
            assert_eq!(p.position, *at);
            assert_eq!(p.velocity, Vec2::zero());
            assert_eq!(p.velocity_mid, Vec2::zero());
            assert_eq!(p.angle.raw(), 0);
            assert_eq!(p.angvel.raw(), 0);
            assert!(!p.bonds[0].broken);
        }
    }
}

#[test]
fn advance_is_repeated_stepping() {
    let scene = || {
        let mut ps = vec![
            grain(Fixed::zero(), Fixed::zero()),
            grain(Fixed::from_ratio(39, 1000), Fixed::from_ratio(1, 1000)),
            wall(Fixed::zero(), Fixed::from_ratio(-39, 1000)),
        ];
        form_bonds(&mut ps, &material());
        Simulation::new(ps, material(), Vec2::new(Fixed::zero(), fx(-9.8)), step_length()).unwrap()
    };
    let mut a = scene();
    let mut b = scene();
    a.advance(25);
    for _ in 0..25 {
        b.step();
    }
    for (p, q) in a.particles().iter().zip(b.particles().iter()) {
        assert_eq!(p.position, q.position);
        assert_eq!(p.velocity, q.velocity);
        assert_eq!(p.velocity_mid, q.velocity_mid);
        assert_eq!(p.angle, q.angle);
        assert_eq!(p.angvel_mid, q.angvel_mid);
        assert_eq!(p.force, q.force);
        assert_eq!(p.bonds, q.bonds);
    }
    a.advance(0);
    assert_eq!(a.particles()[0].position, b.particles()[0].position);
}

#[test]
fn two_bonded_particles_end_to_end() {
    let mut ps = vec![
        grain(Fixed::zero(), Fixed::zero()),
        grain(Fixed::from_ratio(39, 1000), Fixed::zero()),
    ];
    assert!(close(fl(inverse_mass()), 1.3e-4 / 4.0e-4, 1e-12));
    assert!(close(fl(inverse_moment()), 2.6e-4 / 1.6e-7, 1e-12));
    form_bonds(&mut ps, &material());
    for p in ps.iter() {
        assert_eq!(p.bonds.len(), 1);
        assert!(close(fl(p.bonds[0].rest_length), 0.04, 1e-15));
        assert!(close(fl(p.bonds[0].max_normal_force), 7.0e5, 1e-12));
        assert!(close(fl(p.bonds[0].max_tangent_force), 7.0e5, 1e-12));
    }
    let dt = step_length();
    let mut sim = Simulation::new(ps, material(), Vec2::zero(), dt).unwrap();
    sim.step();
    let ps = sim.particles();
    assert!(!ps[0].bonds[0].broken);
    assert!(!ps[1].bonds[0].broken);
    // Nothing drifted yet, so the separation is still 0.039: the bond, with
    // dl = -0.001, and the contact, with overlap 0.001, both push apart.
    let dl = 0.039 - 0.04;
    let expect = 1.0e7 * dl - 1.0e7 * 0.001;
    assert!(close(fl(ps[0].force.x), expect, 1e-9), "{}", fl(ps[0].force.x));
    assert_eq!(ps[0].force.y.raw(), 0);
    assert_eq!(ps[1].force.x.raw(), -ps[0].force.x.raw());
    assert_eq!(ps[1].force.y.raw(), 0);
    assert_eq!(ps[0].torque.raw(), 0);
    assert_eq!(ps[1].torque.raw(), 0);
    let kicked = expect * (1.3e-4 / 4.0e-4) * fl(dt);
    assert!(close(fl(ps[0].velocity_mid.x), kicked, 1e-9));
    assert!(close(fl(ps[0].velocity.x), kicked / 2.0, 1e-9));
    assert_eq!(ps[0].position, Vec2::zero());
}

#[test]
fn restoring_force_follows_the_separation_after_the_drift() {
    let mut ps = vec![
        grain(Fixed::zero(), Fixed::zero()),
        grain(Fixed::from_ratio(41, 1000), Fixed::zero()),
    ];
    form_bonds(&mut ps, &material());
    let dt = step_length();
    let mut sim = Simulation::new(ps, material(), Vec2::zero(), dt).unwrap();
    sim.step();
    sim.step();
    let ps = sim.particles();
    // The second force is evaluated at the positions after the second drift.
    let gap = fl(ps[1].position.x) - fl(ps[0].position.x);
    assert!(gap < 0.041);
    let bond = evaluate_bond(&ps[0], &ps[1], &ps[0].bonds[0], &material());
    assert_eq!(ps[0].force, bond.force);
    assert!(close(fl(ps[0].force.x), 1.0e7 * (gap - 0.04), 1e-6));
    assert!(fl(ps[0].force.x) > 0.0);
}
