use cloth_sim::{Constraint, Particle, Simulation, Vec2};

fn two_free_particles(ax: i64, ay: i64, bx: i64, by: i64) -> Vec<Particle> {
    vec![Particle::from_xy(ax, ay, false), Particle::from_xy(bx, by, false)]
}

#[test]
fn pinned_particle_never_moves() {
    let mut p = Particle::from_xy(5, 7, true);
    for _ in 0..50 {
        p.apply_force(Vec2::new(0, 9_810));
        p.update(100);
    }
    assert_eq!(p.position, Vec2::new(5, 7));
    assert_eq!(p.previous_position, Vec2::new(5, 7));
    assert_eq!(p.acceleration, Vec2::new(0, 0));
}

#[test]
fn unpinned_particle_falls_under_gravity() {
    let mut p = Particle::from_xy(0, 0, false);
    p.apply_force(Vec2::new(0, 9_810));
    p.update(100);
    // 9810 * 100 * 100 / 1_000_000 = 98, with zero initial velocity
    assert_eq!(p.position, Vec2::new(0, 98));
    assert_eq!(p.previous_position, Vec2::new(0, 0));
    assert_eq!(p.acceleration, Vec2::new(0, 0));
    p.apply_force(Vec2::new(0, 9_810));
    p.update(100);
    // velocity 98 plus another 98 of acceleration
    assert_eq!(p.position, Vec2::new(0, 294));
}

#[test]
fn rest_length_captures_construction_distance() {
    let ps = two_free_particles(0, 0, 30, 40);
    let c = Constraint::new(&ps, 0, 1);
    assert_eq!(c.initial_length, 50);
    assert!(c.active);

    // non-square distances round down
    let ps = two_free_particles(0, 0, 1, 1);
    let c = Constraint::new(&ps, 0, 1);
    assert_eq!(c.initial_length, 1);
}

#[test]
fn satisfy_halves_the_error_on_each_side() {
    let mut ps = two_free_particles(0, 0, 6, 0);
    let c = Constraint::new(&ps, 0, 1);
    assert_eq!(c.initial_length, 6);
    // stretch the pair to distance 10
    ps[1].position.x = 10;
    c.satisfy(&mut ps);
    assert_eq!(ps[0].position, Vec2::new(2, 0));
    assert_eq!(ps[1].position, Vec2::new(8, 0));
}

#[test]
fn satisfy_skips_pinned_endpoint() {
    let mut ps = vec![Particle::from_xy(0, 0, true), Particle::from_xy(6, 0, false)];
    let c = Constraint::new(&ps, 0, 1);
    ps[1].position.x = 10;
    c.satisfy(&mut ps);
    assert_eq!(ps[0].position, Vec2::new(0, 0));
    assert_eq!(ps[1].position, Vec2::new(8, 0));
}

#[test]
fn deactivated_constraint_changes_nothing() {
    let mut ps = two_free_particles(0, 0, 6, 0);
    let mut c = Constraint::new(&ps, 0, 1);
    ps[1].position.x = 10;
    c.deactivate();
    assert!(!c.active);
    for _ in 0..10 {
        c.satisfy(&mut ps);
    }
    assert_eq!(ps[0].position, Vec2::new(0, 0));
    assert_eq!(ps[1].position, Vec2::new(10, 0));
    // deactivation is idempotent
    c.deactivate();
    assert!(!c.active);
}

#[test]
fn coincident_endpoints_leave_positions_alone() {
    let mut ps = two_free_particles(0, 0, 6, 0);
    let c = Constraint::new(&ps, 0, 1);
    ps[1].position = Vec2::new(0, 0);
    c.satisfy(&mut ps);
    assert_eq!(ps[0].position, Vec2::new(0, 0));
    assert_eq!(ps[1].position, Vec2::new(0, 0));
}

#[test]
fn clamp_pushes_back_into_bounds() {
    let mut p = Particle::from_xy(0, 0, false);
    p.position = Vec2::new(-5, 99);
    p.constrain_to_bounds(50, 50);
    assert_eq!(p.position, Vec2::new(0, 50));

    let mut q = Particle::from_xy(20, 30, false);
    q.constrain_to_bounds(50, 50);
    assert_eq!(q.position, Vec2::new(20, 30));

    // the clamp applies to pinned particles too
    let mut r = Particle::from_xy(0, 10, true);
    r.position.x = -3;
    r.constrain_to_bounds(50, 50);
    assert_eq!(r.position, Vec2::new(0, 10));
}

#[test]
fn point_to_segment_distance_exact_values() {
    // perpendicular drop onto the interior
    assert_eq!(Simulation::point_to_segment_distance(5, 10, 0, 0, 10, 0), 10);
    // nearest point is an endpoint
    assert_eq!(Simulation::point_to_segment_distance(-3, -4, 0, 0, 10, 0), 5);
    // interior with a fractional exact value: squared distance 9/2 -> 4
    assert_eq!(Simulation::point_to_segment_distance(0, 0, 1, 2, 2, 1), 2);
    // a degenerate segment measures to its single point
    assert_eq!(Simulation::point_to_segment_distance(3, 4, 0, 0, 0, 0), 5);
}

fn tiny_sim() -> Simulation {
    let ps = two_free_particles(0, 0, 10, 0);
    let cs = vec![Constraint::new(&ps, 0, 1)];
    Simulation { particles: ps, constraints: cs }
}

#[test]
fn query_hits_segment_midpoint_at_distance_zero() {
    let sim = tiny_sim();
    assert_eq!(sim.find_nearest_constraint(5, 0, 30), Some(0));
    let (a, b) = sim.constraint_endpoints(0);
    assert_eq!(Simulation::point_to_segment_distance(5, 0, a.x, a.y, b.x, b.y), 0);
}

#[test]
fn query_misses_beyond_tolerance() {
    let sim = tiny_sim();
    assert_eq!(sim.find_nearest_constraint(5, 1000, 30), None);
    // just inside the tolerance it hits
    assert_eq!(sim.find_nearest_constraint(5, 29, 30), Some(0));
    // exactly at the tolerance it does not (strictly nearer only)
    assert_eq!(sim.find_nearest_constraint(5, 30, 30), None);
}

#[test]
fn query_ignores_inactive_and_breaks_ties_by_order() {
    let ps = vec![
        Particle::from_xy(0, 10, false),
        Particle::from_xy(10, 10, false),
        Particle::from_xy(0, -10, false),
        Particle::from_xy(10, -10, false),
    ];
    // two horizontal segments, both at distance 10 from the origin
    let cs = vec![Constraint::new(&ps, 0, 1), Constraint::new(&ps, 2, 3)];
    let mut sim = Simulation { particles: ps, constraints: cs };
    assert_eq!(sim.find_nearest_constraint(5, 0, 30), Some(0));
    sim.constraints[0].deactivate();
    assert_eq!(sim.find_nearest_constraint(5, 0, 30), Some(1));
}

#[test]
fn tear_deactivates_only_the_nearest_constraint() {
    let mut sim = tiny_sim();
    sim.tear_cloth(5, 2, 30);
    assert!(!sim.constraints[0].active);
    assert_eq!(sim.particles[0].position, Vec2::new(0, 0));
    assert_eq!(sim.particles[1].position, Vec2::new(10, 0));
    // a second tear far away changes nothing
    sim.tear_cloth(5, 2, 30);
    assert!(!sim.constraints[0].active);
}

#[test]
fn grid_layout_positions_pins_and_links() {
    let sim = Simulation::new_grid(2, 2, 30, 100, 200);
    assert_eq!(sim.particle_count(), 4);
    assert_eq!(sim.particle_position(0), Vec2::new(100, 200));
    assert_eq!(sim.particle_position(1), Vec2::new(130, 200));
    assert_eq!(sim.particle_position(2), Vec2::new(100, 230));
    assert_eq!(sim.particle_position(3), Vec2::new(130, 230));
    assert!(sim.particles[0].is_pinned);
    assert!(sim.particles[1].is_pinned);
    assert!(!sim.particles[2].is_pinned);
    assert!(!sim.particles[3].is_pinned);
    // row-major cell order: (0,0) horizontal, (0,0) vertical, (0,1)
    // vertical, (1,0) horizontal
    assert_eq!(sim.constraint_count(), 4);
    let links: Vec<(usize, usize)> =
        sim.constraints.iter().map(|c| (c.p1, c.p2)).collect();
    assert_eq!(links, vec![(0, 1), (0, 2), (1, 3), (2, 3)]);
    for c in sim.constraints.iter() {
        assert_eq!(c.initial_length, 30);
        assert!(c.active);
    }
}

#[test]
fn tick_moves_free_particle_and_keeps_pinned_anchor() {
    let ps = vec![Particle::from_xy(10, 0, true), Particle::from_xy(50, 0, false)];
    let mut sim = Simulation { particles: ps, constraints: vec![] };
    sim.tick(Vec2::new(0, 9_810), 100, 1_000_000, 1_000_000, 5);
    assert_eq!(sim.particles[0].position, Vec2::new(10, 0));
    assert_eq!(sim.particles[1].position, Vec2::new(50, 98));
}
