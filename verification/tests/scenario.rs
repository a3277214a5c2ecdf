use cloth_sim::{Simulation, Vec2};

const WIDTH: i64 = 1_920_000;
const HEIGHT: i64 = 1_080_000;
const GRAVITY: i64 = 9_810;
const TIME_STEP: i64 = 100;
const SPACING: i64 = 30_000;
const PASSES: usize = cloth_sim::DEFAULT_RELAX_ITERATIONS;

fn dist(a: Vec2, b: Vec2) -> f64 {
    let dx = (b.x - a.x) as f64;
    let dy = (b.y - a.y) as f64;
    (dx * dx + dy * dy).sqrt()
}

#[test]
fn hanging_grid_settles_under_gravity() {
    let mut sim = Simulation::new_grid(2, 2, SPACING, 0, 0);
    let mut row1_y: Vec<i64> = Vec::new();
    for _ in 0..100 {
        sim.tick(Vec2::new(0, GRAVITY), TIME_STEP, WIDTH, HEIGHT, PASSES);
        row1_y.push(sim.particle_position(2).y);
    }
    // the pinned top row never moves
    assert_eq!(sim.particle_position(0), Vec2::new(0, 0));
    assert_eq!(sim.particle_position(1), Vec2::new(SPACING, 0));
    // the free row has moved downward and come to rest: the vertical
    // links stretched just far enough for one relaxation pass to cancel
    // each tick's fall
    assert!(row1_y[99] > SPACING);
    assert_eq!(row1_y[99], row1_y[98]);
    assert_eq!(sim.particle_position(2), Vec2::new(0, 30_004));
    assert_eq!(sim.particle_position(3), Vec2::new(SPACING, 30_004));
}

#[test]
fn torn_link_lets_the_pair_drift_apart() {
    let mut torn = Simulation::new_grid(2, 2, SPACING, 0, 0);
    let mut control = Simulation::new_grid(2, 2, SPACING, 0, 0);
    // click right on the vertical link hanging from the first pinned
    // particle: of the four links it is by far the nearest
    torn.tear_cloth(0, 15_000, 30_000);
    assert!(!torn.constraints[1].active);
    assert!(torn.constraints[0].active);
    assert!(torn.constraints[2].active);
    assert!(torn.constraints[3].active);
    for _ in 0..100 {
        torn.tick(Vec2::new(0, GRAVITY), TIME_STEP, WIDTH, HEIGHT, PASSES);
        control.tick(Vec2::new(0, GRAVITY), TIME_STEP, WIDTH, HEIGHT, PASSES);
    }
    let torn_gap = dist(torn.particle_position(0), torn.particle_position(2));
    let held_gap = dist(control.particle_position(0), control.particle_position(2));
    // with the link gone the pair drifts far beyond the rest length,
    // while the intact simulation holds it close to it
    assert!(held_gap < SPACING as f64 * 1.01);
    assert!(torn_gap > SPACING as f64 * 2.0);
}
