//! End-to-end tests of the simulation: spawn/relocate scenarios, the
//! registration and population invariants after ticks, and exact integration
//! arithmetic.

use boids::errors::ConfigurationError;
use boids::grid::CellKey;
use boids::sim::{SimConfig, Simulation};
use boids::vec3::Vec3;

const SCALE: i64 = 1_000_000;

fn config_ten_cube() -> SimConfig {
    SimConfig {
        bounds_min: Vec3::new(-10 * SCALE, -10 * SCALE, -10 * SCALE),
        bounds_max: Vec3::new(10 * SCALE, 10 * SCALE, 10 * SCALE),
        nx: 2,
        ny: 2,
        nz: 2,
        population: 8,
        speed: 10 * SCALE,
        steering_rate: SCALE,
        separation_tolerance: 2 * SCALE,
    }
}

#[test]
fn new_rejects_invalid_bounds() {
    let mut c = config_ten_cube();
    c.bounds_min = Vec3::new(10 * SCALE, -10 * SCALE, -10 * SCALE);
    assert_eq!(
        Simulation::new(&c).err(),
        Some(ConfigurationError::InvalidBounds)
    );
}

#[test]
fn new_rejects_invalid_dimensions() {
    let mut c = config_ten_cube();
    c.nz = 0;
    assert_eq!(
        Simulation::new(&c).err(),
        Some(ConfigurationError::InvalidDimensions)
    );
}

#[test]
fn spawn_and_relocate_scenario() {
    // world [(-10,-10,-10),(10,10,10)], grid 2x2x2, one agent at (5,5,5)
    // heading (1,0,0): its cell key must be (1,1,1); moving it to
    // (-5,-5,-5) must relocate it to cell (0,0,0) and the old cell's
    // membership list must no longer contain it
    let mut sim = Simulation::new(&config_ten_cube()).unwrap();
    let id = sim.spawn_agent(
        Vec3::new(5 * SCALE, 5 * SCALE, 5 * SCALE),
        Vec3::new(SCALE, 0, 0),
    );
    let high = CellKey { x: 1, y: 1, z: 1 };
    let low = CellKey { x: 0, y: 0, z: 0 };
    assert_eq!(
        sim.cell_key_of(&Vec3::new(5 * SCALE, 5 * SCALE, 5 * SCALE)),
        high
    );
    assert_eq!(sim.cell_members(high).unwrap(), vec![id]);

    let moved = sim.set_position(id, Vec3::new(-5 * SCALE, -5 * SCALE, -5 * SCALE));
    assert!(moved);
    assert_eq!(
        sim.cell_key_of(&Vec3::new(-5 * SCALE, -5 * SCALE, -5 * SCALE)),
        low
    );
    assert!(!sim.cell_members(high).unwrap().contains(&id));
    assert_eq!(sim.cell_members(low).unwrap(), vec![id]);
}

#[test]
fn set_position_unknown_id_is_refused() {
    let mut sim = Simulation::new(&config_ten_cube()).unwrap();
    assert!(!sim.set_position(0, Vec3::new(0, 0, 0)));
}

#[test]
fn spawn_flock_positions_lie_inside_bounds() {
    // the spawn positions come from the random source; every one must lie
    // strictly inside the half-open world bounds on every axis
    let mut sim = Simulation::new(&config_ten_cube()).unwrap();
    sim.spawn_flock(32);
    assert_eq!(sim.agent_count(), 32);
    for id in 0..32 {
        let a = sim.agent(id).unwrap();
        for c in [a.position.x, a.position.y, a.position.z] {
            assert!(-10 * SCALE <= c && c < 10 * SCALE);
        }
        assert_eq!(a.velocity, a.target_velocity);
    }
}

#[test]
fn registration_and_population_hold_after_ticks() {
    // after every tick: each agent's recomputed cell key names a cell whose
    // membership list contains it, and the total membership count equals
    // the population
    let mut sim = Simulation::new(&config_ten_cube()).unwrap();
    sim.spawn_flock(50);
    for _ in 0..5 {
        sim.tick(100_000); // 0.1 time units
        let n = sim.agent_count();
        assert_eq!(n, 50);
        for id in 0..n {
            let a = sim.agent(id).unwrap();
            let nearby = sim.neighbors_of(&a.position);
            assert!(nearby.contains(&id));
        }
        let (nx, ny, nz) = sim.grid_dims();
        let mut total = 0;
        for x in 0..nx {
            for y in 0..ny {
                for z in 0..nz {
                    total += sim.cell_members(CellKey { x, y, z }).unwrap().len();
                }
            }
        }
        assert_eq!(total, 50);
    }
}

#[test]
fn lone_agent_moves_along_heading() {
    // a single agent with a stable target keeps its velocity and advances
    // position += velocity * speed * dt: heading (1,0,0), speed 10,
    // dt 0.1 -> one unit along x
    let mut sim = Simulation::new(&config_ten_cube()).unwrap();
    let id = sim.spawn_agent(
        Vec3::new(5 * SCALE, 5 * SCALE, 5 * SCALE),
        Vec3::new(SCALE, 0, 0),
    );
    sim.tick(100_000);
    let a = sim.agent(id).unwrap();
    assert_eq!(a.position, Vec3::new(6 * SCALE, 5 * SCALE, 5 * SCALE));
    assert_eq!(a.velocity, Vec3::new(SCALE, 0, 0));
    assert_eq!(a.target_velocity, Vec3::new(SCALE, 0, 0));
    assert!(!a.target_changed);
}

#[test]
fn tick_relocates_agent_crossing_cell_boundary() {
    // an agent 0.4 units left of the x midplane moves one unit right in one
    // tick and must be re-registered from cell (0,..) to cell (1,..)
    let mut sim = Simulation::new(&config_ten_cube()).unwrap();
    let start = Vec3::new(-400_000, 5 * SCALE, 5 * SCALE);
    let id = sim.spawn_agent(start, Vec3::new(SCALE, 0, 0));
    let old_key = sim.cell_key_of(&start);
    assert_eq!(old_key, CellKey { x: 0, y: 1, z: 1 });
    sim.tick(100_000);
    let a = sim.agent(id).unwrap();
    assert_eq!(a.position, Vec3::new(600_000, 5 * SCALE, 5 * SCALE));
    let new_key = sim.cell_key_of(&a.position);
    assert_eq!(new_key, CellKey { x: 1, y: 1, z: 1 });
    assert!(!sim.cell_members(old_key).unwrap().contains(&id));
    assert!(sim.cell_members(new_key).unwrap().contains(&id));
}

#[test]
fn zero_delta_time_produces_no_motion() {
    let mut sim = Simulation::new(&config_ten_cube()).unwrap();
    let id = sim.spawn_agent(
        Vec3::new(-3 * SCALE, 2 * SCALE, 7 * SCALE),
        Vec3::new(0, 0, SCALE),
    );
    sim.tick(0);
    let a = sim.agent(id).unwrap();
    assert_eq!(a.position, Vec3::new(-3 * SCALE, 2 * SCALE, 7 * SCALE));
    assert_eq!(a.velocity, Vec3::new(0, 0, SCALE));
}

#[test]
fn cohesion_turns_strayed_agent_back() {
    // an agent beyond the world extent has its target blended toward the
    // origin by the tick's steering pass
    let mut sim = Simulation::new(&config_ten_cube()).unwrap();
    let id = sim.spawn_agent(Vec3::new(15 * SCALE, 0, 0), Vec3::new(SCALE, 0, 0));
    sim.tick(0);
    let a = sim.agent(id).unwrap();
    // the new target gained a negative x pull; it can no longer point
    // straight along +x at full unit length
    assert!(a.target_changed);
    assert!(a.target_velocity.x < SCALE);
}
