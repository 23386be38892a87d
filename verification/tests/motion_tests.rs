//! Tests of motion integration: the velocity blend formula and the position
//! advance, on exact fixed-point values, and the agent store's accessors.

use boids::agents::{Agent, AgentStore};
use boids::motion::{advance_position, blend_velocity};
use boids::vec3::Vec3;

const SCALE: i64 = 1_000_000;

#[test]
fn velocity_blends_by_rate_times_dt() {
    // rate 1.0, dt 0.5: halfway from (1,0,0) toward (0,1,0), renormalized
    let vel = Vec3::new(SCALE, 0, 0);
    let target = Vec3::new(0, SCALE, 0);
    let r = blend_velocity(&vel, &target, SCALE, SCALE / 2);
    assert_eq!(r, Vec3::new(707_107, 707_107, 0));
}

#[test]
fn velocity_blend_caps_at_full_weight() {
    // rate 1.0, dt 3.0 would overshoot; the blend caps at the target
    let vel = Vec3::new(SCALE, 0, 0);
    let target = Vec3::new(0, 0, SCALE);
    let r = blend_velocity(&vel, &target, SCALE, 3 * SCALE);
    assert_eq!(r, target);
}

#[test]
fn velocity_blend_zero_dt_keeps_velocity() {
    let vel = Vec3::new(0, SCALE, 0);
    let target = Vec3::new(SCALE, 0, 0);
    assert_eq!(blend_velocity(&vel, &target, SCALE, 0), vel);
}

#[test]
fn position_advances_by_velocity_speed_dt() {
    // speed 2.0, dt 0.5 along (1,0,0): exactly one unit
    let pos = Vec3::new(0, 0, 0);
    let vel = Vec3::new(SCALE, 0, 0);
    let r = advance_position(&pos, &vel, 2 * SCALE, SCALE / 2);
    assert_eq!(r, Vec3::new(SCALE, 0, 0));
}

#[test]
fn position_saturates_at_machine_range() {
    // the advance clamps instead of wrapping at the coordinate limit
    let limit: i64 = 1_000_000_000_000;
    let pos = Vec3::new(limit, 0, 0);
    let vel = Vec3::new(SCALE, 0, 0);
    let r = advance_position(&pos, &vel, SCALE, SCALE);
    assert_eq!(r, Vec3::new(limit, 0, 0));
}

#[test]
fn store_gets_and_sets_fields() {
    let mut store = AgentStore::new();
    assert_eq!(store.len(), 0);
    assert!(store.get(0).is_none());
    store.push_agent(Agent {
        position: Vec3::new(1, 2, 3),
        velocity: Vec3::new(SCALE, 0, 0),
        target_velocity: Vec3::new(SCALE, 0, 0),
        target_changed: false,
    });
    assert_eq!(store.len(), 1);
    assert_eq!(store.position(0), Some(Vec3::new(1, 2, 3)));
    assert_eq!(store.velocity(0), Some(Vec3::new(SCALE, 0, 0)));
    store.set_target_velocity(0, Vec3::new(0, SCALE, 0), true);
    assert_eq!(store.target_velocity(0), Some(Vec3::new(0, SCALE, 0)));
    let a = store.get(0).unwrap();
    assert!(a.target_changed);
    assert_eq!(a.position, Vec3::new(1, 2, 3));
    assert_eq!(store.position(1), None);
}
