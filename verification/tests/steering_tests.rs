//! Tests of the pure steering behaviors: separation repulsion inside and
//! outside the tolerance radius, alignment blending, cohesion containment,
//! and leveling.

use boids::steering::{alignment_target, cohesion_target, level_target, separation_target};
use boids::vec3::Vec3;

const SCALE: i64 = 1_000_000;

#[test]
fn separation_no_neighbors_leaves_target_unchanged() {
    let cur = Vec3::new(SCALE, 0, 0);
    let r = separation_target(&Vec3::new(0, 0, 0), &Vec::new(), 2 * SCALE, &cur);
    assert_eq!(r, cur);
}

#[test]
fn alignment_no_neighbors_leaves_target_unchanged() {
    let cur = Vec3::new(0, 0, SCALE);
    let r = alignment_target(&Vec::new(), &cur);
    assert_eq!(r, cur);
}

#[test]
fn separation_repels_within_tolerance() {
    // two agents at distance 1.0 with tolerance 2.0 (squared tolerance 4.0):
    // each must end with a non-zero repulsion target away from the other
    let pa = Vec3::new(0, 0, 0);
    let pb = Vec3::new(SCALE, 0, 0);
    let cur = Vec3::new(0, SCALE, 0);
    let cell = vec![pa, pb];
    let ra = separation_target(&pa, &cell, 2 * SCALE, &cur);
    let rb = separation_target(&pb, &cell, 2 * SCALE, &cur);
    // a is pushed toward negative x, b toward positive x, at unit length
    assert_eq!(ra, Vec3::new(-SCALE, 0, 0));
    assert_eq!(rb, Vec3::new(SCALE, 0, 0));
}

#[test]
fn separation_ignores_neighbors_beyond_tolerance() {
    // at distance 3.0, beyond tolerance 2.0, separation must not touch the
    // target
    let pa = Vec3::new(0, 0, 0);
    let pb = Vec3::new(3 * SCALE, 0, 0);
    let cur = Vec3::new(0, SCALE, 0);
    let ra = separation_target(&pa, &vec![pa, pb], 2 * SCALE, &cur);
    assert_eq!(ra, cur);
}

#[test]
fn separation_closer_neighbor_pushes_harder() {
    // one neighbor at 0.5 units, one at 1.5 units, both within tolerance 2:
    // the accumulated repulsion points away from the nearer one
    let pa = Vec3::new(0, 0, 0);
    let near = Vec3::new(SCALE / 2, 0, 0);
    let far = Vec3::new(0, -3 * SCALE / 2, 0);
    let cur = Vec3::new(0, 0, SCALE);
    let r = separation_target(&pa, &vec![near, far], 2 * SCALE, &cur);
    // repulsion x: -(2.0 - 0.5) = -1.5 units; y: +(2.0 - 1.5) = +0.5 units
    // normalized: (-3, 1) / sqrt(10)
    let len = ((1_500_000i128 * 1_500_000 + 500_000i128 * 500_000) as f64).sqrt() as i128;
    let ex = (-1_500_000i128 * SCALE as i128 / len) as i64;
    let ey = (500_000i128 * SCALE as i128 / len) as i64;
    assert_eq!(r, Vec3::new(ex, ey, 0));
    assert!(r.x < 0 && r.y > 0 && r.z == 0);
}

#[test]
fn alignment_uniform_neighbors_blend_halfway() {
    // all neighbors share velocity (0, 1, 0); prior target (1, 0, 0):
    // the blend lands halfway at (0.5, 0.5, 0), then renormalizes
    let v = Vec3::new(0, SCALE, 0);
    let cur = Vec3::new(SCALE, 0, 0);
    let r = alignment_target(&vec![v, v, v], &cur);
    // |(500000, 500000, 0)| = 707106, so each component becomes
    // 500000 * 1000000 / 707106 = 707107
    assert_eq!(r, Vec3::new(707_107, 707_107, 0));
}

#[test]
fn alignment_single_self_velocity_is_stable() {
    // an agent alone in its cell averages only its own velocity; a target
    // already equal to it stays exactly in place
    let v = Vec3::new(SCALE, 0, 0);
    let r = alignment_target(&vec![v], &v);
    assert_eq!(r, v);
}

#[test]
fn cohesion_steers_back_when_beyond_extent() {
    // beyond the world extent on the x axis: the target blends 30% toward
    // the origin-facing direction
    let pos = Vec3::new(15 * SCALE, 0, 0);
    let extent = Vec3::new(10 * SCALE, 10 * SCALE, 10 * SCALE);
    let cur = Vec3::new(SCALE, 0, 0);
    let r = cohesion_target(&pos, &extent, &cur);
    // origin-facing direction is (-1, 0, 0); lerp 30%:
    // 1000000 + (-1000000 - 1000000) * 3 / 10 = 400000
    assert_eq!(r, Vec3::new(400_000, 0, 0));
}

#[test]
fn cohesion_leaves_agents_within_extent_alone() {
    let pos = Vec3::new(9 * SCALE, -9 * SCALE, 0);
    let extent = Vec3::new(10 * SCALE, 10 * SCALE, 10 * SCALE);
    let cur = Vec3::new(0, 0, SCALE);
    assert_eq!(cohesion_target(&pos, &extent, &cur), cur);
}

#[test]
fn leveling_clamps_vertical_component() {
    let steep = Vec3::new(300_000, 900_000, -300_000);
    let r = level_target(&steep);
    assert_eq!(r, Vec3::new(300_000, 100_000, -300_000));
    let dive = Vec3::new(0, -500_000, 800_000);
    assert_eq!(level_target(&dive), Vec3::new(0, -100_000, 800_000));
    let level = Vec3::new(990_000, 90_000, 0);
    assert_eq!(level_target(&level), level);
}
