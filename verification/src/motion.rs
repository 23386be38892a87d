//! Motion integration: each tick, an agent whose steering target changed has
//! its velocity blended toward the target by `steering_rate * delta_time` and
//! renormalized; then every agent's position advances along its velocity
//! scaled by the global speed constant and the elapsed time.

use vstd::prelude::*;
use crate::vec3::{Vec3, SpecVec3, dtz, clamp_int, clamp_wide, lemma_dtz_between,
    lemma_lerp_between};
use crate::{SCALE, COORD_LIMIT};

verus! {

/// The velocity blend fraction, scaled by `SCALE`: `steering_rate *
/// delta_time`, capped at a full blend.
pub open spec fn blend_factor(rate: int, dt: int) -> int {
    let f = dtz(rate * dt, SCALE as int);
    if f > SCALE as int {
        SCALE as int
    } else {
        f
    }
}

/// The new velocity of an agent whose target changed: the old velocity
/// interpolated toward the target by the blend fraction, renormalized to unit
/// length unless the blend is zero (which is then kept unnormalized).
pub open spec fn vel_spec(vel: SpecVec3, target: SpecVec3, rate: int, dt: int) -> SpecVec3 {
    let l = vel.lerped(target, blend_factor(rate, dt), SCALE as int);
    if l == SpecVec3::zero() {
        l
    } else {
        l.normalized()
    }
}

/// The per-tick displacement: `velocity * speed * delta_time`, with the two
/// fixed-point scales divided back out.
pub open spec fn move_delta(vel: SpecVec3, speed: int, dt: int) -> SpecVec3 {
    SpecVec3 {
        x: dtz(vel.x * speed * dt, (SCALE as int) * (SCALE as int)),
        y: dtz(vel.y * speed * dt, (SCALE as int) * (SCALE as int)),
        z: dtz(vel.z * speed * dt, (SCALE as int) * (SCALE as int)),
    }
}

/// The new position: the displacement added to the old position, clamped
/// into the coordinate machine range.
pub open spec fn move_spec(pos: SpecVec3, vel: SpecVec3, speed: int, dt: int) -> SpecVec3 {
    pos.vadd(move_delta(vel, speed, dt)).clamped(COORD_LIMIT as int)
}

/// Blends the velocity toward the target by `steering_rate * delta_time` and
/// renormalizes (a zero blend is left unnormalized).
pub fn blend_velocity(vel: &Vec3, target: &Vec3, rate: i64, dt: i64) -> (r: Vec3)
    requires
        vel@.bounded(SCALE as int),
        target@.bounded(SCALE as int),
        0 <= rate <= COORD_LIMIT,
        0 <= dt <= COORD_LIMIT,
    ensures
        r@ == vel_spec(vel@, target@, rate as int, dt as int),
        r@.bounded(SCALE as int),
{
    proof {
        assert(0 <= (rate as int) * (dt as int) <= 0x10000000000i128 * 0x10000000000i128)
            by (nonlinear_arith)
            requires
                0 <= rate as int <= 0x10000000000i128,
                0 <= dt as int <= 0x10000000000i128,
        ;
    }
    let p: i128 = rate as i128 * dt as i128;
    proof {
        lemma_dtz_between(p as int, SCALE as int);
    }
    let fwide: i128 = p / (SCALE as i128);
    let f: i64 = if fwide > SCALE as i128 {
        SCALE
    } else {
        fwide as i64
    };
    let l = vel.lerped_toward(target, f, SCALE);
    proof {
        lemma_lerp_between(vel@, target@, f as int, SCALE as int);
    }
    if l.x == 0 && l.y == 0 && l.z == 0 {
        proof {
            assert(l@ == SpecVec3::zero());
        }
        l
    } else {
        l.normalized()
    }
}

/// Advances the position along the velocity, scaled by the speed constant
/// and the elapsed time, saturating at the coordinate machine range.
pub fn advance_position(pos: &Vec3, vel: &Vec3, speed: i64, dt: i64) -> (r: Vec3)
    requires
        pos@.bounded(COORD_LIMIT as int),
        vel@.bounded(SCALE as int),
        0 <= speed <= COORD_LIMIT,
        0 <= dt <= COORD_LIMIT,
    ensures
        r@ == move_spec(pos@, vel@, speed as int, dt as int),
        r@.bounded(COORD_LIMIT as int),
{
    let x = advance_coord(pos.x, vel.x, speed, dt);
    let y = advance_coord(pos.y, vel.y, speed, dt);
    let z = advance_coord(pos.z, vel.z, speed, dt);
    Vec3 { x, y, z }
}

/// One coordinate of the position advance.
fn advance_coord(p: i64, v: i64, speed: i64, dt: i64) -> (r: i64)
    requires
        -(COORD_LIMIT as int) <= p <= COORD_LIMIT as int,
        -(SCALE as int) <= v <= SCALE as int,
        0 <= speed <= COORD_LIMIT,
        0 <= dt <= COORD_LIMIT,
    ensures
        r as int == clamp_int(
            p + dtz((v as int) * (speed as int) * (dt as int), (SCALE as int) * (SCALE as int)),
            -(COORD_LIMIT as int),
            COORD_LIMIT as int,
        ),
{
    proof {
        assert(-1_000_000_000_000_000_000int <= (v as int) * (speed as int)
            <= 1_000_000_000_000_000_000int
            && -1_000_000_000_000_000_000_000_000_000_000int <= (v as int) * (speed as int) * (
        dt as int) <= 1_000_000_000_000_000_000_000_000_000_000int) by (nonlinear_arith)
            requires
                -1_000_000 <= v as int <= 1_000_000,
                0 <= speed as int <= 1_000_000_000_000int,
                0 <= dt as int <= 1_000_000_000_000int,
        ;
    }
    let m1: i128 = v as i128 * speed as i128;
    let m2: i128 = m1 * dt as i128;
    let q: i128 = m2 / (1_000_000_000_000i128);
    proof {
        assert((SCALE as int) * (SCALE as int) == 1_000_000_000_000int) by (nonlinear_arith);
        lemma_dtz_between(m2 as int, 1_000_000_000_000int);
    }
    clamp_wide(p as i128 + q, COORD_LIMIT)
}

} // verus!
