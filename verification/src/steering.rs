//! Per-agent steering behaviors, blended in fixed precedence: separation,
//! alignment, cohesion (boundary containment), and leveling. Each behavior is
//! a pure function from the agent's frozen view of the previous tick to a new
//! target heading; every blend is linear interpolation followed by
//! renormalization, and a direction that normalizes to zero magnitude is left
//! unnormalized ("no preference").

use vstd::prelude::*;
use crate::vec3::{Vec3, SpecVec3, dtz, clamp_int, clamp_wide, sqrt_of, isqrt, lemma_dtz_mag,
    lemma_lerp_between, lemma_sqrt_unique};
use crate::{SCALE, COORD_LIMIT};

verus! {

/// Half-width of the vertical band leveling clamps the target heading into:
/// one tenth of the unit scale.
pub const LEVEL_BAND: i64 = 100_000;

/// One neighbor's contribution to the separation accumulator: zero at or
/// beyond the squared tolerance, otherwise a vector pointing away from the
/// neighbor with magnitude `tolerance - distance` (closer neighbors push
/// harder). A neighbor at the agent's own position (the agent itself, which
/// the same-cell query always returns) contributes zero.
pub open spec fn sep_term(pos: SpecVec3, npos: SpecVec3, tol: int) -> SpecVec3 {
    let off = npos.vsub(pos);
    if off.len_sq() < tol * tol {
        let away = off.normalized().vneg();
        let w = tol - sqrt_of(off.len_sq());
        SpecVec3 {
            x: dtz(away.x * w, SCALE as int),
            y: dtz(away.y * w, SCALE as int),
            z: dtz(away.z * w, SCALE as int),
        }
    } else {
        SpecVec3::zero()
    }
}

/// The separation accumulator over a list of neighbor positions.
pub open spec fn sep_accum(pos: SpecVec3, nbrs: Seq<SpecVec3>, tol: int) -> SpecVec3
    decreases nbrs.len(),
{
    if nbrs.len() == 0 {
        SpecVec3::zero()
    } else {
        sep_accum(pos, nbrs.drop_last(), tol).vadd(sep_term(pos, nbrs.last(), tol))
    }
}

/// The separation behavior: if the accumulated repulsion is non-zero it
/// replaces the current target outright (normalized, full weight); otherwise
/// the target is unchanged. The accumulator is clamped into the coordinate
/// machine range first, which preserves zero-ness.
pub open spec fn separation_spec(pos: SpecVec3, nbrs: Seq<SpecVec3>, tol: int, cur: SpecVec3)
    -> SpecVec3 {
    let acc = sep_accum(pos, nbrs, tol).clamped(COORD_LIMIT as int);
    if acc == SpecVec3::zero() {
        cur
    } else {
        acc.normalized()
    }
}

/// Componentwise sum of a list of velocities.
pub open spec fn sum_vels(vels: Seq<SpecVec3>) -> SpecVec3
    decreases vels.len(),
{
    if vels.len() == 0 {
        SpecVec3::zero()
    } else {
        sum_vels(vels.drop_last()).vadd(vels.last())
    }
}

/// The pre-normalization alignment blend: the current target moved halfway
/// toward the average of the same-cell velocities.
pub open spec fn alignment_blend(vels: Seq<SpecVec3>, cur: SpecVec3) -> SpecVec3
    recommends
        vels.len() > 0,
{
    let n = vels.len() as int;
    let s = sum_vels(vels);
    let avg = SpecVec3 { x: dtz(s.x, n), y: dtz(s.y, n), z: dtz(s.z, n) };
    cur.lerped(avg, 1, 2)
}

/// The alignment behavior: skipped when there are no same-cell velocities;
/// otherwise the halfway blend toward their average, renormalized to unit
/// length unless it is zero.
pub open spec fn alignment_spec(vels: Seq<SpecVec3>, cur: SpecVec3) -> SpecVec3 {
    if vels.len() == 0 {
        cur
    } else {
        let l = alignment_blend(vels, cur);
        if l == SpecVec3::zero() {
            l
        } else {
            l.normalized()
        }
    }
}

/// The cohesion / containment behavior: only when the position exceeds the
/// world bounds' absolute extent on some axis, the target is blended 30%
/// toward the direction from the position back to the origin.
pub open spec fn cohesion_spec(pos: SpecVec3, extent: SpecVec3, cur: SpecVec3) -> SpecVec3 {
    if vstd::math::abs(pos.x) > extent.x || vstd::math::abs(pos.y) > extent.y || vstd::math::abs(
        pos.z,
    ) > extent.z {
        cur.lerped(pos.vneg().normalized(), 3, 10)
    } else {
        cur
    }
}

/// The leveling behavior: the vertical component of the target is clamped
/// into a narrow band, applied as a full blend.
pub open spec fn level_spec(cur: SpecVec3) -> SpecVec3 {
    SpecVec3 { x: cur.x, y: clamp_int(cur.y, -(LEVEL_BAND as int), LEVEL_BAND as int), z: cur.z }
}

/// The whole steering pipeline for one agent, in fixed precedence:
/// separation, then alignment, then cohesion, then leveling.
pub open spec fn steer_spec(
    pos: SpecVec3,
    nbr_pos: Seq<SpecVec3>,
    nbr_vel: Seq<SpecVec3>,
    tol: int,
    extent: SpecVec3,
    cur: SpecVec3,
) -> SpecVec3 {
    level_spec(
        cohesion_spec(pos, extent, alignment_spec(nbr_vel, separation_spec(pos, nbr_pos, tol, cur))),
    )
}


/// Separation (avoid nearby): for every neighbor within the tolerance
/// radius, accumulate a repulsion away from it scaled by
/// `tolerance - distance`; a non-zero accumulated direction replaces the
/// current target outright (normalized, full weight).
pub fn separation_target(
    pos: &Vec3,
    neighbor_positions: &Vec<Vec3>,
    tolerance: i64,
    current: &Vec3,
) -> (r: Vec3)
    requires
        pos@.bounded(COORD_LIMIT as int),
        forall|i: int| 0 <= i < neighbor_positions@.len() ==> neighbor_positions@[i]@.bounded(
            COORD_LIMIT as int,
        ),
        0 <= tolerance <= COORD_LIMIT,
    ensures
        r@ == separation_spec(
            pos@,
            neighbor_positions@.map_values(|v: Vec3| v@),
            tolerance as int,
            current@,
        ),
        r@.bounded(SCALE as int) || r@ == current@,
{
    let ghost nview = neighbor_positions@.map_values(|v: Vec3| v@);
    let n = neighbor_positions.len();
    let mut ax: i128 = 0;
    let mut ay: i128 = 0;
    let mut az: i128 = 0;
    let mut i: usize = 0;
    while i < n
        invariant
            i <= n,
            n == neighbor_positions@.len(),
            nview == neighbor_positions@.map_values(|v: Vec3| v@),
            pos@.bounded(COORD_LIMIT as int),
            forall|j: int| 0 <= j < neighbor_positions@.len() ==> neighbor_positions@[j]@.bounded(
                COORD_LIMIT as int,
            ),
            0 <= tolerance <= COORD_LIMIT,
            sep_accum(pos@, nview.take(i as int), tolerance as int) == (SpecVec3 {
                x: ax as int,
                y: ay as int,
                z: az as int,
            }),
            -((i as int) * (tolerance as int)) <= ax as int <= (i as int) * (tolerance as int),
            -((i as int) * (tolerance as int)) <= ay as int <= (i as int) * (tolerance as int),
            -((i as int) * (tolerance as int)) <= az as int <= (i as int) * (tolerance as int),
        decreases n - i,
    {
        let ghost pre = SpecVec3 { x: ax as int, y: ay as int, z: az as int };
        proof {
            assert(nview[i as int] == neighbor_positions@[i as int]@);
            assert(((i as int) + 1) * (tolerance as int) == (i as int) * (tolerance as int)
                + tolerance as int) by (nonlinear_arith);
            assert((i as int) * (tolerance as int) <= 0xffffffffffffffff * 0x10000000000i128)
                by (nonlinear_arith)
                requires
                    0 <= i as int <= 0xffffffffffffffff,
                    0 <= tolerance as int <= 0x10000000000i128,
            ;
        }
        let nb = neighbor_positions[i];
        let off = nb.minus(pos);
        let d2 = off.length_squared();
        proof {
            assert(0 <= (tolerance as int) * (tolerance as int) <= 0x10000000000i128
                * 0x10000000000i128) by (nonlinear_arith)
                requires
                    0 <= tolerance as int <= 0x10000000000i128,
            ;
        }
        let tol_sq: i128 = tolerance as i128 * tolerance as i128;
        if d2 < tol_sq {
            let dist128 = isqrt(d2 as u128);
            proof {
                assert((dist128 as int) < tolerance as int) by (nonlinear_arith)
                    requires
                        0 <= dist128 as int,
                        (dist128 as int) * (dist128 as int) <= d2 as int,
                        (d2 as int) < (tolerance as int) * (tolerance as int),
                        0 <= tolerance,
                ;
                lemma_sqrt_unique(d2 as int, dist128 as int, sqrt_of(d2 as int));
            }
            let dist: i64 = dist128 as i64;
            let w: i64 = tolerance - dist;
            let away = off.normalized().negated();
            proof {
                assert(-((w as int) * (SCALE as int)) <= (away@.x) * (w as int) <= (w as int) * (
                SCALE as int)) by (nonlinear_arith)
                    requires
                        -(SCALE as int) <= away@.x <= SCALE as int,
                        0 <= w,
                ;
                assert(-((w as int) * (SCALE as int)) <= (away@.y) * (w as int) <= (w as int) * (
                SCALE as int)) by (nonlinear_arith)
                    requires
                        -(SCALE as int) <= away@.y <= SCALE as int,
                        0 <= w,
                ;
                assert(-((w as int) * (SCALE as int)) <= (away@.z) * (w as int) <= (w as int) * (
                SCALE as int)) by (nonlinear_arith)
                    requires
                        -(SCALE as int) <= away@.z <= SCALE as int,
                        0 <= w,
                ;
                lemma_dtz_mag((away@.x) * (w as int), SCALE as int, w as int);
                lemma_dtz_mag((away@.y) * (w as int), SCALE as int, w as int);
                lemma_dtz_mag((away@.z) * (w as int), SCALE as int, w as int);
            }
            let tx: i128 = away.x as i128 * w as i128 / (SCALE as i128);
            let ty: i128 = away.y as i128 * w as i128 / (SCALE as i128);
            let tz: i128 = away.z as i128 * w as i128 / (SCALE as i128);
            ax = ax + tx;
            ay = ay + ty;
            az = az + tz;
            proof {
                assert(sep_term(pos@, nview[i as int], tolerance as int) == (SpecVec3 {
                    x: tx as int,
                    y: ty as int,
                    z: tz as int,
                }));
            }
        } else {
            proof {
                assert(sep_term(pos@, nview[i as int], tolerance as int) == SpecVec3::zero());
            }
        }
        proof {
            assert(nview.take((i as int) + 1).drop_last() =~= nview.take(i as int));
            assert(nview.take((i as int) + 1).last() == nview[i as int]);
        }
        i = i + 1;
    }
    proof {
        assert(nview.take(n as int) =~= nview);
    }
    let cx = clamp_wide(ax, COORD_LIMIT);
    let cy = clamp_wide(ay, COORD_LIMIT);
    let cz = clamp_wide(az, COORD_LIMIT);
    if cx == 0 && cy == 0 && cz == 0 {
        *current
    } else {
        let acc = Vec3 { x: cx, y: cy, z: cz };
        acc.normalized()
    }
}

/// Alignment (steer toward the average local velocity): skipped with no
/// same-cell velocities; otherwise the current target is blended halfway
/// toward their average, then renormalized unless zero.
pub fn alignment_target(neighbor_velocities: &Vec<Vec3>, current: &Vec3) -> (r: Vec3)
    requires
        forall|i: int| 0 <= i < neighbor_velocities@.len() ==> neighbor_velocities@[i]@.bounded(
            SCALE as int,
        ),
        current@.bounded(SCALE as int),
    ensures
        r@ == alignment_spec(neighbor_velocities@.map_values(|v: Vec3| v@), current@),
        r@.bounded(SCALE as int),
{
    let ghost vview = neighbor_velocities@.map_values(|v: Vec3| v@);
    let n = neighbor_velocities.len();
    if n == 0 {
        return *current;
    }
    let mut sx: i128 = 0;
    let mut sy: i128 = 0;
    let mut sz: i128 = 0;
    let mut i: usize = 0;
    while i < n
        invariant
            i <= n,
            n == neighbor_velocities@.len(),
            vview == neighbor_velocities@.map_values(|v: Vec3| v@),
            forall|j: int| 0 <= j < neighbor_velocities@.len() ==> neighbor_velocities@[j]@.bounded(
                SCALE as int,
            ),
            sum_vels(vview.take(i as int)) == (SpecVec3 { x: sx as int, y: sy as int, z: sz as int }),
            -((i as int) * (SCALE as int)) <= sx as int <= (i as int) * (SCALE as int),
            -((i as int) * (SCALE as int)) <= sy as int <= (i as int) * (SCALE as int),
            -((i as int) * (SCALE as int)) <= sz as int <= (i as int) * (SCALE as int),
        decreases n - i,
    {
        proof {
            assert(vview[i as int] == neighbor_velocities@[i as int]@);
            assert(vview.take((i as int) + 1).drop_last() =~= vview.take(i as int));
            assert(vview.take((i as int) + 1).last() == vview[i as int]);
            assert(((i as int) + 1) * (SCALE as int) == (i as int) * (SCALE as int) + SCALE as int)
                by (nonlinear_arith);
        }
        let v = neighbor_velocities[i];
        sx = sx + v.x as i128;
        sy = sy + v.y as i128;
        sz = sz + v.z as i128;
        i = i + 1;
    }
    proof {
        assert(vview.take(n as int) =~= vview);
        lemma_dtz_mag(sx as int, n as int, SCALE as int);
        lemma_dtz_mag(sy as int, n as int, SCALE as int);
        lemma_dtz_mag(sz as int, n as int, SCALE as int);
        assert((n as int) * (SCALE as int) == (SCALE as int) * (n as int)) by (nonlinear_arith);
    }
    let nn: i128 = n as i128;
    let avg = Vec3 { x: (sx / nn) as i64, y: (sy / nn) as i64, z: (sz / nn) as i64 };
    let l = current.lerped_toward(&avg, 1, 2);
    proof {
        lemma_lerp_between(current@, avg@, 1, 2);
    }
    if l.x == 0 && l.y == 0 && l.z == 0 {
        proof {
            assert(l@ == SpecVec3::zero());
        }
        l
    } else {
        l.normalized()
    }
}

/// Cohesion / containment: when the position exceeds the world bounds'
/// absolute extent on any axis, the target is blended 30% toward the
/// direction back to the origin; positions within the extent are unaffected.
pub fn cohesion_target(pos: &Vec3, extent: &Vec3, current: &Vec3) -> (r: Vec3)
    requires
        pos@.bounded(COORD_LIMIT as int),
        extent@.bounded(COORD_LIMIT as int),
        current@.bounded(SCALE as int),
    ensures
        r@ == cohesion_spec(pos@, extent@, current@),
        r@.bounded(SCALE as int),
{
    let axx: i64 = if pos.x < 0 { -pos.x } else { pos.x };
    let ayy: i64 = if pos.y < 0 { -pos.y } else { pos.y };
    let azz: i64 = if pos.z < 0 { -pos.z } else { pos.z };
    if axx > extent.x || ayy > extent.y || azz > extent.z {
        let dir = pos.negated().normalized();
        proof {
            if pos@.vneg() == SpecVec3::zero() {
                assert(dir@ == SpecVec3::zero());
            }
        }
        let r = current.lerped_toward(&dir, 3, 10);
        proof {
            lemma_lerp_between(current@, dir@, 3, 10);
        }
        r
    } else {
        *current
    }
}

/// Leveling: clamps the vertical component of the target into a narrow band
/// to discourage steep climbs and dives, applied as a full blend.
pub fn level_target(current: &Vec3) -> (r: Vec3)
    ensures
        r@ == level_spec(current@),
        current@.bounded(SCALE as int) ==> r@.bounded(SCALE as int),
{
    let y = if current.y < -LEVEL_BAND {
        -LEVEL_BAND
    } else if current.y > LEVEL_BAND {
        LEVEL_BAND
    } else {
        current.y
    };
    Vec3 { x: current.x, y, z: current.z }
}

/// The whole steering pipeline for one agent: separation, alignment,
/// cohesion, leveling, in that fixed precedence, from the frozen neighbor
/// state of the previous tick.
pub fn steer_target(
    pos: &Vec3,
    neighbor_positions: &Vec<Vec3>,
    neighbor_velocities: &Vec<Vec3>,
    tolerance: i64,
    extent: &Vec3,
    current: &Vec3,
) -> (r: Vec3)
    requires
        pos@.bounded(COORD_LIMIT as int),
        forall|i: int| 0 <= i < neighbor_positions@.len() ==> neighbor_positions@[i]@.bounded(
            COORD_LIMIT as int,
        ),
        forall|i: int| 0 <= i < neighbor_velocities@.len() ==> neighbor_velocities@[i]@.bounded(
            SCALE as int,
        ),
        0 <= tolerance <= COORD_LIMIT,
        extent@.bounded(COORD_LIMIT as int),
        current@.bounded(SCALE as int),
    ensures
        r@ == steer_spec(
            pos@,
            neighbor_positions@.map_values(|v: Vec3| v@),
            neighbor_velocities@.map_values(|v: Vec3| v@),
            tolerance as int,
            extent@,
            current@,
        ),
        r@.bounded(SCALE as int),
{
    let t1 = separation_target(pos, neighbor_positions, tolerance, current);
    let t2 = alignment_target(neighbor_velocities, &t1);
    let t3 = cohesion_target(pos, extent, &t2);
    level_target(&t3)
}


/// With zero same-cell neighbors, neither separation nor alignment moves
/// the target: both leave it exactly as it was.
pub proof fn lemma_no_neighbors_idempotent(pos: SpecVec3, tol: int, cur: SpecVec3)
    ensures
        separation_spec(pos, Seq::<SpecVec3>::empty(), tol, cur) == cur,
        alignment_spec(Seq::<SpecVec3>::empty(), cur) == cur,
{
    assert(sep_accum(pos, Seq::<SpecVec3>::empty(), tol) == SpecVec3::zero());
}

proof fn lemma_sum_vels_uniform(vels: Seq<SpecVec3>, v: SpecVec3)
    requires
        forall|m: int| 0 <= m < vels.len() ==> vels[m] == v,
    ensures
        sum_vels(vels) == (SpecVec3 {
            x: vels.len() * v.x,
            y: vels.len() * v.y,
            z: vels.len() * v.z,
        }),
    decreases vels.len(),
{
    if vels.len() == 0 {
    } else {
        lemma_sum_vels_uniform(vels.drop_last(), v);
        let n = vels.len() as int;
        assert(vels.last() == v);
        assert((n - 1) * v.x + v.x == n * v.x) by (nonlinear_arith);
        assert((n - 1) * v.y + v.y == n * v.y) by (nonlinear_arith);
        assert((n - 1) * v.z + v.z == n * v.z) by (nonlinear_arith);
    }
}

proof fn lemma_dtz_multiple(c: int, n: int)
    requires
        n > 0,
    ensures
        dtz(n * c, n) == c,
{
    if c >= 0 {
        vstd::arithmetic::div_mod::lemma_div_multiples_vanish(c, n);
    } else {
        vstd::arithmetic::div_mod::lemma_div_multiples_vanish(-c, n);
        assert(-(n * c) == n * (-c)) by (nonlinear_arith);
    }
}

/// Alignment round-trip: when every same-cell neighbor shares one velocity
/// `v`, the pre-normalization blend lands exactly halfway from the prior
/// target toward `v`.
pub proof fn lemma_alignment_uniform(vels: Seq<SpecVec3>, v: SpecVec3, cur: SpecVec3)
    requires
        vels.len() > 0,
        forall|m: int| 0 <= m < vels.len() ==> vels[m] == v,
    ensures
        alignment_blend(vels, cur) == cur.lerped(v, 1, 2),
{
    lemma_sum_vels_uniform(vels, v);
    let n = vels.len() as int;
    lemma_dtz_multiple(v.x, n);
    lemma_dtz_multiple(v.y, n);
    lemma_dtz_multiple(v.z, n);
}

/// Cohesion leaves an agent within the world bounds' absolute extent
/// untouched: only positions beyond the extent on some axis are steered
/// back toward the origin.
pub proof fn lemma_cohesion_inside(pos: SpecVec3, extent: SpecVec3, cur: SpecVec3)
    requires
        -extent.x <= pos.x <= extent.x,
        -extent.y <= pos.y <= extent.y,
        -extent.z <= pos.z <= extent.z,
    ensures
        cohesion_spec(pos, extent, cur) == cur,
{
}

} // verus!
