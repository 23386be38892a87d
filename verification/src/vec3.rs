//! Fixed-point 3D vectors and the exact integer arithmetic the flocking
//! pipeline is specified with: truncating division, integer square root,
//! normalization to unit scale, and linear interpolation.

use vstd::prelude::*;
use crate::SCALE;

verus! {

/// A 3D vector in fixed-point coordinates (`SCALE` steps per world unit).
#[derive(Clone, Copy, PartialEq, Eq, Structural, Debug)]
pub struct Vec3 {
    pub x: i64,
    pub y: i64,
    pub z: i64,
}

/// The mathematical value of a [`Vec3`]: the same three coordinates as
/// unbounded integers.
pub ghost struct SpecVec3 {
    pub x: int,
    pub y: int,
    pub z: int,
}

impl View for Vec3 {
    type V = SpecVec3;

    open spec fn view(&self) -> SpecVec3 {
        SpecVec3 { x: self.x as int, y: self.y as int, z: self.z as int }
    }
}

/// Division truncating toward zero (the semantics of Rust's `/` on signed
/// integers), defined for positive divisors.
pub open spec fn dtz(a: int, b: int) -> int
    recommends
        b > 0,
{
    if a >= 0 {
        a / b
    } else {
        -((-a) / b)
    }
}

/// `x` clamped into `[lo, hi]`.
pub open spec fn clamp_int(x: int, lo: int, hi: int) -> int
    recommends
        lo <= hi,
{
    if x < lo {
        lo
    } else if x > hi {
        hi
    } else {
        x
    }
}

/// `r` is the floor of the square root of `n`.
pub open spec fn is_sqrt(n: int, r: int) -> bool {
    &&& 0 <= r
    &&& r * r <= n
    &&& n < (r + 1) * (r + 1)
}

/// The floor of the square root of a nonnegative integer.
pub open spec fn sqrt_of(n: int) -> int
    recommends
        n >= 0,
{
    choose|r: int| is_sqrt(n, r)
}

impl SpecVec3 {
    pub open spec fn zero() -> SpecVec3 {
        SpecVec3 { x: 0, y: 0, z: 0 }
    }

    pub open spec fn vadd(self, o: SpecVec3) -> SpecVec3 {
        SpecVec3 { x: self.x + o.x, y: self.y + o.y, z: self.z + o.z }
    }

    pub open spec fn vsub(self, o: SpecVec3) -> SpecVec3 {
        SpecVec3 { x: self.x - o.x, y: self.y - o.y, z: self.z - o.z }
    }

    pub open spec fn vneg(self) -> SpecVec3 {
        SpecVec3 { x: -self.x, y: -self.y, z: -self.z }
    }

    pub open spec fn len_sq(self) -> int {
        self.x * self.x + self.y * self.y + self.z * self.z
    }

    /// Every coordinate has magnitude at most `b`.
    pub open spec fn bounded(self, b: int) -> bool {
        &&& -b <= self.x <= b
        &&& -b <= self.y <= b
        &&& -b <= self.z <= b
    }

    /// Scaled to unit length (`SCALE`), or unchanged if zero: each coordinate
    /// becomes `c * SCALE / |self|`, truncating toward zero.
    pub open spec fn normalized(self) -> SpecVec3 {
        if self == SpecVec3::zero() {
            self
        } else {
            let l = sqrt_of(self.len_sq());
            SpecVec3 {
                x: dtz(self.x * SCALE, l),
                y: dtz(self.y * SCALE, l),
                z: dtz(self.z * SCALE, l),
            }
        }
    }

    /// Linear interpolation from `self` toward `o` by the fraction
    /// `num / den`, each coordinate truncating toward zero.
    pub open spec fn lerped(self, o: SpecVec3, num: int, den: int) -> SpecVec3 {
        SpecVec3 {
            x: self.x + dtz((o.x - self.x) * num, den),
            y: self.y + dtz((o.y - self.y) * num, den),
            z: self.z + dtz((o.z - self.z) * num, den),
        }
    }

    /// Each coordinate clamped into `[-b, b]`.
    pub open spec fn clamped(self, b: int) -> SpecVec3 {
        SpecVec3 {
            x: clamp_int(self.x, -b, b),
            y: clamp_int(self.y, -b, b),
            z: clamp_int(self.z, -b, b),
        }
    }
}

/// The floor of the square root of `n` is unique.
pub proof fn lemma_sqrt_unique(n: int, a: int, b: int)
    requires
        is_sqrt(n, a),
        is_sqrt(n, b),
    ensures
        a == b,
{
    assert(a == b) by (nonlinear_arith)
        requires
            0 <= a,
            a * a <= n,
            n < (a + 1) * (a + 1),
            0 <= b,
            b * b <= n,
            n < (b + 1) * (b + 1),
    ;
}

/// Floor square root by binary search.
pub fn isqrt(n: u128) -> (r: u128)
    ensures
        is_sqrt(n as int, r as int),
        r == sqrt_of(n as int),
{
    let mut lo: u128 = 0;
    let mut hi: u128 = 0x10000000000000000u128;
    assert(hi * hi > n) by (nonlinear_arith)
        requires
            hi == 0x10000000000000000u128,
            n <= u128::MAX,
    ;
    while lo + 1 < hi
        invariant
            lo < hi,
            hi <= 0x10000000000000000u128,
            lo * lo <= n,
            n < hi * hi,
        decreases hi - lo,
    {
        let mid: u128 = lo + (hi - lo) / 2;
        assert(mid * mid <= 0xffffffffffffffffffffffffffffffffu128) by (nonlinear_arith)
            requires
                mid < 0x10000000000000000u128,
        ;
        if mid * mid <= n {
            lo = mid;
        } else {
            hi = mid;
        }
    }
    proof {
        assert(is_sqrt(n as int, lo as int));
        lemma_sqrt_unique(n as int, lo as int, sqrt_of(n as int));
    }
    lo
}


/// Largest coordinate magnitude the vector operations accept: leaves room for
/// the products and sums below inside `i64` and `i128`.
pub const VEC_LIMIT: i64 = 4_000_000_000_000;

/// Truncating division shrinks magnitude: `|a| <= m * b` gives `|a / b| <= m`.
pub proof fn lemma_dtz_mag(a: int, b: int, m: int)
    requires
        b > 0,
        0 <= m,
        -(m * b) <= a <= m * b,
    ensures
        -m <= dtz(a, b) <= m,
{
    if a >= 0 {
        vstd::arithmetic::div_mod::lemma_div_pos_is_pos(a, b);
        vstd::arithmetic::div_mod::lemma_div_is_ordered(a, m * b, b);
        vstd::arithmetic::div_mod::lemma_div_multiples_vanish(m, b);
        assert(m * b == b * m) by (nonlinear_arith);
        assert((b * m) / b == m);
        assert(dtz(a, b) == a / b);
        assert(a / b <= (m * b) / b);
    } else {
        vstd::arithmetic::div_mod::lemma_div_pos_is_pos(-a, b);
        vstd::arithmetic::div_mod::lemma_div_is_ordered(-a, m * b, b);
        vstd::arithmetic::div_mod::lemma_div_multiples_vanish(m, b);
        assert(m * b == b * m) by (nonlinear_arith);
        assert((b * m) / b == m);
        assert(dtz(a, b) == -((-a) / b));
        assert((-a) / b <= (m * b) / b);
    }
}

/// Truncating division keeps the sign and never grows past the numerator.
pub proof fn lemma_dtz_between(a: int, b: int)
    requires
        b > 0,
    ensures
        a >= 0 ==> 0 <= dtz(a, b) <= a,
        a <= 0 ==> a <= dtz(a, b) <= 0,
{
    if a >= 0 {
        assert(a <= a * b) by (nonlinear_arith)
            requires
                a >= 0,
                b >= 1,
        ;
        lemma_dtz_mag(a, b, a);
    } else {
        assert(-a <= (-a) * b) by (nonlinear_arith)
            requires
                a < 0,
                b >= 1,
        ;
        lemma_dtz_mag(a, b, -a);
    }
}

/// No coordinate exceeds the vector's length.
pub proof fn lemma_coord_le_sqrt(v: SpecVec3, l: int)
    requires
        is_sqrt(v.len_sq(), l),
    ensures
        -l <= v.x <= l,
        -l <= v.y <= l,
        -l <= v.z <= l,
{
    assert(-l <= v.x <= l && -l <= v.y <= l && -l <= v.z <= l) by (nonlinear_arith)
        requires
            0 <= l,
            v.len_sq() < (l + 1) * (l + 1),
            v.len_sq() == v.x * v.x + v.y * v.y + v.z * v.z,
    ;
}

/// A vector whose squared length is zero is the zero vector.
pub proof fn lemma_len_sq_zero(v: SpecVec3)
    requires
        v.len_sq() == 0,
    ensures
        v == SpecVec3::zero(),
{
    assert(v.x == 0 && v.y == 0 && v.z == 0) by (nonlinear_arith)
        requires
            v.x * v.x + v.y * v.y + v.z * v.z == 0,
    ;
}

impl Vec3 {
    /// The vector `(x, y, z)`.
    pub fn new(x: i64, y: i64, z: i64) -> (r: Vec3)
        ensures
            r@ == (SpecVec3 { x: x as int, y: y as int, z: z as int }),
    {
        Vec3 { x, y, z }
    }

    /// The zero vector.
    pub fn zero() -> (r: Vec3)
        ensures
            r@ == SpecVec3::zero(),
    {
        Vec3 { x: 0, y: 0, z: 0 }
    }

    /// Componentwise difference `self - o`.
    pub fn minus(&self, o: &Vec3) -> (r: Vec3)
        requires
            self@.bounded(VEC_LIMIT as int),
            o@.bounded(VEC_LIMIT as int),
        ensures
            r@ == self@.vsub(o@),
    {
        Vec3 { x: self.x - o.x, y: self.y - o.y, z: self.z - o.z }
    }

    /// Componentwise negation.
    pub fn negated(&self) -> (r: Vec3)
        requires
            self@.bounded(VEC_LIMIT as int),
        ensures
            r@ == self@.vneg(),
    {
        Vec3 { x: -self.x, y: -self.y, z: -self.z }
    }

    /// The squared Euclidean length, exact in `i128`.
    pub fn length_squared(&self) -> (r: i128)
        requires
            self@.bounded(VEC_LIMIT as int),
        ensures
            r == self@.len_sq(),
            r >= 0,
    {
        proof {
            let l = VEC_LIMIT as int;
            assert(0 <= self@.x * self@.x <= l * l && 0 <= self@.y * self@.y <= l * l
                && 0 <= self@.z * self@.z <= l * l) by (nonlinear_arith)
                requires
                    -l <= self@.x <= l,
                    -l <= self@.y <= l,
                    -l <= self@.z <= l,
                    l == 4_000_000_000_000,
            ;
        }
        let x: i128 = self.x as i128;
        let y: i128 = self.y as i128;
        let z: i128 = self.z as i128;
        x * x + y * y + z * z
    }

    /// Scaled to unit length `SCALE` (each coordinate `c * SCALE / length`,
    /// truncating toward zero); the zero vector is returned unchanged.
    pub fn normalized(&self) -> (r: Vec3)
        requires
            self@.bounded(VEC_LIMIT as int),
        ensures
            r@ == self@.normalized(),
            r@.bounded(SCALE as int),
    {
        let n = self.length_squared();
        if n == 0 {
            proof {
                lemma_len_sq_zero(self@);
                assert(self@.bounded(SCALE as int));
            }
            *self
        } else {
            let l128: u128 = isqrt(n as u128);
            proof {
                let li: int = l128 as int;
                lemma_coord_le_sqrt(self@, li);
                assert(1 <= li && li <= 0xffffffffffffffff) by (nonlinear_arith)
                    requires
                        li >= 0,
                        li * li <= n,
                        1 <= n as int <= 0x7fffffffffffffffffffffffffffffff,
                        n < (li + 1) * (li + 1),
                ;
                lemma_dtz_mag(self@.x * (SCALE as int), l128 as int, SCALE as int);
                lemma_dtz_mag(self@.y * (SCALE as int), l128 as int, SCALE as int);
                lemma_dtz_mag(self@.z * (SCALE as int), l128 as int, SCALE as int);
                assert(self@ != SpecVec3::zero());
            }
            let l: i128 = l128 as i128;
            let rx: i128 = self.x as i128 * SCALE as i128 / l;
            let ry: i128 = self.y as i128 * SCALE as i128 / l;
            let rz: i128 = self.z as i128 * SCALE as i128 / l;
            Vec3 { x: rx as i64, y: ry as i64, z: rz as i64 }
        }
    }

    /// Linear interpolation from `self` toward `o` by `num / den`; each
    /// coordinate stays between the two endpoints.
    pub fn lerped_toward(&self, o: &Vec3, num: i64, den: i64) -> (r: Vec3)
        requires
            self@.bounded(VEC_LIMIT as int),
            o@.bounded(VEC_LIMIT as int),
            0 <= num <= den,
            0 < den <= SCALE,
        ensures
            r@ == self@.lerped(o@, num as int, den as int),
    {
        let rx = lerp_coord(self.x, o.x, num, den);
        let ry = lerp_coord(self.y, o.y, num, den);
        let rz = lerp_coord(self.z, o.z, num, den);
        Vec3 { x: rx, y: ry, z: rz }
    }

    /// Each coordinate clamped into `[-b, b]`.
    pub fn clamped3(&self, b: i64) -> (r: Vec3)
        requires
            0 <= b,
        ensures
            r@ == self@.clamped(b as int),
    {
        Vec3 {
            x: clamp_coord(self.x, -b, b),
            y: clamp_coord(self.y, -b, b),
            z: clamp_coord(self.z, -b, b),
        }
    }
}

/// One coordinate of a linear interpolation: `a + (b - a) * num / den`.
fn lerp_coord(a: i64, b: i64, num: i64, den: i64) -> (r: i64)
    requires
        -(VEC_LIMIT as int) <= a <= VEC_LIMIT as int,
        -(VEC_LIMIT as int) <= b <= VEC_LIMIT as int,
        0 <= num <= den,
        0 < den <= SCALE,
    ensures
        r == a + dtz((b - a) * num, den as int),
{
    let delta: i128 = b as i128 - a as i128;
    let ghost de: int = delta as int;
    let ghost nu: int = num as int;
    let ghost dn: int = den as int;
    let ghost dd: int = de * nu;
    proof {
        assert((de >= 0 ==> 0 <= dd <= de * dn) && (de < 0 ==> -((-de) * dn) <= dd <= (-de) * dn)
            && -8_000_000_000_000_000_000 <= dd <= 8_000_000_000_000_000_000)
            by (nonlinear_arith)
            requires
                dd == de * nu,
                0 <= nu <= dn,
                dn <= 1_000_000,
                -8_000_000_000_000 <= de <= 8_000_000_000_000,
        ;
        if de >= 0 {
            lemma_dtz_mag(dd, dn, de);
        } else {
            lemma_dtz_mag(dd, dn, -de);
        }
    }
    let d: i128 = delta * num as i128;
    let q: i128 = d / den as i128;
    (a as i128 + q) as i64
}

/// `x` clamped into `[lo, hi]`.
fn clamp_coord(x: i64, lo: i64, hi: i64) -> (r: i64)
    requires
        lo <= hi,
    ensures
        r == clamp_int(x as int, lo as int, hi as int),
{
    if x < lo {
        lo
    } else if x > hi {
        hi
    } else {
        x
    }
}

/// Interpolating with `0 <= num <= den` lands componentwise between the
/// endpoints.
pub proof fn lemma_lerp_between(a: SpecVec3, b: SpecVec3, num: int, den: int)
    requires
        0 <= num <= den,
        0 < den,
    ensures
        a.x <= b.x ==> a.x <= a.lerped(b, num, den).x <= b.x,
        b.x <= a.x ==> b.x <= a.lerped(b, num, den).x <= a.x,
        a.y <= b.y ==> a.y <= a.lerped(b, num, den).y <= b.y,
        b.y <= a.y ==> b.y <= a.lerped(b, num, den).y <= a.y,
        a.z <= b.z ==> a.z <= a.lerped(b, num, den).z <= b.z,
        b.z <= a.z ==> b.z <= a.lerped(b, num, den).z <= a.z,
{
    lemma_lerp_coord_between(a.x, b.x, num, den);
    lemma_lerp_coord_between(a.y, b.y, num, den);
    lemma_lerp_coord_between(a.z, b.z, num, den);
}

proof fn lemma_lerp_coord_between(a: int, b: int, num: int, den: int)
    requires
        0 <= num <= den,
        0 < den,
    ensures
        a <= b ==> a <= a + dtz((b - a) * num, den) <= b,
        b <= a ==> b <= a + dtz((b - a) * num, den) <= a,
{
    let delta = b - a;
    let d = delta * num;
    assert((delta >= 0 ==> -(delta * den) <= d <= delta * den) && (delta < 0 ==> -((-delta) * den) <= d <= (-delta) * den))
        by (nonlinear_arith)
        requires
            d == delta * num,
            0 <= num <= den,
    ;
    if delta >= 0 {
        lemma_dtz_mag(d, den, delta);
        assert(d >= 0) by (nonlinear_arith)
            requires
                d == delta * num,
                delta >= 0,
                num >= 0,
        ;
        lemma_dtz_between(d, den);
    } else {
        lemma_dtz_mag(d, den, -delta);
        assert(d <= 0) by (nonlinear_arith)
            requires
                d == delta * num,
                delta < 0,
                num >= 0,
        ;
        lemma_dtz_between(d, den);
    }
}


/// `x` clamped into `[-b, b]` and narrowed back to `i64`.
pub fn clamp_wide(x: i128, b: i64) -> (r: i64)
    requires
        0 <= b,
    ensures
        r as int == clamp_int(x as int, -(b as int), b as int),
{
    if x < -(b as i128) {
        -b
    } else if x > b as i128 {
        b
    } else {
        x as i64
    }
}

} // verus!
