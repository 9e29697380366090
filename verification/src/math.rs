//! Scalar, vector, quaternion and interval arithmetic over signed
//! fixed-point integers, together with the axis-aligned bounding box.
//!
//! Every executable function carries an exact contract: the result is pinned
//! to an integer formula, with truncating division (`tdiv`) where a
//! fixed-point rescale occurs.

use vstd::prelude::*;
use vstd::arithmetic::div_mod::{
    lemma_div_nonincreasing, lemma_div_pos_is_pos, lemma_multiply_divide_le,
    lemma_div_multiples_vanish,
};

verus! {

/// Bound on vector components accepted by `dot128` and the rotation helpers.
pub const VEC_LIMIT: i64 = 0x100_0000_0000;

/// Bound on vector components accepted by `cross`.
pub const CROSS_LIMIT: i64 = 0x4000_0000;

/// Bound on interval endpoints; projections of bounded vectors stay well
/// inside it.
pub const INTERVAL_LIMIT: i128 = 0x1_0000_0000_0000_0000_0000_0000_0000;

/// Truncating division (round toward zero), the semantics of Rust's `/` on
/// signed integers, expressed over the Euclidean `/` of specifications.
pub open spec fn tdiv(a: int, b: int) -> int
    recommends
        b >= 1,
{
    if a >= 0 {
        a / b
    } else {
        -((-a) / b)
    }
}

/// Truncating division with the divisor's sign normalized away:
/// `qdiv(a, b)` is the quotient `a / b` rounded toward zero, for `b != 0`.
pub open spec fn qdiv(a: int, b: int) -> int
    recommends
        b != 0,
{
    if b > 0 {
        tdiv(a, b)
    } else {
        tdiv(-a, -b)
    }
}

/// Minimum of two mathematical integers.
pub open spec fn smin(a: int, b: int) -> int {
    if a <= b {
        a
    } else {
        b
    }
}

/// Maximum of two mathematical integers.
pub open spec fn smax(a: int, b: int) -> int {
    if a >= b {
        a
    } else {
        b
    }
}

/// A product of values bounded by `m` and `n` is bounded by `m * n`.
pub proof fn lemma_mul_bound(a: int, b: int, m: int, n: int)
    by (nonlinear_arith)
    requires
        -m <= a <= m,
        -n <= b <= n,
        0 <= m,
        0 <= n,
    ensures
        -(m * n) <= a * b <= m * n,
{
}

/// Truncating division by `b >= 1` of a value bounded by `k * b` yields a
/// quotient bounded by `k`; the quotient never grows in magnitude.
pub proof fn lemma_tdiv_bound(a: int, b: int, k: int)
    requires
        b >= 1,
        k >= 0,
        -(k * b) <= a <= k * b,
    ensures
        -k <= tdiv(a, b) <= k,
        -(if a >= 0 { a } else { -a }) <= tdiv(a, b) <= (if a >= 0 { a } else { -a }),
        a >= 0 ==> tdiv(a, b) >= 0,
        a < 0 ==> tdiv(a, b) <= 0,
{
    assert(k * b == b * k) by (nonlinear_arith);
    if a >= 0 {
        lemma_div_pos_is_pos(a, b);
        lemma_div_nonincreasing(a, b);
        lemma_multiply_divide_le(a, b, k);
    } else {
        lemma_div_pos_is_pos(-a, b);
        lemma_div_nonincreasing(-a, b);
        lemma_multiply_divide_le(-a, b, k);
    }
}

/// Dividing an exact multiple is exact: `tdiv(v * b, b) == v`.
pub proof fn lemma_tdiv_exact(v: int, b: int)
    requires
        b >= 1,
    ensures
        tdiv(v * b, b) == v,
{
    if v >= 0 {
        lemma_div_multiples_vanish(v, b);
        assert(b * v == v * b) by (nonlinear_arith);
    } else {
        lemma_div_multiples_vanish(-v, b);
        assert(b * -v == -(v * b)) by (nonlinear_arith);
        assert(v * b < 0) by (nonlinear_arith)
            requires
                v < 0,
                b >= 1,
        ;
    }
}

/// Truncating division of an `i64` by a positive divisor.
pub fn div_i64(a: i64, b: i64) -> (r: i64)
    requires
        b >= 1,
    ensures
        r == tdiv(a as int, b as int),
        -(if a >= 0 { a as int } else { -(a as int) }) <= r
            <= (if a >= 0 { a as int } else { -(a as int) }),
{
    proof {
        if a >= 0 {
            lemma_div_pos_is_pos(a as int, b as int);
            lemma_div_nonincreasing(a as int, b as int);
        } else {
            lemma_div_pos_is_pos(-(a as int), b as int);
            lemma_div_nonincreasing(-(a as int), b as int);
        }
    }
    match a.checked_div(b) {
        Some(q) => q,
        None => {
            proof {
                assert(false);
            }
            0
        },
    }
}

/// Truncating division of an `i128` by a positive divisor.
pub fn div_i128(a: i128, b: i128) -> (r: i128)
    requires
        b >= 1,
    ensures
        r == tdiv(a as int, b as int),
        -(if a >= 0 { a as int } else { -(a as int) }) <= r
            <= (if a >= 0 { a as int } else { -(a as int) }),
{
    proof {
        if a >= 0 {
            lemma_div_pos_is_pos(a as int, b as int);
            lemma_div_nonincreasing(a as int, b as int);
        } else {
            lemma_div_pos_is_pos(-(a as int), b as int);
            lemma_div_nonincreasing(-(a as int), b as int);
        }
    }
    match a.checked_div(b) {
        Some(q) => q,
        None => {
            proof {
                assert(false);
            }
            0
        },
    }
}

/// A three-component vector of fixed-point scalars.
#[derive(Clone, Copy, Debug, PartialEq, Eq, Structural)]
pub struct Vec3 {
    pub x: i64,
    pub y: i64,
    pub z: i64,
}

/// Every component of `v` lies in `[-b, b]`.
pub open spec fn bounded(v: Vec3, b: int) -> bool {
    &&& -b <= v.x <= b
    &&& -b <= v.y <= b
    &&& -b <= v.z <= b
}

/// The dot product as a mathematical integer.
pub open spec fn dot_spec(a: Vec3, b: Vec3) -> int {
    a.x * b.x + a.y * b.y + a.z * b.z
}

/// The cross product, one component at a time.
pub open spec fn cross_x(a: Vec3, b: Vec3) -> int {
    a.y * b.z - a.z * b.y
}

pub open spec fn cross_y(a: Vec3, b: Vec3) -> int {
    a.z * b.x - a.x * b.z
}

pub open spec fn cross_z(a: Vec3, b: Vec3) -> int {
    a.x * b.y - a.y * b.x
}

pub fn vec3(x: i64, y: i64, z: i64) -> (r: Vec3)
    ensures
        r.x == x,
        r.y == y,
        r.z == z,
{
    Vec3 { x, y, z }
}

/// Componentwise maximum.
pub fn cwise_max(v1: Vec3, v2: Vec3) -> (r: Vec3)
    ensures
        r.x == smax(v1.x as int, v2.x as int),
        r.y == smax(v1.y as int, v2.y as int),
        r.z == smax(v1.z as int, v2.z as int),
{
    Vec3 {
        x: if v1.x >= v2.x { v1.x } else { v2.x },
        y: if v1.y >= v2.y { v1.y } else { v2.y },
        z: if v1.z >= v2.z { v1.z } else { v2.z },
    }
}

/// Componentwise minimum.
pub fn cwise_min(v1: Vec3, v2: Vec3) -> (r: Vec3)
    ensures
        r.x == smin(v1.x as int, v2.x as int),
        r.y == smin(v1.y as int, v2.y as int),
        r.z == smin(v1.z as int, v2.z as int),
{
    Vec3 {
        x: if v1.x <= v2.x { v1.x } else { v2.x },
        y: if v1.y <= v2.y { v1.y } else { v2.y },
        z: if v1.z <= v2.z { v1.z } else { v2.z },
    }
}

/// Componentwise product.
pub fn cwise_mul(v1: Vec3, v2: Vec3) -> (r: Vec3)
    requires
        i64::MIN <= v1.x * v2.x <= i64::MAX,
        i64::MIN <= v1.y * v2.y <= i64::MAX,
        i64::MIN <= v1.z * v2.z <= i64::MAX,
    ensures
        r.x == v1.x * v2.x,
        r.y == v1.y * v2.y,
        r.z == v1.z * v2.z,
{
    let x: i128 = (v1.x as i128) * (v2.x as i128);
    let y: i128 = (v1.y as i128) * (v2.y as i128);
    let z: i128 = (v1.z as i128) * (v2.z as i128);
    Vec3 { x: x as i64, y: y as i64, z: z as i64 }
}

/// Componentwise sum.
pub fn vadd(v1: Vec3, v2: Vec3) -> (r: Vec3)
    requires
        i64::MIN <= v1.x + v2.x <= i64::MAX,
        i64::MIN <= v1.y + v2.y <= i64::MAX,
        i64::MIN <= v1.z + v2.z <= i64::MAX,
    ensures
        r.x == v1.x + v2.x,
        r.y == v1.y + v2.y,
        r.z == v1.z + v2.z,
{
    Vec3 { x: v1.x + v2.x, y: v1.y + v2.y, z: v1.z + v2.z }
}

/// Dot product, computed exactly in 128 bits.
pub fn dot128(a: Vec3, b: Vec3) -> (r: i128)
    requires
        bounded(a, VEC_LIMIT as int),
        bounded(b, VEC_LIMIT as int),
    ensures
        r == dot_spec(a, b),
{
    proof {
        lemma_mul_bound(a.x as int, b.x as int, VEC_LIMIT as int, VEC_LIMIT as int);
        lemma_mul_bound(a.y as int, b.y as int, VEC_LIMIT as int, VEC_LIMIT as int);
        lemma_mul_bound(a.z as int, b.z as int, VEC_LIMIT as int, VEC_LIMIT as int);
    }
    (a.x as i128) * (b.x as i128) + (a.y as i128) * (b.y as i128) + (a.z as i128) * (b.z as i128)
}

/// Cross product of two bounded vectors.
pub fn cross(a: Vec3, b: Vec3) -> (r: Vec3)
    requires
        bounded(a, CROSS_LIMIT as int),
        bounded(b, CROSS_LIMIT as int),
    ensures
        r.x == cross_x(a, b),
        r.y == cross_y(a, b),
        r.z == cross_z(a, b),
        bounded(r, 2 * (CROSS_LIMIT as int) * (CROSS_LIMIT as int)),
{
    proof {
        lemma_mul_bound(a.y as int, b.z as int, CROSS_LIMIT as int, CROSS_LIMIT as int);
        lemma_mul_bound(a.z as int, b.y as int, CROSS_LIMIT as int, CROSS_LIMIT as int);
        lemma_mul_bound(a.z as int, b.x as int, CROSS_LIMIT as int, CROSS_LIMIT as int);
        lemma_mul_bound(a.x as int, b.z as int, CROSS_LIMIT as int, CROSS_LIMIT as int);
        lemma_mul_bound(a.x as int, b.y as int, CROSS_LIMIT as int, CROSS_LIMIT as int);
        lemma_mul_bound(a.y as int, b.x as int, CROSS_LIMIT as int, CROSS_LIMIT as int);
    }
    let x: i128 = (a.y as i128) * (b.z as i128) - (a.z as i128) * (b.y as i128);
    let y: i128 = (a.z as i128) * (b.x as i128) - (a.x as i128) * (b.z as i128);
    let z: i128 = (a.x as i128) * (b.y as i128) - (a.y as i128) * (b.x as i128);
    Vec3 { x: x as i64, y: y as i64, z: z as i64 }
}

/// A 3x3 matrix stored as three column vectors.
#[derive(Clone, Copy, Debug, PartialEq, Eq, Structural)]
pub struct Mat3 {
    pub x_axis: Vec3,
    pub y_axis: Vec3,
    pub z_axis: Vec3,
}

/// The skew-symmetric matrix of `w`, so that multiplying it by `v` yields
/// the cross product of `w` and `v`.
pub fn skew(w: Vec3) -> (r: Mat3)
    requires
        bounded(w, i64::MAX as int),
    ensures
        r.x_axis.x == 0 && r.x_axis.y == w.z && r.x_axis.z == -w.y,
        r.y_axis.x == -w.z && r.y_axis.y == 0 && r.y_axis.z == w.x,
        r.z_axis.x == w.y && r.z_axis.y == -w.x && r.z_axis.z == 0,
{
    Mat3 {
        x_axis: Vec3 { x: 0, y: w.z, z: -w.y },
        y_axis: Vec3 { x: -w.z, y: 0, z: w.x },
        z_axis: Vec3 { x: w.y, y: -w.x, z: 0 },
    }
}

/// A quaternion of fixed-point scalars; `w` is the real part.
#[derive(Clone, Copy, Debug, PartialEq, Eq, Structural)]
pub struct Quat {
    pub x: i64,
    pub y: i64,
    pub z: i64,
    pub w: i64,
}

/// Every component of `q` lies in `[-b, b]`.
pub open spec fn bounded_q(q: Quat, b: int) -> bool {
    &&& -b <= q.x <= b
    &&& -b <= q.y <= b
    &&& -b <= q.z <= b
    &&& -b <= q.w <= b
}

/// The Hamilton product, one component at a time: real part.
pub open spec fn qmul_w(q1: Quat, q2: Quat) -> int {
    q1.w * q2.w - (q1.x * q2.x + q1.y * q2.y + q1.z * q2.z)
}

pub open spec fn qmul_x(q1: Quat, q2: Quat) -> int {
    q1.w * q2.x + q2.w * q1.x + (q1.y * q2.z - q1.z * q2.y)
}

pub open spec fn qmul_y(q1: Quat, q2: Quat) -> int {
    q1.w * q2.y + q2.w * q1.y + (q1.z * q2.x - q1.x * q2.z)
}

pub open spec fn qmul_z(q1: Quat, q2: Quat) -> int {
    q1.w * q2.z + q2.w * q1.z + (q1.x * q2.y - q1.y * q2.x)
}

pub fn quat(x: i64, y: i64, z: i64, w: i64) -> (r: Quat)
    ensures
        r.x == x,
        r.y == y,
        r.z == z,
        r.w == w,
{
    Quat { x, y, z, w }
}

/// Quaternion (Hamilton) product: the real parts multiply and the dot
/// product of the vector parts is subtracted; the vector part combines the
/// scaled vector parts with their cross product.
pub fn qmul(q1: Quat, q2: Quat) -> (r: Quat)
    requires
        bounded_q(q1, CROSS_LIMIT as int),
        bounded_q(q2, CROSS_LIMIT as int),
    ensures
        r.w == qmul_w(q1, q2),
        r.x == qmul_x(q1, q2),
        r.y == qmul_y(q1, q2),
        r.z == qmul_z(q1, q2),
        bounded_q(r, 4 * (CROSS_LIMIT as int) * (CROSS_LIMIT as int)),
{
    proof {
        let cl = CROSS_LIMIT as int;
        lemma_mul_bound(q1.w as int, q2.w as int, cl, cl);
        lemma_mul_bound(q1.x as int, q2.x as int, cl, cl);
        lemma_mul_bound(q1.y as int, q2.y as int, cl, cl);
        lemma_mul_bound(q1.z as int, q2.z as int, cl, cl);
        lemma_mul_bound(q1.w as int, q2.x as int, cl, cl);
        lemma_mul_bound(q2.w as int, q1.x as int, cl, cl);
        lemma_mul_bound(q1.y as int, q2.z as int, cl, cl);
        lemma_mul_bound(q1.z as int, q2.y as int, cl, cl);
        lemma_mul_bound(q1.w as int, q2.y as int, cl, cl);
        lemma_mul_bound(q2.w as int, q1.y as int, cl, cl);
        lemma_mul_bound(q1.z as int, q2.x as int, cl, cl);
        lemma_mul_bound(q1.x as int, q2.z as int, cl, cl);
        lemma_mul_bound(q1.w as int, q2.z as int, cl, cl);
        lemma_mul_bound(q2.w as int, q1.z as int, cl, cl);
        lemma_mul_bound(q1.x as int, q2.y as int, cl, cl);
        lemma_mul_bound(q1.y as int, q2.x as int, cl, cl);
    }
    let w: i128 = (q1.w as i128) * (q2.w as i128) - ((q1.x as i128) * (q2.x as i128) + (q1.y
        as i128) * (q2.y as i128) + (q1.z as i128) * (q2.z as i128));
    let x: i128 = (q1.w as i128) * (q2.x as i128) + (q2.w as i128) * (q1.x as i128) + ((q1.y
        as i128) * (q2.z as i128) - (q1.z as i128) * (q2.y as i128));
    let y: i128 = (q1.w as i128) * (q2.y as i128) + (q2.w as i128) * (q1.y as i128) + ((q1.z
        as i128) * (q2.x as i128) - (q1.x as i128) * (q2.z as i128));
    let z: i128 = (q1.w as i128) * (q2.z as i128) + (q2.w as i128) * (q1.z as i128) + ((q1.x
        as i128) * (q2.y as i128) - (q1.y as i128) * (q2.x as i128));
    Quat { x: x as i64, y: y as i64, z: z as i64, w: w as i64 }
}

impl Quat {
    /// The conjugate: the vector part negated, the real part kept.
    pub fn conjugate(self) -> (r: Quat)
        requires
            bounded_q(self, i64::MAX as int),
        ensures
            r.x == -self.x,
            r.y == -self.y,
            r.z == -self.z,
            r.w == self.w,
    {
        Quat { x: -self.x, y: -self.y, z: -self.z, w: self.w }
    }
}

/// Scale every component of `q` by `s`.
pub fn qscale(q: Quat, s: i64) -> (r: Quat)
    requires
        i64::MIN <= q.x * s <= i64::MAX,
        i64::MIN <= q.y * s <= i64::MAX,
        i64::MIN <= q.z * s <= i64::MAX,
        i64::MIN <= q.w * s <= i64::MAX,
    ensures
        r.x == q.x * s,
        r.y == q.y * s,
        r.z == q.z * s,
        r.w == q.w * s,
{
    let x: i128 = (q.x as i128) * (s as i128);
    let y: i128 = (q.y as i128) * (s as i128);
    let z: i128 = (q.z as i128) * (s as i128);
    let w: i128 = (q.w as i128) * (s as i128);
    Quat { x: x as i64, y: y as i64, z: z as i64, w: w as i64 }
}

/// Bound on quaternion components accepted by `rotate_vec`: twice `FP_ONE`,
/// which a normalized quaternion never exceeds.
pub const QUAT_LIMIT: i64 = 8192;

/// The absolute value of an integer.
pub open spec fn sabs(a: int) -> int {
    if a >= 0 {
        a
    } else {
        -a
    }
}

/// The largest component magnitude of `v`.
pub open spec fn amax3(v: Vec3) -> int {
    smax(sabs(v.x as int), smax(sabs(v.y as int), sabs(v.z as int)))
}

/// Numerator of the `x` component of the quaternion rotation
/// `q * (v, 0) * conj(q)`; dividing by the squared quaternion scale
/// (`FP_ONE_SQ`) yields the rotated vector.
pub open spec fn rot_num_x(q: Quat, v: Vec3) -> int {
    (q.w * q.w - (q.x * q.x + q.y * q.y + q.z * q.z)) * v.x + 2 * (q.x * v.x + q.y * v.y + q.z
        * v.z) * q.x + 2 * q.w * (q.y * v.z - q.z * v.y)
}

pub open spec fn rot_num_y(q: Quat, v: Vec3) -> int {
    (q.w * q.w - (q.x * q.x + q.y * q.y + q.z * q.z)) * v.y + 2 * (q.x * v.x + q.y * v.y + q.z
        * v.z) * q.y + 2 * q.w * (q.z * v.x - q.x * v.z)
}

pub open spec fn rot_num_z(q: Quat, v: Vec3) -> int {
    (q.w * q.w - (q.x * q.x + q.y * q.y + q.z * q.z)) * v.z + 2 * (q.x * v.x + q.y * v.y + q.z
        * v.z) * q.z + 2 * q.w * (q.x * v.y - q.y * v.x)
}

/// The rotated `x` component, in fixed point.
pub open spec fn rotated_x(q: Quat, v: Vec3) -> int {
    tdiv(rot_num_x(q, v), crate::FP_ONE_SQ as int)
}

pub open spec fn rotated_y(q: Quat, v: Vec3) -> int {
    tdiv(rot_num_y(q, v), crate::FP_ONE_SQ as int)
}

pub open spec fn rotated_z(q: Quat, v: Vec3) -> int {
    tdiv(rot_num_z(q, v), crate::FP_ONE_SQ as int)
}

/// The rotation numerators of a bounded quaternion and vector are bounded
/// by `56 * FP_ONE_SQ` times the largest component magnitude of `v`.
pub proof fn lemma_rot_num_bound(q: Quat, v: Vec3, m: int)
    requires
        bounded_q(q, 8192),
        0 <= m,
        -m <= v.x <= m,
        -m <= v.y <= m,
        -m <= v.z <= m,
    ensures
        -(939524096 * m) <= rot_num_x(q, v) <= 939524096 * m,
        -(939524096 * m) <= rot_num_y(q, v) <= 939524096 * m,
        -(939524096 * m) <= rot_num_z(q, v) <= 939524096 * m,
{
    let a = q.w * q.w - (q.x * q.x + q.y * q.y + q.z * q.z);
    let b = q.x * v.x + q.y * v.y + q.z * v.z;
    let cx = q.y * v.z - q.z * v.y;
    let cy = q.z * v.x - q.x * v.z;
    let cz = q.x * v.y - q.y * v.x;
    lemma_mul_bound(q.w as int, q.w as int, 8192, 8192);
    lemma_mul_bound(q.x as int, q.x as int, 8192, 8192);
    lemma_mul_bound(q.y as int, q.y as int, 8192, 8192);
    lemma_mul_bound(q.z as int, q.z as int, 8192, 8192);
    lemma_mul_bound(q.x as int, v.x as int, 8192, m);
    lemma_mul_bound(q.y as int, v.y as int, 8192, m);
    lemma_mul_bound(q.z as int, v.z as int, 8192, m);
    lemma_mul_bound(q.y as int, v.z as int, 8192, m);
    lemma_mul_bound(q.z as int, v.y as int, 8192, m);
    lemma_mul_bound(q.z as int, v.x as int, 8192, m);
    lemma_mul_bound(q.x as int, v.z as int, 8192, m);
    lemma_mul_bound(q.x as int, v.y as int, 8192, m);
    lemma_mul_bound(q.y as int, v.x as int, 8192, m);
    lemma_mul_bound(a, v.x as int, 268435456, m);
    lemma_mul_bound(a, v.y as int, 268435456, m);
    lemma_mul_bound(a, v.z as int, 268435456, m);
    lemma_mul_bound(2 * b, q.x as int, 49152 * m, 8192);
    lemma_mul_bound(2 * b, q.y as int, 49152 * m, 8192);
    lemma_mul_bound(2 * b, q.z as int, 49152 * m, 8192);
    lemma_mul_bound(2 * (q.w as int), cx, 16384, 16384 * m);
    lemma_mul_bound(2 * (q.w as int), cy, 16384, 16384 * m);
    lemma_mul_bound(2 * (q.w as int), cz, 16384, 16384 * m);
    assert(rot_num_x(q, v) == a * v.x + 2 * b * q.x + 2 * q.w * cx);
    assert(rot_num_y(q, v) == a * v.y + 2 * b * q.y + 2 * q.w * cy);
    assert(rot_num_z(q, v) == a * v.z + 2 * b * q.z + 2 * q.w * cz);
}

/// Rotate `v` by the quaternion `q` (scale `FP_ONE`), computing
/// `q * (v, 0) * conj(q) / FP_ONE_SQ` exactly with truncating division.
/// For the identity quaternion the result is exactly `v`.
pub fn rotate_vec(q: Quat, v: Vec3) -> (r: Vec3)
    requires
        bounded_q(q, QUAT_LIMIT as int),
        bounded(v, VEC_LIMIT as int),
    ensures
        r.x == rotated_x(q, v),
        r.y == rotated_y(q, v),
        r.z == rotated_z(q, v),
        bounded(r, 56 * amax3(v)),
{
    let ghost m = amax3(v);
    proof {
        lemma_mul_bound(q.w as int, q.w as int, 8192, 8192);
        lemma_mul_bound(q.x as int, q.x as int, 8192, 8192);
        lemma_mul_bound(q.y as int, q.y as int, 8192, 8192);
        lemma_mul_bound(q.z as int, q.z as int, 8192, 8192);
        lemma_mul_bound(q.x as int, v.x as int, 8192, VEC_LIMIT as int);
        lemma_mul_bound(q.y as int, v.y as int, 8192, VEC_LIMIT as int);
        lemma_mul_bound(q.z as int, v.z as int, 8192, VEC_LIMIT as int);
        lemma_mul_bound(q.y as int, v.z as int, 8192, VEC_LIMIT as int);
        lemma_mul_bound(q.z as int, v.y as int, 8192, VEC_LIMIT as int);
        lemma_mul_bound(q.z as int, v.x as int, 8192, VEC_LIMIT as int);
        lemma_mul_bound(q.x as int, v.z as int, 8192, VEC_LIMIT as int);
        lemma_mul_bound(q.x as int, v.y as int, 8192, VEC_LIMIT as int);
        lemma_mul_bound(q.y as int, v.x as int, 8192, VEC_LIMIT as int);
    }
    let ww_minus_uu: i128 = (q.w as i128) * (q.w as i128) - ((q.x as i128) * (q.x as i128) + (q.y
        as i128) * (q.y as i128) + (q.z as i128) * (q.z as i128));
    let u_dot_v: i128 = (q.x as i128) * (v.x as i128) + (q.y as i128) * (v.y as i128) + (q.z
        as i128) * (v.z as i128);
    let cx: i128 = (q.y as i128) * (v.z as i128) - (q.z as i128) * (v.y as i128);
    let cy: i128 = (q.z as i128) * (v.x as i128) - (q.x as i128) * (v.z as i128);
    let cz: i128 = (q.x as i128) * (v.y as i128) - (q.y as i128) * (v.x as i128);
    proof {
        let big: int = 0x1000_0000_0000_0000;
        lemma_mul_bound(ww_minus_uu as int, v.x as int, big, VEC_LIMIT as int);
        lemma_mul_bound(ww_minus_uu as int, v.y as int, big, VEC_LIMIT as int);
        lemma_mul_bound(ww_minus_uu as int, v.z as int, big, VEC_LIMIT as int);
        lemma_mul_bound(2 * (u_dot_v as int), q.x as int, 2 * big, 8192);
        lemma_mul_bound(2 * (u_dot_v as int), q.y as int, 2 * big, 8192);
        lemma_mul_bound(2 * (u_dot_v as int), q.z as int, 2 * big, 8192);
        lemma_mul_bound(2 * (q.w as int), cx as int, 16384, big);
        lemma_mul_bound(2 * (q.w as int), cy as int, 16384, big);
        lemma_mul_bound(2 * (q.w as int), cz as int, 16384, big);
    }
    let num_x: i128 = ww_minus_uu * (v.x as i128) + 2 * u_dot_v * (q.x as i128) + 2 * (q.w
        as i128) * cx;
    let num_y: i128 = ww_minus_uu * (v.y as i128) + 2 * u_dot_v * (q.y as i128) + 2 * (q.w
        as i128) * cy;
    let num_z: i128 = ww_minus_uu * (v.z as i128) + 2 * u_dot_v * (q.z as i128) + 2 * (q.w
        as i128) * cz;
    proof {
        assert(num_x == rot_num_x(q, v));
        assert(num_y == rot_num_y(q, v));
        assert(num_z == rot_num_z(q, v));
        lemma_rot_num_bound(q, v, m);
        assert(939524096 * m == 56 * m * (crate::FP_ONE_SQ as int)) by (nonlinear_arith);
        lemma_tdiv_bound(num_x as int, crate::FP_ONE_SQ as int, 56 * m);
        lemma_tdiv_bound(num_y as int, crate::FP_ONE_SQ as int, 56 * m);
        lemma_tdiv_bound(num_z as int, crate::FP_ONE_SQ as int, 56 * m);
    }
    let rx: i128 = div_i128(num_x, crate::FP_ONE_SQ as i128);
    let ry: i128 = div_i128(num_y, crate::FP_ONE_SQ as i128);
    let rz: i128 = div_i128(num_z, crate::FP_ONE_SQ as i128);
    Vec3 { x: rx as i64, y: ry as i64, z: rz as i64 }
}

/// A one-dimensional projection range `[lo, hi]` with `lo <= hi`.
#[derive(Clone, Copy, Debug, PartialEq, Eq, Structural)]
pub struct Interval {
    pub lo: i128,
    pub hi: i128,
}

/// Minimum of two `i128` values.
pub open spec fn min128(a: i128, b: i128) -> i128 {
    if a <= b {
        a
    } else {
        b
    }
}

/// Maximum of two `i128` values.
pub open spec fn max128(a: i128, b: i128) -> i128 {
    if a >= b {
        a
    } else {
        b
    }
}

/// Well-formed interval: ordered endpoints within the working range.
pub open spec fn interval_wf(i: Interval) -> bool {
    &&& i.lo <= i.hi
    &&& -(INTERVAL_LIMIT as int) <= i.lo
    &&& i.hi <= INTERVAL_LIMIT as int
}

/// The intersection of two intervals: `None` exactly when they are
/// disjoint, otherwise the overlapping range.
pub open spec fn spec_intersection(a: Interval, b: Interval) -> Option<Interval> {
    if a.hi < b.lo || b.hi < a.lo {
        None
    } else {
        Some(Interval { lo: max128(a.lo, b.lo), hi: min128(a.hi, b.hi) })
    }
}

impl Interval {
    /// Build an interval; the endpoints must already be ordered.
    pub fn new(min: i128, max: i128) -> (r: Interval)
        requires
            min <= max,
            -(INTERVAL_LIMIT as int) <= min,
            max <= INTERVAL_LIMIT as int,
        ensures
            r.lo == min,
            r.hi == max,
            interval_wf(r),
    {
        Interval { lo: min, hi: max }
    }

    /// The lower endpoint.
    pub fn min(&self) -> (r: i128)
        ensures
            r == self.lo,
    {
        self.lo
    }

    /// The upper endpoint.
    pub fn max(&self) -> (r: i128)
        ensures
            r == self.hi,
    {
        self.hi
    }

    /// The length `hi - lo` of the interval.
    pub fn length(&self) -> (r: i128)
        requires
            interval_wf(*self),
        ensures
            r == self.hi - self.lo,
    {
        self.hi - self.lo
    }

    /// Intersect two intervals. The result is `None` if and only if the
    /// intervals are disjoint (`self.hi < other.lo` or `other.hi < self.lo`);
    /// otherwise it is the overlap `[max(lo), min(hi)]`.
    pub fn intersection(self, other: Interval) -> (r: Option<Interval>)
        requires
            interval_wf(self),
            interval_wf(other),
        ensures
            r == spec_intersection(self, other),
            r is None <==> (self.hi < other.lo || other.hi < self.lo),
            r is Some ==> interval_wf(r->Some_0),
    {
        let lo: i128 = if self.lo >= other.lo {
            self.lo
        } else {
            other.lo
        };
        let hi: i128 = if self.hi <= other.hi {
            self.hi
        } else {
            other.hi
        };
        if hi - lo < 0 {
            None
        } else {
            Some(Interval { lo, hi })
        }
    }

    /// The smallest interval containing the projections of `vertices`
    /// onto `axis` (the dot product of each vertex with the axis).
    pub fn vertex_projection(vertices: &Vec<Vec3>, axis: Vec3) -> (r: Interval)
        requires
            vertices@.len() >= 1,
            forall|i: int|
                0 <= i < vertices@.len() ==> bounded(#[trigger] vertices@[i], VEC_LIMIT as int),
            bounded(axis, VEC_LIMIT as int),
        ensures
            interval_wf(r),
            forall|i: int|
                0 <= i < vertices@.len() ==> r.lo <= #[trigger] dot_spec(vertices@[i], axis)
                    <= r.hi,
            exists|i: int| 0 <= i < vertices@.len() && r.lo == dot_spec(vertices@[i], axis),
            exists|i: int| 0 <= i < vertices@.len() && r.hi == dot_spec(vertices@[i], axis),
    {
        proof {
            lemma_dot_in_interval_range(vertices@[0], axis);
        }
        let first: i128 = dot128(vertices[0], axis);
        let mut lo: i128 = first;
        let mut hi: i128 = first;
        let mut k: usize = 1;
        while k < vertices.len()
            invariant
                1 <= k <= vertices@.len(),
                forall|i: int|
                    0 <= i < vertices@.len() ==> bounded(
                        #[trigger] vertices@[i],
                        VEC_LIMIT as int,
                    ),
                bounded(axis, VEC_LIMIT as int),
                lo <= hi,
                -(INTERVAL_LIMIT as int) <= lo,
                hi <= INTERVAL_LIMIT as int,
                forall|i: int| 0 <= i < k ==> lo <= #[trigger] dot_spec(vertices@[i], axis) <= hi,
                exists|i: int| 0 <= i < k && lo == dot_spec(vertices@[i], axis),
                exists|i: int| 0 <= i < k && hi == dot_spec(vertices@[i], axis),
            decreases vertices@.len() - k,
        {
            proof {
                lemma_dot_in_interval_range(vertices@[k as int], axis);
            }
            let d: i128 = dot128(vertices[k], axis);
            if d < lo {
                lo = d;
            }
            if d > hi {
                hi = d;
            }
            k = k + 1;
        }
        Interval { lo, hi }
    }
}

/// Dot products of vectors bounded by `VEC_LIMIT` stay well inside the
/// interval working range.
pub proof fn lemma_dot_in_interval_range(a: Vec3, b: Vec3)
    requires
        bounded(a, VEC_LIMIT as int),
        bounded(b, VEC_LIMIT as int),
    ensures
        -(INTERVAL_LIMIT as int) <= dot_spec(a, b) <= INTERVAL_LIMIT as int,
{
    lemma_mul_bound(a.x as int, b.x as int, VEC_LIMIT as int, VEC_LIMIT as int);
    lemma_mul_bound(a.y as int, b.y as int, VEC_LIMIT as int, VEC_LIMIT as int);
    lemma_mul_bound(a.z as int, b.z as int, VEC_LIMIT as int, VEC_LIMIT as int);
}

/// Interval intersection is symmetric: `intersection(a, b)` and
/// `intersection(b, a)` agree on every pair of well-formed intervals.
pub proof fn lemma_intersection_symmetric(a: Interval, b: Interval)
    requires
        interval_wf(a),
        interval_wf(b),
    ensures
        spec_intersection(a, b) == spec_intersection(b, a),
{
}

/// An axis-aligned, world-space bounding box: componentwise `min <= max`.
#[derive(Clone, Copy, Debug, PartialEq, Eq, Structural)]
pub struct AABB {
    pub min: Vec3,
    pub max: Vec3,
}

/// Well-formed box: ordered componentwise.
pub open spec fn aabb_wf(b: AABB) -> bool {
    &&& b.min.x <= b.max.x
    &&& b.min.y <= b.max.y
    &&& b.min.z <= b.max.z
}

impl AABB {
    /// The smallest box containing all of `vertices`: the componentwise
    /// minimum and maximum.
    pub fn fit_vertices(vertices: &Vec<Vec3>) -> (r: AABB)
        requires
            vertices@.len() >= 1,
        ensures
            aabb_wf(r),
            forall|i: int|
                0 <= i < vertices@.len() ==> {
                    let v = #[trigger] vertices@[i];
                    r.min.x <= v.x <= r.max.x && r.min.y <= v.y <= r.max.y && r.min.z <= v.z
                        <= r.max.z
                },
            exists|i: int| 0 <= i < vertices@.len() && r.min.x == vertices@[i].x,
            exists|i: int| 0 <= i < vertices@.len() && r.min.y == vertices@[i].y,
            exists|i: int| 0 <= i < vertices@.len() && r.min.z == vertices@[i].z,
            exists|i: int| 0 <= i < vertices@.len() && r.max.x == vertices@[i].x,
            exists|i: int| 0 <= i < vertices@.len() && r.max.y == vertices@[i].y,
            exists|i: int| 0 <= i < vertices@.len() && r.max.z == vertices@[i].z,
    {
        let mut mn: Vec3 = vertices[0];
        let mut mx: Vec3 = vertices[0];
        let mut k: usize = 1;
        while k < vertices.len()
            invariant
                1 <= k <= vertices@.len(),
                mn.x <= mx.x && mn.y <= mx.y && mn.z <= mx.z,
                forall|i: int|
                    0 <= i < k ==> {
                        let v = #[trigger] vertices@[i];
                        mn.x <= v.x <= mx.x && mn.y <= v.y <= mx.y && mn.z <= v.z <= mx.z
                    },
                exists|i: int| 0 <= i < k && mn.x == vertices@[i].x,
                exists|i: int| 0 <= i < k && mn.y == vertices@[i].y,
                exists|i: int| 0 <= i < k && mn.z == vertices@[i].z,
                exists|i: int| 0 <= i < k && mx.x == vertices@[i].x,
                exists|i: int| 0 <= i < k && mx.y == vertices@[i].y,
                exists|i: int| 0 <= i < k && mx.z == vertices@[i].z,
            decreases vertices@.len() - k,
        {
            let v = vertices[k];
            mn = cwise_min(mn, v);
            mx = cwise_max(mx, v);
            k = k + 1;
        }
        AABB { min: mn, max: mx }
    }

    /// Assemble a box from one interval per axis.
    pub fn from_intervals(interval_x: Interval, interval_y: Interval, interval_z: Interval) -> (r:
        AABB)
        requires
            i64::MIN <= interval_x.lo && interval_x.hi <= i64::MAX,
            i64::MIN <= interval_y.lo && interval_y.hi <= i64::MAX,
            i64::MIN <= interval_z.lo && interval_z.hi <= i64::MAX,
            interval_wf(interval_x),
            interval_wf(interval_y),
            interval_wf(interval_z),
        ensures
            r.min.x == interval_x.lo && r.max.x == interval_x.hi,
            r.min.y == interval_y.lo && r.max.y == interval_y.hi,
            r.min.z == interval_z.lo && r.max.z == interval_z.hi,
            aabb_wf(r),
    {
        AABB {
            min: Vec3 { x: interval_x.lo as i64, y: interval_y.lo as i64, z: interval_z.lo as i64 },
            max: Vec3 { x: interval_x.hi as i64, y: interval_y.hi as i64, z: interval_z.hi as i64 },
        }
    }

    /// The box's extent along one principal axis (0, 1 or 2) as an interval.
    pub fn axis_interval(&self, dimension: usize) -> (r: Interval)
        requires
            dimension < 3,
            aabb_wf(*self),
        ensures
            dimension == 0 ==> r.lo == self.min.x && r.hi == self.max.x,
            dimension == 1 ==> r.lo == self.min.y && r.hi == self.max.y,
            dimension == 2 ==> r.lo == self.min.z && r.hi == self.max.z,
            interval_wf(r),
    {
        if dimension == 0 {
            Interval { lo: self.min.x as i128, hi: self.max.x as i128 }
        } else if dimension == 1 {
            Interval { lo: self.min.y as i128, hi: self.max.y as i128 }
        } else {
            Interval { lo: self.min.z as i128, hi: self.max.z as i128 }
        }
    }
}

/// `s` is the integer square root of `n`.
pub open spec fn is_isqrt(s: int, n: int) -> bool {
    s >= 0 && s * s <= n < (s + 1) * (s + 1)
}

/// The integer square root of a nonnegative integer.
pub open spec fn spec_isqrt(n: int) -> int {
    choose|s: int| is_isqrt(s, n)
}

/// The integer square root exists and is unique.
pub proof fn lemma_isqrt_unique(a: int, b: int, n: int)
    by (nonlinear_arith)
    requires
        is_isqrt(a, n),
        is_isqrt(b, n),
    ensures
        a == b,
{
}

/// Integer square root by bisection.
pub fn isqrt_i128(n: i128) -> (r: i128)
    requires
        0 <= n,
        n < 0x1000_0000_0000_0000_0000_0000_0000,
    ensures
        is_isqrt(r as int, n as int),
        r == spec_isqrt(n as int),
        0 <= r <= 0x40_0000_0000_0000,
{
    let mut lo: i128 = 0;
    let mut hi: i128 = 0x40_0000_0000_0000;
    proof {
        assert((0x40_0000_0000_0000 as int) * (0x40_0000_0000_0000 as int)
            == 0x1000_0000_0000_0000_0000_0000_0000) by (nonlinear_arith);
    }
    while lo + 1 < hi
        invariant
            0 <= lo < hi <= 0x40_0000_0000_0000,
            lo * lo <= n,
            n < hi * hi,
        decreases hi - lo,
    {
        let mid: i128 = lo + (hi - lo) / 2;
        assert(lo < mid < hi);
        proof {
            lemma_mul_bound(mid as int, mid as int, 0x40_0000_0000_0000, 0x40_0000_0000_0000);
        }
        if mid * mid <= n {
            lo = mid;
        } else {
            hi = mid;
        }
    }
    proof {
        assert(is_isqrt(lo as int, n as int));
        lemma_isqrt_unique(lo as int, spec_isqrt(n as int), n as int);
    }
    lo
}

/// The integer square root exists: `spec_isqrt(n)` satisfies its
/// characterization for every nonnegative `n`.
pub proof fn lemma_isqrt_exists(n: int)
    requires
        0 <= n,
    ensures
        is_isqrt(spec_isqrt(n), n),
    decreases n,
{
    if n == 0 {
        assert(is_isqrt(0, 0));
    } else {
        lemma_isqrt_exists(n - 1);
        let s = spec_isqrt(n - 1);
        if (s + 1) * (s + 1) <= n {
            assert(is_isqrt(s + 1, n)) by (nonlinear_arith)
                requires
                    is_isqrt(s, n - 1),
                    (s + 1) * (s + 1) <= n,
            ;
        } else {
            assert(is_isqrt(s, n));
        }
    }
}

/// The remainder of truncating division is below the divisor in
/// magnitude: `|a - b * tdiv(a, b)| <= b - 1`.
pub proof fn lemma_tdiv_rem(a: int, b: int)
    requires
        b >= 1,
    ensures
        -(b - 1) <= a - b * tdiv(a, b) <= b - 1,
{
    if a >= 0 {
        vstd::arithmetic::div_mod::lemma_fundamental_div_mod(a, b);
        assert(a == b * (a / b) + a % b);
    } else {
        vstd::arithmetic::div_mod::lemma_fundamental_div_mod(-a, b);
        assert(-a == b * ((-a) / b) + (-a) % b);
        assert(b * (-((-a) / b)) == -(b * ((-a) / b))) by (nonlinear_arith);
    }
}

} // verus!
