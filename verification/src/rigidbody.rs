//! Rigid-body state and the semi-implicit integrator: symplectic Euler for
//! the linear part and an implicit (backward-Euler-like) update for the
//! angular part that avoids the energy gain of explicit rotational Euler.

use vstd::prelude::*;
use crate::math::{
    Vec3, Quat, bounded, bounded_q, tdiv, qdiv, amax3, cross_x, cross_y, cross_z, qmul_x, qmul_y,
    qmul_z, qmul_w, rotate_vec, vadd, div_i64, div_i128, isqrt_i128, spec_isqrt, is_isqrt,
    lemma_mul_bound, lemma_tdiv_bound, cross, qmul,
};
use crate::collision::{
    Collider, Transform, collider_wf, transform_wf, extents_of, inertia_diag, spec_rotate,
    cross_vec, INERTIA_LIMIT,
};
use crate::{FP_ONE, FP_ONE_SQ};

verus! {

/// Bound on a body's linear velocity and accumulated force components.
pub const FORCE_LIMIT: i64 = 0x100_0000;

/// Bound on a body's angular velocity and torque components.
pub const OMEGA_LIMIT: i64 = 0x2_0000;

/// Bound on a body's mass.
pub const MASS_LIMIT: i64 = 0x100_0000;

/// Runtime cap on body-space angular velocity inside the implicit solve.
pub const WB_CAP: i64 = 0x8_0000;

/// Runtime cap on the implicit angular correction.
pub const DW_CAP: i64 = 0x10_0000;

/// Runtime cap on the inertia-scaled body-space torque.
pub const TMP_CAP: i64 = 0x80_0000;

/// Runtime cap on the Cramer determinants of the implicit solve.
pub const DET_CAP: i128 = 0x4000_0000_0000_0000_0000_0000_0000;

/// Per-object dynamic state: mass, velocities and the force and torque
/// accumulated since the last step.
#[derive(Clone, Copy, Debug, PartialEq, Eq, Structural)]
pub struct RigidBody {
    pub mass: i64,
    pub velocity: Vec3,
    pub angular_velocity: Vec3,
    pub force: Vec3,
    pub torque: Vec3,
}

/// Well-formed body: positive bounded mass, bounded state.
pub open spec fn rb_wf(rb: RigidBody) -> bool {
    &&& 1 <= rb.mass <= MASS_LIMIT
    &&& bounded(rb.velocity, FORCE_LIMIT as int)
    &&& bounded(rb.force, FORCE_LIMIT as int)
    &&& bounded(rb.angular_velocity, OMEGA_LIMIT as int)
    &&& bounded(rb.torque, OMEGA_LIMIT as int)
}

impl RigidBody {
    /// Accumulate a force applied at `offset` from the centre of mass:
    /// the force adds to the linear accumulator and its moment
    /// (`offset x force`) to the torque accumulator.
    pub fn add_force(&mut self, offset: Vec3, force: Vec3)
        requires
            bounded(offset, FORCE_LIMIT as int),
            bounded(force, FORCE_LIMIT as int),
            bounded(old(self).force, 0x1000_0000_0000),
            bounded(old(self).torque, 0x1000_0000_0000),
        ensures
            final(self).force.x == old(self).force.x + force.x,
            final(self).force.y == old(self).force.y + force.y,
            final(self).force.z == old(self).force.z + force.z,
            final(self).torque.x == old(self).torque.x + cross_x(offset, force),
            final(self).torque.y == old(self).torque.y + cross_y(offset, force),
            final(self).torque.z == old(self).torque.z + cross_z(offset, force),
            final(self).mass == old(self).mass,
            final(self).velocity == old(self).velocity,
            final(self).angular_velocity == old(self).angular_velocity,
    {
        proof {
            lemma_mul_bound(offset.y as int, force.z as int, FORCE_LIMIT as int, FORCE_LIMIT as int);
            lemma_mul_bound(offset.z as int, force.y as int, FORCE_LIMIT as int, FORCE_LIMIT as int);
            lemma_mul_bound(offset.z as int, force.x as int, FORCE_LIMIT as int, FORCE_LIMIT as int);
            lemma_mul_bound(offset.x as int, force.z as int, FORCE_LIMIT as int, FORCE_LIMIT as int);
            lemma_mul_bound(offset.x as int, force.y as int, FORCE_LIMIT as int, FORCE_LIMIT as int);
            lemma_mul_bound(offset.y as int, force.x as int, FORCE_LIMIT as int, FORCE_LIMIT as int);
        }
        let moment = cross(offset, force);
        self.force = vadd(self.force, force);
        self.torque = vadd(self.torque, moment);
    }
}

impl Default for RigidBody {
    /// Unit mass, everything else at rest.
    fn default() -> (r: RigidBody)
        ensures
            r.mass == FP_ONE,
            r.velocity == (Vec3 { x: 0, y: 0, z: 0 }),
            r.angular_velocity == (Vec3 { x: 0, y: 0, z: 0 }),
            r.force == (Vec3 { x: 0, y: 0, z: 0 }),
            r.torque == (Vec3 { x: 0, y: 0, z: 0 }),
            rb_wf(r),
    {
        RigidBody {
            mass: FP_ONE,
            velocity: Vec3 { x: 0, y: 0, z: 0 },
            angular_velocity: Vec3 { x: 0, y: 0, z: 0 },
            force: Vec3 { x: 0, y: 0, z: 0 },
            torque: Vec3 { x: 0, y: 0, z: 0 },
        }
    }
}

/// Global simulation parameters: fixed timestep, gravity, elapsed time.
#[derive(Clone, Copy, Debug, PartialEq, Eq, Structural)]
pub struct PhysicsWorld {
    pub dt: i64,
    pub g: Vec3,
    pub t: i64,
}

/// Well-formed world: a positive timestep of at most one second, bounded
/// gravity, time that can still advance.
pub open spec fn world_wf(w: PhysicsWorld) -> bool {
    &&& 1 <= w.dt <= FP_ONE
    &&& bounded(w.g, FORCE_LIMIT as int)
    &&& 0 <= w.t <= i64::MAX - FP_ONE
}

impl Default for PhysicsWorld {
    /// Zero timestep, zero gravity, time zero; the timestep must be set
    /// before stepping.
    fn default() -> (r: PhysicsWorld)
        ensures
            r.dt == 0,
            r.g == (Vec3 { x: 0, y: 0, z: 0 }),
            r.t == 0,
    {
        PhysicsWorld { dt: 0, g: Vec3 { x: 0, y: 0, z: 0 }, t: 0 }
    }
}

/// The conjugate quaternion.
pub open spec fn qconj(q: Quat) -> Quat {
    Quat { x: (-(q.x as int)) as i64, y: (-(q.y as int)) as i64, z: (-(q.z as int)) as i64, w: q.w }
}

/// The zero vector.
pub open spec fn zero3() -> Vec3 {
    Vec3 { x: 0, y: 0, z: 0 }
}

/// One component of `force / mass + gravity`, in fixed point.
pub open spec fn accel_x(rb: RigidBody, g: Vec3) -> int {
    tdiv(rb.force.x * (FP_ONE as int), rb.mass as int) + g.x
}

pub open spec fn accel_y(rb: RigidBody, g: Vec3) -> int {
    tdiv(rb.force.y * (FP_ONE as int), rb.mass as int) + g.y
}

pub open spec fn accel_z(rb: RigidBody, g: Vec3) -> int {
    tdiv(rb.force.z * (FP_ONE as int), rb.mass as int) + g.z
}

/// The velocity after one step: `v + a * dt`.
pub open spec fn new_vel(rb: RigidBody, g: Vec3, dt: int) -> Vec3 {
    Vec3 {
        x: (rb.velocity.x + tdiv(accel_x(rb, g) * dt, FP_ONE as int)) as i64,
        y: (rb.velocity.y + tdiv(accel_y(rb, g) * dt, FP_ONE as int)) as i64,
        z: (rb.velocity.z + tdiv(accel_z(rb, g) * dt, FP_ONE as int)) as i64,
    }
}

/// The diagonal of the body-space inertia tensor as a vector.
pub open spec fn diag_of(c: Collider) -> Vec3 {
    Vec3 {
        x: inertia_diag(extents_of(c).y as int, extents_of(c).z as int) as i64,
        y: inertia_diag(extents_of(c).x as int, extents_of(c).z as int) as i64,
        z: inertia_diag(extents_of(c).x as int, extents_of(c).y as int) as i64,
    }
}

/// The inertia tensor is numerically invertible (every diagonal entry is
/// at least one fixed-point unit).
pub open spec fn inertia_ok(c: Collider) -> bool {
    diag_of(c).x >= 1 && diag_of(c).y >= 1 && diag_of(c).z >= 1
}

/// Multiply by the diagonal inertia, rescaling the fixed-point product.
pub open spec fn diag_mul(d: Vec3, v: Vec3) -> Vec3 {
    Vec3 {
        x: tdiv(d.x * v.x, FP_ONE as int) as i64,
        y: tdiv(d.y * v.y, FP_ONE as int) as i64,
        z: tdiv(d.z * v.z, FP_ONE as int) as i64,
    }
}

/// Scale a vector by a fixed-point factor.
pub open spec fn fp_scale3(v: Vec3, s: int) -> Vec3 {
    Vec3 {
        x: tdiv(v.x * s, FP_ONE as int) as i64,
        y: tdiv(v.y * s, FP_ONE as int) as i64,
        z: tdiv(v.z * s, FP_ONE as int) as i64,
    }
}

pub open spec fn vadd3(a: Vec3, b: Vec3) -> Vec3 {
    Vec3 { x: (a.x + b.x) as i64, y: (a.y + b.y) as i64, z: (a.z + b.z) as i64 }
}

pub open spec fn vsub3(a: Vec3, b: Vec3) -> Vec3 {
    Vec3 { x: (a.x - b.x) as i64, y: (a.y - b.y) as i64, z: (a.z - b.z) as i64 }
}

/// An off-diagonal entry of the implicit-solve Jacobian:
/// `dt * (skew(wb) * I_b - skew(I_b * wb))` contributes
/// `dt * (wb_a * d_b / ONE - ib_c)` per entry, up to sign.
pub open spec fn j_off(wa: int, db: int, ic: int, dt: int) -> int {
    tdiv(dt * (tdiv(wa * db, FP_ONE as int) - ic), FP_ONE as int)
}

/// The columns of the Jacobian `J = I_b + dt*(skew(wb)*I_b - skew(I_b*wb))`.
pub open spec fn j_col0(d: Vec3, wb: Vec3, ib: Vec3, dt: int) -> Vec3 {
    Vec3 {
        x: d.x,
        y: j_off(wb.z as int, d.x as int, ib.z as int, dt) as i64,
        z: (-j_off(wb.y as int, d.x as int, ib.y as int, dt)) as i64,
    }
}

pub open spec fn j_col1(d: Vec3, wb: Vec3, ib: Vec3, dt: int) -> Vec3 {
    Vec3 {
        x: (-j_off(wb.z as int, d.y as int, ib.z as int, dt)) as i64,
        y: d.y,
        z: j_off(wb.x as int, d.y as int, ib.x as int, dt) as i64,
    }
}

pub open spec fn j_col2(d: Vec3, wb: Vec3, ib: Vec3, dt: int) -> Vec3 {
    Vec3 {
        x: j_off(wb.y as int, d.z as int, ib.y as int, dt) as i64,
        y: (-j_off(wb.x as int, d.z as int, ib.x as int, dt)) as i64,
        z: d.z,
    }
}

/// The determinant of the matrix with columns `a`, `b`, `c`: the scalar
/// triple product `a . (b x c)`.
pub open spec fn det3s(a: Vec3, b: Vec3, c: Vec3) -> int {
    a.x * cross_x(b, c) + a.y * cross_y(b, c) + a.z * cross_z(b, c)
}

/// The squared norm of a quaternion.
pub open spec fn norm2_q(q: Quat) -> int {
    q.x * q.x + q.y * q.y + q.z * q.z + q.w * q.w
}

/// The quaternion rescaled to length `FP_ONE` by the integer square root
/// of its squared norm.
pub open spec fn normalize_spec(q: Quat) -> Quat {
    let s = spec_isqrt(norm2_q(q));
    Quat {
        x: tdiv(q.x * (FP_ONE as int), s) as i64,
        y: tdiv(q.y * (FP_ONE as int), s) as i64,
        z: tdiv(q.z * (FP_ONE as int), s) as i64,
        w: tdiv(q.w * (FP_ONE as int), s) as i64,
    }
}

/// The full relation between a body's state before and after one
/// integration step: symplectic Euler for the linear part; for the
/// angular part, the angular velocity is rotated into body space, the
/// gyroscopic term is solved implicitly through the Jacobian by Cramer's
/// rule (skipped, leaving the correction at zero, when the inertia or the
/// solve is degenerate or any runtime cap is exceeded), the external
/// torque is applied explicitly, and the orientation is advanced by the
/// first-order quaternion update and renormalized.
pub open spec fn integrates(
    rb0: RigidBody,
    tr0: Transform,
    c: Collider,
    dt: i64,
    g: Vec3,
    rb1: RigidBody,
    tr1: Transform,
) -> bool {
    let q = tr0.rotation;
    let vel1 = new_vel(rb0, g, dt as int);
    let d = diag_of(c);
    let wb = spec_rotate(qconj(q), rb0.angular_velocity);
    let ib = diag_mul(d, wb);
    let fv = fp_scale3(cross_vec(wb, ib), dt as int);
    let c0 = j_col0(d, wb, ib, dt as int);
    let c1 = j_col1(d, wb, ib, dt as int);
    let c2 = j_col2(d, wb, ib, dt as int);
    let dn = det3s(c0, c1, c2);
    let dx = det3s(fv, c1, c2);
    let dyn0 = det3s(fv, c0, c2);
    let dz = det3s(fv, c0, c1);
    let qx = qdiv(dx * (FP_ONE as int), dn);
    let qy = qdiv(-dyn0 * (FP_ONE as int), dn);
    let qz = qdiv(dz * (FP_ONE as int), dn);
    let gyro_ok = inertia_ok(c) && bounded(wb, WB_CAP as int) && dn != 0 && -(DET_CAP as int) <= dx
        <= DET_CAP as int && -(DET_CAP as int) <= dyn0 <= DET_CAP as int && -(DET_CAP as int) <= dz
        <= DET_CAP as int && -(DW_CAP as int) <= qx <= DW_CAP as int && -(DW_CAP as int) <= qy
        <= DW_CAP as int && -(DW_CAP as int) <= qz <= DW_CAP as int;
    let dwb = if gyro_ok {
        Vec3 { x: qx as i64, y: qy as i64, z: qz as i64 }
    } else {
        zero3()
    };
    let tqb = spec_rotate(qconj(q), rb0.torque);
    let dinv = Vec3 {
        x: tdiv(FP_ONE_SQ as int, d.x as int) as i64,
        y: tdiv(FP_ONE_SQ as int, d.y as int) as i64,
        z: tdiv(FP_ONE_SQ as int, d.z as int) as i64,
    };
    let tmp = diag_mul(dinv, tqb);
    let torque_ok = inertia_ok(c) && bounded(tmp, TMP_CAP as int);
    let term = if torque_ok {
        fp_scale3(spec_rotate(q, tmp), dt as int)
    } else {
        zero3()
    };
    let w2 = if inertia_ok(c) {
        vadd3(spec_rotate(q, vsub3(wb, dwb)), term)
    } else {
        rb0.angular_velocity
    };
    let qw = Quat { x: w2.x, y: w2.y, z: w2.z, w: 0 };
    let qd = Quat {
        x: qmul_x(qw, q) as i64,
        y: qmul_y(qw, q) as i64,
        z: qmul_z(qw, q) as i64,
        w: qmul_w(qw, q) as i64,
    };
    let dr = Quat {
        x: tdiv(qd.x * dt, 2 * (FP_ONE_SQ as int)) as i64,
        y: tdiv(qd.y * dt, 2 * (FP_ONE_SQ as int)) as i64,
        z: tdiv(qd.z * dt, 2 * (FP_ONE_SQ as int)) as i64,
        w: tdiv(qd.w * dt, 2 * (FP_ONE_SQ as int)) as i64,
    };
    let qn = Quat {
        x: (q.x + dr.x) as i64,
        y: (q.y + dr.y) as i64,
        z: (q.z + dr.z) as i64,
        w: (q.w + dr.w) as i64,
    };
    let rot1 = if norm2_q(qn) > 0 {
        normalize_spec(qn)
    } else {
        q
    };
    &&& rb1.mass == rb0.mass
    &&& rb1.velocity == vel1
    &&& rb1.angular_velocity == w2
    &&& rb1.force == zero3()
    &&& rb1.torque == zero3()
    &&& tr1.rotation == rot1
    &&& tr1.translation == (Vec3 {
        x: (tr0.translation.x + tdiv(vel1.x * dt, FP_ONE as int)) as i64,
        y: (tr0.translation.y + tdiv(vel1.y * dt, FP_ONE as int)) as i64,
        z: (tr0.translation.z + tdiv(vel1.z * dt, FP_ONE as int)) as i64,
    })
}

/// One off-diagonal Jacobian entry.
fn j_off_exec(wa: i64, db: i64, ic: i64, dt: i64) -> (r: i64)
    requires
        -WB_CAP <= wa <= WB_CAP,
        0 <= db <= INERTIA_LIMIT,
        -0x4_0000_0000 <= ic <= 0x4_0000_0000,
        1 <= dt <= FP_ONE,
    ensures
        r == j_off(wa as int, db as int, ic as int, dt as int),
        -0x8_0000_0000 <= r <= 0x8_0000_0000,
{
    proof {
        lemma_mul_bound(wa as int, db as int, WB_CAP as int, INERTIA_LIMIT as int);
    }
    let m: i128 = div_i128((wa as i128) * (db as i128), FP_ONE as i128);
    proof {
        lemma_tdiv_bound((wa as int) * (db as int), FP_ONE as int, 0x2_0000_0000);
        assert((0x2_0000_0000 as int) * (FP_ONE as int) >= (WB_CAP as int) * (
        INERTIA_LIMIT as int));
    }
    let p: i128 = m - (ic as i128);
    proof {
        lemma_mul_bound(dt as int, p as int, FP_ONE as int, 0x6_0000_0000);
        lemma_tdiv_bound((dt as int) * (p as int), FP_ONE as int, 0x6_0000_0000);
        assert((0x6_0000_0000 as int) * (FP_ONE as int) >= (FP_ONE as int) * (
        0x6_0000_0000 as int));
    }
    let r: i128 = div_i128((dt as i128) * p, FP_ONE as i128);
    r as i64
}

/// The determinant of the matrix with columns `a`, `b`, `c`, exactly.
fn det3_128(a: Vec3, b: Vec3, c: Vec3) -> (r: i128)
    requires
        bounded(a, 0x40_0000_0000_0000),
        bounded(b, 0x8_0000_0000),
        bounded(c, 0x8_0000_0000),
    ensures
        r == det3s(a, b, c),
        i128::MIN < r,
{
    proof {
        lemma_mul_bound(b.y as int, c.z as int, 0x8_0000_0000, 0x8_0000_0000);
        lemma_mul_bound(b.z as int, c.y as int, 0x8_0000_0000, 0x8_0000_0000);
        lemma_mul_bound(b.z as int, c.x as int, 0x8_0000_0000, 0x8_0000_0000);
        lemma_mul_bound(b.x as int, c.z as int, 0x8_0000_0000, 0x8_0000_0000);
        lemma_mul_bound(b.x as int, c.y as int, 0x8_0000_0000, 0x8_0000_0000);
        lemma_mul_bound(b.y as int, c.x as int, 0x8_0000_0000, 0x8_0000_0000);
    }
    let cx: i128 = (b.y as i128) * (c.z as i128) - (b.z as i128) * (c.y as i128);
    let cy: i128 = (b.z as i128) * (c.x as i128) - (b.x as i128) * (c.z as i128);
    let cz: i128 = (b.x as i128) * (c.y as i128) - (b.y as i128) * (c.x as i128);
    proof {
        lemma_mul_bound(a.x as int, cx as int, 0x40_0000_0000_0000, 0x80_0000_0000_0000_0000);
        lemma_mul_bound(a.y as int, cy as int, 0x40_0000_0000_0000, 0x80_0000_0000_0000_0000);
        lemma_mul_bound(a.z as int, cz as int, 0x40_0000_0000_0000, 0x80_0000_0000_0000_0000);
    }
    (a.x as i128) * cx + (a.y as i128) * cy + (a.z as i128) * cz
}

/// Rescale a quaternion to length `FP_ONE`. The squared norm must be
/// positive; the result's components never exceed `FP_ONE` in magnitude.
pub fn normalize_quat(q: Quat) -> (r: Quat)
    requires
        bounded_q(q, 0x2_0000_0000),
        norm2_q(q) > 0,
    ensures
        r == normalize_spec(q),
        bounded_q(r, FP_ONE as int),
{
    proof {
        lemma_mul_bound(q.x as int, q.x as int, 0x2_0000_0000, 0x2_0000_0000);
        lemma_mul_bound(q.y as int, q.y as int, 0x2_0000_0000, 0x2_0000_0000);
        lemma_mul_bound(q.z as int, q.z as int, 0x2_0000_0000, 0x2_0000_0000);
        lemma_mul_bound(q.w as int, q.w as int, 0x2_0000_0000, 0x2_0000_0000);
        assert(q.x * q.x >= 0) by (nonlinear_arith);
        assert(q.y * q.y >= 0) by (nonlinear_arith);
        assert(q.z * q.z >= 0) by (nonlinear_arith);
        assert(q.w * q.w >= 0) by (nonlinear_arith);
    }
    let n2: i128 = (q.x as i128) * (q.x as i128) + (q.y as i128) * (q.y as i128) + (q.z as i128)
        * (q.z as i128) + (q.w as i128) * (q.w as i128);
    let s: i128 = isqrt_i128(n2);
    proof {
        assert(n2 as int == norm2_q(q));
        assert(is_isqrt(s as int, n2 as int));
        if s == 0 {
            assert((0 + 1) * (0 + 1) == 1);
            assert(false);
        }
        assert(s >= 1);
        assert(-(s as int) <= q.x as int <= s as int) by (nonlinear_arith)
            requires
                (q.x as int) * (q.x as int) <= n2 as int,
                (n2 as int) < ((s as int) + 1) * ((s as int) + 1),
                s >= 0,
        ;
        assert(-(s as int) <= q.y as int <= s as int) by (nonlinear_arith)
            requires
                (q.y as int) * (q.y as int) <= n2 as int,
                (n2 as int) < ((s as int) + 1) * ((s as int) + 1),
                s >= 0,
        ;
        assert(-(s as int) <= q.z as int <= s as int) by (nonlinear_arith)
            requires
                (q.z as int) * (q.z as int) <= n2 as int,
                (n2 as int) < ((s as int) + 1) * ((s as int) + 1),
                s >= 0,
        ;
        assert(-(s as int) <= q.w as int <= s as int) by (nonlinear_arith)
            requires
                (q.w as int) * (q.w as int) <= n2 as int,
                (n2 as int) < ((s as int) + 1) * ((s as int) + 1),
                s >= 0,
        ;
        lemma_mul_bound(q.x as int, FP_ONE as int, s as int, FP_ONE as int);
        lemma_mul_bound(q.y as int, FP_ONE as int, s as int, FP_ONE as int);
        lemma_mul_bound(q.z as int, FP_ONE as int, s as int, FP_ONE as int);
        lemma_mul_bound(q.w as int, FP_ONE as int, s as int, FP_ONE as int);
        assert((s as int) * (FP_ONE as int) == (FP_ONE as int) * (s as int)) by (nonlinear_arith);
        lemma_tdiv_bound((q.x as int) * (FP_ONE as int), s as int, FP_ONE as int);
        lemma_tdiv_bound((q.y as int) * (FP_ONE as int), s as int, FP_ONE as int);
        lemma_tdiv_bound((q.z as int) * (FP_ONE as int), s as int, FP_ONE as int);
        lemma_tdiv_bound((q.w as int) * (FP_ONE as int), s as int, FP_ONE as int);
    }
    let rx: i128 = div_i128((q.x as i128) * (FP_ONE as i128), s);
    let ry: i128 = div_i128((q.y as i128) * (FP_ONE as i128), s);
    let rz: i128 = div_i128((q.z as i128) * (FP_ONE as i128), s);
    let rw: i128 = div_i128((q.w as i128) * (FP_ONE as i128), s);
    let r = Quat { x: rx as i64, y: ry as i64, z: rz as i64, w: rw as i64 };
    proof {
        assert(n2 as int == norm2_q(q));
        assert(s as int == spec_isqrt(norm2_q(q)));
    }
    r
}

/// Advance one body by one timestep `dt` under gravity `g`: symplectic
/// Euler for velocity and position, the implicit gyroscopic update and
/// explicit torque for angular velocity, first-order quaternion
/// integration with renormalization for orientation, and both force
/// accumulators reset.
#[verifier::rlimit(100)]
pub fn integrate_body(rb: &mut RigidBody, coll: &Collider, tr: &mut Transform, dt: i64, g: Vec3)
    requires
        rb_wf(*old(rb)),
        collider_wf(*coll),
        transform_wf(*old(tr)),
        1 <= dt <= FP_ONE,
        bounded(g, FORCE_LIMIT as int),
    ensures
        integrates(*old(rb), *old(tr), *coll, dt, g, *final(rb), *final(tr)),
{
    let ghost rb0 = *rb;
    let ghost tr0 = *tr;
    let q = tr.rotation;

    // Linear part: a = force / mass + g; v += a * dt.
    proof {
        lemma_mul_bound(rb.force.x as int, FP_ONE as int, FORCE_LIMIT as int, FP_ONE as int);
        lemma_mul_bound(rb.force.y as int, FP_ONE as int, FORCE_LIMIT as int, FP_ONE as int);
        lemma_mul_bound(rb.force.z as int, FP_ONE as int, FORCE_LIMIT as int, FP_ONE as int);
    }
    let ax: i128 = div_i128((rb.force.x as i128) * (FP_ONE as i128), rb.mass as i128) + (g.x
        as i128);
    let ay: i128 = div_i128((rb.force.y as i128) * (FP_ONE as i128), rb.mass as i128) + (g.y
        as i128);
    let az: i128 = div_i128((rb.force.z as i128) * (FP_ONE as i128), rb.mass as i128) + (g.z
        as i128);
    proof {
        lemma_mul_bound(ax as int, dt as int, 0x100_1000_0000_0000, FP_ONE as int);
        lemma_mul_bound(ay as int, dt as int, 0x100_1000_0000_0000, FP_ONE as int);
        lemma_mul_bound(az as int, dt as int, 0x100_1000_0000_0000, FP_ONE as int);
        lemma_tdiv_bound((ax as int) * (dt as int), FP_ONE as int, 0x100_1000_0000_0000);
        lemma_tdiv_bound((ay as int) * (dt as int), FP_ONE as int, 0x100_1000_0000_0000);
        lemma_tdiv_bound((az as int) * (dt as int), FP_ONE as int, 0x100_1000_0000_0000);
    }
    let vx: i128 = (rb.velocity.x as i128) + div_i128(ax * (dt as i128), FP_ONE as i128);
    let vy: i128 = (rb.velocity.y as i128) + div_i128(ay * (dt as i128), FP_ONE as i128);
    let vz: i128 = (rb.velocity.z as i128) + div_i128(az * (dt as i128), FP_ONE as i128);
    let vel1 = Vec3 { x: vx as i64, y: vy as i64, z: vz as i64 };
    proof {
        assert(ax as int == accel_x(rb0, g));
        assert(ay as int == accel_y(rb0, g));
        assert(az as int == accel_z(rb0, g));
        assert(vel1 == new_vel(rb0, g, dt as int));
    }

    // Position: p += v * dt, with the updated velocity.
    proof {
        lemma_mul_bound(vel1.x as int, dt as int, 0x200_0000_0000_0000, FP_ONE as int);
        lemma_mul_bound(vel1.y as int, dt as int, 0x200_0000_0000_0000, FP_ONE as int);
        lemma_mul_bound(vel1.z as int, dt as int, 0x200_0000_0000_0000, FP_ONE as int);
        lemma_tdiv_bound((vel1.x as int) * (dt as int), FP_ONE as int, 0x200_0000_0000_0000);
        lemma_tdiv_bound((vel1.y as int) * (dt as int), FP_ONE as int, 0x200_0000_0000_0000);
        lemma_tdiv_bound((vel1.z as int) * (dt as int), FP_ONE as int, 0x200_0000_0000_0000);
    }
    let px: i128 = (tr.translation.x as i128) + div_i128(
        (vel1.x as i128) * (dt as i128),
        FP_ONE as i128,
    );
    let py: i128 = (tr.translation.y as i128) + div_i128(
        (vel1.y as i128) * (dt as i128),
        FP_ONE as i128,
    );
    let pz: i128 = (tr.translation.z as i128) + div_i128(
        (vel1.z as i128) * (dt as i128),
        FP_ONE as i128,
    );
    let pos1 = Vec3 { x: px as i64, y: py as i64, z: pz as i64 };

    // Angular part.
    let ib_mat = coll.I_b();
    let d = Vec3 { x: ib_mat.x_axis.x, y: ib_mat.y_axis.y, z: ib_mat.z_axis.z };
    proof {
        assert(d == diag_of(*coll));
    }
    let cq = q.conjugate();
    proof {
        assert(cq == qconj(q));
    }
    let wb = rotate_vec(cq, rb.angular_velocity);
    let ghost wb_s = spec_rotate(qconj(q), rb0.angular_velocity);
    proof {
        assert(56 * amax3(rb0.angular_velocity) <= 56 * (OMEGA_LIMIT as int));
        assert(wb == wb_s);
        assert(bounded(wb, 0x80_0000));
    }
    let inertia_usable = d.x >= 1 && d.y >= 1 && d.z >= 1;
    proof {
        assert(inertia_usable == inertia_ok(*coll));
    }
    let mut dwb = Vec3 { x: 0, y: 0, z: 0 };
    let mut w2 = rb.angular_velocity;
    let ghost gyro_ok_s = {
        let dd = diag_of(*coll);
        let ibv = diag_mul(dd, wb_s);
        let fv = fp_scale3(cross_vec(wb_s, ibv), dt as int);
        let c0 = j_col0(dd, wb_s, ibv, dt as int);
        let c1 = j_col1(dd, wb_s, ibv, dt as int);
        let c2 = j_col2(dd, wb_s, ibv, dt as int);
        let dn = det3s(c0, c1, c2);
        let dx = det3s(fv, c1, c2);
        let dyn0 = det3s(fv, c0, c2);
        let dz = det3s(fv, c0, c1);
        let qx = qdiv(dx * (FP_ONE as int), dn);
        let qy = qdiv(-dyn0 * (FP_ONE as int), dn);
        let qz = qdiv(dz * (FP_ONE as int), dn);
        inertia_ok(*coll) && bounded(wb_s, WB_CAP as int) && dn != 0 && -(DET_CAP as int) <= dx
            <= DET_CAP as int && -(DET_CAP as int) <= dyn0 <= DET_CAP as int && -(DET_CAP as int)
            <= dz <= DET_CAP as int && -(DW_CAP as int) <= qx <= DW_CAP as int && -(DW_CAP as int)
            <= qy <= DW_CAP as int && -(DW_CAP as int) <= qz <= DW_CAP as int
    };
    if inertia_usable {
        proof {
            lemma_mul_bound(d.x as int, wb.x as int, INERTIA_LIMIT as int, 0x80_0000);
            lemma_mul_bound(d.y as int, wb.y as int, INERTIA_LIMIT as int, 0x80_0000);
            lemma_mul_bound(d.z as int, wb.z as int, INERTIA_LIMIT as int, 0x80_0000);
            lemma_tdiv_bound((d.x as int) * (wb.x as int), FP_ONE as int, 0x8_0000_0000_0000);
            lemma_tdiv_bound((d.y as int) * (wb.y as int), FP_ONE as int, 0x8_0000_0000_0000);
            lemma_tdiv_bound((d.z as int) * (wb.z as int), FP_ONE as int, 0x8_0000_0000_0000);
        }
        let ibx: i128 = div_i128((d.x as i128) * (wb.x as i128), FP_ONE as i128);
        let iby: i128 = div_i128((d.y as i128) * (wb.y as i128), FP_ONE as i128);
        let ibz: i128 = div_i128((d.z as i128) * (wb.z as i128), FP_ONE as i128);
        let ib = Vec3 { x: ibx as i64, y: iby as i64, z: ibz as i64 };
        proof {
            assert(ib == diag_mul(d, wb));
        }
        let wb_small = -WB_CAP <= wb.x && wb.x <= WB_CAP && -WB_CAP <= wb.y && wb.y <= WB_CAP
            && -WB_CAP <= wb.z && wb.z <= WB_CAP;
        if wb_small {
            proof {
                lemma_mul_bound(d.x as int, wb.x as int, INERTIA_LIMIT as int, WB_CAP as int);
                lemma_mul_bound(d.y as int, wb.y as int, INERTIA_LIMIT as int, WB_CAP as int);
                lemma_mul_bound(d.z as int, wb.z as int, INERTIA_LIMIT as int, WB_CAP as int);
                lemma_tdiv_bound((d.x as int) * (wb.x as int), FP_ONE as int, 0x4_0000_0000);
                lemma_tdiv_bound((d.y as int) * (wb.y as int), FP_ONE as int, 0x4_0000_0000);
                lemma_tdiv_bound((d.z as int) * (wb.z as int), FP_ONE as int, 0x4_0000_0000);
                lemma_mul_bound(wb.y as int, ib.z as int, WB_CAP as int, 0x4_0000_0000);
                lemma_mul_bound(wb.z as int, ib.y as int, WB_CAP as int, 0x4_0000_0000);
                lemma_mul_bound(wb.z as int, ib.x as int, WB_CAP as int, 0x4_0000_0000);
                lemma_mul_bound(wb.x as int, ib.z as int, WB_CAP as int, 0x4_0000_0000);
                lemma_mul_bound(wb.x as int, ib.y as int, WB_CAP as int, 0x4_0000_0000);
                lemma_mul_bound(wb.y as int, ib.x as int, WB_CAP as int, 0x4_0000_0000);
            }
            let crx: i128 = (wb.y as i128) * (ib.z as i128) - (wb.z as i128) * (ib.y as i128);
            let cry: i128 = (wb.z as i128) * (ib.x as i128) - (wb.x as i128) * (ib.z as i128);
            let crz: i128 = (wb.x as i128) * (ib.y as i128) - (wb.y as i128) * (ib.x as i128);
            proof {
                lemma_mul_bound(crx as int, dt as int, 0x40_0000_0000_0000, FP_ONE as int);
                lemma_mul_bound(cry as int, dt as int, 0x40_0000_0000_0000, FP_ONE as int);
                lemma_mul_bound(crz as int, dt as int, 0x40_0000_0000_0000, FP_ONE as int);
                lemma_tdiv_bound((crx as int) * (dt as int), FP_ONE as int, 0x40_0000_0000_0000);
                lemma_tdiv_bound((cry as int) * (dt as int), FP_ONE as int, 0x40_0000_0000_0000);
                lemma_tdiv_bound((crz as int) * (dt as int), FP_ONE as int, 0x40_0000_0000_0000);
            }
            let fx: i128 = div_i128(crx * (dt as i128), FP_ONE as i128);
            let fy: i128 = div_i128(cry * (dt as i128), FP_ONE as i128);
            let fz: i128 = div_i128(crz * (dt as i128), FP_ONE as i128);
            let fv = Vec3 { x: fx as i64, y: fy as i64, z: fz as i64 };
            proof {
                assert(fv == fp_scale3(cross_vec(wb, ib), dt as int));
            }
            let c0 = Vec3 {
                x: d.x,
                y: j_off_exec(wb.z, d.x, ib.z, dt),
                z: -j_off_exec(wb.y, d.x, ib.y, dt),
            };
            let c1 = Vec3 {
                x: -j_off_exec(wb.z, d.y, ib.z, dt),
                y: d.y,
                z: j_off_exec(wb.x, d.y, ib.x, dt),
            };
            let c2 = Vec3 {
                x: j_off_exec(wb.y, d.z, ib.y, dt),
                y: -j_off_exec(wb.x, d.z, ib.x, dt),
                z: d.z,
            };
            proof {
                assert(c0 == j_col0(d, wb, ib, dt as int));
                assert(c1 == j_col1(d, wb, ib, dt as int));
                assert(c2 == j_col2(d, wb, ib, dt as int));
            }
            let dn = det3_128(c0, c1, c2);
            let dx = det3_128(fv, c1, c2);
            let dyn0 = det3_128(fv, c0, c2);
            let dz = det3_128(fv, c0, c1);
            if dn != 0 && -DET_CAP <= dx && dx <= DET_CAP && -DET_CAP <= dyn0 && dyn0 <= DET_CAP
                && -DET_CAP <= dz && dz <= DET_CAP {
                proof {
                    lemma_mul_bound(dx as int, FP_ONE as int, DET_CAP as int, FP_ONE as int);
                    lemma_mul_bound(-(dyn0 as int), FP_ONE as int, DET_CAP as int, FP_ONE as int);
                    lemma_mul_bound(dz as int, FP_ONE as int, DET_CAP as int, FP_ONE as int);
                }
                let qx: i128 = if dn > 0 {
                    div_i128(dx * (FP_ONE as i128), dn)
                } else {
                    div_i128(-(dx * (FP_ONE as i128)), -dn)
                };
                let qy: i128 = if dn > 0 {
                    div_i128(-dyn0 * (FP_ONE as i128), dn)
                } else {
                    div_i128(-(-dyn0 * (FP_ONE as i128)), -dn)
                };
                let qz: i128 = if dn > 0 {
                    div_i128(dz * (FP_ONE as i128), dn)
                } else {
                    div_i128(-(dz * (FP_ONE as i128)), -dn)
                };
                proof {
                    assert(qx as int == qdiv((dx as int) * (FP_ONE as int), dn as int));
                    assert(qy as int == qdiv(-(dyn0 as int) * (FP_ONE as int), dn as int));
                    assert(qz as int == qdiv((dz as int) * (FP_ONE as int), dn as int));
                }
                if -(DW_CAP as i128) <= qx && qx <= DW_CAP as i128 && -(DW_CAP as i128) <= qy && qy
                    <= DW_CAP as i128 && -(DW_CAP as i128) <= qz && qz <= DW_CAP as i128 {
                    dwb = Vec3 { x: qx as i64, y: qy as i64, z: qz as i64 };
                    proof {
                        assert(gyro_ok_s);
                    }
                } else {
                    proof {
                        assert(!gyro_ok_s);
                    }
                }
            } else {
                proof {
                    assert(!gyro_ok_s);
                }
            }
        } else {
            proof {
                assert(!bounded(wb_s, WB_CAP as int));
                assert(!gyro_ok_s);
            }
        }
        // Explicit torque term through the rotated inverse inertia.
        let tqb = rotate_vec(cq, rb.torque);
        proof {
            assert(tqb == spec_rotate(qconj(q), rb0.torque));
            assert(56 * amax3(rb0.torque) <= 56 * (OMEGA_LIMIT as int));
            assert(bounded(tqb, 0x80_0000));
        }
        let dinv = Vec3 {
            x: div_i64(FP_ONE_SQ, d.x),
            y: div_i64(FP_ONE_SQ, d.y),
            z: div_i64(FP_ONE_SQ, d.z),
        };
        proof {
            lemma_tdiv_bound(FP_ONE_SQ as int, d.x as int, FP_ONE_SQ as int);
            lemma_tdiv_bound(FP_ONE_SQ as int, d.y as int, FP_ONE_SQ as int);
            lemma_tdiv_bound(FP_ONE_SQ as int, d.z as int, FP_ONE_SQ as int);
            lemma_mul_bound(dinv.x as int, tqb.x as int, FP_ONE_SQ as int, 0x80_0000);
            lemma_mul_bound(dinv.y as int, tqb.y as int, FP_ONE_SQ as int, 0x80_0000);
            lemma_mul_bound(dinv.z as int, tqb.z as int, FP_ONE_SQ as int, 0x80_0000);
            lemma_tdiv_bound((dinv.x as int) * (tqb.x as int), FP_ONE as int, 0x8_0000_0000_0000);
            lemma_tdiv_bound((dinv.y as int) * (tqb.y as int), FP_ONE as int, 0x8_0000_0000_0000);
            lemma_tdiv_bound((dinv.z as int) * (tqb.z as int), FP_ONE as int, 0x8_0000_0000_0000);
        }
        let tmpx: i128 = div_i128((dinv.x as i128) * (tqb.x as i128), FP_ONE as i128);
        let tmpy: i128 = div_i128((dinv.y as i128) * (tqb.y as i128), FP_ONE as i128);
        let tmpz: i128 = div_i128((dinv.z as i128) * (tqb.z as i128), FP_ONE as i128);
        let tmp = Vec3 { x: tmpx as i64, y: tmpy as i64, z: tmpz as i64 };
        proof {
            assert(tmp == diag_mul(dinv, tqb));
            assert(dinv == (Vec3 {
                x: tdiv(FP_ONE_SQ as int, diag_of(*coll).x as int) as i64,
                y: tdiv(FP_ONE_SQ as int, diag_of(*coll).y as int) as i64,
                z: tdiv(FP_ONE_SQ as int, diag_of(*coll).z as int) as i64,
            }));
        }
        let mut term = Vec3 { x: 0, y: 0, z: 0 };
        let tmp_small = -TMP_CAP <= tmp.x && tmp.x <= TMP_CAP && -TMP_CAP <= tmp.y && tmp.y
            <= TMP_CAP && -TMP_CAP <= tmp.z && tmp.z <= TMP_CAP;
        if tmp_small {
            let rot_t = rotate_vec(q, tmp);
            proof {
                assert(56 * amax3(tmp) <= 56 * (TMP_CAP as int));
                assert(bounded(rot_t, 0x2000_0000));
                lemma_mul_bound(rot_t.x as int, dt as int, 0x2000_0000, FP_ONE as int);
                lemma_mul_bound(rot_t.y as int, dt as int, 0x2000_0000, FP_ONE as int);
                lemma_mul_bound(rot_t.z as int, dt as int, 0x2000_0000, FP_ONE as int);
                lemma_tdiv_bound((rot_t.x as int) * (dt as int), FP_ONE as int, 0x2000_0000);
                lemma_tdiv_bound((rot_t.y as int) * (dt as int), FP_ONE as int, 0x2000_0000);
                lemma_tdiv_bound((rot_t.z as int) * (dt as int), FP_ONE as int, 0x2000_0000);
            }
            let tx: i128 = div_i128((rot_t.x as i128) * (dt as i128), FP_ONE as i128);
            let ty: i128 = div_i128((rot_t.y as i128) * (dt as i128), FP_ONE as i128);
            let tz: i128 = div_i128((rot_t.z as i128) * (dt as i128), FP_ONE as i128);
            term = Vec3 { x: tx as i64, y: ty as i64, z: tz as i64 };
            proof {
                assert(term == fp_scale3(spec_rotate(q, tmp), dt as int));
            }
        }
        let wnb = Vec3 { x: wb.x - dwb.x, y: wb.y - dwb.y, z: wb.z - dwb.z };
        let w1 = rotate_vec(q, wnb);
        proof {
            assert(wnb == vsub3(wb, dwb));
            assert(amax3(wnb) <= 0x90_0000);
            assert(bounded(w1, (56 * 0x90_0000) as int));
            assert(bounded(term, 0x2000_0000));
        }
        w2 = Vec3 { x: w1.x + term.x, y: w1.y + term.y, z: w1.z + term.z };
        proof {
            assert(w2 == vadd3(w1, term));
        }
    } else {
        proof {
            assert(!gyro_ok_s);
        }
    }
    // Orientation: first-order quaternion step, then renormalize.
    proof {
        assert(bounded(w2, 0x4000_0000));
    }
    let qw = Quat { x: w2.x, y: w2.y, z: w2.z, w: 0 };
    let qd = qmul(qw, q);
    proof {
        lemma_mul_bound(qw.w as int, q.x as int, 0x4000_0000, 8192);
        lemma_mul_bound(q.w as int, qw.x as int, 8192, 0x4000_0000);
        lemma_mul_bound(qw.y as int, q.z as int, 0x4000_0000, 8192);
        lemma_mul_bound(qw.z as int, q.y as int, 0x4000_0000, 8192);
        lemma_mul_bound(qw.w as int, q.y as int, 0x4000_0000, 8192);
        lemma_mul_bound(q.w as int, qw.y as int, 8192, 0x4000_0000);
        lemma_mul_bound(qw.z as int, q.x as int, 0x4000_0000, 8192);
        lemma_mul_bound(qw.x as int, q.z as int, 0x4000_0000, 8192);
        lemma_mul_bound(qw.w as int, q.z as int, 0x4000_0000, 8192);
        lemma_mul_bound(q.w as int, qw.z as int, 8192, 0x4000_0000);
        lemma_mul_bound(qw.x as int, q.y as int, 0x4000_0000, 8192);
        lemma_mul_bound(qw.y as int, q.x as int, 0x4000_0000, 8192);
        lemma_mul_bound(qw.w as int, q.w as int, 0x4000_0000, 8192);
        lemma_mul_bound(qw.x as int, q.x as int, 0x4000_0000, 8192);
        lemma_mul_bound(qw.y as int, q.y as int, 0x4000_0000, 8192);
        lemma_mul_bound(qw.z as int, q.z as int, 0x4000_0000, 8192);
        assert(bounded_q(qd, 0x2000_0000_0000));
        lemma_mul_bound(qd.x as int, dt as int, 0x2000_0000_0000, FP_ONE as int);
        lemma_mul_bound(qd.y as int, dt as int, 0x2000_0000_0000, FP_ONE as int);
        lemma_mul_bound(qd.z as int, dt as int, 0x2000_0000_0000, FP_ONE as int);
        lemma_mul_bound(qd.w as int, dt as int, 0x2000_0000_0000, FP_ONE as int);
        lemma_tdiv_bound((qd.x as int) * (dt as int), 2 * (FP_ONE_SQ as int), 0x1_0000_0000);
        lemma_tdiv_bound((qd.y as int) * (dt as int), 2 * (FP_ONE_SQ as int), 0x1_0000_0000);
        lemma_tdiv_bound((qd.z as int) * (dt as int), 2 * (FP_ONE_SQ as int), 0x1_0000_0000);
        lemma_tdiv_bound((qd.w as int) * (dt as int), 2 * (FP_ONE_SQ as int), 0x1_0000_0000);
    }
    let drx: i128 = div_i128((qd.x as i128) * (dt as i128), 2 * (FP_ONE_SQ as i128));
    let dry: i128 = div_i128((qd.y as i128) * (dt as i128), 2 * (FP_ONE_SQ as i128));
    let drz: i128 = div_i128((qd.z as i128) * (dt as i128), 2 * (FP_ONE_SQ as i128));
    let drw: i128 = div_i128((qd.w as i128) * (dt as i128), 2 * (FP_ONE_SQ as i128));
    let qn = Quat {
        x: q.x + (drx as i64),
        y: q.y + (dry as i64),
        z: q.z + (drz as i64),
        w: q.w + (drw as i64),
    };
    proof {
        lemma_mul_bound(qn.x as int, qn.x as int, 0x2001_0000_0000, 0x2001_0000_0000);
        lemma_mul_bound(qn.y as int, qn.y as int, 0x2001_0000_0000, 0x2001_0000_0000);
        lemma_mul_bound(qn.z as int, qn.z as int, 0x2001_0000_0000, 0x2001_0000_0000);
        lemma_mul_bound(qn.w as int, qn.w as int, 0x2001_0000_0000, 0x2001_0000_0000);
        assert(qn.x * qn.x >= 0) by (nonlinear_arith);
        assert(qn.y * qn.y >= 0) by (nonlinear_arith);
        assert(qn.z * qn.z >= 0) by (nonlinear_arith);
        assert(qn.w * qn.w >= 0) by (nonlinear_arith);
    }
    let n2: i128 = (qn.x as i128) * (qn.x as i128) + (qn.y as i128) * (qn.y as i128) + (qn.z
        as i128) * (qn.z as i128) + (qn.w as i128) * (qn.w as i128);
    let rot1: Quat = if n2 > 0 {
        normalize_quat(qn)
    } else {
        q
    };
    proof {
        assert(n2 as int == norm2_q(qn));
    }
    rb.velocity = vel1;
    rb.angular_velocity = w2;
    rb.force = Vec3 { x: 0, y: 0, z: 0 };
    rb.torque = Vec3 { x: 0, y: 0, z: 0 };
    tr.rotation = rot1;
    tr.translation = pos1;
    proof {
        assert(integrates(rb0, tr0, *coll, dt, g, *rb, *tr));
    }
}

/// Advance the whole world by one timestep: integrate every object that
/// has a body, then advance the elapsed time by `dt` once.
pub fn update(phys_world: &mut PhysicsWorld, objects: &mut Vec<(RigidBody, Collider, Transform)>)
    requires
        world_wf(*old(phys_world)),
        forall|i: int|
            0 <= i < old(objects)@.len() ==> rb_wf((#[trigger] old(objects)@[i]).0) && collider_wf(
                old(objects)@[i].1,
            ) && transform_wf(old(objects)@[i].2),
    ensures
        final(phys_world).dt == old(phys_world).dt,
        final(phys_world).g == old(phys_world).g,
        final(phys_world).t == old(phys_world).t + old(phys_world).dt,
        final(objects)@.len() == old(objects)@.len(),
        forall|i: int|
            0 <= i < old(objects)@.len() ==> {
                let o0 = #[trigger] old(objects)@[i];
                let o1 = final(objects)@[i];
                o1.1 == o0.1 && integrates(
                    o0.0,
                    o0.2,
                    o0.1,
                    old(phys_world).dt,
                    old(phys_world).g,
                    o1.0,
                    o1.2,
                )
            },
{
    let dt = phys_world.dt;
    let g = phys_world.g;
    let n = objects.len();
    let mut i: usize = 0;
    while i < n
        invariant
            0 <= i <= n,
            n == objects@.len(),
            objects@.len() == old(objects)@.len(),
            1 <= dt <= FP_ONE,
            bounded(g, FORCE_LIMIT as int),
            phys_world == old(phys_world),
            dt == old(phys_world).dt,
            g == old(phys_world).g,
            forall|j: int| i <= j < n ==> objects@[j] == old(objects)@[j],
            forall|j: int|
                0 <= j < old(objects)@.len() ==> rb_wf((#[trigger] old(objects)@[j]).0)
                    && collider_wf(old(objects)@[j].1) && transform_wf(old(objects)@[j].2),
            forall|j: int|
                0 <= j < i ==> {
                    let o0 = #[trigger] old(objects)@[j];
                    let o1 = objects@[j];
                    o1.1 == o0.1 && integrates(o0.0, o0.2, o0.1, dt, g, o1.0, o1.2)
                },
        decreases n - i,
    {
        let (rb_in, coll, tr_in) = objects[i];
        let mut rb = rb_in;
        let mut tr = tr_in;
        integrate_body(&mut rb, &coll, &mut tr, dt, g);
        objects.set(i, (rb, coll, tr));
        i = i + 1;
    }
    phys_world.t = phys_world.t + phys_world.dt;
}

/// Under zero accumulated force and zero gravity, one integration step
/// leaves the linear velocity exactly unchanged.
pub proof fn lemma_zero_force_keeps_velocity(
    rb0: RigidBody,
    tr0: Transform,
    c: Collider,
    dt: i64,
    g: Vec3,
    rb1: RigidBody,
    tr1: Transform,
)
    requires
        integrates(rb0, tr0, c, dt, g, rb1, tr1),
        rb0.force == zero3(),
        g == zero3(),
        1 <= rb0.mass,
        1 <= dt,
    ensures
        rb1.velocity == rb0.velocity,
{
    vstd::arithmetic::div_mod::lemma_div_of0(rb0.mass as int);
    vstd::arithmetic::div_mod::lemma_div_of0(FP_ONE as int);
    assert(accel_x(rb0, g) == 0);
    assert(accel_y(rb0, g) == 0);
    assert(accel_z(rb0, g) == 0);
    assert(accel_x(rb0, g) * (dt as int) == 0) by (nonlinear_arith)
        requires
            accel_x(rb0, g) == 0,
    ;
    assert(accel_y(rb0, g) * (dt as int) == 0) by (nonlinear_arith)
        requires
            accel_y(rb0, g) == 0,
    ;
    assert(accel_z(rb0, g) * (dt as int) == 0) by (nonlinear_arith)
        requires
            accel_z(rb0, g) == 0,
    ;
    assert(tdiv(0, FP_ONE as int) == 0);
    assert(new_vel(rb0, g, dt as int) == rb0.velocity);
}

/// Renormalization keeps the orientation quaternion at unit length within
/// a small fixed-point tolerance: for any quaternion of at least unit
/// length, the squared norm of `normalize_spec(q)` differs from
/// `FP_ONE_SQ` by at most a few thousandths of it.
pub proof fn lemma_normalized_norm(q: Quat)
    requires
        bounded_q(q, 0x2_0000_0000),
        norm2_q(q) >= FP_ONE_SQ,
    ensures
        FP_ONE_SQ - 8 * FP_ONE - 4 <= norm2_q(normalize_spec(q)),
        norm2_q(normalize_spec(q)) <= FP_ONE_SQ + 10 * FP_ONE + 4,
{
    let f = FP_ONE as int;
    let n = norm2_q(q);
    crate::math::lemma_isqrt_exists(n);
    let s = spec_isqrt(n);
    assert(s >= f) by (nonlinear_arith)
        requires
            s * s <= n,
            n < (s + 1) * (s + 1),
            n >= f * f,
            s >= 0,
            f == 4096,
    ;
    assert(q.x * q.x >= 0) by (nonlinear_arith);
    assert(q.y * q.y >= 0) by (nonlinear_arith);
    assert(q.z * q.z >= 0) by (nonlinear_arith);
    assert(q.w * q.w >= 0) by (nonlinear_arith);
    assert(-s <= q.x <= s) by (nonlinear_arith)
        requires
            q.x * q.x <= n,
            n < (s + 1) * (s + 1),
            s >= 0,
    ;
    assert(-s <= q.y <= s) by (nonlinear_arith)
        requires
            q.y * q.y <= n,
            n < (s + 1) * (s + 1),
            s >= 0,
    ;
    assert(-s <= q.z <= s) by (nonlinear_arith)
        requires
            q.z * q.z <= n,
            n < (s + 1) * (s + 1),
            s >= 0,
    ;
    assert(-s <= q.w <= s) by (nonlinear_arith)
        requires
            q.w * q.w <= n,
            n < (s + 1) * (s + 1),
            s >= 0,
    ;
    let tx = q.x * f;
    let ty = q.y * f;
    let tz = q.z * f;
    let tw = q.w * f;
    let ux = tdiv(tx, s);
    let uy = tdiv(ty, s);
    let uz = tdiv(tz, s);
    let uw = tdiv(tw, s);
    crate::math::lemma_tdiv_rem(tx, s);
    crate::math::lemma_tdiv_rem(ty, s);
    crate::math::lemma_tdiv_rem(tz, s);
    crate::math::lemma_tdiv_rem(tw, s);
    let ex = tx - s * ux;
    let ey = ty - s * uy;
    let ez = tz - s * uz;
    let ew = tw - s * uw;
    let np = ux * ux + uy * uy + uz * uz + uw * uw;
    // One component at a time: s^2 u^2 = t^2 - 2 t e + e^2, with
    // |t| <= f * s and |e| <= s, so s^2 u^2 is within 2 f s^2 + s^2 of t^2.
    assert(t_sq_close(s, ux, tx, f)) by (nonlinear_arith)
        requires
            ex == tx - s * ux,
            -s <= ex <= s,
            -(f * s) <= tx <= f * s,
            s >= 1,
            f >= 1,
    ;
    assert(t_sq_close(s, uy, ty, f)) by (nonlinear_arith)
        requires
            ey == ty - s * uy,
            -s <= ey <= s,
            -(f * s) <= ty <= f * s,
            s >= 1,
            f >= 1,
    ;
    assert(t_sq_close(s, uz, tz, f)) by (nonlinear_arith)
        requires
            ez == tz - s * uz,
            -s <= ez <= s,
            -(f * s) <= tz <= f * s,
            s >= 1,
            f >= 1,
    ;
    assert(t_sq_close(s, uw, tw, f)) by (nonlinear_arith)
        requires
            ew == tw - s * uw,
            -s <= ew <= s,
            -(f * s) <= tw <= f * s,
            s >= 1,
            f >= 1,
    ;
    assert(-(f * s) <= tx <= f * s) by (nonlinear_arith)
        requires
            -s <= q.x <= s,
            tx == q.x * f,
            f >= 1,
            s >= 1,
    ;
    assert(-(f * s) <= ty <= f * s) by (nonlinear_arith)
        requires
            -s <= q.y <= s,
            ty == q.y * f,
            f >= 1,
            s >= 1,
    ;
    assert(-(f * s) <= tz <= f * s) by (nonlinear_arith)
        requires
            -s <= q.z <= s,
            tz == q.z * f,
            f >= 1,
            s >= 1,
    ;
    assert(-(f * s) <= tw <= f * s) by (nonlinear_arith)
        requires
            -s <= q.w <= s,
            tw == q.w * f,
            f >= 1,
            s >= 1,
    ;
    // Sum the four components: the scaled squared norm of the result is
    // within (8 f + 4) s^2 of f^2 n, and n itself is within 2 s of s^2.
    assert(tx * tx == f * f * (q.x * q.x)) by (nonlinear_arith)
        requires
            tx == q.x * f,
    ;
    assert(ty * ty == f * f * (q.y * q.y)) by (nonlinear_arith)
        requires
            ty == q.y * f,
    ;
    assert(tz * tz == f * f * (q.z * q.z)) by (nonlinear_arith)
        requires
            tz == q.z * f,
    ;
    assert(tw * tw == f * f * (q.w * q.w)) by (nonlinear_arith)
        requires
            tw == q.w * f,
    ;
    assert(f * f * n == f * f * (q.x * q.x) + f * f * (q.y * q.y) + f * f * (q.z * q.z) + f * f * (
    q.w * q.w)) by (nonlinear_arith)
        requires
            n == q.x * q.x + q.y * q.y + q.z * q.z + q.w * q.w,
    ;
    assert(s * s * np == s * s * (ux * ux) + s * s * (uy * uy) + s * s * (uz * uz) + s * s * (uw
        * uw)) by (nonlinear_arith)
        requires
            np == ux * ux + uy * uy + uz * uz + uw * uw,
    ;
    assert(t_sq_close(s, ux, tx, f) && t_sq_close(s, uy, ty, f) && t_sq_close(s, uz, tz, f) && t_sq_close(s, uw, tw, f));
    assert(tx * tx - (2 * f + 1) * (s * s) <= s * s * (ux * ux) <= tx * tx + (2 * f + 1) * (s * s));
    assert(ty * ty - (2 * f + 1) * (s * s) <= s * s * (uy * uy) <= ty * ty + (2 * f + 1) * (s * s));
    assert(tz * tz - (2 * f + 1) * (s * s) <= s * s * (uz * uz) <= tz * tz + (2 * f + 1) * (s * s));
    assert(tw * tw - (2 * f + 1) * (s * s) <= s * s * (uw * uw) <= tw * tw + (2 * f + 1) * (s * s));
    assert(f == 4096);
    assert(tx * tx + ty * ty + tz * tz + tw * tw == f * f * n);
    assert(s * s * np >= tx * tx + ty * ty + tz * tz + tw * tw - 4 * ((2 * f + 1) * (s * s)));
    assert(s * s * np <= tx * tx + ty * ty + tz * tz + tw * tw + 4 * ((2 * f + 1) * (s * s)));
    assert(f * f * n == 16777216 * n) by (nonlinear_arith)
        requires
            f == 4096,
    ;
    assert(4 * ((2 * f + 1) * (s * s)) == 32772 * (s * s)) by (nonlinear_arith)
        requires
            f == 4096,
    ;
    assert(s * s * np >= 16777216 * n - 32772 * (s * s));
    assert(s * s * np <= 16777216 * n + 32772 * (s * s));
    assert(16777216 * (s * s) <= 16777216 * n);
    assert(f * f * n <= f * f * (s * s) + 2 * f * (s * s)) by (nonlinear_arith)
        requires
            n < (s + 1) * (s + 1),
            f >= 1,
            s >= f,
    ;
    assert(f * f * (s * s) + 2 * f * (s * s) == 16777216 * (s * s) + 8192 * (s * s)) by (
    nonlinear_arith)
        requires
            f == 4096,
    ;
    assert(s * s * np >= 16744444 * (s * s));
    assert(s * s * np <= 16818180 * (s * s));
    assert(np >= 16744444) by (nonlinear_arith)
        requires
            s * s * np >= 16744444 * (s * s),
            s >= 1,
    ;
    assert(np <= 16818180) by (nonlinear_arith)
        requires
            s * s * np <= 16818180 * (s * s),
            s >= 1,
    ;
    crate::math::lemma_tdiv_bound(tx, s, f);
    crate::math::lemma_tdiv_bound(ty, s, f);
    crate::math::lemma_tdiv_bound(tz, s, f);
    crate::math::lemma_tdiv_bound(tw, s, f);
    assert(norm2_q(normalize_spec(q)) == np);
}

/// The scaled square `s^2 u^2` of a truncated quotient stays within
/// `(2 f + 1) s^2` of the square of the dividend.
pub open spec fn t_sq_close(s: int, u: int, t: int, f: int) -> bool {
    t * t - (2 * f + 1) * (s * s) <= s * s * (u * u) <= t * t + (2 * f + 1) * (s * s)
}

} // verus!
