//! Shapes, transforms, the SAT narrow phase, the sweep-and-prune broad
//! phase, and the per-frame collision store.

use vstd::prelude::*;
use crate::math::{
    Vec3, Mat3, Quat, Interval, AABB, bounded, bounded_q, dot_spec, cross_x, cross_y, cross_z,
    rotated_x, rotated_y, rotated_z, rot_num_x, rot_num_y, rot_num_z, smin, smax, tdiv,
    cross, rotate_vec, vadd, div_i64,
    lemma_mul_bound, VEC_LIMIT, QUAT_LIMIT,
};
use crate::{FP_ONE, FP_ONE_SQ};

verus! {

/// Bound on the magnitude of a transform's translation components.
pub const COORD_LIMIT: i64 = 0x100_0000;

/// Bound on a box's extent components.
pub const EXTENT_LIMIT: i64 = 0x10_0000;

/// Bound on the components of a transformed box vertex.
pub const VERT_LIMIT: i64 = 0x4000_0000;

/// Bound on the components of a rotated basis axis (`56 * FP_ONE`).
pub const AXIS_LIMIT: i64 = 229376;

/// Bound on a diagonal entry of a box's body-space inertia tensor.
pub const INERTIA_LIMIT: i64 = 0x400_0000;

/// A rigid world transform: a translation and a rotation quaternion with
/// scale `FP_ONE`.
#[derive(Clone, Copy, Debug, PartialEq, Eq, Structural)]
pub struct Transform {
    pub translation: Vec3,
    pub rotation: Quat,
}

/// Well-formed transform: bounded translation, near-unit quaternion
/// components.
pub open spec fn transform_wf(t: Transform) -> bool {
    &&& bounded(t.translation, COORD_LIMIT as int)
    &&& bounded_q(t.rotation, QUAT_LIMIT as int)
}

/// The body-space unit basis vectors, in fixed point.
pub open spec fn unit_x() -> Vec3 {
    Vec3 { x: FP_ONE, y: 0, z: 0 }
}

pub open spec fn unit_y() -> Vec3 {
    Vec3 { x: 0, y: FP_ONE, z: 0 }
}

/// The forward direction is the negative `z` basis vector.
pub open spec fn unit_neg_z() -> Vec3 {
    Vec3 { x: 0, y: 0, z: (-FP_ONE) as i64 }
}

/// The rotated image of `v` under `t`'s rotation, as a vector.
pub open spec fn spec_rotate(q: Quat, v: Vec3) -> Vec3 {
    Vec3 { x: rotated_x(q, v) as i64, y: rotated_y(q, v) as i64, z: rotated_z(q, v) as i64 }
}

impl Transform {
    /// The identity transform: no translation, identity rotation.
    pub fn identity() -> (r: Transform)
        ensures
            r.translation == (Vec3 { x: 0, y: 0, z: 0 }),
            r.rotation == (Quat { x: 0, y: 0, z: 0, w: FP_ONE }),
            transform_wf(r),
    {
        Transform { translation: Vec3 { x: 0, y: 0, z: 0 }, rotation: Quat { x: 0, y: 0, z: 0, w: FP_ONE } }
    }

    /// A pure translation at the given coordinates.
    pub fn from_xyz(x: i64, y: i64, z: i64) -> (r: Transform)
        requires
            -COORD_LIMIT <= x <= COORD_LIMIT,
            -COORD_LIMIT <= y <= COORD_LIMIT,
            -COORD_LIMIT <= z <= COORD_LIMIT,
        ensures
            r.translation == (Vec3 { x, y, z }),
            r.rotation == (Quat { x: 0, y: 0, z: 0, w: FP_ONE }),
            transform_wf(r),
    {
        Transform { translation: Vec3 { x, y, z }, rotation: Quat { x: 0, y: 0, z: 0, w: FP_ONE } }
    }

    /// Apply the transform to a point: rotate, then translate.
    pub fn mul_vec3(&self, v: Vec3) -> (r: Vec3)
        requires
            transform_wf(*self),
            bounded(v, EXTENT_LIMIT as int),
        ensures
            r.x == self.translation.x + rotated_x(self.rotation, v),
            r.y == self.translation.y + rotated_y(self.rotation, v),
            r.z == self.translation.z + rotated_z(self.rotation, v),
            bounded(r, VERT_LIMIT as int),
    {
        let rot = rotate_vec(self.rotation, v);
        vadd(self.translation, rot)
    }

    /// The world-space `x` basis axis of this transform.
    pub fn right(&self) -> (r: Vec3)
        requires
            transform_wf(*self),
        ensures
            r == spec_rotate(self.rotation, unit_x()),
            bounded(r, AXIS_LIMIT as int),
    {
        rotate_vec(self.rotation, Vec3 { x: FP_ONE, y: 0, z: 0 })
    }

    /// The world-space `y` basis axis of this transform.
    pub fn up(&self) -> (r: Vec3)
        requires
            transform_wf(*self),
        ensures
            r == spec_rotate(self.rotation, unit_y()),
            bounded(r, AXIS_LIMIT as int),
    {
        rotate_vec(self.rotation, Vec3 { x: 0, y: FP_ONE, z: 0 })
    }

    /// The world-space forward axis (negative `z`) of this transform.
    pub fn forward(&self) -> (r: Vec3)
        requires
            transform_wf(*self),
        ensures
            r == spec_rotate(self.rotation, unit_neg_z()),
            bounded(r, AXIS_LIMIT as int),
    {
        rotate_vec(self.rotation, Vec3 { x: 0, y: 0, z: -FP_ONE })
    }
}

/// The kinds of collision shape; today only the oriented box.
#[derive(Clone, Copy, Debug, PartialEq, Eq, Structural)]
pub enum ColliderType {
    Box { extents: Vec3 },
}

/// A shape descriptor attached to an object.
#[derive(Clone, Copy, Debug, PartialEq, Eq, Structural)]
pub struct Collider {
    pub ty: ColliderType,
}

/// The extents of a collider's box.
pub open spec fn extents_of(c: Collider) -> Vec3 {
    match c.ty {
        ColliderType::Box { extents } => extents,
    }
}

/// Well-formed collider: strictly positive, bounded extents.
pub open spec fn collider_wf(c: Collider) -> bool {
    &&& 0 < extents_of(c).x <= EXTENT_LIMIT
    &&& 0 < extents_of(c).y <= EXTENT_LIMIT
    &&& 0 < extents_of(c).z <= EXTENT_LIMIT
}

/// One diagonal entry of the body-space inertia tensor of a solid box with
/// the given pair of cross-section extents, at unit density, in fixed point.
pub open spec fn inertia_diag(a: int, b: int) -> int {
    tdiv(a * a + b * b, 12 * (FP_ONE as int))
}

impl Collider {
    /// A box collider with the given extents (full side lengths).
    pub fn new_box(extents: Vec3) -> (r: Collider)
        requires
            0 < extents.x <= EXTENT_LIMIT,
            0 < extents.y <= EXTENT_LIMIT,
            0 < extents.z <= EXTENT_LIMIT,
        ensures
            r.ty == (ColliderType::Box { extents }),
            collider_wf(r),
    {
        Collider { ty: ColliderType::Box { extents } }
    }

    /// The body-space inertia tensor: the diagonal matrix
    /// `diag(y^2 + z^2, x^2 + z^2, x^2 + y^2) / 12` at unit density.
    #[allow(non_snake_case)]
    pub fn I_b(&self) -> (r: Mat3)
        requires
            collider_wf(*self),
        ensures
            r.x_axis.x == inertia_diag(extents_of(*self).y as int, extents_of(*self).z as int),
            r.y_axis.y == inertia_diag(extents_of(*self).x as int, extents_of(*self).z as int),
            r.z_axis.z == inertia_diag(extents_of(*self).x as int, extents_of(*self).y as int),
            r.x_axis.y == 0 && r.x_axis.z == 0,
            r.y_axis.x == 0 && r.y_axis.z == 0,
            r.z_axis.x == 0 && r.z_axis.y == 0,
            0 <= r.x_axis.x <= INERTIA_LIMIT,
            0 <= r.y_axis.y <= INERTIA_LIMIT,
            0 <= r.z_axis.z <= INERTIA_LIMIT,
    {
        match self.ty {
            ColliderType::Box { extents: v } => {
                proof {
                    lemma_mul_bound(v.x as int, v.x as int, EXTENT_LIMIT as int, EXTENT_LIMIT as int);
                    lemma_mul_bound(v.y as int, v.y as int, EXTENT_LIMIT as int, EXTENT_LIMIT as int);
                    lemma_mul_bound(v.z as int, v.z as int, EXTENT_LIMIT as int, EXTENT_LIMIT as int);
                }
                let xx: i64 = ((v.x as i128) * (v.x as i128)) as i64;
                let yy: i64 = ((v.y as i128) * (v.y as i128)) as i64;
                let zz: i64 = ((v.z as i128) * (v.z as i128)) as i64;
                let d0: i64 = div_i64(yy + zz, 12 * FP_ONE);
                let d1: i64 = div_i64(xx + zz, 12 * FP_ONE);
                let d2: i64 = div_i64(xx + yy, 12 * FP_ONE);
                proof {
                    crate::math::lemma_tdiv_bound((yy + zz) as int, 12 * (FP_ONE as int), INERTIA_LIMIT as int);
                    crate::math::lemma_tdiv_bound((xx + zz) as int, 12 * (FP_ONE as int), INERTIA_LIMIT as int);
                    crate::math::lemma_tdiv_bound((xx + yy) as int, 12 * (FP_ONE as int), INERTIA_LIMIT as int);
                }
                Mat3 {
                    x_axis: Vec3 { x: d0, y: 0, z: 0 },
                    y_axis: Vec3 { x: 0, y: d1, z: 0 },
                    z_axis: Vec3 { x: 0, y: 0, z: d2 },
                }
            },
        }
    }

    /// Pair this shape with a world transform for queries.
    pub fn with_transform<'c, 'gt>(&'c self, transform: &'gt Transform) -> (r: TransformedCollider<
        'c,
        'gt,
    >)
        ensures
            r.collider == self,
            r.transform == transform,
    {
        TransformedCollider::new(self, transform)
    }
}

/// An ephemeral pairing of a shape and a world transform.
#[derive(Clone, Copy)]
pub struct TransformedCollider<'c, 'gt> {
    pub collider: &'c Collider,
    pub transform: &'gt Transform,
}

impl<'c, 'gt> TransformedCollider<'c, 'gt> {
    fn new(collider: &'c Collider, transform: &'gt Transform) -> (r: Self)
        ensures
            r.collider == collider,
            r.transform == transform,
    {
        Self { collider, transform }
    }
}

/// Half of `e`, rounded toward zero; extents are positive so this is the
/// Euclidean quotient.
pub open spec fn half(e: int) -> int {
    e / 2
}

/// One body-space corner of a box with the given extents; the three low
/// bits of `i` (values `0..8`) choose the sign of each component.
pub open spec fn corner(e: Vec3, i: int) -> Vec3 {
    Vec3 {
        x: (if i >= 4 { half(e.x as int) } else { -half(e.x as int) }) as i64,
        y: (if i % 4 >= 2 { half(e.y as int) } else { -half(e.y as int) }) as i64,
        z: (if i % 2 == 1 { half(e.z as int) } else { -half(e.z as int) }) as i64,
    }
}

/// The world-space image of corner `i` of collider `c` under transform `t`.
#[verifier::opaque]
pub open spec fn world_vertex(c: Collider, t: Transform, i: int) -> Vec3 {
    Vec3 {
        x: (t.translation.x + rotated_x(t.rotation, corner(extents_of(c), i))) as i64,
        y: (t.translation.y + rotated_y(t.rotation, corner(extents_of(c), i))) as i64,
        z: (t.translation.z + rotated_z(t.rotation, corner(extents_of(c), i))) as i64,
    }
}

/// The minimum of eight integers.
pub open spec fn min8(a: int, b: int, c: int, d: int, e: int, f: int, g: int, h: int) -> int {
    smin(smin(smin(a, b), smin(c, d)), smin(smin(e, f), smin(g, h)))
}

/// The maximum of eight integers.
pub open spec fn max8(a: int, b: int, c: int, d: int, e: int, f: int, g: int, h: int) -> int {
    smax(smax(smax(a, b), smax(c, d)), smax(smax(e, f), smax(g, h)))
}

/// The smallest `x` coordinate among the eight world-space vertices.
pub open spec fn vert_min_x(c: Collider, t: Transform) -> int {
    min8(
        world_vertex(c, t, 0).x as int,
        world_vertex(c, t, 1).x as int,
        world_vertex(c, t, 2).x as int,
        world_vertex(c, t, 3).x as int,
        world_vertex(c, t, 4).x as int,
        world_vertex(c, t, 5).x as int,
        world_vertex(c, t, 6).x as int,
        world_vertex(c, t, 7).x as int,
    )
}

pub open spec fn vert_min_y(c: Collider, t: Transform) -> int {
    min8(
        world_vertex(c, t, 0).y as int,
        world_vertex(c, t, 1).y as int,
        world_vertex(c, t, 2).y as int,
        world_vertex(c, t, 3).y as int,
        world_vertex(c, t, 4).y as int,
        world_vertex(c, t, 5).y as int,
        world_vertex(c, t, 6).y as int,
        world_vertex(c, t, 7).y as int,
    )
}

pub open spec fn vert_min_z(c: Collider, t: Transform) -> int {
    min8(
        world_vertex(c, t, 0).z as int,
        world_vertex(c, t, 1).z as int,
        world_vertex(c, t, 2).z as int,
        world_vertex(c, t, 3).z as int,
        world_vertex(c, t, 4).z as int,
        world_vertex(c, t, 5).z as int,
        world_vertex(c, t, 6).z as int,
        world_vertex(c, t, 7).z as int,
    )
}

pub open spec fn vert_max_x(c: Collider, t: Transform) -> int {
    max8(
        world_vertex(c, t, 0).x as int,
        world_vertex(c, t, 1).x as int,
        world_vertex(c, t, 2).x as int,
        world_vertex(c, t, 3).x as int,
        world_vertex(c, t, 4).x as int,
        world_vertex(c, t, 5).x as int,
        world_vertex(c, t, 6).x as int,
        world_vertex(c, t, 7).x as int,
    )
}

pub open spec fn vert_max_y(c: Collider, t: Transform) -> int {
    max8(
        world_vertex(c, t, 0).y as int,
        world_vertex(c, t, 1).y as int,
        world_vertex(c, t, 2).y as int,
        world_vertex(c, t, 3).y as int,
        world_vertex(c, t, 4).y as int,
        world_vertex(c, t, 5).y as int,
        world_vertex(c, t, 6).y as int,
        world_vertex(c, t, 7).y as int,
    )
}

pub open spec fn vert_max_z(c: Collider, t: Transform) -> int {
    max8(
        world_vertex(c, t, 0).z as int,
        world_vertex(c, t, 1).z as int,
        world_vertex(c, t, 2).z as int,
        world_vertex(c, t, 3).z as int,
        world_vertex(c, t, 4).z as int,
        world_vertex(c, t, 5).z as int,
        world_vertex(c, t, 6).z as int,
        world_vertex(c, t, 7).z as int,
    )
}

impl<'c, 'gt> TransformedCollider<'c, 'gt> {
    /// The eight corners of the box in world space, in corner order.
    pub fn world_vertices(&self) -> (r: Vec<Vec3>)
        requires
            collider_wf(*self.collider),
            transform_wf(*self.transform),
        ensures
            r@.len() == 8,
            forall|i: int| 0 <= i < 8 ==> r@[i] == world_vertex(*self.collider, *self.transform, i),
            forall|i: int| 0 <= i < 8 ==> bounded(#[trigger] r@[i], VERT_LIMIT as int),
    {
        let c = *self.collider;
        let t = *self.transform;
        let e: Vec3 = match c.ty {
            ColliderType::Box { extents } => extents,
        };
        let hx: i64 = div_i64(e.x, 2);
        let hy: i64 = div_i64(e.y, 2);
        let hz: i64 = div_i64(e.z, 2);
        let mut r: Vec<Vec3> = Vec::new();
        let mut i: usize = 0;
        while i < 8
            invariant
                0 <= i <= 8,
                collider_wf(c),
                transform_wf(t),
                c == *self.collider,
                t == *self.transform,
                hx == half(e.x as int),
                hy == half(e.y as int),
                hz == half(e.z as int),
                e == extents_of(c),
                0 <= hx <= EXTENT_LIMIT,
                0 <= hy <= EXTENT_LIMIT,
                0 <= hz <= EXTENT_LIMIT,
                r@.len() == i,
                forall|j: int| 0 <= j < i ==> r@[j] == world_vertex(c, t, j),
                forall|j: int| 0 <= j < i ==> bounded(#[trigger] r@[j], VERT_LIMIT as int),
            decreases 8 - i,
        {
            let cx: i64 = if i >= 4 { hx } else { -hx };
            let cy: i64 = if i % 4 >= 2 { hy } else { -hy };
            let cz: i64 = if i % 2 == 1 { hz } else { -hz };
            let co = Vec3 { x: cx, y: cy, z: cz };
            proof {
                assert(co == corner(e, i as int));
            }
            let wv = t.mul_vec3(co);
            proof {
                reveal(world_vertex);
                assert(wv == world_vertex(c, t, i as int));
            }
            r.push(wv);
            i = i + 1;
        }
        r
    }

    /// The world-space axis-aligned bounding box of the transformed box:
    /// the componentwise minimum and maximum of the eight transformed
    /// corners.
    #[verifier::rlimit(60)]
    pub fn aabb(&self) -> (r: AABB)
        requires
            collider_wf(*self.collider),
            transform_wf(*self.transform),
        ensures
            crate::math::aabb_wf(r),
            r.min.x == vert_min_x(*self.collider, *self.transform),
            r.min.y == vert_min_y(*self.collider, *self.transform),
            r.min.z == vert_min_z(*self.collider, *self.transform),
            r.max.x == vert_max_x(*self.collider, *self.transform),
            r.max.y == vert_max_y(*self.collider, *self.transform),
            r.max.z == vert_max_z(*self.collider, *self.transform),
            bounded(r.min, VERT_LIMIT as int),
            bounded(r.max, VERT_LIMIT as int),
    {
        let verts = self.world_vertices();
        let r = AABB::fit_vertices(&verts);
        proof {
            let c = *self.collider;
            let t = *self.transform;
            assert forall|i: int| 0 <= i < 8 implies {
                let v = #[trigger] world_vertex(c, t, i);
                r.min.x <= v.x <= r.max.x && r.min.y <= v.y <= r.max.y && r.min.z <= v.z
                    <= r.max.z
            } by {
                assert(verts@[i] == world_vertex(c, t, i));
            }
            let wx = choose|i: int| 0 <= i < 8 && r.min.x == verts@[i].x;
            assert(verts@[wx] == world_vertex(c, t, wx));
            let wy = choose|i: int| 0 <= i < 8 && r.min.y == verts@[i].y;
            assert(verts@[wy] == world_vertex(c, t, wy));
            let wz = choose|i: int| 0 <= i < 8 && r.min.z == verts@[i].z;
            assert(verts@[wz] == world_vertex(c, t, wz));
            let ux = choose|i: int| 0 <= i < 8 && r.max.x == verts@[i].x;
            assert(verts@[ux] == world_vertex(c, t, ux));
            let uy = choose|i: int| 0 <= i < 8 && r.max.y == verts@[i].y;
            assert(verts@[uy] == world_vertex(c, t, uy));
            let uz = choose|i: int| 0 <= i < 8 && r.max.z == verts@[i].z;
            assert(verts@[uz] == world_vertex(c, t, uz));
        }
        r
    }
}

/// The cross product as a vector.
pub open spec fn cross_vec(a: Vec3, b: Vec3) -> Vec3 {
    Vec3 { x: cross_x(a, b) as i64, y: cross_y(a, b) as i64, z: cross_z(a, b) as i64 }
}

/// A degenerate candidate axis: exactly the zero vector. Cross products of
/// parallel basis axes produce it; such axes are skipped, never treated as
/// separating.
pub open spec fn degenerate(a: Vec3) -> bool {
    a.x == 0 && a.y == 0 && a.z == 0
}

/// The `k`-th candidate separating axis (`0 <= k < 9`) for a box pair:
/// both boxes' three basis axes, then the pairwise cross products of the
/// first box's axes. A complete oriented-box SAT would also test the nine
/// cross-box products; this reproduces the narrower axis set deliberately.
#[verifier::opaque]
pub open spec fn sat_axis(ts: Transform, to: Transform, k: int) -> Vec3 {
    if k == 0 {
        spec_rotate(ts.rotation, unit_x())
    } else if k == 1 {
        spec_rotate(ts.rotation, unit_y())
    } else if k == 2 {
        spec_rotate(ts.rotation, unit_neg_z())
    } else if k == 3 {
        spec_rotate(to.rotation, unit_x())
    } else if k == 4 {
        spec_rotate(to.rotation, unit_y())
    } else if k == 5 {
        spec_rotate(to.rotation, unit_neg_z())
    } else if k == 6 {
        cross_vec(spec_rotate(ts.rotation, unit_x()), spec_rotate(ts.rotation, unit_y()))
    } else if k == 7 {
        cross_vec(spec_rotate(ts.rotation, unit_x()), spec_rotate(ts.rotation, unit_neg_z()))
    } else {
        cross_vec(spec_rotate(ts.rotation, unit_y()), spec_rotate(ts.rotation, unit_neg_z()))
    }
}

/// The smallest projection of box `(c, t)` onto `axis`.
pub open spec fn proj_lo(c: Collider, t: Transform, axis: Vec3) -> int {
    min8(
        dot_spec(world_vertex(c, t, 0), axis),
        dot_spec(world_vertex(c, t, 1), axis),
        dot_spec(world_vertex(c, t, 2), axis),
        dot_spec(world_vertex(c, t, 3), axis),
        dot_spec(world_vertex(c, t, 4), axis),
        dot_spec(world_vertex(c, t, 5), axis),
        dot_spec(world_vertex(c, t, 6), axis),
        dot_spec(world_vertex(c, t, 7), axis),
    )
}

/// The largest projection of box `(c, t)` onto `axis`.
pub open spec fn proj_hi(c: Collider, t: Transform, axis: Vec3) -> int {
    max8(
        dot_spec(world_vertex(c, t, 0), axis),
        dot_spec(world_vertex(c, t, 1), axis),
        dot_spec(world_vertex(c, t, 2), axis),
        dot_spec(world_vertex(c, t, 3), axis),
        dot_spec(world_vertex(c, t, 4), axis),
        dot_spec(world_vertex(c, t, 5), axis),
        dot_spec(world_vertex(c, t, 6), axis),
        dot_spec(world_vertex(c, t, 7), axis),
    )
}

/// The signed overlap of the two boxes' projection intervals on `axis`:
/// negative exactly when the projections are disjoint, otherwise the
/// length of their intersection.
pub open spec fn overlap_len(
    cs: Collider,
    ts: Transform,
    co: Collider,
    to: Transform,
    axis: Vec3,
) -> int {
    smin(proj_hi(cs, ts, axis), proj_hi(co, to, axis)) - smax(
        proj_lo(cs, ts, axis),
        proj_lo(co, to, axis),
    )
}

/// An interval produced by projecting the eight world vertices equals the
/// componentwise minimum and maximum of the eight projections.
proof fn lemma_projection_is_proj(c: Collider, t: Transform, verts: Seq<Vec3>, axis: Vec3, iv: Interval)
    requires
        verts.len() == 8,
        forall|i: int| 0 <= i < 8 ==> verts[i] == world_vertex(c, t, i),
        forall|i: int| 0 <= i < 8 ==> iv.lo <= #[trigger] dot_spec(verts[i], axis) <= iv.hi,
        exists|i: int| 0 <= i < 8 && iv.lo == dot_spec(verts[i], axis),
        exists|i: int| 0 <= i < 8 && iv.hi == dot_spec(verts[i], axis),
    ensures
        iv.lo == proj_lo(c, t, axis),
        iv.hi == proj_hi(c, t, axis),
{
    assert forall|i: int| 0 <= i < 8 implies iv.lo <= #[trigger] dot_spec(
        world_vertex(c, t, i),
        axis,
    ) <= iv.hi by {
        assert(verts[i] == world_vertex(c, t, i));
        assert(iv.lo <= dot_spec(verts[i], axis) <= iv.hi);
    }
    let wl = choose|i: int| 0 <= i < 8 && iv.lo == dot_spec(verts[i], axis);
    assert(iv.lo == dot_spec(world_vertex(c, t, wl), axis));
    let wh = choose|i: int| 0 <= i < 8 && iv.hi == dot_spec(verts[i], axis);
    assert(iv.hi == dot_spec(world_vertex(c, t, wh), axis));
}

/// The result of one detected overlap: the minimum-penetration axis (not
/// normalized; its length is that of the basis axis or cross product that
/// produced it) and the overlap depth measured along it.
#[derive(Clone, Copy, Debug, PartialEq, Eq, Structural)]
pub struct CollisionData {
    pub normal: Vec3,
    pub depth: i128,
}

impl<'c, 'gt> TransformedCollider<'c, 'gt> {
    /// Separating-axis test between two oriented boxes. Each candidate
    /// axis that is not degenerate has both boxes' vertices projected onto
    /// it; a disjoint pair of projections certifies separation (`None`),
    /// and otherwise the axis with the smallest overlap is reported with
    /// that overlap as depth. `None` is also returned in the vacuous case
    /// where every candidate axis is degenerate.
    #[verifier::rlimit(100)]
    pub fn collide<'c2, 'gt2>(self, other: TransformedCollider<'c2, 'gt2>) -> (r: Option<
        CollisionData,
    >)
        requires
            collider_wf(*self.collider),
            transform_wf(*self.transform),
            collider_wf(*other.collider),
            transform_wf(*other.transform),
        ensures
            r is None <==> ((exists|k: int|
                0 <= k < 9 && !degenerate(#[trigger] sat_axis(*self.transform, *other.transform, k))
                    && overlap_len(
                    *self.collider,
                    *self.transform,
                    *other.collider,
                    *other.transform,
                    sat_axis(*self.transform, *other.transform, k),
                ) < 0) || (forall|k: int|
                0 <= k < 9 ==> degenerate(
                    #[trigger] sat_axis(*self.transform, *other.transform, k),
                ))),
            r matches Some(cd) ==> exists|k: int|
                0 <= k < 9 && !degenerate(#[trigger] sat_axis(*self.transform, *other.transform, k))
                    && cd.normal == sat_axis(*self.transform, *other.transform, k) && cd.depth
                    == overlap_len(
                    *self.collider,
                    *self.transform,
                    *other.collider,
                    *other.transform,
                    sat_axis(*self.transform, *other.transform, k),
                ),
            r matches Some(cd) ==> forall|k: int|
                0 <= k < 9 && !degenerate(#[trigger] sat_axis(*self.transform, *other.transform, k))
                    ==> cd.depth <= overlap_len(
                    *self.collider,
                    *self.transform,
                    *other.collider,
                    *other.transform,
                    sat_axis(*self.transform, *other.transform, k),
                ),
            r matches Some(cd) ==> cd.depth >= 0,
    {
        let ghost cs = *self.collider;
        let ghost ts = *self.transform;
        let ghost co = *other.collider;
        let ghost to = *other.transform;
        let sa0 = self.transform.right();
        let sa1 = self.transform.up();
        let sa2 = self.transform.forward();
        let oa0 = other.transform.right();
        let oa1 = other.transform.up();
        let oa2 = other.transform.forward();
        proof {
            lemma_cross_axis_bounded(sa0, sa1);
            lemma_cross_axis_bounded(sa0, sa2);
            lemma_cross_axis_bounded(sa1, sa2);
        }
        let c01 = cross(sa0, sa1);
        let c02 = cross(sa0, sa2);
        let c12 = cross(sa1, sa2);
        let mut axes: Vec<Vec3> = Vec::new();
        axes.push(sa0);
        axes.push(sa1);
        axes.push(sa2);
        axes.push(oa0);
        axes.push(oa1);
        axes.push(oa2);
        axes.push(c01);
        axes.push(c02);
        axes.push(c12);
        proof {
            reveal(sat_axis);
            assert forall|j: int| 0 <= j < 9 implies axes@[j] == sat_axis(ts, to, j) && bounded(
                #[trigger] axes@[j],
                VEC_LIMIT as int,
            ) by {
            }
        }
        let self_vertices = self.world_vertices();
        let other_vertices = other.world_vertices();
        let mut normal = Vec3 { x: 0, y: 0, z: 0 };
        let mut minimal_intersection: Option<Interval> = None;
        let mut k: usize = 0;
        while k < 9
            invariant
                0 <= k <= 9,
                axes@.len() == 9,
                collider_wf(cs),
                transform_wf(ts),
                collider_wf(co),
                transform_wf(to),
                cs == *self.collider,
                ts == *self.transform,
                co == *other.collider,
                to == *other.transform,
                forall|j: int|
                    0 <= j < 9 ==> axes@[j] == sat_axis(ts, to, j) && bounded(
                        #[trigger] axes@[j],
                        VEC_LIMIT as int,
                    ),
                self_vertices@.len() == 8,
                other_vertices@.len() == 8,
                forall|i: int| 0 <= i < 8 ==> self_vertices@[i] == world_vertex(cs, ts, i),
                forall|i: int| 0 <= i < 8 ==> other_vertices@[i] == world_vertex(co, to, i),
                forall|i: int|
                    0 <= i < 8 ==> bounded(#[trigger] self_vertices@[i], VEC_LIMIT as int),
                forall|i: int|
                    0 <= i < 8 ==> bounded(#[trigger] other_vertices@[i], VEC_LIMIT as int),
                forall|j: int|
                    0 <= j < k && !degenerate(#[trigger] sat_axis(ts, to, j)) ==> overlap_len(
                        cs,
                        ts,
                        co,
                        to,
                        sat_axis(ts, to, j),
                    ) >= 0,
                minimal_intersection is None <==> (forall|j: int|
                    0 <= j < k ==> degenerate(#[trigger] sat_axis(ts, to, j))),
                minimal_intersection matches Some(b) ==> crate::math::interval_wf(b) && (exists|
                    j: int,
                |
                    0 <= j < k && !degenerate(#[trigger] sat_axis(ts, to, j)) && normal == sat_axis(
                        ts,
                        to,
                        j,
                    ) && b.hi - b.lo == overlap_len(cs, ts, co, to, sat_axis(ts, to, j))),
                minimal_intersection matches Some(b) ==> (forall|j: int|
                    0 <= j < k && !degenerate(#[trigger] sat_axis(ts, to, j)) ==> b.hi - b.lo
                        <= overlap_len(cs, ts, co, to, sat_axis(ts, to, j))),
            decreases 9 - k,
        {
            let axis = axes[k];
            if !(axis.x == 0 && axis.y == 0 && axis.z == 0) {
                let self_interval = Interval::vertex_projection(&self_vertices, axis);
                let other_interval = Interval::vertex_projection(&other_vertices, axis);
                proof {
                    lemma_projection_is_proj(cs, ts, self_vertices@, axis, self_interval);
                    lemma_projection_is_proj(co, to, other_vertices@, axis, other_interval);
                }
                match self_interval.intersection(other_interval) {
                    Some(intersection) => {
                        let replace = match minimal_intersection {
                            Option::None => true,
                            Option::Some(b) => b.hi - b.lo > intersection.hi - intersection.lo,
                        };
                        if replace {
                            minimal_intersection = Some(intersection);
                            normal = axis;
                        }
                    },
                    None => {
                        return None;
                    },
                }
            }
            k = k + 1;
        }
        match minimal_intersection {
            Some(i) => Some(CollisionData { normal, depth: i.hi - i.lo }),
            None => None,
        }
    }
}

/// Cross products of bounded basis axes stay within `VEC_LIMIT`.
proof fn lemma_cross_axis_bounded(a: Vec3, b: Vec3)
    requires
        bounded(a, AXIS_LIMIT as int),
        bounded(b, AXIS_LIMIT as int),
    ensures
        -(VEC_LIMIT as int) <= cross_x(a, b) <= VEC_LIMIT as int,
        -(VEC_LIMIT as int) <= cross_y(a, b) <= VEC_LIMIT as int,
        -(VEC_LIMIT as int) <= cross_z(a, b) <= VEC_LIMIT as int,
        bounded(cross_vec(a, b), VEC_LIMIT as int),
{
    lemma_mul_bound(a.y as int, b.z as int, 229376, 229376);
    lemma_mul_bound(a.z as int, b.y as int, 229376, 229376);
    lemma_mul_bound(a.z as int, b.x as int, 229376, 229376);
    lemma_mul_bound(a.x as int, b.z as int, 229376, 229376);
    lemma_mul_bound(a.x as int, b.y as int, 229376, 229376);
    lemma_mul_bound(a.y as int, b.x as int, 229376, 229376);
}

/// A recorded colliding pair: the two object identifiers, in the order
/// the broad phase found them.
#[derive(Clone, Copy, Debug, PartialEq, Eq, Structural)]
pub struct Collision {
    pub entity_a: u64,
    pub entity_b: u64,
}

/// `e` participates in some recorded pair.
pub open spec fn spec_has_collision(s: Seq<Collision>, e: u64) -> bool {
    exists|i: int| 0 <= i < s.len() && ((#[trigger] s[i]).entity_a == e || s[i].entity_b == e)
}

/// `s` holds the record pairing `a` with `b`, in that order.
pub open spec fn has_pair(s: Seq<Collision>, a: u64, b: u64) -> bool {
    exists|i: int| 0 <= i < s.len() && #[trigger] s[i] == (Collision { entity_a: a, entity_b: b })
}

/// The per-frame set of confirmed colliding pairs, rebuilt every step and
/// queryable by participant.
#[derive(Debug)]
pub struct CollisionStore {
    pub collisions: Vec<Collision>,
}

impl CollisionStore {
    /// An empty store.
    pub fn new() -> (r: CollisionStore)
        ensures
            r.collisions@.len() == 0,
    {
        CollisionStore { collisions: Vec::new() }
    }

    /// Remove every record.
    pub fn clear(&mut self)
        ensures
            final(self).collisions@.len() == 0,
    {
        self.collisions.clear();
    }

    /// Append one pair record. The collision payload is accepted but not
    /// retained: the store answers participation queries only.
    pub fn add_collision(&mut self, entity_a: u64, entity_b: u64, data: CollisionData)
        ensures
            final(self).collisions@ == old(self).collisions@.push(
                Collision { entity_a, entity_b },
            ),
    {
        let _ = data;
        self.collisions.push(Collision { entity_a, entity_b });
    }

    /// Whether `entity` appears in any recorded pair, on either side.
    pub fn has_collision(&self, entity: u64) -> (r: bool)
        ensures
            r == spec_has_collision(self.collisions@, entity),
    {
        let mut i: usize = 0;
        while i < self.collisions.len()
            invariant
                0 <= i <= self.collisions@.len(),
                forall|j: int|
                    0 <= j < i ==> (#[trigger] self.collisions@[j]).entity_a != entity
                        && self.collisions@[j].entity_b != entity,
            decreases self.collisions@.len() - i,
        {
            let c = self.collisions[i];
            if c.entity_a == entity || c.entity_b == entity {
                return true;
            }
            i = i + 1;
        }
        false
    }
}

/// The store's lifecycle: an empty store reports no participant; after a
/// pair is appended both of its participants are reported, and an entity
/// unrelated to the pair and absent before stays absent.
pub proof fn lemma_store_lifecycle(s: Seq<Collision>, a: u64, b: u64, c: u64)
    ensures
        !spec_has_collision(Seq::<Collision>::empty(), c),
        spec_has_collision(s.push(Collision { entity_a: a, entity_b: b }), a),
        spec_has_collision(s.push(Collision { entity_a: a, entity_b: b }), b),
        (c != a && c != b && !spec_has_collision(s, c)) ==> !spec_has_collision(
            s.push(Collision { entity_a: a, entity_b: b }),
            c,
        ),
{
    let p = s.push(Collision { entity_a: a, entity_b: b });
    assert(p[s.len() as int] == (Collision { entity_a: a, entity_b: b }));
    if c != a && c != b && !spec_has_collision(s, c) {
        assert forall|i: int| 0 <= i < p.len() implies (#[trigger] p[i]).entity_a != c && p[i].entity_b
            != c by {
            if i < s.len() {
                assert(p[i] == s[i]);
                assert(!((s[i]).entity_a == c || s[i].entity_b == c));
            }
        }
    }
}

/// The two boxes' bounding intervals overlap on the `x` axis.
pub open spec fn overlap_on_x(c1: Collider, t1: Transform, c2: Collider, t2: Transform) -> bool {
    vert_min_x(c1, t1) <= vert_max_x(c2, t2) && vert_min_x(c2, t2) <= vert_max_x(c1, t1)
}

pub open spec fn overlap_on_y(c1: Collider, t1: Transform, c2: Collider, t2: Transform) -> bool {
    vert_min_y(c1, t1) <= vert_max_y(c2, t2) && vert_min_y(c2, t2) <= vert_max_y(c1, t1)
}

pub open spec fn overlap_on_z(c1: Collider, t1: Transform, c2: Collider, t2: Transform) -> bool {
    vert_min_z(c1, t1) <= vert_max_z(c2, t2) && vert_min_z(c2, t2) <= vert_max_z(c1, t1)
}

/// The two boxes' AABBs overlap on all three principal axes at once: the
/// broad-phase candidate condition.
pub open spec fn aabb_overlap(c1: Collider, t1: Transform, c2: Collider, t2: Transform) -> bool {
    overlap_on_x(c1, t1, c2, t2) && overlap_on_y(c1, t1, c2, t2) && overlap_on_z(c1, t1, c2, t2)
}

/// The narrow phase confirms an overlap: no non-degenerate candidate axis
/// separates the boxes, and at least one candidate axis is usable.
pub open spec fn narrow_hit(cs: Collider, ts: Transform, co: Collider, to: Transform) -> bool {
    !((exists|k: int|
        0 <= k < 9 && !degenerate(#[trigger] sat_axis(ts, to, k)) && overlap_len(
            cs,
            ts,
            co,
            to,
            sat_axis(ts, to, k),
        ) < 0) || (forall|k: int| 0 <= k < 9 ==> degenerate(#[trigger] sat_axis(ts, to, k))))
}

/// One simulated object: its identifier, shape and world transform.
pub type ObjectTriple = (u64, Collider, Transform);

/// Every object's shape and transform is well formed.
pub open spec fn objects_wf(objs: Seq<ObjectTriple>) -> bool {
    forall|i: int|
        0 <= i < objs.len() ==> collider_wf((#[trigger] objs[i]).1) && transform_wf(objs[i].2)
}

/// The candidate condition between objects `i` and `j` of the set.
pub open spec fn objs_aabb_overlap(objs: Seq<ObjectTriple>, i: int, j: int) -> bool {
    aabb_overlap(objs[i].1, objs[i].2, objs[j].1, objs[j].2)
}

/// The confirmed-collision condition between objects `i` and `j`.
pub open spec fn objs_narrow_hit(objs: Seq<ObjectTriple>, i: int, j: int) -> bool {
    narrow_hit(objs[i].1, objs[i].2, objs[j].1, objs[j].2)
}

/// A sequence of index pairs holds `(i, j)`.
pub open spec fn pair_in(s: Seq<(usize, usize)>, i: int, j: int) -> bool {
    exists|p: int| 0 <= p < s.len() && #[trigger] s[p] == (i as usize, j as usize)
}

/// Whether the pair vector holds `(i, j)`.
fn contains_pair(s: &Vec<(usize, usize)>, i: usize, j: usize) -> (r: bool)
    ensures
        r == pair_in(s@, i as int, j as int),
{
    let mut p: usize = 0;
    while p < s.len()
        invariant
            0 <= p <= s@.len(),
            forall|q: int| 0 <= q < p ==> #[trigger] s@[q] != (i, j),
        decreases s@.len() - p,
    {
        let (a, b) = s[p];
        if a == i && b == j {
            return true;
        }
        p = p + 1;
    }
    false
}

/// The boxes' bounding intervals overlap on principal axis `d`.
pub open spec fn overlap_on_axis(
    d: int,
    c1: Collider,
    t1: Transform,
    c2: Collider,
    t2: Transform,
) -> bool {
    if d == 0 {
        overlap_on_x(c1, t1, c2, t2)
    } else if d == 1 {
        overlap_on_y(c1, t1, c2, t2)
    } else {
        overlap_on_z(c1, t1, c2, t2)
    }
}

/// The AABB fields of `bb` record the vertex extremes of object `o`.
pub open spec fn aabb_matches(bb: AABB, o: ObjectTriple) -> bool {
    &&& bb.min.x == vert_min_x(o.1, o.2)
    &&& bb.min.y == vert_min_y(o.1, o.2)
    &&& bb.min.z == vert_min_z(o.1, o.2)
    &&& bb.max.x == vert_max_x(o.1, o.2)
    &&& bb.max.y == vert_max_y(o.1, o.2)
    &&& bb.max.z == vert_max_z(o.1, o.2)
}

/// The pairs of objects whose bounding intervals overlap on principal
/// axis `d`, each with its indices in ascending order: one per-axis
/// candidate set of the broad phase.
fn axis_pairs(aabbs: &Vec<AABB>, d: usize, Ghost(objs): Ghost<Seq<ObjectTriple>>) -> (r: Vec<
    (usize, usize),
>)
    requires
        d < 3,
        aabbs@.len() == objs.len(),
        forall|i: int| 0 <= i < objs.len() ==> aabb_matches(#[trigger] aabbs@[i], objs[i]),
    ensures
        forall|i: int, j: int|
            0 <= i < j < objs.len() ==> (pair_in(r@, i, j) <==> overlap_on_axis(
                d as int,
                objs[i].1,
                objs[i].2,
                objs[j].1,
                objs[j].2,
            )),
        forall|p: int|
            0 <= p < r@.len() ==> {
                let pr = #[trigger] r@[p];
                pr.0 < pr.1 && (pr.1 as int) < objs.len()
            },
{
    let n = aabbs.len();
    let mut r: Vec<(usize, usize)> = Vec::new();
    let mut i: usize = 0;
    while i < n
        invariant
            0 <= i <= n,
            n == objs.len(),
            aabbs@.len() == objs.len(),
            d < 3,
            forall|a: int| 0 <= a < objs.len() ==> aabb_matches(#[trigger] aabbs@[a], objs[a]),
            forall|a: int, b: int|
                0 <= a < i && a < b < objs.len() ==> (pair_in(r@, a, b) <==> overlap_on_axis(
                    d as int,
                    objs[a].1,
                    objs[a].2,
                    objs[b].1,
                    objs[b].2,
                )),
            forall|a: int, b: int| i <= a < b < objs.len() ==> !pair_in(r@, a, b),
            forall|p: int|
                0 <= p < r@.len() ==> {
                    let pr = #[trigger] r@[p];
                    pr.0 < pr.1 && (pr.1 as int) < objs.len()
                },
        decreases n - i,
    {
        let mut j: usize = i + 1;
        while j < n
            invariant
                0 <= i < j <= n,
                n == objs.len(),
                aabbs@.len() == objs.len(),
                d < 3,
                forall|a: int| 0 <= a < objs.len() ==> aabb_matches(#[trigger] aabbs@[a], objs[a]),
                forall|a: int, b: int|
                    0 <= a < i && a < b < objs.len() ==> (pair_in(r@, a, b) <==> overlap_on_axis(
                        d as int,
                        objs[a].1,
                        objs[a].2,
                        objs[b].1,
                        objs[b].2,
                    )),
                forall|b: int|
                    (i as int) < b < j ==> (pair_in(r@, i as int, b) <==> overlap_on_axis(
                        d as int,
                        objs[i as int].1,
                        objs[i as int].2,
                        objs[b].1,
                        objs[b].2,
                    )),
                forall|b: int| j <= b < objs.len() ==> !pair_in(r@, i as int, b),
                forall|a: int, b: int|
                    (i as int) < a < b < objs.len() ==> !pair_in(r@, a, b),
                forall|p: int|
                    0 <= p < r@.len() ==> {
                        let pr = #[trigger] r@[p];
                        pr.0 < pr.1 && (pr.1 as int) < objs.len()
                    },
            decreases n - j,
        {
            let bi = aabbs[i];
            let bj = aabbs[j];
            let (lo_i, hi_i): (i64, i64) = if d == 0 {
                (bi.min.x, bi.max.x)
            } else if d == 1 {
                (bi.min.y, bi.max.y)
            } else {
                (bi.min.z, bi.max.z)
            };
            let (lo_j, hi_j): (i64, i64) = if d == 0 {
                (bj.min.x, bj.max.x)
            } else if d == 1 {
                (bj.min.y, bj.max.y)
            } else {
                (bj.min.z, bj.max.z)
            };
            let ghost r_old = r@;
            let overlapping: bool = lo_i <= hi_j && lo_j <= hi_i;
            proof {
                assert(aabb_matches(aabbs@[i as int], objs[i as int]));
                assert(aabb_matches(aabbs@[j as int], objs[j as int]));
                assert(overlapping == overlap_on_axis(
                    d as int,
                    objs[i as int].1,
                    objs[i as int].2,
                    objs[j as int].1,
                    objs[j as int].2,
                ));
            }
            if overlapping {
                r.push((i, j));
            }
            proof {
                if overlapping {
                    assert(r@ == r_old.push((i, j)));
                    assert(r@[r_old.len() as int] == (i, j));
                    assert(pair_in(r@, i as int, j as int));
                } else {
                    assert(r@ == r_old);
                }
                assert forall|a: int, b: int|
                    0 <= a < b < objs.len() && !(a == i as int && b == j as int) implies (pair_in(
                    r@,
                    a,
                    b,
                ) == pair_in(r_old, a, b)) by {
                    if pair_in(r@, a, b) && !pair_in(r_old, a, b) {
                        let p = choose|p: int|
                            0 <= p < r@.len() && #[trigger] r@[p] == (a as usize, b as usize);
                        if p < r_old.len() {
                            assert(r_old[p] == (a as usize, b as usize));
                        }
                        assert(false);
                    }
                    if pair_in(r_old, a, b) {
                        let p = choose|p: int|
                            0 <= p < r_old.len() && #[trigger] r_old[p] == (a as usize, b as usize);
                        assert(r@[p] == (a as usize, b as usize));
                    }
                }
                assert forall|a: int, b: int|
                    0 <= a < i && a < b < objs.len() implies (pair_in(r@, a, b)
                    <==> overlap_on_axis(
                    d as int,
                    objs[a].1,
                    objs[a].2,
                    objs[b].1,
                    objs[b].2,
                )) by {
                    assert(!(a == i as int && b == j as int));
                    assert(pair_in(r@, a, b) == pair_in(r_old, a, b));
                }
                assert forall|b: int|
                    (i as int) < b < j + 1 implies (pair_in(r@, i as int, b) <==> overlap_on_axis(
                    d as int,
                    objs[i as int].1,
                    objs[i as int].2,
                    objs[b].1,
                    objs[b].2,
                )) by {
                    if b == j as int {
                        assert(pair_in(r@, i as int, b) <==> overlapping);
                    } else {
                        assert(pair_in(r@, i as int, b) == pair_in(r_old, i as int, b));
                    }
                }
                assert forall|b: int| j + 1 <= b < objs.len() implies !pair_in(r@, i as int, b) by {
                    assert(pair_in(r@, i as int, b) == pair_in(r_old, i as int, b));
                }
                assert forall|a: int, b: int|
                    (i as int) < a < b < objs.len() implies !pair_in(r@, a, b) by {
                    assert(pair_in(r@, a, b) == pair_in(r_old, a, b));
                }
            }
            j = j + 1;
        }
        i = i + 1;
    }
    r
}

/// Membership in a pushed pair sequence.
proof fn lemma_pair_in_push(s: Seq<(usize, usize)>, e: (usize, usize), i: int, j: int)
    ensures
        pair_in(s.push(e), i, j) <==> (pair_in(s, i, j) || e == (i as usize, j as usize)),
{
    let t = s.push(e);
    assert(t[s.len() as int] == e);
    if pair_in(t, i, j) {
        let p = choose|p: int| 0 <= p < t.len() && #[trigger] t[p] == (i as usize, j as usize);
        if p < s.len() {
            assert(s[p] == (i as usize, j as usize));
        }
    }
    if pair_in(s, i, j) {
        let p = choose|p: int| 0 <= p < s.len() && #[trigger] s[p] == (i as usize, j as usize);
        assert(t[p] == (i as usize, j as usize));
    }
}

/// Membership in a pushed collision sequence.
proof fn lemma_has_pair_push(s: Seq<Collision>, c: Collision, a: u64, b: u64)
    ensures
        has_pair(s.push(c), a, b) <==> (has_pair(s, a, b) || c == (Collision {
            entity_a: a,
            entity_b: b,
        })),
{
    let t = s.push(c);
    assert(t[s.len() as int] == c);
    if has_pair(t, a, b) {
        let p = choose|p: int|
            0 <= p < t.len() && #[trigger] t[p] == (Collision { entity_a: a, entity_b: b });
        if p < s.len() {
            assert(s[p] == (Collision { entity_a: a, entity_b: b }));
        }
    }
    if has_pair(s, a, b) {
        let p = choose|p: int|
            0 <= p < s.len() && #[trigger] s[p] == (Collision { entity_a: a, entity_b: b });
        assert(t[p] == (Collision { entity_a: a, entity_b: b }));
    }
}

/// The pairs present in both input sets: the conjunction of two per-axis
/// candidate sets.
fn intersect_pairs(a: &Vec<(usize, usize)>, b: &Vec<(usize, usize)>) -> (r: Vec<(usize, usize)>)
    ensures
        forall|i: int, j: int| pair_in(r@, i, j) <==> (pair_in(a@, i, j) && pair_in(b@, i, j)),
        forall|p: int| 0 <= p < r@.len() ==> a@.contains(#[trigger] r@[p]),
{
    let mut r: Vec<(usize, usize)> = Vec::new();
    let mut p: usize = 0;
    while p < a.len()
        invariant
            0 <= p <= a@.len(),
            forall|i: int, j: int|
                pair_in(r@, i, j) ==> (pair_in(a@, i, j) && pair_in(b@, i, j)),
            forall|q: int|
                0 <= q < p ==> (pair_in(b@, (#[trigger] a@[q]).0 as int, a@[q].1 as int)
                    ==> pair_in(r@, a@[q].0 as int, a@[q].1 as int)),
            forall|t: int| 0 <= t < r@.len() ==> a@.contains(#[trigger] r@[t]),
        decreases a@.len() - p,
    {
        let (x, y) = a[p];
        let ghost r_old = r@;
        if contains_pair(b, x, y) {
            r.push((x, y));
            proof {
                assert(a@[p as int] == (x, y));
                assert(a@.contains((x, y)));
                assert forall|i: int, j: int| pair_in(r@, i, j) implies (pair_in(a@, i, j)
                    && pair_in(b@, i, j)) by {
                    lemma_pair_in_push(r_old, (x, y), i, j);
                    if (x, y) == (i as usize, j as usize) && !pair_in(r_old, i, j) {
                        assert(pair_in(a@, i, j) <==> pair_in(a@, x as int, y as int));
                        assert(pair_in(b@, i, j) <==> pair_in(b@, x as int, y as int));
                    }
                }
                assert forall|q: int|
                    0 <= q < p + 1 && pair_in(b@, (#[trigger] a@[q]).0 as int, a@[q].1 as int)
                    implies pair_in(r@, a@[q].0 as int, a@[q].1 as int) by {
                    lemma_pair_in_push(r_old, (x, y), a@[q].0 as int, a@[q].1 as int);
                }
            }
        } else {
            proof {
                assert forall|q: int|
                    0 <= q < p + 1 && pair_in(b@, (#[trigger] a@[q]).0 as int, a@[q].1 as int)
                    implies pair_in(r@, a@[q].0 as int, a@[q].1 as int) by {
                    if q == p as int {
                        assert(a@[q] == (x, y));
                        assert(!pair_in(b@, x as int, y as int));
                    }
                }
            }
        }
        p = p + 1;
    }
    proof {
        assert forall|i: int, j: int| pair_in(a@, i, j) && pair_in(b@, i, j) implies pair_in(
            r@,
            i,
            j,
        ) by {
            let q = choose|q: int| 0 <= q < a@.len() && #[trigger] a@[q] == (i as usize, j as usize);
            assert(pair_in(b@, a@[q].0 as int, a@[q].1 as int) ==> pair_in(
                r@,
                a@[q].0 as int,
                a@[q].1 as int,
            ));
        }
    }
    r
}

/// Record `k` of `s` pairs two objects of the set, in index order, whose
/// boxes the broad phase admits and the narrow phase confirms.
pub open spec fn record_ok(objs: Seq<ObjectTriple>, s: Seq<Collision>, k: int) -> bool {
    exists|i: int, j: int|
        0 <= i < j < objs.len() && s[k] == (Collision {
            entity_a: (#[trigger] objs[i]).0,
            entity_b: (#[trigger] objs[j]).0,
        }) && objs_aabb_overlap(objs, i, j) && objs_narrow_hit(objs, i, j)
}

/// One full collision pass: rebuild the store from the current object
/// set. The broad phase computes, for each principal axis, the pairs
/// whose bounding intervals overlap on that axis, and intersects the
/// three per-axis candidate sets; each surviving candidate pair is tested
/// exactly with the separating-axis narrow phase, and confirmed pairs are
/// recorded.
///
/// Every recorded pair is a broad-phase candidate (its boxes overlap on
/// all three axes) that the narrow phase confirmed, and every such pair
/// of the object set is recorded.
pub fn collide(collision_store: &mut CollisionStore, objects: &Vec<ObjectTriple>)
    requires
        objects_wf(objects@),
    ensures
        forall|k: int|
            0 <= k < final(collision_store).collisions@.len() ==> #[trigger] record_ok(
                objects@,
                final(collision_store).collisions@,
                k,
            ),
        forall|i: int, j: int|
            0 <= i < j < objects@.len() && objs_aabb_overlap(objects@, i, j) && objs_narrow_hit(
                objects@,
                i,
                j,
            ) ==> has_pair(
                final(collision_store).collisions@,
                objects@[i].0,
                objects@[j].0,
            ),
{
    collision_store.clear();
    let ghost objs = objects@;
    let n = objects.len();
    let mut aabbs: Vec<AABB> = Vec::new();
    let mut idx: usize = 0;
    while idx < n
        invariant
            0 <= idx <= n,
            n == objs.len(),
            objs == objects@,
            objects_wf(objs),
            aabbs@.len() == idx,
            forall|a: int| 0 <= a < idx ==> aabb_matches(#[trigger] aabbs@[a], objs[a]),
        decreases n - idx,
    {
        let (_, c, t) = objects[idx];
        let bb = c.with_transform(&t).aabb();
        aabbs.push(bb);
        idx = idx + 1;
    }
    let pairs_x = axis_pairs(&aabbs, 0, Ghost(objs));
    let pairs_y = axis_pairs(&aabbs, 1, Ghost(objs));
    let pairs_z = axis_pairs(&aabbs, 2, Ghost(objs));
    let cand_xy = intersect_pairs(&pairs_x, &pairs_y);
    let candidates = intersect_pairs(&cand_xy, &pairs_z);
    proof {
        assert forall|i: int, j: int| 0 <= i < j < objs.len() implies (pair_in(candidates@, i, j)
            <==> objs_aabb_overlap(objs, i, j)) by {
        }
        assert forall|t: int| 0 <= t < candidates@.len() implies {
            let pr = #[trigger] candidates@[t];
            pr.0 < pr.1 && (pr.1 as int) < objs.len()
        } by {
            assert(cand_xy@.contains(candidates@[t]));
            let q = choose|q: int| 0 <= q < cand_xy@.len() && cand_xy@[q] == candidates@[t];
            assert(pairs_x@.contains(cand_xy@[q]));
            let u = choose|u: int| 0 <= u < pairs_x@.len() && pairs_x@[u] == cand_xy@[q];
            assert(pairs_x@[u].0 < pairs_x@[u].1 && (pairs_x@[u].1 as int) < objs.len());
        }
    }
    let mut m: usize = 0;
    let ghost mut recs: Seq<(int, int)> = Seq::empty();
    while m < candidates.len()
        invariant
            0 <= m <= candidates@.len(),
            n == objs.len(),
            objs == objects@,
            objects_wf(objs),
            forall|i: int, j: int|
                0 <= i < j < objs.len() ==> (pair_in(candidates@, i, j) <==> objs_aabb_overlap(
                    objs,
                    i,
                    j,
                )),
            forall|t: int|
                0 <= t < candidates@.len() ==> {
                    let pr = #[trigger] candidates@[t];
                    pr.0 < pr.1 && (pr.1 as int) < objs.len()
                },
            recs.len() == collision_store.collisions@.len(),
            forall|k: int|
                0 <= k < recs.len() ==> {
                    let (i, j) = #[trigger] recs[k];
                    0 <= i < j < objs.len() && collision_store.collisions@[k] == (Collision {
                        entity_a: objs[i].0,
                        entity_b: objs[j].0,
                    }) && objs_aabb_overlap(objs, i, j) && objs_narrow_hit(objs, i, j)
                },
            forall|q: int|
                0 <= q < m ==> {
                    let pr = #[trigger] candidates@[q];
                    objs_narrow_hit(objs, pr.0 as int, pr.1 as int) ==> has_pair(
                        collision_store.collisions@,
                        objs[pr.0 as int].0,
                        objs[pr.1 as int].0,
                    )
                },
        decreases candidates@.len() - m,
    {
        let (x, y) = candidates[m];
        let (e1, c1, t1) = objects[x];
        let (e2, c2, t2) = objects[y];
        let ghost sc_old = collision_store.collisions@;
        let res = c1.with_transform(&t1).collide(c2.with_transform(&t2));
        proof {
            assert(candidates@[m as int] == (x, y));
            assert(res is Some <==> objs_narrow_hit(objs, x as int, y as int));
        }
        match res {
            Some(data) => {
                collision_store.add_collision(e1, e2, data);
                proof {
                    recs = recs.push((x as int, y as int));
                    assert(collision_store.collisions@ == sc_old.push(
                        Collision { entity_a: e1, entity_b: e2 },
                    ));
                    assert(recs[recs.len() - 1] == (x as int, y as int));
                    assert(collision_store.collisions@[recs.len() - 1] == (Collision {
                        entity_a: e1,
                        entity_b: e2,
                    }));
                    assert(pair_in(candidates@, x as int, y as int));
                    assert(objs_aabb_overlap(objs, x as int, y as int));
                    assert forall|k: int| 0 <= k < recs.len() implies {
                        let (i, j) = #[trigger] recs[k];
                        0 <= i < j < objs.len() && collision_store.collisions@[k] == (Collision {
                            entity_a: objs[i].0,
                            entity_b: objs[j].0,
                        }) && objs_aabb_overlap(objs, i, j) && objs_narrow_hit(objs, i, j)
                    } by {
                        if k < recs.len() - 1 {
                            assert(recs[k] == recs.subrange(0, recs.len() - 1)[k]);
                            assert(collision_store.collisions@[k] == sc_old[k]);
                        }
                    }
                    assert forall|q: int| 0 <= q < m + 1 implies {
                        let pr = #[trigger] candidates@[q];
                        objs_narrow_hit(objs, pr.0 as int, pr.1 as int) ==> has_pair(
                            collision_store.collisions@,
                            objs[pr.0 as int].0,
                            objs[pr.1 as int].0,
                        )
                    } by {
                        let pr = candidates@[q];
                        lemma_has_pair_push(
                            sc_old,
                            Collision { entity_a: e1, entity_b: e2 },
                            objs[pr.0 as int].0,
                            objs[pr.1 as int].0,
                        );
                    }
                }
            },
            None => {
                proof {
                    assert forall|q: int| 0 <= q < m + 1 implies {
                        let pr = #[trigger] candidates@[q];
                        objs_narrow_hit(objs, pr.0 as int, pr.1 as int) ==> has_pair(
                            collision_store.collisions@,
                            objs[pr.0 as int].0,
                            objs[pr.1 as int].0,
                        )
                    } by {
                        if q == m as int {
                            assert(candidates@[q] == (x, y));
                            assert(!objs_narrow_hit(objs, x as int, y as int));
                        }
                    }
                }
            },
        }
        m = m + 1;
    }
    proof {
        assert forall|k: int| 0 <= k < collision_store.collisions@.len() implies record_ok(
            objects@,
            collision_store.collisions@,
            k,
        ) by {
            let (i0, j0) = recs[k];
            assert(0 <= i0 < j0 < objects@.len() && collision_store.collisions@[k] == (Collision {
                entity_a: objects@[i0].0,
                entity_b: objects@[j0].0,
            }) && objs_aabb_overlap(objects@, i0, j0) && objs_narrow_hit(objects@, i0, j0));
        }
        assert forall|i: int, j: int|
            0 <= i < j < objs.len() && objs_aabb_overlap(objs, i, j) && objs_narrow_hit(
                objs,
                i,
                j,
            ) implies has_pair(collision_store.collisions@, objs[i].0, objs[j].0) by {
            assert(pair_in(candidates@, i, j));
            let q = choose|q: int|
                0 <= q < candidates@.len() && #[trigger] candidates@[q] == (i as usize, j as usize);
            assert(candidates@[q].0 as int == i && candidates@[q].1 as int == j);
        }
    }
}

/// At the identity transform, a box's AABB is centred on the origin:
/// each `min` component is the negated half-extent and each `max`
/// component the half-extent (for even extents, exactly half of the
/// extent in fixed point).
pub proof fn lemma_aabb_identity(c: Collider, t: Transform)
    requires
        collider_wf(c),
        t.translation == (Vec3 { x: 0, y: 0, z: 0 }),
        t.rotation == (Quat { x: 0, y: 0, z: 0, w: FP_ONE }),
    ensures
        vert_min_x(c, t) == -half(extents_of(c).x as int),
        vert_min_y(c, t) == -half(extents_of(c).y as int),
        vert_min_z(c, t) == -half(extents_of(c).z as int),
        vert_max_x(c, t) == half(extents_of(c).x as int),
        vert_max_y(c, t) == half(extents_of(c).y as int),
        vert_max_z(c, t) == half(extents_of(c).z as int),
{
    reveal(world_vertex);
    let e = extents_of(c);
    assert forall|i: int| 0 <= i < 8 implies #[trigger] world_vertex(c, t, i) == corner(e, i) by {
        let v = corner(e, i);
        assert(0 <= half(e.x as int) <= EXTENT_LIMIT);
        assert(0 <= half(e.y as int) <= EXTENT_LIMIT);
        assert(0 <= half(e.z as int) <= EXTENT_LIMIT);
        assert(rot_num_x(t.rotation, v) == (v.x as int) * (FP_ONE_SQ as int)) by (nonlinear_arith)
            requires
                t.rotation == (Quat { x: 0, y: 0, z: 0, w: FP_ONE }),
                FP_ONE == 4096,
                FP_ONE_SQ == 16777216,
        ;
        assert(rot_num_y(t.rotation, v) == (v.y as int) * (FP_ONE_SQ as int)) by (nonlinear_arith)
            requires
                t.rotation == (Quat { x: 0, y: 0, z: 0, w: FP_ONE }),
                FP_ONE == 4096,
                FP_ONE_SQ == 16777216,
        ;
        assert(rot_num_z(t.rotation, v) == (v.z as int) * (FP_ONE_SQ as int)) by (nonlinear_arith)
            requires
                t.rotation == (Quat { x: 0, y: 0, z: 0, w: FP_ONE }),
                FP_ONE == 4096,
                FP_ONE_SQ == 16777216,
        ;
        crate::math::lemma_tdiv_exact(v.x as int, FP_ONE_SQ as int);
        crate::math::lemma_tdiv_exact(v.y as int, FP_ONE_SQ as int);
        crate::math::lemma_tdiv_exact(v.z as int, FP_ONE_SQ as int);
        assert(rotated_x(t.rotation, v) == v.x);
        assert(rotated_y(t.rotation, v) == v.y);
        assert(rotated_z(t.rotation, v) == v.z);
    }
    assert(world_vertex(c, t, 0) == corner(e, 0));
    assert(world_vertex(c, t, 7) == corner(e, 7));
    assert(0 <= half(e.x as int));
    assert(0 <= half(e.y as int));
    assert(0 <= half(e.z as int));
}

} // verus!
