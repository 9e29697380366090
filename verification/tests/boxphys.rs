use boxphys::FP_ONE;
use boxphys::math::{vec3, quat, qmul, qscale, cwise_min, cwise_max, cwise_mul, skew, Interval, AABB};
use boxphys::collision::{Collider, Transform, CollisionStore, collide};
use boxphys::rigidbody::{RigidBody, PhysicsWorld, update, integrate_body};

#[test]
fn it_works() {
    let quat1 = quat(1, 1, 1, 1);
    assert_eq!(qmul(quat1, quat1.conjugate()), quat(0, 0, 0, 4));
}

#[test]
fn test_quat_mul() {
    let q = quat(1, 1, 1, 1);
    assert_eq!(qscale(q, 2), quat(2, 2, 2, 2));
}

#[test]
fn test_vec3() {
    let a = vec3(0, 1, 0);
    assert_eq!(a.y, 1);
}

#[test]
fn test_intersection() {
    let i_a = Interval::new(0, 1);
    let i_b = Interval::new(-1, 2);
    let i_ab = Interval::intersection(i_a, i_b);
    assert_eq!(i_ab, Some(Interval::new(0, 1)));
}

#[test]
fn intersection_disjoint_is_none_both_ways() {
    let a = Interval::new(0, 1);
    let b = Interval::new(2, 3);
    assert_eq!(a.intersection(b), None);
    assert_eq!(b.intersection(a), None);
}

#[test]
fn intersection_is_symmetric() {
    let a = Interval::new(-5, 10);
    let b = Interval::new(3, 20);
    assert_eq!(a.intersection(b), b.intersection(a));
    assert_eq!(a.intersection(b), Some(Interval::new(3, 10)));
}

#[test]
fn intersection_touching_endpoints() {
    let a = Interval::new(0, 1);
    let b = Interval::new(1, 2);
    let i = a.intersection(b).unwrap();
    assert_eq!(i.min(), 1);
    assert_eq!(i.max(), 1);
    assert_eq!(i.length(), 0);
}

#[test]
fn interval_accessors() {
    let i = Interval::new(-7, 9);
    assert_eq!(i.min(), -7);
    assert_eq!(i.max(), 9);
    assert_eq!(i.length(), 16);
}

#[test]
fn cwise_ops() {
    let a = vec3(1, -2, 3);
    let b = vec3(0, 5, -4);
    assert_eq!(cwise_min(a, b), vec3(0, -2, -4));
    assert_eq!(cwise_max(a, b), vec3(1, 5, 3));
    assert_eq!(cwise_mul(a, b), vec3(0, -10, -12));
}

#[test]
fn skew_matrix_columns() {
    let m = skew(vec3(1, 2, 3));
    assert_eq!(m.x_axis, vec3(0, 3, -2));
    assert_eq!(m.y_axis, vec3(-3, 0, 1));
    assert_eq!(m.z_axis, vec3(2, -1, 0));
}

#[test]
fn fit_vertices_and_axis_interval() {
    let verts = vec![vec3(1, 5, -2), vec3(-3, 2, 7), vec3(0, 0, 0)];
    let bb = AABB::fit_vertices(&verts);
    assert_eq!(bb.min, vec3(-3, 0, -2));
    assert_eq!(bb.max, vec3(1, 5, 7));
    let ix = bb.axis_interval(0);
    assert_eq!(ix.min(), -3);
    assert_eq!(ix.max(), 1);
    let iz = bb.axis_interval(2);
    assert_eq!(iz.min(), -2);
    assert_eq!(iz.max(), 7);
}

#[test]
fn from_intervals_roundtrip() {
    let bb = AABB::from_intervals(
        Interval::new(-1, 2),
        Interval::new(0, 3),
        Interval::new(-5, -4),
    );
    assert_eq!(bb.min, vec3(-1, 0, -5));
    assert_eq!(bb.max, vec3(2, 3, -4));
}

// A box with extents (1, 2, 1) at the identity transform has an AABB of
// exactly half its extents on each side of the origin.
#[test]
fn aabb_of_box_at_identity() {
    let c = Collider::new_box(vec3(FP_ONE, 2 * FP_ONE, FP_ONE));
    let t = Transform::identity();
    let bb = c.with_transform(&t).aabb();
    assert_eq!(bb.min, vec3(-FP_ONE / 2, -FP_ONE, -FP_ONE / 2));
    assert_eq!(bb.max, vec3(FP_ONE / 2, FP_ONE, FP_ONE / 2));
}

#[test]
fn aabb_follows_translation() {
    let c = Collider::new_box(vec3(FP_ONE, FP_ONE, FP_ONE));
    let t = Transform::from_xyz(FP_ONE, 0, -FP_ONE);
    let bb = c.with_transform(&t).aabb();
    assert_eq!(bb.min, vec3(FP_ONE / 2, -FP_ONE / 2, -3 * FP_ONE / 2));
    assert_eq!(bb.max, vec3(3 * FP_ONE / 2, FP_ONE / 2, -FP_ONE / 2));
}

// The inertia tensor of the unit box: (1 + 1) / 12 in fixed point,
// truncated: (4096^2 + 4096^2) / (12 * 4096) = 682.
#[test]
fn inertia_tensor_unit_box() {
    let c = Collider::new_box(vec3(FP_ONE, FP_ONE, FP_ONE));
    let m = c.I_b();
    assert_eq!(m.x_axis.x, 682);
    assert_eq!(m.y_axis.y, 682);
    assert_eq!(m.z_axis.z, 682);
    assert_eq!(m.x_axis.y, 0);
    assert_eq!(m.y_axis.x, 0);
}

// Two unit boxes three units apart do not collide: the gap of two units
// along x exceeds the combined half-extents of one.
#[test]
fn sat_separated_boxes() {
    let c = Collider::new_box(vec3(FP_ONE, FP_ONE, FP_ONE));
    let ta = Transform::from_xyz(0, 0, 0);
    let tb = Transform::from_xyz(3 * FP_ONE, 0, 0);
    assert!(c.with_transform(&ta).collide(c.with_transform(&tb)).is_none());
}

// Two unit boxes half a unit apart overlap by half a unit along x. The
// projections are scaled by the axis length FP_ONE, so the reported depth
// is 0.5 * FP_ONE * FP_ONE, and the normal is the x basis axis.
#[test]
fn sat_overlapping_boxes() {
    let c = Collider::new_box(vec3(FP_ONE, FP_ONE, FP_ONE));
    let ta = Transform::from_xyz(0, 0, 0);
    let tb = Transform::from_xyz(FP_ONE / 2, 0, 0);
    let data = c.with_transform(&ta).collide(c.with_transform(&tb)).unwrap();
    assert_eq!(data.depth, (FP_ONE as i128 / 2) * (FP_ONE as i128));
    assert_eq!(data.normal, vec3(FP_ONE, 0, 0));
}

// The full pipeline records exactly the overlapping pair of three objects
// and answers participation queries for both members.
#[test]
fn pipeline_three_objects() {
    let c = Collider::new_box(vec3(FP_ONE, FP_ONE, FP_ONE));
    let objects = vec![
        (1u64, c, Transform::from_xyz(0, 0, 0)),
        (2u64, c, Transform::from_xyz(FP_ONE / 2, 0, 0)),
        (3u64, c, Transform::from_xyz(100 * FP_ONE, 0, 0)),
    ];
    let mut store = CollisionStore::new();
    collide(&mut store, &objects);
    assert!(store.has_collision(1));
    assert!(store.has_collision(2));
    assert!(!store.has_collision(3));
}

// Boxes that overlap on one axis only are culled by the broad phase.
#[test]
fn pipeline_overlap_single_axis_only() {
    let c = Collider::new_box(vec3(FP_ONE, FP_ONE, FP_ONE));
    let objects = vec![
        (7u64, c, Transform::from_xyz(0, 0, 0)),
        (8u64, c, Transform::from_xyz(0, 10 * FP_ONE, 0)),
    ];
    let mut store = CollisionStore::new();
    collide(&mut store, &objects);
    assert!(!store.has_collision(7));
    assert!(!store.has_collision(8));
}

#[test]
fn store_lifecycle() {
    let mut store = CollisionStore::new();
    assert!(!store.has_collision(1));
    let c = Collider::new_box(vec3(FP_ONE, FP_ONE, FP_ONE));
    let ta = Transform::from_xyz(0, 0, 0);
    let tb = Transform::from_xyz(FP_ONE / 2, 0, 0);
    let data = c.with_transform(&ta).collide(c.with_transform(&tb)).unwrap();
    store.add_collision(1, 2, data);
    assert!(store.has_collision(1));
    assert!(store.has_collision(2));
    assert!(!store.has_collision(3));
    store.clear();
    assert!(!store.has_collision(1));
    assert!(!store.has_collision(2));
}

#[test]
fn add_force_accumulates_force_and_torque() {
    let mut rb = RigidBody::default();
    rb.add_force(vec3(FP_ONE, 0, 0), vec3(0, FP_ONE, 0));
    assert_eq!(rb.force, vec3(0, FP_ONE, 0));
    assert_eq!(rb.torque, vec3(0, 0, FP_ONE * FP_ONE));
}

// A body with zero force and torque under zero gravity keeps its linear
// velocity exactly, and a spinning unit box (isotropic inertia) keeps its
// angular velocity exactly for the first step.
#[test]
fn integrator_zero_force_conserves_velocity() {
    let c = Collider::new_box(vec3(FP_ONE, FP_ONE, FP_ONE));
    let mut rb = RigidBody::default();
    rb.velocity = vec3(100, 200, -50);
    rb.angular_velocity = vec3(0, 0, FP_ONE / 2);
    let mut tr = Transform::from_xyz(0, 0, 0);
    let dt = 82; // 0.02 s in fixed point
    integrate_body(&mut rb, &c, &mut tr, dt, vec3(0, 0, 0));
    assert_eq!(rb.velocity, vec3(100, 200, -50));
    assert_eq!(rb.angular_velocity, vec3(0, 0, FP_ONE / 2));
    assert_eq!(rb.force, vec3(0, 0, 0));
    assert_eq!(rb.torque, vec3(0, 0, 0));
}

// After an integration step, the orientation quaternion stays normalized:
// its squared norm is FP_ONE^2 within a small fixed-point tolerance.
#[test]
fn integrator_keeps_quaternion_normalized() {
    let c = Collider::new_box(vec3(FP_ONE, FP_ONE, FP_ONE));
    let mut rb = RigidBody::default();
    rb.angular_velocity = vec3(FP_ONE / 2, 0, FP_ONE / 2);
    let mut tr = Transform::from_xyz(0, 0, 0);
    for _ in 0..50 {
        rb.force = vec3(0, 0, 0);
        rb.torque = vec3(0, 0, 0);
        integrate_body(&mut rb, &c, &mut tr, 82, vec3(0, 0, 0));
        let q = tr.rotation;
        let n2 = q.x * q.x + q.y * q.y + q.z * q.z + q.w * q.w;
        let target = FP_ONE * FP_ONE;
        assert!((n2 - target).abs() <= 16 * FP_ONE, "norm2 {} drifted", n2);
    }
}

// Angular speed of a torque-free spinning unit box is conserved within a
// small tolerance over many steps.
#[test]
fn integrator_angular_speed_stable() {
    let c = Collider::new_box(vec3(FP_ONE, FP_ONE, FP_ONE));
    let mut rb = RigidBody::default();
    rb.angular_velocity = vec3(0, 0, FP_ONE / 2);
    let mut tr = Transform::from_xyz(0, 0, 0);
    let w0 = rb.angular_velocity;
    let n0 = w0.x * w0.x + w0.y * w0.y + w0.z * w0.z;
    for _ in 0..100 {
        integrate_body(&mut rb, &c, &mut tr, 82, vec3(0, 0, 0));
    }
    let w = rb.angular_velocity;
    let n = w.x * w.x + w.y * w.y + w.z * w.z;
    assert!((n - n0).abs() <= n0 / 20, "angular speed drifted: {} vs {}", n, n0);
}

// One second of gravity of one unit per second squared, in one step.
#[test]
fn integrator_gravity_step() {
    let c = Collider::new_box(vec3(FP_ONE, FP_ONE, FP_ONE));
    let mut rb = RigidBody::default();
    let mut tr = Transform::from_xyz(0, 0, 0);
    integrate_body(&mut rb, &c, &mut tr, FP_ONE, vec3(0, 0, -FP_ONE));
    assert_eq!(rb.velocity, vec3(0, 0, -FP_ONE));
    assert_eq!(tr.translation, vec3(0, 0, -FP_ONE));
}

// A full world update integrates every body and advances the clock once.
#[test]
fn update_advances_world() {
    let c = Collider::new_box(vec3(FP_ONE, FP_ONE, FP_ONE));
    let mut world = PhysicsWorld::default();
    world.dt = 82;
    world.g = vec3(0, 0, 0);
    let mut rb = RigidBody::default();
    rb.velocity = vec3(FP_ONE, 0, 0);
    let mut objects = vec![(rb, c, Transform::from_xyz(0, 0, 0))];
    update(&mut world, &mut objects);
    assert_eq!(world.t, 82);
    assert_eq!(objects[0].0.velocity, vec3(FP_ONE, 0, 0));
    assert_eq!(objects[0].2.translation, vec3(82, 0, 0));
    update(&mut world, &mut objects);
    assert_eq!(world.t, 164);
    assert_eq!(objects[0].2.translation, vec3(164, 0, 0));
}
