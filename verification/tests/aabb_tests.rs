use raytracer::aabb::{Aabb, Bounded};
use raytracer::object::{Mesh, Sphere};
use raytracer::vec3::Vec3i;

fn v(x: i64, y: i64, z: i64) -> Vec3i {
    Vec3i::new(x, y, z)
}

#[test]
fn empty_is_union_identity() {
    let sentinel = Aabb::empty();
    assert_eq!(sentinel.min, v(i64::MAX, i64::MAX, i64::MAX));
    assert_eq!(sentinel.max, v(i64::MIN, i64::MIN, i64::MIN));

    let mut grown = Aabb::empty();
    let other = Aabb::new(v(-3, 1, 2), v(5, 4, 9));
    grown.grow_aabb(&other);
    assert_eq!(grown, other);
}

#[test]
fn grow_extends_componentwise() {
    let mut b = Aabb::empty();
    b.grow(v(1, -2, 3));
    b.grow(v(-1, 5, 3));
    assert_eq!(b.min, v(-1, -2, 3));
    assert_eq!(b.max, v(1, 5, 3));

    b.grow(v(0, 0, 0));
    assert_eq!(b.min, v(-1, -2, 0));
    assert_eq!(b.max, v(1, 5, 3));
}

#[test]
fn grow_aabb_is_componentwise_union() {
    let mut a = Aabb::new(v(0, 0, 0), v(2, 2, 2));
    let b = Aabb::new(v(-1, 1, 1), v(1, 3, 1));
    a.grow_aabb(&b);
    assert_eq!(a.min, v(-1, 0, 0));
    assert_eq!(a.max, v(2, 3, 2));
}

#[test]
fn center_is_midpoint() {
    let b = Aabb::new(v(0, 2, -6), v(4, 3, -2));
    let c = b.center();
    assert_eq!(c, v(2, 2, -4));
}

#[test]
fn center_rounds_toward_zero() {
    let b = Aabb::new(v(-4, -4, 1), v(-3, 3, 2));
    let c = b.center();
    // (-7)/2, (-1)/2, 3/2 with Rust's truncating division
    assert_eq!(c, v(-3, 0, 1));
}

#[test]
fn sphere_aabb_is_center_plus_minus_radius() {
    let s = Sphere::new(v(10, 20, 30), 5, 0);
    let b = s.aabb();
    assert_eq!(b.min, v(5, 15, 25));
    assert_eq!(b.max, v(15, 25, 35));
}

#[test]
fn mesh_aabb_is_union_of_vertices() {
    let m = Mesh {
        vertices: [v(0, 0, 0), v(4, -1, 2), v(2, 3, -5)],
        normals: [v(0, 0, 1), v(0, 0, 1), v(0, 0, 1)],
        material_idx: 0,
    };
    let b = m.aabb();
    assert_eq!(b.min, v(0, -1, -5));
    assert_eq!(b.max, v(4, 3, 2));
}
