use raytracer::object::{Light, Mesh, Object, ObjectList, ObjectType, Sphere};
use raytracer::vec3::Vec3i;

fn v(x: i64, y: i64, z: i64) -> Vec3i {
    Vec3i::new(x, y, z)
}

fn tri(a: Vec3i, b: Vec3i, c: Vec3i) -> Mesh {
    Mesh { vertices: [a, b, c], normals: [v(0, 0, 1), v(0, 0, 1), v(0, 0, 1)], material_idx: 7 }
}

#[test]
fn object_new_defaults() {
    let o = Object::new(3, ObjectType::Sphere, None, None);
    assert_eq!(o.id, 3);
    assert_eq!(o.obj_type, 0);
    assert_eq!(o.count, 1);
    assert_eq!(o.offset, 0);

    let o = Object::new(4, ObjectType::Mesh, Some(12), Some(9));
    assert_eq!(o.obj_type, 1);
    assert_eq!(o.count, 12);
    assert_eq!(o.offset, 9);
}

#[test]
fn object_type_round_trips_through_u32() {
    assert_eq!(ObjectType::from(0u32), ObjectType::Sphere);
    assert_eq!(ObjectType::from(1u32), ObjectType::Mesh);
    // Unknown tags read as Sphere.
    assert_eq!(ObjectType::from(17u32), ObjectType::Sphere);
    assert_eq!(ObjectType::Sphere.as_u32(), 0);
    assert_eq!(ObjectType::Mesh.as_u32(), 1);
}

#[test]
fn light_new_stores_kind_tag() {
    let l = Light::new(5, ObjectType::Mesh);
    assert_eq!(l.id, 5);
    assert_eq!(l.light_type, 1);
}

#[test]
fn sphere_constructors() {
    let e = Sphere::empty();
    assert_eq!(e.center, v(0, 0, 0));
    assert_eq!(e.radius, 0);
    let s = Sphere::new(v(1, 2, 3), 4, 9);
    assert_eq!(s.center, v(1, 2, 3));
    assert_eq!(s.radius, 4);
    assert_eq!(s.material_idx, 9);
}

#[test]
fn new_empty_mesh_holds_one_placeholder() {
    let l = ObjectList::new_empty_mesh();
    assert_eq!(l.meshes.len(), 1);
    assert_eq!(l.meshes[0], Mesh::empty());
    assert_eq!(l.objects.len(), 0);
    assert_eq!(l.counter, 0);
}

#[test]
fn add_sphere_advances_sphere_offsets() {
    let mut l = ObjectList::new();
    l.add_sphere(None);
    l.add_sphere(Some(3));
    assert_eq!(l.counter, 2);
    assert_eq!(l.offset_counter_spheres, 4);
    assert_eq!(l.offset_counter, 0);
    assert_eq!(l.objects.len(), 2);
    assert_eq!(l.objects[0].id, 0);
    assert_eq!(l.objects[0].offset, 0);
    assert_eq!(l.objects[1].id, 1);
    assert_eq!(l.objects[1].count, 3);
    assert_eq!(l.objects[1].offset, 1);
    assert!(l.object_hashmap.is_empty());
}

#[test]
fn add_mesh_stamps_material_and_records_range() {
    let mut l = ObjectList::new();
    let quad = vec![
        tri(v(0, 0, 0), v(2, 0, 0), v(0, 2, 0)),
        tri(v(2, 2, 0), v(2, 0, 0), v(0, 2, 0)),
    ];
    l.add_mesh(Some(2), quad);
    assert_eq!(l.counter, 1);
    assert_eq!(l.offset_counter, 2);
    assert_eq!(l.meshes.len(), 2);
    // The object's id (0) replaces whatever material the triangles had.
    assert_eq!(l.meshes[0].material_idx, 0);
    assert_eq!(l.meshes[1].material_idx, 0);
    assert_eq!(l.object_hashmap.get(&0), Some(&(0, 2)));

    let pair = vec![
        tri(v(5, 0, 0), v(7, 0, 0), v(5, 2, 0)),
    ];
    l.add_mesh(None, pair);
    assert_eq!(l.counter, 2);
    assert_eq!(l.offset_counter, 3);
    assert_eq!(l.meshes.len(), 3);
    assert_eq!(l.meshes[2].material_idx, 1);
    assert_eq!(l.object_hashmap.get(&1), Some(&(2, 3)));
    assert_eq!(l.objects[1].offset, 2);
}
