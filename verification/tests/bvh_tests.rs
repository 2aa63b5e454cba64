use raytracer::aabb::{Aabb, Bounded};
use raytracer::bvh::{build_bvh_flat, decode_leaf_data, BvhNode};
use raytracer::object::{Mesh, ObjectType, Sphere};
use raytracer::vec3::Vec3i;

fn v(x: i64, y: i64, z: i64) -> Vec3i {
    Vec3i::new(x, y, z)
}

fn tri(a: Vec3i, b: Vec3i, c: Vec3i) -> Mesh {
    Mesh { vertices: [a, b, c], normals: [v(0, 0, 1), v(0, 0, 1), v(0, 0, 1)], material_idx: 0 }
}

/// Union of the boxes of all leaf slots of a flat array.
fn union_of_leaves(nodes: &[BvhNode]) -> (Vec3i, Vec3i) {
    let mut min = v(i64::MAX, i64::MAX, i64::MAX);
    let mut max = v(i64::MIN, i64::MIN, i64::MIN);
    for n in nodes {
        if n.count > 0 {
            min.x = min.x.min(n.min.x);
            min.y = min.y.min(n.min.y);
            min.z = min.z.min(n.min.z);
            max.x = max.x.max(n.max.x);
            max.y = max.y.max(n.max.y);
            max.z = max.z.max(n.max.z);
        }
    }
    (min, max)
}

#[test]
fn one_sphere_gives_single_leaf() {
    let s = Sphere::new(v(10, 20, 30), 5, 0);
    let nodes = build_bvh_flat(&[s], &[]);
    assert_eq!(nodes.len(), 1);
    assert_eq!(nodes[0].count, 1);
    assert_eq!(nodes[0].data, 0); // sphere tag 0, index 0
    assert_eq!(nodes[0].min, v(5, 15, 25));
    assert_eq!(nodes[0].max, v(15, 25, 35));
}

#[test]
fn empty_scene_gives_placeholder_leaf() {
    let nodes = build_bvh_flat(&[], &[]);
    assert_eq!(nodes.len(), 1);
    assert_eq!(nodes[0].count, 0);
    assert_eq!(nodes[0].data, 0);
    assert_eq!(nodes[0].min, v(i64::MAX, i64::MAX, i64::MAX));
    assert_eq!(nodes[0].max, v(i64::MIN, i64::MIN, i64::MIN));
}

#[test]
fn two_triangles_split_on_x_in_centroid_order() {
    // Handed in far-first so only the centroid sort can explain the
    // output order.
    let far = tri(v(10, 0, 0), v(12, 0, 0), v(11, 1, 0));
    let near = tri(v(0, 0, 0), v(2, 0, 0), v(1, 1, 0));
    let nodes = build_bvh_flat(&[], &[far, near]);

    assert_eq!(nodes.len(), 3);
    // Root at slot 0: internal, right child recorded at slot 2.
    assert_eq!(nodes[0].count, 0);
    assert_eq!(nodes[0].data, 2);
    assert_eq!(nodes[0].min, v(0, 0, 0));
    assert_eq!(nodes[0].max, v(12, 1, 0));
    // Left child (implicitly slot 1): the triangle with the smaller
    // centroid x — mesh index 1.
    assert_eq!(nodes[1].count, 1);
    assert_eq!(nodes[1].data, (1 << 31) | 1);
    assert_eq!(nodes[1].min, v(0, 0, 0));
    assert_eq!(nodes[1].max, v(2, 1, 0));
    // Right child at slot 2: the far triangle, mesh index 0.
    assert_eq!(nodes[2].count, 1);
    assert_eq!(nodes[2].data, 1 << 31);
    assert_eq!(nodes[2].min, v(10, 0, 0));
    assert_eq!(nodes[2].max, v(12, 1, 0));
}

#[test]
fn flat_array_has_2k_minus_1_nodes_and_valid_links() {
    let spheres = [
        Sphere::new(v(0, 0, 0), 1, 0),
        Sphere::new(v(100, 0, 0), 1, 0),
        Sphere::new(v(0, 50, 0), 2, 0),
    ];
    let meshes = [
        tri(v(-30, 0, 0), v(-28, 0, 0), v(-29, 2, 0)),
        tri(v(0, 0, 70), v(2, 0, 70), v(1, 2, 70)),
    ];
    let nodes = build_bvh_flat(&spheres, &meshes);

    // Five primitives, so five leaves and 2*5 - 1 slots.
    assert_eq!(nodes.len(), 9);
    let leaf_count = nodes.iter().filter(|n| n.count > 0).count();
    assert_eq!(leaf_count, 5);

    // Every internal slot points at a right child strictly past its
    // left child (slot i + 1) and inside the array.
    for (i, n) in nodes.iter().enumerate() {
        if n.count == 0 {
            assert!((n.data as usize) > i + 1);
            assert!((n.data as usize) < nodes.len());
        } else {
            assert_eq!(n.count, 1);
        }
    }
}

#[test]
fn leaf_union_reproduces_root_bounds() {
    let spheres = [
        Sphere::new(v(-20, 3, 9), 4, 0),
        Sphere::new(v(7, -14, 2), 2, 0),
        Sphere::new(v(0, 0, 33), 1, 0),
        Sphere::new(v(5, 5, 5), 5, 0),
    ];
    let meshes = [tri(v(50, 0, 0), v(52, 1, 0), v(51, 2, -3))];
    let nodes = build_bvh_flat(&spheres, &meshes);

    let (min, max) = union_of_leaves(&nodes);
    assert_eq!(nodes[0].min, min);
    assert_eq!(nodes[0].max, max);
}

#[test]
fn leaf_data_decodes_to_original_references() {
    let spheres = [Sphere::new(v(0, 0, 0), 1, 0), Sphere::new(v(30, 0, 0), 1, 0)];
    let meshes = [tri(v(-50, 0, 0), v(-48, 0, 0), v(-49, 1, 0))];
    let nodes = build_bvh_flat(&spheres, &meshes);

    let mut seen: Vec<(u32, u32)> = Vec::new();
    for n in nodes.iter() {
        if n.count > 0 {
            let kind = n.data >> 31;
            let index = n.data & 0x7FFF_FFFF;
            seen.push((kind, index));
            // The exec decoder agrees with the bit extraction.
            let (k, i) = decode_leaf_data(n.data);
            let tag = match k {
                ObjectType::Sphere => 0,
                ObjectType::Mesh => 1,
            };
            assert_eq!(tag, kind);
            assert_eq!(i, index);
        }
    }
    seen.sort();
    assert_eq!(seen, vec![(0, 0), (0, 1), (1, 0)]);
}

#[test]
fn root_bounds_equal_union_of_input_aabbs() {
    let spheres = [
        Sphere::new(v(-20, 3, 9), 4, 0),
        Sphere::new(v(7, -14, 2), 2, 0),
        Sphere::new(v(5, 5, 5), 5, 0),
    ];
    let meshes = [tri(v(50, 0, 0), v(52, 1, 0), v(51, 2, -3))];
    let nodes = build_bvh_flat(&spheres, &meshes);

    let mut expect = Aabb::empty();
    for s in &spheres {
        expect.grow_aabb(&s.aabb());
    }
    for m in &meshes {
        expect.grow_aabb(&m.aabb());
    }
    assert_eq!(nodes[0].min, expect.min);
    assert_eq!(nodes[0].max, expect.max);
}

#[test]
fn coincident_centroids_still_build_a_full_tree() {
    // Four spheres with the same center: every sort key ties.
    let s = Sphere::new(v(1, 1, 1), 3, 0);
    let spheres = [s, s, s, s];
    let nodes = build_bvh_flat(&spheres, &[]);
    assert_eq!(nodes.len(), 7);
    let mut indices: Vec<u32> = Vec::new();
    for (i, n) in nodes.iter().enumerate() {
        if n.count == 0 {
            assert!((n.data as usize) > i + 1 && (n.data as usize) < nodes.len());
        } else {
            assert_eq!(n.count, 1);
            assert_eq!(n.data >> 31, 0);
            indices.push(n.data & 0x7FFF_FFFF);
            assert_eq!(n.min, v(-2, -2, -2));
            assert_eq!(n.max, v(4, 4, 4));
        }
    }
    indices.sort();
    assert_eq!(indices, vec![0, 1, 2, 3]);
}

#[test]
fn larger_scene_keeps_every_invariant() {
    let mut spheres = Vec::new();
    for k in 0..101i64 {
        // A deterministic scatter with plenty of ties on each axis.
        spheres.push(Sphere::new(v((k * 37) % 211, (k * 53) % 97, (k * 71) % 13), 1 + k % 5, 0));
    }
    let nodes = build_bvh_flat(&spheres, &[]);
    assert_eq!(nodes.len(), 2 * 101 - 1);

    let mut seen = vec![false; 101];
    for (i, n) in nodes.iter().enumerate() {
        if n.count == 0 {
            assert!((n.data as usize) > i + 1 && (n.data as usize) < nodes.len());
        } else {
            assert_eq!(n.count, 1);
            let idx = (n.data & 0x7FFF_FFFF) as usize;
            assert!(!seen[idx]);
            seen[idx] = true;
            assert_eq!(n.min, spheres[idx].aabb().min);
            assert_eq!(n.max, spheres[idx].aabb().max);
        }
    }
    assert!(seen.iter().all(|&b| b));

    let (min, max) = union_of_leaves(&nodes);
    assert_eq!(nodes[0].min, min);
    assert_eq!(nodes[0].max, max);
}

#[test]
fn repeated_builds_are_identical() {
    // Plenty of tied centroid keys: determinism must not depend on
    // how equal keys happen to fall.
    let s = Sphere::new(v(0, 0, 0), 2, 0);
    let spheres = [s, s, Sphere::new(v(0, 0, 4), 2, 0), s];
    let meshes = [
        tri(v(0, -4, 0), v(2, -4, 0), v(1, -3, 0)),
        tri(v(0, -4, 0), v(2, -4, 0), v(1, -3, 0)),
    ];
    let first = build_bvh_flat(&spheres, &meshes);
    let second = build_bvh_flat(&spheres, &meshes);
    assert_eq!(first, second);
}

#[test]
fn equal_keys_keep_input_order() {
    // Two spheres with identical centroids: the stable sort leaves
    // them in input order, so sphere 0 stays in the left (earlier)
    // leaf.
    let spheres = [Sphere::new(v(0, 0, 0), 1, 0), Sphere::new(v(0, 0, 0), 3, 0)];
    let nodes = build_bvh_flat(&spheres, &[]);
    assert_eq!(nodes.len(), 3);
    assert_eq!(nodes[1].data, 0);
    assert_eq!(nodes[2].data, 1);
}

#[test]
fn tied_extents_split_on_x_first() {
    // The union box has equal x and y extents; the tie goes to x, so
    // the leaves order by centroid x, not y.
    let spheres = [Sphere::new(v(10, 0, 0), 1, 0), Sphere::new(v(0, 10, 0), 1, 0)];
    let nodes = build_bvh_flat(&spheres, &[]);
    assert_eq!(nodes.len(), 3);
    // Sphere 1 has the smaller centroid x and lands in the left leaf.
    assert_eq!(nodes[1].data, 1);
    assert_eq!(nodes[2].data, 0);
}

#[test]
fn single_primitive_per_kind_keeps_indices() {
    let s = Sphere::new(v(0, 0, 0), 1, 0);
    let m = tri(v(100, 0, 0), v(102, 0, 0), v(101, 1, 0));
    let nodes = build_bvh_flat(&[s], &[m]);
    assert_eq!(nodes.len(), 3);
    assert_eq!(nodes[0].count, 0);
    // Sphere centroid x = 0 sorts before the triangle centroid x = 101.
    assert_eq!(nodes[1].data, 0);
    assert_eq!(nodes[2].data, 1 << 31);
}
