//! Scene primitives — spheres and triangles — and the bookkeeping list
//! that assigns them ids, materials and buffer offsets.

use vstd::prelude::*;

use std::collections::HashMap;

use crate::aabb::{Aabb, Bounded};
use crate::vec3::{coord_in_range, Vec3i};

verus! {

broadcast use vstd::std_specs::hash::group_hash_axioms;

/// The two primitive families the tracer knows.  Each is indexed within
/// its own homogeneous array, so a primitive is always named by a
/// `(kind, index)` pair.
#[derive(Clone, Copy, Debug, PartialEq, Eq, Structural)]
pub enum ObjectType {
    Sphere,
    Mesh,
}

/// The numeric tag each kind carries in GPU-facing records: `0` for
/// spheres, `1` for triangle meshes.
pub open spec fn obj_type_code(t: ObjectType) -> u32 {
    match t {
        ObjectType::Sphere => 0u32,
        ObjectType::Mesh => 1u32,
    }
}

impl ObjectType {
    /// The numeric tag of this kind.
    pub fn as_u32(&self) -> (r: u32)
        ensures
            r == obj_type_code(*self),
    {
        match self {
            ObjectType::Sphere => 0,
            ObjectType::Mesh => 1,
        }
    }
}

impl From<u32> for ObjectType {
    /// Inverse of the numeric tag; unknown tags read as `Sphere`.
    fn from(item: u32) -> (r: ObjectType) {
        match item {
            0 => ObjectType::Sphere,
            1 => ObjectType::Mesh,
            _ => ObjectType::Sphere,
        }
    }
}

impl vstd::std_specs::convert::FromSpecImpl<u32> for ObjectType {
    open spec fn obeys_from_spec() -> bool {
        true
    }

    open spec fn from_spec(item: u32) -> ObjectType {
        if item == 1 {
            ObjectType::Mesh
        } else {
            ObjectType::Sphere
        }
    }
}

/// One scene object as the GPU sees it: a kind tag, how many primitives
/// it spans, and the offset of its first primitive within that kind's
/// array.
#[derive(Clone, Copy, Debug, PartialEq, Eq, Structural)]
pub struct Object {
    pub id: u32,
    pub obj_type: u32,
    pub count: u32,
    pub offset: u32,
}

impl Object {
    pub fn new(id: u32, obj_type: ObjectType, count: Option<usize>, offset: Option<u32>) -> (r:
        Object)
        requires
            count matches Some(c) ==> c <= u32::MAX,
        ensures
            r.id == id,
            r.obj_type == obj_type_code(obj_type),
            count matches Some(c) ==> r.count as int == c as int,
            count is None ==> r.count == 1,
            offset matches Some(o) ==> r.offset == o,
            offset is None ==> r.offset == 0,
    {
        Object {
            id,
            obj_type: obj_type.as_u32(),
            count: match count {
                Some(c) => c as u32,
                None => 1,
            },
            offset: match offset {
                Some(o) => o,
                None => 0,
            },
        }
    }
}

/// An emitting object: the id of a primitive and the kind it belongs
/// to, so the shader can sample it directly.
#[derive(Clone, Copy, Debug, PartialEq, Eq, Structural)]
pub struct Light {
    pub id: u32,
    pub light_type: u32,
}

impl Light {
    pub fn new(id: u32, light_type: ObjectType) -> (r: Light)
        ensures
            r.id == id,
            r.light_type == obj_type_code(light_type),
    {
        Light { id, light_type: light_type.as_u32() }
    }
}

/// A sphere: fixed-point center and radius, plus the material it is
/// shaded with.
#[derive(Clone, Copy, Debug, PartialEq, Eq, Structural)]
pub struct Sphere {
    pub center: Vec3i,
    pub radius: i64,
    pub material_idx: u32,
}

impl Sphere {
    pub fn empty() -> (r: Sphere)
        ensures
            r == (Sphere { center: Vec3i { x: 0, y: 0, z: 0 }, radius: 0, material_idx: 0 }),
    {
        Sphere { center: Vec3i { x: 0, y: 0, z: 0 }, radius: 0, material_idx: 0 }
    }

    pub fn new(center: Vec3i, radius: i64, material_idx: u32) -> (r: Sphere)
        ensures
            r == (Sphere { center, radius, material_idx }),
    {
        Sphere { center, radius, material_idx }
    }
}

impl Bounded for Sphere {
    /// A sphere is valid when its radius is non-negative and the box
    /// `center ± radius` stays within the coordinate range.
    open spec fn wf(&self) -> bool {
        &&& self.radius >= 0
        &&& coord_in_range(self.center.x - self.radius)
        &&& coord_in_range(self.center.x + self.radius)
        &&& coord_in_range(self.center.y - self.radius)
        &&& coord_in_range(self.center.y + self.radius)
        &&& coord_in_range(self.center.z - self.radius)
        &&& coord_in_range(self.center.z + self.radius)
    }

    open spec fn spec_aabb(&self) -> Aabb {
        Aabb {
            min: Vec3i {
                x: (self.center.x - self.radius) as i64,
                y: (self.center.y - self.radius) as i64,
                z: (self.center.z - self.radius) as i64,
            },
            max: Vec3i {
                x: (self.center.x + self.radius) as i64,
                y: (self.center.y + self.radius) as i64,
                z: (self.center.z + self.radius) as i64,
            },
        }
    }

    /// The box `center ± radius` along every axis.
    fn aabb(&self) -> (r: Aabb) {
        Aabb {
            min: Vec3i {
                x: self.center.x - self.radius,
                y: self.center.y - self.radius,
                z: self.center.z - self.radius,
            },
            max: Vec3i {
                x: self.center.x + self.radius,
                y: self.center.y + self.radius,
                z: self.center.z + self.radius,
            },
        }
    }
}

/// One triangle of a mesh: three fixed-point vertices with their
/// shading normals, and the material the owning object assigned.
#[derive(Clone, Copy, Debug)]
pub struct Mesh {
    pub vertices: [Vec3i; 3],
    pub normals: [Vec3i; 3],
    pub material_idx: u32,
}

impl Mesh {
    pub fn empty() -> (r: Mesh)
        ensures
            r == Mesh::spec_zeroed(),
    {
        Mesh {
            vertices: [
                Vec3i { x: 0, y: 0, z: 0 },
                Vec3i { x: 0, y: 0, z: 0 },
                Vec3i { x: 0, y: 0, z: 0 },
            ],
            normals: [
                Vec3i { x: 0, y: 0, z: 0 },
                Vec3i { x: 0, y: 0, z: 0 },
                Vec3i { x: 0, y: 0, z: 0 },
            ],
            material_idx: 0,
        }
    }

    /// The all-zero triangle that `empty()` returns.
    pub open spec fn spec_zeroed() -> Mesh {
        Mesh {
            vertices: [
                Vec3i { x: 0, y: 0, z: 0 },
                Vec3i { x: 0, y: 0, z: 0 },
                Vec3i { x: 0, y: 0, z: 0 },
            ],
            normals: [
                Vec3i { x: 0, y: 0, z: 0 },
                Vec3i { x: 0, y: 0, z: 0 },
                Vec3i { x: 0, y: 0, z: 0 },
            ],
            material_idx: 0,
        }
    }
}

impl PartialEq for Mesh {
    fn eq(&self, other: &Self) -> (r: bool) {
        self.vertices[0] == other.vertices[0] && self.vertices[1] == other.vertices[1]
            && self.vertices[2] == other.vertices[2] && self.normals[0] == other.normals[0]
            && self.normals[1] == other.normals[1] && self.normals[2] == other.normals[2]
            && self.material_idx == other.material_idx
    }
}

impl vstd::std_specs::cmp::PartialEqSpecImpl for Mesh {
    open spec fn obeys_eq_spec() -> bool {
        true
    }

    open spec fn eq_spec(&self, other: &Self) -> bool {
        &&& self.vertices[0] == other.vertices[0]
        &&& self.vertices[1] == other.vertices[1]
        &&& self.vertices[2] == other.vertices[2]
        &&& self.normals[0] == other.normals[0]
        &&& self.normals[1] == other.normals[1]
        &&& self.normals[2] == other.normals[2]
        &&& self.material_idx == other.material_idx
    }
}

impl Bounded for Mesh {
    /// A triangle is valid when its three vertices lie in the
    /// coordinate range.
    open spec fn wf(&self) -> bool {
        &&& self.vertices[0].in_range()
        &&& self.vertices[1].in_range()
        &&& self.vertices[2].in_range()
    }

    open spec fn spec_aabb(&self) -> Aabb {
        Aabb::spec_empty().spec_grow(self.vertices[0]).spec_grow(self.vertices[1]).spec_grow(
            self.vertices[2],
        )
    }

    /// The union of the three vertex positions.
    fn aabb(&self) -> (r: Aabb) {
        let mut b = Aabb::empty();
        b.grow(self.vertices[0]);
        b.grow(self.vertices[1]);
        b.grow(self.vertices[2]);
        b
    }
}

/// `m` with its material index replaced by `id`, as
/// [`ObjectList::add`] stamps the triangles of a newly added object.
pub open spec fn with_material(m: Mesh, id: u32) -> Mesh {
    Mesh { material_idx: id, ..m }
}

/// The scene's object registry: every object record, the triangles
/// behind the mesh objects, and the running id and offset counters the
/// records are assigned from.  `object_hashmap` maps a mesh object's id
/// to the half-open range its triangles occupy in `meshes`.
#[derive(Clone, Debug)]
pub struct ObjectList {
    pub objects: Vec<Object>,
    pub meshes: Vec<Mesh>,
    pub object_hashmap: HashMap<u32, (u32, u32)>,
    pub counter: u32,
    pub offset_counter: u32,
    pub offset_counter_spheres: u32,
}

impl ObjectList {
    /// A registry with nothing in it.
    pub fn new() -> (r: ObjectList)
        ensures
            r.objects@ == Seq::<Object>::empty(),
            r.meshes@ == Seq::<Mesh>::empty(),
            r.object_hashmap@ == Map::<u32, (u32, u32)>::empty(),
            r.counter == 0,
            r.offset_counter == 0,
            r.offset_counter_spheres == 0,
    {
        ObjectList {
            objects: Vec::new(),
            counter: 0,
            offset_counter: 0,
            offset_counter_spheres: 0,
            meshes: Vec::new(),
            object_hashmap: HashMap::new(),
        }
    }

    /// A registry whose triangle array starts with one zeroed
    /// placeholder triangle, for scenes that bind a mesh buffer but
    /// hold no real mesh.
    pub fn new_empty_mesh() -> (r: ObjectList)
        ensures
            r.objects@ == Seq::<Object>::empty(),
            r.meshes@ == seq![Mesh::spec_zeroed()],
            r.object_hashmap@ == Map::<u32, (u32, u32)>::empty(),
            r.counter == 0,
            r.offset_counter == 0,
            r.offset_counter_spheres == 0,
    {
        let mut meshes: Vec<Mesh> = Vec::new();
        meshes.push(Mesh::empty());
        ObjectList {
            objects: Vec::new(),
            counter: 0,
            offset_counter: 0,
            offset_counter_spheres: 0,
            meshes,
            object_hashmap: HashMap::new(),
        }
    }

    /// Registers one object record.  The offset counter of the
    /// record's kind advances by the record's primitive count; when the
    /// object brings triangles, they are stamped with the object's id
    /// as material index, appended to `meshes`, and the id is mapped to
    /// the range `offset_counter - count .. offset_counter`.
    pub fn add(&mut self, obj: Object, meshes: Option<Vec<Mesh>>)
        requires
            old(self).counter < u32::MAX,
            obj.obj_type != 1 ==> old(self).offset_counter_spheres + obj.count <= u32::MAX,
            obj.obj_type == 1 ==> old(self).offset_counter + obj.count <= u32::MAX,
            meshes is Some && obj.obj_type != 1 ==> obj.count <= old(self).offset_counter,
        ensures
            final(self).objects@ == old(self).objects@.push(obj),
            final(self).counter == old(self).counter + 1,
            obj.obj_type != 1 ==> final(self).offset_counter_spheres
                == old(self).offset_counter_spheres + obj.count,
            obj.obj_type != 1 ==> final(self).offset_counter == old(self).offset_counter,
            obj.obj_type == 1 ==> final(self).offset_counter
                == old(self).offset_counter + obj.count,
            obj.obj_type == 1 ==> final(self).offset_counter_spheres
                == old(self).offset_counter_spheres,
            meshes matches Some(ms) ==> final(self).meshes@
                == old(self).meshes@ + ms@.map_values(|m: Mesh| with_material(m, obj.id)),
            meshes matches Some(ms) ==> final(self).object_hashmap@
                == old(self).object_hashmap@.insert(
                obj.id,
                ((final(self).offset_counter - obj.count) as u32, final(self).offset_counter),
            ),
            meshes is None ==> final(self).meshes@ == old(self).meshes@,
            meshes is None ==> final(self).object_hashmap@ == old(self).object_hashmap@,
    {
        match ObjectType::from(obj.obj_type) {
            ObjectType::Sphere => {
                self.offset_counter_spheres = self.offset_counter_spheres + obj.count;
            },
            ObjectType::Mesh => {
                self.offset_counter = self.offset_counter + obj.count;
            },
        }
        self.objects.push(obj);
        self.counter = self.counter + 1;
        if let Some(mesh) = meshes {
            let ghost pre = *self;
            let mut i: usize = 0;
            while i < mesh.len()
                invariant
                    i <= mesh.len(),
                    *self == (ObjectList {
                        meshes: self.meshes,
                        ..pre
                    }),
                    self.meshes@ == pre.meshes@ + mesh@.subrange(0, i as int).map_values(
                        |m: Mesh| with_material(m, obj.id),
                    ),
                decreases mesh.len() - i,
            {
                let mut m = mesh[i];
                m.material_idx = obj.id;
                self.meshes.push(m);
                proof {
                    assert(mesh@.subrange(0, i + 1).map_values(
                        |mm: Mesh| with_material(mm, obj.id),
                    ) =~= mesh@.subrange(0, i as int).map_values(
                        |mm: Mesh| with_material(mm, obj.id),
                    ).push(with_material(mesh@[i as int], obj.id)));
                }
                i = i + 1;
            }
            proof {
                assert(mesh@.subrange(0, mesh@.len() as int) =~= mesh@);
            }
            self.object_hashmap.insert(
                obj.id,
                (self.offset_counter - obj.count, self.offset_counter),
            );
        }
    }

    /// Registers one sphere object covering `count` spheres (one when
    /// `count` is absent), at the current sphere offset.
    pub fn add_sphere(&mut self, count: Option<usize>)
        requires
            old(self).counter < u32::MAX,
            count matches Some(c) ==> c <= u32::MAX,
            count matches Some(c) ==> old(self).offset_counter_spheres + c <= u32::MAX,
            count is None ==> old(self).offset_counter_spheres < u32::MAX,
        ensures
            final(self).objects@.len() == old(self).objects@.len() + 1,
            final(self).objects@.subrange(0, old(self).objects@.len() as int) == old(
                self,
            ).objects@,
            final(self).objects@.last() == (Object {
                id: old(self).counter,
                obj_type: 0,
                count: match count {
                    Some(c) => c as u32,
                    None => 1u32,
                },
                offset: old(self).offset_counter_spheres,
            }),
            final(self).counter == old(self).counter + 1,
            final(self).offset_counter_spheres == old(self).offset_counter_spheres + final(self).objects@.last().count,
            final(self).offset_counter == old(self).offset_counter,
            final(self).meshes@ == old(self).meshes@,
            final(self).object_hashmap@ == old(self).object_hashmap@,
    {
        let obj = Object::new(
            self.counter,
            ObjectType::Sphere,
            count,
            Some(self.offset_counter_spheres),
        );
        self.add(obj, None);
        proof {
            assert(self.objects@.subrange(0, old(self).objects@.len() as int) =~= old(
                self,
            ).objects@);
        }
    }

    /// Registers one mesh object covering `count` triangles (one when
    /// `count` is absent) at the current mesh offset, and appends the
    /// triangles themselves.
    pub fn add_mesh(&mut self, count: Option<usize>, meshes: Vec<Mesh>)
        requires
            old(self).counter < u32::MAX,
            count matches Some(c) ==> c <= u32::MAX,
            count matches Some(c) ==> old(self).offset_counter + c <= u32::MAX,
            count is None ==> old(self).offset_counter < u32::MAX,
        ensures
            final(self).objects@.len() == old(self).objects@.len() + 1,
            final(self).objects@.subrange(0, old(self).objects@.len() as int) == old(
                self,
            ).objects@,
            final(self).objects@.last() == (Object {
                id: old(self).counter,
                obj_type: 1,
                count: match count {
                    Some(c) => c as u32,
                    None => 1u32,
                },
                offset: old(self).offset_counter,
            }),
            final(self).counter == old(self).counter + 1,
            final(self).offset_counter == old(self).offset_counter + final(self).objects@.last().count,
            final(self).offset_counter_spheres == old(self).offset_counter_spheres,
            final(self).meshes@ == old(self).meshes@ + meshes@.map_values(
                |m: Mesh| with_material(m, old(self).counter),
            ),
            final(self).object_hashmap@ == old(self).object_hashmap@.insert(
                old(self).counter,
                (old(self).offset_counter, final(self).offset_counter),
            ),
    {
        let obj = Object::new(self.counter, ObjectType::Mesh, count, Some(self.offset_counter));
        self.add(obj, Some(meshes));
        proof {
            assert(self.objects@.subrange(0, old(self).objects@.len() as int) =~= old(
                self,
            ).objects@);
        }
    }
}

} // verus!
