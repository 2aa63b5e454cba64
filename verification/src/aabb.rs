//! Axis-aligned bounding boxes over integer coordinates, with the
//! union ("grow") operations the hierarchy builder relies on.

use vstd::prelude::*;

use crate::vec3::{spec_vmax, spec_vmin, vmax, vmin, Vec3i};

verus! {

/// An axis-aligned box.  The value `Aabb::spec_empty()` — every `min`
/// coordinate at `i64::MAX`, every `max` coordinate at `i64::MIN` — is
/// the identity of the union operation and stands for "no geometry".
#[derive(Clone, Copy, Debug, PartialEq, Eq, Structural)]
pub struct Aabb {
    pub min: Vec3i,
    pub max: Vec3i,
}

/// Halving with rounding toward zero, as `/` behaves on `i64`.
pub open spec fn half_toward_zero(s: int) -> int {
    if s >= 0 {
        s / 2
    } else {
        -((-s) / 2)
    }
}

impl Aabb {
    /// The sentinel that `empty()` returns: unioning anything with it
    /// yields exactly that thing.
    pub open spec fn spec_empty() -> Aabb {
        Aabb {
            min: Vec3i { x: i64::MAX, y: i64::MAX, z: i64::MAX },
            max: Vec3i { x: i64::MIN, y: i64::MIN, z: i64::MIN },
        }
    }

    /// A box that holds actual geometry: ordered corners, all
    /// coordinates within the allowed range.
    pub open spec fn finite(self) -> bool {
        &&& self.min.in_range()
        &&& self.max.in_range()
        &&& self.min.x <= self.max.x
        &&& self.min.y <= self.max.y
        &&& self.min.z <= self.max.z
    }

    /// `inner` lies entirely within `self`.
    pub open spec fn contains(self, inner: Aabb) -> bool {
        &&& self.min.x <= inner.min.x
        &&& self.min.y <= inner.min.y
        &&& self.min.z <= inner.min.z
        &&& inner.max.x <= self.max.x
        &&& inner.max.y <= self.max.y
        &&& inner.max.z <= self.max.z
    }

    /// The smallest box holding both arguments: componentwise minimum
    /// of the `min` corners, maximum of the `max` corners.
    pub open spec fn spec_union(a: Aabb, b: Aabb) -> Aabb {
        Aabb { min: spec_vmin(a.min, b.min), max: spec_vmax(a.max, b.max) }
    }

    /// The smallest box holding `self` and the point `p`.
    pub open spec fn spec_grow(self, p: Vec3i) -> Aabb {
        Aabb { min: spec_vmin(self.min, p), max: spec_vmax(self.max, p) }
    }

    pub fn new(min: Vec3i, max: Vec3i) -> (r: Aabb)
        ensures
            r == (Aabb { min, max }),
    {
        Aabb { min, max }
    }

    /// The identity element of the union operation.
    pub fn empty() -> (r: Aabb)
        ensures
            r == Aabb::spec_empty(),
    {
        Aabb {
            min: Vec3i { x: i64::MAX, y: i64::MAX, z: i64::MAX },
            max: Vec3i { x: i64::MIN, y: i64::MIN, z: i64::MIN },
        }
    }

    /// Extends the box to cover the point `p`.
    pub fn grow(&mut self, point: Vec3i)
        ensures
            *final(self) == old(self).spec_grow(point),
    {
        self.min = vmin(self.min, point);
        self.max = vmax(self.max, point);
    }

    /// Extends the box to cover another box.
    pub fn grow_aabb(&mut self, other: &Aabb)
        ensures
            *final(self) == Aabb::spec_union(*old(self), *other),
    {
        self.min = vmin(self.min, other.min);
        self.max = vmax(self.max, other.max);
    }

    /// The centroid, rounded toward zero on each axis.  Meaningful only
    /// on a box that holds geometry.
    pub fn center(&self) -> (r: Vec3i)
        requires
            self.finite(),
        ensures
            r.x as int == half_toward_zero(self.min.x + self.max.x),
            r.y as int == half_toward_zero(self.min.y + self.max.y),
            r.z as int == half_toward_zero(self.min.z + self.max.z),
    {
        Vec3i {
            x: (self.min.x + self.max.x) / 2,
            y: (self.min.y + self.max.y) / 2,
            z: (self.min.z + self.max.z) / 2,
        }
    }
}

/// A primitive that can report the box enclosing it.
pub trait Bounded {
    /// The primitive's own validity condition; boxes are only owed for
    /// valid primitives.
    spec fn wf(&self) -> bool;

    /// The box that `aabb` returns, as a mathematical value.
    spec fn spec_aabb(&self) -> Aabb;

    /// The tight axis-aligned box around the primitive.
    fn aabb(&self) -> (r: Aabb)
        requires
            self.wf(),
        ensures
            r == self.spec_aabb(),
            r.finite(),
    ;
}

} // verus!
