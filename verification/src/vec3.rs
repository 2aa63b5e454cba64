//! Three-component integer vectors: the coordinate type of every
//! geometric value in this crate.

use vstd::prelude::*;

verus! {

/// Largest coordinate magnitude the geometry may use.  Keeping every
/// coordinate within `[-COORD_LIMIT, COORD_LIMIT]` leaves room for the
/// sums the builder forms (`min + max` of a box fits in an `i64`), while
/// `i64::MAX` and `i64::MIN` stay free to act as the empty-box sentinel.
pub const COORD_LIMIT: i64 = 0x2000_0000_0000_0000;

/// A coordinate that ordinary geometry is allowed to hold.
pub open spec fn coord_in_range(c: int) -> bool {
    -(COORD_LIMIT as int) <= c <= COORD_LIMIT as int
}

/// A point or extent in the scene, one `i64` per axis.
#[derive(Clone, Copy, Debug, PartialEq, Eq, Structural)]
pub struct Vec3i {
    pub x: i64,
    pub y: i64,
    pub z: i64,
}

/// Componentwise minimum.
pub open spec fn spec_vmin(a: Vec3i, b: Vec3i) -> Vec3i {
    Vec3i {
        x: if a.x <= b.x { a.x } else { b.x },
        y: if a.y <= b.y { a.y } else { b.y },
        z: if a.z <= b.z { a.z } else { b.z },
    }
}

/// Componentwise maximum.
pub open spec fn spec_vmax(a: Vec3i, b: Vec3i) -> Vec3i {
    Vec3i {
        x: if a.x >= b.x { a.x } else { b.x },
        y: if a.y >= b.y { a.y } else { b.y },
        z: if a.z >= b.z { a.z } else { b.z },
    }
}

impl Vec3i {
    /// The coordinate along axis `a`, with `0`, `1`, `2` standing for
    /// x, y and z; any other value reads as the z axis.
    pub open spec fn axis(self, a: int) -> int {
        if a == 0 {
            self.x as int
        } else if a == 1 {
            self.y as int
        } else {
            self.z as int
        }
    }

    /// All three coordinates lie in the allowed range.
    pub open spec fn in_range(self) -> bool {
        &&& coord_in_range(self.x as int)
        &&& coord_in_range(self.y as int)
        &&& coord_in_range(self.z as int)
    }

    pub fn new(x: i64, y: i64, z: i64) -> (r: Vec3i)
        ensures
            r == (Vec3i { x, y, z }),
    {
        Vec3i { x, y, z }
    }

    /// The coordinate along axis `a` (`0`, `1`, `2` for x, y, z).
    pub fn get_axis(&self, a: usize) -> (r: i64)
        ensures
            r as int == self.axis(a as int),
    {
        if a == 0 {
            self.x
        } else if a == 1 {
            self.y
        } else {
            self.z
        }
    }
}

/// Componentwise minimum of two vectors.
pub fn vmin(a: Vec3i, b: Vec3i) -> (r: Vec3i)
    ensures
        r == spec_vmin(a, b),
{
    Vec3i {
        x: if a.x <= b.x { a.x } else { b.x },
        y: if a.y <= b.y { a.y } else { b.y },
        z: if a.z <= b.z { a.z } else { b.z },
    }
}

/// Componentwise maximum of two vectors.
pub fn vmax(a: Vec3i, b: Vec3i) -> (r: Vec3i)
    ensures
        r == spec_vmax(a, b),
{
    Vec3i {
        x: if a.x >= b.x { a.x } else { b.x },
        y: if a.y >= b.y { a.y } else { b.y },
        z: if a.z >= b.z { a.z } else { b.z },
    }
}

} // verus!
