//! The spatial-query description: the five supported region shapes, the
//! query wrapping one of them together with an optional coordinate frame,
//! and the culling capability derived from a query.
//!
//! Shape payloads are carried as opaque coordinate words (see
//! [`crate::point`]); their geometric reading belongs to the octree
//! collaborator that evaluates them.

use vstd::prelude::*;

use crate::frame::Frame;
use crate::point::Vec3;

verus! {

/// A rotation, carried as four opaque 64-bit words (one per component of a
/// unit quaternion in the collaborator's encoding).
#[derive(Clone, Copy, Debug, PartialEq, Eq, Structural)]
pub struct Quat {
    pub x: u64,
    pub y: u64,
    pub z: u64,
    pub w: u64,
}

/// An axis-aligned box given by its two extreme corners.
#[derive(Clone, Copy, Debug, PartialEq, Eq, Structural)]
pub struct Aabb {
    pub min: Vec3,
    pub max: Vec3,
}

/// A 4x4 projection matrix, row-major, one opaque word per cell.
#[derive(Clone, Copy, Debug, PartialEq, Eq)]
pub struct Matrix4 {
    pub cells: [u64; 16],
}

/// An oriented box: an axis-aligned half-extent posed by a rotation and a
/// translation.
#[derive(Clone, Copy, Debug, PartialEq, Eq, Structural)]
pub struct Obb {
    pub rotation: Quat,
    pub translation: Vec3,
    pub half_extent: Vec3,
}

/// A beam: a swept volume posed by a rotation and a translation.
#[derive(Clone, Copy, Debug, PartialEq, Eq, Structural)]
pub struct OrientedBeam {
    pub rotation: Quat,
    pub translation: Vec3,
    pub half_extent: Vec3,
}

/// The region of space a query asks for.
#[derive(Clone, Copy, Debug, PartialEq, Eq)]
pub enum PointLocation {
    /// No filtering: every stored point matches.
    AllPoints,
    /// Axis-aligned containment.
    Aabb(Aabb),
    /// View-frustum containment.
    Frustum(Matrix4),
    /// Oriented-box containment.
    Obb(Obb),
    /// Swept-volume containment.
    OrientedBeam(OrientedBeam),
}

/// An immutable query: a region, and an optional rigid transform taking the
/// caller's local frame to the octree's global frame. When the transform is
/// set, the region and all emitted positions are read in local coordinates.
#[derive(Clone, Copy, Debug)]
pub struct PointQuery<T: Frame> {
    pub location: PointLocation,
    pub global_from_local: Option<T>,
}

/// The culling capability derived from a query: the region shape together
/// with the frame it has been re-expressed under. The geometric
/// containment and intersection tests on it are evaluated by the octree
/// collaborator; the core only builds and re-frames it.
#[derive(Clone, Copy, Debug)]
pub struct PointCulling<T: Frame> {
    pub location: PointLocation,
    pub frame: Option<T>,
}

impl<T: Frame> PointCulling<T> {
    /// Re-express the same region under `t` applied on top of the current
    /// frame. The all-accepting region is invariant under any transform.
    pub fn transform(&self, t: &T) -> (r: Self)
        ensures
            r.location == self.location,
            self.location is AllPoints ==> r.frame == self.frame,
            !(self.location is AllPoints) ==> r.frame == match self.frame {
                None => Some(*t),
                Some(f) => Some(t.compose_spec(f)),
            },
    {
        match self.location {
            PointLocation::AllPoints => *self,
            _ => {
                let frame = match &self.frame {
                    None => Some(*t),
                    Some(f) => Some(t.compose(f)),
                };
                PointCulling { location: self.location, frame }
            },
        }
    }
}

impl<T: Frame> PointQuery<T> {
    /// The same query with no local frame attached.
    pub open spec fn unframed(self) -> Self {
        PointQuery { location: self.location, global_from_local: None }
    }

    /// Build the culling predicate for this query: the region shape,
    /// re-expressed under `global_from_local` when one is set. The
    /// all-accepting region short-circuits and carries no frame.
    pub fn get_point_culling(&self) -> (r: PointCulling<T>)
        ensures
            r.location == self.location,
            self.location is AllPoints ==> r.frame is None,
            !(self.location is AllPoints) ==> r.frame == self.global_from_local,
    {
        let culling = PointCulling { location: self.location, frame: None };
        match self.location {
            PointLocation::AllPoints => culling,
            _ => match &self.global_from_local {
                Some(global_from_local) => culling.transform(global_from_local),
                None => culling,
            },
        }
    }
}

} // verus!
