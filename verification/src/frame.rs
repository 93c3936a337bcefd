//! Rigid coordinate-frame transforms, as a capability the caller supplies.
//!
//! The core re-expresses positions and query regions under a caller-chosen
//! frame but never computes the geometry itself; an implementation of
//! [`Frame`] carries that work. Every implementation must behave as a pure
//! invertible map on coordinate triples: composition distributes over
//! application, and applying a frame after its inverse restores the input.

use vstd::prelude::*;

use crate::point::Vec3;

verus! {

/// A rigid transform between coordinate frames.
pub trait Frame: Sized + Copy {
    /// The transform as a mathematical map on coordinate triples.
    spec fn apply_spec(self, p: Vec3) -> Vec3;

    /// The inverse transform as a value of the same type.
    spec fn inverse_spec(self) -> Self;

    /// The transform that applies `other` first and then `self`.
    spec fn compose_spec(self, other: Self) -> Self;

    /// Composition distributes over application, inversion is involutive,
    /// and a transform undoes its inverse exactly.
    proof fn frame_laws(self, other: Self, p: Vec3)
        ensures
            self.compose_spec(other).apply_spec(p) == self.apply_spec(other.apply_spec(p)),
            self.inverse_spec().inverse_spec() == self,
            self.apply_spec(self.inverse_spec().apply_spec(p)) == p,
    ;

    fn apply(&self, p: &Vec3) -> (r: Vec3)
        ensures
            r == self.apply_spec(*p),
    ;

    fn inverse(&self) -> (r: Self)
        ensures
            r == self.inverse_spec(),
    ;

    fn compose(&self, other: &Self) -> (r: Self)
        ensures
            r == self.compose_spec(*other),
    ;
}

/// The identity frame: global and local coordinates coincide.
#[derive(Clone, Copy, Debug, PartialEq, Eq, Structural)]
pub struct Identity;

impl Frame for Identity {
    open spec fn apply_spec(self, p: Vec3) -> Vec3 {
        p
    }

    open spec fn inverse_spec(self) -> Self {
        self
    }

    open spec fn compose_spec(self, other: Self) -> Self {
        self
    }

    proof fn frame_laws(self, other: Self, p: Vec3) {
    }

    fn apply(&self, p: &Vec3) -> (r: Vec3) {
        *p
    }

    fn inverse(&self) -> (r: Self) {
        Identity
    }

    fn compose(&self, other: &Self) -> (r: Self) {
        Identity
    }
}

/// An involutive frame that flips a fixed set of bits in every coordinate
/// word. It exercises the frame plumbing end to end (projection, inversion,
/// composition) without committing to a numeric encoding.
#[derive(Clone, Copy, Debug, PartialEq, Eq, Structural)]
pub struct MaskFrame {
    pub mask: Vec3,
}

impl Frame for MaskFrame {
    open spec fn apply_spec(self, p: Vec3) -> Vec3 {
        Vec3 { x: p.x ^ self.mask.x, y: p.y ^ self.mask.y, z: p.z ^ self.mask.z }
    }

    open spec fn inverse_spec(self) -> Self {
        self
    }

    open spec fn compose_spec(self, other: Self) -> Self {
        MaskFrame {
            mask: Vec3 {
                x: self.mask.x ^ other.mask.x,
                y: self.mask.y ^ other.mask.y,
                z: self.mask.z ^ other.mask.z,
            },
        }
    }

    proof fn frame_laws(self, other: Self, p: Vec3) {
        let a = self.mask;
        let b = other.mask;
        assert forall|u: u64, s: u64, t: u64| (u ^ t) ^ s == u ^ (s ^ t) && (u ^ s) ^ s == u by {
            assert((u ^ t) ^ s == u ^ (s ^ t) && (u ^ s) ^ s == u) by (bit_vector);
        }
    }

    fn apply(&self, p: &Vec3) -> (r: Vec3) {
        Vec3 { x: p.x ^ self.mask.x, y: p.y ^ self.mask.y, z: p.z ^ self.mask.z }
    }

    fn inverse(&self) -> (r: Self) {
        *self
    }

    fn compose(&self, other: &Self) -> (r: Self) {
        MaskFrame {
            mask: Vec3 {
                x: self.mask.x ^ other.mask.x,
                y: self.mask.y ^ other.mask.y,
                z: self.mask.z ^ other.mask.z,
            },
        }
    }
}

} // verus!
