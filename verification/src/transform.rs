//! Moving a primitive: turning or stretching it, and then shifting it.

use crate::scalar::Scalar;
use crate::vec3::Vec3;
use vstd::prelude::*;

verus! {

/// A linear map, given by its rows, followed by a shift.
#[derive(Copy, Debug)]
pub struct Transform<T> {
    pub row_x: Vec3<T>,
    pub row_y: Vec3<T>,
    pub row_z: Vec3<T>,
    pub shift: Vec3<T>,
}

impl<T: Copy> Clone for Transform<T> {
    fn clone(&self) -> (t: Transform<T>)
        ensures
            t == *self,
    {
        Transform { row_x: self.row_x, row_y: self.row_y, row_z: self.row_z, shift: self.shift }
    }
}

impl<T: Scalar> Transform<T> {
    /// Where the direction `v` goes: each component is a row times `v`.
    pub open spec fn turned(&self, v: Vec3<T>) -> Vec3<T> {
        Vec3 { x: self.row_x.inner(v), y: self.row_y.inner(v), z: self.row_z.inner(v) }
    }

    /// Where the point `p` goes: where it goes as a direction, shifted.
    pub open spec fn moved(&self, p: Vec3<T>) -> Vec3<T> {
        self.turned(p).plus(self.shift)
    }

    /// The transform that leaves everything in its place.
    pub fn identity() -> (t: Transform<T>)
        ensures
            t == (Transform {
                row_x: Vec3 { x: T::unit(), y: T::nil(), z: T::nil() },
                row_y: Vec3 { x: T::nil(), y: T::unit(), z: T::nil() },
                row_z: Vec3 { x: T::nil(), y: T::nil(), z: T::unit() },
                shift: Vec3::<T>::origin(),
            }),
    {
        Transform {
            row_x: Vec3 { x: T::one(), y: T::zero(), z: T::zero() },
            row_y: Vec3 { x: T::zero(), y: T::one(), z: T::zero() },
            row_z: Vec3 { x: T::zero(), y: T::zero(), z: T::one() },
            shift: Vec3::zero(),
        }
    }

    /// The transform that shifts everything by `by`.
    pub fn translation(by: Vec3<T>) -> (t: Transform<T>)
        ensures
            t == (Transform {
                row_x: Vec3 { x: T::unit(), y: T::nil(), z: T::nil() },
                row_y: Vec3 { x: T::nil(), y: T::unit(), z: T::nil() },
                row_z: Vec3 { x: T::nil(), y: T::nil(), z: T::unit() },
                shift: by,
            }),
    {
        Transform {
            row_x: Vec3 { x: T::one(), y: T::zero(), z: T::zero() },
            row_y: Vec3 { x: T::zero(), y: T::one(), z: T::zero() },
            row_z: Vec3 { x: T::zero(), y: T::zero(), z: T::one() },
            shift: by,
        }
    }

    /// The transform that stretches everything from the origin by `by`.
    pub fn scaling(by: T) -> (t: Transform<T>)
        ensures
            t == (Transform {
                row_x: Vec3 { x: by, y: T::nil(), z: T::nil() },
                row_y: Vec3 { x: T::nil(), y: by, z: T::nil() },
                row_z: Vec3 { x: T::nil(), y: T::nil(), z: by },
                shift: Vec3::<T>::origin(),
            }),
    {
        Transform {
            row_x: Vec3 { x: by, y: T::zero(), z: T::zero() },
            row_y: Vec3 { x: T::zero(), y: by, z: T::zero() },
            row_z: Vec3 { x: T::zero(), y: T::zero(), z: by },
            shift: Vec3::zero(),
        }
    }

    /// Where the direction `v` goes.
    pub fn apply_vector(&self, v: &Vec3<T>) -> (r: Vec3<T>)
        ensures
            r == self.turned(*v),
    {
        Vec3 { x: self.row_x.dot(v), y: self.row_y.dot(v), z: self.row_z.dot(v) }
    }

    /// Where the point `p` goes.
    pub fn apply_point(&self, p: &Vec3<T>) -> (r: Vec3<T>)
        ensures
            r == self.moved(*p),
    {
        self.apply_vector(p) + self.shift
    }
}

} // verus!
