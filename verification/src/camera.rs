//! The camera: where the picture is taken from, and the ray through each
//! point of the picture.

use crate::ray::Ray;
use crate::scalar::Scalar;
use crate::vec3::Vec3;
use vstd::prelude::*;

verus! {

/// Where a picture is taken from, and how the pixels of the picture map to
/// directions.
#[derive(Copy, Debug)]
pub struct Camera<T> {
    pub position: Vec3<T>,
    pub look_at: Vec3<T>,
    pub up: Vec3<T>,
    pub fov_deg: T,
    pub image_width: u32,
    pub image_height: u32,
    pub eye: Vec3<T>,
    pub right: Vec3<T>,
    pub half_width: T,
    pub half_height: T,
    pub pixel_width: T,
    pub pixel_height: T,
}

impl<T: Copy> Clone for Camera<T> {
    fn clone(&self) -> (c: Camera<T>)
        ensures
            c == *self,
    {
        Camera {
            position: self.position,
            look_at: self.look_at,
            up: self.up,
            fov_deg: self.fov_deg,
            image_width: self.image_width,
            image_height: self.image_height,
            eye: self.eye,
            right: self.right,
            half_width: self.half_width,
            half_height: self.half_height,
            pixel_width: self.pixel_width,
            pixel_height: self.pixel_height,
        }
    }
}

impl<T: Scalar> Camera<T> {
    /// The direction in which the camera looks, of length 1.
    pub open spec fn gaze(position: Vec3<T>, look_at: Vec3<T>) -> Vec3<T> {
        look_at.minus(position).normalized()
    }

    /// Half the width of the picture one unit before the camera: the tangent
    /// of the field of view.
    pub open spec fn reach(fov_deg: T) -> T {
        fov_deg.radians().tangent()
    }

    /// Half the height of the picture: half the width times height over
    /// width.
    pub open spec fn rise(fov_deg: T, image_width: u32, image_height: u32) -> T {
        Self::reach(fov_deg).product(
            T::lift(image_height as int).quotient(T::lift(image_width as int)),
        )
    }

    /// The camera that `new` makes.
    pub open spec fn made(
        position: Vec3<T>,
        look_at: Vec3<T>,
        up: Vec3<T>,
        fov_deg: T,
        image_width: u32,
        image_height: u32,
    ) -> Camera<T> {
        Camera {
            position,
            look_at,
            up,
            fov_deg,
            image_width,
            image_height,
            eye: Self::gaze(position, look_at),
            right: Self::gaze(position, look_at).outer(up),
            half_width: Self::reach(fov_deg),
            half_height: Self::rise(fov_deg, image_width, image_height),
            pixel_width: Self::reach(fov_deg).product(T::lift(2)).quotient(
                T::lift(image_width - 1),
            ),
            pixel_height: Self::rise(fov_deg, image_width, image_height).product(
                T::lift(2),
            ).quotient(T::lift(image_height - 1)),
        }
    }

    /// The ray from the camera through the point `(x, y)` of the picture, in
    /// pixels from the lower left corner.
    pub open spec fn ray_through(&self, x: T, y: T) -> Ray<T> {
        Ray {
            origin: self.position,
            direction: self.eye.plus(
                self.right.scaled(x.product(self.pixel_width).difference(self.half_width)),
            ).plus(
                self.up.scaled(y.product(self.pixel_height).difference(self.half_height)),
            ).normalized(),
        }
    }

    /// A camera at `position` that looks at `look_at`, with `up` upwards and
    /// a field of view of `fov_deg` degrees, for a picture of `image_width`
    /// by `image_height` pixels.
    pub fn new(
        position: Vec3<T>,
        look_at: Vec3<T>,
        up: Vec3<T>,
        fov_deg: T,
        image_width: u32,
        image_height: u32,
    ) -> (camera: Camera<T>)
        requires
            image_width > 0,
            image_height > 0,
        ensures
            camera == Self::made(position, look_at, up, fov_deg, image_width, image_height),
    {
        let mut camera = Camera {
            position: position,
            look_at: look_at,
            up: up,
            fov_deg: fov_deg,
            image_width: image_width,
            image_height: image_height,
            eye: Vec3::zero(),
            right: Vec3::zero(),
            half_width: T::zero(),
            half_height: T::zero(),
            pixel_width: T::zero(),
            pixel_height: T::zero(),
        };
        camera.update_eye_vector();
        camera.update_internal_sizes();
        camera
    }

    /// The ray through the point `(x, y)` of the picture.
    pub fn get_ray(&self, x: T, y: T) -> (r: Ray<T>)
        ensures
            r == self.ray_through(x, y),
    {
        Ray::new(
            self.position,
            (self.eye + self.right.scale(x.mul(self.pixel_width).sub(self.half_width))
                + self.up.scale(y.mul(self.pixel_height).sub(self.half_height))).unit(),
        )
    }

    fn update_eye_vector(&mut self)
        ensures
            *final(self) == (Camera {
                eye: Self::gaze(old(self).position, old(self).look_at),
                right: Self::gaze(old(self).position, old(self).look_at).outer(old(self).up),
                ..*old(self)
            }),
    {
        self.eye = (self.look_at - self.position).unit();
        self.right = self.eye.cross(&self.up);
    }

    fn update_internal_sizes(&mut self)
        requires
            old(self).image_width > 0,
            old(self).image_height > 0,
        ensures
            *final(self) == (Camera {
                half_width: Self::reach(old(self).fov_deg),
                half_height: Self::rise(
                    old(self).fov_deg,
                    old(self).image_width,
                    old(self).image_height,
                ),
                pixel_width: Self::reach(old(self).fov_deg).product(T::lift(2)).quotient(
                    T::lift(old(self).image_width - 1),
                ),
                pixel_height: Self::rise(
                    old(self).fov_deg,
                    old(self).image_width,
                    old(self).image_height,
                ).product(T::lift(2)).quotient(T::lift(old(self).image_height - 1)),
                ..*old(self)
            }),
    {
        let fov_rad = self.fov_deg.to_radians();
        let ratio = T::from_u32(self.image_height).div(T::from_u32(self.image_width));
        self.half_width = fov_rad.tan();
        self.half_height = self.half_width.mul(ratio);
        let camera_width = self.half_width.mul(T::from_u32(2));
        let camera_height = self.half_height.mul(T::from_u32(2));
        self.pixel_width = camera_width.div(T::from_u32(self.image_width - 1));
        self.pixel_height = camera_height.div(T::from_u32(self.image_height - 1));
    }
}

} // verus!
