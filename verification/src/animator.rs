//! A camera that moves: keyframes, and the camera between two of them.

use crate::camera::Camera;
use crate::scalar::Scalar;
use crate::vec3::Vec3;
use vstd::prelude::*;

verus! {

/// Where the camera stands, and how, at a point in time.
#[derive(Copy, Debug)]
pub struct CameraKeyframe<T> {
    pub time: T,
    pub position: Vec3<T>,
    pub look_at: Vec3<T>,
    pub up: Vec3<T>,
}

impl<T: Copy> Clone for CameraKeyframe<T> {
    fn clone(&self) -> (k: CameraKeyframe<T>)
        ensures
            k == *self,
    {
        CameraKeyframe { time: self.time, position: self.position, look_at: self.look_at, up: self.up }
    }
}

/// A camera with the keyframes it passes through. The first keyframe is the
/// camera as it stands, at time 0.
pub struct AnimatedCamera<T> {
    pub camera: Camera<T>,
    pub keyframes: Vec<CameraKeyframe<T>>,
}

/// The keyframe that holds `camera` as it stands, at time 0.
pub open spec fn start<T: Scalar>(camera: Camera<T>) -> CameraKeyframe<T> {
    CameraKeyframe {
        time: T::nil(),
        position: camera.position,
        look_at: camera.look_at,
        up: camera.up,
    }
}

impl<T: Scalar> AnimatedCamera<T> {
    /// The camera with its own state as the keyframe at time 0, followed by
    /// `keyframes` in their order.
    pub fn new(camera: Camera<T>, keyframes: Vec<CameraKeyframe<T>>) -> (r: AnimatedCamera<T>)
        requires
            keyframes.len() < usize::MAX,
        ensures
            r.camera == camera,
            r.keyframes@ == seq![start(camera)] + keyframes@,
    {
        let first = CameraKeyframe {
            time: T::zero(),
            position: camera.position,
            look_at: camera.look_at,
            up: camera.up,
        };
        let mut all: Vec<CameraKeyframe<T>> = Vec::new();
        all.push(first);
        let mut i: usize = 0;
        while i < keyframes.len()
            invariant
                i <= keyframes.len(),
                first == start(camera),
                all@ == seq![first] + keyframes@.take(i as int),
            decreases keyframes.len() - i,
        {
            all.push(keyframes[i]);
            proof {
                assert(keyframes@.take(i + 1) =~= keyframes@.take(i as int).push(keyframes[i as int]));
                assert(all@ =~= seq![first] + keyframes@.take(i + 1));
            }
            i += 1;
        }
        proof {
            assert(keyframes@.take(keyframes.len() as int) =~= keyframes@);
        }
        AnimatedCamera { camera: camera, keyframes: all }
    }
}

/// The keyframe before `time` once `next` has been looked at: `next` if it
/// is not after `time` and `first` is no further before `time` than `next`
/// is behind it; else `first`.
pub open spec fn earlier<T: Scalar>(
    first: CameraKeyframe<T>,
    next: CameraKeyframe<T>,
    time: T,
) -> CameraKeyframe<T> {
    if next.time.at_most(time) && first.time.difference(time).at_most(time.difference(next.time)) {
        next
    } else {
        first
    }
}

/// The keyframe after `time` once `next` has been looked at: `next` if it is
/// after `time` and nearer to it than `second`, or `second` is before `time`;
/// else `second`.
pub open spec fn later<T: Scalar>(
    second: CameraKeyframe<T>,
    next: CameraKeyframe<T>,
    time: T,
) -> CameraKeyframe<T> {
    if time.below(next.time) && (next.time.difference(time).below(second.time.difference(time))
        || second.time.below(time)) {
        next
    } else {
        second
    }
}

/// The keyframe before `time` among the first `n` of `keyframes`, starting
/// from the first of them.
pub open spec fn before<T: Scalar>(keyframes: Seq<CameraKeyframe<T>>, time: T, n: int) -> CameraKeyframe<
    T,
>
    decreases n,
{
    if n <= 0 {
        keyframes[0]
    } else {
        earlier(before(keyframes, time, n - 1), keyframes[n - 1], time)
    }
}

/// The keyframe after `time` among the first `n` of `keyframes`, starting
/// from the second of them.
pub open spec fn after<T: Scalar>(keyframes: Seq<CameraKeyframe<T>>, time: T, n: int) -> CameraKeyframe<
    T,
>
    decreases n,
{
    if n <= 0 {
        keyframes[1]
    } else {
        later(after(keyframes, time, n - 1), keyframes[n - 1], time)
    }
}

/// How far `time` lies from `first` to `second`, as a share of the time
/// between them; 0 where no time lies between them.
pub open spec fn share<T: Scalar>(first: CameraKeyframe<T>, second: CameraKeyframe<T>, time: T) -> T {
    let length = second.time.difference(first.time);
    if length.same(T::nil()) {
        T::nil()
    } else {
        time.difference(first.time).quotient(length)
    }
}

/// A way to place the camera between its keyframes. The camera is a
/// function of the keyframes and the time.
pub trait Interpolator<T: Scalar> {
    /// The camera at `time`.
    spec fn camera_at(&self, acam: AnimatedCamera<T>, time: T) -> Camera<T>;

    /// The camera at `time`. There must be two keyframes at least, and the
    /// picture must have pixels.
    fn interpolate(&self, acam: &AnimatedCamera<T>, time: T) -> (c: Camera<T>)
        requires
            acam.keyframes.len() >= 2,
            acam.camera.image_width > 0,
            acam.camera.image_height > 0,
        ensures
            c == self.camera_at(*acam, time),
    ;
}

/// Moves the camera in a straight line from keyframe to keyframe.
pub struct LerpInterpolator;

impl<T: Scalar> Interpolator<T> for LerpInterpolator {
    open spec fn camera_at(&self, acam: AnimatedCamera<T>, time: T) -> Camera<T> {
        LerpInterpolator::between(acam, time)
    }

    fn interpolate(&self, acam: &AnimatedCamera<T>, time: T) -> (c: Camera<T>) {
        LerpInterpolator::interpolate(acam, time)
    }
}

impl LerpInterpolator {
    /// The two keyframes that `time` lies between, and how far from the first
    /// to the second.
    pub open spec fn neighbours<T: Scalar>(keyframes: Seq<CameraKeyframe<T>>, time: T) -> (
        CameraKeyframe<T>,
        CameraKeyframe<T>,
        T,
    ) {
        let first = before(keyframes, time, keyframes.len() as int);
        let second = after(keyframes, time, keyframes.len() as int);
        (first, second, share(first, second, time))
    }

    /// The camera at `time`: position, target and upward direction each the
    /// same share of the way from the keyframe before to the keyframe after.
    pub open spec fn between<T: Scalar>(acam: AnimatedCamera<T>, time: T) -> Camera<T> {
        let (first, second, alpha) = Self::neighbours(acam.keyframes@, time);
        Camera::made(
            Vec3::mixed(first.position, second.position, alpha),
            Vec3::mixed(first.look_at, second.look_at, alpha),
            Vec3::mixed(first.up, second.up, alpha),
            acam.camera.fov_deg,
            acam.camera.image_width,
            acam.camera.image_height,
        )
    }

    /// The two keyframes that `time` lies between, and how far from the first
    /// to the second. There must be two keyframes at least.
    pub fn get_neighbour_keyframes<T: Scalar>(acam: &AnimatedCamera<T>, time: T) -> (r: (
        CameraKeyframe<T>,
        CameraKeyframe<T>,
        T,
    ))
        requires
            acam.keyframes.len() >= 2,
        ensures
            r == Self::neighbours(acam.keyframes@, time),
    {
        // Get the two keyframes inbetween current time
        let mut first = acam.keyframes[0];
        let mut second = acam.keyframes[1];
        let mut i: usize = 0;
        while i < acam.keyframes.len()
            invariant
                i <= acam.keyframes.len(),
                acam.keyframes.len() >= 2,
                first == before(acam.keyframes@, time, i as int),
                second == after(acam.keyframes@, time, i as int),
            decreases acam.keyframes.len() - i,
        {
            let keyframe = acam.keyframes[i];
            if keyframe.time.le(time) && first.time.sub(time).le(time.sub(keyframe.time)) {
                first = keyframe;
            }
            if time.lt(keyframe.time) && (keyframe.time.sub(time).lt(second.time.sub(time))
                || second.time.lt(time)) {
                second = keyframe;
            }
            i += 1;
        }
        let keyframe_length = second.time.sub(first.time);
        let alpha = if keyframe_length.eq(T::zero()) {
            T::zero()
        } else {
            time.sub(first.time).div(keyframe_length)
        };
        (first, second, alpha)
    }

    /// The camera at `time`. There must be two keyframes at least, and the
    /// picture must have pixels.
    pub fn interpolate<T: Scalar>(acam: &AnimatedCamera<T>, time: T) -> (c: Camera<T>)
        requires
            acam.keyframes.len() >= 2,
            acam.camera.image_width > 0,
            acam.camera.image_height > 0,
        ensures
            c == Self::between(*acam, time),
    {
        let (first, second, alpha) = LerpInterpolator::get_neighbour_keyframes(acam, time);
        let lerped_position = Vec3::lerp(&first.position, &second.position, alpha);
        let lerped_look_at = Vec3::lerp(&first.look_at, &second.look_at, alpha);
        let lerped_up = Vec3::lerp(&first.up, &second.up, alpha);
        Camera::new(
            lerped_position,
            lerped_look_at,
            lerped_up,
            acam.camera.fov_deg,
            acam.camera.image_width,
            acam.camera.image_height,
        )
    }
}

} // verus!
