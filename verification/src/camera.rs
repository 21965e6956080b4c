//! The camera: its settings, and the record of its place and image plane.
//!
//! The basis of a camera and the rays through its image plane come out of
//! trigonometry and vector arithmetic, which the caller performs. The
//! library holds the settings, decides how far away the image plane lies,
//! and keeps what the caller has derived.
use crate::object::Position;
use crate::scalar::{Scalar, ONE_BITS};
use crate::vec3::Vec3;
use vstd::prelude::*;

verus! {

/// The pattern of `40.0`, the default vertical field of view in degrees.
pub const DEFAULT_FOV_BITS: u32 = 0x4220_0000;

/// The pattern of the value nearest to 16 / 9, the default aspect ratio.
pub const DEFAULT_ASPECT_BITS: u32 = 0x3fe3_8e39;

/// The lens of a camera: the diameter of its opening, and the distance at
/// which it is in focus.
#[derive(Clone, Copy, Debug, PartialEq, Eq, Structural)]
pub struct FocusData {
    pub aperture: Scalar,
    pub focus_distance: Scalar,
}

/// The settings from which a camera is built.
#[derive(Clone, Copy, Debug, PartialEq, Eq, Structural)]
pub struct CameraBuilder {
    pub origin: Vec3,
    pub v_up: Vec3,
    pub look_at: Vec3,
    pub vertical_fov: Scalar,
    pub aspect_ratio: Scalar,
    pub focus_data: Option<FocusData>,
}

/// The vector with the three given patterns.
pub open spec fn vector(x: u32, y: u32, z: u32) -> Vec3 {
    Vec3 { x: Scalar { bits: x }, y: Scalar { bits: y }, z: Scalar { bits: z } }
}

impl CameraBuilder {
    /// The distance from the camera to its image plane: the focus distance
    /// of the lens, or one where the camera has no lens.
    pub open spec fn plane_distance_spec(self) -> Scalar {
        match self.focus_data {
            Some(focus) => focus.focus_distance,
            None => Scalar { bits: ONE_BITS },
        }
    }

    pub fn set_origin(self, origin: Vec3) -> (b: Self)
        ensures
            b == (CameraBuilder { origin, ..self }),
    {
        CameraBuilder { origin, ..self }
    }

    pub fn set_v_up(self, v_up: Vec3) -> (b: Self)
        ensures
            b == (CameraBuilder { v_up, ..self }),
    {
        CameraBuilder { v_up, ..self }
    }

    pub fn set_look_at(self, look_at: Vec3) -> (b: Self)
        ensures
            b == (CameraBuilder { look_at, ..self }),
    {
        CameraBuilder { look_at, ..self }
    }

    pub fn set_vertical_fov(self, vertical_fov: Scalar) -> (b: Self)
        ensures
            b == (CameraBuilder { vertical_fov, ..self }),
    {
        CameraBuilder { vertical_fov, ..self }
    }

    pub fn set_aspect_ratio(self, aspect_ratio: Scalar) -> (b: Self)
        ensures
            b == (CameraBuilder { aspect_ratio, ..self }),
    {
        CameraBuilder { aspect_ratio, ..self }
    }

    pub fn set_focus(self, focus_data: FocusData) -> (b: Self)
        ensures
            b == (CameraBuilder { focus_data: Some(focus_data), ..self }),
    {
        CameraBuilder { focus_data: Some(focus_data), ..self }
    }

    pub fn plane_distance(&self) -> (d: Scalar)
        ensures
            d == self.plane_distance_spec(),
    {
        match self.focus_data {
            Some(focus) => focus.focus_distance,
            None => Scalar::one(),
        }
    }
}

impl Default for CameraBuilder {
    /// A camera at `(0, 0, 1)` that looks at `(0, 0, 1)` with `(0, 1, 0)`
    /// upwards, a field of view of 40 degrees, an image of 16 by 9, and no
    /// lens.
    fn default() -> (b: Self)
        ensures
            b == (CameraBuilder {
                origin: vector(0, 0, ONE_BITS),
                v_up: vector(0, ONE_BITS, 0),
                look_at: vector(0, 0, ONE_BITS),
                vertical_fov: Scalar { bits: DEFAULT_FOV_BITS },
                aspect_ratio: Scalar { bits: DEFAULT_ASPECT_BITS },
                focus_data: None,
            }),
    {
        let zero = Scalar::zero();
        let one = Scalar::one();
        CameraBuilder {
            origin: Vec3::new(zero, zero, one),
            v_up: Vec3::new(zero, one, zero),
            look_at: Vec3::new(zero, zero, one),
            vertical_fov: Scalar::from_bits(DEFAULT_FOV_BITS),
            aspect_ratio: Scalar::from_bits(DEFAULT_ASPECT_BITS),
            focus_data: None,
        }
    }
}

/// A camera: its place, the two vectors that span its image plane, the
/// lower left corner of that plane, the unit vectors to the right and
/// upwards, and the radius of its lens if it has one.
#[derive(Clone, Copy, Debug, PartialEq, Eq, Structural)]
pub struct Camera {
    pub origin: Vec3,
    pub horizontal: Vec3,
    pub vertical: Vec3,
    pub lower_left_corner: Vec3,
    pub u: Vec3,
    pub v: Vec3,
    pub lens_radius: Option<Scalar>,
}

impl Camera {
    pub fn builder() -> (b: CameraBuilder)
        ensures
            b == (CameraBuilder {
                origin: vector(0, 0, ONE_BITS),
                v_up: vector(0, ONE_BITS, 0),
                look_at: vector(0, 0, ONE_BITS),
                vertical_fov: Scalar { bits: DEFAULT_FOV_BITS },
                aspect_ratio: Scalar { bits: DEFAULT_ASPECT_BITS },
                focus_data: None,
            }),
    {
        CameraBuilder::default()
    }

    /// Whether rays start from a random point of a lens rather than from
    /// the place of the camera.
    pub fn has_lens(&self) -> (b: bool)
        ensures
            b == self.lens_radius is Some,
    {
        self.lens_radius.is_some()
    }
}

impl Position for Camera {
    open spec fn position_spec(&self) -> Vec3 {
        self.origin
    }

    fn position(&self) -> (p: &Vec3) {
        &self.origin
    }
}

} // verus!
