use raytracing_lib::camera::{Camera, CameraBuilder, FocusData};
use raytracing_lib::object::Position;
use raytracing_lib::scalar::Scalar;
use raytracing_lib::vec3::Vec3;

fn s(x: f32) -> Scalar {
    Scalar::from_bits(x.to_bits())
}

fn v(x: f32, y: f32, z: f32) -> Vec3 {
    Vec3::new(s(x), s(y), s(z))
}

#[test]
fn camera_defaults() {
    let b = Camera::builder();
    assert_eq!(b, CameraBuilder::default());
    assert_eq!(b.origin, v(0.0, 0.0, 1.0));
    assert_eq!(b.v_up, v(0.0, 1.0, 0.0));
    assert_eq!(b.look_at, v(0.0, 0.0, 1.0));
    assert_eq!(b.vertical_fov, s(40.0));
    assert_eq!(b.aspect_ratio, s(16.0 / 9.0));
    assert_eq!(b.focus_data, None);
}

#[test]
fn camera_settings() {
    let focus = FocusData { aperture: s(0.1), focus_distance: s(10.0) };
    let b = Camera::builder()
        .set_origin(v(13.0, 2.0, 3.0))
        .set_look_at(v(0.0, 0.0, 0.0))
        .set_v_up(v(0.0, 0.0, 1.0))
        .set_vertical_fov(s(20.0))
        .set_aspect_ratio(s(1.5))
        .set_focus(focus);
    assert_eq!(
        b,
        CameraBuilder {
            origin: v(13.0, 2.0, 3.0),
            v_up: v(0.0, 0.0, 1.0),
            look_at: v(0.0, 0.0, 0.0),
            vertical_fov: s(20.0),
            aspect_ratio: s(1.5),
            focus_data: Some(focus),
        }
    );
}

#[test]
fn the_image_plane_lies_at_the_focus_distance() {
    assert_eq!(Camera::builder().plane_distance(), s(1.0));
    let focus = FocusData { aperture: s(0.1), focus_distance: s(10.0) };
    assert_eq!(Camera::builder().set_focus(focus).plane_distance(), s(10.0));
}

#[test]
fn a_camera_has_a_place_and_maybe_a_lens() {
    let zero = v(0.0, 0.0, 0.0);
    let mut camera = Camera {
        origin: v(1.0, 2.0, 3.0),
        horizontal: zero,
        vertical: zero,
        lower_left_corner: zero,
        u: zero,
        v: zero,
        lens_radius: None,
    };
    assert_eq!(*camera.position(), v(1.0, 2.0, 3.0));
    assert!(!camera.has_lens());
    camera.lens_radius = Some(s(0.05));
    assert!(camera.has_lens());
}
