use maat_graphics::ownage::OwnedOrRef;
use maat_graphics::shader_handlers::camera::CameraType;
use maat_graphics::shader_handlers::gltf_loader::AnimationInterpolation;
use maat_graphics::shader_handlers::math::Math;

#[test]
fn owned_or_ref_gives_its_value() {
    let owned: OwnedOrRef<u32> = OwnedOrRef::Owned(7);
    let shared: &'static u32 = Box::leak(Box::new(41));
    let borrowed: OwnedOrRef<u32> = OwnedOrRef::Ref(shared);
    assert_eq!(*owned, 7);
    assert_eq!(*borrowed + 1, 42);
}

#[test]
fn camera_types_compare() {
    let t = CameraType::ThirdPerson;
    let u = t;
    assert!(t == u);
    assert!(CameraType::Fly != CameraType::FirstPerson);
}

#[test]
fn interpolation_kinds() {
    assert!(AnimationInterpolation::Linear != AnimationInterpolation::Step);
    let c = AnimationInterpolation::CubicSpline;
    assert!(c.clone() == AnimationInterpolation::CubicSpline);
}

#[test]
fn quaternion_from_angles_does_nothing() {
    Math::quat_from_p_y_r();
}
