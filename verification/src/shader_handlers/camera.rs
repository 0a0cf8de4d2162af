use vstd::prelude::*;

verus! {

/// How the camera moves: freely, at eye level, or orbiting a target behind it.
#[derive(Copy, Clone, Debug, PartialEq, Eq, Structural)]
pub enum CameraType {
    Fly,
    FirstPerson,
    ThirdPerson,
}

} // verus!
