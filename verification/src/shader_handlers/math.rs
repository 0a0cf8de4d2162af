use vstd::prelude::*;

verus! {

/// Namespace for the engine's vector, matrix and quaternion helpers.
pub struct Math {}

impl Math {
    /// Meant to build a quaternion from pitch, yaw and roll; it computes nothing, so the
    /// call has no effect.
    pub fn quat_from_p_y_r() {
    }
}

} // verus!
