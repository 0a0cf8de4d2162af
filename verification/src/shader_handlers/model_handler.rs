use vstd::prelude::*;

use crate::shader_handlers::texture_handler::{image_bytes, placeholder_image, rgba_pixels, rgba_size, RgbaImage};

verus! {

/// The texture of a model without images: two by two opaque white pixels.
pub fn create_blank_image() -> (r: RgbaImage)
    ensures
        rgba_size(r) == (2u32, 2u32),
        rgba_pixels(r) == image_bytes(2, 4, false),
{
    placeholder_image(false)
}

} // verus!
