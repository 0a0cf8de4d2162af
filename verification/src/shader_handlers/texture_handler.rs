use vstd::prelude::*;

use crate::bytes::{split_bytes, split_on, vviews};

verus! {

/// An RGBA image with eight bits per channel, as the `image` crate keeps it. The image
/// is held whole in a private field; what the library knows of it is what `rgba_pixels`
/// and `rgba_size` name.
#[verifier::external_body]
pub struct RgbaImage {
    image: image::RgbaImage,
}

/// The bytes of an RGBA image, four per pixel, row after row from the top.
pub uninterp spec fn rgba_pixels(img: RgbaImage) -> Seq<u8>;

/// The width and height of an RGBA image.
pub uninterp spec fn rgba_size(img: RgbaImage) -> (u32, u32);

/// `image::ImageBuffer::from_raw`: an image of the given size over the given bytes, when
/// there are at least four per pixel and their count fits a `usize`; `None` otherwise.
#[verifier::external_body]
pub(crate) fn rgba_image_from_raw(width: u32, height: u32, buf: Vec<u8>) -> (r: Option<RgbaImage>)
    ensures
        (r is Some) == (4 * width <= usize::MAX && 4 * width * height <= usize::MAX && 4 * width
            * height <= buf@.len()),
        r matches Some(img) ==> rgba_pixels(img) == buf@ && rgba_size(img) == (width, height),
{
    image::ImageBuffer::from_raw(width, height, buf).map(|image| RgbaImage { image })
}

/// What decoding an encoded image (PNG, JPEG and the other formats the `image` crate
/// reads, found by their first bytes) into RGBA gives: its width, height and bytes, or
/// nothing when the bytes are no image it can read.
pub uninterp spec fn decoded_rgba(bytes: Seq<u8>) -> Option<(u32, u32, Seq<u8>)>;

/// `image::load_from_memory`, then `to_rgba8` on the decoded image: the image the bytes
/// encode, as RGBA with four bytes per pixel; `None` when they encode none. That each of
/// the crate's format decoders reports malformed bytes as an error rather than panicking
/// is assumed, not shown.
#[verifier::external_body]
pub(crate) fn decode_rgba(bytes: &[u8]) -> (r: Option<RgbaImage>)
    ensures
        match r {
            Some(img) => decoded_rgba(bytes@) == Some(
                (rgba_size(img).0, rgba_size(img).1, rgba_pixels(img)),
            ) && rgba_pixels(img).len() == 4 * rgba_size(img).0 * rgba_size(img).1,
            None => decoded_rgba(bytes@) is None,
        },
{
    match image::load_from_memory(bytes) {
        Ok(decoded) => Some(RgbaImage { image: decoded.to_rgba8() }),
        Err(_) => None,
    }
}

/// What reading an image file at `path` whose bytes are `bytes` into RGBA gives, the
/// format being the one the path's extension names (as `image::open` chooses it): its
/// width, height and bytes, or nothing when the extension names no format the `image`
/// crate reads or the bytes are no image of that format.
pub uninterp spec fn decoded_rgba_at(path: Seq<char>, bytes: Seq<u8>) -> Option<
    (u32, u32, Seq<u8>),
>;

/// `image::ImageFormat::from_path` on `path`, then `image::load_from_memory_with_format`
/// with that format on `bytes`, then `to_rgba8`: the image the file encodes, as RGBA with
/// four bytes per pixel; `None` when the extension names no known format or the bytes do
/// not decode. That each of the crate's format decoders reports malformed bytes as an
/// error rather than panicking is assumed, not shown.
#[verifier::external_body]
pub(crate) fn decode_rgba_at(path: &str, bytes: &[u8]) -> (r: Option<RgbaImage>)
    ensures
        match r {
            Some(img) => decoded_rgba_at(path@, bytes@) == Some(
                (rgba_size(img).0, rgba_size(img).1, rgba_pixels(img)),
            ) && rgba_pixels(img).len() == 4 * rgba_size(img).0 * rgba_size(img).1,
            None => decoded_rgba_at(path@, bytes@) is None,
        },
{
    match image::ImageFormat::from_path(path) {
        Ok(format) => match image::load_from_memory_with_format(bytes, format) {
            Ok(decoded) => Some(RgbaImage { image: decoded.to_rgba8() }),
            Err(_) => None,
        },
        Err(_) => None,
    }
}

/// The image mirrored left to right: pixel `(x, y)` of `b` is pixel `(w - 1 - x, y)` of
/// `a`, both `w` by `h`.
pub open spec fn mirrored(a: Seq<u8>, b: Seq<u8>, w: int, h: int) -> bool {
    &&& b.len() == 4 * w * h
    &&& forall|x: int, y: int, c: int|
        0 <= x < w && 0 <= y < h && 0 <= c < 4 ==> #[trigger] b[(y * w + x) * 4 + c] == a[(y * w
            + (w - 1 - x)) * 4 + c]
}

/// `image::imageops::flip_horizontal`: a new image of the same size, mirrored left to
/// right.
#[verifier::external_body]
pub(crate) fn rgba_flip_horizontal(img: &RgbaImage) -> (r: RgbaImage)
    requires
        4 * rgba_size(*img).0 * rgba_size(*img).1 <= usize::MAX,
        rgba_pixels(*img).len() >= 4 * rgba_size(*img).0 * rgba_size(*img).1,
    ensures
        rgba_size(r) == rgba_size(*img),
        mirrored(rgba_pixels(*img), rgba_pixels(r), rgba_size(r).0 as int, rgba_size(r).1 as int),
{
    RgbaImage { image: image::imageops::flip_horizontal(&img.image) }
}

/// `ImageBuffer::dimensions`: the width and height of the image.
#[verifier::external_body]
pub(crate) fn rgba_dimensions(img: &RgbaImage) -> (r: (u32, u32))
    ensures
        r == rgba_size(*img),
{
    img.image.dimensions()
}

/// `ImageBuffer::as_raw`: the bytes the image holds.
#[verifier::external_body]
pub(crate) fn rgba_raw(img: &RgbaImage) -> (r: &Vec<u8>)
    ensures
        r@ == rgba_pixels(*img),
{
    img.image.as_raw()
}

/// An RGBA image `width` by `height` over the bytes `buf`, four per pixel row after row
/// from the top; `None` when `buf` holds fewer bytes than that or the byte count of a row
/// or of the image does not fit a `usize`.
pub fn image_from_bytes(width: u32, height: u32, buf: Vec<u8>) -> (r: Option<RgbaImage>)
    ensures
        (r is Some) == (4 * width <= usize::MAX && 4 * width * height <= usize::MAX && 4 * width
            * height <= buf@.len()),
        r matches Some(img) ==> rgba_pixels(img) == buf@ && rgba_size(img) == (width, height),
{
    rgba_image_from_raw(width, height, buf)
}

/// The width and height of an image.
pub fn image_size(img: &RgbaImage) -> (r: (u32, u32))
    ensures
        r == rgba_size(*img),
{
    rgba_dimensions(img)
}

/// A copy of the bytes of an image, four per pixel row after row from the top.
pub fn image_pixels(img: &RgbaImage) -> (r: Vec<u8>)
    ensures
        r@ == rgba_pixels(*img),
{
    let raw = rgba_raw(img);
    let mut out: Vec<u8> = Vec::new();
    let mut i: usize = 0;
    while i < raw.len()
        invariant
            i <= raw@.len(),
            out@ == raw@.take(i as int),
        decreases raw@.len() - i,
    {
        out.push(raw[i]);
        i = i + 1;
        assert(out@ =~= raw@.take(i as int));
    }
    assert(raw@.take(raw@.len() as int) =~= raw@);
    out
}

/// The colour of pixel `(x, y)` of the checkered placeholder texture: black where `x + y`
/// is even, white elsewhere, both opaque.
pub open spec fn checker_colour(x: int, y: int) -> Seq<u8> {
    if (x + y) % 2 == 0 {
        seq![0u8, 0u8, 0u8, 255u8]
    } else {
        seq![255u8, 255u8, 255u8, 255u8]
    }
}

/// Opaque white.
pub open spec fn white() -> Seq<u8> {
    seq![255u8, 255u8, 255u8, 255u8]
}

/// The colour of pixel `(x, y)`: checkered, or all white.
pub open spec fn placeholder_colour(checkered: bool, x: int, y: int) -> Seq<u8> {
    if checkered {
        checker_colour(x, y)
    } else {
        white()
    }
}

/// The bytes of the first `n` pixels of a placeholder image `w` pixels wide, row after
/// row: checkered, or all white.
pub open spec fn image_bytes(w: int, n: int, checkered: bool) -> Seq<u8>
    decreases n,
{
    if n <= 0 {
        seq![]
    } else {
        image_bytes(w, n - 1, checkered) + placeholder_colour(checkered, (n - 1) % w, (n - 1) / w)
    }
}

/// The colour of pixel `(x, y)` of the checkered placeholder texture.
pub fn checker_pixel(x: u32, y: u32) -> (r: [u8; 4])
    requires
        x + y <= u32::MAX,
    ensures
        r@ == checker_colour(x as int, y as int),
{
    let r = if (x + y) % 2 == 0 {
        [0u8, 0u8, 0u8, 255u8]
    } else {
        [255u8, 255u8, 255u8, 255u8]
    };
    assert(r@ =~= checker_colour(x as int, y as int));
    r
}

fn push_pixel(bytes: &mut Vec<u8>, p: [u8; 4])
    ensures
        final(bytes)@ == old(bytes)@ + p@,
{
    bytes.push(p[0]);
    bytes.push(p[1]);
    bytes.push(p[2]);
    bytes.push(p[3]);
    assert(bytes@ =~= old(bytes)@ + p@);
}

/// A two by two placeholder image, checkered or all white.
pub(crate) fn placeholder_image(checkered: bool) -> (r: RgbaImage)
    ensures
        rgba_size(r) == (2u32, 2u32),
        rgba_pixels(r) == image_bytes(2, 4, checkered),
{
    let mut bytes: Vec<u8> = Vec::new();
    let mut y: u32 = 0;
    while y < 2
        invariant
            y <= 2,
            bytes@ == image_bytes(2, 2 * y as int, checkered),
            bytes@.len() == 8 * y,
        decreases 2 - y,
    {
        let mut x: u32 = 0;
        while x < 2
            invariant
                x <= 2,
                y < 2,
                bytes@ == image_bytes(2, 2 * y + x, checkered),
                bytes@.len() == 4 * (2 * y + x),
            decreases 2 - x,
        {
            let p = if checkered {
                checker_pixel(x, y)
            } else {
                let w = [255u8, 255u8, 255u8, 255u8];
                assert(w@ =~= white());
                w
            };
            let ghost n = 2 * y + x;
            assert(n % 2 == x && n / 2 == y) by (nonlinear_arith)
                requires
                    n == 2 * y + x,
                    x < 2,
            ;
            assert(p@ == placeholder_colour(checkered, n % 2, n / 2));
            assert(image_bytes(2, n + 1, checkered) == image_bytes(2, n, checkered)
                + placeholder_colour(checkered, n % 2, n / 2));
            push_pixel(&mut bytes, p);
            x = x + 1;
        }
        y = y + 1;
    }
    match rgba_image_from_raw(2, 2, bytes) {
        Some(img) => img,
        None => vstd::pervasive::unreached(),
    }
}

/// The texture drawn where a texture is missing: two by two pixels, checkered black and
/// white.
pub fn create_checked_image() -> (r: RgbaImage)
    ensures
        rgba_size(r) == (2u32, 2u32),
        rgba_pixels(r) == image_bytes(2, 4, true),
{
    placeholder_image(true)
}

/// A texture loaded from a file, mirrored left to right as the textured quads expect.
pub fn texture_from_file_image(img: &RgbaImage) -> (r: RgbaImage)
    requires
        4 * rgba_size(*img).0 * rgba_size(*img).1 <= usize::MAX,
        rgba_pixels(*img).len() >= 4 * rgba_size(*img).0 * rgba_size(*img).1,
    ensures
        rgba_size(r) == rgba_size(*img),
        mirrored(rgba_pixels(*img), rgba_pixels(r), rgba_size(r).0 as int, rgba_size(r).1 as int),
{
    rgba_flip_horizontal(img)
}

/// The number of empty words among `parts`.
pub open spec fn empty_parts(parts: Seq<Seq<u8>>) -> nat
    decreases parts.len(),
{
    if parts.len() == 0 {
        0
    } else {
        empty_parts(parts.drop_last()) + if parts.last().len() == 0 {
            1nat
        } else {
            0nat
        }
    }
}

/// A text the texture renderer does not draw: an empty one, or one with more empty
/// words between its spaces than it has bytes.
pub open spec fn text_skipped(raw: Seq<u8>) -> bool {
    raw.len() == 0 || empty_parts(split_on(raw, 32u8)) > raw.len()
}

/// Whether the texture renderer leaves the text `raw_text` undrawn.
pub fn skips_text(raw_text: &[u8]) -> (r: bool)
    ensures
        r == text_skipped(raw_text@),
{
    if raw_text.len() == 0 {
        return true;
    }
    let parts = split_bytes(raw_text, 32u8);
    let ghost all = vviews(parts@);
    let mut count: usize = 0;
    let mut k: usize = 0;
    while k < parts.len()
        invariant
            all == vviews(parts@),
            k <= parts.len(),
            count == empty_parts(all.take(k as int)),
            count <= k,
        decreases parts.len() - k,
    {
        assert(all.take(k + 1).drop_last() =~= all.take(k as int));
        assert(all[k as int] == parts@[k as int]@);
        if parts[k].len() == 0 {
            count = count + 1;
        }
        k = k + 1;
    }
    assert(all.take(parts.len() as int) =~= all);
    count > raw_text.len()
}

/// A texture loaded from a file, mirrored left to right as the textured quads expect;
/// `None` when the image's byte count does not fit a `usize` or it holds fewer bytes
/// than its size needs.
pub fn texture_from_image(img: &RgbaImage) -> (r: Option<RgbaImage>)
    ensures
        (r is Some) == (4 * rgba_size(*img).0 * rgba_size(*img).1 <= usize::MAX
            && rgba_pixels(*img).len() >= 4 * rgba_size(*img).0 * rgba_size(*img).1),
        r matches Some(t) ==> rgba_size(t) == rgba_size(*img) && mirrored(
            rgba_pixels(*img),
            rgba_pixels(t),
            rgba_size(t).0 as int,
            rgba_size(t).1 as int,
        ),
{
    let (w, h) = rgba_dimensions(img);
    let count = rgba_raw(img).len();
    let wide = w as u128;
    let high = h as u128;
    assert(4 * wide * high <= 4 * 0xffff_ffffu128 * 0xffff_ffffu128) by (nonlinear_arith)
        requires
            wide <= 0xffff_ffff,
            high <= 0xffff_ffff,
    ;
    let needed: u128 = 4 * wide * high;
    if needed > usize::MAX as u128 || (count as u128) < needed {
        return None;
    }
    Some(texture_from_file_image(img))
}

/// The image in the file at `path` whose bytes are `bytes`, read in the format the path's
/// extension names and converted to RGBA; `None` when the extension names no format the
/// `image` crate reads or the bytes are no image of that format.
pub fn image_from_file(path: &str, bytes: &[u8]) -> (r: Option<RgbaImage>)
    ensures
        match decoded_rgba_at(path@, bytes@) {
            None => r is None,
            Some((w, h, p)) => r matches Some(img) && rgba_size(img) == (w, h) && rgba_pixels(img)
                == p,
        },
{
    decode_rgba_at(path, bytes)
}

/// A texture from the file at `path` whose bytes are `bytes`: read in the format the
/// path's extension names, converted to RGBA and mirrored left to right as the textured
/// quads expect; `None` when the extension names no format the `image` crate reads, the
/// bytes are no image of that format, or the image's byte count does not fit a `usize`.
pub fn texture_from_file(path: &str, bytes: &[u8]) -> (r: Option<RgbaImage>)
    ensures
        match decoded_rgba_at(path@, bytes@) {
            None => r is None,
            Some((w, h, p)) => (4 * w * h <= usize::MAX) == (r is Some) && (r matches Some(t)
                ==> rgba_size(t) == (w, h) && mirrored(p, rgba_pixels(t), w as int, h as int)),
        },
{
    match decode_rgba_at(path, bytes) {
        None => None,
        Some(img) => texture_from_image(&img),
    }
}

/// The most instances one instanced buffer holds.
pub const MAX_INSTANCES: usize = 8196;

/// The per-instance values of a textured quad drawn instanced: position and scale,
/// colour, texturing with rotation and overlay mix, sprite sheet, flips, overlay colour,
/// a spare attribute, and camera with intensity and time.
#[derive(Clone, Copy, Debug)]
pub struct InstancedComboData<T> {
    pub pos_scale: [T; 4],
    pub other_colour: [T; 4],
    pub is_textured_rotation_overlay_mix: [T; 4],
    pub sprite_sheet: [T; 4],
    pub flip_xy: [T; 4],
    pub overlay_colour: [T; 4],
    pub attrib6: [T; 4],
    pub camera_intensity_time: [T; 4],
}

impl<T: Copy> InstancedComboData<T> {
    /// Every value set to `zero`.
    pub fn new(zero: T) -> (r: InstancedComboData<T>)
        ensures
            r.pos_scale@ == seq![zero, zero, zero, zero],
            r.other_colour@ == seq![zero, zero, zero, zero],
            r.is_textured_rotation_overlay_mix@ == seq![zero, zero, zero, zero],
            r.sprite_sheet@ == seq![zero, zero, zero, zero],
            r.flip_xy@ == seq![zero, zero, zero, zero],
            r.overlay_colour@ == seq![zero, zero, zero, zero],
            r.attrib6@ == seq![zero, zero, zero, zero],
            r.camera_intensity_time@ == seq![zero, zero, zero, zero],
    {
        let r = InstancedComboData {
            pos_scale: [zero; 4],
            other_colour: [zero; 4],
            is_textured_rotation_overlay_mix: [zero; 4],
            sprite_sheet: [zero; 4],
            flip_xy: [zero; 4],
            overlay_colour: [zero; 4],
            attrib6: [zero; 4],
            camera_intensity_time: [zero; 4],
        };
        assert(r.pos_scale@ =~= seq![zero, zero, zero, zero]);
        assert(r.other_colour@ =~= seq![zero, zero, zero, zero]);
        assert(r.is_textured_rotation_overlay_mix@ =~= seq![zero, zero, zero, zero]);
        assert(r.sprite_sheet@ =~= seq![zero, zero, zero, zero]);
        assert(r.flip_xy@ =~= seq![zero, zero, zero, zero]);
        assert(r.overlay_colour@ =~= seq![zero, zero, zero, zero]);
        assert(r.attrib6@ =~= seq![zero, zero, zero, zero]);
        assert(r.camera_intensity_time@ =~= seq![zero, zero, zero, zero]);
        r
    }

    /// The instance values from a draw's first 32 values, four to a group in order,
    /// except that the colour's second value repeats the third (`data[6]`).
    pub fn from_data(data: &[T]) -> (r: InstancedComboData<T>)
        requires
            data@.len() >= 32,
        ensures
            r.pos_scale@ == data@.subrange(0, 4),
            r.other_colour@ == seq![data@[4], data@[6], data@[6], data@[7]],
            r.is_textured_rotation_overlay_mix@ == data@.subrange(8, 12),
            r.sprite_sheet@ == data@.subrange(12, 16),
            r.flip_xy@ == data@.subrange(16, 20),
            r.overlay_colour@ == data@.subrange(20, 24),
            r.attrib6@ == data@.subrange(24, 28),
            r.camera_intensity_time@ == data@.subrange(28, 32),
    {
        let r = InstancedComboData {
            pos_scale: [data[0], data[1], data[2], data[3]],
            other_colour: [data[4], data[6], data[6], data[7]],
            is_textured_rotation_overlay_mix: [data[8], data[9], data[10], data[11]],
            sprite_sheet: [data[12], data[13], data[14], data[15]],
            flip_xy: [data[16], data[17], data[18], data[19]],
            overlay_colour: [data[20], data[21], data[22], data[23]],
            attrib6: [data[24], data[25], data[26], data[27]],
            camera_intensity_time: [data[28], data[29], data[30], data[31]],
        };
        assert(r.pos_scale@ =~= data@.subrange(0, 4));
        assert(r.other_colour@ =~= seq![data@[4], data@[6], data@[6], data@[7]]);
        assert(r.is_textured_rotation_overlay_mix@ =~= data@.subrange(8, 12));
        assert(r.sprite_sheet@ =~= data@.subrange(12, 16));
        assert(r.flip_xy@ =~= data@.subrange(16, 20));
        assert(r.overlay_colour@ =~= data@.subrange(20, 24));
        assert(r.attrib6@ =~= data@.subrange(24, 28));
        assert(r.camera_intensity_time@ =~= data@.subrange(28, 32));
        r
    }
}

/// Puts the camera's position into a draw's values: the first two of its last four.
pub fn set_camera_values<T: Copy>(data: &mut Vec<T>, camera_x: T, camera_y: T)
    requires
        old(data)@.len() >= 4,
    ensures
        final(data)@ == old(data)@.update(old(data)@.len() - 4, camera_x).update(
            old(data)@.len() - 3,
            camera_y,
        ),
{
    let last_idx = data.len() - 4;
    data.set(last_idx, camera_x);
    data.set(last_idx + 1, camera_y);
}

/// Adds an instance to an instanced buffer unless it already holds the most it can.
pub fn add_instance<T>(buffer: &mut Vec<T>, instance: T)
    ensures
        old(buffer)@.len() < MAX_INSTANCES ==> final(buffer)@ == old(buffer)@.push(instance),
        old(buffer)@.len() >= MAX_INSTANCES ==> final(buffer)@ == old(buffer)@,
{
    if buffer.len() < MAX_INSTANCES {
        buffer.push(instance);
    }
}

} // verus!
