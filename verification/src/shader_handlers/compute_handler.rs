use vstd::prelude::*;

verus! {

/// Width and height, in pixels, of the screen tiles that light culling works on.
pub const TILE_SIZE: i32 = 16;

/// The lights that light culling found to reach a tile.
#[derive(Clone, Copy)]
pub struct LightVisibility {
    pub count: u32,
    pub lights: [u32; 16],
}

/// The values handed to the light culling shader: the size of the viewport and the
/// number of tiles along each side.
pub struct PushConstantObject {
    pub viewport_size: [i32; 2],
    pub tile_nums: [i32; 2],
}

/// Integer division rounding toward zero, as Rust's `/` does.
pub open spec fn div_toward_zero(a: int, b: int) -> int {
    if a >= 0 {
        a / b
    } else {
        -((-a) / b)
    }
}

/// The number of tiles that cover `size` pixels: `(size - 1) / TILE_SIZE + 1`.
pub open spec fn tiles_along(size: int) -> int {
    div_toward_zero(size - 1, TILE_SIZE as int) + 1
}

/// The number of tiles per row and per column of a viewport of the given size.
pub fn tile_counts(width: i32, height: i32) -> (r: (i32, i32))
    requires
        width > i32::MIN,
        height > i32::MIN,
    ensures
        r.0 == tiles_along(width as int),
        r.1 == tiles_along(height as int),
{
    let tile_count_per_row = (width - 1) / TILE_SIZE + 1;
    let tile_count_per_col = (height - 1) / TILE_SIZE + 1;
    (tile_count_per_row, tile_count_per_col)
}

/// The push constants of the light culling pass: the viewport's width and height, then
/// its number of tiles per row and per column, then zeros.
pub fn light_culling_push_constants(width: i32, height: i32) -> (r: [i32; 16])
    requires
        width > i32::MIN,
        height > i32::MIN,
    ensures
        r[0] == width,
        r[1] == height,
        r[2] == tiles_along(width as int),
        r[3] == tiles_along(height as int),
        forall|i: int| 4 <= i < 16 ==> r[i] == 0,
{
    let (tile_count_per_row, tile_count_per_col) = tile_counts(width, height);
    let mut push_constants = [0i32; 16];
    push_constants[0] = width;
    push_constants[1] = height;
    push_constants[2] = tile_count_per_row;
    push_constants[3] = tile_count_per_col;
    push_constants
}

/// The number of work groups the light culling pass runs along each axis: one per tile.
pub fn light_culling_dispatch(width: i32, height: i32) -> (r: (u32, u32, u32))
    requires
        width > i32::MIN,
        height > i32::MIN,
    ensures
        r.0 == tiles_along(width as int) as u32,
        r.1 == tiles_along(height as int) as u32,
        r.2 == 1,
{
    let (tile_count_per_row, tile_count_per_col) = tile_counts(width, height);
    (tile_count_per_row as u32, tile_count_per_col as u32, 1)
}

impl LightVisibility {
    /// The light visibility the light culling pass starts from: one light, every slot 0.
    pub fn initial() -> (r: LightVisibility)
        ensures
            r.count == 1,
            forall|i: int| 0 <= i < 16 ==> r.lights[i] == 0,
    {
        LightVisibility { count: 1, lights: [0u32; 16] }
    }
}

/// The tiles of a row (or column) cover all of its pixels, and one tile fewer would
/// not: for a positive size, `tiles_along(size)` is the least number of tiles that covers
/// it.
pub proof fn lemma_tiles_cover(size: int)
    requires
        size >= 1,
    ensures
        tiles_along(size) * TILE_SIZE >= size,
        (tiles_along(size) - 1) * TILE_SIZE < size,
{
    assert(div_toward_zero(size - 1, 16) == (size - 1) / 16);
}

} // verus!
