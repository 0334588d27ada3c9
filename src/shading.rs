use vstd::prelude::*;

verus! {

/// Iteration limit used by the renderer: a pixel that has not escaped after
/// this many steps is presumed to belong to the set.
pub const ESCAPE_LIMIT: u32 = 255;

/// Intensity of a pixel from its escape result: dark (0) inside the set,
/// `255 - count` (count taken modulo 256, as a byte) when it escaped.
pub open spec fn shade_of(escape: Option<u32>) -> u8 {
    match escape {
        None => 0u8,
        Some(count) => (255 - (count % 256)) as u8,
    }
}

/// Position of pixel `(col, row)` in a row-major buffer `width` pixels wide.
pub open spec fn pixel_index(width: int, col: int, row: int) -> int {
    row * width + col
}

/// Grayscale intensity of one classified pixel.
pub fn shade(escape: Option<u32>) -> (r: u8)
    ensures
        r == shade_of(escape),
{
    match escape {
        None => 0,
        Some(count) => {
            let low = (count % 256) as u8;
            255 - low
        },
    }
}

} // verus!
