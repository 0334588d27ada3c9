use vstd::prelude::*;
use vstd::arithmetic::div_mod::lemma_fundamental_div_mod_converse;
use rayon::iter::IndexedParallelIterator;
use rayon::iter::ParallelIterator;
use rayon::slice::ParallelSliceMut;
use crate::bands::{Band, band_at, band_count, band_view, partition_rows};
use crate::shading::{shade, shade_of, pixel_index};

verus! {

/// Whether `value` is the shade of something that `classify` may return for
/// the pixel at position `j` of a band of rows `width` pixels wide whose first
/// row is row `top` of the image: column `j % width` of row `top + j / width`.
pub open spec fn shaded_from<F: Fn(usize, usize) -> Option<u32>>(
    classify: F,
    width: nat,
    top: nat,
    j: int,
    value: u8,
) -> bool {
    exists|o: Option<u32>|
        call_ensures(classify, ((j % (width as int)) as usize, (top + j / (width as int)) as usize), o)
            && value == shade_of(o)
}

/// Whether every pixel of `pixels`, a band of rows `width` pixels wide whose
/// first row is row `top` of the image, is shaded from what `classify` may
/// return for it.
pub open spec fn band_rendered<F: Fn(usize, usize) -> Option<u32>>(
    pixels: Seq<u8>,
    width: nat,
    top: nat,
    classify: F,
) -> bool {
    forall|j: int| 0 <= j < pixels.len() ==> shaded_from(classify, width, top, j, #[trigger] pixels[j])
}

/// Whether `pixels` is the full `width` x `height` image, rendered through `classify`.
pub open spec fn rendered<F: Fn(usize, usize) -> Option<u32>>(
    pixels: Seq<u8>,
    width: nat,
    height: nat,
    classify: F,
) -> bool {
    pixels.len() == width * height && band_rendered(pixels, width, 0, classify)
}

/// Whether `classify` may be called on every pixel of a `width` x `height` image.
pub open spec fn classifies<F: Fn(usize, usize) -> Option<u32>>(
    classify: F,
    width: nat,
    height: nat,
) -> bool {
    forall|col: usize, row: usize|
        col < width && row < height ==> #[trigger] call_requires(classify, (col, row))
}

/// Whether `classify` returns one value only for each pixel.
pub open spec fn deterministic<F: Fn(usize, usize) -> Option<u32>>(classify: F) -> bool {
    forall|p: (usize, usize), a: Option<u32>, b: Option<u32>|
        call_ensures(classify, p, a) && call_ensures(classify, p, b) ==> a == b
}

/// Pixel `(col, row)` of a row-major `width` x `height` buffer lies at
/// `row * width + col`, and that position gives back its column and row.
pub proof fn lemma_pixel_position(width: nat, height: nat, col: nat, row: nat)
    requires
        col < width,
        row < height,
    ensures
        0 <= pixel_index(width as int, col as int, row as int) < width * height,
        pixel_index(width as int, col as int, row as int) % (width as int) == col,
        pixel_index(width as int, col as int, row as int) / (width as int) == row,
{
    let j = pixel_index(width as int, col as int, row as int);
    assert(0 <= j < width * height) by (nonlinear_arith)
        requires
            j == row * width + col,
            col < width,
            row < height,
    ;
    lemma_fundamental_div_mod_converse(j, (width as int), row as int, col as int);
}

/// Position `j` of a `width` x `height` buffer is column `j % width` of row `j / width`.
proof fn lemma_flat_position(width: nat, height: nat, j: int)
    requires
        0 <= j < width * height,
    ensures
        width > 0,
        0 <= j % (width as int) < width,
        0 <= j / (width as int) < height,
{
    if width == 0 {
        assert(width * height == 0);
    }
    let w = (width as int);
    let q = j / w;
    let m = j % w;
    assert(j == q * w + m && 0 <= m < w) by (nonlinear_arith)
        requires
            w > 0,
            q == j / w,
            m == j % w,
    ;
    assert(0 <= q < height) by (nonlinear_arith)
        requires
            j == q * w + m,
            0 <= m < w,
            0 <= j < w * height,
    ;
}

/// Renders the rows of `band`, `width` pixels each, the first of them row `top`
/// of the image: each pixel gets the shade of what `classify` returns for it.
pub fn render_band<F: Fn(usize, usize) -> Option<u32>>(
    band: &mut [u8],
    width: usize,
    top: usize,
    classify: &F,
)
    requires
        width > 0,
        top + old(band)@.len() as int / (width as int) <= usize::MAX,
        forall|j: int|
            0 <= j < old(band)@.len() ==> #[trigger] call_requires(
                *classify,
                ((j % (width as int)) as usize, (top + j / (width as int)) as usize),
            ),
    ensures
        final(band)@.len() == old(band)@.len(),
        band_rendered(final(band)@, width as nat, top as nat, *classify),
{
    let n = band.len();
    let mut i: usize = 0;
    while i < n
        invariant
            width > 0,
            n == band@.len(),
            top + n as int / (width as int) <= usize::MAX,
            forall|j: int|
                0 <= j < n ==> #[trigger] call_requires(
                    *classify,
                    ((j % (width as int)) as usize, (top + j / (width as int)) as usize),
                ),
            i <= n,
            forall|j: int|
                0 <= j < i ==> shaded_from(*classify, width as nat, top as nat, j, #[trigger] band@[j]),
        decreases n - i,
    {
        proof {
            vstd::arithmetic::div_mod::lemma_div_is_ordered(i as int, n as int, width as int);
        }
        let col = i % width;
        let row = top + i / width;
        let escape = classify(col, row);
        band[i] = shade(escape);
        assert(shaded_from(*classify, width as nat, top as nat, i as int, band@[i as int]));
        i = i + 1;
    }
}

/// Renders the `width` x `height` image `pixels` row by row: pixel
/// `(col, row)` gets the shade of what `classify` returns for it.
pub fn render<F: Fn(usize, usize) -> Option<u32>>(
    pixels: &mut [u8],
    bounds: (usize, usize),
    classify: &F,
)
    requires
        old(pixels)@.len() == bounds.0 * bounds.1,
        classifies(*classify, bounds.0 as nat, bounds.1 as nat),
    ensures
        rendered(final(pixels)@, bounds.0 as nat, bounds.1 as nat, *classify),
{
    let (width, height) = bounds;
    if pixels.len() == 0 {
        return;
    }
    proof {
        assert forall|j: int| 0 <= j < pixels@.len() implies #[trigger] call_requires(
            *classify,
            ((j % (width as int)) as usize, (0 + j / (width as int)) as usize),
        ) by {
            lemma_flat_position(width as nat, height as nat, j);
        }
        lemma_flat_position(width as nat, height as nat, 0);
        vstd::arithmetic::div_mod::lemma_div_is_ordered(
            pixels@.len() as int - 1,
            pixels@.len() as int,
            (width as int),
        );
        lemma_flat_position(width as nat, height as nat, pixels@.len() - 1);
    }
    render_band(pixels, width, 0, classify);
}

/// Relies on rayon's `par_chunks_mut`, `enumerate` and `for_each`: the buffer
/// is cut into consecutive, non-overlapping chunks of `chunk_len` elements (the
/// last one possibly shorter), numbered from 0, and each chunk is handed with
/// its number to the closure exactly once, on some worker thread, before the
/// call returns. With `chunk_len == width * rows_per_band`, chunk `i` holds
/// the rows of `bands[i]`, whose top row the closure passes on.
#[verifier::external_body]
fn par_render_bands<F: Fn(usize, usize) -> Option<u32> + Sync>(
    pixels: &mut Vec<u8>,
    width: usize,
    height: usize,
    bands: &Vec<Band>,
    rows_per_band: usize,
    chunk_len: usize,
    classify: &F,
)
    requires
        width > 0,
        rows_per_band > 0,
        old(pixels)@.len() == width * height,
        chunk_len == width * rows_per_band,
        bands@.len() == band_count(height as nat, rows_per_band as nat),
        forall|i: int|
            0 <= i < bands@.len() ==> #[trigger] band_view(bands@[i]) == band_at(
                height as nat,
                rows_per_band as nat,
                i as nat,
            ),
        classifies(*classify, width as nat, height as nat),
    ensures
        final(pixels)@.len() == old(pixels)@.len(),
        band_rendered(final(pixels)@, width as nat, 0, *classify),
{
    pixels.par_chunks_mut(chunk_len).enumerate().for_each(
        |(index, chunk)| render_band(chunk, width, bands[index].top, classify),
    );
}

/// Renders a `width` x `height` image in parallel: the rows are cut by
/// `partition_rows` into bands of `rows_per_band` rows (the last one possibly
/// shorter), each band is one task with its own part of the buffer, and pixel
/// `(col, row)` gets the shade of what `classify` returns for it. The buffer
/// is allocated here, zero-filled, and returned once every band is done.
pub fn render_parallel<F: Fn(usize, usize) -> Option<u32> + Sync>(
    bounds: (usize, usize),
    rows_per_band: usize,
    classify: &F,
) -> (r: Vec<u8>)
    requires
        bounds.0 * bounds.1 <= usize::MAX,
        rows_per_band > 0,
        classifies(*classify, bounds.0 as nat, bounds.1 as nat),
    ensures
        rendered(r@, bounds.0 as nat, bounds.1 as nat, *classify),
{
    let (width, height) = bounds;
    let size = width * height;
    let mut pixels: Vec<u8> = vec![0u8; size];
    if size == 0 {
        return pixels;
    }
    let rows = if rows_per_band < height { rows_per_band } else { height };
    assert(width * rows <= width * height) by (nonlinear_arith)
        requires
            rows <= height,
    ;
    if width == 0 {
        assert(width * height == 0);
    }
    let chunk_len = width * rows;
    let bands = partition_rows(height, rows);
    par_render_bands(&mut pixels, width, height, &bands, rows, chunk_len, classify);
    pixels
}

/// Rendering is deterministic: two buffers that each hold the same image
/// rendered through a classifier with one result per pixel are byte for byte
/// equal, whichever band size, worker count or order of work produced them.
pub proof fn lemma_render_deterministic<F: Fn(usize, usize) -> Option<u32>>(
    a: Seq<u8>,
    b: Seq<u8>,
    width: nat,
    height: nat,
    classify: F,
)
    requires
        rendered(a, width, height, classify),
        rendered(b, width, height, classify),
        deterministic(classify),
    ensures
        a == b,
{
    assert forall|j: int| 0 <= j < a.len() implies a[j] == b[j] by {
        assert(shaded_from(classify, width, 0, j, a[j]));
        assert(shaded_from(classify, width, 0, j, b[j]));
    }
    assert(a =~= b);
}

} // verus!
