//! Partitioning the image into horizontal bands.
//!
//! The renderer splits the rows of the output raster into contiguous bands
//! and hands each band to one worker.  Safety of the unsynchronized parallel
//! writes rests on the bands being disjoint and covering every row exactly
//! once, which is proved here, together with the index arithmetic that places
//! a band's pixels at the same flat positions a whole-image renderer would
//! use.

use vstd::prelude::*;
use vstd::arithmetic::div_mod::lemma_div_nonincreasing;
use vstd::arithmetic::div_mod::lemma_div_pos_is_pos;
use vstd::arithmetic::div_mod::lemma_fundamental_div_mod;
use vstd::arithmetic::div_mod::lemma_mod_division_less_than_divisor;
use vstd::arithmetic::mul::lemma_mul_inequality;
use vstd::arithmetic::mul::lemma_mul_upper_bound;

verus! {

/// The size of the output raster in pixels.
#[derive(Clone, Copy, PartialEq, Eq, Structural, Debug)]
pub struct PixelBounds {
    pub width: u32,
    pub height: u32,
}

/// A contiguous run of whole image rows, rendered by one worker: the index
/// of its first row and how many rows it spans.
#[derive(Clone, Copy, PartialEq, Eq, Structural, Debug)]
pub struct Band {
    pub top: u32,
    pub rows: u32,
}

/// The number of rows a full band spans: integer division of the image
/// height by the worker count, then one more row.  This historical rounding
/// policy over-allocates slightly versus a true ceiling division; it is kept
/// exactly, since it fixes where the band boundaries fall.
pub open spec fn rows_per_band_spec(height: int, workers: int) -> int
    recommends
        1 <= workers,
{
    height / workers + 1
}

/// How many bands a layout with `rpb` rows to a band has: the number of
/// `rpb`-sized chunks needed to cover `height` rows.
pub open spec fn band_count(height: int, rpb: int) -> int
    recommends
        0 <= height,
        1 <= rpb,
{
    if height == 0 {
        0
    } else {
        (height - 1) / rpb + 1
    }
}

/// The band at index `i` of a layout: a full `rpb` rows, except that the
/// last band holds only the rows that are left.
pub open spec fn band_spec(height: int, rpb: int, i: int) -> Band
    recommends
        0 <= height <= u32::MAX,
        1 <= rpb <= u32::MAX,
        0 <= i,
        i * rpb < height,
{
    Band {
        top: (i * rpb) as u32,
        rows: (if height - i * rpb <= rpb {
            height - i * rpb
        } else {
            rpb
        }) as u32,
    }
}

/// The whole band layout of an image of the given height.
pub open spec fn layout_spec(height: int, rpb: int) -> Seq<Band>
    recommends
        0 <= height <= u32::MAX,
        1 <= rpb <= u32::MAX,
{
    Seq::new(band_count(height, rpb) as nat, |i: int| band_spec(height, rpb, i))
}

/// Whether image row `row` falls inside band `b`.
pub open spec fn band_contains(b: Band, row: int) -> bool {
    b.top <= row < b.top + b.rows
}

/// Total number of rows held by a sequence of bands.
pub open spec fn total_rows(bands: Seq<Band>) -> int
    decreases bands.len(),
{
    if bands.len() == 0 {
        0
    } else {
        total_rows(bands.drop_last()) + bands.last().rows
    }
}

/// The number of pixels band `b` holds in an image `width` pixels wide.
pub open spec fn band_pixels(b: Band, width: int) -> int {
    b.rows * width
}

/// Total number of pixels held by a sequence of bands.
pub open spec fn total_pixels(bands: Seq<Band>, width: int) -> int
    decreases bands.len(),
{
    if bands.len() == 0 {
        0
    } else {
        total_pixels(bands.drop_last(), width) + band_pixels(bands.last(), width)
    }
}

/// Band `i` starts above the bottom of the image exactly when `i` is one of
/// the indices of the layout.
proof fn lemma_in_layout_iff(height: int, rpb: int, i: int)
    requires
        0 <= height,
        1 <= rpb,
        0 <= i,
    ensures
        i * rpb < height <==> i < band_count(height, rpb),
{
    if height == 0 {
        assert(i * rpb >= 0) by (nonlinear_arith)
            requires 0 <= i && 1 <= rpb;
    } else {
        let q = (height - 1) / rpb;
        lemma_div_pos_is_pos(height - 1, rpb);
        lemma_fundamental_div_mod(height - 1, rpb);
        lemma_mod_division_less_than_divisor(height - 1, rpb);
        assert(q * rpb <= height - 1 < (q + 1) * rpb) by (nonlinear_arith)
            requires height - 1 == rpb * q + (height - 1) % rpb && 0 <= (height - 1) % rpb < rpb;
        if i <= q {
            lemma_mul_inequality(i, q, rpb);
        } else {
            lemma_mul_inequality(q + 1, i, rpb);
        }
    }
}

/// Computes how many rows each band spans, `height / workers + 1`.
pub fn rows_per_band(height: u32, workers: u32) -> (r: u32)
    requires
        1 <= workers,
        height < u32::MAX,
    ensures
        r == rows_per_band_spec(height as int, workers as int),
{
    proof {
        lemma_div_nonincreasing(height as int, workers as int);
    }
    height / workers + 1
}

/// Computes the band layout of an image: consecutive bands of
/// `height / workers + 1` rows each, the last one holding whatever rows are
/// left.  The layout is pinned down completely: it equals `layout_spec`.
pub fn band_layout(bounds: PixelBounds, workers: u32) -> (r: Vec<Band>)
    requires
        1 <= workers,
        bounds.height < u32::MAX,
    ensures
        r@ == layout_spec(
            bounds.height as int,
            rows_per_band_spec(bounds.height as int, workers as int),
        ),
{
    let rpb: u32 = rows_per_band(bounds.height, workers);
    let ghost h: int = bounds.height as int;
    let mut r: Vec<Band> = Vec::new();
    let mut top: u64 = 0;
    while top < bounds.height as u64
        invariant
            1 <= rpb <= u32::MAX,
            h == bounds.height as int,
            0 <= h < u32::MAX,
            r@.len() <= band_count(h, rpb as int),
            top == r@.len() * (rpb as int),
            forall|j: int| 0 <= j < r@.len() ==> r@[j] == band_spec(h, rpb as int, j),
        decreases band_count(h, rpb as int) - r@.len(),
    {
        let ghost i: int = r@.len() as int;
        proof {
            lemma_in_layout_iff(h, rpb as int, i);
        }
        let remaining: u64 = bounds.height as u64 - top;
        let rows: u32 = if remaining <= rpb as u64 {
            remaining as u32
        } else {
            rpb
        };
        r.push(Band { top: top as u32, rows });
        proof {
            assert(band_spec(h, rpb as int, i).rows == rows);
            assert((i + 1) * (rpb as int) == i * (rpb as int) + rpb) by (nonlinear_arith);
        }
        top = top + rpb as u64;
    }
    proof {
        let rpbi = rpb as int;
        lemma_in_layout_iff(h, rpbi, r@.len() as int);
        assert(r@ =~= layout_spec(h, rpbi));
    }
    r
}

/// Each image row lies in the band whose index is `row / rpb`, and in no
/// other: the bands of a layout are disjoint and cover every row of the
/// image exactly once.
pub proof fn lemma_bands_partition_rows(height: int, rpb: int, row: int)
    requires
        1 <= rpb <= u32::MAX,
        0 <= row < height <= u32::MAX,
    ensures
        0 <= row / rpb < layout_spec(height, rpb).len(),
        band_contains(layout_spec(height, rpb)[row / rpb], row),
        forall|j: int|
            0 <= j < layout_spec(height, rpb).len() && j != row / rpb
                ==> !band_contains(layout_spec(height, rpb)[j], row),
{
    let i = row / rpb;
    lemma_div_pos_is_pos(row, rpb);
    lemma_fundamental_div_mod(row, rpb);
    lemma_mod_division_less_than_divisor(row, rpb);
    assert(i * rpb <= row < (i + 1) * rpb) by (nonlinear_arith)
        requires row == rpb * i + row % rpb && 0 <= row % rpb < rpb;
    lemma_in_layout_iff(height, rpb, i);
    assert(band_contains(layout_spec(height, rpb)[i], row));
    assert forall|j: int|
        0 <= j < layout_spec(height, rpb).len() && j != i implies !band_contains(
        layout_spec(height, rpb)[j],
        row,
    ) by {
        lemma_in_layout_iff(height, rpb, j);
        if j < i {
            lemma_mul_inequality(j + 1, i, rpb);
            assert((j + 1) * rpb == j * rpb + rpb) by (nonlinear_arith);
        } else {
            lemma_mul_inequality(i + 1, j, rpb);
            assert((i + 1) * rpb == i * rpb + rpb) by (nonlinear_arith);
        }
    }
}

/// The first `n` bands of a layout hold `n * rpb` rows, clipped to the
/// image height.
proof fn lemma_total_rows_prefix(height: int, rpb: int, n: int)
    requires
        1 <= rpb <= u32::MAX,
        0 <= height <= u32::MAX,
        0 <= n <= band_count(height, rpb),
    ensures
        total_rows(layout_spec(height, rpb).take(n)) == if n * rpb <= height {
            n * rpb
        } else {
            height
        },
    decreases n,
{
    let bands = layout_spec(height, rpb);
    if n == 0 {
        assert(bands.take(0).len() == 0);
    } else {
        lemma_total_rows_prefix(height, rpb, n - 1);
        lemma_in_layout_iff(height, rpb, n - 1);
        assert(bands.take(n).drop_last() =~= bands.take(n - 1));
        assert(bands.take(n).last() == band_spec(height, rpb, n - 1));
        assert(n * rpb == (n - 1) * rpb + rpb) by (nonlinear_arith);
    }
}

/// The bands of a layout together hold exactly the image's rows.
pub proof fn lemma_layout_total_rows(height: int, rpb: int)
    requires
        1 <= rpb <= u32::MAX,
        0 <= height <= u32::MAX,
    ensures
        total_rows(layout_spec(height, rpb)) == height,
{
    let bands = layout_spec(height, rpb);
    let n = band_count(height, rpb);
    if height > 0 {
        lemma_div_pos_is_pos(height - 1, rpb);
        lemma_in_layout_iff(height, rpb, n);
    }
    lemma_total_rows_prefix(height, rpb, n);
    assert(bands.take(n) =~= bands);
}

/// The pixels of a run of bands are its rows times the image width.
proof fn lemma_total_pixels_is_rows(bands: Seq<Band>, width: int)
    ensures
        total_pixels(bands, width) == total_rows(bands) * width,
    decreases bands.len(),
{
    if bands.len() == 0 {
        assert(total_rows(bands) * width == 0) by (nonlinear_arith)
            requires total_rows(bands) == 0;
    } else {
        lemma_total_pixels_is_rows(bands.drop_last(), width);
        assert(total_rows(bands) * width == total_rows(bands.drop_last()) * width
            + bands.last().rows * width) by (nonlinear_arith)
            requires total_rows(bands) == total_rows(bands.drop_last()) + bands.last().rows;
    }
}

/// The pixel counts of all bands of a layout sum to `width * height`: no
/// pixel of the raster is lost and none is claimed twice.
pub proof fn lemma_layout_total_pixels(height: int, rpb: int, width: int)
    requires
        1 <= rpb <= u32::MAX,
        0 <= height <= u32::MAX,
    ensures
        total_pixels(layout_spec(height, rpb), width) == width * height,
{
    lemma_layout_total_rows(height, rpb);
    lemma_total_pixels_is_rows(layout_spec(height, rpb), width);
    assert(height * width == width * height) by (nonlinear_arith);
}

/// Writing local pixel (`r`, `c`) of band `b` at the band's own buffer
/// offset lands on the same flat index that a whole-image renderer uses for
/// the global pixel (`c`, `b.top + r`): splitting the image into bands moves
/// no pixel.
pub proof fn lemma_band_write_position(b: Band, width: int, r: int, c: int)
    requires
        0 <= r < b.rows,
        0 <= c < width,
    ensures
        b.top * width + (r * width + c) == (b.top + r) * width + c,
{
    assert((b.top + r) * width == b.top * width + r * width) by (nonlinear_arith);
}

/// Every band but the last spans the full `rpb` rows, and each band begins
/// exactly where the one before it ends: the bands are consecutive chunks
/// of the image with no gap between them.
pub proof fn lemma_bands_consecutive(height: int, rpb: int, i: int)
    requires
        1 <= rpb <= u32::MAX,
        0 <= height <= u32::MAX,
        0 <= i,
        i + 1 < layout_spec(height, rpb).len(),
    ensures
        layout_spec(height, rpb)[i].rows == rpb,
        layout_spec(height, rpb)[i + 1].top == layout_spec(height, rpb)[i].top + layout_spec(
            height,
            rpb,
        )[i].rows,
{
    lemma_in_layout_iff(height, rpb, i);
    lemma_in_layout_iff(height, rpb, i + 1);
    assert((i + 1) * rpb == i * rpb + rpb) by (nonlinear_arith);
}

/// A layout computed for `workers` workers never has more than `workers`
/// bands: the `height / workers + 1` rounding always spreads the rows over
/// at most the fixed pool of workers.
pub proof fn lemma_layout_fits_workers(height: int, workers: int)
    requires
        1 <= workers,
        0 <= height,
    ensures
        layout_spec(height, rows_per_band_spec(height, workers)).len() <= workers,
{
    let rpb = rows_per_band_spec(height, workers);
    lemma_div_pos_is_pos(height, workers);
    lemma_fundamental_div_mod(height, workers);
    lemma_mod_division_less_than_divisor(height, workers);
    assert(workers * rpb == workers * (height / workers) + workers) by (nonlinear_arith)
        requires rpb == height / workers + 1;
    if height > 0 {
        lemma_div_pos_is_pos(height - 1, rpb);
    }
    lemma_in_layout_iff(height, rpb, workers);
}

/// Rendering the image band by band places every pixel at the same flat
/// buffer index as rendering it whole: the band holding `row` writes its
/// local pixel (`col`, `row - top`) at its own offset plus the local
/// row-major index, and that is exactly `row * width + col`, the global
/// row-major index of the pixel.
pub proof fn lemma_band_pixel_flat_index(height: int, rpb: int, width: int, row: int, col: int)
    requires
        1 <= rpb <= u32::MAX,
        0 <= row < height <= u32::MAX,
        0 <= col < width,
    ensures
        ({
            let b = layout_spec(height, rpb)[row / rpb];
            b.top * width + ((row - b.top) * width + col) == row * width + col
        }),
{
    lemma_bands_partition_rows(height, rpb, row);
    let b = layout_spec(height, rpb)[row / rpb];
    lemma_band_write_position(b, width, row - b.top, col);
}

/// Flat row-major index of the pixel in column `column` of row `row`.
pub fn pixel_index(width: u32, column: u32, row: u32) -> (idx: u64)
    requires
        column < width,
    ensures
        idx == row * width + column,
{
    proof {
        lemma_mul_upper_bound(row as int, u32::MAX as int, width as int, u32::MAX as int);
    }
    row as u64 * width as u64 + column as u64
}

/// Offset in the flat pixel buffer at which band `b` begins.
pub fn band_offset(b: Band, width: u32) -> (off: u64)
    ensures
        off == b.top * width,
{
    proof {
        lemma_mul_upper_bound(b.top as int, u32::MAX as int, width as int, u32::MAX as int);
    }
    b.top as u64 * width as u64
}

/// The number of bytes band `b` occupies in the flat pixel buffer.
pub fn band_pixel_count(b: Band, width: u32) -> (n: u64)
    ensures
        n == band_pixels(b, width as int),
{
    proof {
        lemma_mul_upper_bound(b.rows as int, u32::MAX as int, width as int, u32::MAX as int);
    }
    b.rows as u64 * width as u64
}

impl PixelBounds {
    /// The length of the flat pixel buffer for this raster: one byte per
    /// pixel.
    pub fn pixel_count(&self) -> (n: u64)
        ensures
            n == self.width * self.height,
    {
        proof {
            lemma_mul_upper_bound(
                self.width as int,
                u32::MAX as int,
                self.height as int,
                u32::MAX as int,
            );
        }
        self.width as u64 * self.height as u64
    }
}

} // verus!
