//! Mapping an escape-time result to a grayscale intensity byte.

use vstd::prelude::*;

verus! {

/// The intensity byte written for one pixel: a point whose orbit never
/// escaped within the iteration limit is drawn black, and a point that
/// escaped at iteration `i` is drawn with brightness `255 - i`, so the
/// fastest-escaping points are the brightest.
pub open spec fn intensity_spec(t: Option<u32>) -> u8
    recommends
        t matches Some(i) ==> i < 256,
{
    match t {
        None => 0,
        Some(i) => (255 - i) as u8,
    }
}

/// Turns the result of the escape-time evaluator into the byte stored in the
/// pixel buffer.  The iteration limit of the renderer is at most 256, so an
/// escape index always fits below 256.
pub fn intensity(t: Option<u32>) -> (b: u8)
    requires
        t matches Some(i) ==> i < 256,
    ensures
        b == intensity_spec(t),
        t is None ==> b == 0,
        t matches Some(i) ==> b == 255 - i,
{
    match t {
        None => 0,
        Some(i) => 255 - (i as u8),
    }
}

/// Maps a band's escape-time results, one per pixel in row-major order, to
/// the bytes the band's worker stores in its region of the pixel buffer.
pub fn band_intensities(counts: &Vec<Option<u32>>) -> (out: Vec<u8>)
    requires
        forall|k: int|
            0 <= k < counts@.len() ==> ((#[trigger] counts@[k]) matches Some(i) ==> i < 256),
    ensures
        out@.len() == counts@.len(),
        forall|k: int| 0 <= k < out@.len() ==> out@[k] == intensity_spec(counts@[k]),
{
    let n: usize = counts.len();
    let mut out: Vec<u8> = Vec::new();
    let mut k: usize = 0;
    while k < n
        invariant
            k <= n,
            n == counts@.len(),
            out@.len() == k,
            forall|j: int|
                0 <= j < counts@.len() ==> ((#[trigger] counts@[j]) matches Some(i) ==> i < 256),
            forall|j: int| 0 <= j < k ==> out@[j] == intensity_spec(counts@[j]),
        decreases n - k,
    {
        out.push(intensity(counts[k]));
        k = k + 1;
    }
    out
}

} // verus!
