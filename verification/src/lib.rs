//! Verified core of a Mandelbrot-set renderer.
//!
//! The library covers the parts of the renderer that are plain integer and
//! string logic: partitioning the image into horizontal bands that disjointly
//! cover every row, the row-major index arithmetic that lets each band write
//! only into its own region of the shared pixel buffer, the mapping from an
//! escape-time result to a grayscale intensity byte, and the parsing of
//! `WIDTHxHEIGHT`-style pairs from the command line.  The floating-point orbit
//! iteration itself, the thread fan-out and the image encoding live outside
//! the library and consume these verified pieces.

mod bands;
mod intensity;
mod parse;

pub use bands::Band;
pub use bands::PixelBounds;
pub use bands::band_contains;
pub use bands::band_count;
pub use bands::band_layout;
pub use bands::band_offset;
pub use bands::band_pixel_count;
pub use bands::band_pixels;
pub use bands::band_spec;
pub use bands::layout_spec;
pub use bands::lemma_band_pixel_flat_index;
pub use bands::lemma_band_write_position;
pub use bands::lemma_bands_consecutive;
pub use bands::lemma_bands_partition_rows;
pub use bands::lemma_layout_fits_workers;
pub use bands::lemma_layout_total_pixels;
pub use bands::lemma_layout_total_rows;
pub use bands::pixel_index;
pub use bands::rows_per_band;
pub use bands::rows_per_band_spec;
pub use bands::total_pixels;
pub use bands::total_rows;

pub use intensity::band_intensities;
pub use intensity::intensity;
pub use intensity::intensity_spec;

pub use parse::all_digits;
pub use parse::digit_val;
pub use parse::digits_val;
pub use parse::first_sep;
pub use parse::has_sep;
pub use parse::is_digit;
pub use parse::parse_pair;
pub use parse::parse_pair_spec;
pub use parse::parse_u32;
pub use parse::parse_u32_spec;
pub use parse::sep_at;
pub use parse::split_pair;
pub use parse::unsigned_body;
