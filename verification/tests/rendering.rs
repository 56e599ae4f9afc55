use mandelbrot::band_intensities;
use mandelbrot::band_layout;
use mandelbrot::band_offset;
use mandelbrot::band_pixel_count;
use mandelbrot::intensity;
use mandelbrot::pixel_index;
use mandelbrot::rows_per_band;
use mandelbrot::Band;
use mandelbrot::PixelBounds;

#[test]
fn intensity_of_escape_results() {
    assert_eq!(intensity(None), 0);
    assert_eq!(intensity(Some(0)), 255);
    assert_eq!(intensity(Some(1)), 254);
    assert_eq!(intensity(Some(100)), 155);
    assert_eq!(intensity(Some(254)), 1);
}

#[test]
fn rows_per_band_uses_historical_rounding() {
    assert_eq!(rows_per_band(750, 8), 94);
    assert_eq!(rows_per_band(800, 8), 101);
    assert_eq!(rows_per_band(5, 8), 1);
    assert_eq!(rows_per_band(0, 8), 1);
    assert_eq!(rows_per_band(100, 1), 101);
}

#[test]
fn band_layout_of_a_typical_image() {
    let bounds = PixelBounds {
        width: 1000,
        height: 750,
    };
    let bands = band_layout(bounds, 8);
    assert_eq!(bands.len(), 8);
    for (i, band) in bands.iter().enumerate() {
        assert_eq!(band.top, 94 * i as u32);
        if i < 7 {
            assert_eq!(band.rows, 94);
        } else {
            assert_eq!(band.rows, 92);
        }
    }
}

#[test]
fn band_layout_short_image() {
    let bounds = PixelBounds {
        width: 10,
        height: 5,
    };
    let bands = band_layout(bounds, 8);
    assert_eq!(
        bands,
        vec![
            Band { top: 0, rows: 1 },
            Band { top: 1, rows: 1 },
            Band { top: 2, rows: 1 },
            Band { top: 3, rows: 1 },
            Band { top: 4, rows: 1 },
        ]
    );
}

#[test]
fn band_layout_single_worker_is_one_band() {
    let bounds = PixelBounds {
        width: 40,
        height: 30,
    };
    let bands = band_layout(bounds, 1);
    assert_eq!(bands, vec![Band { top: 0, rows: 30 }]);
}

#[test]
fn band_layout_empty_image() {
    let bounds = PixelBounds {
        width: 100,
        height: 0,
    };
    assert_eq!(band_layout(bounds, 8), vec![]);
}

#[test]
fn bands_cover_each_row_exactly_once() {
    let bounds = PixelBounds {
        width: 1000,
        height: 750,
    };
    let bands = band_layout(bounds, 8);
    for row in 0..bounds.height {
        let holders = bands
            .iter()
            .filter(|b| b.top <= row && row < b.top + b.rows)
            .count();
        assert_eq!(holders, 1);
    }
    let total_rows: u64 = bands.iter().map(|b| b.rows as u64).sum();
    assert_eq!(total_rows, 750);
    let total_pixels: u64 = bands
        .iter()
        .map(|b| band_pixel_count(*b, bounds.width))
        .sum();
    assert_eq!(total_pixels, 1000 * 750);
}

#[test]
fn band_writes_land_on_global_indices() {
    let bounds = PixelBounds {
        width: 10,
        height: 10,
    };
    let bands = band_layout(bounds, 3);
    for band in &bands {
        for r in 0..band.rows {
            for c in 0..bounds.width {
                let local = band_offset(*band, bounds.width) + pixel_index(bounds.width, c, r);
                let global = pixel_index(bounds.width, c, band.top + r);
                assert_eq!(local, global);
            }
        }
    }
}

#[test]
fn layout_never_exceeds_worker_count() {
    for workers in 1..=16u32 {
        for height in [0u32, 1, 5, 99, 100, 101, 750, 1024] {
            let bounds = PixelBounds { width: 10, height };
            assert!(band_layout(bounds, workers).len() as u32 <= workers);
        }
    }
}

/// Rendering as several bands must yield the same bytes as rendering the
/// whole image as one band, given the same per-pixel escape results.
#[test]
fn banded_render_equals_whole_render() {
    let bounds = PixelBounds {
        width: 16,
        height: 11,
    };
    // An arbitrary escape-result grid, one entry per pixel in row-major
    // order, with both escaping and non-escaping pixels.
    let count_at = |row: u32, col: u32| -> Option<u32> {
        if (row + col) % 3 == 0 {
            None
        } else {
            Some((row * 7 + col * 5) % 255)
        }
    };
    let mut whole_counts = Vec::new();
    for row in 0..bounds.height {
        for col in 0..bounds.width {
            whole_counts.push(count_at(row, col));
        }
    }
    let whole = band_intensities(&whole_counts);
    assert_eq!(whole.len(), (bounds.width * bounds.height) as usize);

    for workers in [1, 2, 3, 8] {
        let mut assembled = vec![0u8; whole.len()];
        for band in band_layout(bounds, workers) {
            let mut band_counts = Vec::new();
            for r in 0..band.rows {
                for col in 0..bounds.width {
                    band_counts.push(count_at(band.top + r, col));
                }
            }
            let bytes = band_intensities(&band_counts);
            let start = band_offset(band, bounds.width) as usize;
            assembled[start..start + bytes.len()].copy_from_slice(&bytes);
        }
        assert_eq!(assembled, whole);
    }
}
