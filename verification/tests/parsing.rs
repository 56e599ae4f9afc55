use std::str::FromStr;

use num::Complex;

use mandelbrot::parse_pair;
use mandelbrot::parse_u32;
use mandelbrot::split_pair;

/// Pair parsing for floating-point halves, as the viewport corners need it:
/// the library splits at the separator, std reads each half.
fn parse_pair_f64(s: &str, separator: char) -> Option<(f64, f64)> {
    match split_pair(s, separator) {
        None => None,
        Some((a, b)) => match (f64::from_str(a), f64::from_str(b)) {
            (Ok(x), Ok(y)) => Some((x, y)),
            _ => None,
        },
    }
}

fn parse_complex(s: &str) -> Option<Complex<f64>> {
    match parse_pair_f64(s, ',') {
        Some((re, im)) => Some(Complex { re, im }),
        None => None,
    }
}

#[test]
fn test_parse_pair() {
    assert_eq!(parse_pair("", ','), None);
    assert_eq!(parse_pair("10,", ','), None);
    assert_eq!(parse_pair(",10", ','), None);
    assert_eq!(parse_pair("10,20", ','), Some((10, 20)));
    assert_eq!(parse_pair("10,20xy", ','), None);
    assert_eq!(parse_pair_f64("0.5x", 'x'), None);
    assert_eq!(parse_pair_f64("0.5x1.5", 'x'), Some((0.5, 1.5)));
}

#[test]
fn test_parse_complex() {
    assert_eq!(
        parse_complex("1.25,-0.0625"),
        Some(Complex {
            re: 1.25,
            im: -0.0625
        })
    );
    assert_eq!(parse_complex(",-0.0625"), None);
}

#[test]
fn parse_pair_reads_dimensions() {
    assert_eq!(parse_pair("1000x750", 'x'), Some((1000, 750)));
}

#[test]
fn parse_pair_rejects_malformed() {
    assert_eq!(parse_pair("1000750", 'x'), None);
    assert_eq!(parse_pair("1000x", 'x'), None);
    assert_eq!(parse_pair("x750", 'x'), None);
    assert_eq!(parse_pair("12a0x5", 'x'), None);
    assert_eq!(parse_pair("-3x5", 'x'), None);
}

#[test]
fn parse_pair_splits_at_first_separator() {
    assert_eq!(parse_pair("10x20x30", 'x'), None);
    assert_eq!(split_pair("10x20x30", 'x'), Some(("10", "20x30")));
}

#[test]
fn parse_u32_accepts_plain_decimals() {
    assert_eq!(parse_u32("0"), Some(0));
    assert_eq!(parse_u32("1000"), Some(1000));
    assert_eq!(parse_u32("+10"), Some(10));
    assert_eq!(parse_u32("007"), Some(7));
    assert_eq!(parse_u32("4294967295"), Some(u32::MAX));
}

#[test]
fn parse_u32_rejects_non_decimals() {
    assert_eq!(parse_u32(""), None);
    assert_eq!(parse_u32("+"), None);
    assert_eq!(parse_u32("-1"), None);
    assert_eq!(parse_u32("1.5"), None);
    assert_eq!(parse_u32("12a"), None);
    assert_eq!(parse_u32("4294967296"), None);
    assert_eq!(parse_u32("99999999999999999999"), None);
}

#[test]
fn split_pair_keeps_both_sides() {
    assert_eq!(split_pair("ab,cd", ','), Some(("ab", "cd")));
    assert_eq!(split_pair(",cd", ','), Some(("", "cd")));
    assert_eq!(split_pair("ab,", ','), Some(("ab", "")));
    assert_eq!(split_pair("abcd", ','), None);
}
