//! Parsing separator-joined pairs from command-line arguments.
//!
//! The renderer's command line carries the raster size as `WIDTHxHEIGHT` and
//! each viewport corner as `RE,IM`.  Splitting such a string at the first
//! occurrence of its separator, and reading an unsigned decimal number, are
//! verified here.

use vstd::prelude::*;
use vstd::string::StrSliceExecFns;

verus! {

/// `c` is an ASCII decimal digit.
pub open spec fn is_digit(c: char) -> bool {
    48 <= c as u32 <= 57
}

/// The numeric value of the digit `c`.
pub open spec fn digit_val(c: char) -> int
    recommends
        is_digit(c),
{
    c as u32 - 48
}

/// The numeric value of a string of decimal digits, most significant digit
/// first.
pub open spec fn digits_val(s: Seq<char>) -> int
    decreases s.len(),
{
    if s.len() == 0 {
        0
    } else {
        digits_val(s.drop_last()) * 10 + digit_val(s.last())
    }
}

/// Every character of `s` is a decimal digit.
pub open spec fn all_digits(s: Seq<char>) -> bool {
    forall|i: int| 0 <= i < s.len() ==> is_digit(#[trigger] s[i])
}

/// The digit part of an unsigned decimal literal: an optional leading `+`
/// sign is dropped.
pub open spec fn unsigned_body(s: Seq<char>) -> Seq<char> {
    if s.len() > 0 && s[0] == '+' {
        s.subrange(1, s.len() as int)
    } else {
        s
    }
}

/// What parsing an unsigned 32-bit decimal yields: a value exactly for an
/// optional `+` sign followed by one or more decimal digits whose value fits
/// in 32 bits, and nothing for anything else.
pub open spec fn parse_u32_spec(s: Seq<char>) -> Option<u32> {
    let body = unsigned_body(s);
    if body.len() > 0 && all_digits(body) && digits_val(body) <= u32::MAX {
        Some(digits_val(body) as u32)
    } else {
        None
    }
}

/// A string of digits has a non-negative value.
proof fn lemma_digits_val_nonneg(s: Seq<char>)
    requires
        all_digits(s),
    ensures
        digits_val(s) >= 0,
    decreases s.len(),
{
    if s.len() > 0 {
        lemma_digits_val_nonneg(s.drop_last());
    }
}

/// Appending a digit multiplies the value by ten and adds the digit.
proof fn lemma_digits_val_push(s: Seq<char>, c: char)
    ensures
        digits_val(s.push(c)) == digits_val(s) * 10 + digit_val(c),
{
    assert(s.push(c).drop_last() =~= s);
    assert(s.push(c).last() == c);
}

/// Parses an unsigned decimal number, as the renderer reads a raster
/// dimension: `Some` exactly when the whole string is an optional `+` sign
/// followed by decimal digits and the value fits in 32 bits.
pub fn parse_u32(s: &str) -> (r: Option<u32>)
    ensures
        r == parse_u32_spec(s@),
{
    let n: usize = s.unicode_len();
    let start: usize = if n > 0 && s.get_char(0) == '+' {
        1
    } else {
        0
    };
    let ghost body = unsigned_body(s@);
    proof {
        assert(body =~= s@.subrange(start as int, n as int));
    }
    if n == start {
        return None;
    }
    let mut i: usize = start;
    let mut acc: u64 = 0;
    let mut over: bool = false;
    while i < n
        invariant
            start <= i <= n,
            n == s@.len(),
            body == unsigned_body(s@),
            body == s@.subrange(start as int, n as int),
            all_digits(s@.subrange(start as int, i as int)),
            !over ==> acc == digits_val(s@.subrange(start as int, i as int)) && acc <= u32::MAX,
            over ==> digits_val(s@.subrange(start as int, i as int)) > u32::MAX,
        decreases n - i,
    {
        let ghost prefix = s@.subrange(start as int, i as int);
        let c = s.get_char(i);
        let cv = c as u32;
        if cv < 48 || cv > 57 {
            proof {
                assert(body[i - start] == c);
            }
            return None;
        }
        proof {
            lemma_digits_val_push(prefix, c);
            assert(s@.subrange(start as int, i + 1 as int) =~= prefix.push(c));
            if over {
                lemma_digits_val_nonneg(prefix);
            }
        }
        if !over {
            let next: u64 = acc * 10 + (cv - 48) as u64;
            if next > 0xFFFF_FFFF {
                over = true;
            } else {
                acc = next;
            }
        }
        i = i + 1;
    }
    proof {
        assert(s@.subrange(start as int, i as int) == body);
    }
    if over {
        None
    } else {
        Some(acc as u32)
    }
}

/// `i` is the position of the first occurrence of `sep` in `s`.
pub open spec fn sep_at(s: Seq<char>, sep: char, i: int) -> bool {
    0 <= i < s.len() && s[i] == sep && (forall|j: int| 0 <= j < i ==> s[j] != sep)
}

/// `sep` occurs somewhere in `s`.
pub open spec fn has_sep(s: Seq<char>, sep: char) -> bool {
    exists|i: int| sep_at(s, sep, i)
}

/// The position of the first occurrence of `sep` in `s`.
pub open spec fn first_sep(s: Seq<char>, sep: char) -> int
    recommends
        has_sep(s, sep),
{
    choose|i: int| sep_at(s, sep, i)
}

/// Splits `s` at the first occurrence of `separator`: the text before the
/// separator and the text after it, neither including the separator itself.
/// `None` exactly when the separator does not occur in `s`.
pub fn split_pair<'a>(s: &'a str, separator: char) -> (r: Option<(&'a str, &'a str)>)
    ensures
        r is Some <==> has_sep(s@, separator),
        r matches Some(p) ==> p.0@ == s@.subrange(0, first_sep(s@, separator)) && p.1@
            == s@.subrange(first_sep(s@, separator) + 1, s@.len() as int),
{
    let n: usize = s.unicode_len();
    let mut i: usize = 0;
    while i < n
        invariant
            i <= n,
            n == s@.len(),
            forall|j: int| 0 <= j < i ==> s@[j] != separator,
        decreases n - i,
    {
        if s.get_char(i) == separator {
            proof {
                assert(sep_at(s@, separator, i as int));
                let w = first_sep(s@, separator);
                assert(sep_at(s@, separator, w));
                if w != i as int {
                    assert(s@[if w < i as int {
                        w
                    } else {
                        i as int
                    }] != separator);
                }
            }
            let left = s.substring_char(0, i);
            let right = s.substring_char(i + 1, n);
            return Some((left, right));
        }
        i = i + 1;
    }
    proof {
        if has_sep(s@, separator) {
            let w = first_sep(s@, separator);
            assert(sep_at(s@, separator, w));
        }
    }
    None
}

/// What parsing a separator-joined pair of unsigned decimals yields: both
/// sides of the first separator must parse, and their values are returned in
/// order.
pub open spec fn parse_pair_spec(s: Seq<char>, sep: char) -> Option<(u32, u32)> {
    if has_sep(s, sep) {
        let i = first_sep(s, sep);
        match (parse_u32_spec(s.subrange(0, i)), parse_u32_spec(s.subrange(i + 1, s.len() as int))) {
            (Some(a), Some(b)) => Some((a, b)),
            _ => None,
        }
    } else {
        None
    }
}

/// Parses a string such as `1000x750` into the pair `(1000, 750)`: the text
/// before and after the first `separator` must each be an unsigned decimal
/// number.  Returns `None` when the separator is missing or either side is
/// not such a number.
pub fn parse_pair(s: &str, separator: char) -> (r: Option<(u32, u32)>)
    ensures
        r == parse_pair_spec(s@, separator),
{
    match split_pair(s, separator) {
        None => None,
        Some((left, right)) => match (parse_u32(left), parse_u32(right)) {
            (Some(a), Some(b)) => Some((a, b)),
            _ => None,
        },
    }
}

} // verus!
