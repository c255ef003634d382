//! Validation at the control boundary. The two controls report raw string
//! values; these are checked and clamped here before they may reach the
//! surface's paint attributes, so no malformed value corrupts them.

use vstd::prelude::*;

use crate::codec::spec_hex_val;

verus! {

/// Whether a byte is a decimal ASCII digit.
pub open spec fn spec_is_digit(b: u8) -> bool {
    48 <= b && b <= 57
}

/// A width clamped into the control's valid range.
pub open spec fn spec_clamp_width(v: int) -> u32 {
    if v < 1 {
        1
    } else if v > 10 {
        10
    } else {
        v as u32
    }
}

/// The validated stroke width a range control's raw value stands for. The
/// control reports an integer in its one- or two-digit range; any other
/// shape is malformed and yields `None`, and the numeric value is clamped
/// into the valid range.
pub open spec fn spec_parse_width(s: Seq<u8>) -> Option<u32> {
    if s.len() == 1 && spec_is_digit(s[0]) {
        Some(spec_clamp_width(s[0] - 48))
    } else if s.len() == 2 && spec_is_digit(s[0]) && spec_is_digit(s[1]) {
        Some(spec_clamp_width((s[0] - 48) * 10 + (s[1] - 48)))
    } else {
        None
    }
}

/// The validated stroke color a color control's raw value stands for: a
/// `#` followed by six hexadecimal digits, read as a 24-bit value; any
/// other shape is malformed and yields `None`.
pub open spec fn spec_parse_color(s: Seq<u8>) -> Option<u32> {
    if s.len() == 7 && s[0] == 35 && (forall|i: int| 1 <= i < 7 ==> spec_hex_val(s[i]) is Some) {
        Some(
            spec_hex_val(s[1])->0 << 20 | spec_hex_val(s[2])->0 << 16 | spec_hex_val(s[3])->0 << 12
                | spec_hex_val(s[4])->0 << 8 | spec_hex_val(s[5])->0 << 4 | spec_hex_val(s[6])->0,
        )
    } else {
        None
    }
}

/// Parses and clamps a range control's raw value. A parsed width always
/// lies in the valid range, so it meets the surface's guard.
pub fn parse_width(s: &Vec<u8>) -> (r: Option<u32>)
    ensures
        r == spec_parse_width(s@),
        r matches Some(w) ==> 1 <= w <= 10,
{
    if s.len() == 1 {
        let b = s[0];
        if 48 <= b && b <= 57 {
            Some(clamp_width((b - 48) as u32))
        } else {
            None
        }
    } else if s.len() == 2 {
        let b0 = s[0];
        let b1 = s[1];
        if 48 <= b0 && b0 <= 57 && 48 <= b1 && b1 <= 57 {
            Some(clamp_width(((b0 - 48) as u32) * 10 + ((b1 - 48) as u32)))
        } else {
            None
        }
    } else {
        None
    }
}

/// Clamps a numeric width into the control's valid range.
fn clamp_width(v: u32) -> (r: u32)
    ensures
        r == spec_clamp_width(v as int),
{
    if v < 1 {
        1
    } else if v > 10 {
        10
    } else {
        v
    }
}

/// The value of a hexadecimal ASCII digit, or `None`.
fn hex_val(b: u8) -> (r: Option<u32>)
    ensures
        r == spec_hex_val(b),
{
    if 48 <= b && b <= 57 {
        Some((b - 48) as u32)
    } else if 97 <= b && b <= 102 {
        Some((b - 87) as u32)
    } else if 65 <= b && b <= 70 {
        Some((b - 55) as u32)
    } else {
        None
    }
}

/// Parses a color control's raw value into a 24-bit color.
pub fn parse_color(s: &Vec<u8>) -> (r: Option<u32>)
    ensures
        r == spec_parse_color(s@),
{
    if s.len() != 7 {
        return None;
    }
    if s[0] != 35 {
        return None;
    }
    let v1 = hex_val(s[1]);
    let v2 = hex_val(s[2]);
    let v3 = hex_val(s[3]);
    let v4 = hex_val(s[4]);
    let v5 = hex_val(s[5]);
    let v6 = hex_val(s[6]);
    match (v1, v2, v3, v4, v5, v6) {
        (Some(d1), Some(d2), Some(d3), Some(d4), Some(d5), Some(d6)) => Some(
            d1 << 20 | d2 << 16 | d3 << 12 | d4 << 8 | d5 << 4 | d6,
        ),
        _ => None,
    }
}

} // verus!
