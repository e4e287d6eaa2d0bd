//! The colour model: RGBA with 8-bit channels, CSS colour parsing (through
//! an outside parser), and linear interpolation between two colours for the
//! column gradient.

use vstd::prelude::*;
use crate::error::Error;
use crate::text::{lower_seq, trim_seq, count_char, find_char, eq_ignore_ascii_case, trim,
    scan_char, lemma_find_in_range};

verus! {

use vstd::arithmetic::div_mod::{lemma_div_pos_is_pos, lemma_div_is_ordered,
    lemma_div_multiples_vanish};

/// A four-channel colour, each channel 0..=255. Fully transparent is
/// `(0, 0, 0, 0)`.
#[derive(Debug, Clone, Copy, PartialEq, Eq, Structural)]
pub struct Rgba8 {
    pub r: u8,
    pub g: u8,
    pub b: u8,
    pub a: u8,
}

pub open spec fn transparent() -> Rgba8 {
    Rgba8 { r: 0, g: 0, b: 0, a: 0 }
}

/// What the CSS parser makes of a colour literal: the channels scaled to
/// 0..=255, or nothing when the literal is not recognised.
pub uninterp spec fn css_rgba8_of(s: Seq<char>) -> Option<Rgba8>;

/// Relies on csscolorparser::parse and Color::to_rgba8: recognises CSS
/// colour literals (hex, named, rgb(), hsl(), ...) and scales the four
/// channels to bytes. The result depends on the characters alone.
#[verifier::external_body]
fn parse_css_color(s: &str) -> (r: Option<Rgba8>)
    ensures
        r == css_rgba8_of(s@),
{
    match csscolorparser::parse(s) {
        Ok(c) => {
            let [r, g, b, a] = c.to_rgba8();
            Some(Rgba8 { r, g, b, a })
        },
        Err(_) => None,
    }
}

/// What `parse_color` returns for a given literal.
pub open spec fn parse_color_spec(s: Seq<char>) -> Result<Rgba8, Error> {
    if lower_seq(s) == "transparent"@ {
        Ok(transparent())
    } else {
        match css_rgba8_of(s) {
            Some(c) => Ok(c),
            None => Err(Error::InvalidColor),
        }
    }
}

/// Parses a colour literal. The string "transparent" (any ASCII case)
/// yields the fully transparent colour; everything else goes to the CSS
/// parser.
pub fn parse_color(s: &str) -> (r: Result<Rgba8, Error>)
    ensures
        r == parse_color_spec(s@),
{
    if eq_ignore_ascii_case(s, "transparent") {
        proof {
            lemma_lower_transparent();
        }
        Ok(Rgba8 { r: 0, g: 0, b: 0, a: 0 })
    } else {
        proof {
            lemma_lower_transparent();
        }
        match parse_css_color(s) {
            Some(c) => Ok(c),
            None => Err(Error::InvalidColor),
        }
    }
}

proof fn lemma_lower_transparent()
    ensures
        lower_seq("transparent"@) == "transparent"@,
{
    reveal_strlit("transparent");
    assert(lower_seq("transparent"@) =~= "transparent"@);
}

/// What `parse_color_from_hex` returns: the CSS parse alone, without the
/// "transparent" sentinel.
pub open spec fn parse_hex_spec(s: Seq<char>) -> Result<Rgba8, Error> {
    match css_rgba8_of(s) {
        Some(c) => Ok(c),
        None => Err(Error::InvalidColor),
    }
}

/// Parses one gradient stop: a CSS colour literal.
pub fn parse_color_from_hex(s: &str) -> (r: Result<Rgba8, Error>)
    ensures
        r == parse_hex_spec(s@),
{
    match parse_css_color(s) {
        Some(c) => Ok(c),
        None => Err(Error::InvalidColor),
    }
}

/// What `parse_gradient` returns: the input must hold exactly one comma;
/// both halves are trimmed and parsed as CSS colours.
pub open spec fn parse_gradient_spec(s: Seq<char>) -> Result<(Rgba8, Rgba8), Error> {
    if count_char(s, ',') != 1 {
        Err(Error::InvalidGradient)
    } else {
        let idx = find_char(s, ',');
        let p1 = trim_seq(s.subrange(0, idx));
        let p2 = trim_seq(s.subrange(idx + 1, s.len() as int));
        match parse_hex_spec(p1) {
            Ok(c1) => match parse_hex_spec(p2) {
                Ok(c2) => Ok((c1, c2)),
                Err(e) => Err(e),
            },
            Err(e) => Err(e),
        }
    }
}

/// Splits a gradient literal at its single comma and parses both colours.
pub fn parse_gradient(s: &str) -> (r: Result<(Rgba8, Rgba8), Error>)
    ensures
        r == parse_gradient_spec(s@),
{
    let len = s.unicode_len();
    let (count, first) = scan_char(s, ',');
    if count != 1 {
        return Err(Error::InvalidGradient);
    }
    assert(find_char(s@, ',') < s@.len()) by {
        lemma_find_in_range(s@, ',');
    }
    let left = s.substring_char(0, first);
    let right = s.substring_char(first + 1, len);
    let c1 = match parse_color_from_hex(trim(left)) {
        Ok(c) => c,
        Err(e) => {
            return Err(e);
        },
    };
    let c2 = match parse_color_from_hex(trim(right)) {
        Ok(c) => c,
        Err(e) => {
            return Err(e);
        },
    };
    Ok((c1, c2))
}

/// One channel of the interpolation at the rational point num/den, with the
/// quotient truncated: `(c0 * den + (c1 - c0) * num) / den`.
pub open spec fn lerp_channel(c0: int, c1: int, num: int, den: int) -> int {
    (c0 * den + (c1 - c0) * num) / den
}

/// The interpolated colour: each RGB channel interpolated, alpha forced to
/// 255 (gradients are always opaque).
pub open spec fn lerp_spec(c0: Rgba8, c1: Rgba8, num: int, den: int) -> Rgba8 {
    Rgba8 {
        r: lerp_channel(c0.r as int, c1.r as int, num, den) as u8,
        g: lerp_channel(c0.g as int, c1.g as int, num, den) as u8,
        b: lerp_channel(c0.b as int, c1.b as int, num, den) as u8,
        a: 255,
    }
}

proof fn lemma_lerp_channel_bounds(c0: int, c1: int, num: int, den: int)
    requires
        0 <= c0 <= 255,
        0 <= c1 <= 255,
        0 <= num <= den,
        0 < den,
    ensures
        0 <= c0 * den + (c1 - c0) * num <= 255 * den,
        0 <= lerp_channel(c0, c1, num, den) <= 255,
{
    assert(0 <= c0 * den + (c1 - c0) * num <= 255 * den) by (nonlinear_arith)
        requires
            0 <= c0 <= 255,
            0 <= c1 <= 255,
            0 <= num <= den,
            0 < den,
    ;
    let numer = c0 * den + (c1 - c0) * num;
    lemma_div_pos_is_pos(numer, den);
    lemma_div_is_ordered(numer, 255 * den, den);
    lemma_div_multiples_vanish(255, den);
    assert(den * 255 == 255 * den);
}

fn lerp_channel_exec(c0: u8, c1: u8, num: u32, den: u32) -> (r: u8)
    requires
        num <= den,
        0 < den,
    ensures
        r as int == lerp_channel(c0 as int, c1 as int, num as int, den as int),
{
    proof {
        lemma_lerp_channel_bounds(c0 as int, c1 as int, num as int, den as int);
        assert(0 <= (c0 as int) * (den as int) <= 255 * 0xffff_ffff) by (nonlinear_arith)
            requires
                0 <= c0 <= 255,
                0 < den <= 0xffff_ffff,
        ;
        assert(-(255 * 0xffff_ffff) <= ((c1 as int) - (c0 as int)) * (num as int) <= 255
            * 0xffff_ffff) by (nonlinear_arith)
            requires
                0 <= c0 <= 255,
                0 <= c1 <= 255,
                0 <= num <= 0xffff_ffff,
        ;
    }
    let numer: i64 = (c0 as i64) * (den as i64) + ((c1 as i64) - (c0 as i64)) * (num as i64);
    let q: u64 = (numer as u64) / (den as u64);
    q as u8
}

/// Component-wise linear interpolation of the RGB channels at the point
/// `num / den`; alpha is forced to 255. The quotient is truncated.
pub fn interpolate_gradient(colors: &(Rgba8, Rgba8), num: u32, den: u32) -> (r: Rgba8)
    requires
        num <= den,
        0 < den,
    ensures
        r == lerp_spec(colors.0, colors.1, num as int, den as int),
{
    let (c0, c1) = *colors;
    Rgba8 {
        r: lerp_channel_exec(c0.r, c1.r, num, den),
        g: lerp_channel_exec(c0.g, c1.g, num, den),
        b: lerp_channel_exec(c0.b, c1.b, num, den),
        a: 255,
    }
}

/// Interpolation is endpoint-exact: at `num = 0` the RGB channels are those
/// of the first colour, at `num = den` those of the second.
pub proof fn lemma_lerp_endpoints(c0: Rgba8, c1: Rgba8, den: int)
    requires
        0 < den,
    ensures
        lerp_spec(c0, c1, 0, den).r == c0.r,
        lerp_spec(c0, c1, 0, den).g == c0.g,
        lerp_spec(c0, c1, 0, den).b == c0.b,
        lerp_spec(c0, c1, den, den).r == c1.r,
        lerp_spec(c0, c1, den, den).g == c1.g,
        lerp_spec(c0, c1, den, den).b == c1.b,
{
    lemma_lerp_endpoint_channel(c0.r as int, c1.r as int, den);
    lemma_lerp_endpoint_channel(c0.g as int, c1.g as int, den);
    lemma_lerp_endpoint_channel(c0.b as int, c1.b as int, den);
}

proof fn lemma_lerp_endpoint_channel(c0: int, c1: int, den: int)
    requires
        0 <= c0 <= 255,
        0 <= c1 <= 255,
        0 < den,
    ensures
        lerp_channel(c0, c1, 0, den) == c0,
        lerp_channel(c0, c1, den, den) == c1,
{
    assert(c0 * den + (c1 - c0) * 0 == den * c0) by (nonlinear_arith);
    lemma_div_multiples_vanish(c0, den);
    assert(c0 * den + (c1 - c0) * den == den * c1) by (nonlinear_arith);
    lemma_div_multiples_vanish(c1, den);
}

} // verus!
