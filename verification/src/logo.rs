//! The logo compositor: scales a raster logo to a clamped fraction of the
//! canvas, preserving aspect ratio, and composites it centred with
//! source-over alpha blending. The resampling itself is done by an outside
//! filter; everything around it — target size, placement, blending — is
//! verified.

use vstd::prelude::*;
use crate::canvas::Canvas;
use crate::color::Rgba8;

verus! {

use vstd::arithmetic::div_mod::{lemma_div_pos_is_pos, lemma_div_is_ordered,
    lemma_div_multiples_vanish, lemma_fundamental_div_mod, lemma_mod_division_less_than_divisor};

/// The logo fraction of the canvas side, clamped to 10%..=40% (stated in
/// thousandths).
pub open spec fn clamp_permille(p: int) -> int {
    if p < 100 {
        100
    } else if p > 400 {
        400
    } else {
        p
    }
}

/// The longest side the scaled logo may have on a canvas of the given size.
pub open spec fn max_side_spec(size: int, permille: int) -> int {
    size * clamp_permille(permille) / 1000
}

/// The scaled logo dimensions: the longer side becomes `max`, the shorter
/// one is reduced in proportion, rounded down.
pub open spec fn logo_dims_spec(w: int, h: int, max: int) -> (int, int) {
    if w > h {
        (max, h * max / w)
    } else {
        (w * max / h, max)
    }
}

/// What the Lanczos-3 resampler produces: a nw x nh row-major grid computed
/// from the source grid alone.
pub uninterp spec fn lanczos_rgba(pixels: Seq<Rgba8>, w: int, h: int, nw: int, nh: int) -> Seq<
    Rgba8,
>;

/// Relies on image::imageops::resize with FilterType::Lanczos3: returns an
/// image of exactly the requested dimensions, a function of the source
/// pixels alone.
#[verifier::external_body]
fn resize_lanczos(pixels: &Vec<Rgba8>, w: u32, h: u32, nw: u32, nh: u32) -> (r: Vec<Rgba8>)
    requires
        pixels@.len() == (w as int) * (h as int),
        w > 0,
        h > 0,
        nw > 0,
        nh > 0,
        (nw as int) * (nh as int) * 4 <= usize::MAX,
    ensures
        r@ == lanczos_rgba(pixels@, w as int, h as int, nw as int, nh as int),
        r@.len() == (nw as int) * (nh as int),
{
    let mut raw: Vec<u8> = Vec::with_capacity(pixels.len() * 4);
    for p in pixels.iter() {
        raw.extend_from_slice(&[p.r, p.g, p.b, p.a]);
    }
    let img = image::RgbaImage::from_raw(w, h, raw).unwrap();
    let out = image::imageops::resize(&img, nw, nh, image::imageops::FilterType::Lanczos3);
    out.pixels().map(|p| Rgba8 { r: p.0[0], g: p.0[1], b: p.0[2], a: p.0[3] }).collect()
}

/// One channel of source-over compositing on bytes, quotient truncated.
pub open spec fn blend_channel(dc: int, sc: int, sa: int) -> int {
    (sc * sa + dc * (255 - sa)) / 255
}

/// Source-over alpha blending of `src` onto `dst`.
pub open spec fn blend_spec(dst: Rgba8, src: Rgba8) -> Rgba8 {
    Rgba8 {
        r: blend_channel(dst.r as int, src.r as int, src.a as int) as u8,
        g: blend_channel(dst.g as int, src.g as int, src.a as int) as u8,
        b: blend_channel(dst.b as int, src.b as int, src.a as int) as u8,
        a: (src.a as int + (dst.a as int) * (255 - src.a as int) / 255) as u8,
    }
}

proof fn lemma_blend_channel_bounds(dc: int, sc: int, sa: int)
    requires
        0 <= dc <= 255,
        0 <= sc <= 255,
        0 <= sa <= 255,
    ensures
        0 <= sc * sa + dc * (255 - sa) <= 255 * 255,
        0 <= blend_channel(dc, sc, sa) <= 255,
{
    assert(0 <= sc * sa + dc * (255 - sa) <= 255 * 255) by (nonlinear_arith)
        requires
            0 <= dc <= 255,
            0 <= sc <= 255,
            0 <= sa <= 255,
    ;
    let numer = sc * sa + dc * (255 - sa);
    lemma_div_pos_is_pos(numer, 255);
    lemma_div_is_ordered(numer, (255 * 255) as int, 255);
}

fn blend_exec(dst: Rgba8, src: Rgba8) -> (r: Rgba8)
    ensures
        r == blend_spec(dst, src),
{
    proof {
        lemma_blend_channel_bounds(dst.r as int, src.r as int, src.a as int);
        lemma_blend_channel_bounds(dst.g as int, src.g as int, src.a as int);
        lemma_blend_channel_bounds(dst.b as int, src.b as int, src.a as int);
        lemma_blend_channel_bounds(dst.a as int, 255, src.a as int);
        lemma_div_pos_is_pos((dst.a as int) * (255 - src.a as int), 255);
        lemma_div_is_ordered((dst.a as int) * (255 - src.a as int), 255 * (255 - src.a as int),
            255);
        assert((dst.a as int) * (255 - src.a as int) <= 255 * (255 - src.a as int)) by (
        nonlinear_arith)
            requires
                0 <= dst.a <= 255,
                0 <= src.a <= 255,
        ;
        assert(255 * (255 - src.a as int) == (255 - src.a as int) * 255) by (nonlinear_arith);
        lemma_div_multiples_vanish(255 - src.a as int, 255);
        assert((255 - src.a as int) * 255 / 255 == 255 * (255 - src.a as int) / 255);
    }
    let sa: u32 = src.a as u32;
    let r8: u32 = ((src.r as u32) * sa + (dst.r as u32) * (255 - sa)) / 255;
    let g8: u32 = ((src.g as u32) * sa + (dst.g as u32) * (255 - sa)) / 255;
    let b8: u32 = ((src.b as u32) * sa + (dst.b as u32) * (255 - sa)) / 255;
    let a8: u32 = sa + (dst.a as u32) * (255 - sa) / 255;
    Rgba8 { r: r8 as u8, g: g8 as u8, b: b8 as u8, a: a8 as u8 }
}

/// The colour of canvas pixel (i, j) after the overlay step, given its
/// colour before: inside the centred logo box it is blended with the
/// resampled logo, everywhere else it is untouched.
pub open spec fn overlay_pixel(base: Rgba8, logo: Canvas, size: int, permille: int, i: int,
    j: int) -> Rgba8 {
    let w = logo.width as int;
    let h = logo.height as int;
    if w <= 0 || h <= 0 {
        base
    } else {
        let max = max_side_spec(size, permille);
        let dims = logo_dims_spec(w, h, max);
        let nw = dims.0;
        let nh = dims.1;
        if nw <= 0 || nh <= 0 || nw * nh * 4 > usize::MAX {
            base
        } else {
            let ox = (size - nw) / 2;
            let oy = (size - nh) / 2;
            if ox <= i < ox + nw && oy <= j < oy + nh {
                blend_spec(base, lanczos_rgba(logo.pixels@, w, h, nw, nh)[(j - oy) * nw + (i
                    - ox)])
            } else {
                base
            }
        }
    }
}

/// As `overlay_pixel`, but only for the logo-box pixels processed so far:
/// full rows before `ly`, and in row `ly` the pixels before `lx`.
spec fn overlaid_upto(prev: Canvas, cur: Canvas, logo: Canvas, size: int, permille: int,
    ox: int, oy: int, nw: int, nh: int, ly: int, lx: int) -> bool {
    &&& cur.wf()
    &&& cur.same_dims(prev)
    &&& forall|i: int, j: int|
        cur.in_bounds(i, j) ==> cur.pixel(i, j) == (if ox <= i < ox + nw && oy <= j < oy + nh
            && (j - oy < ly || (j - oy == ly && i - ox < lx)) {
            overlay_pixel(prev.pixel(i, j), logo, size, permille, i, j)
        } else {
            prev.pixel(i, j)
        })
}

proof fn lemma_max_side_le(size: int, c: int)
    requires
        0 <= size < 0x1_0000_0000,
        100 <= c <= 400,
    ensures
        0 <= size * c,
        size * c <= 0xffff_ffff * 400,
        0 <= size * c / 1000 <= size,
        size * c / 1000 <= 0x6666_6666,
{
    assert(0 <= size * c <= 0xffff_ffff * 400 && size * c <= size * 1000) by (nonlinear_arith)
        requires
            0 <= size < 0x1_0000_0000,
            100 <= c <= 400,
    ;
    lemma_div_pos_is_pos(size * c, 1000);
    lemma_div_is_ordered(size * c, size * 1000, 1000);
    lemma_div_multiples_vanish(size, 1000);
    assert(size * 1000 == 1000 * size);
    lemma_div_is_ordered(size * c, (0xffff_ffff * 400) as int, 1000);
}

proof fn lemma_short_side_le(short: int, long: int, max: int)
    requires
        0 <= short <= long,
        0 < long,
        0 <= max,
    ensures
        0 <= short * max / long <= max,
{
    assert(0 <= short * max <= long * max) by (nonlinear_arith)
        requires
            0 <= short <= long,
            0 <= max,
    ;
    lemma_div_pos_is_pos(short * max, long);
    lemma_div_is_ordered(short * max, long * max, long);
    lemma_div_multiples_vanish(max, long);
    assert(long * max == max * long) by (nonlinear_arith);
}

/// Scales the logo to fit the clamped fraction of the canvas and
/// composites it centred, source-over. Pixels outside the logo box keep
/// their colour. A logo or target with an empty side leaves the canvas
/// untouched.
pub fn add_logo(img: &mut Canvas, logo: &Canvas, ratio_permille: u32)
    requires
        old(img).wf(),
        logo.wf(),
        old(img).width == old(img).height,
    ensures
        final(img).wf(),
        final(img).same_dims(*old(img)),
        forall|i: int, j: int|
            final(img).in_bounds(i, j) ==> final(img).pixel(i, j) == overlay_pixel(
                old(img).pixel(i, j), *logo, old(img).width as int, ratio_permille as int, i, j),
{
    let size = img.get_width();
    let lw = logo.get_width();
    let lh = logo.get_height();
    if lw == 0 || lh == 0 {
        return ;
    }
    let mut c: u32 = ratio_permille;
    if c < 100 {
        c = 100;
    }
    if c > 400 {
        c = 400;
    }
    proof {
        lemma_max_side_le(size as int, c as int);
    }
    let max_side: u32 = ((size as u64) * (c as u64) / 1000) as u32;
    assert(max_side as int == max_side_spec(size as int, ratio_permille as int));
    proof {
        assert(0 <= (lh as int) * (max_side as int) <= 0xffff_ffff * 0xffff_ffff && 0 <= (
        lw as int) * (max_side as int) <= 0xffff_ffff * 0xffff_ffff) by (nonlinear_arith)
            requires
                0 <= lh <= 0xffff_ffff,
                0 <= lw <= 0xffff_ffff,
                0 <= max_side <= 0xffff_ffff,
        ;
    }
    let (nw, nh): (u32, u32) = if lw > lh {
        proof {
            lemma_short_side_le(lh as int, lw as int, max_side as int);
        }
        (max_side, ((lh as u64) * (max_side as u64) / (lw as u64)) as u32)
    } else {
        proof {
            lemma_short_side_le(lw as int, lh as int, max_side as int);
        }
        (((lw as u64) * (max_side as u64) / (lh as u64)) as u32, max_side)
    };
    assert((nw as int, nh as int) == logo_dims_spec(lw as int, lh as int, max_side as int));
    if nw == 0 || nh == 0 {
        return ;
    }
    proof {
        assert(0 <= (nw as int) * (nh as int) && (nw as int) * (nh as int) * 4 <= 0x6666_6666
            * 0x6666_6666 * 4) by (nonlinear_arith)
            requires
                0 < nw <= 0x6666_6666,
                0 < nh <= 0x6666_6666,
        ;
    }
    let total4: u64 = (nw as u64) * (nh as u64) * 4;
    if total4 > usize::MAX as u64 {
        return ;
    }
    let resized = resize_lanczos(&logo.pixels, lw, lh, nw, nh);
    let rlen: usize = resized.len();
    let ox = (size - nw) / 2;
    let oy = (size - nh) / 2;
    proof {
        assert(ox + nw <= size && oy + nh <= size) by {
            assert((size - nw) as int / 2 <= (size - nw) as int && (size - nh) as int / 2 <= (
            size - nh) as int) by (nonlinear_arith)
                requires
                    nw <= size,
                    nh <= size,
            ;
        }
    }
    let ghost prev = *img;
    let mut ly: u32 = 0;
    while ly < nh
        invariant
            img.wf(),
            logo.wf(),
            ly <= nh,
            0 < nw <= max_side,
            0 < nh <= max_side,
            lw > 0,
            lh > 0,
            prev.width == size,
            prev.height == size,
            ox + nw <= size,
            oy + nh <= size,
            resized@.len() == (nw as int) * (nh as int),
            rlen as int == (nw as int) * (nh as int),
            resized@ == lanczos_rgba(logo.pixels@, lw as int, lh as int, nw as int, nh as int),
            logo.width == lw,
            logo.height == lh,
            max_side as int == max_side_spec(size as int, ratio_permille as int),
            (nw as int, nh as int) == logo_dims_spec(lw as int, lh as int, max_side as int),
            (nw as int) * (nh as int) * 4 <= usize::MAX,
            ox as int == (size as int - nw as int) / 2,
            oy as int == (size as int - nh as int) / 2,
            overlaid_upto(prev, *img, *logo, size as int, ratio_permille as int, ox as int,
                oy as int, nw as int, nh as int, ly as int, 0),
        decreases nh - ly,
    {
        let mut lx: u32 = 0;
        while lx < nw
            invariant
                img.wf(),
                logo.wf(),
                lx <= nw,
                ly < nh,
                0 < nw <= max_side,
                0 < nh <= max_side,
                lw > 0,
                lh > 0,
                prev.width == size,
                prev.height == size,
                ox + nw <= size,
                oy + nh <= size,
                resized@.len() == (nw as int) * (nh as int),
                rlen as int == (nw as int) * (nh as int),
                resized@ == lanczos_rgba(logo.pixels@, lw as int, lh as int, nw as int,
                    nh as int),
                logo.width == lw,
                logo.height == lh,
                max_side as int == max_side_spec(size as int, ratio_permille as int),
                (nw as int, nh as int) == logo_dims_spec(lw as int, lh as int,
                    max_side as int),
                (nw as int) * (nh as int) * 4 <= usize::MAX,
                ox as int == (size as int - nw as int) / 2,
                oy as int == (size as int - nh as int) / 2,
                overlaid_upto(prev, *img, *logo, size as int, ratio_permille as int, ox as int,
                    oy as int, nw as int, nh as int, ly as int, lx as int),
            decreases nw - lx,
        {
            proof {
                assert((ly as int) * (nw as int) + lx < (nw as int) * (nh as int) && 0 <= (
                ly as int) * (nw as int) + lx) by (nonlinear_arith)
                    requires
                        0 <= lx < nw,
                        0 <= ly < nh,
                ;
            }
            assert((ly as int) * (nw as int) + (lx as int) < rlen);
            let idx: usize = (ly as usize) * (nw as usize) + (lx as usize);
            let src = resized[idx];
            let px = ox + lx;
            let py = oy + ly;
            let base = img.get_pixel(px, py);
            let blended = blend_exec(base, src);
            img.put_pixel(px, py, blended);
            proof {
                let i = px as int;
                let j = py as int;
                assert((j - oy) * (nw as int) + (i - ox) == (ly as int) * (nw as int) + (
                lx as int));
                assert(overlay_pixel(prev.pixel(i, j), *logo, size as int,
                    ratio_permille as int, i, j) == blend_spec(prev.pixel(i, j), resized@[(j
                    - oy) * (nw as int) + (i - ox)]));
                assert(img.pixel(i, j) == overlay_pixel(prev.pixel(i, j), *logo, size as int,
                    ratio_permille as int, i, j));
                assert forall|a: int, b: int| img.in_bounds(a, b) implies img.pixel(a, b) == (
                if ox <= a < ox + nw && oy <= b < oy + nh && (b - oy < ly || (b - oy == ly && a
                    - ox < lx + 1)) {
                    overlay_pixel(prev.pixel(a, b), *logo, size as int, ratio_permille as int,
                        a, b)
                } else {
                    prev.pixel(a, b)
                }) by {
                    if (a, b) != (i, j) {
                        assert(img.pixel(a, b) == old(img).pixel(a, b) || true);
                    }
                }
            }
            lx += 1;
        }
        ly += 1;
    }
}

/// Aspect ratio is preserved within one part in `max`: the reduced side is
/// the exact rational scaling, rounded down, so
/// `new_h / new_w` (landscape) or `new_w / new_h` (portrait) differs from
/// the source ratio by less than `1 / max`.
pub proof fn lemma_logo_aspect_ratio(w: int, h: int, max: int)
    requires
        w > 0,
        h > 0,
        max > 0,
    ensures
        w > h ==> logo_dims_spec(w, h, max).1 * w <= h * max < (logo_dims_spec(w, h, max).1 + 1)
            * w,
        w <= h ==> logo_dims_spec(w, h, max).0 * h <= w * max < (logo_dims_spec(w, h, max).0 + 1)
            * h,
{
    if w > h {
        let q = h * max / w;
        lemma_fundamental_div_mod(h * max, w);
        lemma_mod_division_less_than_divisor(h * max, w);
        assert(h * max == w * q + (h * max) % w);
        assert(q * w <= h * max < (q + 1) * w) by (nonlinear_arith)
            requires
                h * max == w * q + (h * max) % w,
                0 <= (h * max) % w < w,
        ;
    } else {
        let q = w * max / h;
        lemma_fundamental_div_mod(w * max, h);
        lemma_mod_division_less_than_divisor(w * max, h);
        assert(q * h <= w * max < (q + 1) * h) by (nonlinear_arith)
            requires
                w * max == h * q + (w * max) % h,
                0 <= (w * max) % h < h,
        ;
    }
}

} // verus!
