//! Module glyphs: how one dark module is rasterised into its
//! `scale x scale` cell. Body modules use a dot style (square, circle,
//! rounded square), finder-pattern modules an eye style (square, circle,
//! hollow frame). All geometry is exact integer arithmetic on the cell-local
//! coordinates.

use vstd::prelude::*;
use crate::canvas::Canvas;
use crate::color::Rgba8;
use crate::text::{lower_seq, eq_ignore_ascii_case};

verus! {

/// Scales above this bound are rejected so that the squared distances below
/// stay inside 64 bits.
pub const MAX_SCALE: u32 = 0x1000_0000;

#[derive(Debug, Clone, Copy, PartialEq, Eq, Structural)]
pub enum DotStyle {
    Square,
    Circle,
    Rounded,
}

#[derive(Debug, Clone, Copy, PartialEq, Eq, Structural)]
pub enum EyeStyle {
    Square,
    Circle,
    Frame,
}

/// The four module shapes a dot or eye style maps onto.
#[derive(Debug, Clone, Copy, PartialEq, Eq, Structural)]
pub enum Glyph {
    Square,
    Circle,
    Rounded,
    Frame,
}

pub open spec fn dot_style_spec(s: Seq<char>) -> DotStyle {
    if lower_seq(s) == "circle"@ {
        DotStyle::Circle
    } else if lower_seq(s) == "rounded"@ {
        DotStyle::Rounded
    } else {
        DotStyle::Square
    }
}

pub open spec fn eye_style_spec(s: Seq<char>) -> EyeStyle {
    if lower_seq(s) == "circle"@ {
        EyeStyle::Circle
    } else if lower_seq(s) == "frame"@ {
        EyeStyle::Frame
    } else {
        EyeStyle::Square
    }
}

impl DotStyle {
    /// Chooses the body glyph by name, ASCII case-insensitively; anything
    /// unrecognised falls back to the square.
    pub fn from_str(s: &str) -> (r: Self)
        ensures
            r == dot_style_spec(s@),
    {
        proof {
            reveal_strlit("circle");
            reveal_strlit("rounded");
            assert(lower_seq("circle"@) =~= "circle"@);
            assert(lower_seq("rounded"@) =~= "rounded"@);
        }
        if eq_ignore_ascii_case(s, "circle") {
            DotStyle::Circle
        } else if eq_ignore_ascii_case(s, "rounded") {
            DotStyle::Rounded
        } else {
            DotStyle::Square
        }
    }
}

impl EyeStyle {
    /// Chooses the eye glyph by name, ASCII case-insensitively; anything
    /// unrecognised falls back to the square.
    pub fn from_str(s: &str) -> (r: Self)
        ensures
            r == eye_style_spec(s@),
    {
        proof {
            reveal_strlit("circle");
            reveal_strlit("frame");
            assert(lower_seq("circle"@) =~= "circle"@);
            assert(lower_seq("frame"@) =~= "frame"@);
        }
        if eq_ignore_ascii_case(s, "circle") {
            EyeStyle::Circle
        } else if eq_ignore_ascii_case(s, "frame") {
            EyeStyle::Frame
        } else {
            EyeStyle::Square
        }
    }
}

pub open spec fn glyph_of_dot(d: DotStyle) -> Glyph {
    match d {
        DotStyle::Square => Glyph::Square,
        DotStyle::Circle => Glyph::Circle,
        DotStyle::Rounded => Glyph::Rounded,
    }
}

pub open spec fn glyph_of_eye(e: EyeStyle) -> Glyph {
    match e {
        EyeStyle::Square => Glyph::Square,
        EyeStyle::Circle => Glyph::Circle,
        EyeStyle::Frame => Glyph::Frame,
    }
}

/// The disc: cell-local pixel (dx, dy) is filled iff its centre lies within
/// scale/2 of the cell centre. Stated over doubled coordinates to stay in
/// integers.
pub open spec fn circle_hit(dx: int, dy: int, s: int) -> bool {
    (2 * dx - s) * (2 * dx - s) + (2 * dy - s) * (2 * dy - s) <= s * s
}

/// The frame ring thickness: one fifth of the scale, at least one pixel.
pub open spec fn frame_thickness(s: int) -> int {
    if s / 5 >= 1 {
        s / 5
    } else {
        1
    }
}

/// The hollow frame: only the outer ring of `frame_thickness` pixels.
pub open spec fn frame_hit(dx: int, dy: int, s: int) -> bool {
    let t = frame_thickness(s);
    dx < t || dx >= s - t || dy < t || dy >= s - t
}

/// One coordinate lies in the corner band: nearer to a cell edge than the
/// corner radius 3s/10 (stated in tenths).
pub open spec fn in_corner_band(d: int, s: int) -> bool {
    10 * d < 3 * s || 10 * d > 7 * s
}

/// The pixel lies within the corner radius of the inset corner centre at
/// (cx10/10, cy10/10); all terms in tenths.
pub open spec fn near_corner(dx: int, dy: int, s: int, cx10: int, cy10: int) -> bool {
    (10 * dx - cx10) * (10 * dx - cx10) + (10 * dy - cy10) * (10 * dy - cy10) <= 9 * s * s
}

/// The rounded square: everything outside the four corner regions, plus
/// corner-region pixels within the radius of an inset corner centre.
pub open spec fn rounded_hit(dx: int, dy: int, s: int) -> bool {
    !(in_corner_band(dx, s) && in_corner_band(dy, s)) || near_corner(dx, dy, s, 3 * s, 3 * s)
        || near_corner(dx, dy, s, 7 * s, 3 * s) || near_corner(dx, dy, s, 3 * s, 7 * s)
        || near_corner(dx, dy, s, 7 * s, 7 * s)
}

/// Whether a glyph covers the cell-local pixel (dx, dy).
pub open spec fn glyph_hit(g: Glyph, dx: int, dy: int, s: int) -> bool {
    match g {
        Glyph::Square => true,
        Glyph::Circle => circle_hit(dx, dy, s),
        Glyph::Rounded => rounded_hit(dx, dy, s),
        Glyph::Frame => frame_hit(dx, dy, s),
    }
}

fn circle_hit_exec(dx: u32, dy: u32, s: u32) -> (r: bool)
    requires
        dx < s,
        dy < s,
        s <= MAX_SCALE,
    ensures
        r == circle_hit(dx as int, dy as int, s as int),
{
    let u: i64 = 2 * (dx as i64) - (s as i64);
    let v: i64 = 2 * (dy as i64) - (s as i64);
    proof {
        assert(0 <= u * u <= 0x400_0000_0000_0000 && 0 <= v * v <= 0x400_0000_0000_0000 && 0 <= (
        s as i64) * (s as i64) <= 0x100_0000_0000_0000) by (nonlinear_arith)
            requires
                -(s as i64) <= u <= 2 * (s as i64),
                -(s as i64) <= v <= 2 * (s as i64),
                0 <= s <= 0x1000_0000,
        ;
    }
    u * u + v * v <= (s as i64) * (s as i64)
}

/// Whether a rounded-square pixel is drawn: the reference predicate of the
/// rounded glyph, exposed because the walker's geometry is stated with it.
pub fn is_in_rounded_corner(dx: u32, dy: u32, scale: u32) -> (r: bool)
    requires
        dx < scale,
        dy < scale,
        scale <= MAX_SCALE,
    ensures
        r == rounded_hit(dx as int, dy as int, scale as int),
{
    let s = scale as i64;
    let x10: i64 = 10 * (dx as i64);
    let y10: i64 = 10 * (dy as i64);
    let band_x = x10 < 3 * s || x10 > 7 * s;
    let band_y = y10 < 3 * s || y10 > 7 * s;
    if !(band_x && band_y) {
        return true;
    }
    near_corner_exec(x10, y10, s, 3 * s, 3 * s) || near_corner_exec(x10, y10, s, 7 * s, 3 * s)
        || near_corner_exec(x10, y10, s, 3 * s, 7 * s) || near_corner_exec(
        x10,
        y10,
        s,
        7 * s,
        7 * s,
    )
}

fn near_corner_exec(x10: i64, y10: i64, s: i64, cx10: i64, cy10: i64) -> (r: bool)
    requires
        0 <= x10 <= 10 * s,
        0 <= y10 <= 10 * s,
        0 <= s <= 0x1000_0000,
        cx10 == 3 * s || cx10 == 7 * s,
        cy10 == 3 * s || cy10 == 7 * s,
    ensures
        r == ((x10 - cx10) * (x10 - cx10) + (y10 - cy10) * (y10 - cy10) <= 9 * s * s),
{
    let du = x10 - cx10;
    let dv = y10 - cy10;
    proof {
        assert(0 <= du * du <= 0x3100_0000_0000_0000 && 0 <= dv * dv <= 0x3100_0000_0000_0000 && 0
            <= 9 * s && 0 <= (9 * s) * s <= 0x900_0000_0000_0000) by (nonlinear_arith)
            requires
                -(7 * s) <= du <= 7 * s,
                -(7 * s) <= dv <= 7 * s,
                0 <= s <= 0x1000_0000,
        ;
    }
    du * du + dv * dv <= 9 * s * s
}

fn frame_hit_exec(dx: u32, dy: u32, s: u32) -> (r: bool)
    requires
        dx < s,
        dy < s,
    ensures
        r == frame_hit(dx as int, dy as int, s as int),
{
    let mut t: u32 = s / 5;
    if t < 1 {
        t = 1;
    }
    dx < t || dx >= s - t || dy < t || dy >= s - t
}

fn glyph_hit_exec(g: Glyph, dx: u32, dy: u32, s: u32) -> (r: bool)
    requires
        dx < s,
        dy < s,
        s <= MAX_SCALE,
    ensures
        r == glyph_hit(g, dx as int, dy as int, s as int),
{
    match g {
        Glyph::Square => true,
        Glyph::Circle => circle_hit_exec(dx, dy, s),
        Glyph::Rounded => is_in_rounded_corner(dx, dy, s),
        Glyph::Frame => frame_hit_exec(dx, dy, s),
    }
}

/// The whole effect of rasterising one glyph: inside the cell the covered
/// pixels take the colour, everything else keeps its previous colour.
/// Writes are clipped to the canvas.
pub open spec fn painted(prev: Canvas, cur: Canvas, x: int, y: int, s: int, color: Rgba8,
    g: Glyph) -> bool {
    &&& cur.wf()
    &&& cur.same_dims(prev)
    &&& forall|i: int, j: int|
        cur.in_bounds(i, j) ==> cur.pixel(i, j) == (if x <= i < x + s && y <= j < y + s
            && glyph_hit(g, i - x, j - y, s) {
            color
        } else {
            prev.pixel(i, j)
        })
}

/// As `painted`, but only the cells processed so far: full rows before
/// `dy`, and in row `dy` the pixels before `dx`.
spec fn painted_upto(prev: Canvas, cur: Canvas, x: int, y: int, s: int, color: Rgba8, g: Glyph,
    dy: int, dx: int) -> bool {
    &&& cur.wf()
    &&& cur.same_dims(prev)
    &&& forall|i: int, j: int|
        cur.in_bounds(i, j) ==> cur.pixel(i, j) == (if x <= i < x + s && y <= j && (j - y < dy
            || (j - y == dy && i - x < dx)) && glyph_hit(g, i - x, j - y, s) {
            color
        } else {
            prev.pixel(i, j)
        })
}

/// Rasterises one glyph into the cell whose top-left pixel is (x, y).
pub fn draw_glyph(img: &mut Canvas, x: u32, y: u32, scale: u32, color: Rgba8, g: Glyph)
    requires
        old(img).wf(),
        x + scale <= u32::MAX,
        y + scale <= u32::MAX,
        scale <= MAX_SCALE,
    ensures
        painted(*old(img), *final(img), x as int, y as int, scale as int, color, g),
{
    let mut dy: u32 = 0;
    while dy < scale
        invariant
            img.wf(),
            dy <= scale,
            x + scale <= u32::MAX,
            y + scale <= u32::MAX,
            scale <= MAX_SCALE,
            painted_upto(*old(img), *img, x as int, y as int, scale as int, color, g,
                dy as int, 0),
        decreases scale - dy,
    {
        let mut dx: u32 = 0;
        while dx < scale
            invariant
                img.wf(),
                dx <= scale,
                dy < scale,
                x + scale <= u32::MAX,
                y + scale <= u32::MAX,
                scale <= MAX_SCALE,
                painted_upto(*old(img), *img, x as int, y as int, scale as int, color, g,
                    dy as int, dx as int),
            decreases scale - dx,
        {
            let px = x + dx;
            let py = y + dy;
            if px < img.get_width() && py < img.get_height() {
                if glyph_hit_exec(g, dx, dy, scale) {
                    img.put_pixel(px, py, color);
                }
            }
            dx += 1;
        }
        dy += 1;
    }
    proof {
        assert forall|i: int, j: int| img.in_bounds(i, j) implies img.pixel(i, j) == (if x as int
            <= i < x as int + scale as int && y as int <= j < y as int + scale as int
            && glyph_hit(g, i - x as int, j - y as int, scale as int) {
            color
        } else {
            old(img).pixel(i, j)
        }) by {}
    }
}

/// Rasterises one body module with the chosen dot style.
pub fn apply_dot_style(img: &mut Canvas, x: u32, y: u32, scale: u32, color: Rgba8,
    style: &DotStyle)
    requires
        old(img).wf(),
        x + scale <= u32::MAX,
        y + scale <= u32::MAX,
        scale <= MAX_SCALE,
    ensures
        painted(*old(img), *final(img), x as int, y as int, scale as int, color,
            glyph_of_dot(*style)),
{
    match style {
        DotStyle::Square => draw_glyph(img, x, y, scale, color, Glyph::Square),
        DotStyle::Circle => draw_glyph(img, x, y, scale, color, Glyph::Circle),
        DotStyle::Rounded => draw_glyph(img, x, y, scale, color, Glyph::Rounded),
    }
}

/// Rasterises one eye module with the chosen eye style.
pub fn apply_eye_style(img: &mut Canvas, x: u32, y: u32, scale: u32, color: Rgba8,
    style: &EyeStyle)
    requires
        old(img).wf(),
        x + scale <= u32::MAX,
        y + scale <= u32::MAX,
        scale <= MAX_SCALE,
    ensures
        painted(*old(img), *final(img), x as int, y as int, scale as int, color,
            glyph_of_eye(*style)),
{
    match style {
        EyeStyle::Square => draw_glyph(img, x, y, scale, color, Glyph::Square),
        EyeStyle::Circle => draw_glyph(img, x, y, scale, color, Glyph::Circle),
        EyeStyle::Frame => draw_glyph(img, x, y, scale, color, Glyph::Frame),
    }
}

} // verus!
