//! The raster renderer: walks the QR matrix in row-major order, classifies
//! each dark module as eye or body, chooses its colour (solid or gradient)
//! and rasterises its glyph. The outcome is pinned down per pixel:
//! `raster_pixel` says what every canvas pixel holds afterwards.

use vstd::prelude::*;
use crate::canvas::Canvas;
use crate::color::{Rgba8, lerp_spec, interpolate_gradient, parse_color, parse_color_spec,
    parse_gradient, parse_gradient_spec};
use crate::error::Error;
use crate::logo::{add_logo, overlay_pixel};
use crate::qr::QrMatrix;
use crate::styles::{DotStyle, EyeStyle, Glyph, glyph_of_dot, glyph_of_eye, glyph_hit,
    apply_dot_style, apply_eye_style, painted, MAX_SCALE, dot_style_spec, eye_style_spec};
use crate::text::lower_seq;

verus! {

use vstd::arithmetic::div_mod::{lemma_fundamental_div_mod, lemma_fundamental_div_mod_converse,
    lemma_mod_division_less_than_divisor, lemma_div_pos_is_pos, lemma_div_nonincreasing,
    lemma_div_is_ordered_by_denominator, lemma_div_is_ordered};
use vstd::arithmetic::mul::{lemma_mul_inequality, lemma_mul_is_distributive_add,
    lemma_mul_is_commutative};

/// The styling request handed to the renderer. Colours and style names are
/// kept as the caller's literals; they are parsed where they are used, and
/// a bad literal surfaces as an error.
pub struct StyleConfig {
    pub size_px: u32,
    pub border_modules: u32,
    pub bg_color: String,
    pub fg_color: String,
    pub gradient: Option<String>,
    pub dot_style: String,
    pub eye_style: String,
    pub logo_ratio_permille: u32,
    pub format: String,
}

/// Whether module (x, y) lies in one of the three 7x7 finder patterns,
/// anchored top-left, top-right and bottom-left.
pub open spec fn in_eye(x: int, y: int, n: int) -> bool {
    (x < 7 && y < 7) || (x >= n - 7 && y < 7) || (x < 7 && y >= n - 7)
}

/// The glyph a dark module is drawn with: the eye glyph inside a finder
/// pattern, the dot glyph elsewhere.
pub open spec fn module_glyph(x: int, y: int, n: int, dot: DotStyle, eye: EyeStyle) -> Glyph {
    if in_eye(x, y, n) {
        glyph_of_eye(eye)
    } else {
        glyph_of_dot(dot)
    }
}

/// The colour of a dark module in column x: the gradient evaluated at
/// x / n, or the solid foreground.
pub open spec fn module_color(fg: Rgba8, gradient: Option<(Rgba8, Rgba8)>, x: int,
    n: int) -> Rgba8 {
    match gradient {
        Some(g) => lerp_spec(g.0, g.1, x, n),
        None => fg,
    }
}

/// Whether canvas pixel (i, j) is covered by the glyph of a dark module:
/// the pixel's cell (i / s - border, j / s - border) lies on the grid, is
/// dark, and its glyph covers the cell-local position (i % s, j % s).
pub open spec fn dark_cover(m: QrMatrix, border: int, s: int, dot: DotStyle, eye: EyeStyle,
    i: int, j: int) -> bool {
    let n = m.width as int;
    s > 0 && {
        let gx = i / s - border;
        let gy = j / s - border;
        &&& 0 <= gx < n
        &&& 0 <= gy < n
        &&& m.at(gx, gy)
        &&& glyph_hit(module_glyph(gx, gy, n, dot, eye), i % s, j % s, s)
    }
}

/// What the module pass leaves at pixel (i, j) of a canvas that held `bg`:
/// the module colour where a dark module's glyph covers it, `bg` elsewhere.
pub open spec fn raster_pixel(m: QrMatrix, border: int, s: int, bg: Rgba8, fg: Rgba8,
    gradient: Option<(Rgba8, Rgba8)>, dot: DotStyle, eye: EyeStyle, i: int, j: int) -> Rgba8 {
    if dark_cover(m, border, s, dot, eye, i, j) {
        module_color(fg, gradient, i / s - border, m.width as int)
    } else {
        bg
    }
}

/// Modules drawn so far, in row-major order: all rows before y, and in row
/// y the columns before x.
spec fn module_processed(gx: int, gy: int, y: int, x: int) -> bool {
    gy < y || (gy == y && gx < x)
}

/// The walker's invariant: pixels of processed dark modules carry their
/// module colour, everything else still holds its previous colour.
spec fn walked_upto(m: QrMatrix, border: int, s: int, fg: Rgba8,
    gradient: Option<(Rgba8, Rgba8)>, dot: DotStyle, eye: EyeStyle, prev: Canvas, cur: Canvas,
    y: int, x: int) -> bool {
    &&& cur.wf()
    &&& cur.same_dims(prev)
    &&& forall|i: int, j: int|
        cur.in_bounds(i, j) ==> cur.pixel(i, j) == (if dark_cover(m, border, s, dot, eye, i, j)
            && module_processed(i / s - border, j / s - border, y, x) {
            module_color(fg, gradient, i / s - border, m.width as int)
        } else {
            prev.pixel(i, j)
        })
}

/// For s > 0 and q * s <= i < (q + 1) * s, the cell index of i is q and
/// its cell-local offset is i - q * s.
proof fn lemma_cell_indices(i: int, q: int, s: int)
    requires
        s > 0,
        q * s <= i < (q + 1) * s,
    ensures
        i / s == q,
        i % s == i - q * s,
{
    lemma_mul_is_distributive_add(s, q, 1);
    lemma_mul_is_commutative(q + 1, s);
    lemma_mul_is_commutative(q, s);
    lemma_fundamental_div_mod_converse(i, s, q, i - q * s);
}

/// Every non-negative i lies in the cell of its quotient.
proof fn lemma_div_bounds(i: int, s: int)
    requires
        s > 0,
        0 <= i,
    ensures
        (i / s) * s <= i < (i / s + 1) * s,
        0 <= i / s,
{
    lemma_fundamental_div_mod(i, s);
    lemma_mod_division_less_than_divisor(i, s);
    lemma_div_pos_is_pos(i, s);
    assert((i / s) * s <= i < (i / s + 1) * s) by (nonlinear_arith)
        requires
            i == s * (i / s) + i % s,
            0 <= i % s < s,
    ;
}

/// Walks the matrix in row-major order and rasterises every dark module:
/// eyes with the eye style, the rest with the dot style, coloured solid or
/// by the column gradient. Exactly the glyph-covered pixels change.
pub fn render_modules(img: &mut Canvas, m: &QrMatrix, border: u32, scale: u32, fg: Rgba8,
    gradient: Option<(Rgba8, Rgba8)>, dot: &DotStyle, eye: &EyeStyle)
    requires
        old(img).wf(),
        m.wf(),
        scale <= MAX_SCALE,
        ((m.width as int) + 2 * (border as int)) * (scale as int) <= old(img).width as int,
        ((m.width as int) + 2 * (border as int)) * (scale as int) <= old(img).height as int,
    ensures
        final(img).wf(),
        final(img).same_dims(*old(img)),
        forall|i: int, j: int|
            final(img).in_bounds(i, j) ==> final(img).pixel(i, j) == (if dark_cover(*m,
                border as int, scale as int, *dot, *eye, i, j) {
                module_color(fg, gradient, i / (scale as int) - border, m.width as int)
            } else {
                old(img).pixel(i, j)
            }),
{
    let n = m.get_width();
    if scale == 0 {
        return ;
    }
    let ghost prev = *img;
    let mut y: u32 = 0;
    while y < n
        invariant
            img.wf(),
            img.same_dims(prev),
            m.wf(),
            n == m.width,
            0 < scale <= MAX_SCALE,
            y <= n,
            ((n as int) + 2 * (border as int)) * (scale as int) <= prev.width as int,
            ((n as int) + 2 * (border as int)) * (scale as int) <= prev.height as int,
            walked_upto(*m, border as int, scale as int, fg, gradient, *dot, *eye, prev, *img,
                y as int, 0),
        decreases n - y,
    {
        let mut x: u32 = 0;
        while x < n
            invariant
                img.wf(),
                img.same_dims(prev),
                m.wf(),
                n == m.width,
                0 < scale <= MAX_SCALE,
                y < n,
                x <= n,
                ((n as int) + 2 * (border as int)) * (scale as int) <= prev.width as int,
                ((n as int) + 2 * (border as int)) * (scale as int) <= prev.height as int,
                walked_upto(*m, border as int, scale as int, fg, gradient, *dot, *eye, prev,
                    *img, y as int, x as int),
            decreases n - x,
        {
            proof {
                assert((n as int) + 2 * (border as int) <= ((n as int) + 2 * (border as int))
                    * (scale as int)) by (nonlinear_arith)
                    requires
                        scale >= 1,
                        (n as int) + 2 * (border as int) >= 0,
                ;
                lemma_mul_inequality((x as int) + (border as int) + 1, (n as int) + 2 * (
                border as int), scale as int);
                lemma_mul_inequality((y as int) + (border as int) + 1, (n as int) + 2 * (
                border as int), scale as int);
                lemma_mul_is_distributive_add(scale as int, (x as int) + (border as int), 1);
                lemma_mul_is_distributive_add(scale as int, (y as int) + (border as int), 1);
                lemma_mul_is_commutative((x as int) + (border as int) + 1, scale as int);
                lemma_mul_is_commutative((y as int) + (border as int) + 1, scale as int);
                lemma_mul_is_commutative((x as int) + (border as int), scale as int);
                lemma_mul_is_commutative((y as int) + (border as int), scale as int);
            }
            if m.is_dark(x, y) {
                let color = match gradient {
                    Some(g) => interpolate_gradient(&g, x, n),
                    None => fg,
                };
                let eye_mod = (x < 7 && y < 7) || (x >= n - 7 && y < 7) || (x < 7 && y >= n
                    - 7);
                let px = (x + border) * scale;
                let py = (y + border) * scale;
                let ghost pre = *img;
                if eye_mod {
                    apply_eye_style(img, px, py, scale, color, eye);
                } else {
                    apply_dot_style(img, px, py, scale, color, dot);
                }
                proof {
                    let s = scale as int;
                    let b = border as int;
                    let g = module_glyph(x as int, y as int, n as int, *dot, *eye);
                    assert(painted(pre, *img, px as int, py as int, s, color, g));
                    assert(color == module_color(fg, gradient, x as int, n as int));
                    assert forall|i: int, j: int| img.in_bounds(i, j) implies img.pixel(i, j)
                        == (if dark_cover(*m, b, s, *dot, *eye, i, j) && module_processed(i / s
                        - b, j / s - b, y as int, x as int + 1) {
                        module_color(fg, gradient, i / s - b, n as int)
                    } else {
                        prev.pixel(i, j)
                    }) by {
                        if px <= i < px + s && py <= j < py + s {
                            lemma_cell_indices(i, x as int + b, s);
                            lemma_cell_indices(j, y as int + b, s);
                        } else {
                            lemma_div_bounds(i, s);
                            lemma_div_bounds(j, s);
                        }
                    }
                }
            } else {
                proof {
                    let s = scale as int;
                    let b = border as int;
                    assert forall|i: int, j: int| img.in_bounds(i, j) implies img.pixel(i, j)
                        == (if dark_cover(*m, b, s, *dot, *eye, i, j) && module_processed(i / s
                        - b, j / s - b, y as int, x as int + 1) {
                        module_color(fg, gradient, i / s - b, n as int)
                    } else {
                        prev.pixel(i, j)
                    }) by {}
                }
            }
            x += 1;
        }
        y += 1;
    }
}

/// The integer pixels-per-module: the canvas side divided by the grid side
/// including both quiet zones, rounded down. The canvas may keep an
/// unpainted right/bottom strip.
pub open spec fn scale_spec(size: int, n: int, border: int) -> int {
    size / (n + 2 * border)
}

/// The colours a config asks for, parsed in the order the renderer parses
/// them: background, foreground, then the gradient pair if one is given.
/// The first bad literal decides the error.
pub open spec fn parsed_style(cfg: StyleConfig) -> Result<
    (Rgba8, Rgba8, Option<(Rgba8, Rgba8)>),
    Error,
> {
    match parse_color_spec(cfg.bg_color@) {
        Err(e) => Err(e),
        Ok(bg) => match parse_color_spec(cfg.fg_color@) {
            Err(e) => Err(e),
            Ok(fg) => match cfg.gradient {
                None => Ok((bg, fg, None)),
                Some(g) => match parse_gradient_spec(g@) {
                    Err(e) => Err(e),
                    Ok(p) => Ok((bg, fg, Some(p))),
                },
            },
        },
    }
}

/// What `generate_qr_image` leaves at pixel (i, j) on success: the module
/// pass over the background, then the centred logo overlay if a logo was
/// given.
pub open spec fn image_pixel(m: QrMatrix, cfg: StyleConfig, bg: Rgba8, fg: Rgba8,
    gradient: Option<(Rgba8, Rgba8)>, logo: Option<Canvas>, i: int, j: int) -> Rgba8 {
    let base = raster_pixel(m, cfg.border_modules as int,
        scale_spec(cfg.size_px as int, m.width as int, cfg.border_modules as int), bg, fg,
        gradient, dot_style_spec(cfg.dot_style@), eye_style_spec(cfg.eye_style@), i, j);
    match logo {
        Some(l) => overlay_pixel(base, l, cfg.size_px as int, cfg.logo_ratio_permille as int,
            i, j),
        None => base,
    }
}

/// Renders the styled QR matrix onto a fresh size x size canvas: fills it
/// with the background, rasterises every dark module, and composites the
/// logo if one is given. Fails exactly on the first unparsable colour
/// literal.
pub fn generate_qr_image(m: &QrMatrix, cfg: &StyleConfig, logo: Option<&Canvas>) -> (r: Result<
    Canvas,
    Error,
>)
    requires
        m.wf(),
        logo matches Some(l) ==> l.wf(),
        (cfg.size_px as int) * (cfg.size_px as int) <= usize::MAX,
    ensures
        match parsed_style(*cfg) {
            Err(e) => r == Err::<Canvas, Error>(e),
            Ok(p) => r matches Ok(c) && c.wf() && c.width == cfg.size_px && c.height
                == cfg.size_px && forall|i: int, j: int|
                c.in_bounds(i, j) ==> c.pixel(i, j) == image_pixel(*m, *cfg, p.0, p.1, p.2,
                    match logo {
                        Some(l) => Some(*l),
                        None => None,
                    }, i, j),
        },
{
    let n = m.get_width();
    let size = cfg.size_px;
    let border = cfg.border_modules;
    let denom: u64 = (n as u64) + 2 * (border as u64);
    let scale: u32 = ((size as u64) / denom) as u32;
    proof {
        lemma_div_pos_is_pos(size as int, denom as int);
        lemma_div_nonincreasing(size as int, denom as int);
        lemma_div_is_ordered_by_denominator(size as int, 21, denom as int);
        lemma_div_is_ordered(size as int, 0xffff_ffff, 21);
        assert(scale as int == scale_spec(size as int, n as int, border as int));
        assert(scale <= MAX_SCALE);
        lemma_fundamental_div_mod(size as int, denom as int);
        lemma_mod_division_less_than_divisor(size as int, denom as int);
        assert(((n as int) + 2 * (border as int)) * (scale as int) <= size as int) by (
        nonlinear_arith)
            requires
                size as int == (denom as int) * (scale as int) + (size as int) % (denom as int),
                0 <= (size as int) % (denom as int),
                denom as int == (n as int) + 2 * (border as int),
        ;
    }
    let bg = match parse_color(cfg.bg_color.as_str()) {
        Ok(c) => c,
        Err(e) => {
            return Err(e);
        },
    };
    let fg = match parse_color(cfg.fg_color.as_str()) {
        Ok(c) => c,
        Err(e) => {
            return Err(e);
        },
    };
    let gradient_colors: Option<(Rgba8, Rgba8)> = match &cfg.gradient {
        Some(g) => match parse_gradient(g.as_str()) {
            Ok(p) => Some(p),
            Err(e) => {
                return Err(e);
            },
        },
        None => None,
    };
    let mut img = Canvas::new_filled(size, size, bg);
    let dot = DotStyle::from_str(cfg.dot_style.as_str());
    let eye = EyeStyle::from_str(cfg.eye_style.as_str());
    render_modules(&mut img, m, border, scale, fg, gradient_colors, &dot, &eye);
    match logo {
        Some(l) => {
            add_logo(&mut img, l, cfg.logo_ratio_permille);
        },
        None => {},
    }
    Ok(img)
}

/// A finished render: a pixel buffer, or a vector document.
pub enum Output {
    Raster(Canvas),
    Vector(String),
}

/// What `render` must produce: an unsupported format is rejected first,
/// then the first bad colour literal; an svg format yields the vector
/// document, anything else the raster canvas.
pub open spec fn render_spec(m: QrMatrix, cfg: StyleConfig, logo: Option<Canvas>, r: Result<
    Output,
    Error,
>) -> bool {
    if !format_ok(cfg.format@) {
        r == Err::<Output, Error>(Error::UnsupportedFormat)
    } else {
        match parsed_style(cfg) {
            Err(e) => r == Err::<Output, Error>(e),
            Ok(p) => if lower_seq(cfg.format@) == "svg"@ {
                r matches Ok(o) && o matches Output::Vector(s) && s@ == crate::svg::svg_doc(m,
                    cfg)
            } else {
                r matches Ok(o) && o matches Output::Raster(c) && c.wf() && c.width
                    == cfg.size_px && c.height == cfg.size_px && forall|i: int, j: int|
                    c.in_bounds(i, j) ==> c.pixel(i, j) == image_pixel(m, cfg, p.0, p.1, p.2,
                        logo, i, j)
            },
        }
    }
}

/// The single entry point: checks the format, parses the colours, and
/// hands the matrix to the vector or the raster pipeline.
pub fn render(m: &QrMatrix, cfg: &StyleConfig, logo: Option<&Canvas>) -> (r: Result<
    Output,
    Error,
>)
    requires
        m.wf(),
        logo matches Some(l) ==> l.wf(),
        (cfg.size_px as int) * (cfg.size_px as int) <= usize::MAX,
        ((m.width as int) + 2 * (cfg.border_modules as int)) * 10 <= u32::MAX,
    ensures
        render_spec(*m, *cfg, match logo {
            Some(l) => Some(*l),
            None => None,
        }, r),
{
    if let Err(e) = validate_format(cfg.format.as_str()) {
        return Err(e);
    }
    if let Err(e) = parse_color(cfg.bg_color.as_str()) {
        return Err(e);
    }
    if let Err(e) = parse_color(cfg.fg_color.as_str()) {
        return Err(e);
    }
    match &cfg.gradient {
        Some(g) => {
            if let Err(e) = parse_gradient(g.as_str()) {
                return Err(e);
            }
        },
        None => {},
    }
    proof {
        reveal_strlit("svg");
        assert(lower_seq("svg"@) =~= "svg"@);
    }
    if crate::text::eq_ignore_ascii_case(cfg.format.as_str(), "svg") {
        Ok(Output::Vector(crate::svg::render_svg(m, cfg)))
    } else {
        match generate_qr_image(m, cfg, logo) {
            Ok(c) => Ok(Output::Raster(c)),
            Err(e) => Err(e),
        }
    }
}

/// A light module's cell is left on the background: after the module pass
/// every pixel of it still holds `bg`.
pub proof fn lemma_light_module_keeps_bg(m: QrMatrix, border: int, s: int, bg: Rgba8,
    fg: Rgba8, gradient: Option<(Rgba8, Rgba8)>, dot: DotStyle, eye: EyeStyle, x: int, y: int,
    i: int, j: int)
    requires
        m.wf(),
        s > 0,
        0 <= x < m.width,
        0 <= y < m.width,
        !m.at(x, y),
        (x + border) * s <= i < (x + border + 1) * s,
        (y + border) * s <= j < (y + border + 1) * s,
    ensures
        raster_pixel(m, border, s, bg, fg, gradient, dot, eye, i, j) == bg,
{
    lemma_cell_indices(i, x + border, s);
    lemma_cell_indices(j, y + border, s);
}

/// A dark body module drawn as a square with no gradient is solid
/// foreground: every pixel of its cell holds `fg`.
pub proof fn lemma_square_module_solid(m: QrMatrix, border: int, s: int, bg: Rgba8, fg: Rgba8,
    eye: EyeStyle, x: int, y: int, i: int, j: int)
    requires
        m.wf(),
        s > 0,
        0 <= x < m.width,
        0 <= y < m.width,
        m.at(x, y),
        !in_eye(x, y, m.width as int),
        (x + border) * s <= i < (x + border + 1) * s,
        (y + border) * s <= j < (y + border + 1) * s,
    ensures
        raster_pixel(m, border, s, bg, fg, None, DotStyle::Square, eye, i, j) == fg,
{
    lemma_cell_indices(i, x + border, s);
    lemma_cell_indices(j, y + border, s);
}

/// Gradient endpoints: in column 0 a dark module carries the first
/// colour's RGB (alpha forced to 255); in any column x the colour is the
/// exact truncated interpolation at x / n.
pub proof fn lemma_gradient_column_colors(fg: Rgba8, c0: Rgba8, c1: Rgba8, n: int, x: int)
    requires
        0 < n,
    ensures
        module_color(fg, Some((c0, c1)), 0, n).r == c0.r,
        module_color(fg, Some((c0, c1)), 0, n).g == c0.g,
        module_color(fg, Some((c0, c1)), 0, n).b == c0.b,
        module_color(fg, Some((c0, c1)), 0, n).a == 255,
        module_color(fg, Some((c0, c1)), x, n) == lerp_spec(c0, c1, x, n),
{
    crate::color::lemma_lerp_endpoints(c0, c1, n);
}

/// The emitted document begins with the header: the viewBox is
/// `(n + 2 * border) * 10` units square and width and height are the
/// requested pixel size.
pub proof fn lemma_svg_doc_starts_with_header(m: QrMatrix, cfg: StyleConfig)
    ensures
        ({
            let h = crate::svg::svg_header(((m.width as int) + 2 * (cfg.border_modules as int))
                * 10, cfg.size_px as int);
            crate::svg::svg_doc(m, cfg).len() >= h.len() && crate::svg::svg_doc(m,
                cfg).subrange(0, h.len() as int) == h
        }),
{
    let h = crate::svg::svg_header(((m.width as int) + 2 * (cfg.border_modules as int)) * 10,
        cfg.size_px as int);
    let d = crate::svg::svg_doc(m, cfg);
    assert(d.subrange(0, h.len() as int) =~= h);
}

/// The accepted output formats, ASCII case-insensitively.
pub open spec fn format_ok(s: Seq<char>) -> bool {
    ||| lower_seq(s) == "png"@
    ||| lower_seq(s) == "jpg"@
    ||| lower_seq(s) == "jpeg"@
    ||| lower_seq(s) == "svg"@
    ||| lower_seq(s) == "webp"@
    ||| lower_seq(s) == "tiff"@
    ||| lower_seq(s) == "tif"@
    ||| lower_seq(s) == "ico"@
    ||| lower_seq(s) == "bmp"@
    ||| lower_seq(s) == "gif"@
    ||| lower_seq(s) == "tga"@
    ||| lower_seq(s) == "avif"@
    ||| lower_seq(s) == "qoi"@
}

/// Accepts exactly the whitelisted output formats; anything else is
/// rejected as unsupported.
pub fn validate_format(format: &str) -> (r: Result<(), Error>)
    ensures
        (r is Ok) == format_ok(format@),
        (r is Err) ==> r == Err::<(), Error>(Error::UnsupportedFormat),
{
    proof {
        reveal_strlit("png");
        reveal_strlit("jpg");
        reveal_strlit("jpeg");
        reveal_strlit("svg");
        reveal_strlit("webp");
        reveal_strlit("tiff");
        reveal_strlit("tif");
        reveal_strlit("ico");
        reveal_strlit("bmp");
        reveal_strlit("gif");
        reveal_strlit("tga");
        reveal_strlit("avif");
        reveal_strlit("qoi");
        assert(lower_seq("png"@) =~= "png"@);
        assert(lower_seq("jpg"@) =~= "jpg"@);
        assert(lower_seq("jpeg"@) =~= "jpeg"@);
        assert(lower_seq("svg"@) =~= "svg"@);
        assert(lower_seq("webp"@) =~= "webp"@);
        assert(lower_seq("tiff"@) =~= "tiff"@);
        assert(lower_seq("tif"@) =~= "tif"@);
        assert(lower_seq("ico"@) =~= "ico"@);
        assert(lower_seq("bmp"@) =~= "bmp"@);
        assert(lower_seq("gif"@) =~= "gif"@);
        assert(lower_seq("tga"@) =~= "tga"@);
        assert(lower_seq("avif"@) =~= "avif"@);
        assert(lower_seq("qoi"@) =~= "qoi"@);
    }
    if crate::text::eq_ignore_ascii_case(format, "png")
        || crate::text::eq_ignore_ascii_case(format, "jpg")
        || crate::text::eq_ignore_ascii_case(format, "jpeg")
        || crate::text::eq_ignore_ascii_case(format, "svg")
        || crate::text::eq_ignore_ascii_case(format, "webp")
        || crate::text::eq_ignore_ascii_case(format, "tiff")
        || crate::text::eq_ignore_ascii_case(format, "tif")
        || crate::text::eq_ignore_ascii_case(format, "ico")
        || crate::text::eq_ignore_ascii_case(format, "bmp")
        || crate::text::eq_ignore_ascii_case(format, "gif")
        || crate::text::eq_ignore_ascii_case(format, "tga")
        || crate::text::eq_ignore_ascii_case(format, "avif")
        || crate::text::eq_ignore_ascii_case(format, "qoi") {
        Ok(())
    } else {
        Err(Error::UnsupportedFormat)
    }
}

} // verus!
