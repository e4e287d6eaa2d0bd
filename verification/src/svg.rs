//! The SVG emitter: the vector twin of the raster pipeline. One shape per
//! dark module in row-major order, an optional horizontal gradient, an
//! optional background rectangle; ten SVG units per module. The emitted
//! text is pinned down character by character by `svg_doc`.
//!
//! Eye styling is not honoured here: the dot style applies to every dark
//! module, finder patterns included.

use vstd::prelude::*;
use crate::qr::QrMatrix;
use crate::render::StyleConfig;
use crate::styles::{DotStyle, dot_style_spec};
use crate::text::{dec_seq, u32_to_string, lower_seq, count_char, find_char, trim_seq, trim,
    scan_char, eq_ignore_ascii_case, str_eq, lemma_find_in_range};

verus! {

use vstd::string::StringExecFns;
use vstd::arithmetic::mul::lemma_mul_inequality;

/// The document head: XML declaration and the `<svg>` open tag with a
/// square viewBox of `units` and explicit width and height of `size`.
pub open spec fn svg_header(units: int, size: int) -> Seq<char> {
    "<?xml version=\"1.0\" encoding=\"UTF-8\"?>\n<svg xmlns=\"http://www.w3.org/2000/svg\" version=\"1.1\" viewBox=\"0 0 "@
        + dec_seq(units) + " "@ + dec_seq(units) + "\" width=\""@ + dec_seq(size)
        + "\" height=\""@ + dec_seq(size) + "\">\n"@
}

/// The full-canvas background rectangle.
pub open spec fn svg_bg_rect(bg: Seq<char>) -> Seq<char> {
    "  <rect width=\"100%\" height=\"100%\" fill=\""@ + bg + "\"/>\n"@
}

/// The horizontal linear gradient definition with stops at 0% and 100%.
pub open spec fn svg_defs(c1: Seq<char>, c2: Seq<char>) -> Seq<char> {
    "  <defs>\n    <linearGradient id=\"qrGradient\" x1=\"0%\" y1=\"0%\" x2=\"100%\" y2=\"0%\">\n      <stop offset=\"0%\" style=\"stop-color:"@
        + c1 + ";stop-opacity:1\" />\n      <stop offset=\"100%\" style=\"stop-color:"@ + c2
        + ";stop-opacity:1\" />\n    </linearGradient>\n  </defs>\n"@
}

/// The fill attribute every shape carries: the gradient reference, or the
/// foreground literal.
pub open spec fn svg_fill_attr(gradient: bool, fg: Seq<char>) -> Seq<char> {
    if gradient {
        "fill=\"url(#qrGradient)\""@
    } else {
        "fill=\""@ + fg + "\""@
    }
}

/// One dark module's shape element at pixel origin (px, py), ten units a
/// side: a circle of radius 5, a rounded rect with rx 3, or a plain rect.
pub open spec fn svg_shape(dot: DotStyle, px: int, py: int, fill: Seq<char>) -> Seq<char> {
    match dot {
        DotStyle::Circle => "  <circle cx=\""@ + dec_seq(px + 5) + "\" cy=\""@ + dec_seq(
            py + 5,
        ) + "\" r=\""@ + dec_seq(5) + "\" "@ + fill + "/>\n"@,
        DotStyle::Rounded => "  <rect x=\""@ + dec_seq(px) + "\" y=\""@ + dec_seq(py)
            + "\" width=\""@ + dec_seq(10) + "\" height=\""@ + dec_seq(10) + "\" rx=\""@
            + dec_seq(3) + "\" "@ + fill + "/>\n"@,
        DotStyle::Square => "  <rect x=\""@ + dec_seq(px) + "\" y=\""@ + dec_seq(py)
            + "\" width=\""@ + dec_seq(10) + "\" height=\""@ + dec_seq(10) + "\" "@ + fill
            + "/>\n"@,
    }
}

/// The shapes of row y for columns before x, in order.
pub open spec fn svg_row(m: QrMatrix, border: int, dot: DotStyle, fill: Seq<char>, y: int,
    x: int) -> Seq<char>
    decreases x,
{
    if x <= 0 {
        Seq::empty()
    } else {
        svg_row(m, border, dot, fill, y, x - 1) + (if m.at(x - 1, y) {
            svg_shape(dot, (x - 1 + border) * 10, (y + border) * 10, fill)
        } else {
            Seq::empty()
        })
    }
}

/// The shapes of all rows before y, row-major.
pub open spec fn svg_rows(m: QrMatrix, border: int, dot: DotStyle, fill: Seq<char>,
    y: int) -> Seq<char>
    decreases y,
{
    if y <= 0 {
        Seq::empty()
    } else {
        svg_rows(m, border, dot, fill, y - 1) + svg_row(m, border, dot, fill, y - 1,
            m.width as int)
    }
}

/// Whether the background rectangle is left out: a transparent background
/// (any ASCII case), or the literal "none".
pub open spec fn svg_skip_bg(bg: Seq<char>) -> bool {
    lower_seq(bg) == "transparent"@ || bg == "none"@
}

/// The gradient definition block a config produces: present only when the
/// literal splits at a single comma, with both halves trimmed.
pub open spec fn svg_defs_part(gradient: Option<String>) -> Seq<char> {
    match gradient {
        Some(g) => if count_char(g@, ',') == 1 {
            let idx = find_char(g@, ',');
            svg_defs(trim_seq(g@.subrange(0, idx)), trim_seq(g@.subrange(idx + 1,
                g@.len() as int)))
        } else {
            Seq::empty()
        },
        None => Seq::empty(),
    }
}

/// The whole document for a matrix and a config.
pub open spec fn svg_doc(m: QrMatrix, cfg: StyleConfig) -> Seq<char> {
    let n = m.width as int;
    let units = (n + 2 * (cfg.border_modules as int)) * 10;
    let fill = svg_fill_attr(cfg.gradient is Some, cfg.fg_color@);
    svg_header(units, cfg.size_px as int) + (if svg_skip_bg(cfg.bg_color@) {
        Seq::empty()
    } else {
        svg_bg_rect(cfg.bg_color@)
    }) + svg_defs_part(cfg.gradient) + svg_rows(m, cfg.border_modules as int,
        dot_style_spec(cfg.dot_style@), fill, n) + "</svg>\n"@
}

fn shape_string(dot: &DotStyle, px: u32, py: u32, fill: &str) -> (s: String)
    requires
        px + 5 <= u32::MAX,
        py + 5 <= u32::MAX,
    ensures
        s@ == svg_shape(*dot, px as int, py as int, fill@),
{
    let mut s: String;
    match dot {
        DotStyle::Circle => {
            s = String::from_str("  <circle cx=\"");
            s.append(u32_to_string(px + 5).as_str());
            s.append("\" cy=\"");
            s.append(u32_to_string(py + 5).as_str());
            s.append("\" r=\"");
            s.append(u32_to_string(5).as_str());
            s.append("\" ");
            s.append(fill);
            s.append("/>\n");
            assert(s@ =~= svg_shape(*dot, px as int, py as int, fill@));
        },
        DotStyle::Rounded => {
            s = String::from_str("  <rect x=\"");
            s.append(u32_to_string(px).as_str());
            s.append("\" y=\"");
            s.append(u32_to_string(py).as_str());
            s.append("\" width=\"");
            s.append(u32_to_string(10).as_str());
            s.append("\" height=\"");
            s.append(u32_to_string(10).as_str());
            s.append("\" rx=\"");
            s.append(u32_to_string(3).as_str());
            s.append("\" ");
            s.append(fill);
            s.append("/>\n");
            assert(s@ =~= svg_shape(*dot, px as int, py as int, fill@));
        },
        DotStyle::Square => {
            s = String::from_str("  <rect x=\"");
            s.append(u32_to_string(px).as_str());
            s.append("\" y=\"");
            s.append(u32_to_string(py).as_str());
            s.append("\" width=\"");
            s.append(u32_to_string(10).as_str());
            s.append("\" height=\"");
            s.append(u32_to_string(10).as_str());
            s.append("\" ");
            s.append(fill);
            s.append("/>\n");
            assert(s@ =~= svg_shape(*dot, px as int, py as int, fill@));
        },
    }
    s
}

/// Emits the vector document for the matrix: header, optional background,
/// optional gradient definition, one shape per dark module in row-major
/// order, close tag. The dot style applies to eyes as well.
pub fn render_svg(m: &QrMatrix, cfg: &StyleConfig) -> (s: String)
    requires
        m.wf(),
        ((m.width as int) + 2 * (cfg.border_modules as int)) * 10 <= u32::MAX,
    ensures
        s@ == svg_doc(*m, *cfg),
{
    let n = m.get_width();
    let border = cfg.border_modules;
    let units: u32 = (((n as u64) + 2 * (border as u64)) * 10) as u32;
    let mut s = String::from_str(
        "<?xml version=\"1.0\" encoding=\"UTF-8\"?>\n<svg xmlns=\"http://www.w3.org/2000/svg\" version=\"1.1\" viewBox=\"0 0 ",
    );
    s.append(u32_to_string(units).as_str());
    s.append(" ");
    s.append(u32_to_string(units).as_str());
    s.append("\" width=\"");
    s.append(u32_to_string(cfg.size_px).as_str());
    s.append("\" height=\"");
    s.append(u32_to_string(cfg.size_px).as_str());
    s.append("\">\n");
    assert(s@ =~= svg_header(units as int, cfg.size_px as int));
    let skip_bg = eq_ignore_ascii_case(cfg.bg_color.as_str(), "transparent") || str_eq(
        cfg.bg_color.as_str(),
        "none",
    );
    proof {
        reveal_strlit("transparent");
        assert(lower_seq("transparent"@) =~= "transparent"@);
    }
    if !skip_bg {
        s.append("  <rect width=\"100%\" height=\"100%\" fill=\"");
        s.append(cfg.bg_color.as_str());
        s.append("\"/>\n");
    }
    let ghost head_bg = s@;
    assert(head_bg =~= svg_header(units as int, cfg.size_px as int) + (if svg_skip_bg(
        cfg.bg_color@,
    ) {
        Seq::<char>::empty()
    } else {
        svg_bg_rect(cfg.bg_color@)
    }));
    match &cfg.gradient {
        Some(g) => {
            let glen = g.as_str().unicode_len();
            let (comma_count, comma_at) = scan_char(g.as_str(), ',');
            if comma_count == 1 {
                proof {
                    lemma_find_in_range(g@, ',');
                }
                let left = trim(g.as_str().substring_char(0, comma_at));
                let right = trim(g.as_str().substring_char(comma_at + 1, glen));
                s.append(
                    "  <defs>\n    <linearGradient id=\"qrGradient\" x1=\"0%\" y1=\"0%\" x2=\"100%\" y2=\"0%\">\n      <stop offset=\"0%\" style=\"stop-color:",
                );
                s.append(left);
                s.append(";stop-opacity:1\" />\n      <stop offset=\"100%\" style=\"stop-color:");
                s.append(right);
                s.append(";stop-opacity:1\" />\n    </linearGradient>\n  </defs>\n");
            }
        },
        None => {},
    }
    let ghost head = head_bg + svg_defs_part(cfg.gradient);
    assert(s@ =~= head);
    let fill: String = match &cfg.gradient {
        Some(_) => String::from_str("fill=\"url(#qrGradient)\""),
        None => {
            let mut f = String::from_str("fill=\"");
            f.append(cfg.fg_color.as_str());
            f.append("\"");
            assert(f@ =~= "fill=\""@ + cfg.fg_color@ + "\""@);
            f
        },
    };
    assert(fill@ == svg_fill_attr(cfg.gradient is Some, cfg.fg_color@));
    let dot = DotStyle::from_str(cfg.dot_style.as_str());
    let ghost b = border as int;
    let mut y: u32 = 0;
    while y < n
        invariant
            m.wf(),
            n == m.width,
            y <= n,
            ((n as int) + 2 * b) * 10 <= u32::MAX,
            b == border as int,
            fill@ == svg_fill_attr(cfg.gradient is Some, cfg.fg_color@),
            dot == dot_style_spec(cfg.dot_style@),
            s@ == head + svg_rows(*m, b, dot, fill@, y as int),
        decreases n - y,
    {
        let mut x: u32 = 0;
        while x < n
            invariant
                m.wf(),
                n == m.width,
                y < n,
                x <= n,
                ((n as int) + 2 * b) * 10 <= u32::MAX,
                b == border as int,
                fill@ == svg_fill_attr(cfg.gradient is Some, cfg.fg_color@),
                dot == dot_style_spec(cfg.dot_style@),
                s@ == head + svg_rows(*m, b, dot, fill@, y as int) + svg_row(*m, b, dot, fill@,
                    y as int, x as int),
            decreases n - x,
        {
            if m.is_dark(x, y) {
                proof {
                    lemma_mul_inequality((x as int) + b + 1, (n as int) + 2 * b, 10);
                    lemma_mul_inequality((y as int) + b + 1, (n as int) + 2 * b, 10);
                }
                let px = (x + border) * 10;
                let py = (y + border) * 10;
                let shape = shape_string(&dot, px, py, fill.as_str());
                s.append(shape.as_str());
                assert(s@ =~= head + svg_rows(*m, b, dot, fill@, y as int) + svg_row(*m, b,
                    dot, fill@, y as int, x as int + 1));
            } else {
                assert(s@ =~= head + svg_rows(*m, b, dot, fill@, y as int) + svg_row(*m, b,
                    dot, fill@, y as int, x as int + 1));
            }
            x += 1;
        }
        assert(s@ =~= head + svg_rows(*m, b, dot, fill@, y as int + 1));
        y += 1;
    }
    s.append("</svg>\n");
    assert(s@ =~= svg_doc(*m, *cfg));
    s
}

} // verus!
