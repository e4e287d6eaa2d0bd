use qrstyle::canvas::Canvas;
use qrstyle::color::Rgba8;
use qrstyle::error::Error;
use qrstyle::logo::add_logo;
use qrstyle::qr::{build_qr, terminal_text, EcLevel, QrMatrix};
use qrstyle::render::{generate_qr_image, render, validate_format, Output, StyleConfig};
use qrstyle::styles::{apply_dot_style, apply_eye_style, DotStyle, EyeStyle};
use qrstyle::svg::render_svg;

const BLACK: Rgba8 = Rgba8 { r: 0, g: 0, b: 0, a: 255 };
const WHITE: Rgba8 = Rgba8 { r: 255, g: 255, b: 255, a: 255 };

fn config(size: u32, border: u32) -> StyleConfig {
    StyleConfig {
        size_px: size,
        border_modules: border,
        bg_color: "#ffffff".to_string(),
        fg_color: "#000000".to_string(),
        gradient: None,
        dot_style: "square".to_string(),
        eye_style: "square".to_string(),
        logo_ratio_permille: 200,
        format: "png".to_string(),
    }
}

fn in_eye(x: u32, y: u32, n: u32) -> bool {
    (x < 7 && y < 7) || (x >= n - 7 && y < 7) || (x < 7 && y >= n - 7)
}

#[test]
fn hi_version1_square_black_on_white() {
    let m = build_qr("HI", false, EcLevel::M, Some(1)).unwrap();
    assert_eq!(m.width, 21);
    let cfg = config(210, 0);
    let img = generate_qr_image(&m, &cfg, None).unwrap();
    assert_eq!(img.width, 210);
    assert_eq!(img.height, 210);
    // Every cell is a solid 10x10 square of its module's colour.
    for y in 0..21u32 {
        for x in 0..21u32 {
            let want = if m.is_dark(x, y) { BLACK } else { WHITE };
            for dy in 0..10u32 {
                for dx in 0..10u32 {
                    assert_eq!(img.get_pixel(x * 10 + dx, y * 10 + dy), want);
                }
            }
        }
    }
    // The three finder patterns: their outer border modules are dark.
    for k in 0..7u32 {
        assert!(m.is_dark(k, 0));
        assert!(m.is_dark(0, k));
        assert!(m.is_dark(14 + k, 0));
        assert!(m.is_dark(k, 14));
    }
    // Their corner cells land at pixel corners (0,0), (140,0), (0,140).
    assert_eq!(img.get_pixel(0, 0), BLACK);
    assert_eq!(img.get_pixel(140, 0), BLACK);
    assert_eq!(img.get_pixel(0, 140), BLACK);
}

#[test]
fn frame_eyes_are_hollow_rings() {
    let m = build_qr("HI", false, EcLevel::M, Some(1)).unwrap();
    let mut cfg = config(210, 0);
    cfg.eye_style = "frame".to_string();
    let img = generate_qr_image(&m, &cfg, None).unwrap();
    // Thickness max(1, floor(0.2 * 10)) = 2: a dark eye module keeps its
    // centre on the background and paints the two outer pixel rings.
    for y in 0..21u32 {
        for x in 0..21u32 {
            if !in_eye(x, y, 21) || !m.is_dark(x, y) {
                continue;
            }
            assert_eq!(img.get_pixel(x * 10 + 5, y * 10 + 5), WHITE);
            assert_eq!(img.get_pixel(x * 10 + 2, y * 10 + 5), WHITE);
            assert_eq!(img.get_pixel(x * 10, y * 10), BLACK);
            assert_eq!(img.get_pixel(x * 10 + 1, y * 10 + 5), BLACK);
            assert_eq!(img.get_pixel(x * 10 + 9, y * 10 + 9), BLACK);
        }
    }
    // Body modules are untouched by the eye style.
    for y in 0..21u32 {
        for x in 0..21u32 {
            if !in_eye(x, y, 21) && m.is_dark(x, y) {
                assert_eq!(img.get_pixel(x * 10 + 5, y * 10 + 5), BLACK);
            }
        }
    }
}

#[test]
fn gradient_columns_interpolate() {
    let m = build_qr("HI", false, EcLevel::M, Some(1)).unwrap();
    let mut cfg = config(210, 0);
    cfg.gradient = Some("#ff0000,#0000ff".to_string());
    let img = generate_qr_image(&m, &cfg, None).unwrap();
    let red = Rgba8 { r: 255, g: 0, b: 0, a: 255 };
    let late = Rgba8 { r: 12, g: 0, b: 242, a: 255 };
    for y in 0..21u32 {
        if m.is_dark(0, y) {
            assert_eq!(img.get_pixel(5, y * 10 + 5), red);
        }
        if m.is_dark(20, y) {
            assert_eq!(img.get_pixel(205, y * 10 + 5), late);
        }
    }
}

#[test]
fn transparent_background_has_zero_alpha() {
    let m = build_qr("HI", false, EcLevel::M, Some(1)).unwrap();
    let mut cfg = config(210, 0);
    cfg.bg_color = "transparent".to_string();
    let img = generate_qr_image(&m, &cfg, None).unwrap();
    let mut saw_light = false;
    for y in 0..21u32 {
        for x in 0..21u32 {
            if !m.is_dark(x, y) {
                saw_light = true;
                assert_eq!(img.get_pixel(x * 10 + 5, y * 10 + 5).a, 0);
            }
        }
    }
    assert!(saw_light);
}

#[test]
fn svg_circle_document() {
    let m = build_qr("HI", false, EcLevel::M, Some(1)).unwrap();
    let mut cfg = config(210, 0);
    cfg.dot_style = "circle".to_string();
    cfg.format = "svg".to_string();
    let out = match render(&m, &cfg, None).unwrap() {
        Output::Vector(s) => s,
        Output::Raster(_) => panic!("expected a vector document"),
    };
    let mut dark = 0usize;
    for y in 0..21u32 {
        for x in 0..21u32 {
            if m.is_dark(x, y) {
                dark += 1;
            }
        }
    }
    assert!(out.starts_with("<?xml version=\"1.0\" encoding=\"UTF-8\"?>\n"));
    assert!(out.contains("viewBox=\"0 0 210 210\""));
    assert!(out.contains("width=\"210\" height=\"210\""));
    assert_eq!(out.matches("<circle ").count(), dark);
    assert_eq!(out.matches("r=\"5\"").count(), dark);
    // The only rect is the background.
    assert_eq!(out.matches("<rect ").count(), 1);
    assert!(out.contains("<rect width=\"100%\" height=\"100%\" fill=\"#ffffff\"/>"));
    assert!(out.ends_with("</svg>\n"));
    // Tags balance.
    assert_eq!(out.matches('<').count(), out.matches('>').count());
}

#[test]
fn svg_gradient_and_rounded() {
    let m = build_qr("HI", false, EcLevel::M, Some(1)).unwrap();
    let mut cfg = config(210, 0);
    cfg.dot_style = "rounded".to_string();
    cfg.gradient = Some("#ff0000, #0000ff".to_string());
    let out = render_svg(&m, &cfg);
    assert!(out.contains("<linearGradient id=\"qrGradient\" x1=\"0%\" y1=\"0%\" x2=\"100%\" y2=\"0%\">"));
    assert!(out.contains("stop-color:#ff0000"));
    assert!(out.contains("stop-color:#0000ff"));
    assert!(out.contains("rx=\"3\""));
    assert!(out.contains("fill=\"url(#qrGradient)\""));
}

#[test]
fn svg_transparent_background_omits_rect() {
    let m = build_qr("HI", false, EcLevel::M, Some(1)).unwrap();
    let mut cfg = config(210, 0);
    cfg.bg_color = "transparent".to_string();
    let out = render_svg(&m, &cfg);
    assert_eq!(out.matches("100%").count(), 0);
}

#[test]
fn logo_resized_and_centred() {
    let m = build_qr("HI", false, EcLevel::M, Some(1)).unwrap();
    let mut cfg = config(300, 0);
    cfg.logo_ratio_permille = 300;
    let green = Rgba8 { r: 0, g: 255, b: 0, a: 255 };
    let logo = Canvas::new_filled(32, 16, green);
    let plain = generate_qr_image(&m, &cfg, None).unwrap();
    let img = generate_qr_image(&m, &cfg, Some(&logo)).unwrap();
    // max_side = 300 * 300 / 1000 = 90; 32x16 scales to 90x45; the box is
    // placed at ((300-90)/2, (300-45)/2) = (105, 127).
    for y in 0..300u32 {
        for x in 0..300u32 {
            let inside = (105..195).contains(&x) && (127..172).contains(&y);
            if inside {
                // An opaque uniform logo blends to exactly its colour.
                assert_eq!(img.get_pixel(x, y), green);
            } else {
                assert_eq!(img.get_pixel(x, y), plain.get_pixel(x, y));
            }
        }
    }
}

#[test]
fn logo_ratio_is_clamped() {
    let cfg_size = 300u32;
    let green = Rgba8 { r: 0, g: 255, b: 0, a: 255 };
    let logo = Canvas::new_filled(10, 10, green);
    let mut img = Canvas::new_filled(cfg_size, cfg_size, WHITE);
    // 900 permille clamps to 400: a square logo becomes 120x120 at (90, 90).
    add_logo(&mut img, &logo, 900);
    assert_eq!(img.get_pixel(90, 90), green);
    assert_eq!(img.get_pixel(89, 90), WHITE);
    assert_eq!(img.get_pixel(209, 209), green);
    assert_eq!(img.get_pixel(210, 209), WHITE);
}

#[test]
fn format_whitelist() {
    for f in [
        "png", "jpg", "jpeg", "svg", "webp", "tiff", "tif", "ico", "bmp", "gif", "tga", "avif",
        "qoi", "PNG", "Svg",
    ] {
        assert!(validate_format(f).is_ok());
    }
    assert_eq!(validate_format("pdf"), Err(Error::UnsupportedFormat));
    assert_eq!(validate_format(""), Err(Error::UnsupportedFormat));
}

#[test]
fn render_rejects_unknown_format() {
    let m = build_qr("HI", false, EcLevel::M, Some(1)).unwrap();
    let mut cfg = config(210, 0);
    cfg.format = "pdf".to_string();
    assert!(matches!(render(&m, &cfg, None), Err(Error::UnsupportedFormat)));
}

#[test]
fn render_surfaces_color_errors() {
    let m = build_qr("HI", false, EcLevel::M, Some(1)).unwrap();
    let mut cfg = config(210, 0);
    cfg.fg_color = "#zz".to_string();
    assert!(matches!(render(&m, &cfg, None), Err(Error::InvalidColor)));
    let mut cfg2 = config(210, 0);
    cfg2.gradient = Some("only-one".to_string());
    assert!(matches!(render(&m, &cfg2, None), Err(Error::InvalidGradient)));
}

#[test]
fn encoder_failures() {
    // Version 0 is outside 1..=40.
    assert!(matches!(build_qr("HI", false, EcLevel::M, Some(0)), Err(Error::EncodeFailed)));
    // Far too much payload for version 1.
    let long = "x".repeat(500);
    assert!(matches!(build_qr(&long, false, EcLevel::M, Some(1)), Err(Error::EncodeFailed)));
}

#[test]
fn auto_version_picks_smallest() {
    // "HI" at level M fits version 1, so the auto encoder returns a
    // 21-module grid identical to the explicit version-1 one.
    let auto = build_qr("HI", false, EcLevel::M, None).unwrap();
    let fixed = build_qr("HI", false, EcLevel::M, Some(1)).unwrap();
    assert_eq!(auto.width, 21);
    for y in 0..21u32 {
        for x in 0..21u32 {
            assert_eq!(auto.is_dark(x, y), fixed.is_dark(x, y));
        }
    }
    // A longer payload forces a larger version.
    let long = build_qr(&"x".repeat(100), false, EcLevel::M, None).unwrap();
    assert!(long.width > 21);
}

#[test]
fn base64_payload_round_trip_through_encoder() {
    // Encoding "HI" as base64 gives "SEk=", which must decode in the QR.
    let direct = build_qr("SEk=", false, EcLevel::M, Some(1)).unwrap();
    let encoded = build_qr("HI", true, EcLevel::M, Some(1)).unwrap();
    assert_eq!(direct.width, encoded.width);
    for y in 0..direct.width {
        for x in 0..direct.width {
            assert_eq!(direct.is_dark(x, y), encoded.is_dark(x, y));
        }
    }
}

#[test]
fn unfilled_strip_keeps_background() {
    // size 215 over 21 modules: scale 10, a 5-pixel strip stays background.
    let m = build_qr("HI", false, EcLevel::M, Some(1)).unwrap();
    let cfg = config(215, 0);
    let img = generate_qr_image(&m, &cfg, None).unwrap();
    for k in 0..215u32 {
        assert_eq!(img.get_pixel(212, k), WHITE);
        assert_eq!(img.get_pixel(k, 212), WHITE);
    }
}

#[test]
fn border_shifts_modules() {
    let m = build_qr("HI", false, EcLevel::M, Some(1)).unwrap();
    let cfg = config(230, 1);
    // scale = 230 / 23 = 10; the quiet zone is one module wide.
    let img = generate_qr_image(&m, &cfg, None).unwrap();
    for k in 0..230u32 {
        assert_eq!(img.get_pixel(k, 5), WHITE);
        assert_eq!(img.get_pixel(5, k), WHITE);
    }
    // Module (0,0) is dark and now sits at pixel (10,10).
    assert_eq!(img.get_pixel(10, 10), BLACK);
}

#[test]
fn circle_dots_leave_cell_corners() {
    let mut img = Canvas::new_filled(10, 10, WHITE);
    apply_dot_style(&mut img, 0, 0, 10, BLACK, &DotStyle::Circle);
    assert_eq!(img.get_pixel(0, 0), WHITE);
    assert_eq!(img.get_pixel(9, 9), WHITE);
    assert_eq!(img.get_pixel(5, 5), BLACK);
    assert_eq!(img.get_pixel(0, 5), BLACK);
}

#[test]
fn frame_eye_glyph_geometry() {
    let mut img = Canvas::new_filled(10, 10, WHITE);
    apply_eye_style(&mut img, 0, 0, 10, BLACK, &EyeStyle::Frame);
    for k in 0..10u32 {
        assert_eq!(img.get_pixel(k, 0), BLACK);
        assert_eq!(img.get_pixel(k, 1), BLACK);
        assert_eq!(img.get_pixel(k, 8), BLACK);
        assert_eq!(img.get_pixel(0, k), BLACK);
    }
    for k in 2..8u32 {
        for l in 2..8u32 {
            assert_eq!(img.get_pixel(k, l), WHITE);
        }
    }
}

#[test]
fn matrix_constructor_validates() {
    assert!(QrMatrix::new(21, vec![false; 441]).is_some());
    assert!(QrMatrix::new(20, vec![false; 400]).is_none());
    assert!(QrMatrix::new(21, vec![false; 440]).is_none());
    assert!(QrMatrix::new(178, vec![false; 178 * 178]).is_none());
}

#[test]
fn terminal_text_shape() {
    let m = build_qr("HI", false, EcLevel::M, Some(1)).unwrap();
    let t = terminal_text(&m);
    assert!(t.starts_with("\nQR Code:\n"));
    assert!(t.ends_with("\n\n"));
    assert_eq!(t.lines().filter(|l| !l.is_empty() && *l != "QR Code:").count(), 21);
    let row: Vec<&str> = t.lines().collect();
    // Each module row holds two characters per module.
    assert_eq!(row[2].chars().count(), 42);
    assert!(t.contains("\u{2588}\u{2588}"));
}
