use qrstyle::color::{parse_color, parse_color_from_hex, parse_gradient, interpolate_gradient,
    Rgba8};
use qrstyle::error::Error;
use qrstyle::qr::{parse_ec_level, prepare_data, EcLevel};
use qrstyle::styles::{DotStyle, EyeStyle, is_in_rounded_corner};
use qrstyle::text::u32_to_string;

#[test]
fn parse_color_transparent_sentinel() {
    assert_eq!(parse_color("transparent"), Ok(Rgba8 { r: 0, g: 0, b: 0, a: 0 }));
    assert_eq!(parse_color("TRANSPARENT"), Ok(Rgba8 { r: 0, g: 0, b: 0, a: 0 }));
}

#[test]
fn parse_color_hex_black_and_white() {
    assert_eq!(parse_color("#000000"), Ok(Rgba8 { r: 0, g: 0, b: 0, a: 255 }));
    assert_eq!(parse_color("#ffffff"), Ok(Rgba8 { r: 255, g: 255, b: 255, a: 255 }));
}

#[test]
fn parse_color_primary_channels() {
    assert_eq!(parse_color("#ff0000"), Ok(Rgba8 { r: 255, g: 0, b: 0, a: 255 }));
    assert_eq!(parse_color("#0000ff"), Ok(Rgba8 { r: 0, g: 0, b: 255, a: 255 }));
    assert_eq!(parse_color_from_hex("#00ff00"), Ok(Rgba8 { r: 0, g: 255, b: 0, a: 255 }));
}

#[test]
fn parse_color_bad_literal_is_rejected() {
    assert_eq!(parse_color("#zz"), Err(Error::InvalidColor));
    assert_eq!(parse_color("not-a-color"), Err(Error::InvalidColor));
}

#[test]
fn parse_gradient_two_colors() {
    let g = parse_gradient("#ff0000,#0000ff").unwrap();
    assert_eq!(g.0, Rgba8 { r: 255, g: 0, b: 0, a: 255 });
    assert_eq!(g.1, Rgba8 { r: 0, g: 0, b: 255, a: 255 });
}

#[test]
fn parse_gradient_trims_whitespace() {
    let g = parse_gradient("  #ff0000 , #0000ff  ").unwrap();
    assert_eq!(g.0, Rgba8 { r: 255, g: 0, b: 0, a: 255 });
    assert_eq!(g.1, Rgba8 { r: 0, g: 0, b: 255, a: 255 });
}

#[test]
fn parse_gradient_wrong_arity_is_rejected() {
    assert_eq!(parse_gradient("#ff0000"), Err(Error::InvalidGradient));
    assert_eq!(parse_gradient("#ff0000,#00ff00,#0000ff"), Err(Error::InvalidGradient));
}

#[test]
fn parse_gradient_bad_color_is_rejected() {
    assert_eq!(parse_gradient("#ff0000,#zz"), Err(Error::InvalidColor));
}

#[test]
fn lerp_is_endpoint_exact() {
    let c0 = Rgba8 { r: 10, g: 200, b: 30, a: 7 };
    let c1 = Rgba8 { r: 250, g: 5, b: 99, a: 11 };
    let at0 = interpolate_gradient(&(c0, c1), 0, 21);
    assert_eq!((at0.r, at0.g, at0.b, at0.a), (10, 200, 30, 255));
    let at1 = interpolate_gradient(&(c0, c1), 21, 21);
    assert_eq!((at1.r, at1.g, at1.b, at1.a), (250, 5, 99, 255));
}

#[test]
fn lerp_truncates_toward_zero() {
    let c0 = Rgba8 { r: 255, g: 0, b: 0, a: 255 };
    let c1 = Rgba8 { r: 0, g: 0, b: 255, a: 255 };
    let c = interpolate_gradient(&(c0, c1), 20, 21);
    // 255 - 255 * 20 / 21 truncates to 12; 255 * 20 / 21 truncates to 242.
    assert_eq!((c.r, c.g, c.b, c.a), (12, 0, 242, 255));
}

#[test]
fn dot_style_names_fold_case() {
    assert_eq!(DotStyle::from_str("circle"), DotStyle::Circle);
    assert_eq!(DotStyle::from_str("CIRCLE"), DotStyle::Circle);
    assert_eq!(DotStyle::from_str("rounded"), DotStyle::Rounded);
    assert_eq!(DotStyle::from_str("square"), DotStyle::Square);
    assert_eq!(DotStyle::from_str("anything-else"), DotStyle::Square);
}

#[test]
fn eye_style_names_fold_case() {
    assert_eq!(EyeStyle::from_str("frame"), EyeStyle::Frame);
    assert_eq!(EyeStyle::from_str("Circle"), EyeStyle::Circle);
    assert_eq!(EyeStyle::from_str(""), EyeStyle::Square);
}

#[test]
fn ec_level_names_fold_case() {
    assert_eq!(parse_ec_level("l"), EcLevel::L);
    assert_eq!(parse_ec_level("Q"), EcLevel::Q);
    assert_eq!(parse_ec_level("h"), EcLevel::H);
    assert_eq!(parse_ec_level("M"), EcLevel::M);
    assert_eq!(parse_ec_level("bogus"), EcLevel::M);
}

#[test]
fn prepare_data_base64() {
    assert_eq!(prepare_data("HI", true), "SEk=");
    assert_eq!(prepare_data("HI", false), "HI");
    assert_eq!(prepare_data("hello world", true), "aGVsbG8gd29ybGQ=");
}

#[test]
fn rounded_corner_predicate() {
    // Scale 10, radius 3: the very corner pixel is outside the quarter disc.
    assert!(!is_in_rounded_corner(0, 0, 10));
    // The cell centre is outside every corner region, hence drawn.
    assert!(is_in_rounded_corner(5, 5, 10));
    // A pixel at the inset corner centre is within the radius.
    assert!(is_in_rounded_corner(3, 3, 10));
}

#[test]
fn decimal_rendering() {
    assert_eq!(u32_to_string(0), "0");
    assert_eq!(u32_to_string(7), "7");
    assert_eq!(u32_to_string(210), "210");
    assert_eq!(u32_to_string(4294967295), "4294967295");
}
