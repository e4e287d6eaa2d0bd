//! The QR matrix: a square grid of dark/light modules, produced by the
//! outside encoder, consumed by the renderer. The encoder itself is trusted;
//! everything downstream of it is verified against the matrix value.

use vstd::prelude::*;
use base64::Engine as _;
use crate::error::Error;
use crate::text::{lower_seq, eq_ignore_ascii_case};

verus! {

use vstd::arithmetic::mul::lemma_mul_inequality;

/// An N x N grid of booleans (true = dark), N in 21..=177 as for QR
/// versions 1..=40. Row-major: module (x, y) sits at index `y * width + x`.
pub struct QrMatrix {
    pub width: u32,
    pub modules: Vec<bool>,
}

impl QrMatrix {
    pub open spec fn wf(self) -> bool {
        &&& 21 <= self.width <= 177
        &&& self.modules@.len() == (self.width as int) * (self.width as int)
    }

    /// Whether module (x, y) is dark.
    pub open spec fn at(self, x: int, y: int) -> bool {
        self.modules@[y * (self.width as int) + x]
    }

    /// Builds a matrix from its parts; rejects anything not square or
    /// outside the QR version range.
    pub fn new(width: u32, modules: Vec<bool>) -> (r: Option<QrMatrix>)
        ensures
            match r {
                Some(m) => m.wf() && m.width == width && m.modules@ == modules@,
                None => !(21 <= width <= 177 && modules@.len() == (width as int) * (
                width as int)),
            },
    {
        if width < 21 || width > 177 {
            return None;
        }
        proof {
            assert((width as int) * (width as int) <= 31329) by (nonlinear_arith)
                requires
                    width <= 177,
            ;
        }
        if modules.len() != (width as usize) * (width as usize) {
            return None;
        }
        Some(QrMatrix { width, modules })
    }

    pub fn get_width(&self) -> (w: u32)
        ensures
            w == self.width,
    {
        self.width
    }

    /// Reads one module.
    pub fn is_dark(&self, x: u32, y: u32) -> (r: bool)
        requires
            self.wf(),
            x < self.width,
            y < self.width,
        ensures
            r == self.at(x as int, y as int),
    {
        let n: usize = self.modules.len();
        proof {
            let w = self.width as int;
            lemma_mul_inequality(y as int + 1, w, w);
            assert((y as int) * w + x < (y as int + 1) * w && 0 <= (y as int) * w + x) by (
            nonlinear_arith)
                requires
                    0 <= x < w,
                    0 <= y,
            ;
        }
        let idx: usize = (y as usize) * (self.width as usize) + (x as usize);
        assert(idx < n);
        self.modules[idx]
    }
}

/// The Reed-Solomon error-correction level.
#[derive(Debug, Clone, Copy, PartialEq, Eq, Structural)]
pub enum EcLevel {
    L,
    M,
    Q,
    H,
}

pub open spec fn ec_level_spec(s: Seq<char>) -> EcLevel {
    if lower_seq(s) == "l"@ {
        EcLevel::L
    } else if lower_seq(s) == "q"@ {
        EcLevel::Q
    } else if lower_seq(s) == "h"@ {
        EcLevel::H
    } else {
        EcLevel::M
    }
}

/// Chooses the error-correction level by name, case-insensitively;
/// anything unrecognised falls back to M.
pub fn parse_ec_level(s: &str) -> (r: EcLevel)
    ensures
        r == ec_level_spec(s@),
{
    proof {
        reveal_strlit("l");
        reveal_strlit("q");
        reveal_strlit("h");
        assert(lower_seq("l"@) =~= "l"@);
        assert(lower_seq("q"@) =~= "q"@);
        assert(lower_seq("h"@) =~= "h"@);
    }
    if eq_ignore_ascii_case(s, "l") {
        EcLevel::L
    } else if eq_ignore_ascii_case(s, "q") {
        EcLevel::Q
    } else if eq_ignore_ascii_case(s, "h") {
        EcLevel::H
    } else {
        EcLevel::M
    }
}

/// What the standard padded base64 encoding of a string's bytes is.
pub uninterp spec fn base64_std_of(s: Seq<char>) -> Seq<char>;

pub open spec fn seq_is_ascii(s: Seq<char>) -> bool {
    forall|i: int| 0 <= i < s.len() ==> (s[i] as int) < 128
}

/// Relies on base64's general_purpose::STANDARD engine: the padded
/// standard-alphabet encoding of the input bytes; it depends on the input
/// alone. Four output characters stand for every three input bytes.
#[verifier::external_body]
fn base64_encode(data: &str) -> (r: String)
    ensures
        r@ == base64_std_of(data@),
        seq_is_ascii(data@) ==> r@.len() == 4 * ((data@.len() + 2) / 3),
{
    base64::engine::general_purpose::STANDARD.encode(data)
}

/// The payload actually encoded: the data itself, or its base64 form.
pub open spec fn payload_spec(data: Seq<char>, encode: bool) -> Seq<char> {
    if encode {
        base64_std_of(data)
    } else {
        data
    }
}

/// Base64-encodes the data when asked to, else passes it through.
pub fn prepare_data(data: &str, encode: bool) -> (r: String)
    ensures
        r@ == payload_spec(data@, encode),
{
    if encode {
        base64_encode(data)
    } else {
        data.to_owned()
    }
}

/// What the QR encoder produces for a payload at the smallest fitting
/// version: the row-major modules, or nothing when the payload does not fit.
pub uninterp spec fn qr_modules_auto(data: Seq<char>, ec: EcLevel) -> Option<Seq<bool>>;

/// As `qr_modules_auto`, but for one fixed version 1..=40.
pub uninterp spec fn qr_modules_at_version(data: Seq<char>, version: int, ec: EcLevel) -> Option<
    Seq<bool>,
>;

/// Relies on qrcode::QrCode::with_error_correction_level: encodes the
/// payload at the smallest version that fits, and on width() and
/// to_colors(): the module grid is width x width, row-major, with width
/// = 17 + 4 * version in 21..=177.
#[verifier::external_body]
fn qr_encode_auto(data: &str, ec: EcLevel) -> (r: Option<QrMatrix>)
    ensures
        (r matches Some(m) ==> m.wf() && qr_modules_auto(data@, ec) == Some(m.modules@)),
        (r is None ==> qr_modules_auto(data@, ec) is None),
{
    let lvl = match ec {
        EcLevel::L => qrcode::EcLevel::L,
        EcLevel::M => qrcode::EcLevel::M,
        EcLevel::Q => qrcode::EcLevel::Q,
        EcLevel::H => qrcode::EcLevel::H,
    };
    match qrcode::QrCode::with_error_correction_level(data, lvl) {
        Ok(code) => {
            let width = code.width() as u32;
            let modules: Vec<bool> =
                code.to_colors().into_iter().map(|c| c == qrcode::Color::Dark).collect();
            Some(QrMatrix { width, modules })
        },
        Err(_) => None,
    }
}

/// Relies on qrcode::QrCode::with_version with Version::Normal: encodes the
/// payload at exactly the requested version, whose grid is
/// (17 + 4 * version) squared, row-major via width() and to_colors().
#[verifier::external_body]
fn qr_encode_at_version(data: &str, version: u8, ec: EcLevel) -> (r: Option<QrMatrix>)
    requires
        1 <= version <= 40,
    ensures
        (r matches Some(m) ==> m.wf() && m.width == 17 + 4 * (version as int)
            && qr_modules_at_version(data@, version as int, ec) == Some(m.modules@)),
        (r is None ==> qr_modules_at_version(data@, version as int, ec) is None),
{
    let lvl = match ec {
        EcLevel::L => qrcode::EcLevel::L,
        EcLevel::M => qrcode::EcLevel::M,
        EcLevel::Q => qrcode::EcLevel::Q,
        EcLevel::H => qrcode::EcLevel::H,
    };
    match qrcode::QrCode::with_version(data, qrcode::Version::Normal(version as i16), lvl) {
        Ok(code) => {
            let width = code.width() as u32;
            let modules: Vec<bool> =
                code.to_colors().into_iter().map(|c| c == qrcode::Color::Dark).collect();
            Some(QrMatrix { width, modules })
        },
        Err(_) => None,
    }
}

/// What `build_qr` must produce for the given request.
pub open spec fn build_qr_spec(data: Seq<char>, encode: bool, ec: EcLevel,
    version: Option<u8>, r: Result<QrMatrix, Error>) -> bool {
    let payload = payload_spec(data, encode);
    match version {
        Some(v) => if 1 <= v <= 40 {
            match qr_modules_at_version(payload, v as int, ec) {
                Some(mods) => r matches Ok(m) && m.wf() && m.width == 17 + 4 * (v as int)
                    && m.modules@ == mods,
                None => r == Err::<QrMatrix, Error>(Error::EncodeFailed),
            }
        } else {
            r == Err::<QrMatrix, Error>(Error::EncodeFailed)
        },
        None => match qr_modules_auto(payload, ec) {
            Some(mods) => r matches Ok(m) && m.wf() && m.modules@ == mods,
            None => r == Err::<QrMatrix, Error>(Error::EncodeFailed),
        },
    }
}

/// Builds the QR matrix for the request: optionally base64-encodes the
/// data, then encodes it at the requested version or at the smallest
/// fitting one. Fails exactly when the encoder cannot fit the payload or
/// the version is outside 1..=40.
pub fn build_qr(data: &str, encode: bool, ec: EcLevel, version: Option<u8>) -> (r: Result<
    QrMatrix,
    Error,
>)
    ensures
        build_qr_spec(data@, encode, ec, version, r),
{
    let payload = prepare_data(data, encode);
    match version {
        Some(v) => {
            if v < 1 || v > 40 {
                Err(Error::EncodeFailed)
            } else {
                match qr_encode_at_version(payload.as_str(), v, ec) {
                    Some(m) => Ok(m),
                    None => Err(Error::EncodeFailed),
                }
            }
        },
        None => {
            match qr_encode_auto(payload.as_str(), ec) {
                Some(m) => Ok(m),
                None => Err(Error::EncodeFailed),
            }
        },
    }
}

/// One module as terminal text: a full block pair for dark, two spaces
/// for light.
pub open spec fn terminal_block(dark: bool) -> Seq<char> {
    if dark {
        "██"@
    } else {
        "  "@
    }
}

/// Row y rendered for the terminal, columns before x.
pub open spec fn terminal_row(m: QrMatrix, y: int, x: int) -> Seq<char>
    decreases x,
{
    if x <= 0 {
        Seq::empty()
    } else {
        terminal_row(m, y, x - 1) + terminal_block(m.at(x - 1, y))
    }
}

/// All rows before y, each closed with a newline.
pub open spec fn terminal_rows(m: QrMatrix, y: int) -> Seq<char>
    decreases y,
{
    if y <= 0 {
        Seq::empty()
    } else {
        terminal_rows(m, y - 1) + terminal_row(m, y - 1, m.width as int) + "\n"@
    }
}

/// The matrix as terminal text: a heading, one line per row with two
/// characters per module, and a closing blank line.
pub open spec fn terminal_text_spec(m: QrMatrix) -> Seq<char> {
    "\nQR Code:\n"@ + terminal_rows(m, m.width as int) + "\n"@
}

/// Renders the matrix as text for a terminal, dark modules as full
/// blocks.
pub fn terminal_text(m: &QrMatrix) -> (s: String)
    requires
        m.wf(),
    ensures
        s@ == terminal_text_spec(*m),
{
    let n = m.get_width();
    let mut s = String::from_str("\nQR Code:\n");
    let mut y: u32 = 0;
    while y < n
        invariant
            m.wf(),
            n == m.width,
            y <= n,
            s@ == "\nQR Code:\n"@ + terminal_rows(*m, y as int),
        decreases n - y,
    {
        let mut x: u32 = 0;
        while x < n
            invariant
                m.wf(),
                n == m.width,
                y < n,
                x <= n,
                s@ == "\nQR Code:\n"@ + terminal_rows(*m, y as int) + terminal_row(*m,
                    y as int, x as int),
            decreases n - x,
        {
            if m.is_dark(x, y) {
                s.append("██");
            } else {
                s.append("  ");
            }
            assert(s@ =~= "\nQR Code:\n"@ + terminal_rows(*m, y as int) + terminal_row(*m,
                y as int, x as int + 1));
            x += 1;
        }
        s.append("\n");
        assert(s@ =~= "\nQR Code:\n"@ + terminal_rows(*m, y as int + 1));
        y += 1;
    }
    s.append("\n");
    assert(s@ =~= terminal_text_spec(*m));
    s
}

} // verus!
