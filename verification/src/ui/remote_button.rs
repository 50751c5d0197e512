//! The title-bar remote-control popover: the paired-devices line and the
//! QR code that carries the connection payload.
use vstd::prelude::*;
use vstd::string::StringSliceAdditionalSpecFns;

use crate::text::{append_str, decimal, push_decimal, string_from_chars};

verus! {

/// The paired-devices line for `count` devices.
pub open spec fn devices_text(count: nat) -> Seq<char> {
    if count == 0 {
        "No paired devices"@
    } else if count == 1 {
        "1 paired device"@
    } else {
        decimal(count) + " paired devices"@
    }
}

pub fn devices_label(count: usize) -> (r: String)
    ensures
        r@ == devices_text(count as nat),
{
    let mut out: Vec<char> = Vec::new();
    if count == 0 {
        append_str(&mut out, "No paired devices");
    } else if count == 1 {
        append_str(&mut out, "1 paired device");
    } else {
        push_decimal(&mut out, count as u64);
        append_str(&mut out, " paired devices");
    }
    string_from_chars(&out)
}

/// The QR code of some bytes at error-correction level H: its width in
/// modules and its modules row by row (`true` for dark); `None` when the
/// data does not fit.
pub uninterp spec fn qr_code_h(data: Seq<u8>) -> Option<(nat, Seq<bool>)>;

/// Encodes with `qrcode::QrCode::with_error_correction_level(_, EcLevel::H)`,
/// then `width` and `to_colors`.
///
/// Trusted: the result is the named code of the bytes; the source builds
/// `width * width` modules.
#[verifier::external_body]
fn qr_modules(payload: &str) -> (r: Option<(usize, Vec<bool>)>)
    ensures
        match r {
            Some((w, m)) => qr_code_h(payload.spec_bytes()) == Some((w as nat, m@)) && m@.len() == w * w,
            None => qr_code_h(payload.spec_bytes()) is None,
        },
{
    match qrcode::QrCode::with_error_correction_level(payload, qrcode::EcLevel::H) {
        Ok(code) => {
            let dark: Vec<bool> = code.to_colors().into_iter().map(|c| c == qrcode::Color::Dark).collect();
            Some((code.width(), dark))
        },
        Err(_) => None,
    }
}

/// Color of a dark module.
pub const QR_DARK_RGB: u32 = 0xeaeaea;

/// Color of a light module (and of the quiet zone).
pub const QR_LIGHT_RGB: u32 = 0x1e1e1e;

/// `rows` draws a `w`-wide code: `w` rows of `w` cells, each the dark or
/// light color of its module.
pub open spec fn draws_code(w: nat, modules: Seq<bool>, rows: Seq<Vec<u32>>) -> bool {
    &&& rows.len() == w
    &&& forall|r: int| 0 <= r < w ==> (#[trigger] rows[r])@.len() == w
    &&& forall|r: int, c: int| 0 <= r < w && 0 <= c < w ==> (#[trigger] rows[r]@[c]) == if modules[r * w + c] {
        QR_DARK_RGB
    } else {
        QR_LIGHT_RGB
    }
}

/// The cell colors of a `width`-wide code, row by row.
pub fn qr_cells(width: usize, dark: &Vec<bool>) -> (rows: Vec<Vec<u32>>)
    requires
        dark@.len() == width * width,
    ensures
        draws_code(width as nat, dark@, rows@),
{
    let n = dark.len();
    let mut rows: Vec<Vec<u32>> = Vec::new();
    let mut r: usize = 0;
    while r < width
        invariant
            r <= width,
            dark@.len() == width * width,
            n == dark@.len(),
            rows@.len() == r,
            forall|i: int| 0 <= i < r ==> (#[trigger] rows@[i])@.len() == width,
            forall|i: int, c: int| 0 <= i < r && 0 <= c < width ==> (#[trigger] rows@[i]@[c]) == if dark@[i * width + c] {
                QR_DARK_RGB
            } else {
                QR_LIGHT_RGB
            },
        decreases width - r,
    {
        let mut row: Vec<u32> = Vec::new();
        let mut c: usize = 0;
        while c < width
            invariant
                r < width,
                c <= width,
                dark@.len() == width * width,
                n == dark@.len(),
                row@.len() == c,
                forall|j: int| 0 <= j < c ==> (#[trigger] row@[j]) == if dark@[r * width + j] {
                    QR_DARK_RGB
                } else {
                    QR_LIGHT_RGB
                },
            decreases width - c,
        {
            proof {
                assert(r * width + c < width * width && 0 <= r * width) by (nonlinear_arith)
                    requires
                        r < width,
                        c < width,
                ;
            }
            let cell = if dark[r * width + c] {
                QR_DARK_RGB
            } else {
                QR_LIGHT_RGB
            };
            row.push(cell);
            c += 1;
        }
        rows.push(row);
        r += 1;
    }
    rows
}

/// The QR code for the connection payload, as cell colors; `None` when the
/// payload does not fit in a QR code.
pub fn qr_grid(payload: &str) -> (r: Option<Vec<Vec<u32>>>)
    ensures
        match qr_code_h(payload.spec_bytes()) {
            Some((w, m)) => r matches Some(rows) && draws_code(w, m, rows@),
            None => r is None,
        },
{
    match qr_modules(payload) {
        Some((w, dark)) => Some(qr_cells(w, &dark)),
        None => None,
    }
}

} // verus!
