//! Window icons from PNG bytes: decoding, and widening RGB pixels to RGBA.

use vstd::prelude::*;
use std::io::Cursor;
use crate::text::{append_chars, append_str, dec_of, dec_string, string_from_chars};

verus! {

/// Error decoding an app icon PNG.
#[derive(Debug, Clone)]
pub struct AppIconError {
    msg: String,
}

impl AppIconError {
    /// The text of the error.
    pub closed spec fn text(&self) -> Seq<char> {
        self.msg@
    }

    /// An error with the given text.
    pub fn new(msg: String) -> (e: AppIconError)
        ensures
            e.text() == msg@,
    {
        AppIconError { msg }
    }

    pub fn message(&self) -> (m: &str)
        ensures
            m@ == self.text(),
    {
        self.msg.as_str()
    }
}

/// How a decoder run fails: in the header, on the frame, or because the
/// frame would not fit the address space.
#[derive(Debug, Clone, PartialEq, Eq, Structural)]
pub enum PngStage {
    Header,
    Frame,
    TooLarge,
}

/// One decoded PNG frame: size, colour type code and the frame's bytes.
pub struct PngFrame {
    pub width: u32,
    pub height: u32,
    pub color_code: u8,
    pub data: Vec<u8>,
}

/// What `png` makes of a file's bytes, with expansion to 8-bit samples and an
/// alpha channel where the file has transparency: the frame's width, height,
/// colour type code and bytes, or where it fails and the error's text.
pub uninterp spec fn png_decoded(bytes: Seq<u8>) -> Result<(u32, u32, u8, Seq<u8>), (PngStage, Seq<char>)>;

/// `png::Decoder` with `EXPAND | ALPHA`, `read_info`, `output_buffer_size` and
/// `next_frame`; the frame's bytes are the first `buffer_size()` of the
/// output buffer. Claimed: the result is the one `png_decoded` names for the
/// bytes.
#[verifier::external_body]
fn png_decode(bytes: &[u8]) -> (r: Result<PngFrame, (PngStage, String)>)
    ensures
        match (r, png_decoded(bytes@)) {
            (Ok(f), Ok((w, h, c, d))) => f.width == w && f.height == h && f.color_code == c && f.data@ == d,
            (Err((s, m)), Err((s2, m2))) => s == s2 && m@ == m2,
            _ => false,
        },
{
    let mut decoder = png::Decoder::new(Cursor::new(bytes));
    decoder.set_transformations(png::Transformations::EXPAND | png::Transformations::ALPHA);
    let mut reader = decoder.read_info().map_err(|e| (PngStage::Header, e.to_string()))?;
    let size = reader.output_buffer_size().ok_or((PngStage::TooLarge, String::new()))?;
    let mut buf = vec![0u8; size];
    let info = reader.next_frame(&mut buf).map_err(|e| (PngStage::Frame, e.to_string()))?;
    buf.truncate(info.buffer_size());
    Ok(PngFrame { width: info.width, height: info.height, color_code: info.color_type as u8, data: buf })
}

/// `png::ColorType` codes.
pub open spec fn color_name(code: u8) -> Seq<char> {
    if code == 0 {
        "Grayscale"@
    } else if code == 2 {
        "Rgb"@
    } else if code == 3 {
        "Indexed"@
    } else if code == 4 {
        "GrayscaleAlpha"@
    } else {
        "Rgba"@
    }
}

/// RGB pixels widened to opaque RGBA: the first `k` whole pixels.
pub open spec fn rgba_prefix(raw: Seq<u8>, k: nat) -> Seq<u8>
    decreases k,
{
    if k == 0 {
        Seq::empty()
    } else {
        let j = 3 * (k - 1);
        rgba_prefix(raw, (k - 1) as nat) + seq![raw[j], raw[j + 1], raw[j + 2], 255u8]
    }
}

/// RGB samples widened to opaque RGBA; trailing bytes short of a pixel dropped.
pub open spec fn rgb_to_rgba(raw: Seq<u8>) -> Seq<u8> {
    rgba_prefix(raw, raw.len() / 3)
}

/// The RGBA bytes of a frame of colour type `code`: RGBA as it is, RGB
/// widened, anything else refused.
pub open spec fn rgba_of(code: u8, raw: Seq<u8>) -> Option<Seq<u8>> {
    if code == 6 {
        Some(raw)
    } else if code == 2 {
        Some(rgb_to_rgba(raw))
    } else {
        None
    }
}

proof fn lemma_rgba_prefix_len(raw: Seq<u8>, k: nat)
    ensures
        rgba_prefix(raw, k).len() == 4 * k,
    decreases k,
{
    if k > 0 {
        lemma_rgba_prefix_len(raw, (k - 1) as nat);
    }
}

/// Widen RGB samples to opaque RGBA, one pixel per whole three bytes.
pub fn expand_rgb(raw: &Vec<u8>) -> (out: Vec<u8>)
    ensures
        out@ == rgb_to_rgba(raw@),
{
    let n = raw.len() / 3;
    let mut out: Vec<u8> = Vec::new();
    let mut k: usize = 0;
    while k < n
        invariant
            n == raw@.len() / 3,
            raw@.len() == raw.len(),
            k <= n,
            out@ == rgba_prefix(raw@, k as nat),
        decreases n - k,
    {
        assert(3 * k + 3 <= raw.len()) by (nonlinear_arith)
            requires
                k < n,
                n == raw.len() / 3,
        ;
        let j = 3 * k;
        out.push(raw[j]);
        out.push(raw[j + 1]);
        out.push(raw[j + 2]);
        out.push(255u8);
        proof {
            assert(out@ =~= rgba_prefix(raw@, (k + 1) as nat));
        }
        k = k + 1;
    }
    out
}

/// The decoded icon: RGBA bytes of exactly `width × height` pixels.
pub open spec fn icon_result(bytes: Seq<u8>) -> Result<(u32, u32, Seq<u8>), Seq<char>> {
    match png_decoded(bytes) {
        Err((PngStage::Header, m)) => Err("png header: "@ + m),
        Err((PngStage::Frame, m)) => Err("png frame: "@ + m),
        Err((PngStage::TooLarge, _)) => Err("png frame: "@ + "output buffer too large"@),
        Ok((w, h, c, raw)) => match rgba_of(c, raw) {
            None => Err("unsupported png color type: "@ + color_name(c)),
            Some(rgba) => if rgba.len() == w * h * 4 {
                Ok((w, h, rgba))
            } else {
                Err(
                    "rgba length "@ + dec_of(rgba.len()) + " != "@ + dec_of(w as nat) + "×"@
                        + dec_of(h as nat) + "×4"@,
                )
            },
        },
    }
}

fn prefixed(prefix: &str, m: &str) -> (e: AppIconError)
    ensures
        e.text() == prefix@ + m@,
{
    let mut out: Vec<char> = Vec::new();
    append_str(&mut out, prefix);
    append_str(&mut out, m);
    AppIconError::new(string_from_chars(&out))
}

fn color_name_str(code: u8) -> (s: &'static str)
    ensures
        s@ == color_name(code),
{
    if code == 0 {
        "Grayscale"
    } else if code == 2 {
        "Rgb"
    } else if code == 3 {
        "Indexed"
    } else if code == 4 {
        "GrayscaleAlpha"
    } else {
        "Rgba"
    }
}

/// Decode PNG bytes into RGBA8 pixels: width, height and `width × height × 4`
/// bytes, or the reason the bytes do not make an icon.
pub fn decode_png_rgba(bytes: &[u8]) -> (r: Result<(u32, u32, Vec<u8>), AppIconError>)
    ensures
        match (r, icon_result(bytes@)) {
            (Ok((w, h, v)), Ok((w2, h2, v2))) => w == w2 && h == h2 && v@ == v2,
            (Err(e), Err(m)) => e.text() == m,
            _ => false,
        },
{
    let frame = match png_decode(bytes) {
        Ok(f) => f,
        Err((PngStage::Header, m)) => return Err(prefixed("png header: ", m.as_str())),
        Err((PngStage::Frame, m)) => return Err(prefixed("png frame: ", m.as_str())),
        Err((PngStage::TooLarge, _)) => return Err(prefixed("png frame: ", "output buffer too large")),
    };
    let w = frame.width;
    let h = frame.height;
    let rgba = if frame.color_code == 6 {
        frame.data
    } else if frame.color_code == 2 {
        expand_rgb(&frame.data)
    } else {
        return Err(prefixed("unsupported png color type: ", color_name_str(frame.color_code)));
    };
    assert((w as u128) * (h as u128) <= 0xFFFF_FFFFu128 * 0xFFFF_FFFFu128) by (nonlinear_arith);
    let need: u128 = (w as u128) * (h as u128) * 4;
    if rgba.len() as u128 != need {
        let mut out: Vec<char> = Vec::new();
        append_str(&mut out, "rgba length ");
        append_chars(&mut out, &dec_string(rgba.len() as u64));
        append_str(&mut out, " != ");
        append_chars(&mut out, &dec_string(w as u64));
        append_str(&mut out, "×");
        append_chars(&mut out, &dec_string(h as u64));
        append_str(&mut out, "×4");
        proof {
            assert(out@ =~= "rgba length "@ + dec_of(rgba@.len()) + " != "@ + dec_of(w as nat) + "×"@
                + dec_of(h as nat) + "×4"@);
        }
        return Err(AppIconError::new(string_from_chars(&out)));
    }
    Ok((w, h, rgba))
}

} // verus!
