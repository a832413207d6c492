//! Pixel decoder: the one trusted boundary to the JPEG entropy decoder.
//!
//! Decoding a JPEG stream to pixels is pages of specification, but — with
//! the decoder built in its platform-independent mode — it is a pure
//! function of the stream bytes, so the result is given a name
//! (`jpeg_decode_of`) and every contract downstream speaks of that name.
//! All facts the pipeline relies on (dimension agreement, buffer length)
//! are checked at runtime in verified code, not assumed here, and the
//! streams on which the decoder can panic are excluded by a precondition
//! that verified code establishes before every call.

use vstd::prelude::*;
use crate::jpeg::spec_jpeg_dims;

verus! {

/// A stream this core hands to the entropy decoder: it opens with a
/// readable frame header whose component count is 1, 3 or 4 and whose
/// sample precision is at least 2. The decoder returns a `Result` on such
/// streams; outside this set its color-conversion dispatch panics on a
/// 2-component frame, and its metadata accessor panics on a lossless
/// frame of precision below 2.
pub open spec fn spec_stream_safe(s: Seq<u8>) -> bool {
    match spec_jpeg_dims(s, 0, s.len() as int) {
        Some((m, w, h, prec, nc)) => (nc == 1 || nc == 3 || nc == 4) && prec >= 2,
        None => false,
    }
}

/// What the JPEG entropy decoder returns for a safe stream: `None` when
/// the stream does not decode at all; `Some((w, h, None))` when it decodes
/// to a pixel format other than 8-bit RGB (grayscale, CMYK); else the
/// width, height and the flat row-major RGB pixel bytes.
pub uninterp spec fn jpeg_decode_of(s: Seq<u8>) -> Option<(u32, u32, Option<Seq<u8>>)>;

/// Relies on `jpeg_decoder::Decoder::{new, decode, info}`, with the
/// crate's `platform_independent` feature enabled: decoding an in-memory
/// stream then reads nothing but the bytes and uses no platform-specific
/// code paths, so the result is a function of them alone, the same on
/// every machine. The `requires` excludes the streams on which the
/// decoder panics instead of returning its `Result` (see
/// `spec_stream_safe`); callers establish it by scanning the frame header
/// in verified code first.
#[verifier::external_body]
pub(crate) fn decode_jpeg_stream(s: &[u8]) -> (r: Option<(u32, u32, Option<Vec<u8>>)>)
    requires
        spec_stream_safe(s@),
    ensures
        match (r, jpeg_decode_of(s@)) {
            (Some((w, h, Some(p))), Some((sw, sh, Some(sp)))) => w == sw && h == sh && p@ == sp,
            (Some((w, h, None)), Some((sw, sh, None))) => w == sw && h == sh,
            (None, None) => true,
            _ => false,
        },
{
    let mut dec = jpeg_decoder::Decoder::new(std::io::Cursor::new(s));
    let pixels = match dec.decode() {
        Ok(p) => p,
        Err(_) => return None,
    };
    match dec.info() {
        Some(i) => match i.pixel_format {
            jpeg_decoder::PixelFormat::RGB24 => Some(
                (i.width as u32, i.height as u32, Some(pixels)),
            ),
            _ => Some((i.width as u32, i.height as u32, None)),
        },
        None => None,
    }
}

} // verus!
