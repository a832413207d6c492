//! Thumbnail extraction core for photo files.
//!
//! The library locates and decodes an embedded preview image in a raw byte
//! buffer holding either a baseline JPEG or a DNG (TIFF-based) container,
//! honors a longest-edge size hint, and returns a self-describing output
//! buffer: 4 bytes big-endian width, 4 bytes big-endian height, then
//! `3 * width * height` bytes of orientation-corrected 8-bit RGB pixels.
//! The host is responsible for all I/O, caching and display; the core
//! never reads files, never retains the input beyond a call, and every
//! decode is a pure function of the input bytes and the size hint.

use vstd::prelude::*;

pub mod arith;
pub mod bytes;
pub mod container;
pub mod decode;
pub mod dng;
pub mod error;
pub mod jpeg;
pub mod locator;
pub mod scale;
pub mod tiff;

use crate::arith::lemma_mul_le;
use crate::bytes::{ByteOrder, spec_u32_at};
use crate::container::{Candidate, spec_area, spec_candidate_wf, spec_candidates_wf};
use crate::decode::{jpeg_decode_of, decode_jpeg_stream};
use crate::dng::{spec_parse_dng, parse_dng, lemma_parse_dng_wf};
use crate::error::{CoreError, ErrorKind, err_at};
use crate::jpeg::{spec_parse_jpeg, parse_jpeg};
use crate::locator::{spec_select, spec_qualifies, select_candidate, lemma_select_properties};
use crate::scale::{DEFAULT_MAX_EDGE, spec_effective_bound, effective_bound, spec_output,
    spec_target_dims, spec_oriented_w, spec_oriented_h, lemma_target_dims, build_output};
use vstd::arithmetic::div_mod::{lemma_fundamental_div_mod, lemma_small_mod, lemma_mod_bound};
use vstd::slice::slice_subrange;

verus! {

/// The fixed version string reported by `PhotoSortCore::version`.
pub open spec fn spec_version() -> Seq<char> {
    "1.0.0"@
}

/// Decode the selected candidate's stream and produce the output buffer.
/// The stream must open with a readable frame header the decoder is safe
/// on (see `spec_stream_safe`) and decode to an 8-bit RGB image matching
/// the candidate's declared dimensions; a stream of another pixel format
/// (grayscale, CMYK) or with an unusual component count or precision is a
/// recognized but unsupported variant.
pub open spec fn spec_decode_from_candidate(d: Seq<u8>, c: Candidate, o: u16, b: u32) -> Result<
    Seq<u8>,
    CoreError,
> {
    let s = d.subrange(c.offset as int, c.offset + c.length);
    match crate::jpeg::spec_jpeg_dims(s, 0, s.len() as int) {
        None => Err(err_at(ErrorKind::DecodeFailure, c.offset as int)),
        Some((sm, sw, sh, prec, nc)) => if !((nc == 1 || nc == 3 || nc == 4) && prec >= 2) {
            Err(err_at(ErrorKind::UnsupportedFeature, c.offset as int))
        } else {
            match jpeg_decode_of(s) {
                None => Err(err_at(ErrorKind::DecodeFailure, c.offset as int)),
                Some((w, h, None)) => Err(err_at(ErrorKind::UnsupportedFeature, c.offset as int)),
                Some((w, h, Some(p))) => if !(1 <= w <= 0xFFFF && 1 <= h <= 0xFFFF) {
                    Err(err_at(ErrorKind::DecodeFailure, c.offset as int))
                } else if w != c.width || h != c.height {
                    Err(err_at(ErrorKind::DecodeFailure, c.offset as int))
                } else if p.len() != 3 * (w as int) * (h as int) {
                    Err(err_at(ErrorKind::DecodeFailure, c.offset as int))
                } else {
                    Ok(spec_output(p, w, h, o, b))
                },
            }
        },
    }
}

/// The full pipeline after structural parsing: select a candidate per the
/// locator policy, decode it, orient and resize.
pub open spec fn spec_decode_pipeline(
    parsed: Result<(Seq<Candidate>, u16), CoreError>,
    d: Seq<u8>,
    m: u32,
) -> Result<Seq<u8>, CoreError> {
    match parsed {
        Err(e) => Err(e),
        Ok((cands, o)) => match spec_select(cands, spec_effective_bound(m)) {
            None => Err(err_at(ErrorKind::NoThumbnailAvailable, 0)),
            Some(i) => spec_decode_from_candidate(d, cands[i], o, spec_effective_bound(m)),
        },
    }
}

/// What `decode_jpeg_thumbnail` returns, as a function of the input bytes
/// and the size hint alone.
pub open spec fn spec_decode_jpeg(d: Seq<u8>, m: u32) -> Result<Seq<u8>, CoreError> {
    spec_decode_pipeline(spec_parse_jpeg(d), d, m)
}

/// What `decode_dng_thumbnail` returns, as a function of the input bytes
/// and the size hint alone.
pub open spec fn spec_decode_dng(d: Seq<u8>, m: u32) -> Result<Seq<u8>, CoreError> {
    spec_decode_pipeline(spec_parse_dng(d), d, m)
}

/// The selected candidate's stream is safe for the decoder and decodes to
/// an 8-bit RGB image of the candidate's declared dimensions: the
/// hypothesis under which a decode is owed to succeed.
pub open spec fn spec_candidate_decodes_rgb(d: Seq<u8>, c: Candidate) -> bool {
    let s = d.subrange(c.offset as int, c.offset + c.length);
    &&& crate::decode::spec_stream_safe(s)
    &&& match jpeg_decode_of(s) {
        Some((w, h, Some(p))) => w == c.width && h == c.height && p.len() == 3 * (w as int) * (
        h as int),
        _ => false,
    }
}

/// An exec decode result agrees with its specification value.
pub open spec fn spec_result_matches(r: Result<Vec<u8>, CoreError>, s: Result<
    Seq<u8>,
    CoreError,
>) -> bool {
    match r {
        Ok(v) => s == Ok::<Seq<u8>, CoreError>(v@),
        Err(e) => s == Err::<Seq<u8>, CoreError>(e),
    }
}

/// Decode one candidate: slice its byte range, decode the stream, check
/// the decoded image against the declared dimensions, orient and resize.
fn decode_candidate(data: &[u8], c: Candidate, o: u16, b: u32) -> (r: Result<Vec<u8>, CoreError>)
    requires
        spec_candidate_wf(c, data@.len() as int),
        1 <= b,
    ensures
        spec_result_matches(r, spec_decode_from_candidate(data@, c, o, b)),
{
    let dlen = data.len();
    proof {
        assert(c.offset + c.length <= dlen);
    }
    let stream = slice_subrange(data, c.offset, c.offset + c.length);
    match crate::jpeg::jpeg_dims(stream, 0, stream.len()) {
        None => {
            return Err(CoreError::new(ErrorKind::DecodeFailure, c.offset as u64));
        },
        Some((_, _, _, prec, nc)) => {
            if !((nc == 1 || nc == 3 || nc == 4) && prec >= 2) {
                return Err(CoreError::new(ErrorKind::UnsupportedFeature, c.offset as u64));
            }
        },
    }
    match decode_jpeg_stream(stream) {
        None => Err(CoreError::new(ErrorKind::DecodeFailure, c.offset as u64)),
        Some((_, _, None)) => Err(CoreError::new(ErrorKind::UnsupportedFeature, c.offset as u64)),
        Some((w, h, Some(p))) => {
            if !(1 <= w && w <= 0xFFFF && 1 <= h && h <= 0xFFFF) {
                return Err(CoreError::new(ErrorKind::DecodeFailure, c.offset as u64));
            }
            if w != c.width || h != c.height {
                return Err(CoreError::new(ErrorKind::DecodeFailure, c.offset as u64));
            }
            proof {
                lemma_mul_le(3 * (w as int), h as int, 0x2FFFD, 0xFFFF);
            }
            let plen = p.len();
            if (plen as u64) != 3 * (w as u64) * (h as u64) {
                return Err(CoreError::new(ErrorKind::DecodeFailure, c.offset as u64));
            }
            Ok(build_output(&p, w, h, o, b))
        },
    }
}

/// The stateless core facade: a version accessor and one decode entry
/// point per supported container format. Holds no per-call state, so one
/// instance may serve any number of decode calls.
pub struct PhotoSortCore {
    version: String,
}

impl PhotoSortCore {
    /// The version string this handle reports.
    pub closed spec fn spec_version_of(&self) -> Seq<char> {
        self.version@
    }

    /// Construct a core handle; always succeeds.
    pub fn new() -> (r: PhotoSortCore)
        ensures
            r.spec_version_of() == spec_version(),
    {
        PhotoSortCore { version: String::from_str("1.0.0") }
    }

    /// The fixed semantic-version string, for host compatibility checks.
    pub fn version(&self) -> (r: String)
        ensures
            r@ == self.spec_version_of(),
    {
        String::from_str(self.version.as_str())
    }

    /// Extract a thumbnail from a baseline JPEG buffer.
    ///
    /// The result is a pure function of `data` and `max_size`
    /// (`spec_decode_jpeg`): two calls on the same input return the same
    /// bytes. `max_size` bounds the longest output edge; 0 selects the
    /// default policy bound.
    pub fn decode_jpeg_thumbnail(&self, data: &[u8], max_size: u32) -> (r: Result<
        Vec<u8>,
        CoreError,
    >)
        ensures
            spec_result_matches(r, spec_decode_jpeg(data@, max_size)),
    {
        let desc = match parse_jpeg(data) {
            Ok(t) => t,
            Err(e) => {
                return Err(e);
            },
        };
        let b = effective_bound(max_size);
        let i = match select_candidate(&desc.candidates, b) {
            Some(i) => i,
            None => {
                return Err(CoreError::new(ErrorKind::NoThumbnailAvailable, 0));
            },
        };
        let c = desc.candidates[i];
        decode_candidate(data, c, desc.orientation, b)
    }

    /// Extract a thumbnail from a DNG (TIFF-based) buffer.
    ///
    /// The result is a pure function of `data` and `max_size`
    /// (`spec_decode_dng`): two calls on the same input return the same
    /// bytes. `max_size` bounds the longest output edge; 0 selects the
    /// default policy bound.
    pub fn decode_dng_thumbnail(&self, data: &[u8], max_size: u32) -> (r: Result<
        Vec<u8>,
        CoreError,
    >)
        ensures
            spec_result_matches(r, spec_decode_dng(data@, max_size)),
    {
        let desc = match parse_dng(data) {
            Ok(t) => t,
            Err(e) => {
                return Err(e);
            },
        };
        let b = effective_bound(max_size);
        let i = match select_candidate(&desc.candidates, b) {
            Some(i) => i,
            None => {
                return Err(CoreError::new(ErrorKind::NoThumbnailAvailable, 0));
            },
        };
        let c = desc.candidates[i];
        decode_candidate(data, c, desc.orientation, b)
    }
}

/// Output width declared in an output buffer's header.
pub open spec fn spec_output_width(out: Seq<u8>) -> u32 {
    spec_u32_at(out, ByteOrder::Big, 0)
}

/// Output height declared in an output buffer's header.
pub open spec fn spec_output_height(out: Seq<u8>) -> u32 {
    spec_u32_at(out, ByteOrder::Big, 4)
}

/// A big-endian header field below 0x10000 reads back as itself.
proof fn lemma_be32_readback(out: Seq<u8>, at: int, v: u32)
    requires
        0 <= at,
        at + 4 <= out.len(),
        v <= 0xFFFF,
        out[at] == (v / 0x1000000) as u8,
        out[at + 1] == ((v / 0x10000) % 0x100) as u8,
        out[at + 2] == ((v / 0x100) % 0x100) as u8,
        out[at + 3] == (v % 0x100) as u8,
    ensures
        spec_u32_at(out, ByteOrder::Big, at) == v,
{
    lemma_fundamental_div_mod(v as int, 0x100);
    lemma_mod_bound(v as int, 0x100);
    assert(v / 0x1000000 == 0);
    assert(v / 0x10000 == 0);
    lemma_small_mod(0, 0x100);
    assert((v as int) / 0x100 < 0x100);
    lemma_small_mod(((v as int) / 0x100) as nat, 0x100);
}

/// Size law shared by both formats: a successful decode returns a buffer
/// whose header dimensions are positive, no larger than the effective
/// longest-edge bound, and whose pixel payload length matches the header.
pub proof fn lemma_pipeline_output_bounded(
    parsed: Result<(Seq<Candidate>, u16), CoreError>,
    d: Seq<u8>,
    m: u32,
)
    requires
        spec_decode_pipeline(parsed, d, m) is Ok,
    ensures
        ({
            let out = spec_decode_pipeline(parsed, d, m)->Ok_0;
            &&& out.len() >= 8
            &&& 1 <= spec_output_width(out)
            &&& 1 <= spec_output_height(out)
            &&& spec_output_width(out) <= spec_effective_bound(m)
            &&& spec_output_height(out) <= spec_effective_bound(m)
            &&& m > 0 ==> spec_output_width(out) <= m && spec_output_height(out) <= m
            &&& out.len() == 8 + 3 * (spec_output_width(out) as int) * (spec_output_height(out) as int)
        }),
{
    let (cands, o) = parsed->Ok_0;
    let b = spec_effective_bound(m);
    let i = spec_select(cands, b)->0;
    let c = cands[i];
    let (w, h, po) = jpeg_decode_of(d.subrange(c.offset as int, c.offset + c.length))->0;
    let p = po->0;
    let ow = spec_oriented_w(w, h, o);
    let oh = spec_oriented_h(w, h, o);
    lemma_target_dims(ow, oh, b);
    let (tw, th) = spec_target_dims(ow, oh, b);
    let out = spec_decode_pipeline(parsed, d, m)->Ok_0;
    assert(out == spec_output(p, w, h, o, b));
    assert(out[0] == (tw / 0x1000000) as u8);
    assert(out[1] == ((tw / 0x10000) % 0x100) as u8);
    assert(out[2] == ((tw / 0x100) % 0x100) as u8);
    assert(out[3] == (tw % 0x100) as u8);
    assert(out[4] == (th / 0x1000000) as u8);
    assert(out[5] == ((th / 0x10000) % 0x100) as u8);
    assert(out[6] == ((th / 0x100) % 0x100) as u8);
    assert(out[7] == (th % 0x100) as u8);
    lemma_be32_readback(out, 0, tw);
    lemma_be32_readback(out, 4, th);
}

/// A successful JPEG decode returns a buffer whose longest edge is
/// positive and bounded by the size hint (or the default bound when the
/// hint is 0).
pub proof fn lemma_jpeg_output_bounded(d: Seq<u8>, m: u32)
    requires
        spec_decode_jpeg(d, m) is Ok,
    ensures
        ({
            let out = spec_decode_jpeg(d, m)->Ok_0;
            &&& 1 <= spec_output_width(out)
            &&& 1 <= spec_output_height(out)
            &&& spec_output_width(out) <= spec_effective_bound(m)
            &&& spec_output_height(out) <= spec_effective_bound(m)
            &&& m > 0 ==> spec_output_width(out) <= m && spec_output_height(out) <= m
        }),
{
    lemma_pipeline_output_bounded(spec_parse_jpeg(d), d, m);
}

/// A successful DNG decode never upscales: the output pixel area is at
/// most the chosen candidate's declared area, and — the candidate list
/// being sorted — at most the area of every candidate whose longest edge
/// meets the bound.
pub proof fn lemma_dng_never_upscales(d: Seq<u8>, m: u32)
    requires
        d.len() <= usize::MAX,
        spec_decode_dng(d, m) is Ok,
    ensures
        ({
            let out = spec_decode_dng(d, m)->Ok_0;
            let cands = spec_parse_dng(d)->Ok_0.0;
            let b = spec_effective_bound(m);
            let i = spec_select(cands, b)->0;
            let area = (spec_output_width(out) as int) * (spec_output_height(out) as int);
            &&& spec_parse_dng(d) is Ok
            &&& spec_select(cands, b) is Some
            &&& 0 <= i < cands.len()
            &&& area <= spec_area(cands[i])
            &&& forall|j: int|
                0 <= j < cands.len() && spec_qualifies(#[trigger] cands[j], b) ==> area
                    <= spec_area(cands[j])
        }),
{
    lemma_pipeline_output_bounded(spec_parse_dng(d), d, m);
    let (cands, o) = spec_parse_dng(d)->Ok_0;
    let b = spec_effective_bound(m);
    let i = spec_select(cands, b)->0;
    let c = cands[i];
    let (w, h, po) = jpeg_decode_of(d.subrange(c.offset as int, c.offset + c.length))->0;
    let p = po->0;
    let ow = spec_oriented_w(w, h, o);
    let oh = spec_oriented_h(w, h, o);
    lemma_target_dims(ow, oh, b);
    let (tw, th) = spec_target_dims(ow, oh, b);
    let out = spec_decode_dng(d, m)->Ok_0;
    assert(spec_output_width(out) == tw && spec_output_height(out) == th) by {
        assert(out == spec_output(p, w, h, o, b));
        lemma_be32_readback(out, 0, tw);
        lemma_be32_readback(out, 4, th);
    }
    lemma_mul_le(tw as int, th as int, ow as int, oh as int);
    assert((ow as int) * (oh as int) == (w as int) * (h as int)) by (nonlinear_arith)
        requires
            (ow == w && oh == h) || (ow == h && oh == w),
    ;
    lemma_parse_dng_wf(d);
    lemma_select_properties(cands, b);
}

/// Success law shared by both formats: when parsing found at least one
/// candidate (all well-formed) and the selected candidate's stream decodes
/// to an 8-bit RGB image of the declared dimensions, the pipeline returns
/// an output buffer — never an error.
pub proof fn lemma_pipeline_succeeds(
    parsed: Result<(Seq<Candidate>, u16), CoreError>,
    d: Seq<u8>,
    m: u32,
)
    requires
        parsed matches Ok(t) && t.0.len() > 0,
        spec_candidates_wf(parsed->Ok_0.0, d.len() as int),
        ({
            let cands = parsed->Ok_0.0;
            let i = spec_select(cands, spec_effective_bound(m))->0;
            0 <= i < cands.len() ==> spec_candidate_decodes_rgb(d, cands[i])
        }),
    ensures
        spec_decode_pipeline(parsed, d, m) is Ok,
{
    let cands = parsed->Ok_0.0;
    let b = spec_effective_bound(m);
    lemma_select_properties(cands, b);
    let i = spec_select(cands, b)->0;
    let c = cands[i];
    assert(spec_candidate_wf(c, d.len() as int));
}

/// A JPEG buffer that parses with an extractable EXIF thumbnail whose
/// stream decodes to an RGB image of the declared dimensions is decoded
/// successfully.
pub proof fn lemma_jpeg_succeeds(d: Seq<u8>, m: u32)
    requires
        d.len() <= usize::MAX,
        spec_parse_jpeg(d) matches Ok(t) && t.0.len() > 0,
        ({
            let cands = spec_parse_jpeg(d)->Ok_0.0;
            let i = spec_select(cands, spec_effective_bound(m))->0;
            0 <= i < cands.len() ==> spec_candidate_decodes_rgb(d, cands[i])
        }),
    ensures
        spec_decode_jpeg(d, m) is Ok,
{
    crate::jpeg::lemma_parse_jpeg_wf(d);
    lemma_pipeline_succeeds(spec_parse_jpeg(d), d, m);
}

/// A DNG buffer that parses with at least one reduced-resolution JPEG
/// directory whose selected stream decodes to an RGB image of the declared
/// dimensions is decoded successfully.
pub proof fn lemma_dng_succeeds(d: Seq<u8>, m: u32)
    requires
        d.len() <= usize::MAX,
        spec_parse_dng(d) matches Ok(t) && t.0.len() > 0,
        ({
            let cands = spec_parse_dng(d)->Ok_0.0;
            let i = spec_select(cands, spec_effective_bound(m))->0;
            0 <= i < cands.len() ==> spec_candidate_decodes_rgb(d, cands[i])
        }),
    ensures
        spec_decode_dng(d, m) is Ok,
{
    lemma_parse_dng_wf(d);
    lemma_pipeline_succeeds(spec_parse_dng(d), d, m);
}

/// The zero size hint is exactly the default policy: decoding with 0 and
/// decoding with the default bound give the same result, for both formats.
pub proof fn lemma_default_policy(d: Seq<u8>)
    ensures
        spec_decode_jpeg(d, 0) == spec_decode_jpeg(d, DEFAULT_MAX_EDGE),
        spec_decode_dng(d, 0) == spec_decode_dng(d, DEFAULT_MAX_EDGE),
{
}

/// Truncation law for the JPEG entry point: a buffer whose decode
/// succeeds, cut to fewer bytes than its marker stream declares, fails
/// with `InvalidInput`, whatever the size hint — never a crash and never
/// a partial output.
pub proof fn lemma_jpeg_truncated_general(d: Seq<u8>, k: int, m: u32)
    requires
        0 <= k < d.len(),
        k < crate::jpeg::spec_scan_extent(d, 2, crate::jpeg::MAX_SEGMENTS as nat),
        spec_parse_jpeg(d) is Ok,
    ensures
        spec_decode_jpeg(d.take(k), m) matches Err(e) && e.kind == ErrorKind::InvalidInput,
{
    crate::jpeg::lemma_parse_jpeg_truncated(d, k);
}

/// Truncation law for the DNG entry point: a buffer whose parse succeeds,
/// cut to fewer bytes than its TIFF header and first directory declare,
/// fails with `InvalidInput`, whatever the size hint.
pub proof fn lemma_dng_truncated_general(d: Seq<u8>, k: int, m: u32)
    requires
        0 <= k < d.len(),
        k < crate::dng::spec_dng_first_ifd_end(d),
        spec_parse_dng(d) is Ok,
    ensures
        spec_decode_dng(d.take(k), m) matches Err(e) && e.kind == ErrorKind::InvalidInput,
{
    crate::dng::lemma_parse_dng_truncated(d, k);
}

/// A buffer shorter than the fixed format header fails with
/// `InvalidInput`, whatever the size hint: two bytes for the JPEG
/// start-of-image marker, eight for the TIFF header of a DNG.
pub proof fn lemma_truncated_header(d: Seq<u8>, m: u32)
    ensures
        d.len() < 2 ==> spec_decode_jpeg(d, m) == Err::<Seq<u8>, CoreError>(
            err_at(ErrorKind::InvalidInput, 0),
        ),
        d.len() < 8 ==> spec_decode_dng(d, m) == Err::<Seq<u8>, CoreError>(
            err_at(ErrorKind::InvalidInput, 0),
        ),
{
}

} // verus!
