//! JPEG container parsing: marker-stream scan, frame-header dimensions,
//! and EXIF (APP1) thumbnail discovery.
//!
//! The scan walks top-level segments from the start-of-image marker to the
//! start-of-scan, collecting the first EXIF APP1 block and the first frame
//! marker. Truncated buffers and segment lengths pointing outside the
//! buffer are structural errors, never panics. Every function is pinned to
//! a specification function, so parsing is a pure function of the bytes.

use vstd::prelude::*;
use crate::bytes::{ByteOrder, spec_u16_at, read_u16_at};
use crate::container::{Candidate, ContainerDescriptor, EncodingKind, FormatTag,
    spec_candidates_wf, spec_descriptor_wf};
use crate::error::{CoreError, ErrorKind, err_at};
use crate::tiff::{spec_tiff_header, spec_read_ifd, spec_find_tag, read_tiff_header, read_ifd,
    find_tag};

verus! {

/// Upper bound on walked segments or directory records; structures deeper
/// than this are rejected as malformed.
pub const MAX_SEGMENTS: u32 = 4096;

/// EXIF tag numbers used by this core.
pub const TAG_ORIENTATION: u16 = 0x0112;
pub const TAG_JPEG_OFFSET: u16 = 0x0201;
pub const TAG_JPEG_LENGTH: u16 = 0x0202;

/// Marker ids `C0..CF` are frame headers, except `C4`, `C8` and `CC`.
pub open spec fn spec_is_sof(m: u8) -> bool {
    0xC0 <= m <= 0xCF && m != 0xC4 && m != 0xC8 && m != 0xCC
}

/// One pass over the top-level marker stream starting at `pos`, carrying
/// the first discovered EXIF region (TIFF base, segment end) and the first
/// frame marker id; stops at start-of-scan or end-of-image.
pub open spec fn spec_scan_primary(
    d: Seq<u8>,
    pos: int,
    fuel: nat,
    app1: Option<(usize, usize)>,
    sof: Option<u8>,
) -> Result<(Option<(usize, usize)>, Option<u8>), CoreError>
    decreases fuel,
{
    if fuel == 0 {
        Err(err_at(ErrorKind::InvalidInput, pos))
    } else if pos + 2 > d.len() {
        Err(err_at(ErrorKind::InvalidInput, pos))
    } else if d[pos] != 0xFF {
        Err(err_at(ErrorKind::InvalidInput, pos))
    } else {
        let m = d[pos + 1];
        if m == 0xD9 || m == 0xDA {
            Ok((app1, sof))
        } else if m == 0xFF {
            spec_scan_primary(d, pos + 1, (fuel - 1) as nat, app1, sof)
        } else if m == 0x01 || (0xD0 <= m && m <= 0xD7) || m == 0xD8 {
            spec_scan_primary(d, pos + 2, (fuel - 1) as nat, app1, sof)
        } else if pos + 4 > d.len() {
            Err(err_at(ErrorKind::InvalidInput, pos + 2))
        } else {
            let l = spec_u16_at(d, ByteOrder::Big, pos + 2) as int;
            if l < 2 || pos + 2 + l > d.len() {
                Err(err_at(ErrorKind::InvalidInput, pos + 2))
            } else {
                let sof2 = if spec_is_sof(m) && sof is None {
                    Some(m)
                } else {
                    sof
                };
                let app2 = if m == 0xE1 && l >= 8 && app1 is None && d[pos + 4] == 0x45 && d[pos
                    + 5] == 0x78 && d[pos + 6] == 0x69 && d[pos + 7] == 0x66 && d[pos + 8] == 0 && d[
                pos + 9] == 0 {
                    Some(((pos + 10) as usize, (pos + 2 + l) as usize))
                } else {
                    app1
                };
                spec_scan_primary(d, pos + 2 + l, (fuel - 1) as nat, app2, sof2)
            }
        }
    }
}

/// Exec counterpart of `spec_scan_primary`.
fn scan_primary(
    data: &[u8],
    pos: usize,
    fuel: u32,
    app1: Option<(usize, usize)>,
    sof: Option<u8>,
) -> (r: Result<(Option<(usize, usize)>, Option<u8>), CoreError>)
    requires
        pos <= data@.len(),
        app1 matches Some(ab) ==> ab.0 <= ab.1 <= data@.len(),
    ensures
        r == spec_scan_primary(data@, pos as int, fuel as nat, app1, sof),
        r matches Ok(t) ==> (t.0 matches Some(ab) ==> ab.0 <= ab.1 <= data@.len()),
    decreases fuel,
{
    let dlen = data.len();
    if fuel == 0 {
        return Err(CoreError::new(ErrorKind::InvalidInput, pos as u64));
    }
    if dlen - pos < 2 {
        return Err(CoreError::new(ErrorKind::InvalidInput, pos as u64));
    }
    if data[pos] != 0xFF {
        return Err(CoreError::new(ErrorKind::InvalidInput, pos as u64));
    }
    let m = data[pos + 1];
    if m == 0xD9 || m == 0xDA {
        return Ok((app1, sof));
    }
    if m == 0xFF {
        return scan_primary(data, pos + 1, fuel - 1, app1, sof);
    }
    if m == 0x01 || (0xD0 <= m && m <= 0xD7) || m == 0xD8 {
        return scan_primary(data, pos + 2, fuel - 1, app1, sof);
    }
    if dlen - pos < 4 {
        return Err(CoreError::new(ErrorKind::InvalidInput, (pos + 2) as u64));
    }
    let l = read_u16_at(data, ByteOrder::Big, pos + 2) as usize;
    if l < 2 || l > dlen - pos - 2 {
        return Err(CoreError::new(ErrorKind::InvalidInput, (pos + 2) as u64));
    }
    let sof2 = if (0xC0 <= m && m <= 0xCF && m != 0xC4 && m != 0xC8 && m != 0xCC) && sof.is_none() {
        Some(m)
    } else {
        sof
    };
    let app2 = if m == 0xE1 && l >= 8 && app1.is_none() && data[pos + 4] == 0x45 && data[pos + 5]
        == 0x78 && data[pos + 6] == 0x69 && data[pos + 7] == 0x66 && data[pos + 8] == 0 && data[pos
        + 9] == 0 {
        Some((pos + 10, pos + 2 + l))
    } else {
        app1
    };
    scan_primary(data, pos + 2 + l, fuel - 1, app2, sof2)
}

/// The byte size the marker stream declares: the position just past the
/// stop marker when the scan starting at `pos` reaches one. Every header
/// byte the scan reads lies below this position.
pub open spec fn spec_scan_extent(d: Seq<u8>, pos: int, fuel: nat) -> int
    decreases fuel,
{
    if fuel == 0 {
        pos
    } else if pos + 2 > d.len() {
        pos
    } else if d[pos] != 0xFF {
        pos
    } else {
        let m = d[pos + 1];
        if m == 0xD9 || m == 0xDA {
            pos + 2
        } else if m == 0xFF {
            spec_scan_extent(d, pos + 1, (fuel - 1) as nat)
        } else if m == 0x01 || (0xD0 <= m && m <= 0xD7) || m == 0xD8 {
            spec_scan_extent(d, pos + 2, (fuel - 1) as nat)
        } else if pos + 4 > d.len() {
            pos
        } else {
            let l = spec_u16_at(d, ByteOrder::Big, pos + 2) as int;
            if l < 2 || pos + 2 + l > d.len() {
                pos
            } else {
                spec_scan_extent(d, pos + 2 + l, (fuel - 1) as nat)
            }
        }
    }
}

proof fn lemma_scan_prefix_invalid(
    d: Seq<u8>,
    k: int,
    pos: int,
    fuel: nat,
    app1: Option<(usize, usize)>,
    sof: Option<u8>,
)
    requires
        0 <= pos <= k < d.len(),
        k < spec_scan_extent(d, pos, fuel),
        spec_scan_primary(d, pos, fuel, app1, sof) is Ok,
    ensures
        spec_scan_primary(d.take(k), pos, fuel, app1, sof) matches Err(e) && e.kind
            == ErrorKind::InvalidInput,
    decreases fuel,
{
    let t = d.take(k);
    if pos + 2 <= k {
        let m = d[pos + 1];
        assert(t[pos] == d[pos] && t[pos + 1] == d[pos + 1]);
        if m == 0xFF {
            lemma_scan_prefix_invalid(d, k, pos + 1, (fuel - 1) as nat, app1, sof);
        } else if m == 0x01 || (0xD0 <= m && m <= 0xD7) || m == 0xD8 {
            lemma_scan_prefix_invalid(d, k, pos + 2, (fuel - 1) as nat, app1, sof);
        } else if !(m == 0xD9 || m == 0xDA) && pos + 4 <= k {
            assert(t[pos + 2] == d[pos + 2] && t[pos + 3] == d[pos + 3]);
            let l = spec_u16_at(d, ByteOrder::Big, pos + 2) as int;
            assert(spec_u16_at(t, ByteOrder::Big, pos + 2) as int == l);
            if pos + 2 + l <= k {
                assert(forall|q: int| pos + 4 <= q < pos + 10 && q < k ==> t[q] == d[q]);
                let sof2 = if spec_is_sof(m) && sof is None {
                    Some(m)
                } else {
                    sof
                };
                let app2 = if m == 0xE1 && l >= 8 && app1 is None && d[pos + 4] == 0x45 && d[pos
                    + 5] == 0x78 && d[pos + 6] == 0x69 && d[pos + 7] == 0x66 && d[pos + 8] == 0 && d[
                pos + 9] == 0 {
                    Some(((pos + 10) as usize, (pos + 2 + l) as usize))
                } else {
                    app1
                };
                lemma_scan_prefix_invalid(d, k, pos + 2 + l, (fuel - 1) as nat, app2, sof2);
            }
        }
    }
}

/// Truncation law for the JPEG container: a buffer whose scan succeeds,
/// cut to fewer bytes than its marker stream declares (the scan extent),
/// fails structurally, with `InvalidInput` and never a panic.
pub proof fn lemma_parse_jpeg_truncated(d: Seq<u8>, k: int)
    requires
        0 <= k < d.len(),
        k < spec_scan_extent(d, 2, MAX_SEGMENTS as nat),
        spec_parse_jpeg(d) is Ok,
    ensures
        spec_parse_jpeg(d.take(k)) matches Err(e) && e.kind == ErrorKind::InvalidInput,
{
    let t = d.take(k);
    if k >= 2 {
        assert(t[0] == d[0] && t[1] == d[1]);
        lemma_scan_prefix_invalid(d, k, 2, MAX_SEGMENTS as nat, None, None);
    }
}

/// Scan a marker stream inside `pos..end` for the first frame header and
/// return its marker id, declared width and height, sample precision and
/// component count.
pub open spec fn spec_dims_scan(d: Seq<u8>, pos: int, end: int, fuel: nat) -> Option<
    (u8, u32, u32, u8, u8),
>
    decreases fuel,
{
    if fuel == 0 {
        None
    } else if pos + 2 > end {
        None
    } else if d[pos] != 0xFF {
        None
    } else {
        let m = d[pos + 1];
        if m == 0xD9 || m == 0xDA {
            None
        } else if m == 0xFF {
            spec_dims_scan(d, pos + 1, end, (fuel - 1) as nat)
        } else if m == 0x01 || (0xD0 <= m && m <= 0xD7) || m == 0xD8 {
            spec_dims_scan(d, pos + 2, end, (fuel - 1) as nat)
        } else if pos + 4 > end {
            None
        } else {
            let l = spec_u16_at(d, ByteOrder::Big, pos + 2) as int;
            if l < 2 || pos + 2 + l > end {
                None
            } else if spec_is_sof(m) {
                if l >= 8 {
                    Some(
                        (
                            m,
                            spec_u16_at(d, ByteOrder::Big, pos + 7) as u32,
                            spec_u16_at(d, ByteOrder::Big, pos + 5) as u32,
                            d[pos + 4],
                            d[pos + 9],
                        ),
                    )
                } else {
                    None
                }
            } else {
                spec_dims_scan(d, pos + 2 + l, end, (fuel - 1) as nat)
            }
        }
    }
}

/// Marker id, width, height, sample precision and component count of the
/// frame header of the JPEG stream in `start..end`, when the stream opens
/// with a start-of-image marker and a readable frame header exists.
pub open spec fn spec_jpeg_dims(d: Seq<u8>, start: int, end: int) -> Option<
    (u8, u32, u32, u8, u8),
> {
    if start + 2 <= end <= d.len() && d[start] == 0xFF && d[start + 1] == 0xD8 {
        spec_dims_scan(d, start + 2, end, MAX_SEGMENTS as nat)
    } else {
        None
    }
}

/// Exec counterpart of `spec_dims_scan`.
fn dims_scan(data: &[u8], pos: usize, end: usize, fuel: u32) -> (r: Option<(u8, u32, u32, u8, u8)>)
    requires
        pos <= end <= data@.len(),
    ensures
        r == spec_dims_scan(data@, pos as int, end as int, fuel as nat),
    decreases fuel,
{
    if fuel == 0 {
        return None;
    }
    if end - pos < 2 {
        return None;
    }
    if data[pos] != 0xFF {
        return None;
    }
    let m = data[pos + 1];
    if m == 0xD9 || m == 0xDA {
        return None;
    }
    if m == 0xFF {
        return dims_scan(data, pos + 1, end, fuel - 1);
    }
    if m == 0x01 || (0xD0 <= m && m <= 0xD7) || m == 0xD8 {
        return dims_scan(data, pos + 2, end, fuel - 1);
    }
    if end - pos < 4 {
        return None;
    }
    let l = read_u16_at(data, ByteOrder::Big, pos + 2) as usize;
    if l < 2 || l > end - pos - 2 {
        return None;
    }
    if 0xC0 <= m && m <= 0xCF && m != 0xC4 && m != 0xC8 && m != 0xCC {
        if l >= 8 {
            let h = read_u16_at(data, ByteOrder::Big, pos + 5) as u32;
            let w = read_u16_at(data, ByteOrder::Big, pos + 7) as u32;
            return Some((m, w, h, data[pos + 4], data[pos + 9]));
        }
        return None;
    }
    dims_scan(data, pos + 2 + l, end, fuel - 1)
}

/// Exec counterpart of `spec_jpeg_dims`.
pub fn jpeg_dims(data: &[u8], start: usize, end: usize) -> (r: Option<(u8, u32, u32, u8, u8)>)
    requires
        end <= data@.len(),
    ensures
        r == spec_jpeg_dims(data@, start as int, end as int),
{
    if start > end || end - start < 2 {
        return None;
    }
    if data[start] != 0xFF || data[start + 1] != 0xD8 {
        return None;
    }
    dims_scan(data, start + 2, end, MAX_SEGMENTS)
}

/// Read the EXIF TIFF block at `base..limit`: the orientation value from
/// the first directory (1 when absent or out of range) and the byte range
/// of the thumbnail stream named by the second directory, when present and
/// contained in the block.
pub open spec fn spec_parse_exif(d: Seq<u8>, base: int, limit: int) -> Result<
    (u16, Option<(usize, usize)>),
    CoreError,
> {
    match spec_tiff_header(d, base, limit) {
        Err(e) => Err(e),
        Ok((bo, off0)) => match spec_read_ifd(d, bo, base, off0 as int, limit) {
            Err(e) => Err(e),
            Ok(ifd0) => {
                let eb = ifd0.entry_base as int;
                let n = ifd0.count as int;
                let orient = match spec_find_tag(d, bo, eb, n, 0, TAG_ORIENTATION) {
                    Some(v) => if 1 <= v <= 8 {
                        v as u16
                    } else {
                        1u16
                    },
                    None => 1u16,
                };
                if ifd0.next == 0 {
                    Ok((orient, None))
                } else {
                    match spec_read_ifd(d, bo, base, ifd0.next as int, limit) {
                        Err(_) => Ok((orient, None)),
                        Ok(ifd1) => {
                            let eb1 = ifd1.entry_base as int;
                            let n1 = ifd1.count as int;
                            let jif = spec_find_tag(d, bo, eb1, n1, 0, TAG_JPEG_OFFSET);
                            let jlen = spec_find_tag(d, bo, eb1, n1, 0, TAG_JPEG_LENGTH);
                            match (jif, jlen) {
                                (Some(o), Some(l)) => if l > 0 && base + o + l <= limit {
                                    Ok((orient, Some(((base + o) as usize, l as usize))))
                                } else {
                                    Ok((orient, None))
                                },
                                _ => Ok((orient, None)),
                            }
                        },
                    }
                }
            },
        },
    }
}

/// Exec counterpart of `spec_parse_exif`.
pub fn parse_exif(data: &[u8], base: usize, limit: usize) -> (r: Result<
    (u16, Option<(usize, usize)>),
    CoreError,
>)
    requires
        base <= limit <= data@.len(),
    ensures
        r == spec_parse_exif(data@, base as int, limit as int),
        r matches Ok(t) ==> (t.1 matches Some(ol) ==> ol.0 + ol.1 <= limit && ol.1 > 0),
{
    let (bo, off0) = match read_tiff_header(data, base, limit) {
        Ok(t) => t,
        Err(e) => {
            return Err(e);
        },
    };
    let ifd0 = match read_ifd(data, bo, base, off0 as usize, limit) {
        Ok(t) => t,
        Err(e) => {
            return Err(e);
        },
    };
    let orient: u16 = match find_tag(data, bo, &ifd0, TAG_ORIENTATION) {
        Some(v) => if 1 <= v && v <= 8 {
            v as u16
        } else {
            1
        },
        None => 1,
    };
    if ifd0.next == 0 {
        return Ok((orient, None));
    }
    let ifd1 = match read_ifd(data, bo, base, ifd0.next as usize, limit) {
        Ok(t) => t,
        Err(_) => {
            return Ok((orient, None));
        },
    };
    let jif = find_tag(data, bo, &ifd1, TAG_JPEG_OFFSET);
    let jlen = find_tag(data, bo, &ifd1, TAG_JPEG_LENGTH);
    match (jif, jlen) {
        (Some(o), Some(l)) => {
            if l > 0 && (o as u64) + (l as u64) <= (limit - base) as u64 {
                Ok((orient, Some((base + o as usize, l as usize))))
            } else {
                Ok((orient, None))
            }
        },
        _ => Ok((orient, None)),
    }
}

proof fn lemma_scan_primary_bounds(
    d: Seq<u8>,
    pos: int,
    fuel: nat,
    app1: Option<(usize, usize)>,
    sof: Option<u8>,
)
    requires
        0 <= pos,
        d.len() <= usize::MAX,
        app1 matches Some(ab) ==> ab.0 <= ab.1 <= d.len(),
    ensures
        spec_scan_primary(d, pos, fuel, app1, sof) matches Ok(t) ==> (t.0 matches Some(ab)
            ==> ab.0 <= ab.1 <= d.len()),
    decreases fuel,
{
    if fuel > 0 && pos + 2 <= d.len() && d[pos] == 0xFF {
        let m = d[pos + 1];
        if m == 0xD9 || m == 0xDA {
        } else if m == 0xFF {
            lemma_scan_primary_bounds(d, pos + 1, (fuel - 1) as nat, app1, sof);
        } else if m == 0x01 || (0xD0 <= m && m <= 0xD7) || m == 0xD8 {
            lemma_scan_primary_bounds(d, pos + 2, (fuel - 1) as nat, app1, sof);
        } else if pos + 4 <= d.len() {
            let l = spec_u16_at(d, ByteOrder::Big, pos + 2) as int;
            if l >= 2 && pos + 2 + l <= d.len() {
                let sof2 = if spec_is_sof(m) && sof is None {
                    Some(m)
                } else {
                    sof
                };
                let app2 = if m == 0xE1 && l >= 8 && app1 is None && d[pos + 4] == 0x45 && d[pos
                    + 5] == 0x78 && d[pos + 6] == 0x69 && d[pos + 7] == 0x66 && d[pos + 8] == 0 && d[
                pos + 9] == 0 {
                    Some(((pos + 10) as usize, (pos + 2 + l) as usize))
                } else {
                    app1
                };
                lemma_scan_primary_bounds(d, pos + 2 + l, (fuel - 1) as nat, app2, sof2);
            }
        }
    }
}

/// On success the JPEG candidate list satisfies the list invariant: the
/// thumbnail's byte range lies in the buffer and its dimensions are
/// positive and representable.
pub proof fn lemma_parse_jpeg_wf(d: Seq<u8>)
    requires
        d.len() <= usize::MAX,
    ensures
        spec_parse_jpeg(d) matches Ok(t) ==> spec_candidates_wf(t.0, d.len() as int),
{
    if d.len() >= 2 && d[0] == 0xFF && d[1] == 0xD8 {
        lemma_scan_primary_bounds(d, 2, MAX_SEGMENTS as nat, None, None);
    }
}

/// Structural parse of a baseline JPEG buffer: at most one candidate (the
/// EXIF thumbnail, when present with readable baseline dimensions) and the
/// EXIF orientation. A recognized non-baseline frame — progressive, for
/// instance — is an unsupported variant, whether it is the primary frame
/// or the embedded thumbnail stream; neither is ever decoded silently.
pub open spec fn spec_parse_jpeg(d: Seq<u8>) -> Result<(Seq<Candidate>, u16), CoreError> {
    if d.len() < 2 || d[0] != 0xFF || d[1] != 0xD8 {
        Err(err_at(ErrorKind::InvalidInput, 0))
    } else {
        match spec_scan_primary(d, 2, MAX_SEGMENTS as nat, None, None) {
            Err(e) => Err(e),
            Ok((app1, sof)) => if sof is None {
                Err(err_at(ErrorKind::InvalidInput, 0))
            } else if sof->0 != 0xC0 {
                Err(err_at(ErrorKind::UnsupportedFeature, 0))
            } else {
                match app1 {
                    None => Ok((Seq::empty(), 1u16)),
                    Some((tb, tend)) => match spec_parse_exif(d, tb as int, tend as int) {
                        Err(e) => Err(e),
                        Ok((orient, None)) => Ok((Seq::empty(), orient)),
                        Ok((orient, Some((to, tl)))) => match spec_jpeg_dims(
                            d,
                            to as int,
                            to + tl,
                        ) {
                            Some((sm, w, h, _, _)) => if sm != 0xC0 {
                                Err(err_at(ErrorKind::UnsupportedFeature, to as int))
                            } else if 1 <= w <= 0xFFFF && 1 <= h <= 0xFFFF {
                                Ok(
                                    (
                                        seq![
                                            Candidate {
                                                offset: to,
                                                length: tl,
                                                width: w,
                                                height: h,
                                                encoding: EncodingKind::Jpeg,
                                            },
                                        ],
                                        orient,
                                    ),
                                )
                            } else {
                                Ok((Seq::empty(), orient))
                            },
                            None => Ok((Seq::empty(), orient)),
                        },
                    },
                }
            },
        }
    }
}

/// Parse a JPEG buffer into its container descriptor.
///
/// The result is pinned to `spec_parse_jpeg`; on success the descriptor
/// satisfies the candidate-list invariant against the buffer length.
pub fn parse_jpeg(data: &[u8]) -> (r: Result<ContainerDescriptor, CoreError>)
    ensures
        match r {
            Ok(desc) => spec_parse_jpeg(data@) == Ok::<_, CoreError>((desc.candidates@, desc.orientation))
                && desc.format == FormatTag::Jpeg && spec_descriptor_wf(desc, data@.len() as int),
            Err(e) => spec_parse_jpeg(data@) == Err::<(Seq<Candidate>, u16), _>(e),
        },
{
    let dlen = data.len();
    if dlen < 2 || data[0] != 0xFF || data[1] != 0xD8 {
        return Err(CoreError::new(ErrorKind::InvalidInput, 0));
    }
    let (app1, sof) = match scan_primary(data, 2, MAX_SEGMENTS, None, None) {
        Ok(t) => t,
        Err(e) => {
            return Err(e);
        },
    };
    let sofm = match sof {
        None => {
            return Err(CoreError::new(ErrorKind::InvalidInput, 0));
        },
        Some(m) => m,
    };
    if sofm != 0xC0 {
        return Err(CoreError::new(ErrorKind::UnsupportedFeature, 0));
    }
    let mut candidates: Vec<Candidate> = Vec::new();
    let orientation: u16;
    match app1 {
        None => {
            orientation = 1;
        },
        Some((tb, tend)) => {
            let (orient, thumb) = match parse_exif(data, tb, tend) {
                Ok(t) => t,
                Err(e) => {
                    return Err(e);
                },
            };
            orientation = orient;
            match thumb {
                None => {},
                Some((to, tl)) => {
                    match jpeg_dims(data, to, to + tl) {
                        Some((sm, w, h, _, _)) => {
                            if sm != 0xC0 {
                                return Err(
                                    CoreError::new(ErrorKind::UnsupportedFeature, to as u64),
                                );
                            }
                            if 1 <= w && w <= 0xFFFF && 1 <= h && h <= 0xFFFF {
                                candidates.push(
                                    Candidate {
                                        offset: to,
                                        length: tl,
                                        width: w,
                                        height: h,
                                        encoding: EncodingKind::Jpeg,
                                    },
                                );
                            }
                        },
                        None => {},
                    }
                },
            }
        },
    }
    Ok(ContainerDescriptor { format: FormatTag::Jpeg, candidates, orientation })
}

} // verus!
