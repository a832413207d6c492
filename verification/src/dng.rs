//! DNG (TIFF-based) container parsing.
//!
//! Parses the TIFF header and walks the Image File Directory chain,
//! inspecting every sub-directory named by a `SubIFDs` entry (inline
//! offset or offset array alike). A directory whose subfile type marks a
//! reduced-resolution image and whose compression is a JPEG scheme is a
//! thumbnail candidate, with its byte range taken from the
//! interchange-format, strip or tile tags; a preview split over several
//! strips or tiles is accepted when the pieces are contiguous, so the
//! whole span is one stream. Candidates are kept sorted by descending
//! pixel area. Byte order is honored per the TIFF header for every
//! multi-byte read.

use vstd::prelude::*;
use crate::arith::lemma_mul_le;
use crate::bytes::ByteOrder;
use crate::container::{Candidate, ContainerDescriptor, EncodingKind, FormatTag, spec_area,
    spec_candidate_wf, spec_candidates_wf, spec_descriptor_wf};
use crate::error::{CoreError, ErrorKind, err_at};
use crate::jpeg::{MAX_SEGMENTS, TAG_ORIENTATION, TAG_JPEG_OFFSET, TAG_JPEG_LENGTH, spec_jpeg_dims,
    jpeg_dims};
use crate::tiff::{IfdInfo, spec_tiff_header, spec_read_ifd, spec_find_tag, spec_find_offsets,
    read_tiff_header, read_ifd, find_tag, find_offsets};

verus! {

/// TIFF tag numbers used by the DNG walk.
pub const TAG_NEW_SUBFILE_TYPE: u16 = 254;
pub const TAG_IMAGE_WIDTH: u16 = 256;
pub const TAG_IMAGE_LENGTH: u16 = 257;
pub const TAG_COMPRESSION: u16 = 259;
pub const TAG_STRIP_OFFSETS: u16 = 273;
pub const TAG_STRIP_BYTE_COUNTS: u16 = 279;
pub const TAG_TILE_OFFSETS: u16 = 324;
pub const TAG_TILE_BYTE_COUNTS: u16 = 325;
pub const TAG_SUB_IFDS: u16 = 330;

/// Position at which a candidate of this area is inserted to keep the list
/// sorted by descending area: before the first strictly smaller entry.
pub open spec fn spec_insert_pos(s: Seq<Candidate>, c: Candidate) -> int
    decreases s.len(),
{
    if s.len() == 0 {
        0
    } else if spec_area(s[0]) < spec_area(c) {
        0
    } else {
        1 + spec_insert_pos(s.subrange(1, s.len() as int), c)
    }
}

/// Insert a candidate keeping descending-area order.
pub open spec fn spec_insert_sorted(s: Seq<Candidate>, c: Candidate) -> Seq<Candidate> {
    s.insert(spec_insert_pos(s, c), c)
}

proof fn lemma_insert_pos_props(s: Seq<Candidate>, c: Candidate)
    ensures
        0 <= spec_insert_pos(s, c) <= s.len(),
        forall|j: int| 0 <= j < spec_insert_pos(s, c) ==> spec_area(#[trigger] s[j]) >= spec_area(c),
        spec_insert_pos(s, c) < s.len() ==> spec_area(s[spec_insert_pos(s, c)]) < spec_area(c),
    decreases s.len(),
{
    if s.len() > 0 && !(spec_area(s[0]) < spec_area(c)) {
        let t = s.subrange(1, s.len() as int);
        lemma_insert_pos_props(t, c);
        assert forall|j: int| 0 <= j < spec_insert_pos(s, c) implies spec_area(#[trigger] s[j])
            >= spec_area(c) by {
            if j >= 1 {
                assert(s[j] == t[j - 1]);
                assert(spec_area(t[j - 1]) >= spec_area(c));
            }
        }
    }
}

/// Sorted insertion preserves the candidate-list invariant.
proof fn lemma_insert_sorted_wf(s: Seq<Candidate>, c: Candidate, n: int)
    requires
        spec_candidates_wf(s, n),
        spec_candidate_wf(c, n),
    ensures
        spec_candidates_wf(spec_insert_sorted(s, c), n),
        spec_insert_sorted(s, c).len() == s.len() + 1,
{
    lemma_insert_pos_props(s, c);
    let p = spec_insert_pos(s, c);
    s.insert_ensures(p, c);
    let t = s.insert(p, c);
    assert forall|i: int| 0 <= i < t.len() implies spec_candidate_wf(#[trigger] t[i], n) by {
        if i < p {
            assert(t[i] == s[i]);
        } else if i == p {
        } else {
            assert(t[i] == s[i - 1]);
        }
    }
    assert forall|i: int, j: int| 0 <= i < j < t.len() implies spec_area(#[trigger] t[i])
        >= spec_area(#[trigger] t[j]) by {
        if j < p {
            assert(t[i] == s[i] && t[j] == s[j]);
        } else if j == p {
            assert(t[i] == s[i] && t[j] == c);
        } else if i < p {
            assert(t[i] == s[i] && t[j] == s[j - 1]);
            if i < j - 1 {
                assert(spec_area(s[i]) >= spec_area(s[j - 1]));
            }
        } else if i == p {
            assert(t[i] == c && t[j] == s[j - 1]);
            assert(p <= j - 1 < s.len());
            if p < j - 1 {
                assert(spec_area(s[p]) >= spec_area(s[j - 1]));
            }
            assert(spec_area(s[p]) < spec_area(c));
        } else {
            assert(t[i] == s[i - 1] && t[j] == s[j - 1]);
        }
    }
}

/// Insert `c` into `v`, keeping descending-area order.
fn insert_candidate(v: &mut Vec<Candidate>, c: Candidate)
    ensures
        final(v)@ == spec_insert_sorted(old(v)@, c),
{
    proof {
        lemma_mul_le(c.width as int, c.height as int, 0xFFFF_FFFF, 0xFFFF_FFFF);
    }
    let area: u64 = (c.width as u64) * (c.height as u64);
    let mut i: usize = 0;
    loop
        invariant
            i <= v@.len(),
            area == spec_area(c),
            forall|j: int| 0 <= j < i ==> spec_area(#[trigger] v@[j]) >= spec_area(c),
        ensures
            i <= v@.len(),
            forall|j: int| 0 <= j < i ==> spec_area(#[trigger] v@[j]) >= spec_area(c),
            i < v@.len() ==> spec_area(v@[i as int]) < spec_area(c),
        decreases v@.len() - i,
    {
        if i >= v.len() {
            break ;
        }
        let e = v[i];
        proof {
            lemma_mul_le(e.width as int, e.height as int, 0xFFFF_FFFF, 0xFFFF_FFFF);
        }
        if (e.width as u64) * (e.height as u64) < area {
            break ;
        }
        i = i + 1;
    }
    proof {
        lemma_insert_pos_agrees(v@, c, i as int);
    }
    v.insert(i, c);
}

/// The scan index at which the loop stops is exactly `spec_insert_pos`.
proof fn lemma_insert_pos_agrees(s: Seq<Candidate>, c: Candidate, i: int)
    requires
        0 <= i <= s.len(),
        forall|j: int| 0 <= j < i ==> spec_area(#[trigger] s[j]) >= spec_area(c),
        i < s.len() ==> spec_area(s[i]) < spec_area(c),
    ensures
        spec_insert_pos(s, c) == i,
    decreases s.len(),
{
    if i > 0 {
        let t = s.subrange(1, s.len() as int);
        assert(forall|j: int| 0 <= j < t.len() ==> #[trigger] t[j] == s[j + 1]);
        lemma_insert_pos_agrees(t, c, i - 1);
    }
}

/// The strips or tiles named by one offset/count tag pair are contiguous:
/// each piece begins where the previous one ends.
pub open spec fn spec_strips_contiguous(offs: Seq<u32>, lens: Seq<u32>) -> bool {
    forall|i: int|
        0 <= i < offs.len() - 1 ==> (#[trigger] offs[i + 1] as int) == offs[i] + lens[i]
}

/// The byte range named by an offset/count tag pair: the whole span of a
/// contiguous offset/count array when one is present, else the inline
/// single values.
pub open spec fn spec_range_of(
    d: Seq<u8>,
    bo: ByteOrder,
    eb: int,
    n: int,
    ot: u16,
    ct: u16,
) -> Option<(int, int)> {
    let offs = spec_find_offsets(d, bo, 0, d.len() as int, eb, n, 0, ot);
    let lens = spec_find_offsets(d, bo, 0, d.len() as int, eb, n, 0, ct);
    if offs.len() >= 1 && offs.len() == lens.len() && spec_strips_contiguous(offs, lens) {
        Some((offs[0] as int, offs.last() + lens.last() - offs[0]))
    } else {
        match (spec_find_tag(d, bo, eb, n, 0, ot), spec_find_tag(d, bo, eb, n, 0, ct)) {
            (Some(o), Some(l)) => Some((o as int, l as int)),
            _ => None,
        }
    }
}

/// In a contiguous array the first offset is the least.
proof fn lemma_contiguous_monotone(offs: Seq<u32>, lens: Seq<u32>, i: int)
    requires
        spec_strips_contiguous(offs, lens),
        offs.len() == lens.len(),
        0 <= i < offs.len(),
    ensures
        offs[0] <= offs[i] as int,
    decreases i,
{
    if i > 0 {
        lemma_contiguous_monotone(offs, lens, i - 1);
        assert((offs[i - 1 + 1] as int) == offs[i - 1] + lens[i - 1]);
    }
}

/// The inline-value fallback of `spec_range_of`.
fn range_of_single(data: &[u8], bo: ByteOrder, ifd: &IfdInfo, ot: u16, ct: u16) -> (r: Option<
    (u64, u64),
>)
    requires
        ifd.entry_base + 12 * (ifd.count as int) <= data@.len(),
    ensures
        ({
            let eb = ifd.entry_base as int;
            let n = ifd.count as int;
            let s = match (
                spec_find_tag(data@, bo, eb, n, 0, ot),
                spec_find_tag(data@, bo, eb, n, 0, ct),
            ) {
                (Some(o), Some(l)) => Some((o as int, l as int)),
                _ => None,
            };
            match r {
                Some(t) => s == Some((t.0 as int, t.1 as int)),
                None => s is None,
            }
        }),
{
    match (find_tag(data, bo, ifd, ot), find_tag(data, bo, ifd, ct)) {
        (Some(o), Some(l)) => Some((o as u64, l as u64)),
        _ => None,
    }
}

/// Exec counterpart of `spec_range_of`.
fn range_of(data: &[u8], bo: ByteOrder, ifd: &IfdInfo, ot: u16, ct: u16) -> (r: Option<(u64, u64)>)
    requires
        ifd.entry_base + 12 * (ifd.count as int) <= data@.len(),
    ensures
        match r {
            Some(t) => spec_range_of(data@, bo, ifd.entry_base as int, ifd.count as int, ot, ct)
                == Some((t.0 as int, t.1 as int)),
            None => spec_range_of(data@, bo, ifd.entry_base as int, ifd.count as int, ot, ct)
                is None,
        },
{
    let dlen = data.len();
    let offs = find_offsets(data, bo, 0, dlen, ifd, ot);
    let lens = find_offsets(data, bo, 0, dlen, ifd, ct);
    if !(offs.len() >= 1 && offs.len() == lens.len()) {
        return range_of_single(data, bo, ifd, ot, ct);
    }
    let m = offs.len() - 1;
    let mut i: usize = 0;
    while i < m
        invariant
            i <= m,
            m == offs@.len() - 1,
            offs@.len() == lens@.len(),
            offs@.len() >= 1,
            ifd.entry_base + 12 * (ifd.count as int) <= data@.len(),
            offs@ == spec_find_offsets(
                data@,
                bo,
                0,
                data@.len() as int,
                ifd.entry_base as int,
                ifd.count as int,
                0,
                ot,
            ),
            lens@ == spec_find_offsets(
                data@,
                bo,
                0,
                data@.len() as int,
                ifd.entry_base as int,
                ifd.count as int,
                0,
                ct,
            ),
            forall|j: int|
                0 <= j < i ==> (#[trigger] offs@[j + 1] as int) == offs@[j] + lens@[j],
        decreases m - i,
    {
        if (offs[i + 1] as u64) != (offs[i] as u64) + (lens[i] as u64) {
            proof {
                assert((offs@[i as int + 1] as int) != offs@[i as int] + lens@[i as int]);
                assert(!spec_strips_contiguous(offs@, lens@));
            }
            return range_of_single(data, bo, ifd, ot, ct);
        }
        i = i + 1;
    }
    proof {
        assert(spec_strips_contiguous(offs@, lens@));
        lemma_contiguous_monotone(offs@, lens@, m as int);
    }
    Some((offs[0] as u64, (offs[m] as u64) + (lens[m] as u64) - (offs[0] as u64)))
}

/// Classification of one Image File Directory, drawn from its tags. A
/// reduced-resolution JPEG directory whose declared byte range points
/// past the end of the buffer is a truncated structure, a structural
/// error.
pub open spec fn spec_classify_ifd(d: Seq<u8>, bo: ByteOrder, ifd: IfdInfo) -> Result<
    Option<Candidate>,
    CoreError,
> {
    let eb = ifd.entry_base as int;
    let n = ifd.count as int;
    let subfile = match spec_find_tag(d, bo, eb, n, 0, TAG_NEW_SUBFILE_TYPE) {
        Some(v) => v,
        None => 0,
    };
    let compression = spec_find_tag(d, bo, eb, n, 0, TAG_COMPRESSION);
    let range: Option<(int, int)> = match (
        spec_find_tag(d, bo, eb, n, 0, TAG_JPEG_OFFSET),
        spec_find_tag(d, bo, eb, n, 0, TAG_JPEG_LENGTH),
    ) {
        (Some(o), Some(l)) => Some((o as int, l as int)),
        _ => match spec_range_of(d, bo, eb, n, TAG_STRIP_OFFSETS, TAG_STRIP_BYTE_COUNTS) {
            Some(t) => Some(t),
            None => spec_range_of(d, bo, eb, n, TAG_TILE_OFFSETS, TAG_TILE_BYTE_COUNTS),
        },
    };
    if subfile % 2 == 1 && (compression == Some(6u32) || compression == Some(7u32)) {
        match range {
            None => Ok(None),
            Some((o, l)) => if !(o >= 0 && l > 0) {
                Ok(None)
            } else if o + l > d.len() {
                Err(err_at(ErrorKind::InvalidInput, o))
            } else {
                let dims = match (
                    spec_find_tag(d, bo, eb, n, 0, TAG_IMAGE_WIDTH),
                    spec_find_tag(d, bo, eb, n, 0, TAG_IMAGE_LENGTH),
                ) {
                    (Some(w), Some(h)) => Some((w, h)),
                    _ => match spec_jpeg_dims(d, o, o + l) {
                        Some((m, w, h, _, _)) => if m == 0xC0 {
                            Some((w, h))
                        } else {
                            None
                        },
                        None => None,
                    },
                };
                match dims {
                    Some((w, h)) => if 1 <= w <= 0xFFFF && 1 <= h <= 0xFFFF {
                        Ok(
                            Some(
                                Candidate {
                                    offset: o as usize,
                                    length: l as usize,
                                    width: w as u32,
                                    height: h as u32,
                                    encoding: EncodingKind::Jpeg,
                                },
                            ),
                        )
                    } else {
                        Ok(None)
                    },
                    None => Ok(None),
                }
            },
        }
    } else {
        Ok(None)
    }
}

/// Exec counterpart of `spec_classify_ifd`.
fn classify_ifd(data: &[u8], bo: ByteOrder, ifd: &IfdInfo) -> (r: Result<
    Option<Candidate>,
    CoreError,
>)
    requires
        ifd.entry_base + 12 * (ifd.count as int) <= data@.len(),
    ensures
        r == spec_classify_ifd(data@, bo, *ifd),
        r matches Ok(c) ==> (c matches Some(c) ==> spec_candidate_wf(c, data@.len() as int)),
{
    let dlen = data.len();
    let subfile = match find_tag(data, bo, ifd, TAG_NEW_SUBFILE_TYPE) {
        Some(v) => v,
        None => 0,
    };
    let compression = find_tag(data, bo, ifd, TAG_COMPRESSION);
    let range: Option<(u64, u64)> = match (
        find_tag(data, bo, ifd, TAG_JPEG_OFFSET),
        find_tag(data, bo, ifd, TAG_JPEG_LENGTH),
    ) {
        (Some(o), Some(l)) => Some((o as u64, l as u64)),
        _ => match range_of(data, bo, ifd, TAG_STRIP_OFFSETS, TAG_STRIP_BYTE_COUNTS) {
            Some(t) => Some(t),
            None => range_of(data, bo, ifd, TAG_TILE_OFFSETS, TAG_TILE_BYTE_COUNTS),
        },
    };
    if !(subfile % 2 == 1 && (compression == Some(6u32) || compression == Some(7u32))) {
        return Ok(None);
    }
    let (o64, l64) = match range {
        None => {
            return Ok(None);
        },
        Some(t) => t,
    };
    if !(l64 > 0) {
        return Ok(None);
    }
    if o64 + l64 > dlen as u64 {
        return Err(CoreError::new(ErrorKind::InvalidInput, o64));
    }
    let o = o64 as usize;
    let l = l64 as usize;
    let dims: Option<(u32, u32)> = match (
        find_tag(data, bo, ifd, TAG_IMAGE_WIDTH),
        find_tag(data, bo, ifd, TAG_IMAGE_LENGTH),
    ) {
        (Some(w), Some(h)) => Some((w, h)),
        _ => match jpeg_dims(data, o, o + l) {
            Some((m, w, h, _, _)) => if m == 0xC0 {
                Some((w, h))
            } else {
                None
            },
            None => None,
        },
    };
    match dims {
        Some((w, h)) => if 1 <= w && w <= 0xFFFF && 1 <= h && h <= 0xFFFF {
            Ok(
                Some(
                    Candidate {
                        offset: o,
                        length: l,
                        width: w,
                        height: h,
                        encoding: EncodingKind::Jpeg,
                    },
                ),
            )
        } else {
            Ok(None)
        },
        None => Ok(None),
    }
}

/// Walk the directory worklist (last element processed first), collecting
/// thumbnail candidates in descending-area order. Each referenced
/// directory must parse; the walk is bounded by `fuel`.
pub open spec fn spec_dng_walk(
    d: Seq<u8>,
    bo: ByteOrder,
    work: Seq<u32>,
    fuel: nat,
    acc: Seq<Candidate>,
) -> Result<Seq<Candidate>, CoreError>
    decreases fuel,
{
    if work.len() == 0 {
        Ok(acc)
    } else if fuel == 0 {
        Err(err_at(ErrorKind::InvalidInput, 0))
    } else {
        let off = work.last();
        let rest = work.drop_last();
        match spec_read_ifd(d, bo, 0, off as int, d.len() as int) {
            Err(e) => Err(e),
            Ok(ifd) => match spec_classify_ifd(d, bo, ifd) {
                Err(e) => Err(e),
                Ok(cls) => {
                    let acc2 = match cls {
                        Some(c) => spec_insert_sorted(acc, c),
                        None => acc,
                    };
                    let work2 = if ifd.next != 0 {
                        rest.push(ifd.next)
                    } else {
                        rest
                    };
                    let work3 = work2 + spec_find_offsets(
                        d,
                        bo,
                        0,
                        d.len() as int,
                        ifd.entry_base as int,
                        ifd.count as int,
                        0,
                        TAG_SUB_IFDS,
                    );
                    spec_dng_walk(d, bo, work3, (fuel - 1) as nat, acc2)
                },
            },
        }
    }
}

/// Exec counterpart of `spec_dng_walk`.
fn dng_walk(data: &[u8], bo: ByteOrder, work: Vec<u32>, fuel: u32, acc: Vec<Candidate>) -> (r:
    Result<Vec<Candidate>, CoreError>)
    requires
        spec_candidates_wf(acc@, data@.len() as int),
    ensures
        match r {
            Ok(v) => spec_dng_walk(data@, bo, work@, fuel as nat, acc@) == Ok::<_, CoreError>(v@)
                && spec_candidates_wf(v@, data@.len() as int),
            Err(e) => spec_dng_walk(data@, bo, work@, fuel as nat, acc@) == Err::<Seq<Candidate>, _>(
            e),
        },
    decreases fuel,
{
    let mut work = work;
    let mut acc = acc;
    if work.len() == 0 {
        return Ok(acc);
    }
    if fuel == 0 {
        return Err(CoreError::new(ErrorKind::InvalidInput, 0));
    }
    let ghost work0 = work@;
    let off = work.pop().unwrap();
    proof {
        assert(work@ == work0.drop_last());
        assert(off == work0.last());
    }
    let ifd = match read_ifd(data, bo, 0, off as usize, data.len()) {
        Ok(t) => t,
        Err(e) => {
            return Err(e);
        },
    };
    match classify_ifd(data, bo, &ifd) {
        Err(e) => {
            return Err(e);
        },
        Ok(Some(c)) => {
            proof {
                lemma_insert_sorted_wf(acc@, c, data@.len() as int);
            }
            insert_candidate(&mut acc, c);
        },
        Ok(None) => {},
    }
    if ifd.next != 0 {
        work.push(ifd.next);
    }
    let subs = find_offsets(data, bo, 0, data.len(), &ifd, TAG_SUB_IFDS);
    let ghost work2 = work@;
    let mut si: usize = 0;
    while si < subs.len()
        invariant
            si <= subs@.len(),
            work@ == work2 + subs@.take(si as int),
        decreases subs@.len() - si,
    {
        work.push(subs[si]);
        proof {
            assert(work@ =~= work2 + subs@.take(si as int + 1));
        }
        si = si + 1;
    }
    proof {
        assert(work@ =~= work2 + subs@);
    }
    dng_walk(data, bo, work, fuel - 1, acc)
}

proof fn lemma_dng_walk_wf(d: Seq<u8>, bo: ByteOrder, work: Seq<u32>, fuel: nat, acc: Seq<Candidate>)
    requires
        d.len() <= usize::MAX,
        spec_candidates_wf(acc, d.len() as int),
    ensures
        spec_dng_walk(d, bo, work, fuel, acc) matches Ok(v) ==> spec_candidates_wf(
            v,
            d.len() as int,
        ),
    decreases fuel,
{
    if work.len() != 0 && fuel != 0 {
        let off = work.last();
        let rest = work.drop_last();
        match spec_read_ifd(d, bo, 0, off as int, d.len() as int) {
            Err(_) => {},
            Ok(ifd) => {
                let acc2 = match spec_classify_ifd(d, bo, ifd) {
                    Err(_) => acc,
                    Ok(Some(c)) => {
                        lemma_insert_sorted_wf(acc, c, d.len() as int);
                        spec_insert_sorted(acc, c)
                    },
                    Ok(None) => acc,
                };
                let work2 = if ifd.next != 0 {
                    rest.push(ifd.next)
                } else {
                    rest
                };
                let work3 = work2 + spec_find_offsets(
                    d,
                    bo,
                    0,
                    d.len() as int,
                    ifd.entry_base as int,
                    ifd.count as int,
                    0,
                    TAG_SUB_IFDS,
                );
                lemma_dng_walk_wf(d, bo, work3, (fuel - 1) as nat, acc2);
            },
        }
    }
}

/// On success the DNG candidate list satisfies the list invariant: every
/// byte range in bounds, order descending by pixel area.
pub proof fn lemma_parse_dng_wf(d: Seq<u8>)
    requires
        d.len() <= usize::MAX,
    ensures
        spec_parse_dng(d) matches Ok(t) ==> spec_candidates_wf(t.0, d.len() as int),
{
    match spec_tiff_header(d, 0, d.len() as int) {
        Err(_) => {},
        Ok((bo, off0)) => {
            lemma_dng_walk_wf(d, bo, seq![off0], MAX_SEGMENTS as nat, Seq::empty());
        },
    }
}

/// The byte size the TIFF header and first directory declare: the end of
/// the first directory's entry table and next-pointer.
pub open spec fn spec_dng_first_ifd_end(d: Seq<u8>) -> int {
    match spec_tiff_header(d, 0, d.len() as int) {
        Err(_) => 0,
        Ok((bo, off0)) => off0 + 2 + 12 * (crate::bytes::spec_u16_at(d, bo, off0 as int) as int)
            + 4,
    }
}

/// Truncation law for the DNG container: a buffer that parses, cut to
/// fewer bytes than its header and first directory declare, fails
/// structurally, with `InvalidInput` and never a panic.
pub proof fn lemma_parse_dng_truncated(d: Seq<u8>, k: int)
    requires
        0 <= k < d.len(),
        k < spec_dng_first_ifd_end(d),
        spec_parse_dng(d) is Ok,
    ensures
        spec_parse_dng(d.take(k)) matches Err(e) && e.kind == ErrorKind::InvalidInput,
{
    let t = d.take(k);
    if k >= 8 {
        assert(forall|q: int| 0 <= q < 8 ==> t[q] == d[q]);
        let (bo, off0) = spec_tiff_header(d, 0, d.len() as int)->Ok_0;
        assert(spec_tiff_header(t, 0, k) == Ok::<_, CoreError>((bo, off0)));
        if off0 + 2 <= k {
            assert(t[off0 as int] == d[off0 as int] && t[off0 as int + 1] == d[off0 as int + 1]);
        }
    }
}

/// Structural parse of a DNG buffer: every reduced-resolution JPEG
/// directory becomes a candidate; orientation comes from the first
/// directory (1 when absent or out of range).
pub open spec fn spec_parse_dng(d: Seq<u8>) -> Result<(Seq<Candidate>, u16), CoreError> {
    match spec_tiff_header(d, 0, d.len() as int) {
        Err(e) => Err(e),
        Ok((bo, off0)) => match spec_read_ifd(d, bo, 0, off0 as int, d.len() as int) {
            Err(e) => Err(e),
            Ok(ifd0) => {
                let orient = match spec_find_tag(
                    d,
                    bo,
                    ifd0.entry_base as int,
                    ifd0.count as int,
                    0,
                    TAG_ORIENTATION,
                ) {
                    Some(v) => if 1 <= v <= 8 {
                        v as u16
                    } else {
                        1u16
                    },
                    None => 1u16,
                };
                match spec_dng_walk(d, bo, seq![off0], MAX_SEGMENTS as nat, Seq::empty()) {
                    Err(e) => Err(e),
                    Ok(cands) => Ok((cands, orient)),
                }
            },
        },
    }
}

/// Parse a DNG buffer into its container descriptor.
///
/// The result is pinned to `spec_parse_dng`; on success the descriptor
/// satisfies the candidate-list invariant against the buffer length.
pub fn parse_dng(data: &[u8]) -> (r: Result<ContainerDescriptor, CoreError>)
    ensures
        match r {
            Ok(desc) => spec_parse_dng(data@) == Ok::<_, CoreError>((desc.candidates@, desc.orientation))
                && desc.format == FormatTag::Dng && spec_descriptor_wf(desc, data@.len() as int),
            Err(e) => spec_parse_dng(data@) == Err::<(Seq<Candidate>, u16), _>(e),
        },
{
    let dlen = data.len();
    let (bo, off0) = match read_tiff_header(data, 0, dlen) {
        Ok(t) => t,
        Err(e) => {
            return Err(e);
        },
    };
    let ifd0 = match read_ifd(data, bo, 0, off0 as usize, dlen) {
        Ok(t) => t,
        Err(e) => {
            return Err(e);
        },
    };
    let orientation: u16 = match find_tag(data, bo, &ifd0, TAG_ORIENTATION) {
        Some(v) => if 1 <= v && v <= 8 {
            v as u16
        } else {
            1
        },
        None => 1,
    };
    let mut work: Vec<u32> = Vec::new();
    work.push(off0);
    proof {
        assert(work@ =~= seq![off0]);
    }
    let candidates = match dng_walk(data, bo, work, MAX_SEGMENTS, Vec::new()) {
        Ok(v) => v,
        Err(e) => {
            return Err(e);
        },
    };
    Ok(ContainerDescriptor { format: FormatTag::Dng, candidates, orientation })
}

} // verus!
