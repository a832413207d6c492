//! TIFF structural primitives: header, Image File Directory (IFD)
//! navigation, and tag lookup.
//!
//! Both the DNG container and the EXIF block inside a JPEG APP1 segment are
//! TIFF structures; all multi-byte reads honor the byte order declared in
//! the TIFF header. Every reader is pinned to an exact specification
//! function so results are a pure function of the bytes.

use vstd::prelude::*;
use crate::bytes::{ByteOrder, spec_u16_at, spec_u32_at, read_u16_at, read_u32_at};
use crate::error::{CoreError, ErrorKind, err_at};

verus! {

/// Location of one parsed IFD: where its entries start, how many it has,
/// and the declared offset of the next IFD in the chain (0 = none).
#[derive(Clone, Copy, Debug)]
pub struct IfdInfo {
    /// Absolute byte offset of the first 12-byte entry.
    pub entry_base: usize,
    /// Number of entries.
    pub count: u16,
    /// Offset of the next IFD, relative to the TIFF header (0 = none).
    pub next: u32,
}

/// Parse the 8-byte TIFF header at `base`: byte-order marker, magic 42,
/// and the offset of the first IFD (relative to `base`).
pub open spec fn spec_tiff_header(d: Seq<u8>, base: int, limit: int) -> Result<
    (ByteOrder, u32),
    CoreError,
> {
    if base + 8 > limit {
        Err(err_at(ErrorKind::InvalidInput, base))
    } else {
        let bo = if d[base] == 0x49 && d[base + 1] == 0x49 {
            Some(ByteOrder::Little)
        } else if d[base] == 0x4D && d[base + 1] == 0x4D {
            Some(ByteOrder::Big)
        } else {
            None
        };
        match bo {
            None => Err(err_at(ErrorKind::InvalidInput, base)),
            Some(bo) => if spec_u16_at(d, bo, base + 2) != 42 {
                Err(err_at(ErrorKind::InvalidInput, base + 2))
            } else {
                Ok((bo, spec_u32_at(d, bo, base + 4)))
            },
        }
    }
}

/// Exec counterpart of `spec_tiff_header`.
pub fn read_tiff_header(data: &[u8], base: usize, limit: usize) -> (r: Result<
    (ByteOrder, u32),
    CoreError,
>)
    requires
        base <= limit <= data@.len(),
    ensures
        r == spec_tiff_header(data@, base as int, limit as int),
{
    if limit - base < 8 {
        return Err(CoreError::new(ErrorKind::InvalidInput, base as u64));
    }
    let b0 = data[base];
    let b1 = data[base + 1];
    let bo: ByteOrder;
    if b0 == 0x49 && b1 == 0x49 {
        bo = ByteOrder::Little;
    } else if b0 == 0x4D && b1 == 0x4D {
        bo = ByteOrder::Big;
    } else {
        return Err(CoreError::new(ErrorKind::InvalidInput, base as u64));
    }
    if read_u16_at(data, bo, base + 2) != 42 {
        return Err(CoreError::new(ErrorKind::InvalidInput, (base + 2) as u64));
    }
    Ok((bo, read_u32_at(data, bo, base + 4)))
}

/// Locate the IFD at offset `off` (relative to `base`), checking that its
/// entry table and next-IFD pointer lie inside `limit`.
pub open spec fn spec_read_ifd(d: Seq<u8>, bo: ByteOrder, base: int, off: int, limit: int) -> Result<
    IfdInfo,
    CoreError,
> {
    if off < 8 || base + off + 2 > limit {
        Err(err_at(ErrorKind::InvalidInput, base))
    } else {
        let n = spec_u16_at(d, bo, base + off) as int;
        if base + off + 2 + 12 * n + 4 > limit {
            Err(err_at(ErrorKind::InvalidInput, base + off))
        } else {
            Ok(
                IfdInfo {
                    entry_base: (base + off + 2) as usize,
                    count: spec_u16_at(d, bo, base + off),
                    next: spec_u32_at(d, bo, base + off + 2 + 12 * n),
                },
            )
        }
    }
}

/// Exec counterpart of `spec_read_ifd`.
pub fn read_ifd(data: &[u8], bo: ByteOrder, base: usize, off: usize, limit: usize) -> (r: Result<
    IfdInfo,
    CoreError,
>)
    requires
        base <= limit <= data@.len(),
        off <= 0xFFFF_FFFF,
    ensures
        r == spec_read_ifd(data@, bo, base as int, off as int, limit as int),
        r matches Ok(ifd) ==> ifd.entry_base + 12 * (ifd.count as int) + 4 <= limit,
{
    let rem = limit - base;
    if off < 8 || rem < 2 || off > rem - 2 {
        return Err(CoreError::new(ErrorKind::InvalidInput, base as u64));
    }
    let n = read_u16_at(data, bo, base + off);
    let table: usize = 12 * (n as usize) + 4;
    if table > rem - 2 - off {
        return Err(CoreError::new(ErrorKind::InvalidInput, (base + off) as u64));
    }
    let next = read_u32_at(data, bo, base + off + 2 + 12 * (n as usize));
    Ok(IfdInfo { entry_base: base + off + 2, count: n, next })
}

/// Linear scan of the IFD entries `i..n` at `eb` for `tag`: the first
/// matching entry with count 1 and an inline SHORT or LONG value yields
/// that value.
pub open spec fn spec_find_tag(
    d: Seq<u8>,
    bo: ByteOrder,
    eb: int,
    n: int,
    i: int,
    tag: u16,
) -> Option<u32>
    decreases n - i,
{
    if i < 0 || i >= n {
        None
    } else {
        let e = eb + 12 * i;
        let etag = spec_u16_at(d, bo, e);
        let etyp = spec_u16_at(d, bo, e + 2);
        let ecnt = spec_u32_at(d, bo, e + 4);
        if etag == tag && ecnt == 1 && (etyp == 3 || etyp == 4) {
            if etyp == 3 {
                Some(spec_u16_at(d, bo, e + 8) as u32)
            } else {
                Some(spec_u32_at(d, bo, e + 8))
            }
        } else {
            spec_find_tag(d, bo, eb, n, i + 1, tag)
        }
    }
}

/// Byte-order law one level above the raw readers: two directories whose
/// entry fields read equal under their respective declared byte orders —
/// a big-endian file and the same logical file written little-endian —
/// yield the same value for every tag lookup.
pub proof fn lemma_find_tag_byte_order(
    d1: Seq<u8>,
    bo1: ByteOrder,
    d2: Seq<u8>,
    bo2: ByteOrder,
    eb: int,
    n: int,
    i: int,
    tag: u16,
)
    requires
        forall|e: int| eb <= e < eb + 12 * n ==> #[trigger] spec_u16_at(d1, bo1, e) == spec_u16_at(
            d2,
            bo2,
            e,
        ),
        forall|e: int| eb <= e < eb + 12 * n ==> #[trigger] spec_u32_at(d1, bo1, e) == spec_u32_at(
            d2,
            bo2,
            e,
        ),
        n >= 0,
    ensures
        spec_find_tag(d1, bo1, eb, n, i, tag) == spec_find_tag(d2, bo2, eb, n, i, tag),
    decreases n - i,
{
    if 0 <= i < n {
        let e = eb + 12 * i;
        assert(eb <= e && e + 12 <= eb + 12 * n);
        assert(spec_u16_at(d1, bo1, e) == spec_u16_at(d2, bo2, e));
        assert(spec_u16_at(d1, bo1, e + 2) == spec_u16_at(d2, bo2, e + 2));
        assert(spec_u32_at(d1, bo1, e + 4) == spec_u32_at(d2, bo2, e + 4));
        assert(spec_u16_at(d1, bo1, e + 8) == spec_u16_at(d2, bo2, e + 8));
        assert(spec_u32_at(d1, bo1, e + 8) == spec_u32_at(d2, bo2, e + 8));
        lemma_find_tag_byte_order(d1, bo1, d2, bo2, eb, n, i + 1, tag);
    }
}

/// The LONG-array values of the first entry `i..n` carrying `tag`: inline
/// when the count is 1, read from the (base-relative) value offset when
/// the count is larger and the whole array lies inside `limit`; empty
/// when the tag is absent or the array is malformed.
pub open spec fn spec_find_offsets(
    d: Seq<u8>,
    bo: ByteOrder,
    base: int,
    limit: int,
    eb: int,
    n: int,
    i: int,
    tag: u16,
) -> Seq<u32>
    decreases n - i,
{
    if i < 0 || i >= n {
        Seq::empty()
    } else {
        let e = eb + 12 * i;
        let etag = spec_u16_at(d, bo, e);
        let etyp = spec_u16_at(d, bo, e + 2);
        let ecnt = spec_u32_at(d, bo, e + 4) as int;
        if etag == tag && etyp == 4 {
            if ecnt == 1 {
                seq![spec_u32_at(d, bo, e + 8)]
            } else if ecnt >= 2 {
                let off = spec_u32_at(d, bo, e + 8) as int;
                if off >= 8 && base + off + 4 * ecnt <= limit {
                    Seq::new(ecnt as nat, |j: int| spec_u32_at(d, bo, base + off + 4 * j))
                } else {
                    Seq::empty()
                }
            } else {
                Seq::empty()
            }
        } else {
            spec_find_offsets(d, bo, base, limit, eb, n, i + 1, tag)
        }
    }
}

/// Exec counterpart of `spec_find_offsets`.
pub fn find_offsets(
    data: &[u8],
    bo: ByteOrder,
    base: usize,
    limit: usize,
    ifd: &IfdInfo,
    tag: u16,
) -> (r: Vec<u32>)
    requires
        base <= limit <= data@.len(),
        ifd.entry_base + 12 * (ifd.count as int) <= data@.len(),
    ensures
        r@ == spec_find_offsets(
            data@,
            bo,
            base as int,
            limit as int,
            ifd.entry_base as int,
            ifd.count as int,
            0,
            tag,
        ),
{
    let n = ifd.count as usize;
    let dlen = data.len();
    let ghost gr = spec_find_offsets(
        data@,
        bo,
        base as int,
        limit as int,
        ifd.entry_base as int,
        ifd.count as int,
        0,
        tag,
    );
    let mut i: usize = 0;
    while i < n
        invariant
            i <= n,
            n == ifd.count as int,
            dlen == data@.len(),
            base <= limit <= data@.len(),
            ifd.entry_base + 12 * (ifd.count as int) <= data@.len(),
            gr == spec_find_offsets(
                data@,
                bo,
                base as int,
                limit as int,
                ifd.entry_base as int,
                n as int,
                0,
                tag,
            ),
            gr == spec_find_offsets(
                data@,
                bo,
                base as int,
                limit as int,
                ifd.entry_base as int,
                n as int,
                i as int,
                tag,
            ),
        decreases n - i,
    {
        proof {
            assert(12 * (i as int) + 12 <= 12 * (ifd.count as int));
            assert(ifd.entry_base + 12 * (i as int) + 12 <= data@.len());
        }
        let e = ifd.entry_base + 12 * i;
        let etag = read_u16_at(data, bo, e);
        let etyp = read_u16_at(data, bo, e + 2);
        let ecnt = read_u32_at(data, bo, e + 4);
        if etag == tag && etyp == 4 {
            if ecnt == 1 {
                let mut out: Vec<u32> = Vec::new();
                out.push(read_u32_at(data, bo, e + 8));
                proof {
                    assert(out@ =~= gr);
                }
                return out;
            }
            if ecnt >= 2 {
                let off = read_u32_at(data, bo, e + 8);
                if off >= 8 && (off as u64) + 4 * (ecnt as u64) <= (limit - base) as u64 {
                    let cnt = ecnt as usize;
                    let off = off as usize;
                    let mut out: Vec<u32> = Vec::new();
                    let mut j: usize = 0;
                    while j < cnt
                        invariant
                            j <= cnt,
                            dlen == data@.len(),
                            base + off + 4 * (cnt as int) <= limit <= data@.len(),
                            out@ == Seq::new(
                                j as nat,
                                |jj: int| spec_u32_at(data@, bo, base as int + off as int + 4 * jj),
                            ),
                        decreases cnt - j,
                    {
                        proof {
                            assert(4 * (j as int) + 4 <= 4 * (cnt as int));
                        }
                        let v = read_u32_at(data, bo, base + off + 4 * j);
                        out.push(v);
                        proof {
                            assert(out@ =~= Seq::new(
                                (j + 1) as nat,
                                |jj: int| spec_u32_at(data@, bo, base as int + off as int + 4 * jj),
                            ));
                        }
                        j = j + 1;
                    }
                    proof {
                        assert(out@ =~= gr);
                    }
                    return out;
                }
            }
            proof {
                assert(Seq::<u32>::empty() =~= gr);
            }
            return Vec::new();
        }
        i = i + 1;
    }
    proof {
        assert(Seq::<u32>::empty() =~= gr);
    }
    Vec::new()
}

/// Exec counterpart of `spec_find_tag`, scanning all entries of one IFD.
pub fn find_tag(data: &[u8], bo: ByteOrder, ifd: &IfdInfo, tag: u16) -> (r: Option<u32>)
    requires
        ifd.entry_base + 12 * (ifd.count as int) <= data@.len(),
    ensures
        r == spec_find_tag(data@, bo, ifd.entry_base as int, ifd.count as int, 0, tag),
{
    let n = ifd.count as usize;
    let dlen = data.len();
    let mut i: usize = 0;
    while i < n
        invariant
            i <= n,
            n == ifd.count as int,
            dlen == data@.len(),
            ifd.entry_base + 12 * (ifd.count as int) <= data@.len(),
            spec_find_tag(data@, bo, ifd.entry_base as int, n as int, 0, tag) == spec_find_tag(
                data@,
                bo,
                ifd.entry_base as int,
                n as int,
                i as int,
                tag,
            ),
        decreases n - i,
    {
        proof {
            assert(12 * (i as int) + 12 <= 12 * (ifd.count as int));
            assert(ifd.entry_base + 12 * (i as int) + 12 <= data@.len());
        }
        let e = ifd.entry_base + 12 * i;
        let etag = read_u16_at(data, bo, e);
        let etyp = read_u16_at(data, bo, e + 2);
        let ecnt = read_u32_at(data, bo, e + 4);
        if etag == tag && ecnt == 1 && (etyp == 3 || etyp == 4) {
            if etyp == 3 {
                return Some(read_u16_at(data, bo, e + 8) as u32);
            } else {
                return Some(read_u32_at(data, bo, e + 8));
            }
        }
        i = i + 1;
    }
    None
}

} // verus!
