//! Multi-byte field readers, in both byte orders.
//!
//! TIFF containers declare their own byte order in the header; every
//! multi-byte read downstream must honor it, so the readers take the order
//! as a value and their specifications are exact arithmetic over the bytes.

use vstd::prelude::*;

verus! {

/// Byte order declared by a TIFF header.
#[derive(Clone, Copy, Debug, PartialEq, Eq, Structural)]
pub enum ByteOrder {
    Little,
    Big,
}

/// The 16-bit value stored at `i` in `d` under byte order `bo`.
pub open spec fn spec_u16_at(d: Seq<u8>, bo: ByteOrder, i: int) -> u16 {
    match bo {
        ByteOrder::Big => ((d[i] as int) * 256 + (d[i + 1] as int)) as u16,
        ByteOrder::Little => ((d[i + 1] as int) * 256 + (d[i] as int)) as u16,
    }
}

/// The 32-bit value stored at `i` in `d` under byte order `bo`.
pub open spec fn spec_u32_at(d: Seq<u8>, bo: ByteOrder, i: int) -> u32 {
    match bo {
        ByteOrder::Big => ((d[i] as int) * 0x1000000 + (d[i + 1] as int) * 0x10000
            + (d[i + 2] as int) * 0x100 + (d[i + 3] as int)) as u32,
        ByteOrder::Little => ((d[i + 3] as int) * 0x1000000 + (d[i + 2] as int) * 0x10000
            + (d[i + 1] as int) * 0x100 + (d[i] as int)) as u32,
    }
}

/// Read a 16-bit field at `i` from `data` under byte order `bo`.
pub fn read_u16_at(data: &[u8], bo: ByteOrder, i: usize) -> (r: u16)
    requires
        i + 2 <= data@.len(),
    ensures
        r == spec_u16_at(data@, bo, i as int),
{
    let a = data[i];
    let b = data[i + 1];
    match bo {
        ByteOrder::Big => (a as u16) * 256 + (b as u16),
        ByteOrder::Little => (b as u16) * 256 + (a as u16),
    }
}

/// Read a 32-bit field at `i` from `data` under byte order `bo`.
pub fn read_u32_at(data: &[u8], bo: ByteOrder, i: usize) -> (r: u32)
    requires
        i + 4 <= data@.len(),
    ensures
        r == spec_u32_at(data@, bo, i as int),
{
    let a = data[i];
    let b = data[i + 1];
    let c = data[i + 2];
    let e = data[i + 3];
    match bo {
        ByteOrder::Big => (a as u32) * 0x1000000 + (b as u32) * 0x10000 + (c as u32) * 0x100 + (
        e as u32),
        ByteOrder::Little => (e as u32) * 0x1000000 + (c as u32) * 0x10000 + (b as u32) * 0x100 + (
        a as u32),
    }
}

/// Byte-order law for 16-bit fields: a big-endian field and the same
/// logical value written little-endian (the two bytes swapped) read back
/// as the same number.
pub proof fn lemma_byte_order_u16(be: Seq<u8>, le: Seq<u8>, i: int, j: int)
    requires
        0 <= i, i + 2 <= be.len(),
        0 <= j, j + 2 <= le.len(),
        le[j] == be[i + 1],
        le[j + 1] == be[i],
    ensures
        spec_u16_at(be, ByteOrder::Big, i) == spec_u16_at(le, ByteOrder::Little, j),
{
}

/// Byte-order law for 32-bit fields: a big-endian field and the same
/// logical value written little-endian (the four bytes reversed) read
/// back as the same number.
pub proof fn lemma_byte_order_u32(be: Seq<u8>, le: Seq<u8>, i: int, j: int)
    requires
        0 <= i, i + 4 <= be.len(),
        0 <= j, j + 4 <= le.len(),
        le[j] == be[i + 3],
        le[j + 1] == be[i + 2],
        le[j + 2] == be[i + 1],
        le[j + 3] == be[i],
    ensures
        spec_u32_at(be, ByteOrder::Big, i) == spec_u32_at(le, ByteOrder::Little, j),
{
}

} // verus!
