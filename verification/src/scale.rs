//! Downscaler / re-encoder: orientation correction, aspect-preserving
//! nearest-neighbor resize, and the stable output byte format.
//!
//! Output format: 4 bytes big-endian output width, 4 bytes big-endian
//! output height, then `3 * width * height` bytes of 8-bit RGB pixels in
//! row-major order, already orientation-corrected. The longest output edge
//! never exceeds the requested bound and the image is never upscaled.

use vstd::prelude::*;
use crate::arith::{lemma_mul_le, lemma_div_below, lemma_scale_below, lemma_flat_index};

verus! {

/// Longest-edge bound applied when the caller passes 0 (default policy).
pub const DEFAULT_MAX_EDGE: u32 = 256;

/// The effective longest-edge bound: the caller's hint, or the default
/// policy value when the hint is 0.
pub open spec fn spec_effective_bound(m: u32) -> u32 {
    if m == 0 {
        DEFAULT_MAX_EDGE
    } else {
        m
    }
}

/// Exec counterpart of `spec_effective_bound`.
pub fn effective_bound(m: u32) -> (r: u32)
    ensures
        r == spec_effective_bound(m),
        r >= 1,
{
    if m == 0 {
        DEFAULT_MAX_EDGE
    } else {
        m
    }
}

/// Orientations 5 through 8 transpose the image axes.
pub open spec fn spec_swaps_axes(o: u16) -> bool {
    5 <= o <= 8
}

/// Width after orientation correction.
pub open spec fn spec_oriented_w(w: u32, h: u32, o: u16) -> u32 {
    if spec_swaps_axes(o) {
        h
    } else {
        w
    }
}

/// Height after orientation correction.
pub open spec fn spec_oriented_h(w: u32, h: u32, o: u16) -> u32 {
    if spec_swaps_axes(o) {
        w
    } else {
        h
    }
}

/// Source column of the oriented pixel `(ox, oy)` for orientation `o`
/// applied to a `w` by `h` source; unknown orientation values act as 1.
pub open spec fn spec_src_x(ox: int, oy: int, w: int, h: int, o: u16) -> int {
    if o == 2 || o == 3 {
        w - 1 - ox
    } else if o == 5 || o == 6 {
        oy
    } else if o == 7 || o == 8 {
        w - 1 - oy
    } else {
        ox
    }
}

/// Source row of the oriented pixel `(ox, oy)`.
pub open spec fn spec_src_y(ox: int, oy: int, w: int, h: int, o: u16) -> int {
    if o == 3 || o == 4 {
        h - 1 - oy
    } else if o == 5 || o == 8 {
        ox
    } else if o == 6 || o == 7 {
        h - 1 - ox
    } else {
        oy
    }
}

/// The orientation map sends oriented coordinates into the source image.
proof fn lemma_src_bounds(ox: int, oy: int, w: int, h: int, o: u16)
    requires
        0 <= ox < spec_oriented_w(w as u32, h as u32, o),
        0 <= oy < spec_oriented_h(w as u32, h as u32, o),
        0 < w <= 0xFFFF,
        0 < h <= 0xFFFF,
    ensures
        0 <= spec_src_x(ox, oy, w, h, o) < w,
        0 <= spec_src_y(ox, oy, w, h, o) < h,
{
}

/// One scaled edge: `s * b / l`, clamped up to 1.
pub open spec fn spec_scaled_edge(s: int, b: int, l: int) -> u32 {
    let v = s * b / l;
    if v < 1 {
        1u32
    } else {
        v as u32
    }
}

/// Output dimensions: unchanged when the longest oriented edge already
/// meets the bound, otherwise scaled down preserving aspect ratio so the
/// longest edge equals the bound. Never upscales.
pub open spec fn spec_target_dims(ow: u32, oh: u32, b: u32) -> (u32, u32) {
    if (if ow >= oh {
        ow
    } else {
        oh
    }) <= b {
        (ow, oh)
    } else if ow >= oh {
        (b, spec_scaled_edge(oh as int, b as int, ow as int))
    } else {
        (spec_scaled_edge(ow as int, b as int, oh as int), b)
    }
}

/// Downscaler law: the target never exceeds the source on either axis
/// (no upscaling), both edges stay positive, and the longest target edge
/// is at most the bound.
pub proof fn lemma_target_dims(ow: u32, oh: u32, b: u32)
    requires
        1 <= ow <= 0xFFFF,
        1 <= oh <= 0xFFFF,
        1 <= b,
    ensures
        ({
            let (tw, th) = spec_target_dims(ow, oh, b);
            &&& 1 <= tw <= ow
            &&& 1 <= th <= oh
            &&& tw <= b
            &&& th <= b
        }),
{
    let longest: u32 = if ow >= oh {
        ow
    } else {
        oh
    };
    if longest > b {
        if ow >= oh {
            lemma_scaled_edge_bounds(oh as int, b as int, ow as int);
        } else {
            lemma_scaled_edge_bounds(ow as int, b as int, oh as int);
        }
    }
}

/// The scaled short edge stays within both the bound and the source edge.
proof fn lemma_scaled_edge_bounds(s: int, b: int, l: int)
    requires
        1 <= s <= l,
        1 <= b < l,
        l <= 0xFFFF,
    ensures
        1 <= spec_scaled_edge(s, b, l) <= s,
        spec_scaled_edge(s, b, l) <= b,
{
    assert(s * b < (b + 1) * l) by (nonlinear_arith)
        requires
            1 <= s <= l,
            1 <= b < l,
    ;
    assert(s * b >= 0) by (nonlinear_arith)
        requires
            1 <= s,
            1 <= b,
    ;
    lemma_div_below(s * b, b + 1, l);
    assert(s * b < (s + 1) * l) by (nonlinear_arith)
        requires
            1 <= s <= l,
            1 <= b < l,
    ;
    lemma_div_below(s * b, s + 1, l);
    assert(s * b / l <= s);
}

/// The four big-endian bytes of a 32-bit value.
pub open spec fn spec_be32_bytes(v: u32) -> Seq<u8> {
    seq![
        (v / 0x1000000) as u8,
        ((v / 0x10000) % 0x100) as u8,
        ((v / 0x100) % 0x100) as u8,
        (v % 0x100) as u8,
    ]
}

/// One byte of the resampled, orientation-corrected output image, by flat
/// index `k` into the pixel area (row-major, 3 bytes per pixel).
pub open spec fn spec_sample_byte(
    p: Seq<u8>,
    w: int,
    h: int,
    o: u16,
    ow: int,
    oh: int,
    tw: int,
    th: int,
    k: int,
) -> u8 {
    let ty = k / (3 * tw);
    let r = k % (3 * tw);
    let tx = r / 3;
    let cc = r % 3;
    let oy = ty * oh / th;
    let ox = tx * ow / tw;
    let sx = spec_src_x(ox, oy, w, h, o);
    let sy = spec_src_y(ox, oy, w, h, o);
    p[(sy * w + sx) * 3 + cc]
}

/// The complete output buffer for decoded pixels `p` (a `w` by `h` 8-bit
/// RGB image), orientation `o` and effective bound `b`.
pub open spec fn spec_output(p: Seq<u8>, w: u32, h: u32, o: u16, b: u32) -> Seq<u8> {
    let ow = spec_oriented_w(w, h, o);
    let oh = spec_oriented_h(w, h, o);
    let (tw, th) = spec_target_dims(ow, oh, b);
    spec_be32_bytes(tw) + spec_be32_bytes(th) + Seq::new(
        (3 * (tw as int) * (th as int)) as nat,
        |k: int|
            spec_sample_byte(
                p,
                w as int,
                h as int,
                o,
                ow as int,
                oh as int,
                tw as int,
                th as int,
                k,
            ),
    )
}

/// Exec counterpart of `spec_scaled_edge` for one axis.
fn scaled_edge(s: u32, b: u32, l: u32) -> (r: u32)
    requires
        1 <= s <= l,
        1 <= b < l,
        l <= 0xFFFF,
    ensures
        r == spec_scaled_edge(s as int, b as int, l as int),
{
    proof {
        lemma_mul_le(s as int, b as int, 0xFFFF, 0xFFFF);
        lemma_scaled_edge_bounds(s as int, b as int, l as int);
    }
    let v = ((s as u64) * (b as u64) / (l as u64)) as u32;
    if v < 1 {
        1
    } else {
        v
    }
}

/// Exec counterpart of `spec_target_dims`.
fn target_dims(ow: u32, oh: u32, b: u32) -> (r: (u32, u32))
    requires
        1 <= ow <= 0xFFFF,
        1 <= oh <= 0xFFFF,
        1 <= b,
    ensures
        r == spec_target_dims(ow, oh, b),
{
    let longest = if ow >= oh {
        ow
    } else {
        oh
    };
    if longest <= b {
        (ow, oh)
    } else if ow >= oh {
        (b, scaled_edge(oh, b, ow))
    } else {
        (scaled_edge(ow, b, oh), b)
    }
}

/// Push the four big-endian bytes of `v`.
fn push_be32(out: &mut Vec<u8>, v: u32)
    ensures
        final(out)@ == old(out)@ + spec_be32_bytes(v),
{
    out.push((v / 0x1000000) as u8);
    out.push(((v / 0x10000) % 0x100) as u8);
    out.push(((v / 0x100) % 0x100) as u8);
    out.push((v % 0x100) as u8);
    proof {
        assert(out@ =~= old(out)@ + spec_be32_bytes(v));
    }
}

/// Build the output buffer: orientation-corrected, aspect-preserving
/// nearest-neighbor resample of `pixels`, behind an 8-byte dimension
/// header. Pinned to `spec_output`.
pub fn build_output(pixels: &Vec<u8>, w: u32, h: u32, o: u16, b: u32) -> (out: Vec<u8>)
    requires
        1 <= w <= 0xFFFF,
        1 <= h <= 0xFFFF,
        1 <= b,
        pixels@.len() == 3 * (w as int) * (h as int),
    ensures
        out@ == spec_output(pixels@, w, h, o, b),
{
    let ow = if 5 <= o && o <= 8 {
        h
    } else {
        w
    };
    let oh = if 5 <= o && o <= 8 {
        w
    } else {
        h
    };
    let (tw, th) = target_dims(ow, oh, b);
    let plen = pixels.len();
    proof {
        lemma_target_dims(ow, oh, b);
        assert((tw as int) * (th as int) <= (ow as int) * (oh as int)) by {
            lemma_mul_le(tw as int, th as int, ow as int, oh as int);
        }
        assert((ow as int) * (oh as int) == (w as int) * (h as int)) by (nonlinear_arith)
            requires
                (ow == w && oh == h) || (ow == h && oh == w),
        ;
        assert(3 * (tw as int) * (th as int) <= 3 * ((w as int) * (h as int)))
            by (nonlinear_arith)
            requires
                (tw as int) * (th as int) <= (w as int) * (h as int),
        ;
        assert(3 * (w as int) * (h as int) == 3 * ((w as int) * (h as int))) by (nonlinear_arith);
        assert(3 * (tw as int) * (th as int) <= plen);
    }
    let total: usize = 3 * (tw as usize) * (th as usize);
    let tw3: usize = 3 * (tw as usize);
    let mut out: Vec<u8> = Vec::new();
    push_be32(&mut out, tw);
    push_be32(&mut out, th);
    let ghost hdr = spec_be32_bytes(tw) + spec_be32_bytes(th);
    let mut k: usize = 0;
    while k < total
        invariant
            k <= total,
            total == 3 * (tw as int) * (th as int),
            tw3 == 3 * (tw as int),
            1 <= tw <= ow,
            1 <= th <= oh,
            ow == spec_oriented_w(w, h, o),
            oh == spec_oriented_h(w, h, o),
            1 <= w <= 0xFFFF,
            1 <= h <= 0xFFFF,
            (tw, th) == spec_target_dims(ow, oh, b),
            pixels@.len() == 3 * (w as int) * (h as int),
            plen == pixels@.len(),
            hdr == spec_be32_bytes(tw) + spec_be32_bytes(th),
            out@ == hdr + Seq::new(
                k as nat,
                |kk: int|
                    spec_sample_byte(
                        pixels@,
                        w as int,
                        h as int,
                        o,
                        ow as int,
                        oh as int,
                        tw as int,
                        th as int,
                        kk,
                    ),
            ),
        decreases total - k,
    {
        proof {
            assert(3 * (tw as int) * (th as int) == (th as int) * (3 * (tw as int)))
                by (nonlinear_arith);
            lemma_div_below(k as int, th as int, tw3 as int);
            vstd::arithmetic::div_mod::lemma_mod_bound(k as int, tw3 as int);
        }
        let ty: usize = k / tw3;
        let r: usize = k % tw3;
        proof {
            assert((tw as int) * 3 == 3 * (tw as int));
            lemma_div_below(r as int, tw as int, 3);
            vstd::arithmetic::div_mod::lemma_mod_bound(r as int, 3);
        }
        let tx: usize = r / 3;
        let cc: usize = r % 3;
        proof {
            lemma_scale_below(ty as int, th as int, oh as int);
            lemma_scale_below(tx as int, tw as int, ow as int);
            lemma_mul_le(ty as int, oh as int, 0xFFFF, 0xFFFF);
            lemma_mul_le(tx as int, ow as int, 0xFFFF, 0xFFFF);
        }
        let oy: usize = ((ty as u64) * (oh as u64) / (th as u64)) as usize;
        let ox: usize = ((tx as u64) * (ow as u64) / (tw as u64)) as usize;
        proof {
            lemma_src_bounds(ox as int, oy as int, w as int, h as int, o);
        }
        let sx: usize = if o == 2 || o == 3 {
            (w as usize) - 1 - ox
        } else if o == 5 || o == 6 {
            oy
        } else if o == 7 || o == 8 {
            (w as usize) - 1 - oy
        } else {
            ox
        };
        let sy: usize = if o == 3 || o == 4 {
            (h as usize) - 1 - oy
        } else if o == 5 || o == 8 {
            ox
        } else if o == 6 || o == 7 {
            (h as usize) - 1 - ox
        } else {
            oy
        };
        proof {
            lemma_flat_index(sx as int, sy as int, cc as int, w as int, h as int);
            assert(3 * ((w as int) * (h as int)) == 3 * (w as int) * (h as int))
                by (nonlinear_arith);
            lemma_mul_le(sy as int, w as int, 0xFFFF, 0xFFFF);
            assert(((sy as int) * (w as int) + sx) * 3 + cc < 3 * ((w as int) * (h as int)));
        }
        let src: usize = (sy * (w as usize) + sx) * 3 + cc;
        let byte = pixels[src];
        out.push(byte);
        proof {
            assert(byte == spec_sample_byte(
                pixels@,
                w as int,
                h as int,
                o,
                ow as int,
                oh as int,
                tw as int,
                th as int,
                k as int,
            ));
            assert(out@ =~= hdr + Seq::new(
                (k + 1) as nat,
                |kk: int|
                    spec_sample_byte(
                        pixels@,
                        w as int,
                        h as int,
                        o,
                        ow as int,
                        oh as int,
                        tw as int,
                        th as int,
                        kk,
                    ),
            ));
        }
        k = k + 1;
    }
    proof {
        assert(out@ =~= spec_output(pixels@, w, h, o, b));
    }
    out
}

} // verus!
