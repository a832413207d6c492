use photosort_core::PhotoSortCore;
use photosort_core::error::ErrorKind;

// ---- builders ----------------------------------------------------------

/// Encode a real baseline JPEG of one solid RGB color.
fn make_jpeg(w: u16, h: u16, rgb: [u8; 3]) -> Vec<u8> {
    let mut out: Vec<u8> = Vec::new();
    let enc = jpeg_encoder::Encoder::new(&mut out, 90);
    let mut pixels: Vec<u8> = Vec::with_capacity(w as usize * h as usize * 3);
    for _ in 0..(w as usize * h as usize) {
        pixels.extend_from_slice(&rgb);
    }
    enc.encode(&pixels, w, h, jpeg_encoder::ColorType::Rgb).unwrap();
    out
}

fn push_u16(out: &mut Vec<u8>, le: bool, v: u16) {
    if le {
        out.extend_from_slice(&v.to_le_bytes());
    } else {
        out.extend_from_slice(&v.to_be_bytes());
    }
}

fn push_u32(out: &mut Vec<u8>, le: bool, v: u32) {
    if le {
        out.extend_from_slice(&v.to_le_bytes());
    } else {
        out.extend_from_slice(&v.to_be_bytes());
    }
}

/// One 12-byte IFD entry with an inline SHORT or LONG value.
fn push_entry(out: &mut Vec<u8>, le: bool, tag: u16, typ: u16, value: u32) {
    push_u16(out, le, tag);
    push_u16(out, le, typ);
    push_u32(out, le, 1);
    if typ == 3 {
        push_u16(out, le, value as u16);
        push_u16(out, le, 0);
    } else {
        push_u32(out, le, value);
    }
}

/// An EXIF TIFF block (little-endian) holding an orientation in the first
/// directory and a thumbnail range in the second; `thumb` is appended at
/// the end of the block.
fn make_exif_tiff(orientation: u16, thumb: &[u8]) -> Vec<u8> {
    let le = true;
    let mut t: Vec<u8> = Vec::new();
    t.extend_from_slice(b"II");
    push_u16(&mut t, le, 42);
    push_u32(&mut t, le, 8); // first IFD at 8
    // IFD0: 1 entry, next -> IFD1 at 8 + 2 + 12 + 4 = 26
    push_u16(&mut t, le, 1);
    push_entry(&mut t, le, 0x0112, 3, orientation as u32);
    push_u32(&mut t, le, 26);
    // IFD1: 2 entries, thumbnail at 26 + 2 + 24 + 4 = 56
    push_u16(&mut t, le, 2);
    push_entry(&mut t, le, 0x0201, 4, 56);
    push_entry(&mut t, le, 0x0202, 4, thumb.len() as u32);
    push_u32(&mut t, le, 0);
    assert_eq!(t.len(), 56);
    t.extend_from_slice(thumb);
    t
}

/// A JPEG file whose primary frame is a header-only skeleton (declared
/// dimensions, no pixel data) with an EXIF APP1 block carrying `thumb`.
fn make_jpeg_with_exif_thumb(
    primary_w: u16,
    primary_h: u16,
    orientation: u16,
    sof_marker: u8,
    thumb: &[u8],
) -> Vec<u8> {
    let mut f: Vec<u8> = Vec::new();
    f.extend_from_slice(&[0xFF, 0xD8]);
    // APP1 Exif segment
    let tiff = make_exif_tiff(orientation, thumb);
    let payload_len = 6 + tiff.len() + 2;
    f.extend_from_slice(&[0xFF, 0xE1]);
    f.extend_from_slice(&(payload_len as u16).to_be_bytes());
    f.extend_from_slice(b"Exif\0\0");
    f.extend_from_slice(&tiff);
    // frame header: precision, height, width, one component
    f.extend_from_slice(&[0xFF, sof_marker, 0x00, 0x0B, 0x08]);
    f.extend_from_slice(&primary_h.to_be_bytes());
    f.extend_from_slice(&primary_w.to_be_bytes());
    f.extend_from_slice(&[0x01, 0x01, 0x11, 0x00]);
    // start of scan: the structural scan stops here
    f.extend_from_slice(&[0xFF, 0xDA]);
    f
}

struct DngIfd {
    subfile: u32,
    compression: u32,
    width: u32,
    height: u32,
    payload: Vec<u8>,
    orientation: Option<u16>,
    tiles: bool,
}

/// A DNG/TIFF file with the given directories chained in order; each
/// directory's payload is stored as a single strip.
fn make_dng(le: bool, ifds: &[DngIfd]) -> Vec<u8> {
    let mut f: Vec<u8> = Vec::new();
    f.extend_from_slice(if le { b"II" } else { b"MM" });
    push_u16(&mut f, le, 42);
    // layout: header (8) | ifd tables | payloads
    let mut table_sizes: Vec<usize> = Vec::new();
    for ifd in ifds {
        let n = 6 + if ifd.orientation.is_some() { 1 } else { 0 };
        table_sizes.push(2 + 12 * n + 4);
    }
    let tables_start = 8usize;
    let payload_start = tables_start + table_sizes.iter().sum::<usize>();
    push_u32(&mut f, le, tables_start as u32);
    let mut table_off = tables_start;
    let mut payload_off = payload_start;
    for (i, ifd) in ifds.iter().enumerate() {
        let n = 6 + if ifd.orientation.is_some() { 1 } else { 0 };
        push_u16(&mut f, le, n as u16);
        push_entry(&mut f, le, 254, 4, ifd.subfile);
        push_entry(&mut f, le, 256, 4, ifd.width);
        push_entry(&mut f, le, 257, 4, ifd.height);
        push_entry(&mut f, le, 259, 3, ifd.compression);
        let (off_tag, len_tag) = if ifd.tiles { (324, 325) } else { (273, 279) };
        push_entry(&mut f, le, off_tag, 4, payload_off as u32);
        push_entry(&mut f, le, len_tag, 4, ifd.payload.len() as u32);
        if let Some(o) = ifd.orientation {
            push_entry(&mut f, le, 0x0112, 3, o as u32);
        }
        table_off += table_sizes[i];
        let next = if i + 1 < ifds.len() { table_off as u32 } else { 0 };
        push_u32(&mut f, le, next);
        payload_off += ifd.payload.len();
    }
    for ifd in ifds {
        f.extend_from_slice(&ifd.payload);
    }
    f
}

fn out_dims(out: &[u8]) -> (u32, u32) {
    let w = u32::from_be_bytes([out[0], out[1], out[2], out[3]]);
    let h = u32::from_be_bytes([out[4], out[5], out[6], out[7]]);
    (w, h)
}

fn assert_solid(out: &[u8], rgb: [u8; 3], tol: i32) {
    let (w, h) = out_dims(out);
    assert_eq!(out.len(), 8 + (3 * w * h) as usize);
    for px in out[8..].chunks(3) {
        for c in 0..3 {
            let d = (px[c] as i32 - rgb[c] as i32).abs();
            assert!(d <= tol, "channel {} off by {}", c, d);
        }
    }
}

// ---- JPEG path ---------------------------------------------------------

#[test]
fn jpeg_exif_thumbnail_passthrough_dims() {
    // 4000x3000 primary, 160x120 embedded thumbnail, bound 200:
    // the embedded thumbnail already meets the bound and is not resized.
    let thumb = make_jpeg(160, 120, [128, 128, 128]);
    let file = make_jpeg_with_exif_thumb(4000, 3000, 1, 0xC0, &thumb);
    let core = PhotoSortCore::new();
    let out = core.decode_jpeg_thumbnail(&file, 200).unwrap();
    assert_eq!(out_dims(&out), (160, 120));
    assert_solid(&out, [128, 128, 128], 8);
}

#[test]
fn jpeg_downscale_respects_bound() {
    let thumb = make_jpeg(160, 120, [60, 200, 90]);
    let file = make_jpeg_with_exif_thumb(4000, 3000, 1, 0xC0, &thumb);
    let core = PhotoSortCore::new();
    let out = core.decode_jpeg_thumbnail(&file, 80).unwrap();
    assert_eq!(out_dims(&out), (80, 60));
    assert_solid(&out, [60, 200, 90], 12);
}

#[test]
fn jpeg_decode_is_deterministic() {
    let thumb = make_jpeg(64, 48, [10, 20, 200]);
    let file = make_jpeg_with_exif_thumb(640, 480, 1, 0xC0, &thumb);
    let core = PhotoSortCore::new();
    let a = core.decode_jpeg_thumbnail(&file, 100).unwrap();
    let b = core.decode_jpeg_thumbnail(&file, 100).unwrap();
    assert_eq!(a, b);
}

#[test]
fn jpeg_zero_bound_uses_default_policy() {
    let thumb = make_jpeg(64, 48, [10, 20, 200]);
    let file = make_jpeg_with_exif_thumb(640, 480, 1, 0xC0, &thumb);
    let core = PhotoSortCore::new();
    let zero = core.decode_jpeg_thumbnail(&file, 0).unwrap();
    let default_bound = core.decode_jpeg_thumbnail(&file, 256).unwrap();
    assert_eq!(zero, default_bound);
    assert_eq!(out_dims(&zero), (64, 48));
}

#[test]
fn jpeg_orientation_rotates_output() {
    // Orientation 6 (rotate 90 clockwise) swaps the output axes.
    let thumb = make_jpeg(160, 120, [128, 128, 128]);
    let file = make_jpeg_with_exif_thumb(4000, 3000, 6, 0xC0, &thumb);
    let core = PhotoSortCore::new();
    let out = core.decode_jpeg_thumbnail(&file, 200).unwrap();
    assert_eq!(out_dims(&out), (120, 160));
}

/// Encode a JPEG whose left half is black and right half is white.
fn make_jpeg_split(w: u16, h: u16) -> Vec<u8> {
    let mut out: Vec<u8> = Vec::new();
    let enc = jpeg_encoder::Encoder::new(&mut out, 95);
    let mut pixels: Vec<u8> = Vec::with_capacity(w as usize * h as usize * 3);
    for _y in 0..h {
        for x in 0..w {
            let v = if x < w / 2 { 0u8 } else { 255u8 };
            pixels.extend_from_slice(&[v, v, v]);
        }
    }
    enc.encode(&pixels, w, h, jpeg_encoder::ColorType::Rgb).unwrap();
    out
}

#[test]
fn jpeg_orientation_mirror_flips_pixels() {
    // Orientation 2 mirrors horizontally: the white right half of the
    // source ends up on the left of the output.
    let thumb = make_jpeg_split(16, 8);
    let file = make_jpeg_with_exif_thumb(640, 480, 2, 0xC0, &thumb);
    let core = PhotoSortCore::new();
    let out = core.decode_jpeg_thumbnail(&file, 100).unwrap();
    assert_eq!(out_dims(&out), (16, 8));
    let px = |x: usize, y: usize| out[8 + (y * 16 + x) * 3] as i32;
    assert!(px(2, 4) > 200, "left should be white, got {}", px(2, 4));
    assert!(px(13, 4) < 55, "right should be black, got {}", px(13, 4));
}

#[test]
fn jpeg_without_thumbnail_reports_none_available() {
    let mut f: Vec<u8> = Vec::new();
    f.extend_from_slice(&[0xFF, 0xD8]);
    f.extend_from_slice(&[0xFF, 0xC0, 0x00, 0x0B, 0x08, 0x01, 0xE0, 0x02, 0x80, 0x01, 0x01, 0x11,
        0x00]);
    f.extend_from_slice(&[0xFF, 0xDA]);
    let core = PhotoSortCore::new();
    let err = core.decode_jpeg_thumbnail(&f, 200).unwrap_err();
    assert_eq!(err.kind, ErrorKind::NoThumbnailAvailable);
}

#[test]
fn jpeg_progressive_primary_is_unsupported() {
    let thumb = make_jpeg(32, 32, [0, 0, 0]);
    let file = make_jpeg_with_exif_thumb(640, 480, 1, 0xC2, &thumb);
    let core = PhotoSortCore::new();
    let err = core.decode_jpeg_thumbnail(&file, 100).unwrap_err();
    assert_eq!(err.kind, ErrorKind::UnsupportedFeature);
}

#[test]
fn jpeg_bad_magic_is_invalid_input() {
    let core = PhotoSortCore::new();
    let err = core.decode_jpeg_thumbnail(&[0x00, 0x11, 0x22, 0x33], 100).unwrap_err();
    assert_eq!(err.kind, ErrorKind::InvalidInput);
    let err = core.decode_jpeg_thumbnail(&[], 100).unwrap_err();
    assert_eq!(err.kind, ErrorKind::InvalidInput);
}

#[test]
fn jpeg_truncated_segment_is_invalid_input() {
    let thumb = make_jpeg(64, 48, [10, 20, 200]);
    let file = make_jpeg_with_exif_thumb(640, 480, 1, 0xC0, &thumb);
    let core = PhotoSortCore::new();
    // Cut inside the APP1 segment: its declared length now points past
    // the end of the buffer.
    let cut = &file[..20];
    let err = core.decode_jpeg_thumbnail(cut, 100).unwrap_err();
    assert_eq!(err.kind, ErrorKind::InvalidInput);
}

#[test]
fn jpeg_corrupt_thumbnail_stream_is_decode_failure() {
    // A thumbnail whose headers parse (the dimensions are readable) but
    // whose entropy data is destroyed.
    let mut thumb = make_jpeg(64, 48, [10, 20, 200]);
    let n = thumb.len();
    for b in &mut thumb[n - 24..n] {
        *b = 0x55;
    }
    let file = make_jpeg_with_exif_thumb(640, 480, 1, 0xC0, &thumb);
    let core = PhotoSortCore::new();
    let err = core.decode_jpeg_thumbnail(&file, 100).unwrap_err();
    assert_eq!(err.kind, ErrorKind::DecodeFailure);
}

// ---- DNG path ----------------------------------------------------------

fn reduced_jpeg_ifd(w: u16, h: u16, rgb: [u8; 3]) -> DngIfd {
    DngIfd {
        subfile: 1,
        compression: 7,
        width: w as u32,
        height: h as u32,
        payload: make_jpeg(w, h, rgb),
        orientation: None,
        tiles: false,
    }
}

fn full_res_ifd() -> DngIfd {
    DngIfd {
        subfile: 0,
        compression: 1,
        width: 4000,
        height: 3000,
        payload: vec![0u8; 64],
        orientation: Some(1),
        tiles: false,
    }
}

#[test]
fn dng_reduced_resolution_jpeg_is_decoded() {
    let file = make_dng(true, &[full_res_ifd(), reduced_jpeg_ifd(160, 120, [128, 128, 128])]);
    let core = PhotoSortCore::new();
    let out = core.decode_dng_thumbnail(&file, 200).unwrap();
    assert_eq!(out_dims(&out), (160, 120));
    assert_solid(&out, [128, 128, 128], 8);
}

#[test]
fn dng_decode_is_deterministic() {
    let file = make_dng(true, &[full_res_ifd(), reduced_jpeg_ifd(96, 64, [17, 170, 71])]);
    let core = PhotoSortCore::new();
    let a = core.decode_dng_thumbnail(&file, 40).unwrap();
    let b = core.decode_dng_thumbnail(&file, 40).unwrap();
    assert_eq!(a, b);
}

#[test]
fn dng_byte_orders_decode_identically() {
    // The same logical file written little-endian and big-endian.
    let le = make_dng(true, &[full_res_ifd(), reduced_jpeg_ifd(96, 64, [200, 40, 40])]);
    let be = make_dng(false, &[full_res_ifd(), reduced_jpeg_ifd(96, 64, [200, 40, 40])]);
    assert_ne!(le, be);
    let core = PhotoSortCore::new();
    let a = core.decode_dng_thumbnail(&le, 48).unwrap();
    let b = core.decode_dng_thumbnail(&be, 48).unwrap();
    assert_eq!(a, b);
    assert_eq!(out_dims(&a), (48, 32));
}

#[test]
fn dng_selects_smallest_qualifying_candidate() {
    // Both previews meet a bound of 60; the smaller one is decoded.
    let file = make_dng(
        true,
        &[
            full_res_ifd(),
            reduced_jpeg_ifd(160, 120, [128, 128, 128]),
            reduced_jpeg_ifd(80, 60, [50, 60, 70]),
        ],
    );
    let core = PhotoSortCore::new();
    let out = core.decode_dng_thumbnail(&file, 60).unwrap();
    assert_eq!(out_dims(&out), (60, 45));
    assert_solid(&out, [50, 60, 70], 12);
}

#[test]
fn dng_uses_largest_when_none_qualifies() {
    // No preview reaches the bound: the largest is used, never upscaled.
    let file = make_dng(
        true,
        &[full_res_ifd(), reduced_jpeg_ifd(80, 60, [50, 60, 70]), reduced_jpeg_ifd(
            40,
            30,
            [1, 2, 3],
        )],
    );
    let core = PhotoSortCore::new();
    let out = core.decode_dng_thumbnail(&file, 500).unwrap();
    assert_eq!(out_dims(&out), (80, 60));
}

#[test]
fn dng_without_reduced_entry_reports_none_available() {
    let file = make_dng(true, &[full_res_ifd()]);
    let core = PhotoSortCore::new();
    let err = core.decode_dng_thumbnail(&file, 256).unwrap_err();
    assert_eq!(err.kind, ErrorKind::NoThumbnailAvailable);
}

#[test]
fn dng_bad_header_is_invalid_input() {
    let core = PhotoSortCore::new();
    let err = core.decode_dng_thumbnail(b"XXYYZZ", 100).unwrap_err();
    assert_eq!(err.kind, ErrorKind::InvalidInput);
    let err = core.decode_dng_thumbnail(&[], 100).unwrap_err();
    assert_eq!(err.kind, ErrorKind::InvalidInput);
}

#[test]
fn dng_truncated_directory_is_invalid_input() {
    let file = make_dng(true, &[full_res_ifd(), reduced_jpeg_ifd(96, 64, [9, 9, 9])]);
    let core = PhotoSortCore::new();
    let err = core.decode_dng_thumbnail(&file[..10], 100).unwrap_err();
    assert_eq!(err.kind, ErrorKind::InvalidInput);
}

#[test]
fn dng_garbage_strip_is_decode_failure() {
    let file = make_dng(
        true,
        &[DngIfd {
            subfile: 1,
            compression: 7,
            width: 64,
            height: 48,
            payload: vec![0xAB; 400],
            orientation: None,
            tiles: false,
        }],
    );
    let core = PhotoSortCore::new();
    let err = core.decode_dng_thumbnail(&file, 100).unwrap_err();
    assert_eq!(err.kind, ErrorKind::DecodeFailure);
}

// ---- facade ------------------------------------------------------------

#[test]
fn version_is_stable() {
    let core = PhotoSortCore::new();
    assert_eq!(core.version(), "1.0.0");
    assert_eq!(core.version(), core.version());
}

#[test]
fn error_messages_name_their_kind() {
    let core = PhotoSortCore::new();
    let err = core.decode_jpeg_thumbnail(&[], 1).unwrap_err();
    assert_eq!(err.message(), "invalid input");
}

/// A header-only JPEG stream skeleton with the given frame marker.
fn skeleton_jpeg(sof_marker: u8, w: u16, h: u16) -> Vec<u8> {
    let mut t: Vec<u8> = Vec::new();
    t.extend_from_slice(&[0xFF, 0xD8, 0xFF, sof_marker, 0x00, 0x0B, 0x08]);
    t.extend_from_slice(&h.to_be_bytes());
    t.extend_from_slice(&w.to_be_bytes());
    t.extend_from_slice(&[0x01, 0x01, 0x11, 0x00, 0xFF, 0xDA]);
    t
}

#[test]
fn jpeg_progressive_thumbnail_is_unsupported() {
    let thumb = skeleton_jpeg(0xC2, 160, 120);
    let file = make_jpeg_with_exif_thumb(640, 480, 1, 0xC0, &thumb);
    let core = PhotoSortCore::new();
    let err = core.decode_jpeg_thumbnail(&file, 200).unwrap_err();
    assert_eq!(err.kind, ErrorKind::UnsupportedFeature);
}

#[test]
fn jpeg_grayscale_thumbnail_is_unsupported() {
    // A real grayscale thumbnail decodes, but not to 8-bit RGB.
    let mut thumb: Vec<u8> = Vec::new();
    let enc = jpeg_encoder::Encoder::new(&mut thumb, 90);
    enc.encode(&[128u8; 32 * 24], 32, 24, jpeg_encoder::ColorType::Luma).unwrap();
    let file = make_jpeg_with_exif_thumb(640, 480, 1, 0xC0, &thumb);
    let core = PhotoSortCore::new();
    let err = core.decode_jpeg_thumbnail(&file, 200).unwrap_err();
    assert_eq!(err.kind, ErrorKind::UnsupportedFeature);
}

/// A DNG whose first directory names two reduced-resolution JPEG
/// sub-directories through a SubIFDs offset array (count 2).
fn make_dng_subifd_array(le: bool) -> Vec<u8> {
    let t1 = make_jpeg(120, 90, [77, 88, 99]);
    let t2 = make_jpeg(60, 45, [50, 60, 70]);
    let mut f: Vec<u8> = Vec::new();
    f.extend_from_slice(if le { b"II" } else { b"MM" });
    push_u16(&mut f, le, 42);
    push_u32(&mut f, le, 8);
    // IFD0 at 8 with 2 entries ends at 38; the offset array sits there,
    // the two sub-directories (6 entries each) follow, then the payloads.
    let array_off = 8 + 2 + 24 + 4;
    let sub1 = array_off + 8;
    let sub2 = sub1 + 2 + 72 + 4;
    let pay1 = sub2 + 2 + 72 + 4;
    let pay2 = pay1 + t1.len();
    push_u16(&mut f, le, 2);
    push_entry(&mut f, le, 254, 4, 0);
    push_u16(&mut f, le, 330);
    push_u16(&mut f, le, 4);
    push_u32(&mut f, le, 2);
    push_u32(&mut f, le, array_off as u32);
    push_u32(&mut f, le, 0);
    push_u32(&mut f, le, sub1 as u32);
    push_u32(&mut f, le, sub2 as u32);
    for (w, h, off, plen) in [(120u32, 90u32, pay1, t1.len()), (60, 45, pay2, t2.len())] {
        push_u16(&mut f, le, 6);
        push_entry(&mut f, le, 254, 4, 1);
        push_entry(&mut f, le, 256, 4, w);
        push_entry(&mut f, le, 257, 4, h);
        push_entry(&mut f, le, 259, 3, 7);
        push_entry(&mut f, le, 273, 4, off as u32);
        push_entry(&mut f, le, 279, 4, plen as u32);
        push_u32(&mut f, le, 0);
    }
    f.extend_from_slice(&t1);
    f.extend_from_slice(&t2);
    f
}

#[test]
fn dng_subifd_offset_array_is_walked() {
    let file = make_dng_subifd_array(true);
    let core = PhotoSortCore::new();
    // Both sub-directory previews qualify for a bound of 50; the smaller
    // one (60x45) is chosen and downscaled.
    let out = core.decode_dng_thumbnail(&file, 50).unwrap();
    assert_eq!(out_dims(&out), (50, 37));
    assert_solid(&out, [50, 60, 70], 12);
    // Big-endian variant walks identically.
    let out_be = core.decode_dng_thumbnail(&make_dng_subifd_array(false), 50).unwrap();
    assert_eq!(out, out_be);
}

#[test]
fn dng_tile_tags_locate_the_preview() {
    let file = make_dng(
        true,
        &[full_res_ifd(), DngIfd {
            subfile: 1,
            compression: 7,
            width: 96,
            height: 64,
            payload: make_jpeg(96, 64, [12, 34, 56]),
            orientation: None,
            tiles: true,
        }],
    );
    let core = PhotoSortCore::new();
    let out = core.decode_dng_thumbnail(&file, 100).unwrap();
    assert_eq!(out_dims(&out), (96, 64));
    assert_solid(&out, [12, 34, 56], 8);
}

/// A header-only stream skeleton declaring `ncomp` frame components.
fn skeleton_jpeg_ncomp(sof_marker: u8, w: u16, h: u16, ncomp: u8) -> Vec<u8> {
    let mut t: Vec<u8> = Vec::new();
    let seg_len = 2 + 6 + 3 * ncomp as u16;
    t.extend_from_slice(&[0xFF, 0xD8, 0xFF, sof_marker]);
    t.extend_from_slice(&seg_len.to_be_bytes());
    t.push(0x08);
    t.extend_from_slice(&h.to_be_bytes());
    t.extend_from_slice(&w.to_be_bytes());
    t.push(ncomp);
    for c in 0..ncomp {
        t.extend_from_slice(&[c + 1, 0x11, 0x00]);
    }
    t.extend_from_slice(&[0xFF, 0xDA]);
    t
}

#[test]
fn jpeg_two_component_thumbnail_is_unsupported_not_a_crash() {
    // The entropy decoder cannot return a structured error for a
    // 2-component frame; the verified header scan rejects it first.
    let thumb = skeleton_jpeg_ncomp(0xC0, 64, 48, 2);
    let file = make_jpeg_with_exif_thumb(640, 480, 1, 0xC0, &thumb);
    let core = PhotoSortCore::new();
    let err = core.decode_jpeg_thumbnail(&file, 100).unwrap_err();
    assert_eq!(err.kind, ErrorKind::UnsupportedFeature);
}

#[test]
fn dng_two_component_strip_is_unsupported_not_a_crash() {
    let file = make_dng(
        true,
        &[DngIfd {
            subfile: 1,
            compression: 7,
            width: 64,
            height: 48,
            payload: skeleton_jpeg_ncomp(0xC0, 64, 48, 2),
            orientation: None,
            tiles: false,
        }],
    );
    let core = PhotoSortCore::new();
    let err = core.decode_dng_thumbnail(&file, 100).unwrap_err();
    assert_eq!(err.kind, ErrorKind::UnsupportedFeature);
}

/// A DNG whose reduced-resolution preview is split over `nsplit` strips;
/// `gap` shifts the second strip to break contiguity.
fn make_dng_multistrip(le: bool, gap: u32) -> Vec<u8> {
    let jpg = make_jpeg(96, 64, [140, 70, 35]);
    let k = (jpg.len() / 2) as u32;
    let mut f: Vec<u8> = Vec::new();
    f.extend_from_slice(if le { b"II" } else { b"MM" });
    push_u16(&mut f, le, 42);
    push_u32(&mut f, le, 8);
    // one directory of 6 entries at 8, ends 86; two 2-element arrays; data
    let arr1 = 86u32;
    let arr2 = 94u32;
    let pay = 102u32;
    push_u16(&mut f, le, 6);
    push_entry(&mut f, le, 254, 4, 1);
    push_entry(&mut f, le, 256, 4, 96);
    push_entry(&mut f, le, 257, 4, 64);
    push_entry(&mut f, le, 259, 3, 7);
    for (tag, arr) in [(273u16, arr1), (279, arr2)] {
        push_u16(&mut f, le, tag);
        push_u16(&mut f, le, 4);
        push_u32(&mut f, le, 2);
        push_u32(&mut f, le, arr);
    }
    push_u32(&mut f, le, 0);
    // strip offsets, then strip byte counts
    push_u32(&mut f, le, pay);
    push_u32(&mut f, le, pay + k + gap);
    push_u32(&mut f, le, k);
    push_u32(&mut f, le, jpg.len() as u32 - k);
    f.extend_from_slice(&jpg);
    f
}

#[test]
fn dng_contiguous_multistrip_preview_is_decoded() {
    let file = make_dng_multistrip(true, 0);
    let core = PhotoSortCore::new();
    let out = core.decode_dng_thumbnail(&file, 100).unwrap();
    assert_eq!(out_dims(&out), (96, 64));
    assert_solid(&out, [140, 70, 35], 8);
    let out_be = core.decode_dng_thumbnail(&make_dng_multistrip(false, 0), 100).unwrap();
    assert_eq!(out, out_be);
}

#[test]
fn dng_non_contiguous_strips_are_no_candidate() {
    let file = make_dng_multistrip(true, 4);
    let core = PhotoSortCore::new();
    let err = core.decode_dng_thumbnail(&file, 100).unwrap_err();
    assert_eq!(err.kind, ErrorKind::NoThumbnailAvailable);
}

#[test]
fn dng_truncated_strip_payload_is_invalid_input() {
    // Cut inside the preview's strip data: the directory tables survive
    // but the declared byte range points past the end of the buffer.
    let file = make_dng(true, &[full_res_ifd(), reduced_jpeg_ifd(96, 64, [9, 9, 9])]);
    let cut = &file[..file.len() - 40];
    let core = PhotoSortCore::new();
    let err = core.decode_dng_thumbnail(cut, 100).unwrap_err();
    assert_eq!(err.kind, ErrorKind::InvalidInput);
}
