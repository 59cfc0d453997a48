//! Texture decoding and pixel-payload preparation.
//!
//! A texture arrives as the bytes of a mip-mapped image container; the
//! outside decoder turns mip level 0 into an 8-bit RGBA surface. The
//! library then keeps the alpha channel only for translucent or
//! alpha-tested materials and drops it otherwise, which is what the
//! renderer's upload path expects.

use vstd::prelude::*;

verus! {

/// A decoded texture surface: always stored as 8-bit RGBA rows, together
/// with whether the source format carried an alpha channel at all.
#[derive(Debug)]
pub struct TextureImage {
    pub width: u32,
    pub height: u32,
    pub has_alpha: bool,
    pub rgba: Vec<u8>,
}

/// Well-formedness: the pixel buffer holds exactly width x height RGBA
/// quadruples.
pub open spec fn image_wf(img: TextureImage) -> bool {
    img.rgba@.len() == 4 * img.width * img.height
}

/// What the outside container decoder yields for given bytes: dimensions,
/// whether the source had alpha, and the RGBA pixels; `None` when the
/// container is unreadable or its image data does not decode.
pub uninterp spec fn vtf_decoded(data: Seq<u8>) -> Option<(nat, nat, bool, Seq<u8>)>;

/// Relies on vtf's `VTF::read` and `VTFImage::decode` for mip level 0, and
/// on image's RGBA8 conversion: the result is a function of the input bytes
/// alone, and the RGBA buffer holds four bytes per pixel. The decoder
/// slices the input by header-declared offsets and sizes without a bounds
/// check, sizes frames in 32-bit arithmetic, and chunks block-compressed
/// output by the declared width, so inputs that would step outside the
/// buffer, overflow that arithmetic, or chunk by zero are excluded by the
/// `requires`; `vtf_decode_in_bounds` is the verified check callers run
/// first, and on the admitted inputs every decoder path returns.
#[verifier::external_body]
pub(crate) fn decode_vtf(data: &Vec<u8>) -> (r: Option<TextureImage>)
    requires
        sp_vtf_bounds_ok(data@),
    ensures
        match r {
            Option::None => vtf_decoded(data@) is None,
            Option::Some(img) => vtf_decoded(data@) == Some(
                (img.width as nat, img.height as nat, img.has_alpha, img.rgba@),
            ) && image_wf(img),
        },
{
    let vtf = vtf::from_bytes(data.as_slice()).ok()?;
    let image = vtf.highres_image.decode(0).ok()?;
    let width = image.width();
    let height = image.height();
    let has_alpha = image.color().has_alpha();
    let rgba = image.into_rgba8().into_raw();
    Some(TextureImage { width, height, has_alpha, rgba })
}

/// The RGB bytes of an RGBA byte row: every fourth byte dropped.
pub open spec fn rgb_of(s: Seq<u8>) -> Seq<u8>
    decreases s.len(),
{
    if s.len() < 4 {
        Seq::<u8>::empty()
    } else {
        s.take(3) + rgb_of(s.skip(4))
    }
}

/// Drop the alpha byte of every RGBA quadruple.
pub fn strip_alpha(rgba: &[u8]) -> (r: Vec<u8>)
    ensures
        r@ == rgb_of(rgba@),
{
    let mut r: Vec<u8> = Vec::new();
    let mut p: usize = 0;
    proof {
        assert(rgba@.skip(0) =~= rgba@);
    }
    while rgba.len() >= 4 && p <= rgba.len() - 4
        invariant
            p <= rgba@.len(),
            rgb_of(rgba@) == r@ + rgb_of(rgba@.skip(p as int)),
        decreases rgba.len() - p,
    {
        let ghost pre = rgba@.skip(p as int);
        let ghost old_r = r@;
        r.push(rgba[p]);
        r.push(rgba[p + 1]);
        r.push(rgba[p + 2]);
        proof {
            assert(pre.take(3) =~= seq![rgba@[p as int], rgba@[p + 1], rgba@[p + 2]]);
            assert(r@ =~= old_r + pre.take(3));
            assert(pre.skip(4) =~= rgba@.skip(p + 4));
            assert(old_r + (pre.take(3) + rgb_of(pre.skip(4))) =~= (old_r + pre.take(3)) + rgb_of(
                rgba@.skip(p + 4),
            ));
        }
        p = p + 4;
    }
    proof {
        assert(rgba@.skip(p as int).len() < 4);
        assert(rgb_of(rgba@.skip(p as int)) =~= Seq::<u8>::empty());
        assert(r@ =~= r@ + Seq::<u8>::empty());
    }
    r
}

/// Pixel data as the renderer uploads it.
pub enum TexturePayload {
    /// Three bytes per pixel; the alpha channel was dropped.
    Rgb(Vec<u8>),
    /// Four bytes per pixel; the alpha channel was kept.
    Rgba(Vec<u8>),
}

/// Prepare a surface for upload: keep alpha only when the source has an
/// alpha channel and the material needs one (translucent or alpha-tested).
pub fn texture_payload(img: &TextureImage, keep_alpha: bool) -> (r: TexturePayload)
    ensures
        (img.has_alpha && keep_alpha) ==> (r matches TexturePayload::Rgba(v) && v@
            == img.rgba@),
        !(img.has_alpha && keep_alpha) ==> (r matches TexturePayload::Rgb(v) && v@ == rgb_of(
            img.rgba@,
        )),
{
    if img.has_alpha && keep_alpha {
        TexturePayload::Rgba(crate::bytestr::copy_bytes(img.rgba.as_slice()))
    } else {
        TexturePayload::Rgb(strip_alpha(img.rgba.as_slice()))
    }
}

// --- decoder-safety pre-check --------------------------------------------
//
// The outside decoder trusts its header fields: it slices the input at
// `highres_offset + mip_offset .. + frame_size` without a bounds check,
// and sizes frames in 32-bit arithmetic that can overflow for declared
// dimensions near the 16-bit limit. Either would abort the decode instead
// of failing it. The check below reads the header exactly as the decoder
// does and accepts the bytes only when every size computation fits in 32
// bits and the sliced range lies inside the input — or when the decoder
// is certain to stop with a clean error before slicing (short or
// malformed headers, unknown or unsupported formats). One more hazard
// sits past the slice: the block decompressor chunks its output by
// `width * 16` and chunking by zero aborts, so the block-compressed
// formats are additionally rejected when the declared width is zero (a
// zero height is harmless: it only empties the chunk iteration).

/// Little-endian 16-bit field at `i`.
pub open spec fn sp_le16(s: Seq<u8>, i: int) -> int {
    s[i] + 0x100 * s[i + 1]
}

/// Little-endian 32-bit field at `i`.
pub open spec fn sp_le32(s: Seq<u8>, i: int) -> int {
    s[i] + 0x100 * s[i + 1] + 0x10000 * s[i + 2] + 0x1000000 * s[i + 3]
}

/// The format code of a stored 32-bit format field: the decoder truncates
/// it to a signed 16-bit value.
pub open spec fn sp_fmt_code(raw: int) -> int {
    let low = raw % 0x10000;
    if low >= 0x8000 {
        low - 0x10000
    } else {
        low
    }
}

/// A code the decoder's format enumeration knows at all.
pub open spec fn sp_fmt_known(fmt: int) -> bool {
    -1 <= fmt <= 26
}

/// Bytes of one frame as the decoder sizes it: `Some` for the formats its
/// size table supports, `None` where it reports an unsupported format.
pub open spec fn sp_frame_size(fmt: int, w: int, h: int) -> Option<int> {
    if fmt == -1 {
        Some(0)
    } else if fmt == 0 || fmt == 1 || fmt == 11 || fmt == 12 {
        Some(w * h * 4)
    } else if fmt == 2 || fmt == 3 {
        Some(w * h * 3)
    } else if fmt == 4 || fmt == 6 {
        Some(w * h * 2)
    } else if fmt == 5 || fmt == 8 {
        Some(w * h)
    } else if fmt == 13 {
        Some(((w + 3) / 4) * ((h + 3) / 4) * 8)
    } else if fmt == 14 || fmt == 15 {
        Some(((w + 3) / 4) * ((h + 3) / 4) * 16)
    } else if fmt == 24 || fmt == 25 {
        Some(w * h * 8)
    } else {
        None
    }
}

/// A mip level's dimension: the stored size shifted right (the shift
/// amount wraps at 16), floored at one.
pub open spec fn sp_mip_dim(d: u16, k: u32) -> u32 {
    let m = (d as u32) >> (k % 16);
    if m == 0 {
        1u32
    } else {
        m
    }
}

/// One mip level's byte size, dimensions floored and depth applied, as
/// the decoder computes it.
pub open spec fn sp_mip_size(fmt: int, w: u16, h: u16, dep: u16, k: u32) -> Option<int> {
    match sp_frame_size(fmt, sp_mip_dim(w, k) as int, sp_mip_dim(h, k) as int) {
        Option::None => None,
        Option::Some(fs) => Some(fs * (sp_mip_dim(dep, k) as int)),
    }
}

/// Sum of the mip sizes of levels `from..to`.
pub open spec fn sp_mip_total(fmt: int, w: u16, h: u16, dep: u16, from: u32, to: u32) -> Option<
    int,
>
    decreases to - from,
{
    if from >= to {
        Some(0)
    } else {
        match sp_mip_size(fmt, w, h, dep, from) {
            Option::None => None,
            Option::Some(t) => match sp_mip_total(fmt, w, h, dep, (from + 1) as u32, to) {
                Option::None => None,
                Option::Some(rest) => Some(t + rest),
            },
        }
    }
}

/// The stored offset of the first resource entry whose four type bytes
/// are `id0, 0, 0, 0`, among `n` eight-byte entries at `base`.
pub open spec fn sp_resource_find(s: Seq<u8>, base: int, n: int, id0: u8) -> Option<int>
    decreases n,
{
    if n <= 0 {
        None
    } else if s[base] == id0 && s[base + 1] == 0 && s[base + 2] == 0 && s[base + 3] == 0 {
        Some(sp_le32(s, base + 4))
    } else {
        sp_resource_find(s, base + 8, n - 1, id0)
    }
}

/// The bounds-and-overflow verdict for the first-frame, mip-zero decode of
/// the high-resolution image, given the high-resolution data offset. The
/// block-compressed formats also require a non-zero width, which the
/// block decompressor chunks its output by.
pub open spec fn sp_hi_bounds(
    n: int,
    hi_off: int,
    hi_fmt: int,
    w: u16,
    h: u16,
    depth: u16,
    mips: u32,
    frames: int,
) -> bool {
    match sp_frame_size(hi_fmt, w as int, h as int) {
        Option::None => true,  // the decoder stops with an unsupported-format error
        Option::Some(fs0) => match sp_mip_total(hi_fmt, w, h, depth, 1, mips) {
            Option::None => true,  // likewise, inside the mip walk
            Option::Some(total) => {
                &&& ((hi_fmt == 13 || hi_fmt == 14 || hi_fmt == 15) ==> w != 0)
                &&& fs0 <= 0xFFFFFFFF
                &&& total <= 0xFFFFFFFF
                &&& total * frames <= 0xFFFFFFFF
                &&& (match sp_mip_size(hi_fmt, w, h, depth, 0) {
                    Option::None => true,
                    Option::Some(vol) => vol <= 0xFFFFFFFF,
                })
                &&& hi_off + total * frames + fs0 <= n
            },
        },
    }
}

/// Accept bytes for decoding only when the decoder either stops with a
/// clean error or stays inside the input: its header reads succeed or
/// fail cleanly; both format fields are known codes; every frame, mip and
/// volume size fits 32-bit arithmetic; and the first-frame slice of the
/// high-resolution image ends within the input.
pub open spec fn sp_vtf_bounds_ok(s: Seq<u8>) -> bool {
    let n = s.len() as int;
    if n < 63 {
        true  // the header read stops early
    } else if !(s[0] == 86 && s[1] == 84 && s[2] == 70 && s[3] == 0) {
        true  // bad signature: clean error
    } else {
        let v0 = sp_le32(s, 4);
        let v1 = sp_le32(s, 8);
        let header_size = sp_le32(s, 12);
        let w = sp_le16(s, 16) as u16;
        let h = sp_le16(s, 18) as u16;
        let frames = sp_le16(s, 24);
        let hi_fmt = sp_fmt_code(sp_le32(s, 52));
        let mips = s[56] as u32;
        let lo_fmt = sp_fmt_code(sp_le32(s, 57));
        let lo_w = s[61] as int;
        let lo_h = s[62] as int;
        if !(sp_fmt_known(hi_fmt) && sp_fmt_known(lo_fmt)) {
            true  // unknown format code: clean error
        } else {
            let with_depth = v0 >= 7 && v1 >= 2;
            let with_res = v0 >= 7 && v1 >= 3;
            if with_depth && n < 65 {
                true  // depth read stops early
            } else {
                let depth = if with_depth {
                    sp_le16(s, 63) as u16
                } else {
                    1u16
                };
                if with_res && n < 80 {
                    true  // resource-list reads stop early
                } else {
                    let num = if with_res {
                        sp_le32(s, 68)
                    } else {
                        0
                    };
                    if with_res && n < 80 + 8 * num {
                        true  // resource entries stop early
                    } else {
                        let lo_res = if with_res {
                            sp_resource_find(s, 80, num, 1)
                        } else {
                            None
                        };
                        let hi_res = if with_res {
                            sp_resource_find(s, 80, num, 48)
                        } else {
                            None
                        };
                        let lo_off = match lo_res {
                            Option::Some(v) => v,
                            Option::None => header_size,
                        };
                        match hi_res {
                            Option::Some(v) => sp_hi_bounds(
                                n,
                                v,
                                hi_fmt,
                                w,
                                h,
                                depth,
                                mips,
                                frames,
                            ),
                            Option::None => match sp_frame_size(lo_fmt, lo_w, lo_h) {
                                Option::None => true,  // clean error before slicing
                                Option::Some(lfs) => if lo_off + lfs > 0xFFFFFFFF {
                                    false  // offset addition overflows
                                } else {
                                    sp_hi_bounds(
                                        n,
                                        lo_off + lfs,
                                        hi_fmt,
                                        w,
                                        h,
                                        depth,
                                        mips,
                                        frames,
                                    )
                                },
                            },
                        }
                    }
                }
            }
        }
    }
}

/// Whether frame sizing supports a format; this depends on the format
/// alone, never on the dimensions.
pub open spec fn sp_fmt_supported(fmt: int) -> bool {
    fmt == -1 || fmt == 0 || fmt == 1 || fmt == 2 || fmt == 3 || fmt == 4 || fmt == 5 || fmt == 6
        || fmt == 8 || fmt == 11 || fmt == 12 || fmt == 13 || fmt == 14 || fmt == 15 || fmt == 24
        || fmt == 25
}

proof fn lemma_frame_size_some(fmt: int, w: int, h: int)
    ensures
        (sp_frame_size(fmt, w, h) is Some) == sp_fmt_supported(fmt),
{
}

proof fn lemma_mip_total_some(fmt: int, w: u16, h: u16, dep: u16, from: u32, to: u32)
    requires
        sp_fmt_supported(fmt),
    ensures
        sp_mip_total(fmt, w, h, dep, from, to) is Some,
    decreases to - from,
{
    if from < to {
        lemma_frame_size_some(fmt, sp_mip_dim(w, from) as int, sp_mip_dim(h, from) as int);
        lemma_mip_total_some(fmt, w, h, dep, (from + 1) as u32, to);
    }
}

proof fn lemma_frame_size_nonneg(fmt: int, w: int, h: int)
    requires
        w >= 0,
        h >= 0,
    ensures
        sp_frame_size(fmt, w, h) matches Some(v) ==> v >= 0,
{
    assert(w * h >= 0) by (nonlinear_arith)
        requires
            w >= 0,
            h >= 0,
    ;
    assert(((w + 3) / 4) * ((h + 3) / 4) >= 0) by (nonlinear_arith)
        requires
            w >= 0,
            h >= 0,
    ;
}

proof fn lemma_mip_total_nonneg(fmt: int, w: u16, h: u16, dep: u16, from: u32, to: u32)
    ensures
        sp_mip_total(fmt, w, h, dep, from, to) matches Some(t) ==> t >= 0,
    decreases to - from,
{
    if from < to {
        match sp_mip_size(fmt, w, h, dep, from) {
            Option::None => {},
            Option::Some(t) => {
                lemma_frame_size_nonneg(
                    fmt,
                    sp_mip_dim(w, from) as int,
                    sp_mip_dim(h, from) as int,
                );
                match sp_frame_size(
                    fmt,
                    sp_mip_dim(w, from) as int,
                    sp_mip_dim(h, from) as int,
                ) {
                    Option::None => {},
                    Option::Some(fs) => {
                        assert(fs * (sp_mip_dim(dep, from) as int) >= 0) by (nonlinear_arith)
                            requires
                                fs >= 0,
                        ;
                    },
                }
                lemma_mip_total_nonneg(fmt, w, h, dep, (from + 1) as u32, to);
            },
        }
    }
}

/// Little-endian 16-bit field.
fn le16_at(s: &[u8], i: usize) -> (r: u64)
    requires
        i + 2 <= s@.len(),
    ensures
        r == sp_le16(s@, i as int),
        r <= 0xFFFF,
{
    s[i] as u64 + 0x100 * (s[i + 1] as u64)
}

/// Little-endian 32-bit field.
fn le32_at(s: &[u8], i: usize) -> (r: u64)
    requires
        i + 4 <= s@.len(),
    ensures
        r == sp_le32(s@, i as int),
        r <= 0xFFFFFFFF,
{
    s[i] as u64 + 0x100 * (s[i + 1] as u64) + 0x10000 * (s[i + 2] as u64) + 0x1000000 * (s[i + 3]
        as u64)
}

/// The signed 16-bit truncation of a stored format field.
fn fmt_code_of(raw: u64) -> (r: i64)
    requires
        raw <= 0xFFFFFFFF,
    ensures
        r as int == sp_fmt_code(raw as int),
        -0x8000 <= r < 0x8000,
{
    let low = raw % 0x10000;
    if low >= 0x8000 {
        (low as i64) - 0x10000
    } else {
        low as i64
    }
}

/// A frame's size in bytes; mirrors `sp_frame_size`.
fn frame_size_of(fmt: i64, w: u64, h: u64) -> (r: Option<u64>)
    requires
        w <= 0x10000,
        h <= 0x10000,
    ensures
        (r is None) == (sp_frame_size(fmt as int, w as int, h as int) is None),
        r matches Some(v) ==> sp_frame_size(fmt as int, w as int, h as int) == Some(v as int) && v
            <= 0x10_0000_0000,
{
    proof {
        assert(w * h <= 0x1_0000_0000) by (nonlinear_arith)
            requires
                w <= 0x10000,
                h <= 0x10000,
        ;
        assert(((w as int + 3) / 4) * ((h as int + 3) / 4) <= 0x1_0000_0000) by (nonlinear_arith)
            requires
                0 <= w <= 0x10000,
                0 <= h <= 0x10000,
        ;
    }
    if fmt == -1 {
        Some(0)
    } else if fmt == 0 || fmt == 1 || fmt == 11 || fmt == 12 {
        Some(w * h * 4)
    } else if fmt == 2 || fmt == 3 {
        Some(w * h * 3)
    } else if fmt == 4 || fmt == 6 {
        Some(w * h * 2)
    } else if fmt == 5 || fmt == 8 {
        Some(w * h)
    } else if fmt == 13 {
        Some(((w + 3) / 4) * ((h + 3) / 4) * 8)
    } else if fmt == 14 || fmt == 15 {
        Some(((w + 3) / 4) * ((h + 3) / 4) * 16)
    } else if fmt == 24 || fmt == 25 {
        Some(w * h * 8)
    } else {
        None
    }
}

/// A mip level's floored dimension; mirrors `sp_mip_dim`.
fn mip_dim_of(d: u16, k: u32) -> (r: u32)
    ensures
        r == sp_mip_dim(d, k),
        1 <= r <= 0xFFFF,
{
    proof {
        let dv = d as u32;
        let kv = k % 16;
        assert(dv >> kv <= dv) by (bit_vector);
    }
    let m = (d as u32) >> (k % 16);
    if m == 0 {
        1
    } else {
        m
    }
}

/// One mip level's byte size; mirrors `sp_mip_size`.
fn mip_size_of(fmt: i64, w: u16, h: u16, dep: u16, k: u32) -> (r: Option<u64>)
    ensures
        (r is None) == (sp_mip_size(fmt as int, w, h, dep, k) is None),
        r matches Some(v) ==> sp_mip_size(fmt as int, w, h, dep, k) == Some(v as int) && v
            <= 0x1000_0000_0000_0000,
{
    let mw = mip_dim_of(w, k);
    let mh = mip_dim_of(h, k);
    let md = mip_dim_of(dep, k);
    match frame_size_of(fmt, mw as u64, mh as u64) {
        Option::None => None,
        Option::Some(fs) => {
            proof {
                assert(fs * (md as u64) <= 0x1000_0000_0000_0000) by (nonlinear_arith)
                    requires
                        fs <= 0x10_0000_0000,
                        md <= 0xFFFF,
                ;
            }
            Some(fs * (md as u64))
        },
    }
}

/// First resource entry with the given type byte; mirrors
/// `sp_resource_find`.
fn resource_find(s: &[u8], num: u64, id0: u8) -> (r: Option<u64>)
    requires
        80 + 8 * num <= s@.len(),
    ensures
        (r is None) == (sp_resource_find(s@, 80, num as int, id0) is None),
        r matches Some(v) ==> sp_resource_find(s@, 80, num as int, id0) == Some(v as int) && v
            <= 0xFFFFFFFF,
{
    let slen = s.len();
    let mut i: u64 = 0;
    while i < num
        invariant
            i <= num,
            80 + 8 * num <= slen,
            slen == s@.len(),
            sp_resource_find(s@, 80, num as int, id0) == sp_resource_find(
                s@,
                80 + 8 * i,
                num - i,
                id0,
            ),
        decreases num - i,
    {
        proof {
            assert(8 * i <= 8 * num) by (nonlinear_arith)
                requires
                    i <= num,
            ;
        }
        let base = (80 + 8 * i) as usize;
        if s[base] == id0 && s[base + 1] == 0 && s[base + 2] == 0 && s[base + 3] == 0 {
            return Some(le32_at(s, base + 4));
        }
        i = i + 1;
    }
    None
}

/// The bounds verdict for a given high-resolution offset; mirrors
/// `sp_hi_bounds`.
fn hi_bounds_of(
    n: u64,
    hi_off: u64,
    hi_fmt: i64,
    w: u16,
    h: u16,
    depth: u16,
    mips: u32,
    frames: u64,
) -> (r: bool)
    requires
        hi_off <= 0xFFFFFFFF,
        frames <= 0xFFFF,
    ensures
        r == sp_hi_bounds(n as int, hi_off as int, hi_fmt as int, w, h, depth, mips, frames as int),
{
    let fs0 = match frame_size_of(hi_fmt, w as u64, h as u64) {
        Option::None => {
            return true;
        },
        Option::Some(v) => v,
    };
    let ghost spec_total = sp_mip_total(hi_fmt as int, w, h, depth, 1, mips);
    let mut sum: u64 = 0;
    let mut k: u32 = 1;
    proof {
        lemma_frame_size_some(hi_fmt as int, w as int, h as int);
        lemma_mip_total_some(hi_fmt as int, w, h, depth, 1, mips);
        lemma_mip_total_nonneg(hi_fmt as int, w, h, depth, 1, mips);
    }
    while k < mips
        invariant
            1 <= k,
            mips > 1 ==> k <= mips,
            sum <= 0xFFFFFFFF,
            spec_total == sp_mip_total(hi_fmt as int, w, h, depth, 1, mips),
            sp_fmt_supported(hi_fmt as int),
            match sp_mip_total(hi_fmt as int, w, h, depth, k, mips) {
                Option::None => spec_total is None,
                Option::Some(rest) => spec_total == Some(sum + rest),
            },
        decreases mips - k,
    {
        proof {
            lemma_mip_total_some(hi_fmt as int, w, h, depth, (k + 1) as u32, mips);
            lemma_mip_total_nonneg(hi_fmt as int, w, h, depth, (k + 1) as u32, mips);
        }
        let term = match mip_size_of(hi_fmt, w, h, depth, k) {
            Option::None => {
                // Unreachable: the format is supported, so every mip
                // level sizes successfully.
                proof {
                    lemma_frame_size_some(
                        hi_fmt as int,
                        sp_mip_dim(w, k) as int,
                        sp_mip_dim(h, k) as int,
                    );
                }
                return true;
            },
            Option::Some(v) => v,
        };
        if term > 0xFFFFFFFF || sum + term > 0xFFFFFFFF {
            // The decoder's running 32-bit offset would overflow.
            proof {
                match sp_mip_total(hi_fmt as int, w, h, depth, (k + 1) as u32, mips) {
                    Option::None => {},
                    Option::Some(rest) => {
                        assert(spec_total == Some(sum + term + rest));
                    },
                }
            }
            return false;
        }
        sum = sum + term;
        k = k + 1;
    }
    proof {
        if mips > 1 {
            assert(k == mips);
        }
        assert(sp_mip_total(hi_fmt as int, w, h, depth, k, mips) == Some(0int));
    }
    let total = sum;
    if (hi_fmt == 13 || hi_fmt == 14 || hi_fmt == 15) && w == 0 {
        // The block decompressor would chunk its output by zero.
        return false;
    }
    if fs0 > 0xFFFFFFFF {
        return false;
    }
    proof {
        assert(total * frames <= 0xFFFFFFFFu64 * 0xFFFF) by (nonlinear_arith)
            requires
                total <= 0xFFFFFFFF,
                frames <= 0xFFFF,
        ;
    }
    if total * frames > 0xFFFFFFFF {
        return false;
    }
    match mip_size_of(hi_fmt, w, h, depth, 0) {
        Option::None => {
            return true;
        },
        Option::Some(vol) => {
            if vol > 0xFFFFFFFF {
                return false;
            }
        },
    }
    hi_off + total * frames + fs0 <= n
}

/// Accept bytes for decoding only when the decoder cannot step outside
/// them; mirrors `sp_vtf_bounds_ok`.
pub fn vtf_decode_in_bounds(data: &[u8]) -> (r: bool)
    ensures
        r == sp_vtf_bounds_ok(data@),
{
    let n = data.len();
    if n < 63 {
        return true;
    }
    if !(data[0] == 86 && data[1] == 84 && data[2] == 70 && data[3] == 0) {
        return true;
    }
    let v0 = le32_at(data, 4);
    let v1 = le32_at(data, 8);
    let header_size = le32_at(data, 12);
    let w = le16_at(data, 16) as u16;
    let h = le16_at(data, 18) as u16;
    let frames = le16_at(data, 24);
    let hi_fmt = fmt_code_of(le32_at(data, 52));
    let mips = data[56] as u32;
    let lo_fmt = fmt_code_of(le32_at(data, 57));
    let lo_w = data[61] as u64;
    let lo_h = data[62] as u64;
    if !(-1 <= hi_fmt && hi_fmt <= 26 && -1 <= lo_fmt && lo_fmt <= 26) {
        return true;
    }
    let with_depth = v0 >= 7 && v1 >= 2;
    let with_res = v0 >= 7 && v1 >= 3;
    if with_depth && n < 65 {
        return true;
    }
    let depth: u16 = if with_depth {
        le16_at(data, 63) as u16
    } else {
        1
    };
    if with_res && n < 80 {
        return true;
    }
    let num: u64 = if with_res {
        le32_at(data, 68)
    } else {
        0
    };
    if with_res && (n as u64) < 80 + 8 * num {
        return true;
    }
    let lo_res = if with_res {
        resource_find(data, num, 1)
    } else {
        None
    };
    let hi_res = if with_res {
        resource_find(data, num, 48)
    } else {
        None
    };
    let lo_off = match lo_res {
        Option::Some(v) => v,
        Option::None => header_size,
    };
    match hi_res {
        Option::Some(v) => hi_bounds_of(n as u64, v, hi_fmt, w, h, depth, mips, frames),
        Option::None => match frame_size_of(lo_fmt, lo_w, lo_h) {
            Option::None => true,
            Option::Some(lfs) => {
                if lo_off + lfs > 0xFFFFFFFF {
                    false
                } else {
                    hi_bounds_of(n as u64, lo_off + lfs, hi_fmt, w, h, depth, mips, frames)
                }
            },
        },
    }
}

} // verus!
