//! VP9 in IVF files: the container, the uncompressed frame header, and the
//! decode of a single keyframe.
//!
//! Of the frame headers, that of a keyframe is read; other frames are
//! refused. The driver gets the header's fields in its picture parameters and
//! the whole frame, header included, as data.

use crate::bits::{BitReader, Cursor};
use crate::device::{Failure, VdpError};
use crate::engine::{validate_request, HwDeviceInfo};
use crate::frame::{
    after_read, after_render, create_surface, render, DecodeAction, DecodeEvent, DecoderRequest,
};
use crate::sys::{VdpPictureInfoVP9, VDP_DECODER_PROFILE_VP9_PROFILE_0, VDP_INVALID_HANDLE};
use crate::text::{byte_list_text, decimal_text, hexadecimal_text};
use vstd::prelude::*;
use vstd::slice::slice_subrange;
use vstd::string::*;

verus! {

// IVF.

/// The number that `bytes` stand for, the least significant byte first.
pub open spec fn little_endian(bytes: Seq<u8>) -> nat
    decreases bytes.len(),
{
    if bytes.len() == 0 {
        0
    } else {
        bytes[0] as nat + 256 * little_endian(bytes.skip(1))
    }
}

/// `v` in `n` bytes, the least significant byte first.
pub open spec fn le_bytes(v: nat, n: nat) -> Seq<u8>
    decreases n,
{
    if n == 0 {
        Seq::empty()
    } else {
        seq![(v % 256) as u8] + le_bytes(v / 256, (n - 1) as nat)
    }
}

/// Read `n` bytes from `from` on as a number, the least significant first.
fn read_le(buf: &[u8], from: usize, n: usize) -> (v: u64)
    requires
        n <= 8,
        from + n <= buf@.len(),
    ensures
        v == little_endian(buf@.subrange(from as int, from + n)),
{
    let total: usize = buf.len();
    let mut v: u64 = 0;
    let mut left: usize = n;
    proof {
        lemma_little_endian_bound(buf@.subrange(from + n, from + n));
    }
    while left > 0
        invariant
            left <= n <= 8,
            from + n <= buf@.len() == total,
            v == little_endian(buf@.subrange(from + left, from + n)),
        decreases left,
    {
        let ghost rest = buf@.subrange(from + left, from + n);
        left = left - 1;
        let ghost all = buf@.subrange(from + left, from + n);
        proof {
            lemma_little_endian_bound(all);
            lemma_bytes_256();
            assert(all.skip(1) == rest);
            lemma_bytes_256_monotone(all.len(), 8);
        }
        v = buf[from + left] as u64 + 256 * v;
    }
    v
}

/// How many numbers fit in `n` bytes.
pub open spec fn bytes_256(n: nat) -> nat
    decreases n,
{
    if n == 0 {
        1
    } else {
        256 * bytes_256((n - 1) as nat)
    }
}

proof fn lemma_bytes_256()
    ensures
        bytes_256(2) == 0x1_0000,
        bytes_256(4) == 0x1_0000_0000,
        bytes_256(8) == 0x1_0000_0000_0000_0000,
{
    reveal_with_fuel(bytes_256, 9);
}

proof fn lemma_bytes_256_monotone(a: nat, b: nat)
    requires
        a <= b,
    ensures
        bytes_256(a) <= bytes_256(b),
    decreases b,
{
    if a < b {
        lemma_bytes_256_monotone(a, (b - 1) as nat);
    }
}

proof fn lemma_little_endian_bound(bytes: Seq<u8>)
    ensures
        little_endian(bytes) < bytes_256(bytes.len()),
    decreases bytes.len(),
{
    if bytes.len() > 0 {
        lemma_little_endian_bound(bytes.skip(1));
    }
}

/// IVF file header.
#[derive(Debug, Clone, Copy, PartialEq, Eq, Structural)]
pub struct IvfHeader {
    pub width: u16,
    pub height: u16,
}

/// One frame of an IVF file.
#[derive(Debug, Clone, Copy)]
pub struct IvfFrame<'a> {
    pub payload: &'a [u8],
    pub timestamp: u64,
}

/// The error that stands against reading `buf` as a VP9 IVF file.
pub open spec fn ivf_error(buf: Seq<u8>) -> Option<Failure> {
    let version = little_endian(buf.subrange(4, 6));
    let header_len = little_endian(buf.subrange(6, 8));
    if buf.len() < 32 {
        Some(crate::device::failure("IVF file shorter than 32-byte header"@))
    } else if buf.subrange(0, 4) != seq![0x44u8, 0x4bu8, 0x49u8, 0x46u8] {
        Some(
            crate::device::failure(
                "IVF magic mismatch: "@ + crate::text::byte_list(buf.subrange(0, 4)),
            ),
        )
    } else if version != 0 {
        Some(
            crate::device::failure("IVF version "@ + crate::text::decimal(version) + " != 0"@),
        )
    } else if header_len != 32 {
        Some(
            crate::device::failure(
                "IVF header_len "@ + crate::text::decimal(header_len) + " != 32"@,
            ),
        )
    } else if buf.subrange(8, 12) != seq![0x56u8, 0x50u8, 0x39u8, 0x30u8] {
        Some(
            crate::device::failure(
                "IVF codec FourCC "@ + crate::text::byte_list(buf.subrange(8, 12)) + " != VP90"@,
            ),
        )
    } else {
        None
    }
}

/// The dimensions in the file header of `buf`.
pub open spec fn ivf_header(buf: Seq<u8>) -> IvfHeader {
    IvfHeader {
        width: little_endian(buf.subrange(12, 14)) as u16,
        height: little_endian(buf.subrange(14, 16)) as u16,
    }
}

/// Whether the four bytes from `from` on are `a`, `b`, `c`, `d`.
fn four_bytes_are(buf: &[u8], from: usize, a: u8, b: u8, c: u8, d: u8) -> (same: bool)
    requires
        from + 4 <= buf@.len(),
    ensures
        same <==> buf@.subrange(from as int, from + 4) == seq![a, b, c, d],
{
    let same: bool = buf[from] == a && buf[from + 1] == b && buf[from + 2] == c && buf[from + 3]
        == d;
    let ghost four = buf@.subrange(from as int, from + 4);
    assert(four[0] == buf@[from as int]);
    assert(four[1] == buf@[from + 1]);
    assert(four[2] == buf@[from + 2]);
    assert(four[3] == buf@[from + 3]);
    assert(same ==> four == seq![a, b, c, d]);
    same
}

/// Parse the IVF file header. Returns the header and what follows it.
pub fn parse_ivf(buf: &[u8]) -> (res: Result<(IvfHeader, &[u8]), VdpError>)
    ensures
        match ivf_error(buf@) {
            Some(f) => res matches Err(e) && e@ == f,
            None => res matches Ok((header, body)) && header == ivf_header(buf@) && body@
                == buf@.skip(32),
        },
{
    if buf.len() < 32 {
        return Err(VdpError::other("IVF file shorter than 32-byte header".to_owned()));
    }
    if !four_bytes_are(buf, 0, 0x44, 0x4b, 0x49, 0x46) {
        return Err(
            VdpError::other(
                "IVF magic mismatch: ".to_owned().concat(
                    byte_list_text(slice_subrange(buf, 0, 4)).as_str(),
                ),
            ),
        );
    }
    let version: u64 = read_le(buf, 4, 2);
    if version != 0 {
        return Err(
            VdpError::other(
                "IVF version ".to_owned().concat(decimal_text(version).as_str()).concat(" != 0"),
            ),
        );
    }
    let header_len: u64 = read_le(buf, 6, 2);
    if header_len != 32 {
        return Err(
            VdpError::other(
                "IVF header_len ".to_owned().concat(decimal_text(header_len).as_str()).concat(
                    " != 32",
                ),
            ),
        );
    }
    if !four_bytes_are(buf, 8, 0x56, 0x50, 0x39, 0x30) {
        return Err(
            VdpError::other(
                "IVF codec FourCC ".to_owned().concat(
                    byte_list_text(slice_subrange(buf, 8, 12)).as_str(),
                ).concat(" != VP90"),
            ),
        );
    }
    let width: u64 = read_le(buf, 12, 2);
    let height: u64 = read_le(buf, 14, 2);
    proof {
        lemma_little_endian_bound(buf@.subrange(12, 14));
        lemma_little_endian_bound(buf@.subrange(14, 16));
        lemma_bytes_256();
        assert(buf@.subrange(32, buf@.len() as int) == buf@.skip(32));
    }
    Ok(
        (
            IvfHeader { width: width as u16, height: height as u16 },
            slice_subrange(buf, 32, buf.len()),
        ),
    )
}

/// The error that stands against reading a frame at the start of `buf`, which
/// is not empty.
pub open spec fn ivf_frame_error(buf: Seq<u8>) -> Option<Failure> {
    if buf.len() < 12 {
        Some(crate::device::failure("truncated IVF frame header"@))
    } else if buf.len() < 12 + little_endian(buf.subrange(0, 4)) {
        Some(crate::device::failure("truncated IVF frame payload"@))
    } else {
        None
    }
}

/// The payload of the frame at the start of `buf`.
pub open spec fn ivf_payload(buf: Seq<u8>) -> Seq<u8> {
    buf.subrange(12, 12 + little_endian(buf.subrange(0, 4)) as int)
}

/// Parse the next IVF frame. Returns the frame and what follows it, or `None`
/// at the end of the file.
pub fn parse_ivf_frame(buf: &[u8]) -> (res: Result<Option<(IvfFrame<'_>, &[u8])>, VdpError>)
    ensures
        buf@.len() == 0 ==> (res matches Ok(found) && found is None),
        buf@.len() > 0 ==> match ivf_frame_error(buf@) {
            Some(f) => res matches Err(e) && e@ == f,
            None => res matches Ok(Some((frame, rest))) && {
                &&& frame.payload@ == ivf_payload(buf@)
                &&& frame.timestamp == little_endian(buf@.subrange(4, 12))
                &&& rest@ == buf@.skip(12 + ivf_payload(buf@).len() as int)
            },
        },
{
    if buf.len() == 0 {
        return Ok(None);
    }
    if buf.len() < 12 {
        return Err(VdpError::other("truncated IVF frame header".to_owned()));
    }
    let size: u64 = read_le(buf, 0, 4);
    let timestamp: u64 = read_le(buf, 4, 8);
    proof {
        lemma_little_endian_bound(buf@.subrange(0, 4));
        lemma_bytes_256();
    }
    let size: usize = size as usize;
    if buf.len() - 12 < size {
        return Err(VdpError::other("truncated IVF frame payload".to_owned()));
    }
    let payload: &[u8] = slice_subrange(buf, 12, 12 + size);
    let rest: &[u8] = slice_subrange(buf, 12 + size, buf.len());
    assert(rest@ == buf@.skip(12 + payload@.len() as int));
    Ok(Some((IvfFrame { payload, timestamp }, rest)))
}

/// Reading a number back from the bytes it was written in gives the number.
pub proof fn law_le_reads_back(v: nat, n: nat)
    requires
        v < bytes_256(n),
    ensures
        le_bytes(v, n).len() == n,
        little_endian(le_bytes(v, n)) == v,
    decreases n,
{
    if n > 0 {
        law_le_reads_back(v / 256, (n - 1) as nat);
        assert(le_bytes(v, n).skip(1) == le_bytes(v / 256, (n - 1) as nat));
    }
}

/// An IVF frame: size, timestamp, payload.
pub open spec fn ivf_frame_bytes(payload: Seq<u8>, timestamp: nat) -> Seq<u8> {
    le_bytes(payload.len(), 4) + le_bytes(timestamp, 8) + payload
}

/// A frame that was written is read back: payload, timestamp and what follows.
pub proof fn law_ivf_frame_reads_back(payload: Seq<u8>, timestamp: u64, rest: Seq<u8>)
    requires
        payload.len() <= u32::MAX,
    ensures
        ({
            let buf = ivf_frame_bytes(payload, timestamp as nat) + rest;
            &&& buf.len() > 0
            &&& ivf_frame_error(buf) is None
            &&& ivf_payload(buf) == payload
            &&& little_endian(buf.subrange(4, 12)) == timestamp
            &&& buf.skip(12 + ivf_payload(buf).len() as int) == rest
        }),
{
    let buf = ivf_frame_bytes(payload, timestamp as nat) + rest;
    lemma_bytes_256();
    law_le_reads_back(payload.len(), 4);
    law_le_reads_back(timestamp as nat, 8);
    assert(buf.subrange(0, 4) == le_bytes(payload.len(), 4));
    assert(buf.subrange(4, 12) == le_bytes(timestamp as nat, 8));
    assert(buf.subrange(12, 12 + payload.len() as int) == payload);
    assert(buf.skip(12 + payload.len() as int) == rest);
}

/// An IVF file header for VP9, with 16 bytes of frame rate and frame count.
pub open spec fn ivf_header_bytes(header: IvfHeader, rate: Seq<u8>) -> Seq<u8> {
    seq![0x44u8, 0x4bu8, 0x49u8, 0x46u8] + le_bytes(0, 2) + le_bytes(32, 2)
        + seq![0x56u8, 0x50u8, 0x39u8, 0x30u8] + le_bytes(header.width as nat, 2) + le_bytes(
        header.height as nat,
        2,
    ) + rate
}

/// A file header that was written is read back, with what follows it.
pub proof fn law_ivf_header_reads_back(header: IvfHeader, rate: Seq<u8>, body: Seq<u8>)
    requires
        rate.len() == 16,
    ensures
        ({
            let buf = ivf_header_bytes(header, rate) + body;
            &&& ivf_error(buf) is None
            &&& ivf_header(buf) == header
            &&& buf.skip(32) == body
        }),
{
    let buf = ivf_header_bytes(header, rate) + body;
    lemma_bytes_256();
    law_le_reads_back(0, 2);
    law_le_reads_back(32, 2);
    law_le_reads_back(header.width as nat, 2);
    law_le_reads_back(header.height as nat, 2);
    assert(buf.subrange(0, 4) == seq![0x44u8, 0x4bu8, 0x49u8, 0x46u8]);
    assert(buf.subrange(4, 6) == le_bytes(0, 2));
    assert(buf.subrange(6, 8) == le_bytes(32, 2));
    assert(buf.subrange(8, 12) == seq![0x56u8, 0x50u8, 0x39u8, 0x30u8]);
    assert(buf.subrange(12, 14) == le_bytes(header.width as nat, 2));
    assert(buf.subrange(14, 16) == le_bytes(header.height as nat, 2));
    assert(buf.skip(32) == body);
}

// The uncompressed header.

pub const KEY_FRAME: u8 = 0;

pub const VP9_SYNC_CODE: u32 = 0x49_8342;

/// Number of segmentation features.
pub const SEG_LVL_MAX: usize = 4;

/// Uncompressed header of a frame.
#[derive(Debug, Clone, Copy)]
pub struct Vp9UncompressedHeader {
    pub profile: u8,
    pub show_existing_frame: u8,
    /// 0 for a keyframe, 1 otherwise.
    pub frame_type: u8,
    pub show_frame: u8,
    pub error_resilient_mode: u8,
    /// 8, 10 or 12.
    pub bit_depth: u8,
    pub color_space: u8,
    pub color_range: u8,
    pub subsampling_x: u8,
    pub subsampling_y: u8,
    pub width: u32,
    pub height: u32,
    pub intra_only: u8,
    pub reset_frame_context: u8,
    pub refresh_frame_flags: u8,
    pub allow_high_precision_mv: u8,
    pub interpolation_filter: u8,
    pub refresh_frame_context: u8,
    pub frame_parallel_decoding_mode: u8,
    pub frame_context_idx: u8,
    pub loop_filter_level: u8,
    pub loop_filter_sharpness: u8,
    pub loop_filter_mode_ref_delta_enabled: u8,
    pub loop_filter_ref_deltas: [i32; 4],
    pub loop_filter_mode_deltas: [i32; 2],
    pub base_q_idx: i32,
    pub delta_q_y_dc: i32,
    pub delta_q_uv_dc: i32,
    pub delta_q_uv_ac: i32,
    pub segmentation_enabled: u8,
    pub segmentation_update_map: u8,
    pub segmentation_temporal_update: u8,
    pub segmentation_update_data: u8,
    pub segmentation_abs_or_delta_update: u8,
    pub segment_feature_enable: [[u8; 4]; 8],
    pub segment_feature_data: [[i16; 4]; 8],
    pub mb_segment_tree_probs: [u8; 7],
    pub segment_pred_probs: [u8; 3],
    pub log2_tile_cols: u8,
    pub log2_tile_rows: u8,
    pub uncompressed_header_size: u32,
    pub compressed_header_size: u32,
    /// Reference frame indices of the last, golden and alternate reference.
    pub ref_frame_idx: [u8; 3],
    pub ref_frame_sign_bias: [u8; 4],
}

/// `color_config()`.
#[derive(Debug, Clone, Copy, PartialEq, Eq, Structural)]
pub struct ColorConfig {
    pub bit_depth: u8,
    pub color_space: u8,
    pub color_range: u8,
    pub subsampling_x: u8,
    pub subsampling_y: u8,
}

/// The color space code of sRGB, which has its own syntax.
pub const CS_RGB: u8 = 7;

/// Where the color space code stands: behind the bit depth flag of the high
/// profiles.
pub open spec fn color_space_at(c: Cursor, profile: u8) -> Cursor {
    if profile >= 2 {
        c.skip(1)
    } else {
        c
    }
}

/// The fields of `color_config()`.
pub open spec fn color_config(c: Cursor, profile: u8) -> ColorConfig {
    let d = color_space_at(c, profile);
    let color_space = d.u(3) as u8;
    let rgb = color_space == CS_RGB;
    let coded = profile == 1 || profile == 3;
    ColorConfig {
        bit_depth: if profile < 2 {
            8
        } else if c.flag() == 1 {
            12
        } else {
            10
        },
        color_space,
        color_range: if rgb {
            1
        } else {
            d.skip(3).flag() as u8
        },
        subsampling_x: if rgb {
            0
        } else if coded {
            d.skip(4).flag() as u8
        } else {
            1
        },
        subsampling_y: if rgb {
            0
        } else if coded {
            d.skip(5).flag() as u8
        } else {
            1
        },
    }
}

/// The place behind `color_config()`.
pub open spec fn after_color_config(c: Cursor, profile: u8) -> Cursor {
    let d = color_space_at(c, profile);
    let rgb = d.u(3) as u8 == CS_RGB;
    let coded = profile == 1 || profile == 3;
    if rgb {
        if coded {
            d.skip(4)
        } else {
            d.skip(3)
        }
    } else if coded {
        d.skip(7)
    } else {
        d.skip(4)
    }
}

/// Read `color_config()`.
pub fn read_color_config(r: &mut BitReader<'_>, profile: u8) -> (config: ColorConfig)
    requires
        old(r)@.pos + 10 <= u128::MAX,
    ensures
        config == color_config(old(r)@, profile),
        final(r)@ == after_color_config(old(r)@, profile),
        final(r)@.pos <= old(r)@.pos + 10,
{
    proof {
        crate::bits::lemma_small_powers();
    }
    let bit_depth: u8 = if profile >= 2 {
        let ten_or_twelve_bit: u8 = r.flag();
        if ten_or_twelve_bit != 0 {
            12
        } else {
            10
        }
    } else {
        8
    };
    let color_space: u8 = r.u(3) as u8;
    let coded: bool = profile == 1 || profile == 3;
    if color_space != CS_RGB {
        let color_range: u8 = r.flag();
        if coded {
            let subsampling_x: u8 = r.flag();
            let subsampling_y: u8 = r.flag();
            r.skip(1);
            ColorConfig { bit_depth, color_space, color_range, subsampling_x, subsampling_y }
        } else {
            ColorConfig {
                bit_depth,
                color_space,
                color_range,
                subsampling_x: 1,
                subsampling_y: 1,
            }
        }
    } else {
        if coded {
            r.skip(1);
        }
        ColorConfig {
            bit_depth,
            color_space,
            color_range: 1,
            subsampling_x: 0,
            subsampling_y: 0,
        }
    }
}

/// The place behind `frame_size()` and `render_size()`.
pub open spec fn after_frame_size(c: Cursor) -> Cursor {
    if c.skip(32).flag() == 1 {
        c.skip(65)
    } else {
        c.skip(33)
    }
}

/// Read the frame size and pass over the render size.
pub fn read_frame_size(r: &mut BitReader<'_>) -> (size: (u32, u32))
    requires
        old(r)@.pos + 65 <= u128::MAX,
    ensures
        size.0 == old(r)@.u(16) + 1,
        size.1 == old(r)@.skip(16).u(16) + 1,
        size.0 <= 0x1_0000,
        size.1 <= 0x1_0000,
        final(r)@ == after_frame_size(old(r)@),
        final(r)@.pos <= old(r)@.pos + 65,
{
    proof {
        crate::bits::lemma_small_powers();
    }
    let width: u32 = r.u(16) + 1;
    let height: u32 = r.u(16) + 1;
    let render_and_frame_size_different: u8 = r.flag();
    if render_and_frame_size_different != 0 {
        r.skip(32);
    }
    (width, height)
}

/// `loop_filter_params()`.
#[derive(Debug, Clone, Copy)]
pub struct LoopFilter {
    pub level: u8,
    pub sharpness: u8,
    pub mode_ref_delta_enabled: u8,
    pub ref_deltas: [i32; 4],
    pub mode_deltas: [i32; 2],
}

/// The place behind `k` loop filter deltas: each is a flag that, if set, is
/// followed by six bits and a sign.
pub open spec fn after_lf_deltas(c: Cursor, k: nat) -> Cursor
    decreases k,
{
    if k == 0 {
        c
    } else {
        let d = after_lf_deltas(c, (k - 1) as nat);
        if d.flag() == 1 {
            d.skip(8)
        } else {
            d.skip(1)
        }
    }
}

/// Loop filter delta `k` of those that start at `c`; 0 if it is not coded.
pub open spec fn lf_delta(c: Cursor, k: nat) -> int {
    let d = after_lf_deltas(c, k);
    if d.flag() == 1 {
        d.skip(1).s(6)
    } else {
        0
    }
}

/// True if the deltas are coded at all.
pub open spec fn lf_deltas_coded(c: Cursor) -> bool {
    c.skip(9).flag() == 1 && c.skip(10).flag() == 1
}

/// True if `lf` is what `loop_filter_params()` at `c` says. Deltas that are
/// not coded are 0.
pub open spec fn loop_filter_at(lf: LoopFilter, c: Cursor) -> bool {
    &&& lf.level == c.u(6)
    &&& lf.sharpness == c.skip(6).u(3)
    &&& lf.mode_ref_delta_enabled == c.skip(9).flag()
    &&& forall|i: int|
        0 <= i < 4 ==> #[trigger] lf.ref_deltas[i] == (if lf_deltas_coded(c) {
            lf_delta(c.skip(11), i as nat)
        } else {
            0
        })
    &&& forall|i: int|
        0 <= i < 2 ==> #[trigger] lf.mode_deltas[i] == (if lf_deltas_coded(c) {
            lf_delta(c.skip(11), (4 + i) as nat)
        } else {
            0
        })
}

/// The place behind `loop_filter_params()`.
pub open spec fn after_loop_filter(c: Cursor) -> Cursor {
    if lf_deltas_coded(c) {
        after_lf_deltas(c.skip(11), 6)
    } else if c.skip(9).flag() == 1 {
        c.skip(11)
    } else {
        c.skip(10)
    }
}

/// Read one loop filter delta.
fn read_lf_delta(r: &mut BitReader<'_>, Ghost(c): Ghost<Cursor>, Ghost(k): Ghost<nat>) -> (delta:
    i32)
    requires
        old(r)@ == after_lf_deltas(c, k),
        old(r)@.pos + 8 <= u128::MAX,
    ensures
        delta == lf_delta(c, k),
        final(r)@ == after_lf_deltas(c, k + 1),
        final(r)@.pos <= old(r)@.pos + 8,
{
    let update: u8 = r.flag();
    if update != 0 {
        r.s(6)
    } else {
        0
    }
}

/// Read `loop_filter_params()`.
pub fn read_loop_filter_params(r: &mut BitReader<'_>) -> (lf: LoopFilter)
    requires
        old(r)@.pos + 60 <= u128::MAX,
    ensures
        loop_filter_at(lf, old(r)@),
        final(r)@ == after_loop_filter(old(r)@),
        final(r)@.pos <= old(r)@.pos + 60,
{
    proof {
        crate::bits::lemma_small_powers();
    }
    let ghost c = r@;
    let level: u8 = r.u(6) as u8;
    let sharpness: u8 = r.u(3) as u8;
    let mode_ref_delta_enabled: u8 = r.flag();
    let mut ref_deltas: [i32; 4] = [0; 4];
    let mut mode_deltas: [i32; 2] = [0; 2];
    if mode_ref_delta_enabled != 0 {
        let mode_ref_delta_update: u8 = r.flag();
        if mode_ref_delta_update != 0 {
            let ghost d = c.skip(11);
            let mut i: usize = 0;
            while i < 4
                invariant
                    i <= 4,
                    d.pos + 48 <= u128::MAX,
                    r@ == after_lf_deltas(d, i as nat),
                    r@.pos <= d.pos + 8 * i,
                    forall|j: int| 0 <= j < i ==> #[trigger] ref_deltas[j] == lf_delta(d, j as nat),
                decreases 4 - i,
            {
                let delta: i32 = read_lf_delta(r, Ghost(d), Ghost(i as nat));
                ref_deltas[i] = delta;
                i = i + 1;
            }
            let mut i: usize = 0;
            while i < 2
                invariant
                    i <= 2,
                    d.pos + 48 <= u128::MAX,
                    r@ == after_lf_deltas(d, (4 + i) as nat),
                    r@.pos <= d.pos + 32 + 8 * i,
                    forall|j: int|
                        0 <= j < i ==> #[trigger] mode_deltas[j] == lf_delta(d, (4 + j) as nat),
                decreases 2 - i,
            {
                let delta: i32 = read_lf_delta(r, Ghost(d), Ghost((4 + i) as nat));
                mode_deltas[i] = delta;
                i = i + 1;
            }
        }
    }
    LoopFilter { level, sharpness, mode_ref_delta_enabled, ref_deltas, mode_deltas }
}

/// `quantization_params()`.
#[derive(Debug, Clone, Copy, PartialEq, Eq, Structural)]
pub struct Quantization {
    pub base_q_idx: i32,
    pub delta_q_y_dc: i32,
    pub delta_q_uv_dc: i32,
    pub delta_q_uv_ac: i32,
}

/// A quantizer delta: a flag that, if set, is followed by four bits and a
/// sign; 0 if it is not coded.
pub open spec fn delta_q(c: Cursor) -> int {
    if c.flag() == 1 {
        c.skip(1).s(4)
    } else {
        0
    }
}

/// The place behind a quantizer delta.
pub open spec fn after_delta_q(c: Cursor) -> Cursor {
    if c.flag() == 1 {
        c.skip(6)
    } else {
        c.skip(1)
    }
}

/// The fields of `quantization_params()`.
pub open spec fn quantization(c: Cursor) -> Quantization {
    let d = c.skip(8);
    Quantization {
        base_q_idx: c.u(8) as i32,
        delta_q_y_dc: delta_q(d) as i32,
        delta_q_uv_dc: delta_q(after_delta_q(d)) as i32,
        delta_q_uv_ac: delta_q(after_delta_q(after_delta_q(d))) as i32,
    }
}

/// The place behind `quantization_params()`.
pub open spec fn after_quantization(c: Cursor) -> Cursor {
    after_delta_q(after_delta_q(after_delta_q(c.skip(8))))
}

/// Read a quantizer delta.
pub fn read_delta_q(r: &mut BitReader<'_>) -> (delta: i32)
    requires
        old(r)@.pos + 6 <= u128::MAX,
    ensures
        delta == delta_q(old(r)@),
        -15 <= delta <= 15,
        final(r)@ == after_delta_q(old(r)@),
        final(r)@.pos <= old(r)@.pos + 6,
{
    proof {
        crate::bits::lemma_small_powers();
    }
    let delta_coded: u8 = r.flag();
    if delta_coded != 0 {
        r.s(4)
    } else {
        0
    }
}

/// Read `quantization_params()`.
pub fn read_quantization_params(r: &mut BitReader<'_>) -> (q: Quantization)
    requires
        old(r)@.pos + 26 <= u128::MAX,
    ensures
        q == quantization(old(r)@),
        0 <= q.base_q_idx <= 255,
        -15 <= q.delta_q_y_dc <= 15,
        -15 <= q.delta_q_uv_dc <= 15,
        -15 <= q.delta_q_uv_ac <= 15,
        final(r)@ == after_quantization(old(r)@),
        final(r)@.pos <= old(r)@.pos + 26,
{
    proof {
        crate::bits::lemma_small_powers();
    }
    let base_q_idx: i32 = r.u(8) as i32;
    let delta_q_y_dc: i32 = read_delta_q(r);
    let delta_q_uv_dc: i32 = read_delta_q(r);
    let delta_q_uv_ac: i32 = read_delta_q(r);
    Quantization { base_q_idx, delta_q_y_dc, delta_q_uv_dc, delta_q_uv_ac }
}

/// `segmentation_params()`.
#[derive(Debug, Clone, Copy)]
pub struct Segmentation {
    pub enabled: u8,
    pub update_map: u8,
    pub temporal_update: u8,
    pub update_data: u8,
    pub abs_or_delta_update: u8,
    pub feature_enable: [[u8; 4]; 8],
    pub feature_data: [[i16; 4]; 8],
    pub tree_probs: [u8; 7],
    pub pred_probs: [u8; 3],
}

/// The place behind `k` probabilities: each is a flag that, if set, is
/// followed by eight bits.
pub open spec fn after_probs(c: Cursor, k: nat) -> Cursor
    decreases k,
{
    if k == 0 {
        c
    } else {
        let d = after_probs(c, (k - 1) as nat);
        if d.flag() == 1 {
            d.skip(9)
        } else {
            d.skip(1)
        }
    }
}

/// Probability `k` of those that start at `c`; 255 if it is not coded.
pub open spec fn prob(c: Cursor, k: nat) -> nat {
    let d = after_probs(c, k);
    if d.flag() == 1 {
        d.skip(1).u(8)
    } else {
        255
    }
}

/// How many bits the value of feature `j` has.
pub open spec fn feature_bits(j: nat) -> nat {
    if j == 0 {
        8
    } else if j == 1 {
        6
    } else if j == 2 {
        2
    } else {
        0
    }
}

/// True if the value of feature `j` is followed by a sign.
pub open spec fn feature_signed(j: nat) -> bool {
    j < 2
}

/// The place behind one feature: a flag and, if it is set, the value.
pub open spec fn after_feature(c: Cursor, j: nat) -> Cursor {
    if c.flag() == 0 {
        c.skip(1)
    } else if feature_signed(j) {
        c.skip(1 + feature_bits(j) + 1)
    } else {
        c.skip(1 + feature_bits(j))
    }
}

/// The value of the feature at `c`; 0 if it is not enabled.
pub open spec fn feature_value(c: Cursor, j: nat) -> int {
    if c.flag() == 0 {
        0
    } else if feature_signed(j) {
        c.skip(1).s(feature_bits(j))
    } else {
        c.skip(1).u(feature_bits(j)) as int
    }
}

/// The place of feature `k` of those that start at `c`, counted through the
/// segments, four in each.
pub open spec fn feature_at(c: Cursor, k: nat) -> Cursor
    decreases k,
{
    if k == 0 {
        c
    } else {
        after_feature(feature_at(c, (k - 1) as nat), ((k - 1) % 4) as nat)
    }
}

/// Where the flag for new feature data stands.
pub open spec fn update_data_at(c: Cursor) -> Cursor {
    let map = c.skip(1);
    let temporal = after_probs(map.skip(1), 7);
    if map.flag() == 0 {
        map.skip(1)
    } else if temporal.flag() == 1 {
        after_probs(temporal.skip(1), 3)
    } else {
        temporal.skip(1)
    }
}

/// True if `seg` is what `segmentation_params()` at `c` says. What is not
/// coded is 0, but probabilities of a new map are 255.
pub open spec fn segmentation_at(seg: Segmentation, c: Cursor) -> bool {
    let on = c.flag() == 1;
    let map = on && c.skip(1).flag() == 1;
    let temporal = after_probs(c.skip(2), 7);
    let pred = map && temporal.flag() == 1;
    let data = update_data_at(c);
    let new_data = on && data.flag() == 1;
    let features = data.skip(2);
    &&& seg.enabled == c.flag()
    &&& seg.update_map == (if map {
        1nat
    } else {
        0nat
    })
    &&& seg.temporal_update == (if pred {
        1nat
    } else {
        0nat
    })
    &&& seg.update_data == (if new_data {
        1nat
    } else {
        0nat
    })
    &&& seg.abs_or_delta_update == (if new_data {
        data.skip(1).flag()
    } else {
        0nat
    })
    &&& forall|i: int|
        0 <= i < 7 ==> #[trigger] seg.tree_probs[i] == (if map {
            prob(c.skip(2), i as nat)
        } else {
            0nat
        })
    &&& forall|i: int|
        0 <= i < 3 ==> #[trigger] seg.pred_probs[i] == (if pred {
            prob(temporal.skip(1), i as nat)
        } else if map {
            255nat
        } else {
            0nat
        })
    &&& forall|i: int, j: int|
        0 <= i < 8 && 0 <= j < 4 ==> #[trigger] seg.feature_enable[i][j] == (if new_data {
            feature_at(features, (4 * i + j) as nat).flag()
        } else {
            0nat
        })
    &&& forall|i: int, j: int|
        0 <= i < 8 && 0 <= j < 4 ==> #[trigger] seg.feature_data[i][j] == (if new_data {
            feature_value(feature_at(features, (4 * i + j) as nat), j as nat)
        } else {
            0int
        })
}

/// The place behind `segmentation_params()`.
pub open spec fn after_segmentation(c: Cursor) -> Cursor {
    let data = update_data_at(c);
    if c.flag() == 0 {
        c.skip(1)
    } else if data.flag() == 1 {
        feature_at(data.skip(2), 32)
    } else {
        data.skip(1)
    }
}

/// Read one probability.
fn read_prob(r: &mut BitReader<'_>, Ghost(c): Ghost<Cursor>, Ghost(k): Ghost<nat>) -> (p: u8)
    requires
        old(r)@ == after_probs(c, k),
        old(r)@.pos + 9 <= u128::MAX,
    ensures
        p == prob(c, k),
        final(r)@ == after_probs(c, k + 1),
        final(r)@.pos <= old(r)@.pos + 9,
{
    proof {
        crate::bits::lemma_small_powers();
    }
    let prob_coded: u8 = r.flag();
    if prob_coded != 0 {
        r.u(8) as u8
    } else {
        255
    }
}

/// Read one segmentation feature: whether it is enabled, and its value.
fn read_feature(r: &mut BitReader<'_>, j: usize) -> (feature: (u8, i16))
    requires
        j < SEG_LVL_MAX,
        old(r)@.pos + 10 <= u128::MAX,
    ensures
        feature.0 == old(r)@.flag(),
        feature.1 == feature_value(old(r)@, j as nat),
        final(r)@ == after_feature(old(r)@, j as nat),
        final(r)@.pos <= old(r)@.pos + 10,
{
    proof {
        crate::bits::lemma_small_powers();
        assert(crate::bits::two_to(0) == 1);
    }
    let enabled: u8 = r.flag();
    if enabled == 0 {
        return (enabled, 0);
    }
    if j == 0 {
        (enabled, r.s(8) as i16)
    } else if j == 1 {
        (enabled, r.s(6) as i16)
    } else if j == 2 {
        (enabled, r.u(2) as i16)
    } else {
        (enabled, r.u(0) as i16)
    }
}

/// Read the four features of a segment.
fn read_segment(r: &mut BitReader<'_>, Ghost(c): Ghost<Cursor>, Ghost(i): Ghost<nat>) -> (segment: (
    [u8; 4],
    [i16; 4],
))
    requires
        old(r)@ == feature_at(c, 4 * i),
        old(r)@.pos + 40 <= u128::MAX,
    ensures
        forall|j: int|
            0 <= j < 4 ==> #[trigger] segment.0[j] == feature_at(c, (4 * i + j) as nat).flag(),
        forall|j: int|
            0 <= j < 4 ==> #[trigger] segment.1[j] == feature_value(
                feature_at(c, (4 * i + j) as nat),
                j as nat,
            ),
        final(r)@ == feature_at(c, 4 * i + 4),
        final(r)@.pos <= old(r)@.pos + 40,
{
    let ghost start = r@.pos;
    let mut enable: [u8; 4] = [0; 4];
    let mut data: [i16; 4] = [0; 4];
    let mut j: usize = 0;
    while j < SEG_LVL_MAX
        invariant
            j <= 4,
            start + 40 <= u128::MAX,
            r@ == feature_at(c, (4 * i + j) as nat),
            r@.pos <= start + 10 * j,
            forall|l: int|
                0 <= l < j ==> #[trigger] enable[l] == feature_at(c, (4 * i + l) as nat).flag(),
            forall|l: int|
                0 <= l < j ==> #[trigger] data[l] == feature_value(
                    feature_at(c, (4 * i + l) as nat),
                    l as nat,
                ),
        decreases 4 - j,
    {
        assert((4 * i + j) % 4 == j);
        let feature: (u8, i16) = read_feature(r, j);
        enable[j] = feature.0;
        data[j] = feature.1;
        j = j + 1;
    }
    (enable, data)
}

/// Read `segmentation_params()`.
#[verifier::rlimit(40)]
pub fn read_segmentation_params(r: &mut BitReader<'_>) -> (seg: Segmentation)
    requires
        old(r)@.pos + 420 <= u128::MAX,
    ensures
        segmentation_at(seg, old(r)@),
        final(r)@ == after_segmentation(old(r)@),
        final(r)@.pos <= old(r)@.pos + 420,
{
    let ghost c = r@;
    let enabled: u8 = r.flag();
    let mut update_map: u8 = 0;
    let mut temporal_update: u8 = 0;
    let mut update_data: u8 = 0;
    let mut abs_or_delta_update: u8 = 0;
    let mut feature_enable: [[u8; 4]; 8] = [[0; 4]; 8];
    let mut feature_data: [[i16; 4]; 8] = [[0; 4]; 8];
    let mut tree_probs: [u8; 7] = [0; 7];
    let mut pred_probs: [u8; 3] = [0; 3];
    if enabled != 0 {
        update_map = r.flag();
        if update_map != 0 {
            let ghost d = c.skip(2);
            let mut i: usize = 0;
            while i < 7
                invariant
                    i <= 7,
                    d.pos + 63 <= u128::MAX,
                    r@ == after_probs(d, i as nat),
                    r@.pos <= d.pos + 9 * i,
                    forall|j: int| 0 <= j < i ==> #[trigger] tree_probs[j] == prob(d, j as nat),
                decreases 7 - i,
            {
                let p: u8 = read_prob(r, Ghost(d), Ghost(i as nat));
                tree_probs[i] = p;
                i = i + 1;
            }
            temporal_update = r.flag();
            if temporal_update != 0 {
                let ghost d = r@;
                let mut i: usize = 0;
                while i < 3
                    invariant
                        i <= 3,
                        d.pos + 27 <= u128::MAX,
                        r@ == after_probs(d, i as nat),
                        r@.pos <= d.pos + 9 * i,
                        forall|j: int| 0 <= j < i ==> #[trigger] pred_probs[j] == prob(d, j as nat),
                    decreases 3 - i,
                {
                    let p: u8 = read_prob(r, Ghost(d), Ghost(i as nat));
                    pred_probs[i] = p;
                    i = i + 1;
                }
            } else {
                pred_probs = [255; 3];
            }
        }
        assert(r@ == update_data_at(c));
        update_data = r.flag();
        if update_data != 0 {
            abs_or_delta_update = r.flag();
            let ghost d = r@;
            let mut i: usize = 0;
            while i < 8
                invariant
                    i <= 8,
                    d.pos + 320 <= u128::MAX,
                    r@ == feature_at(d, (4 * i) as nat),
                    r@.pos <= d.pos + 40 * i,
                    forall|k: int, j: int|
                        0 <= k < i && 0 <= j < 4 ==> #[trigger] feature_enable[k][j] == feature_at(
                            d,
                            (4 * k + j) as nat,
                        ).flag(),
                    forall|k: int, j: int|
                        0 <= k < i && 0 <= j < 4 ==> #[trigger] feature_data[k][j]
                            == feature_value(feature_at(d, (4 * k + j) as nat), j as nat),
                decreases 8 - i,
            {
                let segment: ([u8; 4], [i16; 4]) = read_segment(r, Ghost(d), Ghost(i as nat));
                feature_enable[i] = segment.0;
                feature_data[i] = segment.1;
                i = i + 1;
            }
        }
    }
    Segmentation {
        enabled,
        update_map,
        temporal_update,
        update_data,
        abs_or_delta_update,
        feature_enable,
        feature_data,
        tree_probs,
        pred_probs,
    }
}

/// The number of 64-pixel columns in a frame of the given width.
pub open spec fn sb64_cols(width: nat) -> nat {
    ((width + 7) / 8 + 7) / 8
}

/// The least number of halvings, rounding up, that bring `cols` to at most
/// 64.
pub open spec fn min_log2_tile_cols(cols: nat) -> nat
    decreases cols,
{
    if cols <= 64 {
        0
    } else {
        1 + min_log2_tile_cols((cols + 1) / 2)
    }
}

/// The number of halvings, rounding down, after which one more would leave
/// fewer than 4.
pub open spec fn max_log2_tile_cols(cols: nat) -> nat
    decreases cols,
{
    if cols < 8 {
        0
    } else {
        1 + max_log2_tile_cols(cols / 2)
    }
}

/// The least logarithm of the number of tile columns: tiles may be at most 64
/// columns wide.
pub fn calc_min_log2_tile_cols(sb64_cols: u32) -> (min: u32)
    ensures
        min == min_log2_tile_cols(sb64_cols as nat),
        min <= 26,
        sb64_cols <= 64 * crate::bits::two_to(min as nat),
        min > 0 ==> 64 * crate::bits::two_to((min - 1) as nat) < sb64_cols,
{
    let mut min: u32 = 0;
    let mut rest: u32 = sb64_cols;
    proof {
        assert(crate::bits::two_to(0) == 1);
        reveal_with_fuel(crate::bits::two_to, 27);
    }
    while rest > 64
        invariant
            min + min_log2_tile_cols(rest as nat) == min_log2_tile_cols(sb64_cols as nat),
            sb64_cols <= rest * crate::bits::two_to(min as nat),
            (rest - 1) * crate::bits::two_to(min as nat) < sb64_cols,
            min > 0 ==> rest > 32,
            min > 0 ==> 64 * crate::bits::two_to((min - 1) as nat) < sb64_cols,
            min <= 26,
            crate::bits::two_to(26) == 0x400_0000,
        decreases rest,
    {
        let ghost t = crate::bits::two_to(min as nat);
        let half: u32 = rest / 2 + rest % 2;
        proof {
            crate::bits::lemma_two_to_monotone(min as nat, min as nat);
            assert(crate::bits::two_to((min + 1) as nat) == 2 * t);
            assert(half == (rest + 1) / 2);
            assert(rest * t <= half * (2 * t)) by (nonlinear_arith)
                requires
                    rest <= 2 * half,
                    t >= 1,
            ;
            assert((half - 1) * (2 * t) <= (rest - 1) * t) by (nonlinear_arith)
                requires
                    2 * (half - 1) <= rest - 1,
                    t >= 1,
            ;
            assert(64 * t <= (rest - 1) * t) by (nonlinear_arith)
                requires
                    rest >= 65,
                    t >= 1,
            ;
            if min == 26 {
                assert(64 * t > u32::MAX);
            }
        }
        rest = half;
        min = min + 1;
    }
    proof {
        let t = crate::bits::two_to(min as nat);
        assert(rest * t <= 64 * t) by (nonlinear_arith)
            requires
                rest <= 64,
                t >= 0,
        ;
    }
    min
}

/// The greatest logarithm of the number of tile columns: tiles have to be at
/// least 4 columns wide.
pub fn calc_max_log2_tile_cols(sb64_cols: u32) -> (max: u32)
    ensures
        max == max_log2_tile_cols(sb64_cols as nat),
        max <= 29,
        sb64_cols < 8 * crate::bits::two_to(max as nat),
        max > 0 ==> 4 * crate::bits::two_to(max as nat) <= sb64_cols,
{
    let mut max: u32 = 0;
    let mut rest: u32 = sb64_cols;
    proof {
        assert(crate::bits::two_to(0) == 1);
        reveal_with_fuel(crate::bits::two_to, 31);
    }
    while rest >= 8
        invariant
            max + max_log2_tile_cols(rest as nat) == max_log2_tile_cols(sb64_cols as nat),
            rest * crate::bits::two_to(max as nat) <= sb64_cols,
            sb64_cols < (rest + 1) * crate::bits::two_to(max as nat),
            max > 0 ==> rest >= 4,
            max <= 29,
            crate::bits::two_to(29) == 0x2000_0000,
        decreases rest,
    {
        let ghost t = crate::bits::two_to(max as nat);
        let half: u32 = rest / 2;
        proof {
            crate::bits::lemma_two_to_monotone(max as nat, max as nat);
            assert(crate::bits::two_to((max + 1) as nat) == 2 * t);
            assert(half * (2 * t) <= rest * t) by (nonlinear_arith)
                requires
                    2 * half <= rest,
                    t >= 1,
            ;
            assert((rest + 1) * t <= (half + 1) * (2 * t)) by (nonlinear_arith)
                requires
                    rest + 1 <= 2 * (half + 1),
                    t >= 1,
            ;
            assert(8 * t <= rest * t) by (nonlinear_arith)
                requires
                    rest >= 8,
                    t >= 1,
            ;
            if max == 29 {
                assert(8 * t > u32::MAX);
            }
        }
        rest = half;
        max = max + 1;
    }
    proof {
        let t = crate::bits::two_to(max as nat);
        crate::bits::lemma_two_to_monotone(max as nat, max as nat);
        assert((rest + 1) * t <= 8 * t) by (nonlinear_arith)
            requires
                rest + 1 <= 8,
                t >= 1,
        ;
        if max > 0 {
            assert(4 * t <= rest * t) by (nonlinear_arith)
                requires
                    rest >= 4,
                    t >= 1,
            ;
        }
    }
    max
}

/// The number of one bits at `c`, up to `limit`.
pub open spec fn ones(c: Cursor, limit: nat) -> nat
    decreases limit,
{
    if limit == 0 || c.flag() == 0 {
        0
    } else {
        1 + ones(c.skip(1), (limit - 1) as nat)
    }
}

/// The place behind an increment code: one bits, ended by a zero bit unless
/// there are `limit` of them.
pub open spec fn after_ones(c: Cursor, limit: nat) -> Cursor
    decreases limit,
{
    if limit == 0 {
        c
    } else if c.flag() == 0 {
        c.skip(1)
    } else {
        after_ones(c.skip(1), (limit - 1) as nat)
    }
}

/// How many increments of the column logarithm a frame of this width allows.
pub open spec fn tile_col_steps(width: nat) -> nat {
    let cols = sb64_cols(width);
    if max_log2_tile_cols(cols) > min_log2_tile_cols(cols) {
        (max_log2_tile_cols(cols) - min_log2_tile_cols(cols)) as nat
    } else {
        0
    }
}

/// The logarithm of the number of tile columns in `tile_info()`.
pub open spec fn log2_tile_cols(c: Cursor, width: nat) -> nat {
    min_log2_tile_cols(sb64_cols(width)) + ones(c, tile_col_steps(width))
}

/// The logarithm of the number of tile rows in `tile_info()`.
pub open spec fn log2_tile_rows(c: Cursor, width: nat) -> nat {
    let d = after_ones(c, tile_col_steps(width));
    if d.flag() == 0 {
        0
    } else if d.skip(1).flag() == 0 {
        1
    } else {
        2
    }
}

/// The place behind `tile_info()`.
pub open spec fn after_tile_info(c: Cursor, width: nat) -> Cursor {
    let d = after_ones(c, tile_col_steps(width));
    if d.flag() == 0 {
        d.skip(1)
    } else {
        d.skip(2)
    }
}

/// Read `tile_info()` of a frame of the given width. Returns the logarithms of
/// the numbers of tile columns and rows.
pub fn read_tile_info(r: &mut BitReader<'_>, width: u32) -> (tiles: (u8, u8))
    requires
        width <= u32::MAX - 7,
        old(r)@.pos + 40 <= u128::MAX,
    ensures
        tiles.0 == log2_tile_cols(old(r)@, width as nat),
        tiles.1 == log2_tile_rows(old(r)@, width as nat),
        min_log2_tile_cols(sb64_cols(width as nat)) <= tiles.0 <= max_log2_tile_cols(
            sb64_cols(width as nat),
        ),
        tiles.1 <= 2,
        final(r)@ == after_tile_info(old(r)@, width as nat),
        final(r)@.pos <= old(r)@.pos + 40,
{
    let ghost c = r@;
    proof {
        law_tile_logarithms_in_range(c, width as nat);
    }
    let mi_cols: u32 = (width + 7) / 8;
    let cols: u32 = (mi_cols + 7) / 8;
    let min_log2: u32 = calc_min_log2_tile_cols(cols);
    let max_log2: u32 = calc_max_log2_tile_cols(cols);
    let ghost limit = tile_col_steps(width as nat);
    let mut log2_cols: u32 = min_log2;
    let mut more: bool = true;
    while more && log2_cols < max_log2
        invariant
            min_log2 <= 26,
            max_log2 <= 29,
            c.pos + 40 <= u128::MAX,
            min_log2 <= log2_cols,
            log2_cols <= min_log2 || log2_cols <= max_log2,
            limit == (if max_log2 > min_log2 {
                max_log2 - min_log2
            } else {
                0
            }),
            r@.pos <= c.pos + (log2_cols - min_log2) + (if more {
                0int
            } else {
                1int
            }),
            more ==> {
                let left = (limit - (log2_cols - min_log2)) as nat;
                &&& log2_cols - min_log2 <= limit
                &&& ones(c, limit) == (log2_cols - min_log2) + ones(r@, left)
                &&& after_ones(c, limit) == after_ones(r@, left)
            },
            !more ==> {
                &&& ones(c, limit) == log2_cols - min_log2
                &&& after_ones(c, limit) == r@
            },
        decreases max_log2 - log2_cols, (if more {
            1int
        } else {
            0int
        }),
    {
        let increment: u8 = r.flag();
        if increment == 0 {
            more = false;
        } else {
            log2_cols = log2_cols + 1;
        }
    }
    let log2_rows: u8 = if r.flag() != 0 {
        if r.flag() != 0 {
            2
        } else {
            1
        }
    } else {
        0
    };
    (log2_cols as u8, log2_rows)
}

/// The logarithm of the number of tile columns lies between the least and the
/// greatest one that the width allows, and that of the tile rows is at most 2,
/// whatever the stream says.
pub proof fn law_tile_logarithms_in_range(c: Cursor, width: nat)
    ensures
        min_log2_tile_cols(sb64_cols(width)) <= log2_tile_cols(c, width) <= max_log2_tile_cols(
            sb64_cols(width),
        ),
        log2_tile_rows(c, width) <= 2,
{
    lemma_min_below_max(sb64_cols(width));
    lemma_ones_bound(c, tile_col_steps(width));
}

proof fn lemma_min_below_max(cols: nat)
    ensures
        min_log2_tile_cols(cols) <= max_log2_tile_cols(cols),
        min_log2_tile_cols(cols + 1) <= max_log2_tile_cols(cols),
    decreases cols,
{
    if cols >= 64 {
        lemma_min_below_max(cols / 2);
        assert((cols + 1 + 1) / 2 == cols / 2 + 1);
        assert((cols + 1) / 2 == cols / 2 || (cols + 1) / 2 == cols / 2 + 1);
    }
}

proof fn lemma_ones_bound(c: Cursor, limit: nat)
    ensures
        ones(c, limit) <= limit,
    decreases limit,
{
    if limit > 0 {
        lemma_ones_bound(c.skip(1), (limit - 1) as nat);
    }
}

/// The profile number in the header of `data`.
pub open spec fn profile_of(data: Seq<u8>) -> u8 {
    let c = Cursor::start(data);
    (2 * c.skip(3).flag() + c.skip(2).flag()) as u8
}

/// Where the flag for showing an existing frame stands: behind the marker and
/// the profile, which profile 3 follows with a reserved bit.
pub open spec fn show_existing_at(data: Seq<u8>) -> Cursor {
    if profile_of(data) == 3 {
        Cursor::start(data).skip(5)
    } else {
        Cursor::start(data).skip(4)
    }
}

/// The error that stands against reading the header of a keyframe in `data`.
pub open spec fn header_error(data: Seq<u8>) -> Option<Failure> {
    let marker = Cursor::start(data).u(2);
    let c = show_existing_at(data);
    let sync = c.skip(4).u(24);
    if data.len() < 8 {
        Some(crate::device::failure("VP9 frame shorter than 8 bytes"@))
    } else if marker != 2 {
        Some(
            crate::device::failure(
                "VP9 frame_marker "@ + crate::text::decimal(marker) + " != 2"@,
            ),
        )
    } else if c.flag() == 1 {
        Some(
            crate::device::failure(
                "VP9: show_existing_frame=1 not supported in single-keyframe path"@,
            ),
        )
    } else if c.skip(1).flag() != KEY_FRAME {
        Some(
            crate::device::failure("VP9: only KEY_FRAME supported in single-keyframe path"@),
        )
    } else if sync != VP9_SYNC_CODE {
        Some(
            crate::device::failure(
                "VP9 frame_sync_code mismatch: 0x"@ + crate::text::hexadecimal(sync, 6)
                    + " != 0x498342"@,
            ),
        )
    } else {
        None
    }
}

/// Where the parts of a keyframe's header stand.
pub open spec fn color_config_at(data: Seq<u8>) -> Cursor {
    show_existing_at(data).skip(28)
}

pub open spec fn frame_size_at(data: Seq<u8>) -> Cursor {
    after_color_config(color_config_at(data), profile_of(data))
}

pub open spec fn loop_filter_params_at(data: Seq<u8>) -> Cursor {
    after_frame_size(frame_size_at(data))
}

pub open spec fn quantization_params_at(data: Seq<u8>) -> Cursor {
    after_loop_filter(loop_filter_params_at(data))
}

pub open spec fn segmentation_params_at(data: Seq<u8>) -> Cursor {
    after_quantization(quantization_params_at(data))
}

pub open spec fn tile_info_at(data: Seq<u8>) -> Cursor {
    after_segmentation(segmentation_params_at(data))
}

pub open spec fn first_partition_size_at(data: Seq<u8>) -> Cursor {
    after_tile_info(tile_info_at(data), frame_size_at(data).u(16) + 1)
}

/// The loop filter fields of a header.
pub open spec fn loop_filter_of(h: Vp9UncompressedHeader) -> LoopFilter {
    LoopFilter {
        level: h.loop_filter_level,
        sharpness: h.loop_filter_sharpness,
        mode_ref_delta_enabled: h.loop_filter_mode_ref_delta_enabled,
        ref_deltas: h.loop_filter_ref_deltas,
        mode_deltas: h.loop_filter_mode_deltas,
    }
}

/// The segmentation fields of a header.
pub open spec fn segmentation_of(h: Vp9UncompressedHeader) -> Segmentation {
    Segmentation {
        enabled: h.segmentation_enabled,
        update_map: h.segmentation_update_map,
        temporal_update: h.segmentation_temporal_update,
        update_data: h.segmentation_update_data,
        abs_or_delta_update: h.segmentation_abs_or_delta_update,
        feature_enable: h.segment_feature_enable,
        feature_data: h.segment_feature_data,
        tree_probs: h.mb_segment_tree_probs,
        pred_probs: h.segment_pred_probs,
    }
}

/// True if `h` is the header of the keyframe in `data`.
pub open spec fn header_of(h: Vp9UncompressedHeader, data: Seq<u8>) -> bool {
    let c = show_existing_at(data);
    let color = color_config(color_config_at(data), profile_of(data));
    let size = frame_size_at(data);
    let q = quantization(quantization_params_at(data));
    let width = size.u(16) + 1;
    let partition = first_partition_size_at(data);
    &&& h.profile == profile_of(data)
    &&& h.show_existing_frame == 0
    &&& h.frame_type == KEY_FRAME
    &&& h.show_frame == c.skip(2).flag()
    &&& h.error_resilient_mode == c.skip(3).flag()
    &&& h.bit_depth == color.bit_depth
    &&& h.color_space == color.color_space
    &&& h.color_range == color.color_range
    &&& h.subsampling_x == color.subsampling_x
    &&& h.subsampling_y == color.subsampling_y
    &&& h.width == width
    &&& h.height == size.skip(16).u(16) + 1
    &&& h.intra_only == 0
    &&& h.reset_frame_context == 0
    &&& h.refresh_frame_flags == 0xff
    &&& h.allow_high_precision_mv == 0
    &&& h.interpolation_filter == 0
    &&& h.refresh_frame_context == 1
    &&& h.frame_parallel_decoding_mode == 0
    &&& h.frame_context_idx == 0
    &&& loop_filter_at(loop_filter_of(h), loop_filter_params_at(data))
    &&& h.base_q_idx == q.base_q_idx
    &&& h.delta_q_y_dc == q.delta_q_y_dc
    &&& h.delta_q_uv_dc == q.delta_q_uv_dc
    &&& h.delta_q_uv_ac == q.delta_q_uv_ac
    &&& segmentation_at(segmentation_of(h), segmentation_params_at(data))
    &&& h.log2_tile_cols == log2_tile_cols(tile_info_at(data), width)
    &&& h.log2_tile_rows == log2_tile_rows(tile_info_at(data), width)
    &&& h.uncompressed_header_size == partition.skip(16).bytes_begun()
    &&& h.compressed_header_size == partition.u(16)
    &&& forall|i: int| 0 <= i < 3 ==> #[trigger] h.ref_frame_idx[i] == 0
    &&& forall|i: int| 0 <= i < 4 ==> #[trigger] h.ref_frame_sign_bias[i] == 0
}

/// True if the quantizer fields are in the range that the syntax allows.
pub open spec fn quantizers_in_range(h: Vp9UncompressedHeader) -> bool {
    &&& 0 <= h.base_q_idx <= 255
    &&& -15 <= h.delta_q_y_dc <= 15
    &&& -15 <= h.delta_q_uv_dc <= 15
    &&& -15 <= h.delta_q_uv_ac <= 15
}

/// Parse the uncompressed header of a keyframe.
#[verifier::rlimit(50)]
pub fn parse_uncompressed_header(payload: &[u8]) -> (res: Result<Vp9UncompressedHeader, VdpError>)
    ensures
        match header_error(payload@) {
            Some(f) => res matches Err(e) && e@ == f,
            None => res matches Ok(h) && header_of(h, payload@) && quantizers_in_range(h),
        },
{
    if payload.len() < 8 {
        return Err(VdpError::other("VP9 frame shorter than 8 bytes".to_owned()));
    }
    proof {
        crate::bits::lemma_small_powers();
    }
    let mut r: BitReader<'_> = BitReader::new(payload);
    let frame_marker: u32 = r.u(2);
    if frame_marker != 2 {
        return Err(
            VdpError::other(
                "VP9 frame_marker ".to_owned().concat(
                    decimal_text(frame_marker as u64).as_str(),
                ).concat(" != 2"),
            ),
        );
    }
    let profile_low: u8 = r.flag();
    let profile_high: u8 = r.flag();
    let profile: u8 = 2 * profile_high + profile_low;
    if profile == 3 {
        r.skip(1);
    }
    let show_existing_frame: u8 = r.flag();
    if show_existing_frame != 0 {
        return Err(
            VdpError::other(
                "VP9: show_existing_frame=1 not supported in single-keyframe path".to_owned(),
            ),
        );
    }
    let frame_type: u8 = r.flag();
    let show_frame: u8 = r.flag();
    let error_resilient_mode: u8 = r.flag();
    if frame_type != KEY_FRAME {
        return Err(
            VdpError::other("VP9: only KEY_FRAME supported in single-keyframe path".to_owned()),
        );
    }
    let sync: u32 = r.u(24);
    if sync != VP9_SYNC_CODE {
        return Err(
            VdpError::other(
                "VP9 frame_sync_code mismatch: 0x".to_owned().concat(
                    hexadecimal_text(sync, 6).as_str(),
                ).concat(" != 0x498342"),
            ),
        );
    }
    assert(r@ == color_config_at(payload@));
    let color: ColorConfig = read_color_config(&mut r, profile);
    let size: (u32, u32) = read_frame_size(&mut r);
    let lf: LoopFilter = read_loop_filter_params(&mut r);
    let q: Quantization = read_quantization_params(&mut r);
    let seg: Segmentation = read_segmentation_params(&mut r);
    assert(r@ == tile_info_at(payload@));
    let tiles: (u8, u8) = read_tile_info(&mut r, size.0);
    let first_partition_size: u32 = r.u(16);
    let uncompressed_header_size: u32 = r.byte_offset() as u32;
    let h: Vp9UncompressedHeader = Vp9UncompressedHeader {
        profile,
        show_existing_frame,
        frame_type,
        show_frame,
        error_resilient_mode,
        bit_depth: color.bit_depth,
        color_space: color.color_space,
        color_range: color.color_range,
        subsampling_x: color.subsampling_x,
        subsampling_y: color.subsampling_y,
        width: size.0,
        height: size.1,
        intra_only: 0,
        reset_frame_context: 0,
        refresh_frame_flags: 0xff,
        allow_high_precision_mv: 0,
        interpolation_filter: 0,
        refresh_frame_context: 1,
        frame_parallel_decoding_mode: 0,
        frame_context_idx: 0,
        loop_filter_level: lf.level,
        loop_filter_sharpness: lf.sharpness,
        loop_filter_mode_ref_delta_enabled: lf.mode_ref_delta_enabled,
        loop_filter_ref_deltas: lf.ref_deltas,
        loop_filter_mode_deltas: lf.mode_deltas,
        base_q_idx: q.base_q_idx,
        delta_q_y_dc: q.delta_q_y_dc,
        delta_q_uv_dc: q.delta_q_uv_dc,
        delta_q_uv_ac: q.delta_q_uv_ac,
        segmentation_enabled: seg.enabled,
        segmentation_update_map: seg.update_map,
        segmentation_temporal_update: seg.temporal_update,
        segmentation_update_data: seg.update_data,
        segmentation_abs_or_delta_update: seg.abs_or_delta_update,
        segment_feature_enable: seg.feature_enable,
        segment_feature_data: seg.feature_data,
        mb_segment_tree_probs: seg.tree_probs,
        segment_pred_probs: seg.pred_probs,
        log2_tile_cols: tiles.0,
        log2_tile_rows: tiles.1,
        uncompressed_header_size,
        compressed_header_size: first_partition_size,
        ref_frame_idx: [0; 3],
        ref_frame_sign_bias: [0; 4],
    };
    assert(loop_filter_of(h) == lf);
    assert(segmentation_of(h) == seg);
    Ok(h)
}

// The keyframe.

/// The error that stands against taking the first frame out of an IVF file.
pub open spec fn first_frame_error(ivf: Seq<u8>) -> Option<Failure> {
    match ivf_error(ivf) {
        Some(f) => Some(f),
        None => if ivf.len() == 32 {
            Some(crate::device::failure("IVF has no frames"@))
        } else {
            ivf_frame_error(ivf.skip(32))
        },
    }
}

/// The payload of the first frame of an IVF file.
pub open spec fn first_payload(ivf: Seq<u8>) -> Seq<u8> {
    ivf_payload(ivf.skip(32))
}

/// Where the payload of the first frame starts: behind the file header and
/// the frame header.
pub const FIRST_PAYLOAD_OFFSET: usize = 44;

/// The payload of the first frame of an IVF file.
fn first_frame(ivf: &[u8]) -> (res: Result<&[u8], VdpError>)
    ensures
        match first_frame_error(ivf@) {
            Some(f) => res matches Err(e) && e@ == f,
            None => res matches Ok(payload) && payload@ == first_payload(ivf@),
        },
{
    let body: &[u8] = match parse_ivf(ivf) {
        Ok((_, body)) => body,
        Err(e) => {
            return Err(e);
        },
    };
    match parse_ivf_frame(body) {
        Ok(Some((frame, _))) => Ok(frame.payload),
        Ok(None) => Err(VdpError::other("IVF has no frames".to_owned())),
        Err(e) => Err(e),
    }
}

/// The error that stands against making a decoder for the first frame of an
/// IVF file.
pub open spec fn decoder_error(ivf: Seq<u8>) -> Option<Failure> {
    match first_frame_error(ivf) {
        Some(f) => Some(f),
        None => match header_error(first_payload(ivf)) {
            Some(f) => Some(f),
            None => if profile_of(first_payload(ivf)) != 0 {
                Some(
                    crate::device::failure(
                        "VP9 profile "@ + crate::text::decimal(
                            profile_of(first_payload(ivf)) as nat,
                        ) + " not supported (only profile 0)"@,
                    ),
                )
            } else {
                None
            },
        },
    }
}

/// `q` brought into the range of a quantizer index.
pub open spec fn clamped(q: int) -> int {
    if q < 0 {
        0
    } else if q > 255 {
        255
    } else {
        q
    }
}

/// Bring `q` into the range of a quantizer index.
fn clamp_q(q: i32) -> (c: i32)
    ensures
        c == clamped(q as int),
{
    if q < 0 {
        0
    } else if q > 255 {
        255
    } else {
        q
    }
}

/// True if `info` describes a keyframe with header `h` to the driver: no
/// references, quantizer indices with their deltas applied and clamped, and
/// signed loop filter deltas as 32-bit words.
pub open spec fn describes(info: VdpPictureInfoVP9, h: Vp9UncompressedHeader) -> bool {
    &&& info.width == h.width
    &&& info.height == h.height
    &&& info.last_reference == VDP_INVALID_HANDLE
    &&& info.golden_reference == VDP_INVALID_HANDLE
    &&& info.alt_reference == VDP_INVALID_HANDLE
    &&& info.color_space == h.color_space
    &&& info.profile == h.profile as u16
    &&& info.frame_context_idx == h.frame_context_idx as u16
    &&& info.key_frame == 1
    &&& info.show_frame == h.show_frame as u16
    &&& info.error_resilient == h.error_resilient_mode as u16
    &&& info.frame_parallel_decoding == h.frame_parallel_decoding_mode as u16
    &&& info.sub_sampling_x == h.subsampling_x as u16
    &&& info.sub_sampling_y == h.subsampling_y as u16
    &&& info.intra_only == h.intra_only as u16
    &&& info.allow_high_precision_mv == h.allow_high_precision_mv as u16
    &&& info.refresh_entropy_probs == h.refresh_frame_context as u16
    &&& info.ref_frame_sign_bias == h.ref_frame_sign_bias
    &&& info.bit_depth_minus8_luma == (if h.bit_depth > 8 {
        h.bit_depth - 8
    } else {
        0
    })
    &&& info.bit_depth_minus8_chroma == (if h.bit_depth > 8 {
        h.bit_depth - 8
    } else {
        0
    })
    &&& info.loop_filter_level == h.loop_filter_level
    &&& info.loop_filter_sharpness == h.loop_filter_sharpness
    &&& info.mode_ref_lf_enabled == h.loop_filter_mode_ref_delta_enabled
    &&& info.log2_tile_columns == h.log2_tile_cols
    &&& info.log2_tile_rows == h.log2_tile_rows
    &&& info.segment_enabled == h.segmentation_enabled
    &&& info.segment_map_update == h.segmentation_update_map
    &&& info.segment_map_temporal_update == h.segmentation_temporal_update
    &&& info.segment_feature_mode == h.segmentation_abs_or_delta_update
    &&& info.segment_feature_enable == h.segment_feature_enable
    &&& info.segment_feature_data == h.segment_feature_data
    &&& info.mb_segment_tree_probs == h.mb_segment_tree_probs
    &&& info.segment_pred_probs == h.segment_pred_probs
    &&& forall|i: int| 0 <= i < 2 ==> #[trigger] info.reserved_segment_16_bits[i] == 0
    &&& info.qp_y_ac == h.base_q_idx
    &&& info.qp_y_dc == clamped(h.base_q_idx + h.delta_q_y_dc)
    &&& info.qp_ch_dc == clamped(h.base_q_idx + h.delta_q_uv_dc)
    &&& info.qp_ch_ac == clamped(h.base_q_idx + h.delta_q_uv_ac)
    &&& forall|i: int| 0 <= i < 3 ==> #[trigger] info.active_ref_idx[i] == 0
    &&& info.reset_frame_context == h.reset_frame_context as u32
    &&& info.mcomp_filter_type == h.interpolation_filter as u32
    &&& forall|i: int|
        0 <= i < 4 ==> #[trigger] info.mb_ref_lf_delta[i] == h.loop_filter_ref_deltas[i] as u32
    &&& forall|i: int|
        0 <= i < 2 ==> #[trigger] info.mb_mode_lf_delta[i] == h.loop_filter_mode_deltas[i] as u32
    &&& info.uncompressed_header_size == h.uncompressed_header_size
    &&& info.compressed_header_size == h.compressed_header_size
}

/// The driver decoder that a frame with header `h` needs.
pub open spec fn request_for(h: Vp9UncompressedHeader) -> DecoderRequest {
    DecoderRequest {
        profile: VDP_DECODER_PROFILE_VP9_PROFILE_0,
        width: h.width,
        height: h.height,
        max_references: 8,
    }
}

/// True if `action` is the right answer to `event` while the first frame of
/// `ivf` is decoded.
pub open spec fn decode_step(
    h: Vp9UncompressedHeader,
    ivf: Seq<u8>,
    event: DecodeEvent,
    action: DecodeAction<VdpPictureInfoVP9>,
) -> bool {
    match event {
        DecodeEvent::Started => match first_frame_error(ivf) {
            Some(f) => action.fails(f),
            None => action.creates_surface(h.width, h.height),
        },
        DecodeEvent::SurfaceCreated(Err(e)) => action.fails(e@),
        DecodeEvent::SurfaceCreated(Ok(_)) => match first_frame_error(ivf) {
            Some(f) => action.fails(f),
            None => {
                &&& action.renders(FIRST_PAYLOAD_OFFSET as int, first_payload(ivf).len())
                &&& action matches DecodeAction::Render { picture_info, .. } && describes(
                    picture_info,
                    h,
                )
            },
        },
        DecodeEvent::Rendered(result) => action.follows_render(result, h.width, h.height),
        DecodeEvent::BitsRead(result) => action.follows_read(result, h.width, h.height),
    }
}

/// Decoder for the first frame of an IVF file, which has to be a keyframe of
/// profile 0.
#[derive(Debug)]
pub struct Vp9VdpauDecoder {
    header: Vp9UncompressedHeader,
}

impl View for Vp9VdpauDecoder {
    type V = Vp9UncompressedHeader;

    closed spec fn view(&self) -> Vp9UncompressedHeader {
        self.header
    }
}

impl Vp9VdpauDecoder {
    #[verifier::type_invariant]
    spec fn well_formed(self) -> bool {
        quantizers_in_range(self.header)
    }

    /// Read the header of the first frame of an IVF file. The driver decoder
    /// that goes with it is described by [`Vp9VdpauDecoder::decoder_request`].
    pub fn new(ivf: &[u8]) -> (res: Result<Vp9VdpauDecoder, VdpError>)
        ensures
            match decoder_error(ivf@) {
                Some(f) => res matches Err(e) && e@ == f,
                None => res matches Ok(d) && header_of(d@, first_payload(ivf@)),
            },
    {
        let payload: &[u8] = match first_frame(ivf) {
            Ok(payload) => payload,
            Err(e) => {
                return Err(e);
            },
        };
        let header: Vp9UncompressedHeader = match parse_uncompressed_header(payload) {
            Ok(header) => header,
            Err(e) => {
                return Err(e);
            },
        };
        if header.profile != 0 {
            return Err(
                VdpError::other(
                    "VP9 profile ".to_owned().concat(
                        decimal_text(header.profile as u64).as_str(),
                    ).concat(" not supported (only profile 0)"),
                ),
            );
        }
        Ok(Vp9VdpauDecoder { header })
    }

    /// As [`Vp9VdpauDecoder::new`], for the device that is asked for. The request is
    /// checked against the devices of the host before anything is read.
    pub fn with_params(
        device_index: Option<u32>,
        devices: &Vec<HwDeviceInfo>,
        ivf: &[u8],
    ) -> (res: Result<Vp9VdpauDecoder, VdpError>)
        ensures
            match crate::engine::request_error(device_index, devices@.len()) {
                Some(f) => res matches Err(e) && e@ == f,
                None => match decoder_error(ivf@) {
                    Some(f) => res matches Err(e) && e@ == f,
                    None => res matches Ok(d) && header_of(d@, first_payload(ivf@)),
                },
            },
    {
        match validate_request(device_index, devices) {
            Ok(_) => Vp9VdpauDecoder::new(ivf),
            Err(e) => Err(e),
        }
    }

    /// The driver decoder that this frame needs.
    pub fn decoder_request(&self) -> (request: DecoderRequest)
        ensures
            request == request_for(self@),
            request.profile == VDP_DECODER_PROFILE_VP9_PROFILE_0,
            request.width == self@.width,
            request.height == self@.height,
            request.max_references == 8,
    {
        DecoderRequest {
            profile: VDP_DECODER_PROFILE_VP9_PROFILE_0,
            width: self.header.width,
            height: self.header.height,
            max_references: 8,
        }
    }

    /// Frame width.
    pub fn width(&self) -> (w: u32)
        ensures
            w == self@.width,
    {
        self.header.width
    }

    /// Frame height.
    pub fn height(&self) -> (h: u32)
        ensures
            h == self@.height,
    {
        self.header.height
    }

    /// One step of decoding the first frame of `ivf`: what is to be done after
    /// `event`. The driver gets the whole frame payload.
    pub fn decode_keyframe(&self, ivf: &[u8], event: DecodeEvent) -> (action: DecodeAction<
        VdpPictureInfoVP9,
    >)
        requires
            event.fits(self@.width, self@.height),
        ensures
            decode_step(self@, ivf@, event, action),
    {
        match event {
            DecodeEvent::Started => match first_frame(ivf) {
                Ok(_) => create_surface(self.header.width, self.header.height),
                Err(e) => DecodeAction::Finish(Err(e)),
            },
            DecodeEvent::SurfaceCreated(Err(e)) => DecodeAction::Finish(Err(e)),
            DecodeEvent::SurfaceCreated(Ok(_)) => match first_frame(ivf) {
                Ok(payload) => render(self.build_pic_info(), FIRST_PAYLOAD_OFFSET, payload.len()),
                Err(e) => DecodeAction::Finish(Err(e)),
            },
            DecodeEvent::Rendered(result) => after_render(
                result,
                self.header.width,
                self.header.height,
            ),
            DecodeEvent::BitsRead(result) => after_read(
                result,
                self.header.width,
                self.header.height,
            ),
        }
    }

    fn build_pic_info(&self) -> (info: VdpPictureInfoVP9)
        ensures
            describes(info, self@),
    {
        proof {
            use_type_invariant(self);
        }
        let h: &Vp9UncompressedHeader = &self.header;
        VdpPictureInfoVP9 {
            width: h.width,
            height: h.height,
            last_reference: VDP_INVALID_HANDLE,
            golden_reference: VDP_INVALID_HANDLE,
            alt_reference: VDP_INVALID_HANDLE,
            color_space: h.color_space,
            profile: h.profile as u16,
            frame_context_idx: h.frame_context_idx as u16,
            key_frame: 1,
            show_frame: h.show_frame as u16,
            error_resilient: h.error_resilient_mode as u16,
            frame_parallel_decoding: h.frame_parallel_decoding_mode as u16,
            sub_sampling_x: h.subsampling_x as u16,
            sub_sampling_y: h.subsampling_y as u16,
            intra_only: h.intra_only as u16,
            allow_high_precision_mv: h.allow_high_precision_mv as u16,
            refresh_entropy_probs: h.refresh_frame_context as u16,
            ref_frame_sign_bias: h.ref_frame_sign_bias,
            bit_depth_minus8_luma: h.bit_depth.saturating_sub(8),
            bit_depth_minus8_chroma: h.bit_depth.saturating_sub(8),
            loop_filter_level: h.loop_filter_level,
            loop_filter_sharpness: h.loop_filter_sharpness,
            mode_ref_lf_enabled: h.loop_filter_mode_ref_delta_enabled,
            log2_tile_columns: h.log2_tile_cols,
            log2_tile_rows: h.log2_tile_rows,
            segment_enabled: h.segmentation_enabled,
            segment_map_update: h.segmentation_update_map,
            segment_map_temporal_update: h.segmentation_temporal_update,
            segment_feature_mode: h.segmentation_abs_or_delta_update,
            segment_feature_enable: h.segment_feature_enable,
            segment_feature_data: h.segment_feature_data,
            mb_segment_tree_probs: h.mb_segment_tree_probs,
            segment_pred_probs: h.segment_pred_probs,
            reserved_segment_16_bits: [0u8; 2],
            qp_y_ac: h.base_q_idx,
            qp_y_dc: clamp_q(h.base_q_idx + h.delta_q_y_dc),
            qp_ch_dc: clamp_q(h.base_q_idx + h.delta_q_uv_dc),
            qp_ch_ac: clamp_q(h.base_q_idx + h.delta_q_uv_ac),
            active_ref_idx: [0u32; 3],
            reset_frame_context: h.reset_frame_context as u32,
            mcomp_filter_type: h.interpolation_filter as u32,
            mb_ref_lf_delta: [
                h.loop_filter_ref_deltas[0] as u32,
                h.loop_filter_ref_deltas[1] as u32,
                h.loop_filter_ref_deltas[2] as u32,
                h.loop_filter_ref_deltas[3] as u32,
            ],
            mb_mode_lf_delta: [
                h.loop_filter_mode_deltas[0] as u32,
                h.loop_filter_mode_deltas[1] as u32,
            ],
            uncompressed_header_size: h.uncompressed_header_size,
            compressed_header_size: h.compressed_header_size,
        }
    }
}

// Laws.

/// A frame that a decoder was made for is an 8-bit 4:2:0 keyframe, or an sRGB
/// one without subsampling, of at least one by one pixels.
pub proof fn law_accepted_frame(ivf: Seq<u8>, h: Vp9UncompressedHeader)
    requires
        decoder_error(ivf) is None,
        header_of(h, first_payload(ivf)),
    ensures
        h.profile == 0,
        h.frame_type == KEY_FRAME,
        h.bit_depth == 8,
        h.color_space != CS_RGB ==> h.subsampling_x == 1 && h.subsampling_y == 1,
        h.color_space == CS_RGB ==> h.subsampling_x == 0 && h.subsampling_y == 0,
        h.width >= 1,
        h.height >= 1,
{
}

/// A keyframe is between 1 and 65536 pixels wide, its tile column logarithm lies
/// between the bounds that the width sets, and its tile row logarithm is at most
/// 2.
pub proof fn law_header_tiles_in_range(h: Vp9UncompressedHeader, data: Seq<u8>)
    requires
        header_of(h, data),
    ensures
        1 <= h.width <= 0x1_0000,
        min_log2_tile_cols(sb64_cols(h.width as nat)) <= h.log2_tile_cols <= max_log2_tile_cols(
            sb64_cols(h.width as nat),
        ),
        h.log2_tile_rows <= 2,
{
    let c = frame_size_at(data);
    reveal(Cursor::u);
    crate::bits::lemma_bits_value_bound(c.data, c.pos, 16);
    crate::bits::lemma_small_powers();
    law_tile_logarithms_in_range(tile_info_at(data), h.width as nat);
}

/// The segmentation part of a header, as an encoder has it.
pub struct WrittenSegmentation {
    /// Seven tree probabilities and, with temporal update, three prediction
    /// probabilities. A probability may be left at 255 without a code.
    pub map: Option<(Seq<Option<nat>>, Option<Seq<Option<nat>>>)>,
    /// Whether values are absolute, and the features of the segments, four for
    /// each of the eight.
    pub data: Option<(nat, Seq<Option<int>>)>,
}

/// A keyframe header, as an encoder has it. What it may leave out is optional.
pub struct WrittenHeader {
    pub profile: nat,
    pub show_frame: nat,
    pub error_resilient_mode: nat,
    /// 8, 10 or 12.
    pub bit_depth: nat,
    pub color_space: nat,
    pub color_range: nat,
    pub subsampling: (nat, nat),
    pub reserved: nat,
    pub width: nat,
    pub height: nat,
    pub render_size: Option<(nat, nat)>,
    pub loop_filter_level: nat,
    pub loop_filter_sharpness: nat,
    /// Present if deltas are enabled: the update, if there is one, of four
    /// reference deltas and two mode deltas.
    pub loop_filter_deltas: Option<Option<Seq<Option<int>>>>,
    pub base_q_idx: nat,
    pub delta_q_y_dc: Option<int>,
    pub delta_q_uv_dc: Option<int>,
    pub delta_q_uv_ac: Option<int>,
    pub segmentation: Option<WrittenSegmentation>,
    pub log2_tile_cols: nat,
    pub log2_tile_rows: nat,
    pub first_partition_size: nat,
}

/// Append `n` digits of magnitude and a sign.
pub open spec fn put_signed(w: crate::writer::Bits, n: nat, k: int) -> crate::writer::Bits {
    w.u(
        n,
        (if k < 0 {
            -k
        } else {
            k
        }) as nat,
    ).flag(
        if k < 0 {
            1
        } else {
            0
        },
    )
}

/// Append a flag and, if there is a number, the number with its sign.
pub open spec fn put_optional(w: crate::writer::Bits, n: nat, k: Option<int>) -> crate::writer::Bits {
    match k {
        None => w.flag(0),
        Some(v) => put_signed(w.flag(1), n, v),
    }
}

/// Append the first `k` of some optional loop filter deltas.
pub open spec fn put_deltas(w: crate::writer::Bits, ds: Seq<Option<int>>, k: nat) -> crate::writer::Bits
    decreases k,
{
    if k == 0 {
        w
    } else {
        put_optional(put_deltas(w, ds, (k - 1) as nat), 6, ds[k - 1])
    }
}

/// Append the first `k` of some optional probabilities.
pub open spec fn put_probs(w: crate::writer::Bits, ps: Seq<Option<nat>>, k: nat) -> crate::writer::Bits
    decreases k,
{
    if k == 0 {
        w
    } else {
        let before = put_probs(w, ps, (k - 1) as nat);
        match ps[k - 1] {
            None => before.flag(0),
            Some(p) => before.flag(1).u(8, p),
        }
    }
}

/// Append the first `k` of some optional features. Of the four of a segment, the
/// quantizer has 8 bits and a sign, the loop filter 6 bits and a sign, the
/// reference frame 2 bits, and skipping has no value.
pub open spec fn put_features(w: crate::writer::Bits, fs: Seq<Option<int>>, k: nat) -> crate::writer::Bits
    decreases k,
{
    if k == 0 {
        w
    } else {
        let before = put_features(w, fs, (k - 1) as nat);
        match fs[k - 1] {
            None => before.flag(0),
            Some(v) => if (k - 1) % 4 == 0 {
                put_signed(before.flag(1), 8, v)
            } else if (k - 1) % 4 == 1 {
                put_signed(before.flag(1), 6, v)
            } else if (k - 1) % 4 == 2 {
                before.flag(1).u(2, v as nat)
            } else {
                before.flag(1)
            },
        }
    }
}

/// Append `k` one bits.
pub open spec fn put_ones(w: crate::writer::Bits, k: nat) -> crate::writer::Bits
    decreases k,
{
    if k == 0 {
        w
    } else {
        put_ones(w, (k - 1) as nat).flag(1)
    }
}

/// The header up to the color configuration.
pub open spec fn put_frame_start(x: WrittenHeader) -> crate::writer::Bits {
    let w = crate::writer::Bits::start().u(2, 2).flag(x.profile % 2).flag(x.profile / 2);
    (if x.profile == 3 {
        w.flag(x.reserved)
    } else {
        w
    }).flag(0).flag(0).flag(x.show_frame).flag(x.error_resilient_mode).u(24, 0x49_8342)
}

/// Append `color_config()`.
pub open spec fn put_color(w: crate::writer::Bits, x: WrittenHeader) -> crate::writer::Bits {
    let depth = if x.profile == 2 || x.profile == 3 {
        w.flag(
            if x.bit_depth == 12 {
                1
            } else {
                0
            },
        )
    } else {
        w
    };
    let space = depth.u(3, x.color_space);
    if x.color_space == 7 {
        if x.profile == 1 || x.profile == 3 {
            space.flag(x.reserved)
        } else {
            space
        }
    } else if x.profile == 1 || x.profile == 3 {
        space.flag(x.color_range).flag(x.subsampling.0).flag(x.subsampling.1).flag(x.reserved)
    } else {
        space.flag(x.color_range)
    }
}

/// Append `frame_size()` and `render_size()`.
pub open spec fn put_size(w: crate::writer::Bits, x: WrittenHeader) -> crate::writer::Bits {
    let size = w.u(16, (x.width - 1) as nat).u(16, (x.height - 1) as nat);
    match x.render_size {
        None => size.flag(0),
        Some(r) => size.flag(1).u(16, (r.0 - 1) as nat).u(16, (r.1 - 1) as nat),
    }
}

/// Append `loop_filter_params()`.
pub open spec fn put_loop_filter(w: crate::writer::Bits, x: WrittenHeader) -> crate::writer::Bits {
    let level = w.u(6, x.loop_filter_level).u(3, x.loop_filter_sharpness);
    match x.loop_filter_deltas {
        None => level.flag(0),
        Some(None) => level.flag(1).flag(0),
        Some(Some(ds)) => put_deltas(level.flag(1).flag(1), ds, 6),
    }
}

/// Append `quantization_params()`.
pub open spec fn put_quantization(w: crate::writer::Bits, x: WrittenHeader) -> crate::writer::Bits {
    put_optional(
        put_optional(put_optional(w.u(8, x.base_q_idx), 4, x.delta_q_y_dc), 4, x.delta_q_uv_dc),
        4,
        x.delta_q_uv_ac,
    )
}

/// Append the segmentation map, behind the flag that enables segmentation.
pub open spec fn put_map(w: crate::writer::Bits, seg: WrittenSegmentation) -> crate::writer::Bits {
    match seg.map {
        None => w.flag(0),
        Some((tree, None)) => put_probs(w.flag(1), tree, 7).flag(0),
        Some((tree, Some(pred))) => put_probs(put_probs(w.flag(1), tree, 7).flag(1), pred, 3),
    }
}

/// Append `segmentation_params()`.
pub open spec fn put_segmentation(w: crate::writer::Bits, x: WrittenHeader) -> crate::writer::Bits {
    match x.segmentation {
        None => w.flag(0),
        Some(seg) => {
            let map = put_map(w.flag(1), seg);
            match seg.data {
                None => map.flag(0),
                Some((absolute, fs)) => put_features(map.flag(1).flag(absolute), fs, 32),
            }
        },
    }
}

/// Append `tile_info()` of a frame whose tile column logarithm has to lie between
/// `low` and `high`.
pub open spec fn put_tiles(w: crate::writer::Bits, x: WrittenHeader, low: nat, high: nat) -> crate::writer::Bits {
    let ones = put_ones(w, (x.log2_tile_cols - low) as nat);
    let cols = if x.log2_tile_cols < high {
        ones.flag(0)
    } else {
        ones
    };
    if x.log2_tile_rows == 0 {
        cols.flag(0)
    } else if x.log2_tile_rows == 1 {
        cols.flag(1).flag(0)
    } else {
        cols.flag(1).flag(1)
    }
}

/// What an encoder writes for a keyframe header.
pub open spec fn written_header(x: WrittenHeader, low: nat, high: nat) -> crate::writer::Bits {
    put_tiles(
        put_segmentation(
            put_quantization(
                put_loop_filter(put_size(put_color(put_frame_start(x), x), x), x),
                x,
            ),
            x,
        ),
        x,
        low,
        high,
    ).u(16, x.first_partition_size)
}

/// True if `low` and `high` bound the tile column logarithm for this width: tiles
/// are at most 64 and, unless there is only one, at least 4 blocks of 64 pixels
/// wide.
pub open spec fn tile_bounds(width: nat, low: nat, high: nat) -> bool {
    exists|cols: nat|
        {
            &&& 64 * cols >= width
            &&& width > 64 * (cols - 1)
            &&& cols <= 64 * #[trigger] tile_count(low, cols)
            &&& low > 0 ==> 64 * tile_count((low - 1) as nat, cols) < cols
            &&& cols < 8 * tile_count(high, cols)
            &&& high > 0 ==> 4 * tile_count(high, cols) <= cols
        }
}

/// Two to the power `log2`, as the number of tiles among `cols` columns.
pub open spec fn tile_count(log2: nat, cols: nat) -> nat {
    crate::bits::two_to(log2)
}

/// True if all numbers fit in the bits that they are written in.
pub open spec fn writable_header(x: WrittenHeader, low: nat, high: nat) -> bool {
    &&& x.profile <= 3
    &&& x.bit_depth == 8 || x.bit_depth == 10 || x.bit_depth == 12
    &&& x.profile >= 2 <==> x.bit_depth > 8
    &&& x.show_frame < 2 && x.error_resilient_mode < 2
    &&& x.color_space < 8
    &&& x.color_range < 2 && x.subsampling.0 < 2 && x.subsampling.1 < 2
    &&& 1 <= x.width <= 0x1_0000
    &&& 1 <= x.height <= 0x1_0000
    &&& x.render_size matches Some(r) ==> 1 <= r.0 <= 0x1_0000 && 1 <= r.1 <= 0x1_0000
    &&& x.loop_filter_level < 64
    &&& x.loop_filter_sharpness < 8
    &&& x.loop_filter_deltas matches Some(Some(ds)) ==> ds.len() == 6 && forall|i: int|
        0 <= i < 6 ==> ((#[trigger] ds[i]) matches Some(d) ==> -64 < d < 64)
    &&& x.base_q_idx < 256
    &&& x.delta_q_y_dc matches Some(d) ==> -16 < d < 16
    &&& x.delta_q_uv_dc matches Some(d) ==> -16 < d < 16
    &&& x.delta_q_uv_ac matches Some(d) ==> -16 < d < 16
    &&& x.segmentation matches Some(seg) ==> writable_segmentation(seg)
    &&& tile_bounds(x.width, low, high)
    &&& low <= x.log2_tile_cols <= high
    &&& x.log2_tile_rows <= 2
    &&& x.first_partition_size < 0x1_0000
}

/// True if all probabilities and features fit in their bits.
pub open spec fn writable_segmentation(seg: WrittenSegmentation) -> bool {
    &&& seg.map matches Some((tree, pred)) ==> {
        &&& tree.len() == 7
        &&& forall|i: int| 0 <= i < 7 ==> ((#[trigger] tree[i]) matches Some(p) ==> p < 256)
        &&& pred matches Some(ps) ==> ps.len() == 3 && forall|i: int|
            0 <= i < 3 ==> ((#[trigger] ps[i]) matches Some(p) ==> p < 256)
    }
    &&& seg.data matches Some((absolute, fs)) ==> writable_features(fs)
}

/// True if all features fit in their bits.
pub open spec fn writable_features(fs: Seq<Option<int>>) -> bool {
    &&& fs.len() == 32
    &&& forall|i: int|
        0 <= i < 32 ==> ((#[trigger] fs[i]) matches Some(v) ==> {
            &&& i % 4 == 0 ==> -256 < v < 256
            &&& i % 4 == 1 ==> -64 < v < 64
            &&& i % 4 == 2 ==> 0 <= v < 4
            &&& i % 4 == 3 ==> v == 0
        })
}

/// A number that is 0 if it is left out.
pub open spec fn or_zero(k: Option<int>) -> int {
    match k {
        Some(v) => v,
        None => 0,
    }
}

/// A probability that is 255 if it is left out.
pub open spec fn or_certain(p: Option<nat>) -> nat {
    match p {
        Some(v) => v,
        None => 255,
    }
}

proof fn lemma_put_signed(c: Cursor, w: crate::writer::Bits, n: nat, k: int)
    requires
        c.begins_with(put_signed(w, n, k)),
        -crate::bits::two_to(n) < k < crate::bits::two_to(n),
    ensures
        c.begins_with(w),
        put_signed(w, n, k).len() == w.len() + n + 1,
        c.behind(w).s(n) == k,
{
    broadcast use crate::writer::group_reads_back;

}

proof fn lemma_put_optional(c: Cursor, w: crate::writer::Bits, n: nat, k: Option<int>)
    requires
        c.begins_with(put_optional(w, n, k)),
        k matches Some(v) ==> -crate::bits::two_to(n) < v < crate::bits::two_to(n),
    ensures
        c.begins_with(w),
        k is None ==> c.behind(w).flag() == 0 && put_optional(w, n, k).len() == w.len() + 1,
        k matches Some(v) ==> c.behind(w).flag() == 1 && c.behind(w).skip(1).s(n) == v
            && put_optional(w, n, k).len() == w.len() + n + 2,
{
    broadcast use crate::writer::group_reads_back;

    if let Some(v) = k {
        lemma_put_signed(c, w.flag(1), n, v);
    }
}

proof fn lemma_put_deltas(c: Cursor, w: crate::writer::Bits, ds: Seq<Option<int>>, k: nat)
    requires
        k <= ds.len(),
        c.begins_with(put_deltas(w, ds, k)),
        forall|i: int| 0 <= i < k ==> ((#[trigger] ds[i]) matches Some(d) ==> -64 < d < 64),
    ensures
        c.begins_with(w),
        after_lf_deltas(c.behind(w), k) == c.behind(put_deltas(w, ds, k)),
        forall|i: int| 0 <= i < k ==> or_zero(#[trigger] ds[i]) == lf_delta(c.behind(w), i as nat),
    decreases k,
{
    if k > 0 {
        let j = (k - 1) as nat;
        crate::bits::lemma_small_powers();
        lemma_put_optional(c, put_deltas(w, ds, j), 6, ds[j as int]);
        lemma_put_deltas(c, w, ds, j);
    }
}

proof fn lemma_put_probs(c: Cursor, w: crate::writer::Bits, ps: Seq<Option<nat>>, k: nat)
    requires
        k <= ps.len(),
        c.begins_with(put_probs(w, ps, k)),
        forall|i: int| 0 <= i < k ==> ((#[trigger] ps[i]) matches Some(p) ==> p < 256),
    ensures
        c.begins_with(w),
        after_probs(c.behind(w), k) == c.behind(put_probs(w, ps, k)),
        forall|i: int| 0 <= i < k ==> or_certain(#[trigger] ps[i]) == prob(c.behind(w), i as nat),
    decreases k,
{
    broadcast use crate::writer::group_reads_back;

    if k > 0 {
        let j = (k - 1) as nat;
        crate::bits::lemma_small_powers();
        let before = put_probs(w, ps, j);
        assert(c.begins_with(before));
        lemma_put_probs(c, w, ps, j);
        assert(ps[j as int] matches Some(p) ==> p < 256);
    }
}

proof fn lemma_put_features(c: Cursor, w: crate::writer::Bits, fs: Seq<Option<int>>, k: nat)
    requires
        k <= 32,
        writable_features(fs),
        c.begins_with(put_features(w, fs, k)),
    ensures
        c.begins_with(w),
        feature_at(c.behind(w), k) == c.behind(put_features(w, fs, k)),
        forall|i: int|
            0 <= i < k ==> {
                let at = feature_at(c.behind(w), i as nat);
                &&& (#[trigger] fs[i]) is Some ==> at.flag() == 1
                &&& fs[i] is None ==> at.flag() == 0
                &&& feature_value(at, (i % 4) as nat) == or_zero(fs[i])
            },
    decreases k,
{
    broadcast use crate::writer::group_reads_back;

    if k > 0 {
        let j = (k - 1) as nat;
        crate::bits::lemma_small_powers();
        assert(crate::bits::two_to(0) == 1);
        let before = put_features(w, fs, j);
        if let Some(v) = fs[j as int] {
            if j % 4 == 0 {
                lemma_put_signed(c, before.flag(1), 8, v);
            } else if j % 4 == 1 {
                lemma_put_signed(c, before.flag(1), 6, v);
            } else if j % 4 == 3 {
                reveal(Cursor::u);
                assert(c.behind(before).skip(1).u(0) == 0);
            }
            assert(c.begins_with(before.flag(1)));
        }
        assert(c.begins_with(before));
        lemma_put_features(c, w, fs, j);
    }
}

proof fn lemma_put_ones(c: Cursor, w: crate::writer::Bits, k: nat, more: nat)
    requires
        c.begins_with(put_ones(w, k)),
    ensures
        c.begins_with(w),
        ones(c.behind(w), k + more) == k + ones(c.behind(put_ones(w, k)), more),
        after_ones(c.behind(w), k + more) == after_ones(c.behind(put_ones(w, k)), more),
    decreases k,
{
    broadcast use crate::writer::group_reads_back;

    if k > 0 {
        let j = (k - 1) as nat;
        assert(c.begins_with(put_ones(w, j)));
        lemma_put_ones(c, w, j, more + 1);
    }
}

proof fn lemma_tile_bounds(width: nat, low: nat, high: nat)
    requires
        1 <= width,
        tile_bounds(width, low, high),
    ensures
        low == min_log2_tile_cols(sb64_cols(width)),
        high == max_log2_tile_cols(sb64_cols(width)),
{
    let cols = choose|cols: nat|
        {
            &&& 64 * cols >= width
            &&& width > 64 * (cols - 1)
            &&& cols <= 64 * #[trigger] tile_count(low, cols)
            &&& low > 0 ==> 64 * tile_count((low - 1) as nat, cols) < cols
            &&& cols < 8 * tile_count(high, cols)
            &&& high > 0 ==> 4 * tile_count(high, cols) <= cols
        };
    assert(sb64_cols(width) == cols);
    let min = min_log2_tile_cols(cols);
    let max = max_log2_tile_cols(cols);
    lemma_min_bounds(cols);
    lemma_max_bounds(cols);
    if low < min {
        crate::bits::lemma_two_to_monotone(low, (min - 1) as nat);
    }
    if min < low {
        crate::bits::lemma_two_to_monotone(min, (low - 1) as nat);
    }
    if high < max {
        crate::bits::lemma_two_to_monotone((high + 1) as nat, max);
    }
    if max < high {
        crate::bits::lemma_two_to_monotone((max + 1) as nat, high);
    }
}

proof fn lemma_min_bounds(cols: nat)
    ensures
        cols <= 64 * crate::bits::two_to(min_log2_tile_cols(cols)),
        min_log2_tile_cols(cols) > 0 ==> 64 * crate::bits::two_to(
            (min_log2_tile_cols(cols) - 1) as nat,
        ) < cols,
    decreases cols,
{
    assert(crate::bits::two_to(0) == 1);
    if cols > 64 {
        lemma_min_bounds((cols + 1) / 2);
    }
}

proof fn lemma_max_bounds(cols: nat)
    ensures
        cols < 8 * crate::bits::two_to(max_log2_tile_cols(cols)),
        max_log2_tile_cols(cols) > 0 ==> 4 * crate::bits::two_to(max_log2_tile_cols(cols)) <= cols,
    decreases cols,
{
    assert(crate::bits::two_to(0) == 1);
    if cols >= 8 {
        lemma_max_bounds(cols / 2);
        assert(crate::bits::two_to(1) == 2);
    }
}

proof fn lemma_put_start(data: Seq<u8>, x: WrittenHeader, low: nat, high: nat)
    requires
        data.len() >= 8,
        writable_header(x, low, high),
        Cursor::start(data).begins_with(put_frame_start(x)),
    ensures
        header_error(data) is None,
        profile_of(data) == x.profile,
        color_config_at(data) == Cursor::start(data).behind(put_frame_start(x)),
        show_existing_at(data).skip(2).flag() == x.show_frame,
        show_existing_at(data).skip(3).flag() == x.error_resilient_mode,
{
    broadcast use crate::writer::group_reads_back;

    crate::bits::lemma_small_powers();
}

proof fn lemma_put_color(c: Cursor, w: crate::writer::Bits, x: WrittenHeader, low: nat, high: nat)
    requires
        writable_header(x, low, high),
        c.begins_with(put_color(w, x)),
    ensures
        c.begins_with(w),
        after_color_config(c.behind(w), x.profile as u8) == c.behind(put_color(w, x)),
        ({
            let color = color_config(c.behind(w), x.profile as u8);
            let coded = x.profile == 1 || x.profile == 3;
            &&& color.bit_depth == x.bit_depth
            &&& color.color_space == x.color_space
            &&& x.color_space == 7 ==> color.color_range == 1 && color.subsampling_x == 0
                && color.subsampling_y == 0
            &&& x.color_space != 7 ==> color.color_range == x.color_range
            &&& x.color_space != 7 && coded ==> color.subsampling_x == x.subsampling.0
                && color.subsampling_y == x.subsampling.1
            &&& x.color_space != 7 && !coded ==> color.subsampling_x == 1 && color.subsampling_y
                == 1
        }),
{
    broadcast use crate::writer::group_reads_back;

    crate::bits::lemma_small_powers();
}

proof fn lemma_put_size(c: Cursor, w: crate::writer::Bits, x: WrittenHeader, low: nat, high: nat)
    requires
        writable_header(x, low, high),
        c.begins_with(put_size(w, x)),
    ensures
        c.begins_with(w),
        after_frame_size(c.behind(w)) == c.behind(put_size(w, x)),
        c.behind(w).u(16) + 1 == x.width,
        c.behind(w).skip(16).u(16) + 1 == x.height,
{
    broadcast use crate::writer::group_reads_back;

    crate::bits::lemma_small_powers();
}

/// Loop filter delta `i` of a header: 0 unless it is written.
pub open spec fn written_delta(x: WrittenHeader, i: int) -> int {
    match x.loop_filter_deltas {
        Some(Some(ds)) => or_zero(ds[i]),
        _ => 0,
    }
}

proof fn lemma_put_loop_filter(
    c: Cursor,
    w: crate::writer::Bits,
    x: WrittenHeader,
    lf: LoopFilter,
    low: nat,
    high: nat,
)
    requires
        writable_header(x, low, high),
        c.begins_with(put_loop_filter(w, x)),
    ensures
        c.begins_with(w),
        after_loop_filter(c.behind(w)) == c.behind(put_loop_filter(w, x)),
        loop_filter_at(lf, c.behind(w)) ==> {
            &&& lf.level == x.loop_filter_level
            &&& lf.sharpness == x.loop_filter_sharpness
            &&& lf.mode_ref_delta_enabled == (if x.loop_filter_deltas is Some {
                1nat
            } else {
                0nat
            })
            &&& forall|i: int| 0 <= i < 4 ==> #[trigger] lf.ref_deltas[i] == written_delta(x, i)
            &&& forall|i: int|
                0 <= i < 2 ==> #[trigger] lf.mode_deltas[i] == written_delta(x, 4 + i)
        },
{
    broadcast use crate::writer::group_reads_back;

    crate::bits::lemma_small_powers();
    let level = w.u(6, x.loop_filter_level).u(3, x.loop_filter_sharpness);
    if let Some(Some(ds)) = x.loop_filter_deltas {
        lemma_put_deltas(c, level.flag(1).flag(1), ds, 6);
    }
}

proof fn lemma_put_delta_q(c: Cursor, w: crate::writer::Bits, k: Option<int>)
    requires
        c.begins_with(put_optional(w, 4, k)),
        k matches Some(v) ==> -16 < v < 16,
    ensures
        c.begins_with(w),
        delta_q(c.behind(w)) == or_zero(k),
        after_delta_q(c.behind(w)) == c.behind(put_optional(w, 4, k)),
{
    crate::bits::lemma_small_powers();
    lemma_put_optional(c, w, 4, k);
}

proof fn lemma_put_quantization(
    c: Cursor,
    w: crate::writer::Bits,
    x: WrittenHeader,
    low: nat,
    high: nat,
)
    requires
        writable_header(x, low, high),
        c.begins_with(put_quantization(w, x)),
    ensures
        c.begins_with(w),
        after_quantization(c.behind(w)) == c.behind(put_quantization(w, x)),
        quantization(c.behind(w)).base_q_idx == x.base_q_idx,
        quantization(c.behind(w)).delta_q_y_dc == or_zero(x.delta_q_y_dc),
        quantization(c.behind(w)).delta_q_uv_dc == or_zero(x.delta_q_uv_dc),
        quantization(c.behind(w)).delta_q_uv_ac == or_zero(x.delta_q_uv_ac),
{
    broadcast use crate::writer::group_reads_back;

    crate::bits::lemma_small_powers();
    let w0 = w.u(8, x.base_q_idx);
    let w1 = put_optional(w0, 4, x.delta_q_y_dc);
    let w2 = put_optional(w1, 4, x.delta_q_uv_dc);
    lemma_put_delta_q(c, w2, x.delta_q_uv_ac);
    lemma_put_delta_q(c, w1, x.delta_q_uv_dc);
    lemma_put_delta_q(c, w0, x.delta_q_y_dc);
}

/// True if `seg` holds what was written, and the rest is as it is when nothing
/// is written.
pub open spec fn same_segmentation(seg: Segmentation, written: Option<WrittenSegmentation>) -> bool {
    let map = match written {
        Some(s) => s.map,
        None => None,
    };
    let data = match written {
        Some(s) => s.data,
        None => None,
    };
    &&& seg.enabled == (if written is Some {
        1nat
    } else {
        0nat
    })
    &&& match map {
        None => {
            &&& seg.update_map == 0
            &&& seg.temporal_update == 0
            &&& forall|i: int| 0 <= i < 7 ==> #[trigger] seg.tree_probs[i] == 0
            &&& forall|i: int| 0 <= i < 3 ==> #[trigger] seg.pred_probs[i] == 0
        },
        Some((tree, pred)) => {
            &&& seg.update_map == 1
            &&& forall|i: int| 0 <= i < 7 ==> #[trigger] seg.tree_probs[i] == or_certain(tree[i])
            &&& match pred {
                None => {
                    &&& seg.temporal_update == 0
                    &&& forall|i: int| 0 <= i < 3 ==> #[trigger] seg.pred_probs[i] == 255
                },
                Some(ps) => {
                    &&& seg.temporal_update == 1
                    &&& forall|i: int|
                        0 <= i < 3 ==> #[trigger] seg.pred_probs[i] == or_certain(ps[i])
                },
            }
        },
    }
    &&& match data {
        None => {
            &&& seg.update_data == 0
            &&& seg.abs_or_delta_update == 0
            &&& forall|i: int, j: int|
                0 <= i < 8 && 0 <= j < 4 ==> #[trigger] seg.feature_enable[i][j] == 0
            &&& forall|i: int, j: int|
                0 <= i < 8 && 0 <= j < 4 ==> #[trigger] seg.feature_data[i][j] == 0
        },
        Some((absolute, fs)) => {
            &&& seg.update_data == 1
            &&& seg.abs_or_delta_update == absolute
            &&& forall|i: int, j: int|
                0 <= i < 8 && 0 <= j < 4 ==> #[trigger] seg.feature_enable[i][j] == (if fs[4 * i
                    + j] is Some {
                    1nat
                } else {
                    0nat
                })
            &&& forall|i: int, j: int|
                0 <= i < 8 && 0 <= j < 4 ==> #[trigger] seg.feature_data[i][j] == or_zero(
                    fs[4 * i + j],
                )
        },
    }
}

proof fn lemma_put_map(c: Cursor, w: crate::writer::Bits, seg: WrittenSegmentation)
    requires
        writable_segmentation(seg),
        c.begins_with(put_map(w.flag(1), seg)),
    ensures
        c.begins_with(w.flag(1)),
        c.begins_with(w),
        update_data_at(c.behind(w)) == c.behind(put_map(w.flag(1), seg)),
        ({
            let at = c.behind(w);
            let temporal = after_probs(at.skip(2), 7);
            match seg.map {
                None => at.skip(1).flag() == 0,
                Some((tree, pred)) => {
                    &&& at.skip(1).flag() == 1
                    &&& forall|i: int|
                        0 <= i < 7 ==> or_certain(#[trigger] tree[i]) == prob(at.skip(2), i as nat)
                    &&& match pred {
                        None => temporal.flag() == 0,
                        Some(ps) => {
                            &&& temporal.flag() == 1
                            &&& forall|i: int|
                                0 <= i < 3 ==> or_certain(#[trigger] ps[i]) == prob(
                                    temporal.skip(1),
                                    i as nat,
                                )
                        },
                    }
                },
            }
        }),
{
    broadcast use crate::writer::group_reads_back;

    if let Some((tree, pred)) = seg.map {
        let w1 = w.flag(1).flag(1);
        let w2 = put_probs(w1, tree, 7);
        if let Some(ps) = pred {
            lemma_put_probs(c, w2.flag(1), ps, 3);
        }
        assert(c.begins_with(w2));
        lemma_put_probs(c, w1, tree, 7);
    }
}

proof fn lemma_put_segmentation(
    c: Cursor,
    w: crate::writer::Bits,
    written: WrittenHeader,
    seg: Segmentation,
    low: nat,
    high: nat,
)
    requires
        writable_header(written, low, high),
        c.begins_with(put_segmentation(w, written)),
    ensures
        c.begins_with(w),
        after_segmentation(c.behind(w)) == c.behind(put_segmentation(w, written)),
        segmentation_at(seg, c.behind(w)) ==> same_segmentation(seg, written.segmentation),
{
    broadcast use crate::writer::group_reads_back;

    if let Some(s) = written.segmentation {
        let map = put_map(w.flag(1), s);
        if let Some((absolute, fs)) = s.data {
            let before = map.flag(1).flag(absolute);
            lemma_put_features(c, before, fs, 32);
            assert(c.begins_with(map.flag(1)));
            assert(c.begins_with(map));
            lemma_put_map(c, w, s);
            assert forall|i: int, j: int|
                segmentation_at(seg, c.behind(w)) && 0 <= i < 8 && 0 <= j
                    < 4 implies #[trigger] seg.feature_data[i][j] == or_zero(fs[4 * i + j]) by {
                assert((4 * i + j) % 4 == j);
            }
        } else {
            assert(c.begins_with(map));
            lemma_put_map(c, w, s);
        }
    }
}

proof fn lemma_put_tiles(c: Cursor, w: crate::writer::Bits, x: WrittenHeader, low: nat, high: nat)
    requires
        writable_header(x, low, high),
        c.begins_with(put_tiles(w, x, low, high)),
    ensures
        c.begins_with(w),
        after_tile_info(c.behind(w), x.width) == c.behind(put_tiles(w, x, low, high)),
        log2_tile_cols(c.behind(w), x.width) == x.log2_tile_cols,
        log2_tile_rows(c.behind(w), x.width) == x.log2_tile_rows,
{
    broadcast use crate::writer::group_reads_back;

    lemma_tile_bounds(x.width, low, high);
    let k = (x.log2_tile_cols - low) as nat;
    let more = (high - x.log2_tile_cols) as nat;
    let ones = put_ones(w, k);
    let cols = if x.log2_tile_cols < high {
        ones.flag(0)
    } else {
        ones
    };
    assert(c.begins_with(cols));
    assert(c.begins_with(ones));
    lemma_put_ones(c, w, k, more);
    assert(tile_col_steps(x.width) == k + more);
}

/// True if `h` holds, field by field, the header that was written.
pub open spec fn same_header(h: Vp9UncompressedHeader, x: WrittenHeader) -> bool {
    let coded = x.profile == 1 || x.profile == 3;
    &&& h.profile == x.profile
    &&& h.show_existing_frame == 0
    &&& h.frame_type == 0
    &&& h.show_frame == x.show_frame
    &&& h.error_resilient_mode == x.error_resilient_mode
    &&& h.bit_depth == x.bit_depth
    &&& h.color_space == x.color_space
    &&& h.color_range == (if x.color_space == 7 {
        1
    } else {
        x.color_range
    })
    &&& h.subsampling_x == (if x.color_space == 7 {
        0
    } else if coded {
        x.subsampling.0
    } else {
        1
    })
    &&& h.subsampling_y == (if x.color_space == 7 {
        0
    } else if coded {
        x.subsampling.1
    } else {
        1
    })
    &&& h.width == x.width
    &&& h.height == x.height
    &&& h.intra_only == 0
    &&& h.reset_frame_context == 0
    &&& h.refresh_frame_flags == 0xff
    &&& h.allow_high_precision_mv == 0
    &&& h.interpolation_filter == 0
    &&& h.refresh_frame_context == 1
    &&& h.frame_parallel_decoding_mode == 0
    &&& h.frame_context_idx == 0
    &&& h.loop_filter_level == x.loop_filter_level
    &&& h.loop_filter_sharpness == x.loop_filter_sharpness
    &&& h.loop_filter_mode_ref_delta_enabled == (if x.loop_filter_deltas is Some {
        1nat
    } else {
        0nat
    })
    &&& forall|i: int| 0 <= i < 4 ==> #[trigger] h.loop_filter_ref_deltas[i] == written_delta(x, i)
    &&& forall|i: int|
        0 <= i < 2 ==> #[trigger] h.loop_filter_mode_deltas[i] == written_delta(x, 4 + i)
    &&& h.base_q_idx == x.base_q_idx
    &&& h.delta_q_y_dc == or_zero(x.delta_q_y_dc)
    &&& h.delta_q_uv_dc == or_zero(x.delta_q_uv_dc)
    &&& h.delta_q_uv_ac == or_zero(x.delta_q_uv_ac)
    &&& same_segmentation(
        (Segmentation {
            enabled: h.segmentation_enabled,
            update_map: h.segmentation_update_map,
            temporal_update: h.segmentation_temporal_update,
            update_data: h.segmentation_update_data,
            abs_or_delta_update: h.segmentation_abs_or_delta_update,
            feature_enable: h.segment_feature_enable,
            feature_data: h.segment_feature_data,
            tree_probs: h.mb_segment_tree_probs,
            pred_probs: h.segment_pred_probs,
        }),
        x.segmentation,
    )
    &&& h.log2_tile_cols == x.log2_tile_cols
    &&& h.log2_tile_rows == x.log2_tile_rows
    &&& h.compressed_header_size == x.first_partition_size
    &&& forall|i: int| 0 <= i < 3 ==> #[trigger] h.ref_frame_idx[i] == 0
    &&& forall|i: int| 0 <= i < 4 ==> #[trigger] h.ref_frame_sign_bias[i] == 0
}

/// A keyframe header that was written is read back, whatever frame data follows
/// it: every field has the value that was written or that its absence stands
/// for, and the header is found to be as many bytes long as its bits take.
pub proof fn law_header_reads_back(
    data: Seq<u8>,
    h: Vp9UncompressedHeader,
    x: WrittenHeader,
    low: nat,
    high: nat,
)
    requires
        data.len() >= 8,
        writable_header(x, low, high),
        Cursor::start(data).begins_with(written_header(x, low, high)),
    ensures
        header_error(data) is None,
        profile_of(data) == x.profile,
        header_of(h, data) ==> {
            &&& same_header(h, x)
            &&& 8 * h.uncompressed_header_size >= written_header(x, low, high).len()
            &&& 8 * (h.uncompressed_header_size - 1) < written_header(x, low, high).len()
        },
{
    broadcast use crate::writer::group_reads_back;

    crate::bits::lemma_small_powers();
    let c = Cursor::start(data);
    let start = put_frame_start(x);
    let color = put_color(start, x);
    let size = put_size(color, x);
    let filter = put_loop_filter(size, x);
    let quant = put_quantization(filter, x);
    let seg = put_segmentation(quant, x);
    let tiles = put_tiles(seg, x, low, high);
    assert(c.begins_with(tiles));
    lemma_put_tiles(c, seg, x, low, high);
    lemma_put_segmentation(c, quant, x, segmentation_of(h), low, high);
    lemma_put_quantization(c, filter, x, low, high);
    lemma_put_loop_filter(c, size, x, loop_filter_of(h), low, high);
    lemma_put_size(c, color, x, low, high);
    lemma_put_color(c, start, x, low, high);
    lemma_put_start(data, x, low, high);
    if header_of(h, data) {
        assert(color_config_at(data) == c.behind(start));
        assert(frame_size_at(data) == c.behind(color));
        assert(loop_filter_params_at(data) == c.behind(size));
        assert(quantization_params_at(data) == c.behind(filter));
        assert(segmentation_params_at(data) == c.behind(quant));
        assert(tile_info_at(data) == c.behind(seg));
        assert(first_partition_size_at(data) == c.behind(tiles));
        assert(h.compressed_header_size == x.first_partition_size);
        assert(h.color_space == x.color_space);
        assert(same_segmentation(segmentation_of(h), x.segmentation));
        assert(loop_filter_of(h).ref_deltas == h.loop_filter_ref_deltas);
        assert(loop_filter_of(h).mode_deltas == h.loop_filter_mode_deltas);
        assert(same_header(h, x));
        let p = c.behind(tiles).skip(16);
        assert(h.uncompressed_header_size == p.bytes_begun());
        assert(p.pos == written_header(x, low, high).len());
    }
}

/// An IVF file whose first frame has this payload.
pub open spec fn ivf_file(
    header: IvfHeader,
    rate: Seq<u8>,
    payload: Seq<u8>,
    timestamp: u64,
    rest: Seq<u8>,
) -> Seq<u8> {
    ivf_header_bytes(header, rate) + (ivf_frame_bytes(payload, timestamp as nat) + rest)
}

/// The 32-bit word that holds a loop filter delta in two's complement.
pub open spec fn delta_word(d: int) -> int {
    if d < 0 {
        0x1_0000_0000 + d
    } else {
        d
    }
}

/// The quantizer index nearest to `q`: at least 0 and at most 255.
pub open spec fn nearest_index(i: int, q: int) -> bool {
    &&& 0 <= i <= 255
    &&& 0 <= q <= 255 ==> i == q
    &&& q < 0 ==> i == 0
    &&& q > 255 ==> i == 255
}

/// The record that the driver gets for the first frame of a file says, field by
/// field, what the encoder wrote in the header of that frame. The frame is
/// accepted if it has profile 0, the surface has the size in the header, and
/// the driver gets exactly the frame's payload.
#[verifier::rlimit(60)]
pub proof fn law_picture_says_what_was_written(
    file: IvfHeader,
    rate: Seq<u8>,
    payload: Seq<u8>,
    timestamp: u64,
    rest: Seq<u8>,
    h: Vp9UncompressedHeader,
    x: WrittenHeader,
    low: nat,
    high: nat,
    first: DecodeAction<VdpPictureInfoVP9>,
    second: DecodeAction<VdpPictureInfoVP9>,
)
    requires
        rate.len() == 16,
        8 <= payload.len() <= u32::MAX,
        writable_header(x, low, high),
        Cursor::start(payload).begins_with(written_header(x, low, high)),
    ensures
        ({
            let ivf = ivf_file(file, rate, payload, timestamp, rest);
            &&& x.profile == 0 <==> decoder_error(ivf) is None
            &&& x.profile == 0 && header_of(h, first_payload(ivf)) && decode_step(
                h,
                ivf,
                DecodeEvent::Started,
                first,
            ) && decode_step(h, ivf, DecodeEvent::SurfaceCreated(Ok(())), second) ==> {
                &&& first matches DecodeAction::CreateSurface { chroma_type, width, height } && {
                    &&& chroma_type == 0
                    &&& width == x.width
                    &&& height == x.height
                }
                &&& second matches DecodeAction::Render { picture_info: info, bitstream: b } && {
                    &&& ivf.subrange(b.offset as int, b.offset + b.bitstream_bytes) == payload
                    &&& info.width == x.width
                    &&& info.height == x.height
                    &&& info.last_reference == 0xffff_ffff
                    &&& info.golden_reference == 0xffff_ffff
                    &&& info.alt_reference == 0xffff_ffff
                    &&& info.color_space == x.color_space
                    &&& info.profile == 0
                    &&& info.frame_context_idx == 0
                    &&& info.key_frame == 1
                    &&& info.show_frame == x.show_frame
                    &&& info.error_resilient == x.error_resilient_mode
                    &&& info.frame_parallel_decoding == 0
                    &&& info.sub_sampling_x == (if x.color_space == 7 {
                        0int
                    } else {
                        1int
                    })
                    &&& info.sub_sampling_y == (if x.color_space == 7 {
                        0int
                    } else {
                        1int
                    })
                    &&& info.intra_only == 0
                    &&& info.allow_high_precision_mv == 0
                    &&& info.refresh_entropy_probs == 1
                    &&& forall|i: int| 0 <= i < 4 ==> #[trigger] info.ref_frame_sign_bias[i] == 0
                    &&& info.bit_depth_minus8_luma == 0
                    &&& info.bit_depth_minus8_chroma == 0
                    &&& info.loop_filter_level == x.loop_filter_level
                    &&& info.loop_filter_sharpness == x.loop_filter_sharpness
                    &&& info.mode_ref_lf_enabled == (if x.loop_filter_deltas is Some {
                        1int
                    } else {
                        0int
                    })
                    &&& info.log2_tile_columns == x.log2_tile_cols
                    &&& info.log2_tile_rows == x.log2_tile_rows
                    &&& same_segmentation(
                        (Segmentation {
                            enabled: info.segment_enabled,
                            update_map: info.segment_map_update,
                            temporal_update: info.segment_map_temporal_update,
                            update_data: h.segmentation_update_data,
                            abs_or_delta_update: info.segment_feature_mode,
                            feature_enable: info.segment_feature_enable,
                            feature_data: info.segment_feature_data,
                            tree_probs: info.mb_segment_tree_probs,
                            pred_probs: info.segment_pred_probs,
                        }),
                        x.segmentation,
                    )
                    &&& info.reserved_segment_16_bits[0] == 0
                    &&& info.reserved_segment_16_bits[1] == 0
                    &&& info.qp_y_ac == x.base_q_idx
                    &&& nearest_index(info.qp_y_dc as int, x.base_q_idx + or_zero(x.delta_q_y_dc))
                    &&& nearest_index(info.qp_ch_dc as int, x.base_q_idx + or_zero(x.delta_q_uv_dc))
                    &&& nearest_index(info.qp_ch_ac as int, x.base_q_idx + or_zero(x.delta_q_uv_ac))
                    &&& forall|i: int| 0 <= i < 3 ==> #[trigger] info.active_ref_idx[i] == 0
                    &&& info.reset_frame_context == 0
                    &&& info.mcomp_filter_type == 0
                    &&& forall|i: int|
                        0 <= i < 4 ==> #[trigger] info.mb_ref_lf_delta[i] == delta_word(
                            written_delta(x, i),
                        )
                    &&& forall|i: int|
                        0 <= i < 2 ==> #[trigger] info.mb_mode_lf_delta[i] == delta_word(
                            written_delta(x, 4 + i),
                        )
                    &&& 8 * info.uncompressed_header_size >= written_header(x, low, high).len()
                    &&& 8 * (info.uncompressed_header_size - 1) < written_header(x, low, high).len()
                    &&& info.compressed_header_size == x.first_partition_size
                }
            }
        }),
{
    let body = ivf_frame_bytes(payload, timestamp as nat) + rest;
    let ivf = ivf_file(file, rate, payload, timestamp, rest);
    law_ivf_header_reads_back(file, rate, body);
    law_ivf_frame_reads_back(payload, timestamp, rest);
    law_header_reads_back(payload, h, x, low, high);
    assert(ivf.len() == 32 + body.len()) by {
        assert(ivf.skip(32) == body);
    }
    assert(first_payload(ivf) == payload);
    assert(first_frame_error(ivf) is None);
    if decoder_error(ivf) is None {
        law_payload_lies_in_file(ivf);
    }
    assert forall|d: i32| -64 < d < 64 implies (#[trigger] (d as u32)) == delta_word(d as int) by {
        assert(d < 0 ==> d as u32 == (0x1_0000_0000i64 + d as i64) as u32) by (bit_vector)
            requires
                -64 < d < 64,
        ;
    }
    assert forall|i: int| 0 <= i < 6 implies -64 < #[trigger] written_delta(x, i) < 64 by {
        if let Some(Some(ds)) = x.loop_filter_deltas {
            assert(ds[i] matches Some(d) ==> -64 < d < 64);
        }
    }
}

/// What stands before `show_existing_frame`: the marker, the profile, and a
/// reserved bit for profile 3.
pub open spec fn put_profile(marker: nat, profile: nat, reserved: nat) -> crate::writer::Bits {
    let w = crate::writer::Bits::start().u(2, marker).flag(profile % 2).flag(profile / 2);
    if profile == 3 {
        w.flag(reserved)
    } else {
        w
    }
}

/// A header is refused if it has another marker, shows a frame that exists
/// already, is not that of a keyframe, or has another sync code.
pub proof fn law_other_headers_are_refused(
    data: Seq<u8>,
    marker: nat,
    profile: nat,
    reserved: nat,
    flags: (nat, nat),
    sync: nat,
)
    requires
        marker < 4,
        profile < 4,
        sync < 0x100_0000,
    ensures
        data.len() < 8 ==> header_error(data) == Some(
            crate::device::failure("VP9 frame shorter than 8 bytes"@),
        ),
        marker != 2 && Cursor::start(data).begins_with(put_profile(marker, profile, reserved))
            ==> header_error(data) is Some,
        Cursor::start(data).begins_with(put_profile(2, profile, reserved).flag(1)) ==> header_error(
            data,
        ) is Some,
        Cursor::start(data).begins_with(put_profile(2, profile, reserved).flag(0).flag(1))
            ==> header_error(data) is Some,
        sync != 0x49_8342 && Cursor::start(data).begins_with(
            put_profile(2, profile, reserved).flag(0).flag(0).flag(flags.0).flag(flags.1).u(24, sync),
        ) ==> header_error(data) is Some,
{
    broadcast use crate::writer::group_reads_back;

    crate::bits::lemma_small_powers();
}

/// A file is accepted only if it starts with `DKIF`, version 0, a header length
/// of 32 and `VP90`, and holds a whole file header.
pub proof fn law_other_files_are_refused(buf: Seq<u8>)
    ensures
        ivf_error(buf) is None <==> {
            &&& buf.len() >= 32
            &&& buf[0] == 'D' as u8 && buf[1] == 'K' as u8 && buf[2] == 'I' as u8 && buf[3] == 'F' as u8
            &&& buf[4] == 0 && buf[5] == 0
            &&& buf[6] == 32 && buf[7] == 0
            &&& buf[8] == 'V' as u8 && buf[9] == 'P' as u8 && buf[10] == '9' as u8 && buf[11]
                == '0' as u8
        },
{
    reveal_with_fuel(little_endian, 3);
    if buf.len() >= 32 {
        let magic = buf.subrange(0, 4);
        let codec = buf.subrange(8, 12);
        assert(magic[0] == buf[0] && magic[1] == buf[1] && magic[2] == buf[2] && magic[3] == buf[3]);
        assert(codec[0] == buf[8] && codec[1] == buf[9] && codec[2] == buf[10] && codec[3]
            == buf[11]);
        if buf[0] == 0x44 && buf[1] == 0x4b && buf[2] == 0x49 && buf[3] == 0x46 {
            assert(magic == seq![0x44u8, 0x4bu8, 0x49u8, 0x46u8]);
        }
        if buf[8] == 0x56 && buf[9] == 0x50 && buf[10] == 0x39 && buf[11] == 0x30 {
            assert(codec == seq![0x56u8, 0x50u8, 0x39u8, 0x30u8]);
        }
        lemma_two_bytes(buf.subrange(4, 6));
        lemma_two_bytes(buf.subrange(6, 8));
    }
}

proof fn lemma_two_bytes(bytes: Seq<u8>)
    requires
        bytes.len() == 2,
    ensures
        little_endian(bytes) == bytes[0] + 256 * bytes[1],
{
    reveal_with_fuel(little_endian, 3);
}

/// A frame that is cut short anywhere is refused.
pub proof fn law_truncated_frames_are_refused(payload: Seq<u8>, timestamp: u64, n: int)
    requires
        payload.len() <= u32::MAX,
        0 < n < ivf_frame_bytes(payload, timestamp as nat).len(),
    ensures
        ivf_frame_error(ivf_frame_bytes(payload, timestamp as nat).take(n)) is Some,
{
    let all = ivf_frame_bytes(payload, timestamp as nat);
    lemma_bytes_256();
    law_le_reads_back(payload.len(), 4);
    law_le_reads_back(timestamp as nat, 8);
    if n >= 12 {
        assert(all.take(n).subrange(0, 4) == le_bytes(payload.len(), 4));
    }
}

/// Every quantizer index that the driver gets for the keyframe in `data` lies
/// between 0 and 255.
pub proof fn law_quantizers_in_range(
    info: VdpPictureInfoVP9,
    h: Vp9UncompressedHeader,
    data: Seq<u8>,
)
    requires
        header_of(h, data),
        describes(info, h),
    ensures
        0 <= info.qp_y_ac <= 255,
        0 <= info.qp_y_dc <= 255,
        0 <= info.qp_ch_dc <= 255,
        0 <= info.qp_ch_ac <= 255,
{
    let c = quantization_params_at(data);
    reveal(Cursor::u);
    crate::bits::lemma_bits_value_bound(c.data, c.pos, 8);
    crate::bits::lemma_small_powers();
}

/// A decode of the file that a decoder was made from hands the driver the
/// bytes of the frame payload, which lie inside the file.
pub proof fn law_payload_lies_in_file(ivf: Seq<u8>)
    requires
        decoder_error(ivf) is None,
    ensures
        first_frame_error(ivf) is None,
        FIRST_PAYLOAD_OFFSET + first_payload(ivf).len() <= ivf.len(),
        first_payload(ivf) == ivf.subrange(
            FIRST_PAYLOAD_OFFSET as int,
            FIRST_PAYLOAD_OFFSET + first_payload(ivf).len(),
        ),
{
    let body = ivf.skip(32);
    let n = little_endian(body.subrange(0, 4));
    assert(body.subrange(12, 12 + n as int) == ivf.subrange(44, 44 + n as int));
}

/// The driver decoder is asked for as profile 0, number 27, in the size of the
/// frame, and with room for as many references as there are flags for refreshing
/// them.
pub proof fn law_request_by_numbers(h: Vp9UncompressedHeader)
    ensures
        request_for(h).profile == 27,
        request_for(h).width == h.width,
        request_for(h).height == h.height,
        crate::bits::two_to(request_for(h).max_references as nat) == 0xff + 1,
{
    crate::bits::lemma_small_powers();
}

/// A file without frames is refused.
pub proof fn law_empty_file_is_refused(file: IvfHeader, rate: Seq<u8>)
    requires
        rate.len() == 16,
    ensures
        decoder_error(ivf_header_bytes(file, rate)) == Some(
            crate::device::failure("IVF has no frames"@),
        ),
{
    let none = Seq::<u8>::empty();
    let buf = ivf_header_bytes(file, rate);
    law_ivf_header_reads_back(file, rate, none);
    assert(buf + none == buf);
    assert(buf.skip(32).len() == 0);
    law_other_files_are_refused(buf);
}

/// If the driver does what it is asked, decoding the file that
/// a decoder was made from creates a surface, renders, reads back planes of the
/// size that the decoder expects, and ends with the frame they hold.
pub proof fn law_decode_succeeds_with_the_driver(
    ivf: Seq<u8>,
    p: Vp9UncompressedHeader,
    planes: crate::frame::Nv12Planes,
    first: DecodeAction<VdpPictureInfoVP9>,
    second: DecodeAction<VdpPictureInfoVP9>,
    third: DecodeAction<VdpPictureInfoVP9>,
    last: DecodeAction<VdpPictureInfoVP9>,
)
    requires
        decoder_error(ivf) is None,
        header_of(p, first_payload(ivf)),
        decode_step(p, ivf, DecodeEvent::Started, first),
        decode_step(p, ivf, DecodeEvent::SurfaceCreated(Ok(())), second),
        decode_step(p, ivf, DecodeEvent::Rendered(Ok(())), third),
        third matches DecodeAction::ReadBits { plane_lens, .. } ==> planes.y@.len()
            == plane_lens[0] && planes.uv@.len() == plane_lens[1],
        decode_step(p, ivf, DecodeEvent::BitsRead(Ok(planes)), last),
    ensures
        (first matches DecodeAction::CreateSurface { chroma_type, width, height } && chroma_type == 0
            && width == p.width && height == p.height),
        second is Render,
        (third matches DecodeAction::ReadBits { format, plane_lens, pitches } && format == 0
            && pitches[0] == p.width && pitches[1] == p.width - p.width % 2),
        planes.fits(p.width, p.height),
        last matches DecodeAction::Finish(Ok(frame)) && frame.shows(planes, p.width, p.height),
        (last matches DecodeAction::Finish(Ok(frame)) && frame.width == p.width && frame.height == p.height
            && frame.y@ == planes.y@ && forall|i: int|
            0 <= i < frame.u@.len() ==> #[trigger] frame.u@[i] == planes.uv@[2 * i]),
        (last matches DecodeAction::Finish(Ok(frame)) && forall|i: int|
            0 <= i < frame.v@.len() ==> #[trigger] frame.v@[i] == planes.uv@[2 * i + 1]),
{
}

/// The decode ends with a frame only when the surface was read back, and the
/// frame is what was read. An error of the driver ends it with that error.
pub proof fn law_decode_outcome(
    h: Vp9UncompressedHeader,
    ivf: Seq<u8>,
    event: DecodeEvent,
    action: DecodeAction<VdpPictureInfoVP9>,
)
    requires
        decode_step(h, ivf, event, action),
    ensures
        action matches DecodeAction::Finish(Ok(frame)) ==> event matches DecodeEvent::BitsRead(
            Ok(planes),
        ) && frame.shows(planes, h.width, h.height),
        event matches DecodeEvent::SurfaceCreated(Err(e)) ==> action.fails(e@),
        event matches DecodeEvent::Rendered(Err(e)) ==> action.fails(e@),
        event matches DecodeEvent::BitsRead(Err(e)) ==> action.fails(e@),
{
}

} // verus!
