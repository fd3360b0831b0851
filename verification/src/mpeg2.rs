//! MPEG-2 video headers and the decode of a single I-picture.
//!
//! The sequence header, the picture header and the picture coding extension
//! are found by their start codes, `00 00 01` and a code byte. MPEG-2 streams
//! carry no emulation-prevention bytes.

use crate::bits::{BitReader, Cursor};
use crate::device::{Failure, VdpError};
use crate::engine::{validate_request, HwDeviceInfo};
use crate::frame::{
    after_read, after_render, create_surface, render, DecodeAction, DecodeEvent, DecoderRequest,
};
use crate::sys::{VdpPictureInfoMPEG1Or2, VDP_DECODER_PROFILE_MPEG2_MAIN, VDP_INVALID_HANDLE};
use crate::text::decimal_text;
use vstd::prelude::*;
use vstd::slice::slice_subrange;
use vstd::string::*;

verus! {

// Quantizer matrices.

/// Intra quantizer matrix that applies when a stream sends none. Like a matrix
/// that a stream sends, it is handled as being in zig-zag order.
pub const DEFAULT_INTRA_QUANT: [u8; 64] = [
    8, 16, 19, 22, 26, 27, 29, 34, 16, 16, 22, 24, 27, 29, 34, 37, 19, 22, 26, 27, 29, 34, 34, 38,
    22, 22, 26, 27, 29, 34, 37, 40, 22, 26, 27, 29, 32, 35, 40, 48, 26, 27, 29, 32, 35, 40, 48, 58,
    26, 27, 29, 34, 38, 46, 56, 69, 27, 29, 35, 38, 46, 56, 69, 83,
];

/// Non-intra quantizer value that applies when a stream sends no matrix.
pub const DEFAULT_NON_INTRA_QUANT: u8 = 16;

/// The raster index of each place in zig-zag order.
pub const ZIGZAG_TO_RASTER: [u8; 64] = [
    0, 1, 8, 16, 9, 2, 3, 10, 17, 24, 32, 25, 18, 11, 4, 5, 12, 19, 26, 33, 40, 48, 41, 34, 27, 20,
    13, 6, 7, 14, 21, 28, 35, 42, 49, 56, 57, 50, 43, 36, 29, 22, 15, 23, 30, 37, 44, 51, 58, 59,
    52, 45, 38, 31, 39, 46, 53, 60, 61, 54, 47, 55, 62, 63,
];

/// The place in zig-zag order of each raster index.
pub const RASTER_TO_ZIGZAG: [u8; 64] = [
    0, 1, 5, 6, 14, 15, 27, 28, 2, 4, 7, 13, 16, 26, 29, 42, 3, 8, 12, 17, 25, 30, 41, 43, 9, 11,
    18, 24, 31, 40, 44, 53, 10, 19, 23, 32, 39, 45, 52, 54, 20, 22, 33, 38, 46, 51, 55, 60, 21, 34,
    37, 47, 50, 56, 59, 61, 35, 36, 48, 49, 57, 58, 62, 63,
];

/// Zig-zag order is a permutation of the raster indices: the two tables undo
/// each other.
pub proof fn law_zigzag_is_a_permutation(i: int)
    requires
        0 <= i < 64,
    ensures
        ZIGZAG_TO_RASTER[i] < 64,
        RASTER_TO_ZIGZAG[i] < 64,
        RASTER_TO_ZIGZAG[ZIGZAG_TO_RASTER[i] as int] == i,
        ZIGZAG_TO_RASTER[RASTER_TO_ZIGZAG[i] as int] == i,
{
}

/// Put a matrix that is in zig-zag order into raster order.
pub fn zigzag_to_raster_quant(zz: &[u8; 64]) -> (out: [u8; 64])
    ensures
        forall|i: int| 0 <= i < 64 ==> out[#[trigger] ZIGZAG_TO_RASTER[i] as int] == zz[i],
        forall|k: int| 0 <= k < 64 ==> #[trigger] out[k] == zz[RASTER_TO_ZIGZAG[k] as int],
{
    let order: [u8; 64] = ZIGZAG_TO_RASTER;
    let mut out: [u8; 64] = [0; 64];
    let mut i: usize = 0;
    while i < 64
        invariant
            i <= 64,
            order == ZIGZAG_TO_RASTER,
            forall|k: int|
                0 <= k < 64 && RASTER_TO_ZIGZAG[k] < i ==> #[trigger] out[k]
                    == zz[RASTER_TO_ZIGZAG[k] as int],
        decreases 64 - i,
    {
        proof {
            law_zigzag_is_a_permutation(i as int);
        }
        out[order[i] as usize] = zz[i];
        proof {
            assert forall|k: int| 0 <= k < 64 && RASTER_TO_ZIGZAG[k] < i + 1 implies #[trigger] out[k]
                == zz[RASTER_TO_ZIGZAG[k] as int] by {
                law_zigzag_is_a_permutation(k);
            }
        }
        i = i + 1;
    }
    proof {
        assert forall|k: int| 0 <= k < 64 implies #[trigger] out[k] == zz[RASTER_TO_ZIGZAG[k] as int] by {
            law_zigzag_is_a_permutation(k);
        }
        assert forall|j: int| 0 <= j < 64 implies out[#[trigger] ZIGZAG_TO_RASTER[j] as int]
            == zz[j] by {
            law_zigzag_is_a_permutation(j);
        }
    }
    out
}

// Start codes.

/// True if a start code stands at `i`, with its code byte.
pub open spec fn code_at(buf: Seq<u8>, i: int) -> bool {
    &&& 0 <= i
    &&& i + 3 < buf.len()
    &&& buf[i] == 0
    &&& buf[i + 1] == 0
    &&& buf[i + 2] == 1
}

/// The start codes from `i` on, each with its code byte and the position
/// behind it. A code byte is never the first byte of another start code.
pub open spec fn codes_from(buf: Seq<u8>, i: int) -> Seq<(u8, int)>
    decreases buf.len() - i,
{
    if i < 0 || i + 3 >= buf.len() {
        Seq::empty()
    } else if code_at(buf, i) {
        seq![(buf[i + 3], i + 4)] + codes_from(buf, i + 4)
    } else {
        codes_from(buf, i + 1)
    }
}

/// The pairs with positions as integers.
pub open spec fn pairs(codes: Seq<(u8, usize)>) -> Seq<(u8, int)> {
    Seq::new(codes.len(), |i: int| (codes[i].0, codes[i].1 as int))
}

/// Pairs keep their order, their code and their position.
pub proof fn law_pairs_keep_order(codes: Seq<(u8, usize)>, i: int)
    requires
        0 <= i < codes.len(),
    ensures
        pairs(codes).len() == codes.len(),
        pairs(codes)[i].0 == codes[i].0,
        pairs(codes)[i].1 == codes[i].1,
{
}

/// Locate every start code. Returns for each the code byte and the position
/// behind it.
pub fn find_start_codes(buf: &[u8]) -> (out: Vec<(u8, usize)>)
    ensures
        pairs(out@) == codes_from(buf@, 0),
        forall|i: int| 0 <= i < out@.len() ==> (#[trigger] out@[i]).1 <= buf@.len(),
{
    let mut out: Vec<(u8, usize)> = Vec::new();
    let mut i: usize = 0;
    let n: usize = buf.len();
    assert(pairs(out@) == Seq::<(u8, int)>::empty());
    while n - i > 3
        invariant
            i <= n == buf@.len(),
            pairs(out@) + codes_from(buf@, i as int) == codes_from(buf@, 0),
            forall|k: int| 0 <= k < out@.len() ==> (#[trigger] out@[k]).1 <= n,
        decreases n - i,
    {
        if buf[i] == 0 && buf[i + 1] == 0 && buf[i + 2] == 1 {
            let ghost before = pairs(out@);
            out.push((buf[i + 3], i + 4));
            assert(pairs(out@) == before + seq![(buf@[i + 3], i + 4)]);
            i = i + 4;
        } else {
            i = i + 1;
        }
    }
    assert(codes_from(buf@, i as int) == Seq::<(u8, int)>::empty());
    assert(pairs(out@) == codes_from(buf@, 0));
    out
}

/// True if `code` is the code byte of a slice.
pub open spec fn slice_code(code: u8) -> bool {
    0x01 <= code <= 0xaf
}

/// The first position from `i` on where the start code of a slice stands, or
/// the end.
pub open spec fn first_slice(buf: Seq<u8>, i: int) -> int
    decreases buf.len() - i,
{
    if i < 0 || i + 3 >= buf.len() {
        buf.len() as int
    } else if code_at(buf, i) {
        if slice_code(buf[i + 3]) {
            i
        } else {
            first_slice(buf, i + 4)
        }
    } else {
        first_slice(buf, i + 1)
    }
}

/// Find the start code of the first slice.
pub fn locate_first_slice(buf: &[u8]) -> (at: Option<usize>)
    ensures
        match at {
            Some(i) => i < buf@.len() && i == first_slice(buf@, 0),
            None => first_slice(buf@, 0) == buf@.len(),
        },
{
    let n: usize = buf.len();
    let mut i: usize = 0;
    while n - i > 3
        invariant
            i <= n == buf@.len(),
            first_slice(buf@, 0) == first_slice(buf@, i as int),
        decreases n - i,
    {
        if buf[i] == 0 && buf[i + 1] == 0 && buf[i + 2] == 1 {
            let code: u8 = buf[i + 3];
            if 0x01 <= code && code <= 0xaf {
                return Some(i);
            }
            i = i + 4;
        } else {
            i = i + 1;
        }
    }
    None
}

/// The index of the first start code from `k` on that is a slice's, or the
/// number of codes.
pub open spec fn first_slice_index(codes: Seq<(u8, int)>, k: int) -> int
    decreases codes.len() - k,
{
    if k < 0 || k >= codes.len() {
        codes.len() as int
    } else if slice_code(codes[k].0) {
        k
    } else {
        first_slice_index(codes, k + 1)
    }
}

/// The first slice is the first of the start codes that has a slice's code
/// byte.
pub proof fn law_first_slice_is_among_the_codes(buf: Seq<u8>)
    ensures
        ({
            let codes = codes_from(buf, 0);
            let k = first_slice_index(codes, 0);
            if k < codes.len() {
                first_slice(buf, 0) == codes[k].1 - 4
            } else {
                first_slice(buf, 0) == buf.len()
            }
        }),
{
    lemma_first_slice(buf, 0);
}

proof fn lemma_first_slice(buf: Seq<u8>, i: int)
    requires
        0 <= i,
    ensures
        ({
            let codes = codes_from(buf, i);
            let k = first_slice_index(codes, 0);
            &&& 0 <= k <= codes.len()
            &&& k < codes.len() ==> first_slice(buf, i) == codes[k].1 - 4
            &&& k == codes.len() ==> first_slice(buf, i) == buf.len()
        }),
    decreases buf.len() - i,
{
    let codes = codes_from(buf, i);
    if i + 3 < buf.len() {
        if code_at(buf, i) {
            let rest = codes_from(buf, i + 4);
            lemma_first_slice(buf, i + 4);
            assert(codes[0] == (buf[i + 3], i + 4));
            if !slice_code(buf[i + 3]) {
                lemma_index_shift(codes, rest, 0);
            }
        } else {
            lemma_first_slice(buf, i + 1);
        }
    }
}

proof fn lemma_index_shift(codes: Seq<(u8, int)>, rest: Seq<(u8, int)>, k: int)
    requires
        0 <= k <= rest.len(),
        codes.len() == rest.len() + 1,
        forall|j: int| 0 <= j < rest.len() ==> #[trigger] codes[j + 1] == rest[j],
    ensures
        first_slice_index(codes, k + 1) == first_slice_index(rest, k) + 1,
    decreases rest.len() - k,
{
    if k < rest.len() {
        assert(codes[k + 1] == rest[k]);
        if !slice_code(rest[k].0) {
            lemma_index_shift(codes, rest, k + 1);
        }
    }
}

// Headers.

/// Sequence header.
#[derive(Debug, Clone, Copy)]
pub struct SequenceHeader {
    pub width: u32,
    pub height: u32,
    pub aspect_ratio: u8,
    pub frame_rate_code: u8,
    pub bit_rate_value: u32,
    pub load_intra_quantizer_matrix: u8,
    /// In zig-zag order.
    pub intra_quantizer_matrix: [u8; 64],
    pub load_non_intra_quantizer_matrix: u8,
    /// In zig-zag order.
    pub non_intra_quantizer_matrix: [u8; 64],
}

/// Picture header.
#[derive(Debug, Clone, Copy)]
pub struct PictureHeader {
    pub temporal_reference: u32,
    /// 1 for an I-picture, 2 for P, 3 for B.
    pub picture_coding_type: u8,
    pub vbv_delay: u32,
    pub full_pel_forward_vector: u8,
    pub full_pel_backward_vector: u8,
    pub f_code: [[u8; 2]; 2],
}

/// Picture coding extension.
#[derive(Debug, Clone, Copy)]
pub struct PictureCodingExtension {
    pub f_code: [[u8; 2]; 2],
    pub intra_dc_precision: u8,
    pub picture_structure: u8,
    pub top_field_first: u8,
    pub frame_pred_frame_dct: u8,
    pub concealment_motion_vectors: u8,
    pub q_scale_type: u8,
    pub intra_vlc_format: u8,
    pub alternate_scan: u8,
    pub repeat_first_field: u8,
    pub chroma_420_type: u8,
    pub progressive_frame: u8,
}

/// Where the flag for an intra matrix stands in a sequence header.
pub open spec fn intra_flag_at(bytes: Seq<u8>) -> Cursor {
    Cursor::start(bytes).skip(62)
}

/// Where the flag for a non-intra matrix stands: behind the intra matrix, if
/// there is one.
pub open spec fn non_intra_flag_at(bytes: Seq<u8>) -> Cursor {
    let c = intra_flag_at(bytes);
    if c.flag() == 1 {
        c.skip(1 + 512)
    } else {
        c.skip(1)
    }
}

/// True if `s` is the sequence header at the start of `bytes`. A matrix that is
/// not sent is the default one.
pub open spec fn sequence_header_of(s: SequenceHeader, bytes: Seq<u8>) -> bool {
    let c = Cursor::start(bytes);
    let intra = intra_flag_at(bytes);
    let non_intra = non_intra_flag_at(bytes);
    &&& s.width == c.u(12)
    &&& s.height == c.skip(12).u(12)
    &&& s.aspect_ratio == c.skip(24).u(4)
    &&& s.frame_rate_code == c.skip(28).u(4)
    &&& s.bit_rate_value == c.skip(32).u(18)
    &&& s.load_intra_quantizer_matrix == intra.flag()
    &&& forall|i: int|
        0 <= i < 64 ==> #[trigger] s.intra_quantizer_matrix[i] == (if intra.flag() == 1 {
            intra.skip((1 + 8 * i) as nat).u(8)
        } else {
            DEFAULT_INTRA_QUANT[i] as nat
        })
    &&& s.load_non_intra_quantizer_matrix == non_intra.flag()
    &&& forall|i: int|
        0 <= i < 64 ==> #[trigger] s.non_intra_quantizer_matrix[i] == (if non_intra.flag() == 1 {
            non_intra.skip((1 + 8 * i) as nat).u(8)
        } else {
            DEFAULT_NON_INTRA_QUANT as nat
        })
}

/// Read a matrix of 64 bytes.
fn read_matrix(r: &mut BitReader<'_>) -> (matrix: [u8; 64])
    requires
        old(r)@.pos + 512 <= u128::MAX,
    ensures
        forall|i: int|
            0 <= i < 64 ==> #[trigger] matrix[i] == old(r)@.skip((8 * i) as nat).u(8),
        final(r)@ == old(r)@.skip(512),
{
    proof {
        crate::bits::lemma_small_powers();
    }
    let ghost c = r@;
    let mut matrix: [u8; 64] = [0; 64];
    let mut i: usize = 0;
    while i < 64
        invariant
            i <= 64,
            c.pos + 512 <= u128::MAX,
            crate::bits::two_to(8) == 256,
            r@ == c.skip((8 * i) as nat),
            forall|j: int| 0 <= j < i ==> #[trigger] matrix[j] == c.skip((8 * j) as nat).u(8),
        decreases 64 - i,
    {
        let q: u8 = r.u(8) as u8;
        matrix[i] = q;
        i = i + 1;
    }
    matrix
}

/// Parse a sequence header, which starts behind its start code.
pub fn parse_sequence_header(bytes: &[u8]) -> (res: Result<SequenceHeader, VdpError>)
    ensures
        bytes@.len() < 8 ==> (res matches Err(e) && e@ == crate::device::failure(
            "parse_sequence_header: too short"@,
        )),
        bytes@.len() >= 8 ==> (res matches Ok(s) && sequence_header_of(s, bytes@)),
{
    if bytes.len() < 8 {
        return Err(VdpError::other("parse_sequence_header: too short".to_owned()));
    }
    proof {
        crate::bits::lemma_small_powers();
    }
    let mut r: BitReader<'_> = BitReader::new(bytes);
    let width: u32 = r.u(12);
    let height: u32 = r.u(12);
    let aspect_ratio: u8 = r.u(4) as u8;
    let frame_rate_code: u8 = r.u(4) as u8;
    let bit_rate_value: u32 = r.u(18);
    r.skip(12);
    let load_intra_quantizer_matrix: u8 = r.flag();
    let intra_quantizer_matrix: [u8; 64] = if load_intra_quantizer_matrix != 0 {
        read_matrix(&mut r)
    } else {
        DEFAULT_INTRA_QUANT
    };
    assert(r@ == non_intra_flag_at(bytes@));
    let load_non_intra_quantizer_matrix: u8 = r.flag();
    let non_intra_quantizer_matrix: [u8; 64] = if load_non_intra_quantizer_matrix != 0 {
        read_matrix(&mut r)
    } else {
        [DEFAULT_NON_INTRA_QUANT; 64]
    };
    proof {
        let intra = intra_flag_at(bytes@);
        let non_intra = non_intra_flag_at(bytes@);
        assert forall|i: int| 0 <= i < 64 implies #[trigger] intra.skip((1 + 8 * i) as nat)
            == intra.skip(1).skip((8 * i) as nat) by {}
        assert forall|i: int| 0 <= i < 64 implies #[trigger] non_intra.skip((1 + 8 * i) as nat)
            == non_intra.skip(1).skip((8 * i) as nat) by {}
    }
    Ok(
        SequenceHeader {
            width,
            height,
            aspect_ratio,
            frame_rate_code,
            bit_rate_value,
            load_intra_quantizer_matrix,
            intra_quantizer_matrix,
            load_non_intra_quantizer_matrix,
            non_intra_quantizer_matrix,
        },
    )
}

/// True if `p` is the picture header at the start of `bytes`. P- and
/// B-pictures carry forward vectors, B-pictures also backward vectors; what is
/// not carried is 0.
pub open spec fn picture_header_of(p: PictureHeader, bytes: Seq<u8>) -> bool {
    let c = Cursor::start(bytes);
    let t = c.skip(10).u(3);
    let forward = t == 2 || t == 3;
    let backward = t == 3;
    &&& p.temporal_reference == c.u(10)
    &&& p.picture_coding_type == t
    &&& p.vbv_delay == c.skip(13).u(16)
    &&& p.full_pel_forward_vector == (if forward {
        c.skip(29).flag()
    } else {
        0
    })
    &&& p.full_pel_backward_vector == (if backward {
        c.skip(33).flag()
    } else {
        0
    })
    &&& forall|i: int|
        0 <= i < 2 ==> #[trigger] p.f_code[0][i] == (if forward {
            c.skip(30).u(3)
        } else {
            0
        })
    &&& forall|i: int|
        0 <= i < 2 ==> #[trigger] p.f_code[1][i] == (if backward {
            c.skip(34).u(3)
        } else {
            0
        })
}

/// Parse a picture header, which starts behind its start code.
pub fn parse_picture_header(bytes: &[u8]) -> (res: Result<PictureHeader, VdpError>)
    ensures
        bytes@.len() < 4 ==> (res matches Err(e) && e@ == crate::device::failure(
            "parse_picture_header: too short"@,
        )),
        bytes@.len() >= 4 ==> (res matches Ok(p) && picture_header_of(p, bytes@)),
{
    if bytes.len() < 4 {
        return Err(VdpError::other("parse_picture_header: too short".to_owned()));
    }
    proof {
        crate::bits::lemma_small_powers();
    }
    let mut r: BitReader<'_> = BitReader::new(bytes);
    let temporal_reference: u32 = r.u(10);
    let picture_coding_type: u8 = r.u(3) as u8;
    let vbv_delay: u32 = r.u(16);
    let mut full_pel_forward_vector: u8 = 0;
    let mut full_pel_backward_vector: u8 = 0;
    let mut forward_f_code: u8 = 0;
    let mut backward_f_code: u8 = 0;
    if picture_coding_type == 2 || picture_coding_type == 3 {
        full_pel_forward_vector = r.flag();
        forward_f_code = r.u(3) as u8;
    }
    if picture_coding_type == 3 {
        full_pel_backward_vector = r.flag();
        backward_f_code = r.u(3) as u8;
    }
    Ok(
        PictureHeader {
            temporal_reference,
            picture_coding_type,
            vbv_delay,
            full_pel_forward_vector,
            full_pel_backward_vector,
            f_code: [[forward_f_code, forward_f_code], [backward_f_code, backward_f_code]],
        },
    )
}

/// The error that stands against reading a picture coding extension at the
/// start of `bytes`.
pub open spec fn coding_extension_error(bytes: Seq<u8>) -> Option<Failure> {
    let ext_id = Cursor::start(bytes).u(4);
    if bytes.len() < 4 {
        Some(crate::device::failure("parse_picture_coding_extension: too short"@))
    } else if ext_id != 8 {
        Some(
            crate::device::failure(
                "parse_picture_coding_extension: ext_id="@ + crate::text::decimal(ext_id)
                    + " != 8"@,
            ),
        )
    } else {
        None
    }
}

/// True if `e` is the picture coding extension at the start of `bytes`.
pub open spec fn coding_extension_of(e: PictureCodingExtension, bytes: Seq<u8>) -> bool {
    let c = Cursor::start(bytes);
    &&& e.f_code[0][0] == c.skip(4).u(4)
    &&& e.f_code[0][1] == c.skip(8).u(4)
    &&& e.f_code[1][0] == c.skip(12).u(4)
    &&& e.f_code[1][1] == c.skip(16).u(4)
    &&& e.intra_dc_precision == c.skip(20).u(2)
    &&& e.picture_structure == c.skip(22).u(2)
    &&& e.top_field_first == c.skip(24).flag()
    &&& e.frame_pred_frame_dct == c.skip(25).flag()
    &&& e.concealment_motion_vectors == c.skip(26).flag()
    &&& e.q_scale_type == c.skip(27).flag()
    &&& e.intra_vlc_format == c.skip(28).flag()
    &&& e.alternate_scan == c.skip(29).flag()
    &&& e.repeat_first_field == c.skip(30).flag()
    &&& e.chroma_420_type == c.skip(31).flag()
    &&& e.progressive_frame == c.skip(32).flag()
}

/// True if every field of `e` is 0.
pub open spec fn blank_extension(e: PictureCodingExtension) -> bool {
    &&& forall|i: int, j: int| 0 <= i < 2 && 0 <= j < 2 ==> #[trigger] e.f_code[i][j] == 0
    &&& e.intra_dc_precision == 0
    &&& e.picture_structure == 0
    &&& e.top_field_first == 0
    &&& e.frame_pred_frame_dct == 0
    &&& e.concealment_motion_vectors == 0
    &&& e.q_scale_type == 0
    &&& e.intra_vlc_format == 0
    &&& e.alternate_scan == 0
    &&& e.repeat_first_field == 0
    &&& e.chroma_420_type == 0
    &&& e.progressive_frame == 0
}

impl Default for PictureCodingExtension {
    fn default() -> (e: PictureCodingExtension)
        ensures
            blank_extension(e),
    {
        PictureCodingExtension {
            f_code: [[0; 2]; 2],
            intra_dc_precision: 0,
            picture_structure: 0,
            top_field_first: 0,
            frame_pred_frame_dct: 0,
            concealment_motion_vectors: 0,
            q_scale_type: 0,
            intra_vlc_format: 0,
            alternate_scan: 0,
            repeat_first_field: 0,
            chroma_420_type: 0,
            progressive_frame: 0,
        }
    }
}

/// Parse a picture coding extension, which starts behind its start code.
pub fn parse_picture_coding_extension(bytes: &[u8]) -> (res: Result<
    PictureCodingExtension,
    VdpError,
>)
    ensures
        match coding_extension_error(bytes@) {
            Some(f) => res matches Err(e) && e@ == f,
            None => res matches Ok(e) && coding_extension_of(e, bytes@),
        },
{
    if bytes.len() < 4 {
        return Err(VdpError::other("parse_picture_coding_extension: too short".to_owned()));
    }
    proof {
        crate::bits::lemma_small_powers();
    }
    let mut r: BitReader<'_> = BitReader::new(bytes);
    let ext_id: u32 = r.u(4);
    if ext_id != 8 {
        return Err(
            VdpError::other(
                "parse_picture_coding_extension: ext_id=".to_owned().concat(
                    decimal_text(ext_id as u64).as_str(),
                ).concat(" != 8"),
            ),
        );
    }
    let f00: u8 = r.u(4) as u8;
    let f01: u8 = r.u(4) as u8;
    let f10: u8 = r.u(4) as u8;
    let f11: u8 = r.u(4) as u8;
    let intra_dc_precision: u8 = r.u(2) as u8;
    let picture_structure: u8 = r.u(2) as u8;
    let top_field_first: u8 = r.flag();
    let frame_pred_frame_dct: u8 = r.flag();
    let concealment_motion_vectors: u8 = r.flag();
    let q_scale_type: u8 = r.flag();
    let intra_vlc_format: u8 = r.flag();
    let alternate_scan: u8 = r.flag();
    let repeat_first_field: u8 = r.flag();
    let chroma_420_type: u8 = r.flag();
    let progressive_frame: u8 = r.flag();
    Ok(
        PictureCodingExtension {
            f_code: [[f00, f01], [f10, f11]],
            intra_dc_precision,
            picture_structure,
            top_field_first,
            frame_pred_frame_dct,
            concealment_motion_vectors,
            q_scale_type,
            intra_vlc_format,
            alternate_scan,
            repeat_first_field,
            chroma_420_type,
            progressive_frame,
        },
    )
}

// The I-picture.

/// Code byte of a picture header.
pub const PICTURE_START_CODE: u8 = 0x00;

/// Code byte of a sequence header.
pub const SEQUENCE_HEADER_CODE: u8 = 0xb3;

/// Code byte of an extension.
pub const EXTENSION_START_CODE: u8 = 0xb5;

/// The index of the first start code from `k` on with code byte `code`, or
/// the number of codes.
pub open spec fn first_code(codes: Seq<(u8, int)>, code: u8, k: int) -> int
    decreases codes.len() - k,
{
    if k < 0 || k >= codes.len() {
        codes.len() as int
    } else if codes[k].0 == code {
        k
    } else {
        first_code(codes, code, k + 1)
    }
}

/// True if start code `k` announces a picture coding extension.
pub open spec fn announces_extension(buf: Seq<u8>, codes: Seq<(u8, int)>, k: int) -> bool {
    &&& codes[k].0 == EXTENSION_START_CODE
    &&& codes[k].1 < buf.len()
    &&& buf[codes[k].1] >> 4 == 8
}

/// The index of the first start code from `k` on that announces a picture
/// coding extension, or the number of codes.
pub open spec fn first_extension(buf: Seq<u8>, codes: Seq<(u8, int)>, k: int) -> int
    decreases codes.len() - k,
{
    if k < 0 || k >= codes.len() {
        codes.len() as int
    } else if announces_extension(buf, codes, k) {
        k
    } else {
        first_extension(buf, codes, k + 1)
    }
}

/// What follows start code `k`.
pub open spec fn behind_code(buf: Seq<u8>, codes: Seq<(u8, int)>, k: int) -> Seq<u8> {
    buf.skip(codes[k].1)
}

/// The error that stands against making a decoder for `m2v`.
pub open spec fn decoder_error(m2v: Seq<u8>) -> Option<Failure> {
    let codes = codes_from(m2v, 0);
    let seq = first_code(codes, SEQUENCE_HEADER_CODE, 0);
    let pic = first_code(codes, PICTURE_START_CODE, 0);
    let ext = first_extension(m2v, codes, 0);
    let coding_type = Cursor::start(behind_code(m2v, codes, pic)).skip(10).u(3);
    if seq == codes.len() {
        Some(crate::device::failure("MPEG-2: no sequence_header"@))
    } else if behind_code(m2v, codes, seq).len() < 8 {
        Some(crate::device::failure("parse_sequence_header: too short"@))
    } else if pic == codes.len() {
        Some(crate::device::failure("MPEG-2: no picture_header"@))
    } else if behind_code(m2v, codes, pic).len() < 4 {
        Some(crate::device::failure("parse_picture_header: too short"@))
    } else if ext < codes.len() && coding_extension_error(behind_code(m2v, codes, ext)) is Some {
        coding_extension_error(behind_code(m2v, codes, ext))
    } else if coding_type != 1 {
        Some(
            crate::device::failure(
                "MPEG-2: picture_coding_type="@ + crate::text::decimal(coding_type)
                    + " (only I-frames supported)"@,
            ),
        )
    } else {
        None
    }
}

/// What a decoder knows of the stream.
pub struct Mpeg2Parameters {
    pub seq: SequenceHeader,
    pub pic: PictureHeader,
    pub pic_ext: PictureCodingExtension,
}

/// True if `p` are the headers of `m2v`: of each kind the first. Without a
/// picture coding extension all of its fields are 0.
pub open spec fn parameters_of(p: Mpeg2Parameters, m2v: Seq<u8>) -> bool {
    let codes = codes_from(m2v, 0);
    let seq = first_code(codes, SEQUENCE_HEADER_CODE, 0);
    let pic = first_code(codes, PICTURE_START_CODE, 0);
    let ext = first_extension(m2v, codes, 0);
    &&& sequence_header_of(p.seq, behind_code(m2v, codes, seq))
    &&& picture_header_of(p.pic, behind_code(m2v, codes, pic))
    &&& if ext < codes.len() {
        coding_extension_of(p.pic_ext, behind_code(m2v, codes, ext))
    } else {
        blank_extension(p.pic_ext)
    }
}

/// True if `info` describes an I-picture with headers `p`: no references, one
/// slice for each row of macroblocks, quantizer matrices in raster order.
pub open spec fn describes(info: VdpPictureInfoMPEG1Or2, p: Mpeg2Parameters) -> bool {
    &&& info.forward_reference == VDP_INVALID_HANDLE
    &&& info.backward_reference == VDP_INVALID_HANDLE
    &&& info.slice_count == (p.seq.height + 15) / 16
    &&& info.picture_structure == p.pic_ext.picture_structure
    &&& info.picture_coding_type == p.pic.picture_coding_type
    &&& info.intra_dc_precision == p.pic_ext.intra_dc_precision
    &&& info.frame_pred_frame_dct == p.pic_ext.frame_pred_frame_dct
    &&& info.concealment_motion_vectors == p.pic_ext.concealment_motion_vectors
    &&& info.intra_vlc_format == p.pic_ext.intra_vlc_format
    &&& info.alternate_scan == p.pic_ext.alternate_scan
    &&& info.q_scale_type == p.pic_ext.q_scale_type
    &&& info.top_field_first == p.pic_ext.top_field_first
    &&& info.full_pel_forward_vector == 0
    &&& info.full_pel_backward_vector == 0
    &&& info.f_code == p.pic_ext.f_code
    &&& forall|k: int|
        0 <= k < 64 ==> #[trigger] info.intra_quantizer_matrix[k]
            == p.seq.intra_quantizer_matrix[RASTER_TO_ZIGZAG[k] as int]
    &&& forall|k: int|
        0 <= k < 64 ==> #[trigger] info.non_intra_quantizer_matrix[k]
            == p.seq.non_intra_quantizer_matrix[RASTER_TO_ZIGZAG[k] as int]
}

/// The driver decoder that a stream with headers `p` needs.
pub open spec fn request_for(p: Mpeg2Parameters) -> DecoderRequest {
    DecoderRequest {
        profile: VDP_DECODER_PROFILE_MPEG2_MAIN,
        width: p.seq.width,
        height: p.seq.height,
        max_references: 2,
    }
}

/// True if `action` is the right answer to `event` while the I-picture in
/// `m2v` is decoded.
pub open spec fn decode_step(
    p: Mpeg2Parameters,
    m2v: Seq<u8>,
    event: DecodeEvent,
    action: DecodeAction<VdpPictureInfoMPEG1Or2>,
) -> bool {
    let w = p.seq.width;
    let h = p.seq.height;
    let at = first_slice(m2v, 0);
    match event {
        DecodeEvent::Started => action.creates_surface(w, h),
        DecodeEvent::SurfaceCreated(Err(e)) => action.fails(e@),
        DecodeEvent::SurfaceCreated(Ok(_)) => if at < m2v.len() {
            &&& action.renders(at, (m2v.len() - at) as nat)
            &&& action matches DecodeAction::Render { picture_info, .. } && describes(
                picture_info,
                p,
            )
        } else {
            action.fails(crate::device::failure("no MPEG-2 slice start code found"@))
        },
        DecodeEvent::Rendered(result) => action.follows_render(result, w, h),
        DecodeEvent::BitsRead(result) => action.follows_read(result, w, h),
    }
}

/// Find the first start code with code byte `code`; returns the position
/// behind it.
fn find_code(codes: &Vec<(u8, usize)>, code: u8) -> (at: Option<usize>)
    ensures
        ({
            let k = first_code(pairs(codes@), code, 0);
            match at {
                Some(p) => 0 <= k < codes@.len() && p == codes@[k].1,
                None => k == codes@.len(),
            }
        }),
{
    let mut k: usize = 0;
    while k < codes.len()
        invariant
            k <= codes@.len(),
            first_code(pairs(codes@), code, 0) == first_code(pairs(codes@), code, k as int),
        decreases codes.len() - k,
    {
        if codes[k].0 == code {
            return Some(codes[k].1);
        }
        k = k + 1;
    }
    None
}

/// Find the first picture coding extension; returns where it starts.
fn find_extension(m2v: &[u8], codes: &Vec<(u8, usize)>) -> (at: Option<usize>)
    ensures
        ({
            let k = first_extension(m2v@, pairs(codes@), 0);
            match at {
                Some(p) => 0 <= k < codes@.len() && p == codes@[k].1 && p < m2v@.len(),
                None => k == codes@.len(),
            }
        }),
{
    let mut k: usize = 0;
    while k < codes.len()
        invariant
            k <= codes@.len(),
            first_extension(m2v@, pairs(codes@), 0) == first_extension(
                m2v@,
                pairs(codes@),
                k as int,
            ),
        decreases codes.len() - k,
    {
        if codes[k].0 == EXTENSION_START_CODE {
            let start: usize = codes[k].1;
            if start < m2v.len() && m2v[start] >> 4 == 8 {
                return Some(start);
            }
        }
        k = k + 1;
    }
    None
}

/// Decoder for the first picture of a stream, which has to be an I-picture.
#[derive(Debug)]
pub struct Mpeg2VdpauDecoder {
    seq: SequenceHeader,
    pic: PictureHeader,
    pic_ext: PictureCodingExtension,
}

impl View for Mpeg2VdpauDecoder {
    type V = Mpeg2Parameters;

    closed spec fn view(&self) -> Mpeg2Parameters {
        Mpeg2Parameters { seq: self.seq, pic: self.pic, pic_ext: self.pic_ext }
    }
}

impl Mpeg2VdpauDecoder {
    /// Read the headers of a stream. The driver decoder that goes with them is
    /// described by [`Mpeg2VdpauDecoder::decoder_request`].
    pub fn new(m2v: &[u8]) -> (res: Result<Mpeg2VdpauDecoder, VdpError>)
        ensures
            match decoder_error(m2v@) {
                Some(f) => res matches Err(e) && e@ == f,
                None => res matches Ok(d) && parameters_of(d@, m2v@),
            },
    {
        let codes: Vec<(u8, usize)> = find_start_codes(m2v);
        let n: usize = m2v.len();
        let seq: SequenceHeader = match find_code(&codes, SEQUENCE_HEADER_CODE) {
            Some(at) => {
                assert(m2v@.subrange(at as int, n as int) == m2v@.skip(at as int));
                match parse_sequence_header(slice_subrange(m2v, at, n)) {
                    Ok(seq) => seq,
                    Err(e) => {
                        return Err(e);
                    },
                }
            },
            None => {
                return Err(VdpError::other("MPEG-2: no sequence_header".to_owned()));
            },
        };
        let pic: PictureHeader = match find_code(&codes, PICTURE_START_CODE) {
            Some(at) => {
                assert(m2v@.subrange(at as int, n as int) == m2v@.skip(at as int));
                match parse_picture_header(slice_subrange(m2v, at, n)) {
                    Ok(pic) => pic,
                    Err(e) => {
                        return Err(e);
                    },
                }
            },
            None => {
                return Err(VdpError::other("MPEG-2: no picture_header".to_owned()));
            },
        };
        let pic_ext: PictureCodingExtension = match find_extension(m2v, &codes) {
            Some(at) => {
                assert(m2v@.subrange(at as int, n as int) == m2v@.skip(at as int));
                match parse_picture_coding_extension(slice_subrange(m2v, at, n)) {
                    Ok(ext) => ext,
                    Err(e) => {
                        return Err(e);
                    },
                }
            },
            None => PictureCodingExtension::default(),
        };
        if pic.picture_coding_type != 1 {
            return Err(
                VdpError::other(
                    "MPEG-2: picture_coding_type=".to_owned().concat(
                        decimal_text(pic.picture_coding_type as u64).as_str(),
                    ).concat(" (only I-frames supported)"),
                ),
            );
        }
        Ok(Mpeg2VdpauDecoder { seq, pic, pic_ext })
    }

    /// As [`Mpeg2VdpauDecoder::new`], for the device that is asked for. The request is
    /// checked against the devices of the host before anything is read.
    pub fn with_params(
        device_index: Option<u32>,
        devices: &Vec<HwDeviceInfo>,
        m2v: &[u8],
    ) -> (res: Result<Mpeg2VdpauDecoder, VdpError>)
        ensures
            match crate::engine::request_error(device_index, devices@.len()) {
                Some(f) => res matches Err(e) && e@ == f,
                None => match decoder_error(m2v@) {
                    Some(f) => res matches Err(e) && e@ == f,
                    None => res matches Ok(d) && parameters_of(d@, m2v@),
                },
            },
    {
        match validate_request(device_index, devices) {
            Ok(_) => Mpeg2VdpauDecoder::new(m2v),
            Err(e) => Err(e),
        }
    }

    /// The driver decoder that this stream needs.
    pub fn decoder_request(&self) -> (request: DecoderRequest)
        ensures
            request == request_for(self@),
            request.profile == VDP_DECODER_PROFILE_MPEG2_MAIN,
            request.width == self@.seq.width,
            request.height == self@.seq.height,
            request.max_references == 2,
    {
        DecoderRequest {
            profile: VDP_DECODER_PROFILE_MPEG2_MAIN,
            width: self.seq.width,
            height: self.seq.height,
            max_references: 2,
        }
    }

    /// Picture width.
    pub fn width(&self) -> (w: u32)
        ensures
            w == self@.seq.width,
    {
        self.seq.width
    }

    /// Picture height.
    pub fn height(&self) -> (h: u32)
        ensures
            h == self@.seq.height,
    {
        self.seq.height
    }

    /// One step of decoding the picture in `m2v`: what is to be done after
    /// `event`. The driver gets the stream from the first slice on; the
    /// headers reach it through the picture parameters.
    pub fn decode_iframe(&self, m2v: &[u8], event: DecodeEvent) -> (action: DecodeAction<
        VdpPictureInfoMPEG1Or2,
    >)
        requires
            event.fits(self@.seq.width, self@.seq.height),
        ensures
            decode_step(self@, m2v@, event, action),
    {
        match event {
            DecodeEvent::Started => create_surface(self.seq.width, self.seq.height),
            DecodeEvent::SurfaceCreated(Err(e)) => DecodeAction::Finish(Err(e)),
            DecodeEvent::SurfaceCreated(Ok(_)) => match locate_first_slice(m2v) {
                Some(at) => render(self.build_pic_info(), at, m2v.len() - at),
                None => DecodeAction::Finish(
                    Err(VdpError::other("no MPEG-2 slice start code found".to_owned())),
                ),
            },
            DecodeEvent::Rendered(result) => after_render(
                result,
                self.seq.width,
                self.seq.height,
            ),
            DecodeEvent::BitsRead(result) => after_read(result, self.seq.width, self.seq.height),
        }
    }

    fn build_pic_info(&self) -> (info: VdpPictureInfoMPEG1Or2)
        ensures
            describes(info, self@),
    {
        let whole: u32 = self.seq.height / 16;
        let slice_count: u32 = if self.seq.height % 16 == 0 {
            whole
        } else {
            whole + 1
        };
        VdpPictureInfoMPEG1Or2 {
            forward_reference: VDP_INVALID_HANDLE,
            backward_reference: VDP_INVALID_HANDLE,
            slice_count,
            picture_structure: self.pic_ext.picture_structure,
            picture_coding_type: self.pic.picture_coding_type,
            intra_dc_precision: self.pic_ext.intra_dc_precision,
            frame_pred_frame_dct: self.pic_ext.frame_pred_frame_dct,
            concealment_motion_vectors: self.pic_ext.concealment_motion_vectors,
            intra_vlc_format: self.pic_ext.intra_vlc_format,
            alternate_scan: self.pic_ext.alternate_scan,
            q_scale_type: self.pic_ext.q_scale_type,
            top_field_first: self.pic_ext.top_field_first,
            full_pel_forward_vector: 0,
            full_pel_backward_vector: 0,
            f_code: self.pic_ext.f_code,
            intra_quantizer_matrix: zigzag_to_raster_quant(&self.seq.intra_quantizer_matrix),
            non_intra_quantizer_matrix: zigzag_to_raster_quant(
                &self.seq.non_intra_quantizer_matrix,
            ),
        }
    }
}

// Laws.

/// What an encoder writes for a sequence header, with the marker bit, the buffer
/// size and the constrained-parameters flag in `x`.
pub open spec fn written_sequence_header(s: SequenceHeader, x: (nat, nat, nat)) -> crate::writer::Bits {
    let w = crate::writer::Bits::start().u(12, s.width as nat).u(12, s.height as nat).u(
        4,
        s.aspect_ratio as nat,
    ).u(4, s.frame_rate_code as nat).u(18, s.bit_rate_value as nat).flag(x.0).u(10, x.1).flag(
        x.2,
    ).flag(s.load_intra_quantizer_matrix as nat);
    let intra = if s.load_intra_quantizer_matrix == 1 {
        w.bytes(s.intra_quantizer_matrix@)
    } else {
        w
    };
    let non_intra = intra.flag(s.load_non_intra_quantizer_matrix as nat);
    if s.load_non_intra_quantizer_matrix == 1 {
        non_intra.bytes(s.non_intra_quantizer_matrix@)
    } else {
        non_intra
    }
}

/// True if the fields fit in the bits that they are written in.
pub open spec fn writable_sequence_header(s: SequenceHeader, x: (nat, nat, nat)) -> bool {
    &&& s.width < 4096
    &&& s.height < 4096
    &&& s.aspect_ratio < 16
    &&& s.frame_rate_code < 16
    &&& s.bit_rate_value < 0x4_0000
    &&& x.1 < 1024
    &&& s.load_intra_quantizer_matrix <= 1
    &&& s.load_non_intra_quantizer_matrix <= 1
}

/// The default intra matrix, in eight rows.
pub open spec fn printed_intra_matrix() -> Seq<u8> {
    seq![8u8, 16, 19, 22, 26, 27, 29, 34] + seq![16u8, 16, 22, 24, 27, 29, 34, 37]
        + seq![19u8, 22, 26, 27, 29, 34, 34, 38] + seq![22u8, 22, 26, 27, 29, 34, 37, 40]
        + seq![22u8, 26, 27, 29, 32, 35, 40, 48] + seq![26u8, 27, 29, 32, 35, 40, 48, 58]
        + seq![26u8, 27, 29, 34, 38, 46, 56, 69] + seq![27u8, 29, 35, 38, 46, 56, 69, 83]
}

/// A sequence header that was written is read back: its numbers, and the
/// matrices that were sent. A matrix that was not sent is the default one.
#[verifier::rlimit(60)]
pub proof fn law_sequence_header_reads_back(
    data: Seq<u8>,
    s: SequenceHeader,
    x: (nat, nat, nat),
    read: SequenceHeader,
)
    requires
        writable_sequence_header(s, x),
        Cursor::start(data).begins_with(written_sequence_header(s, x)),
        sequence_header_of(read, data),
    ensures
        read.width == s.width,
        read.height == s.height,
        read.aspect_ratio == s.aspect_ratio,
        read.frame_rate_code == s.frame_rate_code,
        read.bit_rate_value == s.bit_rate_value,
        read.load_intra_quantizer_matrix == s.load_intra_quantizer_matrix,
        read.load_non_intra_quantizer_matrix == s.load_non_intra_quantizer_matrix,
        read.intra_quantizer_matrix@ == (if s.load_intra_quantizer_matrix == 1 {
            s.intra_quantizer_matrix@
        } else {
            printed_intra_matrix()
        }),
        read.non_intra_quantizer_matrix@ == (if s.load_non_intra_quantizer_matrix == 1 {
            s.non_intra_quantizer_matrix@
        } else {
            Seq::new(64, |i: int| 16u8)
        }),
        data.len() >= 8,
{
    broadcast use crate::writer::group_reads_back;

    let c = Cursor::start(data);
    crate::bits::lemma_small_powers();
    assert(crate::bits::two_to(10) == 1024 && crate::bits::two_to(12) == 4096
        && crate::bits::two_to(18) == 0x4_0000) by {
        reveal_with_fuel(crate::bits::two_to, 19);
    }
    let intra = intra_flag_at(data);
    let non_intra = non_intra_flag_at(data);
    assert(c.begins_with(written_sequence_header(s, x)));
    assert forall|i: int| 0 <= i < 64 implies #[trigger] read.intra_quantizer_matrix@[i] == (if s.load_intra_quantizer_matrix
        == 1 {
        s.intra_quantizer_matrix@[i]
    } else {
        printed_intra_matrix()[i]
    }) by {
        assert(read.intra_quantizer_matrix[i] == read.intra_quantizer_matrix@[i]);
        if s.load_intra_quantizer_matrix == 1 {
            assert(s.intra_quantizer_matrix@[i] == c.skip((63 + 8 * i) as nat).u(8));
            assert(intra.skip((1 + 8 * i) as nat) == c.skip((63 + 8 * i) as nat));
        } else {
            assert(DEFAULT_INTRA_QUANT[i] == printed_intra_matrix()[i]);
        }
    }
    assert forall|i: int| 0 <= i < 64 implies #[trigger] read.non_intra_quantizer_matrix@[i] == (if s.load_non_intra_quantizer_matrix
        == 1 {
        s.non_intra_quantizer_matrix@[i]
    } else {
        16u8
    }) by {
        assert(read.non_intra_quantizer_matrix[i] == read.non_intra_quantizer_matrix@[i]);
        if s.load_non_intra_quantizer_matrix == 1 {
            let at: nat = if s.load_intra_quantizer_matrix == 1 {
                576
            } else {
                64
            };
            assert(s.non_intra_quantizer_matrix@[i] == c.skip((at + 8 * i) as nat).u(8));
            assert(non_intra.skip((1 + 8 * i) as nat) == c.skip((at + 8 * i) as nat));
        }
    }
    reveal(Cursor::begins_with);
    reveal(crate::writer::Bits::len);
}

/// What an encoder writes for a picture header.
pub open spec fn written_picture_header(
    temporal_reference: nat,
    coding_type: nat,
    vbv_delay: nat,
    forward: (nat, nat),
    backward: (nat, nat),
) -> crate::writer::Bits {
    let w = crate::writer::Bits::start().u(10, temporal_reference).u(3, coding_type).u(16, vbv_delay);
    if coding_type == 2 {
        w.flag(forward.0).u(3, forward.1)
    } else if coding_type == 3 {
        w.flag(forward.0).u(3, forward.1).flag(backward.0).u(3, backward.1)
    } else {
        w
    }
}

/// A picture header that was written is read back. P-pictures have a forward
/// vector range, B-pictures both; what is not written is 0.
pub proof fn law_picture_header_reads_back(
    data: Seq<u8>,
    temporal_reference: nat,
    coding_type: nat,
    vbv_delay: nat,
    forward: (nat, nat),
    backward: (nat, nat),
    read: PictureHeader,
)
    requires
        temporal_reference < 1024,
        coding_type < 8,
        vbv_delay < 0x1_0000,
        forward.1 < 8,
        backward.1 < 8,
        Cursor::start(data).begins_with(
            written_picture_header(temporal_reference, coding_type, vbv_delay, forward, backward),
        ),
        picture_header_of(read, data),
    ensures
        read.temporal_reference == temporal_reference,
        read.picture_coding_type == coding_type,
        read.vbv_delay == vbv_delay,
        coding_type == 2 || coding_type == 3 ==> read.full_pel_forward_vector == forward.0
            && read.f_code[0][0] == forward.1 && read.f_code[0][1] == forward.1,
        coding_type == 3 ==> read.full_pel_backward_vector == backward.0 && read.f_code[1][0]
            == backward.1 && read.f_code[1][1] == backward.1,
        coding_type != 2 && coding_type != 3 ==> read.full_pel_forward_vector == 0
            && read.f_code[0][0] == 0 && read.f_code[0][1] == 0,
        coding_type != 3 ==> read.full_pel_backward_vector == 0 && read.f_code[1][0] == 0
            && read.f_code[1][1] == 0,
        data.len() >= 4,
{
    broadcast use crate::writer::group_reads_back;

    crate::bits::lemma_small_powers();
    assert(crate::bits::two_to(10) == 1024) by {
        reveal_with_fuel(crate::bits::two_to, 11);
    }
    let c = Cursor::start(data);
    let w = crate::writer::Bits::start().u(10, temporal_reference).u(3, coding_type).u(16, vbv_delay);
    assert(c.begins_with(w));
    reveal(Cursor::begins_with);
    reveal(crate::writer::Bits::len);
}

/// What an encoder writes for a picture coding extension: its identifier, the
/// vector ranges, and the fields in the order in which they are sent.
pub open spec fn written_coding_extension(e: PictureCodingExtension) -> crate::writer::Bits {
    crate::writer::Bits::start().u(4, 8).u(4, e.f_code[0][0] as nat).u(4, e.f_code[0][1] as nat).u(
        4,
        e.f_code[1][0] as nat,
    ).u(4, e.f_code[1][1] as nat).u(2, e.intra_dc_precision as nat).u(
        2,
        e.picture_structure as nat,
    ).flag(e.top_field_first as nat).flag(e.frame_pred_frame_dct as nat).flag(
        e.concealment_motion_vectors as nat,
    ).flag(e.q_scale_type as nat).flag(e.intra_vlc_format as nat).flag(
        e.alternate_scan as nat,
    ).flag(e.repeat_first_field as nat).flag(e.chroma_420_type as nat).flag(
        e.progressive_frame as nat,
    )
}

/// True if two extensions have the same fields.
pub open spec fn same_extension(a: PictureCodingExtension, b: PictureCodingExtension) -> bool {
    &&& a.f_code[0][0] == b.f_code[0][0]
    &&& a.f_code[0][1] == b.f_code[0][1]
    &&& a.f_code[1][0] == b.f_code[1][0]
    &&& a.f_code[1][1] == b.f_code[1][1]
    &&& a.intra_dc_precision == b.intra_dc_precision
    &&& a.picture_structure == b.picture_structure
    &&& a.top_field_first == b.top_field_first
    &&& a.frame_pred_frame_dct == b.frame_pred_frame_dct
    &&& a.concealment_motion_vectors == b.concealment_motion_vectors
    &&& a.q_scale_type == b.q_scale_type
    &&& a.intra_vlc_format == b.intra_vlc_format
    &&& a.alternate_scan == b.alternate_scan
    &&& a.repeat_first_field == b.repeat_first_field
    &&& a.chroma_420_type == b.chroma_420_type
    &&& a.progressive_frame == b.progressive_frame
}

/// True if the fields fit in the bits that they are written in.
pub open spec fn writable_coding_extension(e: PictureCodingExtension) -> bool {
    &&& e.f_code[0][0] < 16
    &&& e.f_code[0][1] < 16
    &&& e.f_code[1][0] < 16
    &&& e.f_code[1][1] < 16
    &&& e.intra_dc_precision < 4
    &&& e.picture_structure < 4
}

/// A picture coding extension that was written is accepted and read back, field
/// by field.
pub proof fn law_coding_extension_reads_back(
    data: Seq<u8>,
    e: PictureCodingExtension,
    read: PictureCodingExtension,
)
    requires
        writable_coding_extension(e),
        Cursor::start(data).begins_with(written_coding_extension(e)),
    ensures
        coding_extension_error(data) is None,
        coding_extension_of(read, data) ==> same_extension(read, e),
{
    broadcast use crate::writer::group_reads_back;

    crate::bits::lemma_small_powers();
    let c = Cursor::start(data);
    assert(c.begins_with(written_coding_extension(e)));
    assert(c.u(4) == 8);
    reveal(Cursor::begins_with);
    reveal(crate::writer::Bits::len);
}

/// The raster index that follows raster index `at` in zig-zag order: up and to
/// the right on every other diagonal, down and to the left on the rest, and along
/// the border at their ends.
pub open spec fn zigzag_step(at: int) -> int {
    let row = at / 8;
    let column = at % 8;
    if (row + column) % 2 == 0 {
        if column == 7 {
            at + 8
        } else if row == 0 {
            at + 1
        } else {
            at - 7
        }
    } else {
        if row == 7 {
            at + 1
        } else if column == 0 {
            at + 8
        } else {
            at + 7
        }
    }
}

/// The table follows the diagonals, from the top left corner on.
pub proof fn law_zigzag_follows_the_diagonals(i: int)
    requires
        0 <= i < 63,
    ensures
        ZIGZAG_TO_RASTER[0] == 0,
        ZIGZAG_TO_RASTER[i + 1] == zigzag_step(ZIGZAG_TO_RASTER[i] as int),
{
}

/// A section of a stream: a start code's byte and what follows it.
pub struct Section {
    pub code: u8,
    pub payload: Seq<u8>,
}

/// Sections one after the other, each behind its start code.
pub open spec fn sections(list: Seq<Section>) -> Seq<u8>
    decreases list.len(),
{
    if list.len() == 0 {
        Seq::empty()
    } else {
        seq![0u8, 0u8, 1u8, list[0].code] + list[0].payload + sections(list.skip(1))
    }
}

/// True if no payload holds `00 00 01`.
pub open spec fn plain_sections(list: Seq<Section>) -> bool {
    forall|k: int, i: int|
        0 <= k < list.len() && 0 <= i && i + 2 < list[k].payload.len() ==> !(#[trigger] list[k].payload[i]
            == 0 && list[k].payload[i + 1] == 0 && list[k].payload[i + 2] == 1)
}

/// What stands behind the start code of section `k`.
pub open spec fn section_data(list: Seq<Section>, k: int) -> Seq<u8> {
    list[k].payload + sections(list.skip(k + 1))
}

/// Every section of a stream is found, in order, with its code byte and the
/// position behind it.
pub proof fn law_sections_are_found(list: Seq<Section>)
    requires
        plain_sections(list),
    ensures
        codes_from(sections(list), 0).len() == list.len(),
        forall|k: int|
            0 <= k < list.len() ==> {
                let found = #[trigger] codes_from(sections(list), 0)[k];
                &&& found.0 == list[k].code
                &&& 4 <= found.1 <= sections(list).len()
                &&& sections(list).skip(found.1) == section_data(list, k)
                &&& sections(list).skip(found.1 - 4) == sections(list.skip(k))
            },
{
    assert(sections(list).skip(0) == sections(list));
    lemma_sections(sections(list), 0, list);
}

proof fn lemma_sections(buf: Seq<u8>, at: int, list: Seq<Section>)
    requires
        0 <= at <= buf.len(),
        plain_sections(list),
        buf.skip(at) == sections(list),
    ensures
        codes_from(buf, at).len() == list.len(),
        forall|k: int|
            0 <= k < list.len() ==> {
                let found = #[trigger] codes_from(buf, at)[k];
                &&& found.0 == list[k].code
                &&& at + 4 <= found.1 <= buf.len()
                &&& buf.skip(found.1) == section_data(list, k)
                &&& buf.skip(found.1 - 4) == sections(list.skip(k))
            },
    decreases list.len(),
{
    let tail = buf.skip(at);
    if list.len() == 0 {
        assert(tail.len() == 0);
        assert(codes_from(buf, at) == Seq::<(u8, int)>::empty());
    } else {
        let rest = list.skip(1);
        let payload = list[0].payload;
        let head = seq![0u8, 0u8, 1u8, list[0].code];
        assert(tail == head + payload + sections(rest));
        assert(buf[at] == tail[0] && buf[at + 1] == tail[1] && buf[at + 2] == tail[2] && buf[at + 3]
            == tail[3]);
        assert(code_at(buf, at));
        let next = at + 4 + payload.len();
        assert(tail.skip(4) == payload + sections(rest));
        assert(buf.skip(at + 4) == tail.skip(4));
        assert(tail.skip((4 + payload.len()) as int) == sections(rest));
        assert(buf.skip(next) == tail.skip((4 + payload.len()) as int));
        assert forall|k: int, i: int|
            0 <= k < rest.len() && 0 <= i && i + 2 < rest[k].payload.len() implies !(#[trigger] rest[k].payload[i]
            == 0 && rest[k].payload[i + 1] == 0 && rest[k].payload[i + 2] == 1) by {
            assert(rest[k] == list[k + 1]);
            assert(list[k + 1].payload[i] == rest[k].payload[i]);
        }
        lemma_sections(buf, next, rest);
        assert(buf.subrange(at + 4, next) == payload) by {
            assert(tail.subrange(4, 4 + payload.len() as int) == payload);
            assert(buf.subrange(at + 4, next) == tail.subrange(4, 4 + payload.len() as int));
        }
        assert(payload.skip(0) == payload);
        lemma_skip_payload(buf, at + 4, next, list);
        assert(codes_from(buf, at) == seq![(list[0].code, at + 4)] + codes_from(buf, next));
        assert forall|k: int| 0 <= k < list.len() implies ({
            let found = #[trigger] codes_from(buf, at)[k];
            &&& found.0 == list[k].code
            &&& at + 4 <= found.1 <= buf.len()
            &&& buf.skip(found.1) == section_data(list, k)
            &&& buf.skip(found.1 - 4) == sections(list.skip(k))
        }) by {
            if k == 0 {
                assert(section_data(list, 0) == payload + sections(rest));
                assert(list.skip(0) == list);
            } else {
                assert(rest.skip(k - 1) == list.skip(k));
                assert(codes_from(buf, at)[k] == codes_from(buf, next)[k - 1]);
                assert(rest[k - 1] == list[k]);
                assert(rest.skip(k) == list.skip(k + 1));
            }
        }
    }
}

/// No start code is found inside a payload, nor across its end.
proof fn lemma_skip_payload(buf: Seq<u8>, i: int, next: int, list: Seq<Section>)
    requires
        0 <= i <= next <= buf.len(),
        list.len() > 0,
        plain_sections(list),
        next - i <= list[0].payload.len(),
        buf.subrange(i, next) == list[0].payload.skip(list[0].payload.len() - (next - i)),
        buf.skip(next) == sections(list.skip(1)),
    ensures
        codes_from(buf, i) == codes_from(buf, next),
    decreases next - i,
{
    if i < next {
        let payload = list[0].payload;
        let o = payload.len() - (next - i);
        let rest = list.skip(1);
        let tail = buf.skip(next);
        assert forall|j: int| 0 <= j < next - i implies #[trigger] buf[i + j] == payload[o + j] by {
            assert(buf.subrange(i, next)[j] == payload.skip(o)[j]);
        }
        assert(buf[i + 0] == payload[o + 0]);
        if code_at(buf, i) {
            if i + 2 < next {
                assert(buf[i + 1] == payload[o + 1]);
                assert(buf[i + 2] == payload[o + 2]);
                assert(payload[o] == 0 && payload[o + 1] == 0 && payload[o + 2] == 1);
                assert(list[0].payload[o] == 0);
            } else {
                assert(buf[next] == tail[0]);
                assert(tail.len() >= 2);
                assert(buf[next + 1] == tail[1]);
                assert(tail[0] == 0 && tail[1] == 0);
            }
            assert(false);
        }
        assert(buf.subrange(i + 1, next) == payload.skip(o + 1)) by {
            assert(buf.subrange(i, next).skip(1) == payload.skip(o).skip(1));
            assert(buf.subrange(i, next).skip(1) == buf.subrange(i + 1, next));
            assert(payload.skip(o).skip(1) == payload.skip(o + 1));
        }
        lemma_skip_payload(buf, i + 1, next, list);
        if i + 3 >= buf.len() {
            assert(codes_from(buf, i) == Seq::<(u8, int)>::empty());
            assert(codes_from(buf, next) == Seq::<(u8, int)>::empty());
        }
    }
}

proof fn lemma_first_code(codes: Seq<(u8, int)>, code: u8, k: int, at: int)
    requires
        0 <= k <= at < codes.len(),
        codes[at].0 == code,
        forall|j: int| k <= j < at ==> (#[trigger] codes[j]).0 != code,
    ensures
        first_code(codes, code, k) == at,
    decreases at - k,
{
    if k < at {
        assert(codes[k].0 != code);
        lemma_first_code(codes, code, k + 1, at);
    }
}

proof fn lemma_first_extension(buf: Seq<u8>, codes: Seq<(u8, int)>, k: int, at: int)
    requires
        0 <= k <= at < codes.len(),
        announces_extension(buf, codes, at),
        forall|j: int| k <= j < at ==> !#[trigger] announces_extension(buf, codes, j),
    ensures
        first_extension(buf, codes, k) == at,
    decreases at - k,
{
    if k < at {
        lemma_first_extension(buf, codes, k + 1, at);
    }
}

/// The record that the driver gets for an I-picture says what the encoder wrote
/// in the first sequence header, the first picture header and the first picture
/// coding extension of the stream. The matrices are in raster order.
#[verifier::rlimit(60)]
pub proof fn law_picture_says_what_was_written(
    list: Seq<Section>,
    at: (int, int, int),
    s: SequenceHeader,
    x: (nat, nat, nat),
    picture: (nat, nat),
    e: PictureCodingExtension,
    p: Mpeg2Parameters,
    action: DecodeAction<VdpPictureInfoMPEG1Or2>,
)
    requires
        plain_sections(list),
        0 <= at.0 < list.len(),
        list[at.0].code == 0xb3,
        forall|k: int| 0 <= k < at.0 ==> (#[trigger] list[k]).code != 0xb3,
        0 <= at.1 < list.len(),
        list[at.1].code == 0x00,
        forall|k: int| 0 <= k < at.1 ==> (#[trigger] list[k]).code != 0x00,
        0 <= at.2 < list.len(),
        list[at.2].code == 0xb5,
        forall|k: int|
            0 <= k < at.2 ==> (#[trigger] list[k]).code != 0xb5 || (list[k].payload.len() > 0
                && list[k].payload[0] / 16 != 8),
        writable_sequence_header(s, x),
        Cursor::start(section_data(list, at.0)).begins_with(written_sequence_header(s, x)),
        picture.0 < 1024,
        picture.1 < 0x1_0000,
        Cursor::start(section_data(list, at.1)).begins_with(
            written_picture_header(picture.0, 1, picture.1, (0, 0), (0, 0)),
        ),
        list[at.2].payload.len() > 0,
        writable_coding_extension(e),
        Cursor::start(section_data(list, at.2)).begins_with(written_coding_extension(e)),
    ensures
        decoder_error(sections(list)) is None,
        parameters_of(p, sections(list)) && decode_step(
            p,
            sections(list),
            DecodeEvent::SurfaceCreated(Ok(())),
            action,
        ) ==> {
            &&& p.seq.width == s.width
            &&& p.seq.height == s.height
            &&& action matches DecodeAction::Render { picture_info: info, .. } ==> {
                &&& info.forward_reference == 0xffff_ffff
                &&& info.backward_reference == 0xffff_ffff
                &&& 16 * info.slice_count - 16 < s.height <= 16 * info.slice_count
                &&& info.picture_coding_type == 1
                &&& info.picture_structure == e.picture_structure
                &&& info.intra_dc_precision == e.intra_dc_precision
                &&& info.frame_pred_frame_dct == e.frame_pred_frame_dct
                &&& info.concealment_motion_vectors == e.concealment_motion_vectors
                &&& info.intra_vlc_format == e.intra_vlc_format
                &&& info.alternate_scan == e.alternate_scan
                &&& info.q_scale_type == e.q_scale_type
                &&& info.top_field_first == e.top_field_first
                &&& info.full_pel_forward_vector == 0
                &&& info.full_pel_backward_vector == 0
                &&& info.f_code[0][0] == e.f_code[0][0]
                &&& info.f_code[0][1] == e.f_code[0][1]
                &&& info.f_code[1][0] == e.f_code[1][0]
                &&& info.f_code[1][1] == e.f_code[1][1]
                &&& s.load_intra_quantizer_matrix == 1 ==> forall|i: int|
                    0 <= i < 64 ==> info.intra_quantizer_matrix[#[trigger] ZIGZAG_TO_RASTER[i] as int]
                        == s.intra_quantizer_matrix[i]
                &&& s.load_intra_quantizer_matrix == 0 ==> forall|i: int|
                    0 <= i < 64 ==> info.intra_quantizer_matrix[#[trigger] ZIGZAG_TO_RASTER[i] as int]
                        == printed_intra_matrix()[i]
                &&& s.load_non_intra_quantizer_matrix == 1 ==> forall|i: int|
                    0 <= i < 64
                        ==> info.non_intra_quantizer_matrix[#[trigger] ZIGZAG_TO_RASTER[i] as int]
                        == s.non_intra_quantizer_matrix[i]
                &&& s.load_non_intra_quantizer_matrix == 0 ==> forall|i: int|
                    0 <= i < 64 ==> #[trigger] info.non_intra_quantizer_matrix[i] == 16
            }
        },
{
    let m2v = sections(list);
    let codes = codes_from(m2v, 0);
    law_sections_are_found(list);
    assert(codes[at.0].0 == 0xb3 && codes[at.1].0 == 0x00 && codes[at.2].0 == 0xb5);
    assert forall|j: int| 0 <= j < at.0 implies (#[trigger] codes[j]).0 != 0xb3 by {
        assert(list[j].code != 0xb3);
    }
    assert forall|j: int| 0 <= j < at.1 implies (#[trigger] codes[j]).0 != 0x00 by {
        assert(list[j].code != 0x00);
    }
    lemma_first_code(codes, 0xb3, 0, at.0);
    lemma_first_code(codes, 0x00, 0, at.1);
    assert forall|j: int| 0 <= j < at.2 implies !#[trigger] announces_extension(m2v, codes, j) by {
        assert(list[j].code != 0xb5 || list[j].payload.len() > 0);
        lemma_not_an_extension(list, j);
    }
    let ext = section_data(list, at.2);
    law_coding_extension_reads_back(ext, e, p.pic_ext);
    assert(Cursor::start(ext).u(4) == 8) by {
        assert(coding_extension_error(ext) is None);
    }
    assert(m2v[codes[at.2].1] == m2v.skip(codes[at.2].1)[0]);
    lemma_first_nibble(ext);
    lemma_high_nibble(ext[0]);
    lemma_first_extension(m2v, codes, 0, at.2);
    lemma_written_type(section_data(list, at.1), picture);
    if sequence_header_of(p.seq, section_data(list, at.0)) {
        law_sequence_header_reads_back(section_data(list, at.0), s, x, p.seq);
        assert forall|i: int| 0 <= i < 64 implies #[trigger] s.intra_quantizer_matrix[i]
            == s.intra_quantizer_matrix@[i] by {}
        assert forall|i: int| 0 <= i < 64 implies #[trigger] s.non_intra_quantizer_matrix[i]
            == s.non_intra_quantizer_matrix@[i] by {}
        assert forall|i: int| 0 <= i < 64 implies #[trigger] p.seq.intra_quantizer_matrix[i]
            == p.seq.intra_quantizer_matrix@[i] by {}
        assert forall|i: int| 0 <= i < 64 implies #[trigger] p.seq.non_intra_quantizer_matrix[i]
            == p.seq.non_intra_quantizer_matrix@[i] by {}
        assert forall|i: int| 0 <= i < 64 implies ({
            &&& (#[trigger] ZIGZAG_TO_RASTER[i]) < 64
            &&& RASTER_TO_ZIGZAG[ZIGZAG_TO_RASTER[i] as int] == i
        }) by {
            law_zigzag_is_a_permutation(i);
        }
        assert forall|i: int| 0 <= i < 64 implies (#[trigger] RASTER_TO_ZIGZAG[i]) < 64 by {
            law_zigzag_is_a_permutation(i);
        }
    }
    lemma_header_room(section_data(list, at.0), s, x);
}

/// The driver gets the stream from the start code of the first slice on, to the
/// end. Without a slice the decode fails.
pub proof fn law_driver_gets_the_stream_from_the_slices_on(
    list: Seq<Section>,
    at: int,
    p: Mpeg2Parameters,
    action: DecodeAction<VdpPictureInfoMPEG1Or2>,
)
    requires
        plain_sections(list),
        0 <= at <= list.len(),
        at < list.len() ==> 0x01 <= list[at].code <= 0xaf,
        forall|k: int| 0 <= k < at ==> !(0x01 <= (#[trigger] list[k]).code <= 0xaf),
        decode_step(p, sections(list), DecodeEvent::SurfaceCreated(Ok(())), action),
    ensures
        at < list.len() ==> (action matches DecodeAction::Render { bitstream: b, .. } && {
            let part = sections(list.skip(at));
            &&& b.offset + part.len() == sections(list).len()
            &&& sections(list).skip(b.offset as int) == part
            &&& part.len() <= u32::MAX ==> b.bitstream_bytes == part.len()
        }),
        at == list.len() ==> (action matches DecodeAction::Finish(r) && r is Err),
{
    let m2v = sections(list);
    let codes = codes_from(m2v, 0);
    law_sections_are_found(list);
    law_first_slice_is_among_the_codes(m2v);
    assert forall|k: int| 0 <= k < at implies !slice_code((#[trigger] codes[k]).0) by {
        assert(codes[k].0 == list[k].code);
    }
    if at < list.len() {
        assert(codes[at].0 == list[at].code);
    }
    lemma_first_slice_index(codes, 0, at);
}

proof fn lemma_first_slice_index(codes: Seq<(u8, int)>, k: int, at: int)
    requires
        0 <= k <= at <= codes.len(),
        at < codes.len() ==> slice_code(codes[at].0),
        forall|j: int| k <= j < at ==> !slice_code((#[trigger] codes[j]).0),
    ensures
        first_slice_index(codes, k) == at,
    decreases at - k,
{
    if k < at {
        assert(!slice_code(codes[k].0));
        lemma_first_slice_index(codes, k + 1, at);
    }
}

/// True if section `at` is the first picture header, with this temporal
/// reference, coding type, delay and vector ranges.
pub open spec fn first_picture_is(
    list: Seq<Section>,
    at: int,
    picture: (nat, nat, nat),
    forward: (nat, nat),
    backward: (nat, nat),
) -> bool {
    &&& 0 <= at < list.len()
    &&& list[at].code == 0x00
    &&& forall|k: int| 0 <= k < at ==> (#[trigger] list[k]).code != 0x00
    &&& picture.0 < 1024
    &&& picture.1 < 8
    &&& picture.2 < 0x1_0000
    &&& forward.1 < 8
    &&& backward.1 < 8
    &&& Cursor::start(section_data(list, at)).begins_with(
        written_picture_header(picture.0, picture.1, picture.2, forward, backward),
    )
}

/// A stream without a sequence header or without a picture header is refused,
/// and so is one whose first picture is not an I-picture.
pub proof fn law_other_streams_are_refused(
    list: Seq<Section>,
    at: int,
    picture: (nat, nat, nat),
    forward: (nat, nat),
    backward: (nat, nat),
)
    requires
        plain_sections(list),
    ensures
        (forall|k: int| 0 <= k < list.len() ==> (#[trigger] list[k]).code != 0xb3)
            ==> decoder_error(sections(list)) is Some,
        (forall|k: int| 0 <= k < list.len() ==> (#[trigger] list[k]).code != 0x00)
            ==> decoder_error(sections(list)) is Some,
        first_picture_is(list, at, picture, forward, backward) && picture.1 != 1 ==> decoder_error(
            sections(list),
        ) is Some,
{
    broadcast use crate::writer::group_reads_back;

    let m2v = sections(list);
    let codes = codes_from(m2v, 0);
    law_sections_are_found(list);
    assert forall|k: int| 0 <= k < list.len() implies (#[trigger] codes[k]).0 == list[k].code by {}
    if forall|k: int| 0 <= k < list.len() ==> (#[trigger] list[k]).code != 0xb3 {
        lemma_no_code(codes, 0xb3, 0);
    }
    if forall|k: int| 0 <= k < list.len() ==> (#[trigger] list[k]).code != 0x00 {
        lemma_no_code(codes, 0x00, 0);
    }
    if first_picture_is(list, at, picture, forward, backward) {
        crate::bits::lemma_small_powers();
        assert(crate::bits::two_to(10) == 1024) by {
            reveal_with_fuel(crate::bits::two_to, 11);
        }
        lemma_first_code(codes, 0x00, 0, at);
        assert(behind_code(m2v, codes, at) == section_data(list, at));
        assert(Cursor::start(section_data(list, at)).skip(10).u(3) == picture.1);
    }
}

/// A header that the stream cuts short is refused: a sequence header with fewer
/// than eight bytes behind its start code, or a picture header with fewer than
/// four.
pub proof fn law_short_headers_are_refused(list: Seq<Section>, at: int)
    requires
        plain_sections(list),
        0 <= at < list.len(),
        list[at].code == 0xb3 || list[at].code == 0x00,
        forall|k: int| 0 <= k < at ==> (#[trigger] list[k]).code != list[at].code,
        section_data(list, at).len() < (if list[at].code == 0xb3 {
            8int
        } else {
            4int
        }),
    ensures
        decoder_error(sections(list)) is Some,
{
    let m2v = sections(list);
    let codes = codes_from(m2v, 0);
    law_sections_are_found(list);
    assert forall|k: int| 0 <= k < list.len() implies (#[trigger] codes[k]).0 == list[k].code by {}
    lemma_first_code(codes, list[at].code, 0, at);
    assert(behind_code(m2v, codes, at) == section_data(list, at));
}

/// An extension that is too short, or another extension, is not taken for a
/// picture coding extension.
pub proof fn law_other_extensions_are_refused(data: Seq<u8>)
    ensures
        data.len() < 4 ==> coding_extension_error(data) is Some,
        data.len() > 0 && data[0] / 16 != 8 ==> coding_extension_error(data) is Some,
{
    if data.len() > 0 {
        lemma_first_nibble(data);
    }
}

proof fn lemma_no_code(codes: Seq<(u8, int)>, code: u8, k: int)
    requires
        0 <= k <= codes.len(),
        forall|j: int| k <= j < codes.len() ==> (#[trigger] codes[j]).0 != code,
    ensures
        first_code(codes, code, k) == codes.len(),
    decreases codes.len() - k,
{
    if k < codes.len() {
        assert(codes[k].0 != code);
        lemma_no_code(codes, code, k + 1);
    }
}

/// Without a picture coding extension, everything that it would say is 0 in the
/// record that the driver gets.
pub proof fn law_missing_extension_reads_as_zero(
    list: Seq<Section>,
    p: Mpeg2Parameters,
    action: DecodeAction<VdpPictureInfoMPEG1Or2>,
)
    requires
        plain_sections(list),
        forall|k: int|
            0 <= k < list.len() ==> (#[trigger] list[k]).code != 0xb5 || (list[k].payload.len() > 0
                && list[k].payload[0] / 16 != 8),
        parameters_of(p, sections(list)),
        decode_step(p, sections(list), DecodeEvent::SurfaceCreated(Ok(())), action),
    ensures
        action matches DecodeAction::Render { picture_info: info, .. } ==> {
            &&& info.picture_structure == 0
            &&& info.intra_dc_precision == 0
            &&& info.frame_pred_frame_dct == 0
            &&& info.concealment_motion_vectors == 0
            &&& info.intra_vlc_format == 0
            &&& info.alternate_scan == 0
            &&& info.q_scale_type == 0
            &&& info.top_field_first == 0
            &&& forall|i: int, j: int| 0 <= i < 2 && 0 <= j < 2 ==> #[trigger] info.f_code[i][j] == 0
        },
{
    let m2v = sections(list);
    let codes = codes_from(m2v, 0);
    law_sections_are_found(list);
    assert forall|j: int| 0 <= j < codes.len() implies !#[trigger] announces_extension(
        m2v,
        codes,
        j,
    ) by {
        lemma_not_an_extension(list, j);
    }
    lemma_no_extension(m2v, codes, 0);
}

proof fn lemma_not_an_extension(list: Seq<Section>, j: int)
    requires
        plain_sections(list),
        0 <= j < list.len(),
        list[j].code != 0xb5 || (list[j].payload.len() > 0 && list[j].payload[0] / 16 != 8),
    ensures
        !announces_extension(sections(list), codes_from(sections(list), 0), j),
{
    let m2v = sections(list);
    let codes = codes_from(m2v, 0);
    law_sections_are_found(list);
    assert(codes[j].0 == list[j].code);
    if list[j].code == 0xb5 {
        let data = section_data(list, j);
        assert(m2v.skip(codes[j].1) == data);
        assert(data[0] == list[j].payload[0]);
        assert(data.len() > 0);
        assert(m2v[codes[j].1] == m2v.skip(codes[j].1)[0]);
        lemma_high_nibble(list[j].payload[0]);
    }
}

proof fn lemma_no_extension(buf: Seq<u8>, codes: Seq<(u8, int)>, k: int)
    requires
        0 <= k <= codes.len(),
        forall|j: int| k <= j < codes.len() ==> !#[trigger] announces_extension(buf, codes, j),
    ensures
        first_extension(buf, codes, k) == codes.len(),
    decreases codes.len() - k,
{
    if k < codes.len() {
        lemma_no_extension(buf, codes, k + 1);
    }
}

proof fn lemma_high_nibble(b: u8)
    ensures
        b >> 4 == b / 16,
{
    assert(b >> 4 == b / 16) by (bit_vector);
}

/// The first four bits of some bytes are the upper half of the first byte.
proof fn lemma_first_nibble(data: Seq<u8>)
    requires
        data.len() > 0,
    ensures
        Cursor::start(data).u(4) == data[0] / 16,
{
    reveal(Cursor::u);
    reveal_with_fuel(crate::bits::bits_value, 5);
    let b = data[0];
    assert(8 * ((b >> 7) & 1) + 4 * ((b >> 6) & 1) + 2 * ((b >> 5) & 1) + ((b >> 4) & 1) == b / 16)
        by (bit_vector);
    assert(crate::bits::bit_at(data, 0) == ((b >> 7) & 1) as nat);
    assert(crate::bits::bit_at(data, 1) == ((b >> 6) & 1) as nat);
    assert(crate::bits::bit_at(data, 2) == ((b >> 5) & 1) as nat);
    assert(crate::bits::bit_at(data, 3) == ((b >> 4) & 1) as nat);
}

proof fn lemma_written_type(data: Seq<u8>, picture: (nat, nat))
    requires
        picture.0 < 1024,
        picture.1 < 0x1_0000,
        Cursor::start(data).begins_with(
            written_picture_header(picture.0, 1, picture.1, (0, 0), (0, 0)),
        ),
    ensures
        Cursor::start(data).skip(10).u(3) == 1,
        data.len() >= 4,
{
    broadcast use crate::writer::group_reads_back;

    crate::bits::lemma_small_powers();
    assert(crate::bits::two_to(10) == 1024) by {
        reveal_with_fuel(crate::bits::two_to, 11);
    }
    let c = Cursor::start(data);
    assert(c.begins_with(written_picture_header(picture.0, 1, picture.1, (0, 0), (0, 0))));
    assert(c.skip(10).u(3) == 1);
    reveal(Cursor::begins_with);
    reveal(crate::writer::Bits::len);
}

proof fn lemma_header_room(data: Seq<u8>, s: SequenceHeader, x: (nat, nat, nat))
    requires
        writable_sequence_header(s, x),
        Cursor::start(data).begins_with(written_sequence_header(s, x)),
    ensures
        data.len() >= 8,
{
    broadcast use crate::writer::group_reads_back;

    crate::bits::lemma_small_powers();
    assert(crate::bits::two_to(10) == 1024 && crate::bits::two_to(12) == 4096
        && crate::bits::two_to(18) == 0x4_0000) by {
        reveal_with_fuel(crate::bits::two_to, 19);
    }
    let c = Cursor::start(data);
    assert(c.begins_with(written_sequence_header(s, x)));
    reveal(Cursor::begins_with);
    reveal(crate::writer::Bits::len);
}

/// The picture that a decoder was made for is an I-picture, and the driver is
/// told so.
pub proof fn law_picture_is_intra(
    m2v: Seq<u8>,
    p: Mpeg2Parameters,
    info: VdpPictureInfoMPEG1Or2,
)
    requires
        decoder_error(m2v) is None,
        parameters_of(p, m2v),
        describes(info, p),
    ensures
        info.picture_coding_type == 1,
{
}

/// The slices that the driver is told of cover the picture, and the last one
/// is needed.
pub proof fn law_slices_cover_the_picture(info: VdpPictureInfoMPEG1Or2, p: Mpeg2Parameters)
    requires
        describes(info, p),
    ensures
        16 * info.slice_count >= p.seq.height,
        info.slice_count > 0 ==> 16 * (info.slice_count - 1) < p.seq.height,
{
}

/// The driver decoder is asked for as Main profile, number 2, in the size of the
/// pictures, and with room for a forward and a backward reference.
pub proof fn law_request_by_numbers(p: Mpeg2Parameters)
    ensures
        request_for(p).profile == 2,
        request_for(p).width == p.seq.width,
        request_for(p).height == p.seq.height,
        request_for(p).max_references == 1 + 1,
{
}

/// If the driver does what it is asked, and the stream that a decoder was made
/// from has a slice, decoding it creates a surface, renders, reads back planes of
/// the size that the decoder expects, and ends with the frame they hold.
pub proof fn law_decode_succeeds_with_the_driver(
    m2v: Seq<u8>,
    p: Mpeg2Parameters,
    planes: crate::frame::Nv12Planes,
    first: DecodeAction<VdpPictureInfoMPEG1Or2>,
    second: DecodeAction<VdpPictureInfoMPEG1Or2>,
    third: DecodeAction<VdpPictureInfoMPEG1Or2>,
    last: DecodeAction<VdpPictureInfoMPEG1Or2>,
)
    requires
        decoder_error(m2v) is None,
        parameters_of(p, m2v),
        first_slice(m2v, 0) < m2v.len(),
        decode_step(p, m2v, DecodeEvent::Started, first),
        decode_step(p, m2v, DecodeEvent::SurfaceCreated(Ok(())), second),
        decode_step(p, m2v, DecodeEvent::Rendered(Ok(())), third),
        third matches DecodeAction::ReadBits { plane_lens, .. } ==> planes.y@.len()
            == plane_lens[0] && planes.uv@.len() == plane_lens[1],
        decode_step(p, m2v, DecodeEvent::BitsRead(Ok(planes)), last),
    ensures
        (first matches DecodeAction::CreateSurface { chroma_type, width, height } && chroma_type == 0
            && width == p.seq.width && height == p.seq.height),
        second is Render,
        (third matches DecodeAction::ReadBits { format, plane_lens, pitches } && format == 0
            && pitches[0] == p.seq.width && pitches[1] == p.seq.width - p.seq.width % 2),
        planes.fits(p.seq.width, p.seq.height),
        last matches DecodeAction::Finish(Ok(frame)) && frame.shows(planes, p.seq.width, p.seq.height),
        (last matches DecodeAction::Finish(Ok(frame)) && frame.width == p.seq.width && frame.height == p.seq.height
            && frame.y@ == planes.y@ && forall|i: int|
            0 <= i < frame.u@.len() ==> #[trigger] frame.u@[i] == planes.uv@[2 * i]),
        (last matches DecodeAction::Finish(Ok(frame)) && forall|i: int|
            0 <= i < frame.v@.len() ==> #[trigger] frame.v@[i] == planes.uv@[2 * i + 1]),
{
}

/// The decode ends with a frame only when the surface was read back, and the
/// frame is what was read. An error of the driver ends it with that error.
pub proof fn law_decode_outcome(
    p: Mpeg2Parameters,
    m2v: Seq<u8>,
    event: DecodeEvent,
    action: DecodeAction<VdpPictureInfoMPEG1Or2>,
)
    requires
        decode_step(p, m2v, event, action),
    ensures
        action matches DecodeAction::Finish(Ok(frame)) ==> event matches DecodeEvent::BitsRead(
            Ok(planes),
        ) && frame.shows(planes, p.seq.width, p.seq.height),
        event matches DecodeEvent::SurfaceCreated(Err(e)) ==> action.fails(e@),
        event matches DecodeEvent::Rendered(Err(e)) ==> action.fails(e@),
        event matches DecodeEvent::BitsRead(Err(e)) ==> action.fails(e@),
{
}

} // verus!
