//! HEVC (H.265) parameter sets and the decode of a single IDR picture.
//!
//! Of each parameter set, the fields up to the last one that VDPAU's picture
//! parameters need are read. Streams that use a coding tool whose syntax is
//! not read (scaling lists, PCM, tiles) are refused.

use crate::annexb::{split_nal_units, strip_emulation_prevention};
use crate::bits::{BitReader, Cursor};
use crate::device::{Failure, VdpError};
use crate::engine::{validate_request, HwDeviceInfo};
use crate::frame::{
    after_read, after_render, create_surface, render, DecodeAction, DecodeEvent, DecoderRequest,
};
use crate::sys::{VdpPictureInfoHEVC, VDP_DECODER_PROFILE_HEVC_MAIN, VDP_INVALID_HANDLE};
use crate::text::decimal_text;
use vstd::prelude::*;
use vstd::slice::slice_subrange;
use vstd::string::*;

verus! {

pub const NAL_BLA_W_LP: u8 = 16;

pub const NAL_IDR_W_RADL: u8 = 19;

pub const NAL_IDR_N_LP: u8 = 20;

pub const NAL_RSV_IRAP_VCL23: u8 = 23;

pub const NAL_VPS_NUT: u8 = 32;

pub const NAL_SPS_NUT: u8 = 33;

pub const NAL_PPS_NUT: u8 = 34;

/// Video parameter set.
#[derive(Debug, Clone, Copy, PartialEq, Eq, Structural)]
pub struct Vps {
    pub vps_id: u32,
    pub max_layers_minus1: u32,
    pub max_sub_layers_minus1: u32,
    pub vps_max_dec_pic_buffering_minus1: u32,
}

/// Sequence parameter set.
#[derive(Debug, Clone, Copy, PartialEq, Eq, Structural)]
pub struct Sps {
    pub vps_id: u32,
    pub max_sub_layers_minus1: u32,
    pub sps_id: u32,
    pub chroma_format_idc: u32,
    pub separate_colour_plane_flag: u8,
    pub pic_width_in_luma_samples: u32,
    pub pic_height_in_luma_samples: u32,
    pub bit_depth_luma_minus8: u32,
    pub bit_depth_chroma_minus8: u32,
    pub log2_max_pic_order_cnt_lsb_minus4: u32,
    pub sps_max_dec_pic_buffering_minus1: u32,
    pub log2_min_luma_coding_block_size_minus3: u32,
    pub log2_diff_max_min_luma_coding_block_size: u32,
    pub log2_min_transform_block_size_minus2: u32,
    pub log2_diff_max_min_transform_block_size: u32,
    pub max_transform_hierarchy_depth_inter: u32,
    pub max_transform_hierarchy_depth_intra: u32,
    pub scaling_list_enabled_flag: u8,
    pub amp_enabled_flag: u8,
    pub sample_adaptive_offset_enabled_flag: u8,
    pub pcm_enabled_flag: u8,
    pub num_short_term_ref_pic_sets: u32,
    pub long_term_ref_pics_present_flag: u8,
    pub num_long_term_ref_pics_sps: u32,
    pub sps_temporal_mvp_enabled_flag: u8,
    pub strong_intra_smoothing_enabled_flag: u8,
}

/// Picture parameter set.
#[derive(Debug, Clone, Copy, PartialEq, Eq, Structural)]
pub struct Pps {
    pub pps_id: u32,
    pub sps_id: u32,
    pub dependent_slice_segments_enabled_flag: u8,
    pub output_flag_present_flag: u8,
    pub num_extra_slice_header_bits: u32,
    pub sign_data_hiding_enabled_flag: u8,
    pub cabac_init_present_flag: u8,
    pub num_ref_idx_l0_default_active_minus1: u32,
    pub num_ref_idx_l1_default_active_minus1: u32,
    pub init_qp_minus26: i32,
    pub constrained_intra_pred_flag: u8,
    pub transform_skip_enabled_flag: u8,
    pub cu_qp_delta_enabled_flag: u8,
    pub diff_cu_qp_delta_depth: u32,
    pub pps_cb_qp_offset: i32,
    pub pps_cr_qp_offset: i32,
    pub pps_slice_chroma_qp_offsets_present_flag: u8,
    pub weighted_pred_flag: u8,
    pub weighted_bipred_flag: u8,
    pub transquant_bypass_enabled_flag: u8,
    pub tiles_enabled_flag: u8,
    pub entropy_coding_sync_enabled_flag: u8,
    pub pps_loop_filter_across_slices_enabled_flag: u8,
    pub deblocking_filter_control_present_flag: u8,
    pub deblocking_filter_override_enabled_flag: u8,
    pub pps_deblocking_filter_disabled_flag: u8,
    pub pps_beta_offset_div2: i32,
    pub pps_tc_offset_div2: i32,
    pub lists_modification_present_flag: u8,
    pub log2_parallel_merge_level_minus2: u32,
    pub slice_segment_header_extension_present_flag: u8,
}

/// The NAL unit type: the six bits behind the first of the header. An empty
/// unit has type 255, which no header can give.
pub open spec fn type_of(nal: Seq<u8>) -> u8 {
    if nal.len() == 0 {
        0xff
    } else {
        (nal[0] >> 1) & 0x3f
    }
}

/// NAL unit type.
pub fn nal_type(nal: &[u8]) -> (t: u8)
    ensures
        t == type_of(nal@),
{
    if nal.len() == 0 {
        return 0xff;
    }
    (nal[0] >> 1) & 0x3f
}

/// Whether `t` is the type of an instantaneous decoder refresh (IDR) picture.
pub fn is_idr(t: u8) -> (idr: bool)
    ensures
        idr <==> t == NAL_IDR_W_RADL || t == NAL_IDR_N_LP,
        idr == idr_type(t),
{
    t == NAL_IDR_W_RADL || t == NAL_IDR_N_LP
}

/// Whether `t` is the type of a random-access picture.
pub fn is_rap(t: u8) -> (rap: bool)
    ensures
        rap <==> NAL_BLA_W_LP <= t <= NAL_RSV_IRAP_VCL23,
        rap == rap_type(t),
{
    NAL_BLA_W_LP <= t && t <= NAL_RSV_IRAP_VCL23
}

// Profile, tier and level.

/// The bits that the sub-layers take up behind their presence flags: 88 for
/// each profile and 8 for each level that is present. The flags start at `c`.
pub open spec fn sub_layer_bits(c: Cursor, sub_layers: nat) -> nat
    decreases sub_layers,
{
    if sub_layers == 0 {
        0
    } else {
        let i = (sub_layers - 1) as nat;
        sub_layer_bits(c, i) + 88 * c.skip(2 * i).flag() + 8 * c.skip(2 * i + 1).flag()
    }
}

/// The place behind `profile_tier_level()`: 96 general bits, then, if there
/// are sub-layers, 16 bits of presence flags and padding and the sub-layers.
pub open spec fn after_profile_tier_level(c: Cursor, sub_layers: nat) -> Cursor {
    if sub_layers == 0 {
        c.skip(96)
    } else {
        c.skip(96 + 16 + sub_layer_bits(c.skip(96), sub_layers))
    }
}

/// Pass over `profile_tier_level()`.
pub fn parse_profile_tier_level(r: &mut BitReader<'_>, max_sub_layers_minus1: u32)
    requires
        max_sub_layers_minus1 <= 8,
        old(r)@.pos + 1000 <= u128::MAX,
    ensures
        final(r)@ == after_profile_tier_level(old(r)@, max_sub_layers_minus1 as nat),
        final(r)@.pos <= old(r)@.pos + 1000,
{
    let ghost c = r@.skip(96);
    r.skip(96);
    let mut bits: u32 = 0;
    let mut i: u32 = 0;
    while i < max_sub_layers_minus1
        invariant
            i <= max_sub_layers_minus1 <= 8,
            c.pos + 904 <= u128::MAX,
            r@ == c.skip((2 * i) as nat),
            bits == sub_layer_bits(c, i as nat),
            bits <= 96 * i,
        decreases max_sub_layers_minus1 - i,
    {
        let profile_present: u8 = r.flag();
        let level_present: u8 = r.flag();
        bits = bits + 88 * profile_present as u32 + 8 * level_present as u32;
        i = i + 1;
    }
    if max_sub_layers_minus1 > 0 {
        r.skip(16 - 2 * max_sub_layers_minus1);
        r.skip(bits);
    }
}

// Scaling lists.

/// The number of coefficients that a scaling list of size class `size_id`
/// carries.
pub open spec fn coefficients(size_id: nat) -> nat {
    if size_id == 0 {
        16
    } else {
        64
    }
}

/// The place behind one scaling list: a prediction flag and either a
/// reference to another list or the coefficients, the larger size classes
/// with a DC coefficient in front.
pub open spec fn after_scaling_list(c: Cursor, size_id: nat) -> Cursor {
    if c.flag() == 0 {
        c.skip(1).after_ue()
    } else if size_id > 1 {
        c.skip(1).after_ues(1 + coefficients(size_id))
    } else {
        c.skip(1).after_ues(coefficients(size_id))
    }
}

/// The place behind `k` scaling lists of one size class.
pub open spec fn after_scaling_lists(c: Cursor, size_id: nat, k: nat) -> Cursor
    decreases k,
{
    if k == 0 {
        c
    } else {
        after_scaling_list(after_scaling_lists(c, size_id, (k - 1) as nat), size_id)
    }
}

/// The place behind `scaling_list_data()`: six lists of each of the first
/// three size classes and two of the last.
pub open spec fn after_scaling_list_data(c: Cursor) -> Cursor {
    after_scaling_lists(
        after_scaling_lists(after_scaling_lists(after_scaling_lists(c, 0, 6), 1, 6), 2, 6),
        3,
        2,
    )
}

/// Pass over one scaling list.
fn skip_scaling_list(r: &mut BitReader<'_>, size_id: u32)
    requires
        size_id < 4,
        old(r)@.pos + 5000 <= u128::MAX,
    ensures
        final(r)@ == after_scaling_list(old(r)@, size_id as nat),
        final(r)@.pos <= old(r)@.pos + 5000,
{
    let pred: u8 = r.flag();
    if pred == 0 {
        let _: u32 = r.ue();
    } else {
        let coef_num: u32 = if size_id == 0 {
            16
        } else {
            64
        };
        if size_id > 1 {
            r.skip_ues(1 + coef_num);
        } else {
            r.skip_ues(coef_num);
        }
    }
}

/// Pass over `scaling_list_data()`.
pub fn skip_scaling_list_data(r: &mut BitReader<'_>)
    requires
        old(r)@.pos + 200_000 <= u128::MAX,
    ensures
        final(r)@ == after_scaling_list_data(old(r)@),
        final(r)@.pos <= old(r)@.pos + 200_000,
{
    let ghost c = r@;
    let mut size_id: u32 = 0;
    while size_id < 4
        invariant
            size_id <= 4,
            c.pos + 200_000 <= u128::MAX,
            r@.pos <= c.pos + 30_000 * size_id,
            size_id == 0 ==> r@ == c,
            size_id == 1 ==> r@ == after_scaling_lists(c, 0, 6),
            size_id == 2 ==> r@ == after_scaling_lists(after_scaling_lists(c, 0, 6), 1, 6),
            size_id == 3 ==> r@ == after_scaling_lists(
                after_scaling_lists(after_scaling_lists(c, 0, 6), 1, 6),
                2,
                6,
            ),
            size_id == 4 ==> r@ == after_scaling_list_data(c),
        decreases 4 - size_id,
    {
        let n_matrix: u32 = if size_id == 3 {
            2
        } else {
            6
        };
        let ghost d = r@;
        let mut matrix_id: u32 = 0;
        while matrix_id < n_matrix
            invariant
                size_id < 4,
                matrix_id <= n_matrix <= 6,
                d.pos + 50_000 <= u128::MAX,
                r@.pos <= d.pos + 5000 * matrix_id,
                r@ == after_scaling_lists(d, size_id as nat, matrix_id as nat),
            decreases n_matrix - matrix_id,
        {
            skip_scaling_list(r, size_id);
            matrix_id = matrix_id + 1;
        }
        size_id = size_id + 1;
    }
}

// Short-term reference picture sets.

/// The place behind `k` pairs of a delta and a use flag.
pub open spec fn after_delta_pocs(c: Cursor, k: nat) -> Cursor
    decreases k,
{
    if k == 0 {
        c
    } else {
        after_delta_pocs(c, (k - 1) as nat).after_ue().skip(1)
    }
}

/// The place behind `k` used-by-current flags, each of which, if zero, is
/// followed by a second flag.
pub open spec fn after_used_flags(c: Cursor, k: nat) -> Cursor
    decreases k,
{
    if k == 0 {
        c
    } else {
        let d = after_used_flags(c, (k - 1) as nat);
        if d.flag() == 0 {
            d.skip(2)
        } else {
            d.skip(1)
        }
    }
}

/// What reading `st_ref_pic_set(idx)` of `num` sets gives, if `prev` was the
/// count of the set before it: the place where reading stops, and the count of
/// this set. A set that is predicted from another keeps the count of the set
/// before it. For any other set the count is the number of its pictures, as a
/// 32-bit number that wraps around.
pub open spec fn ref_pic_set(c: Cursor, idx: nat, num: nat, prev: nat) -> (
    Cursor,
    Result<nat, Failure>,
) {
    let d = if idx == 0 {
        c
    } else {
        c.skip(1)
    };
    if idx != 0 && c.flag() == 1 {
        let delta_idx_minus1 = if idx == num {
            d.ue()
        } else {
            0
        };
        let e = if idx == num {
            d.after_ue()
        } else {
            d
        };
        let f = e.skip(1).after_ue();
        if idx - 1 - delta_idx_minus1 < 0 {
            (f, Err(crate::device::failure("skip_st_ref_pic_set: negative RefRpsIdx"@)))
        } else {
            (after_used_flags(f, prev + 1), Ok(prev))
        }
    } else {
        let negative = d.ue();
        let positive = d.after_ue().ue();
        (
            after_delta_pocs(d.after_ue().after_ue(), negative + positive),
            Ok((negative + positive) % 0x1_0000_0000),
        )
    }
}

/// The place behind the sets `idx` and up of `num`.
pub open spec fn after_ref_pic_sets(c: Cursor, idx: nat, num: nat, prev: nat) -> Result<
    Cursor,
    Failure,
>
    decreases num - idx,
{
    if idx >= num {
        Ok(c)
    } else {
        let (d, count) = ref_pic_set(c, idx, num, prev);
        match count {
            Err(f) => Err(f),
            Ok(n) => after_ref_pic_sets(d, idx + 1, num, n),
        }
    }
}

/// Pass over `k` pairs of a delta and a use flag.
fn skip_delta_pocs(r: &mut BitReader<'_>, k: u64)
    requires
        k <= 0x2_0000_0000,
        old(r)@.pos + 65 * k <= u128::MAX,
    ensures
        final(r)@ == after_delta_pocs(old(r)@, k as nat),
        final(r)@.pos <= old(r)@.pos + 65 * k,
{
    let ghost c = r@;
    let mut i: u64 = 0;
    while i < k
        invariant
            i <= k <= 0x2_0000_0000,
            c.pos + 65 * k <= u128::MAX,
            r@ == after_delta_pocs(c, i as nat),
            r@.pos <= c.pos + 65 * i,
        decreases k - i,
    {
        let _: u32 = r.ue();
        r.skip(1);
        i = i + 1;
    }
}

/// Pass over `k` used-by-current flags.
fn skip_used_flags(r: &mut BitReader<'_>, k: u64)
    requires
        k <= 0x1_0000_0000,
        old(r)@.pos + 2 * k <= u128::MAX,
    ensures
        final(r)@ == after_used_flags(old(r)@, k as nat),
        final(r)@.pos <= old(r)@.pos + 2 * k,
{
    let ghost c = r@;
    let mut i: u64 = 0;
    while i < k
        invariant
            i <= k <= 0x1_0000_0000,
            c.pos + 2 * k <= u128::MAX,
            r@ == after_used_flags(c, i as nat),
            r@.pos <= c.pos + 2 * i,
        decreases k - i,
    {
        let used_by_curr_pic_flag: u8 = r.flag();
        if used_by_curr_pic_flag == 0 {
            r.skip(1);
        }
        i = i + 1;
    }
}

/// Pass over `st_ref_pic_set(st_rps_idx)` and return its count: that of the set
/// before it for a predicted set, the number of its pictures otherwise.
pub fn skip_st_ref_pic_set(
    r: &mut BitReader<'_>,
    st_rps_idx: u32,
    num_short_term_ref_pic_sets: u32,
    prev_num_delta_pocs: u32,
) -> (res: Result<u32, VdpError>)
    requires
        old(r)@.pos + 0x100_0000_0000 <= u128::MAX,
    ensures
        ({
            let (c, count) = ref_pic_set(
                old(r)@,
                st_rps_idx as nat,
                num_short_term_ref_pic_sets as nat,
                prev_num_delta_pocs as nat,
            );
            &&& final(r)@ == c
            &&& match count {
                Ok(n) => res matches Ok(v) && v == n,
                Err(f) => res matches Err(e) && e@ == f,
            }
        }),
        final(r)@.pos <= old(r)@.pos + 0x100_0000_0000,
{
    let inter_rps_pred: u8 = if st_rps_idx != 0 {
        r.flag()
    } else {
        0
    };
    if inter_rps_pred != 0 {
        let delta_idx_minus1: u32 = if st_rps_idx == num_short_term_ref_pic_sets {
            r.ue()
        } else {
            0
        };
        r.skip(1);
        let _: u32 = r.ue();
        let ref_rps_idx: i64 = st_rps_idx as i64 - 1 - delta_idx_minus1 as i64;
        if ref_rps_idx < 0 {
            return Err(VdpError::other("skip_st_ref_pic_set: negative RefRpsIdx".to_owned()));
        }
        skip_used_flags(r, prev_num_delta_pocs as u64 + 1);
        Ok(prev_num_delta_pocs)
    } else {
        let num_negative_pics: u32 = r.ue();
        let num_positive_pics: u32 = r.ue();
        skip_delta_pocs(r, num_negative_pics as u64 + num_positive_pics as u64);
        Ok(num_negative_pics.wrapping_add(num_positive_pics))
    }
}

// Parameter sets.

/// Where the last of the sub-layer ordering triples stands: behind a flag,
/// with one triple for each sub-layer if the flag is set and only the last
/// otherwise.
pub open spec fn last_ordering_info(c: Cursor, max_sub_layers_minus1: nat) -> Cursor {
    if c.flag() == 1 {
        c.skip(1).after_ues(3 * max_sub_layers_minus1)
    } else {
        c.skip(1)
    }
}

/// Read the sub-layer ordering information and return
/// `max_dec_pic_buffering_minus1` of the highest sub-layer.
fn read_ordering_info(r: &mut BitReader<'_>, max_sub_layers_minus1: u32) -> (v: u32)
    requires
        max_sub_layers_minus1 <= 8,
        old(r)@.pos + 2000 <= u128::MAX,
    ensures
        v == last_ordering_info(old(r)@, max_sub_layers_minus1 as nat).ue(),
        v < u32::MAX,
        final(r)@ == last_ordering_info(old(r)@, max_sub_layers_minus1 as nat).after_ues(3),
        final(r)@.pos <= old(r)@.pos + 2000,
{
    let ghost c = r@;
    let sub_layer_ordering_info_present_flag: u8 = r.flag();
    if sub_layer_ordering_info_present_flag != 0 {
        r.skip_ues(3 * max_sub_layers_minus1);
    }
    let ghost last = r@;
    let max_dec_pic_buffering_minus1: u32 = r.ue();
    let _: u32 = r.ue();
    let _: u32 = r.ue();
    assert(r@ == last.after_ues(3)) by {
        reveal_with_fuel(Cursor::after_ues, 4);
    }
    max_dec_pic_buffering_minus1
}

/// The fields of `video_parameter_set_rbsp()`.
pub open spec fn vps_syntax(c: Cursor) -> Vps {
    let m = c.skip(12).u(3);
    Vps {
        vps_id: c.u(4) as u32,
        max_layers_minus1: c.skip(6).u(6) as u32,
        max_sub_layers_minus1: m as u32,
        vps_max_dec_pic_buffering_minus1: last_ordering_info(
            after_profile_tier_level(c.skip(32), m),
            m,
        ).ue() as u32,
    }
}

/// The video parameter set in `nal`.
pub open spec fn vps_of(nal: Seq<u8>) -> Result<Vps, Failure> {
    if nal.len() < 2 {
        Err(crate::device::failure("parse_vps: NAL too short"@))
    } else if type_of(nal) != NAL_VPS_NUT {
        Err(
            crate::device::failure(
                "parse_vps: not a VPS NAL (type="@ + crate::text::decimal(type_of(nal) as nat)
                    + ")"@,
            ),
        )
    } else {
        Ok(vps_syntax(Cursor::start(crate::annexb::stripped(nal.skip(2)))))
    }
}

/// Parse a video parameter set.
pub fn parse_vps(nal: &[u8]) -> (res: Result<Vps, VdpError>)
    ensures
        crate::device::outcome(res) == vps_of(nal@),
{
    if nal.len() < 2 {
        return Err(VdpError::other("parse_vps: NAL too short".to_owned()));
    }
    let t: u8 = nal_type(nal);
    if t != NAL_VPS_NUT {
        return Err(
            VdpError::other(
                "parse_vps: not a VPS NAL (type=".to_owned().concat(
                    decimal_text(t as u64).as_str(),
                ).concat(")"),
            ),
        );
    }
    let rbsp: Vec<u8> = strip_emulation_prevention(slice_subrange(nal, 2, nal.len()));
    assert(nal@.subrange(2, nal@.len() as int) == nal@.skip(2));
    let mut r: BitReader<'_> = BitReader::new(rbsp.as_slice());
    proof {
        crate::bits::lemma_small_powers();
    }
    let vps_id: u32 = r.u(4);
    r.skip(2);
    let max_layers_minus1: u32 = r.u(6);
    let max_sub_layers_minus1: u32 = r.u(3);
    r.skip(17);
    parse_profile_tier_level(&mut r, max_sub_layers_minus1);
    let vps_max_dec_pic_buffering_minus1: u32 = read_ordering_info(&mut r, max_sub_layers_minus1);
    Ok(
        Vps {
            vps_id,
            max_layers_minus1,
            max_sub_layers_minus1,
            vps_max_dec_pic_buffering_minus1,
        },
    )
}

/// The fields of `seq_parameter_set_rbsp()` as far as they are needed.
pub open spec fn sps_syntax(start: Cursor) -> Result<Sps, Failure> {
    let m = start.skip(4).u(3);
    let c_id = after_profile_tier_level(start.skip(8), m);
    let c_chroma = c_id.after_ue();
    let chroma_format_idc = c_chroma.ue();
    let c_plane = c_chroma.after_ue();
    let c_width = if chroma_format_idc == 3 {
        c_plane.skip(1)
    } else {
        c_plane
    };
    let c_height = c_width.after_ue();
    let c_window = c_height.after_ue();
    let c_depth = if c_window.flag() == 1 {
        c_window.skip(1).after_ues(4)
    } else {
        c_window.skip(1)
    };
    let log2_max_poc_lsb_minus4 = c_depth.after_ues(2).ue();
    let c_last = last_ordering_info(c_depth.after_ues(3), m);
    let c_block = c_last.after_ues(3);
    let c_flags = c_block.after_ues(6);
    if c_flags.flag() == 1 {
        Err(
            crate::device::failure(
                "parse_sps: scaling_list_enabled_flag=1 not supported by minimal parser"@,
            ),
        )
    } else if c_flags.skip(3).flag() == 1 {
        Err(
            crate::device::failure(
                "parse_sps: pcm_enabled_flag=1 not supported by minimal parser"@,
            ),
        )
    } else {
        let c_sets = c_flags.skip(4);
        match after_ref_pic_sets(c_sets.after_ue(), 0, c_sets.ue(), 0) {
            Err(f) => Err(f),
            Ok(c_long) => {
                let long_term = c_long.flag();
                let num_long_term = if long_term == 1 {
                    c_long.skip(1).ue()
                } else {
                    0
                };
                let lsb_bits = (log2_max_poc_lsb_minus4 + 4) % 0x1_0000_0000;
                let c_end = if long_term == 1 {
                    c_long.skip(1).after_ue().skip(num_long_term * (lsb_bits + 1))
                } else {
                    c_long.skip(1)
                };
                Ok(
                    Sps {
                        vps_id: start.u(4) as u32,
                        max_sub_layers_minus1: m as u32,
                        sps_id: c_id.ue() as u32,
                        chroma_format_idc: chroma_format_idc as u32,
                        separate_colour_plane_flag: if chroma_format_idc == 3 {
                            c_plane.flag() as u8
                        } else {
                            0
                        },
                        pic_width_in_luma_samples: c_width.ue() as u32,
                        pic_height_in_luma_samples: c_height.ue() as u32,
                        bit_depth_luma_minus8: c_depth.ue() as u32,
                        bit_depth_chroma_minus8: c_depth.after_ues(1).ue() as u32,
                        log2_max_pic_order_cnt_lsb_minus4: log2_max_poc_lsb_minus4 as u32,
                        sps_max_dec_pic_buffering_minus1: c_last.ue() as u32,
                        log2_min_luma_coding_block_size_minus3: c_block.ue() as u32,
                        log2_diff_max_min_luma_coding_block_size: c_block.after_ues(1).ue() as u32,
                        log2_min_transform_block_size_minus2: c_block.after_ues(2).ue() as u32,
                        log2_diff_max_min_transform_block_size: c_block.after_ues(3).ue() as u32,
                        max_transform_hierarchy_depth_inter: c_block.after_ues(4).ue() as u32,
                        max_transform_hierarchy_depth_intra: c_block.after_ues(5).ue() as u32,
                        scaling_list_enabled_flag: 0,
                        amp_enabled_flag: c_flags.skip(1).flag() as u8,
                        sample_adaptive_offset_enabled_flag: c_flags.skip(2).flag() as u8,
                        pcm_enabled_flag: 0,
                        num_short_term_ref_pic_sets: c_sets.ue() as u32,
                        long_term_ref_pics_present_flag: long_term as u8,
                        num_long_term_ref_pics_sps: num_long_term as u32,
                        sps_temporal_mvp_enabled_flag: c_end.flag() as u8,
                        strong_intra_smoothing_enabled_flag: c_end.skip(1).flag() as u8,
                    },
                )
            },
        }
    }
}

/// The sequence parameter set in `nal`.
pub open spec fn sps_of(nal: Seq<u8>) -> Result<Sps, Failure> {
    if nal.len() < 2 {
        Err(crate::device::failure("parse_sps: NAL too short"@))
    } else if type_of(nal) != NAL_SPS_NUT {
        Err(
            crate::device::failure(
                "parse_sps: not a SPS NAL (type="@ + crate::text::decimal(type_of(nal) as nat)
                    + ")"@,
            ),
        )
    } else {
        sps_syntax(Cursor::start(crate::annexb::stripped(nal.skip(2))))
    }
}

/// Pass over the short-term reference picture sets.
fn skip_ref_pic_sets(r: &mut BitReader<'_>, num: u32) -> (res: Result<(), VdpError>)
    requires
        old(r)@.pos + 0x100_0000_0000 * (num + 1) <= u128::MAX,
    ensures
        match after_ref_pic_sets(old(r)@, 0, num as nat, 0) {
            Ok(c) => res is Ok && final(r)@ == c,
            Err(f) => res matches Err(e) && e@ == f,
        },
        final(r)@.pos <= old(r)@.pos + 0x100_0000_0000 * (num + 1),
{
    let ghost c = r@;
    let mut prev_num_delta_pocs: u32 = 0;
    let mut i: u32 = 0;
    while i < num
        invariant
            i <= num,
            c == old(r)@,
            c.pos + 0x100_0000_0000 * (num + 1) <= u128::MAX,
            r@.pos <= c.pos + 0x100_0000_0000 * i,
            after_ref_pic_sets(c, 0, num as nat, 0) == after_ref_pic_sets(
                r@,
                i as nat,
                num as nat,
                prev_num_delta_pocs as nat,
            ),
        decreases num - i,
    {
        match skip_st_ref_pic_set(r, i, num, prev_num_delta_pocs) {
            Ok(count) => {
                prev_num_delta_pocs = count;
            },
            Err(e) => {
                return Err(e);
            },
        }
        i = i + 1;
    }
    Ok(())
}

/// Pass over `k` long-term pictures of `lsb_bits` and one more bit each.
fn skip_long_term_pics(r: &mut BitReader<'_>, k: u32, lsb_bits: u32)
    requires
        old(r)@.pos + 0x2_0000_0000 * k <= u128::MAX,
    ensures
        final(r)@ == old(r)@.skip((k * (lsb_bits + 1)) as nat),
        final(r)@.pos <= old(r)@.pos + 0x2_0000_0000 * k,
{
    let ghost c = r@;
    let ghost w = lsb_bits + 1;
    let mut i: u32 = 0;
    assert(0 * w == 0);
    while i < k
        invariant
            i <= k,
            w == lsb_bits + 1,
            c.pos + 0x2_0000_0000 * k <= u128::MAX,
            r@ == c.skip((i * w) as nat),
            0 <= i * w <= 0x2_0000_0000 * i,
        decreases k - i,
    {
        r.skip(lsb_bits);
        r.skip(1);
        assert((i + 1) * w == i * w + w) by (nonlinear_arith);
        i = i + 1;
    }
}

/// Parse a sequence parameter set.
#[verifier::rlimit(50)]
pub fn parse_sps(nal: &[u8]) -> (res: Result<Sps, VdpError>)
    ensures
        crate::device::outcome(res) == sps_of(nal@),
        res matches Ok(sps) ==> sps.sps_max_dec_pic_buffering_minus1 < u32::MAX,
{
    if nal.len() < 2 {
        return Err(VdpError::other("parse_sps: NAL too short".to_owned()));
    }
    let t: u8 = nal_type(nal);
    if t != NAL_SPS_NUT {
        return Err(
            VdpError::other(
                "parse_sps: not a SPS NAL (type=".to_owned().concat(
                    decimal_text(t as u64).as_str(),
                ).concat(")"),
            ),
        );
    }
    let rbsp: Vec<u8> = strip_emulation_prevention(slice_subrange(nal, 2, nal.len()));
    assert(nal@.subrange(2, nal@.len() as int) == nal@.skip(2));
    let mut r: BitReader<'_> = BitReader::new(rbsp.as_slice());
    proof {
        crate::bits::lemma_small_powers();
        reveal_with_fuel(Cursor::after_ues, 7);
    }
    let vps_id: u32 = r.u(4);
    let max_sub_layers_minus1: u32 = r.u(3);
    r.skip(1);
    parse_profile_tier_level(&mut r, max_sub_layers_minus1);
    let sps_id: u32 = r.ue();
    let chroma_format_idc: u32 = r.ue();
    let separate_colour_plane_flag: u8 = if chroma_format_idc == 3 {
        r.flag()
    } else {
        0
    };
    let pic_width_in_luma_samples: u32 = r.ue();
    let pic_height_in_luma_samples: u32 = r.ue();
    let conformance_window_flag: u8 = r.flag();
    if conformance_window_flag != 0 {
        r.skip_ues(4);
    }
    let bit_depth_luma_minus8: u32 = r.ue();
    let bit_depth_chroma_minus8: u32 = r.ue();
    let log2_max_pic_order_cnt_lsb_minus4: u32 = r.ue();
    let sps_max_dec_pic_buffering_minus1: u32 = read_ordering_info(&mut r, max_sub_layers_minus1);
    let log2_min_luma_coding_block_size_minus3: u32 = r.ue();
    let log2_diff_max_min_luma_coding_block_size: u32 = r.ue();
    let log2_min_transform_block_size_minus2: u32 = r.ue();
    let log2_diff_max_min_transform_block_size: u32 = r.ue();
    let max_transform_hierarchy_depth_inter: u32 = r.ue();
    let max_transform_hierarchy_depth_intra: u32 = r.ue();
    let scaling_list_enabled_flag: u8 = r.flag();
    if scaling_list_enabled_flag != 0 {
        let sps_scaling_list_data_present_flag: u8 = r.flag();
        if sps_scaling_list_data_present_flag != 0 {
            skip_scaling_list_data(&mut r);
        }
        return Err(
            VdpError::other(
                "parse_sps: scaling_list_enabled_flag=1 not supported by minimal parser".to_owned(),
            ),
        );
    }
    let amp_enabled_flag: u8 = r.flag();
    let sample_adaptive_offset_enabled_flag: u8 = r.flag();
    let pcm_enabled_flag: u8 = r.flag();
    if pcm_enabled_flag != 0 {
        return Err(
            VdpError::other(
                "parse_sps: pcm_enabled_flag=1 not supported by minimal parser".to_owned(),
            ),
        );
    }
    let num_short_term_ref_pic_sets: u32 = r.ue();
    match skip_ref_pic_sets(&mut r, num_short_term_ref_pic_sets) {
        Ok(_) => {},
        Err(e) => {
            return Err(e);
        },
    }
    let long_term_ref_pics_present_flag: u8 = r.flag();
    let num_long_term_ref_pics_sps: u32 = if long_term_ref_pics_present_flag != 0 {
        r.ue()
    } else {
        0
    };
    if long_term_ref_pics_present_flag != 0 {
        skip_long_term_pics(
            &mut r,
            num_long_term_ref_pics_sps,
            log2_max_pic_order_cnt_lsb_minus4.wrapping_add(4),
        );
    }
    let sps_temporal_mvp_enabled_flag: u8 = r.flag();
    let strong_intra_smoothing_enabled_flag: u8 = r.flag();
    Ok(
        Sps {
            vps_id,
            max_sub_layers_minus1,
            sps_id,
            chroma_format_idc,
            separate_colour_plane_flag,
            pic_width_in_luma_samples,
            pic_height_in_luma_samples,
            bit_depth_luma_minus8,
            bit_depth_chroma_minus8,
            log2_max_pic_order_cnt_lsb_minus4,
            sps_max_dec_pic_buffering_minus1,
            log2_min_luma_coding_block_size_minus3,
            log2_diff_max_min_luma_coding_block_size,
            log2_min_transform_block_size_minus2,
            log2_diff_max_min_transform_block_size,
            max_transform_hierarchy_depth_inter,
            max_transform_hierarchy_depth_intra,
            scaling_list_enabled_flag,
            amp_enabled_flag,
            sample_adaptive_offset_enabled_flag,
            pcm_enabled_flag,
            num_short_term_ref_pic_sets,
            long_term_ref_pics_present_flag,
            num_long_term_ref_pics_sps,
            sps_temporal_mvp_enabled_flag,
            strong_intra_smoothing_enabled_flag,
        },
    )
}

/// The fields of `pic_parameter_set_rbsp()` as far as they are needed.
pub open spec fn pps_syntax(start: Cursor) -> Result<Pps, Failure> {
    let c_slice = start.after_ues(2);
    let c_refs = c_slice.skip(7);
    let c_intra = c_refs.after_ues(3);
    let cu_qp_delta = c_intra.skip(2).flag();
    let c_depth = c_intra.skip(3);
    let c_offsets = if cu_qp_delta == 1 {
        c_depth.after_ue()
    } else {
        c_depth
    };
    let c_tools = c_offsets.after_ues(2);
    let c_filter = c_tools.skip(6);
    let control = c_filter.skip(1).flag();
    let c_control = c_filter.skip(2);
    let disabled = c_control.skip(1).flag();
    let has_offsets = control == 1 && disabled == 0;
    let c_scaling = if has_offsets {
        c_control.skip(2).after_ues(2)
    } else if control == 1 {
        c_control.skip(2)
    } else {
        c_control
    };
    if c_tools.skip(4).flag() == 1 {
        Err(
            crate::device::failure(
                "parse_pps: tiles_enabled_flag=1 not supported by minimal parser"@,
            ),
        )
    } else if c_scaling.flag() == 1 {
        Err(
            crate::device::failure(
                "parse_pps: pps_scaling_list_data_present_flag=1 not supported by minimal parser"@,
            ),
        )
    } else {
        Ok(
            Pps {
                pps_id: start.ue() as u32,
                sps_id: start.after_ues(1).ue() as u32,
                dependent_slice_segments_enabled_flag: c_slice.flag() as u8,
                output_flag_present_flag: c_slice.skip(1).flag() as u8,
                num_extra_slice_header_bits: c_slice.skip(2).u(3) as u32,
                sign_data_hiding_enabled_flag: c_slice.skip(5).flag() as u8,
                cabac_init_present_flag: c_slice.skip(6).flag() as u8,
                num_ref_idx_l0_default_active_minus1: c_refs.ue() as u32,
                num_ref_idx_l1_default_active_minus1: c_refs.after_ues(1).ue() as u32,
                init_qp_minus26: c_refs.after_ues(2).se() as i32,
                constrained_intra_pred_flag: c_intra.flag() as u8,
                transform_skip_enabled_flag: c_intra.skip(1).flag() as u8,
                cu_qp_delta_enabled_flag: cu_qp_delta as u8,
                diff_cu_qp_delta_depth: if cu_qp_delta == 1 {
                    c_depth.ue() as u32
                } else {
                    0
                },
                pps_cb_qp_offset: c_offsets.se() as i32,
                pps_cr_qp_offset: c_offsets.after_ues(1).se() as i32,
                pps_slice_chroma_qp_offsets_present_flag: c_tools.flag() as u8,
                weighted_pred_flag: c_tools.skip(1).flag() as u8,
                weighted_bipred_flag: c_tools.skip(2).flag() as u8,
                transquant_bypass_enabled_flag: c_tools.skip(3).flag() as u8,
                tiles_enabled_flag: 0,
                entropy_coding_sync_enabled_flag: c_tools.skip(5).flag() as u8,
                pps_loop_filter_across_slices_enabled_flag: c_filter.flag() as u8,
                deblocking_filter_control_present_flag: control as u8,
                deblocking_filter_override_enabled_flag: if control == 1 {
                    c_control.flag() as u8
                } else {
                    0
                },
                pps_deblocking_filter_disabled_flag: if control == 1 {
                    disabled as u8
                } else {
                    0
                },
                pps_beta_offset_div2: if has_offsets {
                    c_control.skip(2).se() as i32
                } else {
                    0
                },
                pps_tc_offset_div2: if has_offsets {
                    c_control.skip(2).after_ues(1).se() as i32
                } else {
                    0
                },
                lists_modification_present_flag: c_scaling.skip(1).flag() as u8,
                log2_parallel_merge_level_minus2: c_scaling.skip(2).ue() as u32,
                slice_segment_header_extension_present_flag: c_scaling.skip(
                    2,
                ).after_ue().flag() as u8,
            },
        )
    }
}

/// The picture parameter set in `nal`.
pub open spec fn pps_of(nal: Seq<u8>) -> Result<Pps, Failure> {
    if nal.len() < 2 {
        Err(crate::device::failure("parse_pps: NAL too short"@))
    } else if type_of(nal) != NAL_PPS_NUT {
        Err(
            crate::device::failure(
                "parse_pps: not a PPS NAL (type="@ + crate::text::decimal(type_of(nal) as nat)
                    + ")"@,
            ),
        )
    } else {
        pps_syntax(Cursor::start(crate::annexb::stripped(nal.skip(2))))
    }
}

/// Parse a picture parameter set.
#[verifier::rlimit(50)]
pub fn parse_pps(nal: &[u8]) -> (res: Result<Pps, VdpError>)
    ensures
        crate::device::outcome(res) == pps_of(nal@),
{
    if nal.len() < 2 {
        return Err(VdpError::other("parse_pps: NAL too short".to_owned()));
    }
    let t: u8 = nal_type(nal);
    if t != NAL_PPS_NUT {
        return Err(
            VdpError::other(
                "parse_pps: not a PPS NAL (type=".to_owned().concat(
                    decimal_text(t as u64).as_str(),
                ).concat(")"),
            ),
        );
    }
    let rbsp: Vec<u8> = strip_emulation_prevention(slice_subrange(nal, 2, nal.len()));
    assert(nal@.subrange(2, nal@.len() as int) == nal@.skip(2));
    let mut r: BitReader<'_> = BitReader::new(rbsp.as_slice());
    proof {
        reveal_with_fuel(Cursor::after_ues, 4);
    }
    let pps_id: u32 = r.ue();
    let sps_id: u32 = r.ue();
    let dependent_slice_segments_enabled_flag: u8 = r.flag();
    let output_flag_present_flag: u8 = r.flag();
    let num_extra_slice_header_bits: u32 = r.u(3);
    let sign_data_hiding_enabled_flag: u8 = r.flag();
    let cabac_init_present_flag: u8 = r.flag();
    let num_ref_idx_l0_default_active_minus1: u32 = r.ue();
    let num_ref_idx_l1_default_active_minus1: u32 = r.ue();
    let init_qp_minus26: i32 = r.se();
    let constrained_intra_pred_flag: u8 = r.flag();
    let transform_skip_enabled_flag: u8 = r.flag();
    let cu_qp_delta_enabled_flag: u8 = r.flag();
    let diff_cu_qp_delta_depth: u32 = if cu_qp_delta_enabled_flag != 0 {
        r.ue()
    } else {
        0
    };
    let pps_cb_qp_offset: i32 = r.se();
    let pps_cr_qp_offset: i32 = r.se();
    let pps_slice_chroma_qp_offsets_present_flag: u8 = r.flag();
    let weighted_pred_flag: u8 = r.flag();
    let weighted_bipred_flag: u8 = r.flag();
    let transquant_bypass_enabled_flag: u8 = r.flag();
    let tiles_enabled_flag: u8 = r.flag();
    let entropy_coding_sync_enabled_flag: u8 = r.flag();
    if tiles_enabled_flag != 0 {
        return Err(
            VdpError::other(
                "parse_pps: tiles_enabled_flag=1 not supported by minimal parser".to_owned(),
            ),
        );
    }
    let pps_loop_filter_across_slices_enabled_flag: u8 = r.flag();
    let deblocking_filter_control_present_flag: u8 = r.flag();
    let mut deblocking_filter_override_enabled_flag: u8 = 0;
    let mut pps_deblocking_filter_disabled_flag: u8 = 0;
    let mut pps_beta_offset_div2: i32 = 0;
    let mut pps_tc_offset_div2: i32 = 0;
    if deblocking_filter_control_present_flag != 0 {
        deblocking_filter_override_enabled_flag = r.flag();
        pps_deblocking_filter_disabled_flag = r.flag();
        if pps_deblocking_filter_disabled_flag == 0 {
            pps_beta_offset_div2 = r.se();
            pps_tc_offset_div2 = r.se();
        }
    }
    let pps_scaling_list_data_present_flag: u8 = r.flag();
    if pps_scaling_list_data_present_flag != 0 {
        return Err(
            VdpError::other(
                "parse_pps: pps_scaling_list_data_present_flag=1 not supported by minimal parser".to_owned(),
            ),
        );
    }
    let lists_modification_present_flag: u8 = r.flag();
    let log2_parallel_merge_level_minus2: u32 = r.ue();
    let slice_segment_header_extension_present_flag: u8 = r.flag();
    Ok(
        Pps {
            pps_id,
            sps_id,
            dependent_slice_segments_enabled_flag,
            output_flag_present_flag,
            num_extra_slice_header_bits,
            sign_data_hiding_enabled_flag,
            cabac_init_present_flag,
            num_ref_idx_l0_default_active_minus1,
            num_ref_idx_l1_default_active_minus1,
            init_qp_minus26,
            constrained_intra_pred_flag,
            transform_skip_enabled_flag,
            cu_qp_delta_enabled_flag,
            diff_cu_qp_delta_depth,
            pps_cb_qp_offset,
            pps_cr_qp_offset,
            pps_slice_chroma_qp_offsets_present_flag,
            weighted_pred_flag,
            weighted_bipred_flag,
            transquant_bypass_enabled_flag,
            tiles_enabled_flag,
            entropy_coding_sync_enabled_flag,
            pps_loop_filter_across_slices_enabled_flag,
            deblocking_filter_control_present_flag,
            deblocking_filter_override_enabled_flag,
            pps_deblocking_filter_disabled_flag,
            pps_beta_offset_div2,
            pps_tc_offset_div2,
            lists_modification_present_flag,
            log2_parallel_merge_level_minus2,
            slice_segment_header_extension_present_flag,
        },
    )
}

// The IDR picture.

/// True if `t` is the type of an IDR picture.
pub open spec fn idr_type(t: u8) -> bool {
    t == NAL_IDR_W_RADL || t == NAL_IDR_N_LP
}

/// True if `t` is the type of a random-access picture.
pub open spec fn rap_type(t: u8) -> bool {
    NAL_BLA_W_LP <= t <= NAL_RSV_IRAP_VCL23
}

/// True if a start code stands at `i` and the header behind it is that of an
/// IDR picture.
pub open spec fn idr_code_at(buf: Seq<u8>, i: int) -> bool {
    let header = i + crate::annexb::code_len(buf, i);
    &&& crate::annexb::code_len(buf, i) > 0
    &&& header < buf.len()
    &&& idr_type((buf[header] >> 1) & 0x3f)
}

/// The first position from `i` on where the start code of an IDR picture
/// stands, or the end.
pub open spec fn first_idr_code(buf: Seq<u8>, i: int) -> int
    decreases buf.len() - i,
{
    if i < 0 || i >= buf.len() {
        buf.len() as int
    } else if idr_code_at(buf, i) {
        i
    } else {
        first_idr_code(buf, i + 1)
    }
}

proof fn lemma_first_idr_code(buf: Seq<u8>, i: int, end: int)
    requires
        0 <= i <= end <= buf.len(),
        forall|j: int| i <= j < end ==> !idr_code_at(buf, j),
    ensures
        first_idr_code(buf, i) == first_idr_code(buf, end),
    decreases end - i,
{
    if i < end {
        lemma_first_idr_code(buf, i + 1, end);
    }
}

/// Find the first start code that is followed by the header of an IDR
/// picture, and return the position of the start code.
pub fn locate_idr_start(buf: &[u8]) -> (at: Option<usize>)
    ensures
        match at {
            Some(i) => i < buf@.len() && i == first_idr_code(buf@, 0),
            None => first_idr_code(buf@, 0) == buf@.len(),
        },
{
    let n: usize = buf.len();
    let mut i: usize = 0;
    while n - i > 3
        invariant
            i <= n == buf@.len(),
            forall|j: int| 0 <= j < i ==> !idr_code_at(buf@, j),
        decreases n - i,
    {
        let four: bool = buf[i] == 0 && buf[i + 1] == 0 && buf[i + 2] == 0 && buf[i + 3] == 1 && n
            - i > 4;
        let three: bool = !four && buf[i] == 0 && buf[i + 1] == 0 && buf[i + 2] == 1;
        if four || three {
            let header_idx: usize = if four {
                i + 4
            } else {
                i + 3
            };
            let t: u8 = (buf[header_idx] >> 1) & 0x3f;
            if is_idr(t) {
                proof {
                    lemma_first_idr_code(buf@, 0, i as int);
                }
                return Some(i);
            }
            i = header_idx;
        } else {
            i = i + 1;
        }
    }
    proof {
        lemma_first_idr_code(buf@, 0, n as int);
    }
    None
}

/// The index of the first unit from `i` on whose type lies between `low` and
/// `high`, or the number of units.
pub open spec fn first_of_type(units: Seq<Seq<u8>>, low: u8, high: u8, i: int) -> int
    decreases units.len() - i,
{
    if i < 0 || i >= units.len() {
        units.len() as int
    } else if low <= type_of(units[i]) <= high {
        i
    } else {
        first_of_type(units, low, high, i + 1)
    }
}

/// Find the first unit whose type lies between `low` and `high`.
fn find_type(nals: &Vec<&[u8]>, low: u8, high: u8) -> (at: Option<usize>)
    ensures
        ({
            let units = crate::annexb::contents(nals@);
            match at {
                Some(i) => {
                    &&& i < units.len()
                    &&& i == first_of_type(units, low, high, 0)
                    &&& low <= type_of(units[i as int]) <= high
                },
                None => first_of_type(units, low, high, 0) == units.len(),
            }
        }),
{
    let ghost units = crate::annexb::contents(nals@);
    let mut i: usize = 0;
    while i < nals.len()
        invariant
            i <= nals@.len() == units.len(),
            units == crate::annexb::contents(nals@),
            first_of_type(units, low, high, 0) == first_of_type(units, low, high, i as int),
        decreases nals.len() - i,
    {
        let t: u8 = nal_type(nals[i]);
        if low <= t && t <= high {
            return Some(i);
        }
        i = i + 1;
    }
    None
}

/// What a decoder knows of the stream.
pub struct HevcParameters {
    pub vps: Vps,
    pub sps: Sps,
    pub pps: Pps,
    /// NAL unit type of the IDR picture.
    pub idr_nal_type: u8,
}

/// The parameters of the stream with the given units. All four kinds of unit
/// have to be there; of each the first counts.
pub open spec fn parameters_of(units: Seq<Seq<u8>>) -> Result<HevcParameters, Failure> {
    let vps = first_of_type(units, NAL_VPS_NUT, NAL_VPS_NUT, 0);
    let sps = first_of_type(units, NAL_SPS_NUT, NAL_SPS_NUT, 0);
    let pps = first_of_type(units, NAL_PPS_NUT, NAL_PPS_NUT, 0);
    let idr = first_of_type(units, NAL_IDR_W_RADL, NAL_IDR_N_LP, 0);
    if vps == units.len() {
        Err(crate::device::failure("HEVC fixture has no VPS NAL"@))
    } else if sps == units.len() {
        Err(crate::device::failure("HEVC fixture has no SPS NAL"@))
    } else if pps == units.len() {
        Err(crate::device::failure("HEVC fixture has no PPS NAL"@))
    } else if idr == units.len() {
        Err(crate::device::failure("HEVC fixture has no IDR slice NAL"@))
    } else {
        match (vps_of(units[vps]), sps_of(units[sps]), pps_of(units[pps])) {
            (Err(f), _, _) => Err(f),
            (_, Err(f), _) => Err(f),
            (_, _, Err(f)) => Err(f),
            (Ok(vps), Ok(sps), Ok(pps)) => Ok(
                HevcParameters { vps, sps, pps, idr_nal_type: type_of(units[idr]) },
            ),
        }
    }
}

/// True if `info` describes the IDR picture of a stream with parameters `p`:
/// each field is that of the parameter sets, in the width the driver takes;
/// scaling lists are flat; there are no tiles and no references.
pub open spec fn describes(info: VdpPictureInfoHEVC, p: HevcParameters) -> bool {
    &&& info.chroma_format_idc == p.sps.chroma_format_idc as u8
    &&& info.separate_colour_plane_flag == p.sps.separate_colour_plane_flag
    &&& info.pic_width_in_luma_samples == p.sps.pic_width_in_luma_samples
    &&& info.pic_height_in_luma_samples == p.sps.pic_height_in_luma_samples
    &&& info.bit_depth_luma_minus8 == p.sps.bit_depth_luma_minus8 as u8
    &&& info.bit_depth_chroma_minus8 == p.sps.bit_depth_chroma_minus8 as u8
    &&& info.log2_max_pic_order_cnt_lsb_minus4 == p.sps.log2_max_pic_order_cnt_lsb_minus4 as u8
    &&& info.sps_max_dec_pic_buffering_minus1 == p.sps.sps_max_dec_pic_buffering_minus1 as u8
    &&& info.log2_min_luma_coding_block_size_minus3 == p.sps.log2_min_luma_coding_block_size_minus3 as u8
    &&& info.log2_diff_max_min_luma_coding_block_size == p.sps.log2_diff_max_min_luma_coding_block_size as u8
    &&& info.log2_min_transform_block_size_minus2 == p.sps.log2_min_transform_block_size_minus2 as u8
    &&& info.log2_diff_max_min_transform_block_size == p.sps.log2_diff_max_min_transform_block_size as u8
    &&& info.max_transform_hierarchy_depth_inter == p.sps.max_transform_hierarchy_depth_inter as u8
    &&& info.max_transform_hierarchy_depth_intra == p.sps.max_transform_hierarchy_depth_intra as u8
    &&& info.scaling_list_enabled_flag == p.sps.scaling_list_enabled_flag
    &&& forall|i: int, j: int|
        0 <= i < 6 && 0 <= j < 16 ==> #[trigger] info.scaling_list_4x4[i][j] == 16
    &&& forall|i: int, j: int|
        0 <= i < 6 && 0 <= j < 64 ==> #[trigger] info.scaling_list_8x8[i][j] == 16
    &&& forall|i: int, j: int|
        0 <= i < 6 && 0 <= j < 64 ==> #[trigger] info.scaling_list_16x16[i][j] == 16
    &&& forall|i: int, j: int|
        0 <= i < 2 && 0 <= j < 64 ==> #[trigger] info.scaling_list_32x32[i][j] == 16
    &&& forall|i: int| 0 <= i < 6 ==> #[trigger] info.scaling_list_dc_coeff_16x16[i] == 16
    &&& forall|i: int| 0 <= i < 2 ==> #[trigger] info.scaling_list_dc_coeff_32x32[i] == 16
    &&& info.amp_enabled_flag == p.sps.amp_enabled_flag
    &&& info.sample_adaptive_offset_enabled_flag == p.sps.sample_adaptive_offset_enabled_flag
    &&& info.pcm_enabled_flag == p.sps.pcm_enabled_flag
    &&& info.pcm_sample_bit_depth_luma_minus1 == 0
    &&& info.pcm_sample_bit_depth_chroma_minus1 == 0
    &&& info.log2_min_pcm_luma_coding_block_size_minus3 == 0
    &&& info.log2_diff_max_min_pcm_luma_coding_block_size == 0
    &&& info.pcm_loop_filter_disabled_flag == 0
    &&& info.num_short_term_ref_pic_sets == p.sps.num_short_term_ref_pic_sets as u8
    &&& info.long_term_ref_pics_present_flag == p.sps.long_term_ref_pics_present_flag
    &&& info.num_long_term_ref_pics_sps == p.sps.num_long_term_ref_pics_sps as u8
    &&& info.sps_temporal_mvp_enabled_flag == p.sps.sps_temporal_mvp_enabled_flag
    &&& info.strong_intra_smoothing_enabled_flag == p.sps.strong_intra_smoothing_enabled_flag
    &&& info.dependent_slice_segments_enabled_flag == p.pps.dependent_slice_segments_enabled_flag
    &&& info.output_flag_present_flag == p.pps.output_flag_present_flag
    &&& info.num_extra_slice_header_bits == p.pps.num_extra_slice_header_bits as u8
    &&& info.sign_data_hiding_enabled_flag == p.pps.sign_data_hiding_enabled_flag
    &&& info.cabac_init_present_flag == p.pps.cabac_init_present_flag
    &&& info.num_ref_idx_l0_default_active_minus1 == p.pps.num_ref_idx_l0_default_active_minus1 as u8
    &&& info.num_ref_idx_l1_default_active_minus1 == p.pps.num_ref_idx_l1_default_active_minus1 as u8
    &&& info.init_qp_minus26 == p.pps.init_qp_minus26 as i8
    &&& info.constrained_intra_pred_flag == p.pps.constrained_intra_pred_flag
    &&& info.transform_skip_enabled_flag == p.pps.transform_skip_enabled_flag
    &&& info.cu_qp_delta_enabled_flag == p.pps.cu_qp_delta_enabled_flag
    &&& info.diff_cu_qp_delta_depth == p.pps.diff_cu_qp_delta_depth as u8
    &&& info.pps_cb_qp_offset == p.pps.pps_cb_qp_offset as i8
    &&& info.pps_cr_qp_offset == p.pps.pps_cr_qp_offset as i8
    &&& info.pps_slice_chroma_qp_offsets_present_flag == p.pps.pps_slice_chroma_qp_offsets_present_flag
    &&& info.weighted_pred_flag == p.pps.weighted_pred_flag
    &&& info.weighted_bipred_flag == p.pps.weighted_bipred_flag
    &&& info.transquant_bypass_enabled_flag == p.pps.transquant_bypass_enabled_flag
    &&& info.tiles_enabled_flag == p.pps.tiles_enabled_flag
    &&& info.entropy_coding_sync_enabled_flag == p.pps.entropy_coding_sync_enabled_flag
    &&& info.num_tile_columns_minus1 == 0
    &&& info.num_tile_rows_minus1 == 0
    &&& info.uniform_spacing_flag == 0
    &&& forall|i: int| 0 <= i < 20 ==> #[trigger] info.column_width_minus1[i] == 0
    &&& forall|i: int| 0 <= i < 22 ==> #[trigger] info.row_height_minus1[i] == 0
    &&& info.loop_filter_across_tiles_enabled_flag == 0
    &&& info.pps_loop_filter_across_slices_enabled_flag == p.pps.pps_loop_filter_across_slices_enabled_flag
    &&& info.deblocking_filter_control_present_flag == p.pps.deblocking_filter_control_present_flag
    &&& info.deblocking_filter_override_enabled_flag == p.pps.deblocking_filter_override_enabled_flag
    &&& info.pps_deblocking_filter_disabled_flag == p.pps.pps_deblocking_filter_disabled_flag
    &&& info.pps_beta_offset_div2 == p.pps.pps_beta_offset_div2 as i8
    &&& info.pps_tc_offset_div2 == p.pps.pps_tc_offset_div2 as i8
    &&& info.lists_modification_present_flag == p.pps.lists_modification_present_flag
    &&& info.log2_parallel_merge_level_minus2 == p.pps.log2_parallel_merge_level_minus2 as u8
    &&& info.slice_segment_header_extension_present_flag == p.pps.slice_segment_header_extension_present_flag
    &&& info.idr_pic_flag == (if idr_type(p.idr_nal_type) {
        1u8
    } else {
        0u8
    })
    &&& info.rap_pic_flag == (if rap_type(p.idr_nal_type) {
        1u8
    } else {
        0u8
    })
    &&& info.curr_rps_idx == 0
    &&& info.num_poc_total_curr == 0
    &&& info.num_delta_pocs_of_ref_rps_idx == 0
    &&& info.num_short_term_picture_slice_header_bits == 0
    &&& info.num_long_term_picture_slice_header_bits == 0
    &&& info.curr_pic_order_cnt_val == 0
    &&& forall|i: int| 0 <= i < 16 ==> #[trigger] info.ref_pics[i] == VDP_INVALID_HANDLE
    &&& forall|i: int| 0 <= i < 16 ==> #[trigger] info.pic_order_cnt_val[i] == 0
    &&& forall|i: int| 0 <= i < 16 ==> #[trigger] info.is_long_term[i] == 0
    &&& info.num_poc_st_curr_before == 0
    &&& info.num_poc_st_curr_after == 0
    &&& info.num_poc_lt_curr == 0
    &&& forall|i: int| 0 <= i < 8 ==> #[trigger] info.ref_pic_set_st_curr_before[i] == 0
    &&& forall|i: int| 0 <= i < 8 ==> #[trigger] info.ref_pic_set_st_curr_after[i] == 0
    &&& forall|i: int| 0 <= i < 8 ==> #[trigger] info.ref_pic_set_lt_curr[i] == 0
}

/// The driver decoder that a stream with parameters `p` needs.
pub open spec fn request_for(p: HevcParameters) -> DecoderRequest {
    DecoderRequest {
        profile: VDP_DECODER_PROFILE_HEVC_MAIN,
        width: p.sps.pic_width_in_luma_samples,
        height: p.sps.pic_height_in_luma_samples,
        max_references: (p.sps.sps_max_dec_pic_buffering_minus1 + 1) as u32,
    }
}

/// True if `action` is the right answer to `event` while the IDR picture in
/// `annex_b` is decoded.
pub open spec fn decode_step(
    p: HevcParameters,
    annex_b: Seq<u8>,
    event: DecodeEvent,
    action: DecodeAction<VdpPictureInfoHEVC>,
) -> bool {
    let w = p.sps.pic_width_in_luma_samples;
    let h = p.sps.pic_height_in_luma_samples;
    let at = first_idr_code(annex_b, 0);
    match event {
        DecodeEvent::Started => action.creates_surface(w, h),
        DecodeEvent::SurfaceCreated(Err(e)) => action.fails(e@),
        DecodeEvent::SurfaceCreated(Ok(_)) => if at < annex_b.len() {
            &&& action.renders(at, (annex_b.len() - at) as nat)
            &&& action matches DecodeAction::Render { picture_info, .. } && describes(
                picture_info,
                p,
            )
        } else {
            action.fails(crate::device::failure("no IDR NAL start code found"@))
        },
        DecodeEvent::Rendered(result) => action.follows_render(result, w, h),
        DecodeEvent::BitsRead(result) => action.follows_read(result, w, h),
    }
}

/// Decoder for the first IDR picture of a stream.
#[derive(Debug)]
pub struct HevcVdpauDecoder {
    vps: Vps,
    sps: Sps,
    pps: Pps,
    idr_nal_type: u8,
}

impl View for HevcVdpauDecoder {
    type V = HevcParameters;

    closed spec fn view(&self) -> HevcParameters {
        HevcParameters {
            vps: self.vps,
            sps: self.sps,
            pps: self.pps,
            idr_nal_type: self.idr_nal_type,
        }
    }
}

impl HevcVdpauDecoder {
    #[verifier::type_invariant]
    spec fn well_formed(self) -> bool {
        self.sps.sps_max_dec_pic_buffering_minus1 < u32::MAX
    }

    /// Read the parameter sets of an Annex-B stream. The driver decoder that
    /// goes with them is described by [`HevcVdpauDecoder::decoder_request`].
    pub fn new(annex_b: &[u8]) -> (res: Result<HevcVdpauDecoder, VdpError>)
        ensures
            match parameters_of(crate::annexb::units(annex_b@)) {
                Ok(p) => res matches Ok(d) && d@ == p,
                Err(f) => res matches Err(e) && e@ == f,
            },
    {
        let nals: Vec<&[u8]> = split_nal_units(annex_b);
        let vps_nal: &[u8] = match find_type(&nals, NAL_VPS_NUT, NAL_VPS_NUT) {
            Some(i) => nals[i],
            None => {
                return Err(VdpError::other("HEVC fixture has no VPS NAL".to_owned()));
            },
        };
        let sps_nal: &[u8] = match find_type(&nals, NAL_SPS_NUT, NAL_SPS_NUT) {
            Some(i) => nals[i],
            None => {
                return Err(VdpError::other("HEVC fixture has no SPS NAL".to_owned()));
            },
        };
        let pps_nal: &[u8] = match find_type(&nals, NAL_PPS_NUT, NAL_PPS_NUT) {
            Some(i) => nals[i],
            None => {
                return Err(VdpError::other("HEVC fixture has no PPS NAL".to_owned()));
            },
        };
        let idr_nal: &[u8] = match find_type(&nals, NAL_IDR_W_RADL, NAL_IDR_N_LP) {
            Some(i) => nals[i],
            None => {
                return Err(VdpError::other("HEVC fixture has no IDR slice NAL".to_owned()));
            },
        };
        let vps: Vps = match parse_vps(vps_nal) {
            Ok(v) => v,
            Err(e) => {
                return Err(e);
            },
        };
        let sps: Sps = match parse_sps(sps_nal) {
            Ok(v) => v,
            Err(e) => {
                return Err(e);
            },
        };
        let pps: Pps = match parse_pps(pps_nal) {
            Ok(v) => v,
            Err(e) => {
                return Err(e);
            },
        };
        let idr_nal_type: u8 = nal_type(idr_nal);
        Ok(HevcVdpauDecoder { vps, sps, pps, idr_nal_type })
    }

    /// As [`HevcVdpauDecoder::new`], for the device that is asked for. The request is
    /// checked against the devices of the host before anything is read.
    pub fn with_params(
        device_index: Option<u32>,
        devices: &Vec<HwDeviceInfo>,
        annex_b: &[u8],
    ) -> (res: Result<HevcVdpauDecoder, VdpError>)
        ensures
            match crate::engine::request_error(device_index, devices@.len()) {
                Some(f) => res matches Err(e) && e@ == f,
                None => match parameters_of(crate::annexb::units(annex_b@)) {
                    Ok(p) => res matches Ok(d) && d@ == p,
                    Err(f) => res matches Err(e) && e@ == f,
                },
            },
    {
        match validate_request(device_index, devices) {
            Ok(_) => HevcVdpauDecoder::new(annex_b),
            Err(e) => Err(e),
        }
    }

    /// The driver decoder that this stream needs.
    pub fn decoder_request(&self) -> (request: DecoderRequest)
        ensures
            request == request_for(self@),
            request.profile == VDP_DECODER_PROFILE_HEVC_MAIN,
            request.width == self@.sps.pic_width_in_luma_samples,
            request.height == self@.sps.pic_height_in_luma_samples,
            request.max_references == self@.sps.sps_max_dec_pic_buffering_minus1 + 1,
    {
        proof {
            use_type_invariant(self);
        }
        DecoderRequest {
            profile: VDP_DECODER_PROFILE_HEVC_MAIN,
            width: self.width(),
            height: self.height(),
            max_references: self.sps.sps_max_dec_pic_buffering_minus1 + 1,
        }
    }

    /// Picture width in luma samples.
    pub fn width(&self) -> (w: u32)
        ensures
            w == self@.sps.pic_width_in_luma_samples,
    {
        self.sps.pic_width_in_luma_samples
    }

    /// Picture height in luma samples.
    pub fn height(&self) -> (h: u32)
        ensures
            h == self@.sps.pic_height_in_luma_samples,
    {
        self.sps.pic_height_in_luma_samples
    }

    /// One step of decoding the IDR picture in `annex_b`: what is to be done
    /// after `event`. The driver gets the stream from the picture's start code
    /// on; the parameter sets reach it through the picture parameters.
    pub fn decode_idr(&self, annex_b: &[u8], event: DecodeEvent) -> (action: DecodeAction<
        VdpPictureInfoHEVC,
    >)
        requires
            event.fits(
                self@.sps.pic_width_in_luma_samples,
                self@.sps.pic_height_in_luma_samples,
            ),
        ensures
            decode_step(self@, annex_b@, event, action),
    {
        match event {
            DecodeEvent::Started => create_surface(self.width(), self.height()),
            DecodeEvent::SurfaceCreated(Err(e)) => DecodeAction::Finish(Err(e)),
            DecodeEvent::SurfaceCreated(Ok(_)) => {
                match locate_idr_start(annex_b) {
                    Some(at) => render(self.build_idr_picture_info(), at, annex_b.len() - at),
                    None => DecodeAction::Finish(
                        Err(VdpError::other("no IDR NAL start code found".to_owned())),
                    ),
                }
            },
            DecodeEvent::Rendered(result) => after_render(result, self.width(), self.height()),
            DecodeEvent::BitsRead(result) => after_read(result, self.width(), self.height()),
        }
    }

    fn build_idr_picture_info(&self) -> (info: VdpPictureInfoHEVC)
        ensures
            describes(info, self@),
    {
        VdpPictureInfoHEVC {
            chroma_format_idc: self.sps.chroma_format_idc as u8,
            separate_colour_plane_flag: self.sps.separate_colour_plane_flag,
            pic_width_in_luma_samples: self.sps.pic_width_in_luma_samples,
            pic_height_in_luma_samples: self.sps.pic_height_in_luma_samples,
            bit_depth_luma_minus8: self.sps.bit_depth_luma_minus8 as u8,
            bit_depth_chroma_minus8: self.sps.bit_depth_chroma_minus8 as u8,
            log2_max_pic_order_cnt_lsb_minus4: self.sps.log2_max_pic_order_cnt_lsb_minus4 as u8,
            sps_max_dec_pic_buffering_minus1: self.sps.sps_max_dec_pic_buffering_minus1 as u8,
            log2_min_luma_coding_block_size_minus3: self.sps.log2_min_luma_coding_block_size_minus3 as u8,
            log2_diff_max_min_luma_coding_block_size: self.sps.log2_diff_max_min_luma_coding_block_size as u8,
            log2_min_transform_block_size_minus2: self.sps.log2_min_transform_block_size_minus2 as u8,
            log2_diff_max_min_transform_block_size: self.sps.log2_diff_max_min_transform_block_size as u8,
            max_transform_hierarchy_depth_inter: self.sps.max_transform_hierarchy_depth_inter as u8,
            max_transform_hierarchy_depth_intra: self.sps.max_transform_hierarchy_depth_intra as u8,
            scaling_list_enabled_flag: self.sps.scaling_list_enabled_flag,
            scaling_list_4x4: [[16u8; 16]; 6],
            scaling_list_8x8: [[16u8; 64]; 6],
            scaling_list_16x16: [[16u8; 64]; 6],
            scaling_list_32x32: [[16u8; 64]; 2],
            scaling_list_dc_coeff_16x16: [16u8; 6],
            scaling_list_dc_coeff_32x32: [16u8; 2],
            amp_enabled_flag: self.sps.amp_enabled_flag,
            sample_adaptive_offset_enabled_flag: self.sps.sample_adaptive_offset_enabled_flag,
            pcm_enabled_flag: self.sps.pcm_enabled_flag,
            pcm_sample_bit_depth_luma_minus1: 0,
            pcm_sample_bit_depth_chroma_minus1: 0,
            log2_min_pcm_luma_coding_block_size_minus3: 0,
            log2_diff_max_min_pcm_luma_coding_block_size: 0,
            pcm_loop_filter_disabled_flag: 0,
            num_short_term_ref_pic_sets: self.sps.num_short_term_ref_pic_sets as u8,
            long_term_ref_pics_present_flag: self.sps.long_term_ref_pics_present_flag,
            num_long_term_ref_pics_sps: self.sps.num_long_term_ref_pics_sps as u8,
            sps_temporal_mvp_enabled_flag: self.sps.sps_temporal_mvp_enabled_flag,
            strong_intra_smoothing_enabled_flag: self.sps.strong_intra_smoothing_enabled_flag,
            dependent_slice_segments_enabled_flag: self.pps.dependent_slice_segments_enabled_flag,
            output_flag_present_flag: self.pps.output_flag_present_flag,
            num_extra_slice_header_bits: self.pps.num_extra_slice_header_bits as u8,
            sign_data_hiding_enabled_flag: self.pps.sign_data_hiding_enabled_flag,
            cabac_init_present_flag: self.pps.cabac_init_present_flag,
            num_ref_idx_l0_default_active_minus1: self.pps.num_ref_idx_l0_default_active_minus1 as u8,
            num_ref_idx_l1_default_active_minus1: self.pps.num_ref_idx_l1_default_active_minus1 as u8,
            init_qp_minus26: self.pps.init_qp_minus26 as i8,
            constrained_intra_pred_flag: self.pps.constrained_intra_pred_flag,
            transform_skip_enabled_flag: self.pps.transform_skip_enabled_flag,
            cu_qp_delta_enabled_flag: self.pps.cu_qp_delta_enabled_flag,
            diff_cu_qp_delta_depth: self.pps.diff_cu_qp_delta_depth as u8,
            pps_cb_qp_offset: self.pps.pps_cb_qp_offset as i8,
            pps_cr_qp_offset: self.pps.pps_cr_qp_offset as i8,
            pps_slice_chroma_qp_offsets_present_flag: self.pps.pps_slice_chroma_qp_offsets_present_flag,
            weighted_pred_flag: self.pps.weighted_pred_flag,
            weighted_bipred_flag: self.pps.weighted_bipred_flag,
            transquant_bypass_enabled_flag: self.pps.transquant_bypass_enabled_flag,
            tiles_enabled_flag: self.pps.tiles_enabled_flag,
            entropy_coding_sync_enabled_flag: self.pps.entropy_coding_sync_enabled_flag,
            num_tile_columns_minus1: 0,
            num_tile_rows_minus1: 0,
            uniform_spacing_flag: 0,
            column_width_minus1: [0u16; 20],
            row_height_minus1: [0u16; 22],
            loop_filter_across_tiles_enabled_flag: 0,
            pps_loop_filter_across_slices_enabled_flag: self.pps.pps_loop_filter_across_slices_enabled_flag,
            deblocking_filter_control_present_flag: self.pps.deblocking_filter_control_present_flag,
            deblocking_filter_override_enabled_flag: self.pps.deblocking_filter_override_enabled_flag,
            pps_deblocking_filter_disabled_flag: self.pps.pps_deblocking_filter_disabled_flag,
            pps_beta_offset_div2: self.pps.pps_beta_offset_div2 as i8,
            pps_tc_offset_div2: self.pps.pps_tc_offset_div2 as i8,
            lists_modification_present_flag: self.pps.lists_modification_present_flag,
            log2_parallel_merge_level_minus2: self.pps.log2_parallel_merge_level_minus2 as u8,
            slice_segment_header_extension_present_flag: self.pps.slice_segment_header_extension_present_flag,
            idr_pic_flag: if is_idr(self.idr_nal_type) {
                1
            } else {
                0
            },
            rap_pic_flag: if is_rap(self.idr_nal_type) {
                1
            } else {
                0
            },
            curr_rps_idx: 0,
            num_poc_total_curr: 0,
            num_delta_pocs_of_ref_rps_idx: 0,
            num_short_term_picture_slice_header_bits: 0,
            num_long_term_picture_slice_header_bits: 0,
            curr_pic_order_cnt_val: 0,
            ref_pics: [VDP_INVALID_HANDLE; 16],
            pic_order_cnt_val: [0i32; 16],
            is_long_term: [0u8; 16],
            num_poc_st_curr_before: 0,
            num_poc_st_curr_after: 0,
            num_poc_lt_curr: 0,
            ref_pic_set_st_curr_before: [0u8; 8],
            ref_pic_set_st_curr_after: [0u8; 8],
            ref_pic_set_lt_curr: [0u8; 8],
        }
    }
}

// Laws.

/// `profile_tier_level()` as an encoder has it: 96 general bits, and for each
/// sub-layer 88 bits of profile and 8 bits of level, each if present.
pub struct WrittenTier {
    pub general: Seq<nat>,
    pub layers: Seq<(Option<Seq<nat>>, Option<Seq<nat>>)>,
    /// What fills the presence flags up to 16 bits.
    pub padding: Seq<nat>,
}

/// The ordering information of the sub-layers: for the lower ones three numbers
/// each, if they are written, and the last two numbers of the highest.
pub struct WrittenOrdering {
    pub lower: Option<Seq<nat>>,
    pub reorder: nat,
    pub latency: nat,
}

/// A short-term reference picture set as an encoder has it.
pub enum WrittenSet {
    /// A delta and a use flag for each picture, of which the first `negative`
    /// come before the current one.
    Coded { negative: nat, pictures: Seq<(nat, nat)> },
    /// A use flag for each picture of the set before it and one more, each with
    /// a second flag that is written if the first is 0.
    Predicted { sign: nat, abs_minus1: nat, used: Seq<(nat, nat)> },
}

/// Append the presence flags of the first `k` sub-layers.
pub open spec fn put_presence(
    w: crate::writer::Bits,
    layers: Seq<(Option<Seq<nat>>, Option<Seq<nat>>)>,
    k: nat,
) -> crate::writer::Bits
    decreases k,
{
    if k == 0 {
        w
    } else {
        put_presence(w, layers, (k - 1) as nat).flag(
            if layers[k - 1].0 is Some {
                1
            } else {
                0
            },
        ).flag(
            if layers[k - 1].1 is Some {
                1
            } else {
                0
            },
        )
    }
}

/// Append the profiles and levels of the first `k` sub-layers.
pub open spec fn put_layers(
    w: crate::writer::Bits,
    layers: Seq<(Option<Seq<nat>>, Option<Seq<nat>>)>,
    k: nat,
) -> crate::writer::Bits
    decreases k,
{
    if k == 0 {
        w
    } else {
        let before = put_layers(w, layers, (k - 1) as nat);
        let profile = match layers[k - 1].0 {
            Some(s) => before.raw(s),
            None => before,
        };
        match layers[k - 1].1 {
            Some(s) => profile.raw(s),
            None => profile,
        }
    }
}

/// Append `profile_tier_level()`.
pub open spec fn put_tier(w: crate::writer::Bits, tier: WrittenTier) -> crate::writer::Bits {
    let general = w.raw(tier.general);
    if tier.layers.len() == 0 {
        general
    } else {
        put_layers(
            put_presence(general, tier.layers, tier.layers.len()).raw(tier.padding),
            tier.layers,
            tier.layers.len(),
        )
    }
}

/// True if the parts have the lengths that the syntax gives them, for this many
/// sub-layers.
pub open spec fn writable_tier(tier: WrittenTier, sub_layers: nat) -> bool {
    &&& tier.general.len() == 96
    &&& tier.layers.len() == sub_layers
    &&& sub_layers < 8
    &&& tier.padding.len() + 2 * sub_layers == 16
    &&& forall|i: int|
        0 <= i < sub_layers ==> {
            &&& (#[trigger] tier.layers[i]).0 matches Some(s) ==> s.len() == 88
            &&& tier.layers[i].1 matches Some(s) ==> s.len() == 8
        }
}

/// Append the ordering information, in which the highest sub-layer has this
/// buffering.
pub open spec fn put_ordering(
    w: crate::writer::Bits,
    ordering: WrittenOrdering,
    buffering: nat,
) -> crate::writer::Bits {
    (match ordering.lower {
        Some(vs) => w.flag(1).ues(vs),
        None => w.flag(0),
    }).ue(buffering).ue(ordering.reorder).ue(ordering.latency)
}

/// True if every number has a code word, and there are three for each lower
/// sub-layer.
pub open spec fn writable_ordering(ordering: WrittenOrdering, sub_layers: nat) -> bool {
    &&& ordering.lower matches Some(vs) ==> {
        &&& vs.len() == 3 * sub_layers
        &&& forall|i: int| 0 <= i < vs.len() ==> crate::writer::ue_fits(#[trigger] vs[i])
    }
    &&& crate::writer::ue_fits(ordering.reorder)
    &&& crate::writer::ue_fits(ordering.latency)
}

/// Append the first `k` of some pictures of a set.
pub open spec fn put_pictures(
    w: crate::writer::Bits,
    pictures: Seq<(nat, nat)>,
    k: nat,
) -> crate::writer::Bits
    decreases k,
{
    if k == 0 {
        w
    } else {
        put_pictures(w, pictures, (k - 1) as nat).ue(pictures[k - 1].0).flag(pictures[k - 1].1)
    }
}

/// Append the first `k` of some use flags.
pub open spec fn put_used(w: crate::writer::Bits, used: Seq<(nat, nat)>, k: nat) -> crate::writer::Bits
    decreases k,
{
    if k == 0 {
        w
    } else {
        let before = put_used(w, used, (k - 1) as nat);
        if used[k - 1].0 == 0 {
            before.flag(0).flag(used[k - 1].1)
        } else {
            before.flag(1)
        }
    }
}

/// Append one set. Only the first is written without a flag that tells whether
/// it is predicted.
pub open spec fn put_set(w: crate::writer::Bits, set: WrittenSet, first: bool) -> crate::writer::Bits {
    match set {
        WrittenSet::Coded { negative, pictures } => put_pictures(
            (if first {
                w
            } else {
                w.flag(0)
            }).ue(negative).ue((pictures.len() - negative) as nat),
            pictures,
            pictures.len(),
        ),
        WrittenSet::Predicted { sign, abs_minus1, used } => put_used(
            w.flag(1).flag(sign).ue(abs_minus1),
            used,
            used.len(),
        ),
    }
}

/// Append the first `k` of some sets.
pub open spec fn put_sets(w: crate::writer::Bits, sets: Seq<WrittenSet>, k: nat) -> crate::writer::Bits
    decreases k,
{
    if k == 0 {
        w
    } else {
        put_set(put_sets(w, sets, (k - 1) as nat), sets[k - 1], k == 1)
    }
}

/// The number of pictures of the last of the first `k` sets that is not
/// predicted, as a 32-bit number that wraps around.
pub open spec fn pictures_before(sets: Seq<WrittenSet>, k: nat) -> nat
    decreases k,
{
    if k == 0 {
        0
    } else {
        match sets[k - 1] {
            WrittenSet::Coded { pictures, .. } => pictures.len() % 0x1_0000_0000,
            WrittenSet::Predicted { .. } => pictures_before(sets, (k - 1) as nat),
        }
    }
}

/// True if set `k` can be written: all numbers have code words, and a predicted
/// set, which is never the first, has a flag for each picture and one more.
pub open spec fn writable_set(sets: Seq<WrittenSet>, k: int) -> bool {
    match sets[k] {
        WrittenSet::Coded { negative, pictures } => {
            &&& negative <= pictures.len()
            &&& crate::writer::ue_fits(negative)
            &&& crate::writer::ue_fits((pictures.len() - negative) as nat)
            &&& forall|i: int|
                0 <= i < pictures.len() ==> crate::writer::ue_fits((#[trigger] pictures[i]).0)
        },
        WrittenSet::Predicted { abs_minus1, used, .. } => {
            &&& k > 0
            &&& crate::writer::ue_fits(abs_minus1)
            &&& used.len() == pictures_before(sets, k as nat) + 1
        },
    }
}

proof fn lemma_put_presence(
    c: Cursor,
    w: crate::writer::Bits,
    layers: Seq<(Option<Seq<nat>>, Option<Seq<nat>>)>,
    k: nat,
)
    requires
        k <= layers.len(),
        c.begins_with(put_presence(w, layers, k)),
    ensures
        c.begins_with(w),
        put_presence(w, layers, k).len() == w.len() + 2 * k,
        forall|i: int|
            0 <= i < k ==> {
                &&& (#[trigger] layers[i]).0 is Some ==> c.behind(w).skip((2 * i) as nat).flag() == 1
                &&& layers[i].0 is None ==> c.behind(w).skip((2 * i) as nat).flag() == 0
                &&& layers[i].1 is Some ==> c.behind(w).skip((2 * i + 1) as nat).flag() == 1
                &&& layers[i].1 is None ==> c.behind(w).skip((2 * i + 1) as nat).flag() == 0
            },
    decreases k,
{
    broadcast use crate::writer::group_reads_back;

    if k > 0 {
        let before = put_presence(w, layers, (k - 1) as nat);
        assert(c.begins_with(before));
        lemma_put_presence(c, w, layers, (k - 1) as nat);
    }
}

proof fn lemma_put_layers(
    c: Cursor,
    flags: Cursor,
    w: crate::writer::Bits,
    layers: Seq<(Option<Seq<nat>>, Option<Seq<nat>>)>,
    k: nat,
)
    requires
        k <= layers.len(),
        c.begins_with(put_layers(w, layers, k)),
        forall|i: int|
            0 <= i < k ==> {
                &&& (#[trigger] layers[i]).0 matches Some(s) ==> s.len() == 88
                &&& layers[i].1 matches Some(s) ==> s.len() == 8
            },
    ensures
        c.begins_with(w),
        (forall|i: int|
            0 <= i < k ==> {
                &&& (#[trigger] layers[i]).0 is Some ==> flags.skip((2 * i) as nat).flag() == 1
                &&& layers[i].0 is None ==> flags.skip((2 * i) as nat).flag() == 0
                &&& layers[i].1 is Some ==> flags.skip((2 * i + 1) as nat).flag() == 1
                &&& layers[i].1 is None ==> flags.skip((2 * i + 1) as nat).flag() == 0
            }) ==> put_layers(w, layers, k).len() == w.len() + sub_layer_bits(flags, k),
    decreases k,
{
    broadcast use crate::writer::group_reads_back;

    if k > 0 {
        let before = put_layers(w, layers, (k - 1) as nat);
        assert(c.begins_with(before));
        lemma_put_layers(c, flags, w, layers, (k - 1) as nat);
        assert(layers[k - 1].0 matches Some(s) ==> s.len() == 88);
    }
}

proof fn lemma_put_tier(c: Cursor, w: crate::writer::Bits, tier: WrittenTier, sub_layers: nat)
    requires
        writable_tier(tier, sub_layers),
        c.begins_with(put_tier(w, tier)),
    ensures
        c.begins_with(w),
        after_profile_tier_level(c.behind(w), sub_layers) == c.behind(put_tier(w, tier)),
{
    broadcast use crate::writer::group_reads_back;

    let general = w.raw(tier.general);
    if sub_layers > 0 {
        let presence = put_presence(general, tier.layers, sub_layers);
        let flags = c.skip(w.len() + 96);
        lemma_put_layers(c, flags, presence.raw(tier.padding), tier.layers, sub_layers);
        assert(c.begins_with(presence));
        lemma_put_presence(c, general, tier.layers, sub_layers);
        assert(c.behind(general) == flags);
    }
}

proof fn lemma_put_ordering(
    c: Cursor,
    w: crate::writer::Bits,
    ordering: WrittenOrdering,
    buffering: nat,
    sub_layers: nat,
)
    requires
        writable_ordering(ordering, sub_layers),
        crate::writer::ue_fits(buffering),
        c.begins_with(put_ordering(w, ordering, buffering)),
    ensures
        c.begins_with(w),
        last_ordering_info(c.behind(w), sub_layers).ue() == buffering,
        last_ordering_info(c.behind(w), sub_layers).after_ues(3) == c.behind(
            put_ordering(w, ordering, buffering),
        ),
{
    broadcast use crate::writer::group_reads_back;

    reveal_with_fuel(Cursor::after_ues, 4);
}

proof fn lemma_put_pictures(c: Cursor, w: crate::writer::Bits, pictures: Seq<(nat, nat)>, k: nat)
    requires
        k <= pictures.len(),
        c.begins_with(put_pictures(w, pictures, k)),
        forall|i: int| 0 <= i < k ==> crate::writer::ue_fits((#[trigger] pictures[i]).0),
    ensures
        c.begins_with(w),
        after_delta_pocs(c.behind(w), k) == c.behind(put_pictures(w, pictures, k)),
    decreases k,
{
    broadcast use crate::writer::group_reads_back;

    if k > 0 {
        let before = put_pictures(w, pictures, (k - 1) as nat);
        assert(crate::writer::ue_fits(pictures[k - 1].0));
        assert(c.begins_with(before));
        lemma_put_pictures(c, w, pictures, (k - 1) as nat);
    }
}

proof fn lemma_put_used(c: Cursor, w: crate::writer::Bits, used: Seq<(nat, nat)>, k: nat)
    requires
        k <= used.len(),
        c.begins_with(put_used(w, used, k)),
    ensures
        c.begins_with(w),
        after_used_flags(c.behind(w), k) == c.behind(put_used(w, used, k)),
    decreases k,
{
    broadcast use crate::writer::group_reads_back;

    if k > 0 {
        let before = put_used(w, used, (k - 1) as nat);
        assert(c.begins_with(before));
        lemma_put_used(c, w, used, (k - 1) as nat);
    }
}

proof fn lemma_put_set(c: Cursor, w: crate::writer::Bits, sets: Seq<WrittenSet>, k: nat, num: nat)
    requires
        k < num,
        writable_set(sets, k as int),
        c.begins_with(put_set(w, sets[k as int], k == 0)),
    ensures
        c.begins_with(w),
        ref_pic_set(c.behind(w), k, num, pictures_before(sets, k)) == (
            c.behind(put_set(w, sets[k as int], k == 0)),
            Ok::<nat, Failure>(pictures_before(sets, k + 1)),
        ),
{
    broadcast use crate::writer::group_reads_back;

    match sets[k as int] {
        WrittenSet::Coded { negative, pictures } => {
            let base = if k == 0 {
                w
            } else {
                w.flag(0)
            };
            let positive = (pictures.len() - negative) as nat;
            lemma_put_pictures(c, base.ue(negative).ue(positive), pictures, pictures.len());
            assert(c.begins_with(base.ue(negative)));
            assert(c.begins_with(base));
        },
        WrittenSet::Predicted { sign, abs_minus1, used } => {
            let base = w.flag(1).flag(sign).ue(abs_minus1);
            lemma_put_used(c, base, used, used.len());
            assert(c.begins_with(base));
        },
    }
}

proof fn lemma_put_sets(c: Cursor, w: crate::writer::Bits, sets: Seq<WrittenSet>, k: nat)
    requires
        k <= sets.len(),
        forall|i: int| 0 <= i < sets.len() ==> #[trigger] writable_set(sets, i),
        c.begins_with(put_sets(w, sets, sets.len())),
    ensures
        c.begins_with(put_sets(w, sets, k)),
        after_ref_pic_sets(
            c.behind(put_sets(w, sets, k)),
            k,
            sets.len(),
            pictures_before(sets, k),
        ) == Ok::<Cursor, Failure>(c.behind(put_sets(w, sets, sets.len()))),
    decreases sets.len() - k,
{
    if k < sets.len() {
        lemma_put_sets(c, w, sets, k + 1);
        assert(writable_set(sets, k as int));
        lemma_put_set(c, put_sets(w, sets, k), sets, k, sets.len());
    }
}

/// What a sequence parameter set carries and its fields do not hold.
pub struct SpsExtras {
    pub temporal_id_nesting_flag: nat,
    pub tier: WrittenTier,
    /// The four offsets of the conformance window, if there is one.
    pub window: Option<(nat, nat, nat, nat)>,
    pub ordering: WrittenOrdering,
    pub sets: Seq<WrittenSet>,
    /// For each long-term picture its order count, in a number of bits that is
    /// a 32-bit number and wraps around, and a use flag.
    pub long_term: Seq<nat>,
}

/// What an encoder writes for a sequence parameter set, up to the conformance
/// window.
pub open spec fn written_sps_head(sps: Sps, x: SpsExtras) -> crate::writer::Bits {
    let chroma = put_tier(
        crate::writer::Bits::start().u(4, sps.vps_id as nat).u(
            3,
            sps.max_sub_layers_minus1 as nat,
        ).flag(x.temporal_id_nesting_flag),
        x.tier,
    ).ue(sps.sps_id as nat).ue(sps.chroma_format_idc as nat);
    let size = (if sps.chroma_format_idc == 3 {
        chroma.flag(sps.separate_colour_plane_flag as nat)
    } else {
        chroma
    }).ue(sps.pic_width_in_luma_samples as nat).ue(sps.pic_height_in_luma_samples as nat);
    match x.window {
        None => size.flag(0),
        Some(o) => size.flag(1).ue(o.0).ue(o.1).ue(o.2).ue(o.3),
    }
}

/// What an encoder writes for a sequence parameter set, up to the block sizes.
pub open spec fn written_sps_sizes(sps: Sps, x: SpsExtras) -> crate::writer::Bits {
    put_ordering(
        written_sps_head(sps, x).ue(sps.bit_depth_luma_minus8 as nat).ue(
            sps.bit_depth_chroma_minus8 as nat,
        ).ue(sps.log2_max_pic_order_cnt_lsb_minus4 as nat),
        x.ordering,
        sps.sps_max_dec_pic_buffering_minus1 as nat,
    ).ue(sps.log2_min_luma_coding_block_size_minus3 as nat).ue(
        sps.log2_diff_max_min_luma_coding_block_size as nat,
    ).ue(sps.log2_min_transform_block_size_minus2 as nat).ue(
        sps.log2_diff_max_min_transform_block_size as nat,
    ).ue(sps.max_transform_hierarchy_depth_inter as nat).ue(
        sps.max_transform_hierarchy_depth_intra as nat,
    )
}

/// What an encoder writes for a sequence parameter set, up to
/// `strong_intra_smoothing_enabled_flag`.
pub open spec fn written_sps(sps: Sps, x: SpsExtras) -> crate::writer::Bits {
    let sets = put_sets(
        written_sps_sizes(sps, x).flag(0).flag(sps.amp_enabled_flag as nat).flag(
            sps.sample_adaptive_offset_enabled_flag as nat,
        ).flag(0).ue(x.sets.len()),
        x.sets,
        x.sets.len(),
    );
    (if sps.long_term_ref_pics_present_flag == 0 {
        sets.flag(0)
    } else {
        sets.flag(1).ue(sps.num_long_term_ref_pics_sps as nat).raw(x.long_term)
    }).flag(sps.sps_temporal_mvp_enabled_flag as nat).flag(
        sps.strong_intra_smoothing_enabled_flag as nat,
    )
}

/// True if every number fits in what it is written in, and fields that are not
/// written are 0.
pub open spec fn writable_sps(sps: Sps, x: SpsExtras) -> bool {
    &&& sps.vps_id < 16
    &&& sps.max_sub_layers_minus1 < 8
    &&& writable_tier(x.tier, sps.max_sub_layers_minus1 as nat)
    &&& sps.sps_id < u32::MAX
    &&& sps.chroma_format_idc < u32::MAX
    &&& sps.separate_colour_plane_flag <= 1
    &&& sps.chroma_format_idc != 3 ==> sps.separate_colour_plane_flag == 0
    &&& sps.pic_width_in_luma_samples < u32::MAX
    &&& sps.pic_height_in_luma_samples < u32::MAX
    &&& x.window matches Some(o) ==> crate::writer::ue_fits(o.0) && crate::writer::ue_fits(o.1)
        && crate::writer::ue_fits(o.2) && crate::writer::ue_fits(o.3)
    &&& sps.bit_depth_luma_minus8 < u32::MAX
    &&& sps.bit_depth_chroma_minus8 < u32::MAX
    &&& sps.log2_max_pic_order_cnt_lsb_minus4 < u32::MAX
    &&& writable_ordering(x.ordering, sps.max_sub_layers_minus1 as nat)
    &&& sps.sps_max_dec_pic_buffering_minus1 < u32::MAX
    &&& sps.log2_min_luma_coding_block_size_minus3 < u32::MAX
    &&& sps.log2_diff_max_min_luma_coding_block_size < u32::MAX
    &&& sps.log2_min_transform_block_size_minus2 < u32::MAX
    &&& sps.log2_diff_max_min_transform_block_size < u32::MAX
    &&& sps.max_transform_hierarchy_depth_inter < u32::MAX
    &&& sps.max_transform_hierarchy_depth_intra < u32::MAX
    &&& sps.scaling_list_enabled_flag == 0
    &&& sps.amp_enabled_flag <= 1
    &&& sps.sample_adaptive_offset_enabled_flag <= 1
    &&& sps.pcm_enabled_flag == 0
    &&& sps.num_short_term_ref_pic_sets == x.sets.len()
    &&& crate::writer::ue_fits(x.sets.len())
    &&& forall|i: int| 0 <= i < x.sets.len() ==> #[trigger] writable_set(x.sets, i)
    &&& sps.long_term_ref_pics_present_flag <= 1
    &&& sps.long_term_ref_pics_present_flag == 0 ==> sps.num_long_term_ref_pics_sps == 0
    &&& sps.num_long_term_ref_pics_sps < u32::MAX
    &&& x.long_term.len() == sps.num_long_term_ref_pics_sps * ((
    sps.log2_max_pic_order_cnt_lsb_minus4 + 4) % 0x1_0000_0000 + 1)
    &&& sps.sps_temporal_mvp_enabled_flag <= 1
    &&& sps.strong_intra_smoothing_enabled_flag <= 1
}

/// A sequence parameter set that was written is read back, with or without a
/// conformance window, sub-layers, reference picture sets and long-term
/// pictures, and whatever follows it.
#[verifier::rlimit(80)]
pub proof fn law_sps_reads_back(header: (u8, u8), data: Seq<u8>, sps: Sps, x: SpsExtras)
    requires
        header.0 / 2 % 64 == 33,
        writable_sps(sps, x),
        Cursor::start(data).begins_with(written_sps(sps, x)),
    ensures
        sps_of(crate::annexb::unit(seq![header.0, header.1], data)) == Ok::<Sps, Failure>(sps),
{
    broadcast use crate::writer::group_reads_back;

    let nal = crate::annexb::unit(seq![header.0, header.1], data);
    let c = Cursor::start(data);
    crate::bits::lemma_small_powers();
    reveal_with_fuel(Cursor::after_ues, 7);
    lemma_written_type(header, data);
    let start = crate::writer::Bits::start().u(4, sps.vps_id as nat).u(
        3,
        sps.max_sub_layers_minus1 as nat,
    ).flag(x.temporal_id_nesting_flag);
    let tier = put_tier(start, x.tier);
    let poc = written_sps_head(sps, x).ue(sps.bit_depth_luma_minus8 as nat).ue(
        sps.bit_depth_chroma_minus8 as nat,
    ).ue(sps.log2_max_pic_order_cnt_lsb_minus4 as nat);
    let ordering = put_ordering(poc, x.ordering, sps.sps_max_dec_pic_buffering_minus1 as nat);
    let num = written_sps_sizes(sps, x).flag(0).flag(sps.amp_enabled_flag as nat).flag(
        sps.sample_adaptive_offset_enabled_flag as nat,
    ).flag(0).ue(x.sets.len());
    assert(c.begins_with(put_sets(num, x.sets, x.sets.len())));
    lemma_put_sets(c, num, x.sets, 0);
    assert(c.begins_with(ordering));
    lemma_put_ordering(
        c,
        poc,
        x.ordering,
        sps.sps_max_dec_pic_buffering_minus1 as nat,
        sps.max_sub_layers_minus1 as nat,
    );
    assert(c.begins_with(tier));
    lemma_put_tier(c, start, x.tier, sps.max_sub_layers_minus1 as nat);
}

proof fn lemma_written_type(header: (u8, u8), data: Seq<u8>)
    ensures
        ({
            let nal = crate::annexb::unit(seq![header.0, header.1], data);
            &&& nal.len() >= 2
            &&& type_of(nal) == header.0 / 2 % 64
            &&& crate::annexb::stripped(nal.skip(2)) == data
        }),
{
    let nal = crate::annexb::unit(seq![header.0, header.1], data);
    crate::annexb::law_unit_payload_reads_back(seq![header.0, header.1], data);
    assert(nal[0] == header.0);
    lemma_type_bits(header.0);
}

/// A sequence parameter set with scaling lists or PCM samples is refused.
#[verifier::rlimit(80)]
pub proof fn law_sps_with_scaling_lists_or_pcm_is_refused(
    header: (u8, u8),
    data: Seq<u8>,
    sps: Sps,
    x: SpsExtras,
)
    requires
        header.0 / 2 % 64 == 33,
        writable_sps(sps, x),
        Cursor::start(data).begins_with(written_sps_sizes(sps, x).flag(1)) || Cursor::start(
            data,
        ).begins_with(
            written_sps_sizes(sps, x).flag(0).flag(sps.amp_enabled_flag as nat).flag(
                sps.sample_adaptive_offset_enabled_flag as nat,
            ).flag(1),
        ),
    ensures
        Cursor::start(data).begins_with(written_sps_sizes(sps, x).flag(1)) ==> sps_of(
            crate::annexb::unit(seq![header.0, header.1], data),
        ) == Err::<Sps, Failure>(
            crate::device::failure(
                "parse_sps: scaling_list_enabled_flag=1 not supported by minimal parser"@,
            ),
        ),
        !Cursor::start(data).begins_with(written_sps_sizes(sps, x).flag(1)) ==> sps_of(
            crate::annexb::unit(seq![header.0, header.1], data),
        ) == Err::<Sps, Failure>(
            crate::device::failure(
                "parse_sps: pcm_enabled_flag=1 not supported by minimal parser"@,
            ),
        ),
{
    broadcast use crate::writer::group_reads_back;

    let c = Cursor::start(data);
    crate::bits::lemma_small_powers();
    reveal_with_fuel(Cursor::after_ues, 7);
    lemma_written_type(header, data);
    let start = crate::writer::Bits::start().u(4, sps.vps_id as nat).u(
        3,
        sps.max_sub_layers_minus1 as nat,
    ).flag(x.temporal_id_nesting_flag);
    let tier = put_tier(start, x.tier);
    let poc = written_sps_head(sps, x).ue(sps.bit_depth_luma_minus8 as nat).ue(
        sps.bit_depth_chroma_minus8 as nat,
    ).ue(sps.log2_max_pic_order_cnt_lsb_minus4 as nat);
    let ordering = put_ordering(poc, x.ordering, sps.sps_max_dec_pic_buffering_minus1 as nat);
    assert(c.begins_with(ordering));
    lemma_put_ordering(
        c,
        poc,
        x.ordering,
        sps.sps_max_dec_pic_buffering_minus1 as nat,
        sps.max_sub_layers_minus1 as nat,
    );
    assert(c.begins_with(tier));
    lemma_put_tier(c, start, x.tier, sps.max_sub_layers_minus1 as nat);
}

/// What a video parameter set carries and its fields do not hold.
pub struct VpsExtras {
    /// Two reserved bits behind the identifier.
    pub reserved: Seq<nat>,
    pub temporal_id_nesting_flag: nat,
    /// Sixteen reserved bits.
    pub reserved_16: Seq<nat>,
    pub tier: WrittenTier,
    pub ordering: WrittenOrdering,
}

/// What an encoder writes for a video parameter set, up to the ordering
/// information.
pub open spec fn written_vps(vps: Vps, x: VpsExtras) -> crate::writer::Bits {
    put_ordering(
        put_tier(
            crate::writer::Bits::start().u(4, vps.vps_id as nat).raw(x.reserved).u(
                6,
                vps.max_layers_minus1 as nat,
            ).u(3, vps.max_sub_layers_minus1 as nat).flag(x.temporal_id_nesting_flag).raw(
                x.reserved_16,
            ),
            x.tier,
        ),
        x.ordering,
        vps.vps_max_dec_pic_buffering_minus1 as nat,
    )
}

/// True if every number fits in what it is written in.
pub open spec fn writable_vps(vps: Vps, x: VpsExtras) -> bool {
    &&& vps.vps_id < 16
    &&& x.reserved.len() == 2
    &&& vps.max_layers_minus1 < 64
    &&& vps.max_sub_layers_minus1 < 8
    &&& x.reserved_16.len() == 16
    &&& writable_tier(x.tier, vps.max_sub_layers_minus1 as nat)
    &&& writable_ordering(x.ordering, vps.max_sub_layers_minus1 as nat)
    &&& vps.vps_max_dec_pic_buffering_minus1 < u32::MAX
}

/// A video parameter set that was written is read back, whatever follows it.
pub proof fn law_vps_reads_back(header: (u8, u8), data: Seq<u8>, vps: Vps, x: VpsExtras)
    requires
        header.0 / 2 % 64 == 32,
        writable_vps(vps, x),
        Cursor::start(data).begins_with(written_vps(vps, x)),
    ensures
        vps_of(crate::annexb::unit(seq![header.0, header.1], data)) == Ok::<Vps, Failure>(vps),
{
    broadcast use crate::writer::group_reads_back;

    let c = Cursor::start(data);
    crate::bits::lemma_small_powers();
    lemma_written_type(header, data);
    let start = crate::writer::Bits::start().u(4, vps.vps_id as nat).raw(x.reserved).u(
        6,
        vps.max_layers_minus1 as nat,
    ).u(3, vps.max_sub_layers_minus1 as nat).flag(x.temporal_id_nesting_flag).raw(x.reserved_16);
    let tier = put_tier(start, x.tier);
    let m = vps.max_sub_layers_minus1 as nat;
    lemma_put_ordering(c, tier, x.ordering, vps.vps_max_dec_pic_buffering_minus1 as nat, m);
    lemma_put_tier(c, start, x.tier, m);
}

/// What an encoder writes for a picture parameter set, up to
/// `tiles_enabled_flag`.
pub open spec fn written_pps_head(pps: Pps, tiles: nat) -> crate::writer::Bits {
    let w = crate::writer::Bits::start().ue(pps.pps_id as nat).ue(pps.sps_id as nat).flag(
        pps.dependent_slice_segments_enabled_flag as nat,
    ).flag(pps.output_flag_present_flag as nat).u(3, pps.num_extra_slice_header_bits as nat).flag(
        pps.sign_data_hiding_enabled_flag as nat,
    ).flag(pps.cabac_init_present_flag as nat).ue(
        pps.num_ref_idx_l0_default_active_minus1 as nat,
    ).ue(pps.num_ref_idx_l1_default_active_minus1 as nat).se(pps.init_qp_minus26 as int).flag(
        pps.constrained_intra_pred_flag as nat,
    ).flag(pps.transform_skip_enabled_flag as nat).flag(pps.cu_qp_delta_enabled_flag as nat);
    (if pps.cu_qp_delta_enabled_flag == 1 {
        w.ue(pps.diff_cu_qp_delta_depth as nat)
    } else {
        w
    }).se(pps.pps_cb_qp_offset as int).se(pps.pps_cr_qp_offset as int).flag(
        pps.pps_slice_chroma_qp_offsets_present_flag as nat,
    ).flag(pps.weighted_pred_flag as nat).flag(pps.weighted_bipred_flag as nat).flag(
        pps.transquant_bypass_enabled_flag as nat,
    ).flag(tiles)
}

/// What an encoder writes for a picture parameter set without tiles, up to
/// `pps_scaling_list_data_present_flag`.
pub open spec fn written_pps_filter(pps: Pps, scaling: nat) -> crate::writer::Bits {
    let w = written_pps_head(pps, 0).flag(pps.entropy_coding_sync_enabled_flag as nat).flag(
        pps.pps_loop_filter_across_slices_enabled_flag as nat,
    );
    (if pps.deblocking_filter_control_present_flag == 0 {
        w.flag(0)
    } else {
        let control = w.flag(1).flag(pps.deblocking_filter_override_enabled_flag as nat);
        if pps.pps_deblocking_filter_disabled_flag == 1 {
            control.flag(1)
        } else {
            control.flag(0).se(pps.pps_beta_offset_div2 as int).se(pps.pps_tc_offset_div2 as int)
        }
    }).flag(scaling)
}

/// What an encoder writes for a picture parameter set, up to
/// `slice_segment_header_extension_present_flag`.
pub open spec fn written_pps(pps: Pps) -> crate::writer::Bits {
    written_pps_filter(pps, 0).flag(pps.lists_modification_present_flag as nat).ue(
        pps.log2_parallel_merge_level_minus2 as nat,
    ).flag(pps.slice_segment_header_extension_present_flag as nat)
}

/// True if every number fits in what it is written in, and fields that are not
/// written are 0.
pub open spec fn writable_pps(pps: Pps) -> bool {
    &&& pps.pps_id < u32::MAX
    &&& pps.sps_id < u32::MAX
    &&& pps.dependent_slice_segments_enabled_flag <= 1
    &&& pps.output_flag_present_flag <= 1
    &&& pps.num_extra_slice_header_bits < 8
    &&& pps.sign_data_hiding_enabled_flag <= 1
    &&& pps.cabac_init_present_flag <= 1
    &&& pps.num_ref_idx_l0_default_active_minus1 < u32::MAX
    &&& pps.num_ref_idx_l1_default_active_minus1 < u32::MAX
    &&& crate::writer::se_fits(pps.init_qp_minus26 as int)
    &&& pps.constrained_intra_pred_flag <= 1
    &&& pps.transform_skip_enabled_flag <= 1
    &&& pps.cu_qp_delta_enabled_flag <= 1
    &&& pps.diff_cu_qp_delta_depth < u32::MAX
    &&& pps.cu_qp_delta_enabled_flag == 0 ==> pps.diff_cu_qp_delta_depth == 0
    &&& crate::writer::se_fits(pps.pps_cb_qp_offset as int)
    &&& crate::writer::se_fits(pps.pps_cr_qp_offset as int)
    &&& pps.pps_slice_chroma_qp_offsets_present_flag <= 1
    &&& pps.weighted_pred_flag <= 1
    &&& pps.weighted_bipred_flag <= 1
    &&& pps.transquant_bypass_enabled_flag <= 1
    &&& pps.tiles_enabled_flag == 0
    &&& pps.entropy_coding_sync_enabled_flag <= 1
    &&& pps.pps_loop_filter_across_slices_enabled_flag <= 1
    &&& pps.deblocking_filter_control_present_flag <= 1
    &&& pps.deblocking_filter_override_enabled_flag <= 1
    &&& pps.pps_deblocking_filter_disabled_flag <= 1
    &&& pps.deblocking_filter_control_present_flag == 0
        ==> pps.deblocking_filter_override_enabled_flag == 0
        && pps.pps_deblocking_filter_disabled_flag == 0 && pps.pps_beta_offset_div2 == 0
        && pps.pps_tc_offset_div2 == 0
    &&& pps.pps_deblocking_filter_disabled_flag == 1 ==> pps.pps_beta_offset_div2 == 0
        && pps.pps_tc_offset_div2 == 0
    &&& crate::writer::se_fits(pps.pps_beta_offset_div2 as int)
    &&& crate::writer::se_fits(pps.pps_tc_offset_div2 as int)
    &&& pps.lists_modification_present_flag <= 1
    &&& pps.log2_parallel_merge_level_minus2 < u32::MAX
    &&& pps.slice_segment_header_extension_present_flag <= 1
}

/// A picture parameter set that was written is read back, whatever follows it.
#[verifier::rlimit(80)]
pub proof fn law_pps_reads_back(header: (u8, u8), data: Seq<u8>, pps: Pps)
    requires
        header.0 / 2 % 64 == 34,
        writable_pps(pps),
        Cursor::start(data).begins_with(written_pps(pps)),
    ensures
        pps_of(crate::annexb::unit(seq![header.0, header.1], data)) == Ok::<Pps, Failure>(pps),
{
    broadcast use crate::writer::group_reads_back;

    crate::bits::lemma_small_powers();
    reveal_with_fuel(Cursor::after_ues, 4);
    lemma_written_type(header, data);
}

/// A picture parameter set with tiles or scaling lists is refused.
#[verifier::rlimit(80)]
pub proof fn law_pps_with_tiles_or_scaling_lists_is_refused(
    header: (u8, u8),
    data: Seq<u8>,
    pps: Pps,
)
    requires
        header.0 / 2 % 64 == 34,
        writable_pps(pps),
        Cursor::start(data).begins_with(written_pps_head(pps, 1)) || Cursor::start(
            data,
        ).begins_with(written_pps_filter(pps, 1)),
    ensures
        Cursor::start(data).begins_with(written_pps_head(pps, 1)) ==> pps_of(
            crate::annexb::unit(seq![header.0, header.1], data),
        ) == Err::<Pps, Failure>(
            crate::device::failure(
                "parse_pps: tiles_enabled_flag=1 not supported by minimal parser"@,
            ),
        ),
        !Cursor::start(data).begins_with(written_pps_head(pps, 1)) ==> pps_of(
            crate::annexb::unit(seq![header.0, header.1], data),
        ) == Err::<Pps, Failure>(
            crate::device::failure(
                "parse_pps: pps_scaling_list_data_present_flag=1 not supported by minimal parser"@,
            ),
        ),
{
    broadcast use crate::writer::group_reads_back;

    crate::bits::lemma_small_powers();
    reveal_with_fuel(Cursor::after_ues, 4);
    lemma_written_type(header, data);
}

/// A parameter set is read only from a unit of its own type, with a whole header.
pub proof fn law_other_units_are_refused(header: (u8, u8), data: Seq<u8>)
    ensures
        vps_of(seq![header.0]) is Err && vps_of(Seq::empty()) is Err,
        sps_of(seq![header.0]) is Err && sps_of(Seq::empty()) is Err,
        pps_of(seq![header.0]) is Err && pps_of(Seq::empty()) is Err,
        header.0 / 2 % 64 != 32 ==> vps_of(
            crate::annexb::unit(seq![header.0, header.1], data),
        ) is Err,
        header.0 / 2 % 64 != 33 ==> sps_of(
            crate::annexb::unit(seq![header.0, header.1], data),
        ) is Err,
        header.0 / 2 % 64 != 34 ==> pps_of(
            crate::annexb::unit(seq![header.0, header.1], data),
        ) is Err,
{
    lemma_written_type(header, data);
}

/// The parameter sets of a stream, each with its header and payload.
pub struct WrittenSets {
    pub vps_unit: ((u8, u8), Seq<u8>),
    pub sps_unit: ((u8, u8), Seq<u8>),
    pub pps_unit: ((u8, u8), Seq<u8>),
    pub vps: Vps,
    pub sps: Sps,
    pub pps: Pps,
    pub vps_extras: VpsExtras,
    pub sps_extras: SpsExtras,
}

/// True if unit `at` of a stream is this one, and the first with its type.
pub open spec fn first_unit_is(
    list: Seq<crate::annexb::FramedUnit>,
    at: int,
    unit: ((u8, u8), Seq<u8>),
) -> bool {
    &&& 0 <= at < list.len()
    &&& list[at].payload == crate::annexb::unit(seq![unit.0.0, unit.0.1], unit.1)
    &&& forall|k: int|
        0 <= k < at && (#[trigger] list[k]).payload.len() > 0 ==> list[k].payload[0] / 2 % 64
            != unit.0.0 / 2 % 64
}

/// True if the stream carries these sets, and behind or among them the header of
/// an IDR picture, `at.3`, of type 19 or 20, with none of either type before it.
pub open spec fn carries(
    list: Seq<crate::annexb::FramedUnit>,
    at: (int, int, int, int),
    s: WrittenSets,
) -> bool {
    &&& crate::annexb::separable(list)
    &&& s.vps_unit.0.0 / 2 % 64 == 32
    &&& s.sps_unit.0.0 / 2 % 64 == 33
    &&& s.pps_unit.0.0 / 2 % 64 == 34
    &&& first_unit_is(list, at.0, s.vps_unit)
    &&& first_unit_is(list, at.1, s.sps_unit)
    &&& first_unit_is(list, at.2, s.pps_unit)
    &&& 0 <= at.3 < list.len()
    &&& list[at.3].payload.len() > 0
    &&& list[at.3].payload[0] / 2 % 64 == 19 || list[at.3].payload[0] / 2 % 64 == 20
    &&& forall|k: int|
        0 <= k < at.3 && (#[trigger] list[k]).payload.len() > 0 ==> list[k].payload[0] / 2 % 64
            != 19 && list[k].payload[0] / 2 % 64 != 20
    &&& writable_vps(s.vps, s.vps_extras)
    &&& Cursor::start(s.vps_unit.1).begins_with(written_vps(s.vps, s.vps_extras))
    &&& writable_sps(s.sps, s.sps_extras)
    &&& Cursor::start(s.sps_unit.1).begins_with(written_sps(s.sps, s.sps_extras))
    &&& writable_pps(s.pps)
    &&& Cursor::start(s.pps_unit.1).begins_with(written_pps(s.pps))
}

/// A decoder for a stream that carries all parameter sets and an IDR picture
/// knows exactly what was written.
pub proof fn law_parameters_are_found(
    list: Seq<crate::annexb::FramedUnit>,
    at: (int, int, int, int),
    s: WrittenSets,
)
    requires
        carries(list, at, s),
    ensures
        parameters_of(crate::annexb::units(crate::annexb::framed(list))) == Ok::<
            HevcParameters,
            Failure,
        >(
            (HevcParameters {
                vps: s.vps,
                sps: s.sps,
                pps: s.pps,
                idr_nal_type: list[at.3].payload[0] / 2 % 64,
            }),
        ),
{
    let units = crate::annexb::units(crate::annexb::framed(list));
    crate::annexb::law_split_undoes_framing(list);
    law_vps_reads_back(s.vps_unit.0, s.vps_unit.1, s.vps, s.vps_extras);
    law_sps_reads_back(s.sps_unit.0, s.sps_unit.1, s.sps, s.sps_extras);
    law_pps_reads_back(s.pps_unit.0, s.pps_unit.1, s.pps);
    assert forall|k: int| 0 <= k < list.len() implies #[trigger] type_of(units[k]) == (if list[k].payload.len()
        == 0 {
        0xffu8
    } else {
        (list[k].payload[0] / 2 % 64) as u8
    }) by {
        assert(units[k] == list[k].payload);
        if list[k].payload.len() > 0 {
            lemma_type_bits(list[k].payload[0]);
        }
    }
    lemma_first_of_type_is(units, 32, 32, 0, at.0);
    lemma_first_of_type_is(units, 33, 33, 0, at.1);
    lemma_first_of_type_is(units, 34, 34, 0, at.2);
    lemma_first_of_type_is(units, 19, 20, 0, at.3);
}

proof fn lemma_type_bits(b: u8)
    ensures
        (b >> 1) & 0x3f == b / 2 % 64,
{
    assert((b >> 1) & 0x3f == b / 2 % 64) by (bit_vector);
}

proof fn lemma_first_of_type_is(units: Seq<Seq<u8>>, low: u8, high: u8, i: int, at: int)
    requires
        0 <= i <= at < units.len(),
        low <= type_of(units[at]) <= high,
        forall|k: int| i <= k < at ==> !(low <= #[trigger] type_of(units[k]) <= high),
    ensures
        first_of_type(units, low, high, i) == at,
    decreases at - i,
{
    if i < at {
        assert(!(low <= type_of(units[i]) <= high));
        lemma_first_of_type_is(units, low, high, i + 1, at);
    }
}

/// The record that the driver gets for the IDR picture says, field by field,
/// what the encoder wrote in the parameter sets, in the eight bits that the driver takes
/// where the field is wider. The surface has the size in the sequence parameter
/// set.
#[verifier::rlimit(80)]
pub proof fn law_picture_says_what_was_written(
    list: Seq<crate::annexb::FramedUnit>,
    at: (int, int, int, int),
    s: WrittenSets,
    p: HevcParameters,
    first: DecodeAction<VdpPictureInfoHEVC>,
    second: DecodeAction<VdpPictureInfoHEVC>,
)
    requires
        carries(list, at, s),
        parameters_of(crate::annexb::units(crate::annexb::framed(list))) == Ok::<
            HevcParameters,
            Failure,
        >(p),
        decode_step(p, crate::annexb::framed(list), DecodeEvent::Started, first),
        decode_step(p, crate::annexb::framed(list), DecodeEvent::SurfaceCreated(Ok(())), second),
    ensures
        ({
            let sps = s.sps;
            let pps = s.pps;
            &&& first matches DecodeAction::CreateSurface { chroma_type, width, height } && {
                &&& chroma_type == 0
                &&& width == sps.pic_width_in_luma_samples
                &&& height == sps.pic_height_in_luma_samples
            }
            &&& second matches DecodeAction::Render { picture_info: info, .. } && {
                &&& crate::bits::narrows(
                    info.chroma_format_idc as int,
                    sps.chroma_format_idc as int,
                )
                &&& info.separate_colour_plane_flag == sps.separate_colour_plane_flag
                &&& info.pic_width_in_luma_samples == sps.pic_width_in_luma_samples
                &&& info.pic_height_in_luma_samples == sps.pic_height_in_luma_samples
                &&& crate::bits::narrows(
                    info.bit_depth_luma_minus8 as int,
                    sps.bit_depth_luma_minus8 as int,
                )
                &&& crate::bits::narrows(
                    info.bit_depth_chroma_minus8 as int,
                    sps.bit_depth_chroma_minus8 as int,
                )
                &&& crate::bits::narrows(
                    info.log2_max_pic_order_cnt_lsb_minus4 as int,
                    sps.log2_max_pic_order_cnt_lsb_minus4 as int,
                )
                &&& crate::bits::narrows(
                    info.sps_max_dec_pic_buffering_minus1 as int,
                    sps.sps_max_dec_pic_buffering_minus1 as int,
                )
                &&& crate::bits::narrows(
                    info.log2_min_luma_coding_block_size_minus3 as int,
                    sps.log2_min_luma_coding_block_size_minus3 as int,
                )
                &&& crate::bits::narrows(
                    info.log2_diff_max_min_luma_coding_block_size as int,
                    sps.log2_diff_max_min_luma_coding_block_size as int,
                )
                &&& crate::bits::narrows(
                    info.log2_min_transform_block_size_minus2 as int,
                    sps.log2_min_transform_block_size_minus2 as int,
                )
                &&& crate::bits::narrows(
                    info.log2_diff_max_min_transform_block_size as int,
                    sps.log2_diff_max_min_transform_block_size as int,
                )
                &&& crate::bits::narrows(
                    info.max_transform_hierarchy_depth_inter as int,
                    sps.max_transform_hierarchy_depth_inter as int,
                )
                &&& crate::bits::narrows(
                    info.max_transform_hierarchy_depth_intra as int,
                    sps.max_transform_hierarchy_depth_intra as int,
                )
                &&& info.scaling_list_enabled_flag == sps.scaling_list_enabled_flag
                &&& info.amp_enabled_flag == sps.amp_enabled_flag
                &&& info.sample_adaptive_offset_enabled_flag
                    == sps.sample_adaptive_offset_enabled_flag
                &&& info.pcm_enabled_flag == sps.pcm_enabled_flag
                &&& crate::bits::narrows(
                    info.num_short_term_ref_pic_sets as int,
                    sps.num_short_term_ref_pic_sets as int,
                )
                &&& info.long_term_ref_pics_present_flag == sps.long_term_ref_pics_present_flag
                &&& crate::bits::narrows(
                    info.num_long_term_ref_pics_sps as int,
                    sps.num_long_term_ref_pics_sps as int,
                )
                &&& info.sps_temporal_mvp_enabled_flag == sps.sps_temporal_mvp_enabled_flag
                &&& info.strong_intra_smoothing_enabled_flag
                    == sps.strong_intra_smoothing_enabled_flag
                &&& info.dependent_slice_segments_enabled_flag
                    == pps.dependent_slice_segments_enabled_flag
                &&& info.output_flag_present_flag == pps.output_flag_present_flag
                &&& crate::bits::narrows(
                    info.num_extra_slice_header_bits as int,
                    pps.num_extra_slice_header_bits as int,
                )
                &&& info.sign_data_hiding_enabled_flag == pps.sign_data_hiding_enabled_flag
                &&& info.cabac_init_present_flag == pps.cabac_init_present_flag
                &&& crate::bits::narrows(
                    info.num_ref_idx_l0_default_active_minus1 as int,
                    pps.num_ref_idx_l0_default_active_minus1 as int,
                )
                &&& crate::bits::narrows(
                    info.num_ref_idx_l1_default_active_minus1 as int,
                    pps.num_ref_idx_l1_default_active_minus1 as int,
                )
                &&& crate::bits::narrows(info.init_qp_minus26 as int, pps.init_qp_minus26 as int)
                &&& info.constrained_intra_pred_flag == pps.constrained_intra_pred_flag
                &&& info.transform_skip_enabled_flag == pps.transform_skip_enabled_flag
                &&& info.cu_qp_delta_enabled_flag == pps.cu_qp_delta_enabled_flag
                &&& crate::bits::narrows(
                    info.diff_cu_qp_delta_depth as int,
                    pps.diff_cu_qp_delta_depth as int,
                )
                &&& crate::bits::narrows(info.pps_cb_qp_offset as int, pps.pps_cb_qp_offset as int)
                &&& crate::bits::narrows(info.pps_cr_qp_offset as int, pps.pps_cr_qp_offset as int)
                &&& info.pps_slice_chroma_qp_offsets_present_flag
                    == pps.pps_slice_chroma_qp_offsets_present_flag
                &&& info.weighted_pred_flag == pps.weighted_pred_flag
                &&& info.weighted_bipred_flag == pps.weighted_bipred_flag
                &&& info.transquant_bypass_enabled_flag == pps.transquant_bypass_enabled_flag
                &&& info.tiles_enabled_flag == pps.tiles_enabled_flag
                &&& info.entropy_coding_sync_enabled_flag == pps.entropy_coding_sync_enabled_flag
                &&& info.pps_loop_filter_across_slices_enabled_flag
                    == pps.pps_loop_filter_across_slices_enabled_flag
                &&& info.deblocking_filter_control_present_flag
                    == pps.deblocking_filter_control_present_flag
                &&& info.deblocking_filter_override_enabled_flag
                    == pps.deblocking_filter_override_enabled_flag
                &&& info.pps_deblocking_filter_disabled_flag
                    == pps.pps_deblocking_filter_disabled_flag
                &&& crate::bits::narrows(
                    info.pps_beta_offset_div2 as int,
                    pps.pps_beta_offset_div2 as int,
                )
                &&& crate::bits::narrows(
                    info.pps_tc_offset_div2 as int,
                    pps.pps_tc_offset_div2 as int,
                )
                &&& info.lists_modification_present_flag == pps.lists_modification_present_flag
                &&& crate::bits::narrows(
                    info.log2_parallel_merge_level_minus2 as int,
                    pps.log2_parallel_merge_level_minus2 as int,
                )
                &&& info.slice_segment_header_extension_present_flag
                    == pps.slice_segment_header_extension_present_flag
                &&& info.idr_pic_flag == 1
                &&& info.rap_pic_flag == 1
                &&& info.pcm_sample_bit_depth_luma_minus1 == 0
                &&& info.pcm_sample_bit_depth_chroma_minus1 == 0
                &&& info.log2_min_pcm_luma_coding_block_size_minus3 == 0
                &&& info.log2_diff_max_min_pcm_luma_coding_block_size == 0
                &&& info.pcm_loop_filter_disabled_flag == 0
                &&& info.num_tile_columns_minus1 == 0
                &&& info.num_tile_rows_minus1 == 0
                &&& info.uniform_spacing_flag == 0
                &&& info.loop_filter_across_tiles_enabled_flag == 0
                &&& info.curr_rps_idx == 0
                &&& info.num_poc_total_curr == 0
                &&& info.num_delta_pocs_of_ref_rps_idx == 0
                &&& info.num_short_term_picture_slice_header_bits == 0
                &&& info.num_long_term_picture_slice_header_bits == 0
                &&& info.curr_pic_order_cnt_val == 0
                &&& info.num_poc_st_curr_before == 0
                &&& info.num_poc_st_curr_after == 0
                &&& info.num_poc_lt_curr == 0
                &&& forall|i: int| 0 <= i < 6 ==> #[trigger] info.scaling_list_dc_coeff_16x16[i] == 16
                &&& forall|i: int| 0 <= i < 2 ==> #[trigger] info.scaling_list_dc_coeff_32x32[i] == 16
                &&& forall|i: int| 0 <= i < 20 ==> #[trigger] info.column_width_minus1[i] == 0
                &&& forall|i: int| 0 <= i < 22 ==> #[trigger] info.row_height_minus1[i] == 0
                &&& forall|i: int| 0 <= i < 16 ==> #[trigger] info.ref_pics[i] == 0xffff_ffff
                &&& forall|i: int| 0 <= i < 16 ==> #[trigger] info.pic_order_cnt_val[i] == 0
                &&& forall|i: int| 0 <= i < 16 ==> #[trigger] info.is_long_term[i] == 0
                &&& forall|i: int| 0 <= i < 8 ==> #[trigger] info.ref_pic_set_st_curr_before[i] == 0
                &&& forall|i: int| 0 <= i < 8 ==> #[trigger] info.ref_pic_set_st_curr_after[i] == 0
                &&& forall|i: int, j: int|
                    0 <= i < 6 && 0 <= j < 16 ==> #[trigger] info.scaling_list_4x4[i][j] == 16
                &&& forall|i: int, j: int|
                    0 <= i < 6 && 0 <= j < 64 ==> #[trigger] info.scaling_list_8x8[i][j] == 16
                &&& forall|i: int, j: int|
                    0 <= i < 6 && 0 <= j < 64 ==> #[trigger] info.scaling_list_16x16[i][j] == 16
                &&& forall|i: int, j: int|
                    0 <= i < 2 && 0 <= j < 64 ==> #[trigger] info.scaling_list_32x32[i][j] == 16
            }
        }),
{
    law_parameters_are_found(list, at, s);
    law_accepted_stream_has_idr_start(crate::annexb::framed(list));
    assert forall|v: u32| crate::bits::narrows(#[trigger] (v as u8) as int, v as int) by {
        crate::bits::lemma_low_byte(v);
    }
    assert forall|v: i32| crate::bits::narrows(#[trigger] (v as i8) as int, v as int) by {
        crate::bits::lemma_low_signed_byte(v);
    }
}

/// The driver gets the stream from the start code of the first IDR picture on,
/// to the end. Without an IDR picture the decode fails.
#[verifier::rlimit(40)]
pub proof fn law_driver_gets_the_stream_from_the_picture_on(
    list: Seq<crate::annexb::FramedUnit>,
    at: int,
    p: HevcParameters,
    action: DecodeAction<VdpPictureInfoHEVC>,
)
    requires
        crate::annexb::separable(list),
        0 <= at <= list.len(),
        at < list.len() ==> list[at].payload.len() > 0 && (list[at].payload[0] / 2 % 64 == 19
            || list[at].payload[0] / 2 % 64 == 20),
        forall|k: int|
            0 <= k < at && (#[trigger] list[k]).payload.len() > 0 ==> list[k].payload[0] / 2 % 64
                != 19 && list[k].payload[0] / 2 % 64 != 20,
        decode_step(p, crate::annexb::framed(list), DecodeEvent::SurfaceCreated(Ok(())), action),
    ensures
        at < list.len() ==> (action matches DecodeAction::Render { bitstream: b, .. } && {
            let part = crate::annexb::framed(list.skip(at));
            &&& b.offset + part.len() == crate::annexb::framed(list).len()
            &&& crate::annexb::framed(list).skip(b.offset as int) == part
            &&& part.len() <= u32::MAX ==> b.bitstream_bytes == part.len()
        }),
        at == list.len() ==> (action matches DecodeAction::Finish(r) && r is Err),
{
    lemma_first_idr_is(list, at);
}

proof fn lemma_first_idr_is(list: Seq<crate::annexb::FramedUnit>, at: int)
    requires
        crate::annexb::separable(list),
        0 <= at <= list.len(),
        at < list.len() ==> list[at].payload.len() > 0 && (list[at].payload[0] / 2 % 64 == 19
            || list[at].payload[0] / 2 % 64 == 20),
        forall|k: int|
            0 <= k < at && (#[trigger] list[k]).payload.len() > 0 ==> list[k].payload[0] / 2 % 64
                != 19 && list[k].payload[0] / 2 % 64 != 20,
    ensures
        ({
            let buf = crate::annexb::framed(list);
            let part = crate::annexb::framed(list.skip(at));
            &&& part.len() <= buf.len()
            &&& first_idr_code(buf, 0) == buf.len() - part.len()
            &&& buf.skip(buf.len() - part.len()) == part
            &&& at < list.len() <==> part.len() > 0
        }),
{
    let buf = crate::annexb::framed(list);
    crate::annexb::lemma_framed_from(list, at);
    let first = first_idr_code(buf, 0);
    assert forall|i: int| 0 <= i && idr_code_at(buf, i) implies at < list.len() && i >= buf.len()
        - crate::annexb::framed(list.skip(at)).len() by {
        lemma_idr_code_of_unit(list, at, i);
    }
    lemma_first_idr_code_bounds(buf, 0);
    if at < list.len() {
        let part = crate::annexb::framed(list.skip(at));
        let o = buf.len() - part.len();
        let code = crate::annexb::start_code(list[at].long_code);
        assert(part == code + list[at].payload + crate::annexb::framed(list.skip(at).skip(1)));
        assert forall|i: int| 0 <= i < part.len() implies #[trigger] buf[o + i] == part[i] by {
            assert(buf[o + i] == buf.skip(o)[i]);
        }
        assert(buf[o + 0] == 0 && buf[o + 1] == 0 && buf[o + 2] == code[2]);
        assert(list[at].long_code ==> buf[o + 3] == 1);
        assert(buf[o + code.len()] == part[code.len() as int]);
        assert(part[code.len() as int] == list[at].payload[0]);
        lemma_type_bits(list[at].payload[0]);
        assert(idr_code_at(buf, o));
        lemma_idr_code_is_found(buf, 0, o);
        assert(first == o);
    }
}

proof fn lemma_first_idr_code_bounds(buf: Seq<u8>, i: int)
    requires
        0 <= i <= buf.len(),
    ensures
        i <= first_idr_code(buf, i) <= buf.len(),
        first_idr_code(buf, i) < buf.len() ==> idr_code_at(buf, first_idr_code(buf, i)),
    decreases buf.len() - i,
{
    if i < buf.len() && !idr_code_at(buf, i) {
        lemma_first_idr_code_bounds(buf, i + 1);
    }
}

proof fn lemma_idr_code_of_unit(list: Seq<crate::annexb::FramedUnit>, at: int, i: int)
    requires
        crate::annexb::separable(list),
        0 <= at <= list.len(),
        forall|k: int|
            0 <= k < at && (#[trigger] list[k]).payload.len() > 0 ==> list[k].payload[0] / 2 % 64
                != 19 && list[k].payload[0] / 2 % 64 != 20,
        0 <= i,
        idr_code_at(crate::annexb::framed(list), i),
    ensures
        at < list.len(),
        i >= crate::annexb::framed(list).len() - crate::annexb::framed(list.skip(at)).len(),
{
    let buf = crate::annexb::framed(list);
    assert(buf.skip(0) == buf);
    let k = crate::annexb::lemma_code_is_of_a_unit(buf, 0, list, i);
    let part = crate::annexb::framed(list.skip(k));
    let n = crate::annexb::code_len(buf, i);
    let code = crate::annexb::start_code(list[k].long_code);
    let next = crate::annexb::framed(list.skip(k).skip(1));
    assert(part == code + list[k].payload + next);
    let o = buf.len() - part.len();
    let header = i + n;
    assert(header == o + code.len());
    assert(buf[header] == part[code.len() as int]) by {
        assert(buf[header] == buf.skip(o)[code.len() as int]);
    }
    if list[k].payload.len() > 0 {
        assert(part[code.len() as int] == list[k].payload[0]);
    } else {
        assert(part[code.len() as int] == next[0]);
        assert(list.skip(k).skip(1).len() > 0);
        assert(next[0] == 0);
    }
    lemma_type_bits(buf[header]);
    assert(k >= at);
    crate::annexb::lemma_framed_from(list.skip(at), k - at);
    assert(list.skip(at).skip(k - at) == list.skip(k));
}

/// A scaling list as an encoder has it: the distance to the list that it repeats,
/// or its coefficients, for the larger size classes with a DC coefficient first.
pub enum WrittenList {
    Repeated { delta: nat },
    Coded { coefficients: Seq<int> },
}

/// Append the first `k` of some scaling lists.
pub open spec fn put_lists(w: crate::writer::Bits, lists: Seq<WrittenList>, k: nat) -> crate::writer::Bits
    decreases k,
{
    if k == 0 {
        w
    } else {
        let before = put_lists(w, lists, (k - 1) as nat);
        match lists[k - 1] {
            WrittenList::Repeated { delta } => before.flag(0).ue(delta),
            WrittenList::Coded { coefficients } => before.flag(1).ses(coefficients),
        }
    }
}

/// True if these are `count` lists of a size class whose lists have `size`
/// numbers, each with a code word.
pub open spec fn writable_lists(lists: Seq<WrittenList>, count: nat, size: nat) -> bool {
    &&& lists.len() == count
    &&& forall|i: int|
        0 <= i < count ==> match #[trigger] lists[i] {
            WrittenList::Repeated { delta } => crate::writer::ue_fits(delta),
            WrittenList::Coded { coefficients } => coefficients.len() == size && forall|j: int|
                0 <= j < size ==> crate::writer::se_fits(#[trigger] coefficients[j]),
        }
}

/// Scaling list data is passed over as a whole: six lists of 4x4, 8x8 and 16x16
/// coefficients and two of 32x32, of which no more than 64 are written, and a
/// DC coefficient with those of 16x16 and 32x32.
pub proof fn law_scaling_list_data_is_passed_over(
    c: Cursor,
    w: crate::writer::Bits,
    l0: Seq<WrittenList>,
    l1: Seq<WrittenList>,
    l2: Seq<WrittenList>,
    l3: Seq<WrittenList>,
)
    requires
        writable_lists(l0, 6, 16),
        writable_lists(l1, 6, 64),
        writable_lists(l2, 6, 65),
        writable_lists(l3, 2, 65),
        c.begins_with(put_lists(put_lists(put_lists(put_lists(w, l0, 6), l1, 6), l2, 6), l3, 2)),
    ensures
        after_scaling_list_data(c.behind(w)) == c.behind(
            put_lists(put_lists(put_lists(put_lists(w, l0, 6), l1, 6), l2, 6), l3, 2),
        ),
{
    let w0 = put_lists(w, l0, 6);
    let w1 = put_lists(w0, l1, 6);
    let w2 = put_lists(w1, l2, 6);
    lemma_put_lists(c, w2, l3, 3, 65, 2);
    lemma_put_lists(c, w1, l2, 2, 65, 6);
    lemma_put_lists(c, w0, l1, 1, 64, 6);
    lemma_put_lists(c, w, l0, 0, 16, 6);
}

proof fn lemma_put_lists(
    c: Cursor,
    w: crate::writer::Bits,
    lists: Seq<WrittenList>,
    size_id: nat,
    size: nat,
    k: nat,
)
    requires
        k <= lists.len(),
        writable_lists(lists, lists.len(), size),
        size_id == 0 ==> size == 16,
        size_id == 1 ==> size == 64,
        size_id > 1 ==> size == 65,
        c.begins_with(put_lists(w, lists, k)),
    ensures
        c.begins_with(w),
        after_scaling_lists(c.behind(w), size_id, k) == c.behind(put_lists(w, lists, k)),
    decreases k,
{
    broadcast use crate::writer::group_reads_back;

    if k > 0 {
        let before = put_lists(w, lists, (k - 1) as nat);
        match lists[k - 1] {
            WrittenList::Repeated { delta } => {
                assert(c.begins_with(before.flag(0)));
            },
            WrittenList::Coded { coefficients } => {
                assert(c.begins_with(before.flag(1)));
            },
        }
        assert(c.begins_with(before));
        lemma_put_lists(c, w, lists, size_id, size, (k - 1) as nat);
    }
}

/// A set of a slice header that is predicted names the set that it starts from
/// by its distance. It is passed over if there is such a set, and refused if
/// there is none.
pub proof fn law_slice_set_names_another(
    c: Cursor,
    num: nat,
    delta_idx_minus1: nat,
    sign: nat,
    abs_minus1: nat,
    used: Seq<(nat, nat)>,
)
    requires
        num > 0,
        used.len() > 0,
        crate::writer::ue_fits(delta_idx_minus1),
        crate::writer::ue_fits(abs_minus1),
        c.begins_with(
            put_used(
                crate::writer::Bits::start().flag(1).ue(delta_idx_minus1).flag(sign).ue(abs_minus1),
                used,
                used.len(),
            ),
        ),
    ensures
        ({
            let w = crate::writer::Bits::start().flag(1).ue(delta_idx_minus1).flag(sign).ue(
                abs_minus1,
            );
            let read = ref_pic_set(c, num, num, (used.len() - 1) as nat);
            &&& delta_idx_minus1 + 1 <= num ==> read == (
                c.behind(put_used(w, used, used.len())),
                Ok::<nat, Failure>((used.len() - 1) as nat),
            )
            &&& delta_idx_minus1 + 1 > num ==> read.1 is Err
        }),
{
    broadcast use crate::writer::group_reads_back;

    let w = crate::writer::Bits::start().flag(1).ue(delta_idx_minus1).flag(sign).ue(abs_minus1);
    lemma_put_used(c, w, used, used.len());
}

/// A parameter set that is accepted uses none of the coding tools whose syntax
/// is not read.
pub proof fn law_unread_tools_are_refused(nal: Seq<u8>)
    ensures
        sps_of(nal) matches Ok(sps) ==> sps.scaling_list_enabled_flag == 0 && sps.pcm_enabled_flag
            == 0,
        pps_of(nal) matches Ok(pps) ==> pps.tiles_enabled_flag == 0,
{
}

/// The picture that a decoder was made for is described to the driver as an
/// IDR picture, and as a random-access picture.
pub proof fn law_picture_is_idr_and_random_access(
    units: Seq<Seq<u8>>,
    p: HevcParameters,
    info: VdpPictureInfoHEVC,
)
    requires
        parameters_of(units) == Ok::<HevcParameters, Failure>(p),
        describes(info, p),
    ensures
        info.idr_pic_flag == 1,
        info.rap_pic_flag == 1,
{
    lemma_first_of_type(units, NAL_IDR_W_RADL, NAL_IDR_N_LP, 0);
}

/// In a stream that a decoder was made from, the decode finds the start code
/// of an IDR picture.
pub proof fn law_accepted_stream_has_idr_start(buf: Seq<u8>)
    requires
        parameters_of(crate::annexb::units(buf)) is Ok,
    ensures
        0 <= first_idr_code(buf, 0) < buf.len(),
        idr_code_at(buf, first_idr_code(buf, 0)),
{
    let units = crate::annexb::units(buf);
    let k = first_of_type(units, NAL_IDR_W_RADL, NAL_IDR_N_LP, 0);
    lemma_first_of_type(units, NAL_IDR_W_RADL, NAL_IDR_N_LP, 0);
    let first = crate::annexb::next_code(buf, 0);
    crate::annexb::lemma_next_code(buf, 0);
    let at = lemma_unit_has_code(buf, first, k);
    lemma_idr_code_is_found(buf, 0, at);
}

/// The driver decoder is asked for as Main profile, number 100, in the size of the
/// pictures, and with room for the whole picture buffer.
pub proof fn law_request_by_numbers(p: HevcParameters)
    requires
        p.sps.sps_max_dec_pic_buffering_minus1 < u32::MAX,
    ensures
        request_for(p).profile == 100,
        request_for(p).width == p.sps.pic_width_in_luma_samples,
        request_for(p).height == p.sps.pic_height_in_luma_samples,
        request_for(p).max_references - 1 == p.sps.sps_max_dec_pic_buffering_minus1,
{
}

/// Of the 128 values that the first byte of a unit header has below its top bit,
/// the eight pairs from 32 on are random-access pictures, and those from 38 to 41
/// IDR pictures.
pub proof fn law_picture_types_by_header(header: u8)
    ensures
        rap_type((header >> 1) & 0x3f) <==> 32 <= header % 128 < 48,
        idr_type((header >> 1) & 0x3f) <==> 38 <= header % 128 < 42,
        idr_type((header >> 1) & 0x3f) ==> rap_type((header >> 1) & 0x3f),
{
    lemma_type_bits(header);
}

/// A stream that lacks one of the parameter sets, or an IDR picture, is refused.
pub proof fn law_missing_units_are_refused(
    list: Seq<crate::annexb::FramedUnit>,
    low: u8,
    high: u8,
)
    requires
        crate::annexb::separable(list),
        (low, high) == (32u8, 32u8) || (low, high) == (33u8, 33u8) || (low, high) == (34u8, 34u8)
            || (low, high) == (19u8, 20u8),
        forall|k: int|
            0 <= k < list.len() && (#[trigger] list[k]).payload.len() > 0 ==> !(low
                <= list[k].payload[0] / 2 % 64 <= high),
    ensures
        parameters_of(crate::annexb::units(crate::annexb::framed(list))) is Err,
{
    let units = crate::annexb::units(crate::annexb::framed(list));
    crate::annexb::law_split_undoes_framing(list);
    assert forall|k: int| 0 <= k < units.len() implies !(low <= #[trigger] type_of(units[k])
        <= high) by {
        assert(units[k] == list[k].payload);
        if units[k].len() > 0 {
            lemma_type_bits(units[k][0]);
        }
    }
    lemma_none_of_type(units, low, high, 0);
}

proof fn lemma_none_of_type(units: Seq<Seq<u8>>, low: u8, high: u8, i: int)
    requires
        0 <= i <= units.len(),
        forall|k: int| i <= k < units.len() ==> !(low <= #[trigger] type_of(units[k]) <= high),
    ensures
        first_of_type(units, low, high, i) == units.len(),
    decreases units.len() - i,
{
    if i < units.len() {
        assert(!(low <= type_of(units[i]) <= high));
        lemma_none_of_type(units, low, high, i + 1);
    }
}

/// If the driver does what it is asked, decoding the stream that
/// a decoder was made from creates a surface, renders, reads back planes of the
/// size that the decoder expects, and ends with the frame they hold.
pub proof fn law_decode_succeeds_with_the_driver(
    annex_b: Seq<u8>,
    p: HevcParameters,
    planes: crate::frame::Nv12Planes,
    first: DecodeAction<VdpPictureInfoHEVC>,
    second: DecodeAction<VdpPictureInfoHEVC>,
    third: DecodeAction<VdpPictureInfoHEVC>,
    last: DecodeAction<VdpPictureInfoHEVC>,
)
    requires
        parameters_of(crate::annexb::units(annex_b)) == Ok::<HevcParameters, Failure>(p),
        decode_step(p, annex_b, DecodeEvent::Started, first),
        decode_step(p, annex_b, DecodeEvent::SurfaceCreated(Ok(())), second),
        decode_step(p, annex_b, DecodeEvent::Rendered(Ok(())), third),
        third matches DecodeAction::ReadBits { plane_lens, .. } ==> planes.y@.len()
            == plane_lens[0] && planes.uv@.len() == plane_lens[1],
        decode_step(p, annex_b, DecodeEvent::BitsRead(Ok(planes)), last),
    ensures
        (first matches DecodeAction::CreateSurface { chroma_type, width, height } && chroma_type == 0
            && width == p.sps.pic_width_in_luma_samples && height == p.sps.pic_height_in_luma_samples),
        second is Render,
        (third matches DecodeAction::ReadBits { format, plane_lens, pitches } && format == 0
            && pitches[0] == p.sps.pic_width_in_luma_samples && pitches[1]
            == p.sps.pic_width_in_luma_samples - p.sps.pic_width_in_luma_samples % 2),
        planes.fits(p.sps.pic_width_in_luma_samples, p.sps.pic_height_in_luma_samples),
        last matches DecodeAction::Finish(Ok(frame)) && frame.shows(
            planes,
            p.sps.pic_width_in_luma_samples,
            p.sps.pic_height_in_luma_samples,
        ),
        (last matches DecodeAction::Finish(Ok(frame)) && frame.width
            == p.sps.pic_width_in_luma_samples && frame.height == p.sps.pic_height_in_luma_samples
            && frame.y@ == planes.y@ && forall|i: int|
            0 <= i < frame.u@.len() ==> #[trigger] frame.u@[i] == planes.uv@[2 * i]),
        (last matches DecodeAction::Finish(Ok(frame)) && forall|i: int|
            0 <= i < frame.v@.len() ==> #[trigger] frame.v@[i] == planes.uv@[2 * i + 1]),
{
    law_accepted_stream_has_idr_start(annex_b);
}

/// The decode ends with a frame only when the surface was read back, and the
/// frame is what was read. An error of the driver ends it with that error.
pub proof fn law_decode_outcome(
    p: HevcParameters,
    annex_b: Seq<u8>,
    event: DecodeEvent,
    action: DecodeAction<VdpPictureInfoHEVC>,
)
    requires
        decode_step(p, annex_b, event, action),
    ensures
        action matches DecodeAction::Finish(Ok(frame)) ==> event matches DecodeEvent::BitsRead(
            Ok(planes),
        ) && frame.shows(
            planes,
            p.sps.pic_width_in_luma_samples,
            p.sps.pic_height_in_luma_samples,
        ),
        event matches DecodeEvent::SurfaceCreated(Err(e)) ==> action.fails(e@),
        event matches DecodeEvent::Rendered(Err(e)) ==> action.fails(e@),
        event matches DecodeEvent::BitsRead(Err(e)) ==> action.fails(e@),
{
}

proof fn lemma_first_of_type(units: Seq<Seq<u8>>, low: u8, high: u8, i: int)
    requires
        0 <= i <= units.len(),
    ensures
        i <= first_of_type(units, low, high, i) <= units.len(),
        first_of_type(units, low, high, i) < units.len() ==> low <= type_of(
            units[first_of_type(units, low, high, i)],
        ) <= high,
    decreases units.len() - i,
{
    if i < units.len() && !(low <= type_of(units[i]) <= high) {
        lemma_first_of_type(units, low, high, i + 1);
    }
}

/// Unit `k` of those behind the start code at `code` stands behind a start
/// code itself, whose position is returned.
proof fn lemma_unit_has_code(buf: Seq<u8>, code: int, k: int) -> (at: int)
    requires
        0 <= code < buf.len(),
        crate::annexb::code_len(buf, code) > 0,
        0 <= k < crate::annexb::units_from(buf, code + crate::annexb::code_len(buf, code)).len(),
    ensures
        code <= at < buf.len(),
        crate::annexb::code_len(buf, at) > 0,
        ({
            let unit = crate::annexb::units_from(
                buf,
                code + crate::annexb::code_len(buf, code),
            )[k];
            let start = at + crate::annexb::code_len(buf, at);
            start + unit.len() <= buf.len() && unit == buf.subrange(start, start + unit.len())
        }),
    decreases buf.len() - code,
{
    let start = code + crate::annexb::code_len(buf, code);
    let end = crate::annexb::next_code(buf, start);
    crate::annexb::lemma_next_code(buf, start);
    let all = crate::annexb::units_from(buf, start);
    if crate::annexb::code_len(buf, end) > 0 {
        let rest = crate::annexb::units_from(buf, end + crate::annexb::code_len(buf, end));
        assert(all == seq![buf.subrange(start, end)] + rest);
        if k == 0 {
            assert(all[0] == buf.subrange(start, end));
            code
        } else {
            assert(all[k] == rest[k - 1]);
            lemma_unit_has_code(buf, end, k - 1)
        }
    } else {
        assert(all == seq![buf.subrange(start, buf.len() as int)]);
        code
    }
}

proof fn lemma_idr_code_is_found(buf: Seq<u8>, i: int, at: int)
    requires
        0 <= i <= at < buf.len(),
        idr_code_at(buf, at),
    ensures
        i <= first_idr_code(buf, i) <= at,
        idr_code_at(buf, first_idr_code(buf, i)),
    decreases at - i,
{
    if !idr_code_at(buf, i) {
        lemma_idr_code_is_found(buf, i + 1, at);
    }
}

} // verus!
