//! H.264 parameter sets and the decode of a single IDR picture.
//!
//! Of each parameter set, the fields up to the last one that VDPAU's picture
//! parameters need are read. Streams that use scaling matrices or slice groups
//! are refused: their syntax is not read. The driver always gets flat scaling
//! lists.

use crate::annexb::{split_nal_units, strip_emulation_prevention};
use crate::bits::{BitReader, Cursor};
use crate::device::{Failure, VdpError};
use crate::engine::{validate_request, HwDeviceInfo};
use crate::frame::{
    after_read, after_render, create_surface, render, DecodeAction, DecodeEvent, DecoderRequest,
};
use crate::sys::{
    VdpPictureInfoH264, VdpReferenceFrameH264, VDP_DECODER_PROFILE_H264_HIGH, VDP_INVALID_HANDLE,
};
use crate::text::decimal_text;
use vstd::prelude::*;
use vstd::slice::slice_subrange;
use vstd::string::*;

verus! {

/// NAL unit type of a sequence parameter set.
pub const NAL_SPS: u8 = 7;

/// NAL unit type of a picture parameter set.
pub const NAL_PPS: u8 = 8;

/// Sequence parameter set.
#[derive(Debug, Clone, Copy, PartialEq, Eq, Structural)]
pub struct Sps {
    pub profile_idc: u8,
    pub constraint_flags: u8,
    pub level_idc: u8,
    pub seq_parameter_set_id: u32,
    pub chroma_format_idc: u32,
    pub bit_depth_luma_minus8: u32,
    pub bit_depth_chroma_minus8: u32,
    pub log2_max_frame_num_minus4: u32,
    pub pic_order_cnt_type: u32,
    pub log2_max_pic_order_cnt_lsb_minus4: u32,
    pub delta_pic_order_always_zero_flag: u8,
    pub max_num_ref_frames: u32,
    pub gaps_in_frame_num_value_allowed_flag: u8,
    pub pic_width_in_mbs_minus1: u32,
    pub pic_height_in_map_units_minus1: u32,
    pub frame_mbs_only_flag: u8,
    pub mb_adaptive_frame_field_flag: u8,
    pub direct_8x8_inference_flag: u8,
}

/// Picture parameter set.
#[derive(Debug, Clone, Copy, PartialEq, Eq, Structural)]
pub struct Pps {
    pub pic_parameter_set_id: u32,
    pub seq_parameter_set_id: u32,
    pub entropy_coding_mode_flag: u8,
    pub pic_order_present_flag: u8,
    pub num_slice_groups_minus1: u32,
    pub num_ref_idx_l0_active_minus1: u32,
    pub num_ref_idx_l1_active_minus1: u32,
    pub weighted_pred_flag: u8,
    pub weighted_bipred_idc: u8,
    pub pic_init_qp_minus26: i32,
    pub pic_init_qs_minus26: i32,
    pub chroma_qp_index_offset: i32,
    pub deblocking_filter_control_present_flag: u8,
    pub constrained_intra_pred_flag: u8,
    pub redundant_pic_cnt_present_flag: u8,
    /// 0 unless the High-profile extension is present.
    pub transform_8x8_mode_flag: u8,
    /// The first offset again unless the High-profile extension is present.
    pub second_chroma_qp_index_offset: i32,
}

/// True if a sequence parameter set of this profile carries the High-profile
/// extension.
pub open spec fn high_extension(profile_idc: u8) -> bool {
    ||| profile_idc == 100
    ||| profile_idc == 110
    ||| profile_idc == 122
    ||| profile_idc == 244
    ||| profile_idc == 44
    ||| profile_idc == 83
    ||| profile_idc == 86
    ||| profile_idc == 118
    ||| profile_idc == 128
    ||| profile_idc == 138
    ||| profile_idc == 139
    ||| profile_idc == 134
    ||| profile_idc == 135
}

/// Whether a sequence parameter set of this profile carries the High-profile
/// extension.
fn has_high_extension(profile_idc: u8) -> (high: bool)
    ensures
        high == high_extension(profile_idc),
{
    match profile_idc {
        100 | 110 | 122 | 244 | 44 | 83 | 86 | 118 | 128 | 138 | 139 | 134 | 135 => true,
        _ => false,
    }
}

/// The fields of `seq_parameter_set_data()` as far as they are needed.
pub open spec fn sps_syntax(start: Cursor) -> Result<Sps, Failure> {
    let profile_idc = start.u(8) as u8;
    let c_id = start.skip(24);
    let c_chroma = c_id.after_ue();
    let high = high_extension(profile_idc);
    let chroma_format_idc = if high {
        c_chroma.ue()
    } else {
        1
    };
    let c_depth = if chroma_format_idc == 3 {
        c_chroma.after_ue().skip(1)
    } else {
        c_chroma.after_ue()
    };
    let c_matrix = c_depth.after_ues(2).skip(1);
    let c_frame_num = if high {
        c_matrix.skip(1)
    } else {
        c_chroma
    };
    let poc_type = c_frame_num.after_ue().ue();
    let c_poc = c_frame_num.after_ues(2);
    let c_cycle = c_poc.skip(1).after_ues(2);
    let c_refs = if poc_type == 0 {
        c_poc.after_ue()
    } else if poc_type == 1 {
        c_cycle.after_ue().after_ues(c_cycle.ue())
    } else {
        c_poc
    };
    let c_gaps = c_refs.after_ue();
    let c_width = c_gaps.skip(1);
    let c_frame = c_width.after_ues(2);
    let frame_mbs_only = c_frame.flag();
    let c_direct = if frame_mbs_only == 0 {
        c_frame.skip(2)
    } else {
        c_frame.skip(1)
    };
    if high && c_matrix.flag() == 1 {
        Err(
            crate::device::failure(
                "parse_sps: seq_scaling_matrix_present_flag=1 not supported by minimal parser"@,
            ),
        )
    } else {
        Ok(
            Sps {
                profile_idc,
                constraint_flags: start.skip(8).u(8) as u8,
                level_idc: start.skip(16).u(8) as u8,
                seq_parameter_set_id: c_id.ue() as u32,
                chroma_format_idc: chroma_format_idc as u32,
                bit_depth_luma_minus8: if high {
                    c_depth.ue() as u32
                } else {
                    0
                },
                bit_depth_chroma_minus8: if high {
                    c_depth.after_ue().ue() as u32
                } else {
                    0
                },
                log2_max_frame_num_minus4: c_frame_num.ue() as u32,
                pic_order_cnt_type: poc_type as u32,
                log2_max_pic_order_cnt_lsb_minus4: if poc_type == 0 {
                    c_poc.ue() as u32
                } else {
                    0
                },
                delta_pic_order_always_zero_flag: if poc_type == 1 {
                    c_poc.flag() as u8
                } else {
                    0
                },
                max_num_ref_frames: c_refs.ue() as u32,
                gaps_in_frame_num_value_allowed_flag: c_gaps.flag() as u8,
                pic_width_in_mbs_minus1: c_width.ue() as u32,
                pic_height_in_map_units_minus1: c_width.after_ue().ue() as u32,
                frame_mbs_only_flag: frame_mbs_only as u8,
                mb_adaptive_frame_field_flag: if frame_mbs_only == 0 {
                    c_frame.skip(1).flag() as u8
                } else {
                    0
                },
                direct_8x8_inference_flag: c_direct.flag() as u8,
            },
        )
    }
}

/// The sequence parameter set in `nal`.
pub open spec fn sps_of(nal: Seq<u8>) -> Result<Sps, Failure> {
    let rbsp = crate::annexb::stripped(nal.skip(1));
    if nal.len() == 0 {
        Err(crate::device::failure("parse_sps: empty NAL"@))
    } else if nal[0] & 0x1f != NAL_SPS {
        Err(
            crate::device::failure(
                "parse_sps: not a SPS NAL (type="@ + crate::text::decimal(
                    (nal[0] & 0x1f) as nat,
                ) + ")"@,
            ),
        )
    } else if rbsp.len() < 3 {
        Err(crate::device::failure("parse_sps: SPS shorter than 3 bytes"@))
    } else {
        sps_syntax(Cursor::start(rbsp))
    }
}

/// Parse a sequence parameter set.
#[verifier::rlimit(50)]
pub fn parse_sps(nal: &[u8]) -> (res: Result<Sps, VdpError>)
    ensures
        crate::device::outcome(res) == sps_of(nal@),
        res matches Ok(sps) ==> sps.frame_mbs_only_flag <= 1,
{
    if nal.len() == 0 {
        return Err(VdpError::other("parse_sps: empty NAL".to_owned()));
    }
    let t: u8 = nal[0] & 0x1f;
    if t != NAL_SPS {
        return Err(
            VdpError::other(
                "parse_sps: not a SPS NAL (type=".to_owned().concat(
                    decimal_text(t as u64).as_str(),
                ).concat(")"),
            ),
        );
    }
    let rbsp: Vec<u8> = strip_emulation_prevention(slice_subrange(nal, 1, nal.len()));
    assert(nal@.subrange(1, nal@.len() as int) == nal@.skip(1));
    let mut r: BitReader<'_> = BitReader::new(rbsp.as_slice());
    if rbsp.len() < 3 {
        return Err(VdpError::other("parse_sps: SPS shorter than 3 bytes".to_owned()));
    }
    proof {
        crate::bits::lemma_small_powers();
        reveal_with_fuel(Cursor::after_ues, 4);
    }
    let profile_idc: u8 = r.u(8) as u8;
    let constraint_flags: u8 = r.u(8) as u8;
    let level_idc: u8 = r.u(8) as u8;
    let seq_parameter_set_id: u32 = r.ue();
    let mut chroma_format_idc: u32 = 1;
    let mut bit_depth_luma_minus8: u32 = 0;
    let mut bit_depth_chroma_minus8: u32 = 0;
    if has_high_extension(profile_idc) {
        chroma_format_idc = r.ue();
        if chroma_format_idc == 3 {
            r.skip(1);
        }
        bit_depth_luma_minus8 = r.ue();
        bit_depth_chroma_minus8 = r.ue();
        r.skip(1);
        let seq_scaling_matrix_present_flag: u8 = r.flag();
        if seq_scaling_matrix_present_flag != 0 {
            return Err(
                VdpError::other(
                    "parse_sps: seq_scaling_matrix_present_flag=1 not supported by minimal parser".to_owned(),
                ),
            );
        }
    }
    let log2_max_frame_num_minus4: u32 = r.ue();
    let pic_order_cnt_type: u32 = r.ue();
    let mut log2_max_pic_order_cnt_lsb_minus4: u32 = 0;
    let mut delta_pic_order_always_zero_flag: u8 = 0;
    if pic_order_cnt_type == 0 {
        log2_max_pic_order_cnt_lsb_minus4 = r.ue();
    } else if pic_order_cnt_type == 1 {
        delta_pic_order_always_zero_flag = r.flag();
        let _: i32 = r.se();
        let _: i32 = r.se();
        let num_ref_frames_in_pic_order_cnt_cycle: u32 = r.ue();
        r.skip_ues(num_ref_frames_in_pic_order_cnt_cycle);
    }
    let max_num_ref_frames: u32 = r.ue();
    let gaps_in_frame_num_value_allowed_flag: u8 = r.flag();
    let pic_width_in_mbs_minus1: u32 = r.ue();
    let pic_height_in_map_units_minus1: u32 = r.ue();
    let frame_mbs_only_flag: u8 = r.flag();
    let mb_adaptive_frame_field_flag: u8 = if frame_mbs_only_flag == 0 {
        r.flag()
    } else {
        0
    };
    let direct_8x8_inference_flag: u8 = r.flag();
    Ok(
        Sps {
            profile_idc,
            constraint_flags,
            level_idc,
            seq_parameter_set_id,
            chroma_format_idc,
            bit_depth_luma_minus8,
            bit_depth_chroma_minus8,
            log2_max_frame_num_minus4,
            pic_order_cnt_type,
            log2_max_pic_order_cnt_lsb_minus4,
            delta_pic_order_always_zero_flag,
            max_num_ref_frames,
            gaps_in_frame_num_value_allowed_flag,
            pic_width_in_mbs_minus1,
            pic_height_in_map_units_minus1,
            frame_mbs_only_flag,
            mb_adaptive_frame_field_flag,
            direct_8x8_inference_flag,
        },
    )
}

/// Where the High-profile extension of a picture parameter set would stand.
pub open spec fn pps_extension_at(start: Cursor) -> Cursor {
    start.after_ues(2).skip(2).after_ues(3).skip(3).after_ues(3).skip(3)
}

/// The fields of `pic_parameter_set_rbsp()`.
pub open spec fn pps_syntax(start: Cursor) -> Result<Pps, Failure> {
    let c_mode = start.after_ues(2);
    let c_groups = c_mode.skip(2);
    let c_weight = c_groups.after_ues(3);
    let c_qp = c_weight.skip(3);
    let c_filter = c_qp.after_ues(3);
    let c_more = pps_extension_at(start);
    let more = c_more.more_data();
    let first_offset = c_qp.after_ues(2).se() as i32;
    if c_groups.ue() != 0 {
        Err(
            crate::device::failure(
                "parse_pps: num_slice_groups_minus1>0 (FMO) not supported by minimal parser"@,
            ),
        )
    } else if more && c_more.skip(1).flag() == 1 {
        Err(
            crate::device::failure(
                "parse_pps: pic_scaling_matrix_present_flag=1 not supported by minimal parser"@,
            ),
        )
    } else {
        Ok(
            Pps {
                pic_parameter_set_id: start.ue() as u32,
                seq_parameter_set_id: start.after_ue().ue() as u32,
                entropy_coding_mode_flag: c_mode.flag() as u8,
                pic_order_present_flag: c_mode.skip(1).flag() as u8,
                num_slice_groups_minus1: 0,
                num_ref_idx_l0_active_minus1: c_groups.after_ue().ue() as u32,
                num_ref_idx_l1_active_minus1: c_groups.after_ues(2).ue() as u32,
                weighted_pred_flag: c_weight.flag() as u8,
                weighted_bipred_idc: c_weight.skip(1).u(2) as u8,
                pic_init_qp_minus26: c_qp.se() as i32,
                pic_init_qs_minus26: c_qp.after_ue().se() as i32,
                chroma_qp_index_offset: first_offset,
                deblocking_filter_control_present_flag: c_filter.flag() as u8,
                constrained_intra_pred_flag: c_filter.skip(1).flag() as u8,
                redundant_pic_cnt_present_flag: c_filter.skip(2).flag() as u8,
                transform_8x8_mode_flag: if more {
                    c_more.flag() as u8
                } else {
                    0
                },
                second_chroma_qp_index_offset: if more {
                    c_more.skip(2).se() as i32
                } else {
                    first_offset
                },
            },
        )
    }
}

/// The picture parameter set in `nal`.
pub open spec fn pps_of(nal: Seq<u8>) -> Result<Pps, Failure> {
    if nal.len() == 0 {
        Err(crate::device::failure("parse_pps: empty NAL"@))
    } else if nal[0] & 0x1f != NAL_PPS {
        Err(
            crate::device::failure(
                "parse_pps: not a PPS NAL (type="@ + crate::text::decimal(
                    (nal[0] & 0x1f) as nat,
                ) + ")"@,
            ),
        )
    } else {
        pps_syntax(Cursor::start(crate::annexb::stripped(nal.skip(1))))
    }
}

/// Parse a picture parameter set.
#[verifier::rlimit(50)]
pub fn parse_pps(nal: &[u8]) -> (res: Result<Pps, VdpError>)
    ensures
        crate::device::outcome(res) == pps_of(nal@),
{
    if nal.len() == 0 {
        return Err(VdpError::other("parse_pps: empty NAL".to_owned()));
    }
    let t: u8 = nal[0] & 0x1f;
    if t != NAL_PPS {
        return Err(
            VdpError::other(
                "parse_pps: not a PPS NAL (type=".to_owned().concat(
                    decimal_text(t as u64).as_str(),
                ).concat(")"),
            ),
        );
    }
    let rbsp: Vec<u8> = strip_emulation_prevention(slice_subrange(nal, 1, nal.len()));
    assert(nal@.subrange(1, nal@.len() as int) == nal@.skip(1));
    let mut r: BitReader<'_> = BitReader::new(rbsp.as_slice());
    proof {
        crate::bits::lemma_small_powers();
        reveal_with_fuel(Cursor::after_ues, 4);
    }
    let pic_parameter_set_id: u32 = r.ue();
    let seq_parameter_set_id: u32 = r.ue();
    let entropy_coding_mode_flag: u8 = r.flag();
    let pic_order_present_flag: u8 = r.flag();
    let num_slice_groups_minus1: u32 = r.ue();
    if num_slice_groups_minus1 != 0 {
        return Err(
            VdpError::other(
                "parse_pps: num_slice_groups_minus1>0 (FMO) not supported by minimal parser".to_owned(),
            ),
        );
    }
    let num_ref_idx_l0_active_minus1: u32 = r.ue();
    let num_ref_idx_l1_active_minus1: u32 = r.ue();
    let weighted_pred_flag: u8 = r.flag();
    let weighted_bipred_idc: u8 = r.u(2) as u8;
    let pic_init_qp_minus26: i32 = r.se();
    let pic_init_qs_minus26: i32 = r.se();
    let chroma_qp_index_offset: i32 = r.se();
    let deblocking_filter_control_present_flag: u8 = r.flag();
    let constrained_intra_pred_flag: u8 = r.flag();
    let redundant_pic_cnt_present_flag: u8 = r.flag();
    let mut transform_8x8_mode_flag: u8 = 0;
    let mut second_chroma_qp_index_offset: i32 = chroma_qp_index_offset;
    assert(r@ == pps_extension_at(Cursor::start(rbsp@)));
    if r.more_rbsp_data() {
        transform_8x8_mode_flag = r.flag();
        let pic_scaling_matrix_present_flag: u8 = r.flag();
        if pic_scaling_matrix_present_flag != 0 {
            return Err(
                VdpError::other(
                    "parse_pps: pic_scaling_matrix_present_flag=1 not supported by minimal parser".to_owned(),
                ),
            );
        }
        second_chroma_qp_index_offset = r.se();
    }
    Ok(
        Pps {
            pic_parameter_set_id,
            seq_parameter_set_id,
            entropy_coding_mode_flag,
            pic_order_present_flag,
            num_slice_groups_minus1,
            num_ref_idx_l0_active_minus1,
            num_ref_idx_l1_active_minus1,
            weighted_pred_flag,
            weighted_bipred_idc,
            pic_init_qp_minus26,
            pic_init_qs_minus26,
            chroma_qp_index_offset,
            deblocking_filter_control_present_flag,
            constrained_intra_pred_flag,
            redundant_pic_cnt_present_flag,
            transform_8x8_mode_flag,
            second_chroma_qp_index_offset,
        },
    )
}

/// The index of the first unit from `i` on that has type `t`, or the number
/// of units.
pub open spec fn first_of_type(units: Seq<Seq<u8>>, t: u8, i: int) -> int
    decreases units.len() - i,
{
    if i < 0 || i >= units.len() {
        units.len() as int
    } else if units[i].len() > 0 && units[i][0] & 0x1f == t {
        i
    } else {
        first_of_type(units, t, i + 1)
    }
}

/// Find the first unit of type `t`.
fn find_type(nals: &Vec<&[u8]>, t: u8) -> (at: Option<usize>)
    ensures
        match at {
            Some(i) => i < nals@.len() && i == first_of_type(
                crate::annexb::contents(nals@),
                t,
                0,
            ),
            None => first_of_type(crate::annexb::contents(nals@), t, 0) == nals@.len(),
        },
{
    let ghost units = crate::annexb::contents(nals@);
    let mut i: usize = 0;
    while i < nals.len()
        invariant
            i <= nals@.len() == units.len(),
            units == crate::annexb::contents(nals@),
            first_of_type(units, t, 0) == first_of_type(units, t, i as int),
        decreases nals.len() - i,
    {
        let nal: &[u8] = nals[i];
        if nal.len() > 0 && nal[0] & 0x1f == t {
            return Some(i);
        }
        i = i + 1;
    }
    None
}

/// What a decoder knows of the stream.
pub struct H264Parameters {
    pub sps: Sps,
    pub pps: Pps,
}

impl H264Parameters {
    /// Coded width: 16 for each macroblock column, as a 32-bit number that
    /// wraps around.
    pub open spec fn width(self) -> u32 {
        ((self.sps.pic_width_in_mbs_minus1 + 1) * 16 % 0x1_0000_0000) as u32
    }

    /// Coded height: 16 for each map unit row of a frame, twice that for
    /// fields, as a 32-bit number that wraps around.
    pub open spec fn height(self) -> u32 {
        ((self.sps.pic_height_in_map_units_minus1 + 1) * 16 * (2 - self.sps.frame_mbs_only_flag)
            % 0x1_0000_0000) as u32
    }
}

/// The parameters of the stream with the given units. Both kinds of parameter
/// set have to be there; of each the first counts.
pub open spec fn parameters_of(units: Seq<Seq<u8>>) -> Result<H264Parameters, Failure> {
    let sps = first_of_type(units, NAL_SPS, 0);
    let pps = first_of_type(units, NAL_PPS, 0);
    if sps == units.len() {
        Err(crate::device::failure("H.264 fixture has no SPS NAL"@))
    } else if pps == units.len() {
        Err(crate::device::failure("H.264 fixture has no PPS NAL"@))
    } else {
        match (sps_of(units[sps]), pps_of(units[pps])) {
            (Err(f), _) => Err(f),
            (_, Err(f)) => Err(f),
            (Ok(sps), Ok(pps)) => Ok(H264Parameters { sps, pps }),
        }
    }
}

/// True if `frame` names no reference picture.
pub open spec fn unused_reference(frame: VdpReferenceFrameH264) -> bool {
    &&& frame.surface == VDP_INVALID_HANDLE
    &&& frame.is_long_term == 0
    &&& frame.top_is_reference == 0
    &&& frame.bottom_is_reference == 0
    &&& frame.field_order_cnt[0] == 0
    &&& frame.field_order_cnt[1] == 0
    &&& frame.frame_idx == 0
}

/// True if `info` describes the IDR picture of a stream with parameters `p`:
/// each field is that of the parameter sets, in the width the driver takes;
/// scaling lists are flat and there are no references.
pub open spec fn describes(info: VdpPictureInfoH264, p: H264Parameters) -> bool {
    &&& info.slice_count == 1
    &&& info.field_order_cnt[0] == 0
    &&& info.field_order_cnt[1] == 0
    &&& info.is_reference == 1
    &&& info.frame_num == 0
    &&& info.field_pic_flag == 0
    &&& info.bottom_field_flag == 0
    &&& info.num_ref_frames == p.sps.max_num_ref_frames as u8
    &&& info.mb_adaptive_frame_field_flag == p.sps.mb_adaptive_frame_field_flag
    &&& info.constrained_intra_pred_flag == p.pps.constrained_intra_pred_flag
    &&& info.weighted_pred_flag == p.pps.weighted_pred_flag
    &&& info.weighted_bipred_idc == p.pps.weighted_bipred_idc
    &&& info.frame_mbs_only_flag == p.sps.frame_mbs_only_flag
    &&& info.transform_8x8_mode_flag == p.pps.transform_8x8_mode_flag
    &&& info.chroma_qp_index_offset == p.pps.chroma_qp_index_offset as i8
    &&& info.second_chroma_qp_index_offset == p.pps.second_chroma_qp_index_offset as i8
    &&& info.pic_init_qp_minus26 == p.pps.pic_init_qp_minus26 as i8
    &&& info.num_ref_idx_l0_active_minus1 == p.pps.num_ref_idx_l0_active_minus1 as u8
    &&& info.num_ref_idx_l1_active_minus1 == p.pps.num_ref_idx_l1_active_minus1 as u8
    &&& info.log2_max_frame_num_minus4 == p.sps.log2_max_frame_num_minus4 as u8
    &&& info.pic_order_cnt_type == p.sps.pic_order_cnt_type as u8
    &&& info.log2_max_pic_order_cnt_lsb_minus4 == p.sps.log2_max_pic_order_cnt_lsb_minus4 as u8
    &&& info.delta_pic_order_always_zero_flag == p.sps.delta_pic_order_always_zero_flag
    &&& info.direct_8x8_inference_flag == p.sps.direct_8x8_inference_flag
    &&& info.entropy_coding_mode_flag == p.pps.entropy_coding_mode_flag
    &&& info.pic_order_present_flag == p.pps.pic_order_present_flag
    &&& info.deblocking_filter_control_present_flag == p.pps.deblocking_filter_control_present_flag
    &&& info.redundant_pic_cnt_present_flag == p.pps.redundant_pic_cnt_present_flag
    &&& forall|i: int, j: int|
        0 <= i < 6 && 0 <= j < 16 ==> #[trigger] info.scaling_lists_4x4[i][j] == 16
    &&& forall|i: int, j: int|
        0 <= i < 2 && 0 <= j < 64 ==> #[trigger] info.scaling_lists_8x8[i][j] == 16
    &&& forall|i: int| 0 <= i < 16 ==> unused_reference(#[trigger] info.reference_frames[i])
}

/// The driver decoder that a stream with parameters `p` needs.
pub open spec fn request_for(p: H264Parameters) -> DecoderRequest {
    DecoderRequest {
        profile: VDP_DECODER_PROFILE_H264_HIGH,
        width: p.width(),
        height: p.height(),
        max_references: if p.sps.max_num_ref_frames == 0 {
            1
        } else {
            p.sps.max_num_ref_frames
        },
    }
}

/// True if `action` is the right answer to `event` while the IDR picture in
/// `annex_b` is decoded.
pub open spec fn decode_step(
    p: H264Parameters,
    annex_b: Seq<u8>,
    event: DecodeEvent,
    action: DecodeAction<VdpPictureInfoH264>,
) -> bool {
    match event {
        DecodeEvent::Started => action.creates_surface(p.width(), p.height()),
        DecodeEvent::SurfaceCreated(Err(e)) => action.fails(e@),
        DecodeEvent::SurfaceCreated(Ok(_)) => {
            &&& action.renders(0, annex_b.len())
            &&& action matches DecodeAction::Render { picture_info, .. } && describes(
                picture_info,
                p,
            )
        },
        DecodeEvent::Rendered(result) => action.follows_render(result, p.width(), p.height()),
        DecodeEvent::BitsRead(result) => action.follows_read(result, p.width(), p.height()),
    }
}

/// Decoder for a stream that holds one IDR picture.
#[derive(Debug)]
pub struct H264VdpauDecoder {
    sps: Sps,
    pps: Pps,
}

impl View for H264VdpauDecoder {
    type V = H264Parameters;

    closed spec fn view(&self) -> H264Parameters {
        H264Parameters { sps: self.sps, pps: self.pps }
    }
}

impl H264VdpauDecoder {
    #[verifier::type_invariant]
    spec fn well_formed(self) -> bool {
        self.sps.frame_mbs_only_flag <= 1
    }

    /// Read the parameter sets of an Annex-B stream. The driver decoder that
    /// goes with them is described by [`H264VdpauDecoder::decoder_request`].
    pub fn new(annex_b: &[u8]) -> (res: Result<H264VdpauDecoder, VdpError>)
        ensures
            match parameters_of(crate::annexb::units(annex_b@)) {
                Ok(p) => res matches Ok(d) && d@ == p,
                Err(f) => res matches Err(e) && e@ == f,
            },
    {
        let nals: Vec<&[u8]> = split_nal_units(annex_b);
        let sps_nal: &[u8] = match find_type(&nals, NAL_SPS) {
            Some(i) => nals[i],
            None => {
                return Err(VdpError::other("H.264 fixture has no SPS NAL".to_owned()));
            },
        };
        let pps_nal: &[u8] = match find_type(&nals, NAL_PPS) {
            Some(i) => nals[i],
            None => {
                return Err(VdpError::other("H.264 fixture has no PPS NAL".to_owned()));
            },
        };
        let sps: Sps = match parse_sps(sps_nal) {
            Ok(v) => v,
            Err(e) => {
                return Err(e);
            },
        };
        let pps: Pps = match parse_pps(pps_nal) {
            Ok(v) => v,
            Err(e) => {
                return Err(e);
            },
        };
        Ok(H264VdpauDecoder { sps, pps })
    }

    /// As [`H264VdpauDecoder::new`], for the device that is asked for. The request is
    /// checked against the devices of the host before anything is read.
    pub fn with_params(
        device_index: Option<u32>,
        devices: &Vec<HwDeviceInfo>,
        annex_b: &[u8],
    ) -> (res: Result<H264VdpauDecoder, VdpError>)
        ensures
            match crate::engine::request_error(device_index, devices@.len()) {
                Some(f) => res matches Err(e) && e@ == f,
                None => match parameters_of(crate::annexb::units(annex_b@)) {
                    Ok(p) => res matches Ok(d) && d@ == p,
                    Err(f) => res matches Err(e) && e@ == f,
                },
            },
    {
        match validate_request(device_index, devices) {
            Ok(_) => H264VdpauDecoder::new(annex_b),
            Err(e) => Err(e),
        }
    }

    /// The driver decoder that this stream needs.
    pub fn decoder_request(&self) -> (request: DecoderRequest)
        ensures
            request == request_for(self@),
            request.profile == VDP_DECODER_PROFILE_H264_HIGH,
            request.width == self@.width(),
            request.height == self@.height(),
            request.max_references == (if self@.sps.max_num_ref_frames == 0 {
                1
            } else {
                self@.sps.max_num_ref_frames
            }),
    {
        DecoderRequest {
            profile: VDP_DECODER_PROFILE_H264_HIGH,
            width: self.width(),
            height: self.height(),
            max_references: if self.sps.max_num_ref_frames == 0 {
                1
            } else {
                self.sps.max_num_ref_frames
            },
        }
    }

    /// Coded width.
    pub fn width(&self) -> (w: u32)
        ensures
            w == self@.width(),
    {
        ((self.sps.pic_width_in_mbs_minus1 as u64 + 1) * 16 % 0x1_0000_0000) as u32
    }

    /// Coded height.
    pub fn height(&self) -> (h: u32)
        ensures
            h == self@.height(),
    {
        proof {
            use_type_invariant(self);
        }
        let rows: u64 = (self.sps.pic_height_in_map_units_minus1 as u64 + 1) * 16;
        let fields: u64 = 2 - self.sps.frame_mbs_only_flag as u64;
        assert(rows * fields <= 2 * rows) by (nonlinear_arith)
            requires
                fields <= 2,
                rows >= 0,
        ;
        (rows * fields % 0x1_0000_0000) as u32
    }

    /// One step of decoding the picture in `annex_b`: what is to be done after
    /// `event`. The driver gets the whole stream and finds the units itself.
    pub fn decode_idr(&self, annex_b: &[u8], event: DecodeEvent) -> (action: DecodeAction<
        VdpPictureInfoH264,
    >)
        requires
            event.fits(self@.width(), self@.height()),
        ensures
            decode_step(self@, annex_b@, event, action),
    {
        match event {
            DecodeEvent::Started => create_surface(self.width(), self.height()),
            DecodeEvent::SurfaceCreated(Err(e)) => DecodeAction::Finish(Err(e)),
            DecodeEvent::SurfaceCreated(Ok(_)) => render(
                self.build_idr_picture_info(),
                0,
                annex_b.len(),
            ),
            DecodeEvent::Rendered(result) => after_render(result, self.width(), self.height()),
            DecodeEvent::BitsRead(result) => after_read(result, self.width(), self.height()),
        }
    }

    fn build_idr_picture_info(&self) -> (info: VdpPictureInfoH264)
        ensures
            describes(info, self@),
    {
        let unused_ref: VdpReferenceFrameH264 = VdpReferenceFrameH264 {
            surface: VDP_INVALID_HANDLE,
            is_long_term: 0,
            top_is_reference: 0,
            bottom_is_reference: 0,
            field_order_cnt: [0, 0],
            frame_idx: 0,
        };
        VdpPictureInfoH264 {
            slice_count: 1,
            field_order_cnt: [0, 0],
            is_reference: 1,
            frame_num: 0,
            field_pic_flag: 0,
            bottom_field_flag: 0,
            num_ref_frames: self.sps.max_num_ref_frames as u8,
            mb_adaptive_frame_field_flag: self.sps.mb_adaptive_frame_field_flag,
            constrained_intra_pred_flag: self.pps.constrained_intra_pred_flag,
            weighted_pred_flag: self.pps.weighted_pred_flag,
            weighted_bipred_idc: self.pps.weighted_bipred_idc,
            frame_mbs_only_flag: self.sps.frame_mbs_only_flag,
            transform_8x8_mode_flag: self.pps.transform_8x8_mode_flag,
            chroma_qp_index_offset: self.pps.chroma_qp_index_offset as i8,
            second_chroma_qp_index_offset: self.pps.second_chroma_qp_index_offset as i8,
            pic_init_qp_minus26: self.pps.pic_init_qp_minus26 as i8,
            num_ref_idx_l0_active_minus1: self.pps.num_ref_idx_l0_active_minus1 as u8,
            num_ref_idx_l1_active_minus1: self.pps.num_ref_idx_l1_active_minus1 as u8,
            log2_max_frame_num_minus4: self.sps.log2_max_frame_num_minus4 as u8,
            pic_order_cnt_type: self.sps.pic_order_cnt_type as u8,
            log2_max_pic_order_cnt_lsb_minus4: self.sps.log2_max_pic_order_cnt_lsb_minus4 as u8,
            delta_pic_order_always_zero_flag: self.sps.delta_pic_order_always_zero_flag,
            direct_8x8_inference_flag: self.sps.direct_8x8_inference_flag,
            entropy_coding_mode_flag: self.pps.entropy_coding_mode_flag,
            pic_order_present_flag: self.pps.pic_order_present_flag,
            deblocking_filter_control_present_flag: self.pps.deblocking_filter_control_present_flag,
            redundant_pic_cnt_present_flag: self.pps.redundant_pic_cnt_present_flag,
            scaling_lists_4x4: [[16u8; 16]; 6],
            scaling_lists_8x8: [[16u8; 64]; 2],
            reference_frames: [unused_ref; 16],
        }
    }
}

// Laws.

/// What a sequence parameter set carries besides [`Sps`].
pub struct SpsExtras {
    pub separate_colour_plane_flag: nat,
    pub qpprime_y_zero_transform_bypass_flag: nat,
    pub offset_for_non_ref_pic: int,
    pub offset_for_top_to_bottom_field: int,
    pub offset_for_ref_frame: Seq<int>,
}

/// The profiles whose sequence parameter sets have a chroma format and bit
/// depths: High and those derived from it.
pub open spec fn high_profiles() -> Set<u8> {
    set![100u8, 110u8, 122u8, 244u8, 44u8, 83u8, 86u8, 118u8, 128u8, 138u8, 139u8, 134u8, 135u8]
}

/// What an encoder writes before `log2_max_frame_num_minus4`, with the given
/// `seq_scaling_matrix_present_flag` if the profile has one.
pub open spec fn written_sps_head(sps: Sps, x: SpsExtras, matrix: nat) -> crate::writer::Bits {
    let w = crate::writer::Bits::start().u(8, sps.profile_idc as nat).u(
        8,
        sps.constraint_flags as nat,
    ).u(8, sps.level_idc as nat).ue(sps.seq_parameter_set_id as nat);
    if !high_profiles().contains(sps.profile_idc) {
        w
    } else {
        let chroma = w.ue(sps.chroma_format_idc as nat);
        (if sps.chroma_format_idc == 3 {
            chroma.flag(x.separate_colour_plane_flag)
        } else {
            chroma
        }).ue(sps.bit_depth_luma_minus8 as nat).ue(sps.bit_depth_chroma_minus8 as nat).flag(
            x.qpprime_y_zero_transform_bypass_flag,
        ).flag(matrix)
    }
}

/// What an encoder writes for a sequence parameter set, up to
/// `direct_8x8_inference_flag`.
pub open spec fn written_sps(sps: Sps, x: SpsExtras) -> crate::writer::Bits {
    let w = written_sps_head(sps, x, 0).ue(sps.log2_max_frame_num_minus4 as nat).ue(
        sps.pic_order_cnt_type as nat,
    );
    let order = if sps.pic_order_cnt_type == 0 {
        w.ue(sps.log2_max_pic_order_cnt_lsb_minus4 as nat)
    } else if sps.pic_order_cnt_type == 1 {
        w.flag(sps.delta_pic_order_always_zero_flag as nat).se(x.offset_for_non_ref_pic).se(
            x.offset_for_top_to_bottom_field,
        ).ue(x.offset_for_ref_frame.len()).ses(x.offset_for_ref_frame)
    } else {
        w
    };
    let size = order.ue(sps.max_num_ref_frames as nat).flag(
        sps.gaps_in_frame_num_value_allowed_flag as nat,
    ).ue(sps.pic_width_in_mbs_minus1 as nat).ue(sps.pic_height_in_map_units_minus1 as nat).flag(
        sps.frame_mbs_only_flag as nat,
    );
    (if sps.frame_mbs_only_flag == 0 {
        size.flag(sps.mb_adaptive_frame_field_flag as nat)
    } else {
        size
    }).flag(sps.direct_8x8_inference_flag as nat)
}

/// True if every number has a code word, and fields that are not written have
/// the values that their absence stands for: 4:2:0, 8 bits, 0.
pub open spec fn writable_sps(sps: Sps, x: SpsExtras) -> bool {
    &&& sps.seq_parameter_set_id < u32::MAX
    &&& sps.chroma_format_idc < u32::MAX
    &&& sps.bit_depth_luma_minus8 < u32::MAX
    &&& sps.bit_depth_chroma_minus8 < u32::MAX
    &&& !high_profiles().contains(sps.profile_idc) ==> sps.chroma_format_idc == 1
        && sps.bit_depth_luma_minus8 == 0 && sps.bit_depth_chroma_minus8 == 0
    &&& sps.log2_max_frame_num_minus4 < u32::MAX
    &&& sps.pic_order_cnt_type < u32::MAX
    &&& sps.log2_max_pic_order_cnt_lsb_minus4 < u32::MAX
    &&& sps.pic_order_cnt_type != 0 ==> sps.log2_max_pic_order_cnt_lsb_minus4 == 0
    &&& sps.delta_pic_order_always_zero_flag <= 1
    &&& sps.pic_order_cnt_type != 1 ==> sps.delta_pic_order_always_zero_flag == 0
    &&& sps.max_num_ref_frames < u32::MAX
    &&& sps.gaps_in_frame_num_value_allowed_flag <= 1
    &&& sps.pic_width_in_mbs_minus1 < u32::MAX
    &&& sps.pic_height_in_map_units_minus1 < u32::MAX
    &&& sps.frame_mbs_only_flag <= 1
    &&& sps.mb_adaptive_frame_field_flag <= 1
    &&& sps.frame_mbs_only_flag == 1 ==> sps.mb_adaptive_frame_field_flag == 0
    &&& sps.direct_8x8_inference_flag <= 1
    &&& crate::writer::se_fits(x.offset_for_non_ref_pic)
    &&& crate::writer::se_fits(x.offset_for_top_to_bottom_field)
    &&& x.offset_for_ref_frame.len() < u32::MAX
    &&& forall|i: int|
        0 <= i < x.offset_for_ref_frame.len() ==> crate::writer::se_fits(
            #[trigger] x.offset_for_ref_frame[i],
        )
}

/// A sequence parameter set that was written is read back, whatever the profile
/// and whatever follows it.
#[verifier::rlimit(60)]
pub proof fn law_sps_reads_back(header: u8, data: Seq<u8>, sps: Sps, x: SpsExtras)
    requires
        header % 32 == 7,
        writable_sps(sps, x),
        Cursor::start(data).begins_with(written_sps(sps, x)),
    ensures
        sps_of(crate::annexb::unit(seq![header], data)) == Ok::<Sps, Failure>(sps),
{
    broadcast use crate::writer::group_reads_back;

    let nal = crate::annexb::unit(seq![header], data);
    let c = Cursor::start(data);
    crate::bits::lemma_small_powers();
    reveal_with_fuel(Cursor::after_ues, 4);
    lemma_unit_type(header);
    crate::annexb::law_unit_payload_reads_back(seq![header], data);
    assert(nal[0] == header);
    lemma_three_bytes(c, sps, x);
}

/// A sequence parameter set with a scaling matrix is refused.
pub proof fn law_sps_with_scaling_matrix_is_refused(
    header: u8,
    data: Seq<u8>,
    sps: Sps,
    x: SpsExtras,
)
    requires
        header % 32 == 7,
        writable_sps(sps, x),
        high_profiles().contains(sps.profile_idc),
        Cursor::start(data).begins_with(written_sps_head(sps, x, 1)),
    ensures
        sps_of(crate::annexb::unit(seq![header], data)) is Err,
        data.len() >= 3 ==> sps_of(crate::annexb::unit(seq![header], data)) == Err::<Sps, Failure>(
            crate::device::failure(
                "parse_sps: seq_scaling_matrix_present_flag=1 not supported by minimal parser"@,
            ),
        ),
{
    broadcast use crate::writer::group_reads_back;

    let nal = crate::annexb::unit(seq![header], data);
    crate::bits::lemma_small_powers();
    reveal_with_fuel(Cursor::after_ues, 4);
    lemma_unit_type(header);
    crate::annexb::law_unit_payload_reads_back(seq![header], data);
    assert(nal[0] == header);
}

/// What an encoder writes for a picture parameter set with this many slice
/// groups, up to their number.
pub open spec fn written_pps_groups(pps: Pps, groups_minus1: nat) -> crate::writer::Bits {
    crate::writer::Bits::start().ue(pps.pic_parameter_set_id as nat).ue(
        pps.seq_parameter_set_id as nat,
    ).flag(pps.entropy_coding_mode_flag as nat).flag(pps.pic_order_present_flag as nat).ue(
        groups_minus1,
    )
}

/// What an encoder writes for a picture parameter set, up to
/// `redundant_pic_cnt_present_flag`.
pub open spec fn written_pps(pps: Pps) -> crate::writer::Bits {
    written_pps_groups(pps, 0).ue(pps.num_ref_idx_l0_active_minus1 as nat).ue(
        pps.num_ref_idx_l1_active_minus1 as nat,
    ).flag(pps.weighted_pred_flag as nat).u(2, pps.weighted_bipred_idc as nat).se(
        pps.pic_init_qp_minus26 as int,
    ).se(pps.pic_init_qs_minus26 as int).se(pps.chroma_qp_index_offset as int).flag(
        pps.deblocking_filter_control_present_flag as nat,
    ).flag(pps.constrained_intra_pred_flag as nat).flag(pps.redundant_pic_cnt_present_flag as nat)
}

/// The same with the High-profile extension, the scaling matrix flag in it as
/// given.
pub open spec fn written_extended_pps(pps: Pps, matrix: nat) -> crate::writer::Bits {
    written_pps(pps).flag(pps.transform_8x8_mode_flag as nat).flag(matrix).se(
        pps.second_chroma_qp_index_offset as int,
    )
}

/// True if every number fits in what it is written in.
pub open spec fn writable_pps(pps: Pps) -> bool {
    &&& pps.pic_parameter_set_id < u32::MAX
    &&& pps.seq_parameter_set_id < u32::MAX
    &&& pps.entropy_coding_mode_flag <= 1
    &&& pps.pic_order_present_flag <= 1
    &&& pps.num_slice_groups_minus1 == 0
    &&& pps.num_ref_idx_l0_active_minus1 < u32::MAX
    &&& pps.num_ref_idx_l1_active_minus1 < u32::MAX
    &&& pps.weighted_pred_flag <= 1
    &&& pps.weighted_bipred_idc <= 3
    &&& crate::writer::se_fits(pps.pic_init_qp_minus26 as int)
    &&& crate::writer::se_fits(pps.pic_init_qs_minus26 as int)
    &&& crate::writer::se_fits(pps.chroma_qp_index_offset as int)
    &&& pps.deblocking_filter_control_present_flag <= 1
    &&& pps.constrained_intra_pred_flag <= 1
    &&& pps.redundant_pic_cnt_present_flag <= 1
    &&& pps.transform_8x8_mode_flag <= 1
    &&& crate::writer::se_fits(pps.second_chroma_qp_index_offset as int)
}

/// True if `data` is a picture parameter set with all of this: either with the
/// extension, followed by the one bit that ends the payload, or without it,
/// in which case the payload ends with a one bit and zeros, the second chroma
/// offset is the first and the 8x8 transform is off.
pub open spec fn pps_payload(data: Seq<u8>, pps: Pps) -> bool {
    let c = Cursor::start(data);
    ||| c.begins_with(written_extended_pps(pps, 0).flag(1))
    ||| {
        &&& c.begins_with(written_pps(pps).flag(1))
        &&& forall|p: nat|
            written_pps(pps).len() < p < 8 * data.len() ==> #[trigger] crate::bits::bit_at(data, p)
                == 0
        &&& pps.transform_8x8_mode_flag == 0
        &&& pps.second_chroma_qp_index_offset == pps.chroma_qp_index_offset
    }
}

/// A picture parameter set that was written is read back, with or without the
/// High-profile extension.
#[verifier::rlimit(80)]
pub proof fn law_pps_reads_back(header: u8, data: Seq<u8>, pps: Pps)
    requires
        header % 32 == 8,
        writable_pps(pps),
        pps_payload(data, pps),
    ensures
        pps_of(crate::annexb::unit(seq![header], data)) == Ok::<Pps, Failure>(pps),
{
    broadcast use crate::writer::group_reads_back;

    let nal = crate::annexb::unit(seq![header], data);
    let c = Cursor::start(data);
    crate::bits::lemma_small_powers();
    reveal_with_fuel(Cursor::after_ues, 4);
    lemma_unit_type(header);
    crate::annexb::law_unit_payload_reads_back(seq![header], data);
    assert(nal[0] == header);
    if c.begins_with(written_extended_pps(pps, 0).flag(1)) {
        lemma_extension_is_more_data(c, pps, 0);
    } else {
        assert(c.begins_with(written_pps(pps)));
        assert(pps_extension_at(c) == c.behind(written_pps(pps)));
    }
}

proof fn lemma_extension_is_more_data(c: Cursor, pps: Pps, matrix: nat)
    requires
        writable_pps(pps),
        c.begins_with(written_extended_pps(pps, matrix).flag(1)),
    ensures
        c.behind(written_pps(pps)).more_data(),
{
    broadcast use crate::writer::group_reads_back;

    let flags = written_pps(pps).flag(pps.transform_8x8_mode_flag as nat).flag(matrix);
    let all = written_extended_pps(pps, matrix);
    assert(c.begins_with(all));
    assert(c.begins_with(flags));
    let p = crate::writer::lemma_se_has_a_one(c, flags, pps.second_chroma_qp_index_offset as int);
    let q = (c.pos + all.len()) as nat;
    assert(c.behind(all).flag() == 1);
    assert(crate::bits::bit_at(c.data, q) == 1) by {
        reveal(Cursor::flag);
    }
    assert(flags.len() == written_pps(pps).len() + 2);
    assert(q < 8 * c.data.len()) by {
        reveal(Cursor::begins_with);
        reveal(crate::writer::Bits::len);
    }
    let d = c.behind(written_pps(pps));
    assert(d.pos <= p < q);
    assert(crate::bits::bit_at(d.data, p) == 1 && crate::bits::bit_at(d.data, q) == 1);
}

/// A picture parameter set with slice groups or a scaling matrix is refused.
#[verifier::rlimit(80)]
pub proof fn law_pps_with_slice_groups_or_scaling_matrix_is_refused(
    header: u8,
    data: Seq<u8>,
    pps: Pps,
    groups_minus1: nat,
)
    requires
        header % 32 == 8,
        writable_pps(pps),
        0 < groups_minus1 && crate::writer::ue_fits(groups_minus1),
        Cursor::start(data).begins_with(written_pps_groups(pps, groups_minus1)) || Cursor::start(
            data,
        ).begins_with(written_extended_pps(pps, 1).flag(1)),
    ensures
        Cursor::start(data).begins_with(written_pps_groups(pps, groups_minus1)) ==> pps_of(
            crate::annexb::unit(seq![header], data),
        ) == Err::<Pps, Failure>(
            crate::device::failure(
                "parse_pps: num_slice_groups_minus1>0 (FMO) not supported by minimal parser"@,
            ),
        ),
        !Cursor::start(data).begins_with(written_pps_groups(pps, groups_minus1)) ==> pps_of(
            crate::annexb::unit(seq![header], data),
        ) == Err::<Pps, Failure>(
            crate::device::failure(
                "parse_pps: pic_scaling_matrix_present_flag=1 not supported by minimal parser"@,
            ),
        ),
{
    broadcast use crate::writer::group_reads_back;

    let nal = crate::annexb::unit(seq![header], data);
    let c = Cursor::start(data);
    crate::bits::lemma_small_powers();
    reveal_with_fuel(Cursor::after_ues, 4);
    lemma_unit_type(header);
    crate::annexb::law_unit_payload_reads_back(seq![header], data);
    assert(nal[0] == header);
    if c.begins_with(written_extended_pps(pps, 1).flag(1)) {
        lemma_extension_is_more_data(c, pps, 1);
    }
}

/// A parameter set is read only from a unit of its own type, and a sequence
/// parameter set only if it has three bytes.
pub proof fn law_other_units_are_refused(header: u8, data: Seq<u8>)
    ensures
        sps_of(Seq::empty()) is Err && pps_of(Seq::empty()) is Err,
        data.len() < 3 ==> sps_of(crate::annexb::unit(seq![header], data)) is Err,
        header % 32 != 7 ==> sps_of(crate::annexb::unit(seq![header], data)) is Err,
        header % 32 != 8 ==> pps_of(crate::annexb::unit(seq![header], data)) is Err,
{
    lemma_unit_type(header);
    assert(crate::annexb::unit(seq![header], data)[0] == header);
    crate::annexb::law_unit_payload_reads_back(seq![header], data);
}

/// The parameter sets of a stream, each with its header and payload.
pub struct WrittenSets {
    pub sps_unit: (u8, Seq<u8>),
    pub pps_unit: (u8, Seq<u8>),
    pub sps: Sps,
    pub pps: Pps,
    pub extras: SpsExtras,
}

/// True if unit `at` of a stream is this one, and the first with its type.
pub open spec fn first_unit_is(
    list: Seq<crate::annexb::FramedUnit>,
    at: int,
    unit: (u8, Seq<u8>),
) -> bool {
    &&& 0 <= at < list.len()
    &&& list[at].payload == crate::annexb::unit(seq![unit.0], unit.1)
    &&& forall|k: int|
        0 <= k < at && (#[trigger] list[k]).payload.len() > 0 ==> list[k].payload[0] % 32 != unit.0
            % 32
}

/// True if the stream carries these sets.
pub open spec fn carries(
    list: Seq<crate::annexb::FramedUnit>,
    at: (int, int),
    s: WrittenSets,
) -> bool {
    &&& crate::annexb::separable(list)
    &&& s.sps_unit.0 % 32 == 7
    &&& s.pps_unit.0 % 32 == 8
    &&& first_unit_is(list, at.0, s.sps_unit)
    &&& first_unit_is(list, at.1, s.pps_unit)
    &&& writable_sps(s.sps, s.extras)
    &&& Cursor::start(s.sps_unit.1).begins_with(written_sps(s.sps, s.extras))
    &&& writable_pps(s.pps)
    &&& pps_payload(s.pps_unit.1, s.pps)
}

/// A decoder for a stream that carries both parameter sets knows exactly what
/// was written.
pub proof fn law_parameters_are_found(
    list: Seq<crate::annexb::FramedUnit>,
    at: (int, int),
    s: WrittenSets,
)
    requires
        carries(list, at, s),
    ensures
        parameters_of(crate::annexb::units(crate::annexb::framed(list))) == Ok::<
            H264Parameters,
            Failure,
        >((H264Parameters { sps: s.sps, pps: s.pps })),
{
    let units = crate::annexb::units(crate::annexb::framed(list));
    crate::annexb::law_split_undoes_framing(list);
    law_sps_reads_back(s.sps_unit.0, s.sps_unit.1, s.sps, s.extras);
    law_pps_reads_back(s.pps_unit.0, s.pps_unit.1, s.pps);
    assert forall|k: int| 0 <= k < list.len() && list[k].payload.len() > 0 implies (
    #[trigger] units[k])[0] & 0x1f == list[k].payload[0] % 32 by {
        lemma_unit_type(list[k].payload[0]);
    }
    assert(list[at.0].payload[0] == s.sps_unit.0);
    assert(list[at.1].payload[0] == s.pps_unit.0);
    lemma_first_of_type_is(units, 7, 0, at.0);
    lemma_first_of_type_is(units, 8, 0, at.1);
}

proof fn lemma_first_of_type_is(units: Seq<Seq<u8>>, t: u8, i: int, at: int)
    requires
        0 <= i <= at < units.len(),
        units[at].len() > 0,
        units[at][0] & 0x1f == t,
        forall|k: int|
            i <= k < at ==> !((#[trigger] units[k]).len() > 0 && units[k][0] & 0x1f == t),
    ensures
        first_of_type(units, t, i) == at,
    decreases at - i,
{
    if i < at {
        assert(!(units[i].len() > 0 && units[i][0] & 0x1f == t));
        lemma_first_of_type_is(units, t, i + 1, at);
    }
}

/// The record that the driver gets for the picture says, field by field, what
/// the encoder wrote in the parameter sets, in the eight bits that the driver
/// takes where the field is wider. The surface has 16 samples for each
/// macroblock, with twice the rows if pictures can be fields, as 32-bit numbers
/// that wrap around, and the driver gets the whole stream.
#[verifier::rlimit(80)]
pub proof fn law_picture_says_what_was_written(
    list: Seq<crate::annexb::FramedUnit>,
    at: (int, int),
    s: WrittenSets,
    p: H264Parameters,
    first: DecodeAction<VdpPictureInfoH264>,
    second: DecodeAction<VdpPictureInfoH264>,
)
    requires
        carries(list, at, s),
        parameters_of(crate::annexb::units(crate::annexb::framed(list))) == Ok::<
            H264Parameters,
            Failure,
        >(p),
        decode_step(p, crate::annexb::framed(list), DecodeEvent::Started, first),
        decode_step(p, crate::annexb::framed(list), DecodeEvent::SurfaceCreated(Ok(())), second),
    ensures
        ({
            let sps = s.sps;
            let pps = s.pps;
            let columns = sps.pic_width_in_mbs_minus1 + 1;
            let rows = sps.pic_height_in_map_units_minus1 + 1;
            &&& first matches DecodeAction::CreateSurface { chroma_type, width, height } && {
                &&& chroma_type == 0
                &&& (16 * columns - width) % 0x1_0000_0000 == 0
                &&& sps.frame_mbs_only_flag == 1 ==> (16 * rows - height) % 0x1_0000_0000 == 0
                &&& sps.frame_mbs_only_flag == 0 ==> (32 * rows - height) % 0x1_0000_0000 == 0
            }
            &&& second matches DecodeAction::Render { picture_info: info, bitstream: b } && {
                &&& b.offset == 0
                &&& crate::annexb::framed(list).len() <= u32::MAX ==> b.bitstream_bytes
                    == crate::annexb::framed(list).len()
                &&& info.slice_count == 1
                &&& info.field_order_cnt[0] == 0
                &&& info.field_order_cnt[1] == 0
                &&& info.is_reference == 1
                &&& info.frame_num == 0
                &&& info.field_pic_flag == 0
                &&& info.bottom_field_flag == 0
                &&& crate::bits::narrows(info.num_ref_frames as int, sps.max_num_ref_frames as int)
                &&& info.mb_adaptive_frame_field_flag == sps.mb_adaptive_frame_field_flag
                &&& info.constrained_intra_pred_flag == pps.constrained_intra_pred_flag
                &&& info.weighted_pred_flag == pps.weighted_pred_flag
                &&& info.weighted_bipred_idc == pps.weighted_bipred_idc
                &&& info.frame_mbs_only_flag == sps.frame_mbs_only_flag
                &&& info.transform_8x8_mode_flag == pps.transform_8x8_mode_flag
                &&& crate::bits::narrows(
                    info.chroma_qp_index_offset as int,
                    pps.chroma_qp_index_offset as int,
                )
                &&& crate::bits::narrows(
                    info.second_chroma_qp_index_offset as int,
                    pps.second_chroma_qp_index_offset as int,
                )
                &&& crate::bits::narrows(
                    info.pic_init_qp_minus26 as int,
                    pps.pic_init_qp_minus26 as int,
                )
                &&& crate::bits::narrows(
                    info.num_ref_idx_l0_active_minus1 as int,
                    pps.num_ref_idx_l0_active_minus1 as int,
                )
                &&& crate::bits::narrows(
                    info.num_ref_idx_l1_active_minus1 as int,
                    pps.num_ref_idx_l1_active_minus1 as int,
                )
                &&& crate::bits::narrows(
                    info.log2_max_frame_num_minus4 as int,
                    sps.log2_max_frame_num_minus4 as int,
                )
                &&& crate::bits::narrows(
                    info.pic_order_cnt_type as int,
                    sps.pic_order_cnt_type as int,
                )
                &&& crate::bits::narrows(
                    info.log2_max_pic_order_cnt_lsb_minus4 as int,
                    sps.log2_max_pic_order_cnt_lsb_minus4 as int,
                )
                &&& info.delta_pic_order_always_zero_flag == sps.delta_pic_order_always_zero_flag
                &&& info.direct_8x8_inference_flag == sps.direct_8x8_inference_flag
                &&& info.entropy_coding_mode_flag == pps.entropy_coding_mode_flag
                &&& info.pic_order_present_flag == pps.pic_order_present_flag
                &&& info.deblocking_filter_control_present_flag == pps.deblocking_filter_control_present_flag
                &&& info.redundant_pic_cnt_present_flag == pps.redundant_pic_cnt_present_flag
                &&& forall|i: int, j: int|
                    0 <= i < 6 && 0 <= j < 16 ==> #[trigger] info.scaling_lists_4x4[i][j] == 16
                &&& forall|i: int, j: int|
                    0 <= i < 2 && 0 <= j < 64 ==> #[trigger] info.scaling_lists_8x8[i][j] == 16
                &&& forall|i: int|
                    0 <= i < 16 ==> {
                        let frame = #[trigger] info.reference_frames[i];
                        &&& frame.surface == 0xffff_ffff
                        &&& frame.is_long_term == 0
                        &&& frame.top_is_reference == 0
                        &&& frame.bottom_is_reference == 0
                        &&& frame.field_order_cnt[0] == 0
                        &&& frame.field_order_cnt[1] == 0
                        &&& frame.frame_idx == 0
                    }
            }
        }),
{
    law_parameters_are_found(list, at, s);
    assert forall|v: u32| crate::bits::narrows(#[trigger] (v as u8) as int, v as int) by {
        crate::bits::lemma_low_byte(v);
    }
    assert forall|v: i32| crate::bits::narrows(#[trigger] (v as i8) as int, v as int) by {
        crate::bits::lemma_low_signed_byte(v);
    }
    let rows = (s.sps.pic_height_in_map_units_minus1 + 1) * 16;
    let fields = 2 - s.sps.frame_mbs_only_flag;
    assert(fields == 1 ==> rows * fields == rows) by (nonlinear_arith);
    assert(fields == 2 ==> rows * fields == 2 * rows) by (nonlinear_arith);
}

proof fn lemma_unit_type(header: u8)
    ensures
        header & 0x1f == header % 32,
{
    assert(header & 0x1f == header % 32) by (bit_vector);
}

/// A written sequence parameter set takes more than 24 bits.
proof fn lemma_three_bytes(c: Cursor, sps: Sps, x: SpsExtras)
    requires
        c.pos == 0,
        writable_sps(sps, x),
        c.begins_with(written_sps(sps, x)),
    ensures
        c.data.len() >= 3,
{
    broadcast use crate::writer::group_reads_back;

    crate::bits::lemma_small_powers();
    let three = crate::writer::Bits::start().u(8, sps.profile_idc as nat).u(
        8,
        sps.constraint_flags as nat,
    ).u(8, sps.level_idc as nat);
    assert(c.begins_with(three));
    reveal(Cursor::begins_with);
    reveal(crate::writer::Bits::len);
}

/// Without the High-profile extension, the second chroma offset is the first
/// one again, and the 8x8 transform is off.
pub proof fn law_extension_defaults(nal: Seq<u8>)
    requires
        !pps_extension_at(Cursor::start(crate::annexb::stripped(nal.skip(1)))).more_data(),
    ensures
        pps_of(nal) matches Ok(pps) ==> pps.second_chroma_qp_index_offset
            == pps.chroma_qp_index_offset && pps.transform_8x8_mode_flag == 0,
{
}

/// A parameter set that is accepted uses no slice groups.
pub proof fn law_slice_groups_are_refused(nal: Seq<u8>)
    ensures
        pps_of(nal) matches Ok(pps) ==> pps.num_slice_groups_minus1 == 0,
{
}

/// The coded size is a multiple of 16 in both directions.
pub proof fn law_size_in_macroblocks(units: Seq<Seq<u8>>, p: H264Parameters)
    requires
        parameters_of(units) == Ok::<H264Parameters, Failure>(p),
    ensures
        p.width() % 16 == 0,
        p.height() % 16 == 0,
{
    lemma_frame_mbs_only(units, p);
    let rows = (p.sps.pic_height_in_map_units_minus1 + 1) * 16;
    let fields = 2 - p.sps.frame_mbs_only_flag;
    assert(fields == 1 || fields == 2);
    assert(rows * fields == rows || rows * fields == 2 * rows) by (nonlinear_arith)
        requires
            fields == 1 || fields == 2,
    ;
}

proof fn lemma_frame_mbs_only(units: Seq<Seq<u8>>, p: H264Parameters)
    requires
        parameters_of(units) == Ok::<H264Parameters, Failure>(p),
    ensures
        p.sps.frame_mbs_only_flag <= 1,
{
    assert forall|c: Cursor| #[trigger] c.flag() <= 1 by {
        reveal(Cursor::flag);
        crate::bits::lemma_bit_at_bound(c.data, c.pos);
    }
}

/// The driver decoder is asked for as High profile, number 8, for 16 samples for
/// each macroblock, and with room for every reference picture but at least one.
pub proof fn law_request_by_numbers(p: H264Parameters)
    requires
        p.sps.frame_mbs_only_flag <= 1,
    ensures
        request_for(p).profile == 8,
        (16 * (p.sps.pic_width_in_mbs_minus1 + 1) - request_for(p).width) % 0x1_0000_0000 == 0,
        p.sps.frame_mbs_only_flag == 1 ==> (16 * (p.sps.pic_height_in_map_units_minus1 + 1)
            - request_for(p).height) % 0x1_0000_0000 == 0,
        p.sps.frame_mbs_only_flag == 0 ==> (32 * (p.sps.pic_height_in_map_units_minus1 + 1)
            - request_for(p).height) % 0x1_0000_0000 == 0,
        request_for(p).max_references >= 1,
        request_for(p).max_references >= p.sps.max_num_ref_frames,
        p.sps.max_num_ref_frames >= 1 ==> request_for(p).max_references == p.sps.max_num_ref_frames,
        p.sps.max_num_ref_frames == 0 ==> request_for(p).max_references == 1,
{
    let rows = (p.sps.pic_height_in_map_units_minus1 + 1) * 16;
    let fields = 2 - p.sps.frame_mbs_only_flag;
    assert(fields == 1 ==> rows * fields == rows) by (nonlinear_arith);
    assert(fields == 2 ==> rows * fields == 2 * rows) by (nonlinear_arith);
}

/// A stream without a sequence parameter set or without a picture parameter set
/// is refused.
pub proof fn law_missing_sets_are_refused(list: Seq<crate::annexb::FramedUnit>, t: u8)
    requires
        crate::annexb::separable(list),
        t == 7 || t == 8,
        forall|k: int|
            0 <= k < list.len() && (#[trigger] list[k]).payload.len() > 0 ==> list[k].payload[0] % 32
                != t,
    ensures
        parameters_of(crate::annexb::units(crate::annexb::framed(list))) is Err,
{
    let units = crate::annexb::units(crate::annexb::framed(list));
    crate::annexb::law_split_undoes_framing(list);
    assert forall|k: int| 0 <= k < units.len() implies !((#[trigger] units[k]).len() > 0
        && units[k][0] & 0x1f == t) by {
        assert(units[k] == list[k].payload);
        if units[k].len() > 0 {
            lemma_unit_type(units[k][0]);
        }
    }
    lemma_none_of_type(units, t, 0);
}

proof fn lemma_none_of_type(units: Seq<Seq<u8>>, t: u8, i: int)
    requires
        0 <= i <= units.len(),
        forall|k: int|
            i <= k < units.len() ==> !((#[trigger] units[k]).len() > 0 && units[k][0] & 0x1f == t),
    ensures
        first_of_type(units, t, i) == units.len(),
    decreases units.len() - i,
{
    if i < units.len() {
        assert(!(units[i].len() > 0 && units[i][0] & 0x1f == t));
        lemma_none_of_type(units, t, i + 1);
    }
}

/// If the driver does what it is asked, decoding the stream that
/// a decoder was made from creates a surface, renders, reads back planes of the
/// size that the decoder expects, and ends with the frame they hold.
pub proof fn law_decode_succeeds_with_the_driver(
    annex_b: Seq<u8>,
    p: H264Parameters,
    planes: crate::frame::Nv12Planes,
    first: DecodeAction<VdpPictureInfoH264>,
    second: DecodeAction<VdpPictureInfoH264>,
    third: DecodeAction<VdpPictureInfoH264>,
    last: DecodeAction<VdpPictureInfoH264>,
)
    requires
        parameters_of(crate::annexb::units(annex_b)) == Ok::<H264Parameters, Failure>(p),
        decode_step(p, annex_b, DecodeEvent::Started, first),
        decode_step(p, annex_b, DecodeEvent::SurfaceCreated(Ok(())), second),
        decode_step(p, annex_b, DecodeEvent::Rendered(Ok(())), third),
        third matches DecodeAction::ReadBits { plane_lens, .. } ==> planes.y@.len()
            == plane_lens[0] && planes.uv@.len() == plane_lens[1],
        decode_step(p, annex_b, DecodeEvent::BitsRead(Ok(planes)), last),
    ensures
        (first matches DecodeAction::CreateSurface { chroma_type, width, height } && chroma_type == 0
            && width == p.width() && height == p.height()),
        second is Render,
        (third matches DecodeAction::ReadBits { format, plane_lens, pitches } && format == 0
            && pitches[0] == p.width() && pitches[1] == p.width() - p.width() % 2),
        planes.fits(p.width(), p.height()),
        last matches DecodeAction::Finish(Ok(frame)) && frame.shows(planes, p.width(), p.height()),
        (last matches DecodeAction::Finish(Ok(frame)) && frame.width == p.width() && frame.height == p.height()
            && frame.y@ == planes.y@ && forall|i: int|
            0 <= i < frame.u@.len() ==> #[trigger] frame.u@[i] == planes.uv@[2 * i]),
        (last matches DecodeAction::Finish(Ok(frame)) && forall|i: int|
            0 <= i < frame.v@.len() ==> #[trigger] frame.v@[i] == planes.uv@[2 * i + 1]),
{
}

/// The decode ends with a frame only when the surface was read back, and the
/// frame is what was read. An error of the driver ends it with that error.
pub proof fn law_decode_outcome(
    p: H264Parameters,
    annex_b: Seq<u8>,
    event: DecodeEvent,
    action: DecodeAction<VdpPictureInfoH264>,
)
    requires
        decode_step(p, annex_b, event, action),
    ensures
        action matches DecodeAction::Finish(Ok(frame)) ==> event matches DecodeEvent::BitsRead(
            Ok(planes),
        ) && frame.shows(planes, p.width(), p.height()),
        event matches DecodeEvent::SurfaceCreated(Err(e)) ==> action.fails(e@),
        event matches DecodeEvent::Rendered(Err(e)) ==> action.fails(e@),
        event matches DecodeEvent::BitsRead(Err(e)) ==> action.fails(e@),
{
}

} // verus!
