//! HEVC parameter sets and decode steps.

use oxideav_vdpau::bits::BitReader;
use oxideav_vdpau::engine::{engine_info, DeviceReport, HwDeviceInfo};
use oxideav_vdpau::frame::{DecodeAction, DecodeEvent, Nv12Planes};
use oxideav_vdpau::hevc::{
    is_idr, is_rap, locate_idr_start, nal_type, parse_pps, parse_profile_tier_level, parse_sps,
    parse_vps, skip_scaling_list_data, skip_st_ref_pic_set, NAL_IDR_N_LP, NAL_PPS_NUT, NAL_SPS_NUT,
    NAL_VPS_NUT,
};
use oxideav_vdpau::sys::{
    VDP_CHROMA_TYPE_420, VDP_DECODER_PROFILE_HEVC_MAIN, VDP_INVALID_HANDLE,
};
use oxideav_vdpau::{DecodedFrame, HevcVdpauDecoder, VdpError};

/// A bit stream under construction.
struct Bits(Vec<u8>);

impl Bits {
    fn new() -> Bits {
        Bits(Vec::new())
    }

    fn u(mut self, n: u32, v: u32) -> Bits {
        for i in (0..n).rev() {
            self.0.push(((v >> i) & 1) as u8);
        }
        self
    }

    fn ue(self, v: u32) -> Bits {
        let n = 31 - (v + 1).leading_zeros();
        self.u(n, 0).u(n + 1, v + 1)
    }

    fn se(self, k: i32) -> Bits {
        if k > 0 {
            self.ue(2 * k as u32 - 1)
        } else {
            self.ue(2 * k.unsigned_abs())
        }
    }

    /// The bits as bytes, the last one filled up with zeros.
    fn bytes(self) -> Vec<u8> {
        let mut out = Vec::new();
        for chunk in self.0.chunks(8) {
            let mut byte = 0u8;
            for (i, b) in chunk.iter().enumerate() {
                byte |= b << (7 - i);
            }
            out.push(byte);
        }
        out
    }
}

/// A NAL unit: header, payload with emulation-prevention bytes.
fn nal(header: &[u8], payload: Bits) -> Vec<u8> {
    let mut out = header.to_vec();
    let mut zeros = 0;
    for b in payload.u(1, 1).bytes() {
        if zeros >= 2 && b <= 3 {
            out.push(3);
            zeros = 0;
        }
        out.push(b);
        zeros = if b == 0 { zeros + 1 } else { 0 };
    }
    out
}

/// The units behind four-byte start codes.
fn stream(units: &[Vec<u8>]) -> Vec<u8> {
    let mut out = Vec::new();
    for unit in units {
        out.extend_from_slice(&[0, 0, 0, 1]);
        out.extend_from_slice(unit);
    }
    out
}

/// The devices of a host with one VDPAU device.
fn one_device() -> Vec<HwDeviceInfo> {
    engine_info(Some(DeviceReport {
        information_string: Ok("Driver 1.0".to_string()),
        api_version: Ok(1),
        codecs: Vec::new(),
    }))
}

impl Bits {
    /// General profile, tier and level without sub-layers.
    fn profile_tier_level(self) -> Bits {
        self.u(8, 1).u(32, 0x6000_0000).u(16, 0x9000).u(32, 0).u(8, 60)
    }
}

fn vps_unit() -> Vec<u8> {
    let payload = Bits::new()
        .u(4, 5)
        .u(2, 3)
        .u(6, 9)
        .u(3, 0)
        .u(1, 1)
        .u(16, 0xffff)
        .profile_tier_level()
        .u(1, 1)
        .ue(4)
        .ue(2)
        .ue(0);
    nal(&[0x40, 0x01], payload)
}

/// The sequence parameter set of 320x240, up to the coding tool flags.
fn sps_head() -> Bits {
    Bits::new()
        .u(4, 0)
        .u(3, 0)
        .u(1, 1)
        .profile_tier_level()
        .ue(0) // id
        .ue(1) // 4:2:0
        .ue(320)
        .ue(240)
        .u(1, 1) // conformance window
        .ue(1)
        .ue(2)
        .ue(3)
        .ue(4)
        .ue(0)
        .ue(0)
        .ue(4)
        .u(1, 1)
        .ue(4)
        .ue(2)
        .ue(5)
        .ue(0)
        .ue(3)
        .ue(0)
        .ue(3)
        .ue(1)
        .ue(2)
}

fn sps_unit() -> Vec<u8> {
    let payload = sps_head()
        .u(1, 0) // no scaling lists
        .u(1, 1)
        .u(1, 1)
        .u(1, 0) // no PCM
        .ue(2) // reference picture sets
        // Set 0: one negative, one positive picture.
        .ue(1)
        .ue(1)
        .ue(0)
        .u(1, 1)
        .ue(3)
        .u(1, 0)
        // Set 1: predicted from set 0, three flags.
        .u(1, 1)
        .u(1, 0)
        .ue(0)
        .u(1, 1)
        .u(1, 0)
        .u(1, 1)
        .u(1, 1)
        // Long-term pictures: two, of 8 and 1 bits.
        .u(1, 1)
        .ue(2)
        .u(9, 0x155)
        .u(9, 0x0aa)
        .u(1, 1)
        .u(1, 1);
    nal(&[0x42, 0x01], payload)
}

fn pps_unit() -> Vec<u8> {
    let payload = Bits::new()
        .ue(0)
        .ue(0)
        .u(1, 0)
        .u(1, 1)
        .u(3, 5)
        .u(1, 1)
        .u(1, 0)
        .ue(1)
        .ue(2)
        .se(-4)
        .u(1, 0)
        .u(1, 1)
        .u(1, 1)
        .ue(1)
        .se(3)
        .se(-3)
        .u(1, 1)
        .u(1, 0)
        .u(1, 1)
        .u(1, 0)
        .u(1, 0) // no tiles
        .u(1, 1)
        .u(1, 1)
        .u(1, 1) // deblocking control
        .u(1, 1)
        .u(1, 0)
        .se(2)
        .se(-2)
        .u(1, 0) // no scaling lists
        .u(1, 1)
        .ue(2)
        .u(1, 1);
    nal(&[0x44, 0x01], payload)
}

fn idr_unit() -> Vec<u8> {
    vec![0x26, 0x01, 0xaf, 0x11, 0x22]
}

fn fixture() -> Vec<u8> {
    stream(&[vps_unit(), sps_unit(), pps_unit(), idr_unit()])
}

fn message<T>(r: Result<T, VdpError>) -> String {
    match r {
        Ok(_) => panic!("expected an error"),
        Err(e) => {
            assert_eq!(e.status, 0);
            e.message
        }
    }
}

#[test]
fn nal_type_decodes_correctly() {
    // NAL header byte 0x40 = 0100 0000 -> type=(0x40>>1)&0x3f = 32 (VPS)
    assert_eq!(nal_type(&[0x40, 0x01]), NAL_VPS_NUT);
    // 0x42 -> 0100 0010 -> 33 SPS
    assert_eq!(nal_type(&[0x42, 0x01]), NAL_SPS_NUT);
    // 0x44 -> 0100 0100 -> 34 PPS
    assert_eq!(nal_type(&[0x44, 0x01]), NAL_PPS_NUT);
    // 0x28 -> 0010 1000 -> 20 IDR_N_LP
    assert_eq!(nal_type(&[0x28, 0x01]), NAL_IDR_N_LP);
}

#[test]
fn empty_unit_has_no_type() {
    assert_eq!(nal_type(&[]), 0xff);
}

#[test]
fn idr_types_are_random_access_types() {
    let idr: Vec<u8> = (0..=255).filter(|t| is_idr(*t)).collect();
    assert_eq!(idr, vec![19, 20]);
    let rap: Vec<u8> = (0..=255).filter(|t| is_rap(*t)).collect();
    assert_eq!(rap, (16..=23).collect::<Vec<u8>>());
}

#[test]
fn hevc_vdpau_decoder_parses_fixture_and_creates_decoder() {
    let d = match HevcVdpauDecoder::new(&fixture()) {
        Ok(d) => d,
        Err(e) => panic!("HevcVdpauDecoder::new on a 320x240 Main-profile IDR: {e:?}"),
    };
    assert_eq!(d.width(), 320);
    assert_eq!(d.height(), 240);
    let request = d.decoder_request();
    assert_eq!(request.profile, VDP_DECODER_PROFILE_HEVC_MAIN);
    assert_eq!((request.width, request.height), (320, 240));
    assert_eq!(request.max_references, 5);
}

#[test]
fn hevc_with_params_checks_the_device_first() {
    assert!(HevcVdpauDecoder::with_params(None, &one_device(), &fixture()).is_ok());
    assert!(HevcVdpauDecoder::with_params(Some(0), &one_device(), &fixture()).is_ok());
    assert_eq!(
        message(HevcVdpauDecoder::with_params(Some(1), &one_device(), &[])),
        "vdpau: device_index 1 out of range (0..1)"
    );
    assert_eq!(
        message(HevcVdpauDecoder::with_params(None, &one_device(), &[])),
        "HEVC fixture has no VPS NAL"
    );
}

#[test]
fn hevc_vps_fields() {
    let vps = parse_vps(&vps_unit()).unwrap();
    assert_eq!(vps.vps_id, 5);
    assert_eq!(vps.max_layers_minus1, 9);
    assert_eq!(vps.max_sub_layers_minus1, 0);
    assert_eq!(vps.vps_max_dec_pic_buffering_minus1, 4);
    assert_eq!(message(parse_vps(&[0x40])), "parse_vps: NAL too short");
    assert_eq!(
        message(parse_vps(&[0x42, 0x01])),
        "parse_vps: not a VPS NAL (type=33)"
    );
}

#[test]
fn hevc_vps_with_sub_layers() {
    // Three sub-layers: the first with a profile, the second with a level.
    let head = Bits::new()
        .u(4, 0)
        .u(2, 3)
        .u(6, 0)
        .u(3, 2)
        .u(1, 1)
        .u(16, 0xffff)
        .profile_tier_level()
        .u(2, 0b10)
        .u(2, 0b01)
        .u(12, 0)
        .u(32, 7)
        .u(32, 7)
        .u(24, 7)
        .u(8, 93);
    // Ordering information for every sub-layer: the last one counts.
    let every = nal(
        &[0x40, 0x01],
        Bits(head.0.clone())
            .u(1, 1)
            .ue(1)
            .ue(0)
            .ue(0)
            .ue(2)
            .ue(0)
            .ue(0)
            .ue(6)
            .ue(0)
            .ue(0),
    );
    assert_eq!(
        parse_vps(&every).unwrap().vps_max_dec_pic_buffering_minus1,
        6
    );
    // Or for the last one alone.
    let last = nal(&[0x40, 0x01], head.u(1, 0).ue(3).ue(0).ue(0));
    let vps = parse_vps(&last).unwrap();
    assert_eq!(vps.max_sub_layers_minus1, 2);
    assert_eq!(vps.vps_max_dec_pic_buffering_minus1, 3);
}

#[test]
fn profile_tier_level_takes_its_bits() {
    let zeros = [0u8; 64];
    let mut r = BitReader::new(&zeros);
    parse_profile_tier_level(&mut r, 0);
    assert_eq!(r.bit_offset(), 96);
    let mut r = BitReader::new(&zeros);
    parse_profile_tier_level(&mut r, 3);
    assert_eq!(r.bit_offset(), 96 + 16);
    let ones = [0xffu8; 128];
    let mut r = BitReader::new(&ones);
    parse_profile_tier_level(&mut r, 7);
    assert_eq!(r.bit_offset(), 96 + 16 + 7 * 96);
}

#[test]
fn scaling_list_data_takes_its_bits() {
    // All ones: no list is predicted, every number takes one bit.
    let ones = [0xffu8; 256];
    let mut r = BitReader::new(&ones);
    skip_scaling_list_data(&mut r);
    let expected = 6 * (1 + 16) + 6 * (1 + 64) + 6 * (1 + 1 + 64) + 2 * (1 + 1 + 64);
    assert_eq!(r.bit_offset(), expected);
    // Prediction flag 0 and a one-bit reference, twenty times.
    let pairs = [0b0101_0101u8; 16];
    let mut r = BitReader::new(&pairs);
    skip_scaling_list_data(&mut r);
    assert_eq!(r.bit_offset(), 40);
}

#[test]
fn reference_picture_set_counts() {
    // Explicit: two negative, one positive picture.
    let bytes = Bits::new()
        .ue(2)
        .ue(1)
        .ue(0)
        .u(1, 1)
        .ue(0)
        .u(1, 1)
        .ue(4)
        .u(1, 0)
        .bytes();
    let mut r = BitReader::new(&bytes);
    assert_eq!(skip_st_ref_pic_set(&mut r, 0, 3, 0).unwrap(), 3);
    assert_eq!(r.bit_offset(), 3 + 3 + 2 + 2 + 6);
    // Predicted: the count of the set before, and one flag more than that;
    // a zero flag is followed by another.
    let bytes = Bits::new().u(1, 1).u(1, 1).ue(0).u(6, 0b101101).bytes();
    let mut r = BitReader::new(&bytes);
    assert_eq!(skip_st_ref_pic_set(&mut r, 1, 3, 2).unwrap(), 2);
    assert_eq!(r.bit_offset(), 3 + 1 + 2 + 1);
    // In a slice header the reference is coded, and may point too far back.
    let bytes = Bits::new().u(1, 1).ue(1).u(1, 0).ue(0).bytes();
    let mut r = BitReader::new(&bytes);
    assert_eq!(
        message(skip_st_ref_pic_set(&mut r, 1, 1, 0)),
        "skip_st_ref_pic_set: negative RefRpsIdx"
    );
}

#[test]
fn hevc_sps_fields() {
    let sps = parse_sps(&sps_unit()).unwrap();
    assert_eq!(sps.chroma_format_idc, 1);
    assert_eq!(sps.separate_colour_plane_flag, 0);
    assert_eq!(sps.pic_width_in_luma_samples, 320);
    assert_eq!(sps.pic_height_in_luma_samples, 240);
    assert_eq!(sps.bit_depth_luma_minus8, 0);
    assert_eq!(sps.log2_max_pic_order_cnt_lsb_minus4, 4);
    assert_eq!(sps.sps_max_dec_pic_buffering_minus1, 4);
    assert_eq!(sps.log2_min_luma_coding_block_size_minus3, 0);
    assert_eq!(sps.log2_diff_max_min_luma_coding_block_size, 3);
    assert_eq!(sps.log2_min_transform_block_size_minus2, 0);
    assert_eq!(sps.log2_diff_max_min_transform_block_size, 3);
    assert_eq!(sps.max_transform_hierarchy_depth_inter, 1);
    assert_eq!(sps.max_transform_hierarchy_depth_intra, 2);
    assert_eq!(sps.scaling_list_enabled_flag, 0);
    assert_eq!(sps.amp_enabled_flag, 1);
    assert_eq!(sps.sample_adaptive_offset_enabled_flag, 1);
    assert_eq!(sps.pcm_enabled_flag, 0);
    assert_eq!(sps.num_short_term_ref_pic_sets, 2);
    assert_eq!(sps.long_term_ref_pics_present_flag, 1);
    assert_eq!(sps.num_long_term_ref_pics_sps, 2);
    assert_eq!(sps.sps_temporal_mvp_enabled_flag, 1);
    assert_eq!(sps.strong_intra_smoothing_enabled_flag, 1);
}

#[test]
fn hevc_sps_errors() {
    assert_eq!(message(parse_sps(&[0x42])), "parse_sps: NAL too short");
    assert_eq!(
        message(parse_sps(&[0x40, 0x01])),
        "parse_sps: not a SPS NAL (type=32)"
    );
    assert_eq!(
        message(parse_sps(&nal(&[0x42, 0x01], sps_head().u(1, 1)))),
        "parse_sps: scaling_list_enabled_flag=1 not supported by minimal parser"
    );
    assert_eq!(
        message(parse_sps(&nal(
            &[0x42, 0x01],
            sps_head().u(1, 0).u(2, 0).u(1, 1)
        ))),
        "parse_sps: pcm_enabled_flag=1 not supported by minimal parser"
    );
}

#[test]
fn hevc_pps_fields() {
    let pps = parse_pps(&pps_unit()).unwrap();
    assert_eq!(pps.dependent_slice_segments_enabled_flag, 0);
    assert_eq!(pps.output_flag_present_flag, 1);
    assert_eq!(pps.num_extra_slice_header_bits, 5);
    assert_eq!(pps.sign_data_hiding_enabled_flag, 1);
    assert_eq!(pps.cabac_init_present_flag, 0);
    assert_eq!(pps.num_ref_idx_l0_default_active_minus1, 1);
    assert_eq!(pps.num_ref_idx_l1_default_active_minus1, 2);
    assert_eq!(pps.init_qp_minus26, -4);
    assert_eq!(pps.transform_skip_enabled_flag, 1);
    assert_eq!(pps.cu_qp_delta_enabled_flag, 1);
    assert_eq!(pps.diff_cu_qp_delta_depth, 1);
    assert_eq!(pps.pps_cb_qp_offset, 3);
    assert_eq!(pps.pps_cr_qp_offset, -3);
    assert_eq!(pps.pps_slice_chroma_qp_offsets_present_flag, 1);
    assert_eq!(pps.weighted_pred_flag, 0);
    assert_eq!(pps.weighted_bipred_flag, 1);
    assert_eq!(pps.transquant_bypass_enabled_flag, 0);
    assert_eq!(pps.entropy_coding_sync_enabled_flag, 1);
    assert_eq!(pps.deblocking_filter_override_enabled_flag, 1);
    assert_eq!(pps.pps_deblocking_filter_disabled_flag, 0);
    assert_eq!(pps.pps_beta_offset_div2, 2);
    assert_eq!(pps.pps_tc_offset_div2, -2);
    assert_eq!(pps.lists_modification_present_flag, 1);
    assert_eq!(pps.log2_parallel_merge_level_minus2, 2);
    assert_eq!(pps.slice_segment_header_extension_present_flag, 1);
}

#[test]
fn hevc_pps_errors() {
    assert_eq!(message(parse_pps(&[])), "parse_pps: NAL too short");
    assert_eq!(
        message(parse_pps(&[0x42, 0x01])),
        "parse_pps: not a PPS NAL (type=33)"
    );
    let head = || {
        Bits::new()
            .ue(0)
            .ue(0)
            .u(7, 0)
            .ue(0)
            .ue(0)
            .se(0)
            .u(3, 0)
            .se(0)
            .se(0)
            .u(4, 0)
    };
    assert_eq!(
        message(parse_pps(&nal(&[0x44, 0x01], head().u(1, 1).u(1, 0)))),
        "parse_pps: tiles_enabled_flag=1 not supported by minimal parser"
    );
    assert_eq!(
        message(parse_pps(&nal(
            &[0x44, 0x01],
            head().u(2, 0).u(2, 0).u(1, 1)
        ))),
        "parse_pps: pps_scaling_list_data_present_flag=1 not supported by minimal parser"
    );
}

#[test]
fn idr_start_is_the_start_code() {
    assert_eq!(locate_idr_start(&[]), None);
    assert_eq!(locate_idr_start(&[0, 0, 1]), None);
    assert_eq!(locate_idr_start(&[0, 0, 0, 1]), None);
    assert_eq!(locate_idr_start(&[0, 0, 1, 0x26]), Some(0));
    assert_eq!(locate_idr_start(&[9, 0, 0, 0, 1, 0x28, 1]), Some(1));
    assert_eq!(locate_idr_start(&[0, 0, 1, 0x40, 0, 0, 1, 0x26]), Some(4));
    assert_eq!(locate_idr_start(&[0, 0, 1, 0x2a, 1]), None);
    // The header of one unit may be the first byte of the next start code.
    assert_eq!(locate_idr_start(&[0, 0, 1, 0, 0, 1, 0x26]), Some(3));
}

#[test]
fn hevc_decoder_needs_all_units() {
    let units = [vps_unit(), sps_unit(), pps_unit(), idr_unit()];
    let names = [
        "HEVC fixture has no VPS NAL",
        "HEVC fixture has no SPS NAL",
        "HEVC fixture has no PPS NAL",
        "HEVC fixture has no IDR slice NAL",
    ];
    for (missing, name) in names.iter().enumerate() {
        let rest: Vec<Vec<u8>> = units
            .iter()
            .enumerate()
            .filter(|(i, _)| *i != missing)
            .map(|(_, u)| u.clone())
            .collect();
        assert_eq!(message(HevcVdpauDecoder::new(&stream(&rest))), *name);
    }
    // Order does not matter, but every set has to parse.
    let reversed: Vec<Vec<u8>> = units.iter().rev().cloned().collect();
    assert!(HevcVdpauDecoder::new(&stream(&reversed)).is_ok());
    let broken = stream(&[vec![0x40], sps_unit(), pps_unit(), idr_unit()]);
    assert_eq!(
        message(HevcVdpauDecoder::new(&broken)),
        "parse_vps: NAL too short"
    );
}

#[test]
fn hevc_decode_goes_through_its_steps() {
    let annex_b = fixture();
    let d = HevcVdpauDecoder::new(&annex_b).unwrap();
    match d.decode_idr(&annex_b, DecodeEvent::Started) {
        DecodeAction::CreateSurface {
            chroma_type,
            width,
            height,
        } => {
            assert_eq!(chroma_type, VDP_CHROMA_TYPE_420);
            assert_eq!((width, height), (320, 240));
        }
        _ => panic!("expected a surface"),
    }
    match d.decode_idr(&annex_b, DecodeEvent::SurfaceCreated(Ok(()))) {
        DecodeAction::Render {
            picture_info,
            bitstream,
        } => {
            // The IDR unit is the last one, with its start code.
            let tail = idr_unit().len() + 4;
            assert_eq!(bitstream.offset, annex_b.len() - tail);
            assert_eq!(bitstream.bitstream_bytes as usize, tail);
            assert_eq!(picture_info.pic_width_in_luma_samples, 320);
            assert_eq!(picture_info.pic_height_in_luma_samples, 240);
            assert_eq!(picture_info.idr_pic_flag, 1);
            assert_eq!(picture_info.rap_pic_flag, 1);
            assert_eq!(picture_info.init_qp_minus26, -4);
            assert_eq!(picture_info.pps_cr_qp_offset, -3);
            assert_eq!(picture_info.num_short_term_ref_pic_sets, 2);
            assert_eq!(picture_info.sps_max_dec_pic_buffering_minus1, 4);
            assert_eq!(picture_info.scaling_list_4x4, [[16; 16]; 6]);
            assert_eq!(picture_info.scaling_list_32x32, [[16; 64]; 2]);
            assert_eq!(picture_info.scaling_list_dc_coeff_16x16, [16; 6]);
            assert_eq!(picture_info.ref_pics, [VDP_INVALID_HANDLE; 16]);
            assert_eq!(picture_info.curr_pic_order_cnt_val, 0);
        }
        _ => panic!("expected a rendering"),
    }
    match d.decode_idr(&annex_b, DecodeEvent::Rendered(Ok(()))) {
        DecodeAction::ReadBits { plane_lens, .. } => assert_eq!(plane_lens, [76800, 38400]),
        _ => panic!("expected a read-back"),
    }
    let planes = Nv12Planes {
        y: vec![7; 76800],
        uv: vec![8; 38400],
    };
    match d.decode_idr(&annex_b, DecodeEvent::BitsRead(Ok(planes))) {
        DecodeAction::Finish(Ok(frame)) => {
            assert_eq!(frame.y, vec![7; 76800]);
            assert_eq!(frame.u, vec![8; 19200]);
            assert_eq!(frame.v, vec![8; 19200]);
        }
        _ => panic!("expected a frame"),
    }
}

#[test]
fn hevc_decode_of_a_buffer_without_idr_fails() {
    let d = HevcVdpauDecoder::new(&fixture()).unwrap();
    match d.decode_idr(
        &stream(&[vps_unit()]),
        DecodeEvent::SurfaceCreated(Ok(())),
    ) {
        DecodeAction::Finish(Err(e)) => assert_eq!(e.message, "no IDR NAL start code found"),
        _ => panic!("expected an error"),
    }
    match d.decode_idr(
        &fixture(),
        DecodeEvent::Rendered(Err(VdpError::vdp(-1, "VdpDecoderRender"))),
    ) {
        DecodeAction::Finish(Err(e)) => assert_eq!(e.status, -1),
        _ => panic!("expected an error"),
    }
}

/// Run a decode on a driver that renders a gradient, with the chroma samples
/// numbered through.
fn decode(d: &HevcVdpauDecoder, stream: &[u8]) -> Result<DecodedFrame, VdpError> {
    let mut event = DecodeEvent::Started;
    loop {
        event = match d.decode_idr(stream, event) {
            DecodeAction::CreateSurface { .. } => DecodeEvent::SurfaceCreated(Ok(())),
            DecodeAction::Render { .. } => DecodeEvent::Rendered(Ok(())),
            DecodeAction::ReadBits {
                plane_lens,
                pitches,
                ..
            } => DecodeEvent::BitsRead(Ok(Nv12Planes {
                y: (0..plane_lens[0])
                    .map(|i| (i % pitches[0] as u64) as u8)
                    .collect(),
                uv: (0..plane_lens[1]).map(|i| i as u8).collect(),
            })),
            DecodeAction::Finish(result) => return result,
        };
    }
}

#[test]
fn hevc_idr_decode_yields_non_trivial_luma() {
    let stream = fixture();
    let d = HevcVdpauDecoder::new(&stream).unwrap();
    let frame = match decode(&d, &stream) {
        Ok(f) => f,
        Err(e) => panic!("HevcVdpauDecoder::decode_idr failed: {}", e.to_string()),
    };
    assert_eq!(frame.width, 320);
    assert_eq!(frame.height, 240);
    assert_eq!(frame.y.len(), 320 * 240);
    assert_eq!(frame.u.len(), 160 * 120);
    assert_eq!(frame.v.len(), 160 * 120);
    // Cb and Cr samples take turns in what was read back.
    assert_eq!(frame.u[..4], [0, 2, 4, 6]);
    assert_eq!(frame.v[..4], [1, 3, 5, 7]);

    let mut seen = [false; 256];
    let (mut lo, mut hi) = (255u8, 0u8);
    for &v in &frame.y {
        seen[v as usize] = true;
        if v < lo {
            lo = v;
        }
        if v > hi {
            hi = v;
        }
    }
    let unique = seen.iter().filter(|b| **b).count();
    assert!(
        unique >= 16,
        "luma should span at least 16 distinct values, got {unique}"
    );
    assert!(
        hi as u32 - lo as u32 >= 64,
        "luma range too narrow: [{lo},{hi}]"
    );
}
