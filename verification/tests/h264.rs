//! H.264 parameter sets and decode steps.

use oxideav_vdpau::engine::{engine_info, DeviceReport, HwDeviceInfo};
use oxideav_vdpau::frame::{DecodeAction, DecodeEvent, Nv12Planes};
use oxideav_vdpau::h264::{parse_pps, parse_sps};
use oxideav_vdpau::sys::{
    VDP_CHROMA_TYPE_420, VDP_DECODER_PROFILE_H264_HIGH, VDP_INVALID_HANDLE, VDP_YCBCR_FORMAT_NV12,
};
use oxideav_vdpau::{DecodedFrame, H264VdpauDecoder, VdpError};

/// A bit stream under construction.
struct Bits(Vec<u8>);

impl Bits {
    fn new() -> Bits {
        Bits(Vec::new())
    }

    fn u(mut self, n: u32, v: u32) -> Bits {
        for i in (0..n).rev() {
            self.0.push(((v >> i) & 1) as u8);
        }
        self
    }

    fn ue(self, v: u32) -> Bits {
        let n = 31 - (v + 1).leading_zeros();
        self.u(n, 0).u(n + 1, v + 1)
    }

    fn se(self, k: i32) -> Bits {
        if k > 0 {
            self.ue(2 * k as u32 - 1)
        } else {
            self.ue(2 * k.unsigned_abs())
        }
    }

    /// The bits as bytes, the last one filled up with zeros.
    fn bytes(self) -> Vec<u8> {
        let mut out = Vec::new();
        for chunk in self.0.chunks(8) {
            let mut byte = 0u8;
            for (i, b) in chunk.iter().enumerate() {
                byte |= b << (7 - i);
            }
            out.push(byte);
        }
        out
    }
}

/// A NAL unit: header, payload with emulation-prevention bytes.
fn nal(header: &[u8], payload: Bits) -> Vec<u8> {
    let mut out = header.to_vec();
    let mut zeros = 0;
    for b in payload.u(1, 1).bytes() {
        if zeros >= 2 && b <= 3 {
            out.push(3);
            zeros = 0;
        }
        out.push(b);
        zeros = if b == 0 { zeros + 1 } else { 0 };
    }
    out
}

/// The units behind four-byte start codes.
fn stream(units: &[Vec<u8>]) -> Vec<u8> {
    let mut out = Vec::new();
    for unit in units {
        out.extend_from_slice(&[0, 0, 0, 1]);
        out.extend_from_slice(unit);
    }
    out
}

/// The devices of a host with one VDPAU device.
fn one_device() -> Vec<HwDeviceInfo> {
    engine_info(Some(DeviceReport {
        information_string: Ok("Driver 1.0".to_string()),
        api_version: Ok(1),
        codecs: Vec::new(),
    }))
}

/// A High-profile sequence parameter set of 320x240.
fn high_sps() -> Vec<u8> {
    let payload = Bits::new()
        .u(8, 100)
        .u(8, 0)
        .u(8, 30)
        .ue(0) // id
        .ue(1) // 4:2:0
        .ue(0)
        .ue(0)
        .u(1, 0)
        .u(1, 0) // no scaling matrix
        .ue(4) // frame num
        .ue(0) // picture order count type
        .ue(2)
        .ue(4) // reference frames
        .u(1, 0)
        .ue(19)
        .ue(14)
        .u(1, 1) // frames only
        .u(1, 1);
    nal(&[0x67], payload)
}

/// A picture parameter set with the High-profile extension.
fn high_pps() -> Vec<u8> {
    let payload = Bits::new()
        .ue(0)
        .ue(0)
        .u(1, 1)
        .u(1, 0)
        .ue(0) // no slice groups
        .ue(2)
        .ue(0)
        .u(1, 1)
        .u(2, 2)
        .se(-3)
        .se(0)
        .se(-2)
        .u(1, 1)
        .u(1, 0)
        .u(1, 0)
        .u(1, 1) // 8x8 transform
        .u(1, 0)
        .se(5);
    nal(&[0x68], payload)
}

fn idr() -> Vec<u8> {
    vec![0x65, 0x88, 0x84, 0x21]
}

fn fixture() -> Vec<u8> {
    stream(&[high_sps(), high_pps(), idr()])
}

fn message<T>(r: Result<T, VdpError>) -> String {
    match r {
        Ok(_) => panic!("expected an error"),
        Err(e) => {
            assert_eq!(e.status, 0);
            e.message
        }
    }
}

#[test]
fn h264_vdpau_decoder_parses_fixture_and_creates_decoder() {
    let d = match H264VdpauDecoder::new(&fixture()) {
        Ok(d) => d,
        Err(e) => panic!("H264VdpauDecoder::new on a 320x240 High-profile IDR: {e:?}"),
    };
    assert_eq!(d.width(), 320);
    assert_eq!(d.height(), 240);
    let request = d.decoder_request();
    assert_eq!(request.profile, VDP_DECODER_PROFILE_H264_HIGH);
    assert_eq!(request.width, 320);
    assert_eq!(request.height, 240);
    assert_eq!(request.max_references, 4);
}

#[test]
fn h264_with_params_default_device_ok() {
    let devs = one_device();
    let annex_b = fixture();
    // device_index=None → default device (index 0). Should construct.
    if let Err(e) = H264VdpauDecoder::with_params(None, &devs, &annex_b) {
        panic!("with_params(default) should construct: {}", e.to_string());
    }
    // device_index=Some(0) → explicitly the only valid device. Should also
    // construct.
    if let Err(e) = H264VdpauDecoder::with_params(Some(0), &devs, &annex_b) {
        panic!(
            "with_params(device_index=Some(0)) should construct: {}",
            e.to_string()
        );
    }
}

#[test]
fn h264_with_params_out_of_range_errors() {
    // The validator runs *before* any bitstream parsing — empty buffer is fine
    // here, the function should fail on the index check first.
    match H264VdpauDecoder::with_params(Some(7), &one_device(), &[]) {
        Ok(_) => panic!("device_index=7 should be rejected"),
        Err(e) => {
            let msg = e.to_string();
            assert!(
                msg.contains("out of range"),
                "error message mentions out-of-range: got {msg:?}"
            );
        }
    }
}

#[test]
fn h264_with_params_without_a_device_errors() {
    assert_eq!(
        message(H264VdpauDecoder::with_params(None, &Vec::new(), &fixture())),
        "no VDPAU device available"
    );
}

#[test]
fn h264_sps_fields() {
    let sps = parse_sps(&high_sps()).unwrap();
    assert_eq!(sps.profile_idc, 100);
    assert_eq!(sps.constraint_flags, 0);
    assert_eq!(sps.level_idc, 30);
    assert_eq!(sps.chroma_format_idc, 1);
    assert_eq!(sps.log2_max_frame_num_minus4, 4);
    assert_eq!(sps.pic_order_cnt_type, 0);
    assert_eq!(sps.log2_max_pic_order_cnt_lsb_minus4, 2);
    assert_eq!(sps.max_num_ref_frames, 4);
    assert_eq!(sps.pic_width_in_mbs_minus1, 19);
    assert_eq!(sps.pic_height_in_map_units_minus1, 14);
    assert_eq!(sps.frame_mbs_only_flag, 1);
    assert_eq!(sps.mb_adaptive_frame_field_flag, 0);
    assert_eq!(sps.direct_8x8_inference_flag, 1);
}

#[test]
fn h264_sps_of_field_coded_baseline_with_order_cycle() {
    // Profile 66 has no extension; order count type 1 lists offsets; field
    // coding doubles the height.
    let payload = Bits::new()
        .u(8, 66)
        .u(8, 0xc0)
        .u(8, 20)
        .ue(3)
        .ue(0)
        .ue(1)
        .u(1, 1)
        .se(-4)
        .se(7)
        .ue(2)
        .se(1)
        .se(-1)
        .ue(0) // no reference frames
        .u(1, 1)
        .ue(10)
        .ue(4)
        .u(1, 0) // fields
        .u(1, 1) // adaptive
        .u(1, 1);
    let unit = nal(&[0x27], payload);
    let sps = parse_sps(&unit).unwrap();
    assert_eq!(sps.profile_idc, 66);
    assert_eq!(sps.constraint_flags, 0xc0);
    assert_eq!(sps.seq_parameter_set_id, 3);
    assert_eq!(sps.chroma_format_idc, 1);
    assert_eq!(sps.pic_order_cnt_type, 1);
    assert_eq!(sps.log2_max_pic_order_cnt_lsb_minus4, 0);
    assert_eq!(sps.delta_pic_order_always_zero_flag, 1);
    assert_eq!(sps.gaps_in_frame_num_value_allowed_flag, 1);
    assert_eq!(sps.frame_mbs_only_flag, 0);
    assert_eq!(sps.mb_adaptive_frame_field_flag, 1);
    assert_eq!(sps.direct_8x8_inference_flag, 1);
    let d = H264VdpauDecoder::new(&stream(&[unit, high_pps()])).unwrap();
    assert_eq!(d.width(), 176);
    assert_eq!(d.height(), 160);
    // At least one reference is asked for.
    assert_eq!(d.decoder_request().max_references, 1);
}

#[test]
fn h264_sps_with_separate_planes_flag() {
    // Chroma format 3 is followed by one more flag.
    let payload = Bits::new()
        .u(8, 244)
        .u(8, 0)
        .u(8, 30)
        .ue(0)
        .ue(3)
        .u(1, 1)
        .ue(2)
        .ue(1)
        .u(1, 0)
        .u(1, 0)
        .ue(0)
        .ue(2)
        .ue(1)
        .u(1, 0)
        .ue(0)
        .ue(0)
        .u(1, 1)
        .u(1, 0);
    let sps = parse_sps(&nal(&[0x67], payload)).unwrap();
    assert_eq!(sps.chroma_format_idc, 3);
    assert_eq!(sps.bit_depth_luma_minus8, 2);
    assert_eq!(sps.bit_depth_chroma_minus8, 1);
    assert_eq!(sps.pic_order_cnt_type, 2);
    assert_eq!(sps.max_num_ref_frames, 1);
    assert_eq!(sps.frame_mbs_only_flag, 1);
}

#[test]
fn h264_sps_errors() {
    assert_eq!(message(parse_sps(&[])), "parse_sps: empty NAL");
    assert_eq!(
        message(parse_sps(&[0x68, 1, 2, 3])),
        "parse_sps: not a SPS NAL (type=8)"
    );
    assert_eq!(
        message(parse_sps(&[0x67, 1, 2])),
        "parse_sps: SPS shorter than 3 bytes"
    );
    let payload = Bits::new()
        .u(8, 100)
        .u(16, 30)
        .ue(0)
        .ue(1)
        .ue(0)
        .ue(0)
        .u(1, 0)
        .u(1, 1);
    assert_eq!(
        message(parse_sps(&nal(&[0x67], payload))),
        "parse_sps: seq_scaling_matrix_present_flag=1 not supported by minimal parser"
    );
}

#[test]
fn h264_pps_with_extension() {
    let pps = parse_pps(&high_pps()).unwrap();
    assert_eq!(pps.entropy_coding_mode_flag, 1);
    assert_eq!(pps.pic_order_present_flag, 0);
    assert_eq!(pps.num_slice_groups_minus1, 0);
    assert_eq!(pps.num_ref_idx_l0_active_minus1, 2);
    assert_eq!(pps.num_ref_idx_l1_active_minus1, 0);
    assert_eq!(pps.weighted_pred_flag, 1);
    assert_eq!(pps.weighted_bipred_idc, 2);
    assert_eq!(pps.pic_init_qp_minus26, -3);
    assert_eq!(pps.pic_init_qs_minus26, 0);
    assert_eq!(pps.chroma_qp_index_offset, -2);
    assert_eq!(pps.deblocking_filter_control_present_flag, 1);
    assert_eq!(pps.transform_8x8_mode_flag, 1);
    assert_eq!(pps.second_chroma_qp_index_offset, 5);
}

#[test]
fn h264_pps_without_extension_copies_the_chroma_offset() {
    let payload = Bits::new()
        .ue(0)
        .ue(0)
        .u(2, 0)
        .ue(0)
        .ue(0)
        .ue(0)
        .u(3, 0)
        .se(0)
        .se(0)
        .se(-7)
        .u(3, 0);
    let pps = parse_pps(&nal(&[0x68], payload)).unwrap();
    assert_eq!(pps.chroma_qp_index_offset, -7);
    assert_eq!(pps.second_chroma_qp_index_offset, -7);
    assert_eq!(pps.transform_8x8_mode_flag, 0);
}

#[test]
fn h264_pps_errors() {
    assert_eq!(message(parse_pps(&[])), "parse_pps: empty NAL");
    assert_eq!(
        message(parse_pps(&[0x67])),
        "parse_pps: not a PPS NAL (type=7)"
    );
    let groups = Bits::new().ue(0).ue(0).u(2, 0).ue(1);
    assert_eq!(
        message(parse_pps(&nal(&[0x68], groups))),
        "parse_pps: num_slice_groups_minus1>0 (FMO) not supported by minimal parser"
    );
    let matrix = Bits::new()
        .ue(0)
        .ue(0)
        .u(2, 0)
        .ue(0)
        .ue(0)
        .ue(0)
        .u(3, 0)
        .se(0)
        .se(0)
        .se(0)
        .u(3, 0)
        .u(1, 0)
        .u(1, 1)
        .se(0);
    assert_eq!(
        message(parse_pps(&nal(&[0x68], matrix))),
        "parse_pps: pic_scaling_matrix_present_flag=1 not supported by minimal parser"
    );
}

#[test]
fn h264_decoder_needs_both_parameter_sets() {
    assert_eq!(
        message(H264VdpauDecoder::new(&[])),
        "H.264 fixture has no SPS NAL"
    );
    assert_eq!(
        message(H264VdpauDecoder::new(&stream(&[high_pps()]))),
        "H.264 fixture has no SPS NAL"
    );
    assert_eq!(
        message(H264VdpauDecoder::new(&stream(&[high_sps(), idr()]))),
        "H.264 fixture has no PPS NAL"
    );
    // A parameter set that is refused refuses the stream.
    assert_eq!(
        message(H264VdpauDecoder::new(&stream(&[vec![0x67], high_pps()]))),
        "parse_sps: SPS shorter than 3 bytes"
    );
}

#[test]
fn h264_decode_goes_through_its_steps() {
    let annex_b = fixture();
    let d = H264VdpauDecoder::new(&annex_b).unwrap();
    match d.decode_idr(&annex_b, DecodeEvent::Started) {
        DecodeAction::CreateSurface {
            chroma_type,
            width,
            height,
        } => {
            assert_eq!(chroma_type, VDP_CHROMA_TYPE_420);
            assert_eq!((width, height), (320, 240));
        }
        _ => panic!("expected a surface"),
    }
    match d.decode_idr(&annex_b, DecodeEvent::SurfaceCreated(Ok(()))) {
        DecodeAction::Render {
            picture_info,
            bitstream,
        } => {
            assert_eq!(bitstream.struct_version, 0);
            assert_eq!(bitstream.offset, 0);
            assert_eq!(bitstream.bitstream_bytes as usize, annex_b.len());
            assert_eq!(picture_info.slice_count, 1);
            assert_eq!(picture_info.is_reference, 1);
            assert_eq!(picture_info.num_ref_frames, 4);
            assert_eq!(picture_info.frame_mbs_only_flag, 1);
            assert_eq!(picture_info.transform_8x8_mode_flag, 1);
            assert_eq!(picture_info.chroma_qp_index_offset, -2);
            assert_eq!(picture_info.second_chroma_qp_index_offset, 5);
            assert_eq!(picture_info.pic_init_qp_minus26, -3);
            assert_eq!(picture_info.log2_max_frame_num_minus4, 4);
            assert_eq!(picture_info.log2_max_pic_order_cnt_lsb_minus4, 2);
            assert_eq!(picture_info.weighted_bipred_idc, 2);
            assert_eq!(picture_info.scaling_lists_4x4, [[16; 16]; 6]);
            assert_eq!(picture_info.scaling_lists_8x8, [[16; 64]; 2]);
            for reference in picture_info.reference_frames {
                assert_eq!(reference.surface, VDP_INVALID_HANDLE);
            }
        }
        _ => panic!("expected a rendering"),
    }
    match d.decode_idr(&annex_b, DecodeEvent::Rendered(Ok(()))) {
        DecodeAction::ReadBits {
            format,
            plane_lens,
            pitches,
        } => {
            assert_eq!(format, VDP_YCBCR_FORMAT_NV12);
            assert_eq!(plane_lens, [76800, 38400]);
            assert_eq!(pitches, [320, 320]);
        }
        _ => panic!("expected a read-back"),
    }
    let planes = Nv12Planes {
        y: (0..76800).map(|i| (i % 251) as u8).collect(),
        uv: (0..38400).map(|i| (i % 2) as u8).collect(),
    };
    let y = planes.y.clone();
    match d.decode_idr(&annex_b, DecodeEvent::BitsRead(Ok(planes))) {
        DecodeAction::Finish(Ok(frame)) => {
            assert_eq!((frame.width, frame.height), (320, 240));
            assert_eq!(frame.y, y);
            assert_eq!(frame.u, vec![0; 19200]);
            assert_eq!(frame.v, vec![1; 19200]);
        }
        _ => panic!("expected a frame"),
    }
}

#[test]
fn h264_decode_passes_driver_errors_on() {
    let annex_b = fixture();
    let d = H264VdpauDecoder::new(&annex_b).unwrap();
    for event in [
        DecodeEvent::SurfaceCreated(Err(VdpError::vdp(23, "VdpVideoSurfaceCreate"))),
        DecodeEvent::Rendered(Err(VdpError::vdp(23, "VdpVideoSurfaceCreate"))),
        DecodeEvent::BitsRead(Err(VdpError::vdp(23, "VdpVideoSurfaceCreate"))),
    ] {
        match d.decode_idr(&annex_b, event) {
            DecodeAction::Finish(Err(e)) => {
                assert_eq!(e.status, 23);
                assert_eq!(e.message, "VdpVideoSurfaceCreate: VdpStatus=23");
            }
            _ => panic!("expected the error"),
        }
    }
}

/// Run a decode on a driver that renders a gradient, with the chroma samples
/// numbered through.
fn decode(d: &H264VdpauDecoder, stream: &[u8]) -> Result<DecodedFrame, VdpError> {
    let mut event = DecodeEvent::Started;
    loop {
        event = match d.decode_idr(stream, event) {
            DecodeAction::CreateSurface { .. } => DecodeEvent::SurfaceCreated(Ok(())),
            DecodeAction::Render { .. } => DecodeEvent::Rendered(Ok(())),
            DecodeAction::ReadBits {
                plane_lens,
                pitches,
                ..
            } => DecodeEvent::BitsRead(Ok(Nv12Planes {
                y: (0..plane_lens[0])
                    .map(|i| (i % pitches[0] as u64) as u8)
                    .collect(),
                uv: (0..plane_lens[1]).map(|i| i as u8).collect(),
            })),
            DecodeAction::Finish(result) => return result,
        };
    }
}

#[test]
fn h264_idr_decode_yields_non_trivial_luma() {
    let stream = fixture();
    let d = H264VdpauDecoder::new(&stream).unwrap();
    let frame = match decode(&d, &stream) {
        Ok(f) => f,
        Err(e) => panic!("H264VdpauDecoder::decode_idr failed: {}", e.to_string()),
    };
    assert_eq!(frame.width, 320);
    assert_eq!(frame.height, 240);
    assert_eq!(frame.y.len(), 320 * 240);
    assert_eq!(frame.u.len(), 160 * 120);
    assert_eq!(frame.v.len(), 160 * 120);
    // Cb and Cr samples take turns in what was read back.
    assert_eq!(frame.u[..4], [0, 2, 4, 6]);
    assert_eq!(frame.v[..4], [1, 3, 5, 7]);

    let mut seen = [false; 256];
    let (mut lo, mut hi) = (255u8, 0u8);
    for &v in &frame.y {
        seen[v as usize] = true;
        if v < lo {
            lo = v;
        }
        if v > hi {
            hi = v;
        }
    }
    let unique = seen.iter().filter(|b| **b).count();
    assert!(
        unique >= 16,
        "luma should span at least 16 distinct values, got {unique}"
    );
    assert!(
        hi as u32 - lo as u32 >= 64,
        "luma range too narrow: [{lo},{hi}]"
    );
}
