//! VP9 in IVF: container, header and decode steps.

use oxideav_vdpau::bits::BitReader;
use oxideav_vdpau::engine::{engine_info, DeviceReport, HwDeviceInfo};
use oxideav_vdpau::frame::{DecodeAction, DecodeEvent, Nv12Planes};
use oxideav_vdpau::sys::{VDP_DECODER_PROFILE_VP9_PROFILE_0, VDP_INVALID_HANDLE};
use oxideav_vdpau::vp9::{
    calc_max_log2_tile_cols, calc_min_log2_tile_cols, parse_ivf, parse_ivf_frame,
    parse_uncompressed_header, read_color_config, read_delta_q, read_frame_size,
    read_loop_filter_params, read_quantization_params, read_segmentation_params, read_tile_info,
};
use oxideav_vdpau::{DecodedFrame, VdpError, Vp9VdpauDecoder};

/// A bit stream under construction.
struct Bits(Vec<u8>);

impl Bits {
    fn new() -> Bits {
        Bits(Vec::new())
    }

    fn u(mut self, n: u32, v: u32) -> Bits {
        for i in (0..n).rev() {
            self.0.push(((v >> i) & 1) as u8);
        }
        self
    }

    /// The bits as bytes, the last one filled up with zeros.
    fn bytes(self) -> Vec<u8> {
        let mut out = Vec::new();
        for chunk in self.0.chunks(8) {
            let mut byte = 0u8;
            for (i, b) in chunk.iter().enumerate() {
                byte |= b << (7 - i);
            }
            out.push(byte);
        }
        out
    }
}

/// The devices of a host with one VDPAU device.
fn one_device() -> Vec<HwDeviceInfo> {
    engine_info(Some(DeviceReport {
        information_string: Ok("Driver 1.0".to_string()),
        api_version: Ok(1),
        codecs: Vec::new(),
    }))
}

/// An IVF file header.
fn ivf_header(width: u16, height: u16) -> Vec<u8> {
    let mut buf = Vec::new();
    buf.extend_from_slice(b"DKIF");
    buf.extend_from_slice(&0u16.to_le_bytes());
    buf.extend_from_slice(&32u16.to_le_bytes());
    buf.extend_from_slice(b"VP90");
    buf.extend_from_slice(&width.to_le_bytes());
    buf.extend_from_slice(&height.to_le_bytes());
    buf.extend_from_slice(&[0u8; 16]);
    buf
}

/// An IVF frame.
fn ivf_frame(payload: &[u8], timestamp: u64) -> Vec<u8> {
    let mut buf = Vec::new();
    buf.extend_from_slice(&(payload.len() as u32).to_le_bytes());
    buf.extend_from_slice(&timestamp.to_le_bytes());
    buf.extend_from_slice(payload);
    buf
}

/// The start of a keyframe of profile 0, up to the color configuration.
fn keyframe() -> Bits {
    Bits::new()
        .u(2, 2)
        .u(2, 0)
        .u(1, 0)
        .u(1, 0) // keyframe
        .u(1, 1)
        .u(1, 0)
        .u(24, 0x49_8342)
}

/// A keyframe of 320x240 with segmentation on and two tile rows.
fn frame() -> Vec<u8> {
    let mut bytes = keyframe()
        .u(3, 2) // color space
        .u(1, 0)
        .u(16, 319)
        .u(16, 239)
        .u(1, 0)
        .u(6, 48) // loop filter
        .u(3, 1)
        .u(1, 1)
        .u(1, 0)
        .u(8, 28) // quantizer
        .u(3, 0)
        .u(3, 0b100) // segmentation
        .u(2, 0b10) // tiles
        .u(16, 3596)
        .bytes();
    bytes.resize(14 + 3596, 0x5a);
    bytes
}

fn fixture() -> Vec<u8> {
    let mut file = ivf_header(320, 240);
    file.extend(ivf_frame(&frame(), 0));
    file
}

fn message<T>(r: Result<T, VdpError>) -> String {
    match r {
        Ok(_) => panic!("expected an error"),
        Err(e) => {
            assert_eq!(e.status, 0);
            e.message
        }
    }
}

#[test]
fn parse_uncompressed_header_extracts_dimensions_and_qp() {
    let file = fixture();
    let (_h, body) = parse_ivf(&file).unwrap();
    let (frame, _rest) = parse_ivf_frame(body).unwrap().unwrap();
    let hdr = parse_uncompressed_header(frame.payload).unwrap();
    assert_eq!(hdr.profile, 0);
    assert_eq!(hdr.frame_type, 0);
    assert_eq!(hdr.width, 320);
    assert_eq!(hdr.height, 240);
    assert_eq!(hdr.bit_depth, 8);
    assert_eq!(hdr.base_q_idx, 28);
    assert_eq!(hdr.loop_filter_level, 48);
    assert_eq!(hdr.loop_filter_sharpness, 1);
    // Segmentation enabled, update_map and update_data both off.
    assert_eq!(hdr.segmentation_enabled, 1);
    assert_eq!(hdr.segmentation_update_map, 0);
    assert_eq!(hdr.segmentation_update_data, 0);
    assert_eq!(hdr.log2_tile_cols, 0);
    assert_eq!(hdr.log2_tile_rows, 1);
    assert_eq!(hdr.uncompressed_header_size, 14);
    assert_eq!(hdr.compressed_header_size, 3596);
}

#[test]
fn parse_ivf_recovers_dimensions() {
    // Minimal IVF with VP90, 320x240, no frames.
    let mut buf = Vec::new();
    buf.extend_from_slice(b"DKIF");
    buf.extend_from_slice(&0u16.to_le_bytes()); // version
    buf.extend_from_slice(&32u16.to_le_bytes()); // header_len
    buf.extend_from_slice(b"VP90");
    buf.extend_from_slice(&320u16.to_le_bytes());
    buf.extend_from_slice(&240u16.to_le_bytes());
    // framerate denom/num/length/unused — pad to 32 bytes.
    buf.extend_from_slice(&[0u8; 16]);
    let (h, body) = parse_ivf(&buf).expect("ivf parses");
    assert_eq!(h.width, 320);
    assert_eq!(h.height, 240);
    assert_eq!(body.len(), 0);
}

#[test]
fn ivf_header_errors() {
    assert_eq!(
        message(parse_ivf(&[0; 31])),
        "IVF file shorter than 32-byte header"
    );
    let mut buf = ivf_header(1, 1);
    buf[0] = 0;
    assert_eq!(
        message(parse_ivf(&buf)),
        "IVF magic mismatch: [0, 75, 73, 70]"
    );
    let mut buf = ivf_header(1, 1);
    buf[5] = 1;
    assert_eq!(message(parse_ivf(&buf)), "IVF version 256 != 0");
    let mut buf = ivf_header(1, 1);
    buf[6] = 33;
    assert_eq!(message(parse_ivf(&buf)), "IVF header_len 33 != 32");
    let mut buf = ivf_header(1, 1);
    buf[11] = 0x38;
    assert_eq!(
        message(parse_ivf(&buf)),
        "IVF codec FourCC [86, 80, 57, 56] != VP90"
    );
}

#[test]
fn ivf_frames_read_back() {
    assert!(parse_ivf_frame(&[]).unwrap().is_none());
    let mut body = ivf_frame(&[1, 2, 3], 0x0102_0304_0506_0708);
    body.extend(ivf_frame(&[], 9));
    let (first, rest) = parse_ivf_frame(&body).unwrap().unwrap();
    assert_eq!(first.payload, &[1, 2, 3]);
    assert_eq!(first.timestamp, 0x0102_0304_0506_0708);
    let (second, rest) = parse_ivf_frame(rest).unwrap().unwrap();
    assert!(second.payload.is_empty());
    assert_eq!(second.timestamp, 9);
    assert!(parse_ivf_frame(rest).unwrap().is_none());
    assert_eq!(
        message(parse_ivf_frame(&body[..11])),
        "truncated IVF frame header"
    );
    assert_eq!(
        message(parse_ivf_frame(&body[..14])),
        "truncated IVF frame payload"
    );
}

#[test]
fn header_errors() {
    assert_eq!(
        message(parse_uncompressed_header(&[0x80; 7])),
        "VP9 frame shorter than 8 bytes"
    );
    assert_eq!(
        message(parse_uncompressed_header(&[0xc0; 8])),
        "VP9 frame_marker 3 != 2"
    );
    let show = Bits::new().u(2, 2).u(2, 0).u(1, 1).u(32, 0).u(32, 0).bytes();
    assert_eq!(
        message(parse_uncompressed_header(&show)),
        "VP9: show_existing_frame=1 not supported in single-keyframe path"
    );
    let inter = Bits::new().u(2, 2).u(2, 0).u(1, 0).u(1, 1).u(32, 0).u(32, 0).bytes();
    assert_eq!(
        message(parse_uncompressed_header(&inter)),
        "VP9: only KEY_FRAME supported in single-keyframe path"
    );
    let sync = Bits::new().u(2, 2).u(6, 0).u(24, 0x0a_bcde).u(32, 0).bytes();
    assert_eq!(
        message(parse_uncompressed_header(&sync)),
        "VP9 frame_sync_code mismatch: 0x0abcde != 0x498342"
    );
}

#[test]
fn profile_bits_come_low_bit_first() {
    // Profile 2: 10 bits in depth, profile 3: a reserved bit follows.
    let two = Bits::new()
        .u(2, 2)
        .u(2, 0b01)
        .u(4, 0b0010)
        .u(24, 0x49_8342)
        .u(1, 0)
        .u(3, 1)
        .u(1, 1)
        .u(16, 7)
        .u(16, 8)
        .u(32, 0)
        .u(32, 0)
        .bytes();
    let h = parse_uncompressed_header(&two).unwrap();
    assert_eq!(h.profile, 2);
    assert_eq!(h.bit_depth, 10);
    assert_eq!(h.color_space, 1);
    assert_eq!(h.color_range, 1);
    assert_eq!((h.width, h.height), (8, 9));
    let three = Bits::new()
        .u(2, 2)
        .u(2, 0b11)
        .u(1, 0)
        .u(4, 0b0010)
        .u(24, 0x49_8342)
        .u(1, 1)
        .u(3, 1)
        .u(1, 0)
        .u(2, 0b10)
        .u(1, 0)
        .u(16, 7)
        .u(16, 8)
        .u(32, 0)
        .u(32, 0)
        .bytes();
    let h = parse_uncompressed_header(&three).unwrap();
    assert_eq!(h.profile, 3);
    assert_eq!(h.bit_depth, 12);
    assert_eq!((h.subsampling_x, h.subsampling_y), (1, 0));
    assert_eq!((h.width, h.height), (8, 9));
}

#[test]
fn color_config_of_srgb() {
    let bytes = Bits::new().u(3, 7).u(5, 0x1f).bytes();
    let mut r = BitReader::new(&bytes);
    let c = read_color_config(&mut r, 0);
    assert_eq!(c.color_space, 7);
    assert_eq!(c.color_range, 1);
    assert_eq!((c.subsampling_x, c.subsampling_y), (0, 0));
    assert_eq!(r.bit_offset(), 3);
    let mut r = BitReader::new(&bytes);
    read_color_config(&mut r, 1);
    assert_eq!(r.bit_offset(), 4);
}

#[test]
fn frame_size_passes_over_the_render_size() {
    let bytes = Bits::new()
        .u(16, 0xffff)
        .u(16, 0)
        .u(1, 1)
        .u(32, 0)
        .bytes();
    let mut r = BitReader::new(&bytes);
    assert_eq!(read_frame_size(&mut r), (65536, 1));
    assert_eq!(r.bit_offset(), 65);
}

#[test]
fn loop_filter_deltas() {
    let bytes = Bits::new()
        .u(6, 63)
        .u(3, 7)
        .u(1, 1)
        .u(1, 1)
        .u(1, 1)
        .u(7, 0b000001_0) // 1
        .u(1, 0)
        .u(1, 1)
        .u(7, 0b000001_1) // -1
        .u(1, 0)
        .u(1, 0)
        .u(1, 1)
        .u(7, 0b111111_1) // -63
        .bytes();
    let mut r = BitReader::new(&bytes);
    let lf = read_loop_filter_params(&mut r);
    assert_eq!((lf.level, lf.sharpness), (63, 7));
    assert_eq!(lf.mode_ref_delta_enabled, 1);
    assert_eq!(lf.ref_deltas, [1, 0, -1, 0]);
    assert_eq!(lf.mode_deltas, [0, -63]);
    assert_eq!(r.bit_offset(), 11 + 6 + 3 * 7);
}

#[test]
fn quantizer_deltas() {
    let bytes = Bits::new()
        .u(8, 255)
        .u(1, 1)
        .u(5, 0b1111_0) // 15
        .u(1, 0)
        .u(1, 1)
        .u(5, 0b1111_1) // -15
        .bytes();
    let mut r = BitReader::new(&bytes);
    let q = read_quantization_params(&mut r);
    assert_eq!(q.base_q_idx, 255);
    assert_eq!(q.delta_q_y_dc, 15);
    assert_eq!(q.delta_q_uv_dc, 0);
    assert_eq!(q.delta_q_uv_ac, -15);
    assert_eq!(r.bit_offset(), 21);
    let bytes = [0b1010_1100];
    assert_eq!(read_delta_q(&mut BitReader::new(&bytes)), -5);
}

#[test]
fn segmentation_with_map_and_data() {
    let mut bits = Bits::new().u(1, 1).u(1, 1);
    // Tree probabilities: the odd ones are coded.
    for i in 0..7 {
        bits = if i % 2 == 1 {
            bits.u(1, 1).u(8, 10 + i)
        } else {
            bits.u(1, 0)
        };
    }
    // Prediction probabilities: the last one is coded.
    bits = bits.u(1, 1).u(1, 0).u(1, 0).u(1, 1).u(8, 200);
    // Data: absolute values; segment 2 has every feature.
    bits = bits.u(1, 1).u(1, 1);
    for i in 0..8 {
        if i == 2 {
            bits = bits
                .u(1, 1)
                .u(9, 0b1111_1111_1) // -255
                .u(1, 1)
                .u(7, 0b100000_0) // 32
                .u(1, 1)
                .u(2, 3)
                .u(1, 1);
        } else {
            bits = bits.u(4, 0);
        }
    }
    let n = bits.0.len() as u128;
    let bytes = bits.bytes();
    let mut r = BitReader::new(&bytes);
    let seg = read_segmentation_params(&mut r);
    assert_eq!(seg.enabled, 1);
    assert_eq!(seg.update_map, 1);
    assert_eq!(seg.temporal_update, 1);
    assert_eq!(seg.tree_probs, [255, 11, 255, 13, 255, 15, 255]);
    assert_eq!(seg.pred_probs, [255, 255, 200]);
    assert_eq!(seg.update_data, 1);
    assert_eq!(seg.abs_or_delta_update, 1);
    let mut enable = [[0u8; 4]; 8];
    enable[2] = [1; 4];
    assert_eq!(seg.feature_enable, enable);
    let mut data = [[0i16; 4]; 8];
    data[2] = [-255, 32, 3, 0];
    assert_eq!(seg.feature_data, data);
    assert_eq!(r.bit_offset(), n);
}

#[test]
fn segmentation_map_without_temporal_update() {
    let bytes = Bits::new().u(2, 3).u(7, 0).u(1, 0).u(1, 0).bytes();
    let mut r = BitReader::new(&bytes);
    let seg = read_segmentation_params(&mut r);
    assert_eq!(seg.tree_probs, [255; 7]);
    assert_eq!(seg.pred_probs, [255; 3]);
    assert_eq!(r.bit_offset(), 11);
    // Off: nothing is set.
    let seg = read_segmentation_params(&mut BitReader::new(&[0]));
    assert_eq!(seg.tree_probs, [0; 7]);
    assert_eq!(seg.pred_probs, [0; 3]);
}

#[test]
fn tile_column_bounds() {
    for (cols, min, max) in [
        (0, 0, 0),
        (1, 0, 0),
        (7, 0, 0),
        (8, 0, 1),
        (16, 0, 2),
        (64, 0, 4),
        (65, 1, 4),
        (128, 1, 5),
        (129, 2, 5),
        (1024, 4, 8),
    ] {
        assert_eq!(calc_min_log2_tile_cols(cols), min, "{cols} columns");
        assert_eq!(calc_max_log2_tile_cols(cols), max, "{cols} columns");
    }
    assert_eq!(calc_min_log2_tile_cols(0x8000_0000), 25);
}

#[test]
fn tile_info_counts_increments() {
    // 4096 pixels: 64 columns, up to 16 tiles.
    let bytes = [0b1101_1000];
    let mut r = BitReader::new(&bytes);
    assert_eq!(read_tile_info(&mut r, 4096), (2, 2));
    assert_eq!(r.bit_offset(), 5);
    // The limit ends the increments without a zero bit.
    let bytes = [0b1111_0000];
    let mut r = BitReader::new(&bytes);
    assert_eq!(read_tile_info(&mut r, 4096), (4, 0));
    assert_eq!(r.bit_offset(), 5);
    let bytes = [0b1000_0000];
    assert_eq!(read_tile_info(&mut BitReader::new(&bytes), 320), (0, 1));
}

#[test]
fn tile_logarithms_stay_in_range() {
    for width in [1, 64, 449, 512, 4096, 4097, 8193, 65536u32] {
        let cols = width.div_ceil(8).div_ceil(8);
        let min = calc_min_log2_tile_cols(cols);
        let max = calc_max_log2_tile_cols(cols);
        // All ones go up to the limit, all zeros stay at the start.
        let (most, rows) = read_tile_info(&mut BitReader::new(&[0xff; 4]), width);
        assert_eq!((most as u32, rows), (max, 2), "width {width}");
        let (least, rows) = read_tile_info(&mut BitReader::new(&[]), width);
        assert_eq!((least as u32, rows), (min, 0), "width {width}");
    }
}

#[test]
fn truncated_header_still_counts_its_bits() {
    // Eight bytes are enough to start; what is missing reads as zero.
    let mut bytes = keyframe().u(3, 2).u(1, 0).u(16, 0).u(12, 0).bytes();
    assert_eq!(bytes.len(), 8);
    let h = parse_uncompressed_header(&bytes).unwrap();
    assert_eq!((h.width, h.height), (1, 1));
    assert_eq!(h.uncompressed_header_size, 14);
    bytes.pop();
    assert!(parse_uncompressed_header(&bytes).is_err());
}

#[test]
fn vp9_vdpau_decoder_parses_fixture_and_creates_decoder() {
    let d = match Vp9VdpauDecoder::new(&fixture()) {
        Ok(d) => d,
        Err(e) => panic!("Vp9VdpauDecoder::new on a 320x240 Profile-0 keyframe: {e:?}"),
    };
    assert_eq!(d.width(), 320);
    assert_eq!(d.height(), 240);
    let request = d.decoder_request();
    assert_eq!(request.profile, VDP_DECODER_PROFILE_VP9_PROFILE_0);
    assert_eq!((request.width, request.height), (320, 240));
    assert_eq!(request.max_references, 8);
}

#[test]
fn vp9_decoder_errors() {
    assert_eq!(
        message(Vp9VdpauDecoder::new(&[])),
        "IVF file shorter than 32-byte header"
    );
    assert_eq!(
        message(Vp9VdpauDecoder::new(&ivf_header(320, 240))),
        "IVF has no frames"
    );
    let mut file = ivf_header(8, 9);
    file.push(0);
    assert_eq!(
        message(Vp9VdpauDecoder::new(&file)),
        "truncated IVF frame header"
    );
    let mut file = ivf_header(8, 9);
    file.extend(ivf_frame(&[0; 4], 0));
    assert_eq!(
        message(Vp9VdpauDecoder::new(&file)),
        "VP9 frame shorter than 8 bytes"
    );
    let one = Bits::new()
        .u(2, 2)
        .u(2, 0b10)
        .u(4, 0b0010)
        .u(24, 0x49_8342)
        .u(32, 0)
        .u(32, 0)
        .u(32, 0)
        .bytes();
    let mut file = ivf_header(8, 9);
    file.extend(ivf_frame(&one, 0));
    assert_eq!(
        message(Vp9VdpauDecoder::new(&file)),
        "VP9 profile 1 not supported (only profile 0)"
    );
}

#[test]
fn vp9_with_params_checks_the_device_first() {
    assert!(Vp9VdpauDecoder::with_params(None, &one_device(), &fixture()).is_ok());
    assert_eq!(
        message(Vp9VdpauDecoder::with_params(Some(2), &one_device(), &[])),
        "vdpau: device_index 2 out of range (0..1)"
    );
}

#[test]
fn vp9_decode_goes_through_its_steps() {
    let file = fixture();
    let d = Vp9VdpauDecoder::new(&file).unwrap();
    match d.decode_keyframe(&file, DecodeEvent::Started) {
        DecodeAction::CreateSurface { width, height, .. } => {
            assert_eq!((width, height), (320, 240))
        }
        _ => panic!("expected a surface"),
    }
    match d.decode_keyframe(&ivf_header(1, 1), DecodeEvent::Started) {
        DecodeAction::Finish(Err(e)) => assert_eq!(e.message, "IVF has no frames"),
        _ => panic!("expected an error"),
    }
    match d.decode_keyframe(&file, DecodeEvent::SurfaceCreated(Ok(()))) {
        DecodeAction::Render {
            picture_info,
            bitstream,
        } => {
            assert_eq!(bitstream.offset, 44);
            assert_eq!(bitstream.bitstream_bytes as usize, frame().len());
            assert_eq!((picture_info.width, picture_info.height), (320, 240));
            assert_eq!(picture_info.last_reference, VDP_INVALID_HANDLE);
            assert_eq!(picture_info.key_frame, 1);
            assert_eq!(picture_info.show_frame, 1);
            assert_eq!(picture_info.refresh_entropy_probs, 1);
            assert_eq!(picture_info.bit_depth_minus8_luma, 0);
            assert_eq!(picture_info.sub_sampling_x, 1);
            assert_eq!(picture_info.qp_y_ac, 28);
            assert_eq!(picture_info.qp_y_dc, 28);
            assert_eq!(picture_info.segment_enabled, 1);
            assert_eq!(picture_info.log2_tile_rows, 1);
            assert_eq!(picture_info.uncompressed_header_size, 14);
            assert_eq!(picture_info.compressed_header_size, 3596);
        }
        _ => panic!("expected a rendering"),
    }
    match d.decode_keyframe(&file, DecodeEvent::Rendered(Ok(()))) {
        DecodeAction::ReadBits { plane_lens, .. } => assert_eq!(plane_lens, [76800, 38400]),
        _ => panic!("expected a read-back"),
    }
    let planes = Nv12Planes {
        y: vec![1; 76800],
        uv: vec![2; 38400],
    };
    match d.decode_keyframe(&file, DecodeEvent::BitsRead(Ok(planes))) {
        DecodeAction::Finish(Ok(frame)) => assert_eq!(frame.v, vec![2; 19200]),
        _ => panic!("expected a frame"),
    }
}

#[test]
fn vp9_quantizers_are_clamped_and_deltas_are_words() {
    let payload = keyframe()
        .u(3, 2)
        .u(1, 0)
        .u(16, 15)
        .u(16, 15)
        .u(1, 0)
        .u(9, 0)
        .u(1, 1)
        .u(1, 1)
        .u(1, 1)
        .u(7, 0b000010_1) // reference delta -2
        .u(5, 0)
        .u(8, 250)
        .u(1, 1)
        .u(5, 0b1111_0) // 265 -> 255
        .u(1, 1)
        .u(5, 0b0001_1) // 249
        .u(1, 0)
        .u(1, 0)
        .u(1, 0)
        .u(16, 1)
        .bytes();
    let mut file = ivf_header(16, 16);
    file.extend(ivf_frame(&payload, 0));
    let d = Vp9VdpauDecoder::new(&file).unwrap();
    match d.decode_keyframe(&file, DecodeEvent::SurfaceCreated(Ok(()))) {
        DecodeAction::Render { picture_info, .. } => {
            assert_eq!(picture_info.qp_y_ac, 250);
            assert_eq!(picture_info.qp_y_dc, 255);
            assert_eq!(picture_info.qp_ch_dc, 249);
            assert_eq!(picture_info.qp_ch_ac, 250);
            assert_eq!(picture_info.mb_ref_lf_delta, [0xffff_fffe, 0, 0, 0]);
            assert_eq!(picture_info.mb_mode_lf_delta, [0, 0]);
        }
        _ => panic!("expected a rendering"),
    }
}

/// Run a decode on a driver that renders a gradient, with the chroma samples
/// numbered through.
fn decode(d: &Vp9VdpauDecoder, stream: &[u8]) -> Result<DecodedFrame, VdpError> {
    let mut event = DecodeEvent::Started;
    loop {
        event = match d.decode_keyframe(stream, event) {
            DecodeAction::CreateSurface { .. } => DecodeEvent::SurfaceCreated(Ok(())),
            DecodeAction::Render { .. } => DecodeEvent::Rendered(Ok(())),
            DecodeAction::ReadBits {
                plane_lens,
                pitches,
                ..
            } => DecodeEvent::BitsRead(Ok(Nv12Planes {
                y: (0..plane_lens[0])
                    .map(|i| (i % pitches[0] as u64) as u8)
                    .collect(),
                uv: (0..plane_lens[1]).map(|i| i as u8).collect(),
            })),
            DecodeAction::Finish(result) => return result,
        };
    }
}

#[test]
fn vp9_keyframe_decode_yields_non_trivial_luma() {
    let stream = fixture();
    let d = Vp9VdpauDecoder::new(&stream).unwrap();
    let frame = match decode(&d, &stream) {
        Ok(f) => f,
        Err(e) => panic!("Vp9VdpauDecoder::decode_keyframe failed: {}", e.to_string()),
    };
    assert_eq!(frame.width, 320);
    assert_eq!(frame.height, 240);
    assert_eq!(frame.y.len(), 320 * 240);
    assert_eq!(frame.u.len(), 160 * 120);
    assert_eq!(frame.v.len(), 160 * 120);
    // Cb and Cr samples take turns in what was read back.
    assert_eq!(frame.u[..4], [0, 2, 4, 6]);
    assert_eq!(frame.v[..4], [1, 3, 5, 7]);

    let mut seen = [false; 256];
    let (mut lo, mut hi) = (255u8, 0u8);
    for &v in &frame.y {
        seen[v as usize] = true;
        if v < lo {
            lo = v;
        }
        if v > hi {
            hi = v;
        }
    }
    let unique = seen.iter().filter(|b| **b).count();
    assert!(
        unique >= 16,
        "luma should span at least 16 distinct values, got {unique}"
    );
    assert!(
        hi as u32 - lo as u32 >= 64,
        "luma range too narrow: [{lo},{hi}]"
    );
}
