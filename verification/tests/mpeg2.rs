//! MPEG-2 headers and decode steps.

use oxideav_vdpau::engine::{engine_info, DeviceReport, HwDeviceInfo};
use oxideav_vdpau::frame::{DecodeAction, DecodeEvent, Nv12Planes};
use oxideav_vdpau::mpeg2::{
    find_start_codes, locate_first_slice, parse_picture_coding_extension, parse_picture_header,
    parse_sequence_header, zigzag_to_raster_quant, DEFAULT_INTRA_QUANT, ZIGZAG_TO_RASTER,
};
use oxideav_vdpau::sys::{VDP_DECODER_PROFILE_MPEG2_MAIN, VDP_INVALID_HANDLE};
use oxideav_vdpau::{DecodedFrame, Mpeg2VdpauDecoder, VdpError};

/// A bit stream under construction.
struct Bits(Vec<u8>);

impl Bits {
    fn new() -> Bits {
        Bits(Vec::new())
    }

    fn u(mut self, n: u32, v: u32) -> Bits {
        for i in (0..n).rev() {
            self.0.push(((v >> i) & 1) as u8);
        }
        self
    }

    /// The bits as bytes, the last one filled up with zeros.
    fn bytes(self) -> Vec<u8> {
        let mut out = Vec::new();
        for chunk in self.0.chunks(8) {
            let mut byte = 0u8;
            for (i, b) in chunk.iter().enumerate() {
                byte |= b << (7 - i);
            }
            out.push(byte);
        }
        out
    }
}

/// The devices of a host with one VDPAU device.
fn one_device() -> Vec<HwDeviceInfo> {
    engine_info(Some(DeviceReport {
        information_string: Ok("Driver 1.0".to_string()),
        api_version: Ok(1),
        codecs: Vec::new(),
    }))
}

/// A sequence header of 320x240 without matrices, behind its start code.
fn sequence_header() -> Vec<u8> {
    Bits::new()
        .u(12, 320)
        .u(12, 240)
        .u(4, 2)
        .u(4, 3)
        .u(18, 1234)
        .u(1, 1)
        .u(10, 20)
        .u(1, 0)
        .u(2, 0)
        .bytes()
}

fn picture_header(coding_type: u32) -> Vec<u8> {
    Bits::new().u(10, 5).u(3, coding_type).u(16, 0xffff).u(3, 0).bytes()
}

fn coding_extension() -> Vec<u8> {
    Bits::new()
        .u(4, 8)
        .u(16, 0xffff)
        .u(2, 2)
        .u(2, 3)
        .u(8, 0b1010_0101)
        .u(1, 1)
        .u(7, 0)
        .bytes()
}

/// Start code `code` and what follows it.
fn section(code: u8, payload: &[u8]) -> Vec<u8> {
    let mut out = vec![0, 0, 1, code];
    out.extend_from_slice(payload);
    out
}

fn fixture() -> Vec<u8> {
    let mut out = section(0xb3, &sequence_header());
    // A sequence extension comes before the picture coding extension.
    out.extend(section(0xb5, &[0x14, 0x8a, 0x00, 0x01, 0x00, 0x00]));
    out.extend(section(0x00, &picture_header(1)));
    out.extend(section(0xb5, &coding_extension()));
    out.extend(section(0x01, &[0x12, 0x34]));
    out
}

fn message<T>(r: Result<T, VdpError>) -> String {
    match r {
        Ok(_) => panic!("expected an error"),
        Err(e) => {
            assert_eq!(e.status, 0);
            e.message
        }
    }
}

#[test]
fn find_start_codes_locates_known_codes() {
    let buf = [
        0, 0, 1, 0xb3, 0xaa, 0xbb, // sequence header
        0, 0, 1, 0xb5, 0xcc, // extension
        0, 0, 1, 0x00, 0xdd, 0xee, // picture header
        0, 0, 1, 0x01, 0xff, // slice 1
    ];
    let codes = find_start_codes(&buf);
    assert_eq!(codes.len(), 4);
    assert_eq!(codes[0].0, 0xb3);
    assert_eq!(codes[1].0, 0xb5);
    assert_eq!(codes[2].0, 0x00);
    assert_eq!(codes[3].0, 0x01);
}

#[test]
fn find_start_codes_gives_the_position_behind() {
    assert_eq!(find_start_codes(&[]), vec![]);
    assert_eq!(find_start_codes(&[0, 0, 1]), vec![]);
    assert_eq!(find_start_codes(&[0, 0, 1, 9]), vec![(9, 4)]);
    assert_eq!(find_start_codes(&[7, 0, 0, 1, 9, 0]), vec![(9, 5)]);
    // A code byte is not the first byte of another start code.
    assert_eq!(find_start_codes(&[0, 0, 1, 0, 0, 1, 9, 9]), vec![(0, 4)]);
}

#[test]
fn zigzag_inverse_roundtrip() {
    // Place sequential numbers in zig-zag, verify raster output is
    // a permutation. The DC coefficient is always at raster index 0.
    let zz: [u8; 64] = std::array::from_fn(|i| (i + 1) as u8);
    let raster = zigzag_to_raster_quant(&zz);
    // raster[ZIGZAG[0]] should equal zz[0] = 1.
    assert_eq!(raster[0], 1); // DC
    assert_eq!(raster[1], 2); // first AC across
    assert_eq!(raster[8], 3); // first AC down
    // Every number comes up once, at the place that the table gives.
    let mut sorted = raster;
    sorted.sort();
    assert_eq!(sorted, zz);
    for i in 0..64 {
        assert_eq!(raster[ZIGZAG_TO_RASTER[i] as usize], zz[i]);
    }
}

#[test]
fn first_slice_is_found() {
    assert_eq!(locate_first_slice(&[]), None);
    assert_eq!(locate_first_slice(&[0, 0, 1, 0xb0, 0]), None);
    assert_eq!(locate_first_slice(&[0, 0, 1, 0x00, 0]), None);
    assert_eq!(locate_first_slice(&[5, 0, 0, 1, 0xaf]), Some(1));
    assert_eq!(
        locate_first_slice(&[0, 0, 1, 0xb3, 0, 0, 1, 0x01]),
        Some(4)
    );
    // It is the first of the start codes with a slice's code byte.
    let file = fixture();
    let behind = find_start_codes(&file)
        .into_iter()
        .find(|(code, _)| (0x01..=0xaf).contains(code))
        .map(|(_, at)| at - 4);
    assert_eq!(locate_first_slice(&file), behind);
}

#[test]
fn sequence_header_fields() {
    let s = parse_sequence_header(&sequence_header()).unwrap();
    assert_eq!((s.width, s.height), (320, 240));
    assert_eq!(s.aspect_ratio, 2);
    assert_eq!(s.frame_rate_code, 3);
    assert_eq!(s.bit_rate_value, 1234);
    assert_eq!(s.load_intra_quantizer_matrix, 0);
    assert_eq!(s.intra_quantizer_matrix, DEFAULT_INTRA_QUANT);
    assert_eq!(s.intra_quantizer_matrix[63], 83);
    assert_eq!(s.non_intra_quantizer_matrix, [16; 64]);
    assert_eq!(
        message(parse_sequence_header(&[0; 7])),
        "parse_sequence_header: too short"
    );
}

#[test]
fn sequence_header_with_matrices() {
    let mut bits = Bits::new().u(12, 16).u(12, 16).u(32, 0).u(6, 0).u(1, 1);
    for i in 0..64 {
        bits = bits.u(8, 100 + i);
    }
    bits = bits.u(1, 1);
    for i in 0..64 {
        bits = bits.u(8, 200 - i);
    }
    let s = parse_sequence_header(&bits.bytes()).unwrap();
    assert_eq!(s.load_intra_quantizer_matrix, 1);
    assert_eq!(s.load_non_intra_quantizer_matrix, 1);
    for i in 0..64 {
        assert_eq!(s.intra_quantizer_matrix[i], 100 + i as u8);
        assert_eq!(s.non_intra_quantizer_matrix[i], 200 - i as u8);
    }
}

#[test]
fn picture_header_fields() {
    let p = parse_picture_header(&picture_header(1)).unwrap();
    assert_eq!(p.temporal_reference, 5);
    assert_eq!(p.picture_coding_type, 1);
    assert_eq!(p.vbv_delay, 0xffff);
    assert_eq!(p.f_code, [[0, 0], [0, 0]]);
    let b = Bits::new()
        .u(10, 0)
        .u(3, 3)
        .u(16, 0)
        .u(1, 1)
        .u(3, 4)
        .u(1, 1)
        .u(3, 6)
        .bytes();
    let p = parse_picture_header(&b).unwrap();
    assert_eq!(p.full_pel_forward_vector, 1);
    assert_eq!(p.full_pel_backward_vector, 1);
    assert_eq!(p.f_code, [[4, 4], [6, 6]]);
    assert_eq!(
        message(parse_picture_header(&[0; 3])),
        "parse_picture_header: too short"
    );
}

#[test]
fn coding_extension_fields() {
    let e = parse_picture_coding_extension(&coding_extension()).unwrap();
    assert_eq!(e.f_code, [[15, 15], [15, 15]]);
    assert_eq!(e.intra_dc_precision, 2);
    assert_eq!(e.picture_structure, 3);
    assert_eq!(e.top_field_first, 1);
    assert_eq!(e.frame_pred_frame_dct, 0);
    assert_eq!(e.concealment_motion_vectors, 1);
    assert_eq!(e.q_scale_type, 0);
    assert_eq!(e.intra_vlc_format, 0);
    assert_eq!(e.alternate_scan, 1);
    assert_eq!(e.repeat_first_field, 0);
    assert_eq!(e.chroma_420_type, 1);
    assert_eq!(e.progressive_frame, 1);
    assert_eq!(
        message(parse_picture_coding_extension(&[0x80, 0, 0])),
        "parse_picture_coding_extension: too short"
    );
    assert_eq!(
        message(parse_picture_coding_extension(&[0x10, 0, 0, 0])),
        "parse_picture_coding_extension: ext_id=1 != 8"
    );
}

#[test]
fn mpeg2_vdpau_decoder_parses_fixture_and_creates_decoder() {
    let d = match Mpeg2VdpauDecoder::new(&fixture()) {
        Ok(d) => d,
        Err(e) => panic!("Mpeg2VdpauDecoder::new on a 320x240 Main-profile I-frame: {e:?}"),
    };
    assert_eq!(d.width(), 320);
    assert_eq!(d.height(), 240);
    let request = d.decoder_request();
    assert_eq!(request.profile, VDP_DECODER_PROFILE_MPEG2_MAIN);
    assert_eq!((request.width, request.height), (320, 240));
    assert_eq!(request.max_references, 2);
}

#[test]
fn mpeg2_decoder_errors() {
    assert_eq!(
        message(Mpeg2VdpauDecoder::new(&[])),
        "MPEG-2: no sequence_header"
    );
    assert_eq!(
        message(Mpeg2VdpauDecoder::new(&section(0xb3, &[0; 7]))),
        "parse_sequence_header: too short"
    );
    assert_eq!(
        message(Mpeg2VdpauDecoder::new(&section(0xb3, &sequence_header()))),
        "MPEG-2: no picture_header"
    );
    let mut short = section(0xb3, &sequence_header());
    short.extend(section(0x00, &[0, 8]));
    assert_eq!(
        message(Mpeg2VdpauDecoder::new(&short)),
        "parse_picture_header: too short"
    );
    let mut ext = section(0xb3, &sequence_header());
    ext.extend(section(0x00, &picture_header(1)));
    ext.extend(section(0xb5, &[0x80]));
    assert_eq!(
        message(Mpeg2VdpauDecoder::new(&ext)),
        "parse_picture_coding_extension: too short"
    );
    let mut inter = section(0xb3, &sequence_header());
    inter.extend(section(0x00, &picture_header(2)));
    assert_eq!(
        message(Mpeg2VdpauDecoder::new(&inter)),
        "MPEG-2: picture_coding_type=2 (only I-frames supported)"
    );
}

#[test]
fn mpeg2_with_params_checks_the_device_first() {
    assert!(Mpeg2VdpauDecoder::with_params(Some(0), &one_device(), &fixture()).is_ok());
    assert_eq!(
        message(Mpeg2VdpauDecoder::with_params(Some(3), &one_device(), &[])),
        "vdpau: device_index 3 out of range (0..1)"
    );
}

#[test]
fn mpeg2_decode_goes_through_its_steps() {
    let m2v = fixture();
    let d = Mpeg2VdpauDecoder::new(&m2v).unwrap();
    match d.decode_iframe(&m2v, DecodeEvent::Started) {
        DecodeAction::CreateSurface { width, height, .. } => {
            assert_eq!((width, height), (320, 240))
        }
        _ => panic!("expected a surface"),
    }
    match d.decode_iframe(&m2v, DecodeEvent::SurfaceCreated(Ok(()))) {
        DecodeAction::Render {
            picture_info,
            bitstream,
        } => {
            // The slice is the last section.
            assert_eq!(bitstream.offset, m2v.len() - 6);
            assert_eq!(bitstream.bitstream_bytes, 6);
            assert_eq!(picture_info.forward_reference, VDP_INVALID_HANDLE);
            assert_eq!(picture_info.slice_count, 15);
            assert_eq!(picture_info.picture_coding_type, 1);
            assert_eq!(picture_info.picture_structure, 3);
            assert_eq!(picture_info.intra_dc_precision, 2);
            assert_eq!(picture_info.f_code, [[15, 15], [15, 15]]);
            assert_eq!(
                picture_info.intra_quantizer_matrix,
                zigzag_to_raster_quant(&DEFAULT_INTRA_QUANT)
            );
            assert_eq!(picture_info.non_intra_quantizer_matrix, [16; 64]);
        }
        _ => panic!("expected a rendering"),
    }
    match d.decode_iframe(&m2v, DecodeEvent::Rendered(Ok(()))) {
        DecodeAction::ReadBits { pitches, .. } => assert_eq!(pitches, [320, 320]),
        _ => panic!("expected a read-back"),
    }
    let planes = Nv12Planes {
        y: vec![1; 76800],
        uv: vec![2; 38400],
    };
    match d.decode_iframe(&m2v, DecodeEvent::BitsRead(Ok(planes))) {
        DecodeAction::Finish(Ok(frame)) => assert_eq!(frame.u, vec![2; 19200]),
        _ => panic!("expected a frame"),
    }
}

#[test]
fn mpeg2_slices_are_counted_by_macroblock_rows() {
    for (height, slices) in [(0, 0), (1, 1), (16, 1), (17, 2), (1080, 68), (4095, 256)] {
        let mut m2v = section(
            0xb3,
            &Bits::new().u(12, 16).u(12, height).u(32, 0).u(8, 0).bytes(),
        );
        m2v.extend(section(0x00, &picture_header(1)));
        m2v.extend(section(0x01, &[]));
        let d = Mpeg2VdpauDecoder::new(&m2v).unwrap();
        match d.decode_iframe(&m2v, DecodeEvent::SurfaceCreated(Ok(()))) {
            DecodeAction::Render { picture_info, .. } => {
                assert_eq!(picture_info.slice_count, slices);
                // There is no coding extension.
                assert_eq!(picture_info.picture_structure, 0);
                assert_eq!(picture_info.f_code, [[0, 0], [0, 0]]);
            }
            _ => panic!("expected a rendering"),
        }
    }
}

#[test]
fn mpeg2_decode_without_slices_fails() {
    let d = Mpeg2VdpauDecoder::new(&fixture()).unwrap();
    match d.decode_iframe(&[0, 0, 1, 0xb3], DecodeEvent::SurfaceCreated(Ok(()))) {
        DecodeAction::Finish(Err(e)) => assert_eq!(e.message, "no MPEG-2 slice start code found"),
        _ => panic!("expected an error"),
    }
}

/// Run a decode on a driver that renders a gradient, with the chroma samples
/// numbered through.
fn decode(d: &Mpeg2VdpauDecoder, stream: &[u8]) -> Result<DecodedFrame, VdpError> {
    let mut event = DecodeEvent::Started;
    loop {
        event = match d.decode_iframe(stream, event) {
            DecodeAction::CreateSurface { .. } => DecodeEvent::SurfaceCreated(Ok(())),
            DecodeAction::Render { .. } => DecodeEvent::Rendered(Ok(())),
            DecodeAction::ReadBits {
                plane_lens,
                pitches,
                ..
            } => DecodeEvent::BitsRead(Ok(Nv12Planes {
                y: (0..plane_lens[0])
                    .map(|i| (i % pitches[0] as u64) as u8)
                    .collect(),
                uv: (0..plane_lens[1]).map(|i| i as u8).collect(),
            })),
            DecodeAction::Finish(result) => return result,
        };
    }
}

#[test]
fn mpeg2_iframe_decode_yields_non_trivial_luma() {
    let stream = fixture();
    let d = Mpeg2VdpauDecoder::new(&stream).unwrap();
    let frame = match decode(&d, &stream) {
        Ok(f) => f,
        Err(e) => panic!("Mpeg2VdpauDecoder::decode_iframe failed: {}", e.to_string()),
    };
    assert_eq!(frame.width, 320);
    assert_eq!(frame.height, 240);
    assert_eq!(frame.y.len(), 320 * 240);
    assert_eq!(frame.u.len(), 160 * 120);
    assert_eq!(frame.v.len(), 160 * 120);
    // Cb and Cr samples take turns in what was read back.
    assert_eq!(frame.u[..4], [0, 2, 4, 6]);
    assert_eq!(frame.v[..4], [1, 3, 5, 7]);

    let mut seen = [false; 256];
    let (mut lo, mut hi) = (255u8, 0u8);
    for &v in &frame.y {
        seen[v as usize] = true;
        if v < lo {
            lo = v;
        }
        if v > hi {
            hi = v;
        }
    }
    let unique = seen.iter().filter(|b| **b).count();
    assert!(
        unique >= 16,
        "luma should span at least 16 distinct values, got {unique}"
    );
    assert!(
        hi as u32 - lo as u32 >= 64,
        "luma range too narrow: [{lo},{hi}]"
    );
}
