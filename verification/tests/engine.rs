//! The engine probe.

use oxideav_vdpau::engine::{
    codec_query, is_white, parse_device_name, parse_driver_version, validate_request, CapsProbe,
    DeviceReport, HwCodecCaps, HwDeviceInfo, FAMILIES,
};
use oxideav_vdpau::sys::VdpDecoderProfile;
use oxideav_vdpau::{engine_info, validate_device_index, DecoderCaps, Profile, VdpError};

const BANNER: &str = "NVIDIA VDPAU Driver Shared Library  580.95.05  Sat Aug 16 03:11:42 UTC 2025";

/// Run a probe against a driver.
fn probe(driver: impl Fn(VdpDecoderProfile) -> Result<DecoderCaps, VdpError>) -> Vec<HwCodecCaps> {
    let mut probe = CapsProbe::new();
    while let Some(query) = probe.next_query() {
        probe = probe.answer(driver(query));
    }
    probe.into_caps()
}

fn caps(supported: bool) -> DecoderCaps {
    DecoderCaps {
        supported,
        max_level: 51,
        max_macroblocks: 65536,
        max_width: 4096,
        max_height: 4080,
    }
}

/// A host with one NVIDIA device.
fn nvidia() -> Vec<HwDeviceInfo> {
    engine_info(Some(DeviceReport {
        information_string: Ok(BANNER.to_string()),
        api_version: Ok(1),
        codecs: probe(|_| Ok(caps(true))),
    }))
}

#[test]
fn parse_device_name_takes_first_line_trimmed() {
    let s = "NVIDIA VDPAU Driver Shared Library  580.95.05  Sat Aug 16 03:11:42 UTC 2025";
    let n = parse_device_name(s);
    assert_eq!(
        n,
        "NVIDIA VDPAU Driver Shared Library  580.95.05  Sat Aug 16 03:11:42 UTC 2025"
    );
}

#[test]
fn parse_device_name_handles_multiline_and_whitespace() {
    let s = "  Acme VDPAU 1.0   \nthe rest is junk\n";
    let n = parse_device_name(s);
    assert_eq!(n, "Acme VDPAU 1.0");
}

#[test]
fn parse_device_name_empty_string_is_empty() {
    assert_eq!(parse_device_name(""), "");
}

#[test]
fn parse_device_name_agrees_with_lines_and_trim() {
    for s in [
        "\n",
        "\nname",
        "a\r\nb",
        " \t \u{a0}name\u{3000}\u{2028}x\u{2009}\n",
        "   \n  ",
        "\u{200b}zero width\u{200b}",
        "日本語 ドライバ\n",
    ] {
        assert_eq!(
            parse_device_name(s),
            s.lines().next().unwrap_or("").trim(),
            "{s:?}"
        );
    }
}

#[test]
fn white_space_is_that_of_unicode() {
    for n in 0..=0x10_ffffu32 {
        if let Some(c) = char::from_u32(n) {
            assert_eq!(is_white(c), c.is_whitespace(), "U+{n:04X}");
        }
    }
}

#[test]
fn parse_driver_version_picks_dotted_number() {
    let s = "NVIDIA VDPAU Driver Shared Library  580.95.05  Sat Aug 16";
    assert_eq!(parse_driver_version(s).as_deref(), Some("580.95.05"));
}

#[test]
fn parse_driver_version_short_form_works() {
    assert_eq!(
        parse_driver_version("Mesa VDPAU 1.0").as_deref(),
        Some("1.0")
    );
}

#[test]
fn parse_driver_version_returns_none_when_absent() {
    assert!(parse_driver_version("VDPAU placeholder banner").is_none());
    assert!(parse_driver_version("").is_none());
}

#[test]
fn parse_driver_version_skips_non_dot_numbers() {
    // "16" is digits-only — no dot, so not a version.
    assert!(parse_driver_version("foo 16 bar").is_none());
}

#[test]
fn parse_driver_version_takes_the_first_that_fits() {
    assert_eq!(
        parse_driver_version("v1.0 .5 1.x 2. 3.4 5.6").as_deref(),
        Some("2.")
    );
    assert!(parse_driver_version("1.0-rc1 ١.٢").is_none());
    assert_eq!(
        parse_driver_version("a\u{2003}1.2\u{2003}").as_deref(),
        Some("1.2")
    );
}

#[test]
fn engine_info_reports_nvidia_vdpau_or_skips() {
    let devs = nvidia();
    assert_eq!(devs.len(), 1);
    let dev = &devs[0];
    assert!(!dev.name.is_empty(), "name non-empty");
    assert!(dev.api_version.is_some(), "API version reported");
    let h264 = dev.codecs.iter().find(|c| c.codec == "h264");
    assert!(h264.is_some(), "h264 entry");
    let h264 = h264.unwrap();
    assert!(h264.decode, "h264 decode supported");
    assert!(
        h264.max_width.unwrap_or(0) >= 1920,
        "h264 max_width >= 1920"
    );
    assert!(!h264.encode, "vdpau has no encode");
}

#[test]
fn engine_info_fields() {
    let dev = &nvidia()[0];
    assert_eq!(dev.name, BANNER);
    assert_eq!(dev.driver_version.as_deref(), Some("580.95.05"));
    assert_eq!(dev.api_version.as_deref(), Some("VDPAU API 1"));
    assert_eq!(dev.total_memory_bytes, None);
    assert_eq!(
        dev.extra,
        vec![("information_string".to_string(), BANNER.to_string())]
    );
    assert_eq!(dev.codecs.len(), 7);
}

#[test]
fn engine_info_without_a_device_is_empty() {
    assert!(engine_info(None).is_empty());
}

#[test]
fn engine_info_with_a_silent_driver_has_defaults() {
    let devs = engine_info(Some(DeviceReport {
        information_string: Err(VdpError::vdp(1, "VdpGetInformationString")),
        api_version: Err(VdpError::vdp(1, "VdpGetApiVersion")),
        codecs: Vec::new(),
    }));
    assert_eq!(devs.len(), 1);
    assert_eq!(devs[0].name, "VDPAU device");
    assert_eq!(devs[0].driver_version, None);
    assert_eq!(devs[0].api_version, None);
    assert!(devs[0].extra.is_empty());
}

#[test]
fn engine_info_of_a_blank_banner_keeps_the_banner() {
    let devs = engine_info(Some(DeviceReport {
        information_string: Ok("  ".to_string()),
        api_version: Ok(7),
        codecs: Vec::new(),
    }));
    assert_eq!(devs[0].name, "VDPAU device");
    assert_eq!(devs[0].api_version.as_deref(), Some("VDPAU API 7"));
    assert_eq!(
        devs[0].extra,
        vec![("information_string".to_string(), "  ".to_string())]
    );
}

#[test]
fn probe_reports_every_family() {
    let rows = probe(|_| Ok(caps(true)));
    let codecs: Vec<&str> = rows.iter().map(|r| r.codec.as_str()).collect();
    assert_eq!(
        codecs,
        vec!["h264", "hevc", "vp9", "av1", "mpeg2", "vc1", "mpeg4"]
    );
    assert_eq!(
        rows[0].profiles,
        vec![
            "Baseline",
            "Main",
            "High",
            "ConstrainedBaseline",
            "Extended",
            "ProgressiveHigh",
            "ConstrainedHigh"
        ]
    );
    assert_eq!(rows[4].profiles, vec!["Simple", "Main"]);
    for row in &rows {
        assert!(row.decode);
        assert!(!row.encode);
        assert_eq!(row.max_width, Some(4096));
        assert_eq!(row.max_height, Some(4080));
        assert_eq!(row.max_bit_depth, None);
        assert_eq!(
            row.extra,
            vec![
                ("max_macroblocks".to_string(), "65536".to_string()),
                ("max_level".to_string(), "51".to_string())
            ]
        );
    }
}

#[test]
fn probe_leaves_out_what_the_driver_rejects() {
    // HEVC gives an error, H.264 knows High alone, VP9 is not supported.
    let rows = probe(|raw| match Profile::from_raw(raw).unwrap().codec_id() {
        "hevc" => Err(VdpError::vdp(3, "VdpDecoderQueryCapabilities")),
        "h264" => Ok(caps(raw == Profile::H264High.as_raw())),
        "vp9" => Ok(caps(false)),
        _ => Ok(caps(true)),
    });
    let codecs: Vec<&str> = rows.iter().map(|r| r.codec.as_str()).collect();
    assert_eq!(codecs, vec!["h264", "vp9", "av1", "mpeg2", "vc1", "mpeg4"]);
    assert_eq!(rows[0].profiles, vec!["High"]);
    assert!(rows[0].decode);
    assert!(rows[1].profiles.is_empty());
    assert!(!rows[1].decode);
}

#[test]
fn probe_asks_representatives_first() {
    let mut probe = CapsProbe::new();
    let mut asked = Vec::new();
    while let Some(query) = probe.next_query() {
        asked.push(query);
        probe = probe.answer(Ok(caps(true)));
    }
    // Seven representatives and twenty-five profiles.
    assert_eq!(asked.len(), 32);
    assert_eq!(asked[0], Profile::H264High.as_raw());
    assert_eq!(asked[1], Profile::H264Baseline.as_raw());
    assert_eq!(asked[8], Profile::HevcMain.as_raw());
    assert_eq!(asked[9], Profile::HevcMain.as_raw());
    // A representative that gives an error ends its family.
    let next = CapsProbe::new().answer(Err(VdpError::vdp(1, "x")));
    assert_eq!(next.next_query(), Some(Profile::HevcMain.as_raw()));
}

#[test]
fn queries_cover_every_profile_once() {
    let mut seen = Vec::new();
    for k in 0..FAMILIES {
        let query = codec_query(k);
        assert!(query.profiles.contains(&query.representative));
        for p in query.profiles {
            assert_eq!(p.codec_id(), query.codec);
            seen.push(p.as_raw());
        }
    }
    seen.sort();
    let all: Vec<u32> = Profile::ALL.iter().map(|p| p.as_raw()).collect();
    assert_eq!(seen, all);
}

#[test]
fn validate_device_index_zero_ok() {
    let r = validate_device_index(0, &nvidia());
    assert!(r.is_ok(), "device_index=0 should be valid: {r:?}");
}

#[test]
fn validate_device_index_out_of_range_errors() {
    let r = validate_device_index(99, &nvidia());
    assert!(r.is_err(), "device_index=99 should be rejected");
    let msg = r.unwrap_err().to_string();
    assert!(
        msg.contains("out of range"),
        "error message mentions out-of-range: got {msg:?}"
    );
    assert_eq!(msg, "vdpau: device_index 99 out of range (0..1)");
}

#[test]
fn validate_device_index_without_devices_errors() {
    let r = validate_device_index(0, &Vec::new());
    assert_eq!(r.unwrap_err().message, "no VDPAU device available");
}

#[test]
fn validate_request_defaults_to_device_zero() {
    assert!(validate_request(None, &nvidia()).is_ok());
    assert!(validate_request(Some(0), &nvidia()).is_ok());
    assert!(validate_request(Some(1), &nvidia()).is_err());
    assert!(validate_request(None, &Vec::new()).is_err());
}
