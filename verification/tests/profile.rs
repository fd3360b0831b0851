//! Decoder profiles.

use oxideav_vdpau::sys::VdpDecoderProfile;
use oxideav_vdpau::Profile;

#[test]
fn round_trip_all_known_profiles() {
    for p in Profile::ALL {
        let raw = p.as_raw();
        let back = Profile::from_raw(raw)
            .unwrap_or_else(|| panic!("Profile::from_raw({raw}) returned None for known {p:?}"));
        assert_eq!(p, back, "round-trip mismatch for {p:?}");
    }
}

#[test]
fn from_raw_unknown_returns_none() {
    // Gaps in the VDPAU numbering: 0 (reserved), 3/4/5 (gap before the H.264
    // family), 26 (gap between the H.264 family and VP9), 104..106 (gap
    // between HEVC and AV1). All should fall through to None.
    for raw in [0u32, 3, 4, 5, 26, 104, 105, 106, 200, u32::MAX] {
        assert!(
            Profile::from_raw(raw).is_none(),
            "expected None for raw={raw}, got Some(_)"
        );
    }
}

#[test]
fn from_raw_knows_exactly_the_listed_numbers() {
    let known: Vec<u32> = (0..1000)
        .filter(|raw| Profile::from_raw(*raw).is_some())
        .collect();
    assert_eq!(
        known,
        vec![
            1, 2, 6, 7, 8, 9, 10, 11, 12, 13, 22, 23, 24, 25, 27, 28, 29, 30, 100, 101, 102, 103,
            107, 108, 109
        ]
    );
}

#[test]
fn codec_id_groups_h264_family() {
    for p in [
        Profile::H264Baseline,
        Profile::H264Main,
        Profile::H264High,
        Profile::H264ConstrainedBaseline,
        Profile::H264Extended,
        Profile::H264ProgressiveHigh,
        Profile::H264ConstrainedHigh,
    ] {
        assert_eq!(p.codec_id(), "h264", "{p:?} should be in the h264 family");
    }
}

#[test]
fn codec_id_groups_hevc_family() {
    for p in [
        Profile::HevcMain,
        Profile::HevcMain10,
        Profile::HevcMainStill,
        Profile::HevcMain12,
    ] {
        assert_eq!(p.codec_id(), "hevc");
    }
}

#[test]
fn codec_id_groups_vp9_family() {
    for p in [
        Profile::Vp9Profile0,
        Profile::Vp9Profile1,
        Profile::Vp9Profile2,
        Profile::Vp9Profile3,
    ] {
        assert_eq!(p.codec_id(), "vp9");
    }
}

#[test]
fn codec_id_groups_av1_family() {
    for p in [Profile::Av1Main, Profile::Av1High, Profile::Av1Professional] {
        assert_eq!(p.codec_id(), "av1");
    }
}

#[test]
fn codec_id_groups_mpeg2_vc1_mpeg4_families() {
    assert_eq!(Profile::Mpeg2Simple.codec_id(), "mpeg2");
    assert_eq!(Profile::Mpeg2Main.codec_id(), "mpeg2");
    assert_eq!(Profile::Vc1Simple.codec_id(), "vc1");
    assert_eq!(Profile::Vc1Main.codec_id(), "vc1");
    assert_eq!(Profile::Vc1Advanced.codec_id(), "vc1");
    assert_eq!(Profile::Mpeg4Part2Sp.codec_id(), "mpeg4");
    assert_eq!(Profile::Mpeg4Part2Asp.codec_id(), "mpeg4");
}

#[test]
fn label_matches_engine_query_strings() {
    assert_eq!(Profile::H264Baseline.label(), "Baseline");
    assert_eq!(Profile::H264Main.label(), "Main");
    assert_eq!(Profile::H264High.label(), "High");
    assert_eq!(
        Profile::H264ConstrainedBaseline.label(),
        "ConstrainedBaseline"
    );
    assert_eq!(Profile::H264Extended.label(), "Extended");
    assert_eq!(Profile::H264ProgressiveHigh.label(), "ProgressiveHigh");
    assert_eq!(Profile::H264ConstrainedHigh.label(), "ConstrainedHigh");
    assert_eq!(Profile::HevcMain.label(), "Main");
    assert_eq!(Profile::HevcMain10.label(), "Main10");
    assert_eq!(Profile::HevcMainStill.label(), "MainStill");
    assert_eq!(Profile::HevcMain12.label(), "Main12");
    assert_eq!(Profile::Vp9Profile0.label(), "0");
    assert_eq!(Profile::Vp9Profile1.label(), "1");
    assert_eq!(Profile::Vp9Profile2.label(), "2");
    assert_eq!(Profile::Vp9Profile3.label(), "3");
    assert_eq!(Profile::Av1Main.label(), "Main");
    assert_eq!(Profile::Av1High.label(), "High");
    assert_eq!(Profile::Av1Professional.label(), "Pro");
    assert_eq!(Profile::Mpeg2Simple.label(), "Simple");
    assert_eq!(Profile::Mpeg2Main.label(), "Main");
    assert_eq!(Profile::Vc1Simple.label(), "Simple");
    assert_eq!(Profile::Vc1Main.label(), "Main");
    assert_eq!(Profile::Vc1Advanced.label(), "Advanced");
    assert_eq!(Profile::Mpeg4Part2Sp.label(), "SP");
    assert_eq!(Profile::Mpeg4Part2Asp.label(), "ASP");
}

#[test]
fn as_raw_matches_sys_constants() {
    assert_eq!(Profile::H264High.as_raw(), 8);
    assert_eq!(Profile::HevcMain.as_raw(), 100);
    assert_eq!(Profile::HevcMain10.as_raw(), 101);
    assert_eq!(Profile::Vp9Profile0.as_raw(), 27);
    assert_eq!(Profile::Av1Main.as_raw(), 107);
    assert_eq!(Profile::Mpeg2Main.as_raw(), 2);
}

#[test]
fn all_is_dense_and_unique() {
    let n = Profile::ALL.len();
    // ALL must enumerate every variant exactly once.
    let mut raws: Vec<VdpDecoderProfile> = Profile::ALL.iter().map(|p| p.as_raw()).collect();
    raws.sort();
    raws.dedup();
    assert_eq!(
        raws.len(),
        n,
        "Profile::ALL contains duplicates; expected {n} unique raw values, got {}",
        raws.len()
    );
}

#[test]
fn profile_is_reachable_from_crate_root() {
    let p = Profile::H264High;
    assert_eq!(p.codec_id(), "h264");
    assert_eq!(p.label(), "High");
}

#[test]
fn every_variant_round_trips() {
    for p in Profile::ALL {
        let raw = p.as_raw();
        assert_eq!(
            Profile::from_raw(raw),
            Some(p),
            "round-trip failed for {p:?} (raw={raw})"
        );
    }
}

#[test]
fn every_variant_belongs_to_a_known_codec() {
    // The engine probe enumerates these seven codec families.
    let known: &[&str] = &["h264", "hevc", "vp9", "mpeg2", "vc1", "mpeg4", "av1"];
    for p in Profile::ALL {
        let cid = p.codec_id();
        assert!(
            known.contains(&cid),
            "Profile::{p:?} has codec_id {cid:?} which is not in the engine-probe set"
        );
    }
}

#[test]
fn h264_label_set_is_complete() {
    let h264: Vec<&str> = Profile::ALL
        .iter()
        .filter(|p| p.codec_id() == "h264")
        .map(|p| p.label())
        .collect();
    assert_eq!(
        h264,
        vec![
            "Baseline",
            "Main",
            "High",
            "ConstrainedBaseline",
            "Extended",
            "ProgressiveHigh",
            "ConstrainedHigh",
        ]
    );
}

#[test]
fn hevc_label_set_is_complete() {
    let hevc: Vec<&str> = Profile::ALL
        .iter()
        .filter(|p| p.codec_id() == "hevc")
        .map(|p| p.label())
        .collect();
    assert_eq!(hevc, vec!["Main", "Main10", "MainStill", "Main12"]);
}

#[test]
fn vp9_label_set_is_complete() {
    let vp9: Vec<&str> = Profile::ALL
        .iter()
        .filter(|p| p.codec_id() == "vp9")
        .map(|p| p.label())
        .collect();
    assert_eq!(vp9, vec!["0", "1", "2", "3"]);
}

#[test]
fn av1_label_set_is_complete() {
    let av1: Vec<&str> = Profile::ALL
        .iter()
        .filter(|p| p.codec_id() == "av1")
        .map(|p| p.label())
        .collect();
    assert_eq!(av1, vec!["Main", "High", "Pro"]);
}
