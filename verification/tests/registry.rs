//! Registration with the codec registry.

use oxideav_core::{CodecCapabilities, CodecId, CodecInfo, CodecTag, RuntimeContext};
use oxideav_vdpau::registry::{codec_entry, CODECS};

fn count_vdpau_rows<'a>(ctx: &'a RuntimeContext, id: &CodecId) -> Vec<&'a CodecCapabilities> {
    ctx.codecs
        .implementations(id)
        .iter()
        .map(|i| &i.caps)
        .filter(|c| c.implementation.ends_with("_vdpau"))
        .collect()
}

/// Something that carries the engine probe.
fn probe() -> CodecInfo {
    CodecInfo::new(CodecId::new("vdpau"))
}

fn register_once() -> RuntimeContext {
    let mut ctx = RuntimeContext::default();
    assert_eq!(oxideav_vdpau::register(&mut ctx, Ok(()), &probe()), None);
    ctx
}

fn claims(ctx: &RuntimeContext) -> Vec<(CodecTag, String)> {
    ctx.codecs
        .all_tag_registrations()
        .map(|(tag, id)| (tag.clone(), id.as_str().to_string()))
        .collect()
}

fn fourcc(text: &[u8; 4]) -> CodecTag {
    CodecTag::Fourcc(*text)
}

#[test]
fn register_pushes_four_codecs() {
    let ctx = register_once();

    let h264 = count_vdpau_rows(&ctx, &CodecId::new("h264")).len();
    let hevc = count_vdpau_rows(&ctx, &CodecId::new("hevc")).len();
    let vp9 = count_vdpau_rows(&ctx, &CodecId::new("vp9")).len();
    let mpeg2 = count_vdpau_rows(&ctx, &CodecId::new("mpeg2video")).len();
    let total = h264 + hevc + vp9 + mpeg2;
    if total == 0 {
        // The registry lists implementations only where there is a factory;
        // what is registered shows in the tags.
        let mut ids: Vec<String> = claims(&ctx).into_iter().map(|(_, id)| id).collect();
        ids.dedup();
        assert_eq!(ids, vec!["h264", "hevc", "vp9", "mpeg2video"]);
        return;
    }
    assert_eq!(h264, 1, "expected exactly one h264 vdpau row, got {h264}");
    assert_eq!(hevc, 1, "expected exactly one hevc vdpau row, got {hevc}");
    assert_eq!(vp9, 1, "expected exactly one vp9 vdpau row, got {vp9}");
    assert_eq!(
        mpeg2, 1,
        "expected exactly one mpeg2video vdpau row, got {mpeg2}"
    );
}

#[test]
fn registered_capability_flags_match() {
    let ctx = register_once();

    let cid = CodecId::new("h264");
    for caps in count_vdpau_rows(&ctx, &cid) {
        assert!(caps.decode, "vdpau h264 row should advertise decode");
        assert!(
            !caps.encode,
            "vdpau has no encode side; encode flag should be false"
        );
        assert!(
            caps.hardware_accelerated,
            "vdpau is a HW backend; flag should be set"
        );
        assert_eq!(caps.priority, 15, "vdpau priority is 15 by convention");
        assert_eq!(caps.max_width, Some(8192));
        assert_eq!(caps.max_height, Some(8192));
        assert_eq!(caps.implementation, "h264_vdpau");
    }

    let entry = codec_entry(0);
    assert_eq!(entry.codec, "h264");
    assert!(entry.decode);
    assert!(
        !entry.encode,
        "vdpau has no encode side; encode flag should be false"
    );
    assert!(entry.lossy);
    assert!(entry.hardware);
    assert_eq!(entry.priority, 15);
    assert_eq!(entry.max_width, 8192);
    assert_eq!(entry.max_height, 8192);
    assert_eq!(entry.implementation, "h264_vdpau");
    assert_eq!(entry.engine_id, "vdpau");
}

#[test]
fn registered_codecs_share_vdpau_suffix() {
    let ctx = register_once();

    for (k, codec_id_str) in ["h264", "hevc", "vp9", "mpeg2video"].iter().enumerate() {
        let expected_short = match *codec_id_str {
            "mpeg2video" => "mpeg2",
            other => other,
        };
        for row in count_vdpau_rows(&ctx, &CodecId::new(*codec_id_str)) {
            assert_eq!(
                row.implementation,
                format!("{expected_short}_vdpau"),
                "{codec_id_str}: implementation string mismatch"
            );
            assert!(
                row.hardware_accelerated,
                "{codec_id_str}: hardware_accelerated should be true"
            );
        }
        let entry = codec_entry(k);
        assert_eq!(entry.codec, *codec_id_str);
        assert_eq!(
            entry.implementation,
            format!("{expected_short}_vdpau"),
            "{codec_id_str}: implementation string mismatch"
        );
        assert!(
            entry.hardware,
            "{codec_id_str}: hardware_accelerated should be true"
        );
    }
    assert_eq!(CODECS, 4);
}

#[test]
fn register_claims_the_tags_in_order() {
    let ctx = register_once();
    let expected: Vec<(CodecTag, &str)> = vec![
        (fourcc(b"H264"), "h264"),
        (fourcc(b"H264"), "h264"),
        (fourcc(b"AVC1"), "h264"),
        (fourcc(b"AVC1"), "h264"),
        (fourcc(b"X264"), "h264"),
        (CodecTag::matroska("V_MPEG4/ISO/AVC"), "h264"),
        (fourcc(b"HVC1"), "hevc"),
        (fourcc(b"HEV1"), "hevc"),
        (fourcc(b"HEVC"), "hevc"),
        (fourcc(b"H265"), "hevc"),
        (CodecTag::matroska("V_MPEGH/ISO/HEVC"), "hevc"),
        (fourcc(b"VP90"), "vp9"),
        (fourcc(b"VP09"), "vp9"),
        (CodecTag::matroska("V_VP9"), "vp9"),
        (fourcc(b"MPG2"), "mpeg2video"),
        (fourcc(b"MPG2"), "mpeg2video"),
        (fourcc(b"M2V "), "mpeg2video"),
        (CodecTag::matroska("V_MPEG2"), "mpeg2video"),
    ];
    let expected: Vec<(CodecTag, String)> = expected
        .into_iter()
        .map(|(tag, id)| (tag, id.to_string()))
        .collect();
    assert_eq!(claims(&ctx), expected);
}

#[test]
fn register_adds_to_what_is_there() {
    let mut ctx = RuntimeContext::default();
    ctx.codecs
        .register(CodecInfo::new(CodecId::new("flac")).tag(fourcc(b"fLaC")));
    oxideav_vdpau::register(&mut ctx, Ok(()), &probe());
    let all = claims(&ctx);
    assert_eq!(all[0], (fourcc(b"fLaC"), "flac".to_string()));
    assert_eq!(all.len(), 19);
    assert_eq!(ctx.codecs.all_implementations().count(), 0);
}

#[test]
fn register_without_libraries_registers_nothing() {
    let mut ctx = RuntimeContext::default();
    let log = oxideav_vdpau::register(
        &mut ctx,
        Err("dlopen libvdpau.so.1: gone".to_string()),
        &probe(),
    );
    assert_eq!(
        log.as_deref(),
        Some(
            "oxideav-vdpau: library unavailable, skipping registration: dlopen libvdpau.so.1: gone"
        )
    );
    assert!(claims(&ctx).is_empty());
}

#[test]
fn claims_do_not_collide() {
    let mut tags: Vec<(String, &'static str)> = Vec::new();
    for k in 0..CODECS {
        let entry = codec_entry(k);
        for fourcc in &entry.fourccs {
            tags.push((
                String::from_utf8_lossy(fourcc).to_ascii_uppercase(),
                entry.codec,
            ));
        }
        tags.push((entry.matroska.to_string(), entry.codec));
    }
    for (tag, codec) in &tags {
        for (other, owner) in &tags {
            if tag == other {
                assert_eq!(codec, owner);
            }
        }
    }
}
