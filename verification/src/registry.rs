//! Registration of the decoders with the codec registry of the framework.

use oxideav_core::{CodecCapabilities, CodecId, CodecInfo, CodecTag, RuntimeContext};
use vstd::prelude::*;
use vstd::string::*;

verus! {

/// The framework's registries. Of what they hold, [`tag_claims`] and
/// [`implementations`] are spoken of.
#[verifier::external_type_specification]
#[verifier::external_body]
pub struct ExRuntimeContext(oxideav_core::RuntimeContext);

/// The framework's description of one codec registration.
#[verifier::external_type_specification]
#[verifier::external_body]
pub struct ExCodecInfo(oxideav_core::CodecInfo);

/// The container tags that the codec registry lists, in registration order:
/// the codec that a tag is claimed for, and the four characters or the
/// Matroska codec id, or neither for a tag of another sort.
pub uninterp spec fn tag_claims(ctx: RuntimeContext) -> Seq<
    (Seq<char>, Option<Seq<u8>>, Option<Seq<char>>),
>;

/// The implementations that the codec registry lists, in its own order: codec
/// and implementation name.
pub uninterp spec fn implementations(ctx: RuntimeContext) -> Seq<(Seq<char>, Seq<char>)>;

/// One decoder as it is registered.
#[derive(Debug, Clone)]
pub struct CodecEntry {
    pub codec: &'static str,
    pub implementation: &'static str,
    pub decode: bool,
    pub encode: bool,
    pub lossy: bool,
    pub hardware: bool,
    /// The lower, the sooner it is tried.
    pub priority: i32,
    pub max_width: u32,
    pub max_height: u32,
    /// Four-character container tags.
    pub fourccs: Vec<[u8; 4]>,
    /// Matroska codec id.
    pub matroska: &'static str,
    pub engine_id: &'static str,
}

/// The number of decoders that are registered.
pub const CODECS: usize = 4;

/// The codec of decoder `k`.
pub open spec fn codec(k: int) -> Seq<char> {
    if k == 0 {
        "h264"@
    } else if k == 1 {
        "hevc"@
    } else if k == 2 {
        "vp9"@
    } else {
        "mpeg2video"@
    }
}

/// The implementation name of decoder `k`.
pub open spec fn implementation(k: int) -> Seq<char> {
    if k == 0 {
        "h264_vdpau"@
    } else if k == 1 {
        "hevc_vdpau"@
    } else if k == 2 {
        "vp9_vdpau"@
    } else {
        "mpeg2_vdpau"@
    }
}

/// The four-character tags of decoder `k`.
pub open spec fn fourccs(k: int) -> Seq<Seq<u8>> {
    if k == 0 {
        seq![
            // "H264"
            seq![0x48u8, 0x32u8, 0x36u8, 0x34u8],
            // "h264"
            seq![0x68u8, 0x32u8, 0x36u8, 0x34u8],
            // "AVC1"
            seq![0x41u8, 0x56u8, 0x43u8, 0x31u8],
            // "avc1"
            seq![0x61u8, 0x76u8, 0x63u8, 0x31u8],
            // "X264"
            seq![0x58u8, 0x32u8, 0x36u8, 0x34u8],
        ]
    } else if k == 1 {
        seq![
            // "hvc1"
            seq![0x68u8, 0x76u8, 0x63u8, 0x31u8],
            // "hev1"
            seq![0x68u8, 0x65u8, 0x76u8, 0x31u8],
            // "HEVC"
            seq![0x48u8, 0x45u8, 0x56u8, 0x43u8],
            // "H265"
            seq![0x48u8, 0x32u8, 0x36u8, 0x35u8],
        ]
    } else if k == 2 {
        seq![
            // "VP90"
            seq![0x56u8, 0x50u8, 0x39u8, 0x30u8],
            // "vp09"
            seq![0x76u8, 0x70u8, 0x30u8, 0x39u8],
        ]
    } else {
        seq![
            // "MPG2"
            seq![0x4du8, 0x50u8, 0x47u8, 0x32u8],
            // "mpg2"
            seq![0x6du8, 0x70u8, 0x67u8, 0x32u8],
            // "M2V "
            seq![0x4du8, 0x32u8, 0x56u8, 0x20u8],
        ]
    }
}

/// The Matroska codec id of decoder `k`.
pub open spec fn matroska(k: int) -> Seq<char> {
    if k == 0 {
        "V_MPEG4/ISO/AVC"@
    } else if k == 1 {
        "V_MPEGH/ISO/HEVC"@
    } else if k == 2 {
        "V_VP9"@
    } else {
        "V_MPEG2"@
    }
}

/// The tags of `entry` as byte sequences.
pub open spec fn entry_fourccs(entry: CodecEntry) -> Seq<Seq<u8>> {
    Seq::new(entry.fourccs@.len(), |i: int| entry.fourccs@[i]@)
}

/// True if `entry` is decoder `k`. All are hardware decoders of lossy codecs
/// that do not encode, with the same priority and the same upper bound on the
/// picture size.
pub open spec fn is_decoder(entry: CodecEntry, k: int) -> bool {
    &&& entry.codec@ == codec(k)
    &&& entry.implementation@ == implementation(k)
    &&& entry.decode
    &&& !entry.encode
    &&& entry.lossy
    &&& entry.hardware
    &&& entry.priority == 15
    &&& entry.max_width == 8192
    &&& entry.max_height == 8192
    &&& entry_fourccs(entry) == fourccs(k)
    &&& entry.matroska@ == matroska(k)
    &&& entry.engine_id@ == "vdpau"@
}

/// Decoder `k`.
pub fn codec_entry(k: usize) -> (entry: CodecEntry)
    requires
        k < CODECS,
    ensures
        is_decoder(entry, k as int),
{
    let tags: (&'static str, &'static str, Vec<[u8; 4]>, &'static str) = if k == 0 {
        ("h264", "h264_vdpau", vec![
            // "H264"
            [0x48u8, 0x32u8, 0x36u8, 0x34u8],
            // "h264"
            [0x68u8, 0x32u8, 0x36u8, 0x34u8],
            // "AVC1"
            [0x41u8, 0x56u8, 0x43u8, 0x31u8],
            // "avc1"
            [0x61u8, 0x76u8, 0x63u8, 0x31u8],
            // "X264"
            [0x58u8, 0x32u8, 0x36u8, 0x34u8],
        ], "V_MPEG4/ISO/AVC")
    } else if k == 1 {
        ("hevc", "hevc_vdpau", vec![
            // "hvc1"
            [0x68u8, 0x76u8, 0x63u8, 0x31u8],
            // "hev1"
            [0x68u8, 0x65u8, 0x76u8, 0x31u8],
            // "HEVC"
            [0x48u8, 0x45u8, 0x56u8, 0x43u8],
            // "H265"
            [0x48u8, 0x32u8, 0x36u8, 0x35u8],
        ], "V_MPEGH/ISO/HEVC")
    } else if k == 2 {
        ("vp9", "vp9_vdpau", vec![
            // "VP90"
            [0x56u8, 0x50u8, 0x39u8, 0x30u8],
            // "vp09"
            [0x76u8, 0x70u8, 0x30u8, 0x39u8],
        ], "V_VP9")
    } else {
        ("mpeg2video", "mpeg2_vdpau", vec![
            // "MPG2"
            [0x4du8, 0x50u8, 0x47u8, 0x32u8],
            // "mpg2"
            [0x6du8, 0x70u8, 0x67u8, 0x32u8],
            // "M2V "
            [0x4du8, 0x32u8, 0x56u8, 0x20u8],
        ], "V_MPEG2")
    };
    let entry: CodecEntry = CodecEntry {
        codec: tags.0,
        implementation: tags.1,
        decode: true,
        encode: false,
        lossy: true,
        hardware: true,
        priority: 15,
        max_width: 8192,
        max_height: 8192,
        fourccs: tags.2,
        matroska: tags.3,
        engine_id: "vdpau",
    };
    assert(entry_fourccs(entry) =~~= fourccs(k as int));
    entry
}

/// A byte with ASCII letters in upper case.
pub open spec fn upper(byte: u8) -> u8 {
    if 0x61 <= byte <= 0x7a {
        (byte - 0x20) as u8
    } else {
        byte
    }
}

/// The claim that a four-character tag makes: letters count as upper case.
pub open spec fn fourcc_claim(codec: Seq<char>, fourcc: Seq<u8>) -> (
    Seq<char>,
    Option<Seq<u8>>,
    Option<Seq<char>>,
) {
    (codec, Some(fourcc.map_values(|b: u8| upper(b))), None)
}

/// The claims that `entry` makes.
pub open spec fn entry_claims(entry: CodecEntry) -> Seq<
    (Seq<char>, Option<Seq<u8>>, Option<Seq<char>>),
> {
    entry_fourccs(entry).map_values(|f: Seq<u8>| fourcc_claim(entry.codec@, f)).push(
        (entry.codec@, None, Some(entry.matroska@)),
    )
}

/// The claims that decoder `k` makes.
pub open spec fn decoder_claims(k: int) -> Seq<(Seq<char>, Option<Seq<u8>>, Option<Seq<char>>)> {
    fourccs(k).map_values(|f: Seq<u8>| fourcc_claim(codec(k), f)).push(
        (codec(k), None, Some(matroska(k))),
    )
}

/// The claims that the first `k` decoders make.
pub open spec fn claims_before(k: int) -> Seq<(Seq<char>, Option<Seq<u8>>, Option<Seq<char>>)>
    decreases k,
{
    if k <= 0 {
        Seq::empty()
    } else {
        claims_before(k - 1) + decoder_claims(k - 1)
    }
}

/// Registers `entry` through `CodecRegistry::register`, with the engine probe
/// that `probe` carries and without a decoder factory. Claimed: the registry
/// then lists the tags of `entry` behind those that it listed before, in the
/// order in which they are declared and with the letters of four-character
/// tags in upper case; and it lists the same implementations as before,
/// because it makes an implementation of a registration only where there is a
/// factory. The capabilities, the engine id and the engine probe are kept
/// only as part of an implementation, so nothing is said of what becomes of
/// them; what is handed over is one of the decoders, with its priority, flags,
/// size and engine id.
#[verifier::external_body]
fn register_entry(ctx: &mut RuntimeContext, entry: &CodecEntry, probe: &CodecInfo)
    requires
        exists|k: int| 0 <= k < CODECS && is_decoder(*entry, k),
    ensures
        tag_claims(*final(ctx)) == tag_claims(*old(ctx)) + entry_claims(*entry),
        implementations(*final(ctx)) == implementations(*old(ctx)),
{
    let mut caps = CodecCapabilities::video(entry.implementation)
        .with_lossy(entry.lossy)
        .with_hardware(entry.hardware)
        .with_priority(entry.priority)
        .with_max_size(entry.max_width, entry.max_height);
    caps.decode = entry.decode;
    caps.encode = entry.encode;
    let mut info = CodecInfo::new(CodecId::new(entry.codec))
        .capabilities(caps)
        .tags(entry.fourccs.iter().map(CodecTag::fourcc))
        .tag(CodecTag::matroska(entry.matroska))
        .with_engine_id(entry.engine_id);
    info.engine_probe = probe.engine_probe;
    ctx.codecs.register(info);
}

/// The line that is logged when the libraries are not there.
pub open spec fn skip_message(reason: Seq<char>) -> Seq<char> {
    "oxideav-vdpau: library unavailable, skipping registration: "@ + reason
}

/// Register the decoders, if the libraries could be loaded. Otherwise nothing
/// is registered, and a line to log is returned. The registrations carry the
/// engine probe of `probe`.
pub fn register(ctx: &mut RuntimeContext, libraries: Result<(), String>, probe: &CodecInfo) -> (log:
    Option<String>)
    ensures
        match libraries {
            Ok(_) => {
                &&& log is None
                &&& tag_claims(*final(ctx)) == tag_claims(*old(ctx)) + claims_before(CODECS as int)
                &&& implementations(*final(ctx)) == implementations(*old(ctx))
            },
            Err(reason) => {
                &&& log matches Some(line) && line@ == skip_message(reason@)
                &&& *final(ctx) == *old(ctx)
            },
        },
{
    match libraries {
        Err(reason) => Some(
            "oxideav-vdpau: library unavailable, skipping registration: ".to_owned().concat(
                reason.as_str(),
            ),
        ),
        Ok(_) => {
            let ghost before = *ctx;
            let mut k: usize = 0;
            assert(tag_claims(before) + claims_before(0) == tag_claims(before));
            while k < CODECS
                invariant
                    k <= CODECS,
                    tag_claims(*ctx) == tag_claims(before) + claims_before(k as int),
                    implementations(*ctx) == implementations(before),
                decreases CODECS - k,
            {
                let entry: CodecEntry = codec_entry(k);
                assert(entry_claims(entry) == decoder_claims(k as int));
                register_entry(ctx, &entry, probe);
                k = k + 1;
                assert(tag_claims(*ctx) == tag_claims(before) + claims_before(k as int));
            }
            None
        },
    }
}

/// The line that is logged starts with the name of this library and ends with
/// the reason.
pub proof fn law_skip_message(reason: Seq<char>)
    ensures
        ({
            let line = skip_message(reason);
            &&& line.len() >= 15 + reason.len()
            &&& line.take(15) == "oxideav-vdpau: "@
            &&& line.skip(line.len() - reason.len()) == reason
        }),
{
    reveal_strlit("oxideav-vdpau: library unavailable, skipping registration: ");
    reveal_strlit("oxideav-vdpau: ");
    let line = skip_message(reason);
    assert(line.take(15) =~= "oxideav-vdpau: "@);
    assert(line.skip(line.len() - reason.len()) =~= reason);
}

/// A claim on a four-character tag.
pub open spec fn four(codec: Seq<char>, a: u8, b: u8, c: u8, d: u8) -> (
    Seq<char>,
    Option<Seq<u8>>,
    Option<Seq<char>>,
) {
    (codec, Some(seq![a, b, c, d]), None)
}

/// What registering comes to: the tags, in upper case, and the Matroska codec
/// ids, each under the name of its codec.
pub proof fn law_registered_claims()
    ensures
        claims_before(CODECS as int) == seq![
            // H264
            four("h264"@, 0x48u8, 0x32u8, 0x36u8, 0x34u8),
            // H264
            four("h264"@, 0x48u8, 0x32u8, 0x36u8, 0x34u8),
            // AVC1
            four("h264"@, 0x41u8, 0x56u8, 0x43u8, 0x31u8),
            // AVC1
            four("h264"@, 0x41u8, 0x56u8, 0x43u8, 0x31u8),
            // X264
            four("h264"@, 0x58u8, 0x32u8, 0x36u8, 0x34u8),
            ("h264"@, None, Some("V_MPEG4/ISO/AVC"@)),
        ] + seq![
            // HVC1
            four("hevc"@, 0x48u8, 0x56u8, 0x43u8, 0x31u8),
            // HEV1
            four("hevc"@, 0x48u8, 0x45u8, 0x56u8, 0x31u8),
            // HEVC
            four("hevc"@, 0x48u8, 0x45u8, 0x56u8, 0x43u8),
            // H265
            four("hevc"@, 0x48u8, 0x32u8, 0x36u8, 0x35u8),
            ("hevc"@, None, Some("V_MPEGH/ISO/HEVC"@)),
        ] + seq![
            // VP90
            four("vp9"@, 0x56u8, 0x50u8, 0x39u8, 0x30u8),
            // VP09
            four("vp9"@, 0x56u8, 0x50u8, 0x30u8, 0x39u8),
            ("vp9"@, None, Some("V_VP9"@)),
        ] + seq![
            // MPG2
            four("mpeg2video"@, 0x4du8, 0x50u8, 0x47u8, 0x32u8),
            // MPG2
            four("mpeg2video"@, 0x4du8, 0x50u8, 0x47u8, 0x32u8),
            // M2V 
            four("mpeg2video"@, 0x4du8, 0x32u8, 0x56u8, 0x20u8),
            ("mpeg2video"@, None, Some("V_MPEG2"@)),
        ],
{
    reveal_with_fuel(claims_before, 5);
    assert(claims_before(CODECS as int) =~= decoder_claims(0) + decoder_claims(1) + decoder_claims(2)
        + decoder_claims(3));
    assert(decoder_claims(0) =~~= seq![
            // H264
            four("h264"@, 0x48u8, 0x32u8, 0x36u8, 0x34u8),
            // H264
            four("h264"@, 0x48u8, 0x32u8, 0x36u8, 0x34u8),
            // AVC1
            four("h264"@, 0x41u8, 0x56u8, 0x43u8, 0x31u8),
            // AVC1
            four("h264"@, 0x41u8, 0x56u8, 0x43u8, 0x31u8),
            // X264
            four("h264"@, 0x58u8, 0x32u8, 0x36u8, 0x34u8),
            ("h264"@, None, Some("V_MPEG4/ISO/AVC"@)),
        ]);
    assert(decoder_claims(1) =~~= seq![
            // HVC1
            four("hevc"@, 0x48u8, 0x56u8, 0x43u8, 0x31u8),
            // HEV1
            four("hevc"@, 0x48u8, 0x45u8, 0x56u8, 0x31u8),
            // HEVC
            four("hevc"@, 0x48u8, 0x45u8, 0x56u8, 0x43u8),
            // H265
            four("hevc"@, 0x48u8, 0x32u8, 0x36u8, 0x35u8),
            ("hevc"@, None, Some("V_MPEGH/ISO/HEVC"@)),
        ]);
    assert(decoder_claims(2) =~~= seq![
            // VP90
            four("vp9"@, 0x56u8, 0x50u8, 0x39u8, 0x30u8),
            // VP09
            four("vp9"@, 0x56u8, 0x50u8, 0x30u8, 0x39u8),
            ("vp9"@, None, Some("V_VP9"@)),
        ]);
    assert(decoder_claims(3) =~~= seq![
            // MPG2
            four("mpeg2video"@, 0x4du8, 0x50u8, 0x47u8, 0x32u8),
            // MPG2
            four("mpeg2video"@, 0x4du8, 0x50u8, 0x47u8, 0x32u8),
            // M2V 
            four("mpeg2video"@, 0x4du8, 0x32u8, 0x56u8, 0x20u8),
            ("mpeg2video"@, None, Some("V_MPEG2"@)),
        ]);
}

/// All decoders are offered alike: as hardware decoders of lossy codecs, behind
/// anything with a priority below 15, for pictures of up to 8192 by 8192.
pub proof fn law_decoders_are_offered_alike(entry: CodecEntry, k: int)
    requires
        0 <= k < CODECS,
        is_decoder(entry, k),
    ensures
        entry.decode && entry.hardware && entry.lossy && !entry.encode,
        entry.priority == 15,
        entry.max_width == 8192 && entry.max_height == 8192,
        entry.engine_id@ == "vdpau"@,
        entry.fourccs@.len() + 1 == decoder_claims(k).len(),
        forall|i: int| 0 <= i < entry.fourccs@.len() ==> #[trigger] entry.fourccs@[i]@ == fourccs(k)[i],
        k < 3 ==> entry.implementation@ == entry.codec@ + "_vdpau"@,
        k == 3 ==> entry.implementation@ == entry.codec@.take(5) + "_vdpau"@,
{
    reveal_strlit("h264");
    reveal_strlit("hevc");
    reveal_strlit("vp9");
    reveal_strlit("mpeg2video");
    reveal_strlit("h264_vdpau");
    reveal_strlit("hevc_vdpau");
    reveal_strlit("vp9_vdpau");
    reveal_strlit("mpeg2_vdpau");
    reveal_strlit("_vdpau");
    assert(entry_fourccs(entry).len() == entry.fourccs@.len());
    assert forall|i: int| 0 <= i < entry.fourccs@.len() implies #[trigger] entry.fourccs@[i]@
        == fourccs(k)[i] by {
        assert(entry_fourccs(entry)[i] == entry.fourccs@[i]@);
    }
    assert("h264_vdpau"@ =~= "h264"@ + "_vdpau"@);
    assert("hevc_vdpau"@ =~= "hevc"@ + "_vdpau"@);
    assert("vp9_vdpau"@ =~= "vp9"@ + "_vdpau"@);
    assert("mpeg2_vdpau"@ =~= "mpeg2video"@.take(5) + "_vdpau"@);
}

/// Every decoder has its own implementation name, and each ends in `_vdpau`.
pub proof fn law_implementation_names(k: int, l: int)
    requires
        0 <= k < CODECS,
        0 <= l < CODECS,
    ensures
        implementation(k) == implementation(l) ==> k == l,
        implementation(k).len() >= 6,
        implementation(k).skip(implementation(k).len() - 6) == "_vdpau"@,
{
    reveal_strlit("h264_vdpau");
    reveal_strlit("hevc_vdpau");
    reveal_strlit("vp9_vdpau");
    reveal_strlit("mpeg2_vdpau");
    reveal_strlit("_vdpau");
    assert(implementation(k).skip(implementation(k).len() - 6) == "_vdpau"@);
    assert(implementation(0)[1] == '2');
    assert(implementation(1)[1] == 'e');
    assert(implementation(2)[1] == 'p');
    assert(implementation(3)[1] == 'p');
    assert(implementation(2).len() == 9);
    assert(implementation(3).len() == 11);
}

/// No two decoders claim the same four-character tag, even where letters count
/// as upper case, and no two claim the same Matroska codec id.
pub proof fn law_claims_do_not_collide(k: int, l: int, i: int, j: int)
    requires
        0 <= k < l < CODECS,
        0 <= i < fourccs(k).len(),
        0 <= j < fourccs(l).len(),
    ensures
        fourcc_claim(codec(k), fourccs(k)[i]).1 != fourcc_claim(codec(l), fourccs(l)[j]).1,
        matroska(k) != matroska(l),
{
    let a = fourccs(k)[i].map_values(|b: u8| upper(b));
    let b = fourccs(l)[j].map_values(|b: u8| upper(b));
    assert(a[0] != b[0] || a[1] != b[1] || a[2] != b[2] || a[3] != b[3]);
    reveal_strlit("V_MPEG4/ISO/AVC");
    reveal_strlit("V_MPEGH/ISO/HEVC");
    reveal_strlit("V_VP9");
    reveal_strlit("V_MPEG2");
    assert(matroska(k).len() != matroska(l).len());
}

} // verus!
