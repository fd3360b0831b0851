//! Typed decoder profiles.
//!
//! VDPAU numbers its decoder profiles. [`Profile`] has one variant for each
//! number that this library knows, and says which codec family a profile
//! belongs to and what it is called.

use crate::sys;
use crate::sys::VdpDecoderProfile;
use vstd::prelude::*;

verus! {

/// VDPAU decoder profile.
#[derive(Debug, Clone, Copy, PartialEq, Eq, Hash, Structural)]
pub enum Profile {
    Mpeg2Simple,
    Mpeg2Main,
    H264Baseline,
    H264Main,
    H264High,
    Vc1Simple,
    Vc1Main,
    Vc1Advanced,
    Mpeg4Part2Sp,
    Mpeg4Part2Asp,
    H264ConstrainedBaseline,
    H264Extended,
    H264ProgressiveHigh,
    H264ConstrainedHigh,
    Vp9Profile0,
    Vp9Profile1,
    Vp9Profile2,
    Vp9Profile3,
    HevcMain,
    HevcMain10,
    HevcMainStill,
    HevcMain12,
    Av1Main,
    Av1High,
    Av1Professional,
}

impl Profile {
    /// Every profile, in the order of the raw numbers.
    pub const ALL: [Profile; 25] = [
        Profile::Mpeg2Simple,
        Profile::Mpeg2Main,
        Profile::H264Baseline,
        Profile::H264Main,
        Profile::H264High,
        Profile::Vc1Simple,
        Profile::Vc1Main,
        Profile::Vc1Advanced,
        Profile::Mpeg4Part2Sp,
        Profile::Mpeg4Part2Asp,
        Profile::H264ConstrainedBaseline,
        Profile::H264Extended,
        Profile::H264ProgressiveHigh,
        Profile::H264ConstrainedHigh,
        Profile::Vp9Profile0,
        Profile::Vp9Profile1,
        Profile::Vp9Profile2,
        Profile::Vp9Profile3,
        Profile::HevcMain,
        Profile::HevcMain10,
        Profile::HevcMainStill,
        Profile::HevcMain12,
        Profile::Av1Main,
        Profile::Av1High,
        Profile::Av1Professional,
    ];

    /// The raw number.
    pub open spec fn raw(self) -> VdpDecoderProfile {
        match self {
            Profile::Mpeg2Simple => sys::VDP_DECODER_PROFILE_MPEG2_SIMPLE,
            Profile::Mpeg2Main => sys::VDP_DECODER_PROFILE_MPEG2_MAIN,
            Profile::H264Baseline => sys::VDP_DECODER_PROFILE_H264_BASELINE,
            Profile::H264Main => sys::VDP_DECODER_PROFILE_H264_MAIN,
            Profile::H264High => sys::VDP_DECODER_PROFILE_H264_HIGH,
            Profile::Vc1Simple => sys::VDP_DECODER_PROFILE_VC1_SIMPLE,
            Profile::Vc1Main => sys::VDP_DECODER_PROFILE_VC1_MAIN,
            Profile::Vc1Advanced => sys::VDP_DECODER_PROFILE_VC1_ADVANCED,
            Profile::Mpeg4Part2Sp => sys::VDP_DECODER_PROFILE_MPEG4_PART2_SP,
            Profile::Mpeg4Part2Asp => sys::VDP_DECODER_PROFILE_MPEG4_PART2_ASP,
            Profile::H264ConstrainedBaseline => sys::VDP_DECODER_PROFILE_H264_CONSTRAINED_BASELINE,
            Profile::H264Extended => sys::VDP_DECODER_PROFILE_H264_EXTENDED,
            Profile::H264ProgressiveHigh => sys::VDP_DECODER_PROFILE_H264_PROGRESSIVE_HIGH,
            Profile::H264ConstrainedHigh => sys::VDP_DECODER_PROFILE_H264_CONSTRAINED_HIGH,
            Profile::Vp9Profile0 => sys::VDP_DECODER_PROFILE_VP9_PROFILE_0,
            Profile::Vp9Profile1 => sys::VDP_DECODER_PROFILE_VP9_PROFILE_1,
            Profile::Vp9Profile2 => sys::VDP_DECODER_PROFILE_VP9_PROFILE_2,
            Profile::Vp9Profile3 => sys::VDP_DECODER_PROFILE_VP9_PROFILE_3,
            Profile::HevcMain => sys::VDP_DECODER_PROFILE_HEVC_MAIN,
            Profile::HevcMain10 => sys::VDP_DECODER_PROFILE_HEVC_MAIN_10,
            Profile::HevcMainStill => sys::VDP_DECODER_PROFILE_HEVC_MAIN_STILL,
            Profile::HevcMain12 => sys::VDP_DECODER_PROFILE_HEVC_MAIN_12,
            Profile::Av1Main => sys::VDP_DECODER_PROFILE_AV1_MAIN,
            Profile::Av1High => sys::VDP_DECODER_PROFILE_AV1_HIGH,
            Profile::Av1Professional => sys::VDP_DECODER_PROFILE_AV1_PROFESSIONAL,
        }
    }

    /// The name of the codec family.
    pub open spec fn family(self) -> Seq<char> {
        match self {
            Profile::Mpeg2Simple
            | Profile::Mpeg2Main => "mpeg2"@,
            Profile::H264Baseline
            | Profile::H264Main
            | Profile::H264High
            | Profile::H264ConstrainedBaseline
            | Profile::H264Extended
            | Profile::H264ProgressiveHigh
            | Profile::H264ConstrainedHigh => "h264"@,
            Profile::Vc1Simple
            | Profile::Vc1Main
            | Profile::Vc1Advanced => "vc1"@,
            Profile::Mpeg4Part2Sp
            | Profile::Mpeg4Part2Asp => "mpeg4"@,
            Profile::Vp9Profile0
            | Profile::Vp9Profile1
            | Profile::Vp9Profile2
            | Profile::Vp9Profile3 => "vp9"@,
            Profile::HevcMain
            | Profile::HevcMain10
            | Profile::HevcMainStill
            | Profile::HevcMain12 => "hevc"@,
            Profile::Av1Main
            | Profile::Av1High
            | Profile::Av1Professional => "av1"@,
        }
    }

    /// The name of the profile in its family.
    pub open spec fn name(self) -> Seq<char> {
        match self {
            Profile::Mpeg2Simple => "Simple"@,
            Profile::Mpeg2Main => "Main"@,
            Profile::H264Baseline => "Baseline"@,
            Profile::H264Main => "Main"@,
            Profile::H264High => "High"@,
            Profile::Vc1Simple => "Simple"@,
            Profile::Vc1Main => "Main"@,
            Profile::Vc1Advanced => "Advanced"@,
            Profile::Mpeg4Part2Sp => "SP"@,
            Profile::Mpeg4Part2Asp => "ASP"@,
            Profile::H264ConstrainedBaseline => "ConstrainedBaseline"@,
            Profile::H264Extended => "Extended"@,
            Profile::H264ProgressiveHigh => "ProgressiveHigh"@,
            Profile::H264ConstrainedHigh => "ConstrainedHigh"@,
            Profile::Vp9Profile0 => "0"@,
            Profile::Vp9Profile1 => "1"@,
            Profile::Vp9Profile2 => "2"@,
            Profile::Vp9Profile3 => "3"@,
            Profile::HevcMain => "Main"@,
            Profile::HevcMain10 => "Main10"@,
            Profile::HevcMainStill => "MainStill"@,
            Profile::HevcMain12 => "Main12"@,
            Profile::Av1Main => "Main"@,
            Profile::Av1High => "High"@,
            Profile::Av1Professional => "Pro"@,
        }
    }

    /// The raw number, as the driver takes it.
    pub fn as_raw(self) -> (raw: VdpDecoderProfile)
        ensures
            raw == self.raw(),
    {
        match self {
            Profile::Mpeg2Simple => sys::VDP_DECODER_PROFILE_MPEG2_SIMPLE,
            Profile::Mpeg2Main => sys::VDP_DECODER_PROFILE_MPEG2_MAIN,
            Profile::H264Baseline => sys::VDP_DECODER_PROFILE_H264_BASELINE,
            Profile::H264Main => sys::VDP_DECODER_PROFILE_H264_MAIN,
            Profile::H264High => sys::VDP_DECODER_PROFILE_H264_HIGH,
            Profile::Vc1Simple => sys::VDP_DECODER_PROFILE_VC1_SIMPLE,
            Profile::Vc1Main => sys::VDP_DECODER_PROFILE_VC1_MAIN,
            Profile::Vc1Advanced => sys::VDP_DECODER_PROFILE_VC1_ADVANCED,
            Profile::Mpeg4Part2Sp => sys::VDP_DECODER_PROFILE_MPEG4_PART2_SP,
            Profile::Mpeg4Part2Asp => sys::VDP_DECODER_PROFILE_MPEG4_PART2_ASP,
            Profile::H264ConstrainedBaseline => sys::VDP_DECODER_PROFILE_H264_CONSTRAINED_BASELINE,
            Profile::H264Extended => sys::VDP_DECODER_PROFILE_H264_EXTENDED,
            Profile::H264ProgressiveHigh => sys::VDP_DECODER_PROFILE_H264_PROGRESSIVE_HIGH,
            Profile::H264ConstrainedHigh => sys::VDP_DECODER_PROFILE_H264_CONSTRAINED_HIGH,
            Profile::Vp9Profile0 => sys::VDP_DECODER_PROFILE_VP9_PROFILE_0,
            Profile::Vp9Profile1 => sys::VDP_DECODER_PROFILE_VP9_PROFILE_1,
            Profile::Vp9Profile2 => sys::VDP_DECODER_PROFILE_VP9_PROFILE_2,
            Profile::Vp9Profile3 => sys::VDP_DECODER_PROFILE_VP9_PROFILE_3,
            Profile::HevcMain => sys::VDP_DECODER_PROFILE_HEVC_MAIN,
            Profile::HevcMain10 => sys::VDP_DECODER_PROFILE_HEVC_MAIN_10,
            Profile::HevcMainStill => sys::VDP_DECODER_PROFILE_HEVC_MAIN_STILL,
            Profile::HevcMain12 => sys::VDP_DECODER_PROFILE_HEVC_MAIN_12,
            Profile::Av1Main => sys::VDP_DECODER_PROFILE_AV1_MAIN,
            Profile::Av1High => sys::VDP_DECODER_PROFILE_AV1_HIGH,
            Profile::Av1Professional => sys::VDP_DECODER_PROFILE_AV1_PROFESSIONAL,
        }
    }

    /// The profile with the given raw number, or `None` if there is none.
    pub fn from_raw(raw: VdpDecoderProfile) -> (profile: Option<Profile>)
        ensures
            match profile {
                Some(p) => p.raw() == raw,
                None => forall|p: Profile| #[trigger] p.raw() != raw,
            },
            forall|p: Profile| #[trigger] p.raw() == raw ==> profile == Some(p),
    {
        match raw {
            sys::VDP_DECODER_PROFILE_MPEG2_SIMPLE => Some(Profile::Mpeg2Simple),
            sys::VDP_DECODER_PROFILE_MPEG2_MAIN => Some(Profile::Mpeg2Main),
            sys::VDP_DECODER_PROFILE_H264_BASELINE => Some(Profile::H264Baseline),
            sys::VDP_DECODER_PROFILE_H264_MAIN => Some(Profile::H264Main),
            sys::VDP_DECODER_PROFILE_H264_HIGH => Some(Profile::H264High),
            sys::VDP_DECODER_PROFILE_VC1_SIMPLE => Some(Profile::Vc1Simple),
            sys::VDP_DECODER_PROFILE_VC1_MAIN => Some(Profile::Vc1Main),
            sys::VDP_DECODER_PROFILE_VC1_ADVANCED => Some(Profile::Vc1Advanced),
            sys::VDP_DECODER_PROFILE_MPEG4_PART2_SP => Some(Profile::Mpeg4Part2Sp),
            sys::VDP_DECODER_PROFILE_MPEG4_PART2_ASP => Some(Profile::Mpeg4Part2Asp),
            sys::VDP_DECODER_PROFILE_H264_CONSTRAINED_BASELINE => Some(Profile::H264ConstrainedBaseline),
            sys::VDP_DECODER_PROFILE_H264_EXTENDED => Some(Profile::H264Extended),
            sys::VDP_DECODER_PROFILE_H264_PROGRESSIVE_HIGH => Some(Profile::H264ProgressiveHigh),
            sys::VDP_DECODER_PROFILE_H264_CONSTRAINED_HIGH => Some(Profile::H264ConstrainedHigh),
            sys::VDP_DECODER_PROFILE_VP9_PROFILE_0 => Some(Profile::Vp9Profile0),
            sys::VDP_DECODER_PROFILE_VP9_PROFILE_1 => Some(Profile::Vp9Profile1),
            sys::VDP_DECODER_PROFILE_VP9_PROFILE_2 => Some(Profile::Vp9Profile2),
            sys::VDP_DECODER_PROFILE_VP9_PROFILE_3 => Some(Profile::Vp9Profile3),
            sys::VDP_DECODER_PROFILE_HEVC_MAIN => Some(Profile::HevcMain),
            sys::VDP_DECODER_PROFILE_HEVC_MAIN_10 => Some(Profile::HevcMain10),
            sys::VDP_DECODER_PROFILE_HEVC_MAIN_STILL => Some(Profile::HevcMainStill),
            sys::VDP_DECODER_PROFILE_HEVC_MAIN_12 => Some(Profile::HevcMain12),
            sys::VDP_DECODER_PROFILE_AV1_MAIN => Some(Profile::Av1Main),
            sys::VDP_DECODER_PROFILE_AV1_HIGH => Some(Profile::Av1High),
            sys::VDP_DECODER_PROFILE_AV1_PROFESSIONAL => Some(Profile::Av1Professional),
            _ => None,
        }
    }

    /// The codec family: `"h264"`, `"hevc"`, `"vp9"`, `"mpeg2"`, `"vc1"`,
    /// `"mpeg4"` or `"av1"`. For MPEG-2 this is not the name under which a
    /// codec registry lists the decoder; that is `"mpeg2video"`.
    pub fn codec_id(self) -> (id: &'static str)
        ensures
            id@ == self.family(),
    {
        match self {
            Profile::Mpeg2Simple
            | Profile::Mpeg2Main => "mpeg2",
            Profile::H264Baseline
            | Profile::H264Main
            | Profile::H264High
            | Profile::H264ConstrainedBaseline
            | Profile::H264Extended
            | Profile::H264ProgressiveHigh
            | Profile::H264ConstrainedHigh => "h264",
            Profile::Vc1Simple
            | Profile::Vc1Main
            | Profile::Vc1Advanced => "vc1",
            Profile::Mpeg4Part2Sp
            | Profile::Mpeg4Part2Asp => "mpeg4",
            Profile::Vp9Profile0
            | Profile::Vp9Profile1
            | Profile::Vp9Profile2
            | Profile::Vp9Profile3 => "vp9",
            Profile::HevcMain
            | Profile::HevcMain10
            | Profile::HevcMainStill
            | Profile::HevcMain12 => "hevc",
            Profile::Av1Main
            | Profile::Av1High
            | Profile::Av1Professional => "av1",
        }
    }

    /// The name of the profile in its family, such as `"High"` or `"Main10"`.
    pub fn label(self) -> (text: &'static str)
        ensures
            text@ == self.name(),
    {
        match self {
            Profile::Mpeg2Simple => "Simple",
            Profile::Mpeg2Main => "Main",
            Profile::H264Baseline => "Baseline",
            Profile::H264Main => "Main",
            Profile::H264High => "High",
            Profile::Vc1Simple => "Simple",
            Profile::Vc1Main => "Main",
            Profile::Vc1Advanced => "Advanced",
            Profile::Mpeg4Part2Sp => "SP",
            Profile::Mpeg4Part2Asp => "ASP",
            Profile::H264ConstrainedBaseline => "ConstrainedBaseline",
            Profile::H264Extended => "Extended",
            Profile::H264ProgressiveHigh => "ProgressiveHigh",
            Profile::H264ConstrainedHigh => "ConstrainedHigh",
            Profile::Vp9Profile0 => "0",
            Profile::Vp9Profile1 => "1",
            Profile::Vp9Profile2 => "2",
            Profile::Vp9Profile3 => "3",
            Profile::HevcMain => "Main",
            Profile::HevcMain10 => "Main10",
            Profile::HevcMainStill => "MainStill",
            Profile::HevcMain12 => "Main12",
            Profile::Av1Main => "Main",
            Profile::Av1High => "High",
            Profile::Av1Professional => "Pro",
        }
    }
}

/// No two profiles share a raw number, so a profile is recovered from its own.
pub proof fn law_raw_numbers_identify_profiles(p: Profile, q: Profile)
    ensures
        p.raw() == q.raw() <==> p == q,
{
}

/// The raw number of a profile tells its codec family.
pub proof fn law_families_by_number(p: Profile)
    ensures
        p.family() == "mpeg2"@ <==> 1 <= p.raw() <= 2,
        p.family() == "h264"@ <==> 6 <= p.raw() <= 8 || 22 <= p.raw() <= 25,
        p.family() == "vc1"@ <==> 9 <= p.raw() <= 11,
        p.family() == "mpeg4"@ <==> 12 <= p.raw() <= 13,
        p.family() == "vp9"@ <==> 27 <= p.raw() <= 30,
        p.family() == "hevc"@ <==> 100 <= p.raw() <= 103,
        p.family() == "av1"@ <==> 107 <= p.raw() <= 109,
{
    reveal_strlit("mpeg2");
    reveal_strlit("h264");
    reveal_strlit("vc1");
    reveal_strlit("mpeg4");
    reveal_strlit("vp9");
    reveal_strlit("hevc");
    reveal_strlit("av1");
    assert("h264"@[1] == '2' && "hevc"@[1] == 'e');
    assert("vp9"@[1] == 'p' && "vc1"@[1] == 'c' && "av1"@[1] == 'v');
    assert("mpeg2"@[4] == '2' && "mpeg4"@[4] == '4');
    assert("h264"@.len() == 4 && "hevc"@.len() == 4 && "vp9"@.len() == 3 && "vc1"@.len() == 3
        && "av1"@.len() == 3 && "mpeg2"@.len() == 5 && "mpeg4"@.len() == 5);
}

/// Within a family, no two profiles share a name, and the numbers of VP9's
/// profiles are their names.
pub proof fn law_names_identify_profiles(p: Profile, q: Profile)
    ensures
        p.family() == q.family() && p.name() == q.name() ==> p == q,
        27 <= p.raw() <= 30 ==> p.name() == crate::text::decimal((p.raw() - 27) as nat),
{
    law_families_by_number(p);
    law_families_by_number(q);
    reveal_strlit("Simple");
    reveal_strlit("Main");
    reveal_strlit("Baseline");
    reveal_strlit("High");
    reveal_strlit("Advanced");
    reveal_strlit("SP");
    reveal_strlit("ASP");
    reveal_strlit("ConstrainedBaseline");
    reveal_strlit("Extended");
    reveal_strlit("ProgressiveHigh");
    reveal_strlit("ConstrainedHigh");
    reveal_strlit("0");
    reveal_strlit("1");
    reveal_strlit("2");
    reveal_strlit("3");
    reveal_strlit("Main10");
    reveal_strlit("MainStill");
    reveal_strlit("Main12");
    reveal_strlit("Pro");
    assert("Simple"@.len() == 6 && "Main"@.len() == 4 && "Baseline"@.len() == 8 && "High"@.len() == 4
        && "Advanced"@.len() == 8 && "SP"@.len() == 2 && "ASP"@.len() == 3
        && "ConstrainedBaseline"@.len() == 19 && "Extended"@.len() == 8 && "ProgressiveHigh"@.len()
        == 15 && "ConstrainedHigh"@.len() == 15 && "Main10"@.len() == 6 && "MainStill"@.len() == 9
        && "Main12"@.len() == 6 && "Pro"@.len() == 3);
    assert("Main"@[0] == 'M' && "High"@[0] == 'H' && "Baseline"@[0] == 'B' && "Extended"@[0] == 'E'
        && "ProgressiveHigh"@[0] == 'P' && "ConstrainedHigh"@[0] == 'C' && "Main10"@[5] == '0'
        && "Main12"@[5] == '2');
    assert("0"@[0] == '0' && "1"@[0] == '1' && "2"@[0] == '2' && "3"@[0] == '3');
    if 27 <= p.raw() <= 30 {
        assert(p.name() =~= crate::text::decimal((p.raw() - 27) as nat));
    }
}

/// [`Profile::ALL`] lists every profile.
pub proof fn law_all_is_complete(p: Profile)
    ensures
        exists|i: int| 0 <= i < 25 && #[trigger] Profile::ALL[i] == p,
{
    let i: int = match p {
        Profile::Mpeg2Simple => 0,
        Profile::Mpeg2Main => 1,
        Profile::H264Baseline => 2,
        Profile::H264Main => 3,
        Profile::H264High => 4,
        Profile::Vc1Simple => 5,
        Profile::Vc1Main => 6,
        Profile::Vc1Advanced => 7,
        Profile::Mpeg4Part2Sp => 8,
        Profile::Mpeg4Part2Asp => 9,
        Profile::H264ConstrainedBaseline => 10,
        Profile::H264Extended => 11,
        Profile::H264ProgressiveHigh => 12,
        Profile::H264ConstrainedHigh => 13,
        Profile::Vp9Profile0 => 14,
        Profile::Vp9Profile1 => 15,
        Profile::Vp9Profile2 => 16,
        Profile::Vp9Profile3 => 17,
        Profile::HevcMain => 18,
        Profile::HevcMain10 => 19,
        Profile::HevcMainStill => 20,
        Profile::HevcMain12 => 21,
        Profile::Av1Main => 22,
        Profile::Av1High => 23,
        Profile::Av1Professional => 24,
    };
    assert(Profile::ALL[i] == p);
}

/// [`Profile::ALL`] is in increasing order of the raw numbers, so it lists no
/// profile twice.
pub proof fn law_all_is_ordered(i: int, j: int)
    requires
        0 <= i < j < 25,
    ensures
        Profile::ALL[i].raw() < Profile::ALL[j].raw(),
{
}

} // verus!
