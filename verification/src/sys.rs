//! VDPAU's numbers and picture-parameter records as plain Rust values.
//!
//! The records carry the fields of their C counterparts in the same order and
//! with the same widths. They have Rust layout; the code that talks to the
//! driver copies them into C layout.

use vstd::prelude::*;
use vstd::string::*;

verus! {

/// VDPAU device handle.
pub type VdpDevice = u32;

/// VDPAU decoder handle.
pub type VdpDecoder = u32;

/// VDPAU video surface handle.
pub type VdpVideoSurface = u32;

/// Return code of almost every VDPAU entry point.
pub type VdpStatus = i32;

/// Index of an entry point in the table behind `VdpGetProcAddress`.
pub type VdpFuncId = u32;

/// VDPAU's boolean: zero is false, anything else is true.
pub type VdpBool = i32;

/// Raw decoder profile number.
pub type VdpDecoderProfile = u32;

/// Raw chroma type number.
pub type VdpChromaType = u32;

/// Raw Y'CbCr format number.
pub type VdpYCbCrFormat = u32;

/// Success.
pub const VDP_STATUS_OK: VdpStatus = 0;

/// A handle that names nothing.
pub const VDP_INVALID_HANDLE: u32 = 0xffff_ffff;

/// 4:2:0 chroma.
pub const VDP_CHROMA_TYPE_420: VdpChromaType = 0;

/// A luma plane and one plane of interleaved chroma samples.
pub const VDP_YCBCR_FORMAT_NV12: VdpYCbCrFormat = 0;

/// Version number of the bitstream-buffer record.
pub const VDP_BITSTREAM_BUFFER_VERSION: u32 = 0;

pub const VDP_FUNC_ID_GET_API_VERSION: VdpFuncId = 2;

pub const VDP_FUNC_ID_GET_INFORMATION_STRING: VdpFuncId = 4;

pub const VDP_FUNC_ID_DEVICE_DESTROY: VdpFuncId = 5;

pub const VDP_FUNC_ID_VIDEO_SURFACE_CREATE: VdpFuncId = 9;

pub const VDP_FUNC_ID_VIDEO_SURFACE_DESTROY: VdpFuncId = 10;

pub const VDP_FUNC_ID_VIDEO_SURFACE_GET_BITS_Y_CB_CR: VdpFuncId = 12;

pub const VDP_FUNC_ID_DECODER_QUERY_CAPABILITIES: VdpFuncId = 36;

pub const VDP_FUNC_ID_DECODER_CREATE: VdpFuncId = 37;

pub const VDP_FUNC_ID_DECODER_DESTROY: VdpFuncId = 38;

pub const VDP_FUNC_ID_DECODER_RENDER: VdpFuncId = 40;

pub const VDP_DECODER_PROFILE_MPEG2_SIMPLE: VdpDecoderProfile = 1;

pub const VDP_DECODER_PROFILE_MPEG2_MAIN: VdpDecoderProfile = 2;

pub const VDP_DECODER_PROFILE_H264_BASELINE: VdpDecoderProfile = 6;

pub const VDP_DECODER_PROFILE_H264_MAIN: VdpDecoderProfile = 7;

pub const VDP_DECODER_PROFILE_H264_HIGH: VdpDecoderProfile = 8;

pub const VDP_DECODER_PROFILE_VC1_SIMPLE: VdpDecoderProfile = 9;

pub const VDP_DECODER_PROFILE_VC1_MAIN: VdpDecoderProfile = 10;

pub const VDP_DECODER_PROFILE_VC1_ADVANCED: VdpDecoderProfile = 11;

pub const VDP_DECODER_PROFILE_MPEG4_PART2_SP: VdpDecoderProfile = 12;

pub const VDP_DECODER_PROFILE_MPEG4_PART2_ASP: VdpDecoderProfile = 13;

pub const VDP_DECODER_PROFILE_H264_CONSTRAINED_BASELINE: VdpDecoderProfile = 22;

pub const VDP_DECODER_PROFILE_H264_EXTENDED: VdpDecoderProfile = 23;

pub const VDP_DECODER_PROFILE_H264_PROGRESSIVE_HIGH: VdpDecoderProfile = 24;

pub const VDP_DECODER_PROFILE_H264_CONSTRAINED_HIGH: VdpDecoderProfile = 25;

pub const VDP_DECODER_PROFILE_VP9_PROFILE_0: VdpDecoderProfile = 27;

pub const VDP_DECODER_PROFILE_VP9_PROFILE_1: VdpDecoderProfile = 28;

pub const VDP_DECODER_PROFILE_VP9_PROFILE_2: VdpDecoderProfile = 29;

pub const VDP_DECODER_PROFILE_VP9_PROFILE_3: VdpDecoderProfile = 30;

pub const VDP_DECODER_PROFILE_HEVC_MAIN: VdpDecoderProfile = 100;

pub const VDP_DECODER_PROFILE_HEVC_MAIN_10: VdpDecoderProfile = 101;

pub const VDP_DECODER_PROFILE_HEVC_MAIN_STILL: VdpDecoderProfile = 102;

pub const VDP_DECODER_PROFILE_HEVC_MAIN_12: VdpDecoderProfile = 103;

pub const VDP_DECODER_PROFILE_AV1_MAIN: VdpDecoderProfile = 107;

pub const VDP_DECODER_PROFILE_AV1_HIGH: VdpDecoderProfile = 108;

pub const VDP_DECODER_PROFILE_AV1_PROFESSIONAL: VdpDecoderProfile = 109;

/// Part of an input buffer that is handed to the decoder.
#[derive(Debug, Clone, Copy)]
pub struct VdpBitstreamBuffer {
    pub struct_version: u32,
    /// Offset of the first byte in the input buffer.
    pub offset: usize,
    pub bitstream_bytes: u32,
}

/// A reference picture of an H.264 picture.
#[derive(Debug, Clone, Copy)]
pub struct VdpReferenceFrameH264 {
    pub surface: VdpVideoSurface,
    pub is_long_term: VdpBool,
    pub top_is_reference: VdpBool,
    pub bottom_is_reference: VdpBool,
    pub field_order_cnt: [i32; 2],
    pub frame_idx: u16,
}

/// Picture parameters of an H.264 picture.
#[derive(Debug, Clone, Copy)]
pub struct VdpPictureInfoH264 {
    pub slice_count: u32,
    pub field_order_cnt: [i32; 2],
    pub is_reference: VdpBool,
    pub frame_num: u16,
    pub field_pic_flag: u8,
    pub bottom_field_flag: u8,
    pub num_ref_frames: u8,
    pub mb_adaptive_frame_field_flag: u8,
    pub constrained_intra_pred_flag: u8,
    pub weighted_pred_flag: u8,
    pub weighted_bipred_idc: u8,
    pub frame_mbs_only_flag: u8,
    pub transform_8x8_mode_flag: u8,
    pub chroma_qp_index_offset: i8,
    pub second_chroma_qp_index_offset: i8,
    pub pic_init_qp_minus26: i8,
    pub num_ref_idx_l0_active_minus1: u8,
    pub num_ref_idx_l1_active_minus1: u8,
    pub log2_max_frame_num_minus4: u8,
    pub pic_order_cnt_type: u8,
    pub log2_max_pic_order_cnt_lsb_minus4: u8,
    pub delta_pic_order_always_zero_flag: u8,
    pub direct_8x8_inference_flag: u8,
    pub entropy_coding_mode_flag: u8,
    pub pic_order_present_flag: u8,
    pub deblocking_filter_control_present_flag: u8,
    pub redundant_pic_cnt_present_flag: u8,
    pub scaling_lists_4x4: [[u8; 16]; 6],
    pub scaling_lists_8x8: [[u8; 64]; 2],
    pub reference_frames: [VdpReferenceFrameH264; 16],
}

/// Picture parameters of an HEVC picture.
#[derive(Debug, Clone, Copy)]
pub struct VdpPictureInfoHEVC {
    pub chroma_format_idc: u8,
    pub separate_colour_plane_flag: u8,
    pub pic_width_in_luma_samples: u32,
    pub pic_height_in_luma_samples: u32,
    pub bit_depth_luma_minus8: u8,
    pub bit_depth_chroma_minus8: u8,
    pub log2_max_pic_order_cnt_lsb_minus4: u8,
    pub sps_max_dec_pic_buffering_minus1: u8,
    pub log2_min_luma_coding_block_size_minus3: u8,
    pub log2_diff_max_min_luma_coding_block_size: u8,
    pub log2_min_transform_block_size_minus2: u8,
    pub log2_diff_max_min_transform_block_size: u8,
    pub max_transform_hierarchy_depth_inter: u8,
    pub max_transform_hierarchy_depth_intra: u8,
    pub scaling_list_enabled_flag: u8,
    pub scaling_list_4x4: [[u8; 16]; 6],
    pub scaling_list_8x8: [[u8; 64]; 6],
    pub scaling_list_16x16: [[u8; 64]; 6],
    pub scaling_list_32x32: [[u8; 64]; 2],
    pub scaling_list_dc_coeff_16x16: [u8; 6],
    pub scaling_list_dc_coeff_32x32: [u8; 2],
    pub amp_enabled_flag: u8,
    pub sample_adaptive_offset_enabled_flag: u8,
    pub pcm_enabled_flag: u8,
    pub pcm_sample_bit_depth_luma_minus1: u8,
    pub pcm_sample_bit_depth_chroma_minus1: u8,
    pub log2_min_pcm_luma_coding_block_size_minus3: u8,
    pub log2_diff_max_min_pcm_luma_coding_block_size: u8,
    pub pcm_loop_filter_disabled_flag: u8,
    pub num_short_term_ref_pic_sets: u8,
    pub long_term_ref_pics_present_flag: u8,
    pub num_long_term_ref_pics_sps: u8,
    pub sps_temporal_mvp_enabled_flag: u8,
    pub strong_intra_smoothing_enabled_flag: u8,
    pub dependent_slice_segments_enabled_flag: u8,
    pub output_flag_present_flag: u8,
    pub num_extra_slice_header_bits: u8,
    pub sign_data_hiding_enabled_flag: u8,
    pub cabac_init_present_flag: u8,
    pub num_ref_idx_l0_default_active_minus1: u8,
    pub num_ref_idx_l1_default_active_minus1: u8,
    pub init_qp_minus26: i8,
    pub constrained_intra_pred_flag: u8,
    pub transform_skip_enabled_flag: u8,
    pub cu_qp_delta_enabled_flag: u8,
    pub diff_cu_qp_delta_depth: u8,
    pub pps_cb_qp_offset: i8,
    pub pps_cr_qp_offset: i8,
    pub pps_slice_chroma_qp_offsets_present_flag: u8,
    pub weighted_pred_flag: u8,
    pub weighted_bipred_flag: u8,
    pub transquant_bypass_enabled_flag: u8,
    pub tiles_enabled_flag: u8,
    pub entropy_coding_sync_enabled_flag: u8,
    pub num_tile_columns_minus1: u8,
    pub num_tile_rows_minus1: u8,
    pub uniform_spacing_flag: u8,
    pub column_width_minus1: [u16; 20],
    pub row_height_minus1: [u16; 22],
    pub loop_filter_across_tiles_enabled_flag: u8,
    pub pps_loop_filter_across_slices_enabled_flag: u8,
    pub deblocking_filter_control_present_flag: u8,
    pub deblocking_filter_override_enabled_flag: u8,
    pub pps_deblocking_filter_disabled_flag: u8,
    pub pps_beta_offset_div2: i8,
    pub pps_tc_offset_div2: i8,
    pub lists_modification_present_flag: u8,
    pub log2_parallel_merge_level_minus2: u8,
    pub slice_segment_header_extension_present_flag: u8,
    pub idr_pic_flag: u8,
    pub rap_pic_flag: u8,
    pub curr_rps_idx: u8,
    pub num_poc_total_curr: u32,
    pub num_delta_pocs_of_ref_rps_idx: u32,
    pub num_short_term_picture_slice_header_bits: u32,
    pub num_long_term_picture_slice_header_bits: u32,
    pub curr_pic_order_cnt_val: i32,
    pub ref_pics: [VdpVideoSurface; 16],
    pub pic_order_cnt_val: [i32; 16],
    pub is_long_term: [u8; 16],
    pub num_poc_st_curr_before: u8,
    pub num_poc_st_curr_after: u8,
    pub num_poc_lt_curr: u8,
    pub ref_pic_set_st_curr_before: [u8; 8],
    pub ref_pic_set_st_curr_after: [u8; 8],
    pub ref_pic_set_lt_curr: [u8; 8],
}

/// Picture parameters of a VP9 frame.
#[derive(Debug, Clone, Copy)]
pub struct VdpPictureInfoVP9 {
    pub width: u32,
    pub height: u32,
    pub last_reference: VdpVideoSurface,
    pub golden_reference: VdpVideoSurface,
    pub alt_reference: VdpVideoSurface,
    pub color_space: u8,
    pub profile: u16,
    pub frame_context_idx: u16,
    pub key_frame: u16,
    pub show_frame: u16,
    pub error_resilient: u16,
    pub frame_parallel_decoding: u16,
    pub sub_sampling_x: u16,
    pub sub_sampling_y: u16,
    pub intra_only: u16,
    pub allow_high_precision_mv: u16,
    pub refresh_entropy_probs: u16,
    pub ref_frame_sign_bias: [u8; 4],
    pub bit_depth_minus8_luma: u8,
    pub bit_depth_minus8_chroma: u8,
    pub loop_filter_level: u8,
    pub loop_filter_sharpness: u8,
    pub mode_ref_lf_enabled: u8,
    pub log2_tile_columns: u8,
    pub log2_tile_rows: u8,
    pub segment_enabled: u8,
    pub segment_map_update: u8,
    pub segment_map_temporal_update: u8,
    pub segment_feature_mode: u8,
    pub segment_feature_enable: [[u8; 4]; 8],
    pub segment_feature_data: [[i16; 4]; 8],
    pub mb_segment_tree_probs: [u8; 7],
    pub segment_pred_probs: [u8; 3],
    pub reserved_segment_16_bits: [u8; 2],
    pub qp_y_ac: i32,
    pub qp_y_dc: i32,
    pub qp_ch_dc: i32,
    pub qp_ch_ac: i32,
    pub active_ref_idx: [u32; 3],
    pub reset_frame_context: u32,
    pub mcomp_filter_type: u32,
    pub mb_ref_lf_delta: [u32; 4],
    pub mb_mode_lf_delta: [u32; 2],
    pub uncompressed_header_size: u32,
    pub compressed_header_size: u32,
}

/// Picture parameters of an MPEG-1 or MPEG-2 picture.
#[derive(Debug, Clone, Copy)]
pub struct VdpPictureInfoMPEG1Or2 {
    pub forward_reference: VdpVideoSurface,
    pub backward_reference: VdpVideoSurface,
    pub slice_count: u32,
    pub picture_structure: u8,
    pub picture_coding_type: u8,
    pub intra_dc_precision: u8,
    pub frame_pred_frame_dct: u8,
    pub concealment_motion_vectors: u8,
    pub intra_vlc_format: u8,
    pub alternate_scan: u8,
    pub q_scale_type: u8,
    pub top_field_first: u8,
    pub full_pel_forward_vector: u8,
    pub full_pel_backward_vector: u8,
    pub f_code: [[u8; 2]; 2],
    pub intra_quantizer_matrix: [u8; 64],
    pub non_intra_quantizer_matrix: [u8; 64],
}

/// A library that is loaded when the process first needs it.
#[derive(Debug, Clone, Copy, PartialEq, Eq, Structural)]
pub enum SystemLibrary {
    /// The VDPAU library.
    Vdpau,
    /// The X11 client library.
    X11,
}

impl SystemLibrary {
    /// The name under which the dynamic linker finds the library.
    pub open spec fn name(self) -> Seq<char> {
        match self {
            SystemLibrary::Vdpau => "libvdpau.so.1"@,
            SystemLibrary::X11 => "libX11.so.6"@,
        }
    }

    /// The name under which the dynamic linker finds the library.
    pub fn soname(self) -> (name: &'static str)
        ensures
            name@ == self.name(),
    {
        match self {
            SystemLibrary::Vdpau => "libvdpau.so.1",
            SystemLibrary::X11 => "libX11.so.6",
        }
    }
}

/// A symbol that is looked up in a library.
#[derive(Debug, Clone, Copy, PartialEq, Eq, Structural)]
pub enum SystemSymbol {
    VdpDeviceCreateX11,
    XOpenDisplay,
    XCloseDisplay,
    XDefaultScreen,
}

impl SystemSymbol {
    /// The library that exports the symbol.
    pub open spec fn home(self) -> SystemLibrary {
        if self == SystemSymbol::VdpDeviceCreateX11 {
            SystemLibrary::Vdpau
        } else {
            SystemLibrary::X11
        }
    }

    /// The symbol's name.
    pub open spec fn text(self) -> Seq<char> {
        match self {
            SystemSymbol::VdpDeviceCreateX11 => "vdp_device_create_x11"@,
            SystemSymbol::XOpenDisplay => "XOpenDisplay"@,
            SystemSymbol::XCloseDisplay => "XCloseDisplay"@,
            SystemSymbol::XDefaultScreen => "XDefaultScreen"@,
        }
    }

    /// The library that exports the symbol.
    pub fn library(self) -> (library: SystemLibrary)
        ensures
            library == self.home(),
    {
        match self {
            SystemSymbol::VdpDeviceCreateX11 => SystemLibrary::Vdpau,
            _ => SystemLibrary::X11,
        }
    }

    /// The symbol's name.
    pub fn name(self) -> (name: &'static str)
        ensures
            name@ == self.text(),
    {
        match self {
            SystemSymbol::VdpDeviceCreateX11 => "vdp_device_create_x11",
            SystemSymbol::XOpenDisplay => "XOpenDisplay",
            SystemSymbol::XCloseDisplay => "XCloseDisplay",
            SystemSymbol::XDefaultScreen => "XDefaultScreen",
        }
    }
}

/// A symbol is looked up in the library whose naming it follows: `X` for X11,
/// `vdp` for VDPAU. No two symbols and no two libraries share a name.
pub proof fn law_symbols_live_in_their_library(a: SystemSymbol, b: SystemSymbol)
    ensures
        a.text()[0] == 'X' <==> a.home() == SystemLibrary::X11,
        a.text()[0] == 'v' <==> a.home() == SystemLibrary::Vdpau,
        a.text() == b.text() ==> a == b,
        a.home().name() == b.home().name() ==> a.home() == b.home(),
        a.home().name().take(3) == "lib"@,
{
    reveal_strlit("vdp_device_create_x11");
    reveal_strlit("XOpenDisplay");
    reveal_strlit("XCloseDisplay");
    reveal_strlit("XDefaultScreen");
    reveal_strlit("libvdpau.so.1");
    reveal_strlit("libX11.so.6");
    reveal_strlit("lib");
    assert("libvdpau.so.1"@.len() == 13 && "libX11.so.6"@.len() == 11);
    assert("XOpenDisplay"@.len() == 12 && "XCloseDisplay"@.len() == 13 && "XDefaultScreen"@.len()
        == 14 && "vdp_device_create_x11"@.len() == 21);
    assert("libvdpau.so.1"@.take(3) == "lib"@);
    assert("libX11.so.6"@.take(3) == "lib"@);
}

/// The message for a library that could not be loaded.
pub open spec fn dlopen_message(library: SystemLibrary, reason: Seq<char>) -> Seq<char> {
    "dlopen "@ + library.name() + ": "@ + reason
}

/// The message for a symbol that could not be found.
pub open spec fn dlsym_message(symbol: SystemSymbol, reason: Seq<char>) -> Seq<char> {
    "dlsym "@ + symbol.text() + ": "@ + reason
}

/// The messages name what failed, and end with what the dynamic linker said.
pub proof fn law_linker_messages(library: SystemLibrary, symbol: SystemSymbol, reason: Seq<char>)
    ensures
        ({
            let text = dlopen_message(library, reason);
            let n = library.name().len() as int;
            &&& text.len() == 7 + n + 2 + reason.len()
            &&& text.take(7) == "dlopen "@
            &&& text.subrange(7, 7 + n) == library.name()
            &&& text.skip(7 + n + 2) == reason
        }),
        ({
            let text = dlsym_message(symbol, reason);
            let n = symbol.text().len() as int;
            &&& text.len() == 6 + n + 2 + reason.len()
            &&& text.take(6) == "dlsym "@
            &&& text.subrange(6, 6 + n) == symbol.text()
            &&& text.skip(6 + n + 2) == reason
        }),
{
    reveal_strlit("dlopen ");
    reveal_strlit("dlsym ");
    reveal_strlit(": ");
    let opened = dlopen_message(library, reason);
    let n = library.name().len() as int;
    assert(opened.take(7) =~= "dlopen "@);
    assert(opened.subrange(7, 7 + n) =~= library.name());
    assert(opened.skip(7 + n + 2) =~= reason);
    let found = dlsym_message(symbol, reason);
    let m = symbol.text().len() as int;
    assert(found.take(6) =~= "dlsym "@);
    assert(found.subrange(6, 6 + m) =~= symbol.text());
    assert(found.skip(6 + m + 2) =~= reason);
}

/// What loading a library comes to, given what the dynamic linker said.
pub fn library_loaded(library: SystemLibrary, result: Result<(), String>) -> (res: Result<
    (),
    String,
>)
    ensures
        match result {
            Ok(_) => res is Ok,
            Err(reason) => res matches Err(message) && message@ == dlopen_message(
                library,
                reason@,
            ),
        },
{
    match result {
        Ok(_) => Ok(()),
        Err(reason) => Err(
            "dlopen ".to_owned().concat(library.soname()).concat(": ").concat(reason.as_str()),
        ),
    }
}

/// What looking up a symbol comes to, given what the dynamic linker said.
pub fn symbol_found(symbol: SystemSymbol, result: Result<(), String>) -> (res: Result<(), String>)
    ensures
        match result {
            Ok(_) => res is Ok,
            Err(reason) => res matches Err(message) && message@ == dlsym_message(symbol, reason@),
        },
{
    match result {
        Ok(_) => Ok(()),
        Err(reason) => Err(
            "dlsym ".to_owned().concat(symbol.name()).concat(": ").concat(reason.as_str()),
        ),
    }
}

} // verus!
