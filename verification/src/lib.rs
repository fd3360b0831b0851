//! The logic of a VDPAU hardware decode bridge, verified.
//!
//! [VDPAU](https://www.freedesktop.org/wiki/Software/VDPAU/) decodes video on
//! the GPU, but leaves it to its callers to read the stream's headers and to
//! hand the driver one record of picture parameters for each picture. This
//! crate does that for single pictures of four codecs: an IDR picture of
//! H.264 ([`h264`]) or HEVC ([`hevc`]), a keyframe of VP9 ([`vp9`]), an
//! I-picture of MPEG-2 ([`mpeg2`]). It also says what the replies of the
//! driver mean ([`device`]), reports what a device can decode ([`engine`]), and
//! registers the decoders with a codec registry ([`registry`]).
//!
//! Nothing in this crate touches a library, a display or a device. Where the
//! driver has to be asked, a function says what to ask and another takes the
//! answer; the code that loads the libraries and makes the calls stands
//! outside. What the functions compute is stated in their contracts and
//! proved.

pub mod annexb;
pub mod bits;
pub mod device;
pub mod engine;
pub mod frame;
pub mod h264;
pub mod hevc;
pub mod mpeg2;
pub mod profile;
pub mod registry;
pub mod sys;
pub mod text;
pub mod vp9;
pub mod writer;

pub use device::{DecoderCaps, Display, VdpDecoder, VdpDevice, VdpError, VdpVideoSurface};
pub use engine::{engine_info, validate_device_index};
pub use frame::DecodedFrame;
pub use h264::H264VdpauDecoder;
pub use hevc::HevcVdpauDecoder;
pub use mpeg2::Mpeg2VdpauDecoder;
pub use profile::Profile;
pub use registry::register;
pub use vp9::Vp9VdpauDecoder;
