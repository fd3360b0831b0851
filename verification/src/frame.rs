//! Decoded frames, and the steps that every one-picture decode goes through.
//!
//! A decode is a conversation with the driver. The decoder is told what
//! happened last (a [`DecodeEvent`]) and answers with what is to be done next
//! (a [`DecodeAction`]): create a surface, render into it, read it back,
//! finish.

use crate::device::VdpError;
use crate::sys::{
    VdpBitstreamBuffer, VdpChromaType, VdpDecoderProfile, VdpYCbCrFormat,
    VDP_BITSTREAM_BUFFER_VERSION, VDP_CHROMA_TYPE_420, VDP_YCBCR_FORMAT_NV12,
};
use vstd::prelude::*;

verus! {

/// Decoded I420 frame.
#[derive(Debug, Clone)]
pub struct DecodedFrame {
    pub width: u32,
    pub height: u32,
    /// Y plane, `width * height` bytes, row-major.
    pub y: Vec<u8>,
    /// Cb (U) plane, `(width / 2) * (height / 2)` bytes, row-major.
    pub u: Vec<u8>,
    /// Cr (V) plane, `(width / 2) * (height / 2)` bytes, row-major.
    pub v: Vec<u8>,
}

/// What a driver decoder is created for.
#[derive(Debug, Clone, Copy, PartialEq, Eq, Structural)]
pub struct DecoderRequest {
    pub profile: VdpDecoderProfile,
    pub width: u32,
    pub height: u32,
    pub max_references: u32,
}

/// The two planes of a surface that was read back as NV12: luma, and chroma
/// samples with Cb and Cr interleaved.
#[derive(Debug, Clone)]
pub struct Nv12Planes {
    pub y: Vec<u8>,
    pub uv: Vec<u8>,
}

/// The number of bytes in the luma plane.
pub open spec fn luma_len(width: u32, height: u32) -> nat {
    width as nat * height as nat
}

/// The number of bytes in one plane of chroma samples.
pub open spec fn chroma_len(width: u32, height: u32) -> nat {
    (width / 2) as nat * (height / 2) as nat
}

/// The samples at even places of `uv`.
pub open spec fn evens(uv: Seq<u8>) -> Seq<u8> {
    Seq::new(uv.len() / 2, |k: int| uv[2 * k])
}

/// The samples at odd places of `uv`.
pub open spec fn odds(uv: Seq<u8>) -> Seq<u8> {
    Seq::new(uv.len() / 2, |k: int| uv[2 * k + 1])
}

/// The samples of `u` and `v` in turn.
pub open spec fn interleaved(u: Seq<u8>, v: Seq<u8>) -> Seq<u8> {
    Seq::new(
        2 * u.len(),
        |k: int|
            if k % 2 == 0 {
                u[k / 2]
            } else {
                v[k / 2]
            },
    )
}

impl Nv12Planes {
    /// True if the planes are those of a picture of this size.
    pub open spec fn fits(&self, width: u32, height: u32) -> bool {
        &&& self.y@.len() == luma_len(width, height)
        &&& self.uv@.len() == 2 * chroma_len(width, height)
    }
}

impl DecodedFrame {
    /// True if this is the frame that `planes` hold.
    pub open spec fn shows(&self, planes: Nv12Planes, width: u32, height: u32) -> bool {
        &&& self.width == width
        &&& self.height == height
        &&& self.y@ == planes.y@
        &&& self.u@ == evens(planes.uv@)
        &&& self.v@ == odds(planes.uv@)
    }
}

/// Taking apart two planes that were interleaved gives them back.
pub proof fn law_deinterleave_undoes_interleave(u: Seq<u8>, v: Seq<u8>)
    requires
        u.len() == v.len(),
    ensures
        evens(interleaved(u, v)) == u,
        odds(interleaved(u, v)) == v,
{
    let uv = interleaved(u, v);
    assert forall|k: int| 0 <= k < u.len() implies uv[2 * k] == u[k] && uv[2 * k + 1] == v[k] by {
        assert((2 * k) % 2 == 0);
        assert((2 * k + 1) % 2 == 1);
    }
    assert(evens(uv) == u);
    assert(odds(uv) == v);
}

/// The planes of a frame have the sizes of a 4:2:0 picture.
pub proof fn law_frame_plane_sizes(
    frame: DecodedFrame,
    planes: Nv12Planes,
    width: u32,
    height: u32,
)
    requires
        planes.fits(width, height),
        frame.shows(planes, width, height),
    ensures
        frame.y@.len() == width * height,
        frame.u@.len() == (width / 2) * (height / 2),
        frame.v@.len() == (width / 2) * (height / 2),
{
}

/// A frame holds the samples that were read back: of planes that hold `u` and `v`
/// in turn, it has `u` and `v` apart.
pub proof fn law_frame_holds_the_samples(
    frame: DecodedFrame,
    planes: Nv12Planes,
    u: Seq<u8>,
    v: Seq<u8>,
    width: u32,
    height: u32,
)
    requires
        u.len() == v.len(),
        planes.uv@.len() == 2 * u.len(),
        forall|i: int|
            0 <= i < u.len() ==> planes.uv@[2 * i] == #[trigger] u[i] && planes.uv@[2 * i + 1]
                == v[i],
        frame.shows(planes, width, height),
    ensures
        frame.width == width,
        frame.height == height,
        frame.y@ == planes.y@,
        frame.u@ == u,
        frame.v@ == v,
{
    assert forall|i: int| 0 <= i < u.len() implies evens(planes.uv@)[i] == u[i] && odds(
        planes.uv@,
    )[i] == v[i] by {
        assert(planes.uv@[2 * i] == u[i]);
    }
    assert(evens(planes.uv@) == u);
    assert(odds(planes.uv@) == v);
}

/// Split the interleaved chroma plane, which turns NV12 into I420.
pub fn nv12_to_i420(width: u32, height: u32, planes: Nv12Planes) -> (frame: DecodedFrame)
    requires
        planes.fits(width, height),
    ensures
        frame.shows(planes, width, height),
{
    let total: usize = planes.uv.len();
    let n: usize = total / 2;
    let mut u: Vec<u8> = Vec::with_capacity(n);
    let mut v: Vec<u8> = Vec::with_capacity(n);
    let mut k: usize = 0;
    while k < n
        invariant
            k <= n,
            total == planes.uv@.len(),
            n == total / 2,
            u@.len() == k,
            v@.len() == k,
            forall|i: int| 0 <= i < k ==> #[trigger] u@[i] == planes.uv@[2 * i],
            forall|i: int| 0 <= i < k ==> #[trigger] v@[i] == planes.uv@[2 * i + 1],
        decreases n - k,
    {
        u.push(planes.uv[2 * k]);
        v.push(planes.uv[2 * k + 1]);
        k = k + 1;
    }
    assert(u@ == evens(planes.uv@));
    assert(v@ == odds(planes.uv@));
    DecodedFrame { width, height, y: planes.y, u, v }
}

/// What happened last in a decode.
pub enum DecodeEvent {
    /// The decode begins.
    Started,
    /// The surface was created, or could not be.
    SurfaceCreated(Result<(), VdpError>),
    /// The picture was rendered, or could not be.
    Rendered(Result<(), VdpError>),
    /// The surface was read back, or could not be.
    BitsRead(Result<Nv12Planes, VdpError>),
}

impl DecodeEvent {
    /// True unless the planes that were read back have the wrong size.
    pub open spec fn fits(&self, width: u32, height: u32) -> bool {
        *self matches DecodeEvent::BitsRead(Ok(planes)) ==> planes.fits(width, height)
    }
}

/// What is to be done next in a decode. `P` is the codec's picture-parameter
/// record.
pub enum DecodeAction<P> {
    /// Create a video surface.
    CreateSurface { chroma_type: VdpChromaType, width: u32, height: u32 },
    /// Render part of the input into the surface.
    Render { picture_info: P, bitstream: VdpBitstreamBuffer },
    /// Read the surface back into two planes of these sizes.
    ReadBits { format: VdpYCbCrFormat, plane_lens: [u64; 2], pitches: [u32; 2] },
    /// The decode is over.
    Finish(Result<DecodedFrame, VdpError>),
}

impl<P> DecodeAction<P> {
    /// True if this creates a 4:2:0 surface of the given size.
    pub open spec fn creates_surface(&self, width: u32, height: u32) -> bool {
        *self == (DecodeAction::<P>::CreateSurface {
            chroma_type: VDP_CHROMA_TYPE_420,
            width,
            height,
        })
    }

    /// True if this renders the input from byte `offset` on for `len` bytes.
    pub open spec fn renders(&self, offset: int, len: nat) -> bool {
        self matches DecodeAction::Render { bitstream, .. } && {
            &&& bitstream.struct_version == VDP_BITSTREAM_BUFFER_VERSION
            &&& bitstream.offset == offset
            &&& bitstream.bitstream_bytes == len as u32
        }
    }

    /// True if this reads back a picture of the given size as NV12.
    pub open spec fn reads_bits(&self, width: u32, height: u32) -> bool {
        self matches DecodeAction::ReadBits { format, plane_lens, pitches } && {
            &&& format == VDP_YCBCR_FORMAT_NV12
            &&& plane_lens[0] == luma_len(width, height)
            &&& plane_lens[1] == 2 * chroma_len(width, height)
            &&& pitches[0] == width
            &&& pitches[1] == 2 * (width / 2)
        }
    }

    /// True if this ends the decode with `f`.
    pub open spec fn fails(&self, f: crate::device::Failure) -> bool {
        self matches DecodeAction::Finish(Err(e)) && e@ == f
    }

    /// True if this ends the decode with the frame that `planes` hold.
    pub open spec fn shows(&self, planes: Nv12Planes, width: u32, height: u32) -> bool {
        self matches DecodeAction::Finish(Ok(frame)) && frame.shows(planes, width, height)
    }

    /// True if this is the right answer once rendering has ended with
    /// `result`: read the surface back, unless the driver failed.
    pub open spec fn follows_render(
        &self,
        result: Result<(), VdpError>,
        width: u32,
        height: u32,
    ) -> bool {
        match result {
            Ok(_) => self.reads_bits(width, height),
            Err(e) => self.fails(e@),
        }
    }

    /// True if this is the right answer once reading back has ended with
    /// `result`: finish with the frame, unless the driver failed.
    pub open spec fn follows_read(
        &self,
        result: Result<Nv12Planes, VdpError>,
        width: u32,
        height: u32,
    ) -> bool {
        match result {
            Ok(planes) => self.shows(planes, width, height),
            Err(e) => self.fails(e@),
        }
    }
}

/// What is asked of the driver, in its own numbers: a surface of chroma type 0,
/// a buffer record of version 0, and a read in format 0 of two planes without
/// padding, the second with half the rows and, in each, half the sample pairs.
pub proof fn law_actions_by_numbers<P>(
    action: DecodeAction<P>,
    width: u32,
    height: u32,
    offset: int,
    len: nat,
)
    ensures
        action.creates_surface(width, height) ==> action == (DecodeAction::<P>::CreateSurface {
            chroma_type: 0,
            width,
            height,
        }),
        action.renders(offset, len) && len <= u32::MAX ==> (action matches DecodeAction::Render {
            bitstream: b,
            ..
        } && b.struct_version == 0 && b.offset == offset && b.bitstream_bytes == len),
        action.reads_bits(width, height) ==> (action matches DecodeAction::ReadBits {
            format,
            plane_lens,
            pitches,
        } && {
            &&& format == 0
            &&& plane_lens[0] == pitches[0] * height
            &&& plane_lens[1] == pitches[1] * (height / 2)
            &&& pitches[0] == width
            &&& pitches[1] == width - width % 2
        }),
{
    if let DecodeAction::ReadBits { pitches, .. } = action {
        let cw = width / 2;
        let ch = height / 2;
        assert((2 * cw) * ch == 2 * (cw * ch)) by (nonlinear_arith);
    }
}

/// The decode goes on exactly if the driver did what it was asked: rendering is
/// followed by reading back, reading back by the frame. An error of the driver
/// ends it, with the same status and message.
pub proof fn law_errors_end_the_decode<P>(
    action: DecodeAction<P>,
    rendered: Result<(), VdpError>,
    read: Result<Nv12Planes, VdpError>,
    width: u32,
    height: u32,
)
    ensures
        action.follows_render(rendered, width, height) ==> match rendered {
            Ok(_) => action is ReadBits,
            Err(e) => action matches DecodeAction::Finish(Err(f)) && f.status == e.status
                && f.message@ == e.message@,
        },
        action.follows_read(read, width, height) ==> match read {
            Ok(planes) => action matches DecodeAction::Finish(Ok(frame)) && frame.y@ == planes.y@
                && frame.width == width && frame.height == height,
            Err(e) => action matches DecodeAction::Finish(Err(f)) && f.status == e.status
                && f.message@ == e.message@,
        },
{
}

/// The action that creates a 4:2:0 surface of the given size.
pub fn create_surface<P>(width: u32, height: u32) -> (action: DecodeAction<P>)
    ensures
        action.creates_surface(width, height),
{
    DecodeAction::CreateSurface { chroma_type: VDP_CHROMA_TYPE_420, width, height }
}

/// The action that renders the input from byte `offset` on for `len` bytes.
pub fn render<P>(picture_info: P, offset: usize, len: usize) -> (action: DecodeAction<P>)
    ensures
        action.renders(offset as int, len as nat),
        action matches DecodeAction::Render { picture_info: p, .. } && p == picture_info,
{
    DecodeAction::Render {
        picture_info,
        bitstream: VdpBitstreamBuffer {
            struct_version: VDP_BITSTREAM_BUFFER_VERSION,
            offset,
            bitstream_bytes: len as u32,
        },
    }
}

/// The action that reads the surface back as NV12.
pub fn read_bits<P>(width: u32, height: u32) -> (action: DecodeAction<P>)
    ensures
        action.reads_bits(width, height),
{
    let cw: u32 = width / 2;
    let ch: u32 = height / 2;
    assert(width * height <= 0xffff_ffff * 0xffff_ffff) by (nonlinear_arith)
        requires
            0 <= width <= 0xffff_ffff,
            0 <= height <= 0xffff_ffff,
    ;
    assert(2 * (cw * ch) <= 0xffff_ffff * 0xffff_ffff) by (nonlinear_arith)
        requires
            0 <= cw <= 0x7fff_ffff,
            0 <= ch <= 0x7fff_ffff,
    ;
    assert((2 * cw) * ch == 2 * (cw * ch)) by (nonlinear_arith);
    DecodeAction::ReadBits {
        format: VDP_YCBCR_FORMAT_NV12,
        plane_lens: [width as u64 * height as u64, 2 * cw as u64 * ch as u64],
        pitches: [width, 2 * cw],
    }
}

/// The answer to the end of rendering.
pub fn after_render<P>(result: Result<(), VdpError>, width: u32, height: u32) -> (action:
    DecodeAction<P>)
    ensures
        action.follows_render(result, width, height),
{
    match result {
        Ok(_) => read_bits(width, height),
        Err(e) => DecodeAction::Finish(Err(e)),
    }
}

/// The answer to the end of reading back.
pub fn after_read<P>(
    result: Result<Nv12Planes, VdpError>,
    width: u32,
    height: u32,
) -> (action: DecodeAction<P>)
    requires
        result matches Ok(planes) ==> planes.fits(width, height),
    ensures
        action.follows_read(result, width, height),
{
    match result {
        Ok(planes) => DecodeAction::Finish(Ok(nv12_to_i420(width, height, planes))),
        Err(e) => DecodeAction::Finish(Err(e)),
    }
}

} // verus!
