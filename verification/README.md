# oxideav_vdpau

A VDPAU hardware decode bridge for Linux, with its logic verified by
[Verus](https://github.com/verus-lang/verus).

VDPAU decodes video on the GPU and leaves the reading of stream headers to its
callers. This project reads them for one picture of H.264, HEVC, VP9 or MPEG-2,
fills in the record of picture parameters that the driver wants, and turns what
the driver gives back into an I420 frame. It also reports what a device can
decode, and registers the decoders with the `oxideav_core` codec registry.

## Layout

- `src/`: the library. Every function in it is verified against its contract,
  but for the two that are named below as trusted.
  It touches no library, display or device: where the driver has to be asked,
  one function says what to ask and another takes the answer.
  - `bits`, `annexb`: bit reading and NAL unit framing.
  - `h264`, `hevc`, `vp9`, `mpeg2`: headers, picture parameters, and the steps
    of a decode.
  - `frame`: the steps that all decodes share, and the frame they end with.
  - `device`, `sys`: VDPAU's numbers and records, and what the driver's replies
    mean.
  - `profile`, `engine`: decoder profiles, and the capability probe.
  - `registry`: registration with the framework.
  - `text`: numbers as text.
- `tests/`: the library on concrete values.
- `app/`: the bridge itself. It loads `libvdpau.so.1` and `libX11.so.6` when
  they are first needed, makes the calls, and owns what the driver hands out.

Laws that relate several functions are public proof functions whose names begin
with `law_`, next to the functions they speak of.

## What is trusted

- `registry::register_entry` calls `CodecRegistry::register` of `oxideav_core`.
- `device::quoted_text` calls the standard library's debug formatting.

Their contracts are stated, not proved.
