//! What the driver's replies mean.

use oxideav_vdpau::device::DeviceSetup;
use oxideav_vdpau::frame::{DecoderRequest, Nv12Planes};
use oxideav_vdpau::sys;
use oxideav_vdpau::sys::{library_loaded, symbol_found, SystemLibrary, SystemSymbol};
use oxideav_vdpau::{Display, VdpDevice, VdpError};

/// Set up a device with a driver that answers lookups like this.
fn set_up(driver: impl Fn(sys::VdpFuncId) -> (sys::VdpStatus, usize)) -> Result<VdpDevice, VdpError> {
    let mut setup = DeviceSetup::created(sys::VDP_STATUS_OK, 3)?;
    while let Some(id) = setup.next_entry() {
        let (status, address) = driver(id);
        setup = setup.resolved(status, address)?;
    }
    Ok(setup.finish())
}

fn open_device() -> VdpDevice {
    match set_up(|id| (sys::VDP_STATUS_OK, 0x1000 + id as usize)) {
        Ok(d) => d,
        Err(e) => panic!("{}", e.to_string()),
    }
}

#[test]
fn error_texts() {
    let e = VdpError::other("no luck".to_string());
    assert_eq!(e.status, 0);
    assert_eq!(e.to_string(), "no luck");
    let e = VdpError::vdp(-7, "VdpThing");
    assert_eq!(e.status, -7);
    assert_eq!(e.message, "VdpThing: VdpStatus=-7");
    assert_eq!(e.to_string(), "VdpThing: VdpStatus=-7 (VdpStatus=-7)");
}

#[test]
fn display_name_comes_from_the_environment() {
    assert_eq!(Display::name_from_env(Some(":1".to_string())), ":1");
    assert_eq!(Display::name_from_env(None), ":0");
}

#[test]
fn display_open_checks_libraries_and_name() {
    assert!(Display::check_open(":0", Ok(())).is_ok());
    assert_eq!(
        Display::check_open("\0", Err("dlopen libvdpau.so.1: gone".to_string()))
            .unwrap_err()
            .message,
        "dlopen libvdpau.so.1: gone"
    );
    for (name, position) in [("\0", 0), ("é\0x\0", 2), (":0\0", 2)] {
        assert_eq!(
            Display::check_open(name, Ok(())).unwrap_err().message,
            format!(
                "display name has interior NUL: nul byte found in provided data at position: {position}"
            )
        );
    }
}

#[test]
fn display_open_takes_the_address() {
    assert_eq!(Display::open(":0", 0x7f00).unwrap().as_raw(), 0x7f00);
    for name in [":0", "", "a \"b\" \\ \n \u{1f600} \u{7}"] {
        assert_eq!(
            Display::open(name, 0).unwrap_err().message,
            format!("XOpenDisplay({name:?}) returned NULL — is the X server reachable?")
        );
    }
}

#[test]
fn vdp_device_creates() {
    let device: VdpDevice = open_device();
    assert_eq!(device.raw(), 3);
    assert_eq!(
        device.entry(sys::VDP_FUNC_ID_DEVICE_DESTROY),
        Some(0x1005)
    );
    assert_eq!(device.entry(sys::VDP_FUNC_ID_DECODER_RENDER), Some(0x1028));
    assert_eq!(
        device.entry(sys::VDP_FUNC_ID_VIDEO_SURFACE_GET_BITS_Y_CB_CR),
        Some(0x100c)
    );
    assert_eq!(device.entry(1), None);
}

#[test]
fn vdp_device_creation_can_fail() {
    let e = DeviceSetup::created(1, 3).unwrap_err();
    assert_eq!(e.status, 1);
    assert_eq!(e.message, "vdp_device_create_x11: VdpStatus=1");
}

#[test]
fn setup_looks_up_entries_in_order() {
    let asked = std::cell::RefCell::new(Vec::new());
    let device = set_up(|id| {
        asked.borrow_mut().push(id);
        (0, 1)
    });
    assert!(device.is_ok());
    assert_eq!(
        asked.into_inner(),
        vec![5, 2, 4, 36, 37, 38, 40, 9, 10, 12]
    );
}

#[test]
fn setup_fails_with_the_first_missing_entry() {
    let e = set_up(|id| if id == 36 { (25, 0) } else { (0, 1) }).unwrap_err();
    assert_eq!(e.status, 25);
    assert_eq!(
        e.message,
        "VdpGetProcAddress(DECODER_QUERY_CAPABILITIES): VdpStatus=25"
    );
    let names = [
        (5, "DEVICE_DESTROY"),
        (2, "GET_API_VERSION"),
        (4, "GET_INFORMATION_STRING"),
        (36, "DECODER_QUERY_CAPABILITIES"),
        (37, "DECODER_CREATE"),
        (38, "DECODER_DESTROY"),
        (40, "DECODER_RENDER"),
        (9, "VIDEO_SURFACE_CREATE"),
        (10, "VIDEO_SURFACE_DESTROY"),
        (12, "VIDEO_SURFACE_GET_BITS_Y_CB_CR"),
    ];
    for (missing, name) in names {
        let e = set_up(|id| (0, (id != missing) as usize)).unwrap_err();
        assert_eq!(e.status, 0);
        assert_eq!(e.message, format!("VdpGetProcAddress({name}) returned NULL"));
    }
}

#[test]
fn vdp_device_reports_information_string() {
    let device = open_device();
    let info = device
        .information_string(0, Some("NVIDIA VDPAU Driver".to_string()))
        .unwrap();
    assert!(
        !info.is_empty(),
        "VdpGetInformationString returned an empty string"
    );
    assert!(info.contains("NVIDIA"));
    assert_eq!(
        device.information_string(0, None).unwrap_err().message,
        "VdpGetInformationString returned NULL pointer"
    );
    let e = device
        .information_string(4, Some("x".to_string()))
        .unwrap_err();
    assert_eq!(e.message, "VdpGetInformationString: VdpStatus=4");
}

#[test]
fn vdp_device_reports_api_version_at_least_1() {
    let device = open_device();
    let v = device.api_version(0, 1).unwrap();
    assert!(v >= 1, "VdpGetApiVersion returned {v}, expected >= 1");
    let e = device.api_version(9, 1).unwrap_err();
    assert_eq!(e.status, 9);
    assert_eq!(e.message, "VdpGetApiVersion: VdpStatus=9");
}

#[test]
fn decoder_caps_h264_high_supported_on_nvidia() {
    let device = open_device();
    let caps = device.decoder_caps(0, 1, 51, 65536, 4096, 4096).unwrap();
    assert!(
        caps.supported,
        "expected NVIDIA VDPAU to advertise H.264 High support, got {caps:?}"
    );
    assert!(
        caps.max_width >= 1920 && caps.max_height >= 1080,
        "expected at least 1080p surface support on NVIDIA H.264 High, got {}x{}",
        caps.max_width,
        caps.max_height
    );
    assert_eq!(caps.max_level, 51);
    assert_eq!(caps.max_macroblocks, 65536);
    // Any number but zero is true.
    assert!(device.decoder_caps(0, -1, 0, 0, 0, 0).unwrap().supported);
    assert!(!device.decoder_caps(0, 0, 51, 1, 1, 1).unwrap().supported);
    let e = device.decoder_caps(2, 1, 1, 1, 1, 1).unwrap_err();
    assert_eq!(e.message, "VdpDecoderQueryCapabilities: VdpStatus=2");
}

#[test]
fn video_surface_creates() {
    let device = open_device();
    let surface = device
        .create_video_surface(sys::VDP_CHROMA_TYPE_420, 1920, 1088, 0, 77)
        .expect("VdpVideoSurfaceCreate(1920x1088, 4:2:0)");
    assert_eq!(surface.width(), 1920);
    assert_eq!(surface.height(), 1088);
    assert_eq!(surface.chroma_type(), sys::VDP_CHROMA_TYPE_420);
    assert_eq!(surface.handle, 77);
    let e = device
        .create_video_surface(sys::VDP_CHROMA_TYPE_420, 1, 1, 5, 0)
        .unwrap_err();
    assert_eq!(e.message, "VdpVideoSurfaceCreate: VdpStatus=5");
    let planes = || Nv12Planes {
        y: vec![1, 2],
        uv: vec![3, 4],
    };
    assert_eq!(surface.get_bits_ycbcr(0, planes()).unwrap().y, vec![1, 2]);
    assert_eq!(
        surface.get_bits_ycbcr(6, planes()).unwrap_err().message,
        "VdpVideoSurfaceGetBitsYCbCr: VdpStatus=6"
    );
}

#[test]
fn h264_high_decoder_creates() {
    let device = open_device();
    let request = DecoderRequest {
        profile: sys::VDP_DECODER_PROFILE_H264_HIGH,
        width: 1920,
        height: 1088,
        max_references: 16,
    };
    let decoder = device
        .create_decoder(request, 0, 42)
        .expect("VdpDecoderCreate(H264_HIGH, 1920x1088, 16 refs)");
    assert_eq!(decoder.profile(), sys::VDP_DECODER_PROFILE_H264_HIGH);
    assert_eq!(decoder.width(), 1920);
    assert_eq!(decoder.height(), 1088);
    assert_eq!(decoder.handle, 42);
    assert!(decoder.render(0).is_ok());
    assert_eq!(
        decoder.render(7).unwrap_err().message,
        "VdpDecoderRender: VdpStatus=7"
    );
}

#[test]
fn decoder_creation_fails_for_oversized_request() {
    let device = open_device();
    let request = DecoderRequest {
        profile: sys::VDP_DECODER_PROFILE_H264_HIGH,
        width: 16384,
        height: 16384,
        max_references: 16,
    };
    match device.create_decoder(request, 23, 0) {
        Ok(_) => panic!("expected VdpDecoderCreate(H264_HIGH, 16384x16384, 16) to fail"),
        Err(e) => {
            assert_ne!(
                e.status,
                sys::VDP_STATUS_OK,
                "expected non-OK VdpStatus on oversized request"
            );
            assert_eq!(e.message, "VdpDecoderCreate: VdpStatus=23");
        }
    }
}

#[test]
fn loading_messages() {
    assert!(library_loaded(SystemLibrary::Vdpau, Ok(())).is_ok());
    assert_eq!(
        library_loaded(SystemLibrary::X11, Err("gone".to_string())).unwrap_err(),
        "dlopen libX11.so.6: gone"
    );
    assert!(symbol_found(SystemSymbol::XOpenDisplay, Ok(())).is_ok());
    assert_eq!(
        symbol_found(SystemSymbol::VdpDeviceCreateX11, Err("gone".to_string())).unwrap_err(),
        "dlsym vdp_device_create_x11: gone"
    );
    assert_eq!(
        SystemSymbol::VdpDeviceCreateX11.library(),
        SystemLibrary::Vdpau
    );
    for symbol in [
        SystemSymbol::XOpenDisplay,
        SystemSymbol::XCloseDisplay,
        SystemSymbol::XDefaultScreen,
    ] {
        assert_eq!(symbol.library(), SystemLibrary::X11);
    }
    assert_eq!(SystemLibrary::Vdpau.soname(), "libvdpau.so.1");
}

#[test]
fn decoder_caps_hevc_main_supported_on_nvidia() {
    let device = open_device();
    let caps = device.decoder_caps(0, 1, 153, 262144, 8192, 8192).unwrap();
    assert!(
        caps.supported,
        "expected NVIDIA VDPAU to advertise HEVC Main support, got {caps:?}"
    );
    assert_eq!(caps.max_level, 153);
    assert_eq!(caps.max_macroblocks, 262144);
    assert_eq!((caps.max_width, caps.max_height), (8192, 8192));
}

#[test]
fn decoder_caps_mpeg2_main_supported_on_nvidia() {
    let device = open_device();
    let caps = device.decoder_caps(0, 1, 3, 65280, 4080, 4080).unwrap();
    assert!(
        caps.supported,
        "expected NVIDIA VDPAU to advertise MPEG-2 Main support, got {caps:?}"
    );
    assert_eq!(caps.max_level, 3);
    assert_eq!(caps.max_macroblocks, 65280);
    assert_eq!((caps.max_width, caps.max_height), (4080, 4080));
}

#[test]
fn decoder_caps_vp9_profile_0_supported_on_nvidia() {
    let device = open_device();
    let caps = device.decoder_caps(0, 1, 1, 262144, 8192, 8192).unwrap();
    assert!(
        caps.supported,
        "expected NVIDIA VDPAU to advertise VP9 Profile 0 support, got {caps:?}"
    );
    assert_eq!(caps.max_level, 1);
    assert_eq!(caps.max_macroblocks, 262144);
    assert_eq!((caps.max_width, caps.max_height), (8192, 8192));
}

#[test]
fn display_opens_from_env() {
    // The name that the environment gives is the one that is opened.
    let name = Display::name_from_env(Some(":7.1".to_string()));
    assert!(Display::check_open(&name, Ok(())).is_ok());
    let display = Display::open(&name, 0x1234).unwrap();
    assert_eq!(display.as_raw(), 0x1234);
}
