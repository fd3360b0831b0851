//! The X11 display connection, the VDPAU device behind it, and what the
//! driver's replies mean.
//!
//! Nothing here calls into the driver. Each operation takes what a driver
//! entry point wrote back (a status, a handle, an address) and decides what
//! the operation returns, or which entry point is to be called next.

use crate::frame::{DecoderRequest, Nv12Planes};
use crate::sys;
use crate::sys::{VdpBool, VdpChromaType, VdpDecoderProfile, VdpFuncId, VdpStatus, VDP_STATUS_OK};
use crate::text::{decimal_text, signed_decimal_text};
use vstd::prelude::*;
use vstd::string::*;

verus! {

/// What an error says: a driver status, or 0 where the driver was not
/// reached, and a message.
pub struct Failure {
    pub status: VdpStatus,
    pub message: Seq<char>,
}

/// The failure of something other than the driver.
pub open spec fn failure(message: Seq<char>) -> Failure {
    Failure { status: 0, message }
}

/// The failure of the entry point that `place` names.
pub open spec fn driver_failure(status: VdpStatus, place: Seq<char>) -> Failure {
    Failure {
        status,
        message: place + ": VdpStatus="@ + crate::text::signed_decimal(status as int),
    }
}

/// A result with its error taken as a [`Failure`].
pub open spec fn outcome<T>(r: Result<T, VdpError>) -> Result<T, Failure> {
    match r {
        Ok(v) => Ok(v),
        Err(e) => Err(e@),
    }
}

/// The text of a failure for users.
pub open spec fn shown(f: Failure) -> Seq<char> {
    if f.status == 0 {
        f.message
    } else {
        f.message + " (VdpStatus="@ + crate::text::signed_decimal(f.status as int) + ")"@
    }
}

/// Error of the VDPAU bridge: a status code and a message that says where the
/// failure occurred.
#[derive(Debug, Clone)]
pub struct VdpError {
    /// The VDPAU status code, or 0 when the failure happened before VDPAU was
    /// reached.
    pub status: VdpStatus,
    /// Human-readable description.
    pub message: String,
}

impl View for VdpError {
    type V = Failure;

    open spec fn view(&self) -> Failure {
        Failure { status: self.status, message: self.message@ }
    }
}

impl VdpError {
    /// An error without a driver status.
    pub fn other(message: String) -> (e: VdpError)
        ensures
            e@ == failure(message@),
    {
        VdpError { status: 0, message }
    }

    /// An error of the driver entry point that `place` names.
    pub fn vdp(status: VdpStatus, place: &str) -> (e: VdpError)
        ensures
            e@ == driver_failure(status, place@),
    {
        let message: String = place.to_owned().concat(": VdpStatus=").concat(
            signed_decimal_text(status).as_str(),
        );
        VdpError { status, message }
    }

    /// The text shown to users: the message, followed by the status if there
    /// is one.
    pub fn to_string(&self) -> (text: String)
        ensures
            text@ == shown(self@),
            self.status == 0 ==> text@ == self.message@,
            self.status != 0 ==> text@ == self.message@ + " (VdpStatus="@
                + crate::text::signed_decimal(self.status as int) + ")"@,
    {
        if self.status != 0 {
            self.message.as_str().to_owned().concat(" (VdpStatus=").concat(
                signed_decimal_text(self.status).as_str(),
            ).concat(")")
        } else {
            self.message.as_str().to_owned()
        }
    }
}

/// The text between quotation marks that the standard library's debug
/// formatting gives for a string.
pub uninterp spec fn quoted(text: Seq<char>) -> Seq<char>;

/// Formats `text` with `{:?}` through std's `format!`. Claimed: the result is
/// a function of the characters of `text` alone. Which characters it escapes,
/// and how, is left unsaid.
#[verifier::external_body]
fn quoted_text(text: &str) -> (q: String)
    ensures
        q@ == quoted(text@),
{
    format!("{text:?}")
}

/// The position of the first zero byte from `i` on, or the end.
pub open spec fn first_nul(bytes: Seq<u8>, i: int) -> int
    decreases bytes.len() - i,
{
    if i < 0 || i >= bytes.len() {
        bytes.len() as int
    } else if bytes[i] == 0 {
        i
    } else {
        first_nul(bytes, i + 1)
    }
}

/// An X11 connection, named by the address that `XOpenDisplay` returned.
#[derive(Debug)]
pub struct Display {
    raw: usize,
}

impl Display {
    /// The address of the connection.
    pub closed spec fn address(&self) -> usize {
        self.raw
    }

    /// What stands against opening `name`: the error that loading the
    /// libraries gave, or a NUL inside the name.
    pub open spec fn open_obstacle(name: Seq<u8>, libraries: Result<(), Seq<char>>) -> Option<
        Failure,
    > {
        match libraries {
            Err(e) => Some(failure(e)),
            Ok(_) => if first_nul(name, 0) < name.len() {
                Some(
                    failure(
                        "display name has interior NUL: nul byte found in provided data at position: "@
                            + crate::text::decimal(first_nul(name, 0) as nat),
                    ),
                )
            } else {
                None
            },
        }
    }

    /// Decide whether `XOpenDisplay` may be called on `name`, given how
    /// loading the libraries went.
    pub fn check_open(name: &str, libraries: Result<(), String>) -> (r: Result<(), VdpError>)
        ensures
            outcome(r) == (match Display::open_obstacle(
                name.spec_bytes(),
                match libraries {
                    Ok(_) => Ok(()),
                    Err(e) => Err(e@),
                },
            ) {
                Some(f) => Err(f),
                None => Ok(()),
            }),
    {
        match libraries {
            Err(e) => Err(VdpError::other(e)),
            Ok(_) => {
                let bytes: &[u8] = name.as_bytes();
                let mut i: usize = 0;
                while i < bytes.len() && bytes[i] != 0
                    invariant
                        i <= bytes.len(),
                        bytes@ == name.spec_bytes(),
                        first_nul(bytes@, 0) == first_nul(bytes@, i as int),
                    decreases bytes.len() - i,
                {
                    i = i + 1;
                }
                if i < bytes.len() {
                    let message: String =
                        "display name has interior NUL: nul byte found in provided data at position: ".to_owned().concat(
                        decimal_text(i as u64).as_str(),
                    );
                    Err(VdpError::other(message))
                } else {
                    Ok(())
                }
            },
        }
    }

    /// Take the address that `XOpenDisplay` returned for `name`. A null
    /// address is an error.
    pub fn open(name: &str, raw: usize) -> (r: Result<Display, VdpError>)
        ensures
            raw != 0 ==> (r matches Ok(d) && d.address() == raw),
            raw == 0 ==> (r matches Err(e) && e@ == failure(
                "XOpenDisplay("@ + quoted(name@)
                    + ") returned NULL — is the X server reachable?"@,
            )),
    {
        if raw == 0 {
            let message: String = "XOpenDisplay(".to_owned().concat(
                quoted_text(name).as_str(),
            ).concat(") returned NULL — is the X server reachable?");
            return Err(VdpError::other(message));
        }
        Ok(Display { raw })
    }

    /// The display name to open: the value of `$DISPLAY`, or `:0` where it is
    /// not set.
    pub fn name_from_env(variable: Option<String>) -> (name: String)
        ensures
            name@ == (match variable {
                Some(value) => value@,
                None => ":0"@,
            }),
    {
        match variable {
            Some(value) => value,
            None => ":0".to_owned(),
        }
    }

    /// The address of the connection.
    pub fn as_raw(&self) -> (raw: usize)
        ensures
            raw == self.address(),
    {
        self.raw
    }
}

/// Answer to a decoder capability query.
#[derive(Debug, Clone, Copy, PartialEq, Eq, Structural)]
pub struct DecoderCaps {
    /// Whether the profile is supported.
    pub supported: bool,
    /// Greatest level, in the driver's units.
    pub max_level: u32,
    /// Greatest number of macroblocks in a frame.
    pub max_macroblocks: u32,
    /// Greatest surface width, in pixels.
    pub max_width: u32,
    /// Greatest surface height, in pixels.
    pub max_height: u32,
}

/// What the reply of the entry point that `place` names comes to: `value`, unless
/// there is a status.
pub open spec fn replied<T>(status: VdpStatus, place: Seq<char>, value: T) -> Result<T, Failure> {
    if status != VDP_STATUS_OK {
        Err(driver_failure(status, place))
    } else {
        Ok(value)
    }
}

/// The capabilities that the driver wrote.
pub open spec fn caps_written(
    supported: VdpBool,
    max_level: u32,
    max_macroblocks: u32,
    max_width: u32,
    max_height: u32,
) -> DecoderCaps {
    DecoderCaps { supported: supported != 0, max_level, max_macroblocks, max_width, max_height }
}

/// Status 0 means success, and any other is passed on in the error. A profile is
/// supported unless the driver says 0, and every limit is the one it wrote.
pub proof fn law_replies_by_numbers(
    status: VdpStatus,
    place: Seq<char>,
    supported: VdpBool,
    limits: (u32, u32, u32, u32),
)
    ensures
        ({
            let caps = caps_written(supported, limits.0, limits.1, limits.2, limits.3);
            &&& caps.supported <==> supported < 0 || supported > 0
            &&& caps.max_level == limits.0
            &&& caps.max_macroblocks == limits.1
            &&& caps.max_width == limits.2
            &&& caps.max_height == limits.3
            &&& status == 0 ==> replied(status, place, caps) == Ok::<DecoderCaps, Failure>(caps)
            &&& status != 0 ==> (replied(status, place, caps) matches Err(f) && f.status == status)
        }),
{
}

// Setting up a device.

/// The number of driver entry points that a device needs.
pub const ENTRY_POINTS: usize = 10;

/// The number of entry point `k`, in the order in which they are looked up.
pub open spec fn entry_id(k: int) -> VdpFuncId {
    if k == 0 {
        sys::VDP_FUNC_ID_DEVICE_DESTROY
    } else if k == 1 {
        sys::VDP_FUNC_ID_GET_API_VERSION
    } else if k == 2 {
        sys::VDP_FUNC_ID_GET_INFORMATION_STRING
    } else if k == 3 {
        sys::VDP_FUNC_ID_DECODER_QUERY_CAPABILITIES
    } else if k == 4 {
        sys::VDP_FUNC_ID_DECODER_CREATE
    } else if k == 5 {
        sys::VDP_FUNC_ID_DECODER_DESTROY
    } else if k == 6 {
        sys::VDP_FUNC_ID_DECODER_RENDER
    } else if k == 7 {
        sys::VDP_FUNC_ID_VIDEO_SURFACE_CREATE
    } else if k == 8 {
        sys::VDP_FUNC_ID_VIDEO_SURFACE_DESTROY
    } else {
        sys::VDP_FUNC_ID_VIDEO_SURFACE_GET_BITS_Y_CB_CR
    }
}

/// The name of entry point `k` in messages.
pub open spec fn entry_name(k: int) -> Seq<char> {
    if k == 0 {
        "DEVICE_DESTROY"@
    } else if k == 1 {
        "GET_API_VERSION"@
    } else if k == 2 {
        "GET_INFORMATION_STRING"@
    } else if k == 3 {
        "DECODER_QUERY_CAPABILITIES"@
    } else if k == 4 {
        "DECODER_CREATE"@
    } else if k == 5 {
        "DECODER_DESTROY"@
    } else if k == 6 {
        "DECODER_RENDER"@
    } else if k == 7 {
        "VIDEO_SURFACE_CREATE"@
    } else if k == 8 {
        "VIDEO_SURFACE_DESTROY"@
    } else {
        "VIDEO_SURFACE_GET_BITS_Y_CB_CR"@
    }
}

/// The number and the name of entry point `k`.
fn entry_point(k: usize) -> (entry: (VdpFuncId, &'static str))
    requires
        k < ENTRY_POINTS,
    ensures
        entry.0 == entry_id(k as int),
        entry.1@ == entry_name(k as int),
{
    match k {
        0 => (sys::VDP_FUNC_ID_DEVICE_DESTROY, "DEVICE_DESTROY"),
        1 => (sys::VDP_FUNC_ID_GET_API_VERSION, "GET_API_VERSION"),
        2 => (sys::VDP_FUNC_ID_GET_INFORMATION_STRING, "GET_INFORMATION_STRING"),
        3 => (sys::VDP_FUNC_ID_DECODER_QUERY_CAPABILITIES, "DECODER_QUERY_CAPABILITIES"),
        4 => (sys::VDP_FUNC_ID_DECODER_CREATE, "DECODER_CREATE"),
        5 => (sys::VDP_FUNC_ID_DECODER_DESTROY, "DECODER_DESTROY"),
        6 => (sys::VDP_FUNC_ID_DECODER_RENDER, "DECODER_RENDER"),
        7 => (sys::VDP_FUNC_ID_VIDEO_SURFACE_CREATE, "VIDEO_SURFACE_CREATE"),
        8 => (sys::VDP_FUNC_ID_VIDEO_SURFACE_DESTROY, "VIDEO_SURFACE_DESTROY"),
        _ => (
            sys::VDP_FUNC_ID_VIDEO_SURFACE_GET_BITS_Y_CB_CR,
            "VIDEO_SURFACE_GET_BITS_Y_CB_CR",
        ),
    }
}

/// The error that the driver's reply to the lookup of entry point `k` stands
/// for.
pub open spec fn entry_error(k: int, status: VdpStatus, address: usize) -> Option<Failure> {
    let place = "VdpGetProcAddress("@ + entry_name(k) + ")"@;
    if status != VDP_STATUS_OK {
        Some(driver_failure(status, place))
    } else if address == 0 {
        Some(failure(place + " returned NULL"@))
    } else {
        None
    }
}

/// What a device knows: its handle, and the addresses of its entry points in
/// the order in which they were looked up.
#[verifier::ext_equal]
pub struct DeviceState {
    pub handle: sys::VdpDevice,
    pub entries: Seq<usize>,
}

/// A device whose entry points are being looked up.
#[derive(Debug)]
pub struct DeviceSetup {
    handle: sys::VdpDevice,
    entries: Vec<usize>,
}

impl View for DeviceSetup {
    type V = DeviceState;

    closed spec fn view(&self) -> DeviceState {
        DeviceState { handle: self.handle, entries: self.entries@ }
    }
}

impl DeviceSetup {
    #[verifier::type_invariant]
    spec fn well_formed(self) -> bool {
        self.entries@.len() <= ENTRY_POINTS
    }

    /// Take the driver's reply to the creation of a device.
    pub fn created(status: VdpStatus, handle: sys::VdpDevice) -> (res: Result<
        DeviceSetup,
        VdpError,
    >)
        ensures
            status == VDP_STATUS_OK ==> (res matches Ok(setup) && setup@ == (DeviceState {
                handle,
                entries: Seq::empty(),
            })),
            status != VDP_STATUS_OK ==> (res matches Err(e) && e@ == driver_failure(
                status,
                "vdp_device_create_x11"@,
            )),
    {
        if status != VDP_STATUS_OK {
            return Err(VdpError::vdp(status, "vdp_device_create_x11"));
        }
        Ok(DeviceSetup { handle, entries: Vec::new() })
    }

    /// The entry point to look up next, or `None` when all are there.
    pub fn next_entry(&self) -> (id: Option<VdpFuncId>)
        ensures
            match id {
                Some(n) => self@.entries.len() < ENTRY_POINTS && n == entry_id(
                    self@.entries.len() as int,
                ),
                None => self@.entries.len() == ENTRY_POINTS,
            },
    {
        proof {
            use_type_invariant(self);
        }
        let k: usize = self.entries.len();
        if k < ENTRY_POINTS {
            Some(entry_point(k).0)
        } else {
            None
        }
    }

    /// Take the driver's reply to [`DeviceSetup::next_entry`].
    pub fn resolved(self, status: VdpStatus, address: usize) -> (res: Result<
        DeviceSetup,
        VdpError,
    >)
        requires
            self@.entries.len() < ENTRY_POINTS,
        ensures
            match entry_error(self@.entries.len() as int, status, address) {
                Some(f) => res matches Err(e) && e@ == f,
                None => res matches Ok(setup) && setup@ == (DeviceState {
                    handle: self@.handle,
                    entries: self@.entries.push(address),
                }),
            },
    {
        let handle: sys::VdpDevice = self.handle;
        let mut entries: Vec<usize> = self.entries;
        let name: &'static str = entry_point(entries.len()).1;
        let place: String = "VdpGetProcAddress(".to_owned().concat(name).concat(")");
        if status != VDP_STATUS_OK {
            return Err(VdpError::vdp(status, place.as_str()));
        }
        if address == 0 {
            return Err(VdpError::other(place.concat(" returned NULL")));
        }
        entries.push(address);
        Ok(DeviceSetup { handle, entries })
    }

    /// The device, once every entry point is there.
    pub fn finish(self) -> (device: VdpDevice)
        requires
            self@.entries.len() == ENTRY_POINTS,
        ensures
            device@ == self@,
    {
        VdpDevice { handle: self.handle, entries: self.entries }
    }
}

/// The error that entry point `k` of a driver stands for, if the driver answers
/// each lookup with a status and an address.
pub open spec fn lookup_error(driver: spec_fn(VdpFuncId) -> (VdpStatus, usize), k: int) -> Option<
    Failure,
> {
    entry_error(k, driver(entry_id(k)).0, driver(entry_id(k)).1)
}

/// What a setup that has found `entries` comes to in the end with such a
/// driver.
pub open spec fn completed(
    driver: spec_fn(VdpFuncId) -> (VdpStatus, usize),
    entries: Seq<usize>,
) -> Result<Seq<usize>, Failure>
    decreases ENTRY_POINTS - entries.len(),
{
    let k = entries.len() as int;
    if k >= ENTRY_POINTS {
        Ok(entries)
    } else {
        match lookup_error(driver, k) {
            Some(f) => Err(f),
            None => completed(driver, entries.push(driver(entry_id(k)).1)),
        }
    }
}

/// A setup succeeds exactly if the driver knows every entry point, and the
/// device then has the driver's addresses. Otherwise it fails with the error
/// of the first entry point that the driver does not know.
pub proof fn law_setup_needs_every_entry(driver: spec_fn(VdpFuncId) -> (VdpStatus, usize))
    ensures
        match completed(driver, Seq::empty()) {
            Ok(entries) => {
                &&& entries.len() == ENTRY_POINTS
                &&& forall|i: int|
                    0 <= i < ENTRY_POINTS ==> #[trigger] lookup_error(driver, i) is None
                        && entries[i] == driver(entry_id(i)).1 && entries[i] != 0
            },
            Err(f) => exists|i: int|
                0 <= i < ENTRY_POINTS && #[trigger] lookup_error(driver, i) == Some(f) && (forall|
                    j: int,
                |
                    0 <= j < i ==> #[trigger] lookup_error(driver, j) is None),
        },
{
    lemma_setup(driver, Seq::empty());
}

proof fn lemma_setup(driver: spec_fn(VdpFuncId) -> (VdpStatus, usize), found: Seq<usize>)
    requires
        found.len() <= ENTRY_POINTS,
        forall|i: int|
            0 <= i < found.len() ==> #[trigger] lookup_error(driver, i) is None && found[i]
                == driver(entry_id(i)).1,
    ensures
        match completed(driver, found) {
            Ok(entries) => {
                &&& entries.len() == ENTRY_POINTS
                &&& forall|i: int|
                    0 <= i < ENTRY_POINTS ==> #[trigger] lookup_error(driver, i) is None
                        && entries[i] == driver(entry_id(i)).1 && entries[i] != 0
            },
            Err(f) => exists|i: int|
                0 <= i < ENTRY_POINTS && #[trigger] lookup_error(driver, i) == Some(f) && (forall|
                    j: int,
                |
                    0 <= j < i ==> #[trigger] lookup_error(driver, j) is None),
        },
    decreases ENTRY_POINTS - found.len(),
{
    let k = found.len() as int;
    if k < ENTRY_POINTS && lookup_error(driver, k) is None {
        lemma_setup(driver, found.push(driver(entry_id(k)).1));
    }
}

/// The entry points are looked up by the numbers that VDPAU gives them, and named
/// in messages as VDPAU names them.
pub proof fn law_entries_by_number(k: int)
    requires
        0 <= k < ENTRY_POINTS,
    ensures
        ENTRY_POINTS == 10,
        (entry_id(k), entry_name(k)) == seq![
            (5u32, "DEVICE_DESTROY"@),
            (2u32, "GET_API_VERSION"@),
            (4u32, "GET_INFORMATION_STRING"@),
            (36u32, "DECODER_QUERY_CAPABILITIES"@),
            (37u32, "DECODER_CREATE"@),
            (38u32, "DECODER_DESTROY"@),
            (40u32, "DECODER_RENDER"@),
            (9u32, "VIDEO_SURFACE_CREATE"@),
            (10u32, "VIDEO_SURFACE_DESTROY"@),
            (12u32, "VIDEO_SURFACE_GET_BITS_Y_CB_CR"@),
        ][k],
{
}

/// A setup succeeds exactly if the driver answers every lookup with status 0 and
/// an address other than 0. If the first lookup to fail has a status, the error
/// has that status, and if it has none, the status 0.
pub proof fn law_setup_outcome(driver: spec_fn(VdpFuncId) -> (VdpStatus, usize), k: int)
    requires
        0 <= k < ENTRY_POINTS,
        forall|j: int|
            0 <= j < k ==> driver(#[trigger] entry_id(j)).0 == 0 && driver(entry_id(j)).1 != 0,
    ensures
        driver(entry_id(k)).0 != 0 ==> (completed(driver, Seq::empty()) matches Err(f) && f.status
            == driver(entry_id(k)).0),
        driver(entry_id(k)).0 == 0 && driver(entry_id(k)).1 == 0 ==> (completed(
            driver,
            Seq::empty(),
        ) matches Err(f) && f.status == 0 && f.message == "VdpGetProcAddress("@ + entry_name(k)
            + ")"@ + " returned NULL"@),
        k + 1 == ENTRY_POINTS && driver(entry_id(k)).0 == 0 && driver(entry_id(k)).1 != 0
            ==> completed(driver, Seq::empty()) is Ok,
{
    law_setup_needs_every_entry(driver);
    assert forall|j: int| 0 <= j < k implies #[trigger] lookup_error(driver, j) is None by {
        assert(driver(entry_id(j)).0 == 0);
    }
    assert(lookup_error(driver, k) is Some <==> driver(entry_id(k)).0 != 0 || driver(
        entry_id(k),
    ).1 == 0);
}

/// A display may be opened exactly if the libraries are there and the name holds
/// no zero byte. Otherwise the error names the position of the first one.
pub proof fn law_display_name_without_nul(name: Seq<u8>, at: int)
    requires
        0 <= at <= name.len(),
        forall|i: int| 0 <= i < at ==> #[trigger] name[i] != 0,
        at < name.len() ==> name[at] == 0,
    ensures
        Display::open_obstacle(name, Ok(())) is None <==> at == name.len(),
        at < name.len() ==> Display::open_obstacle(name, Ok(())) == Some(
            failure(
                "display name has interior NUL: nul byte found in provided data at position: "@
                    + crate::text::decimal(at as nat),
            ),
        ),
        forall|reason: Seq<char>| #[trigger]
            Display::open_obstacle(name, Err(reason)) == Some(failure(reason)),
{
    lemma_first_nul(name, 0, at);
}

proof fn lemma_first_nul(bytes: Seq<u8>, i: int, at: int)
    requires
        0 <= i <= at <= bytes.len(),
        forall|j: int| i <= j < at ==> #[trigger] bytes[j] != 0,
        at < bytes.len() ==> bytes[at] == 0,
    ensures
        first_nul(bytes, i) == at,
    decreases at - i,
{
    if i < at {
        assert(bytes[i] != 0);
        lemma_first_nul(bytes, i + 1, at);
    }
}

/// The text for users starts with the message. It is the message alone if there
/// is no status; otherwise the status stands behind it in parentheses.
pub proof fn law_shown_text(f: Failure)
    ensures
        f.message.is_prefix_of(shown(f)),
        f.status == 0 ==> shown(f).len() == f.message.len(),
        f.status != 0 ==> {
            let tail = shown(f).skip(f.message.len() as int);
            let n = tail.len() - 1;
            &&& n > 12
            &&& tail.take(12) == " (VdpStatus="@
            &&& tail[n] == ')'
            &&& f.status > 0 ==> crate::text::number(tail.subrange(12, n), 10) == f.status
            &&& f.status < 0 ==> tail[12] == '-' && crate::text::number(tail.subrange(13, n), 10)
                == -f.status
        },
{
    reveal_strlit(" (VdpStatus=");
    reveal_strlit(")");
    let text = crate::text::signed_decimal(f.status as int);
    crate::text::law_signed_decimal_reads_back(f.status as int);
    crate::text::law_decimal_reads_back(
        if f.status < 0 {
            (-f.status) as nat
        } else {
            f.status as nat
        },
    );
    assert(text.len() > 0);
    assert(f.message =~= shown(f).take(f.message.len() as int));
    if f.status != 0 {
        let tail = shown(f).skip(f.message.len() as int);
        let n = tail.len() - 1;
        assert(tail == " (VdpStatus="@ + text + ")"@);
        assert(tail.take(12) == " (VdpStatus="@);
        assert(tail.subrange(12, n) == text);
        assert(tail[12] == text[0]);
        assert(tail.subrange(13, n) == text.skip(1));
    }
}

/// A failure of something other than the driver has no status, and shows its
/// message as it is.
pub proof fn law_failure_without_status(message: Seq<char>)
    ensures
        failure(message).status == 0,
        shown(failure(message)) == message,
{
}

/// The error of an entry point keeps the driver's status, and its message starts
/// with the place and ends with the status in decimal.
pub proof fn law_driver_failure(status: VdpStatus, place: Seq<char>)
    ensures
        ({
            let f = driver_failure(status, place);
            let n = place.len() as int;
            &&& f.status == status
            &&& f.message.len() > n + 12
            &&& f.message.take(n) == place
            &&& f.message.subrange(n, n + 12) == ": VdpStatus="@
            &&& status >= 0 ==> crate::text::number(f.message.skip(n + 12), 10) == status
            &&& status < 0 ==> f.message[n + 12] == '-' && crate::text::number(
                f.message.skip(n + 13),
                10,
            ) == -status
        }),
{
    let f = driver_failure(status, place);
    let n = place.len() as int;
    let text = crate::text::signed_decimal(status as int);
    reveal_strlit(": VdpStatus=");
    crate::text::law_signed_decimal_reads_back(status as int);
    crate::text::law_decimal_reads_back(
        if status < 0 {
            (-status) as nat
        } else {
            status as nat
        },
    );
    assert(text.len() > 0);
    assert(f.message.take(n) == place);
    assert(f.message.subrange(n, n + 12) == ": VdpStatus="@);
    assert(f.message.skip(n + 12) == text);
    assert(f.message.skip(n + 13) == text.skip(1));
    assert(f.message[n + 12] == text[0]);
}

/// A VDPAU device: its handle and the addresses of the entry points that it is
/// used through.
#[derive(Debug)]
pub struct VdpDevice {
    handle: sys::VdpDevice,
    entries: Vec<usize>,
}

impl View for VdpDevice {
    type V = DeviceState;

    closed spec fn view(&self) -> DeviceState {
        DeviceState { handle: self.handle, entries: self.entries@ }
    }
}

impl VdpDevice {
    #[verifier::type_invariant]
    spec fn well_formed(self) -> bool {
        self.entries@.len() == ENTRY_POINTS
    }

    /// The device handle.
    pub fn raw(&self) -> (handle: sys::VdpDevice)
        ensures
            handle == self@.handle,
    {
        self.handle
    }

    /// The address of the entry point with the given number, or `None` for a
    /// number that no device needs.
    pub fn entry(&self, id: VdpFuncId) -> (address: Option<usize>)
        ensures
            match address {
                Some(a) => exists|k: int|
                    0 <= k < ENTRY_POINTS && #[trigger] entry_id(k) == id && self@.entries[k] == a,
                None => forall|k: int| 0 <= k < ENTRY_POINTS ==> #[trigger] entry_id(k) != id,
            },
    {
        proof {
            use_type_invariant(self);
        }
        let mut k: usize = 0;
        while k < ENTRY_POINTS
            invariant
                k <= ENTRY_POINTS == self.entries@.len(),
                forall|j: int| 0 <= j < k ==> #[trigger] entry_id(j) != id,
            decreases ENTRY_POINTS - k,
        {
            if entry_point(k).0 == id {
                assert(entry_id(k as int) == id);
                return Some(self.entries[k]);
            }
            k = k + 1;
        }
        None
    }

    /// What `VdpGetInformationString` comes to. `text` is what the driver
    /// pointed to, if it pointed to anything.
    pub fn information_string(&self, status: VdpStatus, text: Option<String>) -> (res: Result<
        String,
        VdpError,
    >)
        ensures
            status != VDP_STATUS_OK ==> (res matches Err(e) && e@ == driver_failure(
                status,
                "VdpGetInformationString"@,
            )),
            status == VDP_STATUS_OK ==> match text {
                Some(t) => res matches Ok(s) && s@ == t@,
                None => res matches Err(e) && e@ == failure(
                    "VdpGetInformationString returned NULL pointer"@,
                ),
            },
    {
        if status != VDP_STATUS_OK {
            return Err(VdpError::vdp(status, "VdpGetInformationString"));
        }
        match text {
            Some(t) => Ok(t),
            None => Err(
                VdpError::other("VdpGetInformationString returned NULL pointer".to_owned()),
            ),
        }
    }

    /// What `VdpGetApiVersion` comes to.
    pub fn api_version(&self, status: VdpStatus, version: u32) -> (res: Result<u32, VdpError>)
        ensures
            outcome(res) == replied(status, "VdpGetApiVersion"@, version),
            outcome(res) == (if status != VDP_STATUS_OK {
                Err(driver_failure(status, "VdpGetApiVersion"@))
            } else {
                Ok(version)
            }),
    {
        if status != VDP_STATUS_OK {
            return Err(VdpError::vdp(status, "VdpGetApiVersion"));
        }
        Ok(version)
    }

    /// What `VdpDecoderQueryCapabilities` comes to.
    pub fn decoder_caps(
        &self,
        status: VdpStatus,
        supported: VdpBool,
        max_level: u32,
        max_macroblocks: u32,
        max_width: u32,
        max_height: u32,
    ) -> (res: Result<DecoderCaps, VdpError>)
        ensures
            outcome(res) == replied(
                status,
                "VdpDecoderQueryCapabilities"@,
                caps_written(supported, max_level, max_macroblocks, max_width, max_height),
            ),
            outcome(res) == (if status != VDP_STATUS_OK {
                Err(driver_failure(status, "VdpDecoderQueryCapabilities"@))
            } else {
                Ok(
                    DecoderCaps {
                        supported: supported != 0,
                        max_level,
                        max_macroblocks,
                        max_width,
                        max_height,
                    },
                )
            }),
    {
        if status != VDP_STATUS_OK {
            return Err(VdpError::vdp(status, "VdpDecoderQueryCapabilities"));
        }
        Ok(
            DecoderCaps {
                supported: supported != 0,
                max_level,
                max_macroblocks,
                max_width,
                max_height,
            },
        )
    }

    /// What `VdpDecoderCreate` comes to.
    pub fn create_decoder(
        &self,
        request: DecoderRequest,
        status: VdpStatus,
        handle: sys::VdpDecoder,
    ) -> (res: Result<VdpDecoder, VdpError>)
        ensures
            outcome(res) == (if status != VDP_STATUS_OK {
                Err(driver_failure(status, "VdpDecoderCreate"@))
            } else {
                Ok(
                    VdpDecoder {
                        handle,
                        profile: request.profile,
                        width: request.width,
                        height: request.height,
                    },
                )
            }),
    {
        if status != VDP_STATUS_OK {
            return Err(VdpError::vdp(status, "VdpDecoderCreate"));
        }
        Ok(
            VdpDecoder {
                handle,
                profile: request.profile,
                width: request.width,
                height: request.height,
            },
        )
    }

    /// What `VdpVideoSurfaceCreate` comes to.
    pub fn create_video_surface(
        &self,
        chroma_type: VdpChromaType,
        width: u32,
        height: u32,
        status: VdpStatus,
        handle: sys::VdpVideoSurface,
    ) -> (res: Result<VdpVideoSurface, VdpError>)
        ensures
            outcome(res) == (if status != VDP_STATUS_OK {
                Err(driver_failure(status, "VdpVideoSurfaceCreate"@))
            } else {
                Ok(VdpVideoSurface { handle, chroma_type, width, height })
            }),
    {
        if status != VDP_STATUS_OK {
            return Err(VdpError::vdp(status, "VdpVideoSurfaceCreate"));
        }
        Ok(VdpVideoSurface { handle, chroma_type, width, height })
    }
}

/// A driver decoder.
#[derive(Debug, Clone, Copy, PartialEq, Eq, Structural)]
pub struct VdpDecoder {
    pub handle: sys::VdpDecoder,
    pub profile: VdpDecoderProfile,
    pub width: u32,
    pub height: u32,
}

impl VdpDecoder {
    /// The profile that the decoder was created for.
    pub fn profile(&self) -> (profile: VdpDecoderProfile)
        ensures
            profile == self.profile,
    {
        self.profile
    }

    /// The width that the decoder was created for.
    pub fn width(&self) -> (width: u32)
        ensures
            width == self.width,
    {
        self.width
    }

    /// The height that the decoder was created for.
    pub fn height(&self) -> (height: u32)
        ensures
            height == self.height,
    {
        self.height
    }

    /// What `VdpDecoderRender` comes to.
    pub fn render(&self, status: VdpStatus) -> (res: Result<(), VdpError>)
        ensures
            outcome(res) == replied(status, "VdpDecoderRender"@, ()),
            outcome(res) == (if status != VDP_STATUS_OK {
                Err(driver_failure(status, "VdpDecoderRender"@))
            } else {
                Ok(())
            }),
    {
        if status != VDP_STATUS_OK {
            return Err(VdpError::vdp(status, "VdpDecoderRender"));
        }
        Ok(())
    }
}

/// A driver video surface.
#[derive(Debug, Clone, Copy, PartialEq, Eq, Structural)]
pub struct VdpVideoSurface {
    pub handle: sys::VdpVideoSurface,
    pub chroma_type: VdpChromaType,
    pub width: u32,
    pub height: u32,
}

impl VdpVideoSurface {
    /// The surface's chroma type.
    pub fn chroma_type(&self) -> (chroma_type: VdpChromaType)
        ensures
            chroma_type == self.chroma_type,
    {
        self.chroma_type
    }

    /// The surface's width.
    pub fn width(&self) -> (width: u32)
        ensures
            width == self.width,
    {
        self.width
    }

    /// The surface's height.
    pub fn height(&self) -> (height: u32)
        ensures
            height == self.height,
    {
        self.height
    }

    /// What `VdpVideoSurfaceGetBitsYCbCr` comes to; `planes` is what it wrote.
    pub fn get_bits_ycbcr(&self, status: VdpStatus, planes: Nv12Planes) -> (res: Result<
        Nv12Planes,
        VdpError,
    >)
        ensures
            outcome(res) == replied(status, "VdpVideoSurfaceGetBitsYCbCr"@, planes),
            outcome(res) == (if status != VDP_STATUS_OK {
                Err(driver_failure(status, "VdpVideoSurfaceGetBitsYCbCr"@))
            } else {
                Ok(planes)
            }),
    {
        if status != VDP_STATUS_OK {
            return Err(VdpError::vdp(status, "VdpVideoSurfaceGetBitsYCbCr"));
        }
        Ok(planes)
    }
}

} // verus!
