//! The device listing: the payload of `host:devices` and `host:devices-l`,
//! and the messages of `host:track-devices`.
use vstd::prelude::*;
use vstd::string::*;
use vstd::slice::slice_subrange;
use crate::result::device::{parse_device, Device, DeviceView};
use crate::text::{chars_of, run_end, scan, CharClass};
use crate::wire::{read_text, text_of};
use crate::AdbTransportError;
use crate::ErrorView;

verus! {

/// A device listing, in the form that the caller asked for.
#[derive(Debug, Clone, PartialEq, Eq)]
pub enum Devices {
    /// The devices of the lines that parse, in the order of the lines.
    Devices(Vec<Device>),
    /// The server's text as it came.
    Raw(String),
}

/// A listing as contracts speak of it.
pub enum DevicesView {
    Devices(Seq<DeviceView>),
    Raw(Seq<char>),
}

/// The devices as contracts speak of them.
pub open spec fn device_views(devices: Seq<Device>) -> Seq<DeviceView> {
    devices.map_values(|device: Device| device@)
}

impl View for Devices {
    type V = DevicesView;

    open spec fn view(&self) -> DevicesView {
        match *self {
            Devices::Devices(devices) => DevicesView::Devices(device_views(devices@)),
            Devices::Raw(text) => DevicesView::Raw(text@),
        }
    }
}

/// The devices of the lines of `s` from position `at` on: each line that
/// parses gives one device, and a line that does not is passed over.
pub open spec fn listed_from(s: Seq<char>, at: int) -> Seq<DeviceView>
    decreases s.len() - at,
{
    let end = run_end(s, at, CharClass::Line);
    let head = match parse_device(s.subrange(at, end)) {
        Some(device) => seq![device],
        None => Seq::empty(),
    };
    if at <= end < s.len() {
        head + listed_from(s, end + 1)
    } else {
        head
    }
}

/// The devices that the text `s` lists.
pub open spec fn listed_devices(s: Seq<char>) -> Seq<DeviceView> {
    listed_from(s, 0)
}

/// Parses the lines of a listing.
pub fn parse_listing(text: &str) -> (devices: Vec<Device>)
    ensures
        device_views(devices@) == listed_devices(text@),
{
    let chars = chars_of(text);
    let s = chars.as_slice();
    let mut devices: Vec<Device> = Vec::new();
    let mut at: usize = 0;
    assert(device_views(devices@) =~= Seq::<DeviceView>::empty());
    assert(device_views(devices@) + listed_from(s@, 0) =~= listed_from(s@, 0));
    loop
        invariant
            at <= s.len(),
            s@ == text@,
            device_views(devices@) + listed_from(s@, at as int) == listed_devices(s@),
        decreases s.len() - at,
    {
        let end = scan(s, at, CharClass::Line);
        let ghost earlier = device_views(devices@);
        let ghost head = match parse_device(s@.subrange(at as int, end as int)) {
            Some(device) => seq![device],
            None => Seq::empty(),
        };
        match Device::parse_chars(slice_subrange(s, at, end)) {
            Some(device) => {
                let ghost item = device@;
                devices.push(device);
                assert(device_views(devices@) =~= earlier + seq![item]);
            },
            None => {
                assert(earlier + Seq::<DeviceView>::empty() =~= earlier);
            },
        }
        assert(device_views(devices@) =~= earlier + head);
        if end >= s.len() {
            return devices;
        }
        assert(device_views(devices@) + listed_from(s@, end + 1) =~= earlier + (head + listed_from(
            s@,
            end + 1,
        )));
        at = end + 1;
    }
}

/// What the payload of a listing amounts to: the devices of its lines where
/// the caller asked for them, its text where not.
///
/// A payload that is not UTF-8 violates the protocol.
pub open spec fn listing(payload: Seq<u8>, json: bool) -> Result<DevicesView, ErrorView> {
    match text_of(payload) {
        None => Err(ErrorView::InvalidResponse("devices"@, None)),
        Some(text) => if json {
            Ok(DevicesView::Devices(listed_devices(text)))
        } else {
            Ok(DevicesView::Raw(text))
        },
    }
}

/// Turns the payload of `host:devices` or `host:devices-l` into a listing.
pub fn devices(payload: &[u8], json: bool) -> (r: Result<Devices, AdbTransportError>)
    ensures
        match r {
            Ok(found) => listing(payload@, json) == Ok::<DevicesView, ErrorView>(found@),
            Err(e) => listing(payload@, json) == Err::<DevicesView, ErrorView>(e@),
        },
{
    assert(payload@.subrange(0, payload@.len() as int) =~= payload@);
    match read_text(payload, 0, payload.len()) {
        None => Err(AdbTransportError::InvalidResponse(String::from_str("devices"), None)),
        Some(text) => {
            if json {
                Ok(Devices::Devices(parse_listing(text.as_str())))
            } else {
                Ok(Devices::Raw(text))
            }
        },
    }
}

/// The device that one message of the tracking stream describes, if it
/// describes one.
pub open spec fn announced(message: Seq<u8>) -> Option<DeviceView> {
    match text_of(message) {
        None => None,
        Some(text) => parse_device(text),
    }
}

/// Reads one message of the tracking stream.
pub fn track_device(message: &[u8]) -> (r: Option<Device>)
    ensures
        match r {
            Some(device) => announced(message@) == Some(device@),
            None => announced(message@) is None,
        },
{
    assert(message@.subrange(0, message@.len() as int) =~= message@);
    match read_text(message, 0, message.len()) {
        None => None,
        Some(text) => match Device::try_from(text.as_str()) {
            Ok(device) => Some(device),
            Err(_) => None,
        },
    }
}

} // verus!
