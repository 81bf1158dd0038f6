//! One line of the device listing, and the record that it parses to.
//!
//! A line is a serial, blanks, a state keyword, and then, each optional and
//! in this order: a device path, `product:`, `model:` and `device:` values,
//! and a `transport_id:` number.
use vstd::prelude::*;
use vstd::string::*;
use crate::text::{
    chars_of, has_prefix_at, lemma_run_members, read_decimal, run_end, scan, starts_at, string_of,
    decimal_value, CharClass,
};
use crate::AdbTransportError;
use crate::ErrorView;

verus! {

/// The characters that Unicode classes as white space.
pub open spec fn is_whitespace(c: char) -> bool {
    let u = c as u32;
    ||| 0x09 <= u <= 0x0d
    ||| u == 0x20
    ||| u == 0x85
    ||| u == 0xa0
    ||| u == 0x1680
    ||| 0x2000 <= u <= 0x200a
    ||| u == 0x2028
    ||| u == 0x2029
    ||| u == 0x202f
    ||| u == 0x205f
    ||| u == 0x3000
}

/// Whether `c` may stand inside a token: whether it is not white space.
pub fn is_not_whitespace(c: char) -> (r: bool)
    ensures
        r == !is_whitespace(c),
{
    let u = c as u32;
    !((0x09 <= u && u <= 0x0d) || u == 0x20 || u == 0x85 || u == 0xa0 || u == 0x1680 || (0x2000
        <= u && u <= 0x200a) || u == 0x2028 || u == 0x2029 || u == 0x202f || u == 0x205f || u
        == 0x3000)
}

/// What the server tells of a device's connection.
#[derive(Debug, Clone, Copy, PartialEq, Eq, Structural)]
pub enum DeviceState {
    /// No response from the device yet.
    Connecting,
    /// Authorizing with the keys at hand.
    Authorizing,
    /// Keys exhausted; waiting for the user to allow the host.
    Unauthorized,
    /// Insufficient permissions to talk to the device.
    NoPerm,
    /// A USB device that is detached from the server.
    Detached,
    Offline,
    /// The device runs its bootloader.
    Bootloader,
    /// The device runs its operating system.
    Device,
    /// What a device sees from its end of a transport.
    Host,
    Recovery,
    Sideload,
    Rescue,
}

impl DeviceState {
    /// The keyword that stands for the state in a listing.
    pub open spec fn keyword(self) -> Seq<char> {
        match self {
            DeviceState::Connecting => "connecting"@,
            DeviceState::Authorizing => "authorizing"@,
            DeviceState::Unauthorized => "unauthorized"@,
            DeviceState::NoPerm => "noperm"@,
            DeviceState::Detached => "detached"@,
            DeviceState::Offline => "offline"@,
            DeviceState::Bootloader => "bootloader"@,
            DeviceState::Device => "device"@,
            DeviceState::Host => "host"@,
            DeviceState::Recovery => "recovery"@,
            DeviceState::Sideload => "sideload"@,
            DeviceState::Rescue => "rescue"@,
        }
    }

    /// Renders the state as its keyword.
    pub fn to_string(&self) -> (s: String)
        ensures
            s@ == self.keyword(),
    {
        match self {
            DeviceState::Connecting => String::from_str("connecting"),
            DeviceState::Authorizing => String::from_str("authorizing"),
            DeviceState::Unauthorized => String::from_str("unauthorized"),
            DeviceState::NoPerm => String::from_str("noperm"),
            DeviceState::Detached => String::from_str("detached"),
            DeviceState::Offline => String::from_str("offline"),
            DeviceState::Bootloader => String::from_str("bootloader"),
            DeviceState::Device => String::from_str("device"),
            DeviceState::Host => String::from_str("host"),
            DeviceState::Recovery => String::from_str("recovery"),
            DeviceState::Sideload => String::from_str("sideload"),
            DeviceState::Rescue => String::from_str("rescue"),
        }
    }

    /// Reads the state keyword that `input` begins with, and tells how
    /// many characters it takes.
    pub fn parse_device_state(input: &str) -> (r: Option<(DeviceState, usize)>)
        ensures
            match r {
                Some((state, used)) => state_at(input@, 0) == Some(state) && used
                    == state.keyword().len(),
                None => state_at(input@, 0) is None,
            },
    {
        let chars = chars_of(input);
        match_state(chars.as_slice(), 0)
    }
}

/// The state whose keyword stands in `s` at position `at`: the first, in
/// the order of the alternatives, that does.
pub open spec fn state_at(s: Seq<char>, at: int) -> Option<DeviceState> {
    if has_prefix_at(s, at, DeviceState::Connecting.keyword()) {
        Some(DeviceState::Connecting)
    } else if has_prefix_at(s, at, DeviceState::Authorizing.keyword()) {
        Some(DeviceState::Authorizing)
    } else if has_prefix_at(s, at, DeviceState::Unauthorized.keyword()) {
        Some(DeviceState::Unauthorized)
    } else if has_prefix_at(s, at, DeviceState::NoPerm.keyword()) {
        Some(DeviceState::NoPerm)
    } else if has_prefix_at(s, at, DeviceState::Detached.keyword()) {
        Some(DeviceState::Detached)
    } else if has_prefix_at(s, at, DeviceState::Offline.keyword()) {
        Some(DeviceState::Offline)
    } else if has_prefix_at(s, at, DeviceState::Bootloader.keyword()) {
        Some(DeviceState::Bootloader)
    } else if has_prefix_at(s, at, DeviceState::Device.keyword()) {
        Some(DeviceState::Device)
    } else if has_prefix_at(s, at, DeviceState::Host.keyword()) {
        Some(DeviceState::Host)
    } else if has_prefix_at(s, at, DeviceState::Recovery.keyword()) {
        Some(DeviceState::Recovery)
    } else if has_prefix_at(s, at, DeviceState::Sideload.keyword()) {
        Some(DeviceState::Sideload)
    } else if has_prefix_at(s, at, DeviceState::Rescue.keyword()) {
        Some(DeviceState::Rescue)
    } else {
        None
    }
}

fn try_state(s: &[char], at: usize, state: DeviceState) -> (used: Option<usize>)
    requires
        at <= s.len(),
    ensures
        match used {
            Some(n) => has_prefix_at(s@, at as int, state.keyword()) && n == state.keyword().len(),
            None => !has_prefix_at(s@, at as int, state.keyword()),
        },
{
    let keyword = state.to_string();
    let chars = chars_of(keyword.as_str());
    if starts_at(s, at, chars.as_slice()) {
        Some(chars.len())
    } else {
        None
    }
}

/// Reads the state keyword that stands in `s` at position `at`.
pub(crate) fn match_state(s: &[char], at: usize) -> (r: Option<(DeviceState, usize)>)
    requires
        at <= s.len(),
    ensures
        match r {
            Some((state, used)) => state_at(s@, at as int) == Some(state) && used
                == state.keyword().len() && at + used <= s.len(),
            None => state_at(s@, at as int) is None,
        },
{
    if let Some(n) = try_state(s, at, DeviceState::Connecting) {
        Some((DeviceState::Connecting, n))
    } else if let Some(n) = try_state(s, at, DeviceState::Authorizing) {
        Some((DeviceState::Authorizing, n))
    } else if let Some(n) = try_state(s, at, DeviceState::Unauthorized) {
        Some((DeviceState::Unauthorized, n))
    } else if let Some(n) = try_state(s, at, DeviceState::NoPerm) {
        Some((DeviceState::NoPerm, n))
    } else if let Some(n) = try_state(s, at, DeviceState::Detached) {
        Some((DeviceState::Detached, n))
    } else if let Some(n) = try_state(s, at, DeviceState::Offline) {
        Some((DeviceState::Offline, n))
    } else if let Some(n) = try_state(s, at, DeviceState::Bootloader) {
        Some((DeviceState::Bootloader, n))
    } else if let Some(n) = try_state(s, at, DeviceState::Device) {
        Some((DeviceState::Device, n))
    } else if let Some(n) = try_state(s, at, DeviceState::Host) {
        Some((DeviceState::Host, n))
    } else if let Some(n) = try_state(s, at, DeviceState::Recovery) {
        Some((DeviceState::Recovery, n))
    } else if let Some(n) = try_state(s, at, DeviceState::Sideload) {
        Some((DeviceState::Sideload, n))
    } else if let Some(n) = try_state(s, at, DeviceState::Rescue) {
        Some((DeviceState::Rescue, n))
    } else {
        None
    }
}

proof fn lemma_keyword_marks(s: Seq<char>, at: int, state: DeviceState)
    requires
        has_prefix_at(s, at, state.keyword()),
    ensures
        state.keyword().len() >= 4,
        s[at] == state.keyword()[0],
        s[at + 2] == state.keyword()[2],
{
    reveal_strlit("connecting");
    reveal_strlit("authorizing");
    reveal_strlit("unauthorized");
    reveal_strlit("noperm");
    reveal_strlit("detached");
    reveal_strlit("offline");
    reveal_strlit("bootloader");
    reveal_strlit("device");
    reveal_strlit("host");
    reveal_strlit("recovery");
    reveal_strlit("sideload");
    reveal_strlit("rescue");
    let part = s.subrange(at, at + state.keyword().len());
    assert(part[0] == s[at]);
    assert(part[2] == s[at + 2]);
}

proof fn lemma_other_keyword(s: Seq<char>, state: DeviceState, other: DeviceState)
    requires
        has_prefix_at(s, 0, state.keyword()),
    ensures
        other != state ==> !has_prefix_at(s, 0, other.keyword()),
{
    reveal_strlit("connecting");
    reveal_strlit("authorizing");
    reveal_strlit("unauthorized");
    reveal_strlit("noperm");
    reveal_strlit("detached");
    reveal_strlit("offline");
    reveal_strlit("bootloader");
    reveal_strlit("device");
    reveal_strlit("host");
    reveal_strlit("recovery");
    reveal_strlit("sideload");
    reveal_strlit("rescue");
    lemma_keyword_marks(s, 0, state);
    if has_prefix_at(s, 0, other.keyword()) {
        lemma_keyword_marks(s, 0, other);
    }
}

/// A state that is written as its keyword is read back as itself,
/// whatever follows the keyword.
pub proof fn lemma_state_roundtrip(state: DeviceState, rest: Seq<char>)
    ensures
        state_at(state.keyword() + rest, 0) == Some(state),
{
    let s = state.keyword() + rest;
    assert(s.subrange(0, state.keyword().len() as int) =~= state.keyword());
    lemma_other_keyword(s, state, DeviceState::Connecting);
    lemma_other_keyword(s, state, DeviceState::Authorizing);
    lemma_other_keyword(s, state, DeviceState::Unauthorized);
    lemma_other_keyword(s, state, DeviceState::NoPerm);
    lemma_other_keyword(s, state, DeviceState::Detached);
    lemma_other_keyword(s, state, DeviceState::Offline);
    lemma_other_keyword(s, state, DeviceState::Bootloader);
    lemma_other_keyword(s, state, DeviceState::Device);
    lemma_other_keyword(s, state, DeviceState::Host);
    lemma_other_keyword(s, state, DeviceState::Recovery);
    lemma_other_keyword(s, state, DeviceState::Sideload);
    lemma_other_keyword(s, state, DeviceState::Rescue);
}

/// The keyword of the state that was read is the text that it was read
/// from.
pub proof fn lemma_state_keyword_read(s: Seq<char>, at: int)
    ensures
        state_at(s, at) matches Some(state) ==> has_prefix_at(s, at, state.keyword()),
{
}

/// One device of a listing.
#[derive(Debug, Clone, PartialEq, Eq)]
pub struct Device {
    pub serial: String,
    pub state: DeviceState,
    pub product: Option<String>,
    pub model: Option<String>,
    pub device: Option<String>,
    pub devpath: Option<String>,
    pub transport_id: Option<u64>,
}

/// A device as contracts speak of it: each text by its characters.
pub struct DeviceView {
    pub serial: Seq<char>,
    pub state: DeviceState,
    pub product: Option<Seq<char>>,
    pub model: Option<Seq<char>>,
    pub device: Option<Seq<char>>,
    pub devpath: Option<Seq<char>>,
    pub transport_id: Option<u64>,
}

/// The characters of a text that may be absent.
pub open spec fn text_view(text: Option<String>) -> Option<Seq<char>> {
    match text {
        Some(t) => Some(t@),
        None => None,
    }
}

impl View for Device {
    type V = DeviceView;

    open spec fn view(&self) -> DeviceView {
        DeviceView {
            serial: self.serial@,
            state: self.state,
            product: text_view(self.product),
            model: text_view(self.model),
            device: text_view(self.device),
            devpath: text_view(self.devpath),
            transport_id: self.transport_id,
        }
    }
}

/// The value of the key that stands at `at`, and where the line goes on.
///
/// A key counts with a value of at least one character, also at the end of
/// the line; the white space behind the value is passed over. Where the
/// key does not count, nothing is consumed.
pub open spec fn key_value(s: Seq<char>, at: int, key: Seq<char>) -> (Option<Seq<char>>, int) {
    let from = at + key.len();
    let to = run_end(s, from, CharClass::Token);
    if has_prefix_at(s, at, key) && from < to {
        (Some(s.subrange(from, to)), run_end(s, to, CharClass::Multispace))
    } else {
        (None, at)
    }
}

/// The transport number that stands at `at`: the digits behind
/// `transport_id:`, where there are any and the number fits in 64 bits.
pub open spec fn transport_id_at(s: Seq<char>, at: int) -> Option<u64> {
    let from = at + "transport_id:"@.len();
    let to = run_end(s, from, CharClass::Digit);
    if has_prefix_at(s, at, "transport_id:"@) && from < to && decimal_value(s.subrange(from, to))
        <= u64::MAX {
        Some(decimal_value(s.subrange(from, to)) as u64)
    } else {
        None
    }
}

/// The device that the line `s` describes, if it describes one.
///
/// The serial is the first token and must be followed by a blank and a
/// state keyword. What stands behind the state, blanks apart, is the device
/// path unless it begins with `product:`. The keys follow in their order,
/// each optional, and what is left of the line is ignored.
pub open spec fn parse_device(s: Seq<char>) -> Option<DeviceView> {
    let serial_end = run_end(s, 0, CharClass::Token);
    let state_from = run_end(s, serial_end, CharClass::Blank);
    if serial_end == 0 || state_from == serial_end {
        None
    } else {
        match state_at(s, state_from) {
            None => None,
            Some(state) => {
                let path_from = run_end(s, state_from + state.keyword().len(), CharClass::Blank);
                let path_to = if has_prefix_at(s, path_from, "product:"@) {
                    path_from
                } else {
                    run_end(s, path_from, CharClass::Token)
                };
                let keys_from = run_end(s, path_to, CharClass::Blank);
                let product = key_value(s, keys_from, "product:"@);
                let model = key_value(s, product.1, "model:"@);
                let device = key_value(s, model.1, "device:"@);
                Some(
                    DeviceView {
                        serial: s.subrange(0, serial_end),
                        state,
                        product: product.0,
                        model: model.0,
                        device: device.0,
                        devpath: if path_from < path_to {
                            Some(s.subrange(path_from, path_to))
                        } else {
                            None
                        },
                        transport_id: transport_id_at(s, device.1),
                    },
                )
            },
        }
    }
}

fn read_key_value(s: &[char], at: usize, key: &str) -> (r: (Option<String>, usize))
    requires
        at <= s.len(),
    ensures
        text_view(r.0) == key_value(s@, at as int, key@).0,
        r.1 == key_value(s@, at as int, key@).1,
        at <= r.1 <= s.len(),
{
    let key_chars = chars_of(key);
    if !starts_at(s, at, key_chars.as_slice()) {
        return (None, at);
    }
    let from = at + key_chars.len();
    let to = scan(s, from, CharClass::Token);
    if from < to {
        (Some(string_of(s, from, to)), scan(s, to, CharClass::Multispace))
    } else {
        (None, at)
    }
}

fn read_transport_id(s: &[char], at: usize) -> (r: Option<u64>)
    requires
        at <= s.len(),
    ensures
        r == transport_id_at(s@, at as int),
{
    let key_chars = chars_of("transport_id:");
    if !starts_at(s, at, key_chars.as_slice()) {
        return None;
    }
    let from = at + key_chars.len();
    let to = scan(s, from, CharClass::Digit);
    if from < to {
        proof {
            lemma_run_members(s@, from as int, CharClass::Digit);
        }
        read_decimal(s, from, to)
    } else {
        None
    }
}

impl Device {
    /// Parses one line of a device listing, given by its characters.
    pub fn parse_chars(s: &[char]) -> (r: Option<Device>)
        ensures
            match r {
                Some(device) => parse_device(s@) == Some(device@),
                None => parse_device(s@) is None,
            },
    {
        let serial_end = scan(s, 0, CharClass::Token);
        let state_from = scan(s, serial_end, CharClass::Blank);
        if serial_end == 0 || state_from == serial_end {
            return None;
        }
        let (state, used) = match match_state(s, state_from) {
            None => {
                return None;
            },
            Some(found) => found,
        };
        let path_from = scan(s, state_from + used, CharClass::Blank);
        let product_key = chars_of("product:");
        let path_to = if starts_at(s, path_from, product_key.as_slice()) {
            path_from
        } else {
            scan(s, path_from, CharClass::Token)
        };
        let devpath = if path_from < path_to {
            Some(string_of(s, path_from, path_to))
        } else {
            None
        };
        let keys_from = scan(s, path_to, CharClass::Blank);
        let (product, model_from) = read_key_value(s, keys_from, "product:");
        let (model, device_from) = read_key_value(s, model_from, "model:");
        let (device, id_from) = read_key_value(s, device_from, "device:");
        let transport_id = read_transport_id(s, id_from);
        Some(
            Device {
                serial: string_of(s, 0, serial_end),
                state,
                product,
                model,
                device,
                devpath,
                transport_id,
            },
        )
    }

    /// Parses one line of a device listing.
    ///
    /// A line that the grammar does not match is refused.
    pub fn try_from(value: &str) -> (r: Result<Device, AdbTransportError>)
        ensures
            match r {
                Ok(device) => parse_device(value@) == Some(device@),
                Err(e) => parse_device(value@) is None && e@ == ErrorView::ConversionError(
                    "device line"@,
                ),
            },
    {
        let chars = chars_of(value);
        match Device::parse_chars(chars.as_slice()) {
            Some(device) => Ok(device),
            None => Err(AdbTransportError::ConversionError(String::from_str("device line"))),
        }
    }
}

/// In every line that parses, the state that is reported is the one whose
/// keyword stands behind the serial, and rendering the state gives back
/// exactly the text that it was read from.
pub proof fn lemma_parsed_state_keyword(s: Seq<char>)
    ensures
        parse_device(s) matches Some(device) ==> has_prefix_at(
            s,
            run_end(s, run_end(s, 0, CharClass::Token), CharClass::Blank),
            device.state.keyword(),
        ),
{
}

} // verus!
