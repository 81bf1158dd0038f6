//! The state of one connection to the broker, and what each operation has
//! to send over it.
//!
//! A connection serves host requests until it enters sync mode or is
//! handed to a remote command; then it serves that one request and no
//! other. A device is selected on it at most once. The session keeps track
//! of this, and tells the caller, step by step and in order, what to do on
//! the connection and when it has to be made anew.
use vstd::prelude::*;
use vstd::string::*;
use crate::commands::list::list_request;
use crate::commands::pull::recv_request;
use crate::commands::push::{permission_suffix, send_request};
use crate::commands::shell::{joined, mkdir, shell};
use crate::commands::stat::stat_request;
use crate::commands::sync_request;
use crate::text::{
    chars_of, decimal_value, lemma_run_members, read_decimal, run_end, scan, string_of, CharClass,
};
use crate::utils::{outside_sandbox, path_fault, sync_path_fault};
use crate::{
    AdbCommand, AdbCommandView, AdbSyncModeCommand, AdbTransportError, ErrorView, PathError,
};

verus! {

/// The port of a broker that is named without one.
pub const DEFAULT_PORT: u16 = 5035;

/// Where the broker listens.
#[derive(Debug, Clone, PartialEq, Eq)]
pub enum Endpoint {
    /// The path of a Unix-domain socket.
    Unix(String),
    /// A host and a TCP port.
    Tcp(String, u16),
}

/// An endpoint as contracts speak of it.
pub enum EndpointView {
    Unix(Seq<char>),
    Tcp(Seq<char>, u16),
}

impl View for Endpoint {
    type V = EndpointView;

    open spec fn view(&self) -> EndpointView {
        match *self {
            Endpoint::Unix(path) => EndpointView::Unix(path@),
            Endpoint::Tcp(host, port) => EndpointView::Tcp(host@, port),
        }
    }
}

/// The endpoint that `s` names.
///
/// An address that begins with a slash is the path of a socket. Any other
/// is a host, with a port behind the first colon where there is one; the
/// port is a decimal number of at most 65535.
pub open spec fn parse_endpoint(s: Seq<char>) -> Option<EndpointView> {
    if s.len() > 0 && s[0] == '/' {
        Some(EndpointView::Unix(s))
    } else {
        let colon = run_end(s, 0, CharClass::Host);
        if colon >= s.len() {
            Some(EndpointView::Tcp(s, DEFAULT_PORT))
        } else if colon + 1 < s.len() && run_end(s, colon + 1, CharClass::Digit) == s.len()
            && decimal_value(s.subrange(colon + 1, s.len() as int)) <= u16::MAX {
            Some(
                EndpointView::Tcp(
                    s.subrange(0, colon),
                    decimal_value(s.subrange(colon + 1, s.len() as int)) as u16,
                ),
            )
        } else {
            None
        }
    }
}

impl Endpoint {
    /// Reads an endpoint from its address.
    pub fn parse(address: &str) -> (r: Result<Endpoint, AdbTransportError>)
        ensures
            match r {
                Ok(endpoint) => parse_endpoint(address@) == Some(endpoint@),
                Err(e) => parse_endpoint(address@) is None && e@ == ErrorView::ConversionError(
                    "endpoint"@,
                ),
            },
    {
        let chars = chars_of(address);
        let s = chars.as_slice();
        if s.len() > 0 && s[0] == '/' {
            return Ok(Endpoint::Unix(String::from_str(address)));
        }
        let colon = scan(s, 0, CharClass::Host);
        if colon >= s.len() {
            return Ok(Endpoint::Tcp(String::from_str(address), DEFAULT_PORT));
        }
        if colon + 1 < s.len() && scan(s, colon + 1, CharClass::Digit) == s.len() {
            proof {
                lemma_run_members(s@, colon + 1, CharClass::Digit);
            }
            match read_decimal(s, colon + 1, s.len()) {
                Some(port) => {
                    if port <= 65535 {
                        return Ok(Endpoint::Tcp(string_of(s, 0, colon), port as u16));
                    }
                },
                None => {},
            }
        }
        Err(AdbTransportError::ConversionError(String::from_str("endpoint")))
    }
}

/// What an operation sends before its reply is read.
#[derive(Debug, Clone, PartialEq, Eq)]
pub struct Exchange {
    /// The connection must be made anew before anything is sent.
    pub reconnect: bool,
    /// The request that pins the connection to a device, where none was
    /// sent on the connection that is used.
    pub select: Option<AdbCommand>,
    /// The host request of the operation.
    pub command: AdbCommand,
    /// The sync request that follows once the host request was accepted;
    /// empty where the operation has none.
    pub request: Vec<u8>,
}

/// One thing to do on the connection.
#[derive(Debug, Clone, PartialEq, Eq)]
pub enum Step {
    /// Make the connection anew.
    Reconnect,
    /// Send the request that selects the device, and read its status.
    Select(AdbCommand),
    /// Send the host request of the operation, and read its reply.
    Request(AdbCommand),
    /// Write the sync request.
    Write(Vec<u8>),
}

/// A step as contracts speak of it.
pub enum StepView {
    Reconnect,
    Select(AdbCommandView),
    Request(AdbCommandView),
    Write(Seq<u8>),
}

impl View for Step {
    type V = StepView;

    open spec fn view(&self) -> StepView {
        match *self {
            Step::Reconnect => StepView::Reconnect,
            Step::Select(command) => StepView::Select(command@),
            Step::Request(command) => StepView::Request(command@),
            Step::Write(bytes) => StepView::Write(bytes@),
        }
    }
}

/// The steps as contracts speak of them.
pub open spec fn step_views(steps: Seq<Step>) -> Seq<StepView> {
    steps.map_values(|step: Step| step@)
}

impl Exchange {
    /// The steps of the exchange, in the order in which they are taken:
    /// the reconnect, the selection of the device, the host request, the
    /// sync request, each only where the exchange has it.
    pub open spec fn spec_steps(self) -> Seq<StepView> {
        (if self.reconnect {
            seq![StepView::Reconnect]
        } else {
            Seq::empty()
        }) + (match self.select {
            Some(command) => seq![StepView::Select(command@)],
            None => Seq::empty(),
        }) + seq![StepView::Request(self.command@)] + (if self.request@.len() > 0 {
            seq![StepView::Write(self.request@)]
        } else {
            Seq::empty()
        })
    }

    /// Lays the exchange out as the steps to take on the connection.
    ///
    /// The steps are taken in their order, one after the other has
    /// succeeded; the first that fails ends the operation with its error,
    /// and no later step is taken. A selection that failed is reported to
    /// the session with `selection_failed`.
    pub fn steps(self) -> (steps: Vec<Step>)
        ensures
            step_views(steps@) == self.spec_steps(),
    {
        let mut steps: Vec<Step> = Vec::new();
        if self.reconnect {
            steps.push(Step::Reconnect);
        }
        match self.select {
            Some(command) => {
                steps.push(Step::Select(command));
            },
            None => {},
        }
        steps.push(Step::Request(self.command));
        if self.request.len() > 0 {
            steps.push(Step::Write(self.request));
        }
        assert(step_views(steps@) =~= self.spec_steps());
        steps
    }
}

/// The service string that selects a device: the one with the given
/// serial, or any.
pub open spec fn selection(serial: Option<Seq<char>>) -> Seq<char> {
    match serial {
        Some(s) => "host:transport:"@ + s,
        None => "host:transport-any"@,
    }
}

/// The characters of a serial that may be absent.
pub open spec fn serial_view(serial: Option<&str>) -> Option<Seq<char>> {
    match serial {
        Some(s) => Some(s@),
        None => None,
    }
}

/// One session with the broker: its endpoint, whether a device has been
/// selected on the current connection, whether that connection has entered
/// sync mode or was handed to a remote command, and the form in which
/// listings are wanted.
pub struct AdbTransports {
    endpoint: Endpoint,
    serial_set: bool,
    sync_mode: bool,
    shell_mode: bool,
    json: bool,
}

impl AdbTransports {
    /// The endpoint that the session was made for.
    pub closed spec fn endpoint_view(&self) -> EndpointView {
        self.endpoint@
    }

    /// A device has been selected on the current connection.
    pub closed spec fn spec_serial_set(&self) -> bool {
        self.serial_set
    }

    /// The current connection has entered sync mode.
    pub closed spec fn spec_sync_mode(&self) -> bool {
        self.sync_mode
    }

    /// The current connection was handed to a remote command, whose
    /// output it carries until the peer closes it.
    pub closed spec fn spec_shell_mode(&self) -> bool {
        self.shell_mode
    }

    /// Listings are wanted as parsed records.
    pub closed spec fn spec_json(&self) -> bool {
        self.json
    }

    /// The current connection serves no further request.
    pub open spec fn used_up(&self) -> bool {
        self.sync_mode() || self.shell_mode()
    }

    /// Whether a device has been selected on the current connection.
    #[verifier::when_used_as_spec(spec_serial_set)]
    pub fn serial_set(&self) -> (b: bool)
        ensures
            b == self.spec_serial_set(),
    {
        self.serial_set
    }

    /// Whether the current connection has entered sync mode.
    #[verifier::when_used_as_spec(spec_sync_mode)]
    pub fn sync_mode(&self) -> (b: bool)
        ensures
            b == self.spec_sync_mode(),
    {
        self.sync_mode
    }

    /// Whether the current connection was handed to a remote command.
    #[verifier::when_used_as_spec(spec_shell_mode)]
    pub fn shell_mode(&self) -> (b: bool)
        ensures
            b == self.spec_shell_mode(),
    {
        self.shell_mode
    }

    /// Whether listings are wanted as parsed records.
    #[verifier::when_used_as_spec(spec_json)]
    pub fn json(&self) -> (b: bool)
        ensures
            b == self.spec_json(),
    {
        self.json
    }

    /// The endpoint to connect to, now and after every reconnect.
    pub fn endpoint(&self) -> (endpoint: &Endpoint)
        ensures
            endpoint@ == self.endpoint_view(),
    {
        &self.endpoint
    }

    /// Opens a session for the broker at `sockt`.
    ///
    /// The session starts on a fresh connection: no device selected, and
    /// the connection free to serve requests.
    pub fn new(sockt: &str, json: bool) -> (r: Result<Self, AdbTransportError>)
        ensures
            match r {
                Ok(session) => {
                    &&& parse_endpoint(sockt@) == Some(session.endpoint_view())
                    &&& !session.serial_set()
                    &&& !session.used_up()
                    &&& session.json() == json
                },
                Err(e) => parse_endpoint(sockt@) is None && e@ == ErrorView::ConversionError(
                    "endpoint"@,
                ),
            },
    {
        match Endpoint::parse(sockt) {
            Ok(endpoint) => Ok(
                AdbTransports {
                    endpoint,
                    serial_set: false,
                    sync_mode: false,
                    shell_mode: false,
                    json,
                },
            ),
            Err(e) => Err(e),
        }
    }

    /// The session differs from `before` in its connection flags at most.
    pub open spec fn same_session(&self, before: &Self) -> bool {
        self.endpoint_view() == before.endpoint_view() && self.json() == before.json()
    }

    /// The session differs from `before` in the selection of the device at
    /// most.
    pub open spec fn same_connection(&self, before: &Self) -> bool {
        &&& self.same_session(before)
        &&& self.sync_mode() == before.sync_mode()
        &&& self.shell_mode() == before.shell_mode()
    }

    /// Records that the connection was made anew: no device is selected on
    /// it, and it is free to serve requests.
    pub fn new_connection(&mut self)
        ensures
            !final(self).serial_set(),
            !final(self).used_up(),
            final(self).same_session(old(self)),
    {
        self.serial_set = false;
        self.sync_mode = false;
        self.shell_mode = false;
    }

    /// Selects the device for the current connection, unless one has been
    /// selected on it already.
    ///
    /// The first call on a connection gives the request to send; every
    /// later call on the same connection gives none. The session counts
    /// the device as selected from then on; where the request fails, that
    /// is taken back with `selection_failed`.
    pub fn may_set_serial(&mut self, serial: Option<&str>) -> (select: Option<AdbCommand>)
        ensures
            final(self).serial_set(),
            final(self).same_connection(old(self)),
            select is None <==> old(self).serial_set(),
            select matches Some(command) ==> command.service() == selection(serial_view(serial)),
    {
        if self.serial_set {
            return None;
        }
        self.serial_set = true;
        match serial {
            Some(s) => Some(AdbCommand::TransportSerial(String::from_str(s))),
            None => Some(AdbCommand::TransportAny),
        }
    }

    /// Records that the request that selects the device failed: no device
    /// is selected on the connection, and the next operation that needs
    /// one sends the selection again.
    pub fn selection_failed(&mut self)
        ensures
            !final(self).serial_set(),
            final(self).same_connection(old(self)),
    {
        self.serial_set = false;
    }

    /// How the session `after` and the exchange `x` follow from the session
    /// before a request that is bound to a device and goes out on the
    /// connection at hand where that can serve it: the connection is made
    /// anew if it is used up, and the device is selected unless that was
    /// done on the connection that is used.
    pub open spec fn opens(&self, after: &Self, x: Exchange, serial: Option<Seq<char>>) -> bool {
        &&& x.reconnect == self.used_up()
        &&& x.select is None <==> self.serial_set() && !self.used_up()
        &&& x.select matches Some(command) ==> command.service() == selection(serial)
        &&& after.serial_set()
        &&& after.same_session(self)
    }

    /// How the session `after` and the exchange `x` follow from the session
    /// before the transfer of a file, which starts on a connection of its
    /// own: the connection is made anew, and the device is selected on it.
    pub open spec fn opens_afresh(
        &self,
        after: &Self,
        x: Exchange,
        serial: Option<Seq<char>>,
    ) -> bool {
        &&& x.reconnect
        &&& x.select matches Some(command) && command.service() == selection(serial)
        &&& after.serial_set()
        &&& after.same_session(self)
    }

    fn open_exchange(
        &mut self,
        serial: Option<&str>,
        command: AdbCommand,
        request: Vec<u8>,
        afresh: bool,
    ) -> (x: Exchange)
        ensures
            afresh ==> old(self).opens_afresh(final(self), x, serial_view(serial)),
            !afresh ==> old(self).opens(final(self), x, serial_view(serial)),
            !final(self).used_up(),
            x.command == command,
            x.request == request,
    {
        let reconnect = afresh || self.sync_mode || self.shell_mode;
        if reconnect {
            self.new_connection();
        }
        let select = self.may_set_serial(serial);
        Exchange { reconnect, select, command, request }
    }

    fn open_sync(&mut self, serial: Option<&str>, request: Vec<u8>, afresh: bool) -> (x: Exchange)
        ensures
            afresh ==> old(self).opens_afresh(final(self), x, serial_view(serial)),
            !afresh ==> old(self).opens(final(self), x, serial_view(serial)),
            final(self).sync_mode(),
            !final(self).shell_mode(),
            x.command@ == AdbCommandView::Sync,
            x.request == request,
    {
        let x = self.open_exchange(serial, AdbCommand::Sync, request, afresh);
        self.sync_mode = true;
        x
    }

    /// Prepares the listing of the remote directory `path`.
    ///
    /// A path that may not cross into sync mode is refused before anything
    /// is sent, and the session stays as it was.
    pub fn list(&mut self, path: &str, serial: Option<&str>) -> (r: Result<
        Exchange,
        AdbTransportError,
    >)
        ensures
            match r {
                Ok(x) => {
                    &&& sync_path_fault(path.spec_bytes()) is None
                    &&& old(self).opens(final(self), x, serial_view(serial))
                    &&& final(self).sync_mode()
                    &&& !final(self).shell_mode()
                    &&& x.command@ == AdbCommandView::Sync
                    &&& x.request@ == sync_request(AdbSyncModeCommand::List, path.spec_bytes())
                },
                Err(e) => {
                    &&& sync_path_fault(path.spec_bytes()) matches Some(fault) && e@
                        == ErrorView::InvalidPath(fault)
                    &&& *final(self) == *old(self)
                },
            },
    {
        match list_request(path) {
            Err(e) => Err(e),
            Ok(request) => Ok(self.open_sync(serial, request, false)),
        }
    }

    /// Prepares the request for the metadata of the remote `path`.
    ///
    /// A path that may not cross into sync mode is refused before anything
    /// is sent, and the session stays as it was.
    pub fn sync_stat(&mut self, path: &str, serial: Option<&str>) -> (r: Result<
        Exchange,
        AdbTransportError,
    >)
        ensures
            match r {
                Ok(x) => {
                    &&& sync_path_fault(path.spec_bytes()) is None
                    &&& old(self).opens(final(self), x, serial_view(serial))
                    &&& final(self).sync_mode()
                    &&& !final(self).shell_mode()
                    &&& x.command@ == AdbCommandView::Sync
                    &&& x.request@ == sync_request(AdbSyncModeCommand::Stat, path.spec_bytes())
                },
                Err(e) => {
                    &&& sync_path_fault(path.spec_bytes()) matches Some(fault) && e@
                        == ErrorView::InvalidPath(fault)
                    &&& *final(self) == *old(self)
                },
            },
    {
        match stat_request(path) {
            Err(e) => Err(e),
            Ok(request) => Ok(self.open_sync(serial, request, false)),
        }
    }

    /// Prepares the download of the remote file `path`.
    ///
    /// A download starts on a connection of its own: the connection is
    /// made anew and the device is selected on it, whatever the state of
    /// the session. A path that may not cross into sync mode is refused
    /// before anything is sent, and the session stays as it was.
    pub fn pull(&mut self, serial: Option<&str>, path: &str) -> (r: Result<
        Exchange,
        AdbTransportError,
    >)
        ensures
            match r {
                Ok(x) => {
                    &&& sync_path_fault(path.spec_bytes()) is None
                    &&& old(self).opens_afresh(final(self), x, serial_view(serial))
                    &&& final(self).sync_mode()
                    &&& !final(self).shell_mode()
                    &&& x.command@ == AdbCommandView::Sync
                    &&& x.request@ == sync_request(AdbSyncModeCommand::Recv, path.spec_bytes())
                },
                Err(e) => {
                    &&& sync_path_fault(path.spec_bytes()) matches Some(fault) && e@
                        == ErrorView::InvalidPath(fault)
                    &&& *final(self) == *old(self)
                },
            },
    {
        match recv_request(path) {
            Err(e) => Err(e),
            Ok(request) => Ok(self.open_sync(serial, request, true)),
        }
    }

    /// Prepares the upload of a file to the remote `path`.
    ///
    /// An upload starts on a connection of its own: the connection is made
    /// anew and the device is selected on it, whatever the state of the
    /// session. The exchange holds the request that opens the upload; the
    /// content follows it chunk by chunk, and the closing record ends it.
    /// A path that may not cross into sync mode is refused before anything
    /// is sent, and the session stays as it was.
    pub fn push(&mut self, serial: Option<&str>, path: &str) -> (r: Result<
        Exchange,
        AdbTransportError,
    >)
        ensures
            match r {
                Ok(x) => {
                    &&& sync_path_fault(path.spec_bytes()) is None
                    &&& old(self).opens_afresh(final(self), x, serial_view(serial))
                    &&& final(self).sync_mode()
                    &&& !final(self).shell_mode()
                    &&& x.command@ == AdbCommandView::Sync
                    &&& x.request@ == sync_request(
                        AdbSyncModeCommand::Send,
                        path.spec_bytes() + permission_suffix(),
                    )
                },
                Err(e) => {
                    &&& sync_path_fault(path.spec_bytes()) matches Some(fault) && e@
                        == ErrorView::InvalidPath(fault)
                    &&& *final(self) == *old(self)
                },
            },
    {
        match send_request(path) {
            Err(e) => Err(e),
            Ok(request) => Ok(self.open_sync(serial, request, true)),
        }
    }

    /// Prepares the run of the command line `cmd` on the device.
    ///
    /// The connection carries the output of the command from then on, and
    /// serves no further request.
    pub fn shell(&mut self, serial: Option<&str>, cmd: &Vec<String>) -> (x: Exchange)
        ensures
            old(self).opens(final(self), x, serial_view(serial)),
            final(self).shell_mode(),
            !final(self).sync_mode(),
            x.command@ == AdbCommandView::ShellExec(joined(cmd.deep_view())),
            x.request@.len() == 0,
    {
        let command = shell(cmd);
        let x = self.open_exchange(serial, command, Vec::new(), false);
        self.shell_mode = true;
        x
    }

    /// Prepares the making of the remote directory `path`.
    ///
    /// The path must pass validation and lie within what may be written;
    /// any other is refused before anything is sent, and the session stays
    /// as it was. The directory is made by a remote command, to which the
    /// connection is handed.
    pub fn mkdir(&mut self, serial: Option<&str>, path: &str) -> (r: Result<
        Exchange,
        AdbTransportError,
    >)
        ensures
            match r {
                Ok(x) => {
                    &&& path_fault(path.spec_bytes()) is None
                    &&& !outside_sandbox(path.spec_bytes())
                    &&& old(self).opens(final(self), x, serial_view(serial))
                    &&& final(self).shell_mode()
                    &&& !final(self).sync_mode()
                    &&& x.command@ == AdbCommandView::ShellExec("mkdir "@ + path@)
                    &&& x.request@.len() == 0
                },
                Err(e) => {
                    &&& e@ == ErrorView::InvalidPath(
                        match path_fault(path.spec_bytes()) {
                            Some(fault) => fault,
                            None => PathError::OutsideSandbox,
                        },
                    )
                    &&& path_fault(path.spec_bytes()) is Some || outside_sandbox(
                        path.spec_bytes(),
                    )
                    &&& *final(self) == *old(self)
                },
            },
    {
        match mkdir(path) {
            Err(e) => Err(e),
            Ok(command) => {
                let x = self.open_exchange(serial, command, Vec::new(), false);
                self.shell_mode = true;
                Ok(x)
            },
        }
    }

    /// How the session `after` and the exchange `x` follow from the session
    /// before a query that is bound to no device: the connection is made
    /// anew if it is used up, and no device is selected.
    pub open spec fn asks(&self, after: &Self, x: Exchange) -> bool {
        &&& x.reconnect == self.used_up()
        &&& x.select is None
        &&& x.request@.len() == 0
        &&& !after.used_up()
        &&& after.serial_set() == (self.serial_set() && !self.used_up())
        &&& after.same_session(self)
    }

    fn open_query(&mut self, command: AdbCommand) -> (x: Exchange)
        ensures
            old(self).asks(final(self), x),
            x.command == command,
    {
        let reconnect = self.sync_mode || self.shell_mode;
        if reconnect {
            self.new_connection();
        }
        Exchange { reconnect, select: None, command, request: Vec::new() }
    }

    /// Prepares the query for the attached devices, in the short form.
    pub fn devices(&mut self) -> (x: Exchange)
        ensures
            old(self).asks(final(self), x),
            x.command@ == AdbCommandView::Devices,
    {
        self.open_query(AdbCommand::Devices)
    }

    /// Prepares the query for the attached devices, in the long form.
    pub fn devices_long(&mut self) -> (x: Exchange)
        ensures
            old(self).asks(final(self), x),
            x.command@ == AdbCommandView::DevicesLong,
    {
        self.open_query(AdbCommand::DevicesLong)
    }

    /// Prepares the subscription to changes of the attached devices.
    pub fn track_device(&mut self) -> (x: Exchange)
        ensures
            old(self).asks(final(self), x),
            x.command@ == AdbCommandView::TrackDevices,
    {
        self.open_query(AdbCommand::TrackDevices)
    }
}

} // verus!
