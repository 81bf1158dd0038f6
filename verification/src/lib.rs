//! Client side of the device-debugging host protocol, without the socket.
//!
//! The library frames requests, decodes replies and plans multi-file
//! transfers; the caller moves the bytes. A reply is decoded from the bytes
//! received so far: the decoder either asks for more, up to a stated
//! total, or gives the record, the end of the stream, or the error.
//!
//! - [`session`]: the state of one connection, and what each operation
//!   sends over it.
//! - [`host`]: the text framing of the host protocol.
//! - [`commands`]: the exchanges of the sync sub-protocol, the device
//!   listing and the remote commands.
//! - [`result`]: the records that come back.
//! - [`walk`], [`remote_tree`], [`tree`]: transfers of whole directory
//!   trees.
//! - [`utils`], [`text`], [`wire`]: path validation, text scanning,
//!   integers on the wire.
use vstd::prelude::*;
use vstd::string::*;
use vstd::utf8::*;
use crate::wire::{u32_le, u32_to_le, ID_FAIL, ID_LIST, ID_OKAY, ID_RECV, ID_SEND, ID_STAT};

pub use crate::session::AdbTransports;

pub mod commands;
pub mod host;
pub mod remote_tree;
pub mod result;
pub mod session;
pub mod text;
pub mod tree;
pub mod utils;
pub mod walk;
pub mod wire;

verus! {

/// Why a path cannot be used.
#[derive(Debug, Clone, Copy, PartialEq, Eq, Structural)]
pub enum PathError {
    /// Longer than 1024 bytes.
    TooLong,
    /// The empty path.
    Empty,
    /// Holds a NUL byte.
    NullByte,
    /// Holds a line feed.
    Newline,
    /// Holds two slashes in a row.
    DoubleSlash,
    /// The path `/` itself.
    Root,
    /// Absolute, and outside the part of the device that may be written.
    OutsideSandbox,
    /// Nothing exists at the path.
    NotFound,
    /// A directory cannot be copied onto what is not a directory.
    NotADirectory,
    /// The path ends in no file name.
    NoFileName,
    /// What stands at the local path is neither a file nor a directory.
    NotAllowed,
    /// The path does not lie below the directory that is transferred.
    OutsideTree,
}

/// What can go wrong in an exchange with the broker.
#[derive(Debug, Clone, PartialEq, Eq)]
pub enum AdbTransportError {
    /// The connection failed; the text describes how.
    IoError(String),
    /// The server answered `FAIL`; the text is the server's own message.
    AdbError(String),
    /// The reply violates the protocol: the place where it was noticed, and
    /// a detail where there is one, such as the offending tag.
    InvalidResponse(String, Option<String>),
    /// A value could not be put in the form that the protocol asks for.
    ConversionError(String),
    /// The path cannot be used: it was refused before anything was sent,
    /// or what stands at it does not allow the transfer.
    InvalidPath(PathError),
    /// The end-of-stream sentinel came where a record was expected.
    EOF,
}

/// An error as contracts speak of it: each text by its characters.
pub enum ErrorView {
    IoError(Seq<char>),
    AdbError(Seq<char>),
    InvalidResponse(Seq<char>, Option<Seq<char>>),
    ConversionError(Seq<char>),
    InvalidPath(PathError),
    EOF,
}

impl View for AdbTransportError {
    type V = ErrorView;

    open spec fn view(&self) -> ErrorView {
        match *self {
            AdbTransportError::IoError(s) => ErrorView::IoError(s@),
            AdbTransportError::AdbError(s) => ErrorView::AdbError(s@),
            AdbTransportError::InvalidResponse(s, None) => ErrorView::InvalidResponse(s@, None),
            AdbTransportError::InvalidResponse(s, Some(d)) => ErrorView::InvalidResponse(
                s@,
                Some(d@),
            ),
            AdbTransportError::ConversionError(s) => ErrorView::ConversionError(s@),
            AdbTransportError::InvalidPath(p) => ErrorView::InvalidPath(p),
            AdbTransportError::EOF => ErrorView::EOF,
        }
    }
}

/// A request of the host protocol.
#[derive(Debug, Clone, PartialEq, Eq)]
pub enum AdbCommand {
    Version,
    Devices,
    ShellExec(String),
    DevicesLong,
    Sync,
    TransportAny,
    TransportSerial(String),
    TrackDevices,
}

/// A request of the host protocol as contracts speak of it: each text by
/// its characters.
pub enum AdbCommandView {
    Version,
    Devices,
    ShellExec(Seq<char>),
    DevicesLong,
    Sync,
    TransportAny,
    TransportSerial(Seq<char>),
    TrackDevices,
}

impl View for AdbCommand {
    type V = AdbCommandView;

    open spec fn view(&self) -> AdbCommandView {
        match *self {
            AdbCommand::Version => AdbCommandView::Version,
            AdbCommand::Devices => AdbCommandView::Devices,
            AdbCommand::ShellExec(cmd) => AdbCommandView::ShellExec(cmd@),
            AdbCommand::DevicesLong => AdbCommandView::DevicesLong,
            AdbCommand::Sync => AdbCommandView::Sync,
            AdbCommand::TransportAny => AdbCommandView::TransportAny,
            AdbCommand::TransportSerial(serial) => AdbCommandView::TransportSerial(serial@),
            AdbCommand::TrackDevices => AdbCommandView::TrackDevices,
        }
    }
}

impl AdbCommand {
    /// The service string that names the request on the wire.
    pub open spec fn service(self) -> Seq<char> {
        match self {
            AdbCommand::Version => "host:version"@,
            AdbCommand::Devices => "host:devices"@,
            AdbCommand::ShellExec(cmd) => "shell,raw:"@ + cmd@,
            AdbCommand::DevicesLong => "host:devices-l"@,
            AdbCommand::Sync => "sync:"@,
            AdbCommand::TransportAny => "host:transport-any"@,
            AdbCommand::TransportSerial(serial) => "host:transport:"@ + serial@,
            AdbCommand::TrackDevices => "host:track-devices"@,
        }
    }

    /// The requests whose reply carries a payload behind the status.
    pub open spec fn spec_has_payload(&self) -> bool {
        *self is Version || *self is Devices || *self is DevicesLong || *self is TrackDevices
    }

    /// Whether the reply to the request carries a payload behind the
    /// status.
    #[verifier::when_used_as_spec(spec_has_payload)]
    pub fn has_payload(&self) -> (b: bool)
        ensures
            b == self.spec_has_payload(),
    {
        match self {
            AdbCommand::Version => true,
            AdbCommand::Devices => true,
            AdbCommand::DevicesLong => true,
            AdbCommand::TrackDevices => true,
            _ => false,
        }
    }

    /// Renders the request as its service string.
    pub fn to_string(&self) -> (s: String)
        ensures
            s@ == self.service(),
    {
        match self {
            AdbCommand::Version => String::from_str("host:version"),
            AdbCommand::Devices => String::from_str("host:devices"),
            AdbCommand::ShellExec(cmd) => String::from_str("shell,raw:").concat(cmd.as_str()),
            AdbCommand::DevicesLong => String::from_str("host:devices-l"),
            AdbCommand::Sync => String::from_str("sync:"),
            AdbCommand::TransportAny => String::from_str("host:transport-any"),
            AdbCommand::TransportSerial(serial) => String::from_str("host:transport:").concat(
                serial.as_str(),
            ),
            AdbCommand::TrackDevices => String::from_str("host:track-devices"),
        }
    }
}

/// A request of the sync sub-protocol.
#[derive(Debug, Clone, Copy, PartialEq, Eq)]
pub enum AdbSyncModeCommand {
    Send,
    Recv,
    List,
    Stat,
}

impl AdbSyncModeCommand {
    /// The four letters of the request.
    pub open spec fn name(self) -> Seq<char> {
        match self {
            AdbSyncModeCommand::Send => "SEND"@,
            AdbSyncModeCommand::Recv => "RECV"@,
            AdbSyncModeCommand::List => "LIST"@,
            AdbSyncModeCommand::Stat => "STAT"@,
        }
    }

    /// The request's tag, read as a little-endian integer.
    pub open spec fn spec_id(self) -> u32 {
        match self {
            AdbSyncModeCommand::Send => ID_SEND,
            AdbSyncModeCommand::Recv => ID_RECV,
            AdbSyncModeCommand::List => ID_LIST,
            AdbSyncModeCommand::Stat => ID_STAT,
        }
    }

    /// The request's tag, read as a little-endian integer.
    #[verifier::when_used_as_spec(spec_id)]
    pub fn id(self) -> (id: u32)
        ensures
            id == self.spec_id(),
    {
        match self {
            AdbSyncModeCommand::Send => ID_SEND,
            AdbSyncModeCommand::Recv => ID_RECV,
            AdbSyncModeCommand::List => ID_LIST,
            AdbSyncModeCommand::Stat => ID_STAT,
        }
    }

    /// Renders the request as its four letters.
    pub fn to_string(&self) -> (s: String)
        ensures
            s@ == self.name(),
    {
        match self {
            AdbSyncModeCommand::Send => String::from_str("SEND"),
            AdbSyncModeCommand::Recv => String::from_str("RECV"),
            AdbSyncModeCommand::List => String::from_str("LIST"),
            AdbSyncModeCommand::Stat => String::from_str("STAT"),
        }
    }

    /// The four bytes that open the request on the wire.
    pub fn into(self) -> (tag: Vec<u8>)
        ensures
            tag@ == u32_le(self.spec_id()),
    {
        u32_to_le(self.id())
    }
}

/// The tag of a sync request is its four letters in UTF-8.
pub proof fn lemma_tag_spells_name(command: AdbSyncModeCommand)
    ensures
        u32_le(command.spec_id()) == encode_utf8(command.name()),
{
    reveal(u32_le);
    reveal_strlit("SEND");
    reveal_strlit("RECV");
    reveal_strlit("LIST");
    reveal_strlit("STAT");
    let name = command.name();
    assert(is_ascii_chars(name));
    is_ascii_chars_encode_utf8(name);
    assert(u32_le(command.spec_id()) =~= encode_utf8(name));
}

/// The status that opens every reply of the host protocol.
#[derive(Debug, Clone, PartialEq, Eq)]
pub enum AdbRespStatus {
    Okay,
    /// The request failed; the message is read separately.
    Fail(String),
}

/// What a status tag says: success for the four bytes `OKAY`, failure for
/// the four bytes `FAIL`, and nothing for anything else.
pub open spec fn status_tag(tag: Seq<u8>) -> Option<bool> {
    if tag =~= seq![0x4fu8, 0x4bu8, 0x41u8, 0x59u8] {
        Some(true)
    } else if tag =~= seq![0x46u8, 0x41u8, 0x49u8, 0x4cu8] {
        Some(false)
    } else {
        None
    }
}

/// The two status tags are the tags `OKAY` and `FAIL` as they are written
/// on the wire.
pub proof fn lemma_status_tags()
    ensures
        status_tag(u32_le(ID_OKAY)) == Some(true),
        status_tag(u32_le(ID_FAIL)) == Some(false),
        forall|tag: Seq<u8>| #[trigger] status_tag(tag) == Some(true) <==> tag == u32_le(ID_OKAY),
        forall|tag: Seq<u8>| #[trigger] status_tag(tag) == Some(false) <==> tag == u32_le(ID_FAIL),
{
    reveal(u32_le);
    assert(u32_le(ID_OKAY) =~= seq![0x4fu8, 0x4bu8, 0x41u8, 0x59u8]);
    assert(u32_le(ID_FAIL) =~= seq![0x46u8, 0x41u8, 0x49u8, 0x4cu8]);
    assert(seq![0x46u8, 0x41u8, 0x49u8, 0x4cu8][0] != seq![0x4fu8, 0x4bu8, 0x41u8, 0x59u8][0]);
}

impl AdbRespStatus {
    /// Decodes a status tag: the bytes `OKAY` are success, the bytes `FAIL`
    /// a failure whose message has yet to be read. Any other tag is no
    /// status at all.
    pub fn from(value: [u8; 4]) -> (status: Option<Self>)
        ensures
            match status {
                Some(AdbRespStatus::Okay) => status_tag(value@) == Some(true),
                Some(AdbRespStatus::Fail(message)) => status_tag(value@) == Some(false)
                    && message@ == Seq::<char>::empty(),
                None => status_tag(value@) is None,
            },
    {
        let ghost okay = seq![0x4fu8, 0x4bu8, 0x41u8, 0x59u8];
        let ghost fail = seq![0x46u8, 0x41u8, 0x49u8, 0x4cu8];
        if value[0] == 0x4f && value[1] == 0x4b && value[2] == 0x41 && value[3] == 0x59 {
            assert(value@ =~= okay);
            Some(AdbRespStatus::Okay)
        } else if value[0] == 0x46 && value[1] == 0x41 && value[2] == 0x49 && value[3] == 0x4c {
            assert(value@ =~= fail);
            assert(fail[0] != okay[0]);
            Some(AdbRespStatus::Fail(String::new()))
        } else {
            assert(value@[0] == value[0] && value@[1] == value[1] && value@[2] == value[2]
                && value@[3] == value[3]);
            assert(okay[0] == 0x4f && okay[1] == 0x4b && okay[2] == 0x41 && okay[3] == 0x59);
            assert(fail[0] == 0x46 && fail[1] == 0x41 && fail[2] == 0x49 && fail[3] == 0x4c);
            None
        }
    }
}

} // verus!
