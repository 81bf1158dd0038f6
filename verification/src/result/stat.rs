//! The metadata of one remote file, and the kind of file that its mode
//! announces.
use vstd::prelude::*;
use vstd::string::*;
use crate::utils::{
    fail_record, failure, lemma_fail_record_surfaces, lemma_failure_steps, read_failure,
};
use crate::wire::{
    le_u32, lemma_le_u32_extend, read_text, reply_of, text_of, u32_from_le, Frame, Reply,
    ID_DONE, ID_FAIL, ID_STAT,
};
use crate::AdbTransportError;
use crate::ErrorView;

verus! {

/// The bits of a mode that hold the file type.
pub const S_IFMT: u32 = 0o170000;

pub const S_IFSOCK: u32 = 0o140000;

pub const S_IFLNK: u32 = 0o120000;

pub const S_IFREG: u32 = 0o100000;

pub const S_IFBLK: u32 = 0o060000;

pub const S_IFDIR: u32 = 0o040000;

pub const S_IFCHR: u32 = 0o020000;

pub const S_IFIFO: u32 = 0o010000;

/// What a `STAT` request reports of a path: the mode bits, the size in
/// bytes, the modification time in seconds since the epoch.
#[derive(Debug, Clone, Copy, PartialEq, Eq)]
pub struct StatInfo {
    pub mode: u32,
    pub size: u32,
    pub mtime: u32,
}

impl View for StatInfo {
    type V = StatInfo;

    open spec fn view(&self) -> StatInfo {
        *self
    }
}

/// The kind of file that a mode announces.
#[derive(Debug, Clone, Copy, PartialEq, Eq, Structural)]
pub enum FileType {
    File,
    Directory,
    Link,
    BlockDevice,
    CharDevice,
    Socket,
    Fifo,
    Other,
}

/// The kind of file whose type bits are those of `mode`.
pub open spec fn file_type_of(mode: u32) -> FileType {
    let format = mode & S_IFMT;
    if format == S_IFSOCK {
        FileType::Socket
    } else if format == S_IFLNK {
        FileType::Link
    } else if format == S_IFREG {
        FileType::File
    } else if format == S_IFBLK {
        FileType::BlockDevice
    } else if format == S_IFDIR {
        FileType::Directory
    } else if format == S_IFCHR {
        FileType::CharDevice
    } else if format == S_IFIFO {
        FileType::Fifo
    } else {
        FileType::Other
    }
}

/// Two modes with the same type bits announce the same kind of file,
/// whatever their other bits.
pub proof fn lemma_file_type_by_type_bits(a: u32, b: u32)
    requires
        a & S_IFMT == b & S_IFMT,
    ensures
        file_type_of(a) == file_type_of(b),
{
}

/// The permission bits of a mode play no part in its kind.
pub proof fn lemma_file_type_ignores_other_bits(mode: u32)
    ensures
        file_type_of(mode) == file_type_of(mode & S_IFMT),
{
    assert((mode & 0o170000) & 0o170000 == mode & 0o170000) by (bit_vector);
}

impl FileType {
    /// The kind of file that `mode` announces.
    pub fn from_mode(mode: u32) -> (kind: FileType)
        ensures
            kind == file_type_of(mode),
    {
        let format = mode & S_IFMT;
        if format == S_IFSOCK {
            FileType::Socket
        } else if format == S_IFLNK {
            FileType::Link
        } else if format == S_IFREG {
            FileType::File
        } else if format == S_IFBLK {
            FileType::BlockDevice
        } else if format == S_IFDIR {
            FileType::Directory
        } else if format == S_IFCHR {
            FileType::CharDevice
        } else if format == S_IFIFO {
            FileType::Fifo
        } else {
            FileType::Other
        }
    }
}

/// The reply to a `STAT` request, as a function of the bytes received so
/// far.
///
/// A `STAT` tag is followed by the mode, the size and the modification
/// time. A `FAIL` tag opens a failure record, whose message becomes the
/// error. A `DONE` tag is the end of the stream. Any other tag violates the
/// protocol.
pub open spec fn stat_reply(b: Seq<u8>) -> Reply<StatInfo> {
    if b.len() < 4 {
        Reply::Need(4)
    } else {
        let id = le_u32(b);
        if id == ID_STAT {
            if b.len() < 16 {
                Reply::Need(16)
            } else {
                Reply::Item(
                    StatInfo {
                        mode: le_u32(b.skip(4)),
                        size: le_u32(b.skip(8)),
                        mtime: le_u32(b.skip(12)),
                    },
                    16,
                )
            }
        } else if id == ID_FAIL {
            failure(b, 4)
        } else if id == ID_DONE {
            Reply::End(4)
        } else {
            Reply::Failed(ErrorView::InvalidResponse("sync_stat"@, text_of(b.take(4))))
        }
    }
}

impl StatInfo {
    /// Decodes the reply to a `STAT` request from the bytes received so far.
    pub fn from_le_bytes_transport(buf: &[u8]) -> (r: Result<Frame<StatInfo>, AdbTransportError>)
        ensures
            reply_of(r) == stat_reply(buf@),
    {
        if buf.len() < 4 {
            return Ok(Frame::Need(4));
        }
        let id = u32_from_le(buf, 0);
        assert(buf@.skip(0) =~= buf@);
        if id == ID_STAT {
            if buf.len() < 16 {
                return Ok(Frame::Need(16));
            }
            let mode = u32_from_le(buf, 4);
            let size = u32_from_le(buf, 8);
            let mtime = u32_from_le(buf, 12);
            Ok(Frame::Item(StatInfo { mode, size, mtime }, 16))
        } else if id == ID_FAIL {
            read_failure(buf, 4)
        } else if id == ID_DONE {
            Ok(Frame::End(4))
        } else {
            assert(buf@.take(4) =~= buf@.subrange(0, 4));
            Err(
                AdbTransportError::InvalidResponse(
                    String::from_str("sync_stat"),
                    read_text(buf, 0, 4),
                ),
            )
        }
    }

    /// The kind of file that the mode announces.
    pub fn get_file_type(&self) -> (kind: FileType)
        ensures
            kind == file_type_of(self.mode),
    {
        FileType::from_mode(self.mode)
    }
}

/// A failure record in place of the metadata is read as the error that
/// carries its message.
pub proof fn lemma_stat_failure(message: Seq<char>, rest: Seq<u8>)
    requires
        vstd::utf8::encode_utf8(message).len() <= u32::MAX,
    ensures
        stat_reply(fail_record(message) + rest) == Reply::<StatInfo>::Failed(
            ErrorView::AdbError(message),
        ),
{
    lemma_fail_record_surfaces::<StatInfo>(message, rest);
}

/// The reply is asked for in steps that go beyond what has arrived, and
/// once it is decided it stays decided, whatever arrives behind it.
pub proof fn lemma_stat_reply_steps(b: Seq<u8>, more: Seq<u8>)
    ensures
        stat_reply(b) matches Reply::Need(n) ==> n > b.len(),
        !(stat_reply(b) is Need) ==> stat_reply(b + more) == stat_reply(b),
{
    if b.len() >= 4 {
        lemma_le_u32_extend(b, more, 0);
        assert(b.skip(0) =~= b);
        assert((b + more).skip(0) =~= b + more);
        assert((b + more).take(4) =~= b.take(4));
        lemma_failure_steps::<StatInfo>(b, more, 4);
        if b.len() >= 16 {
            lemma_le_u32_extend(b, more, 4);
            lemma_le_u32_extend(b, more, 8);
            lemma_le_u32_extend(b, more, 12);
        }
    }
}

} // verus!
