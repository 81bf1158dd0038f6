//! One entry of a remote directory, as a `LIST` reply carries it.
use vstd::prelude::*;
use vstd::string::*;
use vstd::utf8::*;
use crate::utils::{
    fail_record, failure, lemma_fail_record_surfaces, lemma_failure_steps, read_failure,
};
use crate::wire::{
    le_u32, lemma_le_u32_extend, lemma_u32_at, read_text, reply_of, text_of, u32_from_le, u32_le,
    Frame, Reply, ID_DENT, ID_DONE, ID_FAIL,
};
use crate::AdbTransportError;
use crate::ErrorView;

verus! {

/// The fixed part of a directory entry: sixteen bytes behind the tag.
#[derive(Debug, Clone, Copy, PartialEq, Eq)]
pub struct SyncDentV1 {
    pub mode: u32,
    pub size: u32,
    pub mtime: u32,
    pub namelen: u32,
}

/// The length in bytes of the fixed part of a directory entry.
pub const SYNC_DENT_V1_SIZE: usize = 16;

impl SyncDentV1 {
    /// The fixed part that the first sixteen bytes of `b` hold.
    pub open spec fn decode(b: Seq<u8>) -> SyncDentV1 {
        SyncDentV1 {
            mode: le_u32(b),
            size: le_u32(b.skip(4)),
            mtime: le_u32(b.skip(8)),
            namelen: le_u32(b.skip(12)),
        }
    }

    /// Decodes the fixed part of a directory entry from the sixteen bytes
    /// that `buf` begins with; there is none in fewer bytes.
    pub fn from_le_bytes(buf: &[u8]) -> (head: Option<SyncDentV1>)
        ensures
            match head {
                Some(h) => buf.len() >= SYNC_DENT_V1_SIZE && h == SyncDentV1::decode(buf@),
                None => buf.len() < SYNC_DENT_V1_SIZE,
            },
    {
        if buf.len() < SYNC_DENT_V1_SIZE {
            return None;
        }
        assert(buf@.skip(0) =~= buf@);
        Some(SyncDentV1::decode_at(buf, 0))
    }

    fn decode_at(buf: &[u8], at: usize) -> (head: SyncDentV1)
        requires
            at + SYNC_DENT_V1_SIZE <= buf.len(),
        ensures
            head == SyncDentV1::decode(buf@.skip(at as int)),
    {
        let mode = u32_from_le(buf, at);
        let size = u32_from_le(buf, at + 4);
        let mtime = u32_from_le(buf, at + 8);
        let namelen = u32_from_le(buf, at + 12);
        proof {
            let b = buf@.skip(at as int);
            assert(b.skip(4) =~= buf@.skip(at + 4));
            assert(b.skip(8) =~= buf@.skip(at + 8));
            assert(b.skip(12) =~= buf@.skip(at + 12));
        }
        SyncDentV1 { mode, size, mtime, namelen }
    }
}

/// One child of a remote directory.
#[derive(Debug, Clone, PartialEq, Eq)]
pub struct SyncDent {
    pub mode: u32,
    pub size: u32,
    pub mtime: u32,
    pub name: String,
}

/// A directory entry as contracts speak of it: the name by its characters.
pub struct DentView {
    pub mode: u32,
    pub size: u32,
    pub mtime: u32,
    pub name: Seq<char>,
}

impl View for SyncDent {
    type V = DentView;

    open spec fn view(&self) -> DentView {
        DentView { mode: self.mode, size: self.size, mtime: self.mtime, name: self.name@ }
    }
}

/// The next record of a `LIST` reply, as a function of the bytes received
/// so far.
///
/// A `DENT` tag is followed by the fixed part and then by the name, which
/// is UTF-8. A `DONE` tag ends the listing. A `FAIL` tag opens a failure
/// record, whose message becomes the error. Any other tag, or a name that
/// is not UTF-8, violates the protocol.
pub open spec fn dent_reply(b: Seq<u8>) -> Reply<DentView> {
    if b.len() < 4 {
        Reply::Need(4)
    } else {
        let id = le_u32(b);
        if id == ID_DENT {
            if b.len() < 20 {
                Reply::Need(20)
            } else {
                let head = SyncDentV1::decode(b.skip(4));
                let end = 20 + head.namelen;
                if b.len() < end {
                    Reply::Need(end as nat)
                } else {
                    match text_of(b.subrange(20, end)) {
                        Some(name) => Reply::Item(
                            DentView {
                                mode: head.mode,
                                size: head.size,
                                mtime: head.mtime,
                                name,
                            },
                            end as nat,
                        ),
                        None => Reply::Failed(ErrorView::InvalidResponse("sync_dent"@, None)),
                    }
                }
            }
        } else if id == ID_FAIL {
            failure(b, 4)
        } else if id == ID_DONE {
            Reply::End(4)
        } else {
            Reply::Failed(ErrorView::InvalidResponse("sync_dent"@, text_of(b.take(4))))
        }
    }
}

impl SyncDent {
    /// Decodes the next record of a `LIST` reply from the bytes received so
    /// far.
    pub fn from_le_bytes_transport(buf: &[u8]) -> (r: Result<Frame<SyncDent>, AdbTransportError>)
        ensures
            reply_of(r) == dent_reply(buf@),
    {
        if buf.len() < 4 {
            return Ok(Frame::Need(4));
        }
        let id = u32_from_le(buf, 0);
        assert(buf@.skip(0) =~= buf@);
        if id == ID_DENT {
            if buf.len() < 20 {
                return Ok(Frame::Need(20));
            }
            let head = SyncDentV1::decode_at(buf, 4);
            let total: u64 = 20 + head.namelen as u64;
            if (buf.len() as u64) < total {
                return Ok(Frame::Need(total));
            }
            let end: usize = 20 + head.namelen as usize;
            match read_text(buf, 20, end) {
                Some(name) => Ok(
                    Frame::Item(
                        SyncDent { mode: head.mode, size: head.size, mtime: head.mtime, name },
                        end,
                    ),
                ),
                None => Err(
                    AdbTransportError::InvalidResponse(String::from_str("sync_dent"), None),
                ),
            }
        } else if id == ID_FAIL {
            read_failure(buf, 4)
        } else if id == ID_DONE {
            Ok(Frame::End(4))
        } else {
            assert(buf@.take(4) =~= buf@.subrange(0, 4));
            Err(
                AdbTransportError::InvalidResponse(
                    String::from_str("sync_dent"),
                    read_text(buf, 0, 4),
                ),
            )
        }
    }
}

/// A directory entry as the device writes it: the tag, the fixed part, the
/// name in UTF-8.
pub open spec fn dent_record(entry: DentView) -> Seq<u8> {
    u32_le(ID_DENT) + u32_le(entry.mode) + u32_le(entry.size) + u32_le(entry.mtime) + u32_le(
        encode_utf8(entry.name).len() as u32,
    ) + encode_utf8(entry.name)
}

/// The four fields of a fixed part are read back from their encoding.
pub proof fn lemma_fixed_part(head: SyncDentV1, tail: Seq<u8>)
    ensures
        SyncDentV1::decode(
            u32_le(head.mode) + (u32_le(head.size) + (u32_le(head.mtime) + (u32_le(head.namelen)
                + tail))),
        ) == head,
        (u32_le(head.mode) + (u32_le(head.size) + (u32_le(head.mtime) + (u32_le(head.namelen)
            + tail)))).skip(16) == tail,
        (u32_le(head.mode) + (u32_le(head.size) + (u32_le(head.mtime) + (u32_le(head.namelen)
            + tail)))).len() == 16 + tail.len(),
{
    let t4 = u32_le(head.namelen) + tail;
    let t3 = u32_le(head.mtime) + t4;
    let t2 = u32_le(head.size) + t3;
    let t1 = u32_le(head.mode) + t2;
    lemma_u32_at(head.mode, t2);
    lemma_u32_at(head.size, t3);
    lemma_u32_at(head.mtime, t4);
    lemma_u32_at(head.namelen, tail);
    assert(t1.skip(8) =~= t2.skip(4));
    assert(t1.skip(12) =~= t3.skip(4));
    assert(t1.skip(16) =~= t4.skip(4));
}

/// An entry whose name fits the length field is read back as it was
/// written, whatever follows it in the stream.
#[verifier::rlimit(30)]
pub proof fn lemma_dent_roundtrip(entry: DentView, rest: Seq<u8>)
    requires
        encode_utf8(entry.name).len() <= u32::MAX,
    ensures
        dent_reply(dent_record(entry) + rest) == Reply::Item(
            entry,
            dent_record(entry).len(),
        ),
        dent_record(entry).len() == 20 + encode_utf8(entry.name).len(),
        (dent_record(entry) + rest).skip(dent_record(entry).len() as int) == rest,
{
    let name = encode_utf8(entry.name);
    let head = SyncDentV1 {
        mode: entry.mode,
        size: entry.size,
        mtime: entry.mtime,
        namelen: name.len() as u32,
    };
    let s = dent_record(entry) + rest;
    let tail = name + rest;
    let body = u32_le(head.mode) + (u32_le(head.size) + (u32_le(head.mtime) + (u32_le(
        head.namelen,
    ) + tail)));
    assert(s =~= u32_le(ID_DENT) + body);
    lemma_u32_at(ID_DENT, body);
    lemma_fixed_part(head, tail);
    assert(s.skip(4) == body);
    assert(dent_record(entry).len() == 20 + name.len());
    assert(s.subrange(20, 20 + name.len() as int) =~= body.skip(16).take(name.len() as int));
    assert(tail.take(name.len() as int) =~= name);
    assert(s.skip(20 + name.len() as int) =~= body.skip(16).skip(name.len() as int));
    assert(tail.skip(name.len() as int) =~= rest);
    encode_utf8_valid_utf8(entry.name);
    encode_utf8_decode_utf8(entry.name);
}

/// A failure record in place of an entry is read as the error that carries
/// its message.
pub proof fn lemma_dent_failure(message: Seq<char>, rest: Seq<u8>)
    requires
        encode_utf8(message).len() <= u32::MAX,
    ensures
        dent_reply(fail_record(message) + rest) == Reply::<DentView>::Failed(
            ErrorView::AdbError(message),
        ),
{
    lemma_fail_record_surfaces::<DentView>(message, rest);
}

/// The record is asked for in steps that go beyond what has arrived, and
/// once it is decided it stays decided, whatever arrives behind it.
pub proof fn lemma_dent_reply_steps(b: Seq<u8>, more: Seq<u8>)
    ensures
        dent_reply(b) matches Reply::Need(n) ==> n > b.len(),
        !(dent_reply(b) is Need) ==> dent_reply(b + more) == dent_reply(b),
{
    if b.len() >= 4 {
        lemma_le_u32_extend(b, more, 0);
        assert(b.skip(0) =~= b);
        assert((b + more).skip(0) =~= b + more);
        assert((b + more).take(4) =~= b.take(4));
        lemma_failure_steps::<DentView>(b, more, 4);
        if b.len() >= 20 {
            lemma_le_u32_extend(b, more, 4);
            lemma_le_u32_extend(b, more, 8);
            lemma_le_u32_extend(b, more, 12);
            lemma_le_u32_extend(b, more, 16);
            assert(b.skip(4).skip(4) =~= b.skip(8));
            assert(b.skip(4).skip(8) =~= b.skip(12));
            assert(b.skip(4).skip(12) =~= b.skip(16));
            assert((b + more).skip(4).skip(4) =~= (b + more).skip(8));
            assert((b + more).skip(4).skip(8) =~= (b + more).skip(12));
            assert((b + more).skip(4).skip(12) =~= (b + more).skip(16));
            let end = 20 + SyncDentV1::decode(b.skip(4)).namelen;
            if b.len() >= end {
                assert((b + more).subrange(20, end) =~= b.subrange(20, end));
            }
        }
    }
}

} // verus!
