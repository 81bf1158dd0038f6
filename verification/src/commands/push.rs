//! Upload of one file: the request, the data chunks, the closing record and
//! the status that answers them.
use vstd::prelude::*;
use vstd::string::*;
use vstd::slice::slice_subrange;
use crate::commands::{send_sync_command, sync_request};
use crate::utils::{
    check_sync_path, fail_record, failure, lemma_fail_record_surfaces, lemma_failure_steps,
    read_failure,
    sync_path_fault,
};
use crate::wire::{
    read_text, reply_of, text_of, u32_le, u32_to_le, Frame, Reply, ID_DATA, ID_DONE, ID_FAIL,
};
use crate::{
    lemma_status_tags, status_tag, AdbRespStatus, AdbSyncModeCommand, AdbTransportError,
    ErrorView,
};

verus! {

/// The most bytes that one data chunk carries.
pub const SYNC_DATA_MAX: usize = 64 * 1024;

/// `,0644`: the permission that every uploaded file is given.
pub open spec fn permission_suffix() -> Seq<u8> {
    seq![0x2cu8, 0x30u8, 0x36u8, 0x34u8, 0x34u8]
}

/// The permission suffix is the text `,0644`.
pub proof fn lemma_permission_suffix_text()
    ensures
        permission_suffix() == vstd::utf8::encode_utf8(",0644"@),
{
    reveal_strlit(",0644");
    let text = ",0644"@;
    assert(vstd::utf8::is_ascii_chars(text));
    vstd::utf8::is_ascii_chars_encode_utf8(text);
    assert(permission_suffix() =~= vstd::utf8::encode_utf8(text));
}

/// One data chunk on the wire: the tag, the length, the bytes.
pub open spec fn data_frame(chunk: Seq<u8>) -> Seq<u8> {
    u32_le(ID_DATA) + u32_le(chunk.len() as u32) + chunk
}

/// The record that closes an upload: the tag and the modification time.
pub open spec fn done_frame(mtime: u32) -> Seq<u8> {
    u32_le(ID_DONE) + u32_le(mtime)
}

/// `content` cut into chunks of `SYNC_DATA_MAX` bytes, the last one holding
/// what is left, each in its frame.
pub open spec fn data_frames(content: Seq<u8>) -> Seq<u8>
    decreases content.len(),
{
    if content.len() == 0 {
        Seq::empty()
    } else {
        let n = if content.len() > SYNC_DATA_MAX {
            SYNC_DATA_MAX as int
        } else {
            content.len() as int
        };
        data_frame(content.take(n)) + data_frames(content.skip(n))
    }
}

/// Everything that an upload writes: the request for `path` with the
/// permission appended, the content in chunks, the closing record.
pub open spec fn send_stream(path: Seq<u8>, content: Seq<u8>, mtime: u32) -> Seq<u8> {
    sync_request(AdbSyncModeCommand::Send, path + permission_suffix()) + data_frames(content)
        + done_frame(mtime)
}

/// The modification time that is sent for a clock reading of `epoch_secs`
/// seconds: its low 32 bits.
pub open spec fn mtime_of(epoch_secs: u64) -> u32 {
    (epoch_secs % 0x1_0000_0000) as u32
}

/// Frames the request that opens an upload to `path`.
pub fn send_request(path: &str) -> (r: Result<Vec<u8>, AdbTransportError>)
    ensures
        match r {
            Ok(out) => sync_path_fault(path.spec_bytes()) is None && out@ == sync_request(
                AdbSyncModeCommand::Send,
                path.spec_bytes() + permission_suffix(),
            ),
            Err(e) => sync_path_fault(path.spec_bytes()) matches Some(fault) && e@
                == ErrorView::InvalidPath(fault),
        },
{
    match check_sync_path(path) {
        Err(e) => Err(e),
        Ok(_) => {
            let mut target: Vec<u8> = Vec::new();
            target.extend_from_slice(path.as_bytes());
            target.push(0x2c);
            target.push(0x30);
            target.push(0x36);
            target.push(0x34);
            target.push(0x34);
            assert(target@ =~= path.spec_bytes() + permission_suffix());
            Ok(send_sync_command(AdbSyncModeCommand::Send, target.as_slice()))
        },
    }
}

fn push_data_frame(out: &mut Vec<u8>, chunk: &[u8])
    requires
        1 <= chunk.len() <= SYNC_DATA_MAX,
    ensures
        final(out)@ == old(out)@ + data_frame(chunk@),
{
    let mut tag = u32_to_le(ID_DATA);
    let mut length = u32_to_le(chunk.len() as u32);
    out.append(&mut tag);
    out.append(&mut length);
    out.extend_from_slice(chunk);
    assert(out@ =~= old(out)@ + data_frame(chunk@));
}

/// Frames one chunk of file content.
///
/// A chunk holds at least one byte and at most `SYNC_DATA_MAX`; any other is
/// refused.
pub fn data_chunk(chunk: &[u8]) -> (r: Result<Vec<u8>, AdbTransportError>)
    ensures
        match r {
            Ok(out) => 1 <= chunk.len() <= SYNC_DATA_MAX && out@ == data_frame(chunk@),
            Err(e) => !(1 <= chunk.len() <= SYNC_DATA_MAX) && e@ == ErrorView::ConversionError(
                "chunk size"@,
            ),
        },
{
    if chunk.len() == 0 || chunk.len() > SYNC_DATA_MAX {
        return Err(AdbTransportError::ConversionError(String::from_str("chunk size")));
    }
    let mut out: Vec<u8> = Vec::new();
    push_data_frame(&mut out, chunk);
    assert(out@ =~= data_frame(chunk@));
    Ok(out)
}

/// Frames the record that closes an upload made at `epoch_secs` seconds
/// after the epoch.
pub fn done_record(epoch_secs: u64) -> (out: Vec<u8>)
    ensures
        out@ == done_frame(mtime_of(epoch_secs)),
{
    let mut out = u32_to_le(ID_DONE);
    let mut mtime = u32_to_le((epoch_secs % 0x1_0000_0000) as u32);
    out.append(&mut mtime);
    out
}

/// Frames the upload of `content` to `path`, from the request to the closing
/// record.
///
/// Nothing is framed for a path that may not cross into sync mode. The
/// remote directories above `path` are not asked for: the device creates
/// them when it receives the request.
pub fn sync_send(path: &str, content: &[u8], epoch_secs: u64) -> (r: Result<
    Vec<u8>,
    AdbTransportError,
>)
    ensures
        match r {
            Ok(out) => sync_path_fault(path.spec_bytes()) is None && out@ == send_stream(
                path.spec_bytes(),
                content@,
                mtime_of(epoch_secs),
            ),
            Err(e) => sync_path_fault(path.spec_bytes()) matches Some(fault) && e@
                == ErrorView::InvalidPath(fault),
        },
{
    let mut out = match send_request(path) {
        Ok(out) => out,
        Err(e) => {
            return Err(e);
        },
    };
    let ghost head = out@;
    let mut at: usize = 0;
    assert(content@.skip(0) =~= content@);
    while at < content.len()
        invariant
            at <= content.len(),
            out@ + data_frames(content@.skip(at as int)) == head + data_frames(content@),
        decreases content.len() - at,
    {
        let n: usize = if content.len() - at > SYNC_DATA_MAX {
            SYNC_DATA_MAX
        } else {
            content.len() - at
        };
        let ghost before = out@;
        let ghost tail = content@.skip(at as int);
        push_data_frame(&mut out, slice_subrange(content, at, at + n));
        proof {
            assert(tail.take(n as int) =~= content@.subrange(at as int, at + n));
            assert(tail.skip(n as int) =~= content@.skip(at + n));
            assert(out@ + data_frames(content@.skip(at + n)) =~= before + data_frames(tail));
        }
        at = at + n;
    }
    let mut closing = done_record(epoch_secs);
    out.append(&mut closing);
    proof {
        assert(content@.skip(content@.len() as int).len() == 0);
        assert(out@ =~= head + data_frames(content@) + done_frame(mtime_of(epoch_secs)));
    }
    Ok(out)
}

/// The status that answers an upload: `OKAY` concludes it; `FAIL` opens a
/// failure record, whose message becomes the error; any other tag
/// violates the protocol.
pub open spec fn send_status(b: Seq<u8>) -> Reply<()> {
    if b.len() < 4 {
        Reply::Need(4)
    } else {
        match status_tag(b.take(4)) {
            Some(true) => Reply::Item((), 4),
            Some(false) => failure(b, 4),
            None => Reply::Failed(ErrorView::InvalidResponse("sync_send"@, text_of(b.take(4)))),
        }
    }
}

/// Decodes the status that answers an upload from the bytes received so far.
pub fn read_send_status(buf: &[u8]) -> (r: Result<Frame<()>, AdbTransportError>)
    ensures
        reply_of(r) == send_status(buf@),
{
    if buf.len() < 4 {
        return Ok(Frame::Need(4));
    }
    let tag = [buf[0], buf[1], buf[2], buf[3]];
    assert(tag@ =~= buf@.take(4));
    match AdbRespStatus::from(tag) {
        Some(AdbRespStatus::Okay) => Ok(Frame::Item((), 4)),
        Some(AdbRespStatus::Fail(_)) => read_failure(buf, 4),
        None => {
            assert(buf@.take(4) =~= buf@.subrange(0, 4));
            Err(
                AdbTransportError::InvalidResponse(
                    String::from_str("sync_send"),
                    read_text(buf, 0, 4),
                ),
            )
        },
    }
}

/// A failure record in place of the status is read as the error that
/// carries its message.
pub proof fn lemma_send_failure(message: Seq<char>, rest: Seq<u8>)
    requires
        vstd::utf8::encode_utf8(message).len() <= u32::MAX,
    ensures
        send_status(fail_record(message) + rest) == Reply::<()>::Failed(
            ErrorView::AdbError(message),
        ),
{
    lemma_fail_record_surfaces::<()>(message, rest);
    let s = fail_record(message) + rest;
    lemma_status_tags();
    assert(s.take(4) =~= u32_le(ID_FAIL));
}

/// The status is asked for in steps that go beyond what has arrived, and
/// once it is decided it stays decided, whatever arrives behind it.
pub proof fn lemma_send_status_steps(b: Seq<u8>, more: Seq<u8>)
    ensures
        send_status(b) matches Reply::Need(n) ==> n > b.len(),
        !(send_status(b) is Need) ==> send_status(b + more) == send_status(b),
{
    if b.len() >= 4 {
        lemma_failure_steps::<()>(b, more, 4);
        assert((b + more).take(4) =~= b.take(4));
    }
}

} // verus!
