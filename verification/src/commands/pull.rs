//! Download of one file: the request, and the chunk stream that answers it.
use vstd::prelude::*;
use vstd::string::*;
use vstd::slice::slice_subrange;
use crate::commands::push::{data_frame, data_frames, done_frame, SYNC_DATA_MAX};
use crate::commands::{send_sync_command, sync_request};
use crate::utils::{
    check_sync_path, fail_record, failure, lemma_fail_record_surfaces, lemma_failure_steps,
    read_failure,
    short_record, short_record_error, sync_path_fault,
};
use crate::wire::{
    le_u32, lemma_le_u32_extend, lemma_u32_at, read_text, reply_of, text_of, u32_from_le, u32_le,
    Frame, Reply, ID_DATA, ID_DONE, ID_FAIL,
};
use crate::AdbSyncModeCommand;
use crate::AdbTransportError;
use crate::ErrorView;

verus! {

/// Frames the request that opens a download of `path`.
pub fn recv_request(path: &str) -> (r: Result<Vec<u8>, AdbTransportError>)
    ensures
        match r {
            Ok(out) => sync_path_fault(path.spec_bytes()) is None && out@ == sync_request(
                AdbSyncModeCommand::Recv,
                path.spec_bytes(),
            ),
            Err(e) => sync_path_fault(path.spec_bytes()) matches Some(fault) && e@
                == ErrorView::InvalidPath(fault),
        },
{
    match check_sync_path(path) {
        Err(e) => Err(e),
        Ok(_) => Ok(send_sync_command(AdbSyncModeCommand::Recv, path.as_bytes())),
    }
}

/// The header of the next record of a download, as a function of the bytes
/// received so far.
///
/// A data header with a size announces that many bytes of content. The end
/// of the transfer is a `DONE` header or a data header of size zero. A
/// `FAIL` header opens a failure record, whose message becomes the error.
/// Any other tag violates the protocol.
pub open spec fn chunk_header(b: Seq<u8>) -> Reply<u32> {
    if b.len() < 8 {
        Reply::Need(8)
    } else {
        let id = le_u32(b);
        let size = le_u32(b.skip(4));
        if id == ID_DONE {
            Reply::End(8)
        } else if id == ID_DATA {
            if size == 0 {
                Reply::End(8)
            } else {
                Reply::Item(size, 8)
            }
        } else if id == ID_FAIL {
            failure(b, 4)
        } else {
            Reply::Failed(ErrorView::InvalidResponse("sync_recv"@, text_of(b.take(4))))
        }
    }
}

/// Decodes the header of the next record of a download.
pub fn read_chunk_header(buf: &[u8]) -> (r: Result<Frame<u32>, AdbTransportError>)
    ensures
        reply_of(r) == chunk_header(buf@),
{
    if buf.len() < 8 {
        return Ok(Frame::Need(8));
    }
    let id = u32_from_le(buf, 0);
    let size = u32_from_le(buf, 4);
    assert(buf@.skip(0) =~= buf@);
    if id == ID_DONE {
        Ok(Frame::End(8))
    } else if id == ID_DATA {
        if size == 0 {
            Ok(Frame::End(8))
        } else {
            Ok(Frame::Item(size, 8))
        }
    } else if id == ID_FAIL {
        read_failure(buf, 4)
    } else {
        assert(buf@.take(4) =~= buf@.subrange(0, 4));
        Err(
            AdbTransportError::InvalidResponse(
                String::from_str("sync_recv"),
                read_text(buf, 0, 4),
            ),
        )
    }
}

/// What a complete reply stream delivers to the destination, and the error
/// that ends the transfer, if one does.
///
/// What was delivered before an error stays delivered.
pub open spec fn recv_stream(s: Seq<u8>) -> (Seq<u8>, Option<ErrorView>)
    decreases s.len(),
{
    match chunk_header(s) {
        Reply::Need(_) => (Seq::empty(), Some(short_record("sync_recv"@))),
        Reply::End(_) => (Seq::empty(), None),
        Reply::Failed(e) => (Seq::empty(), Some(e)),
        Reply::Item(size, _) => if s.len() < 8 + size {
            (Seq::empty(), Some(short_record("sync_recv"@)))
        } else {
            let rest = recv_stream(s.skip(8 + size));
            (s.subrange(8, 8 + size) + rest.0, rest.1)
        },
    }
}

/// Replays a complete reply stream into `output`.
///
/// Every data chunk is appended to `output` in order, up to the end of the
/// transfer or the first error; what was appended before an error stays.
pub fn sync_recv(reply: &[u8], output: &mut Vec<u8>) -> (r: Result<(), AdbTransportError>)
    ensures
        final(output)@ == old(output)@ + recv_stream(reply@).0,
        match r {
            Ok(_) => recv_stream(reply@).1 is None,
            Err(e) => recv_stream(reply@).1 == Some(e@),
        },
{
    let ghost before = output@;
    let mut at: usize = 0;
    assert(reply@.skip(0) =~= reply@);
    loop
        invariant
            at <= reply.len(),
            before == old(output)@,
            output@ + recv_stream(reply@.skip(at as int)).0 =~= before + recv_stream(reply@).0,
            recv_stream(reply@.skip(at as int)).1 == recv_stream(reply@).1,
        decreases reply.len() - at,
    {
        let rest = slice_subrange(reply, at, reply.len());
        assert(rest@ =~= reply@.skip(at as int));
        let ghost here = recv_stream(rest@);
        match read_chunk_header(rest) {
            Ok(Frame::Need(_)) => {
                assert(here.0 =~= Seq::<u8>::empty());
                assert(output@ =~= output@ + Seq::<u8>::empty());
                return Err(short_record_error("sync_recv"));
            },
            Ok(Frame::End(_)) => {
                assert(output@ =~= output@ + Seq::<u8>::empty());
                return Ok(());
            },
            Err(e) => {
                assert(here.0 =~= Seq::<u8>::empty());
                assert(output@ =~= output@ + Seq::<u8>::empty());
                return Err(e);
            },
            Ok(Frame::Item(size, _)) => {
                if rest.len() - 8 < size as usize {
                    assert(output@ =~= output@ + Seq::<u8>::empty());
                    return Err(short_record_error("sync_recv"));
                }
                let ghost earlier = output@;
                let end: usize = 8 + size as usize;
                output.extend_from_slice(slice_subrange(rest, 8, end));
                proof {
                    assert(rest@.skip(end as int) =~= reply@.skip(at + end));
                    let tail = recv_stream(rest@.skip(end as int));
                    assert(output@ + tail.0 =~= earlier + (rest@.subrange(8, end as int)
                        + tail.0));
                }
                at = at + end;
            },
        }
    }
}

/// The frames of `chunks`, one behind the other, as a device writes them:
/// it may cut the content wherever it likes.
pub open spec fn chunk_frames(chunks: Seq<Seq<u8>>) -> Seq<u8>
    decreases chunks.len(),
{
    if chunks.len() == 0 {
        Seq::empty()
    } else {
        data_frame(chunks[0]) + chunk_frames(chunks.skip(1))
    }
}

/// The content that `chunks` carry, one behind the other.
pub open spec fn content_of(chunks: Seq<Seq<u8>>) -> Seq<u8>
    decreases chunks.len(),
{
    if chunks.len() == 0 {
        Seq::empty()
    } else {
        chunks[0] + content_of(chunks.skip(1))
    }
}

/// Every chunk holds at least one byte, and no more than its length field
/// can tell.
pub open spec fn chunks_fit(chunks: Seq<Seq<u8>>) -> bool {
    forall|i: int| 0 <= i < chunks.len() ==> 1 <= (#[trigger] chunks[i]).len() <= u32::MAX
}

/// A data frame at the head of a stream is read as one chunk, whatever its
/// size, and the stream goes on behind it.
pub proof fn lemma_data_frame_head(chunk: Seq<u8>, later: Seq<u8>)
    requires
        1 <= chunk.len() <= u32::MAX,
    ensures
        chunk_header(data_frame(chunk) + later) == Reply::Item(chunk.len() as u32, 8),
        (data_frame(chunk) + later).len() == 8 + chunk.len() + later.len(),
        (data_frame(chunk) + later).subrange(8, 8 + chunk.len() as int) == chunk,
        (data_frame(chunk) + later).skip(8 + chunk.len() as int) == later,
{
    let n = chunk.len() as u32;
    let s = data_frame(chunk) + later;
    assert(s =~= u32_le(ID_DATA) + (u32_le(n) + (chunk + later)));
    lemma_u32_at(ID_DATA, u32_le(n) + (chunk + later));
    lemma_u32_at(n, chunk + later);
    assert(s.subrange(8, 8 + chunk.len() as int) =~= chunk);
    assert(s.skip(8 + chunk.len() as int) =~= later);
}

/// A stream that opens with any chunks delivers what they carry, and then
/// whatever the rest of the stream delivers, and ends as the rest ends.
#[verifier::rlimit(30)]
pub proof fn lemma_recv_chunks(chunks: Seq<Seq<u8>>, tail: Seq<u8>)
    requires
        chunks_fit(chunks),
    ensures
        recv_stream(chunk_frames(chunks) + tail) == (
            content_of(chunks) + recv_stream(tail).0,
            recv_stream(tail).1,
        ),
    decreases chunks.len(),
{
    if chunks.len() == 0 {
        assert(chunk_frames(chunks) + tail =~= tail);
        assert(content_of(chunks) + recv_stream(tail).0 =~= recv_stream(tail).0);
    } else {
        let chunk = chunks[0];
        let others = chunks.skip(1);
        let later = chunk_frames(others) + tail;
        let s = chunk_frames(chunks) + tail;
        assert(s =~= data_frame(chunk) + later);
        lemma_data_frame_head(chunk, later);
        assert(chunks_fit(others)) by {
            assert forall|i: int| 0 <= i < others.len() implies 1 <= (#[trigger] others[i]).len()
                <= u32::MAX by {
                assert(others[i] == chunks[i + 1]);
            }
        }
        lemma_recv_chunks(others, tail);
        let rest = recv_stream(later);
        assert(recv_stream(s) == (chunk + rest.0, rest.1));
        assert(chunk + (content_of(others) + recv_stream(tail).0) =~= content_of(chunks)
            + recv_stream(tail).0);
    }
}

/// A download that the device cuts into any chunks and closes with the
/// sentinel, or with an empty chunk, delivers the content byte for byte
/// and ends without an error, whatever follows in the stream.
pub proof fn lemma_pull_delivers(chunks: Seq<Seq<u8>>, size: u32, rest: Seq<u8>)
    requires
        chunks_fit(chunks),
    ensures
        recv_stream(chunk_frames(chunks) + done_frame(size) + rest) == (
            content_of(chunks),
            None::<ErrorView>,
        ),
        recv_stream(chunk_frames(chunks) + data_frame(Seq::empty()) + rest) == (
            content_of(chunks),
            None::<ErrorView>,
        ),
{
    let content = content_of(chunks);
    assert(content + Seq::<u8>::empty() =~= content);
    let tail = done_frame(size) + rest;
    assert(tail =~= u32_le(ID_DONE) + (u32_le(size) + rest));
    lemma_u32_at(ID_DONE, u32_le(size) + rest);
    lemma_u32_at(size, rest);
    assert(chunk_header(tail) == Reply::<u32>::End(8));
    lemma_recv_chunks(chunks, tail);
    assert(chunk_frames(chunks) + done_frame(size) + rest =~= chunk_frames(chunks) + tail);
    let empty = data_frame(Seq::empty()) + rest;
    assert(empty =~= u32_le(ID_DATA) + (u32_le(0) + rest));
    lemma_u32_at(ID_DATA, u32_le(0) + rest);
    lemma_u32_at(0, rest);
    assert(chunk_header(empty) == Reply::<u32>::End(8));
    lemma_recv_chunks(chunks, empty);
    assert(chunk_frames(chunks) + data_frame(Seq::empty()) + rest =~= chunk_frames(chunks)
        + empty);
}

/// A failure record that follows any chunks ends the download with the
/// server's message; what the chunks before it carry was delivered, and
/// nothing after it is read.
pub proof fn lemma_recv_failure(chunks: Seq<Seq<u8>>, message: Seq<char>, rest: Seq<u8>)
    requires
        chunks_fit(chunks),
        vstd::utf8::encode_utf8(message).len() <= u32::MAX,
    ensures
        recv_stream(chunk_frames(chunks) + fail_record(message) + rest) == (
            content_of(chunks),
            Some(ErrorView::AdbError(message)),
        ),
{
    let tail = fail_record(message) + rest;
    lemma_fail_record_surfaces::<u32>(message, rest);
    assert(chunk_header(tail) == Reply::<u32>::Failed(ErrorView::AdbError(message)));
    lemma_recv_chunks(chunks, tail);
    assert(chunk_frames(chunks) + fail_record(message) + rest =~= chunk_frames(chunks) + tail);
    assert(content_of(chunks) + Seq::<u8>::empty() =~= content_of(chunks));
}

/// The chunks that an upload cuts `content` into: each of
/// `SYNC_DATA_MAX` bytes, the last one of what is left.
pub open spec fn upload_chunks(content: Seq<u8>) -> Seq<Seq<u8>>
    decreases content.len(),
{
    if content.len() == 0 {
        Seq::empty()
    } else {
        let n = if content.len() > SYNC_DATA_MAX {
            SYNC_DATA_MAX as int
        } else {
            content.len() as int
        };
        seq![content.take(n)] + upload_chunks(content.skip(n))
    }
}

/// What an upload writes is the frames of its chunks, which fit and carry
/// the content.
pub proof fn lemma_upload_chunks(content: Seq<u8>)
    ensures
        data_frames(content) == chunk_frames(upload_chunks(content)),
        chunks_fit(upload_chunks(content)),
        content_of(upload_chunks(content)) == content,
    decreases content.len(),
{
    if content.len() == 0 {
        assert(content_of(upload_chunks(content)) =~= content);
    } else {
        let n = if content.len() > SYNC_DATA_MAX {
            SYNC_DATA_MAX as int
        } else {
            content.len() as int
        };
        let others = upload_chunks(content.skip(n));
        let all = upload_chunks(content);
        lemma_upload_chunks(content.skip(n));
        assert(all.skip(1) =~= others);
        assert(all[0] == content.take(n));
        assert(content.take(n) + content.skip(n) =~= content);
        assert forall|i: int| 0 <= i < all.len() implies 1 <= (#[trigger] all[i]).len()
            <= u32::MAX by {
            if i > 0 {
                assert(all[i] == others[i - 1]);
            }
        }
    }
}

/// What an upload writes after its request, served back as the reply to a
/// download, delivers the uploaded content byte for byte and ends without
/// an error, whatever follows in the stream.
pub proof fn lemma_push_pull_roundtrip(content: Seq<u8>, mtime: u32, rest: Seq<u8>)
    ensures
        recv_stream(data_frames(content) + done_frame(mtime) + rest) == (
            content,
            None::<ErrorView>,
        ),
{
    lemma_upload_chunks(content);
    lemma_pull_delivers(upload_chunks(content), mtime, rest);
}

/// The header is asked for in steps that go beyond what has arrived, and
/// once it is decided it stays decided, whatever arrives behind it.
pub proof fn lemma_chunk_header_steps(b: Seq<u8>, more: Seq<u8>)
    ensures
        chunk_header(b) matches Reply::Need(n) ==> n > b.len(),
        !(chunk_header(b) is Need) ==> chunk_header(b + more) == chunk_header(b),
{
    if b.len() >= 8 {
        lemma_le_u32_extend(b, more, 0);
        lemma_le_u32_extend(b, more, 4);
        assert(b.skip(0) =~= b);
        assert((b + more).skip(0) =~= b + more);
        assert((b + more).take(4) =~= b.take(4));
        lemma_failure_steps::<u32>(b, more, 4);
    }
}

} // verus!
