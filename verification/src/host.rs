//! The text framing of the host protocol: a request is four hexadecimal
//! digits of length and a service string; a reply is a status tag and, where
//! one follows, a payload framed in the same way.
use vstd::prelude::*;
use vstd::string::*;
use vstd::utf8::*;
use vstd::slice::slice_subrange;
use crate::wire::{
    copy_range, decode_hex4, encode_hex4, hex4, lemma_hex4_roundtrip, parse_hex4, read_text,
    reply_of, text_of, u32_le, Frame, Reply, ID_FAIL, ID_OKAY,
};
use crate::utils::{short_record, short_record_error};
use crate::{
    lemma_status_tags, status_tag, AdbCommand, AdbRespStatus, AdbTransportError, ErrorView,
};

verus! {

/// The request that asks for `service`.
pub open spec fn host_request(service: Seq<u8>) -> Seq<u8> {
    hex4(service.len() as int) + service
}

/// Frames `command` for the wire.
///
/// A service string of more than `0xffff` bytes has no four-digit length and
/// is refused.
pub fn send_request_(command: &AdbCommand) -> (r: Result<Vec<u8>, AdbTransportError>)
    ensures
        match r {
            Ok(bytes) => encode_utf8(command.service()).len() < 0x1_0000 && bytes@ == host_request(
                encode_utf8(command.service()),
            ),
            Err(e) => encode_utf8(command.service()).len() >= 0x1_0000 && e@
                == ErrorView::ConversionError("request too long"@),
        },
{
    let service = command.to_string();
    let bytes = service.as_str().as_bytes();
    match encode_hex4(bytes.len()) {
        Some(mut out) => {
            out.extend_from_slice(bytes);
            Ok(out)
        },
        None => Err(AdbTransportError::ConversionError(String::from_str("request too long"))),
    }
}

/// The length that a four-digit header announces.
///
/// A header that is not four hexadecimal digits violates the protocol; the
/// error carries the header where it is readable.
pub open spec fn length_header(b: Seq<u8>) -> Result<nat, ErrorView> {
    if b.len() < 4 {
        Err(short_record("get_length"@))
    } else {
        match parse_hex4(b) {
            Some(n) => Ok(n as nat),
            None => Err(ErrorView::InvalidResponse("get_length"@, text_of(b.take(4)))),
        }
    }
}

/// Reads the four-digit length header at the start of `buf`.
pub fn get_length(buf: &[u8]) -> (r: Result<usize, AdbTransportError>)
    ensures
        match r {
            Ok(n) => length_header(buf@) == Ok::<nat, ErrorView>(n as nat),
            Err(e) => length_header(buf@) == Err::<nat, ErrorView>(e@),
        },
{
    if buf.len() < 4 {
        return Err(short_record_error("get_length"));
    }
    match decode_hex4(buf) {
        Some(n) => Ok(n),
        None => {
            assert(buf@.take(4) =~= buf@.subrange(0, 4));
            Err(
                AdbTransportError::InvalidResponse(
                    String::from_str("get_length"),
                    read_text(buf, 0, 4),
                ),
            )
        },
    }
}

/// A length-prefixed block: four hexadecimal digits, then that many bytes.
pub open spec fn block(b: Seq<u8>) -> Reply<Seq<u8>> {
    if b.len() < 4 {
        Reply::Need(4)
    } else {
        match length_header(b) {
            Err(e) => Reply::Failed(e),
            Ok(n) => if b.len() < 4 + n {
                Reply::Need(4 + n)
            } else {
                Reply::Item(b.subrange(4, 4 + n as int), 4 + n)
            },
        }
    }
}

/// Decodes a length-prefixed block from the bytes received so far.
pub fn read_block(buf: &[u8]) -> (r: Result<Frame<Vec<u8>>, AdbTransportError>)
    ensures
        reply_of(r) == block(buf@),
{
    if buf.len() < 4 {
        return Ok(Frame::Need(4));
    }
    match get_length(buf) {
        Err(e) => Err(e),
        Ok(n) => {
            if buf.len() - 4 < n {
                Ok(Frame::Need(4 + n as u64))
            } else {
                Ok(Frame::Item(copy_range(buf, 4, 4 + n), 4 + n))
            }
        },
    }
}

/// The reply to a host request, as a function of the bytes received so far.
///
/// The status `OKAY` is followed by a block where the request has a
/// payload. The status `FAIL` is followed by a block that holds the
/// server's message, which becomes the error. Any other tag in place of
/// the status violates the protocol.
pub open spec fn host_reply(b: Seq<u8>, wait_for_resp: bool) -> Reply<Seq<u8>> {
    if b.len() < 4 {
        Reply::Need(4)
    } else {
        match status_tag(b.take(4)) {
            Some(true) => if wait_for_resp {
                match block(b.skip(4)) {
                    Reply::Need(n) => Reply::Need(4 + n),
                    Reply::Item(payload, n) => Reply::Item(payload, 4 + n),
                    Reply::End(n) => Reply::End(4 + n),
                    Reply::Failed(e) => Reply::Failed(e),
                }
            } else {
                Reply::Item(Seq::empty(), 4)
            },
            Some(false) => match block(b.skip(4)) {
                Reply::Need(n) => Reply::Need(4 + n),
                Reply::Item(message, _) => match text_of(message) {
                    Some(text) => Reply::Failed(ErrorView::AdbError(text)),
                    None => Reply::Failed(ErrorView::InvalidResponse("send_request"@, None)),
                },
                Reply::End(n) => Reply::End(4 + n),
                Reply::Failed(e) => Reply::Failed(e),
            },
            None => Reply::Failed(
                ErrorView::InvalidResponse("send_request"@, text_of(b.take(4))),
            ),
        }
    }
}

/// Decodes the reply to a host request from the bytes received so far.
pub fn send_command(buf: &[u8], wait_for_resp: bool) -> (r: Result<
    Frame<Vec<u8>>,
    AdbTransportError,
>)
    ensures
        reply_of(r) == host_reply(buf@, wait_for_resp),
{
    if buf.len() < 4 {
        return Ok(Frame::Need(4));
    }
    let tag = [buf[0], buf[1], buf[2], buf[3]];
    assert(tag@ =~= buf@.take(4));
    let rest = slice_subrange(buf, 4, buf.len());
    assert(rest@ =~= buf@.skip(4));
    match AdbRespStatus::from(tag) {
        None => {
            assert(buf@.take(4) =~= buf@.subrange(0, 4));
            Err(
                AdbTransportError::InvalidResponse(
                    String::from_str("send_request"),
                    read_text(buf, 0, 4),
                ),
            )
        },
        Some(AdbRespStatus::Okay) => {
            if !wait_for_resp {
                return Ok(Frame::Item(Vec::new(), 4));
            }
            match read_block(rest) {
                Ok(Frame::Need(n)) => Ok(Frame::Need(4 + n)),
                Ok(Frame::Item(payload, n)) => Ok(Frame::Item(payload, 4 + n)),
                Ok(Frame::End(n)) => Ok(Frame::End(4 + n)),
                Err(e) => Err(e),
            }
        },
        Some(AdbRespStatus::Fail(_)) => {
            match read_block(rest) {
                Ok(Frame::Need(n)) => Ok(Frame::Need(4 + n)),
                Ok(Frame::Item(message, _)) => {
                    assert(message@.subrange(0, message@.len() as int) =~= message@);
                    match read_text(message.as_slice(), 0, message.len()) {
                        Some(text) => Err(AdbTransportError::AdbError(text)),
                        None => Err(
                            AdbTransportError::InvalidResponse(
                                String::from_str("send_request"),
                                None,
                            ),
                        ),
                    }
                },
                Ok(Frame::End(n)) => Ok(Frame::End(4 + n)),
                Err(e) => Err(e),
            }
        },
    }
}

/// A block is asked for in steps that go beyond what has arrived, and once
/// it is decided it stays decided, whatever arrives behind it.
pub proof fn lemma_block_steps(b: Seq<u8>, more: Seq<u8>)
    ensures
        block(b) matches Reply::Need(n) ==> n > b.len(),
        !(block(b) is Need) ==> block(b + more) == block(b),
{
    if b.len() >= 4 {
        assert((b + more).take(4) =~= b.take(4));
        match length_header(b) {
            Ok(n) => {
                if b.len() >= 4 + n {
                    assert((b + more).subrange(4, 4 + n as int) =~= b.subrange(4, 4 + n as int));
                }
            },
            Err(_) => {},
        }
    }
}

/// The same holds of the reply to a host request.
pub proof fn lemma_host_reply_steps(b: Seq<u8>, more: Seq<u8>, wait_for_resp: bool)
    ensures
        host_reply(b, wait_for_resp) matches Reply::Need(n) ==> n > b.len(),
        !(host_reply(b, wait_for_resp) is Need) ==> host_reply(b + more, wait_for_resp)
            == host_reply(b, wait_for_resp),
{
    if b.len() >= 4 {
        lemma_block_steps(b.skip(4), more);
        assert((b + more).skip(4) =~= b.skip(4) + more);
        assert((b + more).take(4) =~= b.take(4));
    }
}

/// A block that was written is read back: its content, and its length
/// with the header, whatever follows it.
pub proof fn lemma_block_roundtrip(content: Seq<u8>, rest: Seq<u8>)
    requires
        content.len() < 0x1_0000,
    ensures
        block(hex4(content.len() as int) + content + rest) == Reply::Item(
            content,
            4 + content.len(),
        ),
        (hex4(content.len() as int) + content + rest).len() == 4 + content.len() + rest.len(),
{
    let n = content.len() as int;
    let s = hex4(n) + content + rest;
    lemma_hex4_roundtrip(n, content + rest);
    assert(s =~= hex4(n) + (content + rest));
    assert(s.subrange(4, 4 + n) =~= content);
}

/// An accepted query is answered by its payload, whatever follows it; an
/// accepted request without payload by nothing.
#[verifier::rlimit(30)]
pub proof fn lemma_host_payload(payload: Seq<u8>, rest: Seq<u8>)
    requires
        payload.len() < 0x1_0000,
    ensures
        host_reply(u32_le(ID_OKAY) + hex4(payload.len() as int) + payload + rest, true)
            == Reply::Item(payload, 8 + payload.len()),
        host_reply(u32_le(ID_OKAY) + rest, false) == Reply::Item(Seq::<u8>::empty(), 4),
{
    reveal(u32_le);
    let body = hex4(payload.len() as int) + payload + rest;
    let s = u32_le(ID_OKAY) + hex4(payload.len() as int) + payload + rest;
    assert(s =~= u32_le(ID_OKAY) + body);
    assert(s.skip(4) =~= body);
    lemma_block_roundtrip(payload, rest);
    lemma_status_tags();
    assert(s.take(4) =~= u32_le(ID_OKAY));
    let t = u32_le(ID_OKAY) + rest;
    assert(t.take(4) =~= u32_le(ID_OKAY));
}

/// A refused request is answered by the error that carries the server's
/// message, whether a payload was expected or not, and whatever follows.
pub proof fn lemma_host_failure(message: Seq<char>, rest: Seq<u8>, wait_for_resp: bool)
    requires
        encode_utf8(message).len() < 0x1_0000,
    ensures
        host_reply(
            u32_le(ID_FAIL) + hex4(encode_utf8(message).len() as int) + encode_utf8(message) + rest,
            wait_for_resp,
        ) == Reply::<Seq<u8>>::Failed(ErrorView::AdbError(message)),
{
    reveal(u32_le);
    let text = encode_utf8(message);
    let body = hex4(text.len() as int) + text + rest;
    let s = u32_le(ID_FAIL) + hex4(text.len() as int) + text + rest;
    assert(s =~= u32_le(ID_FAIL) + body);
    assert(s.skip(4) =~= body);
    lemma_status_tags();
    assert(s.take(4) =~= u32_le(ID_FAIL));
    lemma_block_roundtrip(text, rest);
    encode_utf8_valid_utf8(message);
    encode_utf8_decode_utf8(message);
}

} // verus!
