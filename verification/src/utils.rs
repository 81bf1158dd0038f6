//! Path validation and the message of a failure record.
use vstd::prelude::*;
use vstd::string::*;
use vstd::utf8::*;
use vstd::slice::slice_subrange;
use crate::wire::{
    le_u32, lemma_le_u32_extend, lemma_u32_at, read_text, reply_of, text_of, u32_from_le, u32_le,
    Frame, Reply, ID_FAIL,
};
use crate::AdbTransportError;
use crate::ErrorView;
use crate::PathError;

verus! {

/// The longest path, in bytes, that the protocol carries.
pub const MAX_PATH: usize = 1024;

/// The bytes of the directory below which remote paths may be written.
pub open spec fn sandbox_root() -> Seq<u8> {
    encode_utf8("/data/local/tmp"@)
}

/// Two slashes stand side by side somewhere in `b`.
pub open spec fn has_double_slash(b: Seq<u8>) -> bool {
    exists|i: int| 0 <= i && i + 1 < b.len() && b[i] == 0x2f && #[trigger] b[i + 1] == 0x2f
}

/// What makes `b` unusable as a path, by the first test that it fails:
/// length, emptiness, NUL, a double slash, being the root.
pub open spec fn path_fault(b: Seq<u8>) -> Option<PathError> {
    if b.len() > MAX_PATH {
        Some(PathError::TooLong)
    } else if b.len() == 0 {
        Some(PathError::Empty)
    } else if b.contains(0u8) {
        Some(PathError::NullByte)
    } else if has_double_slash(b) {
        Some(PathError::DoubleSlash)
    } else if b =~= seq![0x2fu8] {
        Some(PathError::Root)
    } else {
        None
    }
}

/// `b` is absolute and does not begin with the sandbox root.
pub open spec fn outside_sandbox(b: Seq<u8>) -> bool {
    b.len() > 0 && b[0] == 0x2f && !sandbox_root().is_prefix_of(b)
}

/// What keeps `b` from crossing into sync mode, by the first test that it
/// fails: length, emptiness, NUL, a line feed.
pub open spec fn sync_path_fault(b: Seq<u8>) -> Option<PathError> {
    if b.len() > MAX_PATH {
        Some(PathError::TooLong)
    } else if b.len() == 0 {
        Some(PathError::Empty)
    } else if b.contains(0u8) {
        Some(PathError::NullByte)
    } else if b.contains(0x0au8) {
        Some(PathError::Newline)
    } else {
        None
    }
}

/// Whether `x` occurs in `b`.
pub fn contains_byte(b: &[u8], x: u8) -> (found: bool)
    ensures
        found == b@.contains(x),
{
    let mut i: usize = 0;
    while i < b.len()
        invariant
            i <= b.len(),
            forall|j: int| 0 <= j < i ==> b@[j] != x,
        decreases b.len() - i,
    {
        if b[i] == x {
            return true;
        }
        i = i + 1;
    }
    false
}

/// Whether `b` holds two slashes in a row.
pub fn contains_double_slash(b: &[u8]) -> (found: bool)
    ensures
        found == has_double_slash(b@),
{
    let mut i: usize = 1;
    while i < b.len()
        invariant
            1 <= i,
            forall|j: int|
                0 <= j && j + 1 < i && j + 1 < b.len() ==> !(b@[j] == 0x2f && #[trigger] b@[j + 1]
                    == 0x2f),
        decreases b.len() - i,
    {
        if b[i - 1] == 0x2f && b[i] == 0x2f {
            assert(b@[(i - 1) + 1] == 0x2f);
            return true;
        }
        i = i + 1;
    }
    false
}

/// Whether `b` begins with `prefix`.
pub fn starts_with(b: &[u8], prefix: &[u8]) -> (r: bool)
    ensures
        r == prefix@.is_prefix_of(b@),
{
    if prefix.len() > b.len() {
        return false;
    }
    let mut i: usize = 0;
    while i < prefix.len()
        invariant
            i <= prefix.len() <= b.len(),
            forall|j: int| 0 <= j < i ==> b@[j] == prefix@[j],
        decreases prefix.len() - i,
    {
        if b[i] != prefix[i] {
            assert(prefix@[i as int] != b@.subrange(0, prefix@.len() as int)[i as int]);
            return false;
        }
        i = i + 1;
    }
    assert(prefix@ =~= b@.subrange(0, prefix@.len() as int));
    true
}

/// Validates a remote path.
///
/// The path is refused when it is longer than 1024 bytes, empty, holds a NUL
/// byte or a double slash, or is `/` itself. A path that passes is reported
/// as allowed unless it is absolute and lies outside the sandbox root.
pub fn check_path(path: &str) -> (r: Result<bool, AdbTransportError>)
    ensures
        match r {
            Ok(allowed) => path_fault(path.spec_bytes()) is None && allowed == !outside_sandbox(
                path.spec_bytes(),
            ),
            Err(e) => path_fault(path.spec_bytes()) matches Some(fault) && e@
                == ErrorView::InvalidPath(fault),
        },
{
    let b = path.as_bytes();
    if b.len() > MAX_PATH {
        return Err(AdbTransportError::InvalidPath(PathError::TooLong));
    }
    if b.len() == 0 {
        return Err(AdbTransportError::InvalidPath(PathError::Empty));
    }
    if contains_byte(b, 0) {
        return Err(AdbTransportError::InvalidPath(PathError::NullByte));
    }
    if contains_double_slash(b) {
        return Err(AdbTransportError::InvalidPath(PathError::DoubleSlash));
    }
    if b.len() == 1 && b[0] == 0x2f {
        assert(b@ =~= seq![0x2fu8]);
        return Err(AdbTransportError::InvalidPath(PathError::Root));
    }
    let root = "/data/local/tmp".as_bytes();
    if b[0] == 0x2f && !starts_with(b, root) {
        return Ok(false);
    }
    Ok(true)
}

/// A path is accepted without reserve exactly when it passes every one of
/// the six tests, and each of the six is enough alone to keep it out.
pub proof fn lemma_check_path_tests(b: Seq<u8>)
    ensures
        (path_fault(b) is None && !outside_sandbox(b)) <==> !(b.len() > MAX_PATH || b.len() == 0
            || b.contains(0u8) || has_double_slash(b) || b =~= seq![0x2fu8] || outside_sandbox(
            b,
        )),
{
}

/// Validates a path that is about to be sent in a sync request.
pub fn check_sync_path(path: &str) -> (r: Result<(), AdbTransportError>)
    ensures
        match r {
            Ok(_) => sync_path_fault(path.spec_bytes()) is None,
            Err(e) => sync_path_fault(path.spec_bytes()) matches Some(fault) && e@
                == ErrorView::InvalidPath(fault),
        },
{
    let b = path.as_bytes();
    if b.len() > MAX_PATH {
        return Err(AdbTransportError::InvalidPath(PathError::TooLong));
    }
    if b.len() == 0 {
        return Err(AdbTransportError::InvalidPath(PathError::Empty));
    }
    if contains_byte(b, 0) {
        return Err(AdbTransportError::InvalidPath(PathError::NullByte));
    }
    if contains_byte(b, 0x0a) {
        return Err(AdbTransportError::InvalidPath(PathError::Newline));
    }
    Ok(())
}

/// The body of a failure record: a little-endian length, then that many
/// bytes of UTF-8 text. `b` starts at the length.
pub open spec fn fail_message(b: Seq<u8>) -> Reply<Seq<char>> {
    if b.len() < 4 {
        Reply::Need(4)
    } else {
        let n = le_u32(b) as nat;
        if b.len() < 4 + n {
            Reply::Need(4 + n)
        } else {
            match text_of(b.subrange(4, 4 + n as int)) {
                Some(text) => Reply::Item(text, 4 + n),
                None => Reply::Failed(ErrorView::InvalidResponse("get_fail_message"@, None)),
            }
        }
    }
}

/// Decodes the message of a failure record from the bytes that follow its
/// tag.
pub fn get_fail_message(buf: &[u8]) -> (r: Result<Frame<String>, AdbTransportError>)
    ensures
        reply_of(r) == fail_message(buf@),
{
    if buf.len() < 4 {
        return Ok(Frame::Need(4));
    }
    let n = u32_from_le(buf, 0);
    assert(buf@.skip(0) =~= buf@);
    let total: u64 = 4 + n as u64;
    if (buf.len() as u64) < total {
        return Ok(Frame::Need(total));
    }
    let end: usize = 4 + n as usize;
    match read_text(buf, 4, end) {
        Some(text) => Ok(Frame::Item(text, end)),
        None => Err(
            AdbTransportError::InvalidResponse(String::from_str("get_fail_message"), None),
        ),
    }
}

/// A failure record met at `buf[at..]`, as the reply of the surrounding
/// exchange: the server's message becomes the error.
pub open spec fn failure<V>(b: Seq<u8>, at: nat) -> Reply<V> {
    match fail_message(b.skip(at as int)) {
        Reply::Need(n) => Reply::Need(at + n),
        Reply::Item(text, _) => Reply::Failed(ErrorView::AdbError(text)),
        Reply::End(n) => Reply::End(at + n),
        Reply::Failed(e) => Reply::Failed(e),
    }
}

/// Turns the failure record whose length starts at `buf[at]` into the error
/// that it reports.
pub(crate) fn read_failure<T: View>(buf: &[u8], at: usize) -> (r: Result<
    Frame<T>,
    AdbTransportError,
>)
    requires
        at <= buf.len(),
        at <= 8,
    ensures
        reply_of(r) == failure::<T::V>(buf@, at as nat),
{
    let rest = slice_subrange(buf, at, buf.len());
    assert(rest@ =~= buf@.skip(at as int));
    match get_fail_message(rest) {
        Ok(Frame::Need(n)) => Ok(Frame::Need(at as u64 + n)),
        Ok(Frame::Item(text, _)) => Err(AdbTransportError::AdbError(text)),
        Ok(Frame::End(n)) => Ok(Frame::End(at + n)),
        Err(e) => Err(e),
    }
}

/// The error that stands for a stream that ends inside a record.
pub open spec fn short_record(context: Seq<char>) -> ErrorView {
    ErrorView::InvalidResponse(context, Some("short record"@))
}

/// Builds the error that stands for a stream that ends inside a record.
pub fn short_record_error(context: &str) -> (e: AdbTransportError)
    ensures
        e@ == short_record(context@),
{
    AdbTransportError::InvalidResponse(
        String::from_str(context),
        Some(String::from_str("short record")),
    )
}

/// A failure record as the server writes it: the tag, the length of the
/// message, the message.
pub open spec fn fail_record(message: Seq<char>) -> Seq<u8> {
    u32_le(ID_FAIL) + u32_le(encode_utf8(message).len() as u32) + encode_utf8(message)
}

/// A failure record is read as the error that carries its message,
/// whatever follows it in the stream.
pub proof fn lemma_fail_record_surfaces<V>(message: Seq<char>, rest: Seq<u8>)
    requires
        encode_utf8(message).len() <= u32::MAX,
    ensures
        le_u32(fail_record(message) + rest) == ID_FAIL,
        (fail_record(message) + rest).len() >= 8,
        failure::<V>(fail_record(message) + rest, 4) == Reply::<V>::Failed(
            ErrorView::AdbError(message),
        ),
{
    let text = encode_utf8(message);
    let n = text.len() as u32;
    let s = fail_record(message) + rest;
    lemma_u32_at(ID_FAIL, u32_le(n) + text + rest);
    assert(s =~= u32_le(ID_FAIL) + (u32_le(n) + text + rest));
    let body = s.skip(4);
    assert(body =~= u32_le(n) + (text + rest));
    lemma_u32_at(n, text + rest);
    assert(body.subrange(4, 4 + n as int) =~= text);
    encode_utf8_valid_utf8(message);
    encode_utf8_decode_utf8(message);
}

/// The message of a failure record is asked for in steps that go beyond
/// what has arrived, and once it is complete it stays as it is, whatever
/// arrives behind it.
pub proof fn lemma_fail_message_steps(b: Seq<u8>, more: Seq<u8>)
    ensures
        fail_message(b) matches Reply::Need(n) ==> n > b.len(),
        !(fail_message(b) is Need) ==> fail_message(b + more) == fail_message(b),
{
    if b.len() >= 4 {
        lemma_le_u32_extend(b, more, 0);
        assert(b.skip(0) =~= b);
        assert((b + more).skip(0) =~= b + more);
        let n = le_u32(b) as nat;
        if b.len() >= 4 + n {
            assert((b + more).subrange(4, 4 + n as int) =~= b.subrange(4, 4 + n as int));
        }
    }
}

/// The same holds of a failure record inside a reply.
pub proof fn lemma_failure_steps<V>(b: Seq<u8>, more: Seq<u8>, at: nat)
    requires
        at <= b.len(),
    ensures
        failure::<V>(b, at) matches Reply::Need(n) ==> n > b.len(),
        !(failure::<V>(b, at) is Need) ==> failure::<V>(b + more, at) == failure::<V>(b, at),
{
    lemma_fail_message_steps(b.skip(at as int), more);
    assert((b + more).skip(at as int) =~= b.skip(at as int) + more);
}

} // verus!
