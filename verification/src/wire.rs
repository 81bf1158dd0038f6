//! Integers and record boundaries as they appear on the wire.
//!
//! The sync sub-protocol carries every integer as four little-endian bytes and
//! names every record by a four-byte tag; the host protocol carries lengths as
//! four hexadecimal digits. A record is decoded from the bytes received so
//! far, and the decoder says how many bytes it must see before it can decide.
use vstd::prelude::*;
use vstd::string::*;
use vstd::utf8::*;
use crate::AdbTransportError;
use crate::ErrorView;

verus! {

/// `STAT`, read as a little-endian integer.
pub const ID_STAT: u32 = 0x5441_5453;

/// `LIST`, read as a little-endian integer.
pub const ID_LIST: u32 = 0x5453_494c;

/// `SEND`, read as a little-endian integer.
pub const ID_SEND: u32 = 0x444e_4553;

/// `RECV`, read as a little-endian integer.
pub const ID_RECV: u32 = 0x5643_4552;

/// `DENT`, read as a little-endian integer.
pub const ID_DENT: u32 = 0x544e_4544;

/// `DONE`, read as a little-endian integer.
pub const ID_DONE: u32 = 0x454e_4f44;

/// `DATA`, read as a little-endian integer.
pub const ID_DATA: u32 = 0x4154_4144;

/// `FAIL`, read as a little-endian integer.
pub const ID_FAIL: u32 = 0x4c49_4146;

/// `OKAY`, read as a little-endian integer.
pub const ID_OKAY: u32 = 0x5941_4b4f;

/// The four bytes of `x`, least significant first.
#[verifier::opaque]
pub open spec fn u32_le(x: u32) -> Seq<u8> {
    seq![
        (x % 256) as u8,
        ((x / 256) % 256) as u8,
        ((x / 65536) % 256) as u8,
        ((x / 16777216) % 256) as u8,
    ]
}

/// The integer whose little-endian bytes are the first four of `b`.
#[verifier::opaque]
pub open spec fn le_u32(b: Seq<u8>) -> u32
    recommends
        b.len() >= 4,
{
    (b[0] as int + b[1] as int * 256 + b[2] as int * 65536 + b[3] as int * 16777216) as u32
}

proof fn lemma_bytes_of(x: u32)
    by (bit_vector)
    ensures
        x == (x % 256) + ((x / 256) % 256) * 256 + ((x / 65536) % 256) * 65536 + ((x / 16777216)
            % 256) * 16777216,
{
}

/// An encoded integer at the head of a stream is read back from it, and
/// the stream goes on behind its four bytes.
pub proof fn lemma_u32_at(x: u32, rest: Seq<u8>)
    ensures
        le_u32(u32_le(x) + rest) == x,
        (u32_le(x) + rest).len() == 4 + rest.len(),
        (u32_le(x) + rest).skip(4) == rest,
{
    reveal(le_u32);
    reveal(u32_le);
    let s = u32_le(x) + rest;
    lemma_bytes_of(x);
    assert(s[0] == (x % 256) as u8);
    assert(s[1] == ((x / 256) % 256) as u8);
    assert(s[2] == ((x / 65536) % 256) as u8);
    assert(s[3] == ((x / 16777216) % 256) as u8);
    assert(s.skip(4) =~= rest);
}

/// Encoding then decoding an integer gives it back.
pub proof fn lemma_u32_le_roundtrip(x: u32)
    ensures
        u32_le(x).len() == 4,
        le_u32(u32_le(x)) == x,
{
    lemma_u32_at(x, Seq::empty());
    assert(u32_le(x) + Seq::<u8>::empty() =~= u32_le(x));
}

proof fn lemma_bytes_back(b0: u32, b1: u32, b2: u32, b3: u32)
    by (bit_vector)
    requires
        b0 < 256,
        b1 < 256,
        b2 < 256,
        b3 < 256,
    ensures
        (b0 + b1 * 256 + b2 * 65536 + b3 * 16777216) % 256 == b0,
        ((b0 + b1 * 256 + b2 * 65536 + b3 * 16777216) / 256) % 256 == b1,
        ((b0 + b1 * 256 + b2 * 65536 + b3 * 16777216) / 65536) % 256 == b2,
        ((b0 + b1 * 256 + b2 * 65536 + b3 * 16777216) / 16777216) % 256 == b3,
        b0 + b1 * 256 + b2 * 65536 + b3 * 16777216 < 0x1_0000_0000,
{
}

/// Four bytes decode to an integer exactly when they are the bytes that
/// the integer is written as.
pub proof fn lemma_tag_bytes(b: Seq<u8>, id: u32)
    requires
        b.len() >= 4,
    ensures
        le_u32(b) == id <==> b.take(4) == u32_le(id),
{
    reveal(le_u32);
    reveal(u32_le);
    lemma_bytes_of(id);
    lemma_bytes_back(b[0] as u32, b[1] as u32, b[2] as u32, b[3] as u32);
    if le_u32(b) == id {
        assert(b.take(4) =~= u32_le(id));
    }
    if b.take(4) == u32_le(id) {
        assert(b.take(4)[0] == b[0]);
        assert(b.take(4)[1] == b[1]);
        assert(b.take(4)[2] == b[2]);
        assert(b.take(4)[3] == b[3]);
    }
}

/// Every tag is the UTF-8 text of its four letters.
pub proof fn lemma_tags_spell_their_names()
    ensures
        u32_le(ID_STAT) == encode_utf8("STAT"@),
        u32_le(ID_LIST) == encode_utf8("LIST"@),
        u32_le(ID_SEND) == encode_utf8("SEND"@),
        u32_le(ID_RECV) == encode_utf8("RECV"@),
        u32_le(ID_DENT) == encode_utf8("DENT"@),
        u32_le(ID_DONE) == encode_utf8("DONE"@),
        u32_le(ID_DATA) == encode_utf8("DATA"@),
        u32_le(ID_FAIL) == encode_utf8("FAIL"@),
        u32_le(ID_OKAY) == encode_utf8("OKAY"@),
{
    reveal(u32_le);
    reveal_strlit("STAT");
    reveal_strlit("LIST");
    reveal_strlit("SEND");
    reveal_strlit("RECV");
    reveal_strlit("DENT");
    reveal_strlit("DONE");
    reveal_strlit("DATA");
    reveal_strlit("FAIL");
    reveal_strlit("OKAY");
    lemma_ascii_tag(ID_OKAY, "OKAY"@);
    lemma_ascii_tag(ID_STAT, "STAT"@);
    lemma_ascii_tag(ID_LIST, "LIST"@);
    lemma_ascii_tag(ID_SEND, "SEND"@);
    lemma_ascii_tag(ID_RECV, "RECV"@);
    lemma_ascii_tag(ID_DENT, "DENT"@);
    lemma_ascii_tag(ID_DONE, "DONE"@);
    lemma_ascii_tag(ID_DATA, "DATA"@);
    lemma_ascii_tag(ID_FAIL, "FAIL"@);
}

proof fn lemma_ascii_tag(id: u32, name: Seq<char>)
    requires
        name.len() == 4,
        is_ascii_chars(name),
        forall|i: int| 0 <= i < 4 ==> u32_le(id)[i] == name[i] as u8,
    ensures
        u32_le(id) == encode_utf8(name),
{
    reveal(u32_le);
    is_ascii_chars_encode_utf8(name);
    assert(u32_le(id) =~= encode_utf8(name));
}

/// Encodes `x` as four little-endian bytes.
pub fn u32_to_le(x: u32) -> (out: Vec<u8>)
    ensures
        out@ == u32_le(x),
{
    proof {
        reveal(u32_le);
    }
    let mut out: Vec<u8> = Vec::new();
    out.push((x % 256) as u8);
    out.push(((x / 256) % 256) as u8);
    out.push(((x / 65536) % 256) as u8);
    out.push(((x / 16777216) % 256) as u8);
    out
}

/// Decodes the little-endian integer that starts at offset `at` of `buf`.
pub(crate) fn u32_from_le(buf: &[u8], at: usize) -> (x: u32)
    requires
        at + 4 <= buf.len(),
    ensures
        x == le_u32(buf@.skip(at as int)),
{
    proof {
        reveal(le_u32);
    }
    let b0: u32 = buf[at] as u32;
    let b1: u32 = buf[at + 1] as u32;
    let b2: u32 = buf[at + 2] as u32;
    let b3: u32 = buf[at + 3] as u32;
    b0 + b1 * 256 + b2 * 65536 + b3 * 16777216
}

/// The lower-case hexadecimal digit for `d`, as an ASCII byte.
pub open spec fn hex_digit(d: int) -> u8
    recommends
        0 <= d < 16,
{
    if d < 10 {
        (0x30 + d) as u8
    } else {
        (0x61 + d - 10) as u8
    }
}

/// The value of an ASCII hexadecimal digit of either case.
pub open spec fn hex_value(b: u8) -> Option<int> {
    if 0x30 <= b <= 0x39 {
        Some(b - 0x30)
    } else if 0x61 <= b <= 0x66 {
        Some(b - 0x61 + 10)
    } else if 0x41 <= b <= 0x46 {
        Some(b - 0x41 + 10)
    } else {
        None
    }
}

/// `n` written as four lower-case hexadecimal digits.
pub open spec fn hex4(n: int) -> Seq<u8>
    recommends
        0 <= n < 0x1_0000,
{
    seq![
        hex_digit(n / 4096),
        hex_digit((n / 256) % 16),
        hex_digit((n / 16) % 16),
        hex_digit(n % 16),
    ]
}

/// The number that the first four bytes of `b` spell in hexadecimal, if all
/// four are hexadecimal digits.
pub open spec fn parse_hex4(b: Seq<u8>) -> Option<int>
    recommends
        b.len() >= 4,
{
    match (hex_value(b[0]), hex_value(b[1]), hex_value(b[2]), hex_value(b[3])) {
        (Some(d0), Some(d1), Some(d2), Some(d3)) => Some(d0 * 4096 + d1 * 256 + d2 * 16 + d3),
        _ => None,
    }
}

/// Every digit that is written is read back with its value.
pub proof fn lemma_hex_digit_roundtrip(d: int)
    requires
        0 <= d < 16,
    ensures
        hex_value(hex_digit(d)) == Some(d),
{
}

proof fn lemma_nibbles(n: u32)
    by (bit_vector)
    requires
        n < 0x1_0000,
    ensures
        n == (n / 4096) * 4096 + ((n / 256) % 16) * 256 + ((n / 16) % 16) * 16 + n % 16,
        n / 4096 < 16,
{
}

/// A length header that was written is read back as the same number.
pub proof fn lemma_hex4_roundtrip(n: int, rest: Seq<u8>)
    requires
        0 <= n < 0x1_0000,
    ensures
        hex4(n).len() == 4,
        parse_hex4(hex4(n) + rest) == Some(n),
{
    let s = hex4(n) + rest;
    let d0 = n / 4096;
    let d1 = (n / 256) % 16;
    let d2 = (n / 16) % 16;
    let d3 = n % 16;
    lemma_nibbles(n as u32);
    assert(hex_value(s[0]) == Some(d0)) by {
        assert(s[0] == hex_digit(d0));
        lemma_hex_digit_roundtrip(d0);
    }
    assert(hex_value(s[1]) == Some(d1)) by {
        assert(s[1] == hex_digit(d1));
        lemma_hex_digit_roundtrip(d1);
    }
    assert(hex_value(s[2]) == Some(d2)) by {
        assert(s[2] == hex_digit(d2));
        lemma_hex_digit_roundtrip(d2);
    }
    assert(hex_value(s[3]) == Some(d3)) by {
        assert(s[3] == hex_digit(d3));
        lemma_hex_digit_roundtrip(d3);
    }
}

fn hex_digit_of(d: usize) -> (b: u8)
    requires
        d < 16,
    ensures
        b == hex_digit(d as int),
{
    if d < 10 {
        (0x30 + d) as u8
    } else {
        (0x61 + d - 10) as u8
    }
}

fn hex_value_of(b: u8) -> (v: Option<usize>)
    ensures
        match v {
            Some(d) => hex_value(b) == Some(d as int) && d < 16,
            None => hex_value(b) is None,
        },
{
    if 0x30 <= b && b <= 0x39 {
        Some((b - 0x30) as usize)
    } else if 0x61 <= b && b <= 0x66 {
        Some((b - 0x61 + 10) as usize)
    } else if 0x41 <= b && b <= 0x46 {
        Some((b - 0x41 + 10) as usize)
    } else {
        None
    }
}

/// Writes `n` as the four-digit length header of the host protocol, or
/// nothing if `n` does not fit in four digits.
pub fn encode_hex4(n: usize) -> (out: Option<Vec<u8>>)
    ensures
        out is Some <==> n < 0x1_0000,
        out matches Some(digits) ==> digits@ == hex4(n as int),
{
    if n >= 0x1_0000 {
        return None;
    }
    let mut digits: Vec<u8> = Vec::new();
    digits.push(hex_digit_of(n / 4096));
    digits.push(hex_digit_of((n / 256) % 16));
    digits.push(hex_digit_of((n / 16) % 16));
    digits.push(hex_digit_of(n % 16));
    Some(digits)
}

/// Reads the four-digit length header at the start of `buf`.
pub(crate) fn decode_hex4(buf: &[u8]) -> (n: Option<usize>)
    requires
        buf.len() >= 4,
    ensures
        match n {
            Some(v) => parse_hex4(buf@) == Some(v as int),
            None => parse_hex4(buf@) is None,
        },
{
    match (hex_value_of(buf[0]), hex_value_of(buf[1]), hex_value_of(buf[2]), hex_value_of(buf[3])) {
        (Some(d0), Some(d1), Some(d2), Some(d3)) => Some(d0 * 4096 + d1 * 256 + d2 * 16 + d3),
        _ => None,
    }
}

/// What a decoder made of the bytes received so far (executable form).
#[derive(Debug, Clone, PartialEq, Eq)]
pub enum Frame<T> {
    /// The bytes are a proper prefix of a record: this many bytes, counted
    /// from the start of the record, are needed before anything more can be
    /// said.
    Need(u64),
    /// A complete record, and the number of bytes it occupies.
    Item(T, usize),
    /// The end-of-stream sentinel, and the number of bytes it occupies.
    End(usize),
}

/// What a decoder makes of the bytes received so far (mathematical form).
pub enum Reply<V> {
    /// More bytes are needed: the total wanted, from the start of the record.
    Need(nat),
    /// A complete record and its length in bytes.
    Item(V, nat),
    /// The end-of-stream sentinel and its length in bytes.
    End(nat),
    /// The record is a server failure or violates the protocol.
    Failed(ErrorView),
}

/// The mathematical form of a decoder's result.
pub open spec fn reply_of<T: View>(r: Result<Frame<T>, AdbTransportError>) -> Reply<T::V> {
    match r {
        Ok(Frame::Need(n)) => Reply::Need(n as nat),
        Ok(Frame::Item(x, used)) => Reply::Item(x@, used as nat),
        Ok(Frame::End(used)) => Reply::End(used as nat),
        Err(e) => Reply::Failed(e@),
    }
}

/// The readable form of `bytes`, where they are UTF-8.
pub open spec fn text_of(bytes: Seq<u8>) -> Option<Seq<char>> {
    if valid_utf8(bytes) {
        Some(decode_utf8(bytes))
    } else {
        None
    }
}

/// `String::from_utf8` of the standard library: it accepts exactly the byte
/// sequences that are valid UTF-8, and the string it returns holds the
/// characters that those bytes encode.
#[verifier::external_body]
pub(crate) fn string_from_utf8(bytes: Vec<u8>) -> (text: Option<String>)
    ensures
        text is Some <==> valid_utf8(bytes@),
        text matches Some(s) ==> s@ == decode_utf8(bytes@),
{
    match String::from_utf8(bytes) {
        Ok(s) => Some(s),
        Err(_) => None,
    }
}

/// Copies `buf[from..to]` into a vector of its own.
pub(crate) fn copy_range(buf: &[u8], from: usize, to: usize) -> (out: Vec<u8>)
    requires
        from <= to <= buf.len(),
    ensures
        out@ == buf@.subrange(from as int, to as int),
{
    let mut out: Vec<u8> = Vec::new();
    out.extend_from_slice(vstd::slice::slice_subrange(buf, from, to));
    out
}

/// The text that `buf[from..to]` holds, where it is UTF-8.
pub(crate) fn read_text(buf: &[u8], from: usize, to: usize) -> (text: Option<String>)
    requires
        from <= to <= buf.len(),
    ensures
        match text {
            Some(s) => text_of(buf@.subrange(from as int, to as int)) == Some(s@),
            None => text_of(buf@.subrange(from as int, to as int)) is None,
        },
{
    string_from_utf8(copy_range(buf, from, to))
}

/// Four bytes decode to the same integer whatever follows them.
pub proof fn lemma_le_u32_extend(b: Seq<u8>, more: Seq<u8>, at: int)
    requires
        0 <= at,
        at + 4 <= b.len(),
    ensures
        le_u32((b + more).skip(at)) == le_u32(b.skip(at)),
{
    reveal(le_u32);
}

} // verus!
