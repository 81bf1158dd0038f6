use transport::commands::pull::{read_chunk_header, recv_request, sync_recv};
use transport::commands::push::{
    data_chunk, done_record, read_send_status, send_request, sync_send, SYNC_DATA_MAX,
};
use transport::wire::Frame;
use transport::{AdbTransportError, PathError};

fn fail_record(message: &[u8]) -> Vec<u8> {
    let mut bytes = b"FAIL".to_vec();
    bytes.extend_from_slice(&(message.len() as u32).to_le_bytes());
    bytes.extend_from_slice(message);
    bytes
}

fn pattern(len: usize) -> Vec<u8> {
    (0..len).map(|i| (i * 31 % 251) as u8).collect()
}

#[test]
fn upload_request_names_the_path_and_the_permission() {
    assert_eq!(
        send_request("/sdcard/a.txt"),
        Ok(b"SEND\x12\x00\x00\x00/sdcard/a.txt,0644".to_vec())
    );
    assert_eq!(send_request(""), Err(AdbTransportError::InvalidPath(PathError::Empty)));
    assert_eq!(send_request("a\nb"), Err(AdbTransportError::InvalidPath(PathError::Newline)));
    assert_eq!(
        send_request(&"x".repeat(1025)),
        Err(AdbTransportError::InvalidPath(PathError::TooLong))
    );
    let longest = send_request(&"x".repeat(1024)).unwrap();
    assert_eq!(&longest[4..8], &1029u32.to_le_bytes());
}

#[test]
fn download_request_is_tag_length_and_path() {
    assert_eq!(recv_request("/sdcard/a.txt"), Ok(b"RECV\x0d\x00\x00\x00/sdcard/a.txt".to_vec()));
    assert_eq!(recv_request("a\0b"), Err(AdbTransportError::InvalidPath(PathError::NullByte)));
}

#[test]
fn chunk_is_tag_length_and_bytes() {
    assert_eq!(SYNC_DATA_MAX, 65536);
    assert_eq!(data_chunk(b"hello"), Ok(b"DATA\x05\x00\x00\x00hello".to_vec()));
    let full = data_chunk(&vec![7u8; 65536]).unwrap();
    assert_eq!(&full[..8], b"DATA\x00\x00\x01\x00");
    assert_eq!(full.len(), 65544);
    let refused = Err(AdbTransportError::ConversionError("chunk size".to_string()));
    assert_eq!(data_chunk(b""), refused);
    assert_eq!(data_chunk(&vec![7u8; 65537]), refused);
}

#[test]
fn closing_record_carries_the_low_bits_of_the_time() {
    assert_eq!(done_record(0), b"DONE\x00\x00\x00\x00".to_vec());
    assert_eq!(done_record(1_700_000_000), b"DONE\x00\xf1\x53\x65".to_vec());
    assert_eq!(done_record(0x1_0000_0002), b"DONE\x02\x00\x00\x00".to_vec());
    assert_eq!(done_record(u64::MAX), b"DONE\xff\xff\xff\xff".to_vec());
}

#[test]
fn small_upload_is_one_chunk() {
    assert_eq!(
        sync_send("f", b"abc", 9),
        Ok(b"SEND\x06\x00\x00\x00f,0644DATA\x03\x00\x00\x00abcDONE\x09\x00\x00\x00".to_vec())
    );
    assert_eq!(
        sync_send("f", b"", 9),
        Ok(b"SEND\x06\x00\x00\x00f,0644DONE\x09\x00\x00\x00".to_vec())
    );
    assert_eq!(sync_send("", b"abc", 9), Err(AdbTransportError::InvalidPath(PathError::Empty)));
}

#[test]
fn large_upload_is_cut_at_64_kib() {
    let content = pattern(65536 * 2 + 10);
    let stream = sync_send("f", &content, 1).unwrap();
    let frames = &stream[14..];
    assert_eq!(&frames[..8], b"DATA\x00\x00\x01\x00");
    assert_eq!(&frames[8..65544], &content[..65536]);
    assert_eq!(&frames[65544..65552], b"DATA\x00\x00\x01\x00");
    assert_eq!(&frames[131088..131096], b"DATA\x0a\x00\x00\x00");
    assert_eq!(&frames[131096..131106], &content[131072..]);
    assert_eq!(&frames[131106..], b"DONE\x01\x00\x00\x00");
}

#[test]
fn what_was_pushed_is_pulled_byte_for_byte() {
    for len in [0usize, 1, 2, 65535, 65536, 65537, 131072, 200_001] {
        let content = pattern(len);
        let stream = sync_send("/sdcard/file.bin", &content, 1_700_000_000).unwrap();
        let request = send_request("/sdcard/file.bin").unwrap();
        assert_eq!(&stream[..request.len()], &request[..]);
        let mut pulled = Vec::new();
        assert_eq!(sync_recv(&stream[request.len()..], &mut pulled), Ok(()));
        assert_eq!(pulled.len(), len);
        assert_eq!(pulled, content);
    }
}

#[test]
fn download_appends_to_what_the_sink_holds() {
    let mut sink = b"kept".to_vec();
    let reply = b"DATA\x02\x00\x00\x00hiDATA\x01\x00\x00\x00!DONE\x00\x00\x00\x00";
    assert_eq!(sync_recv(reply, &mut sink), Ok(()));
    assert_eq!(sink, b"kepthi!".to_vec());
}

#[test]
fn chunk_header_is_read_as_the_bytes_arrive() {
    assert_eq!(read_chunk_header(b""), Ok(Frame::Need(8)));
    assert_eq!(read_chunk_header(b"DATA\x05\x00\x00"), Ok(Frame::Need(8)));
    assert_eq!(read_chunk_header(b"DATA\x05\x00\x00\x00"), Ok(Frame::Item(5, 8)));
    assert_eq!(read_chunk_header(b"DATA\x00\x00\x01\x00rest"), Ok(Frame::Item(65536, 8)));
    assert_eq!(read_chunk_header(b"DONE\x00\x00\x00\x00"), Ok(Frame::End(8)));
    assert_eq!(read_chunk_header(b"DONE\x07\x00\x00\x00"), Ok(Frame::End(8)));
}

#[test]
fn empty_chunk_ends_the_download() {
    assert_eq!(read_chunk_header(b"DATA\x00\x00\x00\x00"), Ok(Frame::End(8)));
    let mut sink = Vec::new();
    let reply = b"DATA\x02\x00\x00\x00hiDATA\x00\x00\x00\x00DATA\x01\x00\x00\x00!DONE\x00\x00\x00\x00";
    assert_eq!(sync_recv(reply, &mut sink), Ok(()));
    assert_eq!(sink, b"hi".to_vec());
}

#[test]
fn unknown_tag_fails_the_download_and_keeps_what_came() {
    let expected = AdbTransportError::InvalidResponse("sync_recv".to_string(), Some("STAT".to_string()));
    assert_eq!(read_chunk_header(b"STAT\x00\x00\x00\x00"), Err(expected.clone()));
    let mut sink = Vec::new();
    let reply = b"DATA\x02\x00\x00\x00hiSTAT\x00\x00\x00\x00DATA\x01\x00\x00\x00!";
    assert_eq!(sync_recv(reply, &mut sink), Err(expected));
    assert_eq!(sink, b"hi".to_vec());
}

#[test]
fn failure_among_the_chunks_ends_the_download() {
    let mut reply = b"DATA\x02\x00\x00\x00hi".to_vec();
    reply.extend(fail_record(b"read failed"));
    reply.extend_from_slice(b"DATA\x01\x00\x00\x00!DONE\x00\x00\x00\x00");
    let mut sink = Vec::new();
    assert_eq!(sync_recv(&reply, &mut sink), Err(AdbTransportError::AdbError("read failed".to_string())));
    assert_eq!(sink, b"hi".to_vec());
    let header = fail_record(b"read failed");
    assert_eq!(read_chunk_header(&header[..8]), Ok(Frame::Need(19)));
    assert_eq!(read_chunk_header(&header), Err(AdbTransportError::AdbError("read failed".to_string())));
    let empty = fail_record(b"");
    assert_eq!(read_chunk_header(&empty), Err(AdbTransportError::AdbError(String::new())));
}

#[test]
fn download_that_stops_short_is_malformed() {
    let expected = AdbTransportError::InvalidResponse("sync_recv".to_string(), Some("short record".to_string()));
    let mut sink = Vec::new();
    assert_eq!(sync_recv(b"DATA\x05\x00\x00\x00hell", &mut sink), Err(expected.clone()));
    assert_eq!(sink, Vec::<u8>::new());
    assert_eq!(sync_recv(b"DATA\x02\x00\x00\x00hi", &mut sink), Err(expected.clone()));
    assert_eq!(sink, b"hi".to_vec());
    assert_eq!(sync_recv(b"DATA\x02\x00\x00\x00hiDON", &mut sink), Err(expected));
    assert_eq!(sink, b"hihi".to_vec());
}

#[test]
fn upload_status_is_okay_or_the_servers_error() {
    assert_eq!(read_send_status(b"OK"), Ok(Frame::Need(4)));
    assert_eq!(read_send_status(b"OKAY"), Ok(Frame::Item((), 4)));
    assert_eq!(read_send_status(b"OKAY\x00\x00\x00\x00"), Ok(Frame::Item((), 4)));
    let failure = fail_record(b"No space left on device");
    assert_eq!(read_send_status(&failure[..4]), Ok(Frame::Need(8)));
    assert_eq!(read_send_status(&failure[..8]), Ok(Frame::Need(31)));
    assert_eq!(
        read_send_status(&failure),
        Err(AdbTransportError::AdbError("No space left on device".to_string()))
    );
    let mut longer = failure.clone();
    longer.extend_from_slice(b"OKAY");
    assert_eq!(
        read_send_status(&longer),
        Err(AdbTransportError::AdbError("No space left on device".to_string()))
    );
}

#[test]
fn unknown_tag_in_place_of_the_upload_status_is_malformed() {
    assert_eq!(
        read_send_status(b"okay"),
        Err(AdbTransportError::InvalidResponse("sync_send".to_string(), Some("okay".to_string())))
    );
    assert_eq!(
        read_send_status(b"DONE\x03\x00\x00\x00abc"),
        Err(AdbTransportError::InvalidResponse("sync_send".to_string(), Some("DONE".to_string())))
    );
    assert_eq!(
        read_send_status(&[0x80, 0x80, 0x80, 0x80]),
        Err(AdbTransportError::InvalidResponse("sync_send".to_string(), None))
    );
}

#[test]
fn download_is_read_however_the_device_cuts_it() {
    let content = pattern(70_000);
    for sizes in [vec![70_000usize], vec![1, 69_999], vec![65_537, 4_463], vec![10; 7_000]] {
        let mut reply = Vec::new();
        let mut at = 0;
        for size in sizes {
            let chunk = &content[at..at + size];
            reply.extend_from_slice(b"DATA");
            reply.extend_from_slice(&(size as u32).to_le_bytes());
            reply.extend_from_slice(chunk);
            at += size;
        }
        assert_eq!(at, content.len());
        reply.extend_from_slice(b"DONE\x00\x00\x00\x00");
        let mut sink = Vec::new();
        assert_eq!(sync_recv(&reply, &mut sink), Ok(()));
        assert_eq!(sink, content);
    }
}
