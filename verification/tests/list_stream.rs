use transport::commands::list::{list_request, sync_list_};
use transport::result::dent::{SyncDent, SyncDentV1};
use transport::utils::get_fail_message;
use transport::wire::Frame;
use transport::{AdbTransportError, PathError};

fn dent_record(mode: u32, size: u32, mtime: u32, name: &[u8]) -> Vec<u8> {
    let mut bytes = b"DENT".to_vec();
    bytes.extend_from_slice(&mode.to_le_bytes());
    bytes.extend_from_slice(&size.to_le_bytes());
    bytes.extend_from_slice(&mtime.to_le_bytes());
    bytes.extend_from_slice(&(name.len() as u32).to_le_bytes());
    bytes.extend_from_slice(name);
    bytes
}

fn fail_record(message: &[u8]) -> Vec<u8> {
    let mut bytes = b"FAIL".to_vec();
    bytes.extend_from_slice(&(message.len() as u32).to_le_bytes());
    bytes.extend_from_slice(message);
    bytes
}

fn dent(mode: u32, size: u32, mtime: u32, name: &str) -> SyncDent {
    SyncDent { mode, size, mtime, name: name.to_string() }
}

#[test]
fn list_request_is_tag_length_and_path() {
    assert_eq!(list_request("/sdcard"), Ok(b"LIST\x07\x00\x00\x00/sdcard".to_vec()));
    assert_eq!(list_request("/"), Ok(b"LIST\x01\x00\x00\x00/".to_vec()));
    assert_eq!(
        list_request(&"p".repeat(1025)),
        Err(AdbTransportError::InvalidPath(PathError::TooLong))
    );
}

#[test]
fn fixed_part_is_four_little_endian_integers() {
    let bytes = [1u8, 0, 0, 0, 2, 1, 0, 0, 3, 0, 1, 0, 4, 0, 0, 1, 9, 9];
    assert_eq!(
        SyncDentV1::from_le_bytes(&bytes),
        Some(SyncDentV1 { mode: 1, size: 258, mtime: 65539, namelen: 0x0100_0004 })
    );
    assert_eq!(SyncDentV1::from_le_bytes(&bytes[..15]), None);
}

#[test]
fn entry_is_read_as_the_bytes_arrive() {
    let record = dent_record(0o100644, 77, 1_600_000_000, b"build.prop");
    assert_eq!(SyncDent::from_le_bytes_transport(&record[..2]), Ok(Frame::Need(4)));
    assert_eq!(SyncDent::from_le_bytes_transport(&record[..4]), Ok(Frame::Need(20)));
    assert_eq!(SyncDent::from_le_bytes_transport(&record[..19]), Ok(Frame::Need(20)));
    assert_eq!(SyncDent::from_le_bytes_transport(&record[..20]), Ok(Frame::Need(30)));
    assert_eq!(SyncDent::from_le_bytes_transport(&record[..29]), Ok(Frame::Need(30)));
    assert_eq!(
        SyncDent::from_le_bytes_transport(&record),
        Ok(Frame::Item(dent(0o100644, 77, 1_600_000_000, "build.prop"), 30))
    );
    assert_eq!(SyncDent::from_le_bytes_transport(b"DONE"), Ok(Frame::End(4)));
}

#[test]
fn listing_is_every_entry_up_to_the_sentinel() {
    let mut stream = Vec::new();
    stream.extend(dent_record(0o040755, 4096, 10, b"."));
    stream.extend(dent_record(0o040755, 4096, 11, b".."));
    stream.extend(dent_record(0o100644, 5, 12, b"a.txt"));
    stream.extend(dent_record(0o040700, 4096, 13, "caf\u{e9}".as_bytes()));
    stream.extend(dent_record(0o120777, 0, 14, b""));
    stream.extend_from_slice(b"DONE");
    stream.extend_from_slice(&[0, 0, 0, 0, 1, 2, 3]);
    let entries = sync_list_(&stream).unwrap();
    assert_eq!(
        entries,
        vec![
            dent(0o040755, 4096, 10, "."),
            dent(0o040755, 4096, 11, ".."),
            dent(0o100644, 5, 12, "a.txt"),
            dent(0o040700, 4096, 13, "caf\u{e9}"),
            dent(0o120777, 0, 14, ""),
        ]
    );
}

#[test]
fn empty_listing_is_the_sentinel_alone() {
    assert_eq!(sync_list_(b"DONE"), Ok(vec![]));
}

#[test]
fn failure_among_the_entries_ends_the_listing() {
    let mut stream = Vec::new();
    stream.extend(dent_record(0o100644, 5, 12, b"a.txt"));
    stream.extend(fail_record(b"Permission denied"));
    stream.extend(dent_record(0o100644, 5, 12, b"b.txt"));
    stream.extend_from_slice(b"DONE");
    assert_eq!(sync_list_(&stream), Err(AdbTransportError::AdbError("Permission denied".to_string())));
    let first = fail_record(b"");
    assert_eq!(sync_list_(&first), Err(AdbTransportError::AdbError(String::new())));
}

#[test]
fn name_that_is_not_utf8_is_malformed() {
    let mut stream = dent_record(0o100644, 5, 12, &[0x61, 0xff]);
    stream.extend_from_slice(b"DONE");
    assert_eq!(
        sync_list_(&stream),
        Err(AdbTransportError::InvalidResponse("sync_dent".to_string(), None))
    );
}

#[test]
fn unknown_tag_among_the_entries_is_malformed() {
    let mut stream = dent_record(0o100644, 5, 12, b"a.txt");
    stream.extend_from_slice(b"STAT");
    assert_eq!(
        sync_list_(&stream),
        Err(AdbTransportError::InvalidResponse("sync_dent".to_string(), Some("STAT".to_string())))
    );
}

#[test]
fn listing_that_stops_short_is_malformed() {
    let stream = dent_record(0o100644, 5, 12, b"a.txt");
    let expected = AdbTransportError::InvalidResponse("sync_dent".to_string(), Some("short record".to_string()));
    assert_eq!(sync_list_(&stream), Err(expected.clone()));
    assert_eq!(sync_list_(&stream[..22]), Err(expected.clone()));
    assert_eq!(sync_list_(b""), Err(expected));
}

#[test]
fn failure_message_is_length_then_text() {
    assert_eq!(get_fail_message(b""), Ok(Frame::Need(4)));
    assert_eq!(get_fail_message(&[3, 0, 0, 0]), Ok(Frame::Need(7)));
    assert_eq!(get_fail_message(&[3, 0, 0, 0, b'a', b'b']), Ok(Frame::Need(7)));
    assert_eq!(
        get_fail_message(&[3, 0, 0, 0, b'a', b'b', b'c', b'd']),
        Ok(Frame::Item("abc".to_string(), 7))
    );
    assert_eq!(
        get_fail_message(&[2, 0, 0, 0, 0xc3, 0xa9]),
        Ok(Frame::Item("\u{e9}".to_string(), 6))
    );
    assert_eq!(
        get_fail_message(&[1, 0, 0, 0, 0xc3, 0xa9]),
        Err(AdbTransportError::InvalidResponse("get_fail_message".to_string(), None))
    );
    assert_eq!(get_fail_message(&[0xff, 0xff, 0xff, 0xff]), Ok(Frame::Need(0x1_0000_0003)));
}

#[test]
fn test_list() {
    assert!(list_request("/sdcard").is_ok());
    let mut stream = Vec::new();
    stream.extend(dent_record(0o040771, 4096, 1_700_000_000, b"Download"));
    stream.extend(dent_record(0o100660, 12, 1_700_000_001, b"notes.txt"));
    stream.extend_from_slice(b"DONE");
    let list = sync_list_(&stream).unwrap();
    println!("{:?}", list);
    assert_eq!(list.len(), 2);
}
