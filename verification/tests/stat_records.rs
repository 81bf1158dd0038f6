use transport::commands::stat::{stat_request, sync_stat_};
use transport::result::stat::{FileType, StatInfo};
use transport::wire::Frame;
use transport::{AdbTransportError, PathError};

fn stat_record(mode: u32, size: u32, mtime: u32) -> Vec<u8> {
    let mut bytes = b"STAT".to_vec();
    bytes.extend_from_slice(&mode.to_le_bytes());
    bytes.extend_from_slice(&size.to_le_bytes());
    bytes.extend_from_slice(&mtime.to_le_bytes());
    bytes
}

fn fail_record(message: &[u8]) -> Vec<u8> {
    let mut bytes = b"FAIL".to_vec();
    bytes.extend_from_slice(&(message.len() as u32).to_le_bytes());
    bytes.extend_from_slice(message);
    bytes
}

#[test]
fn file_type_follows_the_type_bits() {
    let kinds = [
        (0o140000, FileType::Socket),
        (0o120000, FileType::Link),
        (0o100000, FileType::File),
        (0o060000, FileType::BlockDevice),
        (0o040000, FileType::Directory),
        (0o020000, FileType::CharDevice),
        (0o010000, FileType::Fifo),
        (0o000000, FileType::Other),
        (0o030000, FileType::Other),
        (0o050000, FileType::Other),
        (0o070000, FileType::Other),
        (0o110000, FileType::Other),
        (0o130000, FileType::Other),
        (0o150000, FileType::Other),
        (0o160000, FileType::Other),
        (0o170000, FileType::Other),
    ];
    for (format, kind) in kinds {
        for other in [0u32, 0o644, 0o7777, 0o4755, 0xffff_0000, 0xffff_0fff] {
            let info = StatInfo { mode: format | other, size: 0, mtime: 0 };
            assert_eq!(info.get_file_type(), kind);
            assert_eq!(FileType::from_mode(format | other), kind);
        }
    }
}

#[test]
fn file_type_depends_on_nothing_but_the_mode() {
    let a = StatInfo { mode: 0o100644, size: 1, mtime: 2 };
    let b = StatInfo { mode: 0o100644, size: 300, mtime: 4000 };
    assert_eq!(a.get_file_type(), FileType::File);
    assert_eq!(b.get_file_type(), FileType::File);
}

#[test]
fn stat_request_is_tag_length_and_path() {
    assert_eq!(stat_request("/sdcard/Download"), Ok(b"STAT\x10\x00\x00\x00/sdcard/Download".to_vec()));
    assert_eq!(stat_request(""), Err(AdbTransportError::InvalidPath(PathError::Empty)));
    assert_eq!(stat_request("a\nb"), Err(AdbTransportError::InvalidPath(PathError::Newline)));
}

#[test]
fn stat_record_is_read_as_the_bytes_arrive() {
    let record = stat_record(0o100644, 1234, 1_700_000_000);
    assert_eq!(record[4..], [0xa4, 0x81, 0, 0, 0xd2, 0x04, 0, 0, 0x00, 0xf1, 0x53, 0x65]);
    assert_eq!(StatInfo::from_le_bytes_transport(&record[..0]), Ok(Frame::Need(4)));
    assert_eq!(StatInfo::from_le_bytes_transport(&record[..3]), Ok(Frame::Need(4)));
    assert_eq!(StatInfo::from_le_bytes_transport(&record[..4]), Ok(Frame::Need(16)));
    assert_eq!(StatInfo::from_le_bytes_transport(&record[..15]), Ok(Frame::Need(16)));
    let info = StatInfo { mode: 0o100644, size: 1234, mtime: 1_700_000_000 };
    assert_eq!(StatInfo::from_le_bytes_transport(&record), Ok(Frame::Item(info, 16)));
    assert_eq!(sync_stat_(&record), Ok(info));
    assert_eq!(sync_stat_(&record).unwrap().get_file_type(), FileType::File);
}

#[test]
fn stat_of_a_directory_and_of_nothing() {
    let directory = sync_stat_(&stat_record(0o040771, 4096, 5)).unwrap();
    assert_eq!(directory.get_file_type(), FileType::Directory);
    let absent = sync_stat_(&stat_record(0, 0, 0)).unwrap();
    assert_eq!(absent.get_file_type(), FileType::Other);
}

#[test]
fn failure_in_place_of_the_stat_record_is_the_servers_error() {
    let record = fail_record(b"No such file or directory");
    assert_eq!(StatInfo::from_le_bytes_transport(&record[..4]), Ok(Frame::Need(8)));
    assert_eq!(StatInfo::from_le_bytes_transport(&record[..8]), Ok(Frame::Need(33)));
    assert_eq!(StatInfo::from_le_bytes_transport(&record[..32]), Ok(Frame::Need(33)));
    let expected = AdbTransportError::AdbError("No such file or directory".to_string());
    assert_eq!(StatInfo::from_le_bytes_transport(&record), Err(expected.clone()));
    assert_eq!(sync_stat_(&record), Err(expected.clone()));
    let mut longer = record.clone();
    longer.extend_from_slice(&stat_record(0o100644, 1, 1));
    assert_eq!(sync_stat_(&longer), Err(expected));
}

#[test]
fn failure_message_that_is_not_utf8_is_malformed() {
    let record = fail_record(&[0x80, 0x81]);
    assert_eq!(
        sync_stat_(&record),
        Err(AdbTransportError::InvalidResponse("get_fail_message".to_string(), None))
    );
}

#[test]
fn sentinel_in_place_of_the_stat_record_is_end_of_stream() {
    assert_eq!(StatInfo::from_le_bytes_transport(b"DONE"), Ok(Frame::End(4)));
    assert_eq!(sync_stat_(b"DONE"), Err(AdbTransportError::EOF));
}

#[test]
fn unknown_tag_in_place_of_the_stat_record_is_malformed() {
    let expected = AdbTransportError::InvalidResponse("sync_stat".to_string(), Some("DENT".to_string()));
    assert_eq!(StatInfo::from_le_bytes_transport(b"DENT"), Err(expected.clone()));
    assert_eq!(sync_stat_(b"DENTmore"), Err(expected));
    assert_eq!(
        sync_stat_(&[0xff, 0xff, 0xff, 0xff]),
        Err(AdbTransportError::InvalidResponse("sync_stat".to_string(), None))
    );
}

#[test]
fn stat_reply_that_stops_short_is_malformed() {
    let record = stat_record(0o100644, 1234, 5);
    let expected = AdbTransportError::InvalidResponse("sync_stat".to_string(), Some("short record".to_string()));
    assert_eq!(sync_stat_(&record[..10]), Err(expected.clone()));
    assert_eq!(sync_stat_(b""), Err(expected));
}

#[test]
fn test_stat_non_exist() {
    assert!(stat_request("/sdcard/NON_EXITST_XXXXX").is_ok());
    let stat = sync_stat_(&stat_record(0, 0, 0)).unwrap();
    println!("{:?}", stat.get_file_type());
    assert_eq!(stat.get_file_type(), FileType::Other)
}

#[test]
fn test_stat_dic() {
    assert!(stat_request("/sdcard/Download").is_ok());
    let stat = sync_stat_(&stat_record(0o040771, 4096, 1_700_000_000)).unwrap();
    println!("{:?}", stat.get_file_type());
    assert_eq!(stat.get_file_type(), FileType::Directory)
}

#[test]
fn test_stat_file() {
    assert!(stat_request("/system/build.prop").is_ok());
    let stat = sync_stat_(&stat_record(0o100644, 4321, 1_230_768_000)).unwrap();
    println!("{:?}", stat.get_file_type());
    assert_eq!(stat.get_file_type(), FileType::File)
}
