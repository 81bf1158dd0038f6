use transport::session::{Endpoint, Exchange, Step, DEFAULT_PORT};
use transport::{AdbCommand, AdbTransportError, AdbTransports, PathError};

fn session() -> AdbTransports {
    AdbTransports::new("/var/run/adb.sock", false).unwrap()
}

#[test]
fn endpoint_is_a_socket_path_or_a_host_and_port() {
    assert_eq!(Endpoint::parse("/var/run/adb.sock"), Ok(Endpoint::Unix("/var/run/adb.sock".to_string())));
    assert_eq!(Endpoint::parse("/"), Ok(Endpoint::Unix("/".to_string())));
    assert_eq!(Endpoint::parse("127.0.0.1:5037"), Ok(Endpoint::Tcp("127.0.0.1".to_string(), 5037)));
    assert_eq!(Endpoint::parse("127.0.0.1"), Ok(Endpoint::Tcp("127.0.0.1".to_string(), 5035)));
    assert_eq!(DEFAULT_PORT, 5035);
    assert_eq!(Endpoint::parse("10.0.0.2:0"), Ok(Endpoint::Tcp("10.0.0.2".to_string(), 0)));
    assert_eq!(Endpoint::parse("10.0.0.2:65535"), Ok(Endpoint::Tcp("10.0.0.2".to_string(), 65535)));
    assert_eq!(Endpoint::parse("10.0.0.2:00080"), Ok(Endpoint::Tcp("10.0.0.2".to_string(), 80)));
}

#[test]
fn endpoint_with_a_bad_port_is_refused() {
    let refused = Err(AdbTransportError::ConversionError("endpoint".to_string()));
    assert_eq!(Endpoint::parse("10.0.0.2:65536"), refused);
    assert_eq!(Endpoint::parse("10.0.0.2:"), refused);
    assert_eq!(Endpoint::parse("10.0.0.2:80:80"), refused);
    assert_eq!(Endpoint::parse("10.0.0.2:http"), refused);
    assert_eq!(Endpoint::parse("10.0.0.2:+80"), refused);
    assert_eq!(Endpoint::parse("10.0.0.2:99999999999999999999999"), refused);
    assert!(AdbTransports::new("host:port", true).is_err());
}

#[test]
fn session_starts_on_a_fresh_connection() {
    let session = AdbTransports::new("/var/run/adb.sock", true).unwrap();
    assert!(!session.serial_set());
    assert!(!session.sync_mode());
    assert!(!session.shell_mode());
    assert!(session.json());
    assert_eq!(session.endpoint(), &Endpoint::Unix("/var/run/adb.sock".to_string()));
    assert!(!AdbTransports::new("localhost:5037", false).unwrap().json());
}

#[test]
fn device_is_selected_once_per_connection() {
    let mut session = session();
    let first = session.may_set_serial(Some("emulator-5554")).unwrap();
    assert_eq!(first.to_string(), "host:transport:emulator-5554");
    assert!(session.serial_set());
    assert!(session.may_set_serial(Some("emulator-5554")).is_none());
    assert!(session.may_set_serial(None).is_none());
    session.new_connection();
    assert!(!session.serial_set());
    let again = session.may_set_serial(None).unwrap();
    assert_eq!(again.to_string(), "host:transport-any");
    assert!(session.may_set_serial(None).is_none());
}

#[test]
fn failed_selection_is_sent_again() {
    let mut session = session();
    assert_eq!(session.may_set_serial(Some("s1")), Some(AdbCommand::TransportSerial("s1".to_string())));
    assert!(session.serial_set());
    session.selection_failed();
    assert!(!session.serial_set());
    assert!(!session.sync_mode());
    assert!(!session.shell_mode());
    assert_eq!(session.may_set_serial(None), Some(AdbCommand::TransportAny));
    let exchange = session.list("/sdcard", Some("s1")).unwrap();
    assert!(exchange.select.is_none());
    session.selection_failed();
    assert!(session.sync_mode());
    assert!(!session.serial_set());
}

#[test]
fn listing_selects_the_device_and_enters_sync_mode() {
    let mut session = session();
    let exchange = session.list("/sdcard", Some("731d5853")).unwrap();
    assert!(!exchange.reconnect);
    assert_eq!(exchange.select, Some(AdbCommand::TransportSerial("731d5853".to_string())));
    assert_eq!(exchange.command, AdbCommand::Sync);
    assert_eq!(exchange.request, b"LIST\x07\x00\x00\x00/sdcard".to_vec());
    assert!(session.serial_set());
    assert!(session.sync_mode());
    assert!(!session.shell_mode());
}

#[test]
fn connection_in_sync_mode_is_made_anew_for_the_next_request() {
    let mut session = session();
    let first = session.sync_stat("/sdcard/a", None).unwrap();
    assert!(!first.reconnect);
    assert_eq!(first.select, Some(AdbCommand::TransportAny));
    assert_eq!(first.request, b"STAT\x09\x00\x00\x00/sdcard/a".to_vec());
    let second = session.list("/sdcard/a", None).unwrap();
    assert!(second.reconnect);
    assert_eq!(second.select, Some(AdbCommand::TransportAny));
    assert_eq!(second.command, AdbCommand::Sync);
    assert!(session.sync_mode());
    let third = session.sync_stat("/sdcard/b", Some("s1")).unwrap();
    assert!(third.reconnect);
    assert_eq!(third.select, Some(AdbCommand::TransportSerial("s1".to_string())));
}

#[test]
fn transfer_of_a_file_starts_on_a_connection_of_its_own() {
    let mut fresh = session();
    let upload = fresh.push(Some("s1"), "/sdcard/b").unwrap();
    assert!(upload.reconnect);
    assert_eq!(upload.select, Some(AdbCommand::TransportSerial("s1".to_string())));
    assert_eq!(upload.command, AdbCommand::Sync);
    assert_eq!(upload.request, b"SEND\x0e\x00\x00\x00/sdcard/b,0644".to_vec());
    assert!(fresh.sync_mode());
    assert!(fresh.serial_set());
    let mut fresh = session();
    let download = fresh.pull(None, "/sdcard/a").unwrap();
    assert!(download.reconnect);
    assert_eq!(download.select, Some(AdbCommand::TransportAny));
    assert_eq!(download.request, b"RECV\x09\x00\x00\x00/sdcard/a".to_vec());
    let mut selected = session();
    assert!(selected.may_set_serial(Some("s1")).is_some());
    let download = selected.pull(Some("s1"), "/sdcard/a").unwrap();
    assert!(download.reconnect);
    assert_eq!(download.select, Some(AdbCommand::TransportSerial("s1".to_string())));
    let again = selected.push(Some("s1"), "/sdcard/a").unwrap();
    assert!(again.reconnect);
    assert_eq!(again.select, Some(AdbCommand::TransportSerial("s1".to_string())));
}

#[test]
fn connection_that_ran_a_command_serves_no_further_request() {
    let mut session = session();
    let first = session.shell(Some("s1"), &vec!["ls".to_string(), "-l".to_string()]);
    assert!(!first.reconnect);
    assert_eq!(first.select, Some(AdbCommand::TransportSerial("s1".to_string())));
    assert_eq!(first.command, AdbCommand::ShellExec("ls -l".to_string()));
    assert!(first.request.is_empty());
    assert!(session.shell_mode());
    assert!(!session.sync_mode());
    let upload = session.push(Some("s1"), "/sdcard/b").unwrap();
    assert!(upload.reconnect);
    assert_eq!(upload.select, Some(AdbCommand::TransportSerial("s1".to_string())));
    assert!(!session.shell_mode());
    assert!(session.sync_mode());
    let second = session.shell(Some("s1"), &vec!["id".to_string()]);
    assert!(second.reconnect);
    assert!(second.select.is_some());
    let third = session.list("/sdcard", Some("s1")).unwrap();
    assert!(third.reconnect);
    assert_eq!(third.select, Some(AdbCommand::TransportSerial("s1".to_string())));
    assert!(!session.shell_mode());
    let fourth = session.mkdir(Some("s1"), "/data/local/tmp/d").unwrap();
    assert!(fourth.reconnect);
    assert!(session.shell_mode());
    assert!(session.devices().reconnect);
    assert!(!session.shell_mode());
}

#[test]
fn selected_device_is_kept_while_the_connection_serves_host_requests() {
    let mut session = session();
    assert!(session.may_set_serial(Some("s1")).is_some());
    let query = session.devices();
    assert!(!query.reconnect);
    assert!(session.serial_set());
    let listing = session.list("/sdcard", Some("s1")).unwrap();
    assert!(!listing.reconnect);
    assert!(listing.select.is_none());
    assert_eq!(
        listing.steps(),
        vec![Step::Request(AdbCommand::Sync), Step::Write(b"LIST\x07\x00\x00\x00/sdcard".to_vec())]
    );
}

#[test]
fn steps_are_taken_in_their_order() {
    let mut session = session();
    let upload = session.push(Some("s1"), "/sdcard/b").unwrap();
    assert_eq!(
        upload.steps(),
        vec![
            Step::Reconnect,
            Step::Select(AdbCommand::TransportSerial("s1".to_string())),
            Step::Request(AdbCommand::Sync),
            Step::Write(b"SEND\x0e\x00\x00\x00/sdcard/b,0644".to_vec()),
        ]
    );
    let mut session = self::session();
    let listing = session.list("/sdcard", None).unwrap();
    assert_eq!(
        listing.steps(),
        vec![
            Step::Select(AdbCommand::TransportAny),
            Step::Request(AdbCommand::Sync),
            Step::Write(b"LIST\x07\x00\x00\x00/sdcard".to_vec()),
        ]
    );
    let command = session.shell(None, &vec!["id".to_string()]);
    assert_eq!(
        command.steps(),
        vec![
            Step::Reconnect,
            Step::Select(AdbCommand::TransportAny),
            Step::Request(AdbCommand::ShellExec("id".to_string())),
        ]
    );
    let mut session = self::session();
    assert_eq!(session.devices_long().steps(), vec![Step::Request(AdbCommand::DevicesLong)]);
    let plain = Exchange {
        reconnect: false,
        select: None,
        command: AdbCommand::Version,
        request: vec![],
    };
    assert_eq!(plain.steps(), vec![Step::Request(AdbCommand::Version)]);
}

#[test]
fn refused_path_leaves_the_session_as_it_was() {
    let mut session = session();
    assert_eq!(session.list("", None).err(), Some(AdbTransportError::InvalidPath(PathError::Empty)));
    assert_eq!(session.pull(None, "a\nb").err(), Some(AdbTransportError::InvalidPath(PathError::Newline)));
    assert_eq!(session.push(None, "a\0b").err(), Some(AdbTransportError::InvalidPath(PathError::NullByte)));
    assert_eq!(
        session.sync_stat(&"x".repeat(2000), None).err(),
        Some(AdbTransportError::InvalidPath(PathError::TooLong))
    );
    assert_eq!(
        session.mkdir(None, "/sdcard/new").err(),
        Some(AdbTransportError::InvalidPath(PathError::OutsideSandbox))
    );
    assert!(!session.serial_set());
    assert!(!session.sync_mode());
    assert!(!session.shell_mode());
}

#[test]
fn directory_is_made_by_a_shell_command() {
    let mut session = session();
    let exchange = session.mkdir(None, "/data/local/tmp/new dir").unwrap();
    assert!(!exchange.reconnect);
    assert_eq!(exchange.select, Some(AdbCommand::TransportAny));
    assert_eq!(exchange.command.to_string(), "shell,raw:mkdir /data/local/tmp/new dir");
    assert!(exchange.request.is_empty());
    assert!(session.serial_set());
    assert!(!session.sync_mode());
    assert!(session.shell_mode());
}

#[test]
fn queries_select_no_device() {
    let mut session = session();
    let short = session.devices();
    assert!(!short.reconnect);
    assert!(short.select.is_none());
    assert_eq!(short.command, AdbCommand::Devices);
    assert!(!session.serial_set());
    let long = session.devices_long();
    assert_eq!(long.command, AdbCommand::DevicesLong);
    assert!(long.request.is_empty());
    session.list("/sdcard", None).unwrap();
    let tracking = session.track_device();
    assert!(tracking.reconnect);
    assert_eq!(tracking.command, AdbCommand::TrackDevices);
    assert!(!session.sync_mode());
    assert!(!session.serial_set());
}
