use transport::result::device::{Device, DeviceState};

#[test]
fn test_devices_l() {
    let raw = r#"List of devices attached
emulator-5554          device product:sdk_phone_x86 model:Android_SDK_built_for_x86 device:generic_x86 transport_id:1
731d5853               device usb:34603008X product:houji model:23127PN0CC device:houji transport_id:5
"#;
    let mut devices: Vec<Device> = vec![];
    raw.split("\n").for_each(|line| {
        let line = line.trim();
        if line.is_empty() {
            return;
        }
        let device = Device::try_from(line).ok();
        println!("{:?}", device);
        if let Some(device) = device {
            devices.push(device);
        }
    });
    assert_eq!(devices.len(), 2);
    assert_eq!(devices[0].serial, "emulator-5554");
    assert_eq!(devices[0].state, DeviceState::Device);
    assert_eq!(devices[0].product, Some("sdk_phone_x86".to_string()));
    assert_eq!(devices[0].model, Some("Android_SDK_built_for_x86".to_string()));
    assert_eq!(devices[0].device, Some("generic_x86".to_string()));
    assert_eq!(devices[0].transport_id, Some(1));
    assert_eq!(devices[1].serial, "731d5853");
    assert_eq!(devices[1].state, DeviceState::Device);
    assert_eq!(devices[1].product, Some("houji".to_string()));
    assert_eq!(devices[1].model, Some("23127PN0CC".to_string()));
    assert_eq!(devices[1].device, Some("houji".to_string()));
    assert_eq!(devices[1].transport_id, Some(5));
}

#[test]
fn test_devices() {
    let raw = r#"
    731d5853	device
    emulator-5554	device"#;
    let mut devices: Vec<Device> = vec![];
    raw.split("\n").for_each(|line| {
        let line = line.trim();
        if line.is_empty() {
            return;
        }
        let device = Device::try_from(line).ok();
        println!("{:?}", device);
        if let Some(device) = device {
            devices.push(device);
        }
    });
    assert_eq!(devices.len(), 2);
    assert_eq!(devices[0].serial, "731d5853");
    assert_eq!(devices[0].state, DeviceState::Device);
}

#[test]
fn long_listing_line_parses_to_every_field() {
    let line = "emulator-5554          device product:sdk_phone_x86 model:Android_SDK_built_for_x86 device:generic_x86 transport_id:1";
    let device = Device::try_from(line).unwrap();
    assert_eq!(
        device,
        Device {
            serial: "emulator-5554".to_string(),
            state: DeviceState::Device,
            product: Some("sdk_phone_x86".to_string()),
            model: Some("Android_SDK_built_for_x86".to_string()),
            device: Some("generic_x86".to_string()),
            devpath: None,
            transport_id: Some(1),
        }
    );
}

#[test]
fn device_path_is_the_token_before_the_keys() {
    let line = "731d5853               device usb:34603008X product:houji model:23127PN0CC device:houji transport_id:5";
    let device = Device::try_from(line).unwrap();
    assert_eq!(device.devpath, Some("usb:34603008X".to_string()));
    assert_eq!(device.product, Some("houji".to_string()));
    assert_eq!(device.transport_id, Some(5));
}

fn all_states() -> Vec<(DeviceState, &'static str)> {
    vec![
        (DeviceState::Connecting, "connecting"),
        (DeviceState::Authorizing, "authorizing"),
        (DeviceState::Unauthorized, "unauthorized"),
        (DeviceState::NoPerm, "noperm"),
        (DeviceState::Detached, "detached"),
        (DeviceState::Offline, "offline"),
        (DeviceState::Bootloader, "bootloader"),
        (DeviceState::Device, "device"),
        (DeviceState::Host, "host"),
        (DeviceState::Recovery, "recovery"),
        (DeviceState::Sideload, "sideload"),
        (DeviceState::Rescue, "rescue"),
    ]
}

#[test]
fn every_state_keyword_round_trips() {
    for (state, keyword) in all_states() {
        assert_eq!(state.to_string(), keyword);
        assert_eq!(DeviceState::parse_device_state(keyword), Some((state, keyword.chars().count())));
        let rendered = state.to_string();
        let (parsed, used) = DeviceState::parse_device_state(&rendered).unwrap();
        assert_eq!(parsed, state);
        assert_eq!(&rendered[..used], keyword);
    }
}

#[test]
fn every_state_is_read_from_a_line() {
    for (state, keyword) in all_states() {
        let line = format!("serial0\t{}", keyword);
        let device = Device::try_from(&line).unwrap();
        assert_eq!(device.serial, "serial0");
        assert_eq!(device.state, state);
        assert_eq!(device.state.to_string(), keyword);
        assert_eq!(device.devpath, None);
        assert_eq!(device.transport_id, None);
    }
}

#[test]
fn state_keyword_is_read_as_a_prefix() {
    assert_eq!(DeviceState::parse_device_state("offline and more"), Some((DeviceState::Offline, 7)));
    assert_eq!(DeviceState::parse_device_state("Device"), None);
    assert_eq!(DeviceState::parse_device_state(""), None);
    assert_eq!(DeviceState::parse_device_state("dev"), None);
}

#[test]
fn lines_outside_the_grammar_are_refused() {
    assert!(Device::try_from("").is_err());
    assert!(Device::try_from("   leading-blank device").is_err());
    assert!(Device::try_from("serial-only").is_err());
    assert!(Device::try_from("serial unknown-state").is_err());
    assert!(Device::try_from("serial\ndevice").is_err());
    assert!(Device::try_from("List of devices attached").is_err());
}

#[test]
fn a_key_counts_at_the_end_of_the_line() {
    let device = Device::try_from("s1 device product:p").unwrap();
    assert_eq!(device.serial, "s1");
    assert_eq!(device.state, DeviceState::Device);
    assert_eq!(device.devpath, None);
    assert_eq!(device.product, Some("p".to_string()));
    assert_eq!(device.model, None);
    assert_eq!(device.device, None);
    assert_eq!(device.transport_id, None);
    let device = Device::try_from("abc device product:p model:m device:d").unwrap();
    assert_eq!(device.product, Some("p".to_string()));
    assert_eq!(device.model, Some("m".to_string()));
    assert_eq!(device.device, Some("d".to_string()));
    let device = Device::try_from("abc device product:p model:m device:d \t").unwrap();
    assert_eq!(device.device, Some("d".to_string()));
    let device = Device::try_from("abc host model:m").unwrap();
    assert_eq!(device.devpath, Some("model:m".to_string()));
    assert_eq!(device.model, None);
}

#[test]
fn a_key_without_a_value_does_not_count() {
    let device = Device::try_from("abc device product: model:m").unwrap();
    assert_eq!(device.product, None);
    assert_eq!(device.model, None);
    let device = Device::try_from("abc device product:p model: device:d").unwrap();
    assert_eq!(device.product, Some("p".to_string()));
    assert_eq!(device.model, None);
    assert_eq!(device.device, None);
}

#[test]
fn keys_are_optional_one_by_one() {
    let device = Device::try_from("abc device product:p device:d transport_id:42").unwrap();
    assert_eq!(device.product, Some("p".to_string()));
    assert_eq!(device.model, None);
    assert_eq!(device.device, Some("d".to_string()));
    assert_eq!(device.transport_id, Some(42));
    let device = Device::try_from("abc recovery transport_id:7").unwrap();
    assert_eq!(device.state, DeviceState::Recovery);
    assert_eq!(device.devpath, Some("transport_id:7".to_string()));
    assert_eq!(device.transport_id, None);
}

#[test]
fn transport_id_must_fit_in_64_bits() {
    let device = Device::try_from("abc device product:p transport_id:18446744073709551615").unwrap();
    assert_eq!(device.transport_id, Some(u64::MAX));
    let device = Device::try_from("abc device product:p transport_id:18446744073709551616").unwrap();
    assert_eq!(device.transport_id, None);
    let device = Device::try_from("abc device product:p transport_id:x").unwrap();
    assert_eq!(device.transport_id, None);
}

#[test]
fn tokens_end_at_any_unicode_white_space() {
    assert!(transport::result::device::is_not_whitespace('a'));
    assert!(transport::result::device::is_not_whitespace(':'));
    for c in ['\t', '\n', '\u{0b}', '\u{0c}', '\r', ' ', '\u{85}', '\u{a0}', '\u{1680}', '\u{2000}', '\u{200a}', '\u{2028}', '\u{2029}', '\u{202f}', '\u{205f}', '\u{3000}'] {
        assert!(c.is_whitespace());
        assert!(!transport::result::device::is_not_whitespace(c));
    }
    for code in 0u32..0x3100 {
        if let Some(c) = char::from_u32(code) {
            assert_eq!(transport::result::device::is_not_whitespace(c), !c.is_whitespace());
        }
    }
}
