use adb::client;
use adb::client::Remote;
use adb::error::Error;
use adb::framing;
use adb::host::DeviceCriteria;
use adb::host::DeviceType;
use adb::host::TransportId;
use adb::host::TransportType;
use adb::socketspec::SocketSpec;

#[test]
fn hex_prefixed_framing_lengths() {
    for len in [0usize, 1, 255, 4096, 65535] {
        let payload = vec![0x61u8; len];
        let framed = framing::encode_hex_prefixed(&payload);
        let mut expected = format!("{:04x}", len).into_bytes();
        expected.extend_from_slice(&payload);
        assert_eq!(expected, framed);
    }
}

#[test]
fn status_words() {
    assert_eq!(Ok(4), framing::expect_okay(b"OKAY", 0));
    assert_eq!(
        Err(Error::ServiceError("oops".to_string())),
        framing::expect_okay(b"FAIL0004oops", 0)
    );
    assert_eq!(
        Err(Error::UnexpectedData(
            "expected OKAY or FAIL, got MEOW".to_string()
        )),
        framing::expect_okay(b"MEOWrest", 0)
    );
    // a truncated reply is an I/O failure, not a protocol one
    assert_eq!(
        Err(Error::IoError("unexpected end of stream".to_string())),
        framing::expect_okay(b"OK", 0)
    );
    // a malformed length prefix after FAIL
    assert_eq!(
        Err(Error::UnexpectedData("invalid hex length prefix".to_string())),
        framing::expect_okay(b"FAILxyzw", 0)
    );
}

#[test]
fn fail_message_bytes_are_decoded_tolerantly() {
    // 0xff cannot begin a UTF-8 sequence: from_utf8_lossy replaces it
    let resp: &[u8] = &[b'F', b'A', b'I', b'L', b'0', b'0', b'0', b'2', 0xff, b'x'];
    match framing::expect_okay(resp, 0) {
        Err(Error::ServiceError(msg)) => assert_eq!("\u{FFFD}x", msg),
        other => panic!("expected a service error, got {:?}", other),
    }
}

#[test]
fn version_request_and_reply() {
    let request = client::service_request_bytes("host:version").unwrap();
    assert_eq!(b"000chost:version".to_vec(), request);
    assert_eq!(Ok(41), client::parse_version_response(b"OKAY00040029"));
}

#[test]
fn version_reply_must_be_hex() {
    assert_eq!(
        Err(Error::UnexpectedData("invalid version received 'zz'".to_string())),
        client::parse_version_response(b"OKAY0002zz")
    );
    assert_eq!(
        Err(Error::IoError("unexpected end of stream".to_string())),
        client::parse_version_response(b"OKAY0004002")
    );
}

#[test]
fn devices_long_happy_path() {
    let request = client::service_request_bytes("host:devices-l").unwrap();
    assert_eq!(b"000ehost:devices-l".to_vec(), request);

    let body = "emulator-5554        device product:sdk_gphone_x86 model:Android_SDK_built_for_x86 device:generic_x86 transport_id:1\n01234567             unauthorized transport_id:2\n";
    let mut resp = b"OKAY".to_vec();
    resp.extend_from_slice(format!("{:04x}", body.len()).as_bytes());
    resp.extend_from_slice(body.as_bytes());

    let devices = client::parse_devices_response(&resp).unwrap();
    assert_eq!(2, devices.len());

    assert_eq!("emulator-5554", devices[0].serial);
    assert_eq!(TransportId(1), devices[0].id);
    assert_eq!(TransportType::Online(DeviceType::Device), devices[0].transport_type);
    // with no device path on the line, the first token reads as the path
    assert_eq!(Some("product:sdk_gphone_x86".to_string()), devices[0].device_path);
    assert_eq!(None, devices[0].product);
    assert_eq!(
        Some("Android_SDK_built_for_x86".to_string()),
        devices[0].model
    );
    assert_eq!(Some("generic_x86".to_string()), devices[0].device);

    assert_eq!("01234567", devices[1].serial);
    assert_eq!(TransportId(2), devices[1].id);
    assert_eq!(TransportType::Unauthorized, devices[1].transport_type);
    assert_eq!(None, devices[1].device_path);
    assert_eq!(None, devices[1].product);
    assert_eq!(None, devices[1].model);
    assert_eq!(None, devices[1].device);
}

#[test]
fn device_line_with_device_path_fills_every_attribute() {
    let line = "0123456789ABCDEF     device usb:1-1 product:blueline model:Pixel_3 device:blueline transport_id:3";
    let d = adb::devices::parse_device_line(line).unwrap();
    assert_eq!("0123456789ABCDEF", d.serial);
    assert_eq!(TransportId(3), d.id);
    assert_eq!(TransportType::Online(DeviceType::Device), d.transport_type);
    assert_eq!(Some("usb:1-1".to_string()), d.device_path);
    assert_eq!(Some("blueline".to_string()), d.product);
    assert_eq!(Some("Pixel_3".to_string()), d.model);
    assert_eq!(Some("blueline".to_string()), d.device);
}

#[test]
fn device_line_no_permissions() {
    let line = "abcd no permissions; see [http://developer.android.com/tools/device.html] transport_id:7";
    let d = adb::devices::parse_device_line(line).unwrap();
    assert_eq!("abcd", d.serial);
    assert_eq!(TransportId(7), d.id);
    assert_eq!(TransportType::NoPermissions, d.transport_type);
    assert_eq!(None, d.device_path);
    assert_eq!(None, d.product);
    assert_eq!(None, d.model);
    assert_eq!(None, d.device);
}

#[test]
fn device_list_rejects_unknown_state() {
    let err = adb::devices::parse_device_list("abcd sleeping transport_id:9").unwrap_err();
    assert_eq!(
        Error::UnexpectedData(
            "failed to parse device type from device line 'abcd sleeping transport_id:9'"
                .to_string()
        ),
        err
    );
}

#[test]
fn device_list_rejects_missing_transport_id() {
    let err = adb::devices::parse_device_list("abcd device").unwrap_err();
    assert_eq!(
        Error::UnexpectedData(
            "transport_id missing in device line: 'abcd device'".to_string()
        ),
        err
    );
    let err = adb::devices::parse_device_list("nospacehere").unwrap_err();
    assert_eq!(
        Error::UnexpectedData("invalid device line: 'nospacehere'".to_string()),
        err
    );
    let err = adb::devices::parse_device_list("abcd device transport_id:twelve").unwrap_err();
    assert_eq!(
        Error::UnexpectedData(
            "invalid transport id in device line: 'abcd device transport_id:twelve'".to_string()
        ),
        err
    );
}

#[test]
fn device_list_skips_empty_lines_and_keeps_order() {
    let body = "\n\na offline transport_id:1\n\nb unauthorized transport_id:2\n\n";
    let devices = adb::devices::parse_device_list(body).unwrap();
    assert_eq!(2, devices.len());
    assert_eq!("a", devices[0].serial);
    assert_eq!(TransportType::Offline, devices[0].transport_type);
    assert_eq!("b", devices[1].serial);
    assert_eq!(TransportType::Unauthorized, devices[1].transport_type);
}

#[test]
fn selector_strings() {
    assert_eq!(
        ("host:tport:any".to_string(), true),
        client::selector_string(&DeviceCriteria::Any)
    );
    assert_eq!(
        ("host:tport:usb".to_string(), true),
        client::selector_string(&DeviceCriteria::Usb)
    );
    assert_eq!(
        ("host:tport:tcp".to_string(), true),
        client::selector_string(&DeviceCriteria::Tcp)
    );
    assert_eq!(
        ("host:tport:serial:emulator-5554".to_string(), true),
        client::selector_string(&DeviceCriteria::Serial("emulator-5554".to_string()))
    );
    assert_eq!(
        ("host:transport-id:19".to_string(), false),
        client::selector_string(&DeviceCriteria::TransportId(TransportId(19)))
    );
}

#[test]
fn tport_handshake() {
    // select the usb device
    let (selector, acks_id) = client::selector_string(&DeviceCriteria::Usb);
    assert!(acks_id);
    let request = client::service_request_bytes(&selector).unwrap();
    assert_eq!(b"000ehost:tport:usb".to_vec(), request);

    // the server says OKAY and acknowledges with the resolved id
    let mut resp = b"OKAY".to_vec();
    resp.extend_from_slice(&[0x01, 0, 0, 0, 0, 0, 0, 0]);
    let (id, pos) = client::parse_tport_response(&resp).unwrap();
    assert_eq!(TransportId(1), id);
    assert_eq!(12, pos);

    // the target service follows on the same channel
    let service = client::service_request_bytes("shell").unwrap();
    assert_eq!(b"0005shell".to_vec(), service);
    resp.extend_from_slice(b"OKAY");
    assert_eq!(Ok(16), framing::expect_okay(&resp, pos));
}

#[test]
fn transport_id_is_little_endian() {
    let mut resp = b"OKAY".to_vec();
    resp.extend_from_slice(&[0x88, 0x77, 0x66, 0x55, 0x44, 0x33, 0x22, 0x11]);
    let (id, _) = client::parse_tport_response(&resp).unwrap();
    assert_eq!(TransportId(0x1122334455667788), id);
}

#[test]
fn remote_holds_its_socket_spec() {
    let remote = Remote::new(SocketSpec::tcp(Some("localhost".into()), 5037));
    assert_eq!(
        &SocketSpec::Tcp { host: Some("localhost".into()), port: 5037 },
        remote.socket_spec()
    );
    let by_default = Remote::default();
    assert_eq!(
        &SocketSpec::Tcp { host: Some("127.0.0.1".into()), port: 5037 },
        by_default.socket_spec()
    );
}

#[test]
fn wire_spellings() {
    assert_eq!("bootloader", DeviceType::Bootloader.to_str());
    assert_eq!("device", DeviceType::Device.to_str());
    assert_eq!("host", DeviceType::Host.to_str());
    assert_eq!("recovery", DeviceType::Recovery.to_str());
    assert_eq!("rescue", DeviceType::Rescue.to_str());
    assert_eq!("sideload", DeviceType::Sideload.to_str());
    assert_eq!("offline", TransportType::Offline.to_str());
    assert_eq!("no permissions", TransportType::NoPermissions.to_str());
    assert_eq!("unauthorized", TransportType::Unauthorized.to_str());
    assert_eq!("authorizing", TransportType::Authorizing.to_str());
    assert_eq!("connecting", TransportType::Connecting.to_str());
    assert_eq!("sideload", TransportType::Online(DeviceType::Sideload).to_str());
}

#[test]
fn oversize_service_names_are_refused() {
    let long = "x".repeat(0x10000);
    assert_eq!(
        Err(Error::UnexpectedData("service name too long".to_string())),
        client::service_request_bytes(&long)
    );
}
