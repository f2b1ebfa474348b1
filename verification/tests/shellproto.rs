use adb::error::Error;
use adb::shell;
use adb::shell::ShellBuilder;
use adb::shell::ShellInput;
use adb::shell::ShellOutput;

#[test]
fn shell_v2_output_stream() {
    // stdout "hi\n", stderr "err", exit 42, framed as the server would
    let mut wire: Vec<u8> = Vec::new();
    wire.extend_from_slice(&[0x01, 0x03, 0x00, 0x00, 0x00]);
    wire.extend_from_slice(b"hi\n");
    wire.extend_from_slice(&[0x02, 0x03, 0x00, 0x00, 0x00]);
    wire.extend_from_slice(b"err");
    wire.extend_from_slice(&[0x03, 0x01, 0x00, 0x00, 0x00, 0x2a]);

    let (event, pos) = shell::parse_shell_frame(&wire, 0).unwrap();
    assert_eq!(ShellOutput::Stdout(b"hi\n".to_vec()), event);
    let (event, pos) = shell::parse_shell_frame(&wire, pos).unwrap();
    assert_eq!(ShellOutput::Stderr(b"err".to_vec()), event);
    let (event, pos) = shell::parse_shell_frame(&wire, pos).unwrap();
    assert_eq!(ShellOutput::Exit(42), event);

    // the socket is closed after the exit: the next read fails
    assert_eq!(
        Err(Error::UnexpectedData(
            "failed to read shell packet header".to_string()
        )),
        shell::parse_shell_frame(&wire, pos)
    );
}

#[test]
fn shell_v2_bad_exit_length() {
    let wire: &[u8] = &[0x03, 0x02, 0x00, 0x00, 0x00, 0x01, 0x02];
    assert_eq!(
        Err(Error::UnexpectedData(
            "received exit packet with incorrect size: 2".to_string()
        )),
        shell::parse_shell_frame(wire, 0)
    );
}

#[test]
fn shell_v2_rejects_client_ids_and_unknown_ids() {
    let stdin_frame: &[u8] = &[0x00, 0x01, 0x00, 0x00, 0x00, 0x61];
    assert_eq!(
        Err(Error::UnexpectedData(
            "received unexpected Stdin packet from device".to_string()
        )),
        shell::parse_shell_frame(stdin_frame, 0)
    );
    let close_frame: &[u8] = &[0x04, 0x00, 0x00, 0x00, 0x00];
    assert_eq!(
        Err(Error::UnexpectedData(
            "received unexpected CloseStdin packet from device".to_string()
        )),
        shell::parse_shell_frame(close_frame, 0)
    );
    let unknown_frame: &[u8] = &[0x07, 0x00, 0x00, 0x00, 0x00];
    assert_eq!(
        Err(Error::UnexpectedData(
            "received unexpected packet from device: 7".to_string()
        )),
        shell::parse_shell_frame(unknown_frame, 0)
    );
}

#[test]
fn shell_v2_truncated_frames() {
    assert_eq!(
        Err(Error::UnexpectedData(
            "failed to read shell data length".to_string()
        )),
        shell::parse_shell_frame(&[0x01, 0x02], 0)
    );
    assert_eq!(
        Err(Error::UnexpectedData("failed to read shell data".to_string())),
        shell::parse_shell_frame(&[0x01, 0x05, 0x00, 0x00, 0x00, 0x61], 0)
    );
}

#[test]
fn shell_input_framing() {
    assert_eq!(
        vec![0x00, 0x02, 0x00, 0x00, 0x00, b'h', b'i'],
        shell::encode_shell_input(&ShellInput::Stdin(b"hi".to_vec()))
    );
    assert_eq!(
        vec![0x00, 0x00, 0x00, 0x00, 0x00],
        shell::encode_shell_input(&ShellInput::Stdin(Vec::new()))
    );
    assert_eq!(
        vec![0x04, 0x00, 0x00, 0x00, 0x00],
        shell::encode_shell_input(&ShellInput::CloseStdin)
    );
    let resize = ShellInput::WindowSizeChange { rows: 24, cols: 80, xpixels: 0, ypixels: 0 };
    assert_eq!(Vec::<u8>::new(), shell::encode_shell_input(&resize));
}

#[test]
fn raw_shell_events() {
    assert_eq!(
        b"data".to_vec(),
        shell::encode_raw_input(ShellInput::Stdin(b"data".to_vec()))
    );
    assert_eq!(Vec::<u8>::new(), shell::encode_raw_input(ShellInput::CloseStdin));
    let resize = ShellInput::WindowSizeChange { rows: 1, cols: 2, xpixels: 3, ypixels: 4 };
    assert_eq!(Vec::<u8>::new(), shell::encode_raw_input(resize));

    assert_eq!(
        ShellOutput::Stdout(b"out".to_vec()),
        shell::raw_read_event(b"out".to_vec())
    );
    // the raw protocol has no exit code: the end of the stream is a synthetic 1
    assert_eq!(ShellOutput::Exit(1), shell::raw_read_event(Vec::new()));
}

#[test]
fn shell_service_names() {
    let service = ShellBuilder::new()
        .shell_protocol(true)
        .tty(true)
        .term(Some("xterm-256color".to_string()))
        .command(Some(vec!["ls".to_string(), "-l".to_string()]))
        .service_string()
        .unwrap();
    assert_eq!("shell,v2,TERM=xterm-256color,pty:ls -l", service);

    let service = ShellBuilder::new()
        .shell_protocol(true)
        .service_string()
        .unwrap();
    assert_eq!("shell,v2,raw:", service);

    let service = ShellBuilder::new()
        .shell_protocol(true)
        .tty(true)
        .service_string()
        .unwrap();
    assert_eq!("shell,v2,pty:", service);

    let service = ShellBuilder::new()
        .shell_protocol(true)
        .term(Some("xterm".to_string()))
        .service_string()
        .unwrap();
    assert_eq!("shell,v2,raw:", service);

    let service = ShellBuilder::new()
        .shell_protocol(false)
        .command(Some(vec!["echo".to_string(), "hello".to_string()]))
        .service_string()
        .unwrap();
    assert_eq!("shell:echo hello", service);

    let service = ShellBuilder::new().shell_protocol(false).service_string().unwrap();
    assert_eq!("shell:", service);

    assert_eq!(
        Err(Error::UnimplementedOperation(
            "feature detection not implemented yet".to_string()
        )),
        ShellBuilder::new().service_string()
    );
}
