use adb::error::Error;
use adb::socketspec::DialTarget;
use adb::socketspec::SocketSpec;

#[test]
fn parse_tcp_hostless() {
    assert_eq!(
        Some(SocketSpec::Tcp { host: None, port: 5037 }),
        SocketSpec::parse("tcp:5037").ok()
    );
    assert_eq!(None, SocketSpec::parse("tcp:").ok());
    assert_eq!(None, SocketSpec::parse("tcp:-1").ok());
    assert_eq!(None, SocketSpec::parse("tcp:65536").ok());
}

#[test]
fn parse_tcp_with_host() {
    assert_eq!(
        Some(SocketSpec::Tcp {
            host: Some("localhost".into()),
            port: 1234
        }),
        SocketSpec::parse("tcp:localhost:1234").ok()
    );
    assert_eq!(None, SocketSpec::parse("tcp:localhost").ok());
    assert_eq!(None, SocketSpec::parse("tcp:localhost:").ok());
    assert_eq!(None, SocketSpec::parse("tcp:localhost:-1").ok());
    assert_eq!(None, SocketSpec::parse("tcp:localhost:65536").ok());
}

#[test]
fn parse_tcp_ipv6() {
    assert_eq!(
        Some(SocketSpec::Tcp {
            host: Some("[::1]".into()),
            port: 1234
        }),
        SocketSpec::parse("tcp:[::1]:1234").ok()
    );
    assert_eq!(None, SocketSpec::parse("tcp:[::1]").ok());
    assert_eq!(None, SocketSpec::parse("tcp:[::1]:").ok());
    assert_eq!(None, SocketSpec::parse("tcp:[::1]:-1").ok());
    assert_eq!(None, SocketSpec::parse("tcp:::1:-1").ok());
    assert_eq!(None, SocketSpec::parse("tcp:::1:1234").ok());
}

#[test]
fn parse_unix_variants() {
    assert_eq!(
        Some(SocketSpec::UnixAbstract { path: "foo".into() }),
        SocketSpec::parse("localabstract:foo").ok()
    );
    assert_eq!(
        Some(SocketSpec::UnixFilesystem { path: "foo".into() }),
        SocketSpec::parse("local:foo").ok()
    );
    assert_eq!(
        Some(SocketSpec::UnixFilesystem { path: "foo".into() }),
        SocketSpec::parse("localfilesystem:foo").ok()
    );
}

#[test]
fn parse_anything_else_is_invalid() {
    assert_eq!(Err(Error::SocketSpecInvalid), SocketSpec::parse(""));
    assert_eq!(Err(Error::SocketSpecInvalid), SocketSpec::parse("vsock:5"));
    assert_eq!(Err(Error::SocketSpecInvalid), SocketSpec::parse("tcp"));
    assert_eq!(Err(Error::SocketSpecInvalid), SocketSpec::parse("udp:1234"));
    assert_eq!(Err(Error::SocketSpecInvalid), SocketSpec::parse("localreserved:foo"));
}

#[test]
fn format_spellings() {
    assert_eq!("tcp:5037", SocketSpec::tcp(None, 5037).to_str());
    assert_eq!(
        "tcp:localhost:1234",
        SocketSpec::tcp(Some("localhost".into()), 1234).to_str()
    );
    assert_eq!(
        "tcp:[::1]:1234",
        SocketSpec::tcp(Some("[::1]".into()), 1234).to_str()
    );
    assert_eq!(
        "localabstract:foo",
        SocketSpec::unix_abstract("foo".into()).to_str()
    );
    assert_eq!(
        "localfilesystem:foo",
        SocketSpec::unix_filesystem("foo".into()).to_str()
    );
    assert_eq!("vsock:5", SocketSpec::vsock(None, 5).to_str());
    assert_eq!(
        "vsock:2:77",
        SocketSpec::vsock(Some("2".into()), 77).to_str()
    );
}

#[test]
fn format_then_parse_round_trips() {
    let specs = vec![
        SocketSpec::tcp(None, 0),
        SocketSpec::tcp(None, 65535),
        SocketSpec::tcp(Some("localhost".into()), 1234),
        SocketSpec::tcp(Some("[::1]".into()), 5037),
        SocketSpec::unix_abstract("adbd".into()),
        SocketSpec::unix_filesystem("/tmp/sock".into()),
    ];
    for spec in specs {
        assert_eq!(Ok(spec.clone()), SocketSpec::parse(spec.to_str().as_str()));
    }
}

#[test]
fn dial_targets() {
    assert_eq!(
        Ok(DialTarget::Tcp { host: "localhost".into(), port: 5037 }),
        SocketSpec::tcp(Some("localhost".into()), 5037).dial_target()
    );
    assert_eq!(
        Err(Error::SocketSpecMissingHost),
        SocketSpec::tcp(None, 5037).dial_target()
    );
    assert_eq!(
        Ok(DialTarget::Unix { path: "\u{0}adbd".into() }),
        SocketSpec::unix_abstract("adbd".into()).dial_target()
    );
    assert_eq!(
        Ok(DialTarget::Unix { path: "/tmp/sock".into() }),
        SocketSpec::unix_filesystem("/tmp/sock".into()).dial_target()
    );
    assert_eq!(
        Err(Error::SocketSpecUnsupportedType),
        SocketSpec::vsock(None, 5).dial_target()
    );
}
