use blrec::command::{
    check_output_consistency, plan, resolve_format, resolve_listen_addr, AuthAction, Cli,
    CommandError, Commands, Task, QUALITY_DEFAULT,
};
use blrec::record::Format;

fn s(s: &str) -> Option<String> {
    Some(s.to_string())
}

#[test]
fn test_resolve() {
    // No listen, no port → stdout
    assert_eq!(resolve_listen_addr(None, None).unwrap(), None);
    // Port only → default loopback
    assert_eq!(resolve_listen_addr(None, Some(3000)).unwrap(), s("127.0.0.1:3000"));
    // Full addr:port
    assert_eq!(
        resolve_listen_addr(s("127.0.0.1:3000").as_ref(), None).unwrap(),
        s("127.0.0.1:3000")
    );
    // Random port
    assert_eq!(resolve_listen_addr(s("0.0.0.0:0").as_ref(), None).unwrap(), s("0.0.0.0:0"));
    // Host + separate port
    assert_eq!(
        resolve_listen_addr(s("127.0.0.1").as_ref(), Some(3000)).unwrap(),
        s("127.0.0.1:3000")
    );
    // Override port
    assert_eq!(
        resolve_listen_addr(s("127.0.0.1:3000").as_ref(), Some(4000)).unwrap(),
        s("127.0.0.1:4000")
    );
    // IPv6 bracketed
    assert_eq!(resolve_listen_addr(s("[::1]:3000").as_ref(), None).unwrap(), s("[::1]:3000"));
    // IPv6 bracketed + port override
    assert_eq!(
        resolve_listen_addr(s("[::1]:3000").as_ref(), Some(4000)).unwrap(),
        s("[::1]:4000")
    );
    // IPv6 bracketed, no port, -p provides it
    assert_eq!(resolve_listen_addr(s("[::1]").as_ref(), Some(3000)).unwrap(), s("[::1]:3000"));
    // Bare IPv6 + -p
    assert_eq!(resolve_listen_addr(s("::1").as_ref(), Some(3000)).unwrap(), s("[::1]:3000"));
    // Hostname:port
    assert_eq!(
        resolve_listen_addr(s("localhost:3000").as_ref(), None).unwrap(),
        s("localhost:3000")
    );
}

#[test]
fn test_resolve_errors() {
    // No port anywhere
    assert!(resolve_listen_addr(s("127.0.0.1").as_ref(), None).is_err());
    assert!(resolve_listen_addr(s("::1").as_ref(), None).is_err());
    assert!(resolve_listen_addr(s("[::1]").as_ref(), None).is_err());
}

#[test]
fn address_errors_say_what_to_do() {
    let bare = resolve_listen_addr(s("::1").as_ref(), None).unwrap_err();
    assert!(matches!(bare, CommandError::Ipv6WithoutPort(_)));
    assert_eq!(
        bare.message(),
        "IPv6 address '::1' has no port. Use '[::1]:<port>' or --port/-p."
    );
    let host = resolve_listen_addr(s("localhost").as_ref(), None).unwrap_err();
    assert!(matches!(host, CommandError::AddrWithoutPort(_)));
    assert_eq!(
        host.message(),
        "'localhost' has no port. Use 'localhost:<port>' or --port/-p."
    );
}

#[test]
fn a_resolved_address_gives_itself() {
    for (listen, port) in [
        (None, Some(3000)),
        (s("127.0.0.1"), Some(3000)),
        (s("127.0.0.1:3000"), Some(4000)),
        (s("::1"), Some(65535)),
        (s("[::1]"), Some(1)),
        (s(""), Some(80)),
        (s("localhost:3000"), None),
    ] {
        let addr = resolve_listen_addr(listen.as_ref(), port).unwrap();
        assert_eq!(resolve_listen_addr(addr.as_ref(), None).unwrap(), addr);
    }
}

#[test]
fn odd_addresses() {
    // The host ends at the first closing bracket, wherever that stands.
    assert_eq!(resolve_listen_addr(s("[a]:1").as_ref(), Some(2)).unwrap(), s("[a]:2"));
    assert_eq!(resolve_listen_addr(s("a:b]").as_ref(), Some(2)).unwrap(), s("a:b]:2"));
    assert_eq!(resolve_listen_addr(s("[a:b:c").as_ref(), Some(2)).unwrap(), s("[a:b:c:2"));
    assert_eq!(resolve_listen_addr(s(":8080").as_ref(), None).unwrap(), s(":8080"));
    assert_eq!(resolve_listen_addr(s("").as_ref(), Some(0)).unwrap(), s(":0"));
    assert!(resolve_listen_addr(s("").as_ref(), None).is_err());
}

#[test]
fn format_from_option_or_extension() {
    assert_eq!(resolve_format(Some("mp3"), None).unwrap(), Format::Mp3);
    assert_eq!(resolve_format(Some("flv"), Some("a.flv")).unwrap(), Format::Flv);
    assert_eq!(resolve_format(Some("wav"), Some("a.txt")).unwrap(), Format::Wav);
    assert_eq!(resolve_format(None, Some("dir.mp3/my_stream.flv")).unwrap(), Format::Flv);
    assert_eq!(resolve_format(None, Some("x.flac")).unwrap(), Format::Flac);
}

#[test]
fn format_errors() {
    let unsupported = resolve_format(Some("ogg"), None).unwrap_err();
    assert_eq!(unsupported.message(), "unsupported format: ogg");
    let unknown = resolve_format(None, Some("noext")).unwrap_err();
    assert_eq!(
        unknown.message(),
        "Must specify either -f/--format or -o with a recognised extension (wav, mp3, flac, flv)"
    );
    assert!(matches!(resolve_format(None, None), Err(CommandError::UnknownFormat)));
    let mismatch = resolve_format(Some("wav"), Some("a.mp3")).unwrap_err();
    assert_eq!(mismatch.message(), "Format mismatch: -f wav but output extension is .mp3");
    assert!(check_output_consistency(Format::Mp3, Some("a.mp3")).is_ok());
    assert!(check_output_consistency(Format::Mp3, Some("a.wav")).is_err());
}

fn pipe(listen: Option<String>, port: Option<u16>) -> Cli {
    Cli {
        verbose: false,
        command: Commands::Pipe {
            room_id: 12345,
            quality: QUALITY_DEFAULT,
            timeout: Some(60),
            listen,
            port,
        },
    }
}

#[test]
fn plans() {
    assert!(matches!(
        plan(pipe(None, None)),
        Ok(Task::Pipe { room_id: 12345, quality: 150, timeout: Some(60), bind_addr: None })
    ));
    match plan(pipe(None, Some(3000))) {
        Ok(Task::Pipe { bind_addr, .. }) => assert_eq!(bind_addr, s("127.0.0.1:3000")),
        other => panic!("{other:?}"),
    }
    assert!(plan(pipe(s("::1"), None)).is_err());

    let record = |format: Option<String>, output: Option<String>| Cli {
        verbose: false,
        command: Commands::Record {
            room_id: 7,
            format,
            output,
            quality: 10000,
            timeout: None,
            no_video: true,
            no_audio: false,
        },
    };
    match plan(record(None, s("my_stream.flv"))) {
        Ok(Task::Record {
            room_id,
            format,
            output,
            quality,
            timeout,
            no_video,
            no_audio,
        }) => {
            assert_eq!((room_id, format, quality, timeout), (7, Format::Flv, 10000, None));
            assert_eq!(output, s("my_stream.flv"));
            assert!(no_video && !no_audio);
        }
        other => panic!("{other:?}"),
    }
    assert!(matches!(plan(record(None, None)), Err(CommandError::UnknownFormat)));
    assert!(matches!(
        plan(record(s("mp3"), s("a.wav"))),
        Err(CommandError::FormatMismatch { .. })
    ));

    let auth = Cli { verbose: true, command: Commands::Auth { action: AuthAction::Logout } };
    assert!(matches!(plan(auth), Ok(Task::Auth(AuthAction::Logout))));
}

#[test]
fn port_option_wins() {
    for host in ["127.0.0.1", "localhost", "", "[::1]", "[a:b]", "[]"] {
        let expected = s(&format!("{host}:4000"));
        assert_eq!(resolve_listen_addr(s(host).as_ref(), Some(4000)).unwrap(), expected);
        for own in ["0", "3000", "65535"] {
            let addr = s(&format!("{host}:{own}"));
            assert_eq!(resolve_listen_addr(addr.as_ref(), Some(4000)).unwrap(), expected);
        }
    }
    assert_eq!(
        resolve_listen_addr(s("fe80::1").as_ref(), Some(1)).unwrap(),
        resolve_listen_addr(s("[fe80::1]").as_ref(), Some(1)).unwrap()
    );
}
