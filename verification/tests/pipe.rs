use blrec::pipe::{
    listen, serve, ClientEvent, ClientStep, ListenEvent, ListenStep, MetadataBuffer, PipeError,
    PipeEvent, PipeSession, PipeStep, METADATA_LIMIT,
};

fn header() -> Vec<u8> {
    vec![0x46, 0x4C, 0x56, 1, 5, 0, 0, 0, 9, 0, 0, 0, 0]
}

fn tag(kind: u8, payload: &[u8]) -> Vec<u8> {
    let n = payload.len() as u8;
    let mut tag = vec![kind, 0, 0, n, 0, 0, 0, 0, 0, 0, 0];
    tag.extend_from_slice(payload);
    tag.extend_from_slice(&[0, 0, 0, n + 11]);
    tag
}

fn opening() -> Vec<u8> {
    [header(), tag(0x12, b"meta"), tag(0x09, b"v")].concat()
}

/// A session that reads its first connection.
fn reading() -> PipeSession {
    let (mut session, step) = PipeSession::new();
    assert!(matches!(step, PipeStep::Status));
    assert!(matches!(session.handle(PipeEvent::Status(Some(1))), Some(PipeStep::FetchUrl)));
    connect(&mut session);
    session
}

fn connect(session: &mut PipeSession) {
    match session.handle(PipeEvent::Url(Some("http://cdn/live.flv".to_string()))) {
        Some(PipeStep::Connect(url)) => assert_eq!(url, "http://cdn/live.flv"),
        other => panic!("{other:?}"),
    }
    assert!(matches!(session.handle(PipeEvent::Answered(200)), Some(PipeStep::Read(5))));
}

fn send(session: &mut PipeSession, data: &[u8]) -> Vec<u8> {
    let out = match session.handle(PipeEvent::Chunk(data)) {
        Some(PipeStep::Write(out)) => out.to_vec(),
        Some(PipeStep::Read(5)) => return Vec::new(),
        other => panic!("{other:?}"),
    };
    assert!(matches!(session.handle(PipeEvent::Written), Some(PipeStep::Read(5))));
    out
}

#[test]
fn waits_until_live() {
    let (mut session, _) = PipeSession::new();
    for status in [Some(0), Some(2), None] {
        assert!(matches!(session.handle(PipeEvent::Status(status)), Some(PipeStep::Sleep(5))));
        assert!(matches!(session.handle(PipeEvent::Rested), Some(PipeStep::Status)));
    }
    assert!(matches!(session.handle(PipeEvent::Status(Some(1))), Some(PipeStep::FetchUrl)));
}

#[test]
fn a_stream_known_to_be_live() {
    let (mut session, step) = PipeSession::live();
    assert!(matches!(step, PipeStep::FetchUrl));
    connect(&mut session);
    assert_eq!(send(&mut session, &opening()), opening());
}

#[test]
fn a_url_that_cannot_be_had() {
    let (mut session, _) = PipeSession::new();
    session.handle(PipeEvent::Status(Some(1)));
    for status in [Some(1), Some(2), None] {
        assert!(matches!(session.handle(PipeEvent::Url(None)), Some(PipeStep::Status)));
        assert!(matches!(session.handle(PipeEvent::Status(status)), Some(PipeStep::Sleep(3))));
        assert!(matches!(session.handle(PipeEvent::Rested), Some(PipeStep::FetchUrl)));
    }
    session.handle(PipeEvent::Url(None));
    assert!(matches!(session.handle(PipeEvent::Status(Some(0))), Some(PipeStep::Finish)));
    assert!(session.is_over());
}

#[test]
fn a_server_that_refuses_is_asked_again() {
    let (mut session, _) = PipeSession::new();
    session.handle(PipeEvent::Status(Some(1)));
    for event in [
        PipeEvent::Answered(404),
        PipeEvent::Answered(199),
        PipeEvent::Answered(300),
        PipeEvent::Unreachable,
    ] {
        session.handle(PipeEvent::Url(Some("u".to_string())));
        assert!(matches!(session.handle(event), Some(PipeStep::Sleep(3))));
        assert!(matches!(session.handle(PipeEvent::Rested), Some(PipeStep::FetchUrl)));
    }
    assert_eq!(session.reconnects(), 0);
    session.handle(PipeEvent::Url(Some("u".to_string())));
    assert!(matches!(session.handle(PipeEvent::Answered(299)), Some(PipeStep::Read(5))));
}

#[test]
fn status_is_looked_at_while_reading() {
    let mut session = reading();
    for status in [Some(1), Some(2), None] {
        assert!(matches!(session.handle(PipeEvent::Tick), Some(PipeStep::Status)));
        assert!(matches!(session.handle(PipeEvent::Status(status)), Some(PipeStep::Read(5))));
    }
    session.handle(PipeEvent::Tick);
    assert!(matches!(session.handle(PipeEvent::Status(Some(0))), Some(PipeStep::Finish)));
}

#[test]
fn writing_ends_the_session() {
    let mut session = reading();
    session.handle(PipeEvent::Chunk(b"x"));
    assert!(matches!(session.handle(PipeEvent::BrokenPipe), Some(PipeStep::Finish)));
    let mut session = reading();
    session.handle(PipeEvent::Chunk(b"x"));
    assert!(matches!(
        session.handle(PipeEvent::WriteFailed),
        Some(PipeStep::Fail(PipeError::Output))
    ));
}

#[test]
fn the_stream_stays_valid_across_a_reconnect() {
    let mut session = reading();
    let mut out = send(&mut session, &opening());
    out.extend(send(&mut session, &tag(0x08, b"a")));
    assert!(matches!(session.handle(PipeEvent::Closed), Some(PipeStep::Status)));
    assert!(matches!(session.handle(PipeEvent::Status(Some(1))), Some(PipeStep::Sleep(1))));
    assert!(matches!(session.handle(PipeEvent::Rested), Some(PipeStep::FetchUrl)));
    connect(&mut session);
    assert_eq!(send(&mut session, b""), b"");
    out.extend(send(&mut session, &opening()));
    out.extend(send(&mut session, &tag(0x08, b"b")));
    let expected =
        [opening(), tag(0x08, b"a"), tag(0x09, b"v"), tag(0x08, b"b")].concat();
    assert_eq!(out, expected);
}

#[test]
fn headers_stay_if_there_were_none_before() {
    let mut session = reading();
    session.handle(PipeEvent::Lost);
    session.handle(PipeEvent::Status(None));
    session.handle(PipeEvent::Rested);
    connect(&mut session);
    assert_eq!(send(&mut session, &opening()), opening());
}

#[test]
fn nothing_is_written_of_headers_alone() {
    let mut session = reading();
    send(&mut session, &opening());
    session.handle(PipeEvent::Lost);
    session.handle(PipeEvent::Status(Some(1)));
    session.handle(PipeEvent::Rested);
    connect(&mut session);
    assert!(matches!(session.handle(PipeEvent::Chunk(&header())), Some(PipeStep::Read(5))));
}

#[test]
fn reconnects_back_off_and_end() {
    let mut session = reading();
    let mut pauses = Vec::new();
    for n in 1..=20 {
        let event = if n % 2 == 0 { PipeEvent::Lost } else { PipeEvent::Closed };
        assert!(matches!(session.handle(event), Some(PipeStep::Status)));
        assert_eq!(session.reconnects(), n);
        match session.handle(PipeEvent::Status(None)) {
            Some(PipeStep::Sleep(secs)) => pauses.push(secs),
            other => panic!("{other:?}"),
        }
        session.handle(PipeEvent::Rested);
        connect(&mut session);
    }
    assert_eq!(&pauses[..7], &[1, 2, 4, 8, 16, 30, 30]);
    assert!(pauses[6..].iter().all(|secs| *secs == 30));
    assert!(matches!(
        session.handle(PipeEvent::Closed),
        Some(PipeStep::Fail(PipeError::TooManyReconnects))
    ));
    assert!(session.is_over());
    assert!(session.handle(PipeEvent::Status(Some(1))).is_none());
}

#[test]
fn offline_after_a_lost_connection() {
    let mut session = reading();
    session.handle(PipeEvent::Lost);
    assert!(matches!(session.handle(PipeEvent::Status(Some(0))), Some(PipeStep::Finish)));
}

#[test]
fn events_out_of_place_are_not_taken_in() {
    let (mut session, _) = PipeSession::new();
    assert!(session.handle(PipeEvent::Rested).is_none());
    assert!(session.handle(PipeEvent::Chunk(b"x")).is_none());
    assert!(matches!(session.handle(PipeEvent::Status(Some(1))), Some(PipeStep::FetchUrl)));
}

#[test]
fn metadata_opens_the_stream() {
    let mut metadata = MetadataBuffer::new();
    assert!(metadata.snapshot().is_empty());
    let chunk = vec![7u8; 40000];
    assert!(!metadata.offer(&chunk));
    assert_eq!(metadata.snapshot(), chunk);
    assert!(!metadata.is_done());
    // Of the chunk that reaches the limit, no more is taken than there is room for.
    assert!(metadata.offer(&[8u8; 40000]));
    assert!(metadata.is_done());
    let expected = [chunk, vec![8u8; METADATA_LIMIT - 40000]].concat();
    assert_eq!(metadata.snapshot(), expected);
    assert!(!metadata.offer(&[9u8; 10]));
    assert_eq!(metadata.snapshot(), expected);

    let mut long = MetadataBuffer::new();
    assert!(long.offer(&vec![1; METADATA_LIMIT + 1]));
    assert_eq!(long.snapshot(), vec![1; METADATA_LIMIT]);

    let mut exact = MetadataBuffer::new();
    assert!(!exact.offer(&vec![0; METADATA_LIMIT - 1]));
    assert!(exact.offer(&[1]));
}

#[test]
fn clients() {
    assert!(matches!(serve(ClientEvent::Joined(vec![])), ClientStep::Receive));
    match serve(ClientEvent::Joined(vec![1, 2])) {
        ClientStep::Write(bytes) => assert_eq!(bytes, vec![1, 2]),
        other => panic!("{other:?}"),
    }
    match serve(ClientEvent::Received(vec![3])) {
        ClientStep::Write(bytes) => assert_eq!(bytes, vec![3]),
        other => panic!("{other:?}"),
    }
    assert!(matches!(serve(ClientEvent::Written), ClientStep::Receive));
    assert!(matches!(serve(ClientEvent::Lagged), ClientStep::Receive));
    assert!(matches!(serve(ClientEvent::Closed), ClientStep::Stop));
    assert!(matches!(serve(ClientEvent::WriteFailed), ClientStep::Stop));
}

#[test]
fn a_client_gets_the_opening_and_then_every_chunk() {
    let mut sent = Vec::new();
    for event in [
        ClientEvent::Joined(vec![1, 2]),
        ClientEvent::Written,
        ClientEvent::Received(vec![3]),
        ClientEvent::Written,
        ClientEvent::Lagged,
        ClientEvent::Received(vec![4, 5]),
        ClientEvent::Written,
        ClientEvent::Closed,
    ] {
        if let ClientStep::Write(bytes) = serve(event) {
            sent.extend(bytes);
        }
    }
    assert_eq!(sent, vec![1, 2, 3, 4, 5]);
}

#[test]
fn listeners() {
    assert_eq!(listen(ListenEvent::Accepted), ListenStep::Serve);
    assert_eq!(listen(ListenEvent::AcceptFailed), ListenStep::Finish);
    assert_eq!(listen(ListenEvent::FeedEnded), ListenStep::Finish);
    assert_eq!(listen(ListenEvent::FeedFailed), ListenStep::Fail);
}

#[test]
fn cuts_do_not_matter_to_a_reconnect() {
    let data = [opening(), tag(0x12, b"cue"), tag(0x08, b"b")].concat();
    let expected =
        [opening(), tag(0x09, b"v"), tag(0x12, b"cue"), tag(0x08, b"b")].concat();
    for i in 0..=data.len() {
        let mut session = reading();
        let mut out = send(&mut session, &opening());
        session.handle(PipeEvent::Lost);
        session.handle(PipeEvent::Status(Some(1)));
        session.handle(PipeEvent::Rested);
        connect(&mut session);
        out.extend(send(&mut session, &data[..i]));
        out.extend(send(&mut session, &data[i..]));
        assert_eq!(out, expected);
    }
}
