use blrec::record::Format;
use blrec::recording::{RecordEvent, RecordFailure, RecordSession, RecordStep};

fn header() -> Vec<u8> {
    vec![0x46, 0x4C, 0x56, 1, 5, 0, 0, 0, 9, 0, 0, 0, 0]
}

fn tag(kind: u8, payload: &[u8]) -> Vec<u8> {
    let n = payload.len() as u8;
    let mut tag = vec![kind, 0, 0, n, 0, 0, 0, 0, 0, 0, 0];
    tag.extend_from_slice(payload);
    tag.extend_from_slice(&[0, 0, 0, n + 11]);
    tag
}

fn opening() -> Vec<u8> {
    [header(), tag(0x12, b"meta"), tag(0x09, b"v"), tag(0x08, b"a")].concat()
}

/// A session that was told to connect for the first time.
fn connecting(format: Format, no_video: bool, no_audio: bool) -> RecordSession {
    let (mut session, step) = RecordSession::new(format, no_video, no_audio);
    assert!(matches!(step, RecordStep::Status));
    assert!(matches!(session.handle(RecordEvent::Status(Some(1))), Some(RecordStep::Open)));
    assert!(matches!(session.handle(RecordEvent::Opened), Some(RecordStep::CheckCancel)));
    connect(&mut session);
    session
}

fn connect(session: &mut RecordSession) {
    assert!(matches!(session.handle(RecordEvent::Running), Some(RecordStep::FetchUrl)));
    match session.handle(RecordEvent::Url(Some("http://cdn/live.flv".to_string()))) {
        Some(RecordStep::Connect(url)) => assert_eq!(url, "http://cdn/live.flv"),
        other => panic!("{other:?}"),
    }
}

fn send(session: &mut RecordSession, data: &[u8]) -> Vec<u8> {
    let out = match session.handle(RecordEvent::Chunk(data)) {
        Some(RecordStep::Write(out)) => out.to_vec(),
        Some(RecordStep::Read) => return Vec::new(),
        other => panic!("{other:?}"),
    };
    assert!(matches!(session.handle(RecordEvent::Written), Some(RecordStep::Read)));
    out
}

#[test]
fn no_output_before_the_stream_is_live() {
    let (mut session, _) = RecordSession::new(Format::Flv, false, false);
    for status in [Some(0), Some(2), None] {
        assert!(matches!(
            session.handle(RecordEvent::Status(status)),
            Some(RecordStep::Sleep(5))
        ));
        assert!(matches!(session.handle(RecordEvent::Rested), Some(RecordStep::Status)));
    }
    assert!(matches!(session.handle(RecordEvent::Status(Some(1))), Some(RecordStep::Open)));
}

#[test]
fn cancelled_while_waiting() {
    let (mut session, _) = RecordSession::new(Format::Mp3, false, false);
    assert!(matches!(
        session.handle(RecordEvent::Cancelled),
        Some(RecordStep::Finish(false))
    ));
    let (mut session, _) = RecordSession::new(Format::Mp3, false, false);
    session.handle(RecordEvent::Status(Some(0)));
    assert!(matches!(
        session.handle(RecordEvent::Cancelled),
        Some(RecordStep::Finish(false))
    ));
    assert!(session.is_over());
}

#[test]
fn output_that_cannot_be_opened() {
    let (mut session, _) = RecordSession::new(Format::Wav, false, false);
    session.handle(RecordEvent::Status(Some(1)));
    match session.handle(RecordEvent::Failed) {
        Some(RecordStep::Fail(failure)) => {
            assert_eq!(failure, RecordFailure::Step);
            assert_eq!(failure.message(), None);
        }
        other => panic!("{other:?}"),
    }
}

#[test]
fn flv_stops_at_once_when_cancelled() {
    let mut session = connecting(Format::Flv, false, false);
    session.handle(RecordEvent::Connected);
    send(&mut session, &opening());
    assert!(matches!(
        session.handle(RecordEvent::Cancelled),
        Some(RecordStep::Finish(true))
    ));
}

#[test]
fn audio_is_finalised_when_cancelled() {
    let mut session = connecting(Format::Flac, false, false);
    assert!(matches!(session.handle(RecordEvent::Cancelled), Some(RecordStep::Finalize)));
    assert!(matches!(
        session.handle(RecordEvent::Finalized),
        Some(RecordStep::Finish(true))
    ));
    assert!(session.is_over());

    let mut session = connecting(Format::Flac, false, false);
    session.handle(RecordEvent::Cancelled);
    assert!(matches!(
        session.handle(RecordEvent::Failed),
        Some(RecordStep::Fail(RecordFailure::Step))
    ));
}

#[test]
fn a_stream_that_ends_is_saved() {
    for (format, status) in [(Format::Wav, Some(0)), (Format::Mp3, None), (Format::Flac, Some(3))] {
        let mut session = connecting(format, false, false);
        assert!(matches!(session.handle(RecordEvent::Closed), Some(RecordStep::Status)));
        assert!(matches!(
            session.handle(RecordEvent::Status(status)),
            Some(RecordStep::Finalize)
        ));
        assert!(matches!(
            session.handle(RecordEvent::Finalized),
            Some(RecordStep::Finish(true))
        ));
    }
    let mut session = connecting(Format::Flv, false, false);
    session.handle(RecordEvent::Connected);
    session.handle(RecordEvent::Lost);
    assert!(matches!(
        session.handle(RecordEvent::Status(Some(0))),
        Some(RecordStep::Finish(true))
    ));
}

#[test]
fn a_looping_stream_goes_on() {
    let mut session = connecting(Format::Mp3, false, false);
    session.handle(RecordEvent::Closed);
    assert!(matches!(
        session.handle(RecordEvent::Status(Some(2))),
        Some(RecordStep::Sleep(1))
    ));
    assert_eq!(session.reconnects(), 1);
    assert!(matches!(session.handle(RecordEvent::Rested), Some(RecordStep::CheckCancel)));
}

#[test]
fn record_a_url_that_cannot_be_had() {
    let start = || {
        let (mut session, _) = RecordSession::new(Format::Mp3, false, false);
        session.handle(RecordEvent::Status(Some(1)));
        session.handle(RecordEvent::Opened);
        session.handle(RecordEvent::Running);
        session
    };
    let mut session = start();
    assert!(matches!(session.handle(RecordEvent::Url(None)), Some(RecordStep::Status)));
    assert!(matches!(
        session.handle(RecordEvent::Status(Some(1))),
        Some(RecordStep::Sleep(3))
    ));
    assert!(matches!(session.handle(RecordEvent::Rested), Some(RecordStep::CheckCancel)));
    assert_eq!(session.reconnects(), 0);

    let mut session = start();
    session.handle(RecordEvent::Url(None));
    assert!(matches!(session.handle(RecordEvent::Status(None)), Some(RecordStep::Finalize)));
    match session.handle(RecordEvent::Finalized) {
        Some(RecordStep::Fail(failure)) => {
            assert_eq!(failure, RecordFailure::EndedWhileFetching);
            assert_eq!(failure.message().unwrap(), "Stream ended while fetching URL");
        }
        other => panic!("{other:?}"),
    }
}

#[test]
fn unreachable_streams_are_tried_again() {
    for format in [Format::Flv, Format::Wav] {
        let mut session = connecting(format, false, false);
        assert!(matches!(
            session.handle(RecordEvent::Unreachable),
            Some(RecordStep::Sleep(1))
        ));
        session.handle(RecordEvent::Rested);
        connect(&mut session);
        assert!(matches!(
            session.handle(RecordEvent::Unreachable),
            Some(RecordStep::Sleep(2))
        ));
    }
}

#[test]
fn a_step_that_fails_ends_the_recording() {
    let mut session = connecting(Format::Wav, false, false);
    assert!(matches!(
        session.handle(RecordEvent::Failed),
        Some(RecordStep::Fail(RecordFailure::Step))
    ));
}

#[test]
fn failed_writes_count_as_reconnects() {
    let mut session = connecting(Format::Flv, false, false);
    session.handle(RecordEvent::Connected);
    assert!(matches!(
        session.handle(RecordEvent::Chunk(&opening())),
        Some(RecordStep::Write(_))
    ));
    assert!(matches!(
        session.handle(RecordEvent::WriteFailed),
        Some(RecordStep::Sleep(1))
    ));
    session.handle(RecordEvent::Rested);
    connect(&mut session);
    session.handle(RecordEvent::Connected);
    assert_eq!(
        send(&mut session, &opening()),
        [tag(0x09, b"v"), tag(0x08, b"a")].concat()
    );
}

#[test]
fn exhausted_reconnects_fail_but_keep_the_recording() {
    for format in [Format::Flv, Format::Mp3] {
        let audio = format.is_audio_only();
        let mut session = connecting(format, false, false);
        let mut pauses = Vec::new();
        for _ in 0..20 {
            if !audio {
                session.handle(RecordEvent::Connected);
            }
            session.handle(RecordEvent::Closed);
            match session.handle(RecordEvent::Status(Some(1))) {
                Some(RecordStep::Sleep(secs)) => pauses.push(secs),
                other => panic!("{other:?}"),
            }
            session.handle(RecordEvent::Rested);
            connect(&mut session);
        }
        assert_eq!(&pauses[..7], &[1, 2, 4, 8, 16, 30, 30]);
        assert_eq!(session.reconnects(), 20);
        if !audio {
            session.handle(RecordEvent::Connected);
        }
        session.handle(RecordEvent::Closed);
        if audio {
            assert!(matches!(
                session.handle(RecordEvent::Status(Some(1))),
                Some(RecordStep::Finalize)
            ));
            match session.handle(RecordEvent::Finalized) {
                Some(RecordStep::Fail(failure)) => {
                    assert_eq!(failure.message().unwrap(), "Too many reconnects (20)");
                }
                other => panic!("{other:?}"),
            }
        } else {
            assert!(matches!(
                session.handle(RecordEvent::Status(Some(1))),
                Some(RecordStep::Fail(RecordFailure::TooManyReconnects))
            ));
        }
        assert!(session.is_over());
        assert!(session.handle(RecordEvent::Rested).is_none());
    }
}

#[test]
fn only_the_kept_tags_are_recorded() {
    let mut session = connecting(Format::Flv, true, false);
    session.handle(RecordEvent::Connected);
    let mut out = send(&mut session, &opening());
    out.extend(send(&mut session, &tag(0x09, b"w")));
    out.extend(send(&mut session, &tag(0x08, b"b")));
    assert_eq!(
        out,
        [header(), tag(0x12, b"meta"), tag(0x08, b"a"), tag(0x08, b"b")].concat()
    );
}

#[test]
fn the_recording_stays_valid_across_a_reconnect() {
    let mut session = connecting(Format::Flv, false, false);
    session.handle(RecordEvent::Connected);
    let mut out = send(&mut session, &opening());
    session.handle(RecordEvent::Closed);
    session.handle(RecordEvent::Status(Some(1)));
    session.handle(RecordEvent::Rested);
    connect(&mut session);
    session.handle(RecordEvent::Connected);
    assert_eq!(send(&mut session, b""), b"");
    out.extend(send(&mut session, &opening()));
    assert_eq!(out, [opening(), tag(0x09, b"v"), tag(0x08, b"a")].concat());
}

#[test]
fn record_headers_stay_if_there_were_none_before() {
    let mut session = connecting(Format::Flv, false, false);
    session.handle(RecordEvent::Unreachable);
    session.handle(RecordEvent::Rested);
    connect(&mut session);
    session.handle(RecordEvent::Connected);
    assert_eq!(send(&mut session, &opening()), opening());
}

#[test]
fn record_events_out_of_place_are_not_taken_in() {
    let mut audio = connecting(Format::Wav, false, false);
    assert!(audio.handle(RecordEvent::Connected).is_none());
    assert!(audio.handle(RecordEvent::Chunk(b"x")).is_none());
    let mut flv = connecting(Format::Flv, false, false);
    assert!(flv.handle(RecordEvent::Closed).is_none());
    assert!(matches!(flv.handle(RecordEvent::Connected), Some(RecordStep::Read)));
}

#[test]
fn cuts_do_not_matter_to_a_recording() {
    let data = [opening(), tag(0x09, b"w"), tag(0x08, b"b")].concat();
    for i in 0..=data.len() {
        let mut session = connecting(Format::Flv, true, false);
        session.handle(RecordEvent::Connected);
        let mut out = send(&mut session, &data[..i]);
        out.extend(send(&mut session, &data[i..]));
        session.handle(RecordEvent::Lost);
        session.handle(RecordEvent::Status(Some(1)));
        session.handle(RecordEvent::Rested);
        connect(&mut session);
        session.handle(RecordEvent::Connected);
        out.extend(send(&mut session, &data[..i]));
        out.extend(send(&mut session, &data[i..]));
        let sound = [tag(0x08, b"a"), tag(0x08, b"b")].concat();
        assert_eq!(out, [header(), tag(0x12, b"meta"), sound.clone(), sound].concat());
    }
}
