use blrec::error::LiveError;
use blrec::live::{
    get_live_status, get_stream_url, get_stream_url_legacy, get_stream_url_modern,
    resolve_room_id, wait_for_live, AnswerError, UrlSource, Wait,
};
use blrec::payload::{PlayUrlPayload, RoomPlayInfoPayload};
use blrec::response::{
    Durl, PlayCodec, PlayFormat, PlayStream, PlayUrl, PlayUrlData, PlayUrlInfo, PlayUrlResp,
    RoomInfoData, RoomInfoResp, RoomInitData, RoomInitResp, RoomPlayInfoData, RoomPlayInfoResp,
    UrlInfo,
};

#[test]
fn rooms() {
    let resp = |code| RoomInitResp { code, data: RoomInitData { room_id: 21452505 } };
    assert_eq!(resolve_room_id(&resp(0)), Ok(21452505));
    assert_eq!(resolve_room_id(&resp(60004)), Err(AnswerError::RoomNotFound(60004)));
    assert_eq!(
        AnswerError::RoomNotFound(60004).message(),
        "Room not found (code=60004)"
    );
}

#[test]
fn live_status() {
    let resp = |code, live_status| RoomInfoResp { code, data: RoomInfoData { live_status } };
    assert_eq!(get_live_status(&resp(0, 2)), Ok(2));
    assert_eq!(get_live_status(&resp(-1, 1)), Err(AnswerError::NoRoomInfo(-1)));
    assert_eq!(
        AnswerError::NoRoomInfo(-1).message(),
        "Failed to get room info (code=-1)"
    );
}

#[test]
fn waiting_for_a_stream() {
    assert_eq!(wait_for_live(Some(1)), Wait::Live);
    for status in [Some(0), Some(2), Some(-1), None] {
        assert_eq!(wait_for_live(status), Wait::Sleep(5));
    }
}

fn codec(base: &str, servers: &[(&str, &str)]) -> PlayCodec {
    PlayCodec {
        base_url: base.to_string(),
        url_info: servers
            .iter()
            .map(|(host, extra)| UrlInfo { host: host.to_string(), extra: extra.to_string() })
            .collect(),
    }
}

fn format(name: &str, codec: Vec<PlayCodec>) -> PlayFormat {
    PlayFormat { format_name: name.to_string(), codec }
}

fn stream(name: &str, format: Vec<PlayFormat>) -> PlayStream {
    PlayStream { protocol_name: name.to_string(), format }
}

fn play_info(code: i32, stream: Vec<PlayStream>) -> RoomPlayInfoResp {
    RoomPlayInfoResp {
        code,
        data: RoomPlayInfoData { playurl_info: PlayUrlInfo { playurl: PlayUrl { stream } } },
    }
}

#[test]
fn modern_urls() {
    let streams = vec![
        stream("http_hls", vec![format("flv", vec![codec("/no", &[("h", "e")])])]),
        stream(
            "http_stream",
            vec![
                format("ts", vec![codec("/no", &[("h", "e")])]),
                format("flv", vec![codec("/none", &[])]),
                format(
                    "flv",
                    vec![
                        codec("/none", &[]),
                        codec("/live.flv?", &[("https://a", "x=1"), ("https://b", "x=2")]),
                    ],
                ),
            ],
        ),
        stream("http_stream", vec![format("flv", vec![codec("/later", &[("h", "e")])])]),
    ];
    assert_eq!(
        get_stream_url_modern(&play_info(0, streams)).unwrap(),
        "https://a/live.flv?x=1"
    );
    assert_eq!(
        get_stream_url_modern(&play_info(0, vec![])),
        Err(AnswerError::NoFlvStream)
    );
    assert_eq!(
        get_stream_url_modern(&play_info(
            0,
            vec![stream("http_stream", vec![format("flv", vec![codec("/x", &[])])])]
        )),
        Err(AnswerError::NoFlvStream)
    );
    assert_eq!(
        get_stream_url_modern(&play_info(-400, vec![])),
        Err(AnswerError::NoPlayInfo(-400))
    );
    assert_eq!(
        AnswerError::NoFlvStream.message(),
        "No playable FLV stream found in modern API response"
    );
    assert_eq!(
        AnswerError::NoPlayInfo(-400).message(),
        "getRoomPlayInfo failed (code=-400)"
    );
}

#[test]
fn legacy_urls() {
    let resp = |code, urls: &[&str]| PlayUrlResp {
        code,
        data: PlayUrlData { durl: urls.iter().map(|url| Durl { url: url.to_string() }).collect() },
    };
    assert_eq!(get_stream_url_legacy(&resp(0, &["u1", "u2"])).unwrap(), "u1");
    assert_eq!(get_stream_url_legacy(&resp(0, &[])), Err(AnswerError::NoStreamUrls));
    assert_eq!(get_stream_url_legacy(&resp(3, &["u1"])), Err(AnswerError::NoPlayUrl(3)));
    assert_eq!(AnswerError::NoPlayUrl(3).message(), "playUrl failed (code=3)");
    assert_eq!(
        AnswerError::NoStreamUrls.message(),
        "No stream URLs in legacy API response"
    );
}

#[test]
fn modern_before_legacy() {
    match get_stream_url(Some("u".to_string())) {
        UrlSource::Modern(url) => assert_eq!(url, "u"),
        other => panic!("{other:?}"),
    }
    assert!(matches!(get_stream_url(Some(String::new())), UrlSource::AskLegacy));
    assert!(matches!(get_stream_url(None), UrlSource::AskLegacy));
}

#[test]
fn payloads() {
    let modern = RoomPlayInfoPayload::new(7, 150);
    assert_eq!((modern.room_id, modern.qn), (7, 150));
    assert_eq!(
        [modern.protocol, modern.format, modern.codec, modern.platform],
        ["0", "0", "0", "web"]
    );
    let legacy = PlayUrlPayload::new(7, 10000);
    assert_eq!((legacy.cid, legacy.platform.as_str(), legacy.quality), (7, "web", 10000));
}

#[test]
fn error_messages() {
    let why = || "why".to_string();
    for (error, message) in [
        (LiveError::RoomNotFound, "room not found"),
        (LiveError::NotLive(-2), "stream not live (status: -2)"),
        (LiveError::NoStreamUrl, "no stream URL available"),
        (LiveError::AuthFailed(why()), "auth failed: why"),
        (LiveError::Http(why()), "http request failed: why"),
        (LiveError::Io(why()), "io error: why"),
        (LiveError::Ffmpeg(why()), "ffmpeg error: why"),
        (LiveError::Timeout, "timeout reached"),
        (LiveError::Other(why()), "why"),
    ] {
        assert_eq!(error.message(), message);
    }
}
