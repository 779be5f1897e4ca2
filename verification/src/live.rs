//! Rooms and their streams: what the answers of the web API mean.

use vstd::prelude::*;
use vstd::string::*;

use crate::reconnect::POLL_SECS;
use crate::response::{
    PlayCodec, PlayFormat, PlayStream, PlayUrlResp, RoomInfoResp, RoomInitResp, RoomPlayInfoResp,
};
use crate::text::{join3, push_signed, same};

verus! {

/// Why an answer of the web API is of no use.
#[derive(Debug, Clone, Copy, PartialEq, Eq, Structural)]
pub enum AnswerError {
    /// There is no such room.
    RoomNotFound(i32),
    /// The state of the room is not told.
    NoRoomInfo(i32),
    /// The modern API refused.
    NoPlayInfo(i32),
    /// The modern API knows no stream that can be read.
    NoFlvStream,
    /// The legacy API refused.
    NoPlayUrl(i32),
    /// The legacy API knows no stream.
    NoStreamUrls,
}

impl AnswerError {
    /// What the user is told.
    pub open spec fn text(&self) -> Seq<char> {
        match self {
            AnswerError::RoomNotFound(code) => with_code("Room not found"@, *code),
            AnswerError::NoRoomInfo(code) => with_code("Failed to get room info"@, *code),
            AnswerError::NoPlayInfo(code) => with_code("getRoomPlayInfo failed"@, *code),
            AnswerError::NoFlvStream => "No playable FLV stream found in modern API response"@,
            AnswerError::NoPlayUrl(code) => with_code("playUrl failed"@, *code),
            AnswerError::NoStreamUrls => "No stream URLs in legacy API response"@,
        }
    }

    /// What the user is told.
    pub fn message(&self) -> (text: String)
        ensures
            text@ == self.text(),
    {
        match self {
            AnswerError::RoomNotFound(code) => code_message("Room not found", *code),
            AnswerError::NoRoomInfo(code) => code_message("Failed to get room info", *code),
            AnswerError::NoPlayInfo(code) => code_message("getRoomPlayInfo failed", *code),
            AnswerError::NoFlvStream => {
                "No playable FLV stream found in modern API response".to_owned()
            },
            AnswerError::NoPlayUrl(code) => code_message("playUrl failed", *code),
            AnswerError::NoStreamUrls => "No stream URLs in legacy API response".to_owned(),
        }
    }
}

/// A message with the code that the API gave.
pub open spec fn with_code(what: Seq<char>, code: i32) -> Seq<char> {
    what + " (code="@ + crate::text::signed_decimal(code as int) + ")"@
}

fn code_message(what: &str, code: i32) -> (text: String)
    ensures
        text@ == with_code(what@, code),
{
    let mut text = String::new();
    text.append(what);
    text.append(" (code=");
    push_signed(&mut text, code as i64);
    text.append(")");
    assert(text@ =~= with_code(what@, code));
    text
}

/// What an answer of the API is worth: what it tells if its code is 0, and else nothing.
pub open spec fn told<T>(code: i32, value: T) -> Option<T> {
    if code == 0 {
        Some(value)
    } else {
        None
    }
}

/// What an answer tells is taken as it is, whatever it is, if and only if its code is 0.
pub proof fn law_answer_is_taken_as_it_is<T>(code: i32, value: T)
    ensures
        told(0, value) == Some(value),
        told(code, value) is Some <==> code == 0,
{
}

/// Resolve a short room ID to the real (long) room ID.
pub fn resolve_room_id(resp: &RoomInitResp) -> (r: Result<i64, AnswerError>)
    ensures
        r == (if resp.code != 0 {
            Err(AnswerError::RoomNotFound(resp.code))
        } else {
            Ok(resp.data.room_id)
        }),
        told(resp.code, resp.data.room_id) == (match r {
            Ok(value) => Some(value),
            Err(_) => None,
        }),
{
    if resp.code != 0 {
        return Err(AnswerError::RoomNotFound(resp.code));
    }
    Ok(resp.data.room_id)
}

/// Get live status: 0 = offline, 1 = live, 2 = looping.
pub fn get_live_status(resp: &RoomInfoResp) -> (r: Result<i32, AnswerError>)
    ensures
        r == (if resp.code != 0 {
            Err(AnswerError::NoRoomInfo(resp.code))
        } else {
            Ok(resp.data.live_status)
        }),
        told(resp.code, resp.data.live_status) == (match r {
            Ok(value) => Some(value),
            Err(_) => None,
        }),
{
    if resp.code != 0 {
        return Err(AnswerError::NoRoomInfo(resp.code));
    }
    Ok(resp.data.live_status)
}

/// What a look at the live status leads to while a stream is waited for.
#[derive(Debug, Clone, Copy, PartialEq, Eq, Structural)]
pub enum Wait {
    /// The stream is live.
    Live,
    /// Look again after this many seconds.
    Sleep(u64),
}

/// Whether a stream that is waited for has begun.
pub open spec fn has_begun(status: Option<i32>) -> bool {
    status == Some(1i32)
}

/// A stream has begun at status 1, and at no other; looping is not live, and a status
/// that could not be learnt is not either.
pub proof fn law_stream_begins_at_status_one(status: i32)
    ensures
        has_begun(Some(1i32)),
        status != 1 ==> !has_begun(Some(status)),
        !has_begun(None),
{
}

/// Poll until the streamer goes live (status == 1). A status that could not be
/// learnt is waited out like any other.
pub fn wait_for_live(status: Option<i32>) -> (r: Wait)
    ensures
        r == (if status == Some(1i32) {
            Wait::Live
        } else {
            Wait::Sleep(POLL_SECS)
        }),
        has_begun(status) <==> r == Wait::Live,
{
    if status == Some(1i32) {
        Wait::Live
    } else {
        Wait::Sleep(POLL_SECS)
    }
}

/// The URL at the first of these codecs that has one: host, base and extra of its
/// first server.
pub open spec fn codec_url(codecs: Seq<PlayCodec>) -> Option<Seq<char>>
    decreases codecs.len(),
{
    if codecs.len() == 0 {
        None
    } else if codecs[0].url_info@.len() > 0 {
        Some(codecs[0].url_info@[0].host@ + codecs[0].base_url@ + codecs[0].url_info@[0].extra@)
    } else {
        codec_url(codecs.skip(1))
    }
}

/// The URL at the first of these formats that is FLV and has one.
pub open spec fn format_url(formats: Seq<PlayFormat>) -> Option<Seq<char>>
    decreases formats.len(),
{
    if formats.len() == 0 {
        None
    } else if formats[0].format_name@ == "flv"@ && codec_url(formats[0].codec@) is Some {
        codec_url(formats[0].codec@)
    } else {
        format_url(formats.skip(1))
    }
}

/// The URL at the first of these streams that goes over HTTP and has one.
pub open spec fn stream_url(streams: Seq<PlayStream>) -> Option<Seq<char>>
    decreases streams.len(),
{
    if streams.len() == 0 {
        None
    } else if streams[0].protocol_name@ == "http_stream"@ && format_url(streams[0].format@)
        is Some {
        format_url(streams[0].format@)
    } else {
        stream_url(streams.skip(1))
    }
}

fn find_codec_url(codecs: &Vec<PlayCodec>) -> (url: Option<String>)
    ensures
        url is Some == codec_url(codecs@) is Some,
        url matches Some(u) ==> codec_url(codecs@) == Some(u@),
{
    let mut i: usize = 0;
    assert(codecs@.skip(0) =~= codecs@);
    while i < codecs.len()
        invariant
            i <= codecs@.len(),
            codec_url(codecs@) == codec_url(codecs@.skip(i as int)),
        decreases codecs@.len() - i,
    {
        let codec = &codecs[i];
        if codec.url_info.len() > 0 {
            let server = &codec.url_info[0];
            return Some(
                join3(server.host.as_str(), codec.base_url.as_str(), server.extra.as_str()),
            );
        }
        assert(codecs@.skip(i as int).skip(1) =~= codecs@.skip(i + 1));
        i += 1;
    }
    None
}

fn find_format_url(formats: &Vec<PlayFormat>) -> (url: Option<String>)
    ensures
        url is Some == format_url(formats@) is Some,
        url matches Some(u) ==> format_url(formats@) == Some(u@),
{
    let mut i: usize = 0;
    assert(formats@.skip(0) =~= formats@);
    while i < formats.len()
        invariant
            i <= formats@.len(),
            format_url(formats@) == format_url(formats@.skip(i as int)),
        decreases formats@.len() - i,
    {
        let format = &formats[i];
        if same(format.format_name.as_str(), "flv") {
            let url = find_codec_url(&format.codec);
            if url.is_some() {
                return url;
            }
        }
        assert(formats@.skip(i as int).skip(1) =~= formats@.skip(i + 1));
        i += 1;
    }
    None
}

fn find_stream_url(streams: &Vec<PlayStream>) -> (url: Option<String>)
    ensures
        url is Some == stream_url(streams@) is Some,
        url matches Some(u) ==> stream_url(streams@) == Some(u@),
{
    let mut i: usize = 0;
    assert(streams@.skip(0) =~= streams@);
    while i < streams.len()
        invariant
            i <= streams@.len(),
            stream_url(streams@) == stream_url(streams@.skip(i as int)),
        decreases streams@.len() - i,
    {
        let stream = &streams[i];
        if same(stream.protocol_name.as_str(), "http_stream") {
            let url = find_format_url(&stream.format);
            if url.is_some() {
                return url;
            }
        }
        assert(streams@.skip(i as int).skip(1) =~= streams@.skip(i + 1));
        i += 1;
    }
    None
}

/// The HTTP-FLV stream URL in an answer of the modern API.
pub fn get_stream_url_modern(resp: &RoomPlayInfoResp) -> (r: Result<String, AnswerError>)
    ensures
        match r {
            Ok(url) => resp.code == 0 && stream_url(resp.data.playurl_info.playurl.stream@) == Some(
                url@,
            ),
            Err(error) => if resp.code != 0 {
                error == AnswerError::NoPlayInfo(resp.code)
            } else {
                error == AnswerError::NoFlvStream && stream_url(
                    resp.data.playurl_info.playurl.stream@,
                ) is None
            },
        },
{
    if resp.code != 0 {
        return Err(AnswerError::NoPlayInfo(resp.code));
    }
    match find_stream_url(&resp.data.playurl_info.playurl.stream) {
        Some(url) => Ok(url),
        None => Err(AnswerError::NoFlvStream),
    }
}

/// The URLs of an answer of the legacy API.
pub open spec fn urls(durl: Seq<crate::response::Durl>) -> Seq<Seq<char>> {
    durl.map_values(|d: crate::response::Durl| d.url@)
}

/// The stream URL in an answer of the legacy API, by its code and the URLs that it holds.
pub open spec fn legacy_url(code: i32, urls: Seq<Seq<char>>) -> Option<Seq<char>> {
    if code == 0 && urls.len() > 0 {
        Some(urls[0])
    } else {
        None
    }
}

/// Of the URLs that the legacy API gives, the first is taken, whole, and what follows it
/// does not matter.
pub proof fn law_first_legacy_url_is_taken(code: i32, url: Seq<char>, more: Seq<Seq<char>>)
    ensures
        legacy_url(0, seq![url] + more) == Some(url),
        code != 0 ==> legacy_url(code, more) is None,
        legacy_url(code, Seq::empty()) is None,
{
}

/// The HTTP-FLV stream URL in an answer of the legacy API.
pub fn get_stream_url_legacy(resp: &PlayUrlResp) -> (r: Result<String, AnswerError>)
    ensures
        match r {
            Ok(url) => resp.code == 0 && resp.data.durl@.len() > 0 && url@
                == resp.data.durl@[0].url@,
            Err(error) => if resp.code != 0 {
                error == AnswerError::NoPlayUrl(resp.code)
            } else {
                error == AnswerError::NoStreamUrls && resp.data.durl@.len() == 0
            },
        },
        legacy_url(resp.code, urls(resp.data.durl@)) == (match r {
            Ok(url) => Some(url@),
            Err(_) => None,
        }),
{
    if resp.code != 0 {
        return Err(AnswerError::NoPlayUrl(resp.code));
    }
    if resp.data.durl.len() > 0 {
        Ok(resp.data.durl[0].url.as_str().to_owned())
    } else {
        Err(AnswerError::NoStreamUrls)
    }
}

/// Where the stream URL of a room comes from.
#[derive(Debug)]
pub enum UrlSource {
    /// The modern API gave this URL.
    Modern(String),
    /// The legacy API has to be asked.
    AskLegacy,
}

/// The URL that the answer of the modern API settles on, or `None` where the legacy API
/// has to be asked.
pub open spec fn settled(modern: Option<Seq<char>>) -> Option<Seq<char>> {
    match modern {
        Some(url) => if url.len() > 0 {
            Some(url)
        } else {
            None
        },
        None => None,
    }
}

/// A URL of the modern API is taken as it is; the legacy API is asked if and only if
/// there is none, or an empty one.
pub proof fn law_modern_url_comes_first(url: Seq<char>)
    ensures
        url.len() > 0 ==> settled(Some(url)) == Some(url),
        settled(Some(Seq::empty())) is None,
        settled(None) is None,
{
}

/// Get the HTTP-FLV stream URL for a room.
/// Tries the modern API first, falls back to the legacy API where that gave no
/// URL or an empty one.
pub fn get_stream_url(modern: Option<String>) -> (r: UrlSource)
    ensures
        match modern {
            Some(url) => if url@.len() > 0 {
                r == UrlSource::Modern(url)
            } else {
                r == UrlSource::AskLegacy
            },
            None => r == UrlSource::AskLegacy,
        },
        settled(
            match modern {
                Some(url) => Some(url@),
                None => None,
            },
        ) == (match r {
            UrlSource::Modern(url) => Some(url@),
            UrlSource::AskLegacy => None,
        }),
{
    match modern {
        Some(url) => if url.as_str().unicode_len() > 0 {
            UrlSource::Modern(url)
        } else {
            UrlSource::AskLegacy
        },
        None => UrlSource::AskLegacy,
    }
}

/// A codec of these streams that can be read: one with a server, in FLV, over HTTP.
pub open spec fn is_playable(streams: Seq<PlayStream>, s: int, f: int, c: int) -> bool {
    &&& 0 <= s < streams.len()
    &&& streams[s].protocol_name@ == "http_stream"@
    &&& 0 <= f < streams[s].format@.len()
    &&& streams[s].format@[f].format_name@ == "flv"@
    &&& 0 <= c < streams[s].format@[f].codec@.len()
    &&& streams[s].format@[f].codec@[c].url_info@.len() > 0
}

proof fn lemma_codec_url(codecs: Seq<PlayCodec>, c: int)
    requires
        0 <= c < codecs.len(),
        codecs[c].url_info@.len() > 0,
    ensures
        codec_url(codecs) is Some,
    decreases codecs.len(),
{
    if codecs[0].url_info@.len() == 0 {
        assert(codecs.skip(1)[c - 1] == codecs[c]);
        lemma_codec_url(codecs.skip(1), c - 1);
    }
}

proof fn lemma_format_url(formats: Seq<PlayFormat>, f: int)
    requires
        0 <= f < formats.len(),
        formats[f].format_name@ == "flv"@,
        codec_url(formats[f].codec@) is Some,
    ensures
        format_url(formats) is Some,
    decreases formats.len(),
{
    if f > 0 {
        assert(formats.skip(1)[f - 1] == formats[f]);
        lemma_format_url(formats.skip(1), f - 1);
    }
}

proof fn lemma_stream_url(streams: Seq<PlayStream>, s: int)
    requires
        0 <= s < streams.len(),
        streams[s].protocol_name@ == "http_stream"@,
        format_url(streams[s].format@) is Some,
    ensures
        stream_url(streams) is Some,
    decreases streams.len(),
{
    if s > 0 {
        assert(streams.skip(1)[s - 1] == streams[s]);
        lemma_stream_url(streams.skip(1), s - 1);
    }
}

/// Wherever a stream can be read, a URL is found.
pub proof fn law_playable_stream_is_found(streams: Seq<PlayStream>, s: int, f: int, c: int)
    requires
        is_playable(streams, s, f, c),
    ensures
        stream_url(streams) is Some,
{
    let formats = streams[s].format@;
    lemma_codec_url(formats[f].codec@, c);
    lemma_format_url(formats, f);
    lemma_stream_url(streams, s);
}

proof fn lemma_codec_found(codecs: Seq<PlayCodec>) -> (c: int)
    requires
        codec_url(codecs) is Some,
    ensures
        0 <= c < codecs.len(),
        codecs[c].url_info@.len() > 0,
        codec_url(codecs) == Some(
            codecs[c].url_info@[0].host@ + codecs[c].base_url@ + codecs[c].url_info@[0].extra@,
        ),
    decreases codecs.len(),
{
    if codecs[0].url_info@.len() > 0 {
        0
    } else {
        1 + lemma_codec_found(codecs.skip(1))
    }
}

proof fn lemma_format_found(formats: Seq<PlayFormat>) -> (f: int)
    requires
        format_url(formats) is Some,
    ensures
        0 <= f < formats.len(),
        formats[f].format_name@ == "flv"@,
        codec_url(formats[f].codec@) == format_url(formats),
    decreases formats.len(),
{
    if formats[0].format_name@ == "flv"@ && codec_url(formats[0].codec@) is Some {
        0
    } else {
        1 + lemma_format_found(formats.skip(1))
    }
}

proof fn lemma_stream_found(streams: Seq<PlayStream>) -> (s: int)
    requires
        stream_url(streams) is Some,
    ensures
        0 <= s < streams.len(),
        streams[s].protocol_name@ == "http_stream"@,
        format_url(streams[s].format@) == stream_url(streams),
    decreases streams.len(),
{
    if streams[0].protocol_name@ == "http_stream"@ && format_url(streams[0].format@) is Some {
        0
    } else {
        1 + lemma_stream_found(streams.skip(1))
    }
}

/// A URL that is found is that of a stream that can be read.
pub proof fn law_found_url_is_playable(streams: Seq<PlayStream>)
    requires
        stream_url(streams) is Some,
    ensures
        exists|s: int, f: int, c: int|
            is_playable(streams, s, f, c) && stream_url(streams) == Some(
                (#[trigger] streams[s].format@[f].codec@[c]).url_info@[0].host@
                    + streams[s].format@[f].codec@[c].base_url@
                    + streams[s].format@[f].codec@[c].url_info@[0].extra@,
            ),
{
    let s = lemma_stream_found(streams);
    let f = lemma_format_found(streams[s].format@);
    let c = lemma_codec_found(streams[s].format@[f].codec@);
    assert(is_playable(streams, s, f, c));
    let codec = streams[s].format@[f].codec@[c];
    assert(stream_url(streams) == Some(
        codec.url_info@[0].host@ + codec.base_url@ + codec.url_info@[0].extra@,
    ));
}

proof fn lemma_codec_first(codecs: Seq<PlayCodec>, c: int)
    requires
        0 <= c < codecs.len(),
        codecs[c].url_info@.len() > 0,
        forall|k: int| 0 <= k < c ==> (#[trigger] codecs[k]).url_info@.len() == 0,
    ensures
        codec_url(codecs) == Some(
            codecs[c].url_info@[0].host@ + codecs[c].base_url@ + codecs[c].url_info@[0].extra@,
        ),
    decreases codecs.len(),
{
    if c > 0 {
        let rest = codecs.skip(1);
        assert(codecs[0].url_info@.len() == 0);
        assert(rest[c - 1] == codecs[c]);
        assert forall|k: int| 0 <= k < c - 1 implies (#[trigger] rest[k]).url_info@.len() == 0 by {
            assert(codecs[k + 1].url_info@.len() == 0);
        }
        lemma_codec_first(rest, c - 1);
    }
}

proof fn lemma_format_first(formats: Seq<PlayFormat>, f: int)
    requires
        0 <= f < formats.len(),
        formats[f].format_name@ == "flv"@,
        codec_url(formats[f].codec@) is Some,
        forall|k: int|
            0 <= k < f ==> !((#[trigger] formats[k]).format_name@ == "flv"@ && codec_url(
                formats[k].codec@,
            ) is Some),
    ensures
        format_url(formats) == codec_url(formats[f].codec@),
    decreases formats.len(),
{
    if f > 0 {
        let rest = formats.skip(1);
        assert(!(formats[0].format_name@ == "flv"@ && codec_url(formats[0].codec@) is Some));
        assert(rest[f - 1] == formats[f]);
        assert forall|k: int| 0 <= k < f - 1 implies !((#[trigger] rest[k]).format_name@ == "flv"@
            && codec_url(rest[k].codec@) is Some) by {
            assert(rest[k] == formats[k + 1]);
        }
        lemma_format_first(rest, f - 1);
    }
}

proof fn lemma_stream_first(streams: Seq<PlayStream>, s: int)
    requires
        0 <= s < streams.len(),
        streams[s].protocol_name@ == "http_stream"@,
        format_url(streams[s].format@) is Some,
        forall|k: int|
            0 <= k < s ==> !((#[trigger] streams[k]).protocol_name@ == "http_stream"@
                && format_url(streams[k].format@) is Some),
    ensures
        stream_url(streams) == format_url(streams[s].format@),
    decreases streams.len(),
{
    if s > 0 {
        let rest = streams.skip(1);
        assert(!(streams[0].protocol_name@ == "http_stream"@ && format_url(streams[0].format@)
            is Some));
        assert(rest[s - 1] == streams[s]);
        assert forall|k: int| 0 <= k < s - 1 implies !((#[trigger] rest[k]).protocol_name@
            == "http_stream"@ && format_url(rest[k].format@) is Some) by {
            assert(rest[k] == streams[k + 1]);
        }
        lemma_stream_first(rest, s - 1);
    }
}

/// Whether one codec comes before another: in an earlier stream, or in an earlier
/// format of the same stream, or earlier in the same format.
pub open spec fn comes_before(s: int, f: int, c: int, t: int, g: int, d: int) -> bool {
    s < t || s == t && (f < g || f == g && c < d)
}

/// The URL is that of the first codec that can be read: its host, its base and its
/// extra part, each whole and in this order.
pub proof fn law_first_playable_stream_is_taken(streams: Seq<PlayStream>, s: int, f: int, c: int)
    requires
        is_playable(streams, s, f, c),
        forall|t: int, g: int, d: int|
            comes_before(t, g, d, s, f, c) ==> !#[trigger] is_playable(streams, t, g, d),
    ensures
        stream_url(streams) == Some(
            streams[s].format@[f].codec@[c].url_info@[0].host@
                + streams[s].format@[f].codec@[c].base_url@
                + streams[s].format@[f].codec@[c].url_info@[0].extra@,
        ),
{
    let formats = streams[s].format@;
    let codecs = formats[f].codec@;
    assert forall|k: int| 0 <= k < c implies (#[trigger] codecs[k]).url_info@.len() == 0 by {
        assert(comes_before(s, f, k, s, f, c));
        assert(!is_playable(streams, s, f, k));
    }
    lemma_codec_first(codecs, c);
    assert forall|k: int| 0 <= k < f implies !((#[trigger] formats[k]).format_name@ == "flv"@
        && codec_url(formats[k].codec@) is Some) by {
        if formats[k].format_name@ == "flv"@ && codec_url(formats[k].codec@) is Some {
            let d = lemma_codec_found(formats[k].codec@);
            assert(comes_before(s, k, d, s, f, c));
            assert(!is_playable(streams, s, k, d));
        }
    }
    lemma_format_first(formats, f);
    assert forall|k: int| 0 <= k < s implies !((#[trigger] streams[k]).protocol_name@
        == "http_stream"@ && format_url(streams[k].format@) is Some) by {
        if streams[k].protocol_name@ == "http_stream"@ && format_url(streams[k].format@) is Some {
            let g = lemma_format_found(streams[k].format@);
            let d = lemma_codec_found(streams[k].format@[g].codec@);
            assert(comes_before(k, g, d, s, f, c));
            assert(!is_playable(streams, k, g, d));
        }
    }
    lemma_stream_first(streams, s);
}

/// What the user is told names the code that the API gave.
pub proof fn law_refusal_names_the_code(error: AnswerError)
    ensures
        (error matches AnswerError::RoomNotFound(code) ==> crate::text::tells(
            error.text(),
            crate::text::signed_decimal(code as int),
        )),
        (error matches AnswerError::NoRoomInfo(code) ==> crate::text::tells(
            error.text(),
            crate::text::signed_decimal(code as int),
        )),
        (error matches AnswerError::NoPlayInfo(code) ==> crate::text::tells(
            error.text(),
            crate::text::signed_decimal(code as int),
        )),
        (error matches AnswerError::NoPlayUrl(code) ==> crate::text::tells(
            error.text(),
            crate::text::signed_decimal(code as int),
        )),
{
    match error {
        AnswerError::RoomNotFound(code) => lemma_code_told("Room not found"@, code),
        AnswerError::NoRoomInfo(code) => lemma_code_told("Failed to get room info"@, code),
        AnswerError::NoPlayInfo(code) => lemma_code_told("getRoomPlayInfo failed"@, code),
        AnswerError::NoPlayUrl(code) => lemma_code_told("playUrl failed"@, code),
        _ => {},
    }
}

proof fn lemma_code_told(what: Seq<char>, code: i32)
    ensures
        crate::text::tells(with_code(what, code), crate::text::signed_decimal(code as int)),
{
    crate::text::lemma_tells(
        what + " (code="@,
        crate::text::signed_decimal(code as int),
        ")"@,
    );
}

} // verus!
