//! What can go wrong with a live stream.

use vstd::prelude::*;
use vstd::string::*;

use crate::text::push_signed;

verus! {

#[derive(Debug)]
pub enum LiveError {
    RoomNotFound,
    NotLive(i32),
    NoStreamUrl,
    AuthFailed(String),
    /// With what the HTTP client says of it.
    Http(String),
    /// With what the system says of it.
    Io(String),
    /// With what FFmpeg says of it.
    Ffmpeg(String),
    Timeout,
    Other(String),
}

impl LiveError {
    /// What the user is told.
    pub open spec fn text(&self) -> Seq<char> {
        match self {
            LiveError::RoomNotFound => "room not found"@,
            LiveError::NotLive(status) => "stream not live (status: "@
                + crate::text::signed_decimal(*status as int) + ")"@,
            LiveError::NoStreamUrl => "no stream URL available"@,
            LiveError::AuthFailed(why) => "auth failed: "@ + why@,
            LiveError::Http(why) => "http request failed: "@ + why@,
            LiveError::Io(why) => "io error: "@ + why@,
            LiveError::Ffmpeg(why) => "ffmpeg error: "@ + why@,
            LiveError::Timeout => "timeout reached"@,
            LiveError::Other(why) => why@,
        }
    }

    /// What the user is told.
    pub fn message(&self) -> (text: String)
        ensures
            text@ == self.text(),
    {
        let mut text = String::new();
        match self {
            LiveError::RoomNotFound => {
                text.append("room not found");
            },
            LiveError::NotLive(status) => {
                text.append("stream not live (status: ");
                push_signed(&mut text, *status as i64);
                text.append(")");
            },
            LiveError::NoStreamUrl => {
                text.append("no stream URL available");
            },
            LiveError::AuthFailed(why) => {
                text.append("auth failed: ");
                text.append(why.as_str());
            },
            LiveError::Http(why) => {
                text.append("http request failed: ");
                text.append(why.as_str());
            },
            LiveError::Io(why) => {
                text.append("io error: ");
                text.append(why.as_str());
            },
            LiveError::Ffmpeg(why) => {
                text.append("ffmpeg error: ");
                text.append(why.as_str());
            },
            LiveError::Timeout => {
                text.append("timeout reached");
            },
            LiveError::Other(why) => {
                text.append(why.as_str());
            },
        }
        assert(text@ =~= self.text());
        text
    }
}

/// What the user is told names the reason that was given, and the status.
pub proof fn law_message_names_the_reason(error: LiveError)
    ensures
        error matches LiveError::NotLive(status) ==> crate::text::tells(
            error.text(),
            crate::text::signed_decimal(status as int),
        ),
        error matches LiveError::AuthFailed(why) ==> crate::text::tells(error.text(), why@),
        error matches LiveError::Http(why) ==> crate::text::tells(error.text(), why@),
        error matches LiveError::Io(why) ==> crate::text::tells(error.text(), why@),
        error matches LiveError::Ffmpeg(why) ==> crate::text::tells(error.text(), why@),
        error matches LiveError::Other(why) ==> error.text() == why@,
{
    match error {
        LiveError::NotLive(status) => {
            crate::text::lemma_tells(
                "stream not live (status: "@,
                crate::text::signed_decimal(status as int),
                ")"@,
            );
        },
        LiveError::AuthFailed(why) => lemma_reason_told("auth failed: "@, why@),
        LiveError::Http(why) => lemma_reason_told("http request failed: "@, why@),
        LiveError::Io(why) => lemma_reason_told("io error: "@, why@),
        LiveError::Ffmpeg(why) => lemma_reason_told("ffmpeg error: "@, why@),
        _ => {},
    }
}

proof fn lemma_reason_told(what: Seq<char>, why: Seq<char>)
    ensures
        crate::text::tells(what + why, why),
{
    let none = Seq::<char>::empty();
    crate::text::lemma_tells(what, why, none);
    assert(what + why + none =~= what + why);
}

} // verus!
