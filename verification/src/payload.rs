//! What the web API is asked.

use vstd::prelude::*;

verus! {

/// Asks for a login QR code.
#[derive(Debug)]
pub struct QrPayload;

/// Asks for the state of a login by QR code.
#[derive(Debug)]
pub struct QrPollPayload {
    pub qrcode_key: String,
}

/// Asks who is logged in.
#[derive(Debug)]
pub struct NavPayload;

/// Asks to be logged out.
#[allow(non_snake_case)]
#[derive(Debug)]
pub struct LogoutPayload {
    pub biliCSRF: String,
}

/// Asks for the real ID of a room.
#[derive(Debug)]
pub struct RoomInitPayload {
    pub id: i64,
}

/// Asks for the state of a room.
#[derive(Debug)]
pub struct RoomInfoPayload {
    pub room_id: i64,
}

/// Asks the legacy API for stream URLs.
#[derive(Debug)]
pub struct PlayUrlPayload {
    pub cid: i64,
    pub platform: String,
    pub quality: u32,
}

/// Asks the modern API for streams.
#[derive(Debug)]
pub struct RoomPlayInfoPayload {
    pub room_id: i64,
    pub protocol: String,
    pub format: String,
    pub codec: String,
    pub qn: u32,
    pub platform: String,
}

impl PlayUrlPayload {
    /// Asks for the stream URLs of a room in this quality.
    pub fn new(real_room_id: i64, qn: u32) -> (r: Self)
        ensures
            r.cid == real_room_id,
            r.platform@ == "web"@,
            r.quality == qn,
    {
        Self { cid: real_room_id, platform: "web".to_owned(), quality: qn }
    }
}

impl RoomPlayInfoPayload {
    /// Asks for the streams of a room in this quality, as FLV over HTTP with AVC
    /// video.
    pub fn new(real_room_id: i64, qn: u32) -> (r: Self)
        ensures
            r.room_id == real_room_id,
            r.protocol@ == "0"@,
            r.format@ == "0"@,
            r.codec@ == "0"@,
            r.qn == qn,
            r.platform@ == "web"@,
    {
        Self {
            room_id: real_room_id,
            protocol: "0".to_owned(),
            format: "0".to_owned(),
            codec: "0".to_owned(),
            qn,
            platform: "web".to_owned(),
        }
    }
}

} // verus!
