//! What the web API answers, as far as it is read here.

use vstd::prelude::*;

verus! {

/// A login QR code.
#[derive(Debug)]
pub struct QrResp {
    pub data: QrData,
}

#[derive(Debug)]
pub struct QrData {
    /// The key to ask for the state of the login with.
    pub qrcode_key: String,
    /// The URL to show as a QR code.
    pub url: String,
}

/// The state of a login by QR code.
#[derive(Debug)]
pub struct QrPollResp {
    pub data: QrPollData,
}

#[derive(Debug)]
pub struct QrPollData {
    pub code: u32,
    pub message: String,
}

/// Who is logged in.
#[derive(Debug)]
pub struct NavResp {
    pub code: i32,
    pub data: NavData,
}

#[derive(Debug)]
pub struct NavData {
    pub mid: Option<i64>,
    pub uname: Option<String>,
}

/// What came of logging out.
#[derive(Debug)]
pub struct LogoutResp {
    pub code: i32,
    pub message: Option<String>,
}

/// The real ID of a room.
#[derive(Debug)]
pub struct RoomInitResp {
    pub code: i32,
    pub data: RoomInitData,
}

#[derive(Debug)]
pub struct RoomInitData {
    pub room_id: i64,
}

/// The state of a room.
#[derive(Debug)]
pub struct RoomInfoResp {
    pub code: i32,
    pub data: RoomInfoData,
}

#[derive(Debug)]
pub struct RoomInfoData {
    /// 0 = offline, 1 = live, 2 = looping.
    pub live_status: i32,
}

/// The stream URLs of a room, from the legacy API.
#[derive(Debug)]
pub struct PlayUrlResp {
    pub code: i32,
    pub data: PlayUrlData,
}

#[derive(Debug)]
pub struct PlayUrlData {
    pub durl: Vec<Durl>,
}

#[derive(Debug)]
pub struct Durl {
    pub url: String,
}

/// The streams of a room, from the modern API.
#[derive(Debug)]
pub struct RoomPlayInfoResp {
    pub code: i32,
    pub data: RoomPlayInfoData,
}

#[derive(Debug)]
pub struct RoomPlayInfoData {
    pub playurl_info: PlayUrlInfo,
}

#[derive(Debug)]
pub struct PlayUrlInfo {
    pub playurl: PlayUrl,
}

#[derive(Debug)]
pub struct PlayUrl {
    pub stream: Vec<PlayStream>,
}

#[derive(Debug)]
pub struct PlayStream {
    pub protocol_name: String,
    pub format: Vec<PlayFormat>,
}

#[derive(Debug)]
pub struct PlayFormat {
    pub format_name: String,
    pub codec: Vec<PlayCodec>,
}

#[derive(Debug)]
pub struct PlayCodec {
    pub base_url: String,
    pub url_info: Vec<UrlInfo>,
}

#[derive(Debug)]
pub struct UrlInfo {
    pub host: String,
    pub extra: String,
}

} // verus!
