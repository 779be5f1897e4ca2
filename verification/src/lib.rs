//! Decision logic of a Bilibili live-stream recorder.
//!
//! Nothing here waits, reads or writes. Where outside work and decisions take
//! turns, a session says what is to be done next and is told what came of it:
//! [`pipe::PipeSession`], [`recording::RecordSession`], [`auth::LoginSession`].

pub mod audio;
pub mod auth;
pub mod command;
pub mod cookies;
pub mod error;
pub mod flv;
pub mod live;
pub mod path;
pub mod payload;
pub mod pipe;
pub mod reconnect;
pub mod record;
pub mod recording;
pub mod response;
pub mod text;
