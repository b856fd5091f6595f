//! The websocket session: an unauthorized client is closed at once; an
//! authorized one is pinged every minute and dropped when it has not been
//! heard from for the interval plus a grace period. Pings are answered and
//! text and binary frames echoed.

use vstd::prelude::*;
use crate::text::{chars_of, string_of};

verus! {

/// How often the server pings a client.
pub const HEARTBEAT_INTERVAL_MS: u64 = 60_000;

/// How much longer than the interval a client may stay silent.
pub const CLIENT_TIMEOUT_MS: u64 = 10_000;

/// The close code sent to a client that is not signed in.
pub const UNAUTHORIZED_CLOSE_CODE: u16 = 4001;

/// A client's connection: when it was last heard from, and whether it
/// presented a valid access token.
#[derive(Clone, Copy, Debug)]
pub struct WsSession {
    pub last_heard_ms: u64,
    pub authorized: bool,
}

/// A frame from the client.
#[derive(Clone, Debug)]
pub enum WsMessage {
    Ping(Vec<u8>),
    Pong,
    Text(String),
    Binary(Vec<u8>),
    /// Anything else (close, continuation, a protocol error).
    Other,
}

/// What the server sends back for a frame.
#[derive(Clone, Debug)]
pub enum WsReply {
    Pong(Vec<u8>),
    Text(String),
    Binary(Vec<u8>),
    Nothing,
}

/// What happens when a connection opens.
#[derive(Clone, Debug)]
pub enum WsStart {
    /// Close with this code and reason, and stop.
    Close { code: u16, reason: String },
    /// Start the heartbeat.
    Heartbeat,
}

/// What a heartbeat tick does.
#[derive(Clone, Copy, Debug, PartialEq, Eq, Structural)]
pub enum HeartbeatAction {
    Ping,
    /// The client went silent: disconnect.
    Stop,
}

/// Time since `from`, zero when `from` is later (as `Instant::duration_since`).
pub open spec fn elapsed(now_ms: u64, from_ms: u64) -> u64 {
    if now_ms >= from_ms {
        (now_ms - from_ms) as u64
    } else {
        0
    }
}

pub open spec fn heartbeat_spec(last_heard_ms: u64, now_ms: u64) -> HeartbeatAction {
    if elapsed(now_ms, last_heard_ms) > HEARTBEAT_INTERVAL_MS + CLIENT_TIMEOUT_MS {
        HeartbeatAction::Stop
    } else {
        HeartbeatAction::Ping
    }
}

/// A ping or a pong shows the client is alive.
pub open spec fn hears_client(m: WsMessage) -> bool {
    m is Ping || m is Pong
}

impl WsSession {
    /// A connection opened at `now_ms`.
    pub fn new(now_ms: u64, authorized: bool) -> (s: WsSession)
        ensures
            s.last_heard_ms == now_ms,
            s.authorized == authorized,
    {
        WsSession { last_heard_ms: now_ms, authorized }
    }

    /// An unauthorized client is closed with `UNAUTHORIZED_CLOSE_CODE`; an
    /// authorized one gets the heartbeat.
    pub fn started(&self) -> (r: WsStart)
        ensures
            self.authorized ==> r is Heartbeat,
            !self.authorized ==> (r matches WsStart::Close { code, reason } && code == UNAUTHORIZED_CLOSE_CODE
                && reason@ == "Unauthorized"@),
    {
        if !self.authorized {
            return WsStart::Close { code: UNAUTHORIZED_CLOSE_CODE, reason: string_of(&chars_of("Unauthorized")) };
        }
        WsStart::Heartbeat
    }

    /// Handles a frame received at `now_ms`: a ping is answered with the
    /// same payload, text and binary frames are echoed; pings and pongs
    /// count as hearing from the client.
    pub fn handle(&mut self, message: WsMessage, now_ms: u64) -> (r: WsReply)
        ensures
            final(self).authorized == old(self).authorized,
            final(self).last_heard_ms == (if hears_client(message) {
                now_ms
            } else {
                old(self).last_heard_ms
            }),
            match message {
                WsMessage::Ping(p) => r matches WsReply::Pong(q) && q@ == p@,
                WsMessage::Text(t) => r matches WsReply::Text(u) && u@ == t@,
                WsMessage::Binary(b) => r matches WsReply::Binary(c) && c@ == b@,
                _ => r is Nothing,
            },
    {
        match message {
            WsMessage::Ping(payload) => {
                self.last_heard_ms = now_ms;
                WsReply::Pong(payload)
            },
            WsMessage::Pong => {
                self.last_heard_ms = now_ms;
                WsReply::Nothing
            },
            WsMessage::Text(text) => WsReply::Text(text),
            WsMessage::Binary(bytes) => WsReply::Binary(bytes),
            WsMessage::Other => WsReply::Nothing,
        }
    }

    /// A heartbeat tick at `now_ms`: stop a client silent for longer than
    /// the interval plus the grace period, else ping it.
    pub fn heartbeat(&self, now_ms: u64) -> (r: HeartbeatAction)
        ensures
            r == heartbeat_spec(self.last_heard_ms, now_ms),
    {
        let silent: u64 = if now_ms >= self.last_heard_ms {
            now_ms - self.last_heard_ms
        } else {
            0
        };
        if silent > HEARTBEAT_INTERVAL_MS + CLIENT_TIMEOUT_MS {
            HeartbeatAction::Stop
        } else {
            HeartbeatAction::Ping
        }
    }
}

/// A client that answers is kept: right after it is heard from, and for
/// the interval plus the grace period after that, a tick pings it.
pub proof fn law_heard_client_is_kept(heard_ms: u64, now_ms: u64)
    requires
        heard_ms <= now_ms <= heard_ms + HEARTBEAT_INTERVAL_MS + CLIENT_TIMEOUT_MS,
    ensures
        heartbeat_spec(heard_ms, now_ms) == HeartbeatAction::Ping,
{
}

/// A client silent for longer than that is dropped.
pub proof fn law_silent_client_is_dropped(heard_ms: u64, now_ms: u64)
    requires
        now_ms > heard_ms + HEARTBEAT_INTERVAL_MS + CLIENT_TIMEOUT_MS,
    ensures
        heartbeat_spec(heard_ms, now_ms) == HeartbeatAction::Stop,
{
}

} // verus!
