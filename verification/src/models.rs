//! Typed signaling messages and the HTTP response payloads.
//!
//! The wire carries these as JSON frames tagged by a `type` field; the JSON
//! encoding itself lives outside the library, which manipulates only typed
//! values.

use vstd::prelude::*;

verus! {

/// A signaling message exchanged between the two peers of a room.
#[derive(Debug, PartialEq, Eq)]
pub enum WsMessage {
    /// WebRTC SDP offer from the caller.
    Offer { sdp: String },
    /// WebRTC SDP answer from the callee.
    Answer { sdp: String },
    /// ICE candidate for NAT traversal.
    IceCandidate { candidate: String, sdp_m_line_index: u32, sdp_mid: Option<String> },
    /// Peer joined notification.
    Join,
    /// Peer left notification.
    Leave,
    /// Text chat message.
    Chat { message: String },
    /// Media status update (mute/unmute).
    MediaStatus { audio: bool, video: bool },
    /// Peer status broadcast.
    PeerStatus { status: String },
    /// Error message.
    Error { message: String },
    /// Room info (peer count).
    RoomInfo { peer_count: usize },
    /// Application-level keepalive request.
    Ping,
    /// Application-level keepalive reply.
    Pong,
}

impl Clone for WsMessage {
    fn clone(&self) -> (res: Self)
        ensures
            res == *self,
    {
        match self {
            WsMessage::Offer { sdp } => WsMessage::Offer { sdp: sdp.clone() },
            WsMessage::Answer { sdp } => WsMessage::Answer { sdp: sdp.clone() },
            WsMessage::IceCandidate { candidate, sdp_m_line_index, sdp_mid } => {
                let mid: Option<String> = match sdp_mid {
                    Some(m) => Some(m.clone()),
                    None => None,
                };
                WsMessage::IceCandidate {
                    candidate: candidate.clone(),
                    sdp_m_line_index: *sdp_m_line_index,
                    sdp_mid: mid,
                }
            },
            WsMessage::Join => WsMessage::Join,
            WsMessage::Leave => WsMessage::Leave,
            WsMessage::Chat { message } => WsMessage::Chat { message: message.clone() },
            WsMessage::MediaStatus { audio, video } => WsMessage::MediaStatus {
                audio: *audio,
                video: *video,
            },
            WsMessage::PeerStatus { status } => WsMessage::PeerStatus { status: status.clone() },
            WsMessage::Error { message } => WsMessage::Error { message: message.clone() },
            WsMessage::RoomInfo { peer_count } => WsMessage::RoomInfo { peer_count: *peer_count },
            WsMessage::Ping => WsMessage::Ping,
            WsMessage::Pong => WsMessage::Pong,
        }
    }
}

impl WsMessage {
    /// Create an error message.
    pub fn error(msg: String) -> (res: Self)
        ensures
            res == (WsMessage::Error { message: msg }),
    {
        WsMessage::Error { message: msg }
    }

    /// Create a room info message.
    pub fn room_info(peer_count: usize) -> (res: Self)
        ensures
            res == (WsMessage::RoomInfo { peer_count }),
    {
        WsMessage::RoomInfo { peer_count }
    }
}

/// Response for room creation.
#[derive(Debug)]
pub struct CreateRoomResponse {
    /// The unique identifier for the created room (UUID).
    pub room_id: String,
    /// The path of the signaling channel for this room.
    pub ws_url: String,
}

/// Room status response.
#[derive(Debug)]
pub struct RoomStatus {
    /// The room identifier.
    pub room_id: String,
    /// Number of peers currently in the room.
    pub peer_count: usize,
    /// Whether the room can accept more peers.
    pub available: bool,
}

} // verus!
