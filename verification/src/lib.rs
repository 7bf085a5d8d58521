//! Signaling library for 1:1 WebRTC video calls: typed signaling messages,
//! rooms of at most two peers, a registry keyed by room id, message relay
//! between the peers of a room, and eviction of rooms that stay empty past
//! an idle threshold.

use vstd::prelude::*;

mod handlers;
mod ids;
mod laws;
mod models;
mod state;

pub use handlers::{
    connect_peer, create_room, handle_client_message, index_redirect, relay_decision, room_status,
    spec_relay_decision,
};
pub use ids::{uuid_string, validate_room_id};
pub use laws::{
    lemma_cleanup_evicts_idle, lemma_create_room_idempotent, lemma_peer_ids_distinct,
    lemma_relay_order, lemma_room_capacity,
};
pub use models::{CreateRoomResponse, RoomStatus, WsMessage};
pub use state::{
    AppState, Peer, PeerView, RegistryView, Room, RoomView, ROOM_TIMEOUT_MS,
};

verus! {

/// Maximum peers allowed per room (1:1 video chat).
pub const MAX_PEERS_PER_ROOM: usize = 2;

} // verus!
