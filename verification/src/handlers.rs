//! The decisions behind the HTTP and signaling endpoints: minting a room,
//! reporting a room's status, admitting a connection, and routing an inbound
//! client message. The embedding program owns the sockets and the JSON
//! framing; it hands these functions plain values and delivers what they
//! return.

use vstd::prelude::*;

use crate::ids::{fresh_room_id, uuid_string};
use crate::models::{CreateRoomResponse, RoomStatus, WsMessage};
use crate::state::AppState;
use crate::MAX_PEERS_PER_ROOM;

verus! {

/// What an inbound client message causes: signaling and content messages are
/// relayed to the other peer as they are, an application-level `Ping` is
/// answered with `Pong`, and everything else is dropped.
pub open spec fn spec_relay_decision(msg: WsMessage) -> Option<WsMessage> {
    match msg {
        WsMessage::Offer { .. } => Some(msg),
        WsMessage::Answer { .. } => Some(msg),
        WsMessage::IceCandidate { .. } => Some(msg),
        WsMessage::Chat { .. } => Some(msg),
        WsMessage::MediaStatus { .. } => Some(msg),
        WsMessage::Ping => Some(WsMessage::Pong),
        _ => None,
    }
}

/// The message to forward for an inbound client message, if any.
pub fn relay_decision(msg: WsMessage) -> (r: Option<WsMessage>)
    ensures
        r == spec_relay_decision(msg),
{
    match msg {
        WsMessage::Offer { .. } => Some(msg),
        WsMessage::Answer { .. } => Some(msg),
        WsMessage::IceCandidate { .. } => Some(msg),
        WsMessage::Chat { .. } => Some(msg),
        WsMessage::MediaStatus { .. } => Some(msg),
        WsMessage::Ping => Some(WsMessage::Pong),
        _ => None,
    }
}

/// Process a parsed client message: forward what `spec_relay_decision`
/// selects to the other peer of the room, and ignore the rest.
pub fn handle_client_message(
    state: &mut AppState,
    room_id: &String,
    peer_id: &String,
    msg: WsMessage,
    now: u64,
)
    requires
        old(state)@.wf(),
    ensures
        final(state)@.wf(),
        final(state)@ == (match spec_relay_decision(msg) {
            Some(m) => old(state)@.spec_relay(room_id@, peer_id@, m, now),
            None => old(state)@,
        }),
{
    match relay_decision(msg) {
        Some(m) => {
            state.relay_message(room_id, peer_id, m, now);
        },
        None => {},
    }
}

/// Admit one connection to a room: join, then notify the already-present
/// peer with `Join` followed by `RoomInfo` carrying the new count, in that
/// order. A full room rejects the connection and nothing changes.
pub fn connect_peer(state: &mut AppState, room_id: &String, peer_id: &String, now: u64) -> (r:
    Result<usize, &'static str>)
    requires
        old(state)@.wf(),
        !old(state)@.room_has_peer(room_id@, peer_id@),
    ensures
        final(state)@.wf(),
        old(state)@.join_ok(room_id@) ==> {
            &&& r matches Ok(n) && n == old(state)@.peer_count(room_id@) + 1
            &&& final(state)@.has_room(room_id@)
            &&& final(state)@.peer_count(room_id@) == old(state)@.peer_count(room_id@) + 1
            &&& final(state)@ == old(state)@.spec_join(room_id@, peer_id@, now).spec_relay(
                room_id@,
                peer_id@,
                WsMessage::Join,
                now,
            ).spec_relay(
                room_id@,
                peer_id@,
                WsMessage::RoomInfo { peer_count: (old(state)@.peer_count(room_id@) + 1) as usize },
                now,
            )
        },
        !old(state)@.join_ok(room_id@) ==> {
            &&& r matches Err(e) && e@ == "Room is full (max 2 peers for 1:1 call)"@
            &&& *final(state) == *old(state)
        },
{
    let count = match state.join_room(room_id, peer_id.clone(), now) {
        Ok(count) => count,
        Err(e) => {
            return Err(e);
        },
    };
    state.relay_message(room_id, peer_id, WsMessage::Join, now);
    let info = WsMessage::room_info(count);
    state.relay_message(room_id, peer_id, info, now);
    Ok(count)
}

/// Mint a fresh room id, create the room, and describe it: the response
/// carries the new id and the signaling path `/ws/<id>`.
pub fn create_room(state: &mut AppState, now: u64) -> (r: CreateRoomResponse)
    requires
        old(state)@.wf(),
    ensures
        final(state)@.wf(),
        final(state)@ == old(state)@.spec_create_room(r.room_id@, now),
        final(state)@.has_room(r.room_id@),
        uuid_string(r.room_id@),
        r.ws_url@ == "/ws/"@ + r.room_id@,
{
    let room_id = fresh_room_id();
    let ws_url = String::from_str("/ws/").concat(room_id.as_str());
    let room_id = state.create_room(room_id, now);
    CreateRoomResponse { room_id, ws_url }
}

/// Mint a fresh room id, create the room, and return the page path
/// `/room/<id>` to redirect the browser to.
pub fn index_redirect(state: &mut AppState, now: u64) -> (r: String)
    requires
        old(state)@.wf(),
    ensures
        final(state)@.wf(),
        r@.len() > 6 && r@.subrange(0, 6) == "/room/"@,
        final(state)@ == old(state)@.spec_create_room(r@.skip(6), now),
        final(state)@.has_room(r@.skip(6)),
        uuid_string(r@.skip(6)),
{
    let room_id = fresh_room_id();
    let path = String::from_str("/room/").concat(room_id.as_str());
    proof {
        reveal_strlit("/room/");
        assert(path@.subrange(0, 6) =~= "/room/"@);
        assert(path@.skip(6) =~= room_id@);
    }
    let _ = state.create_room(room_id, now);
    path
}

/// Report a room's status: its peer count (zero for an unknown room) and
/// whether it can still accept a peer.
pub fn room_status(state: &AppState, room_id: String) -> (r: RoomStatus)
    requires
        state@.wf(),
    ensures
        r.room_id == room_id,
        r.peer_count == state@.peer_count(room_id@),
        r.available == (state@.peer_count(room_id@) < MAX_PEERS_PER_ROOM),
{
    let peer_count = state.get_peer_count(&room_id);
    RoomStatus { room_id, peer_count, available: peer_count < MAX_PEERS_PER_ROOM }
}

} // verus!
