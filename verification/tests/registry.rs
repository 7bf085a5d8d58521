//! Scenario tests against the room registry: creation, admission, relay,
//! departure and the idle reaper.

use axi_vid::{
    connect_peer, create_room, handle_client_message, index_redirect, room_status, AppState,
    WsMessage, MAX_PEERS_PER_ROOM, ROOM_TIMEOUT_MS,
};

fn two_peer_room() -> (AppState, String, String, String) {
    let mut s = AppState::new();
    let rid = String::from("0f1e2d3c-4b5a-6978-8796-a5b4c3d2e1f0");
    let a = String::from("peer-a");
    let b = String::from("peer-b");
    assert_eq!(connect_peer(&mut s, &rid, &a, 0), Ok(1));
    assert_eq!(connect_peer(&mut s, &rid, &b, 1), Ok(2));
    (s, rid, a, b)
}

#[test]
fn room_creation_round_trip() {
    let mut s = AppState::new();
    let resp = create_room(&mut s, 0);
    assert!(uuid::Uuid::parse_str(&resp.room_id).is_ok());
    assert_eq!(resp.ws_url, format!("/ws/{}", resp.room_id));
    assert_eq!(s.room_count(), 1);

    let status = room_status(&s, resp.room_id.clone());
    assert_eq!(status.room_id, resp.room_id);
    assert_eq!(status.peer_count, 0);
    assert!(status.available);
}

#[test]
fn index_redirect_creates_room() {
    let mut s = AppState::new();
    let path = index_redirect(&mut s, 0);
    assert!(path.starts_with("/room/"));
    let rid = &path["/room/".len()..];
    assert!(uuid::Uuid::parse_str(rid).is_ok());
    assert_eq!(s.get_peer_count(&rid.to_string()), 0);
    assert_eq!(s.room_count(), 1);
}

#[test]
fn create_room_is_idempotent() {
    let mut s = AppState::new();
    let rid = String::from("11111111-2222-3333-4444-555555555555");
    s.create_room(rid.clone(), 0);
    assert_eq!(s.room_count(), 1);
    s.create_room(rid.clone(), 50);
    assert_eq!(s.room_count(), 1);
    assert_eq!(s.get_peer_count(&rid), 0);
}

#[test]
fn two_peer_join_notifications() {
    let mut s = AppState::new();
    let rid = String::from("room");
    let a = String::from("peer-a");
    let b = String::from("peer-b");

    // A joins an absent room: the room is created, count is 1, nobody else
    // to notify.
    assert_eq!(connect_peer(&mut s, &rid, &a, 0), Ok(1));
    assert_eq!(s.take_outbox(&rid, &a), vec![]);

    // B joins: count is 2, and A sees Join then RoomInfo{2}, in that order.
    assert_eq!(connect_peer(&mut s, &rid, &b, 1), Ok(2));
    assert_eq!(
        s.take_outbox(&rid, &a),
        vec![WsMessage::Join, WsMessage::RoomInfo { peer_count: 2 }]
    );
    assert_eq!(s.take_outbox(&rid, &b), vec![]);
}

#[test]
fn capacity_enforcement() {
    let (mut s, rid, a, b) = two_peer_room();
    let c = String::from("peer-c");
    assert_eq!(
        connect_peer(&mut s, &rid, &c, 2),
        Err("Room is full (max 2 peers for 1:1 call)")
    );
    // The registry is untouched: still two peers, nothing extra queued.
    assert_eq!(s.get_peer_count(&rid), 2);
    let status = room_status(&s, rid.clone());
    assert_eq!(status.peer_count, 2);
    assert!(!status.available);
    s.take_outbox(&rid, &a);
    assert_eq!(s.take_outbox(&rid, &a), vec![]);
    assert_eq!(s.take_outbox(&rid, &b), vec![]);
}

#[test]
fn signaling_relay_verbatim_and_in_order() {
    let (mut s, rid, a, b) = two_peer_room();
    s.take_outbox(&rid, &a);

    let offer = WsMessage::Offer { sdp: String::from("v=0\no=alice") };
    handle_client_message(&mut s, &rid, &a, offer.clone(), 10);
    assert_eq!(s.take_outbox(&rid, &b), vec![offer]);
    assert_eq!(s.take_outbox(&rid, &a), vec![]);

    let answer = WsMessage::Answer { sdp: String::from("v=0\no=bob") };
    handle_client_message(&mut s, &rid, &b, answer.clone(), 11);
    assert_eq!(s.take_outbox(&rid, &a), vec![answer]);

    let ice = |n: u32| WsMessage::IceCandidate {
        candidate: format!("candidate:{}", n),
        sdp_m_line_index: n,
        sdp_mid: if n == 0 { None } else { Some(format!("mid{}", n)) },
    };
    handle_client_message(&mut s, &rid, &a, ice(0), 12);
    handle_client_message(&mut s, &rid, &a, ice(1), 13);
    handle_client_message(&mut s, &rid, &a, ice(2), 14);
    assert_eq!(s.take_outbox(&rid, &b), vec![ice(0), ice(1), ice(2)]);
}

#[test]
fn chat_and_media_status_are_relayed() {
    let (mut s, rid, a, b) = two_peer_room();
    s.take_outbox(&rid, &a);
    let chat = WsMessage::Chat { message: String::from("hi") };
    let media = WsMessage::MediaStatus { audio: true, video: false };
    handle_client_message(&mut s, &rid, &a, chat.clone(), 10);
    handle_client_message(&mut s, &rid, &a, media.clone(), 11);
    assert_eq!(s.take_outbox(&rid, &b), vec![chat, media]);
}

#[test]
fn ping_relays_pong_and_control_messages_are_dropped() {
    let (mut s, rid, a, b) = two_peer_room();
    s.take_outbox(&rid, &a);
    handle_client_message(&mut s, &rid, &a, WsMessage::Ping, 10);
    handle_client_message(&mut s, &rid, &a, WsMessage::Leave, 11);
    handle_client_message(&mut s, &rid, &a, WsMessage::Join, 12);
    handle_client_message(&mut s, &rid, &a, WsMessage::Pong, 13);
    handle_client_message(
        &mut s,
        &rid,
        &a,
        WsMessage::Error { message: String::from("x") },
        14,
    );
    handle_client_message(&mut s, &rid, &a, WsMessage::RoomInfo { peer_count: 9 }, 15);
    handle_client_message(
        &mut s,
        &rid,
        &a,
        WsMessage::PeerStatus { status: String::from("busy") },
        16,
    );
    assert_eq!(s.take_outbox(&rid, &b), vec![WsMessage::Pong]);
}

#[test]
fn departure_notifies_survivor() {
    let (mut s, rid, a, b) = two_peer_room();
    s.take_outbox(&rid, &a);
    s.leave_room(&rid, &b, 20);
    assert_eq!(
        s.take_outbox(&rid, &a),
        vec![WsMessage::Leave, WsMessage::RoomInfo { peer_count: 1 }]
    );
    let status = room_status(&s, rid.clone());
    assert_eq!(status.peer_count, 1);
    assert!(status.available);
    // The emptied room is not removed here; that is the reaper's job.
    s.leave_room(&rid, &a, 21);
    assert_eq!(s.room_count(), 1);
    assert_eq!(s.get_peer_count(&rid), 0);
}

#[test]
fn leave_of_unknown_peer_changes_no_queue() {
    let (mut s, rid, a, b) = two_peer_room();
    s.take_outbox(&rid, &a);
    s.leave_room(&rid, &String::from("stranger"), 20);
    assert_eq!(s.get_peer_count(&rid), 2);
    assert_eq!(s.take_outbox(&rid, &a), vec![]);
    assert_eq!(s.take_outbox(&rid, &b), vec![]);
}

#[test]
fn missing_room_operations_are_ignored() {
    let mut s = AppState::new();
    let rid = String::from("nowhere");
    let a = String::from("peer-a");
    assert_eq!(s.get_peer_count(&rid), 0);
    s.relay_message(&rid, &a, WsMessage::Ping, 0);
    s.leave_room(&rid, &a, 1);
    assert_eq!(s.take_outbox(&rid, &a), vec![]);
    assert_eq!(s.room_count(), 0);
    let status = room_status(&s, rid.clone());
    assert_eq!(status.peer_count, 0);
    assert!(status.available);
}

#[test]
fn idle_reaper_evicts_stale_empty_rooms() {
    let mut s = AppState::new();
    let rid = String::from("room");
    let a = String::from("peer-a");
    let b = String::from("peer-b");
    assert_eq!(connect_peer(&mut s, &rid, &a, 1_000), Ok(1));
    assert_eq!(connect_peer(&mut s, &rid, &b, 1_000), Ok(2));
    s.leave_room(&rid, &a, 1_000);
    s.leave_room(&rid, &b, 1_000);
    assert_eq!(s.room_count(), 1);

    // One tick shy of the threshold: the room survives.
    s.cleanup_inactive_rooms(1_000 + ROOM_TIMEOUT_MS - 1);
    assert_eq!(s.room_count(), 1);

    // At the threshold: the room is gone, and its id reads as empty.
    s.cleanup_inactive_rooms(1_000 + ROOM_TIMEOUT_MS);
    assert_eq!(s.room_count(), 0);
    let status = room_status(&s, rid.clone());
    assert_eq!(status.peer_count, 0);
    assert!(status.available);
}

#[test]
fn reaper_keeps_occupied_and_fresh_rooms() {
    let mut s = AppState::new();
    let occupied = String::from("occupied");
    let fresh = String::from("fresh");
    let stale = String::from("stale");
    let a = String::from("peer-a");
    assert_eq!(connect_peer(&mut s, &occupied, &a, 0), Ok(1));
    s.create_room(stale.clone(), 0);
    s.create_room(fresh.clone(), ROOM_TIMEOUT_MS);
    assert_eq!(s.room_count(), 3);

    // Even far past the threshold, a room with a peer stays; the fresh empty
    // room has not been idle long enough.
    s.cleanup_inactive_rooms(ROOM_TIMEOUT_MS + 1);
    assert_eq!(s.room_count(), 2);
    assert_eq!(s.get_peer_count(&occupied), 1);
    assert_eq!(s.get_peer_count(&stale), 0);
    assert_eq!(s.room_count(), 2);
}

#[test]
fn rejoining_an_emptied_room_works() {
    let (mut s, rid, a, b) = two_peer_room();
    s.leave_room(&rid, &a, 10);
    s.leave_room(&rid, &b, 11);
    assert_eq!(s.get_peer_count(&rid), 0);
    let c = String::from("peer-c");
    assert_eq!(connect_peer(&mut s, &rid, &c, 12), Ok(1));
    assert_eq!(s.get_peer_count(&rid), 1);
}

#[test]
fn capacity_constant_is_two() {
    assert_eq!(MAX_PEERS_PER_ROOM, 2);
    assert_eq!(ROOM_TIMEOUT_MS, 300_000);
}
