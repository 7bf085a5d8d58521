//! Unit tests for rooms, peers, message constructors, routing decisions and
//! room-id validation.

use axi_vid::{relay_decision, validate_room_id, Peer, Room, WsMessage, ROOM_TIMEOUT_MS};

#[test]
fn room_capacity_and_add() {
    let mut room = Room::new(String::from("r"), 0);
    assert!(!room.is_full());
    assert_eq!(room.add_peer(Peer::new(String::from("a"), 1), 1), Ok(()));
    assert!(!room.is_full());
    assert_eq!(room.add_peer(Peer::new(String::from("b"), 2), 2), Ok(()));
    assert!(room.is_full());
    assert_eq!(room.add_peer(Peer::new(String::from("c"), 3), 3), Err("Room is full"));
    assert_eq!(room.peers.len(), 2);
}

#[test]
fn room_remove_peer_returns_the_match() {
    let mut room = Room::new(String::from("r"), 0);
    room.add_peer(Peer::new(String::from("a"), 1), 1).unwrap();
    room.add_peer(Peer::new(String::from("b"), 2), 2).unwrap();
    let gone = room.remove_peer(&String::from("a"), 3);
    assert_eq!(gone.map(|p| p.id), Some(String::from("a")));
    assert_eq!(room.peers.len(), 1);
    assert_eq!(room.peers[0].id, "b");
    assert!(room.remove_peer(&String::from("a"), 4).is_none());
    assert_eq!(room.last_activity, 4);
}

#[test]
fn room_get_other_peer() {
    let mut room = Room::new(String::from("r"), 0);
    room.add_peer(Peer::new(String::from("a"), 1), 1).unwrap();
    assert!(room.get_other_peer(&String::from("a")).is_none());
    room.add_peer(Peer::new(String::from("b"), 2), 2).unwrap();
    let other = room.get_other_peer(&String::from("a")).unwrap();
    assert_eq!(other.id, "b");
}

#[test]
fn room_broadcasts() {
    let mut room = Room::new(String::from("r"), 0);
    room.add_peer(Peer::new(String::from("a"), 1), 1).unwrap();
    room.add_peer(Peer::new(String::from("b"), 2), 2).unwrap();
    room.broadcast_to_others(&String::from("a"), &WsMessage::Ping);
    assert_eq!(room.peers[0].outbox, vec![]);
    assert_eq!(room.peers[1].outbox, vec![WsMessage::Ping]);
    room.broadcast_to_all(&WsMessage::Pong);
    assert_eq!(room.peers[0].outbox, vec![WsMessage::Pong]);
    assert_eq!(room.peers[1].outbox, vec![WsMessage::Ping, WsMessage::Pong]);
}

#[test]
fn room_inactivity_boundaries() {
    let room = Room::new(String::from("r"), 1_000);
    assert!(!room.is_inactive(1_000));
    assert!(!room.is_inactive(1_000 + ROOM_TIMEOUT_MS - 1));
    assert!(room.is_inactive(1_000 + ROOM_TIMEOUT_MS));
    assert!(room.is_inactive(1_000 + ROOM_TIMEOUT_MS + 1));
    // a clock that reads earlier than the last activity never marks it idle
    assert!(!room.is_inactive(0));

    let mut occupied = Room::new(String::from("r2"), 1_000);
    occupied.add_peer(Peer::new(String::from("a"), 1_000), 1_000).unwrap();
    assert!(!occupied.is_inactive(1_000 + ROOM_TIMEOUT_MS));
}

#[test]
fn message_constructors() {
    assert_eq!(
        WsMessage::error(String::from("boom")),
        WsMessage::Error { message: String::from("boom") }
    );
    assert_eq!(WsMessage::room_info(2), WsMessage::RoomInfo { peer_count: 2 });
}

#[test]
fn relay_decisions() {
    let offer = WsMessage::Offer { sdp: String::from("v=0") };
    let answer = WsMessage::Answer { sdp: String::from("v=0") };
    let ice = WsMessage::IceCandidate {
        candidate: String::from("candidate:0"),
        sdp_m_line_index: 0,
        sdp_mid: Some(String::from("0")),
    };
    let chat = WsMessage::Chat { message: String::from("hello") };
    let media = WsMessage::MediaStatus { audio: false, video: true };
    assert_eq!(relay_decision(offer.clone()), Some(offer));
    assert_eq!(relay_decision(answer.clone()), Some(answer));
    assert_eq!(relay_decision(ice.clone()), Some(ice));
    assert_eq!(relay_decision(chat.clone()), Some(chat));
    assert_eq!(relay_decision(media.clone()), Some(media));
    assert_eq!(relay_decision(WsMessage::Ping), Some(WsMessage::Pong));
    assert_eq!(relay_decision(WsMessage::Pong), None);
    assert_eq!(relay_decision(WsMessage::Join), None);
    assert_eq!(relay_decision(WsMessage::Leave), None);
    assert_eq!(relay_decision(WsMessage::RoomInfo { peer_count: 1 }), None);
    assert_eq!(relay_decision(WsMessage::PeerStatus { status: String::from("x") }), None);
    assert_eq!(relay_decision(WsMessage::Error { message: String::from("x") }), None);
}

#[test]
fn room_id_validation() {
    assert_eq!(validate_room_id(&String::from("550e8400-e29b-41d4-a716-446655440000")), Ok(()));
    assert_eq!(
        validate_room_id(&String::from("not-a-uuid")),
        Err("Invalid room ID format")
    );
    assert_eq!(validate_room_id(&String::from("")), Err("Invalid room ID format"));
}
