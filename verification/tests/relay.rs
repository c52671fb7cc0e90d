use peerdrop::RelayError;
use peerdrop::messages::{ClientMessage, Envelope, ServerMessage, SignalingMessage};
use peerdrop::peer::Peer;
use peerdrop::room::Room;
use peerdrop::rooms::Rooms;

fn peer(id: u128, name: &str, ip: u128) -> Peer {
    Peer { id, name: name.to_string(), os: "Linux".to_string(), ip }
}

#[test]
fn extract_peer_os_windows() {
    let os = Peer::extract_peer_os(Some("Mozilla/5.0 (Windows NT 10.0; Win64; x64)"));
    assert_eq!(os, "Windows");
}

#[test]
fn extract_peer_os_iphone_beats_mac_marker() {
    // An iPhone line also carries "like Mac OS X"; the mobile marker wins.
    let os = Peer::extract_peer_os(Some(
        "Mozilla/5.0 (iPhone; CPU iPhone OS 17_0 like Mac OS X) AppleWebKit/605.1.15",
    ));
    assert_eq!(os, "iOS");
}

#[test]
fn extract_peer_os_mac() {
    let os = Peer::extract_peer_os(Some("Mozilla/5.0 (Macintosh; Intel Mac OS X 10_15_7)"));
    assert_eq!(os, "Mac OS X");
}

#[test]
fn extract_peer_os_android_beats_linux_marker() {
    // An Android line also carries "Linux"; the mobile marker wins.
    let os = Peer::extract_peer_os(Some("Mozilla/5.0 (Linux; Android 14; Pixel 8)"));
    assert_eq!(os, "Android");
}

#[test]
fn extract_peer_os_unrecognized_or_missing_is_unknown() {
    assert_eq!(Peer::extract_peer_os(None), "unknown");
    assert_eq!(Peer::extract_peer_os(Some("curl/8.5.0")), "unknown");
}

#[test]
fn rewrite_swaps_identity_and_keeps_variant() {
    let (target, rewritten) =
        SignalingMessage::Offer(7, "sdp-offer".to_string()).replace_other_id_with_this_peer_id(3);
    assert_eq!(target, 7);
    assert!(matches!(rewritten, SignalingMessage::Offer(3, sdp) if sdp == "sdp-offer"));

    let (target, rewritten) =
        SignalingMessage::Answer(9, "sdp-answer".to_string()).replace_other_id_with_this_peer_id(4);
    assert_eq!(target, 9);
    assert!(matches!(rewritten, SignalingMessage::Answer(4, sdp) if sdp == "sdp-answer"));

    let candidate = peerdrop::messages::IceCandidate {
        candidate: "candidate:0 1 UDP 2122252543 192.0.2.1 49203 typ host".to_string(),
        sdp_mid: Some("0".to_string()),
        sdp_m_line_index: Some(0),
    };
    let (target, rewritten) =
        SignalingMessage::IceCandidate(11, candidate).replace_other_id_with_this_peer_id(5);
    assert_eq!(target, 11);
    match rewritten {
        SignalingMessage::IceCandidate(id, c) => {
            assert_eq!(id, 5);
            assert!(c.candidate.starts_with("candidate:0"));
            assert_eq!(c.sdp_mid.as_deref(), Some("0"));
            assert_eq!(c.sdp_m_line_index, Some(0));
        }
        _ => panic!("variant changed"),
    }
}

#[test]
fn signal_delivers_to_target_with_sender_identity() {
    let mut rooms = Rooms::new();
    let a = peer(1, "a", 40);
    let b = peer(2, "b", 40);
    a.init(&mut rooms);
    b.init(&mut rooms);

    let result = a.signal(SignalingMessage::Offer(b.id, "sdp".to_string()), &rooms);
    let envelope = result.expect("both peers share the room");
    assert_eq!(envelope.to, b.id);
    assert!(matches!(
        envelope.message,
        ServerMessage::SignalingMessage(SignalingMessage::Offer(id, sdp))
            if id == a.id && sdp == "sdp"
    ));
}

#[test]
fn signal_to_absent_peer_is_not_found() {
    let mut rooms = Rooms::new();
    let a = peer(1, "a", 40);
    a.init(&mut rooms);
    let result = a.signal(SignalingMessage::Answer(99, "sdp".to_string()), &rooms);
    assert_eq!(result.unwrap_err(), RelayError::NotFound);
}

#[test]
fn signal_without_room_is_not_found() {
    let rooms = Rooms::new();
    let a = peer(1, "a", 40);
    let result = a.signal(SignalingMessage::Offer(2, "sdp".to_string()), &rooms);
    assert_eq!(result.unwrap_err(), RelayError::NotFound);
}

#[test]
fn snapshot_holds_exactly_joined_and_not_left() {
    let mut room = Room::new();
    assert!(room.is_empty());
    room.receive_peer(peer(1, "a", 40));
    room.receive_peer(peer(2, "b", 40));
    room.receive_peer(peer(3, "c", 40));
    room.remove_peer(&2);
    let snapshot = room.peers();
    let mut ids: Vec<u128> = snapshot.iter().map(|p| p.id).collect();
    ids.sort();
    assert_eq!(ids, vec![1, 3]);
    assert!(room.get(&2).is_none());
    assert!(room.get(&1).is_some());

    // Re-inserting an identifier replaces the entry instead of doubling it.
    room.receive_peer(peer(1, "renamed", 40));
    let snapshot = room.peers();
    assert_eq!(snapshot.len(), 2);
    let renamed = room.get(&1).unwrap();
    assert_eq!(renamed.name, "renamed");
}

#[test]
fn room_is_removed_exactly_when_emptied_and_rejoin_is_fresh() {
    let mut rooms = Rooms::new();
    let a = peer(1, "a", 40);
    let b = peer(2, "b", 40);
    a.init(&mut rooms);
    b.init(&mut rooms);

    a.disconnect(&mut rooms);
    assert!(rooms.get(&40).is_some(), "one member remains, the room stays");

    b.disconnect(&mut rooms);
    assert!(rooms.get(&40).is_none(), "last member left, the room goes");

    // A later join creates a fresh room whose snapshot starts empty.
    let outbox = a.init(&mut rooms);
    assert!(rooms.get(&40).is_some());
    let last = outbox.last().unwrap();
    assert!(matches!(&last.message, ServerMessage::ConnectedPeers(list) if list.is_empty()));
}

fn expect_peer_data(envelope: &Envelope, to: u128, id: u128) {
    assert_eq!(envelope.to, to);
    assert!(matches!(&envelope.message, ServerMessage::PeerData(p) if p.id == id));
}

#[test]
fn two_clients_one_origin_end_to_end() {
    let mut rooms = Rooms::new();
    let c1 = peer(1, "first", 40);
    let c2 = peer(2, "second", 40);

    // Client 1 connects: the room is created; it learns its own record
    // and an empty member snapshot, and nobody else is told anything.
    let outbox = c1.init(&mut rooms);
    assert_eq!(outbox.len(), 2);
    expect_peer_data(&outbox[0], c1.id, c1.id);
    assert_eq!(outbox[1].to, c1.id);
    assert!(matches!(&outbox[1].message, ServerMessage::ConnectedPeers(list) if list.is_empty()));

    // Client 2 connects: the room is reused; client 1 hears of the join,
    // client 2 gets its record first and then the snapshot holding client 1.
    let outbox = c2.init(&mut rooms);
    assert_eq!(outbox.len(), 3);
    expect_peer_data(&outbox[0], c2.id, c2.id);
    assert_eq!(outbox[1].to, c1.id);
    assert!(matches!(&outbox[1].message, ServerMessage::PeerJoined(p) if p.id == c2.id));
    assert_eq!(outbox[2].to, c2.id);
    assert!(matches!(
        &outbox[2].message,
        ServerMessage::ConnectedPeers(list) if list.len() == 1 && list[0].id == c1.id
    ));

    // Client 2 offers to client 1: client 1 receives the offer naming
    // client 2 as its origin.
    let envelope = c2
        .signal(SignalingMessage::Offer(c1.id, "sdp".to_string()), &rooms)
        .expect("client 1 is present");
    assert_eq!(envelope.to, c1.id);
    assert!(matches!(
        envelope.message,
        ServerMessage::SignalingMessage(SignalingMessage::Offer(id, _)) if id == c2.id
    ));

    // Client 1 disconnects: client 2 hears of it, and the room, still
    // holding client 2, is not deleted.
    let outbox = c1.disconnect(&mut rooms);
    assert_eq!(outbox.len(), 1);
    assert_eq!(outbox[0].to, c2.id);
    assert!(matches!(outbox[0].message, ServerMessage::PeerLeft(id) if id == c1.id));
    assert!(rooms.get(&40).is_some());
}

#[test]
fn dispatch_check_online_costs_nothing() {
    let mut rooms = Rooms::new();
    let a = peer(1, "a", 40);
    a.init(&mut rooms);
    let outbox = a
        .handle_client_message(ClientMessage::CheckOnline, &mut rooms)
        .expect("liveness never fails");
    assert!(outbox.is_empty());
    assert!(rooms.get(&40).is_some());
}

#[test]
fn dispatch_disconnect_and_signaling() {
    let mut rooms = Rooms::new();
    let a = peer(1, "a", 40);
    let b = peer(2, "b", 40);
    a.init(&mut rooms);
    b.init(&mut rooms);

    let message = ClientMessage::SignalingMessage(SignalingMessage::Answer(
        a.id,
        "sdp-answer".to_string(),
    ));
    let outbox = b
        .handle_client_message(message, &mut rooms)
        .expect("peer a is present");
    assert_eq!(outbox.len(), 1);
    assert_eq!(outbox[0].to, a.id);
    assert!(matches!(
        &outbox[0].message,
        ServerMessage::SignalingMessage(SignalingMessage::Answer(id, _)) if *id == b.id
    ));

    let outbox = a
        .handle_client_message(ClientMessage::Disconnect, &mut rooms)
        .expect("a disconnect is always carried out");
    assert_eq!(outbox.len(), 1);
    assert!(matches!(outbox[0].message, ServerMessage::PeerLeft(id) if id == a.id));

    let err = b
        .handle_client_message(
            ClientMessage::SignalingMessage(SignalingMessage::Offer(a.id, "late".to_string())),
            &mut rooms,
        )
        .unwrap_err();
    assert_eq!(err, RelayError::NotFound);
}

#[test]
fn new_peer_gets_label_and_keeps_name() {
    let p = Peer::new(
        Some("Mozilla/5.0 (Windows NT 10.0; Win64; x64)"),
        40,
        "Arwen Undomiel".to_string(),
    );
    assert_eq!(p.name, "Arwen Undomiel");
    assert_eq!(p.os, "Windows");
    assert_eq!(p.ip, 40);
    let q = Peer::new(None, 40, "Elrond".to_string());
    assert_ne!(p.id, q.id, "identifiers are drawn fresh per connection");
}
