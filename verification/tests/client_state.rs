use peerdrop::handshake::WebRTCRole;
use peerdrop::messages::{AppMessage, ClientMessage, ServerMessage, SignalingMessage};
use peerdrop::messages::{outbound_to_client, outbound_to_relay};
use peerdrop::peer::Peer;
use peerdrop::peer_list::{ClientRoute, OtherPeers, route_server_message};

fn peer(id: u128, name: &str) -> Peer {
    Peer { id, name: name.to_string(), os: "Linux".to_string(), ip: 40 }
}

#[test]
fn snapshot_replaces_list_and_defaults_to_waiting() {
    let list = OtherPeers::new();
    let list = list.reduce(ServerMessage::ConnectedPeers(vec![peer(1, "a"), peer(2, "b")]));
    assert_eq!(list.peers.len(), 2);
    assert_eq!(list.peers[0].id, 1);
    assert_eq!(list.peers[1].id, 2);
    assert_eq!(list.peers[0].role, WebRTCRole::Server);
    assert_eq!(list.peers[1].role, WebRTCRole::Server);
}

#[test]
fn join_appends_newcomer_to_contact() {
    let list = OtherPeers::new();
    let list = list.reduce(ServerMessage::ConnectedPeers(vec![peer(1, "a")]));
    let list = list.reduce(ServerMessage::PeerJoined(peer(2, "b")));
    assert_eq!(list.peers.len(), 2);
    assert_eq!(list.peers[1].id, 2);
    assert_eq!(list.peers[1].role, WebRTCRole::Client);
}

#[test]
fn departure_drops_exactly_the_leaver() {
    let list = OtherPeers::new();
    let list = list.reduce(ServerMessage::ConnectedPeers(vec![
        peer(1, "a"),
        peer(2, "b"),
        peer(3, "c"),
    ]));
    let list = list.reduce(ServerMessage::PeerLeft(2));
    let ids: Vec<u128> = list.peers.iter().map(|p| p.id).collect();
    assert_eq!(ids, vec![1, 3]);
}

#[test]
fn unrelated_messages_leave_list_alone() {
    let list = OtherPeers::new();
    let list = list.reduce(ServerMessage::ConnectedPeers(vec![peer(1, "a")]));
    let list = list.reduce(ServerMessage::CheckOnline);
    let list = list.reduce(ServerMessage::SignalingMessage(SignalingMessage::Offer(
        1,
        "sdp".to_string(),
    )));
    assert_eq!(list.peers.len(), 1);
}

#[test]
fn inbound_messages_are_routed_by_kind() {
    let route = route_server_message(ServerMessage::PeerData(peer(9, "me")));
    assert!(matches!(route, ClientRoute::StoreSelf(this) if this.id == 9 && this.name == "me"));

    let route = route_server_message(ServerMessage::CheckOnline);
    assert!(matches!(route, ClientRoute::ReplyCheckOnline));

    let route = route_server_message(ServerMessage::SignalingMessage(SignalingMessage::Answer(
        1,
        "sdp".to_string(),
    )));
    assert!(matches!(
        route,
        ClientRoute::Signaling(ServerMessage::SignalingMessage(_))
    ));

    let route = route_server_message(ServerMessage::PeerLeft(4));
    assert!(matches!(
        route,
        ClientRoute::UpdatePeerList(ServerMessage::PeerLeft(4))
    ));
}

#[test]
fn send_loops_filter_by_direction() {
    let outbound = outbound_to_relay(AppMessage::CltMsg(ClientMessage::Disconnect));
    assert!(matches!(outbound, Some(ClientMessage::Disconnect)));
    assert!(outbound_to_relay(AppMessage::SrvrMsg(ServerMessage::CheckOnline)).is_none());

    let outbound = outbound_to_client(AppMessage::SrvrMsg(ServerMessage::PeerLeft(1)));
    assert!(matches!(outbound, Some(ServerMessage::PeerLeft(1))));
    assert!(outbound_to_client(AppMessage::CltMsg(ClientMessage::CheckOnline)).is_none());
}
