use peerdrop::handshake::{
    HandshakeAction, HandshakeEvent, HandshakeState, Orchestrator, WebRTCRole,
};
use peerdrop::messages::{ClientMessage, IceCandidate, SignalingMessage};

fn candidate(tag: &str) -> IceCandidate {
    IceCandidate {
        candidate: tag.to_string(),
        sdp_mid: Some("0".to_string()),
        sdp_m_line_index: Some(0),
    }
}

#[test]
fn contacting_side_walks_offer_then_answer() {
    let mut o = Orchestrator::new(WebRTCRole::Client, 7);
    assert_eq!(o.state, HandshakeState::Idle);

    let actions = o.handle(HandshakeEvent::Start);
    assert_eq!(actions.len(), 1);
    assert!(matches!(actions[0], HandshakeAction::SynthesizeOffer));
    assert_eq!(o.state, HandshakeState::Idle);

    let actions = o.handle(HandshakeEvent::LocalDescription("offer-sdp".to_string()));
    assert_eq!(actions.len(), 2);
    assert!(matches!(&actions[0], HandshakeAction::SetLocalDescription(sdp) if sdp == "offer-sdp"));
    assert!(matches!(
        &actions[1],
        HandshakeAction::Publish(ClientMessage::SignalingMessage(SignalingMessage::Offer(
            id, sdp
        ))) if *id == 7 && sdp == "offer-sdp"
    ));
    assert_eq!(o.state, HandshakeState::OfferSent);

    let actions = o.handle(HandshakeEvent::Published);
    assert!(actions.is_empty());
    assert_eq!(o.state, HandshakeState::AwaitingAnswer);

    // An answer from a peer this exchange never addressed is ignored.
    let actions = o.handle(HandshakeEvent::SignalingReceived(SignalingMessage::Answer(
        99,
        "stray".to_string(),
    )));
    assert!(actions.is_empty());
    assert_eq!(o.state, HandshakeState::AwaitingAnswer);

    let actions = o.handle(HandshakeEvent::SignalingReceived(SignalingMessage::Answer(
        7,
        "answer-sdp".to_string(),
    )));
    assert_eq!(actions.len(), 1);
    assert!(
        matches!(&actions[0], HandshakeAction::SetRemoteDescription(sdp) if sdp == "answer-sdp")
    );
    assert_eq!(o.state, HandshakeState::Connected);

    // Trickled candidates are still applied after the exchange finished.
    let actions = o.handle(HandshakeEvent::SignalingReceived(
        SignalingMessage::IceCandidate(7, candidate("late")),
    ));
    assert_eq!(actions.len(), 1);
    assert!(matches!(&actions[0], HandshakeAction::AddRemoteCandidate(c) if c.candidate == "late"));
    assert_eq!(o.state, HandshakeState::Connected);
}

#[test]
fn contacted_side_waits_then_answers() {
    let mut o = Orchestrator::new(WebRTCRole::Server, 3);

    let actions = o.handle(HandshakeEvent::Start);
    assert!(actions.is_empty());
    assert_eq!(o.state, HandshakeState::AwaitingOffer);

    // An offer from another peer is ignored; the matching one is applied.
    let actions = o.handle(HandshakeEvent::SignalingReceived(SignalingMessage::Offer(
        8,
        "stray".to_string(),
    )));
    assert!(actions.is_empty());
    assert_eq!(o.state, HandshakeState::AwaitingOffer);

    let actions = o.handle(HandshakeEvent::SignalingReceived(SignalingMessage::Offer(
        3,
        "offer-sdp".to_string(),
    )));
    assert_eq!(actions.len(), 2);
    assert!(
        matches!(&actions[0], HandshakeAction::SetRemoteDescription(sdp) if sdp == "offer-sdp")
    );
    assert!(matches!(actions[1], HandshakeAction::SynthesizeAnswer));
    assert_eq!(o.state, HandshakeState::AwaitingOffer);

    let actions = o.handle(HandshakeEvent::LocalDescription("answer-sdp".to_string()));
    assert_eq!(actions.len(), 2);
    assert!(
        matches!(&actions[0], HandshakeAction::SetLocalDescription(sdp) if sdp == "answer-sdp")
    );
    assert!(matches!(
        &actions[1],
        HandshakeAction::Publish(ClientMessage::SignalingMessage(SignalingMessage::Answer(
            id, sdp
        ))) if *id == 3 && sdp == "answer-sdp"
    ));
    assert_eq!(o.state, HandshakeState::AnswerSent);

    let actions = o.handle(HandshakeEvent::Published);
    assert!(actions.is_empty());
    assert_eq!(o.state, HandshakeState::Connected);
}

#[test]
fn local_candidates_flow_out_in_any_state() {
    let mut o = Orchestrator::new(WebRTCRole::Client, 5);
    let actions = o.handle(HandshakeEvent::LocalCandidate(candidate("host")));
    assert_eq!(actions.len(), 1);
    assert!(matches!(
        &actions[0],
        HandshakeAction::Publish(ClientMessage::SignalingMessage(
            SignalingMessage::IceCandidate(id, c)
        )) if *id == 5 && c.candidate == "host"
    ));
    assert_eq!(o.state, HandshakeState::Idle);

    // Inbound candidates are applied before the offer/answer phase too.
    let actions = o.handle(HandshakeEvent::SignalingReceived(
        SignalingMessage::IceCandidate(5, candidate("early")),
    ));
    assert_eq!(actions.len(), 1);
    assert!(
        matches!(&actions[0], HandshakeAction::AddRemoteCandidate(c) if c.candidate == "early")
    );
}

#[test]
fn default_role_waits_to_be_contacted() {
    assert_eq!(WebRTCRole::default(), WebRTCRole::Server);
}
