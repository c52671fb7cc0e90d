//! The connection orchestrator: one state machine per remote peer that
//! drives the offer/answer/ICE exchange for an assigned role. Every step
//! takes one event and decides the next state together with the actions
//! the RTC layer and the outbound bus must perform; the machine itself
//! performs nothing.

use vstd::prelude::*;

use crate::messages::{ClientMessage, IceCandidate, PeerId, SignalingMessage};

verus! {

/// Which side of the exchange this peer plays toward one remote peer: the
/// contacted side waits for an offer, the contacting side makes one.
#[derive(Clone, Copy, Debug, PartialEq, Eq, Structural)]
pub enum WebRTCRole {
    /// Waits for the remote peer's offer and answers it.
    Server,
    /// Synthesizes the offer and waits for the answer.
    Client,
}

impl Default for WebRTCRole {
    fn default() -> (res: Self)
        ensures
            res is Server,
    {
        WebRTCRole::Server
    }
}

/// Where one exchange stands. The contacting side walks idle, offer sent,
/// awaiting answer, connected; the contacted side walks idle, awaiting
/// offer, answer sent, connected.
#[derive(Clone, Copy, Debug, PartialEq, Eq, Structural)]
pub enum HandshakeState {
    Idle,
    OfferSent,
    AwaitingAnswer,
    AwaitingOffer,
    AnswerSent,
    Connected,
}

/// One thing the orchestrator learns of: the exchange begins, the RTC
/// layer finished synthesizing a session description, the outbound
/// message left for the relay, a signaling message arrived from the
/// relay, or the local ICE agent observed a candidate.
#[derive(Debug)]
pub enum HandshakeEvent {
    Start,
    LocalDescription(String),
    Published,
    SignalingReceived(SignalingMessage),
    LocalCandidate(IceCandidate),
}

/// One thing the orchestrator asks its surroundings to do: commit a
/// session description locally or remotely, hand a message to the
/// outbound bus, synthesize a description, or add a remote candidate to
/// the underlying connection. A failed candidate addition is logged and
/// never aborts the exchange.
#[derive(Debug)]
pub enum HandshakeAction {
    SetLocalDescription(String),
    SetRemoteDescription(String),
    Publish(ClientMessage),
    SynthesizeOffer,
    SynthesizeAnswer,
    AddRemoteCandidate(IceCandidate),
}

/// The orchestrator for one remote peer: its assigned role, the remote
/// peer's identifier, and where the exchange stands.
#[derive(Debug)]
pub struct Orchestrator {
    pub role: WebRTCRole,
    pub remote: PeerId,
    pub state: HandshakeState,
}

/// The full transition relation of the exchange, one event at a time.
/// Candidates flow in any state, in both directions, independent of the
/// offer/answer phase; an offer or answer that names another peer, or
/// arrives out of phase, is silently ignored.
pub open spec fn handshake_step(o: Orchestrator, event: HandshakeEvent) -> (
    HandshakeState,
    Seq<HandshakeAction>,
) {
    match event {
        HandshakeEvent::Start => match (o.role, o.state) {
            (WebRTCRole::Client, HandshakeState::Idle) => (
                HandshakeState::Idle,
                seq![HandshakeAction::SynthesizeOffer],
            ),
            (WebRTCRole::Server, HandshakeState::Idle) => (
                HandshakeState::AwaitingOffer,
                Seq::empty(),
            ),
            _ => (o.state, Seq::empty()),
        },
        HandshakeEvent::LocalDescription(sdp) => match (o.role, o.state) {
            (WebRTCRole::Client, HandshakeState::Idle) => (
                HandshakeState::OfferSent,
                seq![
                    HandshakeAction::SetLocalDescription(sdp),
                    HandshakeAction::Publish(
                        ClientMessage::SignalingMessage(SignalingMessage::Offer(o.remote, sdp)),
                    ),
                ],
            ),
            (WebRTCRole::Server, HandshakeState::AwaitingOffer) => (
                HandshakeState::AnswerSent,
                seq![
                    HandshakeAction::SetLocalDescription(sdp),
                    HandshakeAction::Publish(
                        ClientMessage::SignalingMessage(SignalingMessage::Answer(o.remote, sdp)),
                    ),
                ],
            ),
            _ => (o.state, Seq::empty()),
        },
        HandshakeEvent::Published => match (o.role, o.state) {
            (WebRTCRole::Client, HandshakeState::OfferSent) => (
                HandshakeState::AwaitingAnswer,
                Seq::empty(),
            ),
            (WebRTCRole::Server, HandshakeState::AnswerSent) => (
                HandshakeState::Connected,
                Seq::empty(),
            ),
            _ => (o.state, Seq::empty()),
        },
        HandshakeEvent::SignalingReceived(message) => match message {
            SignalingMessage::Answer(peer, sdp) => {
                if o.role is Client && o.state is AwaitingAnswer && peer == o.remote {
                    (HandshakeState::Connected, seq![HandshakeAction::SetRemoteDescription(sdp)])
                } else {
                    (o.state, Seq::empty())
                }
            },
            SignalingMessage::Offer(peer, sdp) => {
                if o.role is Server && o.state is AwaitingOffer && peer == o.remote {
                    (
                        HandshakeState::AwaitingOffer,
                        seq![
                            HandshakeAction::SetRemoteDescription(sdp),
                            HandshakeAction::SynthesizeAnswer,
                        ],
                    )
                } else {
                    (o.state, Seq::empty())
                }
            },
            SignalingMessage::IceCandidate(_, candidate) => (
                o.state,
                seq![HandshakeAction::AddRemoteCandidate(candidate)],
            ),
        },
        HandshakeEvent::LocalCandidate(candidate) => (
            o.state,
            seq![
                HandshakeAction::Publish(
                    ClientMessage::SignalingMessage(
                        SignalingMessage::IceCandidate(o.remote, candidate),
                    ),
                ),
            ],
        ),
    }
}

impl Orchestrator {
    /// A fresh orchestrator toward one remote peer, before anything
    /// happened.
    pub fn new(role: WebRTCRole, remote: PeerId) -> (res: Orchestrator)
        ensures
            res.role == role,
            res.remote == remote,
            res.state is Idle,
    {
        Orchestrator { role, remote, state: HandshakeState::Idle }
    }

    /// Takes one event: moves to the state the transition relation names
    /// and hands back exactly the actions it prescribes, in order. Role
    /// and remote peer never change.
    pub fn handle(&mut self, event: HandshakeEvent) -> (actions: Vec<HandshakeAction>)
        ensures
            final(self).role == old(self).role,
            final(self).remote == old(self).remote,
            final(self).state == handshake_step(*old(self), event).0,
            actions@ == handshake_step(*old(self), event).1,
    {
        let mut actions: Vec<HandshakeAction> = Vec::new();
        match event {
            HandshakeEvent::Start => {
                match (self.role, self.state) {
                    (WebRTCRole::Client, HandshakeState::Idle) => {
                        actions.push(HandshakeAction::SynthesizeOffer);
                    },
                    (WebRTCRole::Server, HandshakeState::Idle) => {
                        self.state = HandshakeState::AwaitingOffer;
                    },
                    _ => {},
                }
            },
            HandshakeEvent::LocalDescription(sdp) => {
                match (self.role, self.state) {
                    (WebRTCRole::Client, HandshakeState::Idle) => {
                        let message = ClientMessage::SignalingMessage(
                            SignalingMessage::Offer(self.remote, sdp.clone()),
                        );
                        actions.push(HandshakeAction::SetLocalDescription(sdp));
                        actions.push(HandshakeAction::Publish(message));
                        self.state = HandshakeState::OfferSent;
                    },
                    (WebRTCRole::Server, HandshakeState::AwaitingOffer) => {
                        let message = ClientMessage::SignalingMessage(
                            SignalingMessage::Answer(self.remote, sdp.clone()),
                        );
                        actions.push(HandshakeAction::SetLocalDescription(sdp));
                        actions.push(HandshakeAction::Publish(message));
                        self.state = HandshakeState::AnswerSent;
                    },
                    _ => {},
                }
            },
            HandshakeEvent::Published => {
                match (self.role, self.state) {
                    (WebRTCRole::Client, HandshakeState::OfferSent) => {
                        self.state = HandshakeState::AwaitingAnswer;
                    },
                    (WebRTCRole::Server, HandshakeState::AnswerSent) => {
                        self.state = HandshakeState::Connected;
                    },
                    _ => {},
                }
            },
            HandshakeEvent::SignalingReceived(message) => {
                match message {
                    SignalingMessage::Answer(peer, sdp) => {
                        if matches!(self.role, WebRTCRole::Client) && matches!(
                            self.state,
                            HandshakeState::AwaitingAnswer,
                        ) && peer == self.remote {
                            actions.push(HandshakeAction::SetRemoteDescription(sdp));
                            self.state = HandshakeState::Connected;
                        }
                    },
                    SignalingMessage::Offer(peer, sdp) => {
                        if matches!(self.role, WebRTCRole::Server) && matches!(
                            self.state,
                            HandshakeState::AwaitingOffer,
                        ) && peer == self.remote {
                            actions.push(HandshakeAction::SetRemoteDescription(sdp));
                            actions.push(HandshakeAction::SynthesizeAnswer);
                        }
                    },
                    SignalingMessage::IceCandidate(_, candidate) => {
                        actions.push(HandshakeAction::AddRemoteCandidate(candidate));
                    },
                }
            },
            HandshakeEvent::LocalCandidate(candidate) => {
                actions.push(
                    HandshakeAction::Publish(
                        ClientMessage::SignalingMessage(
                            SignalingMessage::IceCandidate(self.remote, candidate),
                        ),
                    ),
                );
            },
        }
        actions
    }
}

} // verus!
