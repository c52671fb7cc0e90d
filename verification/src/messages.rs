//! The closed message union shared by the relay and its clients: signaling
//! envelopes, the client-to-relay and relay-to-client messages, and the
//! internal bus message that carries both.

use vstd::prelude::*;

use crate::peer::Peer;

verus! {

/// Identifies one peer: the 128-bit value of its randomly drawn identifier.
pub type PeerId = u128;

/// A possible network path descriptor, passed through the relay verbatim and
/// never interpreted by it.
#[derive(Debug)]
pub struct IceCandidate {
    pub candidate: String,
    pub sdp_mid: Option<String>,
    pub sdp_m_line_index: Option<u16>,
}

impl Clone for IceCandidate {
    fn clone(&self) -> (res: Self)
        ensures
            res == *self,
    {
        IceCandidate {
            candidate: self.candidate.clone(),
            sdp_mid: match &self.sdp_mid {
                Some(mid) => Some(mid.clone()),
                None => None,
            },
            sdp_m_line_index: self.sdp_m_line_index,
        }
    }
}

/// One step of the offer/answer/ICE exchange between two peers. On the way
/// from the sender to the relay the identifier names the intended remote
/// peer; on the way out of the relay it names the sender.
#[derive(Debug)]
pub enum SignalingMessage {
    Offer(PeerId, String),
    Answer(PeerId, String),
    IceCandidate(PeerId, IceCandidate),
}

impl Clone for SignalingMessage {
    fn clone(&self) -> (res: Self)
        ensures
            res == *self,
    {
        match self {
            SignalingMessage::Offer(id, sdp) => SignalingMessage::Offer(*id, sdp.clone()),
            SignalingMessage::Answer(id, sdp) => SignalingMessage::Answer(*id, sdp.clone()),
            SignalingMessage::IceCandidate(id, cand) => SignalingMessage::IceCandidate(
                *id,
                cand.clone(),
            ),
        }
    }
}

impl SignalingMessage {
    /// The peer the message names: its intended target before the relay
    /// rewrites it, the sender afterwards.
    pub open spec fn named_peer(self) -> PeerId {
        match self {
            SignalingMessage::Offer(id, _) => id,
            SignalingMessage::Answer(id, _) => id,
            SignalingMessage::IceCandidate(id, _) => id,
        }
    }

    /// The same envelope with the named peer replaced by `id`: the variant
    /// and the carried payload are untouched.
    pub open spec fn renamed_to(self, id: PeerId) -> SignalingMessage {
        match self {
            SignalingMessage::Offer(_, sdp) => SignalingMessage::Offer(id, sdp),
            SignalingMessage::Answer(_, sdp) => SignalingMessage::Answer(id, sdp),
            SignalingMessage::IceCandidate(_, cand) => SignalingMessage::IceCandidate(id, cand),
        }
    }

    /// Swaps the identifier a signaling envelope names: hands back the
    /// original target, for routing, together with the envelope rewritten to
    /// name `this_peer`, so the receiver learns who the message came from.
    pub fn replace_other_id_with_this_peer_id(self, this_peer: PeerId) -> (res: (
        PeerId,
        SignalingMessage,
    ))
        ensures
            res.0 == self.named_peer(),
            res.1 == self.renamed_to(this_peer),
    {
        match self {
            SignalingMessage::Offer(other_peer, offer) => (
                other_peer,
                SignalingMessage::Offer(this_peer, offer),
            ),
            SignalingMessage::Answer(other_peer, answer) => (
                other_peer,
                SignalingMessage::Answer(this_peer, answer),
            ),
            SignalingMessage::IceCandidate(other_peer, ice_candidate) => (
                other_peer,
                SignalingMessage::IceCandidate(this_peer, ice_candidate),
            ),
        }
    }
}

/// Rewriting the named peer keeps the envelope's variant and payload: only
/// the identifier changes, whatever the variant was.
pub proof fn lemma_renaming_preserves_variant(message: SignalingMessage, id: PeerId)
    ensures
        message.renamed_to(id).named_peer() == id,
        message is Offer <==> message.renamed_to(id) is Offer,
        message is Answer <==> message.renamed_to(id) is Answer,
        message is IceCandidate <==> message.renamed_to(id) is IceCandidate,
        message is Offer ==> message.renamed_to(id)->Offer_1 == message->Offer_1,
        message is Answer ==> message.renamed_to(id)->Answer_1 == message->Answer_1,
        message is IceCandidate ==> message.renamed_to(id)->IceCandidate_1
            == message->IceCandidate_1,
{
}

/// What a client may say to the relay.
#[derive(Debug)]
pub enum ClientMessage {
    CheckOnline,
    Disconnect,
    SignalingMessage(SignalingMessage),
}

impl Clone for ClientMessage {
    fn clone(&self) -> (res: Self)
        ensures
            res == *self,
    {
        match self {
            ClientMessage::CheckOnline => ClientMessage::CheckOnline,
            ClientMessage::Disconnect => ClientMessage::Disconnect,
            ClientMessage::SignalingMessage(message) => ClientMessage::SignalingMessage(
                message.clone(),
            ),
        }
    }
}

/// What the relay may say to a client.
#[derive(Debug)]
pub enum ServerMessage {
    PeerData(Peer),
    PeerJoined(Peer),
    ConnectedPeers(Vec<Peer>),
    PeerLeft(PeerId),
    CheckOnline,
    SignalingMessage(SignalingMessage),
}

impl ServerMessage {
    /// Equality up to the contents of a carried peer list: a `Vec` is
    /// compared by the sequence it holds, every other payload by value.
    pub open spec fn equivalent_to(self, other: ServerMessage) -> bool {
        match (self, other) {
            (ServerMessage::ConnectedPeers(mine), ServerMessage::ConnectedPeers(theirs)) => mine@
                == theirs@,
            _ => self == other,
        }
    }
}

impl Clone for ServerMessage {
    fn clone(&self) -> (res: Self)
        ensures
            res.equivalent_to(*self),
    {
        match self {
            ServerMessage::PeerData(peer) => ServerMessage::PeerData(peer.clone()),
            ServerMessage::PeerJoined(peer) => ServerMessage::PeerJoined(peer.clone()),
            ServerMessage::ConnectedPeers(peers) => ServerMessage::ConnectedPeers(
                clone_peer_list(peers),
            ),
            ServerMessage::PeerLeft(id) => ServerMessage::PeerLeft(*id),
            ServerMessage::CheckOnline => ServerMessage::CheckOnline,
            ServerMessage::SignalingMessage(message) => ServerMessage::SignalingMessage(
                message.clone(),
            ),
        }
    }
}

/// Copies a list of peers element by element.
pub fn clone_peer_list(peers: &Vec<Peer>) -> (res: Vec<Peer>)
    ensures
        res@ == peers@,
{
    let mut out: Vec<Peer> = Vec::new();
    let mut i: usize = 0;
    while i < peers.len()
        invariant
            i <= peers.len(),
            out@ == peers@.subrange(0, i as int),
        decreases peers.len() - i,
    {
        out.push(peers[i].clone());
        i = i + 1;
    }
    proof {
        assert(out@ =~= peers@);
    }
    out
}

/// One message on a connection's internal bus: either bound for the client
/// (a relay-to-client message) or arrived from it.
#[derive(Debug)]
pub enum AppMessage {
    SrvrMsg(ServerMessage),
    CltMsg(ClientMessage),
}

impl AppMessage {
    /// Equality up to the contents of a carried peer list, as for
    /// [`ServerMessage::equivalent_to`].
    pub open spec fn equivalent_to(self, other: AppMessage) -> bool {
        match (self, other) {
            (AppMessage::SrvrMsg(mine), AppMessage::SrvrMsg(theirs)) => mine.equivalent_to(theirs),
            _ => self == other,
        }
    }
}

impl Clone for AppMessage {
    fn clone(&self) -> (res: Self)
        ensures
            res.equivalent_to(*self),
    {
        match self {
            AppMessage::SrvrMsg(message) => AppMessage::SrvrMsg(message.clone()),
            AppMessage::CltMsg(message) => AppMessage::CltMsg(message.clone()),
        }
    }
}

/// A relay-to-client message together with the peer it is addressed to;
/// what a session step hands to the delivery layer.
#[derive(Debug)]
pub struct Envelope {
    pub to: PeerId,
    pub message: ServerMessage,
}

/// The send loop of the transport bridge forwards exactly the bus messages
/// tagged as bound for the client; everything else stays on the bus.
pub fn outbound_to_client(message: AppMessage) -> (res: Option<ServerMessage>)
    ensures
        match message {
            AppMessage::SrvrMsg(server_message) => res == Some(server_message),
            AppMessage::CltMsg(_) => res is None,
        },
{
    match message {
        AppMessage::SrvrMsg(server_message) => Some(server_message),
        AppMessage::CltMsg(_) => None,
    }
}

/// The client's send loop forwards exactly the bus messages tagged as bound
/// for the relay.
pub fn outbound_to_relay(message: AppMessage) -> (res: Option<ClientMessage>)
    ensures
        match message {
            AppMessage::CltMsg(client_message) => res == Some(client_message),
            AppMessage::SrvrMsg(_) => res is None,
        },
{
    match message {
        AppMessage::CltMsg(client_message) => Some(client_message),
        AppMessage::SrvrMsg(_) => None,
    }
}

} // verus!
