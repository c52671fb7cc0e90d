//! The client's picture of its room: the peer it is itself, and the list
//! of the other peers currently present, folded from the relay's
//! membership messages.

use vstd::prelude::*;

use crate::handshake::WebRTCRole;
use crate::messages::{PeerId, ServerMessage};
use crate::peer::Peer;

verus! {

/// Another peer as the client lists it, together with the role this
/// client plays toward it.
#[derive(Debug)]
pub struct OtherPeer {
    pub id: PeerId,
    pub name: String,
    pub os: String,
    pub role: WebRTCRole,
}

impl Clone for OtherPeer {
    fn clone(&self) -> (res: Self)
        ensures
            res == *self,
    {
        OtherPeer {
            id: self.id,
            name: self.name.clone(),
            os: self.os.clone(),
            role: self.role,
        }
    }
}

impl PartialEq for OtherPeer {
    /// Two listed peers are the same peer when record and identifier
    /// agree; the role this client plays toward them does not count.
    fn eq(&self, other: &Self) -> bool {
        self.name == other.name && self.os == other.os && self.id == other.id
    }
}

impl vstd::std_specs::cmp::PartialEqSpecImpl for OtherPeer {
    open spec fn obeys_eq_spec() -> bool {
        true
    }

    open spec fn eq_spec(&self, other: &OtherPeer) -> bool {
        self.name@ == other.name@ && self.os@ == other.os@ && self.id == other.id
    }
}

impl OtherPeer {
    /// Reassigns the role this client plays toward the peer; everything
    /// else stays.
    pub fn set_role(&mut self, role: WebRTCRole)
        ensures
            final(self).role == role,
            final(self).id == old(self).id,
            final(self).name == old(self).name,
            final(self).os == old(self).os,
    {
        self.role = role;
    }
}

/// This client's own record, as assigned by the relay.
#[derive(Debug)]
pub struct ThisPeer {
    pub name: String,
    pub id: PeerId,
}

impl Clone for ThisPeer {
    fn clone(&self) -> (res: Self)
        ensures
            res == *self,
    {
        ThisPeer { name: self.name.clone(), id: self.id }
    }
}

/// The listed form of a relay-side peer record, under a given role.
pub open spec fn as_other_peer(p: Peer, role: WebRTCRole) -> OtherPeer {
    OtherPeer { id: p.id, name: p.name, os: p.os, role }
}

/// Where the client's receive loop hands one relay message: its own
/// record goes to the local store, a liveness probe is answered at once,
/// a signaling message is republished on the bus for the orchestrators,
/// and a membership message updates the peer list.
#[derive(Debug)]
pub enum ClientRoute {
    StoreSelf(ThisPeer),
    ReplyCheckOnline,
    Signaling(ServerMessage),
    UpdatePeerList(ServerMessage),
}

/// Decides, for one message arrived from the relay, which of the client's
/// components reacts to it.
pub fn route_server_message(message: ServerMessage) -> (res: ClientRoute)
    ensures
        match message {
            ServerMessage::PeerData(p) => res matches ClientRoute::StoreSelf(this) && this.id
                == p.id && this.name == p.name,
            ServerMessage::CheckOnline => res is ReplyCheckOnline,
            ServerMessage::SignalingMessage(_) => res matches ClientRoute::Signaling(m) && m
                == message,
            _ => res matches ClientRoute::UpdatePeerList(m) && m == message,
        },
{
    match message {
        ServerMessage::PeerData(p) => ClientRoute::StoreSelf(ThisPeer { name: p.name, id: p.id }),
        ServerMessage::CheckOnline => ClientRoute::ReplyCheckOnline,
        ServerMessage::SignalingMessage(inner) => ClientRoute::Signaling(
            ServerMessage::SignalingMessage(inner),
        ),
        other => ClientRoute::UpdatePeerList(other),
    }
}

/// The other peers the client currently lists.
#[derive(Debug)]
pub struct OtherPeers {
    pub peers: Vec<OtherPeer>,
}

impl OtherPeers {
    /// An empty list, before the relay said anything.
    pub fn new() -> (res: OtherPeers)
        ensures
            res.peers@ == Seq::<OtherPeer>::empty(),
    {
        OtherPeers { peers: Vec::new() }
    }

    /// Folds one relay message into the list: a member snapshot replaces
    /// it wholesale, with this client waiting to be contacted by each; a
    /// join appends the newcomer, whom this client will contact; a
    /// departure drops every entry with the leaving identifier; any other
    /// message leaves the list as it is.
    pub fn reduce(self, action: ServerMessage) -> (res: OtherPeers)
        ensures
            match action {
                ServerMessage::ConnectedPeers(list) => res.peers@ == list@.map_values(
                    |p: Peer| as_other_peer(p, WebRTCRole::Server),
                ),
                ServerMessage::PeerJoined(p) => res.peers@ == self.peers@.push(
                    as_other_peer(p, WebRTCRole::Client),
                ),
                ServerMessage::PeerLeft(id) => res.peers@ == self.peers@.filter(
                    |q: OtherPeer| q.id != id,
                ),
                _ => res.peers@ == self.peers@,
            },
    {
        match action {
            ServerMessage::ConnectedPeers(list) => {
                let mut peers: Vec<OtherPeer> = Vec::new();
                let mut i: usize = 0;
                while i < list.len()
                    invariant
                        i <= list@.len(),
                        peers@ =~= list@.subrange(0, i as int).map_values(
                            |p: Peer| as_other_peer(p, WebRTCRole::Server),
                        ),
                    decreases list@.len() - i,
                {
                    let p = &list[i];
                    peers.push(
                        OtherPeer {
                            id: p.id,
                            name: p.name.clone(),
                            os: p.os.clone(),
                            role: WebRTCRole::Server,
                        },
                    );
                    proof {
                        assert(list@.subrange(0, i as int + 1).drop_last() =~= list@.subrange(
                            0,
                            i as int,
                        ));
                        assert(peers@ =~= list@.subrange(0, i as int + 1).map_values(
                            |p: Peer| as_other_peer(p, WebRTCRole::Server),
                        ));
                    }
                    i = i + 1;
                }
                proof {
                    assert(list@.subrange(0, list@.len() as int) =~= list@);
                }
                OtherPeers { peers }
            },
            ServerMessage::PeerJoined(p) => {
                let mut joined = OtherPeer {
                    id: p.id,
                    name: p.name,
                    os: p.os,
                    role: WebRTCRole::Server,
                };
                joined.set_role(WebRTCRole::Client);
                let mut peers = self.peers;
                peers.push(joined);
                OtherPeers { peers }
            },
            ServerMessage::PeerLeft(id) => {
                let ghost pred = |q: OtherPeer| q.id != id;
                let mut peers: Vec<OtherPeer> = Vec::new();
                let mut i: usize = 0;
                while i < self.peers.len()
                    invariant
                        i <= self.peers@.len(),
                        peers@ =~= self.peers@.subrange(0, i as int).filter(pred),
                        pred == (|q: OtherPeer| q.id != id),
                    decreases self.peers@.len() - i,
                {
                    proof {
                        assert(self.peers@.subrange(0, i as int + 1).drop_last()
                            =~= self.peers@.subrange(0, i as int));
                        assert(self.peers@.subrange(0, i as int + 1).last() == self.peers@[
                            i as int
                        ]);
                        reveal(Seq::filter);
                    }
                    if self.peers[i].id != id {
                        peers.push(self.peers[i].clone());
                    }
                    i = i + 1;
                }
                proof {
                    assert(self.peers@.subrange(0, self.peers@.len() as int) =~= self.peers@);
                }
                OtherPeers { peers }
            },
            _ => self,
        }
    }
}

} // verus!
