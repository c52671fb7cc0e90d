//! One connected peer on the relay side: its identity, how it is created,
//! and the session steps that mutate the room registry and decide which
//! messages go out to which peers. A step never sends anything itself: it
//! returns addressed envelopes for the delivery layer to carry.

use vstd::prelude::*;

use crate::RelayError;
use crate::messages::{ClientMessage, Envelope, PeerId, ServerMessage, SignalingMessage};
use crate::platform::{os_label, platform_label, unknown_label};
use crate::room::{Room, is_snapshot_of};
use crate::rooms::Rooms;

verus! {

/// A peer as the relay knows it: identifier, display name, platform label,
/// and the origin key of the network it connected from. Immutable once
/// created.
#[derive(Debug)]
pub struct Peer {
    pub id: PeerId,
    pub name: String,
    pub os: String,
    pub ip: u128,
}

impl Clone for Peer {
    fn clone(&self) -> (res: Self)
        ensures
            res == *self,
    {
        Peer { id: self.id, name: self.name.clone(), os: self.os.clone(), ip: self.ip }
    }
}

/// Relies on `uuid::Uuid::new_v4`: a freshly drawn random 128-bit
/// identifier, here taken as its big-endian integer value. The result is
/// random; nothing relates two draws.
#[verifier::external_body]
pub(crate) fn fresh_peer_id() -> PeerId {
    uuid::Uuid::new_v4().as_u128()
}

/// The member map of the room under this origin key, empty when none is
/// alive.
pub open spec fn room_members(registry: Map<u128, Map<PeerId, Peer>>, ip: u128) -> Map<
    PeerId,
    Peer,
> {
    if registry.dom().contains(ip) {
        registry[ip]
    } else {
        Map::empty()
    }
}

/// The message carries exactly this list of peers as the current members.
pub open spec fn is_connected_peers_message(m: ServerMessage, others: Seq<Peer>) -> bool {
    m matches ServerMessage::ConnectedPeers(list) && list@ == others
}

/// The envelopes a join produces, in order: first the new peer learns its
/// own record, then every prior member learns of the join, then the new
/// peer gets the snapshot of those prior members. The new peer's record
/// reaches it before any other peer is told about it.
pub open spec fn is_join_outbox(p: Peer, others: Seq<Peer>, outbox: Seq<Envelope>) -> bool {
    &&& outbox.len() == others.len() + 2
    &&& outbox[0] == (Envelope { to: p.id, message: ServerMessage::PeerData(p) })
    &&& forall|i: int|
        0 <= i < others.len() ==> #[trigger] outbox[i + 1] == (Envelope {
            to: others[i].id,
            message: ServerMessage::PeerJoined(p),
        })
    &&& outbox[outbox.len() - 1].to == p.id
    &&& is_connected_peers_message(outbox[outbox.len() - 1].message, others)
}

/// The envelopes a departure produces: one notice to every remaining
/// member of the room the peer left.
pub open spec fn is_left_outbox(leaver: PeerId, rest: Seq<Peer>, outbox: Seq<Envelope>) -> bool {
    &&& outbox.len() == rest.len()
    &&& forall|i: int|
        0 <= i < rest.len() ==> #[trigger] outbox[i] == (Envelope {
            to: rest[i].id,
            message: ServerMessage::PeerLeft(leaver),
        })
}

/// What a departure does to the registry: the peer leaves its room, and
/// the room itself is dropped exactly when that made it empty.
pub open spec fn disconnect_transition(
    p: Peer,
    before: Map<u128, Map<PeerId, Peer>>,
    after: Map<u128, Map<PeerId, Peer>>,
) -> bool {
    let remaining = before[p.ip].remove(p.id);
    if remaining.dom() =~= Set::<PeerId>::empty() {
        after == before.remove(p.ip)
    } else {
        after == before.insert(p.ip, remaining)
    }
}

/// What relaying a signaling message comes to: when the sender's room is
/// alive and holds the addressed peer, that peer gets the envelope with
/// the sender's identity written into it; otherwise the exchange fails
/// with a not-found condition and nothing is delivered.
pub open spec fn signal_outcome(
    p: Peer,
    message: SignalingMessage,
    registry: Map<u128, Map<PeerId, Peer>>,
) -> Result<Envelope, RelayError> {
    let other = message.named_peer();
    if registry.dom().contains(p.ip) && registry[p.ip].dom().contains(other) {
        Ok(
            Envelope {
                to: other,
                message: ServerMessage::SignalingMessage(message.renamed_to(p.id)),
            },
        )
    } else {
        Err(RelayError::NotFound)
    }
}

impl Peer {
    /// Builds a peer for a fresh connection: a random identifier, the
    /// given display name, the platform label derived once from the
    /// client's user-agent line, and the origin key it connected from.
    pub fn new(user_agent: Option<&str>, ip: u128, name: String) -> (res: Peer)
        ensures
            res.name == name,
            res.ip == ip,
            res.os@ == match user_agent {
                Some(ua) => os_label(ua@),
                None => "unknown"@,
            },
    {
        let os = Self::extract_peer_os(user_agent);
        Peer { id: fresh_peer_id(), name, os, ip }
    }

    /// The platform label for a client's user-agent line; an absent line
    /// maps to the unknown label, never to an error.
    pub fn extract_peer_os(user_agent: Option<&str>) -> (res: String)
        ensures
            res@ == match user_agent {
                Some(ua) => os_label(ua@),
                None => "unknown"@,
            },
    {
        match user_agent {
            Some(ua) => platform_label(ua),
            None => unknown_label(),
        }
    }

    /// Enters this peer into a room.
    pub fn join_room(&self, room: &mut Room)
        requires
            old(room).wf(),
        ensures
            final(room).wf(),
            final(room)@ == old(room)@.insert(self.id, *self),
    {
        room.receive_peer(self.clone());
    }

    /// Registers a newly connected peer: joins the room of its origin,
    /// creating the room first when none is alive, and produces the join
    /// envelopes. The snapshot sent to the new peer holds exactly the
    /// members present before the join.
    pub fn init(&self, rooms: &mut Rooms) -> (outbox: Vec<Envelope>)
        requires
            old(rooms).wf(),
        ensures
            final(rooms).wf(),
            final(rooms)@ == old(rooms)@.insert(
                self.ip,
                room_members(old(rooms)@, self.ip).insert(self.id, *self),
            ),
            exists|others: Seq<Peer>|
                #[trigger] is_snapshot_of(others, room_members(old(rooms)@, self.ip))
                    && is_join_outbox(*self, others, outbox@),
    {
        let ghost registry = rooms@;
        let room = rooms.get_or_create(&self.ip);
        let others = room.peers();
        let ghost others_view = others@;
        proof {
            assert(is_snapshot_of(others_view, room_members(registry, self.ip)));
        }
        self.join_room(room);
        let mut outbox: Vec<Envelope> = Vec::new();
        outbox.push(Envelope { to: self.id, message: ServerMessage::PeerData(self.clone()) });
        let mut i: usize = 0;
        while i < others.len()
            invariant
                i <= others@.len(),
                others@ == others_view,
                outbox@.len() == i + 1,
                outbox@[0] == (Envelope { to: self.id, message: ServerMessage::PeerData(*self) }),
                forall|q: int|
                    0 <= q < i ==> #[trigger] outbox@[q + 1] == (Envelope {
                        to: others_view[q].id,
                        message: ServerMessage::PeerJoined(*self),
                    }),
            decreases others@.len() - i,
        {
            outbox.push(
                Envelope { to: others[i].id, message: ServerMessage::PeerJoined(self.clone()) },
            );
            i = i + 1;
        }
        outbox.push(Envelope { to: self.id, message: ServerMessage::ConnectedPeers(others) });
        proof {
            assert(is_join_outbox(*self, others_view, outbox@));
        }
        outbox
    }

    /// Liveness only: answering costs the relay no state change.
    pub fn check_online(&self) {
    }

    /// Removes this peer from its room, produces the departure notices for
    /// the members that stay, and drops the room exactly when the peer was
    /// its last member.
    pub fn disconnect(&self, rooms: &mut Rooms) -> (outbox: Vec<Envelope>)
        requires
            old(rooms).wf(),
            old(rooms)@.dom().contains(self.ip),
        ensures
            final(rooms).wf(),
            disconnect_transition(*self, old(rooms)@, final(rooms)@),
            exists|rest: Seq<Peer>|
                #[trigger] is_snapshot_of(rest, old(rooms)@[self.ip].remove(self.id))
                    && is_left_outbox(self.id, rest, outbox@),
    {
        let ghost remaining = old(rooms)@[self.ip].remove(self.id);
        let room = rooms.get_mut(&self.ip);
        room.remove_peer(&self.id);
        let rest = room.peers();
        let ghost rest_view = rest@;
        let now_empty = room.is_empty();
        proof {
            room.lemma_members_finite();
            if now_empty {
                room@.dom().lemma_len0_is_empty();
            }
        }
        let mut outbox: Vec<Envelope> = Vec::new();
        let mut i: usize = 0;
        while i < rest.len()
            invariant
                i <= rest@.len(),
                rest@ == rest_view,
                outbox@.len() == i,
                forall|q: int|
                    0 <= q < i ==> #[trigger] outbox@[q] == (Envelope {
                        to: rest_view[q].id,
                        message: ServerMessage::PeerLeft(self.id),
                    }),
            decreases rest@.len() - i,
        {
            outbox.push(Envelope { to: rest[i].id, message: ServerMessage::PeerLeft(self.id) });
            i = i + 1;
        }
        if now_empty {
            rooms.delete_room(&self.ip);
            proof {
                assert(final(rooms)@ =~= old(rooms)@.remove(self.ip));
            }
        } else {
            proof {
                assert(!(remaining.dom() =~= Set::<PeerId>::empty()));
            }
        }
        proof {
            assert(is_left_outbox(self.id, rest_view, outbox@));
        }
        outbox
    }

    /// Routes one signaling message: rewrites the identity it names to
    /// this peer's own, then addresses it to the peer it originally named,
    /// provided the room and that peer are present.
    pub fn signal(&self, message: SignalingMessage, rooms: &Rooms) -> (res: Result<
        Envelope,
        RelayError,
    >)
        requires
            rooms.wf(),
        ensures
            res == signal_outcome(*self, message, rooms@),
    {
        let (other_peer_id, message) = message.replace_other_id_with_this_peer_id(self.id);
        match rooms.get(&self.ip) {
            None => Err(RelayError::NotFound),
            Some(room) => match room.get(&other_peer_id) {
                None => Err(RelayError::NotFound),
                Some(_other_peer) => Ok(
                    Envelope {
                        to: other_peer_id,
                        message: ServerMessage::SignalingMessage(message),
                    },
                ),
            },
        }
    }

    /// Dispatches one inbound client message: liveness checks cost
    /// nothing, a disconnect runs the departure step, and a signaling
    /// message is routed to the peer it names.
    pub fn handle_client_message(&self, message: ClientMessage, rooms: &mut Rooms) -> (res: Result<
        Vec<Envelope>,
        RelayError,
    >)
        requires
            old(rooms).wf(),
            message is Disconnect ==> old(rooms)@.dom().contains(self.ip),
        ensures
            final(rooms).wf(),
            match message {
                ClientMessage::CheckOnline => final(rooms)@ == old(rooms)@ && (res matches Ok(
                    outbox,
                ) && outbox@ =~= Seq::<Envelope>::empty()),
                ClientMessage::Disconnect => disconnect_transition(
                    *self,
                    old(rooms)@,
                    final(rooms)@,
                ) && (res matches Ok(outbox) && exists|rest: Seq<Peer>|
                    #[trigger] is_snapshot_of(rest, old(rooms)@[self.ip].remove(self.id))
                        && is_left_outbox(self.id, rest, outbox@)),
                ClientMessage::SignalingMessage(inner) => final(rooms)@ == old(rooms)@ && match
                    signal_outcome(*self, inner, old(rooms)@) {
                    Ok(envelope) => res matches Ok(outbox) && outbox@ =~= seq![envelope],
                    Err(error) => res matches Err(actual) && actual == error,
                },
            },
    {
        match message {
            ClientMessage::CheckOnline => {
                self.check_online();
                Ok(Vec::new())
            },
            ClientMessage::Disconnect => Ok(self.disconnect(rooms)),
            ClientMessage::SignalingMessage(inner) => {
                match self.signal(inner, rooms) {
                    Ok(envelope) => {
                        let mut outbox: Vec<Envelope> = Vec::new();
                        outbox.push(envelope);
                        Ok(outbox)
                    },
                    Err(error) => Err(error),
                }
            },
        }
    }
}

} // verus!
