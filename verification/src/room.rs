//! One room: the set of peers grouped under one network origin, eligible to
//! signal one another. Behaves as a map from peer identifier to peer; its
//! abstract value is exactly that map.

use vstd::prelude::*;

use crate::messages::PeerId;
use crate::peer::Peer;

verus! {

/// No two entries of the sequence carry the same peer identifier.
pub open spec fn unique_ids(s: Seq<Peer>) -> bool {
    forall|i: int, j: int| 0 <= i < j < s.len() ==> s[i].id != s[j].id
}

/// Some entry of the sequence carries this identifier.
pub open spec fn has_id(s: Seq<Peer>, id: PeerId) -> bool {
    exists|i: int| 0 <= i < s.len() && s[i].id == id
}

/// The map a sequence of peers stands for: each entry keyed by its
/// identifier, later entries overriding earlier ones.
pub open spec fn peers_as_map(s: Seq<Peer>) -> Map<PeerId, Peer>
    decreases s.len(),
{
    if s.len() == 0 {
        Map::empty()
    } else {
        peers_as_map(s.drop_last()).insert(s.last().id, s.last())
    }
}

/// An identifier is in the map exactly when some entry carries it.
proof fn lemma_peers_as_map_domain(s: Seq<Peer>)
    ensures
        forall|id: PeerId| #[trigger] peers_as_map(s).dom().contains(id) <==> has_id(s, id),
    decreases s.len(),
{
    if s.len() > 0 {
        lemma_peers_as_map_domain(s.drop_last());
        assert forall|id: PeerId| #[trigger] peers_as_map(s).dom().contains(id) implies has_id(
            s,
            id,
        ) by {
            if id == s.last().id {
                assert(s[s.len() - 1].id == id);
            } else {
                assert(peers_as_map(s.drop_last()).dom().contains(id));
                assert(has_id(s.drop_last(), id));
                let i = choose|i: int| 0 <= i < s.drop_last().len() && s.drop_last()[i].id == id;
                assert(s[i].id == id);
            }
        }
        assert forall|id: PeerId| has_id(s, id) implies #[trigger] peers_as_map(s).dom().contains(
            id,
        ) by {
            let i = choose|i: int| 0 <= i < s.len() && s[i].id == id;
            if i < s.len() - 1 {
                assert(s.drop_last()[i].id == id);
                assert(has_id(s.drop_last(), id));
                assert(peers_as_map(s.drop_last()).dom().contains(id));
            } else {
                assert(id == s.last().id);
            }
        }
    }
}

/// With unique identifiers, the map sends each entry's identifier to that
/// entry.
proof fn lemma_peers_as_map_at_index(s: Seq<Peer>, i: int)
    requires
        unique_ids(s),
        0 <= i < s.len(),
    ensures
        peers_as_map(s).dom().contains(s[i].id),
        peers_as_map(s)[s[i].id] == s[i],
    decreases s.len(),
{
    if i < s.len() - 1 {
        lemma_peers_as_map_at_index(s.drop_last(), i);
        assert(s.drop_last()[i] == s[i]);
        assert(s[i].id != s.last().id);
    }
}

/// With unique identifiers, replacing the entry that carries a given
/// identifier is insertion into the map.
proof fn lemma_peers_as_map_update(s: Seq<Peer>, j: int, p: Peer)
    requires
        unique_ids(s),
        0 <= j < s.len(),
        s[j].id == p.id,
    ensures
        peers_as_map(s.update(j, p)) =~= peers_as_map(s).insert(p.id, p),
    decreases s.len(),
{
    if j == s.len() - 1 {
        assert(s.update(j, p).drop_last() =~= s.drop_last());
        assert(s.update(j, p).last() == p);
    } else {
        assert(s.update(j, p).drop_last() =~= s.drop_last().update(j, p));
        lemma_peers_as_map_update(s.drop_last(), j, p);
        assert(s.last().id != p.id);
        assert(s.update(j, p).last() == s.last());
    }
}

/// With unique identifiers, dropping the entry that carries a given
/// identifier is removal from the map.
proof fn lemma_peers_as_map_remove(s: Seq<Peer>, j: int)
    requires
        unique_ids(s),
        0 <= j < s.len(),
    ensures
        peers_as_map(s.remove(j)) =~= peers_as_map(s).remove(s[j].id),
    decreases s.len(),
{
    if j == s.len() - 1 {
        assert(s.remove(j) =~= s.drop_last());
        lemma_peers_as_map_domain(s.drop_last());
        assert(!has_id(s.drop_last(), s.last().id));
        assert(peers_as_map(s.drop_last()).insert(s.last().id, s.last()).remove(s.last().id)
            =~= peers_as_map(s.drop_last()));
    } else {
        assert(s.remove(j).drop_last() =~= s.drop_last().remove(j));
        lemma_peers_as_map_remove(s.drop_last(), j);
        assert(s.last().id != s[j].id);
        assert(s.remove(j).last() == s.last());
    }
}

/// The map a finite sequence stands for is finite.
proof fn lemma_peers_as_map_finite(s: Seq<Peer>)
    ensures
        peers_as_map(s).dom().finite(),
    decreases s.len(),
{
    if s.len() > 0 {
        lemma_peers_as_map_finite(s.drop_last());
    }
}

/// With unique identifiers, the map has exactly one pair per entry.
proof fn lemma_peers_as_map_card(s: Seq<Peer>)
    requires
        unique_ids(s),
    ensures
        peers_as_map(s).dom().finite(),
        peers_as_map(s).dom().len() == s.len(),
    decreases s.len(),
{
    if s.len() > 0 {
        lemma_peers_as_map_card(s.drop_last());
        lemma_peers_as_map_domain(s.drop_last());
        assert(!has_id(s.drop_last(), s.last().id));
    }
}

/// The list holds exactly the map's peers, each exactly once, in no
/// particular order.
pub open spec fn is_snapshot_of(s: Seq<Peer>, m: Map<PeerId, Peer>) -> bool {
    &&& forall|i: int| 0 <= i < s.len() ==> m.contains_pair(#[trigger] s[i].id, s[i])
    &&& unique_ids(s)
    &&& forall|id: PeerId| #[trigger] m.dom().contains(id) ==> has_id(s, id)
}

/// A mutable set of peers keyed by identifier. Created empty when the first
/// peer of a group arrives; the registry destroys it when its last peer
/// leaves.
#[derive(Debug)]
pub struct Room {
    peers: Vec<Peer>,
}

impl View for Room {
    type V = Map<PeerId, Peer>;

    closed spec fn view(&self) -> Map<PeerId, Peer> {
        peers_as_map(self.peers@)
    }
}

impl Room {
    /// The backing list never carries an identifier twice.
    pub closed spec fn wf(self) -> bool {
        unique_ids(self.peers@)
    }

    /// How many peers the room holds.
    pub open spec fn member_count(self) -> nat {
        self@.dom().len()
    }

    /// A fresh, empty room.
    pub fn new() -> (res: Room)
        ensures
            res.wf(),
            res@ == Map::<PeerId, Peer>::empty(),
    {
        Room { peers: Vec::new() }
    }

    /// A room never holds more than finitely many members.
    pub proof fn lemma_members_finite(self)
        ensures
            self@.dom().finite(),
    {
        lemma_peers_as_map_finite(self.peers@);
    }

    /// The member carrying this identifier, if it is present.
    pub fn get(&self, id: &PeerId) -> (res: Option<&Peer>)
        requires
            self.wf(),
        ensures
            match res {
                Some(peer) => self@.contains_pair(*id, *peer),
                None => !self@.dom().contains(*id),
            },
    {
        proof {
            lemma_peers_as_map_domain(self.peers@);
        }
        let n = self.peers.len();
        let mut i: usize = 0;
        while i < n
            invariant
                n == self.peers.len(),
                i <= n,
                forall|k: int| 0 <= k < i ==> self.peers@[k].id != *id,
                self.wf(),
                forall|pid: PeerId| #[trigger] self@.dom().contains(pid) <==> has_id(
                    self.peers@,
                    pid,
                ),
            decreases n - i,
        {
            if self.peers[i].id == *id {
                proof {
                    lemma_peers_as_map_at_index(self.peers@, i as int);
                }
                return Some(&self.peers[i]);
            }
            i = i + 1;
        }
        None
    }

    /// Inserts the peer, replacing any member that already carries its
    /// identifier.
    pub fn receive_peer(&mut self, peer: Peer)
        requires
            old(self).wf(),
        ensures
            final(self).wf(),
            final(self)@ == old(self)@.insert(peer.id, peer),
    {
        let n = self.peers.len();
        let mut i: usize = 0;
        while i < n
            invariant
                n == self.peers.len(),
                i <= n,
                forall|k: int| 0 <= k < i ==> self.peers@[k].id != peer.id,
                self.wf(),
                self == old(self),
            decreases n - i,
        {
            if self.peers[i].id == peer.id {
                proof {
                    lemma_peers_as_map_update(self.peers@, i as int, peer);
                    assert(unique_ids(self.peers@.update(i as int, peer)));
                }
                self.peers.set(i, peer);
                return ;
            }
            i = i + 1;
        }
        proof {
            lemma_peers_as_map_domain(self.peers@);
            assert(self.peers@.push(peer).drop_last() =~= self.peers@);
            assert(unique_ids(self.peers@.push(peer))) by {
                assert(forall|k: int|
                    0 <= k < self.peers@.len() ==> self.peers@.push(peer)[k] == self.peers@[k]);
            }
        }
        self.peers.push(peer);
    }

    /// Drops the member carrying this identifier; a no-op when it is
    /// absent.
    pub fn remove_peer(&mut self, id: &PeerId)
        requires
            old(self).wf(),
        ensures
            final(self).wf(),
            final(self)@ == old(self)@.remove(*id),
    {
        let n = self.peers.len();
        let mut i: usize = 0;
        while i < n
            invariant
                n == self.peers.len(),
                i <= n,
                forall|k: int| 0 <= k < i ==> self.peers@[k].id != *id,
                self.wf(),
                self == old(self),
            decreases n - i,
        {
            if self.peers[i].id == *id {
                proof {
                    lemma_peers_as_map_remove(self.peers@, i as int);
                    let removed = self.peers@.remove(i as int);
                    assert(unique_ids(removed)) by {
                        assert(forall|k: int|
                            0 <= k < removed.len() ==> removed[k] == if k < i as int {
                                self.peers@[k]
                            } else {
                                self.peers@[k + 1]
                            });
                    }
                }
                self.peers.remove(i);
                return ;
            }
            i = i + 1;
        }
        proof {
            lemma_peers_as_map_domain(self.peers@);
            assert(!self@.dom().contains(*id));
            assert(self@ =~= self@.remove(*id));
        }
    }

    /// A snapshot of the current members, in no guaranteed order.
    pub fn peers(&self) -> (res: Vec<Peer>)
        requires
            self.wf(),
        ensures
            is_snapshot_of(res@, self@),
            res@.len() == self.member_count(),
    {
        proof {
            lemma_peers_as_map_domain(self.peers@);
            lemma_peers_as_map_card(self.peers@);
            assert forall|i: int| 0 <= i < self.peers@.len() implies self@.contains_pair(
                #[trigger] self.peers@[i].id,
                self.peers@[i],
            ) by {
                lemma_peers_as_map_at_index(self.peers@, i);
            }
        }
        crate::messages::clone_peer_list(&self.peers)
    }

    /// Whether the room holds no peers at all.
    pub fn is_empty(&self) -> (res: bool)
        requires
            self.wf(),
        ensures
            res <==> self.member_count() == 0,
    {
        proof {
            lemma_peers_as_map_card(self.peers@);
        }
        self.peers.len() == 0
    }
}

/// One membership change in a room's history.
pub enum MemberEvent {
    Joined(Peer),
    Left(PeerId),
}

/// The member map a history of joins and leaves builds up, applied in
/// order from an empty room.
pub open spec fn members_after(events: Seq<MemberEvent>) -> Map<PeerId, Peer>
    decreases events.len(),
{
    if events.len() == 0 {
        Map::empty()
    } else {
        let m = members_after(events.drop_last());
        match events.last() {
            MemberEvent::Joined(p) => m.insert(p.id, p),
            MemberEvent::Left(id) => m.remove(id),
        }
    }
}

/// The event at position `i` is a join of this identifier.
pub open spec fn is_join_of(events: Seq<MemberEvent>, i: int, id: PeerId) -> bool {
    0 <= i < events.len() && (events[i] matches MemberEvent::Joined(p) && p.id == id)
}

/// Some event after position `i` removes this identifier.
pub open spec fn left_after(events: Seq<MemberEvent>, i: int, id: PeerId) -> bool {
    exists|j: int| i < j < events.len() && events[j] == MemberEvent::Left(id)
}

/// The identifier joined at some point and has not left since.
pub open spec fn joined_and_not_left(events: Seq<MemberEvent>, id: PeerId) -> bool {
    exists|i: int| #[trigger] is_join_of(events, i, id) && !left_after(events, i, id)
}

/// Extending a history by one event changes the member map exactly as
/// the room operations do: a join inserts the peer under its identifier,
/// a departure removes it.
pub proof fn lemma_history_step(events: Seq<MemberEvent>, event: MemberEvent)
    ensures
        members_after(events.push(event)) == match event {
            MemberEvent::Joined(p) => members_after(events).insert(p.id, p),
            MemberEvent::Left(id) => members_after(events).remove(id),
        },
{
    assert(events.push(event).drop_last() =~= events);
}

/// After any history of joins and leaves, the room holds exactly the
/// peers that joined and have not left since, in no particular order.
pub proof fn lemma_membership_follows_history(events: Seq<MemberEvent>)
    ensures
        forall|id: PeerId| #[trigger] members_after(events).dom().contains(id)
            <==> joined_and_not_left(events, id),
    decreases events.len(),
{
    if events.len() > 0 {
        let prefix = events.drop_last();
        let n = events.len() - 1;
        lemma_membership_follows_history(prefix);
        assert forall|id: PeerId| #[trigger] members_after(events).dom().contains(
            id,
        ) implies joined_and_not_left(events, id) by {
            match events.last() {
                MemberEvent::Joined(p) => {
                    if id == p.id {
                        assert(is_join_of(events, n, id));
                        assert(!left_after(events, n, id));
                    } else {
                        assert(members_after(prefix).dom().contains(id));
                        let i = choose|i: int|
                            #[trigger] is_join_of(prefix, i, id) && !left_after(prefix, i, id);
                        assert(is_join_of(events, i, id));
                        assert(!left_after(events, i, id)) by {
                            if left_after(events, i, id) {
                                let j = choose|j: int|
                                    i < j < events.len() && events[j] == MemberEvent::Left(id);
                                assert(j < n);
                                assert(prefix[j] == events[j]);
                                assert(left_after(prefix, i, id));
                            }
                        }
                    }
                },
                MemberEvent::Left(lid) => {
                    assert(id != lid);
                    assert(members_after(prefix).dom().contains(id));
                    let i = choose|i: int|
                        #[trigger] is_join_of(prefix, i, id) && !left_after(prefix, i, id);
                    assert(is_join_of(events, i, id));
                    assert(!left_after(events, i, id)) by {
                        if left_after(events, i, id) {
                            let j = choose|j: int|
                                i < j < events.len() && events[j] == MemberEvent::Left(id);
                            if j < n {
                                assert(prefix[j] == events[j]);
                                assert(left_after(prefix, i, id));
                            } else {
                                assert(events[j] == MemberEvent::Left(lid));
                            }
                        }
                    }
                },
            }
        }
        assert forall|id: PeerId| joined_and_not_left(events, id) implies #[trigger] members_after(
            events,
        ).dom().contains(id) by {
            let i = choose|i: int|
                #[trigger] is_join_of(events, i, id) && !left_after(events, i, id);
            match events.last() {
                MemberEvent::Joined(p) => {
                    if id != p.id {
                        assert(i < n);
                        assert(prefix[i] == events[i]);
                        assert(is_join_of(prefix, i, id));
                        assert(!left_after(prefix, i, id)) by {
                            if left_after(prefix, i, id) {
                                let j = choose|j: int|
                                    i < j < prefix.len() && prefix[j] == MemberEvent::Left(id);
                                assert(events[j] == prefix[j]);
                                assert(left_after(events, i, id));
                            }
                        }
                        assert(members_after(prefix).dom().contains(id));
                    }
                },
                MemberEvent::Left(lid) => {
                    assert(i < n);
                    assert(id != lid) by {
                        assert(events[events.len() - 1] == MemberEvent::Left(lid));
                    }
                    assert(prefix[i] == events[i]);
                    assert(is_join_of(prefix, i, id));
                    assert(!left_after(prefix, i, id)) by {
                        if left_after(prefix, i, id) {
                            let j = choose|j: int|
                                i < j < prefix.len() && prefix[j] == MemberEvent::Left(id);
                            assert(events[j] == prefix[j]);
                            assert(left_after(events, i, id));
                        }
                    }
                    assert(members_after(prefix).dom().contains(id));
                },
            }
        }
    }
}

} // verus!
