//! The room registry: maps each network-origin key to the room of the peers
//! that connected from it. Rooms are created lazily on the first peer of a
//! group and deleted the moment their last peer leaves.

use vstd::prelude::*;

use crate::messages::PeerId;
use crate::peer::Peer;
use crate::room::Room;

verus! {

/// No two entries of the sequence carry the same origin key.
pub open spec fn unique_keys(s: Seq<(u128, Room)>) -> bool {
    forall|i: int, j: int| 0 <= i < j < s.len() ==> s[i].0 != s[j].0
}

/// Some entry of the sequence carries this origin key.
pub open spec fn has_key(s: Seq<(u128, Room)>, ip: u128) -> bool {
    exists|i: int| 0 <= i < s.len() && s[i].0 == ip
}

/// Every room held by the sequence is well formed.
pub open spec fn all_rooms_wf(s: Seq<(u128, Room)>) -> bool {
    forall|i: int| 0 <= i < s.len() ==> (#[trigger] s[i].1).wf()
}

/// The map a sequence of keyed rooms stands for, each room taken as the
/// member map it holds.
pub open spec fn rooms_as_map(s: Seq<(u128, Room)>) -> Map<u128, Map<PeerId, Peer>>
    decreases s.len(),
{
    if s.len() == 0 {
        Map::empty()
    } else {
        rooms_as_map(s.drop_last()).insert(s.last().0, s.last().1@)
    }
}

/// An origin key is in the map exactly when some entry carries it.
proof fn lemma_rooms_as_map_domain(s: Seq<(u128, Room)>)
    ensures
        forall|ip: u128| #[trigger] rooms_as_map(s).dom().contains(ip) <==> has_key(s, ip),
    decreases s.len(),
{
    if s.len() > 0 {
        lemma_rooms_as_map_domain(s.drop_last());
        assert forall|ip: u128| #[trigger] rooms_as_map(s).dom().contains(ip) implies has_key(
            s,
            ip,
        ) by {
            if ip == s.last().0 {
                assert(s[s.len() - 1].0 == ip);
            } else {
                assert(rooms_as_map(s.drop_last()).dom().contains(ip));
                assert(has_key(s.drop_last(), ip));
                let i = choose|i: int| 0 <= i < s.drop_last().len() && s.drop_last()[i].0 == ip;
                assert(s[i].0 == ip);
            }
        }
        assert forall|ip: u128| has_key(s, ip) implies #[trigger] rooms_as_map(s).dom().contains(
            ip,
        ) by {
            let i = choose|i: int| 0 <= i < s.len() && s[i].0 == ip;
            if i < s.len() - 1 {
                assert(s.drop_last()[i].0 == ip);
                assert(has_key(s.drop_last(), ip));
                assert(rooms_as_map(s.drop_last()).dom().contains(ip));
            } else {
                assert(ip == s.last().0);
            }
        }
    }
}

/// With unique keys, the map sends each entry's key to that entry's room.
proof fn lemma_rooms_as_map_at_index(s: Seq<(u128, Room)>, i: int)
    requires
        unique_keys(s),
        0 <= i < s.len(),
    ensures
        rooms_as_map(s).dom().contains(s[i].0),
        rooms_as_map(s)[s[i].0] == s[i].1@,
    decreases s.len(),
{
    if i < s.len() - 1 {
        lemma_rooms_as_map_at_index(s.drop_last(), i);
        assert(s.drop_last()[i] == s[i]);
        assert(s[i].0 != s.last().0);
    }
}

/// With unique keys, replacing the entry that carries a given key is
/// insertion into the map.
proof fn lemma_rooms_as_map_update(s: Seq<(u128, Room)>, j: int, entry: (u128, Room))
    requires
        unique_keys(s),
        0 <= j < s.len(),
        s[j].0 == entry.0,
    ensures
        rooms_as_map(s.update(j, entry)) =~= rooms_as_map(s).insert(entry.0, entry.1@),
    decreases s.len(),
{
    if j == s.len() - 1 {
        assert(s.update(j, entry).drop_last() =~= s.drop_last());
        assert(s.update(j, entry).last() == entry);
    } else {
        assert(s.update(j, entry).drop_last() =~= s.drop_last().update(j, entry));
        lemma_rooms_as_map_update(s.drop_last(), j, entry);
        assert(s.last().0 != entry.0);
        assert(s.update(j, entry).last() == s.last());
    }
}

/// With unique keys, dropping the entry that carries a given key is removal
/// from the map.
proof fn lemma_rooms_as_map_remove(s: Seq<(u128, Room)>, j: int)
    requires
        unique_keys(s),
        0 <= j < s.len(),
    ensures
        rooms_as_map(s.remove(j)) =~= rooms_as_map(s).remove(s[j].0),
    decreases s.len(),
{
    if j == s.len() - 1 {
        assert(s.remove(j) =~= s.drop_last());
        lemma_rooms_as_map_domain(s.drop_last());
        assert(!has_key(s.drop_last(), s.last().0));
        assert(rooms_as_map(s.drop_last()).insert(s.last().0, s.last().1@).remove(s.last().0)
            =~= rooms_as_map(s.drop_last()));
    } else {
        assert(s.remove(j).drop_last() =~= s.drop_last().remove(j));
        lemma_rooms_as_map_remove(s.drop_last(), j);
        assert(s.last().0 != s[j].0);
        assert(s.remove(j).last() == s.last());
    }
}

/// The registry: every room currently alive, keyed by network origin. Its
/// abstract value is the map from origin key to that room's member map.
#[derive(Debug)]
pub struct Rooms {
    rooms: Vec<(u128, Room)>,
}

impl View for Rooms {
    type V = Map<u128, Map<PeerId, Peer>>;

    closed spec fn view(&self) -> Map<u128, Map<PeerId, Peer>> {
        rooms_as_map(self.rooms@)
    }
}

impl Rooms {
    /// Origin keys are unique and every held room is well formed.
    pub closed spec fn wf(self) -> bool {
        unique_keys(self.rooms@) && all_rooms_wf(self.rooms@)
    }

    /// A fresh registry holding no rooms.
    pub fn new() -> (res: Rooms)
        ensures
            res.wf(),
            res@ == Map::<u128, Map<PeerId, Peer>>::empty(),
    {
        Rooms { rooms: Vec::new() }
    }

    /// Where the entry carrying this origin key sits in the backing list.
    fn index_of(&self, ip: &u128) -> (res: Option<usize>)
        ensures
            match res {
                Some(i) => i < self.rooms@.len() && self.rooms@[i as int].0 == *ip,
                None => !has_key(self.rooms@, *ip),
            },
    {
        let n = self.rooms.len();
        let mut i: usize = 0;
        while i < n
            invariant
                n == self.rooms.len(),
                i <= n,
                forall|k: int| 0 <= k < i ==> self.rooms@[k].0 != *ip,
            decreases n - i,
        {
            if self.rooms[i].0 == *ip {
                return Some(i);
            }
            i = i + 1;
        }
        None
    }

    /// The room of this origin, if one is alive.
    pub fn get(&self, ip: &u128) -> (res: Option<&Room>)
        requires
            self.wf(),
        ensures
            match res {
                Some(room) => room.wf() && self@.contains_pair(*ip, room@),
                None => !self@.dom().contains(*ip),
            },
    {
        proof {
            lemma_rooms_as_map_domain(self.rooms@);
        }
        match self.index_of(ip) {
            Some(i) => {
                proof {
                    lemma_rooms_as_map_at_index(self.rooms@, i as int);
                }
                Some(&self.rooms[i].1)
            },
            None => None,
        }
    }

    /// The room of this origin, to mutate. The registry afterwards holds
    /// whatever the caller made of it, under the same key.
    pub fn get_mut(&mut self, ip: &u128) -> (room: &mut Room)
        requires
            old(self).wf(),
            old(self)@.dom().contains(*ip),
        ensures
            room.wf(),
            (*room)@ == old(self)@[*ip],
            final(self)@ == old(self)@.insert(*ip, final(room)@),
            final(room).wf() ==> final(self).wf(),
    {
        self.get_or_create(ip)
    }

    /// The room of this origin, created empty first if none is alive. The
    /// caller gets the room to mutate; the registry afterwards holds
    /// whatever the caller made of it, under the same key.
    pub fn get_or_create(&mut self, ip: &u128) -> (room: &mut Room)
        requires
            old(self).wf(),
        ensures
            room.wf(),
            (*room)@ == if old(self)@.dom().contains(*ip) {
                old(self)@[*ip]
            } else {
                Map::<PeerId, Peer>::empty()
            },
            final(self)@ == old(self)@.insert(*ip, final(room)@),
            final(room).wf() ==> final(self).wf(),
    {
        proof {
            lemma_rooms_as_map_domain(self.rooms@);
        }
        let idx: usize = match self.index_of(ip) {
            Some(i) => i,
            None => {
                let ghost before = self.rooms@;
                self.rooms.push((*ip, Room::new()));
                proof {
                    assert(self.rooms@.drop_last() =~= before);
                    assert(unique_keys(self.rooms@)) by {
                        assert(forall|k: int|
                            0 <= k < before.len() ==> self.rooms@[k] == before[k]);
                    }
                    assert(all_rooms_wf(self.rooms@)) by {
                        assert(forall|k: int|
                            0 <= k < before.len() ==> self.rooms@[k] == before[k]);
                    }
                }
                self.rooms.len() - 1
            },
        };
        proof {
            lemma_rooms_as_map_at_index(self.rooms@, idx as int);
            assert forall|rm: Room|
                rooms_as_map(#[trigger] self.rooms@.update(idx as int, (*ip, rm))) =~= old(
                    self,
                )@.insert(*ip, rm@) by {
                lemma_rooms_as_map_update(self.rooms@, idx as int, (*ip, rm));
                if !old(self)@.dom().contains(*ip) {
                    assert(rooms_as_map(self.rooms@) =~= old(self)@.insert(*ip, Map::empty()));
                    assert(old(self)@.insert(*ip, Map::<PeerId, Peer>::empty()).insert(*ip, rm@)
                        =~= old(self)@.insert(*ip, rm@));
                }
            }
            assert forall|rm: Room| rm.wf() implies unique_keys(
                #[trigger] self.rooms@.update(idx as int, (*ip, rm)),
            ) && all_rooms_wf(self.rooms@.update(idx as int, (*ip, rm))) by {
                let updated = self.rooms@.update(idx as int, (*ip, rm));
                assert(forall|k: int|
                    0 <= k < updated.len() && k != idx as int ==> updated[k] == self.rooms@[k]);
            }
        }
        &mut self.rooms[idx].1
    }

    /// Drops the room of this origin; a no-op when none is alive.
    pub fn delete_room(&mut self, ip: &u128)
        requires
            old(self).wf(),
        ensures
            final(self).wf(),
            final(self)@ == old(self)@.remove(*ip),
    {
        proof {
            lemma_rooms_as_map_domain(self.rooms@);
        }
        match self.index_of(ip) {
            Some(i) => {
                proof {
                    lemma_rooms_as_map_remove(self.rooms@, i as int);
                    let removed = self.rooms@.remove(i as int);
                    assert(unique_keys(removed) && all_rooms_wf(removed)) by {
                        assert(forall|k: int|
                            0 <= k < removed.len() ==> removed[k] == if k < i as int {
                                self.rooms@[k]
                            } else {
                                self.rooms@[k + 1]
                            });
                    }
                }
                self.rooms.remove(i);
            },
            None => {
                proof {
                    assert(!self@.dom().contains(*ip));
                    assert(self@ =~= self@.remove(*ip));
                }
            },
        }
    }
}

} // verus!
