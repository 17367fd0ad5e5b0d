//! The network of the simulator: participants registered under network
//! identifiers. A block is sent to one participant, or gossiped to every
//! participant but its source; the channels themselves live with the caller.
use std::collections::HashSet;
use vstd::prelude::*;

verus! {

broadcast use vstd::std_specs::hash::group_hash_axioms;

/// The participants and the identifier that the next endpoint gets.
pub struct Network {
    participants: HashSet<u64>,
    network_ids: u64,
}

/// A participant's end of the network.
pub struct Endpoint {
    pub network_id: u64,
}

/// The identifier after `id`, wrapping around as an atomic counter does.
pub open spec fn next_network_id(id: u64) -> u64 {
    if id == u64::MAX {
        0
    } else {
        (id + 1) as u64
    }
}

impl Network {
    /// The identifiers of the participants.
    pub closed spec fn participants(&self) -> Set<u64> {
        self.participants@
    }

    /// The identifier that the next endpoint gets.
    pub closed spec fn next_id(&self) -> u64 {
        self.network_ids
    }

    /// Every participant's identifier is below the next identifier: none will
    /// be handed out again until the counter wraps around.
    pub closed spec fn ids_below_next(&self) -> bool {
        forall|id: u64| #[trigger] self.participants@.contains(id) ==> id < self.network_ids
    }

    /// A network with no participants.
    pub fn new() -> (res: Network)
        ensures
            res.participants() == Set::<u64>::empty(),
            res.next_id() == 0,
            res.ids_below_next(),
    {
        Network { participants: HashSet::new(), network_ids: 0 }
    }

    /// Registers a new participant under the next identifier.
    pub fn new_endpoint(&mut self) -> (res: Endpoint)
        ensures
            res.network_id == old(self).next_id(),
            final(self).next_id() == next_network_id(old(self).next_id()),
            final(self).participants() == old(self).participants().insert(res.network_id),
            old(self).ids_below_next() && old(self).next_id() < u64::MAX ==> !old(self).participants().contains(
                res.network_id,
            ) && final(self).ids_below_next(),
    {
        let network_id = self.network_ids;
        self.network_ids = if self.network_ids == u64::MAX {
            0
        } else {
            self.network_ids + 1
        };
        self.participants.insert(network_id);
        Endpoint { network_id }
    }

    /// Removes the participant of a dropped endpoint.
    pub fn drop_endpoint(&mut self, endpoint: Endpoint)
        ensures
            final(self).next_id() == old(self).next_id(),
            final(self).participants() == old(self).participants().remove(endpoint.network_id),
            old(self).ids_below_next() ==> final(self).ids_below_next(),
    {
        self.participants.remove(&endpoint.network_id);
    }

    /// Whether a block sent to `network_id` reaches a participant.
    pub fn send(&self, network_id: u64) -> (res: bool)
        ensures
            res == self.participants().contains(network_id),
    {
        self.participants.contains(&network_id)
    }

    /// The participants that a block gossiped by `source` reaches: all but
    /// `source`, each once, in no particular order.
    pub fn gossip(&self, source: u64) -> (res: Vec<u64>)
        ensures
            res@.no_duplicates(),
            res@.to_set() == self.participants().remove(source),
    {
        let all = set_members(&self.participants);
        let mut res: Vec<u64> = Vec::new();
        let mut i: usize = 0;
        while i < all.len()
            invariant
                i <= all@.len(),
                all@.no_duplicates(),
                res@.no_duplicates(),
                forall|y: u64| #[trigger] res@.contains(y) <==> (all@.take(i as int).contains(y) && y != source),
            decreases all@.len() - i,
        {
            let x = all[i];
            let ghost before = res@;
            let ghost prev = all@.take(i as int);
            let ghost next = all@.take(i as int + 1);
            proof {
                assert(next =~= prev.push(x));
            }
            if x != source {
                proof {
                    if before.contains(x) {
                        let k = choose|k: int| 0 <= k < prev.len() && prev[k] == x;
                        assert(all@[k] == all@[i as int]);
                    }
                }
                res.push(x);
            }
            proof {
                assert forall|y: u64| #[trigger] res@.contains(y) <==> (next.contains(y) && y != source) by {
                    if res@.contains(y) && y != x {
                        let k = choose|k: int| 0 <= k < res@.len() && res@[k] == y;
                        assert(before[k] == y);
                    }
                    if next.contains(y) && y != x {
                        let k = choose|k: int| 0 <= k < next.len() && next[k] == y;
                        assert(prev[k] == y);
                    }
                    if before.contains(y) {
                        let k = choose|k: int| 0 <= k < before.len() && before[k] == y;
                        assert(res@[k] == y);
                    }
                    if prev.contains(y) {
                        let k = choose|k: int| 0 <= k < prev.len() && prev[k] == y;
                        assert(next[k] == y);
                    }
                    if y == x && y != source {
                        assert(res@[res@.len() - 1] == y);
                    }
                    if y == x {
                        assert(next[i as int] == y);
                    }
                }
            }
            i = i + 1;
        }
        proof {
            assert(all@.take(all@.len() as int) =~= all@);
            assert(res@.to_set() =~= self.participants@.remove(source));
        }
        res
    }
}

/// The elements of `set`, each once, in no particular order.
fn set_members(set: &HashSet<u64>) -> (res: Vec<u64>)
    ensures
        res@.no_duplicates(),
        res@.to_set() == set@,
{
    let mut res: Vec<u64> = Vec::new();
    for x in it: set.iter()
        invariant
            res@ == it.seq().take(it.index() as int).map_values(|r: &u64| *r),
            it.seq().unref().to_set() == set@,
            it.seq().unref().no_duplicates(),
        ensures
            res@ =~= it.seq().unref(),
    {
        res.push(*x);
        proof {
            assert(it.seq().take(it.index() as int + 1).map_values(|r: &u64| *r) =~= res@);
        }
    }
    res
}

} // verus!
