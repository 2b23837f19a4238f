//! Peers and rooms: the immutable identities loaded from
//! configuration, and the roster bookkeeping around them.

use vstd::prelude::*;

use crate::endpoint::Endpoint;
use crate::strutil::str_eq;

verus! {

/// A chat participant: stable identifier, display name, endpoints in
/// preference order, and a palette index.
#[derive(Debug)]
pub struct Peer {
    pub uuid: String,
    pub name: String,
    pub endpoints: Vec<Endpoint>,
    pub color: u32,
}

#[derive(Debug)]
pub struct Room {
    pub uuid: String,
    pub name: String,
}

/// Equality of peers up to the container identity: same identifier,
/// name, endpoint list and colour.
pub open spec fn peer_eqv(a: Peer, b: Peer) -> bool {
    a.uuid == b.uuid && a.name == b.name && a.endpoints@ == b.endpoints@ && a.color == b.color
}

impl Clone for Peer {
    fn clone(&self) -> (res: Self)
        ensures
            peer_eqv(res, *self),
    {
        let mut endpoints: Vec<Endpoint> = Vec::new();
        let mut i: usize = 0;
        while i < self.endpoints.len()
            invariant
                i <= self.endpoints.len(),
                endpoints@ =~= self.endpoints@.subrange(0, i as int),
            decreases self.endpoints.len() - i,
        {
            endpoints.push(self.endpoints[i].clone());
            i += 1;
        }
        proof {
            assert(endpoints@ =~= self.endpoints@);
        }
        Peer { uuid: self.uuid.clone(), name: self.name.clone(), endpoints, color: self.color }
    }
}

impl Clone for Room {
    fn clone(&self) -> (res: Self)
        ensures
            res == *self,
    {
        Room { uuid: self.uuid.clone(), name: self.name.clone() }
    }
}

impl Default for Peer {
    /// The anonymous placeholder peer that stands in for an unknown
    /// sender.
    fn default() -> (res: Self)
        ensures
            res.uuid@ == "unknown"@,
            res.name@ == "Unknown"@,
            res.endpoints@.len() == 0,
            res.color == 0,
    {
        Peer {
            uuid: String::from_str("unknown"),
            name: String::from_str("Unknown"),
            endpoints: Vec::new(),
            color: 0,
        }
    }
}

pub fn default_peer() -> (res: Peer)
    ensures
        res.uuid@ == "unknown"@,
        res.name@ == "Unknown"@,
        res.endpoints@.len() == 0,
        res.color == 0,
{
    Peer::default()
}

/// Whether some peer in `peers` carries the identifier `id`.
pub open spec fn has_peer_with_id(peers: Seq<Peer>, id: Seq<char>) -> bool {
    exists|i: int| 0 <= i < peers.len() && #[trigger] peers[i].uuid@ == id
}

/// Index of the first peer carrying `id`, or the length if none.
pub open spec fn peer_idx(peers: Seq<Peer>, id: Seq<char>) -> int
    decreases peers.len(),
{
    if peers.len() == 0 {
        0
    } else if peers[0].uuid@ == id {
        0
    } else {
        1 + peer_idx(peers.drop_first(), id)
    }
}

pub proof fn lemma_peer_idx(peers: Seq<Peer>, id: Seq<char>)
    ensures
        0 <= peer_idx(peers, id) <= peers.len(),
        peer_idx(peers, id) < peers.len() ==> peers[peer_idx(peers, id)].uuid@ == id,
        forall|j: int| 0 <= j < peer_idx(peers, id) ==> (#[trigger] peers[j].uuid@) != id,
        (peer_idx(peers, id) < peers.len()) == has_peer_with_id(peers, id),
    decreases peers.len(),
{
    if peers.len() > 0 && peers[0].uuid@ != id {
        lemma_peer_idx(peers.drop_first(), id);
        assert forall|j: int| 0 <= j < peer_idx(peers, id) implies (#[trigger] peers[j].uuid@)
            != id by {
            if j > 0 {
                assert(peers.drop_first()[j - 1] == peers[j]);
            }
        }
        if has_peer_with_id(peers, id) {
            let w = choose|i: int| 0 <= i < peers.len() && #[trigger] peers[i].uuid@ == id;
            assert(peers.drop_first()[w - 1] == peers[w]);
            assert(has_peer_with_id(peers.drop_first(), id));
        }
        if has_peer_with_id(peers.drop_first(), id) {
            let w = choose|i: int|
                0 <= i < peers.drop_first().len() && #[trigger] peers.drop_first()[i].uuid@ == id;
            assert(peers[w + 1] == peers.drop_first()[w]);
        }
    }
}

/// The first peer with identifier `id`, cloned.
pub fn find_peer_by_id(peers: &Vec<Peer>, id: &str) -> (r: Option<Peer>)
    ensures
        match r {
            Some(p) => has_peer_with_id(peers@, id@) && exists|i: int|
                0 <= i < peers@.len() && peer_eqv(#[trigger] peers@[i], p) && peers@[i].uuid@
                    == id@,
            None => !has_peer_with_id(peers@, id@),
        },
{
    let mut i: usize = 0;
    while i < peers.len()
        invariant
            i <= peers@.len(),
            forall|j: int| 0 <= j < i ==> #[trigger] peers@[j].uuid@ != id@,
        decreases peers@.len() - i,
    {
        if str_eq(peers[i].uuid.as_str(), id) {
            return Some(peers[i].clone());
        }
        i += 1;
    }
    None
}

} // verus!
