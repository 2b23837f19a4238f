//! Roster bookkeeping around the local peer, and the health view the
//! engine reports.

use vstd::prelude::*;

use crate::peer::has_peer_with_id;
use crate::peer::lemma_peer_idx;
use crate::peer::peer_idx;
use crate::peer::peer_eqv;
use crate::peer::Peer;
use crate::strutil::str_eq;

verus! {

/// The local identity and the known peers, identifiers unique.
pub struct PeerManager {
    peers: Vec<Peer>,
    local_peer: Peer,
}

impl PeerManager {
    pub closed spec fn peers_spec(&self) -> Seq<Peer> {
        self.peers@
    }

    pub closed spec fn local_peer_spec(&self) -> Peer {
        self.local_peer
    }

    pub fn new(local_peer: Peer, peers: Vec<Peer>) -> (r: PeerManager)
        ensures
            r.peers_spec() == peers@,
            r.local_peer_spec() == local_peer,
    {
        PeerManager { peers, local_peer }
    }

    /// Add a peer unless one with its identifier is already known.
    pub fn add_peer(&mut self, peer: Peer)
        ensures
            final(self).local_peer_spec() == old(self).local_peer_spec(),
            has_peer_with_id(old(self).peers_spec(), peer.uuid@) ==> final(self).peers_spec()
                == old(self).peers_spec(),
            !has_peer_with_id(old(self).peers_spec(), peer.uuid@) ==> final(self).peers_spec()
                == old(self).peers_spec().push(peer),
    {
        let mut i: usize = 0;
        while i < self.peers.len()
            invariant
                i <= self.peers@.len(),
                forall|j: int| 0 <= j < i ==> (#[trigger] self.peers@[j].uuid@) != peer.uuid@,
                self.peers@ == old(self).peers_spec(),
                self.local_peer == old(self).local_peer_spec(),
            decreases self.peers@.len() - i,
        {
            if str_eq(self.peers[i].uuid.as_str(), peer.uuid.as_str()) {
                return ;
            }
            i += 1;
        }
        self.peers.push(peer);
    }

    /// Remove the peer with the identifier; reports whether one was
    /// found.
    pub fn remove_peer(&mut self, uuid: &str) -> (found: bool)
        ensures
            final(self).local_peer_spec() == old(self).local_peer_spec(),
            found == has_peer_with_id(old(self).peers_spec(), uuid@),
            !found ==> final(self).peers_spec() == old(self).peers_spec(),
            found ==> exists|i: int|
                0 <= i < old(self).peers_spec().len() && (#[trigger] old(
                    self,
                ).peers_spec()[i].uuid@) == uuid@ && final(self).peers_spec() == old(
                    self,
                ).peers_spec().remove(i),
    {
        let mut i: usize = 0;
        while i < self.peers.len()
            invariant
                i <= self.peers@.len(),
                forall|j: int| 0 <= j < i ==> (#[trigger] self.peers@[j].uuid@) != uuid@,
                self.peers@ == old(self).peers_spec(),
                self.local_peer == old(self).local_peer_spec(),
            decreases self.peers@.len() - i,
        {
            if str_eq(self.peers[i].uuid.as_str(), uuid) {
                self.peers.remove(i);
                return true;
            }
            i += 1;
        }
        false
    }

    /// The first peer with the identifier, cloned.
    pub fn find_peer(&self, uuid: &str) -> (r: Option<Peer>)
        ensures
            match r {
                Some(p) => peer_idx(self.peers_spec(), uuid@) < self.peers_spec().len()
                    && peer_eqv(self.peers_spec()[peer_idx(self.peers_spec(), uuid@)], p),
                None => peer_idx(self.peers_spec(), uuid@) == self.peers_spec().len()
                    && !has_peer_with_id(self.peers_spec(), uuid@),
            },
    {
        proof {
            lemma_peer_idx(self.peers_spec(), uuid@);
        }
        let mut i: usize = 0;
        while i < self.peers.len()
            invariant
                i <= self.peers@.len(),
                forall|j: int| 0 <= j < i ==> (#[trigger] self.peers@[j].uuid@) != uuid@,
            decreases self.peers@.len() - i,
        {
            if str_eq(self.peers[i].uuid.as_str(), uuid) {
                let p = self.peers[i].clone();
                proof {
                    lemma_peer_idx(self.peers_spec(), uuid@);
                    let f = peer_idx(self.peers_spec(), uuid@);
                    if f < i {
                        assert(self.peers_spec()[f].uuid@ != uuid@);
                    }
                    if f > i {
                        assert((#[trigger] self.peers_spec()[i as int].uuid@) != uuid@);
                    }
                    assert(f == i);
                }
                return Some(p);
            }
            i += 1;
        }
        proof {
            lemma_peer_idx(self.peers_spec(), uuid@);
            let f = peer_idx(self.peers_spec(), uuid@);
            if f < self.peers_spec().len() {
                assert(self.peers_spec()[f].uuid@ != uuid@);
            }
        }
        None
    }

    pub fn local_peer(&self) -> (r: &Peer)
        ensures
            *r == self.local_peer_spec(),
    {
        &self.local_peer
    }

    /// A snapshot copy of the roster.
    pub fn get_peers_clone(&self) -> (r: Vec<Peer>)
        ensures
            r@.len() == self.peers_spec().len(),
            forall|i: int|
                0 <= i < r@.len() ==> peer_eqv(#[trigger] r@[i], self.peers_spec()[i]),
    {
        let mut out: Vec<Peer> = Vec::new();
        let mut i: usize = 0;
        while i < self.peers.len()
            invariant
                i <= self.peers@.len(),
                out@.len() == i,
                forall|j: int| 0 <= j < i ==> peer_eqv(#[trigger] out@[j], self.peers@[j]),
            decreases self.peers@.len() - i,
        {
            out.push(self.peers[i].clone());
            i += 1;
        }
        out
    }

    pub fn total_peers(&self) -> (r: usize)
        ensures
            r == self.peers_spec().len(),
    {
        self.peers.len()
    }

    pub fn local_peer_endpoints_count(&self) -> (r: usize)
        ensures
            r == self.local_peer_spec().endpoints@.len(),
    {
        self.local_peer.endpoints.len()
    }
}

/// A snapshot of the network layer's size.
#[derive(Debug, Clone, Copy, PartialEq, Eq, Structural)]
pub struct NetworkStats {
    pub local_peer_endpoints: usize,
    pub total_peers: usize,
    pub active_connections: usize,
}

/// Health reporting over the roster.
pub struct NetworkMonitor {}

impl NetworkMonitor {
    pub fn new() -> (r: NetworkMonitor) {
        NetworkMonitor {  }
    }

    pub fn get_stats(&self, peer_manager: &PeerManager) -> (r: NetworkStats)
        ensures
            r.local_peer_endpoints == peer_manager.local_peer_spec().endpoints@.len(),
            r.total_peers == peer_manager.peers_spec().len(),
            r.active_connections == 0,
    {
        NetworkStats {
            local_peer_endpoints: peer_manager.local_peer_endpoints_count(),
            total_peers: peer_manager.total_peers(),
            active_connections: 0,
        }
    }

    /// Healthy means the local peer has at least one endpoint to
    /// listen on.
    pub fn is_healthy(&self, peer_manager: &PeerManager) -> (r: bool)
        ensures
            r == (peer_manager.local_peer_spec().endpoints@.len() > 0),
    {
        peer_manager.local_peer_endpoints_count() > 0
    }
}

} // verus!
