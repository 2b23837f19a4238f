//! The configuration the process starts from: the peer roster, the
//! local identity, the rooms, and the contact-plan path. Reading and
//! parsing the configuration file is host work; the loaded values are
//! held here.

use vstd::prelude::*;

use crate::peer::Peer;
use crate::peer::Room;

verus! {

pub struct AppConfig {
    pub peer_list: Vec<Peer>,
    pub local_peer: Peer,
    pub room_list: Vec<Room>,
    pub a_sabr: String,
}

impl AppConfig {
    pub fn new(peer_list: Vec<Peer>, local_peer: Peer, room_list: Vec<Room>, a_sabr: String) -> (r:
        AppConfig)
        ensures
            r.peer_list == peer_list,
            r.local_peer == local_peer,
            r.room_list == room_list,
            r.a_sabr == a_sabr,
    {
        AppConfig { peer_list, local_peer, room_list, a_sabr }
    }
}

} // verus!
