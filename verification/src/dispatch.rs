//! The dispatcher: resolves received bytes into store actions,
//! chooses the endpoint an acknowledgement goes back on, builds
//! acknowledgement records, and composes the outbound path's message.

use vstd::prelude::*;

use crate::ack_config::AckConfig;
use crate::codec::encode_record;
use crate::codec::encode_record_spec;
use crate::codec::WireContent;
use crate::codec::WireContentView;
use crate::codec::WireRecord;
use crate::codec::WireRecordView;
use crate::encoding::deserialize_message;
use crate::encoding::DeserializedMessage;
use crate::endpoint::Endpoint;
use crate::events::AppEvent;
use crate::message::ChatMessage;
use crate::message::MessageStatus;
use crate::peer::has_peer_with_id;
use crate::peer::peer_eqv;
use crate::peer::Peer;
use crate::store::has_uuid;
use crate::store::ChatModel;
use crate::store::MessageDirection;
use crate::strutil::str_eq;
use crate::util::generate_uuid;
use crate::util::now_millis;

verus! {

/// Errors of the acknowledgement path. They are logged by callers,
/// never propagated into the receive path.
#[derive(Debug)]
pub enum AckError {
    Network(String),
    Serialization(String),
    InvalidMessage(String),
}

/// The transport family of an endpoint: bundle 0, stream 1,
/// datagram 2.
pub open spec fn kind_code(e: Endpoint) -> u8 {
    match e {
        Endpoint::Bp(_) => 0u8,
        Endpoint::Tcp(_) => 1u8,
        Endpoint::Udp(_) => 2u8,
    }
}

/// An endpoint of the family, valid when that is asked.
pub open spec fn ep_sat(e: Endpoint, kind: u8, require_valid: bool) -> bool {
    kind_code(e) == kind && (require_valid ==> e.valid_spec())
}

/// Index of the first endpoint of the family, or the length if none.
pub open spec fn first_sat_idx(eps: Seq<Endpoint>, kind: u8, require_valid: bool) -> int
    decreases eps.len(),
{
    if eps.len() == 0 {
        0
    } else if ep_sat(eps[0], kind, require_valid) {
        0
    } else {
        1 + first_sat_idx(eps.drop_first(), kind, require_valid)
    }
}

pub proof fn lemma_first_sat_idx(eps: Seq<Endpoint>, kind: u8, require_valid: bool)
    ensures
        0 <= first_sat_idx(eps, kind, require_valid) <= eps.len(),
        first_sat_idx(eps, kind, require_valid) < eps.len() ==> ep_sat(
            eps[first_sat_idx(eps, kind, require_valid)],
            kind,
            require_valid,
        ),
        forall|j: int|
            0 <= j < first_sat_idx(eps, kind, require_valid) ==> !ep_sat(
                #[trigger] eps[j],
                kind,
                require_valid,
            ),
    decreases eps.len(),
{
    if eps.len() > 0 && !ep_sat(eps[0], kind, require_valid) {
        lemma_first_sat_idx(eps.drop_first(), kind, require_valid);
        assert forall|j: int|
            0 <= j < first_sat_idx(eps, kind, require_valid) implies !ep_sat(
            #[trigger] eps[j],
            kind,
            require_valid,
        ) by {
            if j > 0 {
                assert(eps.drop_first()[j - 1] == eps[j]);
            }
        }
    }
}

/// The endpoint an acknowledgement is sent back on: the sender's
/// first endpoint of the origin's transport family when there is one,
/// else the first valid endpoint by the preference bundle, stream,
/// datagram, else the sender's first endpoint.
pub open spec fn choose_ack_spec(eps: Seq<Endpoint>, recv: Option<Endpoint>) -> Endpoint
    recommends
        eps.len() > 0,
{
    let fam_idx = match recv {
        Some(r) => first_sat_idx(eps, kind_code(r), false),
        None => eps.len() as int,
    };
    if fam_idx < eps.len() {
        eps[fam_idx]
    } else {
        let ib = first_sat_idx(eps, 0, true);
        if ib < eps.len() {
            eps[ib]
        } else {
            let it = first_sat_idx(eps, 1, true);
            if it < eps.len() {
                eps[it]
            } else {
                let iu = first_sat_idx(eps, 2, true);
                if iu < eps.len() {
                    eps[iu]
                } else {
                    eps[0]
                }
            }
        }
    }
}

fn endpoint_kind(e: &Endpoint) -> (r: u8)
    ensures
        r == kind_code(*e),
{
    match e {
        Endpoint::Bp(_) => 0,
        Endpoint::Tcp(_) => 1,
        Endpoint::Udp(_) => 2,
    }
}

/// First endpoint of the family, optionally restricted to valid ones.
fn find_first_endpoint(eps: &Vec<Endpoint>, kind: u8, require_valid: bool) -> (r: Option<usize>)
    ensures
        match r {
            Some(i) => i as int == first_sat_idx(eps@, kind, require_valid) && i < eps@.len(),
            None => first_sat_idx(eps@, kind, require_valid) == eps@.len(),
        },
{
    proof {
        lemma_first_sat_idx(eps@, kind, require_valid);
    }
    let mut i: usize = 0;
    while i < eps.len()
        invariant
            i <= eps@.len(),
            forall|j: int| 0 <= j < i ==> !ep_sat(#[trigger] eps@[j], kind, require_valid),
        decreases eps@.len() - i,
    {
        let k = endpoint_kind(&eps[i]);
        let hit = k == kind && (!require_valid || eps[i].is_valid());
        if hit {
            proof {
                lemma_first_sat_idx(eps@, kind, require_valid);
                assert(ep_sat(eps@[i as int], kind, require_valid));
                let f = first_sat_idx(eps@, kind, require_valid);
                if f < i {
                    assert(!ep_sat(eps@[f], kind, require_valid));
                }
            }
            return Some(i);
        }
        proof {
            assert(!ep_sat(eps@[i as int], kind, require_valid));
        }
        i += 1;
    }
    proof {
        lemma_first_sat_idx(eps@, kind, require_valid);
        let f = first_sat_idx(eps@, kind, require_valid);
        if f < eps@.len() {
            assert(!ep_sat(eps@[f], kind, require_valid));
        }
    }
    None
}

/// Choose the endpoint for an acknowledgement to `sender_peer`,
/// preferring the transport family the message arrived on.
pub fn choose_ack_endpoint(sender_peer: &Peer, received_on: Option<&Endpoint>) -> (r: Endpoint)
    requires
        sender_peer.endpoints@.len() > 0,
    ensures
        r == choose_ack_spec(
            sender_peer.endpoints@,
            match received_on {
                Some(e) => Some(*e),
                None => None,
            },
        ),
{
    if let Some(recv) = received_on {
        let k = endpoint_kind(recv);
        if let Some(i) = find_first_endpoint(&sender_peer.endpoints, k, false) {
            return sender_peer.endpoints[i].clone();
        }
    }
    if let Some(i) = find_first_endpoint(&sender_peer.endpoints, 0, true) {
        return sender_peer.endpoints[i].clone();
    }
    if let Some(i) = find_first_endpoint(&sender_peer.endpoints, 1, true) {
        return sender_peer.endpoints[i].clone();
    }
    if let Some(i) = find_first_endpoint(&sender_peer.endpoints, 2, true) {
        return sender_peer.endpoints[i].clone();
    }
    sender_peer.endpoints[0].clone()
}

/// The record view of an acknowledgement.
pub open spec fn ack_record_view(
    ack_uuid: Seq<char>,
    sender_uuid: Seq<char>,
    timestamp: i64,
    target_uuid: Seq<char>,
    read: bool,
) -> WireRecordView {
    WireRecordView {
        uuid: ack_uuid,
        sender_uuid: sender_uuid,
        timestamp: timestamp,
        room_uuid: "default"@,
        content: WireContentView::Delivery { target_uuid: target_uuid, received: true, read: read },
    }
}

/// Build the acknowledgement for a received message: a delivery
/// record signed by the local peer, with a fresh identifier and the
/// current time. The fresh identifier and the room tag always fit
/// their length prefixes.
pub fn create_ack_message(received_msg: &ChatMessage, local_peer_uuid: &str, is_read: bool) -> (r:
    WireRecord)
    ensures
        r@ == ack_record_view(r@.uuid, local_peer_uuid@, r@.timestamp, received_msg.uuid@, is_read),
        r@.uuid.len() == 36,
        crate::codec::str_encodable(r@.uuid),
        crate::codec::str_encodable(r@.room_uuid),
{
    let ack_uuid = generate_uuid();
    let ts = now_millis();
    proof {
        assert(vstd::utf8::is_ascii_chars(ack_uuid@)) by {
            assert forall|i: int| 0 <= i < ack_uuid@.len() implies '\0' <= #[trigger] ack_uuid@[i]
                <= '\u{7f}' by {
                if i != 8 && i != 13 && i != 18 && i != 23 {
                    assert(crate::util::is_hex_char(ack_uuid@[i]));
                }
            }
        }
        vstd::utf8::is_ascii_chars_encode_utf8(ack_uuid@);
        reveal_strlit("default");
        assert(vstd::utf8::is_ascii_chars("default"@));
        vstd::utf8::is_ascii_chars_encode_utf8("default"@);
    }
    WireRecord {
        uuid: ack_uuid,
        sender_uuid: local_peer_uuid.to_owned(),
        timestamp: ts,
        room_uuid: String::from_str("default"),
        content: WireContent::Delivery {
            target_uuid: received_msg.uuid.clone(),
            received: true,
            read: is_read,
        },
    }
}

/// Build and encode the acknowledgement for a received message.
/// Encoding is owed whenever the local identifier and the original's
/// identifier fit their length prefixes.
pub fn build_ack_bytes(received_msg: &ChatMessage, local_peer_uuid: &str, is_read: bool) -> (r:
    Result<Vec<u8>, AckError>)
    ensures
        match r {
            Ok(b) => exists|u: Seq<char>, ts: i64|
                b@ == encode_record_spec(
                    #[trigger] ack_record_view(u, local_peer_uuid@, ts, received_msg.uuid@, is_read),
                ),
            Err(e) => e is Serialization,
        },
        crate::codec::str_encodable(local_peer_uuid@) && crate::codec::str_encodable(
            received_msg.uuid@,
        ) ==> r is Ok,
{
    let record = create_ack_message(received_msg, local_peer_uuid, is_read);
    match encode_record(&record) {
        Ok(b) => {
            proof {
                let u = record@.uuid;
                let ts = record@.timestamp;
                assert(b@ == encode_record_spec(
                    ack_record_view(u, local_peer_uuid@, ts, received_msg.uuid@, is_read),
                ));
            }
            Ok(b)
        },
        Err(_) => Err(AckError::Serialization(String::from_str("acknowledgement too long"))),
    }
}

/// What the dispatcher decides for one received transmission.
pub enum DispatchAction {
    /// Malformed bytes, or a message the local peer sent itself.
    Drop,
    /// Insert the message; when an endpoint is given, send the
    /// acknowledgement there after the configured delay.
    Deliver { message: ChatMessage, ack_endpoint: Option<Endpoint> },
    /// An acknowledgement: update the matching message's status.
    AckUpdate { message_uuid: String, is_read: bool, ack_time: i64 },
}

/// The resolved sender identifier a decoded message carries: the wire
/// identifier when the roster knows it, the placeholder otherwise.
pub open spec fn resolved_sender_id(peers: Seq<Peer>, wire_sender: Seq<char>) -> Seq<char> {
    if has_peer_with_id(peers, wire_sender) {
        wire_sender
    } else {
        "unknown"@
    }
}

/// The process-wide dispatcher state: the local identity and the
/// roster the decoder resolves senders against.
pub struct DefaultSocketController {
    local_peer: Option<Peer>,
    peers: Vec<Peer>,
}

impl DefaultSocketController {
    pub closed spec fn peers_spec(&self) -> Seq<Peer> {
        self.peers@
    }

    pub closed spec fn local_peer_spec(&self) -> Option<Peer> {
        self.local_peer
    }

    pub fn new() -> (r: DefaultSocketController)
        ensures
            r.peers_spec().len() == 0,
            r.local_peer_spec() is None,
    {
        DefaultSocketController { local_peer: None, peers: Vec::new() }
    }

    pub fn set_peers(&mut self, peers: Vec<Peer>)
        ensures
            final(self).peers_spec() == peers@,
            final(self).local_peer_spec() == old(self).local_peer_spec(),
    {
        self.peers = peers;
    }

    pub fn set_local_peer(&mut self, peer: Peer)
        ensures
            final(self).local_peer_spec() == Some(peer),
            final(self).peers_spec() == old(self).peers_spec(),
    {
        self.local_peer = Some(peer);
    }

    pub fn get_peers(&self) -> (r: Vec<Peer>)
        ensures
            r@.len() == self.peers_spec().len(),
            forall|i: int| 0 <= i < r@.len() ==> peer_eqv(#[trigger] r@[i], self.peers_spec()[i]),
    {
        let mut out: Vec<Peer> = Vec::new();
        let mut i: usize = 0;
        while i < self.peers.len()
            invariant
                i <= self.peers@.len(),
                out@.len() == i,
                forall|j: int| 0 <= j < i ==> peer_eqv(#[trigger] out@[j], self.peers@[j]),
            decreases self.peers@.len() - i,
        {
            out.push(self.peers[i].clone());
            i += 1;
        }
        proof {
            assert(forall|i: int|
                0 <= i < out@.len() ==> peer_eqv(#[trigger] out@[i], self.peers_spec()[i]));
        }
        out
    }

    /// Decide what one received transmission means: a malformed
    /// record or the local peer's own message is dropped; a chat
    /// message is delivered, with the acknowledgement endpoint chosen
    /// from the resolved sender's endpoints; a delivery record becomes
    /// a status update.
    pub fn handle_received_bytes(&self, bytes: &Vec<u8>, origin: Option<&Endpoint>, now_ms: i64) -> (
    r: DispatchAction)
        ensures
            match crate::codec::parse_record_spec(bytes@) {
                None => r is Drop,
                Some(v) => match v.content {
                    WireContentView::Delivery { target_uuid, received: _, read } => r matches
                        DispatchAction::AckUpdate { message_uuid, is_read, ack_time }
                        && message_uuid@ == target_uuid && is_read == read && ack_time
                        == v.timestamp,
                    WireContentView::Text { content, reply_to } => {
                        if self.local_peer_spec() matches Some(lp) && resolved_sender_id(
                            self.peers_spec(),
                            v.sender_uuid,
                        ) == lp.uuid@ {
                            r is Drop
                        } else {
                            r matches DispatchAction::Deliver { message: m, ack_endpoint } && (
                            m.uuid@ == v.uuid && m.text@ == content && m.shipment_status
                                == MessageStatus::Received(v.timestamp, now_ms)
                                && m.sender.uuid@ == resolved_sender_id(
                                self.peers_spec(),
                                v.sender_uuid,
                            )) && (match ack_endpoint {
                                None => self.local_peer_spec() is None || !has_peer_with_id(
                                    self.peers_spec(),
                                    resolved_sender_id(self.peers_spec(), v.sender_uuid),
                                ) || m.sender.endpoints@.len() == 0,
                                Some(e) => self.local_peer_spec() is Some && has_peer_with_id(
                                    self.peers_spec(),
                                    resolved_sender_id(self.peers_spec(), v.sender_uuid),
                                ) && m.sender.endpoints@.len() > 0 && e == choose_ack_spec(
                                    m.sender.endpoints@,
                                    match origin {
                                        Some(o) => Some(*o),
                                        None => None,
                                    },
                                ),
                            })
                        }
                    },
                },
            },
    {
        let decoded = match deserialize_message(bytes, &self.peers, now_ms) {
            Some(d) => d,
            None => {
                return DispatchAction::Drop;
            },
        };
        match decoded {
            DeserializedMessage::Ack { message_uuid, is_read, ack_time } => {
                DispatchAction::AckUpdate { message_uuid, is_read, ack_time }
            },
            DeserializedMessage::ChatMessage(message) => {
                proof {
                    if let Some(v) = crate::codec::parse_record_spec(bytes@) {
                        if v.content is Text {
                            if has_peer_with_id(self.peers@, v.sender_uuid) {
                                let i = choose|i: int|
                                    0 <= i < self.peers@.len() && (#[trigger] self.peers@[i].uuid@)
                                        == v.sender_uuid && peer_eqv(self.peers@[i], message.sender);
                                assert(message.sender.uuid@ == v.sender_uuid);
                            } else {
                                assert(message.sender.uuid@ == "unknown"@);
                            }
                            assert(message.sender.uuid@ == resolved_sender_id(
                                self.peers_spec(),
                                v.sender_uuid,
                            ));
                        }
                    }
                }
                let is_self = match &self.local_peer {
                    Some(lp) => str_eq(message.sender.uuid.as_str(), lp.uuid.as_str()),
                    None => false,
                };
                if is_self {
                    return DispatchAction::Drop;
                }
                let sender_known = crate::peer::find_peer_by_id(
                    &self.peers,
                    message.sender.uuid.as_str(),
                ).is_some();
                let ack_endpoint: Option<Endpoint> = match &self.local_peer {
                    None => None,
                    Some(_) => {
                        if sender_known && message.sender.endpoints.len() > 0 {
                            Some(choose_ack_endpoint(&message.sender, origin))
                        } else {
                            None
                        }
                    },
                };
                DispatchAction::Deliver { message, ack_endpoint }
            },
        }
    }
}

/// The outbound path: refuse a message to the local peer; otherwise
/// compose it with status `Sent(now, predicted)`, record it in the
/// store, and hand it back for transmission.
pub fn prepare_send(
    model: &mut ChatModel,
    text: &str,
    receiver: &Peer,
    uuid: String,
    now_ms: i64,
    predicted: Option<i64>,
) -> (r: Result<(ChatMessage, Option<AppEvent>), AppEvent>)
    requires
        old(model).wf(),
    ensures
        final(model).wf(),
        final(model).sort_strategy == old(model).sort_strategy,
        final(model).localpeer == old(model).localpeer,
        final(model).peers == old(model).peers,
        final(model).rooms == old(model).rooms,
        receiver.uuid@ == old(model).localpeer.uuid@ ==> (r matches Err(AppEvent::Error(t)) && t@
            == "Cannot send message to local peer"@ && final(model).messages == old(model).messages),
        receiver.uuid@ != old(model).localpeer.uuid@ ==> (r matches Ok((m, ev)) && m.uuid == uuid
            && m.text@ == text@ && m.response is None && m.shipment_status == MessageStatus::Sent(
            now_ms,
            predicted,
        ) && peer_eqv(m.sender, old(model).localpeer) && (has_uuid(old(model).messages@, uuid@)
            ==> final(model).messages == old(model).messages && ev is None) && (!has_uuid(
            old(model).messages@,
            uuid@,
        ) ==> (exists|i: int, mi: ChatMessage|
            0 <= i <= old(model).messages@.len() && final(model).messages@ == old(
                model,
            ).messages@.insert(i, mi) && crate::message::msg_eqv(mi, m)) && (ev matches Some(
            AppEvent::Sent(t),
        ) && t@ == "Message sent."@))),
{
    if str_eq(receiver.uuid.as_str(), model.localpeer.uuid.as_str()) {
        return Err(AppEvent::Error(String::from_str("Cannot send message to local peer")));
    }
    let msg = ChatMessage {
        uuid,
        response: None,
        sender: model.localpeer.clone(),
        text: text.to_owned(),
        shipment_status: MessageStatus::Sent(now_ms, predicted),
    };
    let stored = msg.clone();
    let ghost stored_snapshot = stored;
    let ev = model.add_message(stored, MessageDirection::Sent);
    proof {
        assert(crate::message::msg_eqv(stored_snapshot, msg));
    }
    Ok((msg, ev))
}

/// The acknowledgement plan for one delivered message: the endpoint,
/// the delay drawn from the configuration's window, and the encoded
/// acknowledgement bytes.
pub struct AckPlan {
    pub endpoint: Endpoint,
    pub delay_ms: u64,
    pub bytes: Vec<u8>,
}

/// Plan the delayed acknowledgement for a delivered message: encode
/// it and draw the delay. The caller sleeps and sends. A plan is owed
/// whenever the identifiers fit their length prefixes.
pub fn plan_ack(
    message: &ChatMessage,
    ack_endpoint: Endpoint,
    local_peer_uuid: &str,
    config: &AckConfig,
) -> (r: Result<AckPlan, AckError>)
    requires
        config.delay_min_ms <= config.delay_max_ms,
    ensures
        match r {
            Ok(plan) => plan.endpoint == ack_endpoint && config.delay_min_ms <= plan.delay_ms
                <= config.delay_max_ms && exists|u: Seq<char>, ts: i64|
                plan.bytes@ == encode_record_spec(
                    #[trigger] ack_record_view(u, local_peer_uuid@, ts, message.uuid@, false),
                ),
            Err(e) => e is Serialization,
        },
        crate::codec::str_encodable(local_peer_uuid@) && crate::codec::str_encodable(message.uuid@)
            ==> r is Ok,
{
    let bytes = match build_ack_bytes(message, local_peer_uuid, false) {
        Ok(b) => b,
        Err(e) => {
            return Err(e);
        },
    };
    let delay_ms = config.get_random_delay_ms();
    Ok(AckPlan { endpoint: ack_endpoint, delay_ms, bytes })
}

/// Socket tuning: timeouts in milliseconds, the receive buffer, and
/// the accept backlog bound.
#[derive(Debug, Clone, Copy, PartialEq, Eq, Structural)]
pub struct SocketConfig {
    pub read_timeout_ms: u64,
    pub write_timeout_ms: u64,
    pub buffer_size: usize,
    pub max_connections: usize,
}

impl Default for SocketConfig {
    /// The defaults: 30 s reads, 10 s writes, 8 KiB buffers.
    fn default() -> (r: SocketConfig)
        ensures
            r.read_timeout_ms == 30000,
            r.write_timeout_ms == 10000,
            r.buffer_size == 8192,
            r.max_connections == 100,
    {
        SocketConfig {
            read_timeout_ms: 30000,
            write_timeout_ms: 10000,
            buffer_size: 8192,
            max_connections: 100,
        }
    }
}

/// The predicate a usable send endpoint must meet.
pub open spec fn valid_ep_pred() -> spec_fn(Endpoint) -> bool {
    |e: Endpoint| e.valid_spec()
}

/// The routing of one outbound message: the encoded bytes and the
/// receiver's valid endpoints, in preference order. The caller tries
/// them until one send succeeds.
pub struct MessageRouter {}

impl MessageRouter {
    pub fn new() -> (r: MessageRouter) {
        MessageRouter {  }
    }

    /// Plan a send to the peer with `peer_uuid`: resolve the first
    /// roster entry carrying it, encode the message once, and list the
    /// endpoints worth trying. `InvalidFormat` exactly when the peer
    /// is unknown, the message fails encode validation, or none of the
    /// resolved peer's endpoints is valid.
    pub fn plan_send_to_peer(
        &self,
        peer_manager: &crate::peer_manager::PeerManager,
        message: &ChatMessage,
        peer_uuid: &str,
    ) -> (r: Result<(Vec<u8>, Vec<Endpoint>), crate::endpoint::NetworkError>)
        ensures
            ({
                let peers = peer_manager.peers_spec();
                let i = crate::peer::peer_idx(peers, peer_uuid@);
                match r {
                    Ok((b, eps)) => i < peers.len() && crate::encoding::encodable_message(*message)
                        && b@ == crate::codec::encode_record_spec(
                        crate::encoding::msg_record_view(*message),
                    ) && eps@ == peers[i].endpoints@.filter(valid_ep_pred()) && eps@.len() > 0,
                    Err(e) => e is InvalidFormat && (i == peers.len()
                        || !crate::encoding::encodable_message(*message)
                        || peers[i].endpoints@.filter(valid_ep_pred()).len() == 0),
                }
            }),
    {
        let target = match peer_manager.find_peer(peer_uuid) {
            Some(p) => p,
            None => {
                return Err(
                    crate::endpoint::NetworkError::InvalidFormat(
                        String::from_str("peer not found"),
                    ),
                );
            },
        };
        let bytes = match crate::encoding::serialize_message(message) {
            Ok(b) => b,
            Err(e) => {
                return Err(e);
            },
        };
        let mut eps: Vec<Endpoint> = Vec::new();
        let mut k: usize = 0;
        proof {
            reveal(Seq::filter);
            assert(eps@ =~= target.endpoints@.subrange(0, 0).filter(valid_ep_pred()));
        }
        while k < target.endpoints.len()
            invariant
                k <= target.endpoints@.len(),
                eps@ == target.endpoints@.subrange(0, k as int).filter(valid_ep_pred()),
            decreases target.endpoints@.len() - k,
        {
            let keep = target.endpoints[k].is_valid();
            proof {
                reveal(Seq::filter);
                let pre = target.endpoints@.subrange(0, k as int);
                let post = target.endpoints@.subrange(0, k + 1);
                assert(post.drop_last() =~= pre);
                assert(post.last() == target.endpoints@[k as int]);
            }
            if keep {
                eps.push(target.endpoints[k].clone());
            }
            k += 1;
        }
        proof {
            assert(target.endpoints@.subrange(0, target.endpoints@.len() as int)
                =~= target.endpoints@);
        }
        if eps.len() == 0 {
            return Err(
                crate::endpoint::NetworkError::InvalidFormat(
                    String::from_str("no valid endpoints for peer"),
                ),
            );
        }
        Ok((bytes, eps))
    }
}

} // verus!
