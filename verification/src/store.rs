//! The conversation store: an ordered set of messages under a
//! pluggable ordering strategy, with ACK-driven status transitions.
//!
//! The store keeps two invariants: the sequence is sorted by the
//! active strategy's comparator, and no two messages share an
//! identifier.

use vstd::prelude::*;
use vstd::seq_lib::group_to_multiset_ensures;

use crate::events::AppEvent;
use crate::message::ChatMessage;
use crate::message::MessageStatus;
use crate::peer::Peer;
use crate::peer::Room;
use crate::strutil::lemma_lex_le_total;
use crate::strutil::lemma_lex_le_trans;
use crate::strutil::lex_le;
use crate::strutil::str_eq;
use crate::strutil::str_lex_le;

verus! {

broadcast use group_to_multiset_ensures;

/// How the store linearises its messages.
pub enum SortStrategy {
    Standard,
    Relative(Peer),
}

pub enum MessageDirection {
    Sent,
    Received,
}

/// The standard order: by transmission time, then reception anchor.
pub open spec fn le_std(a: ChatMessage, b: ChatMessage) -> bool {
    a.tx_time() < b.tx_time() || (a.tx_time() == b.tx_time() && a.rx_time() <= b.rx_time())
}

/// The anchor a relative order uses: reception time for messages of
/// the chosen peer, transmission time for the others.
pub open spec fn anchor_time(m: ChatMessage, peer_uuid: Seq<char>) -> i64 {
    if m.sender.uuid@ == peer_uuid {
        m.rx_time()
    } else {
        m.tx_time()
    }
}

/// The relative order: by anchor, ties broken by identifier so the
/// order is total.
pub open spec fn le_rel(a: ChatMessage, b: ChatMessage, peer_uuid: Seq<char>) -> bool {
    anchor_time(a, peer_uuid) < anchor_time(b, peer_uuid) || (anchor_time(a, peer_uuid)
        == anchor_time(b, peer_uuid) && lex_le(a.uuid@, b.uuid@))
}

/// The comparator selected by a strategy.
pub open spec fn msg_le(strat: SortStrategy, a: ChatMessage, b: ChatMessage) -> bool {
    match strat {
        SortStrategy::Standard => le_std(a, b),
        SortStrategy::Relative(p) => le_rel(a, b, p.uuid@),
    }
}

pub proof fn lemma_msg_le_total(strat: SortStrategy, a: ChatMessage, b: ChatMessage)
    ensures
        msg_le(strat, a, b) || msg_le(strat, b, a),
{
    match strat {
        SortStrategy::Standard => {},
        SortStrategy::Relative(p) => {
            lemma_lex_le_total(a.uuid@, b.uuid@);
        },
    }
}

pub proof fn lemma_msg_le_trans(strat: SortStrategy, a: ChatMessage, b: ChatMessage, c: ChatMessage)
    requires
        msg_le(strat, a, b),
        msg_le(strat, b, c),
    ensures
        msg_le(strat, a, c),
{
    match strat {
        SortStrategy::Standard => {},
        SortStrategy::Relative(p) => {
            if anchor_time(a, p.uuid@) == anchor_time(b, p.uuid@) && anchor_time(b, p.uuid@)
                == anchor_time(c, p.uuid@) {
                lemma_lex_le_trans(a.uuid@, b.uuid@, c.uuid@);
            }
        },
    }
}

fn msg_le_exec(strat: &SortStrategy, a: &ChatMessage, b: &ChatMessage) -> (r: bool)
    ensures
        r == msg_le(*strat, *a, *b),
{
    match strat {
        SortStrategy::Standard => {
            let (tx_a, rx_a) = status_keys(a);
            let (tx_b, rx_b) = status_keys(b);
            tx_a < tx_b || (tx_a == tx_b && rx_a <= rx_b)
        },
        SortStrategy::Relative(p) => {
            let aa = anchor_exec(a, p);
            let ab = anchor_exec(b, p);
            aa < ab || (aa == ab && str_lex_le(a.uuid.as_str(), b.uuid.as_str()))
        },
    }
}

fn status_keys(m: &ChatMessage) -> (r: (i64, i64))
    ensures
        r == (m.tx_time(), m.rx_time()),
{
    match m.shipment_status {
        MessageStatus::Sent(tx, _) => (tx, tx),
        MessageStatus::Received(tx, rx) => (tx, rx),
    }
}

fn anchor_exec(m: &ChatMessage, p: &Peer) -> (r: i64)
    ensures
        r == anchor_time(*m, p.uuid@),
{
    let (tx, rx) = status_keys(m);
    if str_eq(m.sender.uuid.as_str(), p.uuid.as_str()) {
        rx
    } else {
        tx
    }
}

/// Every adjacent pair respects the comparator.
pub open spec fn sorted_by(s: Seq<ChatMessage>, strat: SortStrategy) -> bool {
    forall|i: int, j: int| 0 <= i < j < s.len() ==> msg_le(strat, #[trigger] s[i], #[trigger] s[j])
}

/// No two messages share an identifier.
pub open spec fn unique_uuids(s: Seq<ChatMessage>) -> bool {
    forall|i: int, j: int|
        0 <= i < j < s.len() ==> (#[trigger] s[i].uuid@) != (#[trigger] s[j].uuid@)
}

/// Some message in `s` carries the identifier `u`.
pub open spec fn has_uuid(s: Seq<ChatMessage>, u: Seq<char>) -> bool {
    exists|i: int| 0 <= i < s.len() && (#[trigger] s[i].uuid@) == u
}

proof fn lemma_unique_insert(s: Seq<ChatMessage>, i: int, m: ChatMessage)
    requires
        unique_uuids(s),
        !has_uuid(s, m.uuid@),
        0 <= i <= s.len(),
    ensures
        unique_uuids(s.insert(i, m)),
{
    let t = s.insert(i, m);
    s.insert_ensures(i, m);
    assert forall|p: int, q: int| 0 <= p < q < t.len() implies t[p].uuid@ != t[q].uuid@ by {
        if p == i {
            assert(t[q] == s[q - 1]);
        } else if q == i {
            assert(t[p] == s[p]);
        } else {
            if p < i {
                assert(t[p] == s[p]);
            } else {
                assert(t[p] == s[p - 1]);
            }
            if q < i {
                assert(t[q] == s[q]);
            } else {
                assert(t[q] == s[q - 1]);
            }
        }
    }
}

proof fn lemma_sorted_remove(s: Seq<ChatMessage>, strat: SortStrategy, i: int)
    requires
        sorted_by(s, strat),
        0 <= i < s.len(),
    ensures
        sorted_by(s.remove(i), strat),
        unique_uuids(s) ==> unique_uuids(s.remove(i)),
        unique_uuids(s) ==> !has_uuid(s.remove(i), s[i].uuid@),
{
    let t = s.remove(i);
    s.remove_ensures(i);
    assert forall|p: int, q: int| 0 <= p < q < t.len() implies msg_le(strat, t[p], t[q]) by {
        if p < i {
            assert(t[p] == s[p]);
        } else {
            assert(t[p] == s[p + 1]);
        }
        if q < i {
            assert(t[q] == s[q]);
        } else {
            assert(t[q] == s[q + 1]);
        }
    }
    if unique_uuids(s) {
        assert forall|p: int, q: int| 0 <= p < q < t.len() implies t[p].uuid@ != t[q].uuid@ by {
            if p < i {
                assert(t[p] == s[p]);
            } else {
                assert(t[p] == s[p + 1]);
            }
            if q < i {
                assert(t[q] == s[q]);
            } else {
                assert(t[q] == s[q + 1]);
            }
        }
        assert forall|p: int| 0 <= p < t.len() implies t[p].uuid@ != s[i].uuid@ by {
            if p < i {
                assert(t[p] == s[p]);
            } else {
                assert(t[p] == s[p + 1]);
            }
        }
    }
}

/// Insert `m` so the sequence stays sorted; returns the index used.
fn insert_sorted(v: &mut Vec<ChatMessage>, strat: &SortStrategy, m: ChatMessage) -> (idx: usize)
    requires
        sorted_by(old(v)@, *strat),
    ensures
        idx <= old(v)@.len(),
        final(v)@ == old(v)@.insert(idx as int, m),
        sorted_by(final(v)@, *strat),
{
    let ghost s = v@;
    let mut i: usize = 0;
    while i < v.len()
        invariant
            v@ == s,
            i <= s.len(),
            forall|j: int| 0 <= j < i ==> msg_le(*strat, #[trigger] s[j], m),
        ensures
            v@ == s,
            i <= s.len(),
            forall|j: int| 0 <= j < i ==> msg_le(*strat, #[trigger] s[j], m),
            i < s.len() ==> !msg_le(*strat, s[i as int], m),
        decreases s.len() - i,
    {
        if !msg_le_exec(strat, &v[i], &m) {
            break ;
        }
        i += 1;
    }
    v.insert(i, m);
    proof {
        let t = s.insert(i as int, m);
        s.insert_ensures(i as int, m);
        assert forall|p: int, q: int| 0 <= p < q < t.len() implies msg_le(*strat, t[p], t[q]) by {
            if q < i {
                assert(t[p] == s[p] && t[q] == s[q]);
            } else if p < i && q == i {
                assert(t[p] == s[p] && t[q] == m);
            } else if p == i {
                assert(t[p] == m && t[q] == s[q - 1]);
                lemma_msg_le_total(*strat, s[i as int], m);
                if q - 1 > i {
                    lemma_msg_le_trans(*strat, m, s[i as int], s[q - 1]);
                }
            } else if p > i {
                assert(t[p] == s[p - 1] && t[q] == s[q - 1]);
            } else {
                // p < i < q: t[p] is old, t[q] is old shifted
                assert(t[p] == s[p] && t[q] == s[q - 1]);
            }
        }
    }
    i
}

/// Index of the message carrying `uuid`, if any.
fn index_of_uuid(v: &Vec<ChatMessage>, uuid: &str) -> (r: Option<usize>)
    ensures
        match r {
            Some(i) => i < v@.len() && v@[i as int].uuid@ == uuid@,
            None => !has_uuid(v@, uuid@),
        },
{
    let mut i: usize = 0;
    while i < v.len()
        invariant
            i <= v@.len(),
            forall|j: int| 0 <= j < i ==> (#[trigger] v@[j].uuid@) != uuid@,
        decreases v@.len() - i,
    {
        if str_eq(v[i].uuid.as_str(), uuid) {
            return Some(i);
        }
        i += 1;
    }
    None
}

/// The in-memory conversation: the local identity, the roster, and
/// the ordered messages.
pub struct ChatModel {
    pub sort_strategy: SortStrategy,
    pub localpeer: Peer,
    pub peers: Vec<Peer>,
    pub rooms: Vec<Room>,
    pub messages: Vec<ChatMessage>,
}

/// The message `m` after an acknowledgement at `t`.
pub open spec fn acked(m: ChatMessage, t: i64) -> ChatMessage {
    ChatMessage { shipment_status: MessageStatus::Received(m.tx_time(), t), ..m }
}

impl ChatModel {
    /// The store's invariant: sorted under the active strategy, and
    /// message identifiers unique.
    pub open spec fn wf(&self) -> bool {
        sorted_by(self.messages@, self.sort_strategy) && unique_uuids(self.messages@)
    }

    pub fn new(peers: Vec<Peer>, localpeer: Peer, rooms: Vec<Room>) -> (r: ChatModel)
        ensures
            r.wf(),
            r.sort_strategy is Standard,
            r.localpeer == localpeer,
            r.peers == peers,
            r.rooms == rooms,
            r.messages@.len() == 0,
    {
        ChatModel {
            sort_strategy: SortStrategy::Standard,
            localpeer,
            peers,
            rooms,
            messages: Vec::new(),
        }
    }

    /// Insert a message at the position the active strategy dictates.
    /// A duplicate identifier is rejected: the store is unchanged and
    /// no event is emitted.
    pub fn add_message(&mut self, new_msg: ChatMessage, direction: MessageDirection) -> (ev: Option<
        AppEvent,
    >)
        requires
            old(self).wf(),
        ensures
            final(self).wf(),
            final(self).sort_strategy == old(self).sort_strategy,
            final(self).localpeer == old(self).localpeer,
            final(self).peers == old(self).peers,
            final(self).rooms == old(self).rooms,
            has_uuid(old(self).messages@, new_msg.uuid@) ==> final(self).messages == old(
                self,
            ).messages && ev is None,
            !has_uuid(old(self).messages@, new_msg.uuid@) ==> (exists|i: int|
                0 <= i <= old(self).messages@.len() && final(self).messages@ == old(
                    self,
                ).messages@.insert(i, new_msg)) && match direction {
                MessageDirection::Sent => ev matches Some(AppEvent::Sent(t)) && t@
                    == "Message sent."@,
                MessageDirection::Received => ev matches Some(AppEvent::Received(t)) && t@
                    == "New message from "@ + new_msg.sender.name@,
            },
    {
        match index_of_uuid(&self.messages, new_msg.uuid.as_str()) {
            Some(_) => None,
            None => {
                let ghost pre = self.messages@;
                let ghost u = new_msg.uuid@;
                let name = new_msg.sender.name.clone();
                let idx = insert_sorted(&mut self.messages, &self.sort_strategy, new_msg);
                proof {
                    lemma_unique_insert(pre, idx as int, new_msg);
                }
                match direction {
                    MessageDirection::Sent => Some(
                        AppEvent::Sent(String::from_str("Message sent.")),
                    ),
                    MessageDirection::Received => {
                        let mut text = String::from_str("New message from ");
                        text.append(name.as_str());
                        Some(AppEvent::Received(text))
                    },
                }
            },
        }
    }

    /// Switch the ordering strategy and re-sort in place. The message
    /// multiset is preserved.
    pub fn sort_messages(&mut self, strat: SortStrategy)
        requires
            old(self).wf(),
        ensures
            final(self).wf(),
            final(self).sort_strategy == strat,
            final(self).localpeer == old(self).localpeer,
            final(self).peers == old(self).peers,
            final(self).rooms == old(self).rooms,
            final(self).messages@.to_multiset() == old(self).messages@.to_multiset(),
    {
        self.sort_strategy = strat;
        let ghost orig = self.messages@;
        let mut sorted: Vec<ChatMessage> = Vec::new();
        proof {
            assert(orig.subrange(orig.len() as int, orig.len() as int) =~= Seq::<
                ChatMessage,
            >::empty());
            assert(Seq::<ChatMessage>::empty().to_multiset() =~= sorted@.to_multiset());
        }
        while self.messages.len() > 0
            invariant
                self.sort_strategy == strat,
                self.localpeer == old(self).localpeer,
                self.peers == old(self).peers,
                self.rooms == old(self).rooms,
                self.messages@ == orig.subrange(0, self.messages@.len() as int),
                self.messages@.len() <= orig.len(),
                unique_uuids(orig),
                sorted_by(sorted@, self.sort_strategy),
                unique_uuids(sorted@),
                sorted@.to_multiset() == orig.subrange(
                    self.messages@.len() as int,
                    orig.len() as int,
                ).to_multiset(),
            decreases self.messages@.len(),
        {
            let ghost k = self.messages@.len() as int;
            let m = match self.messages.pop() {
                Some(m) => m,
                None => {
                    proof {
                        assert(false);
                    }
                    unreached()
                },
            };
            proof {
                assert(m == orig[k - 1]);
                assert(self.messages@ =~= orig.subrange(0, k - 1));
                // the popped element is not yet in `sorted`
                let suffix = orig.subrange(k, orig.len() as int);
                assert forall|i: int| 0 <= i < sorted@.len() implies (#[trigger] sorted@[i].uuid@)
                    != m.uuid@ by {
                    assert(sorted@.to_multiset().count(sorted@[i]) > 0) by {
                        assert(sorted@.contains(sorted@[i]));
                    }
                    assert(suffix.contains(sorted@[i]));
                    let j = choose|j: int| 0 <= j < suffix.len() && suffix[j] == sorted@[i];
                    assert(orig[k + j] == suffix[j]);
                    assert(orig[k + j].uuid@ != orig[k - 1].uuid@);
                }
                assert(!has_uuid(sorted@, m.uuid@));
            }
            let ghost sorted_pre = sorted@;
            let idx = insert_sorted(&mut sorted, &self.sort_strategy, m);
            proof {
                lemma_unique_insert(sorted_pre, idx as int, m);
                vstd::seq_lib::to_multiset_insert(sorted_pre, idx as int, m);
                let suffix_pre = orig.subrange(k, orig.len() as int);
                let suffix_post = orig.subrange(k - 1, orig.len() as int);
                assert(suffix_post =~= suffix_pre.insert(0, orig[k - 1]));
                vstd::seq_lib::to_multiset_insert(suffix_pre, 0, orig[k - 1]);
            }
        }
        proof {
            assert(orig.subrange(0, orig.len() as int) =~= orig);
        }
        self.messages = sorted;
    }

    /// Apply an acknowledgement for `message_uuid` at `ack_time`: a
    /// matching entry still awaiting its ACK transitions to
    /// `Received(tx, ack_time)` and is re-seated where the order puts
    /// it; a matching entry already received is untouched; an unknown
    /// identifier changes nothing. Returns whether a match was found.
    pub fn update_message_with_ack(&mut self, message_uuid: &str, is_read: bool, ack_time: i64) -> (
    found: bool)
        requires
            old(self).wf(),
        ensures
            final(self).wf(),
            final(self).sort_strategy == old(self).sort_strategy,
            final(self).localpeer == old(self).localpeer,
            final(self).peers == old(self).peers,
            final(self).rooms == old(self).rooms,
            found == has_uuid(old(self).messages@, message_uuid@),
            !found ==> final(self).messages == old(self).messages,
            found ==> exists|i: int|
                0 <= i < old(self).messages@.len() && (#[trigger] old(self).messages@[i].uuid@)
                    == message_uuid@ && match old(self).messages@[i].shipment_status {
                    MessageStatus::Sent(_, _) => exists|j: int|
                        0 <= j <= old(self).messages@.len() - 1 && final(self).messages@ == old(
                            self,
                        ).messages@.remove(i).insert(j, acked(old(self).messages@[i], ack_time)),
                    MessageStatus::Received(_, _) => final(self).messages == old(self).messages,
                },
    {
        let _ = is_read;
        match index_of_uuid(&self.messages, message_uuid) {
            None => false,
            Some(i) => {
                let transition = match self.messages[i].shipment_status {
                    MessageStatus::Sent(_, _) => true,
                    MessageStatus::Received(_, _) => false,
                };
                if transition {
                    let ghost pre = self.messages@;
                    let m = self.messages.remove(i);
                    proof {
                        lemma_sorted_remove(pre, self.sort_strategy, i as int);
                    }
                    let (tx, _rx) = status_keys(&m);
                    let updated = ChatMessage {
                        shipment_status: MessageStatus::Received(tx, ack_time),
                        ..m
                    };
                    let ghost removed = self.messages@;
                    let idx = insert_sorted(&mut self.messages, &self.sort_strategy, updated);
                    proof {
                        assert(updated.uuid@ == pre[i as int].uuid@);
                        lemma_unique_insert(removed, idx as int, updated);
                        assert(updated == acked(pre[i as int], ack_time));
                    }
                }
                true
            },
        }
    }

    /// The dispatcher-facing ACK entry point: applies the transition
    /// and reports it as an event. A repeated or unknown ACK produces
    /// no transition and no event.
    pub fn on_ack_received(&mut self, message_uuid: &str, is_read: bool, ack_time: i64) -> (ev:
        Option<AppEvent>)
        requires
            old(self).wf(),
        ensures
            final(self).wf(),
            final(self).sort_strategy == old(self).sort_strategy,
            final(self).localpeer == old(self).localpeer,
            final(self).peers == old(self).peers,
            final(self).rooms == old(self).rooms,
            !has_uuid(old(self).messages@, message_uuid@) ==> final(self).messages == old(
                self,
            ).messages && ev is None,
            has_uuid(old(self).messages@, message_uuid@) ==> exists|i: int|
                0 <= i < old(self).messages@.len() && (#[trigger] old(self).messages@[i].uuid@)
                    == message_uuid@ && match old(self).messages@[i].shipment_status {
                    MessageStatus::Sent(_, _) => (exists|j: int|
                        0 <= j <= old(self).messages@.len() - 1 && final(self).messages@ == old(
                            self,
                        ).messages@.remove(i).insert(j, acked(old(self).messages@[i], ack_time)))
                        && (ev matches Some(AppEvent::Sent(t)) && t@ == "Message status updated"@),
                    MessageStatus::Received(_, _) => final(self).messages == old(self).messages
                        && ev is None,
                },
    {
        let transition = match index_of_uuid(&self.messages, message_uuid) {
            Some(i) => match self.messages[i].shipment_status {
                MessageStatus::Sent(_, _) => true,
                MessageStatus::Received(_, _) => false,
            },
            None => false,
        };
        let found = self.update_message_with_ack(message_uuid, is_read, ack_time);
        let _ = found;
        if transition {
            Some(AppEvent::Sent(String::from_str("Message status updated")))
        } else {
            None
        }
    }
}

/// The store holds at most one message per identifier: two positions
/// carrying the same identifier are the same position.
pub proof fn law_unique_identifier(model: &ChatModel, i: int, j: int)
    requires
        model.wf(),
        0 <= i < model.messages@.len(),
        0 <= j < model.messages@.len(),
        model.messages@[i].uuid@ == model.messages@[j].uuid@,
    ensures
        i == j,
{
    if i < j {
        assert(model.messages@[i].uuid@ != model.messages@[j].uuid@);
    }
    if j < i {
        assert(model.messages@[j].uuid@ != model.messages@[i].uuid@);
    }
}

/// The store is sorted under its active strategy: any two positions
/// respect the comparator.
pub proof fn law_store_sorted(model: &ChatModel, i: int, j: int)
    requires
        model.wf(),
        0 <= i < j < model.messages@.len(),
    ensures
        msg_le(model.sort_strategy, model.messages@[i], model.messages@[j]),
{
}

/// The menu label for a strategy.
pub fn get_str_for_strat(local_peer_uuid: &String, strat: &SortStrategy) -> (r: String)
    ensures
        match strat {
            SortStrategy::Standard => r@ == "Standard"@,
            SortStrategy::Relative(peer) => if peer.uuid@ == local_peer_uuid@ {
                r@ == "Local"@
            } else {
                r@ == "Relative ("@ + peer.name@ + ")"@
            },
        },
{
    match strat {
        SortStrategy::Standard => String::from_str("Standard"),
        SortStrategy::Relative(peer) => {
            if str_eq(peer.uuid.as_str(), local_peer_uuid.as_str()) {
                String::from_str("Local")
            } else {
                let mut out = String::from_str("Relative (");
                out.append(peer.name.as_str());
                out.append(")");
                out
            }
        },
    }
}

} // verus!

