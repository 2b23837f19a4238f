//! Chat messages and their shipment status. Timestamps are signed
//! 64-bit milliseconds since the Unix epoch.

use vstd::arithmetic::div_mod::lemma_fundamental_div_mod;
use vstd::arithmetic::div_mod::lemma_fundamental_div_mod_converse;
use vstd::arithmetic::div_mod::lemma_mod_bound;
use vstd::prelude::*;

use crate::peer::peer_eqv;
use crate::peer::Peer;
use crate::util::two_digits;
use crate::util::two_digits_string;

verus! {

/// The millisecond of the day a wallclock millisecond falls on.
pub open spec fn time_of_day_ms(ms: i64) -> int {
    (ms as int) % 86400000
}

/// A timestamp's time of day as `HH:MM:SS`.
pub open spec fn hms_of(ms: i64) -> Seq<char> {
    let s = time_of_day_ms(ms) / 1000;
    two_digits(s / 3600) + ":"@ + two_digits((s / 60) % 60) + ":"@ + two_digits(s % 60)
}

fn time_of_day_exec(ms: i64) -> (r: u64)
    ensures
        r == time_of_day_ms(ms),
        r < 86400000,
{
    proof {
        lemma_mod_bound(ms as int, 86400000);
    }
    if ms >= 0 {
        (ms as u64) % 86400000
    } else {
        let n: u64 = (-(ms + 1)) as u64 % 86400000;
        proof {
            let m = -(ms as int + 1);
            lemma_fundamental_div_mod(m, 86400000);
            lemma_mod_bound(m, 86400000);
            let q = m / 86400000;
            let rr = m % 86400000;
            assert(ms as int == 86400000 * (-(q + 1)) + (86400000 - rr - 1));
            lemma_fundamental_div_mod_converse(
                ms as int,
                86400000,
                -(q + 1),
                86400000 - rr - 1,
            );
        }
        86400000 - 1 - n
    }
}

/// The time of day of a timestamp, formatted `HH:MM:SS`.
pub fn format_hms(ms: i64) -> (r: String)
    ensures
        r@ == hms_of(ms),
{
    let sod = time_of_day_exec(ms);
    let s = sod / 1000;
    let hh = s / 3600;
    let mm = (s / 60) % 60;
    let ss = s % 60;
    let mut out = two_digits_string(hh);
    out.append(":");
    let m_str = two_digits_string(mm);
    out.append(m_str.as_str());
    out.append(":");
    let s_str = two_digits_string(ss);
    out.append(s_str.as_str());
    proof {
        assert(out@ =~= hms_of(ms));
    }
    out
}

/// Whether a message still awaits its acknowledgement.
///
/// `Sent(tx, predicted)` is a locally composed message: `tx` is the
/// wallclock at composition and `predicted` the bundle-routing arrival
/// prediction, when one was computed. `Received(tx, rx)` is either an
/// inbound message (`rx` is the local receive time) or an outbound one
/// whose acknowledgement returned (`rx` is the ACK arrival time).
#[derive(Clone, Copy, Debug)]
pub enum MessageStatus {
    Sent(i64, Option<i64>),
    Received(i64, i64),
}

pub struct ChatMessage {
    pub uuid: String,
    pub response: Option<String>,
    pub sender: Peer,
    pub text: String,
    pub shipment_status: MessageStatus,
}

/// Equality of messages up to the sender's container identity.
pub open spec fn msg_eqv(a: ChatMessage, b: ChatMessage) -> bool {
    a.uuid == b.uuid && a.response == b.response && a.text == b.text && peer_eqv(a.sender, b.sender)
        && a.shipment_status == b.shipment_status
}

impl Clone for ChatMessage {
    fn clone(&self) -> (res: Self)
        ensures
            msg_eqv(res, *self),
    {
        ChatMessage {
            uuid: self.uuid.clone(),
            response: match &self.response {
                Some(r) => Some(r.clone()),
                None => None,
            },
            sender: self.sender.clone(),
            text: self.text.clone(),
            shipment_status: self.shipment_status,
        }
    }
}

impl ChatMessage {
    /// The transmission timestamp carried by the status.
    pub open spec fn tx_time(&self) -> i64 {
        match self.shipment_status {
            MessageStatus::Sent(tx, _) => tx,
            MessageStatus::Received(tx, _) => tx,
        }
    }

    /// The reception anchor: for a message still in flight both keys
    /// are the transmission time.
    pub open spec fn rx_time(&self) -> i64 {
        match self.shipment_status {
            MessageStatus::Sent(tx, _) => tx,
            MessageStatus::Received(_, rx) => rx,
        }
    }

    /// The `(tx, predicted, rx)` timestamps as the status carries
    /// them; a missing prediction is reported as the transmission
    /// time.
    pub fn get_timestamps(&self) -> (r: (i64, Option<i64>, Option<i64>))
        ensures
            match self.shipment_status {
                MessageStatus::Sent(tx, pbat) => r == (
                    tx,
                    Some(
                        match pbat {
                            Some(p) => p,
                            None => tx,
                        },
                    ),
                    None::<i64>,
                ),
                MessageStatus::Received(tx, rx) => r == (tx, None::<i64>, Some(rx)),
            },
    {
        match self.shipment_status {
            MessageStatus::Sent(tx, pbat) => {
                let pbat_val = match pbat {
                    Some(p) => p,
                    None => tx,
                };
                (tx, Some(pbat_val), None)
            },
            MessageStatus::Received(tx, rx) => (tx, None, Some(rx)),
        }
    }

    /// The caption a message is displayed with: the transmission and
    /// reception (or predicted) times of day, a check mark once an own
    /// message is acknowledged, and the sender's name.
    pub open spec fn status_str_spec(&self, sent_by_me: bool) -> Seq<char> {
        match self.shipment_status {
            MessageStatus::Sent(tx, pbat) => "["@ + hms_of(tx) + "->"@ + (match pbat {
                Some(p) => hms_of(p),
                None => "??"@,
            }) + "]["@ + self.sender.name@ + "]"@,
            MessageStatus::Received(tx, rx) => "["@ + hms_of(tx) + "->"@ + hms_of(rx) + (
            if sent_by_me {
                "\u{2713}"@
            } else {
                ""@
            }) + "]["@ + self.sender.name@ + "]"@,
        }
    }

    pub fn get_shipment_status_str(&self, sent_by_me: bool) -> (r: String)
        ensures
            r@ == self.status_str_spec(sent_by_me),
    {
        let mut out = String::from_str("[");
        match self.shipment_status {
            MessageStatus::Sent(tx, pbat) => {
                let tx_str = format_hms(tx);
                out.append(tx_str.as_str());
                out.append("->");
                match pbat {
                    Some(p) => {
                        let p_str = format_hms(p);
                        out.append(p_str.as_str());
                    },
                    None => {
                        out.append("??");
                    },
                }
            },
            MessageStatus::Received(tx, rx) => {
                let tx_str = format_hms(tx);
                out.append(tx_str.as_str());
                out.append("->");
                let rx_str = format_hms(rx);
                out.append(rx_str.as_str());
                if sent_by_me {
                    out.append("\u{2713}");
                }
            },
        }
        out.append("][");
        out.append(self.sender.name.as_str());
        out.append("]");
        proof {
            reveal_strlit("");
            assert(out@ =~= self.status_str_spec(sent_by_me));
        }
        out
    }

    /// The status transition on an acknowledgement: a message awaiting
    /// its ACK becomes `Received(tx, ack_time)`; one already received
    /// or acknowledged is untouched.
    pub fn update_with_ack(&mut self, is_read: bool, ack_time: i64)
        ensures
            final(self).uuid == old(self).uuid,
            final(self).response == old(self).response,
            final(self).sender == old(self).sender,
            final(self).text == old(self).text,
            match old(self).shipment_status {
                MessageStatus::Sent(tx, _) => final(self).shipment_status
                    == MessageStatus::Received(tx, ack_time),
                MessageStatus::Received(_, _) => final(self).shipment_status == old(
                    self,
                ).shipment_status,
            },
    {
        let _ = is_read;
        match self.shipment_status {
            MessageStatus::Sent(tx, _) => {
                self.shipment_status = MessageStatus::Received(tx, ack_time);
            },
            MessageStatus::Received(_, _) => {},
        }
    }
}

} // verus!
