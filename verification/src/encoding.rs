//! Message-level use of the wire codec: a chat message or an
//! acknowledgement to bytes and back, with the sender resolved
//! against the peer roster on the way in.

use vstd::prelude::*;

use crate::codec::encode_record;
use crate::codec::encode_record_spec;
use crate::codec::lemma_record_roundtrip;
use crate::codec::parse_record;
use crate::codec::parse_record_spec;
use crate::codec::record_encodable;
use crate::codec::WireContent;
use crate::codec::WireContentView;
use crate::codec::WireRecord;
use crate::codec::WireRecordView;
use crate::endpoint::NetworkError;
use crate::message::ChatMessage;
use crate::message::MessageStatus;
use crate::peer::default_peer;
use crate::peer::find_peer_by_id;
use crate::peer::has_peer_with_id;
use crate::peer::peer_eqv;
use crate::peer::Peer;

verus! {

/// What one transmission decodes to.
pub enum DeserializedMessage {
    ChatMessage(ChatMessage),
    Ack { message_uuid: String, is_read: bool, ack_time: i64 },
}

/// The wire record a chat message is sent as. Every message is tagged
/// with the literal room identifier `default`.
pub open spec fn msg_record_view(m: ChatMessage) -> WireRecordView {
    WireRecordView {
        uuid: m.uuid@,
        sender_uuid: m.sender.uuid@,
        timestamp: m.tx_time(),
        room_uuid: "default"@,
        content: WireContentView::Text {
            content: m.text@,
            reply_to: match m.response {
                Some(r) => Some(r@),
                None => None,
            },
        },
    }
}

/// A message passes encode validation: non-empty text, non-empty
/// sender identifier, and every field fits its length prefix.
pub open spec fn encodable_message(m: ChatMessage) -> bool {
    m.text@.len() > 0 && m.sender.uuid@.len() > 0 && record_encodable(msg_record_view(m))
}

/// Encode a chat message as one wire record. Returns `InvalidFormat`
/// exactly when validation fails.
pub fn serialize_message(message: &ChatMessage) -> (r: Result<Vec<u8>, NetworkError>)
    ensures
        match r {
            Ok(b) => encodable_message(*message) && b@ == encode_record_spec(
                msg_record_view(*message),
            ),
            Err(e) => !encodable_message(*message) && e is InvalidFormat,
        },
{
    if message.text.as_str().unicode_len() == 0 || message.sender.uuid.as_str().unicode_len()
        == 0 {
        return Err(NetworkError::InvalidFormat(String::from_str("empty text or sender")));
    }
    let (tx, _, _) = message.get_timestamps();
    let record = WireRecord {
        uuid: message.uuid.clone(),
        sender_uuid: message.sender.uuid.clone(),
        timestamp: tx,
        room_uuid: String::from_str("default"),
        content: WireContent::Text {
            content: message.text.clone(),
            reply_to: match &message.response {
                Some(r) => Some(r.clone()),
                None => None,
            },
        },
    };
    proof {
        assert(record@ == msg_record_view(*message));
    }
    encode_record(&record)
}

/// What decoding one transmission must yield: nothing for malformed
/// bytes; the acknowledgement's fields for a delivery record; for a
/// text record the message with the record's fields, reception at
/// `now_ms`, and the sender resolved against the roster — the
/// anonymous placeholder (no endpoints, colour zero) when unresolved.
pub open spec fn decode_result_matches(
    r: Option<DeserializedMessage>,
    b: Seq<u8>,
    peers: Seq<Peer>,
    now_ms: i64,
) -> bool {
    match parse_record_spec(b) {
        None => r is None,
        Some(v) => match v.content {
            WireContentView::Delivery { target_uuid, received: _, read } => r matches Some(
                DeserializedMessage::Ack { message_uuid, is_read, ack_time },
            ) && message_uuid@ == target_uuid && is_read == read && ack_time == v.timestamp,
            WireContentView::Text { content, reply_to } => r matches Some(
                DeserializedMessage::ChatMessage(m),
            ) && m.uuid@ == v.uuid && m.text@ == content && (match (m.response, reply_to) {
                (Some(a), Some(b)) => a@ == b,
                (None, None) => true,
                _ => false,
            }) && m.shipment_status == MessageStatus::Received(v.timestamp, now_ms) && (
            has_peer_with_id(peers, v.sender_uuid) ==> exists|i: int|
                0 <= i < peers.len() && (#[trigger] peers[i].uuid@) == v.sender_uuid && peer_eqv(
                    peers[i],
                    m.sender,
                )) && (!has_peer_with_id(peers, v.sender_uuid) ==> m.sender.uuid@ == "unknown"@
                && m.sender.name@ == "Unknown"@ && m.sender.endpoints@.len() == 0 && m.sender.color
                == 0),
        },
    }
}

/// Decode one transmission. `now_ms` becomes the reception time of a
/// decoded chat message; an unresolved sender is attributed to the
/// anonymous placeholder peer; malformed bytes give `None`.
pub fn deserialize_message(buf: &Vec<u8>, peers: &Vec<Peer>, now_ms: i64) -> (r: Option<
    DeserializedMessage,
>)
    ensures
        decode_result_matches(r, buf@, peers@, now_ms),
{
    let record = match parse_record(buf) {
        Some(rec) => rec,
        None => {
            return None;
        },
    };
    match record.content {
        WireContent::Delivery { target_uuid, received: _, read } => Some(
            DeserializedMessage::Ack {
                message_uuid: target_uuid,
                is_read: read,
                ack_time: record.timestamp,
            },
        ),
        WireContent::Text { content, reply_to } => {
            let sender = match find_peer_by_id(peers, record.sender_uuid.as_str()) {
                Some(p) => p,
                None => default_peer(),
            };
            Some(
                DeserializedMessage::ChatMessage(
                    ChatMessage {
                        uuid: record.uuid,
                        response: reply_to,
                        sender,
                        text: content,
                        shipment_status: MessageStatus::Received(record.timestamp, now_ms),
                    },
                ),
            )
        },
    }
}

/// Encoding a well-formed message and parsing the bytes yields the
/// message's record back: nothing is lost on the wire.
pub proof fn law_message_roundtrip(m: ChatMessage)
    requires
        encodable_message(m),
    ensures
        parse_record_spec(encode_record_spec(msg_record_view(m))) == Some(msg_record_view(m)),
{
    lemma_record_roundtrip(msg_record_view(m));
}

/// The engine the sockets call: encode with validation, decode with
/// the roster.
pub struct MessageSerializerEngine {}

impl MessageSerializerEngine {
    pub fn new() -> (r: MessageSerializerEngine) {
        MessageSerializerEngine {  }
    }

    pub fn encode(&self, message: &ChatMessage) -> (r: Result<Vec<u8>, NetworkError>)
        ensures
            match r {
                Ok(b) => encodable_message(*message) && b@ == encode_record_spec(
                    msg_record_view(*message),
                ),
                Err(e) => !encodable_message(*message) && e is InvalidFormat,
            },
    {
        serialize_message(message)
    }

    /// Decode received bytes; empty input is no record. Decode
    /// failure is `Ok(None)`: a malformed datagram never fails the
    /// listener.
    pub fn decode(&self, data: &Vec<u8>, peers: &Vec<Peer>, now_ms: i64) -> (r: Result<
        Option<DeserializedMessage>,
        NetworkError,
    >)
        ensures
            match r {
                Ok(opt) => decode_result_matches(opt, data@, peers@, now_ms),
                Err(_) => false,
            },
    {
        if data.len() == 0 {
            return Ok(None);
        }
        Ok(deserialize_message(data, peers, now_ms))
    }
}

} // verus!
