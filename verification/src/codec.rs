//! The wire codec: one framed binary record per transmission,
//! carrying either a chat message or an acknowledgement.
//!
//! The committed schema: a record is a content tag byte (0 text, 1
//! delivery), then `uuid`, `sender_uuid` as strings, the timestamp as
//! eight big-endian bytes of the two's-complement millisecond value,
//! the `room_uuid` string, and the tag's payload. A string is four
//! big-endian bytes of UTF-8 byte length followed by the UTF-8 bytes.
//! An optional string is a presence byte (0 or 1) and, when present,
//! a string. A record carries nothing after its payload.

use vstd::prelude::*;
use vstd::utf8::decode_utf8;
use vstd::utf8::encode_utf8;
use vstd::utf8::encode_utf8_decode_utf8;
use vstd::utf8::encode_utf8_valid_utf8;
use vstd::utf8::valid_utf8;

verus! {

broadcast use encode_utf8_valid_utf8, encode_utf8_decode_utf8;

/// Big-endian value of a byte string.
pub open spec fn be_val(b: Seq<u8>) -> int
    decreases b.len(),
{
    if b.len() == 0 {
        0
    } else {
        be_val(b.drop_last()) * 256 + b.last()
    }
}

/// The `width` big-endian bytes of `n`'s low bits.
pub open spec fn be_bytes(n: int, width: nat) -> Seq<u8>
    decreases width,
{
    if width == 0 {
        Seq::empty()
    } else {
        be_bytes(n / 256, (width - 1) as nat).push((n % 256) as u8)
    }
}

pub proof fn lemma_be_bytes_len(n: int, width: nat)
    ensures
        be_bytes(n, width).len() == width,
    decreases width,
{
    if width > 0 {
        lemma_be_bytes_len(n / 256, (width - 1) as nat);
    }
}

/// Encoding then reading back yields the value, for values that fit.
pub proof fn lemma_be_roundtrip(n: int, width: nat)
    requires
        0 <= n < pow256(width),
    ensures
        be_val(be_bytes(n, width)) == n,
    decreases width,
{
    if width > 0 {
        lemma_be_bytes_len(n / 256, (width - 1) as nat);
        lemma_be_roundtrip(n / 256, (width - 1) as nat);
        let b = be_bytes(n, width);
        assert(b.drop_last() =~= be_bytes(n / 256, (width - 1) as nat));
    }
}

pub open spec fn pow256(w: nat) -> int
    decreases w,
{
    if w == 0 {
        1
    } else {
        256 * pow256((w - 1) as nat)
    }
}

/// The four big-endian bytes of a value below 2^32, written out.
pub proof fn lemma_be_bytes4(n: int)
    requires
        0 <= n < 0x100000000,
    ensures
        be_bytes(n, 4) =~= seq![
            (n / 0x1000000 % 256) as u8,
            (n / 0x10000 % 256) as u8,
            (n / 0x100 % 256) as u8,
            (n % 256) as u8,
        ],
{
    assert(be_bytes(n, 4) == be_bytes(n / 256, 3).push((n % 256) as u8));
    assert(be_bytes(n / 256, 3) == be_bytes(n / 0x10000, 2).push((n / 256 % 256) as u8));
    assert(be_bytes(n / 0x10000, 2) == be_bytes(n / 0x1000000, 1).push((n / 0x10000 % 256) as u8));
    assert(be_bytes(n / 0x1000000, 1) == be_bytes(n / 0x100000000, 0).push(
        (n / 0x1000000 % 256) as u8,
    ));
    assert(n / 0x1000000 % 256 == n / 0x1000000) by {
        assert(n / 0x1000000 < 256);
    }
    assert(n / 256 / 256 == n / 0x10000);
    assert(n / 0x10000 / 256 == n / 0x1000000);
    assert(n / 0x1000000 / 256 == n / 0x100000000);
}

/// The eight big-endian bytes of a value below 2^64, written out.
pub proof fn lemma_be_bytes8(n: int)
    requires
        0 <= n < 0x10000000000000000,
    ensures
        be_bytes(n, 8) =~= seq![
            (n / 0x100000000000000 % 256) as u8,
            (n / 0x1000000000000 % 256) as u8,
            (n / 0x10000000000 % 256) as u8,
            (n / 0x100000000 % 256) as u8,
            (n / 0x1000000 % 256) as u8,
            (n / 0x10000 % 256) as u8,
            (n / 0x100 % 256) as u8,
            (n % 256) as u8,
        ],
{
    assert(be_bytes(n, 8) == be_bytes(n / 256, 7).push((n % 256) as u8));
    assert(be_bytes(n / 256, 7) == be_bytes(n / 0x10000, 6).push((n / 256 % 256) as u8));
    assert(be_bytes(n / 0x10000, 6) == be_bytes(n / 0x1000000, 5).push((n / 0x10000 % 256) as u8));
    assert(be_bytes(n / 0x1000000, 5) == be_bytes(n / 0x100000000, 4).push(
        (n / 0x1000000 % 256) as u8,
    ));
    assert(be_bytes(n / 0x100000000, 4) == be_bytes(n / 0x10000000000, 3).push(
        (n / 0x100000000 % 256) as u8,
    ));
    assert(be_bytes(n / 0x10000000000, 3) == be_bytes(n / 0x1000000000000, 2).push(
        (n / 0x10000000000 % 256) as u8,
    ));
    assert(be_bytes(n / 0x1000000000000, 2) == be_bytes(n / 0x100000000000000, 1).push(
        (n / 0x1000000000000 % 256) as u8,
    ));
    assert(be_bytes(n / 0x100000000000000, 1) == be_bytes(n / 0x10000000000000000, 0).push(
        (n / 0x100000000000000 % 256) as u8,
    ));
    assert(n / 0x100000000000000 % 256 == n / 0x100000000000000) by {
        assert(n / 0x100000000000000 < 256);
    }
    assert(n / 256 / 256 == n / 0x10000);
    assert(n / 0x10000 / 256 == n / 0x1000000);
    assert(n / 0x1000000 / 256 == n / 0x100000000);
    assert(n / 0x100000000 / 256 == n / 0x10000000000);
    assert(n / 0x10000000000 / 256 == n / 0x1000000000000);
    assert(n / 0x1000000000000 / 256 == n / 0x100000000000000);
    assert(n / 0x100000000000000 / 256 == n / 0x10000000000000000);
}

proof fn lemma_be_val4(s: Seq<u8>)
    requires
        s.len() == 4,
    ensures
        be_val(s) == s[0] * 0x1000000 + s[1] * 0x10000 + s[2] * 0x100 + s[3],
{
    let s3 = s.drop_last();
    let s2 = s3.drop_last();
    let s1 = s2.drop_last();
    assert(be_val(s) == be_val(s3) * 256 + s[3]);
    assert(be_val(s3) == be_val(s2) * 256 + s[2]);
    assert(be_val(s2) == be_val(s1) * 256 + s[1]);
    assert(be_val(s1) == be_val(s1.drop_last()) * 256 + s[0]);
    assert(be_val(s1.drop_last()) == 0);
}

proof fn lemma_be_val8(s: Seq<u8>)
    requires
        s.len() == 8,
    ensures
        be_val(s) == s[0] * 0x100000000000000 + s[1] * 0x1000000000000 + s[2] * 0x10000000000 + s[3]
            * 0x100000000 + s[4] * 0x1000000 + s[5] * 0x10000 + s[6] * 0x100 + s[7],
        0 <= be_val(s) < 0x10000000000000000,
{
    let s7 = s.drop_last();
    let s6 = s7.drop_last();
    let s5 = s6.drop_last();
    let s4 = s5.drop_last();
    let s3 = s4.drop_last();
    let s2 = s3.drop_last();
    let s1 = s2.drop_last();
    assert(be_val(s) == be_val(s7) * 256 + s[7]);
    assert(be_val(s7) == be_val(s6) * 256 + s[6]);
    assert(be_val(s6) == be_val(s5) * 256 + s[5]);
    assert(be_val(s5) == be_val(s4) * 256 + s[4]);
    assert(be_val(s4) == be_val(s3) * 256 + s[3]);
    assert(be_val(s3) == be_val(s2) * 256 + s[2]);
    assert(be_val(s2) == be_val(s1) * 256 + s[1]);
    assert(be_val(s1) == be_val(s1.drop_last()) * 256 + s[0]);
    assert(be_val(s1.drop_last()) == 0);
}

/// The payload of a wire record.
pub enum WireContent {
    Text { content: String, reply_to: Option<String> },
    Delivery { target_uuid: String, received: bool, read: bool },
}

/// One framed transmission unit.
pub struct WireRecord {
    pub uuid: String,
    pub sender_uuid: String,
    pub timestamp: i64,
    pub room_uuid: String,
    pub content: WireContent,
}

pub enum WireContentView {
    Text { content: Seq<char>, reply_to: Option<Seq<char>> },
    Delivery { target_uuid: Seq<char>, received: bool, read: bool },
}

pub struct WireRecordView {
    pub uuid: Seq<char>,
    pub sender_uuid: Seq<char>,
    pub timestamp: i64,
    pub room_uuid: Seq<char>,
    pub content: WireContentView,
}

impl View for WireContent {
    type V = WireContentView;

    open spec fn view(&self) -> WireContentView {
        match self {
            WireContent::Text { content, reply_to } => WireContentView::Text {
                content: content@,
                reply_to: match reply_to {
                    Some(r) => Some(r@),
                    None => None,
                },
            },
            WireContent::Delivery { target_uuid, received, read } => WireContentView::Delivery {
                target_uuid: target_uuid@,
                received: *received,
                read: *read,
            },
        }
    }
}

impl View for WireRecord {
    type V = WireRecordView;

    open spec fn view(&self) -> WireRecordView {
        WireRecordView {
            uuid: self.uuid@,
            sender_uuid: self.sender_uuid@,
            timestamp: self.timestamp,
            room_uuid: self.room_uuid@,
            content: self.content@,
        }
    }
}

/// A string whose UTF-8 form fits the four-byte length prefix.
pub open spec fn str_encodable(s: Seq<char>) -> bool {
    encode_utf8(s).len() < 0x100000000
}

/// Every string of the record fits its length prefix.
pub open spec fn record_encodable(v: WireRecordView) -> bool {
    str_encodable(v.uuid) && str_encodable(v.sender_uuid) && str_encodable(v.room_uuid)
        && match v.content {
        WireContentView::Text { content, reply_to } => str_encodable(content) && match reply_to {
            Some(r) => str_encodable(r),
            None => true,
        },
        WireContentView::Delivery { target_uuid, .. } => str_encodable(target_uuid),
    }
}

pub open spec fn enc_str(s: Seq<char>) -> Seq<u8> {
    be_bytes(encode_utf8(s).len() as int, 4) + encode_utf8(s)
}

pub open spec fn enc_opt_str(s: Option<Seq<char>>) -> Seq<u8> {
    match s {
        None => seq![0u8],
        Some(r) => seq![1u8] + enc_str(r),
    }
}

pub open spec fn enc_bool(b: bool) -> Seq<u8> {
    if b {
        seq![1u8]
    } else {
        seq![0u8]
    }
}

/// The two's-complement value of a signed 64-bit integer.
pub open spec fn i64_as_u64_val(n: i64) -> int {
    if n >= 0 {
        n as int
    } else {
        n + 0x10000000000000000
    }
}

/// The signed reading of a 64-bit two's-complement value.
pub open spec fn u64_val_as_i64(u: int) -> int {
    if u < 0x8000000000000000 {
        u
    } else {
        u - 0x10000000000000000
    }
}

pub open spec fn enc_i64(n: i64) -> Seq<u8> {
    be_bytes(i64_as_u64_val(n), 8)
}

pub open spec fn content_tag(c: WireContentView) -> u8 {
    match c {
        WireContentView::Text { .. } => 0u8,
        WireContentView::Delivery { .. } => 1u8,
    }
}

/// The byte form of a record.
pub open spec fn encode_record_spec(v: WireRecordView) -> Seq<u8> {
    seq![content_tag(v.content)] + enc_str(v.uuid) + enc_str(v.sender_uuid) + enc_i64(v.timestamp)
        + enc_str(v.room_uuid) + match v.content {
        WireContentView::Text { content, reply_to } => enc_str(content) + enc_opt_str(reply_to),
        WireContentView::Delivery { target_uuid, received, read } => enc_str(target_uuid)
            + enc_bool(received) + enc_bool(read),
    }
}

/// Parse a length-prefixed string at offset `i`: the value and the
/// offset after it.
pub open spec fn parse_str_spec(b: Seq<u8>, i: int) -> Option<(Seq<char>, int)> {
    if 0 <= i && i + 4 <= b.len() {
        let n = be_val(b.subrange(i, i + 4));
        if i + 4 + n <= b.len() && valid_utf8(b.subrange(i + 4, i + 4 + n)) {
            Some((decode_utf8(b.subrange(i + 4, i + 4 + n)), i + 4 + n))
        } else {
            None
        }
    } else {
        None
    }
}

pub open spec fn parse_bool_spec(b: Seq<u8>, i: int) -> Option<(bool, int)> {
    if 0 <= i && i < b.len() && (b[i] == 0 || b[i] == 1) {
        Some((b[i] == 1, i + 1))
    } else {
        None
    }
}

pub open spec fn parse_i64_spec(b: Seq<u8>, i: int) -> Option<(i64, int)> {
    if 0 <= i && i + 8 <= b.len() {
        Some((u64_val_as_i64(be_val(b.subrange(i, i + 8))) as i64, i + 8))
    } else {
        None
    }
}

pub open spec fn parse_opt_str_spec(b: Seq<u8>, i: int) -> Option<(Option<Seq<char>>, int)> {
    if 0 <= i && i < b.len() {
        if b[i] == 0 {
            Some((None, i + 1))
        } else if b[i] == 1 {
            match parse_str_spec(b, i + 1) {
                Some((s, j)) => Some((Some(s), j)),
                None => None,
            }
        } else {
            None
        }
    } else {
        None
    }
}

proof fn lemma_parse_str_at(b: Seq<u8>, i: int, s: Seq<char>)
    requires
        str_encodable(s),
        0 <= i,
        i + enc_str(s).len() <= b.len(),
        b.subrange(i, i + enc_str(s).len() as int) == enc_str(s),
    ensures
        parse_str_spec(b, i) == Some((s, i + enc_str(s).len() as int)),
{
    let u = encode_utf8(s);
    let n = u.len() as int;
    lemma_be_bytes_len(n, 4);
    assert(enc_str(s).len() == 4 + n);
    assert(b.subrange(i, i + 4) =~= enc_str(s).subrange(0, 4));
    assert(enc_str(s).subrange(0, 4) =~= be_bytes(n, 4));
    assert(pow256(4) == 0x100000000) by {
        assert(pow256(0) == 1);
        assert(pow256(1) == 256);
        assert(pow256(2) == 0x10000);
        assert(pow256(3) == 0x1000000);
    }
    lemma_be_roundtrip(n, 4);
    assert(be_val(b.subrange(i, i + 4)) == n);
    assert(b.subrange(i + 4, i + 4 + n) =~= enc_str(s).subrange(4, 4 + n));
    assert(enc_str(s).subrange(4, 4 + n) =~= u);
    assert(valid_utf8(u));
    assert(decode_utf8(u) == s);
}

proof fn lemma_parse_i64_at(b: Seq<u8>, i: int, n: i64)
    requires
        0 <= i,
        i + 8 <= b.len(),
        b.subrange(i, i + 8) == enc_i64(n),
    ensures
        parse_i64_spec(b, i) == Some((n, i + 8)),
{
    assert(pow256(8) == 0x10000000000000000) by {
        assert(pow256(0) == 1);
        assert(pow256(1) == 256);
        assert(pow256(2) == 0x10000);
        assert(pow256(3) == 0x1000000);
        assert(pow256(4) == 0x100000000);
        assert(pow256(5) == 0x10000000000);
        assert(pow256(6) == 0x1000000000000);
        assert(pow256(7) == 0x100000000000000);
    }
    lemma_be_roundtrip(i64_as_u64_val(n), 8);
    assert(be_val(b.subrange(i, i + 8)) == i64_as_u64_val(n));
    assert(u64_val_as_i64(i64_as_u64_val(n)) == n);
}

proof fn lemma_parse_bool_at(b: Seq<u8>, i: int, v: bool)
    requires
        0 <= i,
        i + 1 <= b.len(),
        b.subrange(i, i + 1) == enc_bool(v),
    ensures
        parse_bool_spec(b, i) == Some((v, i + 1)),
{
    assert(b[i] == enc_bool(v)[0]);
}

proof fn lemma_parse_opt_str_at(b: Seq<u8>, i: int, s: Option<Seq<char>>)
    requires
        match s {
            Some(r) => str_encodable(r),
            None => true,
        },
        0 <= i,
        i + enc_opt_str(s).len() <= b.len(),
        b.subrange(i, i + enc_opt_str(s).len() as int) == enc_opt_str(s),
    ensures
        parse_opt_str_spec(b, i) == Some((s, i + enc_opt_str(s).len() as int)),
{
    match s {
        None => {
            assert(b[i] == enc_opt_str(s)[0]);
        },
        Some(r) => {
            assert(b[i] == enc_opt_str(s)[0]);
            assert(b[i] == 1);
            assert(b.subrange(i + 1, i + 1 + enc_str(r).len() as int) =~= enc_opt_str(s).subrange(
                1,
                1 + enc_str(r).len() as int,
            ));
            assert(enc_opt_str(s).subrange(1, 1 + enc_str(r).len() as int) =~= enc_str(r));
            lemma_parse_str_at(b, i + 1, r);
        },
    }
}

/// Decoding what was encoded yields the record back: the schema loses
/// nothing.
#[verifier::rlimit(100)]
#[verifier::spinoff_prover]
pub proof fn lemma_record_roundtrip(v: WireRecordView)
    requires
        record_encodable(v),
    ensures
        parse_record_spec(encode_record_spec(v)) == Some(v),
{
    let b = encode_record_spec(v);
    let e_uuid = enc_str(v.uuid);
    let e_sender = enc_str(v.sender_uuid);
    let e_ts = enc_i64(v.timestamp);
    let e_room = enc_str(v.room_uuid);
    let i1 = 1 + e_uuid.len() as int;
    let i2 = i1 + e_sender.len() as int;
    let i3 = i2 + 8;
    let i4 = i3 + e_room.len() as int;
    lemma_be_bytes_len(i64_as_u64_val(v.timestamp), 8);
    assert(b[0] == content_tag(v.content));
    assert(b.subrange(1, i1) =~= e_uuid);
    lemma_parse_str_at(b, 1, v.uuid);
    assert(b.subrange(i1, i2) =~= e_sender);
    lemma_parse_str_at(b, i1, v.sender_uuid);
    assert(b.subrange(i2, i3) =~= e_ts);
    lemma_parse_i64_at(b, i2, v.timestamp);
    assert(b.subrange(i3, i4) =~= e_room);
    lemma_parse_str_at(b, i3, v.room_uuid);
    match v.content {
        WireContentView::Text { content, reply_to } => {
            let e_content = enc_str(content);
            let i5 = i4 + e_content.len() as int;
            let i6 = i5 + enc_opt_str(reply_to).len() as int;
            assert(b.subrange(i4, i5) =~= e_content);
            lemma_parse_str_at(b, i4, content);
            assert(b.subrange(i5, i6) =~= enc_opt_str(reply_to));
            lemma_parse_opt_str_at(b, i5, reply_to);
            assert(i6 == b.len());
            assert(parse_record_spec(b) == Some(v));
        },
        WireContentView::Delivery { target_uuid, received, read } => {
            let e_target = enc_str(target_uuid);
            let i5 = i4 + e_target.len() as int;
            let i6 = i5 + 1;
            let i7 = i6 + 1;
            assert(b.subrange(i4, i5) =~= e_target);
            lemma_parse_str_at(b, i4, target_uuid);
            assert(b.subrange(i5, i6) =~= enc_bool(received));
            lemma_parse_bool_at(b, i5, received);
            assert(b.subrange(i6, i7) =~= enc_bool(read));
            lemma_parse_bool_at(b, i6, read);
            assert(i7 == b.len());
            assert(parse_record_spec(b) == Some(v));
        },
    }
}

/// The record a byte string holds, if it is exactly one well-formed
/// record.
pub open spec fn parse_record_spec(b: Seq<u8>) -> Option<WireRecordView> {
    if b.len() == 0 {
        None
    } else {
        let tag = b[0];
        match parse_str_spec(b, 1) {
            Some((uuid, i1)) => match parse_str_spec(b, i1) {
                Some((sender_uuid, i2)) => match parse_i64_spec(b, i2) {
                    Some((timestamp, i3)) => match parse_str_spec(b, i3) {
                        Some((room_uuid, i4)) => if tag == 0 {
                            match parse_str_spec(b, i4) {
                                Some((content, i5)) => match parse_opt_str_spec(b, i5) {
                                    Some((reply_to, i6)) => if i6 == b.len() {
                                        Some(
                                            WireRecordView {
                                                uuid,
                                                sender_uuid,
                                                timestamp,
                                                room_uuid,
                                                content: WireContentView::Text {
                                                    content,
                                                    reply_to,
                                                },
                                            },
                                        )
                                    } else {
                                        None
                                    },
                                    None => None,
                                },
                                None => None,
                            }
                        } else if tag == 1 {
                            match parse_str_spec(b, i4) {
                                Some((target_uuid, i5)) => match parse_bool_spec(b, i5) {
                                    Some((received, i6)) => match parse_bool_spec(b, i6) {
                                        Some((read, i7)) => if i7 == b.len() {
                                            Some(
                                                WireRecordView {
                                                    uuid,
                                                    sender_uuid,
                                                    timestamp,
                                                    room_uuid,
                                                    content: WireContentView::Delivery {
                                                        target_uuid,
                                                        received,
                                                        read,
                                                    },
                                                },
                                            )
                                        } else {
                                            None
                                        },
                                        None => None,
                                    },
                                    None => None,
                                },
                                None => None,
                            }
                        } else {
                            None
                        },
                        None => None,
                    },
                    None => None,
                },
                None => None,
            },
            None => None,
        }
    }
}

/// Relies on String::from_utf8: the string of the given bytes when
/// they are valid UTF-8, an error otherwise.
#[verifier::external_body]
pub(crate) fn string_from_utf8(v: Vec<u8>) -> (r: Option<String>)
    ensures
        match r {
            Some(s) => encode_utf8(s@) == v@,
            None => !valid_utf8(v@),
        },
        valid_utf8(v@) ==> r is Some,
{
    String::from_utf8(v).ok()
}

fn write_u32be(out: &mut Vec<u8>, n: u64)
    requires
        n < 0x100000000,
    ensures
        final(out)@ == old(out)@ + be_bytes(n as int, 4),
{
    out.push((n / 0x1000000 % 256) as u8);
    out.push((n / 0x10000 % 256) as u8);
    out.push((n / 0x100 % 256) as u8);
    out.push((n % 256) as u8);
    proof {
        lemma_be_bytes4(n as int);
        assert(final(out)@ =~= old(out)@ + be_bytes(n as int, 4));
    }
}

fn write_u64be(out: &mut Vec<u8>, n: u64)
    ensures
        final(out)@ == old(out)@ + be_bytes(n as int, 8),
{
    out.push((n / 0x100000000000000 % 256) as u8);
    out.push((n / 0x1000000000000 % 256) as u8);
    out.push((n / 0x10000000000 % 256) as u8);
    out.push((n / 0x100000000 % 256) as u8);
    out.push((n / 0x1000000 % 256) as u8);
    out.push((n / 0x10000 % 256) as u8);
    out.push((n / 0x100 % 256) as u8);
    out.push((n % 256) as u8);
    proof {
        lemma_be_bytes8(n as int);
        assert(final(out)@ =~= old(out)@ + be_bytes(n as int, 8));
    }
}

fn write_i64be(out: &mut Vec<u8>, n: i64)
    ensures
        final(out)@ == old(out)@ + enc_i64(n),
{
    let u: u64 = if n >= 0 {
        n as u64
    } else {
        let pos: u64 = (-(n + 1)) as u64;
        u64::MAX - pos
    };
    proof {
        assert(u as int == i64_as_u64_val(n));
    }
    write_u64be(out, u);
}

/// Append a length-prefixed string; refused when the UTF-8 form
/// exceeds the four-byte length prefix.
fn write_str(out: &mut Vec<u8>, s: &str) -> (ok: bool)
    ensures
        ok ==> str_encodable(s@) && final(out)@ == old(out)@ + enc_str(s@),
        !ok ==> !str_encodable(s@) && *final(out) == *old(out),
{
    let mut bv = s.as_bytes_vec();
    let n = bv.len();
    if n as u64 >= 0x100000000u64 {
        return false;
    }
    write_u32be(out, n as u64);
    out.append(&mut bv);
    proof {
        lemma_be_bytes_len(n as int, 4);
        assert(final(out)@ =~= old(out)@ + enc_str(s@));
    }
    true
}

fn write_bool(out: &mut Vec<u8>, b: bool)
    ensures
        final(out)@ == old(out)@ + enc_bool(b),
{
    out.push(
        if b {
            1u8
        } else {
            0u8
        },
    );
    proof {
        assert(final(out)@ =~= old(out)@ + enc_bool(b));
    }
}

/// Encode a record into its byte form. Fails, with `InvalidFormat`,
/// only when a string exceeds the length prefix.
pub fn encode_record(r: &WireRecord) -> (res: Result<Vec<u8>, crate::endpoint::NetworkError>)
    ensures
        match res {
            Ok(b) => record_encodable(r@) && b@ == encode_record_spec(r@),
            Err(e) => !record_encodable(r@) && e is InvalidFormat,
        },
{
    let mut out: Vec<u8> = Vec::new();
    let tag: u8 = match &r.content {
        WireContent::Text { .. } => 0,
        WireContent::Delivery { .. } => 1,
    };
    out.push(tag);
    proof {
        assert(out@ =~= seq![content_tag(r@.content)]);
    }
    if !write_str(&mut out, r.uuid.as_str()) {
        return Err(crate::endpoint::NetworkError::InvalidFormat(String::from_str(
            "string field too long",
        )));
    }
    if !write_str(&mut out, r.sender_uuid.as_str()) {
        return Err(crate::endpoint::NetworkError::InvalidFormat(String::from_str(
            "string field too long",
        )));
    }
    write_i64be(&mut out, r.timestamp);
    if !write_str(&mut out, r.room_uuid.as_str()) {
        return Err(crate::endpoint::NetworkError::InvalidFormat(String::from_str(
            "string field too long",
        )));
    }
    match &r.content {
        WireContent::Text { content, reply_to } => {
            if !write_str(&mut out, content.as_str()) {
                return Err(crate::endpoint::NetworkError::InvalidFormat(String::from_str(
                    "string field too long",
                )));
            }
            match reply_to {
                None => {
                    out.push(0u8);
                },
                Some(rt) => {
                    out.push(1u8);
                    if !write_str(&mut out, rt.as_str()) {
                        return Err(crate::endpoint::NetworkError::InvalidFormat(String::from_str(
                            "string field too long",
                        )));
                    }
                },
            }
        },
        WireContent::Delivery { target_uuid, received, read } => {
            if !write_str(&mut out, target_uuid.as_str()) {
                return Err(crate::endpoint::NetworkError::InvalidFormat(String::from_str(
                    "string field too long",
                )));
            }
            write_bool(&mut out, *received);
            write_bool(&mut out, *read);
        },
    }
    proof {
        assert(out@ =~= encode_record_spec(r@));
    }
    Ok(out)
}

/// Read a length-prefixed string at `i`.
fn read_str(b: &Vec<u8>, i: usize) -> (r: Option<(String, usize)>)
    requires
        i <= b@.len(),
    ensures
        match r {
            Some((s, j)) => parse_str_spec(b@, i as int) == Some((s@, j as int)) && i < j <= b@.len(),
            None => parse_str_spec(b@, i as int) is None,
        },
{
    if b.len() - i < 4 {
        return None;
    }
    let n64: u64 = b[i] as u64 * 0x1000000 + b[i + 1] as u64 * 0x10000 + b[i + 2] as u64 * 0x100
        + b[i + 3] as u64;
    proof {
        let w = b@.subrange(i as int, i + 4);
        lemma_be_val4(w);
        assert(w[0] == b@[i as int] && w[1] == b@[i + 1] && w[2] == b@[i + 2] && w[3] == b@[i + 3]);
        assert(n64 as int == be_val(w));
    }
    let n = n64 as usize;
    if b.len() - (i + 4) < n {
        return None;
    }
    let mut sub: Vec<u8> = Vec::new();
    let mut k: usize = 0;
    while k < n
        invariant
            k <= n,
            i + 4 + n <= b@.len(),
            i + 4 + n <= usize::MAX,
            sub@ =~= b@.subrange(i + 4, i + 4 + k),
        decreases n - k,
    {
        sub.push(b[i + 4 + k]);
        k += 1;
    }
    proof {
        assert(sub@ =~= b@.subrange(i + 4, i + 4 + n));
    }
    match string_from_utf8(sub) {
        Some(t) => {
            proof {
                assert(encode_utf8(t@) == b@.subrange(i + 4, i + 4 + n as int));
                assert(decode_utf8(b@.subrange(i + 4, i + 4 + n as int)) == t@);
            }
            Some((t, i + 4 + n))
        },
        None => None,
    }
}

fn read_i64(b: &Vec<u8>, i: usize) -> (r: Option<(i64, usize)>)
    requires
        i <= b@.len(),
    ensures
        match r {
            Some((v, j)) => parse_i64_spec(b@, i as int) == Some((v, j as int)) && i < j
                <= b@.len(),
            None => parse_i64_spec(b@, i as int) is None,
        },
{
    if b.len() - i < 8 {
        return None;
    }
    let u: u64 = b[i] as u64 * 0x100000000000000 + b[i + 1] as u64 * 0x1000000000000 + b[i
        + 2] as u64 * 0x10000000000 + b[i + 3] as u64 * 0x100000000 + b[i + 4] as u64 * 0x1000000
        + b[i + 5] as u64 * 0x10000 + b[i + 6] as u64 * 0x100 + b[i + 7] as u64;
    proof {
        let w = b@.subrange(i as int, i + 8);
        lemma_be_val8(w);
        assert(w[0] == b@[i as int] && w[1] == b@[i + 1] && w[2] == b@[i + 2] && w[3] == b@[i + 3]
            && w[4] == b@[i + 4] && w[5] == b@[i + 5] && w[6] == b@[i + 6] && w[7] == b@[i + 7]);
        assert(u as int == be_val(w));
    }
    let v: i64 = if u < 0x8000000000000000u64 {
        u as i64
    } else {
        let pos: u64 = u64::MAX - u;
        -(pos as i64) - 1
    };
    proof {
        assert(v as int == u64_val_as_i64(u as int));
    }
    Some((v, i + 8))
}

fn read_bool(b: &Vec<u8>, i: usize) -> (r: Option<(bool, usize)>)
    requires
        i <= b@.len(),
    ensures
        match r {
            Some((v, j)) => parse_bool_spec(b@, i as int) == Some((v, j as int)) && i < j
                <= b@.len(),
            None => parse_bool_spec(b@, i as int) is None,
        },
{
    if b.len() - i < 1 {
        return None;
    }
    let byte = b[i];
    if byte == 0 {
        Some((false, i + 1))
    } else if byte == 1 {
        Some((true, i + 1))
    } else {
        None
    }
}

fn read_opt_str(b: &Vec<u8>, i: usize) -> (r: Option<(Option<String>, usize)>)
    requires
        i <= b@.len(),
    ensures
        match r {
            Some((s, j)) => i < j <= b@.len() && match s {
                Some(t) => parse_opt_str_spec(b@, i as int) == Some((Some(t@), j as int)),
                None => parse_opt_str_spec(b@, i as int) == Some((None::<Seq<char>>, j as int)),
            },
            None => parse_opt_str_spec(b@, i as int) is None,
        },
{
    if b.len() - i < 1 {
        return None;
    }
    let byte = b[i];
    if byte == 0 {
        Some((None, i + 1))
    } else if byte == 1 {
        match read_str(b, i + 1) {
            Some((t, j)) => Some((Some(t), j)),
            None => None,
        }
    } else {
        None
    }
}

/// Parse exactly one record from the bytes of one transmission.
pub fn parse_record(b: &Vec<u8>) -> (r: Option<WireRecord>)
    ensures
        match r {
            Some(rec) => parse_record_spec(b@) == Some(rec@),
            None => parse_record_spec(b@) is None,
        },
{
    if b.len() == 0 {
        return None;
    }
    let tag = b[0];
    if tag != 0 && tag != 1 {
        return None;
    }
    let (uuid, i1) = match read_str(b, 1) {
        Some(x) => x,
        None => {
            return None;
        },
    };
    let (sender_uuid, i2) = match read_str(b, i1) {
        Some(x) => x,
        None => {
            return None;
        },
    };
    let (timestamp, i3) = match read_i64(b, i2) {
        Some(x) => x,
        None => {
            return None;
        },
    };
    let (room_uuid, i4) = match read_str(b, i3) {
        Some(x) => x,
        None => {
            return None;
        },
    };
    if tag == 0 {
        let (content, i5) = match read_str(b, i4) {
            Some(x) => x,
            None => {
                return None;
            },
        };
        let (reply_to, i6) = match read_opt_str(b, i5) {
            Some(x) => x,
            None => {
                return None;
            },
        };
        if i6 != b.len() {
            return None;
        }
        Some(
            WireRecord {
                uuid,
                sender_uuid,
                timestamp,
                room_uuid,
                content: WireContent::Text { content, reply_to },
            },
        )
    } else {
        let (target_uuid, i5) = match read_str(b, i4) {
            Some(x) => x,
            None => {
                return None;
            },
        };
        let (received, i6) = match read_bool(b, i5) {
            Some(x) => x,
            None => {
                return None;
            },
        };
        let (read, i7) = match read_bool(b, i6) {
            Some(x) => x,
            None => {
                return None;
            },
        };
        if i7 != b.len() {
            return None;
        }
        Some(
            WireRecord {
                uuid,
                sender_uuid,
                timestamp,
                room_uuid,
                content: WireContent::Delivery { target_uuid, received, read },
            },
        )
    }
}

} // verus!
