//! Bridges to the host — wallclock time and randomness — and the
//! message identifier generator built on them.

use vstd::prelude::*;
use vstd::utf8::encode_utf8;
use vstd::utf8::is_ascii_chars;
use vstd::utf8::is_ascii_chars_encode_utf8;

use crate::codec::string_from_utf8;

verus! {

/// Relies on chrono::Utc::now / timestamp_millis: the current
/// wallclock as milliseconds since the Unix epoch. Nothing is
/// promised of its value.
#[verifier::external_body]
pub(crate) fn now_millis() -> (r: i64) {
    chrono::Utc::now().timestamp_millis()
}

/// Relies on chrono::Utc::now / timestamp: the current wallclock as
/// seconds since the Unix epoch. Nothing is promised of its value.
#[verifier::external_body]
pub(crate) fn now_seconds() -> (r: i64) {
    chrono::Utc::now().timestamp()
}

/// Relies on rand::random: a random value; nothing is promised of it.
#[verifier::external_body]
fn random_u64() -> (r: u64) {
    rand::random()
}

/// Relies on rand::random_range: a sample of the inclusive range,
/// which its source keeps within the bounds. Nothing more is promised
/// of the value.
#[verifier::external_body]
pub(crate) fn random_in_range(min: u64, max: u64) -> (r: u64)
    requires
        min <= max,
    ensures
        min <= r <= max,
{
    rand::random_range(min..=max)
}

/// An ASCII code of a lower-case hex digit.
pub open spec fn is_hex_ascii(b: u8) -> bool {
    (48 <= b <= 57) || (97 <= b <= 102)
}

/// Turn ASCII bytes into the string of the same characters.
fn ascii_bytes_to_string(v: Vec<u8>) -> (r: String)
    requires
        forall|i: int| 0 <= i < v@.len() ==> v@[i] < 128,
    ensures
        r@.len() == v@.len(),
        forall|i: int| 0 <= i < v@.len() ==> r@[i] == v@[i] as char,
{
    let ghost target: Seq<char> = Seq::new(v@.len(), |i: int| v@[i] as char);
    proof {
        assert(is_ascii_chars(target));
        is_ascii_chars_encode_utf8(target);
        assert(encode_utf8(target) =~= v@);
    }
    match string_from_utf8(v) {
        Some(s) => {
            proof {
                vstd::utf8::encode_utf8_decode_utf8(target);
                vstd::utf8::encode_utf8_decode_utf8(s@);
                assert(s@ == target);
            }
            s
        },
        None => {
            proof {
                vstd::utf8::encode_utf8_valid_utf8(target);
                assert(false);
            }
            unreached()
        },
    }
}

/// The sixteen hex digits of a 64-bit value, as ASCII bytes in no
/// particular digit order.
fn hex_digits_u64(x: u64) -> (r: Vec<u8>)
    ensures
        r@.len() == 16,
        forall|i: int| 0 <= i < 16 ==> is_hex_ascii(#[trigger] r@[i]),
{
    let mut rest = x;
    let mut v: Vec<u8> = Vec::new();
    let mut k: usize = 0;
    while k < 16
        invariant
            v@.len() == k,
            k <= 16,
            forall|i: int| 0 <= i < k ==> is_hex_ascii(#[trigger] v@[i]),
        decreases 16 - k,
    {
        let d = (rest % 16) as u8;
        let c: u8 = if d < 10 {
            48 + d
        } else {
            87 + d
        };
        v.push(c);
        rest = rest / 16;
        k += 1;
    }
    v
}

/// A lower-case hexadecimal digit.
pub open spec fn is_hex_char(c: char) -> bool {
    ('0' <= c && c <= '9') || ('a' <= c && c <= 'f')
}

/// A freshly minted message identifier in the canonical
/// 8-4-4-4-12 hex form, with the version and variant digits fixed.
/// The hex digits themselves are random.
pub fn generate_uuid() -> (r: String)
    ensures
        r@.len() == 36,
        r@[8] == '-' && r@[13] == '-' && r@[18] == '-' && r@[23] == '-',
        r@[14] == '4',
        r@[19] == '8',
        forall|i: int|
            0 <= i < 36 && i != 8 && i != 13 && i != 18 && i != 23 ==> is_hex_char(
                #[trigger] r@[i],
            ),
{
    let mut buf = hex_digits_u64(random_u64());
    let mut hi = hex_digits_u64(random_u64());
    buf.append(&mut hi);
    buf[12] = 52;  // '4': the version digit
    buf[16] = 56;  // '8': the variant digit
    let ghost digits = buf@;
    proof {
        assert(forall|i: int| 0 <= i < 32 ==> is_hex_ascii(#[trigger] digits[i]));
    }
    let mut out: Vec<u8> = Vec::new();
    let mut k: usize = 0;
    while k < 32
        invariant
            buf@ == digits,
            digits.len() == 32,
            forall|i: int| 0 <= i < 32 ==> is_hex_ascii(#[trigger] digits[i]),
            digits[12] == 52,
            digits[16] == 56,
            k <= 32,
            out@.len() == k + (if k > 20 {
                4int
            } else if k > 16 {
                3int
            } else if k > 12 {
                2int
            } else if k > 8 {
                1int
            } else {
                0int
            }),
            forall|i: int| 0 <= i < out@.len() ==> out@[i] < 128,
            forall|i: int|
                0 <= i < out@.len() && i != 8 && i != 13 && i != 18 && i != 23 ==> is_hex_ascii(
                    #[trigger] out@[i],
                ),
            out@.len() > 8 ==> out@[8] == 45,
            out@.len() > 13 ==> out@[13] == 45,
            out@.len() > 14 ==> out@[14] == 52,
            out@.len() > 18 ==> out@[18] == 45,
            out@.len() > 19 ==> out@[19] == 56,
            out@.len() > 23 ==> out@[23] == 45,
        decreases 32 - k,
    {
        if k == 8 || k == 12 || k == 16 || k == 20 {
            out.push(45);  // '-'
        }
        out.push(buf[k]);
        k += 1;
    }
    let s = ascii_bytes_to_string(out);
    proof {
        assert(s@[8] == 45 as char);
        assert(s@[13] == 45 as char);
        assert(s@[18] == 45 as char);
        assert(s@[23] == 45 as char);
        assert(s@[14] == 52 as char);
        assert(s@[19] == 56 as char);
        assert forall|i: int|
            0 <= i < 36 && i != 8 && i != 13 && i != 18 && i != 23 implies is_hex_char(
            #[trigger] s@[i],
        ) by {
            assert(is_hex_ascii(out@[i]));
            assert(s@[i] == out@[i] as char);
        }
    }
    s
}

/// The character of one decimal digit.
pub open spec fn digit_char(d: int) -> char {
    ((48 + d) as u8) as char
}

/// Two decimal digits, leading zero kept.
pub open spec fn two_digits(n: int) -> Seq<char>
    recommends
        0 <= n < 100,
{
    seq![digit_char(n / 10), digit_char(n % 10)]
}

/// A two-digit decimal field, leading zero kept.
pub fn two_digits_string(n: u64) -> (r: String)
    requires
        n < 100,
    ensures
        r@ == two_digits(n as int),
{
    let mut v: Vec<u8> = Vec::new();
    v.push(48 + (n / 10) as u8);
    v.push(48 + (n % 10) as u8);
    let s = ascii_bytes_to_string(v);
    proof {
        assert(s@ =~= two_digits(n as int));
    }
    s
}

} // verus!
