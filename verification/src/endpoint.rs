//! Network endpoints: a tagged address over a datagram transport, a
//! stream transport, or the bundle protocol.
//!
//! The committed address grammar follows the host's socket-address
//! parser: IP endpoints hold `host:port` where the host is four
//! decimal octets (0-255, no leading zeros), or a bracketed IPv6
//! address — hex pieces of up to four digits, one optional `::`, an
//! optional embedded IPv4 tail and an optional numeric zone — and the
//! port is decimal, at most 65535; bundle endpoints hold an EID that
//! begins with `ipn:` or `dtn:` and carries no placeholder marker. An
//! `ipn:` EID body is `<node>.<service>`, two decimal 32-bit numbers.

use vstd::prelude::*;

use crate::strutil::all_digits;
use crate::strutil::contains_spec;
use crate::strutil::digits_val;
use crate::strutil::eq_ignore_case_spec;
use crate::strutil::lemma_digits_val_bound;
use crate::strutil::parse_u64;
use crate::strutil::pow10;
use crate::strutil::split_once_spec;
use crate::strutil::split_once_str;
use crate::strutil::split_spec;
use crate::strutil::split_str;
use crate::strutil::starts_with_spec;
use crate::strutil::str_contains;
use crate::strutil::str_eq_ignore_case;
use crate::strutil::str_starts_with;

verus! {

/// Errors of endpoint construction and socket plumbing.
#[derive(Debug)]
pub enum NetworkError {
    InvalidFormat(String),
    UnsupportedScheme(String),
    AddressParseError(String),
    BpNotImplemented(String),
    Io(String),
}

#[derive(Debug)]
pub enum Endpoint {
    Udp(String),
    Tcp(String),
    Bp(String),
}

impl Clone for Endpoint {
    fn clone(&self) -> (res: Self)
        ensures
            res == *self,
    {
        match self {
            Endpoint::Udp(a) => Endpoint::Udp(a.clone()),
            Endpoint::Tcp(a) => Endpoint::Tcp(a.clone()),
            Endpoint::Bp(a) => Endpoint::Bp(a.clone()),
        }
    }
}

impl PartialEq for Endpoint {
    fn eq(&self, other: &Self) -> (r: bool) {
        match (self, other) {
            (Endpoint::Udp(a), Endpoint::Udp(b)) => crate::strutil::str_eq(a.as_str(), b.as_str()),
            (Endpoint::Tcp(a), Endpoint::Tcp(b)) => crate::strutil::str_eq(a.as_str(), b.as_str()),
            (Endpoint::Bp(a), Endpoint::Bp(b)) => crate::strutil::str_eq(a.as_str(), b.as_str()),
            _ => false,
        }
    }
}

impl vstd::std_specs::cmp::PartialEqSpecImpl for Endpoint {
    open spec fn obeys_eq_spec() -> bool {
        true
    }

    open spec fn eq_spec(&self, other: &Self) -> bool {
        match (self, other) {
            (Endpoint::Udp(a), Endpoint::Udp(b)) => a@ == b@,
            (Endpoint::Tcp(a), Endpoint::Tcp(b)) => a@ == b@,
            (Endpoint::Bp(a), Endpoint::Bp(b)) => a@ == b@,
            _ => false,
        }
    }
}

/// One `.`-separated piece of an IP address: up to three digits,
/// value at most 255, no leading zero.
pub open spec fn valid_octet(s: Seq<char>) -> bool {
    all_digits(s) && 1 <= s.len() <= 3 && digits_val(s) <= 255 && (s.len() > 1 ==> s[0] != '0')
}

/// A decimal port: digits (leading zeros tolerated, as the host
/// parser tolerates them), value at most 65535.
pub open spec fn valid_port(s: Seq<char>) -> bool {
    all_digits(s) && s.len() > 0 && digits_val(s) <= 65535
}

pub open spec fn valid_ipv4(s: Seq<char>) -> bool {
    let parts = split_spec(s, '.');
    parts.len() == 4 && forall|i: int| 0 <= i < 4 ==> valid_octet(#[trigger] parts[i])
}

/// `host:port` with an IPv4 host.
pub open spec fn valid_v4_sock_addr(s: Seq<char>) -> bool {
    let parts = split_spec(s, ':');
    parts.len() == 2 && valid_ipv4(parts[0]) && valid_port(parts[1])
}

/// A hexadecimal digit, either case.
pub open spec fn is_hex_digit(c: char) -> bool {
    ('0' <= c && c <= '9') || ('a' <= c && c <= 'f') || ('A' <= c && c <= 'F')
}

/// One 16-bit piece of an IPv6 address: one to four hex digits,
/// leading zeros tolerated.
pub open spec fn valid_h16(t: Seq<char>) -> bool {
    1 <= t.len() <= 4 && forall|i: int| 0 <= i < t.len() ==> is_hex_digit(#[trigger] t[i])
}

/// Pieces on one side of a `::`: hex pieces, of which the last may be
/// an embedded IPv4 address.
pub open spec fn valid_tail_pieces(toks: Seq<Seq<char>>) -> bool {
    toks.len() >= 1 && (forall|i: int| 0 <= i < toks.len() - 1 ==> valid_h16(#[trigger] toks[i]))
        && (valid_h16(toks[toks.len() - 1]) || valid_ipv4(toks[toks.len() - 1]))
}

/// The 16-bit groups the pieces stand for: an embedded IPv4 address
/// counts as two.
pub open spec fn tail_group_count(toks: Seq<Seq<char>>) -> int {
    toks.len() + (if valid_ipv4(toks[toks.len() - 1]) {
        1int
    } else {
        0int
    })
}

/// The textual IPv6 address grammar the host parser reads: eight hex
/// pieces (six when an IPv4 tail stands in for the last two), or one
/// `::` standing for at least one zero group with at most seven
/// groups around it.
pub open spec fn valid_ipv6_addr(a: Seq<char>) -> bool {
    match split_once_spec(a, "::"@) {
        None => {
            let toks = split_spec(a, ':');
            (toks.len() == 8 && forall|i: int| 0 <= i < 8 ==> valid_h16(#[trigger] toks[i])) || (
            toks.len() == 7 && (forall|i: int| 0 <= i < 6 ==> valid_h16(#[trigger] toks[i]))
                && valid_ipv4(toks[6]))
        },
        Some((head, tail)) => {
            let head_ok = head.len() == 0 || (forall|i: int|
                0 <= i < split_spec(head, ':').len() ==> valid_h16(
                    #[trigger] split_spec(head, ':')[i],
                ));
            let tail_ok = tail.len() == 0 || valid_tail_pieces(split_spec(tail, ':'));
            let hc = if head.len() == 0 {
                0int
            } else {
                split_spec(head, ':').len() as int
            };
            let tc = if tail.len() == 0 {
                0int
            } else {
                tail_group_count(split_spec(tail, ':'))
            };
            head_ok && tail_ok && hc + tc <= 7
        },
    }
}

/// The text between the brackets: an IPv6 address, optionally with a
/// numeric zone after `%`.
pub open spec fn valid_ipv6_inner(inner: Seq<char>) -> bool {
    let p = crate::strutil::first_index_of(inner, '%');
    if 0 <= p < inner.len() {
        valid_ipv6_addr(inner.subrange(0, p)) && {
            let scope = inner.subrange(p + 1, inner.len() as int);
            all_digits(scope) && scope.len() > 0 && digits_val(scope) <= u32::MAX
        }
    } else {
        valid_ipv6_addr(inner)
    }
}

/// `[v6]:port`.
pub open spec fn valid_v6_sock_addr(s: Seq<char>) -> bool {
    let k = crate::strutil::first_index_of(s, ']');
    s.len() >= 2 && s[0] == '[' && k < s.len() && k + 1 < s.len() && s[k + 1] == ':'
        && valid_ipv6_inner(s.subrange(1, k)) && valid_port(s.subrange(k + 2, s.len() as int))
}

/// `host:port`, read as the host's socket-address parser reads it:
/// a dotted IPv4 form or a bracketed IPv6 form.
pub open spec fn valid_sock_addr(s: Seq<char>) -> bool {
    valid_v4_sock_addr(s) || valid_v6_sock_addr(s)
}

/// A bundle-protocol EID: non-empty, a recognised scheme prefix, and
/// no placeholder marker.
pub open spec fn valid_eid(s: Seq<char>) -> bool {
    s.len() > 0 && !contains_spec(s, "PLACEHOLDER"@) && (starts_with_spec(s, "ipn:"@)
        || starts_with_spec(s, "dtn:"@))
}

fn is_valid_octet(s: &str) -> (r: bool)
    ensures
        r == valid_octet(s@),
{
    let n = s.unicode_len();
    if n < 1 || n > 3 {
        return false;
    }
    match parse_u64(s) {
        None => {
            proof {
                if all_digits(s@) {
                    lemma_digits_val_bound(s@);
                    assert(pow10(0) == 1);
                    assert(pow10(1) == 10);
                    assert(pow10(2) == 100);
                    assert(pow10(3) == 1000);
                }
            }
            false
        },
        Some(v) => v <= 255 && (n == 1 || s.get_char(0) != '0'),
    }
}

fn is_valid_port(s: &str) -> (r: bool)
    ensures
        r == valid_port(s@),
{
    let n = s.unicode_len();
    if n < 1 {
        return false;
    }
    match parse_u64(s) {
        // a digit string too large for a u64 is far above any port
        None => false,
        Some(v) => v <= 65535,
    }
}

fn is_valid_ipv4(s: &str) -> (r: bool)
    ensures
        r == valid_ipv4(s@),
{
    let parts = split_str(s, '.');
    if parts.len() != 4 {
        return false;
    }
    let mut i: usize = 0;
    while i < 4
        invariant
            parts.deep_view() == split_spec(s@, '.'),
            parts.len() == 4,
            i <= 4,
            forall|j: int| 0 <= j < i ==> valid_octet(#[trigger] split_spec(s@, '.')[j]),
        decreases 4 - i,
    {
        if !is_valid_octet(parts[i].as_str()) {
            proof {
                assert(parts.deep_view()[i as int] == parts@[i as int]@);
            }
            return false;
        }
        proof {
            assert(parts.deep_view()[i as int] == parts@[i as int]@);
        }
        i += 1;
    }
    true
}

fn is_valid_v4_sock_addr(s: &str) -> (r: bool)
    ensures
        r == valid_v4_sock_addr(s@),
{
    let parts = split_str(s, ':');
    if parts.len() != 2 {
        return false;
    }
    proof {
        assert(parts.deep_view()[0] == parts@[0]@);
        assert(parts.deep_view()[1] == parts@[1]@);
    }
    is_valid_ipv4(parts[0].as_str()) && is_valid_port(parts[1].as_str())
}

fn is_valid_h16(s: &str) -> (r: bool)
    ensures
        r == valid_h16(s@),
{
    let n = s.unicode_len();
    if n < 1 || n > 4 {
        return false;
    }
    let mut i: usize = 0;
    while i < n
        invariant
            i <= n,
            n == s@.len(),
            forall|j: int| 0 <= j < i ==> is_hex_digit(#[trigger] s@[j]),
        decreases n - i,
    {
        let c = s.get_char(i);
        let hex = ('0' <= c && c <= '9') || ('a' <= c && c <= 'f') || ('A' <= c && c <= 'F');
        if !hex {
            return false;
        }
        i += 1;
    }
    true
}

/// All pieces of a head are hex pieces; reports the count.
fn check_head_pieces(toks: &Vec<String>) -> (r: Option<usize>)
    ensures
        match r {
            Some(c) => c == toks@.len() && forall|i: int|
                0 <= i < toks.deep_view().len() ==> valid_h16(#[trigger] toks.deep_view()[i]),
            None => !(forall|i: int|
                0 <= i < toks.deep_view().len() ==> valid_h16(#[trigger] toks.deep_view()[i])),
        },
{
    let mut i: usize = 0;
    while i < toks.len()
        invariant
            i <= toks@.len(),
            forall|j: int| 0 <= j < i ==> valid_h16(#[trigger] toks.deep_view()[j]),
        decreases toks@.len() - i,
    {
        proof {
            assert(toks.deep_view()[i as int] == toks@[i as int]@);
        }
        if !is_valid_h16(toks[i].as_str()) {
            return None;
        }
        i += 1;
    }
    Some(toks.len())
}

/// All pieces of a tail are hex but possibly an IPv4 last piece;
/// reports the group count (an IPv4 tail counts as two).
fn check_tail_pieces(toks: &Vec<String>) -> (r: Option<usize>)
    requires
        toks@.len() >= 1,
        toks@.len() <= 8,
    ensures
        match r {
            Some(c) => valid_tail_pieces(toks.deep_view()) && c == tail_group_count(
                toks.deep_view(),
            ),
            None => !valid_tail_pieces(toks.deep_view()),
        },
{
    let n = toks.len();
    let mut i: usize = 0;
    while i < n - 1
        invariant
            n == toks@.len(),
            1 <= n <= 8,
            i <= n - 1,
            forall|j: int| 0 <= j < i ==> valid_h16(#[trigger] toks.deep_view()[j]),
        decreases n - i,
    {
        proof {
            assert(toks.deep_view()[i as int] == toks@[i as int]@);
        }
        if !is_valid_h16(toks[i].as_str()) {
            return None;
        }
        i += 1;
    }
    proof {
        assert(toks.deep_view()[n - 1] == toks@[n - 1]@);
    }
    let last_v4 = is_valid_ipv4(toks[n - 1].as_str());
    if last_v4 {
        Some(n + 1)
    } else if is_valid_h16(toks[n - 1].as_str()) {
        Some(n)
    } else {
        None
    }
}

fn is_valid_ipv6_addr(s: &str) -> (r: bool)
    ensures
        r == valid_ipv6_addr(s@),
{
    match split_once_str(s, "::") {
        None => {
            let toks = split_str(s, ':');
            if toks.len() == 8 {
                match check_head_pieces(&toks) {
                    Some(_) => {
                        proof {
                            assert forall|i: int| 0 <= i < 8 implies valid_h16(
                                #[trigger] split_spec(s@, ':')[i],
                            ) by {
                                assert(valid_h16(toks.deep_view()[i]));
                            }
                        }
                        true
                    },
                    None => {
                        proof {
                            if forall|i: int|
                                0 <= i < 8 ==> valid_h16(#[trigger] split_spec(s@, ':')[i]) {
                                assert forall|i: int|
                                    0 <= i < toks.deep_view().len() implies valid_h16(
                                    #[trigger] toks.deep_view()[i],
                                ) by {
                                    assert(valid_h16(split_spec(s@, ':')[i]));
                                }
                            }
                        }
                        false
                    },
                }
            } else if toks.len() == 7 {
                let mut i: usize = 0;
                while i < 6
                    invariant
                        split_once_spec(s@, "::"@) is None,
                        toks@.len() == 7,
                        toks.deep_view() == split_spec(s@, ':'),
                        i <= 6,
                        forall|j: int| 0 <= j < i ==> valid_h16(#[trigger] toks.deep_view()[j]),
                    decreases 6 - i,
                {
                    proof {
                        assert(toks.deep_view()[i as int] == toks@[i as int]@);
                    }
                    if !is_valid_h16(toks[i].as_str()) {
                        proof {
                            assert(!valid_h16(split_spec(s@, ':')[i as int]));
                        }
                        return false;
                    }
                    i += 1;
                }
                proof {
                    assert(toks.deep_view()[6] == toks@[6]@);
                    assert forall|j: int| 0 <= j < 6 implies valid_h16(
                        #[trigger] split_spec(s@, ':')[j],
                    ) by {
                        assert(valid_h16(toks.deep_view()[j]));
                    }
                }
                is_valid_ipv4(toks[6].as_str())
            } else {
                false
            }
        },
        Some((head, tail)) => {
            let hc: usize = if head.as_str().unicode_len() == 0 {
                0
            } else {
                let ht = split_str(head.as_str(), ':');
                match check_head_pieces(&ht) {
                    Some(c) => c,
                    None => {
                        return false;
                    },
                }
            };
            if hc > 7 {
                return false;
            }
            let tc: usize = if tail.as_str().unicode_len() == 0 {
                0
            } else {
                let tt = split_str(tail.as_str(), ':');
                if tt.len() > 8 {
                    proof {
                        // more than eight pieces exceed any group bound
                        assert(tail_group_count(split_spec(tail@, ':')) >= split_spec(
                            tail@,
                            ':',
                        ).len());
                    }
                    return false;
                }
                match check_tail_pieces(&tt) {
                    Some(c) => c,
                    None => {
                        return false;
                    },
                }
            };
            hc + tc <= 7
        },
    }
}

fn is_valid_ipv6_inner(s: &str) -> (r: bool)
    ensures
        r == valid_ipv6_inner(s@),
{
    proof {
        crate::strutil::lemma_first_index_of(s@, '%');
    }
    let n = s.unicode_len();
    match crate::strutil::find_char(s, '%') {
        Some(p) => {
            proof {
                let f = crate::strutil::first_index_of(s@, '%');
                if f < p {
                    assert(s@[f] != '%');
                }
                if f > p as int || f < 0 {
                    assert(s@[p as int] != '%');
                }
            }
            let addr = s.substring_char(0, p);
            let scope = s.substring_char(p + 1, n);
            if !is_valid_ipv6_addr(addr) {
                return false;
            }
            if scope.unicode_len() == 0 {
                return false;
            }
            match parse_u64(scope) {
                // a digit string too large for a u64 is above any zone
                None => false,
                Some(v) => v <= u32::MAX as u64,
            }
        },
        None => {
            proof {
                let f = crate::strutil::first_index_of(s@, '%');
                if 0 <= f < s@.len() {
                    assert(s@[f] != '%');
                }
            }
            is_valid_ipv6_addr(s)
        },
    }
}

fn is_valid_v6_sock_addr(s: &str) -> (r: bool)
    ensures
        r == valid_v6_sock_addr(s@),
{
    proof {
        crate::strutil::lemma_first_index_of(s@, ']');
    }
    let n = s.unicode_len();
    if n < 2 || s.get_char(0) != '[' {
        return false;
    }
    match crate::strutil::find_char(s, ']') {
        None => {
            proof {
                let f = crate::strutil::first_index_of(s@, ']');
                if 0 <= f < s@.len() {
                    assert(s@[f] != ']');
                }
            }
            false
        },
        Some(k) => {
            proof {
                let f = crate::strutil::first_index_of(s@, ']');
                if f < k {
                    assert(s@[f] != ']');
                }
                if f > k as int || f < 0 {
                    assert(s@[k as int] != ']');
                }
            }
            if k + 1 >= n {
                return false;
            }
            if s.get_char(k + 1) != ':' {
                return false;
            }
            let inner = s.substring_char(1, k);
            let port = s.substring_char(k + 2, n);
            is_valid_ipv6_inner(inner) && is_valid_port(port)
        },
    }
}

fn is_valid_sock_addr(s: &str) -> (r: bool)
    ensures
        r == valid_sock_addr(s@),
{
    is_valid_v4_sock_addr(s) || is_valid_v6_sock_addr(s)
}

impl Endpoint {
    /// The address text the endpoint carries.
    pub open spec fn addr_spec(&self) -> Seq<char> {
        match self {
            Endpoint::Udp(a) => a@,
            Endpoint::Tcp(a) => a@,
            Endpoint::Bp(a) => a@,
        }
    }

    pub open spec fn protocol_spec(&self) -> Seq<char> {
        match self {
            Endpoint::Udp(_) => "udp"@,
            Endpoint::Tcp(_) => "tcp"@,
            Endpoint::Bp(_) => "bp"@,
        }
    }

    /// The endpoint can be used for socket operations. IP endpoints
    /// are held to this library's committed IPv4 grammar: IPv6 text,
    /// which a host address parser would also read, is rejected here.
    pub open spec fn valid_spec(&self) -> bool {
        match self {
            Endpoint::Udp(a) => valid_sock_addr(a@),
            Endpoint::Tcp(a) => valid_sock_addr(a@),
            Endpoint::Bp(a) => valid_eid(a@),
        }
    }

    pub fn is_valid(&self) -> (r: bool)
        ensures
            r == self.valid_spec(),
    {
        match self {
            Endpoint::Udp(a) => is_valid_sock_addr(a.as_str()),
            Endpoint::Tcp(a) => is_valid_sock_addr(a.as_str()),
            Endpoint::Bp(a) => {
                let nonempty = a.as_str().unicode_len() > 0;
                nonempty && !str_contains(a.as_str(), "PLACEHOLDER") && (str_starts_with(
                    a.as_str(),
                    "ipn:",
                ) || str_starts_with(a.as_str(), "dtn:"))
            },
        }
    }

    pub fn protocol(&self) -> (r: &'static str)
        ensures
            r@ == self.protocol_spec(),
    {
        match self {
            Endpoint::Udp(_) => "udp",
            Endpoint::Tcp(_) => "tcp",
            Endpoint::Bp(_) => "bp",
        }
    }

    pub fn address(&self) -> (r: &str)
        ensures
            r@ == self.addr_spec(),
    {
        match self {
            Endpoint::Udp(a) => a.as_str(),
            Endpoint::Tcp(a) => a.as_str(),
            Endpoint::Bp(a) => a.as_str(),
        }
    }

    /// Build an endpoint from a protocol token (matched without regard
    /// to ASCII case) and an address.
    pub fn new(protocol: &str, address: &str) -> (r: Result<Endpoint, NetworkError>)
        ensures
            new_result_matches(&r, protocol@, address@),
    {
        if str_eq_ignore_case(protocol, "udp") {
            Ok(Endpoint::Udp(address.to_owned()))
        } else if str_eq_ignore_case(protocol, "tcp") {
            Ok(Endpoint::Tcp(address.to_owned()))
        } else if str_eq_ignore_case(protocol, "bp") {
            Ok(Endpoint::Bp(address.to_owned()))
        } else {
            Err(NetworkError::UnsupportedScheme(protocol.to_owned()))
        }
    }

    /// The display form, `protocol://address`.
    pub fn display_string(&self) -> (r: String)
        ensures
            r@ == self.protocol_spec() + "://"@ + self.addr_spec(),
    {
        let mut out = String::from_str(self.protocol());
        out.append("://");
        out.append(self.address());
        out
    }
}

/// What `Endpoint::new` returns for a protocol token and an address.
pub open spec fn new_result_matches(
    r: &Result<Endpoint, NetworkError>,
    protocol: Seq<char>,
    address: Seq<char>,
) -> bool {
    if eq_ignore_case_spec(protocol, "udp"@) {
        r matches Ok(e) && e is Udp && e.addr_spec() == address
    } else if eq_ignore_case_spec(protocol, "tcp"@) {
        r matches Ok(e) && e is Tcp && e.addr_spec() == address
    } else if eq_ignore_case_spec(protocol, "bp"@) {
        r matches Ok(e) && e is Bp && e.addr_spec() == address
    } else {
        r matches Err(NetworkError::UnsupportedScheme(p)) && p@ == protocol
    }
}

/// An `ipn:` EID body is `<node>.<service>`, both decimal 32-bit
/// numbers, as the bundle socket address carries them.
pub open spec fn valid_ipn_body(body: Seq<char>) -> bool {
    let parts = split_spec(body, '.');
    parts.len() == 2 && all_digits(parts[0]) && parts[0].len() > 0 && digits_val(parts[0])
        <= u32::MAX && all_digits(parts[1]) && parts[1].len() > 0 && digits_val(parts[1])
        <= u32::MAX
}

/// The node and service numbers of a bundle-protocol address.
#[derive(Debug, Clone, Copy, PartialEq, Eq, Structural)]
pub struct BpAddress {
    pub ipn_node: u32,
    pub service_id: u32,
}

impl BpAddress {
    /// Parse an `ipn:<node>.<service>` EID. `InvalidFormat` on a
    /// malformed body, `BpNotImplemented` for the `dtn:` scheme,
    /// `InvalidFormat` for anything else.
    pub fn parse(eid: &str) -> (r: Result<BpAddress, NetworkError>)
        ensures
            starts_with_spec(eid@, "ipn:"@) && valid_ipn_body(eid@.skip(4)) ==> (r matches Ok(a)
                && a.ipn_node == digits_val(split_spec(eid@.skip(4), '.')[0]) && a.service_id
                == digits_val(split_spec(eid@.skip(4), '.')[1])),
            starts_with_spec(eid@, "ipn:"@) && !valid_ipn_body(eid@.skip(4)) ==> (r matches Err(e)
                && e is InvalidFormat),
            !starts_with_spec(eid@, "ipn:"@) && starts_with_spec(eid@, "dtn:"@) ==> (r matches Err(
                e,
            ) && e is BpNotImplemented),
            !starts_with_spec(eid@, "ipn:"@) && !starts_with_spec(eid@, "dtn:"@) ==> (r matches Err(
                e,
            ) && e is InvalidFormat),
    {
        if str_starts_with(eid, "ipn:") {
            proof {
                reveal_strlit("ipn:");
            }
            let n = eid.unicode_len();
            let body = eid.substring_char(4, n);
            proof {
                assert(body@ =~= eid@.skip(4));
            }
            let parts = split_str(body, '.');
            if parts.len() != 2 {
                return Err(NetworkError::InvalidFormat(String::from_str("malformed ipn address")));
            }
            proof {
                assert(parts.deep_view()[0] == parts@[0]@);
                assert(parts.deep_view()[1] == parts@[1]@);
            }
            let node64 = match parse_u64(parts[0].as_str()) {
                Some(v) => v,
                None => {
                    return Err(
                        NetworkError::InvalidFormat(String::from_str("malformed ipn address")),
                    );
                },
            };
            let service64 = match parse_u64(parts[1].as_str()) {
                Some(v) => v,
                None => {
                    return Err(
                        NetworkError::InvalidFormat(String::from_str("malformed ipn address")),
                    );
                },
            };
            if node64 > u32::MAX as u64 || service64 > u32::MAX as u64 {
                return Err(NetworkError::InvalidFormat(String::from_str("malformed ipn address")));
            }
            Ok(BpAddress { ipn_node: node64 as u32, service_id: service64 as u32 })
        } else if str_starts_with(eid, "dtn:") {
            Err(NetworkError::BpNotImplemented(String::from_str("dtn scheme not implemented")))
        } else {
            Err(NetworkError::InvalidFormat(String::from_str("unsupported scheme in EID")))
        }
    }
}

/// Parse `protocol://address` or `protocol address`.
pub fn parse_endpoint(s: &str) -> (r: Result<Endpoint, NetworkError>)
    ensures
        match split_once_spec(s@, "://"@) {
            Some((p, a)) => new_result_matches(&r, p, a),
            None => match split_once_spec(s@, " "@) {
                Some((p, a)) => new_result_matches(&r, p, a),
                None => r matches Err(NetworkError::InvalidFormat(m)) && m@ == s@,
            },
        },
{
    match split_once_str(s, "://") {
        Some((protocol, address)) => Endpoint::new(protocol.as_str(), address.as_str()),
        None => match split_once_str(s, " ") {
            Some((protocol, address)) => Endpoint::new(protocol.as_str(), address.as_str()),
            None => Err(NetworkError::InvalidFormat(s.to_owned())),
        },
    }
}

} // verus!
