//! The delivery-time predictor: a contact plan parsed from its
//! textual form, and the earliest arrival time of a payload routed
//! over the plan's time-bounded contacts.
//!
//! The committed plan format: one entry per line, its tokens
//! separated by runs of blanks (spaces, tabs, carriage returns); a
//! blank line is skipped; a line beginning `range` is tolerated and
//! ignored; a contact line is
//! `contact <start> <end> <tx_node> <rx_node> <rate>` with decimal
//! nonnegative start and end seconds, a positive decimal rate in
//! bytes per second, and node names as bare tokens. A node's index is
//! the order of its first appearance.

use vstd::prelude::*;

use crate::endpoint::Endpoint;
use crate::endpoint::NetworkError;
use crate::strutil::all_digits;
use crate::strutil::digits_val;
use crate::strutil::parse_u64;
use crate::strutil::split_spec;
use crate::strutil::split_str;
use crate::strutil::str_eq;

verus! {

/// A directional transmission opportunity: from node `tx` to node
/// `rx`, open in `[start, end]` seconds, at `rate` bytes per second.
#[derive(Debug, Clone, Copy, PartialEq, Eq, Structural)]
pub struct Contact {
    pub start: i64,
    pub end: i64,
    pub tx: usize,
    pub rx: usize,
    pub rate: u64,
}

/// The parsed plan: node names in index order, and the contacts.
pub struct ContactPlan {
    pub names: Vec<String>,
    pub contacts: Vec<Contact>,
}

impl ContactPlan {
    /// Contacts point into the name table and carry a positive rate.
    pub open spec fn wf(&self) -> bool {
        forall|k: int|
            0 <= k < self.contacts@.len() ==> (#[trigger] self.contacts@[k]).tx
                < self.names@.len() && self.contacts@[k].rx < self.names@.len()
                && self.contacts@[k].rate >= 1
    }
}

/// Index of `n` in the name table, or the length if absent.
pub open spec fn name_idx(names: Seq<Seq<char>>, n: Seq<char>) -> int
    decreases names.len(),
{
    if names.len() == 0 {
        0
    } else if names[0] == n {
        0
    } else {
        1 + name_idx(names.drop_first(), n)
    }
}

pub proof fn lemma_name_idx(names: Seq<Seq<char>>, n: Seq<char>)
    ensures
        0 <= name_idx(names, n) <= names.len(),
        name_idx(names, n) < names.len() ==> names[name_idx(names, n)] == n,
        forall|j: int| 0 <= j < name_idx(names, n) ==> names[j] != n,
    decreases names.len(),
{
    if names.len() > 0 && names[0] != n {
        lemma_name_idx(names.drop_first(), n);
        assert forall|j: int| 0 <= j < name_idx(names, n) implies names[j] != n by {
            if j > 0 {
                assert(names.drop_first()[j - 1] == names[j]);
            }
        }
    }
}

/// The name table after seeing `n`.
pub open spec fn add_name(names: Seq<Seq<char>>, n: Seq<char>) -> Seq<Seq<char>> {
    if name_idx(names, n) < names.len() {
        names
    } else {
        names.push(n)
    }
}

/// A character that separates tokens within a plan line.
pub open spec fn ws_blank(c: char) -> bool {
    c == ' ' || c == '\t' || c == '\r'
}

/// Index of the first blank in `s`, or the length if none.
pub open spec fn first_blank_idx(s: Seq<char>) -> int
    decreases s.len(),
{
    if s.len() == 0 {
        0
    } else if ws_blank(s[0]) {
        0
    } else {
        1 + first_blank_idx(s.drop_first())
    }
}

pub proof fn lemma_first_blank_idx(s: Seq<char>)
    ensures
        0 <= first_blank_idx(s) <= s.len(),
        first_blank_idx(s) < s.len() ==> ws_blank(s[first_blank_idx(s)]),
        forall|j: int| 0 <= j < first_blank_idx(s) ==> !ws_blank(s[j]),
    decreases s.len(),
{
    if s.len() > 0 && !ws_blank(s[0]) {
        lemma_first_blank_idx(s.drop_first());
        assert forall|j: int| 0 <= j < first_blank_idx(s) implies !ws_blank(s[j]) by {
            if j > 0 {
                assert(s.drop_first()[j - 1] == s[j]);
            }
        }
    }
}

/// The blank-separated tokens of a line, in order, blanks dropped.
pub open spec fn ws_tokens(s: Seq<char>) -> Seq<Seq<char>>
    decreases s.len(),
{
    if s.len() == 0 {
        Seq::empty()
    } else if ws_blank(s[0]) {
        ws_tokens(s.drop_first())
    } else {
        let k = first_blank_idx(s);
        if 1 <= k <= s.len() {
            seq![s.subrange(0, k)] + ws_tokens(s.subrange(k, s.len() as int))
        } else {
            Seq::empty()
        }
    }
}

/// Split a line into its blank-separated tokens.
fn tokenize_ws(s: &str) -> (r: Vec<String>)
    ensures
        r.deep_view() == ws_tokens(s@),
{
    let n = s.unicode_len();
    let mut out: Vec<String> = Vec::new();
    proof {
        assert(s@.subrange(0, n as int) =~= s@);
        assert(ws_tokens(s@) =~~= out.deep_view() + ws_tokens(s@.subrange(0, n as int)));
    }
    let mut i: usize = 0;
    while i < n
        invariant
            i <= n,
            n == s@.len(),
            ws_tokens(s@) == out.deep_view() + ws_tokens(s@.subrange(i as int, n as int)),
        decreases n - i,
    {
        let c = s.get_char(i);
        if c == ' ' || c == '\t' || c == '\r' {
            proof {
                assert(s@.subrange(i as int, n as int).drop_first() =~= s@.subrange(
                    i + 1,
                    n as int,
                ));
            }
            i += 1;
        } else {
            let mut j = i + 1;
            while j < n
                invariant
                    i < j <= n,
                    n == s@.len(),
                    forall|t: int| i <= t < j ==> !ws_blank(#[trigger] s@[t]),
                ensures
                    i < j <= n,
                    forall|t: int| i <= t < j ==> !ws_blank(#[trigger] s@[t]),
                    j < n ==> ws_blank(s@[j as int]),
                decreases n - j,
            {
                let d = s.get_char(j);
                if d == ' ' || d == '\t' || d == '\r' {
                    break ;
                }
                j += 1;
            }
            let tok = s.substring_char(i, j);
            let ghost out_pre = out.deep_view();
            out.push(String::from_str(tok));
            proof {
                let suf = s@.subrange(i as int, n as int);
                lemma_first_blank_idx(suf);
                let f = first_blank_idx(suf);
                assert forall|t: int| 0 <= t < j - i implies !ws_blank(#[trigger] suf[t]) by {
                    assert(suf[t] == s@[i + t]);
                }
                if f < j - i {
                    assert(ws_blank(suf[f]));
                }
                if f > j - i {
                    if j < n {
                        assert(!ws_blank(suf[j - i]));
                        assert(suf[j - i] == s@[j as int]);
                    }
                }
                assert(f == j - i);
                assert(suf.subrange(0, f) =~= tok@);
                assert(suf.subrange(f, suf.len() as int) =~= s@.subrange(j as int, n as int));
                assert(ws_tokens(suf) == seq![tok@] + ws_tokens(s@.subrange(j as int, n as int)));
                assert(out.deep_view() =~~= out_pre.push(tok@));
                assert(ws_tokens(s@) =~~= out.deep_view() + ws_tokens(
                    s@.subrange(j as int, n as int),
                ));
            }
            i = j;
        }
    }
    proof {
        assert(s@.subrange(n as int, n as int) =~= Seq::<char>::empty());
        assert(ws_tokens(s@) =~~= out.deep_view());
    }
    out
}

/// A decimal token whose value fits and, for rates, is positive.
pub open spec fn tok_u64(t: Seq<char>, min: int, max: int) -> bool {
    all_digits(t) && t.len() > 0 && min <= digits_val(t) <= max
}

/// The tokens form a contact line.
pub open spec fn contact_line_ok(toks: Seq<Seq<char>>) -> bool {
    toks.len() == 6 && toks[0] == "contact"@ && tok_u64(toks[1], 0, i64::MAX as int) && tok_u64(
        toks[2],
        0,
        i64::MAX as int,
    ) && toks[3].len() > 0 && toks[4].len() > 0 && tok_u64(toks[5], 1, u64::MAX as int)
}

/// A line the parser passes over: blank, or a `range` entry.
pub open spec fn line_skipped(toks: Seq<Seq<char>>) -> bool {
    toks.len() == 0 || toks[0] == "range"@
}

/// The contact a well-formed line adds, over the table `names`.
pub open spec fn contact_of_line(names: Seq<Seq<char>>, toks: Seq<Seq<char>>) -> Contact {
    let n1 = add_name(names, toks[3]);
    let n2 = add_name(n1, toks[4]);
    Contact {
        start: digits_val(toks[1]) as i64,
        end: digits_val(toks[2]) as i64,
        tx: name_idx(n2, toks[3]) as usize,
        rx: name_idx(n2, toks[4]) as usize,
        rate: digits_val(toks[5]) as u64,
    }
}

/// Fold the lines from `i` on into the name table and contact list;
/// `None` on the first malformed line.
pub open spec fn build_spec(
    lines: Seq<Seq<char>>,
    i: int,
    names: Seq<Seq<char>>,
    contacts: Seq<Contact>,
) -> Option<(Seq<Seq<char>>, Seq<Contact>)>
    decreases lines.len() - i,
{
    if !(0 <= i < lines.len()) {
        Some((names, contacts))
    } else {
        let toks = ws_tokens(lines[i]);
        if line_skipped(toks) {
            build_spec(lines, i + 1, names, contacts)
        } else if contact_line_ok(toks) {
            let n2 = add_name(add_name(names, toks[3]), toks[4]);
            build_spec(lines, i + 1, n2, contacts.push(contact_of_line(names, toks)))
        } else {
            None
        }
    }
}

/// What parsing a whole plan text yields.
pub open spec fn plan_spec(text: Seq<char>) -> Option<(Seq<Seq<char>>, Seq<Contact>)> {
    build_spec(split_spec(text, '\n'), 0, Seq::empty(), Seq::empty())
}

/// Index of `n` in the table, by scan.
fn find_name(names: &Vec<String>, n: &str) -> (r: Option<usize>)
    ensures
        match r {
            Some(i) => i as int == name_idx(names.deep_view(), n@) && i < names@.len(),
            None => name_idx(names.deep_view(), n@) == names@.len(),
        },
{
    proof {
        lemma_name_idx(names.deep_view(), n@);
    }
    let mut i: usize = 0;
    while i < names.len()
        invariant
            i <= names@.len(),
            forall|j: int| 0 <= j < i ==> names.deep_view()[j] != n@,
        decreases names@.len() - i,
    {
        proof {
            assert(names.deep_view()[i as int] == names@[i as int]@);
        }
        if str_eq(names[i].as_str(), n) {
            proof {
                lemma_name_idx(names.deep_view(), n@);
                let f = name_idx(names.deep_view(), n@);
                if f < i {
                    assert(names.deep_view()[f] != n@);
                }
            }
            return Some(i);
        }
        i += 1;
    }
    proof {
        lemma_name_idx(names.deep_view(), n@);
        let f = name_idx(names.deep_view(), n@);
        if f < names@.len() {
            assert(names.deep_view()[f] != n@);
        }
    }
    None
}

/// Index of `n`, adding it to the table if absent.
fn intern_name(names: &mut Vec<String>, n: &str) -> (r: usize)
    ensures
        final(names).deep_view() == add_name(old(names).deep_view(), n@),
        r as int == name_idx(final(names).deep_view(), n@),
        r < final(names)@.len(),
        final(names)@.len() >= old(names)@.len(),
{
    proof {
        lemma_name_idx(names.deep_view(), n@);
    }
    match find_name(names, n) {
        Some(i) => i,
        None => {
            let i = names.len();
            names.push(String::from_str(n));
            proof {
                assert(names.deep_view() =~~= old(names).deep_view().push(n@));
                lemma_name_idx(names.deep_view(), n@);
                assert(names.deep_view()[names.deep_view().len() - 1] == n@);
                let f = name_idx(names.deep_view(), n@);
                if f < names.deep_view().len() - 1 {
                    assert(names.deep_view()[f] == old(names).deep_view()[f]);
                    assert(names.deep_view()[f] == n@);
                }
            }
            i
        },
    }
}

/// Parse a plan text. `InvalidFormat` exactly on the first line that
/// is neither skipped nor a well-formed contact.
pub fn parse_contact_plan(text: &str) -> (r: Result<ContactPlan, NetworkError>)
    ensures
        match r {
            Ok(p) => plan_spec(text@) == Some((p.names.deep_view(), p.contacts@)) && p.wf(),
            Err(e) => plan_spec(text@) is None && e is InvalidFormat,
        },
{
    let lines = split_str(text, '\n');
    let ghost lseq = split_spec(text@, '\n');
    let mut names: Vec<String> = Vec::new();
    let mut contacts: Vec<Contact> = Vec::new();
    let mut i: usize = 0;
    proof {
        assert(lines.deep_view() == lseq);
        assert(names.deep_view() =~~= Seq::<Seq<char>>::empty());
        assert(contacts@ =~= Seq::<Contact>::empty());
    }
    while i < lines.len()
        invariant
            lseq == split_spec(text@, '\n'),
            lines.deep_view() == lseq,
            i <= lseq.len(),
            build_spec(lseq, 0, Seq::empty(), Seq::empty()) == build_spec(
                lseq,
                i as int,
                names.deep_view(),
                contacts@,
            ),
            forall|k: int|
                0 <= k < contacts@.len() ==> (#[trigger] contacts@[k]).tx < names@.len()
                    && contacts@[k].rx < names@.len() && contacts@[k].rate >= 1,
        decreases lseq.len() - i,
    {
        proof {
            assert(lines.deep_view()[i as int] == lines@[i as int]@);
        }
        let toks = tokenize_ws(lines[i].as_str());
        let ghost tseq = ws_tokens(lseq[i as int]);
        proof {
            assert(toks.deep_view() == tseq);
        }
        let skip_line = toks.len() == 0 || str_eq(toks[0].as_str(), "range");
        proof {
            if toks@.len() > 0 {
                assert(toks.deep_view()[0] == toks@[0]@);
            }
        }
        if skip_line {
            proof {
                assert(line_skipped(tseq));
            }
            i += 1;
            continue ;
        }
        let well_formed = toks.len() == 6 && str_eq(toks[0].as_str(), "contact");
        if !well_formed {
            proof {
                assert(!line_skipped(tseq));
                assert(!contact_line_ok(tseq));
                assert(build_spec(lseq, i as int, names.deep_view(), contacts@) is None);
            }
            return Err(NetworkError::InvalidFormat(String::from_str("malformed plan line")));
        }
        proof {
            assert(toks.deep_view()[1] == toks@[1]@);
            assert(toks.deep_view()[2] == toks@[2]@);
            assert(toks.deep_view()[3] == toks@[3]@);
            assert(toks.deep_view()[4] == toks@[4]@);
            assert(toks.deep_view()[5] == toks@[5]@);
        }
        let start64 = match parse_u64(toks[1].as_str()) {
            Some(v) => v,
            None => {
                proof {
                    assert(!contact_line_ok(tseq));
                    assert(build_spec(lseq, i as int, names.deep_view(), contacts@) is None);
                }
                return Err(NetworkError::InvalidFormat(String::from_str("malformed plan line")));
            },
        };
        let end64 = match parse_u64(toks[2].as_str()) {
            Some(v) => v,
            None => {
                proof {
                    assert(!contact_line_ok(tseq));
                    assert(build_spec(lseq, i as int, names.deep_view(), contacts@) is None);
                }
                return Err(NetworkError::InvalidFormat(String::from_str("malformed plan line")));
            },
        };
        let rate = match parse_u64(toks[5].as_str()) {
            Some(v) => v,
            None => {
                proof {
                    assert(!contact_line_ok(tseq));
                    assert(build_spec(lseq, i as int, names.deep_view(), contacts@) is None);
                }
                return Err(NetworkError::InvalidFormat(String::from_str("malformed plan line")));
            },
        };
        let bad_bounds = start64 > i64::MAX as u64 || end64 > i64::MAX as u64 || rate == 0
            || toks[3].as_str().unicode_len() == 0 || toks[4].as_str().unicode_len() == 0;
        if bad_bounds {
            proof {
                assert(!contact_line_ok(tseq));
                assert(build_spec(lseq, i as int, names.deep_view(), contacts@) is None);
            }
            return Err(NetworkError::InvalidFormat(String::from_str("malformed plan line")));
        }
        proof {
            assert(contact_line_ok(tseq));
        }
        let ghost names_pre = names.deep_view();
        let tx = intern_name(&mut names, toks[3].as_str());
        let ghost names_mid = names.deep_view();
        let rx = intern_name(&mut names, toks[4].as_str());
        proof {
            // interning the first name leaves its index stable under
            // the second interning
            lemma_name_idx(names_mid, tseq[3]);
            lemma_name_idx(names.deep_view(), tseq[3]);
            let f = name_idx(names_mid, tseq[3]);
            let g = name_idx(names.deep_view(), tseq[3]);
            if names.deep_view() != names_mid {
                assert(names.deep_view() == names_mid.push(tseq[4]));
                assert(names.deep_view()[f] == names_mid[f]);
                if g < f {
                    assert(names_mid[g] == names.deep_view()[g]);
                }
                if g > f {
                    assert(names.deep_view()[f] == tseq[3]);
                }
            }
            assert(tx as int == name_idx(names.deep_view(), tseq[3]));
        }
        contacts.push(
            Contact { start: start64 as i64, end: end64 as i64, tx, rx, rate },
        );
        proof {
            assert(contacts@.last() == contact_of_line(names_pre, tseq));
            assert(contacts@ =~= contacts@.drop_last().push(contact_of_line(names_pre, tseq)));
        }
        i += 1;
    }
    proof {
        assert(build_spec(lseq, i as int, names.deep_view(), contacts@) == Some(
            (names.deep_view(), contacts@),
        ));
    }
    Ok(ContactPlan { names, contacts })
}

/// Transmission seconds of `size` bytes at `rate` bytes per second,
/// rounded up.
pub open spec fn ceil_div_spec(size: int, rate: int) -> int
    recommends
        rate >= 1,
{
    (size + rate - 1) / rate
}

/// One relaxation: if the transmitter is reachable, the payload can
/// leave at the later of that time and the contact's opening, and
/// arrives after its transmission time; the arrival improves the
/// receiver's bound when it is in the window and earlier.
pub open spec fn relax_contact(ea: Seq<Option<i64>>, c: Contact, size: int) -> Seq<Option<i64>>
    recommends
        c.rate >= 1,
{
    if !(c.tx < ea.len() && c.rx < ea.len()) {
        ea
    } else {
        match ea[c.tx as int] {
        None => ea,
        Some(t) => {
            let dep: int = if t >= c.start {
                t as int
            } else {
                c.start as int
            };
            let arr: int = dep + ceil_div_spec(size, c.rate as int);
            if arr <= c.end && (match ea[c.rx as int] {
                None => true,
                Some(v) => arr < v,
            }) {
                ea.update(c.rx as int, Some(arr as i64))
            } else {
                ea
            }
        },
        }
    }
}

/// Relax the contacts from `j` on, in order.
pub open spec fn relax_pass(ea: Seq<Option<i64>>, contacts: Seq<Contact>, size: int, j: int) -> Seq<
    Option<i64>,
>
    decreases contacts.len() - j,
{
    if !(0 <= j < contacts.len()) {
        ea
    } else {
        relax_pass(relax_contact(ea, contacts[j], size), contacts, size, j + 1)
    }
}

/// `rounds` full passes over the contacts.
pub open spec fn relax_rounds(
    ea: Seq<Option<i64>>,
    contacts: Seq<Contact>,
    size: int,
    rounds: nat,
) -> Seq<Option<i64>>
    decreases rounds,
{
    if rounds == 0 {
        ea
    } else {
        relax_rounds(relax_pass(ea, contacts, size, 0), contacts, size, (rounds - 1) as nat)
    }
}

/// The initial bounds: the source is reachable at `t0`, nothing else.
pub open spec fn init_ea(n: nat, src: int, t0: i64) -> Seq<Option<i64>> {
    Seq::new(
        n,
        |i: int|
            if i == src {
                Some(t0)
            } else {
                None
            },
    )
}

/// The earliest arrival the fixpoint of as many passes as there are
/// nodes gives.
pub open spec fn earliest_arrival_spec(
    n: nat,
    contacts: Seq<Contact>,
    src: int,
    dst: int,
    size: int,
    t0: i64,
) -> Option<i64> {
    relax_rounds(init_ea(n, src, t0), contacts, size, n)[dst]
}

proof fn lemma_relax_contact_len(ea: Seq<Option<i64>>, c: Contact, size: int)
    ensures
        relax_contact(ea, c, size).len() == ea.len(),
{
}

/// The earliest wallclock-relative arrival of `size` bytes from `src`
/// to `dst`, setting out at `t0` or later.
pub fn earliest_arrival(plan: &ContactPlan, src: usize, dst: usize, size: u64, t0: i64) -> (r:
    Option<i64>)
    requires
        plan.wf(),
        src < plan.names@.len(),
        dst < plan.names@.len(),
    ensures
        r == earliest_arrival_spec(
            plan.names@.len(),
            plan.contacts@,
            src as int,
            dst as int,
            size as int,
            t0,
        ),
{
    let n = plan.names.len();
    let ghost contacts = plan.contacts@;
    let ghost sz = size as int;
    let mut ea: Vec<Option<i64>> = Vec::new();
    let mut i: usize = 0;
    while i < n
        invariant
            i <= n,
            ea@.len() == i,
            forall|k: int|
                0 <= k < i ==> ea@[k] == (if k == src {
                    Some(t0)
                } else {
                    None::<i64>
                }),
        decreases n - i,
    {
        if i == src {
            ea.push(Some(t0));
        } else {
            ea.push(None);
        }
        i += 1;
    }
    proof {
        assert(ea@ =~= init_ea(n as nat, src as int, t0));
    }
    let ghost full = relax_rounds(init_ea(n as nat, src as int, t0), contacts, sz, n as nat);
    let mut round: usize = 0;
    while round < n
        invariant
            plan.wf(),
            plan.contacts@ == contacts,
            n == plan.names@.len(),
            round <= n,
            ea@.len() == n,
            full == relax_rounds(
                init_ea(n as nat, src as int, t0),
                contacts,
                sz,
                n as nat,
            ),
            sz == size as int,
            relax_rounds(ea@, contacts, sz, (n - round) as nat) == full,
        decreases n - round,
    {
        let ghost round_start = ea@;
        let mut j: usize = 0;
        while j < plan.contacts.len()
            invariant
                plan.wf(),
                plan.contacts@ == contacts,
                n == plan.names@.len(),
                j <= contacts.len(),
                ea@.len() == n,
                sz == size as int,
                relax_pass(ea@, contacts, sz, j as int) == relax_pass(round_start, contacts, sz, 0),
                round_start.len() == n,
            decreases contacts.len() - j,
        {
            let c = plan.contacts[j];
            proof {
                assert((#[trigger] plan.contacts@[j as int]).tx < plan.names@.len());
            }
            let ghost pre = ea@;
            match ea[c.tx] {
                None => {},
                Some(t) => {
                    let dep: i64 = if t >= c.start {
                        t
                    } else {
                        c.start
                    };
                    let dur: u128 = (size as u128 + c.rate as u128 - 1) / (c.rate as u128);
                    let arr128: i128 = dep as i128 + dur as i128;
                    if arr128 <= c.end as i128 {
                        let arr: i64 = arr128 as i64;
                        let update = match ea[c.rx] {
                            None => true,
                            Some(v) => arr < v,
                        };
                        if update {
                            ea[c.rx] = Some(arr);
                            proof {
                                assert(ea@ =~= relax_contact(pre, c, sz));
                            }
                        } else {
                            proof {
                                assert(ea@ == relax_contact(pre, c, sz));
                            }
                        }
                    } else {
                        proof {
                            assert(ea@ == relax_contact(pre, c, sz));
                        }
                    }
                },
            }
            proof {
                assert(ea@ == relax_contact(pre, c, sz));
                lemma_relax_contact_len(pre, c, sz);
            }
            j += 1;
        }
        proof {
            assert(relax_pass(ea@, contacts, sz, j as int) == ea@);
            assert(relax_rounds(ea@, contacts, sz, (n - round - 1) as nat) == full) by {
                assert(relax_rounds(round_start, contacts, sz, (n - round) as nat)
                    == relax_rounds(
                    relax_pass(round_start, contacts, sz, 0),
                    contacts,
                    sz,
                    (n - round - 1) as nat,
                ));
            }
        }
        round += 1;
    }
    proof {
        assert(relax_rounds(ea@, contacts, sz, 0) == ea@);
    }
    ea[dst]
}

/// The ION node identifier an endpoint names: for an `ipn:` EID with
/// a dot the portion between the scheme and the first dot, for any
/// other bundle address the whole address unchanged, and nothing for
/// IP endpoints.
pub open spec fn extract_ion_spec(e: Endpoint) -> Option<Seq<char>> {
    match e {
        Endpoint::Bp(a) => Some(ion_id_of_address(a@)),
        Endpoint::Udp(_) => None,
        Endpoint::Tcp(_) => None,
    }
}

/// The router state: the parsed plan and the wallclock second its
/// relative times count from.
pub struct PredictionConfig {
    pub plan: ContactPlan,
    pub cp_start_time: i64,
}

/// The errors `predict` can surface. Prediction is advisory: callers
/// still send on any of these.
#[derive(Debug)]
pub enum PredictError {
    /// A node identifier the plan does not know.
    UnknownNode(String),
    /// No contact sequence reaches the destination in time.
    NoRoute(String),
    /// The arithmetic left the representable range.
    ClockRange(String),
}

/// What `predict_at` returns for a configuration, the two resolved
/// identifiers, a size and a wallclock second.
pub open spec fn predict_rel(
    cfg: &PredictionConfig,
    src: Seq<char>,
    dst: Seq<char>,
    size: u64,
    now_s: i64,
    r: Result<i64, PredictError>,
) -> bool {
    let names = cfg.plan.names.deep_view();
    if name_idx(names, src) >= names.len() || name_idx(names, dst) >= names.len() {
        r matches Err(PredictError::UnknownNode(_))
    } else if !(i64::MIN <= now_s - cfg.cp_start_time <= i64::MAX) {
        r matches Err(PredictError::ClockRange(_))
    } else {
        let t0 = (now_s - cfg.cp_start_time) as i64;
        match earliest_arrival_spec(
            names.len(),
            cfg.plan.contacts@,
            name_idx(names, src),
            name_idx(names, dst),
            size as int,
            t0,
        ) {
            None => r matches Err(PredictError::NoRoute(_)),
            Some(a) => if i64::MIN <= a + cfg.cp_start_time <= i64::MAX {
                r == Ok::<i64, PredictError>((a + cfg.cp_start_time) as i64)
            } else {
                r matches Err(PredictError::ClockRange(_))
            },
        }
    }
}

impl PredictionConfig {
    /// Load a plan, counting its relative times from the given
    /// wallclock second.
    pub fn with_start_time(contact_plan: &str, cp_start_time: i64) -> (r: Result<
        PredictionConfig,
        NetworkError,
    >)
        ensures
            match r {
                Ok(p) => plan_spec(contact_plan@) == Some(
                    (p.plan.names.deep_view(), p.plan.contacts@),
                ) && p.plan.wf() && p.cp_start_time == cp_start_time,
                Err(e) => plan_spec(contact_plan@) is None && e is InvalidFormat,
            },
    {
        match parse_contact_plan(contact_plan) {
            Ok(plan) => Ok(PredictionConfig { plan, cp_start_time }),
            Err(e) => Err(e),
        }
    }

    /// Load a plan; its relative times count from now.
    pub fn new(contact_plan: &str) -> (r: Result<PredictionConfig, NetworkError>)
        ensures
            match r {
                Ok(p) => plan_spec(contact_plan@) == Some(
                    (p.plan.names.deep_view(), p.plan.contacts@),
                ) && p.plan.wf(),
                Err(e) => plan_spec(contact_plan@) is None && e is InvalidFormat,
            },
    {
        let start = crate::util::now_seconds();
        Self::with_start_time(contact_plan, start)
    }

    /// The plan's index for a node name.
    pub fn get_node_id(&self, ion_id: &str) -> (r: Option<usize>)
        ensures
            match r {
                Some(i) => i as int == name_idx(self.plan.names.deep_view(), ion_id@) && i
                    < self.plan.names@.len(),
                None => name_idx(self.plan.names.deep_view(), ion_id@)
                    == self.plan.names@.len(),
            },
    {
        find_name(&self.plan.names, ion_id)
    }

    /// The ION identifier an endpoint names, if any.
    pub fn extract_ion_node_from_endpoint(endpoint: &Endpoint) -> (r: Option<String>)
        ensures
            match r {
                Some(s) => extract_ion_spec(*endpoint) == Some(s@),
                None => extract_ion_spec(*endpoint) is None,
            },
    {
        match endpoint {
            Endpoint::Bp(a) => Some(extract_ion_id_from_bp_address(a.as_str())),
            Endpoint::Udp(_) => None,
            Endpoint::Tcp(_) => None,
        }
    }

    /// Whether the plan knows the node an endpoint names.
    pub fn test_endpoint(&self, endpoint: &Endpoint) -> (r: bool)
        ensures
            r == match extract_ion_spec(*endpoint) {
                Some(ion) => name_idx(self.plan.names.deep_view(), ion)
                    < self.plan.names.deep_view().len(),
                None => false,
            },
    {
        match Self::extract_ion_node_from_endpoint(endpoint) {
            Some(ion) => self.get_node_id(ion.as_str()).is_some(),
            None => false,
        }
    }

    /// The earliest wallclock arrival of `size` bytes from one node
    /// to another, for a departure at the wallclock second `now_s`.
    pub fn predict_at(&self, source_ion: &str, dest_ion: &str, size: u64, now_s: i64) -> (r: Result<
        i64,
        PredictError,
    >)
        requires
            self.plan.wf(),
        ensures
            predict_rel(self, source_ion@, dest_ion@, size, now_s, r),
    {
        let src = match self.get_node_id(source_ion) {
            Some(i) => i,
            None => {
                return Err(PredictError::UnknownNode(String::from_str("unknown source node")));
            },
        };
        let dst = match self.get_node_id(dest_ion) {
            Some(i) => i,
            None => {
                return Err(
                    PredictError::UnknownNode(String::from_str("unknown destination node")),
                );
            },
        };
        let t0 = match now_s.checked_sub(self.cp_start_time) {
            Some(t) => t,
            None => {
                return Err(PredictError::ClockRange(String::from_str("time out of range")));
            },
        };
        match earliest_arrival(&self.plan, src, dst, size, t0) {
            None => Err(PredictError::NoRoute(String::from_str("no route in contact plan"))),
            Some(a) => match a.checked_add(self.cp_start_time) {
                Some(w) => Ok(w),
                None => Err(PredictError::ClockRange(String::from_str("time out of range"))),
            },
        }
    }

    /// `predict_at` with the departure read from the clock now.
    pub fn predict(&self, source_ion: &str, dest_ion: &str, size: u64) -> (r: Result<
        i64,
        PredictError,
    >)
        requires
            self.plan.wf(),
        ensures
            exists|now_s: i64| predict_rel(self, source_ion@, dest_ion@, size, now_s, r),
    {
        let now_s = crate::util::now_seconds();
        let r = self.predict_at(source_ion, dest_ion, size, now_s);
        proof {
            assert(predict_rel(self, source_ion@, dest_ion@, size, now_s, r));
        }
        r
    }
}

/// The ION node identifier inside a bare EID string: for `ipn:` with
/// a dot, the portion between the scheme and the first dot; otherwise
/// the string itself.
pub open spec fn ion_id_of_address(s: Seq<char>) -> Seq<char> {
    if crate::strutil::starts_with_spec(s, "ipn:"@) {
        let body = s.skip(4);
        let d = crate::strutil::first_index_of(body, '.');
        if 0 <= d < body.len() {
            body.subrange(0, d)
        } else {
            s
        }
    } else {
        s
    }
}

pub fn extract_ion_id_from_bp_address(bp_address: &str) -> (r: String)
    ensures
        r@ == ion_id_of_address(bp_address@),
{
    if crate::strutil::str_starts_with(bp_address, "ipn:") {
        proof {
            reveal_strlit("ipn:");
        }
        let n = bp_address.unicode_len();
        let body = bp_address.substring_char(4, n);
        proof {
            assert(body@ =~= bp_address@.skip(4));
            crate::strutil::lemma_first_index_of(body@, '.');
        }
        match crate::strutil::find_char(body, '.') {
            Some(d) => {
                proof {
                    let f = crate::strutil::first_index_of(body@, '.');
                    if f < d {
                        assert(body@[f] != '.');
                    }
                    if f > d as int || f < 0 {
                        assert(body@[d as int] != '.');
                    }
                }
                String::from_str(body.substring_char(0, d))
            },
            None => {
                proof {
                    let f = crate::strutil::first_index_of(body@, '.');
                    if 0 <= f < body@.len() {
                        assert(body@[f] != '.');
                    }
                }
                bp_address.to_owned()
            },
        }
    } else {
        bp_address.to_owned()
    }
}

/// The node names a plan text declares, in index order.
pub fn map_node_indices(contact_plan: &str) -> (r: Result<Vec<String>, NetworkError>)
    ensures
        match r {
            Ok(v) => (plan_spec(contact_plan@) matches Some(p)) && plan_spec(
                contact_plan@,
            )->Some_0.0 == v.deep_view(),
            Err(e) => plan_spec(contact_plan@) is None && e is InvalidFormat,
        },
{
    match parse_contact_plan(contact_plan) {
        Ok(plan) => Ok(plan.names),
        Err(e) => Err(e),
    }
}

} // verus!
