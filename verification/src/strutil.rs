//! String helpers shared by the endpoint grammar, the wire codec and
//! the contact-plan parser: prefix and substring tests, character
//! search, and decimal parsing, each with an exact specification.

use vstd::prelude::*;

verus! {

/// `p` is a prefix of `s`.
pub open spec fn starts_with_spec(s: Seq<char>, p: Seq<char>) -> bool {
    p.len() <= s.len() && s.subrange(0, p.len() as int) == p
}

/// `p` occurs in `s` as a contiguous substring.
pub open spec fn contains_spec(s: Seq<char>, p: Seq<char>) -> bool {
    exists|k: int| 0 <= k && k + p.len() <= s.len() && #[trigger] s.subrange(k, k + p.len() as int)
        == p
}

/// Every character of `s` is a decimal digit.
pub open spec fn all_digits(s: Seq<char>) -> bool {
    forall|i: int| 0 <= i < s.len() ==> '0' <= #[trigger] s[i] && s[i] <= '9'
}

/// The numeric value of a digit sequence, most significant first.
pub open spec fn digits_val(s: Seq<char>) -> int
    decreases s.len(),
{
    if s.len() == 0 {
        0
    } else {
        digits_val(s.subrange(0, s.len() - 1)) * 10 + (s[s.len() - 1] as int - '0' as int)
    }
}

pub fn str_starts_with(s: &str, p: &str) -> (r: bool)
    ensures
        r == starts_with_spec(s@, p@),
{
    let n = p.unicode_len();
    if n > s.unicode_len() {
        return false;
    }
    let mut i: usize = 0;
    while i < n
        invariant
            i <= n,
            n == p@.len(),
            n <= s@.len(),
            forall|j: int| 0 <= j < i ==> s@[j] == p@[j],
        decreases n - i,
    {
        if s.get_char(i) != p.get_char(i) {
            proof {
                assert(s@.subrange(0, n as int)[i as int] != p@[i as int]);
            }
            return false;
        }
        i += 1;
    }
    proof {
        assert(s@.subrange(0, n as int) =~= p@);
    }
    true
}

/// First index at which `p` occurs in `s`, if any.
pub fn find_str(s: &str, p: &str) -> (r: Option<usize>)
    ensures
        match r {
            Some(k) => k + p@.len() <= s@.len() && s@.subrange(k as int, k + p@.len() as int) == p@
                && forall|j: int|
                0 <= j < k ==> #[trigger] s@.subrange(j, j + p@.len() as int) != p@,
            None => forall|j: int|
                0 <= j && j + p@.len() <= s@.len() ==> #[trigger] s@.subrange(
                    j,
                    j + p@.len() as int,
                ) != p@,
        },
{
    let n = s.unicode_len();
    let m = p.unicode_len();
    if m > n {
        return None;
    }
    if m == 0 {
        proof {
            assert(s@.subrange(0, 0 + p@.len() as int) =~= p@);
        }
        return Some(0);
    }
    let mut k: usize = 0;
    while k <= n - m
        invariant
            0 < m <= n,
            n == s@.len(),
            m == p@.len(),
            k <= n - m + 1,
            forall|j: int| 0 <= j < k ==> #[trigger] s@.subrange(j, j + p@.len() as int) != p@,
        decreases n - k,
    {
        let tail = s.substring_char(k, n);
        if str_starts_with(tail, p) {
            proof {
                assert(s@.subrange(k as int, k + p@.len() as int) =~= tail@.subrange(
                    0,
                    p@.len() as int,
                ));
            }
            return Some(k);
        }
        proof {
            assert(s@.subrange(k as int, k + p@.len() as int) != p@) by {
                if s@.subrange(k as int, k + p@.len() as int) == p@ {
                    assert(tail@.subrange(0, p@.len() as int) =~= s@.subrange(
                        k as int,
                        k + p@.len() as int,
                    ));
                }
            }
        }
        k += 1;
    }
    None
}

pub fn str_contains(s: &str, p: &str) -> (r: bool)
    ensures
        r == contains_spec(s@, p@),
{
    match find_str(s, p) {
        Some(_) => true,
        None => false,
    }
}

pub fn find_char(s: &str, c: char) -> (r: Option<usize>)
    ensures
        match r {
            Some(i) => i < s@.len() && s@[i as int] == c && forall|j: int|
                0 <= j < i ==> s@[j] != c,
            None => forall|j: int| 0 <= j < s@.len() ==> s@[j] != c,
        },
{
    let n = s.unicode_len();
    let mut i: usize = 0;
    while i < n
        invariant
            i <= n,
            n == s@.len(),
            forall|j: int| 0 <= j < i ==> s@[j] != c,
        decreases n - i,
    {
        if s.get_char(i) == c {
            return Some(i);
        }
        i += 1;
    }
    None
}

/// Appending one digit multiplies the value by ten and adds the digit.
proof fn lemma_digits_val_step(s: Seq<char>, i: int)
    requires
        0 <= i < s.len(),
    ensures
        digits_val(s.subrange(0, i + 1)) == digits_val(s.subrange(0, i)) * 10 + (s[i] as int
            - '0' as int),
{
    let t = s.subrange(0, i + 1);
    assert(t.subrange(0, t.len() - 1) =~= s.subrange(0, i));
}

/// With digits only, a longer prefix never has a smaller value.
proof fn lemma_digits_val_grow(s: Seq<char>, i: int, j: int)
    requires
        all_digits(s),
        0 <= i <= j <= s.len(),
    ensures
        digits_val(s.subrange(0, i)) <= digits_val(s.subrange(0, j)),
        digits_val(s.subrange(0, i)) >= 0,
    decreases j - i,
{
    if i == j {
        lemma_digits_val_nonneg(s.subrange(0, i));
    } else {
        lemma_digits_val_grow(s, i, j - 1);
        lemma_digits_val_step(s, j - 1);
    }
}

proof fn lemma_digits_val_nonneg(s: Seq<char>)
    requires
        all_digits(s),
    ensures
        digits_val(s) >= 0,
    decreases s.len(),
{
    if s.len() > 0 {
        let t = s.subrange(0, s.len() - 1);
        assert(all_digits(t));
        lemma_digits_val_nonneg(t);
    }
}

/// Parse an unsigned decimal number. Returns the value exactly when the
/// whole string is one or more digits and the value fits in a `u64`.
pub fn parse_u64(s: &str) -> (r: Option<u64>)
    ensures
        match r {
            Some(v) => all_digits(s@) && s@.len() > 0 && v == digits_val(s@),
            None => !(all_digits(s@) && s@.len() > 0 && digits_val(s@) <= u64::MAX),
        },
{
    let n = s.unicode_len();
    if n == 0 {
        return None;
    }
    let mut val: u128 = 0;
    let mut i: usize = 0;
    while i < n
        invariant
            i <= n,
            n == s@.len(),
            n > 0,
            all_digits(s@.subrange(0, i as int)),
            val == digits_val(s@.subrange(0, i as int)),
            val <= u64::MAX,
        decreases n - i,
    {
        let c = s.get_char(i);
        if c < '0' || c > '9' {
            proof {
                assert(!('0' <= s@[i as int] && s@[i as int] <= '9'));
            }
            return None;
        }
        let d: u128 = (c as u32 - '0' as u32) as u128;
        proof {
            lemma_digits_val_step(s@, i as int);
            assert forall|j: int| 0 <= j < i + 1 implies '0' <= #[trigger] s@.subrange(
                0,
                i + 1,
            )[j] && s@.subrange(0, i + 1)[j] <= '9' by {
                if j < i {
                    assert(s@.subrange(0, i as int)[j] == s@[j]);
                }
            }
            assert(all_digits(s@.subrange(0, i + 1)));
        }
        let newval: u128 = val * 10 + d;
        if newval > u64::MAX as u128 {
            proof {
                if all_digits(s@) {
                    lemma_digits_val_grow(s@, i + 1, n as int);
                    assert(s@.subrange(0, n as int) =~= s@);
                }
            }
            return None;
        }
        val = newval;
        i += 1;
    }
    proof {
        assert(s@.subrange(0, n as int) =~= s@);
    }
    Some(val as u64)
}

pub open spec fn pow10(n: nat) -> int
    decreases n,
{
    if n == 0 {
        1
    } else {
        10 * pow10((n - 1) as nat)
    }
}

/// A digit string of length `n` has a value below `10^n`.
pub proof fn lemma_digits_val_bound(s: Seq<char>)
    requires
        all_digits(s),
    ensures
        0 <= digits_val(s) < pow10(s.len()),
    decreases s.len(),
{
    if s.len() > 0 {
        let t = s.subrange(0, s.len() - 1);
        assert(all_digits(t));
        lemma_digits_val_bound(t);
    }
}

/// Index of the first occurrence of `c` in `s`, or `s.len()` if none.
pub open spec fn first_index_of(s: Seq<char>, c: char) -> int
    decreases s.len(),
{
    if s.len() == 0 {
        0
    } else if s[0] == c {
        0
    } else {
        1 + first_index_of(s.drop_first(), c)
    }
}

pub proof fn lemma_first_index_of(s: Seq<char>, c: char)
    ensures
        0 <= first_index_of(s, c) <= s.len(),
        first_index_of(s, c) < s.len() ==> s[first_index_of(s, c)] == c,
        forall|j: int| 0 <= j < first_index_of(s, c) ==> s[j] != c,
    decreases s.len(),
{
    if s.len() > 0 && s[0] != c {
        lemma_first_index_of(s.drop_first(), c);
        assert forall|j: int| 0 <= j < first_index_of(s, c) implies s[j] != c by {
            if j > 0 {
                assert(s.drop_first()[j - 1] == s[j]);
            }
        }
    }
}

/// `s` split on `c`; the separators themselves are dropped.
pub open spec fn split_spec(s: Seq<char>, c: char) -> Seq<Seq<char>>
    decreases s.len(),
{
    let i = first_index_of(s, c);
    if 0 <= i < s.len() && s[i] == c {
        seq![s.subrange(0, i)] + split_spec(s.subrange(i + 1, s.len() as int), c)
    } else {
        seq![s]
    }
}

pub fn split_str(s: &str, c: char) -> (r: Vec<String>)
    ensures
        r.deep_view() == split_spec(s@, c),
    decreases s@.len(),
{
    proof {
        lemma_first_index_of(s@, c);
    }
    let n = s.unicode_len();
    match find_char(s, c) {
        None => {
            proof {
                assert(first_index_of(s@, c) == s@.len()) by {
                    if first_index_of(s@, c) < s@.len() {
                        assert(s@[first_index_of(s@, c)] == c);
                    }
                }
            }
            let mut v: Vec<String> = Vec::new();
            v.push(s.to_owned());
            proof {
                assert(v.deep_view() =~~= split_spec(s@, c));
            }
            v
        },
        Some(i) => {
            proof {
                assert(first_index_of(s@, c) == i) by {
                    let f = first_index_of(s@, c);
                    if f < i {
                        assert(s@[f] != c);
                    }
                    if f > i {
                        assert(s@[i as int] != c);
                    }
                }
            }
            let head = s.substring_char(0, i);
            let tail = s.substring_char(i + 1, n);
            let rest = split_str(tail, c);
            let mut v: Vec<String> = Vec::new();
            v.push(String::from_str(head));
            let mut rest_mut = rest;
            v.append(&mut rest_mut);
            proof {
                assert(v.deep_view() =~~= split_spec(s@, c));
            }
            v
        },
    }
}

/// Index of the first window where `p` occurs in `s`, or -1 if none.
pub open spec fn first_match_index(s: Seq<char>, p: Seq<char>) -> int
    decreases s.len(),
{
    if p.len() > s.len() {
        -1
    } else if s.subrange(0, p.len() as int) == p {
        0
    } else if s.len() == 0 {
        -1
    } else {
        let r = first_match_index(s.drop_first(), p);
        if r < 0 {
            -1
        } else {
            1 + r
        }
    }
}

pub proof fn lemma_first_match_index(s: Seq<char>, p: Seq<char>)
    ensures
        first_match_index(s, p) >= 0 ==> first_match_index(s, p) + p.len() <= s.len()
            && s.subrange(first_match_index(s, p), first_match_index(s, p) + p.len() as int) == p,
        forall|j: int|
            0 <= j < first_match_index(s, p) ==> #[trigger] s.subrange(j, j + p.len() as int) != p,
        first_match_index(s, p) == -1 ==> forall|j: int|
            0 <= j && j + p.len() <= s.len() ==> #[trigger] s.subrange(j, j + p.len() as int) != p,
    decreases s.len(),
{
    if p.len() > s.len() || s.len() == 0 {
    } else if s.subrange(0, p.len() as int) == p {
    } else {
        lemma_first_match_index(s.drop_first(), p);
        let t = s.drop_first();
        assert forall|j: int| 1 <= j && j + p.len() <= s.len() implies #[trigger] s.subrange(
            j,
            j + p.len() as int,
        ) == t.subrange(j - 1, j - 1 + p.len() as int) by {
            assert(s.subrange(j, j + p.len() as int) =~= t.subrange(j - 1, j - 1 + p.len() as int));
        }
    }
}

/// The text before and after the first occurrence of `sep`.
pub open spec fn split_once_spec(s: Seq<char>, sep: Seq<char>) -> Option<(Seq<char>, Seq<char>)> {
    let k = first_match_index(s, sep);
    if k < 0 {
        None
    } else {
        Some((s.subrange(0, k), s.subrange(k + sep.len(), s.len() as int)))
    }
}

pub fn split_once_str(s: &str, sep: &str) -> (r: Option<(String, String)>)
    ensures
        match r {
            Some((h, t)) => split_once_spec(s@, sep@) == Some((h@, t@)),
            None => split_once_spec(s@, sep@) is None,
        },
{
    proof {
        lemma_first_match_index(s@, sep@);
    }
    let n = s.unicode_len();
    match find_str(s, sep) {
        None => {
            proof {
                let k = first_match_index(s@, sep@);
                if k >= 0 {
                    assert(s@.subrange(k, k + sep@.len() as int) == sep@);
                }
            }
            None
        },
        Some(i) => {
            proof {
                let k = first_match_index(s@, sep@);
                if k >= 0 && k < i {
                    assert(s@.subrange(k, k + sep@.len() as int) == sep@);
                }
                if k > i || k < 0 {
                    assert(s@.subrange(i as int, i + sep@.len() as int) == sep@);
                }
            }
            let head = s.substring_char(0, i);
            let tail = s.substring_char(i + sep.unicode_len(), n);
            Some((String::from_str(head), String::from_str(tail)))
        },
    }
}

/// Lexicographic order on character sequences, by code point, with a
/// prefix ordered before its extensions.
pub open spec fn lex_le(a: Seq<char>, b: Seq<char>) -> bool
    decreases a.len(),
{
    if a.len() == 0 {
        true
    } else if b.len() == 0 {
        false
    } else if (a[0] as int) < (b[0] as int) {
        true
    } else if (a[0] as int) > (b[0] as int) {
        false
    } else {
        lex_le(a.drop_first(), b.drop_first())
    }
}

pub proof fn lemma_lex_le_total(a: Seq<char>, b: Seq<char>)
    ensures
        lex_le(a, b) || lex_le(b, a),
    decreases a.len(),
{
    if a.len() > 0 && b.len() > 0 && a[0] == b[0] {
        lemma_lex_le_total(a.drop_first(), b.drop_first());
    }
}

pub proof fn lemma_lex_le_trans(a: Seq<char>, b: Seq<char>, c: Seq<char>)
    requires
        lex_le(a, b),
        lex_le(b, c),
    ensures
        lex_le(a, c),
    decreases a.len(),
{
    if a.len() > 0 && b.len() > 0 && c.len() > 0 && a[0] == b[0] && b[0] == c[0] {
        lemma_lex_le_trans(a.drop_first(), b.drop_first(), c.drop_first());
    }
}

/// With equal prefixes of length `i`, the order is decided by the
/// suffixes.
proof fn lemma_lex_le_skip(a: Seq<char>, b: Seq<char>, i: int)
    requires
        0 <= i <= a.len(),
        i <= b.len(),
        forall|j: int| 0 <= j < i ==> a[j] == b[j],
    ensures
        lex_le(a, b) == lex_le(a.skip(i), b.skip(i)),
    decreases i,
{
    if i > 0 {
        lemma_lex_le_skip(a.drop_first(), b.drop_first(), i - 1);
        assert(forall|j: int| 0 <= j < i - 1 ==> a.drop_first()[j] == b.drop_first()[j]);
        assert(a.drop_first().skip(i - 1) =~= a.skip(i));
        assert(b.drop_first().skip(i - 1) =~= b.skip(i));
    } else {
        assert(a.skip(0) =~= a);
        assert(b.skip(0) =~= b);
    }
}

pub fn str_lex_le(a: &str, b: &str) -> (r: bool)
    ensures
        r == lex_le(a@, b@),
{
    let an = a.unicode_len();
    let bn = b.unicode_len();
    let mut i: usize = 0;
    while i < an && i < bn
        invariant
            i <= an,
            i <= bn,
            an == a@.len(),
            bn == b@.len(),
            forall|j: int| 0 <= j < i ==> a@[j] == b@[j],
        decreases an - i,
    {
        let ca = a.get_char(i) as u32;
        let cb = b.get_char(i) as u32;
        if ca < cb {
            proof {
                lemma_lex_le_skip(a@, b@, i as int);
            }
            return true;
        }
        if ca > cb {
            proof {
                lemma_lex_le_skip(a@, b@, i as int);
            }
            return false;
        }
        proof {
            assert(a@[i as int] as int == b@[i as int] as int);
            assert(a@[i as int] == b@[i as int]);
        }
        i += 1;
    }
    proof {
        lemma_lex_le_skip(a@, b@, i as int);
    }
    an <= bn
}

pub fn str_eq(a: &str, b: &str) -> (r: bool)
    ensures
        r == (a@ == b@),
{
    let n = a.unicode_len();
    if n != b.unicode_len() {
        return false;
    }
    let mut i: usize = 0;
    while i < n
        invariant
            i <= n,
            n == a@.len(),
            n == b@.len(),
            forall|j: int| 0 <= j < i ==> a@[j] == b@[j],
        decreases n - i,
    {
        if a.get_char(i) != b.get_char(i) {
            return false;
        }
        i += 1;
    }
    proof {
        assert(a@ =~= b@);
    }
    true
}

/// ASCII-lowered code point of a character.
pub open spec fn lower_char(c: char) -> int {
    if 'A' <= c && c <= 'Z' {
        c as int + 32
    } else {
        c as int
    }
}

/// ASCII case-insensitive string equality.
pub open spec fn eq_ignore_case_spec(a: Seq<char>, b: Seq<char>) -> bool {
    a.len() == b.len() && forall|i: int|
        0 <= i < a.len() ==> lower_char(#[trigger] a[i]) == lower_char(b[i])
}

pub fn str_eq_ignore_case(a: &str, b: &str) -> (r: bool)
    ensures
        r == eq_ignore_case_spec(a@, b@),
{
    let n = a.unicode_len();
    if n != b.unicode_len() {
        return false;
    }
    let mut i: usize = 0;
    while i < n
        invariant
            i <= n,
            n == a@.len(),
            n == b@.len(),
            forall|j: int| 0 <= j < i ==> lower_char(#[trigger] a@[j]) == lower_char(b@[j]),
        decreases n - i,
    {
        let ca = a.get_char(i) as u32;
        let cb = b.get_char(i) as u32;
        let la: u32 = if 65 <= ca && ca <= 90 {
            ca + 32
        } else {
            ca
        };
        let lb: u32 = if 65 <= cb && cb <= 90 {
            cb + 32
        } else {
            cb
        };
        if la != lb {
            return false;
        }
        i += 1;
    }
    true
}

} // verus!
