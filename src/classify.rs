use vstd::prelude::*;
use crate::text::{chars_of, occurs_at, occurs_at_exec, slice};

verus! {

pub open spec fn is_digit(c: char) -> bool {
    '0' <= c <= '9'
}

pub open spec fn is_alnum(c: char) -> bool {
    ('a' <= c <= 'z') || ('A' <= c <= 'Z') || ('0' <= c <= '9')
}

pub open spec fn is_lower(c: char) -> bool {
    'a' <= c <= 'z'
}

/// How many characters satisfying `p` follow one another in `s` from position `i`.
pub open spec fn run(s: Seq<char>, i: int, p: spec_fn(char) -> bool) -> int
    decreases s.len() - i,
{
    if 0 <= i < s.len() && p(s[i]) {
        1 + run(s, i + 1, p)
    } else {
        0
    }
}

pub open spec fn digit_run(s: Seq<char>, i: int) -> int {
    run(s, i, |c: char| is_digit(c))
}

/// A first octet: one to three digits, the first of them not zero.
pub open spec fn lead_octet(s: Seq<char>, i: int) -> bool {
    let n = digit_run(s, i);
    1 <= n <= 3 && s[i] != '0'
}

/// A later octet: a lone zero, or one to three digits that do not start with zero.
pub open spec fn later_octet(s: Seq<char>, i: int) -> bool {
    let n = digit_run(s, i);
    (n == 1 && s[i] == '0') || (1 <= n <= 3 && s[i] != '0')
}

/// From position `i`, `k` more dot-separated later octets, and then the end of `s`.
pub open spec fn later_octets(s: Seq<char>, i: int, k: nat) -> bool
    decreases k,
{
    if k == 0 {
        i == s.len()
    } else {
        0 <= i < s.len() && s[i] == '.' && later_octet(s, i + 1) && later_octets(
            s,
            i + 1 + digit_run(s, i + 1),
            (k - 1) as nat,
        )
    }
}

/// Four dot-separated octets of at most three digits each. The value of an octet is
/// not bounded by 255; only the first octet must not start with zero, and a later
/// one may be a lone zero.
pub open spec fn ipv4_literal(s: Seq<char>) -> bool {
    lead_octet(s, 0) && later_octets(s, digit_run(s, 0), 3)
}

/// A label of letters and digits, a dot, and at least two lower-case letters.
pub open spec fn domain_tail(t: Seq<char>) -> bool {
    let i = run(t, 0, |c: char| is_alnum(c));
    0 < i && i + 2 < t.len() && t[i] == '.' && forall|j: int| i < j < t.len() ==> is_lower(t[j])
}

pub open spec fn http_scheme() -> Seq<char> {
    seq!['h', 't', 't', 'p', ':', '/', '/']
}

pub open spec fn https_scheme() -> Seq<char> {
    seq!['h', 't', 't', 'p', 's', ':', '/', '/']
}

/// A domain tail, alone or after an `http://` or `https://` scheme.
pub open spec fn url_or_domain_like(s: Seq<char>) -> bool {
    domain_tail(s) || (occurs_at(s, http_scheme(), 0) && domain_tail(s.skip(7))) || (occurs_at(
        s,
        https_scheme(),
        0,
    ) && domain_tail(s.skip(8)))
}

fn digit_run_exec(s: &Vec<char>, i: usize) -> (r: usize)
    requires
        i <= s@.len(),
    ensures
        r == digit_run(s@, i as int),
        i + r <= s@.len(),
{
    let mut j: usize = i;
    while j < s.len() && '0' <= s[j] && s[j] <= '9'
        invariant
            i <= j <= s@.len(),
            digit_run(s@, i as int) == (j - i) + digit_run(s@, j as int),
        decreases s@.len() - j,
    {
        j = j + 1;
    }
    j - i
}

fn alnum_run_exec(s: &Vec<char>) -> (r: usize)
    ensures
        r == run(s@, 0, |c: char| is_alnum(c)),
        r <= s@.len(),
{
    let mut j: usize = 0;
    while j < s.len() && (('a' <= s[j] && s[j] <= 'z') || ('A' <= s[j] && s[j] <= 'Z') || (
    '0' <= s[j] && s[j] <= '9'))
        invariant
            j <= s@.len(),
            run(s@, 0, |c: char| is_alnum(c)) == j + run(s@, j as int, |c: char| is_alnum(c)),
        decreases s@.len() - j,
    {
        j = j + 1;
    }
    j
}

fn domain_tail_exec(t: &Vec<char>) -> (r: bool)
    ensures
        r == domain_tail(t@),
{
    let i = alnum_run_exec(t);
    if i == 0 || i >= t.len() || t.len() - i <= 2 || t[i] != '.' {
        return false;
    }
    let mut j: usize = i + 1;
    while j < t.len()
        invariant
            i < j <= t@.len(),
            0 < i,
            i + 2 < t@.len(),
            t@[i as int] == '.',
            i == run(t@, 0, |c: char| is_alnum(c)),
            forall|m: int| i < m < j ==> is_lower(t@[m]),
        decreases t@.len() - j,
    {
        if !('a' <= t[j] && t[j] <= 'z') {
            assert(!is_lower(t@[j as int]));
            return false;
        }
        j = j + 1;
    }
    true
}

/// Whether the whole of `s` is an IPv4-shaped literal, as `ipv4_literal` describes.
pub fn is_ipv4_literal(s: &str) -> (r: bool)
    ensures
        r == ipv4_literal(s@),
{
    let cs = chars_of(s);
    let n0 = digit_run_exec(&cs, 0);
    if n0 < 1 || n0 > 3 || cs[0] == '0' {
        return false;
    }
    let mut i: usize = n0;
    let mut k: usize = 0;
    while k < 3
        invariant
            k <= 3,
            cs@ == s@,
            i <= cs@.len(),
            ipv4_literal(cs@) == later_octets(cs@, i as int, (3 - k) as nat),
        decreases 3 - k,
    {
        let ghost rest = (3 - k) as nat;
        assert(later_octets(cs@, i as int, rest) == (0 <= i < cs@.len() && cs@[i as int] == '.'
            && later_octet(cs@, i + 1) && later_octets(
            cs@,
            i + 1 + digit_run(cs@, i + 1),
            (rest - 1) as nat,
        )));
        if i >= cs.len() || cs[i] != '.' {
            return false;
        }
        let n = digit_run_exec(&cs, i + 1);
        if n == 0 {
            return false;
        }
        let ok = (n == 1 && cs[i + 1] == '0') || (n <= 3 && cs[i + 1] != '0');
        if !ok {
            return false;
        }
        i = i + 1 + n;
        k = k + 1;
    }
    i == cs.len()
}

/// Whether `s` looks like a domain or a URL, as `url_or_domain_like` describes.
pub fn is_url_or_domain_like(s: &str) -> (r: bool)
    ensures
        r == url_or_domain_like(s@),
{
    let cs = chars_of(s);
    if domain_tail_exec(&cs) {
        return true;
    }
    let http = vec!['h', 't', 't', 'p', ':', '/', '/'];
    let https = vec!['h', 't', 't', 'p', 's', ':', '/', '/'];
    assert(http@ == http_scheme());
    assert(https@ == https_scheme());
    if occurs_at_exec(&cs, &http, 0) {
        let rest = slice(&cs, 7, cs.len());
        assert(rest@ =~= cs@.skip(7));
        if domain_tail_exec(&rest) {
            return true;
        }
    }
    if occurs_at_exec(&cs, &https, 0) {
        let rest = slice(&cs, 8, cs.len());
        assert(rest@ =~= cs@.skip(8));
        if domain_tail_exec(&rest) {
            return true;
        }
    }
    false
}

} // verus!
