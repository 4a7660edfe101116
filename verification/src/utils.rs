//! Validation and normalization of domains and resolver addresses.

use vstd::prelude::*;
use crate::error::DnsxError;
use crate::ip::{split_sep, split_sep_exec, spec_parse_ip, parse_ip_chars, sub_chars};
use crate::text::{
    chars_of_str, is_digit_char, is_digit, lower_char, spec_lower, string_from_chars,
    to_lower_char, val_of_digits, push_all,
};

verus! {

/// ASCII letter.
pub open spec fn is_alpha(c: char) -> bool {
    ('a' <= c && c <= 'z') || ('A' <= c && c <= 'Z')
}

/// ASCII letter or digit.
pub open spec fn is_alnum(c: char) -> bool {
    is_alpha(c) || is_digit_char(c)
}

/// A valid domain label: one to sixty-three characters, first and last
/// alphanumeric, hyphens allowed between.
pub open spec fn valid_label(g: Seq<char>) -> bool {
    &&& 1 <= g.len() <= 63
    &&& is_alnum(g[0])
    &&& is_alnum(g[g.len() - 1])
    &&& forall|i: int| 0 < i < g.len() - 1 ==> is_alnum(#[trigger] g[i]) || g[i] == '-'
}

/// A valid top-level label: at least two letters.
pub open spec fn valid_tld(g: Seq<char>) -> bool {
    g.len() >= 2 && forall|i: int| 0 <= i < g.len() ==> is_alpha(#[trigger] g[i])
}

/// A valid domain name: one or more labels, then a top-level label, dot
/// separated.
pub open spec fn spec_valid_domain(s: Seq<char>) -> bool {
    let gs = split_sep(s, '.');
    &&& gs.len() >= 2
    &&& forall|i: int| 0 <= i < gs.len() - 1 ==> valid_label(#[trigger] gs[i])
    &&& valid_tld(gs[gs.len() - 1])
}

/// ASCII letter test, executable form.
pub fn is_alpha_char(c: char) -> (r: bool)
    ensures
        r == is_alpha(c),
{
    let b = c as u32;
    (97 <= b && b <= 122) || (65 <= b && b <= 90)
}

/// ASCII letter-or-digit test, executable form.
pub fn is_alnum_char(c: char) -> (r: bool)
    ensures
        r == is_alnum(c),
{
    is_alpha_char(c) || is_digit(c)
}

/// Whether one piece is a valid inner label.
fn check_label(g: &Vec<char>) -> (r: bool)
    ensures
        r == valid_label(g@),
{
    if g.len() < 1 || g.len() > 63 {
        return false;
    }
    if !is_alnum_char(g[0]) {
        return false;
    }
    if !is_alnum_char(g[g.len() - 1]) {
        return false;
    }
    let mut i: usize = 1;
    while i < g.len() - 1
        invariant
            1 <= i,
            g@.len() >= 1,
            i <= g@.len(),
            forall|t: int| 0 < t < i ==> is_alnum(#[trigger] g@[t]) || g@[t] == '-',
        decreases g@.len() - i,
    {
        if !(is_alnum_char(g[i]) || g[i] == '-') {
            return false;
        }
        i = i + 1;
    }
    true
}

/// Whether one piece is a valid top-level label.
fn check_tld(g: &Vec<char>) -> (r: bool)
    ensures
        r == valid_tld(g@),
{
    if g.len() < 2 {
        return false;
    }
    let mut i: usize = 0;
    while i < g.len()
        invariant
            i <= g@.len(),
            forall|t: int| 0 <= t < i ==> is_alpha(#[trigger] g@[t]),
        decreases g@.len() - i,
    {
        if !is_alpha_char(g[i]) {
            return false;
        }
        i = i + 1;
    }
    true
}

/// Whether the text is a well-formed domain name: dot-separated labels of
/// letters, digits and inner hyphens, ending in an alphabetic top-level
/// label of at least two letters.
pub fn is_valid_domain(domain: &str) -> (r: bool)
    ensures
        r == spec_valid_domain(domain@),
{
    let v = chars_of_str(domain);
    proof {
        assert(v@.skip(0) =~= v@);
    }
    let gs = split_sep_exec(&v, 0, '.');
    let n = gs.len();
    if n < 2 {
        return false;
    }
    let mut i: usize = 0;
    while i < n - 1
        invariant
            i <= n - 1,
            n == gs@.len(),
            n >= 2,
            v@ == domain@,
            gs@.len() == split_sep(v@, '.').len(),
            forall|j: int| 0 <= j < gs@.len() ==> (#[trigger] gs@[j])@ == split_sep(v@, '.')[j],
            forall|j: int| 0 <= j < i ==> valid_label(#[trigger] split_sep(v@, '.')[j]),
        decreases n - i,
    {
        if !check_label(&gs[i]) {
            return false;
        }
        i = i + 1;
    }
    check_tld(&gs[n - 1])
}

/// Whether the text is a valid port number: decimal digits denoting a value
/// of at most 65535.
pub open spec fn valid_port(g: Seq<char>) -> bool {
    &&& g.len() >= 1
    &&& forall|i: int| 0 <= i < g.len() ==> is_digit_char(#[trigger] g[i])
    &&& val_of_digits(g) <= 65535
}

/// The value of a prefix of a digit string never exceeds the whole.
pub proof fn lemma_val_prefix_le(s: Seq<char>, t: int)
    requires
        0 <= t <= s.len(),
        forall|i: int| 0 <= i < s.len() ==> is_digit_char(#[trigger] s[i]),
    ensures
        val_of_digits(s.take(t)) <= val_of_digits(s),
    decreases s.len() - t,
{
    if t < s.len() {
        lemma_val_prefix_le(s, t + 1);
        let a = s.take(t);
        let b = s.take(t + 1);
        assert(b.drop_last() =~= a);
        assert(val_of_digits(b) == val_of_digits(a) * 10 + (crate::text::digit_val(
            b.last(),
        ) as nat));
    } else {
        assert(s.take(t) =~= s);
    }
}

/// Port check, executable form.
fn check_port(g: &Vec<char>) -> (r: bool)
    ensures
        r == valid_port(g@),
{
    if g.len() < 1 {
        return false;
    }
    let mut i: usize = 0;
    while i < g.len()
        invariant
            i <= g@.len(),
            forall|t: int| 0 <= t < i ==> is_digit_char(#[trigger] g@[t]),
        decreases g@.len() - i,
    {
        if !is_digit(g[i]) {
            return false;
        }
        i = i + 1;
    }
    let mut val: u32 = 0;
    let mut t: usize = 0;
    proof {
        assert(g@.take(0) =~= Seq::<char>::empty());
    }
    while t < g.len()
        invariant
            t <= g@.len(),
            forall|q: int| 0 <= q < g@.len() ==> is_digit_char(#[trigger] g@[q]),
            val == val_of_digits(g@.take(t as int)),
            val <= 65535,
        decreases g@.len() - t,
    {
        let c = g[t];
        proof {
            assert(g@.take(t as int + 1).drop_last() =~= g@.take(t as int));
            assert(g@.take(t as int + 1).last() == g@[t as int]);
        }
        let next = val * 10 + (c as u32 - 48);
        if next > 65535 {
            proof {
                lemma_val_prefix_le(g@, t + 1);
            }
            return false;
        }
        val = next;
        t = t + 1;
    }
    proof {
        assert(g@.take(g@.len() as int) =~= g@);
    }
    true
}

/// What a resolver string denotes: the normalized `ip:port` text, with port
/// 53 for a bare address.
pub open spec fn spec_parse_resolver(s: Seq<char>) -> Option<Seq<char>> {
    let parts = split_sep(s, ':');
    if parts.len() == 1 {
        if spec_parse_ip(s).is_some() {
            Some(s + ":53"@)
        } else {
            None
        }
    } else if parts.len() == 2 {
        if spec_parse_ip(parts[0]).is_some() && valid_port(parts[1]) {
            Some(s)
        } else {
            None
        }
    } else {
        None
    }
}

/// Parses a resolver address, `ip` or `ip:port`.
///
/// A bare IP gets the default port 53; a malformed address is rejected with
/// an `InvalidInput` error whose message names the input.
pub fn parse_resolver(addr: &str) -> (r: Result<String, DnsxError>)
    ensures
        match r {
            Ok(out) => spec_parse_resolver(addr@) == Some(out@),
            Err(e) => spec_parse_resolver(addr@) is None && (e matches DnsxError::InvalidInput(m)
                && (m@ == "Invalid resolver IP: "@ + addr@ || m@ == "Invalid resolver format: "@
                + addr@)),
        },
{
    let v = chars_of_str(addr);
    proof {
        assert(v@.skip(0) =~= v@);
    }
    let parts = split_sep_exec(&v, 0, ':');
    if parts.len() == 1 {
        if parse_ip_chars(&v).is_some() {
            let mut out = crate::ip::clone_chars(&v);
            out.push(':');
            out.push('5');
            out.push('3');
            proof {
                reveal_strlit(":53");
                assert(out@ =~= addr@ + ":53"@);
            }
            Ok(string_from_chars(&out))
        } else {
            let mut msg = chars_of_str("Invalid resolver IP: ");
            push_all(&mut msg, &v);
            Err(DnsxError::InvalidInput(string_from_chars(&msg)))
        }
    } else if parts.len() == 2 {
        let ip_ok = parse_ip_chars(&parts[0]).is_some();
        let port_ok = check_port(&parts[1]);
        if ip_ok && port_ok {
            Ok(string_from_chars(&v))
        } else {
            let mut msg = chars_of_str("Invalid resolver format: ");
            push_all(&mut msg, &v);
            Err(DnsxError::InvalidInput(string_from_chars(&msg)))
        }
    } else {
        let mut msg = chars_of_str("Invalid resolver format: ");
        push_all(&mut msg, &v);
        Err(DnsxError::InvalidInput(string_from_chars(&msg)))
    }
}

/// Trailing dots removed.
pub open spec fn strip_trailing_dots(s: Seq<char>) -> Seq<char>
    decreases s.len(),
{
    if s.len() > 0 && s.last() == '.' {
        strip_trailing_dots(s.drop_last())
    } else {
        s
    }
}

/// The normalized form a cache key uses: ASCII lowercase, trailing dots
/// stripped.
pub open spec fn normalized_domain(s: Seq<char>) -> Seq<char> {
    spec_lower(strip_trailing_dots(s))
}

/// Normalizes a domain for cache keying: lowercase, trailing dot stripped.
pub fn normalize_domain(domain: &str) -> (r: String)
    ensures
        r@ == normalized_domain(domain@),
{
    let v = chars_of_str(domain);
    let mut hi = v.len();
    proof {
        assert(v@.take(v@.len() as int) =~= v@);
    }
    while hi > 0 && v[hi - 1] == '.'
        invariant
            hi <= v@.len(),
            strip_trailing_dots(v@) == strip_trailing_dots(v@.take(hi as int)),
        decreases hi,
    {
        proof {
            assert(v@.take(hi as int).last() == v@[hi - 1]);
            assert(v@.take(hi as int).drop_last() =~= v@.take(hi as int - 1));
        }
        hi = hi - 1;
    }
    proof {
        if hi > 0 {
            assert(v@.take(hi as int).last() == v@[hi - 1]);
        }
        assert(strip_trailing_dots(v@.take(hi as int)) == v@.take(hi as int));
    }
    let mut out: Vec<char> = Vec::new();
    let mut i: usize = 0;
    while i < hi
        invariant
            i <= hi <= v@.len(),
            out@ =~= spec_lower(v@.take(hi as int)).take(i as int),
        decreases hi - i,
    {
        out.push(to_lower_char(v[i]));
        i = i + 1;
    }
    proof {
        assert(spec_lower(v@.take(hi as int)).take(hi as int) =~= spec_lower(v@.take(hi as int)));
    }
    string_from_chars(&out)
}

/// Normalizes a domain for querying: lowercase, exactly one trailing dot.
pub fn normalize_query_domain(domain: &str) -> (r: String)
    ensures
        r@ == normalized_domain(domain@) + seq!['.'],
{
    let base = normalize_domain(domain);
    let mut out = chars_of_str(base.as_str());
    out.push('.');
    string_from_chars(&out)
}

} // verus!
