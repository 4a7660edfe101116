//! IP addresses as plain values: parsing, formatting, and the round trip
//! between them.
//!
//! IPv4 text is the canonical dotted quad (no leading zeros). IPv6 text is
//! parsed with hexadecimal groups and at most one `::` gap; formatting emits
//! all eight groups in minimal lowercase hex without compressing zero runs.

use vstd::prelude::*;
use crate::text::{
    char_of_digit, char_of_hex_digit, dec_chars, is_digit_char, is_hex_digit_char, hex_digit_val,
    val_of_digits, pow10, u64_to_dec, push_all, string_from_chars, is_digit,
};

verus! {

/// An IP address, version 4 or 6.
///
/// The eight `u16` values of `V6` are the address groups, most significant
/// first.
#[derive(Debug, Clone, Copy, PartialEq, Eq, Hash, Structural)]
pub enum IpAddress {
    /// IPv4: the four octets, most significant first.
    V4(u8, u8, u8, u8),
    /// IPv6: the eight 16-bit groups, most significant first.
    V6(u16, u16, u16, u16, u16, u16, u16, u16),
}

/// Minimal lowercase hexadecimal digits of `n`, most significant first.
pub open spec fn hex_chars(n: nat) -> Seq<char>
    decreases n,
{
    if n < 16 {
        seq![char_of_hex_digit(n as int)]
    } else {
        hex_chars(n / 16) + seq![char_of_hex_digit((n % 16) as int)]
    }
}

/// Value of a sequence of hexadecimal digit characters.
pub open spec fn val_of_hex_digits(s: Seq<char>) -> nat
    decreases s.len(),
{
    if s.len() == 0 {
        0
    } else {
        val_of_hex_digits(s.drop_last()) * 16 + (hex_digit_val(s.last()) as nat)
    }
}

/// The text of an IPv4 address: dotted decimal quad.
pub open spec fn ipv4_chars(a: u8, b: u8, c: u8, d: u8) -> Seq<char> {
    dec_chars(a as nat) + seq!['.'] + dec_chars(b as nat) + seq!['.'] + dec_chars(c as nat)
        + seq!['.'] + dec_chars(d as nat)
}

/// The text of an IPv6 address: eight minimal hex groups joined by colons.
pub open spec fn ipv6_chars(
    g0: u16,
    g1: u16,
    g2: u16,
    g3: u16,
    g4: u16,
    g5: u16,
    g6: u16,
    g7: u16,
) -> Seq<char> {
    hex_chars(g0 as nat) + seq![':'] + hex_chars(g1 as nat) + seq![':'] + hex_chars(g2 as nat)
        + seq![':'] + hex_chars(g3 as nat) + seq![':'] + hex_chars(g4 as nat) + seq![':']
        + hex_chars(g5 as nat) + seq![':'] + hex_chars(g6 as nat) + seq![':'] + hex_chars(
        g7 as nat,
    )
}

/// The text form of an address.
pub open spec fn ip_chars(ip: IpAddress) -> Seq<char> {
    match ip {
        IpAddress::V4(a, b, c, d) => ipv4_chars(a, b, c, d),
        IpAddress::V6(g0, g1, g2, g3, g4, g5, g6, g7) => ipv6_chars(
            g0,
            g1,
            g2,
            g3,
            g4,
            g5,
            g6,
            g7,
        ),
    }
}

/// Number of leading characters that are not `sep`.
pub open spec fn sep_free_prefix_len(s: Seq<char>, sep: char) -> nat
    decreases s.len(),
{
    if s.len() == 0 || s[0] == sep {
        0
    } else {
        1 + sep_free_prefix_len(s.skip(1), sep)
    }
}

/// Splits a sequence at every occurrence of `sep`.
pub open spec fn split_sep(s: Seq<char>, sep: char) -> Seq<Seq<char>>
    decreases s.len(),
{
    let k = sep_free_prefix_len(s, sep);
    if k >= s.len() {
        seq![s]
    } else {
        seq![s.take(k as int)] + split_sep(s.skip(k as int + 1), sep)
    }
}

pub proof fn lemma_sep_free_prefix_len_bounds(s: Seq<char>, sep: char)
    ensures
        sep_free_prefix_len(s, sep) <= s.len(),
        forall|i: int| 0 <= i < sep_free_prefix_len(s, sep) ==> #[trigger] s[i] != sep,
        sep_free_prefix_len(s, sep) < s.len() ==> s[sep_free_prefix_len(s, sep) as int] == sep,
    decreases s.len(),
{
    if s.len() == 0 || s[0] == sep {
    } else {
        lemma_sep_free_prefix_len_bounds(s.skip(1), sep);
        assert(forall|i: int| 1 <= i < s.len() ==> s[i] == s.skip(1)[i - 1]);
    }
}

pub proof fn lemma_sep_free_prefix_len_exact(s: Seq<char>, sep: char, k: int)
    requires
        0 <= k <= s.len(),
        forall|i: int| 0 <= i < k ==> #[trigger] s[i] != sep,
        k < s.len() ==> s[k] == sep,
    ensures
        sep_free_prefix_len(s, sep) == k,
    decreases k,
{
    if k == 0 {
    } else {
        assert(s[0] != sep);
        lemma_sep_free_prefix_len_exact(s.skip(1), sep, k - 1);
    }
}

/// Splitting a joined piece off the front: if `g` holds no separator, then
/// `g sep rest` splits into `g` followed by the split of `rest`.
pub proof fn lemma_split_sep_join(g: Seq<char>, sep: char, rest: Seq<char>)
    requires
        forall|i: int| 0 <= i < g.len() ==> #[trigger] g[i] != sep,
    ensures
        split_sep(g + seq![sep] + rest, sep) == seq![g] + split_sep(rest, sep),
{
    let s = g + seq![sep] + rest;
    assert(forall|i: int| 0 <= i < g.len() ==> s[i] == g[i]);
    assert(s[g.len() as int] == sep);
    lemma_sep_free_prefix_len_exact(s, sep, g.len() as int);
    assert(s.take(g.len() as int) =~= g);
    assert(s.skip(g.len() as int + 1) =~= rest);
    assert(split_sep(s, sep) =~= seq![g] + split_sep(rest, sep));
}

/// A sequence without separators splits into itself alone.
pub proof fn lemma_split_sep_single(g: Seq<char>, sep: char)
    requires
        forall|i: int| 0 <= i < g.len() ==> #[trigger] g[i] != sep,
    ensures
        split_sep(g, sep) == seq![g],
{
    lemma_sep_free_prefix_len_exact(g, sep, g.len() as int);
}

/// A valid decimal IPv4 group: one to three digits, no leading zero except
/// `0` itself, value at most 255.
pub open spec fn v4_group_val(g: Seq<char>) -> Option<u8> {
    if 1 <= g.len() <= 3 && (forall|i: int| 0 <= i < g.len() ==> is_digit_char(#[trigger] g[i]))
        && (g[0] != '0' || g.len() == 1) && val_of_digits(g) <= 255 {
        Some(val_of_digits(g) as u8)
    } else {
        None
    }
}

/// A valid hexadecimal IPv6 group: one to four hex digits.
pub open spec fn v6_group_val(g: Seq<char>) -> Option<u16> {
    if 1 <= g.len() <= 4 && (forall|i: int|
        0 <= i < g.len() ==> is_hex_digit_char(#[trigger] g[i])) {
        Some(val_of_hex_digits(g) as u16)
    } else {
        None
    }
}

/// What a character sequence denotes as an IPv4 address.
pub open spec fn spec_parse_ipv4(s: Seq<char>) -> Option<IpAddress> {
    let gs = split_sep(s, '.');
    if gs.len() == 4 && v4_group_val(gs[0]).is_some() && v4_group_val(gs[1]).is_some()
        && v4_group_val(gs[2]).is_some() && v4_group_val(gs[3]).is_some() {
        Some(
            IpAddress::V4(
                v4_group_val(gs[0]).unwrap(),
                v4_group_val(gs[1]).unwrap(),
                v4_group_val(gs[2]).unwrap(),
                v4_group_val(gs[3]).unwrap(),
            ),
        )
    } else {
        None
    }
}

/// Position of the first `::`, if any.
pub open spec fn find_double_colon(s: Seq<char>) -> Option<int>
    decreases s.len(),
{
    if s.len() < 2 {
        None
    } else if s[0] == ':' && s[1] == ':' {
        Some(0)
    } else {
        match find_double_colon(s.skip(1)) {
            None => None,
            Some(i) => Some(i + 1),
        }
    }
}

/// Whether every group in the list is a valid IPv6 group.
pub open spec fn v6_groups_valid(gs: Seq<Seq<char>>) -> bool {
    forall|i: int| 0 <= i < gs.len() ==> v6_group_val(#[trigger] gs[i]).is_some()
}

/// The group values of a valid group list.
pub open spec fn v6_group_vals(gs: Seq<Seq<char>>) -> Seq<u16> {
    gs.map_values(|g: Seq<char>| v6_group_val(g).unwrap())
}

/// An address from eight group values.
pub open spec fn v6_of_groups(gs: Seq<u16>) -> IpAddress {
    IpAddress::V6(gs[0], gs[1], gs[2], gs[3], gs[4], gs[5], gs[6], gs[7])
}

/// What a character sequence denotes as an IPv6 address: either eight
/// colon-separated hex groups, or two shorter group lists joined by one `::`
/// standing for the missing zero groups.
pub open spec fn spec_parse_ipv6(s: Seq<char>) -> Option<IpAddress> {
    match find_double_colon(s) {
        None => {
            let gs = split_sep(s, ':');
            if gs.len() == 8 && v6_groups_valid(gs) {
                Some(v6_of_groups(v6_group_vals(gs)))
            } else {
                None
            }
        },
        Some(i) => {
            let left = s.take(i);
            let right = s.skip(i + 2);
            let lgs: Seq<Seq<char>> = if left.len() == 0 {
                seq![]
            } else {
                split_sep(left, ':')
            };
            let rgs: Seq<Seq<char>> = if right.len() == 0 {
                seq![]
            } else {
                split_sep(right, ':')
            };
            if v6_groups_valid(lgs) && v6_groups_valid(rgs) && lgs.len() + rgs.len() <= 7 && (
            find_double_colon(right) matches None) {
                let zeros = Seq::<u16>::new((8 - lgs.len() - rgs.len()) as nat, |i: int| 0u16);
                Some(v6_of_groups(v6_group_vals(lgs) + zeros + v6_group_vals(rgs)))
            } else {
                None
            }
        },
    }
}

/// What a character sequence denotes as an IP address: an IPv4 dotted quad,
/// else an IPv6 address.
pub open spec fn spec_parse_ip(s: Seq<char>) -> Option<IpAddress> {
    match spec_parse_ipv4(s) {
        Some(ip) => Some(ip),
        None => spec_parse_ipv6(s),
    }
}

impl IpAddress {
    /// The text form: dotted quad for IPv4, eight lowercase hex groups for
    /// IPv6.
    pub fn to_text(&self) -> (r: String)
        ensures
            r@ == ip_chars(*self),
    {
        match self {
            IpAddress::V4(a, b, c, d) => {
                let mut v: Vec<char> = Vec::new();
                let oa = u64_to_dec(*a as u64);
                push_all(&mut v, &oa);
                v.push('.');
                let ob = u64_to_dec(*b as u64);
                push_all(&mut v, &ob);
                v.push('.');
                let oc = u64_to_dec(*c as u64);
                push_all(&mut v, &oc);
                v.push('.');
                let od = u64_to_dec(*d as u64);
                push_all(&mut v, &od);
                proof {
                    assert(v@ =~= ip_chars(*self));
                }
                string_from_chars(&v)
            },
            IpAddress::V6(g0, g1, g2, g3, g4, g5, g6, g7) => {
                let mut v: Vec<char> = Vec::new();
                let h0 = u16_to_hex(*g0);
                push_all(&mut v, &h0);
                v.push(':');
                let h1 = u16_to_hex(*g1);
                push_all(&mut v, &h1);
                v.push(':');
                let h2 = u16_to_hex(*g2);
                push_all(&mut v, &h2);
                v.push(':');
                let h3 = u16_to_hex(*g3);
                push_all(&mut v, &h3);
                v.push(':');
                let h4 = u16_to_hex(*g4);
                push_all(&mut v, &h4);
                v.push(':');
                let h5 = u16_to_hex(*g5);
                push_all(&mut v, &h5);
                v.push(':');
                let h6 = u16_to_hex(*g6);
                push_all(&mut v, &h6);
                v.push(':');
                let h7 = u16_to_hex(*g7);
                push_all(&mut v, &h7);
                proof {
                    assert(v@ =~= ip_chars(*self));
                }
                string_from_chars(&v)
            },
        }
    }
}

/// Minimal lowercase hex digits of a 16-bit value.
pub fn u16_to_hex(n: u16) -> (s: Vec<char>)
    ensures
        s@ == hex_chars(n as nat),
    decreases n,
{
    if n < 16 {
        let mut v: Vec<char> = Vec::new();
        let d = n as u8;
        if d < 10 {
            v.push((48 + d) as char);
        } else {
            v.push((97 + (d - 10)) as char);
        }
        assert(v@ =~= hex_chars(n as nat));
        v
    } else {
        let mut v = u16_to_hex(n / 16);
        let d = (n % 16) as u8;
        if d < 10 {
            v.push((48 + d) as char);
        } else {
            v.push((97 + (d - 10)) as char);
        }
        assert(v@ =~= hex_chars(n as nat));
        v
    }
}

/// Hexadecimal digit test, executable form.
pub fn is_hex_digit(c: char) -> (r: bool)
    ensures
        r == is_hex_digit_char(c),
{
    let b = c as u32;
    (48 <= b && b <= 57) || (97 <= b && b <= 102) || (65 <= b && b <= 70)
}

/// Copy of `v[from..to]`.
pub fn sub_chars(v: &Vec<char>, from: usize, to: usize) -> (r: Vec<char>)
    requires
        from <= to <= v@.len(),
    ensures
        r@ == v@.subrange(from as int, to as int),
{
    let mut r: Vec<char> = Vec::new();
    let mut i = from;
    while i < to
        invariant
            from <= i <= to <= v@.len(),
            r@ =~= v@.subrange(from as int, i as int),
        decreases to - i,
    {
        r.push(v[i]);
        i = i + 1;
    }
    r
}

/// Copy of a character vector.
pub fn clone_chars(v: &Vec<char>) -> (r: Vec<char>)
    ensures
        r@ == v@,
{
    let mut r: Vec<char> = Vec::new();
    let mut i: usize = 0;
    while i < v.len()
        invariant
            i <= v@.len(),
            r@ =~= v@.take(i as int),
        decreases v@.len() - i,
    {
        r.push(v[i]);
        i = i + 1;
    }
    proof {
        assert(v@.take(v@.len() as int) =~= v@);
    }
    r
}

/// Splits `v[from..]` at every occurrence of `sep`: the results' views are
/// exactly the pieces of `split_sep`.
pub fn split_sep_exec(v: &Vec<char>, from: usize, sep: char) -> (r: Vec<Vec<char>>)
    requires
        from <= v@.len(),
    ensures
        r@.len() == split_sep(v@.skip(from as int), sep).len(),
        forall|i: int| 0 <= i < r@.len() ==> (#[trigger] r@[i])@ == split_sep(
            v@.skip(from as int),
            sep,
        )[i],
    decreases v@.len() - from,
{
    let ghost s = v@.skip(from as int);
    let mut j = from;
    while j < v.len() && v[j] != sep
        invariant
            from <= j <= v@.len(),
            forall|t: int| from <= t < j ==> #[trigger] v@[t] != sep,
        decreases v@.len() - j,
    {
        j = j + 1;
    }
    proof {
        assert(forall|t: int| 0 <= t < j - from ==> s[t] == v@[from + t]);
        lemma_sep_free_prefix_len_exact(s, sep, j - from);
    }
    let g = sub_chars(v, from, j);
    proof {
        assert(g@ =~= s.take(j - from));
    }
    if j == v.len() {
        let mut r: Vec<Vec<char>> = Vec::new();
        r.push(g);
        proof {
            assert(s.take(j - from) =~= s);
            assert(split_sep(s, sep) == seq![s]);
        }
        r
    } else {
        let tail = split_sep_exec(v, j + 1, sep);
        let ghost tailspec = split_sep(v@.skip(j + 1), sep);
        let mut r: Vec<Vec<char>> = Vec::new();
        r.push(g);
        let mut k: usize = 0;
        while k < tail.len()
            invariant
                k <= tail@.len(),
                r@.len() == k + 1,
                r@[0]@ == s.take(j - from),
                tail@.len() == tailspec.len(),
                forall|i: int| 0 <= i < tail@.len() ==> (#[trigger] tail@[i])@ == tailspec[i],
                forall|i: int| 1 <= i < k + 1 ==> (#[trigger] r@[i])@ == tailspec[i - 1],
            decreases tail@.len() - k,
        {
            let piece = clone_chars(&tail[k]);
            r.push(piece);
            k = k + 1;
        }
        proof {
            assert(v@.skip(j + 1) =~= s.skip(j - from + 1));
            let whole = split_sep(s, sep);
            assert(whole == seq![s.take(j - from)] + tailspec);
            assert(whole.len() == 1 + tailspec.len());
            assert(forall|i: int| 0 <= i < r@.len() ==> (#[trigger] r@[i])@ == whole[i]) by {
                assert(whole[0] == s.take(j - from));
                assert(forall|i: int| 1 <= i < whole.len() ==> whole[i] == tailspec[i - 1]);
            }
        }
        r
    }
}

/// Value of a candidate IPv4 group.
pub fn v4_group_exec(g: &Vec<char>) -> (r: Option<u8>)
    ensures
        r == v4_group_val(g@),
{
    if g.len() < 1 || g.len() > 3 {
        return None;
    }
    let mut i: usize = 0;
    while i < g.len()
        invariant
            i <= g@.len(),
            forall|t: int| 0 <= t < i ==> is_digit_char(#[trigger] g@[t]),
        decreases g@.len() - i,
    {
        if !is_digit(g[i]) {
            return None;
        }
        i = i + 1;
    }
    if g[0] == '0' && g.len() != 1 {
        return None;
    }
    let mut val: u32 = 0;
    let mut t: usize = 0;
    proof {
        assert(g@.subrange(0, 0) =~= Seq::<char>::empty());
    }
    while t < g.len()
        invariant
            t <= g@.len(),
            g@.len() <= 3,
            forall|q: int| 0 <= q < g@.len() ==> is_digit_char(#[trigger] g@[q]),
            val == val_of_digits(g@.subrange(0, t as int)),
            val < if t == 0 {
                1int
            } else if t == 1 {
                10int
            } else if t == 2 {
                100int
            } else {
                1000int
            },
        decreases g@.len() - t,
    {
        let c = g[t];
        proof {
            assert(g@.subrange(0, t as int + 1).drop_last() =~= g@.subrange(0, t as int));
            assert(g@.subrange(0, t as int + 1).last() == g@[t as int]);
        }
        val = val * 10 + (c as u32 - 48);
        t = t + 1;
    }
    proof {
        assert(g@.subrange(0, g@.len() as int) =~= g@);
    }
    if val <= 255 {
        Some(val as u8)
    } else {
        None
    }
}

/// Value of a candidate IPv6 group.
pub fn v6_group_exec(g: &Vec<char>) -> (r: Option<u16>)
    ensures
        r == v6_group_val(g@),
{
    if g.len() < 1 || g.len() > 4 {
        return None;
    }
    let mut i: usize = 0;
    while i < g.len()
        invariant
            i <= g@.len(),
            forall|t: int| 0 <= t < i ==> is_hex_digit_char(#[trigger] g@[t]),
        decreases g@.len() - i,
    {
        if !is_hex_digit(g[i]) {
            return None;
        }
        i = i + 1;
    }
    let mut val: u32 = 0;
    let mut t: usize = 0;
    proof {
        assert(g@.subrange(0, 0) =~= Seq::<char>::empty());
    }
    while t < g.len()
        invariant
            t <= g@.len(),
            g@.len() <= 4,
            forall|q: int| 0 <= q < g@.len() ==> is_hex_digit_char(#[trigger] g@[q]),
            val == val_of_hex_digits(g@.subrange(0, t as int)),
            val < if t == 0 {
                1int
            } else if t == 1 {
                16int
            } else if t == 2 {
                256int
            } else if t == 3 {
                4096int
            } else {
                65536int
            },
        decreases g@.len() - t,
    {
        let c = g[t];
        let b = c as u32;
        let d: u32 = if 48 <= b && b <= 57 {
            b - 48
        } else if 97 <= b && b <= 102 {
            10 + (b - 97)
        } else {
            10 + (b - 65)
        };
        proof {
            assert(g@.subrange(0, t as int + 1).drop_last() =~= g@.subrange(0, t as int));
            assert(g@.subrange(0, t as int + 1).last() == g@[t as int]);
            assert(d == hex_digit_val(g@[t as int]));
        }
        val = val * 16 + d;
        t = t + 1;
    }
    proof {
        assert(g@.subrange(0, g@.len() as int) =~= g@);
    }
    Some(val as u16)
}

/// Position of the first `::` at or after `from`, if any.
pub fn find_double_colon_exec(v: &Vec<char>, from: usize) -> (r: Option<usize>)
    requires
        from <= v@.len(),
    ensures
        match r {
            None => (find_double_colon(v@.skip(from as int)) matches None),
            Some(i) => from <= i && i + 1 < v@.len() && find_double_colon(v@.skip(from as int))
                == Some(i - from),
        },
    decreases v@.len() - from,
{
    if v.len() < 2 {
        return None;
    }
    if from >= v.len() - 1 {
        return None;
    }
    if v[from] == ':' && v[from + 1] == ':' {
        proof {
            let s = v@.skip(from as int);
            assert(s[0] == ':' && s[1] == ':');
        }
        return Some(from);
    }
    let r = find_double_colon_exec(v, from + 1);
    proof {
        let s = v@.skip(from as int);
        assert(s.skip(1) =~= v@.skip(from + 1));
        assert(s.len() >= 2);
        assert(!(s[0] == ':' && s[1] == ':'));
    }
    match r {
        None => None,
        Some(i) => Some(i),
    }
}

/// Parses an IP address, version 4 or 6.
pub fn parse_ip(s: &str) -> (r: Option<IpAddress>)
    ensures
        r == spec_parse_ip(s@),
{
    let v = crate::text::chars_of_str(s);
    parse_ip_chars(&v)
}

/// Parses an IP address from characters.
pub fn parse_ip_chars(v: &Vec<char>) -> (r: Option<IpAddress>)
    ensures
        r == spec_parse_ip(v@),
{
    proof {
        assert(v@.skip(0) =~= v@);
    }
    let gs = split_sep_exec(v, 0, '.');
    if gs.len() == 4 {
        let a = v4_group_exec(&gs[0]);
        let b = v4_group_exec(&gs[1]);
        let c = v4_group_exec(&gs[2]);
        let d = v4_group_exec(&gs[3]);
        match (a, b, c, d) {
            (Some(a), Some(b), Some(c), Some(d)) => {
                return Some(IpAddress::V4(a, b, c, d));
            },
            _ => {},
        }
    }
    parse_ipv6_chars(v)
}

/// Parses an IPv6 address from characters.
pub fn parse_ipv6_chars(v: &Vec<char>) -> (r: Option<IpAddress>)
    requires
        (spec_parse_ipv4(v@) matches None),
    ensures
        r == spec_parse_ip(v@),
{
    proof {
        assert(v@.skip(0) =~= v@);
    }
    match find_double_colon_exec(v, 0) {
        None => {
            let gs = split_sep_exec(v, 0, ':');
            let ghost specgs = split_sep(v@, ':');
            if gs.len() != 8 {
                return None;
            }
            let mut vals: Vec<u16> = Vec::new();
            let mut k: usize = 0;
            while k < 8
                invariant
                    k <= 8,
                    gs@.len() == 8,
                    (spec_parse_ipv4(v@) matches None),
                    (find_double_colon(v@) matches None),
                    specgs == split_sep(v@, ':'),
                    specgs.len() == 8,
                    forall|i: int| 0 <= i < 8 ==> (#[trigger] gs@[i])@ == specgs[i],
                    vals@.len() == k,
                    forall|i: int| 0 <= i < k ==> v6_group_val(specgs[i]) == Some(
                        #[trigger] vals@[i],
                    ),
                decreases 8 - k,
            {
                match v6_group_exec(&gs[k]) {
                    Some(val) => {
                        vals.push(val);
                    },
                    None => {
                        proof {
                            assert(v6_group_val(specgs[k as int]).is_none());
                        }
                        return None;
                    },
                }
                k = k + 1;
            }
            proof {
                assert forall|i: int| 0 <= i < specgs.len() implies v6_group_val(
                    #[trigger] specgs[i],
                ).is_some() by {
                    assert(v6_group_val(specgs[i]) == Some(vals@[i]));
                }
                assert(v6_group_vals(specgs) =~= vals@);
            }
            Some(
                IpAddress::V6(
                    vals[0],
                    vals[1],
                    vals[2],
                    vals[3],
                    vals[4],
                    vals[5],
                    vals[6],
                    vals[7],
                ),
            )
        },
        Some(i) => {
            proof {
                assert(i + 1 < v@.len());
            }
            let ghost left = v@.take(i as int);
            let ghost right = v@.skip(i + 2);
            let n = v.len();
            let lvals_opt = parse_group_run(v, 0, i);
            let rvals_opt = parse_group_run(v, i + 2, n);
            let has_more = find_double_colon_exec(v, i + 2);
            proof {
                assert(v@.subrange(0, i as int) =~= left);
                assert(v@.subrange(i + 2, v@.len() as int) =~= right);
                assert(v@.skip(i + 2) =~= right);
            }
            match (lvals_opt, rvals_opt, has_more) {
                (Some(lvals), Some(rvals), None) => {
                    if lvals.len() <= 7 && rvals.len() <= 7 - lvals.len() {
                        let mut groups: Vec<u16> = Vec::new();
                        push_all_u16(&mut groups, &lvals);
                        let zeros = 8 - lvals.len() - rvals.len();
                        let mut k: usize = 0;
                        while k < zeros
                            invariant
                                k <= zeros,
                                groups@ =~= lvals@ + Seq::<u16>::new(k as nat, |q: int| 0u16),
                            decreases zeros - k,
                        {
                            groups.push(0u16);
                            proof {
                                assert(groups@ =~= lvals@ + Seq::<u16>::new(
                                    k as nat + 1,
                                    |q: int| 0u16,
                                ));
                            }
                            k = k + 1;
                        }
                        push_all_u16(&mut groups, &rvals);
                        proof {
                            let lgs: Seq<Seq<char>> = if left.len() == 0 {
                                seq![]
                            } else {
                                split_sep(left, ':')
                            };
                            let rgs: Seq<Seq<char>> = if right.len() == 0 {
                                seq![]
                            } else {
                                split_sep(right, ':')
                            };
                            let zs = Seq::<u16>::new(
                                (8 - lgs.len() - rgs.len()) as nat,
                                |q: int| 0u16,
                            );
                            assert(groups@ =~= v6_group_vals(lgs) + zs + v6_group_vals(rgs));
                            assert(groups@.len() == 8);
                        }
                        Some(
                            IpAddress::V6(
                                groups[0],
                                groups[1],
                                groups[2],
                                groups[3],
                                groups[4],
                                groups[5],
                                groups[6],
                                groups[7],
                            ),
                        )
                    } else {
                        None
                    }
                },
                _ => None,
            }
        },
    }
}

/// Appends all elements of `src` to `dst`.
pub fn push_all_u16(dst: &mut Vec<u16>, src: &Vec<u16>)
    ensures
        final(dst)@ == old(dst)@ + src@,
{
    let mut i: usize = 0;
    while i < src.len()
        invariant
            i <= src@.len(),
            dst@ =~= old(dst)@ + src@.take(i as int),
        decreases src@.len() - i,
    {
        dst.push(src[i]);
        i = i + 1;
    }
    proof {
        assert(src@.take(src@.len() as int) =~= src@);
    }
}

/// Parses the colon-separated group values of `v[from..to]`; an empty range
/// yields no groups.
fn parse_group_run(v: &Vec<char>, from: usize, to: usize) -> (r: Option<Vec<u16>>)
    requires
        from <= to <= v@.len(),
    ensures
        ({
            let s = v@.subrange(from as int, to as int);
            let gs: Seq<Seq<char>> = if s.len() == 0 {
                seq![]
            } else {
                split_sep(s, ':')
            };
            match r {
                Some(vals) => v6_groups_valid(gs) && vals@ == v6_group_vals(gs) && vals@.len()
                    == gs.len(),
                None => !v6_groups_valid(gs),
            }
        }),
{
    let ghost s = v@.subrange(from as int, to as int);
    if from == to {
        let empty: Vec<u16> = Vec::new();
        proof {
            assert(v6_group_vals(seq![]) =~= Seq::<u16>::empty());
            assert(empty@ =~= v6_group_vals(seq![]));
        }
        return Some(empty);
    }
    let piece = sub_chars(v, from, to);
    proof {
        assert(piece@.skip(0) =~= piece@);
    }
    let gs = split_sep_exec(&piece, 0, ':');
    let ghost specgs = split_sep(s, ':');
    let mut vals: Vec<u16> = Vec::new();
    let mut k: usize = 0;
    while k < gs.len()
        invariant
            k <= gs@.len(),
            from < to <= v@.len(),
            s == v@.subrange(from as int, to as int),
            specgs == split_sep(s, ':'),
            gs@.len() == specgs.len(),
            forall|i: int| 0 <= i < gs@.len() ==> (#[trigger] gs@[i])@ == specgs[i],
            vals@.len() == k,
            forall|i: int| 0 <= i < k ==> v6_group_val(specgs[i]) == Some(#[trigger] vals@[i]),
        decreases gs@.len() - k,
    {
        match v6_group_exec(&gs[k]) {
            Some(val) => {
                vals.push(val);
            },
            None => {
                proof {
                    assert(v6_group_val(specgs[k as int]).is_none());
                }
                return None;
            },
        }
        k = k + 1;
    }
    proof {
        assert forall|i: int| 0 <= i < specgs.len() implies v6_group_val(
            #[trigger] specgs[i],
        ).is_some() by {
            assert(v6_group_val(specgs[i]) == Some(vals@[i]));
        }
        assert(v6_group_vals(specgs) =~= vals@);
    }
    Some(vals)
}

/// Whether the text is a valid IP address, version 4 or 6.
pub fn is_valid_ip(ip: &str) -> (r: bool)
    ensures
        r == spec_parse_ip(ip@).is_some(),
{
    parse_ip(ip).is_some()
}

/// Powers of sixteen.
pub open spec fn pow16(k: nat) -> nat
    decreases k,
{
    if k == 0 {
        1
    } else {
        16 * pow16((k - 1) as nat)
    }
}

/// A number below `16^k` prints with at most `k` hex digits.
pub proof fn lemma_hex_chars_len(n: nat, k: nat)
    requires
        n < pow16(k),
        k >= 1,
    ensures
        hex_chars(n).len() <= k,
    decreases n,
{
    if n >= 16 {
        assert(pow16(k) == 16 * pow16((k - 1) as nat));
        assert(n / 16 < pow16((k - 1) as nat));
        lemma_hex_chars_len(n / 16, (k - 1) as nat);
    }
}

/// 16-bit values print with one to four hex digits.
pub proof fn lemma_hex_chars_len_u16(n: u16)
    ensures
        1 <= hex_chars(n as nat).len() <= 4,
    decreases n,
{
    assert(pow16(4) == 65536) by {
        assert(pow16(0) == 1);
        assert(pow16(1) == 16);
        assert(pow16(2) == 256);
        assert(pow16(3) == 4096);
    }
    lemma_hex_chars_len(n as nat, 4);
    if n >= 16 {
        lemma_hex_chars_len_u16(n / 16);
    }
}

/// Every character that `hex_chars` produces is a lowercase hex digit; in
/// particular none is a colon or a dot.
pub proof fn lemma_hex_chars_are_hex(n: nat)
    ensures
        forall|i: int| 0 <= i < hex_chars(n).len() ==> is_hex_digit_char(#[trigger] hex_chars(
            n,
        )[i]) && hex_chars(n)[i] != ':' && hex_chars(n)[i] != '.',
        hex_chars(n).len() >= 1,
    decreases n,
{
    if n < 16 {
        assert(is_hex_digit_char(char_of_hex_digit(n as int)));
        assert(char_of_hex_digit(n as int) != ':');
        assert(char_of_hex_digit(n as int) != '.');
    } else {
        lemma_hex_chars_are_hex(n / 16);
        let c = char_of_hex_digit((n % 16) as int);
        assert(is_hex_digit_char(c) && c != ':' && c != '.');
        assert(forall|i: int| 0 <= i < hex_chars(n).len() ==> hex_chars(n)[i]
            == if i < hex_chars(n / 16).len() {
                hex_chars(n / 16)[i]
            } else {
                c
            });
    }
}

/// Reading back the hex digits of `n` yields `n`.
pub proof fn lemma_val_of_hex_chars(n: nat)
    ensures
        val_of_hex_digits(hex_chars(n)) == n,
    decreases n,
{
    if n < 16 {
        let s = seq![char_of_hex_digit(n as int)];
        assert(hex_chars(n) == s);
        assert(s.drop_last() =~= Seq::<char>::empty());
        assert(val_of_hex_digits(s.drop_last()) == 0);
        assert(val_of_hex_digits(s) == val_of_hex_digits(s.drop_last()) * 16 + (hex_digit_val(
            s.last(),
        ) as nat));
        assert(hex_digit_val(char_of_hex_digit(n as int)) == n);
    } else {
        lemma_val_of_hex_chars(n / 16);
        let s = hex_chars(n);
        assert(s.drop_last() =~= hex_chars(n / 16));
        assert(s.last() == char_of_hex_digit((n % 16) as int));
        assert(hex_digit_val(char_of_hex_digit((n % 16) as int)) == n % 16);
        vstd::arithmetic::div_mod::lemma_fundamental_div_mod(n as int, 16);
    }
}

/// A positive number's decimal text does not start with a zero.
pub proof fn lemma_dec_chars_leading(n: nat)
    requires
        n >= 1,
    ensures
        dec_chars(n)[0] != '0',
    decreases n,
{
    if n < 10 {
        assert(char_of_digit(n as int) as int == 48 + n);
        assert('0' as int == 48);
    } else {
        lemma_dec_chars_leading(n / 10);
        assert(dec_chars(n)[0] == dec_chars(n / 10)[0]);
    }
}

/// The decimal text of an octet is a valid IPv4 group denoting it.
pub proof fn lemma_v4_group_of_dec(n: u8)
    ensures
        v4_group_val(dec_chars(n as nat)) == Some(n),
{
    let g = dec_chars(n as nat);
    crate::text::lemma_dec_chars_are_digits(n as nat);
    assert(pow10(3) == 1000) by {
        assert(pow10(0) == 1);
        assert(pow10(1) == 10);
        assert(pow10(2) == 100);
    }
    crate::text::lemma_dec_chars_len(n as nat, 3);
    crate::text::lemma_val_of_dec_chars(n as nat);
    if n >= 10 {
        lemma_dec_chars_leading(n as nat);
    }
}

/// The hex text of a group is a valid IPv6 group denoting it.
pub proof fn lemma_v6_group_of_hex(n: u16)
    ensures
        v6_group_val(hex_chars(n as nat)) == Some(n),
{
    lemma_hex_chars_len_u16(n);
    lemma_hex_chars_are_hex(n as nat);
    lemma_val_of_hex_chars(n as nat);
}

/// If a dotted-quad parse succeeds, every character of the text is a dot or
/// a decimal digit.
pub proof fn lemma_parse_ipv4_chars(s: Seq<char>)
    requires
        spec_parse_ipv4(s).is_some(),
    ensures
        forall|i: int| 0 <= i < s.len() ==> s[i] == '.' || is_digit_char(#[trigger] s[i]),
{
    let gs = split_sep(s, '.');
    assert forall|i: int| 0 <= i < s.len() implies s[i] == '.' || is_digit_char(
        #[trigger] s[i],
    ) by {
        if s[i] != '.' {
            lemma_split_sep_member(s, '.', i);
            let (j, t) = choose|j: int, t: int|
                0 <= j < split_sep(s, '.').len() && 0 <= t < split_sep(s, '.')[j].len()
                    && split_sep(s, '.')[j][t] == s[i];
            assert(v4_group_val(gs[j]).is_some());
        }
    }
}

/// Every non-separator character of a sequence appears in one of its split
/// pieces.
pub proof fn lemma_split_sep_member(s: Seq<char>, sep: char, i: int)
    requires
        0 <= i < s.len(),
        s[i] != sep,
    ensures
        exists|j: int, t: int|
            0 <= j < split_sep(s, sep).len() && 0 <= t < split_sep(s, sep)[j].len() && split_sep(
                s,
                sep,
            )[j][t] == s[i],
    decreases s.len(),
{
    let k = sep_free_prefix_len(s, sep);
    lemma_sep_free_prefix_len_bounds(s, sep);
    if k >= s.len() {
        assert(split_sep(s, sep)[0][i] == s[i]);
    } else if i < k {
        assert(split_sep(s, sep)[0][i] == s[i]);
    } else {
        assert(i != k);
        let s2 = s.skip(k as int + 1);
        assert(s2[i - k - 1] == s[i]);
        lemma_split_sep_member(s2, sep, i - k - 1);
        let (j, t) = choose|j: int, t: int|
            0 <= j < split_sep(s2, sep).len() && 0 <= t < split_sep(s2, sep)[j].len() && split_sep(
                s2,
                sep,
            )[j][t] == s2[i - k - 1];
        assert(split_sep(s, sep)[j + 1][t] == s[i]);
    }
}

/// A colon-free sequence holds no `::`.
pub proof fn lemma_find_dc_none_nocolon(g: Seq<char>)
    requires
        forall|i: int| 0 <= i < g.len() ==> #[trigger] g[i] != ':',
    ensures
        (find_double_colon(g) matches None),
    decreases g.len(),
{
    if g.len() >= 2 {
        assert(forall|i: int| 0 <= i < g.skip(1).len() ==> #[trigger] g.skip(1)[i] == g[i + 1]);
        lemma_find_dc_none_nocolon(g.skip(1));
    }
}

/// Prepending a nonempty colon-free group and one colon to a `::`-free tail
/// that does not start with a colon keeps the text `::`-free.
pub proof fn lemma_find_dc_none_join(g: Seq<char>, rest: Seq<char>)
    requires
        g.len() >= 1,
        forall|i: int| 0 <= i < g.len() ==> #[trigger] g[i] != ':',
        rest.len() >= 1,
        rest[0] != ':',
        (find_double_colon(rest) matches None),
    ensures
        (find_double_colon(g + seq![':'] + rest) matches None),
    decreases g.len(),
{
    let s = g + seq![':'] + rest;
    if g.len() == 1 {
        assert(s[0] == g[0] && s[0] != ':');
        let s1 = s.skip(1);
        assert(s1 =~= seq![':'] + rest);
        assert(s1[0] == ':' && s1[1] == rest[0] && s1[1] != ':');
        assert(s1.skip(1) =~= rest);
        assert((find_double_colon(s1) matches None));
    } else {
        assert(s[0] == g[0] && s[0] != ':');
        lemma_find_dc_none_join(g.skip(1), rest);
        assert(s.skip(1) =~= g.skip(1) + seq![':'] + rest);
    }
}

/// Printing an IPv4 address and parsing the text yields it back.
proof fn lemma_ipv4_text_round_trip(a: u8, b: u8, c: u8, d: u8)
    ensures
        spec_parse_ipv4(ipv4_chars(a, b, c, d)) == Some(IpAddress::V4(a, b, c, d)),
{
    let ga = dec_chars(a as nat);
    let gb = dec_chars(b as nat);
    let gc = dec_chars(c as nat);
    let gd = dec_chars(d as nat);
    lemma_v4_group_of_dec(a);
    lemma_v4_group_of_dec(b);
    lemma_v4_group_of_dec(c);
    lemma_v4_group_of_dec(d);
    crate::text::lemma_dec_chars_are_digits(a as nat);
    crate::text::lemma_dec_chars_are_digits(b as nat);
    crate::text::lemma_dec_chars_are_digits(c as nat);
    crate::text::lemma_dec_chars_are_digits(d as nat);
    let s = ipv4_chars(a, b, c, d);
    let rest2 = gc + seq!['.'] + gd;
    let rest1 = gb + seq!['.'] + rest2;
    assert(s =~= ga + seq!['.'] + rest1);
    lemma_split_sep_join(ga, '.', rest1);
    lemma_split_sep_join(gb, '.', rest2);
    lemma_split_sep_join(gc, '.', gd);
    lemma_split_sep_single(gd, '.');
    assert(split_sep(s, '.') =~= seq![ga, gb, gc, gd]);
}

/// One step of peeling a hex group off the front of an IPv6 text.
#[verifier::spinoff_prover]
proof fn lemma_v6_chain(g: u16, rest: Seq<char>)
    requires
        rest.len() >= 1,
        rest[0] != ':',
        (find_double_colon(rest) matches None),
    ensures
        (find_double_colon(hex_chars(g as nat) + seq![':'] + rest) matches None),
        split_sep(hex_chars(g as nat) + seq![':'] + rest, ':') == seq![hex_chars(g as nat)]
            + split_sep(rest, ':'),
        (hex_chars(g as nat) + seq![':'] + rest).len() >= 1,
        (hex_chars(g as nat) + seq![':'] + rest)[0] != ':',
{
    let h = hex_chars(g as nat);
    lemma_hex_chars_are_hex(g as nat);
    lemma_find_dc_none_join(h, rest);
    lemma_split_sep_join(h, ':', rest);
}

/// The eight hex groups of an IPv6 text split back into those groups, and
/// the text holds no `::`.
#[verifier::rlimit(100)]
#[verifier::spinoff_prover]
proof fn lemma_ipv6_text_round_trip(
    g0: u16,
    g1: u16,
    g2: u16,
    g3: u16,
    g4: u16,
    g5: u16,
    g6: u16,
    g7: u16,
)
    ensures
        spec_parse_ipv6(ipv6_chars(g0, g1, g2, g3, g4, g5, g6, g7)) == Some(
            IpAddress::V6(g0, g1, g2, g3, g4, g5, g6, g7),
        ),
        ipv6_chars(g0, g1, g2, g3, g4, g5, g6, g7)[hex_chars(g0 as nat).len() as int] == ':',
{
    let h0 = hex_chars(g0 as nat);
    let h1 = hex_chars(g1 as nat);
    let h2 = hex_chars(g2 as nat);
    let h3 = hex_chars(g3 as nat);
    let h4 = hex_chars(g4 as nat);
    let h5 = hex_chars(g5 as nat);
    let h6 = hex_chars(g6 as nat);
    let h7 = hex_chars(g7 as nat);
    let s7 = h7;
    let s6 = h6 + seq![':'] + s7;
    let s5 = h5 + seq![':'] + s6;
    let s4 = h4 + seq![':'] + s5;
    let s3 = h3 + seq![':'] + s4;
    let s2 = h2 + seq![':'] + s3;
    let s1 = h1 + seq![':'] + s2;
    let s0 = h0 + seq![':'] + s1;
    lemma_hex_chars_are_hex(g7 as nat);
    lemma_find_dc_none_nocolon(h7);
    lemma_split_sep_single(h7, ':');
    lemma_v6_chain(g6, s7);
    lemma_v6_chain(g5, s6);
    lemma_v6_chain(g4, s5);
    lemma_v6_chain(g3, s4);
    lemma_v6_chain(g2, s3);
    lemma_v6_chain(g1, s2);
    lemma_v6_chain(g0, s1);
    let s = ipv6_chars(g0, g1, g2, g3, g4, g5, g6, g7);
    assert(s =~= s0);
    let gs = seq![h0, h1, h2, h3, h4, h5, h6, h7];
    assert(split_sep(s0, ':') =~= gs);
    lemma_v6_group_of_hex(g0);
    lemma_v6_group_of_hex(g1);
    lemma_v6_group_of_hex(g2);
    lemma_v6_group_of_hex(g3);
    lemma_v6_group_of_hex(g4);
    lemma_v6_group_of_hex(g5);
    lemma_v6_group_of_hex(g6);
    lemma_v6_group_of_hex(g7);
    assert(v6_groups_valid(gs)) by {
        assert(gs[0] == h0 && gs[1] == h1 && gs[2] == h2 && gs[3] == h3 && gs[4] == h4 && gs[5]
            == h5 && gs[6] == h6 && gs[7] == h7);
    }
    assert(v6_group_vals(gs) =~= seq![g0, g1, g2, g3, g4, g5, g6, g7]);
    lemma_hex_chars_are_hex(g0 as nat);
    assert(s0[h0.len() as int] == ':');
}

/// Printing an address and parsing the text yields the address back.
#[verifier::spinoff_prover]
pub proof fn lemma_ip_text_round_trip(ip: IpAddress)
    ensures
        spec_parse_ip(ip_chars(ip)) == Some(ip),
{
    match ip {
        IpAddress::V4(a, b, c, d) => {
            lemma_ipv4_text_round_trip(a, b, c, d);
        },
        IpAddress::V6(g0, g1, g2, g3, g4, g5, g6, g7) => {
            lemma_ipv6_text_round_trip(g0, g1, g2, g3, g4, g5, g6, g7);
            let s = ip_chars(ip);
            if spec_parse_ipv4(s).is_some() {
                lemma_parse_ipv4_chars(s);
                assert(s[hex_chars(g0 as nat).len() as int] == ':');
                assert(false);
            }
        },
    }
}

} // verus!
