//! Input parsing: autonomous-system numbers, word lists, reverse-lookup
//! names. The file and stream readers that feed these live outside the
//! library and hand in plain text.

use vstd::prelude::*;
use crate::error::DnsxError;
use crate::ip::IpAddress;
use crate::text::{
    chars_of_str, dec_chars, is_digit_char, is_digit, spec_trim, string_from_chars, push_all,
    trim_range, u64_to_dec, val_of_digits, char_of_hex_digit,
};

verus! {

/// A source of input domains.
pub enum InputSource {
    /// The standard input stream.
    Stdin,
    /// A file, by path.
    File(String),
    /// Domains given directly.
    Args(Vec<String>),
}

/// The digit part of an ASN text: trimmed, with an optional `AS` or `as`
/// prefix removed.
pub open spec fn asn_digits(s: Seq<char>) -> Seq<char> {
    if spec_trim(s).len() >= 2 && (spec_trim(s)[0] == 'A' || spec_trim(s)[0] == 'a') && (spec_trim(
        s,
    )[1] == 'S' || spec_trim(s)[1] == 's') {
        spec_trim(s).skip(2)
    } else {
        spec_trim(s)
    }
}

/// What an ASN text denotes: the number after trimming and after an
/// optional `AS` or `as` prefix; the value must fit 32 bits.
pub open spec fn spec_parse_asn(s: Seq<char>) -> Option<u32> {
    if asn_digits(s).len() >= 1 && (forall|i: int|
        0 <= i < asn_digits(s).len() ==> is_digit_char(#[trigger] asn_digits(s)[i]))
        && val_of_digits(asn_digits(s)) <= u32::MAX {
        Some(val_of_digits(asn_digits(s)) as u32)
    } else {
        None
    }
}

/// Parses an autonomous-system number, `AS<digits>` or bare `<digits>`,
/// case-insensitively and ignoring surrounding whitespace. A malformed
/// number is rejected with an `InvalidInput` error.
pub fn parse_asn(asn_str: &str) -> (r: Result<u32, DnsxError>)
    ensures
        match r {
            Ok(n) => spec_parse_asn(asn_str@) == Some(n),
            Err(e) => (spec_parse_asn(asn_str@) matches None) && (e matches
                DnsxError::InvalidInput(_)),
        },
{
    let v = chars_of_str(asn_str);
    let t = trim_range(&v, 0, v.len());
    proof {
        assert(v@.subrange(0, v@.len() as int) =~= v@);
    }
    let start: usize = if t.len() >= 2 && (t[0] == 'A' || t[0] == 'a') && (t[1] == 'S' || t[1]
        == 's') {
        2
    } else {
        0
    };
    let ghost digits = if start == 2 {
        t@.skip(2)
    } else {
        t@
    };
    let n = t.len();
    if n - start < 1 {
        return Err(DnsxError::InvalidInput(String::from_str("ASN has no digits")));
    }
    let ghost prefixed = t@.len() >= 2 && (t@[0] == 'A' || t@[0] == 'a') && (t@[1] == 'S' || t@[1]
        == 's');
    let mut i = start;
    while i < n
        invariant
            start <= i <= n,
            n == t@.len(),
            t@ == spec_trim(asn_str@),
            digits == t@.skip(start as int),
            start == 0 || start == 2,
            prefixed == (t@.len() >= 2 && (t@[0] == 'A' || t@[0] == 'a') && (t@[1] == 'S' || t@[1]
                == 's')),
            (start == 2) == prefixed,
            1 <= n - start,
            forall|q: int| start <= q < i ==> is_digit_char(#[trigger] t@[q]),
        decreases n - i,
    {
        if !is_digit(t[i]) {
            proof {
                assert(digits[i - start] == t@[i as int]);
                assert(!is_digit_char(digits[i - start]));
                assert(!(forall|q: int|
                    0 <= q < digits.len() ==> is_digit_char(#[trigger] digits[q])));
                assert(spec_trim(asn_str@) == t@);
                assert(asn_digits(asn_str@) == digits);
                assert(!is_digit_char(asn_digits(asn_str@)[i - start]));
                assert(spec_parse_asn(asn_str@) is None);
            }
            return Err(DnsxError::InvalidInput(String::from_str("ASN is not a number")));
        }
        i = i + 1;
    }
    proof {
        assert(forall|q: int| 0 <= q < digits.len() ==> is_digit_char(#[trigger] digits[q])) by {
            assert(forall|q: int| 0 <= q < digits.len() ==> digits[q] == t@[q + start]);
        }
    }
    let mut val: u64 = 0;
    let mut k = start;
    proof {
        assert(t@.subrange(start as int, start as int) =~= Seq::<char>::empty());
    }
    while k < n
        invariant
            start <= k <= n,
            n == t@.len(),
            t@ == spec_trim(asn_str@),
            start == 0 || start == 2,
            prefixed == (t@.len() >= 2 && (t@[0] == 'A' || t@[0] == 'a') && (t@[1] == 'S' || t@[1]
                == 's')),
            (start == 2) == prefixed,
            1 <= n - start,
            digits == t@.skip(start as int),
            forall|q: int| start <= q < n ==> is_digit_char(#[trigger] t@[q]),
            val == val_of_digits(t@.subrange(start as int, k as int)),
            val <= u32::MAX,
        decreases n - k,
    {
        let c = t[k];
        proof {
            assert(t@.subrange(start as int, k as int + 1).drop_last() =~= t@.subrange(
                start as int,
                k as int,
            ));
            assert(t@.subrange(start as int, k as int + 1).last() == t@[k as int]);
        }
        let next = val * 10 + ((c as u32 - 48) as u64);
        if next > 0xffff_ffff {
            proof {
                assert(forall|q: int| 0 <= q < digits.len() ==> is_digit_char(
                    #[trigger] digits[q],
                )) by {
                    assert(forall|q: int| 0 <= q < digits.len() ==> digits[q] == t@[q + start]);
                }
                assert(digits.take(k as int + 1 - start) =~= t@.subrange(
                    start as int,
                    k as int + 1,
                ));
                crate::utils::lemma_val_prefix_le(digits, k as int + 1 - start);
                assert(val_of_digits(digits) > u32::MAX);
                assert(asn_digits(asn_str@) == digits);
                assert(spec_parse_asn(asn_str@) is None);
            }
            return Err(DnsxError::InvalidInput(String::from_str("ASN does not fit 32 bits")));
        }
        val = next;
        k = k + 1;
    }
    proof {
        assert(t@.subrange(start as int, n as int) =~= digits);
        assert(forall|q: int| 0 <= q < digits.len() ==> is_digit_char(#[trigger] digits[q])) by {
            assert(forall|q: int| 0 <= q < digits.len() ==> digits[q] == t@[q + start]);
        }
        assert(digits.len() >= 1);
        assert(val == val_of_digits(digits));
        assert(spec_trim(asn_str@) == t@);
        assert(asn_digits(asn_str@) == digits);
        assert(forall|q: int| 0 <= q < asn_digits(asn_str@).len() ==> is_digit_char(
            #[trigger] asn_digits(asn_str@)[q],
        ));
        assert(spec_parse_asn(asn_str@) == Some(val as u32));
    }
    Ok(val as u32)
}


/// The reverse-lookup name of an IPv4 address:
/// `<d>.<c>.<b>.<a>.in-addr.arpa`.
pub open spec fn spec_reverse_v4(a: u8, b: u8, c: u8, d: u8) -> Seq<char> {
    dec_chars(d as nat) + seq!['.'] + dec_chars(c as nat) + seq!['.'] + dec_chars(b as nat)
        + seq!['.'] + dec_chars(a as nat) + ".in-addr.arpa"@
}

/// One group's nibbles in reverse-lookup order: least significant first,
/// each dot terminated.
pub open spec fn group_nibbles(g: u16) -> Seq<char> {
    seq![
        char_of_hex_digit(g as int % 16),
        '.',
        char_of_hex_digit(g as int / 16 % 16),
        '.',
        char_of_hex_digit(g as int / 256 % 16),
        '.',
        char_of_hex_digit(g as int / 4096 % 16),
        '.',
    ]
}

/// The reverse-lookup name of an IPv6 address: all 32 nibbles in reverse
/// order, dot separated, under `ip6.arpa`.
pub open spec fn spec_reverse_v6(
    g0: u16,
    g1: u16,
    g2: u16,
    g3: u16,
    g4: u16,
    g5: u16,
    g6: u16,
    g7: u16,
) -> Seq<char> {
    group_nibbles(g7) + group_nibbles(g6) + group_nibbles(g5) + group_nibbles(g4) + group_nibbles(
        g3,
    ) + group_nibbles(g2) + group_nibbles(g1) + group_nibbles(g0) + "ip6.arpa"@
}

/// The reverse-lookup name of an address (PTR query name).
pub fn reverse_ip(ip: &IpAddress) -> (r: String)
    ensures
        (*ip) matches IpAddress::V4(a, b, c, d) ==> r@ == spec_reverse_v4(a, b, c, d),
        (*ip) matches IpAddress::V6(g0, g1, g2, g3, g4, g5, g6, g7) ==> r@ == spec_reverse_v6(
            g0,
            g1,
            g2,
            g3,
            g4,
            g5,
            g6,
            g7,
        ),
{
    match ip {
        IpAddress::V4(a, b, c, d) => {
            let mut v = u64_to_dec(*d as u64);
            v.push('.');
            let oc = u64_to_dec(*c as u64);
            push_all(&mut v, &oc);
            v.push('.');
            let ob = u64_to_dec(*b as u64);
            push_all(&mut v, &ob);
            v.push('.');
            let oa = u64_to_dec(*a as u64);
            push_all(&mut v, &oa);
            let suffix = chars_of_str(".in-addr.arpa");
            push_all(&mut v, &suffix);
            proof {
                assert(v@ =~= spec_reverse_v4(*a, *b, *c, *d));
            }
            string_from_chars(&v)
        },
        IpAddress::V6(g0, g1, g2, g3, g4, g5, g6, g7) => {
            let mut v: Vec<char> = Vec::new();
            push_group(&mut v, *g7);
            push_group(&mut v, *g6);
            push_group(&mut v, *g5);
            push_group(&mut v, *g4);
            push_group(&mut v, *g3);
            push_group(&mut v, *g2);
            push_group(&mut v, *g1);
            push_group(&mut v, *g0);
            let suffix = chars_of_str("ip6.arpa");
            push_all(&mut v, &suffix);
            proof {
                assert(v@ =~= spec_reverse_v6(*g0, *g1, *g2, *g3, *g4, *g5, *g6, *g7));
            }
            string_from_chars(&v)
        },
    }
}

/// Appends one group's four nibbles, least significant first, each dot
/// terminated.
fn push_group(v: &mut Vec<char>, g: u16)
    ensures
        final(v)@ == old(v)@ + group_nibbles(g),
{
    push_nibble(v, (g % 16) as u8);
    v.push('.');
    push_nibble(v, ((g / 16) % 16) as u8);
    v.push('.');
    push_nibble(v, ((g / 256) % 16) as u8);
    v.push('.');
    push_nibble(v, ((g / 4096) % 16) as u8);
    v.push('.');
    proof {
        assert(v@ =~= old(v)@ + group_nibbles(g));
    }
}

/// Appends the lowercase hex digit of a nibble.
fn push_nibble(v: &mut Vec<char>, n: u8)
    requires
        n < 16,
    ensures
        final(v)@ == old(v)@ + seq![char_of_hex_digit(n as int)],
{
    if n < 10 {
        v.push((48 + n) as char);
    } else {
        v.push((97 + (n - 10)) as char);
    }
    proof {
        assert(v@ =~= old(v)@ + seq![char_of_hex_digit(n as int)]);
    }
}

/// The words of a comma-separated list: each comma piece trimmed, the
/// empty ones dropped, in order.
pub open spec fn spec_word_list(gs: Seq<Seq<char>>, idx: int) -> Seq<Seq<char>>
    decreases gs.len() - idx,
{
    if idx < 0 || idx >= gs.len() {
        Seq::empty()
    } else {
        (if spec_trim(gs[idx]).len() > 0 {
            seq![spec_trim(gs[idx])]
        } else {
            Seq::empty()
        }) + spec_word_list(gs, idx + 1)
    }
}

/// Splits a comma-separated word list into its trimmed, non-empty words, in
/// order.
pub fn parse_word_list(source: &str) -> (r: Vec<String>)
    ensures
        r@.len() == spec_word_list(crate::ip::split_sep(source@, ','), 0).len(),
        forall|i: int|
            0 <= i < r@.len() ==> (#[trigger] r@[i])@ == spec_word_list(
                crate::ip::split_sep(source@, ','),
                0,
            )[i],
{
    let v = chars_of_str(source);
    proof {
        assert(v@.skip(0) =~= v@);
    }
    let groups = crate::ip::split_sep_exec(&v, 0, ',');
    let ghost gs = crate::ip::split_sep(source@, ',');
    let mut out: Vec<String> = Vec::new();
    let mut i: usize = 0;
    proof {
        assert(out@.map_values(|w: String| w@) + spec_word_list(gs, 0) =~= spec_word_list(gs, 0));
    }
    while i < groups.len()
        invariant
            i <= groups@.len(),
            gs == crate::ip::split_sep(source@, ','),
            groups@.len() == gs.len(),
            forall|j: int| 0 <= j < gs.len() ==> (#[trigger] groups@[j])@ == gs[j],
            out@.map_values(|w: String| w@) + spec_word_list(gs, i as int) == spec_word_list(
                gs,
                0,
            ),
        decreases groups@.len() - i,
    {
        let g = &groups[i];
        let t = trim_range(g, 0, g.len());
        proof {
            assert(g@.subrange(0, g@.len() as int) =~= g@);
        }
        let ghost pre = out@.map_values(|w: String| w@);
        if t.len() > 0 {
            out.push(string_from_chars(&t));
            proof {
                assert(out@.map_values(|w: String| w@) =~= pre + seq![spec_trim(gs[i as int])]);
            }
        }
        proof {
            assert(out@.map_values(|w: String| w@) + spec_word_list(gs, i as int + 1) =~= pre
                + spec_word_list(gs, i as int));
        }
        i = i + 1;
    }
    proof {
        assert(spec_word_list(gs, groups@.len() as int) =~= Seq::<Seq<char>>::empty());
        assert(out@.map_values(|w: String| w@) + spec_word_list(gs, groups@.len() as int)
            =~= out@.map_values(|w: String| w@));
    }
    out
}

} // verus!
