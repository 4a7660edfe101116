//! JSON encoding and decoding of DNS records.
//!
//! The encoder emits one JSON object per record, fields in a fixed order;
//! the decoder parses exactly that shape. Both sides are verified against
//! the same specification functions, and decoding inverts encoding.

use vstd::prelude::*;
use crate::text::{
    char_of_hex_digit, dec_chars, digit_val, digits_prefix_len, is_digit_char, val_of_digits,
    lemma_dec_chars_are_digits, lemma_dec_chars_len_u64, lemma_digits_prefix_len_exact,
    lemma_val_of_dec_chars, u64_to_dec, push_all,
};
use crate::ip::{hex_chars, val_of_hex_digits, is_hex_digit, sub_chars};
use crate::text::is_digit;

verus! {


/// A character below 32 survives the cast to one byte and back.
proof fn lemma_small_char_code(c: char)
    requires
        (c as u32) < 32,
    ensures
        (((c as u32) as u8) as char) == c,
{
}

/// A character's code is the same through either integer cast.
proof fn lemma_char_code(c: char)
    ensures
        c as int == c as u32 as int,
{
}

/// The escaped form of one character inside a JSON string: quotes and
/// backslashes get a backslash, control characters become `\u00XX`.
pub open spec fn esc_char(c: char) -> Seq<char> {
    if c == '"' {
        seq!['\\', '"']
    } else if c == '\\' {
        seq!['\\', '\\']
    } else if 0 <= c as int && (c as int) < 32 {
        seq!['\\', 'u', '0', '0', char_of_hex_digit(c as int / 16), char_of_hex_digit(c as int % 16)]
    } else {
        seq![c]
    }
}

/// The escaped form of a text.
pub open spec fn esc(s: Seq<char>) -> Seq<char>
    decreases s.len(),
{
    if s.len() == 0 {
        Seq::empty()
    } else {
        esc_char(s[0]) + esc(s.skip(1))
    }
}

/// A JSON string token: quote, escaped content, quote.
pub open spec fn enc_str(s: Seq<char>) -> Seq<char> {
    seq!['"'] + esc(s) + seq!['"']
}

/// Scans the content of a JSON string after the opening quote: the decoded
/// text and the input consumed, closing quote included.
pub open spec fn scan_string(s: Seq<char>) -> Option<(Seq<char>, int)>
    decreases s.len(),
{
    if s.len() == 0 {
        None
    } else if s[0] == '"' {
        Some((Seq::empty(), 1))
    } else if s[0] == '\\' {
        if s.len() >= 2 && s[1] == '"' {
            match scan_string(s.skip(2)) {
                Some((content, used)) => Some((seq!['"'] + content, 2 + used)),
                None => None,
            }
        } else if s.len() >= 2 && s[1] == '\\' {
            match scan_string(s.skip(2)) {
                Some((content, used)) => Some((seq!['\\'] + content, 2 + used)),
                None => None,
            }
        } else if s.len() >= 6 && s[1] == 'u' && s[2] == '0' && s[3] == '0'
            && crate::text::is_hex_digit_char(s[4]) && crate::text::is_hex_digit_char(s[5]) {
            match scan_string(s.skip(6)) {
                Some((content, used)) => Some(
                    (
                        seq![
                            (((crate::text::hex_digit_val(s[4]) * 16 + crate::text::hex_digit_val(
                                s[5],
                            )) as u8) as char)
                        ] + content,
                        6 + used,
                    ),
                ),
                None => None,
            }
        } else {
            None
        }
    } else {
        match scan_string(s.skip(1)) {
            Some((content, used)) => Some((seq![s[0]] + content, 1 + used)),
            None => None,
        }
    }
}


/// A hex digit character reads back its value and is neither quote nor
/// backslash.
pub proof fn lemma_hex_digit_char(d: int)
    requires
        0 <= d < 16,
    ensures
        crate::text::is_hex_digit_char(char_of_hex_digit(d)),
        crate::text::hex_digit_val(char_of_hex_digit(d)) == d,
        char_of_hex_digit(d) != '"',
        char_of_hex_digit(d) != '\\',
{
    if d < 10 {
        assert(char_of_hex_digit(d) as int == 48 + d);
    } else {
        assert(char_of_hex_digit(d) as int == 97 + (d - 10));
    }
}

/// Scanning the escaped content plus closing quote recovers the text and
/// consumes exactly through the quote.
pub proof fn lemma_scan_escaped(content: Seq<char>, rest: Seq<char>)
    ensures
        scan_string(esc(content) + seq!['"'] + rest) == Some(
            (content, esc(content).len() + 1 as int),
        ),
    decreases content.len(),
{
    let s = esc(content) + seq!['"'] + rest;
    if content.len() == 0 {
        assert(esc(content) =~= Seq::<char>::empty());
        assert(s[0] == '"');
        assert(scan_string(s) == Some((Seq::<char>::empty(), 1int)));
        assert(content =~= Seq::<char>::empty());
    } else {
        let c = content[0];
        let tail = content.skip(1);
        lemma_scan_escaped(tail, rest);
        let inner = esc(tail) + seq!['"'] + rest;
        assert(esc(content) == esc_char(c) + esc(tail));
        if c == '"' {
            assert(s =~= seq!['\\', '"'] + inner);
            assert(s[0] == '\\' && s[1] == '"');
            assert(s.skip(2) =~= inner);
            assert(seq!['"'] + tail =~= content);
        } else if c == '\\' {
            assert(s =~= seq!['\\', '\\'] + inner);
            assert(s[0] == '\\' && s[1] == '\\');
            assert(s.skip(2) =~= inner);
            assert(seq!['\\'] + tail =~= content);
        } else if 0 <= c as int && (c as int) < 32 {
            let h1 = char_of_hex_digit(c as int / 16);
            let h2 = char_of_hex_digit(c as int % 16);
            lemma_hex_digit_char(c as int / 16);
            lemma_hex_digit_char(c as int % 16);
            assert(s =~= seq!['\\', 'u', '0', '0', h1, h2] + inner);
            assert(s[0] == '\\' && s[1] == 'u' && s[2] == '0' && s[3] == '0');
            assert(s[4] == h1 && s[5] == h2);
            assert(crate::text::is_hex_digit_char(h1) && crate::text::hex_digit_val(h1) == c as int
                / 16);
            assert(crate::text::is_hex_digit_char(h2) && crate::text::hex_digit_val(h2) == c as int
                % 16);
            assert(s.skip(6) =~= inner);
            assert((c as int / 16) * 16 + c as int % 16 == c as int) by (nonlinear_arith);
            assert((((c as int / 16) * 16 + c as int % 16) as u8) as char == c);
            assert(seq![c] + tail =~= content);
        } else {
            assert(s =~= seq![c] + inner);
            assert(s[0] == c && c != '"' && c != '\\');
            assert(s.skip(1) =~= inner);
            assert(seq![c] + tail =~= content);
        }
    }
}

/// A JSON number token for an unsigned value: its decimal digits; what the
/// number scanner reads back.
pub open spec fn scan_u64(s: Seq<char>) -> Option<(u64, int)> {
    let k = digits_prefix_len(s);
    if 1 <= k <= 20 && val_of_digits(s.take(k)) <= u64::MAX {
        Some((val_of_digits(s.take(k)) as u64, k))
    } else {
        None
    }
}

/// Reading the digits of `n` back yields `n`, when what follows is not a
/// digit.
pub proof fn lemma_scan_u64(n: u64, rest: Seq<char>)
    requires
        rest.len() == 0 || !is_digit_char(rest[0]),
    ensures
        scan_u64(dec_chars(n as nat) + rest) == Some((n, dec_chars(n as nat).len() as int)),
{
    let d = dec_chars(n as nat);
    let s = d + rest;
    lemma_dec_chars_are_digits(n as nat);
    lemma_dec_chars_len_u64(n);
    lemma_val_of_dec_chars(n as nat);
    assert(forall|i: int| 0 <= i < d.len() ==> is_digit_char(#[trigger] s[i]));
    if d.len() < s.len() {
        assert(s[d.len() as int] == rest[0]);
    }
    lemma_digits_prefix_len_exact(s, d.len() as int);
    assert(s.take(d.len() as int) =~= d);
}

/// A signed 32-bit number token: a minus sign for negative values, then the
/// decimal digits of the magnitude.
pub open spec fn enc_i32(n: int) -> Seq<char> {
    if n < 0 {
        seq!['-'] + dec_chars((-n) as nat)
    } else {
        dec_chars(n as nat)
    }
}

/// What the signed scanner reads.
pub open spec fn scan_i32(s: Seq<char>) -> Option<(i32, int)> {
    if s.len() >= 1 && s[0] == '-' {
        match scan_u64(s.skip(1)) {
            Some((mag, used)) => if mag <= 0x8000_0000u64 {
                Some(((-(mag as int)) as i32, 1 + used))
            } else {
                None
            },
            None => None,
        }
    } else {
        match scan_u64(s) {
            Some((mag, used)) => if mag <= 0x7fff_ffffu64 {
                Some((mag as i32, used))
            } else {
                None
            },
            None => None,
        }
    }
}

/// Reading a signed number's text back yields the number.
pub proof fn lemma_scan_i32(n: i32, rest: Seq<char>)
    requires
        rest.len() == 0 || !is_digit_char(rest[0]),
    ensures
        scan_i32(enc_i32(n as int) + rest) == Some((n, enc_i32(n as int).len() as int)),
{
    if n < 0 {
        let mag = (-(n as int)) as u64;
        let d = dec_chars(mag as nat);
        let s = enc_i32(n as int) + rest;
        assert(s[0] == '-');
        assert(s.skip(1) =~= d + rest);
        lemma_scan_u64(mag, rest);
        lemma_dec_chars_are_digits(mag as nat);
        assert(d[0] != '-') by {
            assert(is_digit_char(d[0]));
        }
    } else {
        let s = enc_i32(n as int) + rest;
        lemma_scan_u64(n as u64, rest);
        lemma_dec_chars_are_digits(n as nat);
        assert(s[0] != '-') by {
            assert(s[0] == dec_chars(n as nat)[0]);
            assert(is_digit_char(dec_chars(n as nat)[0]));
        }
    }
}

/// Lowercase hex text of bytes, two digits each.
pub open spec fn bytes_hex(b: Seq<u8>) -> Seq<char>
    decreases b.len(),
{
    if b.len() == 0 {
        Seq::empty()
    } else {
        seq![char_of_hex_digit(b[0] as int / 16), char_of_hex_digit(b[0] as int % 16)] + bytes_hex(
            b.skip(1),
        )
    }
}

/// A byte-string token: the hex text in quotes.
pub open spec fn enc_bytes(b: Seq<u8>) -> Seq<char> {
    seq!['"'] + bytes_hex(b) + seq!['"']
}

/// What the byte scanner reads after the opening quote: pairs of hex digits
/// until the closing quote.
pub open spec fn scan_bytes(s: Seq<char>) -> Option<(Seq<u8>, int)>
    decreases s.len(),
{
    if s.len() == 0 {
        None
    } else if s[0] == '"' {
        Some((Seq::empty(), 1))
    } else if s.len() >= 2 && crate::text::is_hex_digit_char(s[0]) && crate::text::is_hex_digit_char(
        s[1],
    ) {
        match scan_bytes(s.skip(2)) {
            Some((bytes, used)) => Some(
                (
                    seq![
                        ((crate::text::hex_digit_val(s[0]) * 16 + crate::text::hex_digit_val(
                            s[1],
                        )) as u8)
                    ] + bytes,
                    2 + used,
                ),
            ),
            None => None,
        }
    } else {
        None
    }
}

/// Scanning the hex text plus closing quote recovers the bytes.
pub proof fn lemma_scan_bytes(b: Seq<u8>, rest: Seq<char>)
    ensures
        scan_bytes(bytes_hex(b) + seq!['"'] + rest) == Some((b, bytes_hex(b).len() + 1 as int)),
    decreases b.len(),
{
    let s = bytes_hex(b) + seq!['"'] + rest;
    if b.len() == 0 {
        assert(bytes_hex(b) =~= Seq::<char>::empty());
        assert(s[0] == '"');
        assert(b =~= Seq::<u8>::empty());
    } else {
        let x = b[0];
        let tail = b.skip(1);
        lemma_scan_bytes(tail, rest);
        let inner = bytes_hex(tail) + seq!['"'] + rest;
        let h1 = char_of_hex_digit(x as int / 16);
        let h2 = char_of_hex_digit(x as int % 16);
        lemma_hex_digit_char(x as int / 16);
        lemma_hex_digit_char(x as int % 16);
        assert(s =~= seq![h1, h2] + inner);
        assert(s[0] == h1 && s[1] == h2);
        assert(crate::text::is_hex_digit_char(h1) && crate::text::hex_digit_val(h1) == x as int
            / 16);
        assert(crate::text::is_hex_digit_char(h2) && crate::text::hex_digit_val(h2) == x as int
            % 16);
        assert(h1 != '"' && h2 != '"');
        assert(s.skip(2) =~= inner);
        assert((x as int / 16) * 16 + x as int % 16 == x as int) by (nonlinear_arith);
        assert(seq![x] + tail =~= b);
    }
}

/// String items of a JSON array, comma separated.
pub open spec fn enc_items(ps: Seq<Seq<char>>) -> Seq<char>
    decreases ps.len(),
{
    if ps.len() == 0 {
        Seq::empty()
    } else if ps.len() == 1 {
        enc_str(ps[0])
    } else {
        enc_str(ps[0]) + seq![','] + enc_items(ps.skip(1))
    }
}

/// A JSON array of strings.
pub open spec fn enc_strarray(ps: Seq<Seq<char>>) -> Seq<char> {
    if ps.len() == 0 {
        seq!['[', ']']
    } else {
        seq!['['] + enc_items(ps) + seq![']']
    }
}

/// The mathematical content of a record value: the payloads as sequences.
pub enum ValueData {
    /// IP address
    Ip(crate::ip::IpAddress),
    /// Domain name
    Domain(Seq<char>),
    /// Text
    Text(Seq<char>),
    /// MX
    Mx(u16, Seq<char>),
    /// SRV
    Srv(u16, u16, u16, Seq<char>),
    /// SOA
    Soa(Seq<char>, Seq<char>, u32, i32, i32, i32, u32),
    /// CAA
    Caa(u8, Seq<char>, Seq<char>),
    /// CERT
    Cert(u16, u16, u8, Seq<u8>),
    /// DNSKEY
    Dnskey(u16, u8, u8, Seq<u8>),
    /// DS
    Ds(u16, u8, u8, Seq<u8>),
    /// HINFO
    Hinfo(Seq<char>, Seq<char>),
    /// HTTPS
    Https(u16, Seq<char>, Seq<Seq<char>>),
    /// KEY
    Key(u16, u8, u8, Seq<u8>),
    /// LOC
    Loc(u8, u8, u8, u8, u32, u32, u32),
    /// NAPTR
    Naptr(u16, u16, Seq<char>, Seq<char>, Seq<char>, Seq<char>),
    /// SSHFP
    Sshfp(u8, u8, Seq<u8>),
    /// SVCB
    Svcb(u16, Seq<char>, Seq<Seq<char>>),
    /// TLSA
    Tlsa(u8, u8, u8, Seq<u8>),
    /// URI
    Uri(u16, u16, Seq<char>),
    /// Other
    Other(Seq<char>),
}

/// The content view of a record value.
pub open spec fn value_data(v: crate::record_values::RecordValue) -> ValueData {
    match v {
        crate::record_values::RecordValue::Ip(ip) => ValueData::Ip(ip),
        crate::record_values::RecordValue::Domain(d) => ValueData::Domain(d@),
        crate::record_values::RecordValue::Text(t) => ValueData::Text(t@),
        crate::record_values::RecordValue::Mx { priority, exchange } => ValueData::Mx(
            priority,
            exchange@,
        ),
        crate::record_values::RecordValue::Srv { priority, weight, port, target } => ValueData::Srv(
            priority,
            weight,
            port,
            target@,
        ),
        crate::record_values::RecordValue::Soa {
            mname,
            rname,
            serial,
            refresh,
            retry,
            expire,
            minimum,
        } => ValueData::Soa(mname@, rname@, serial, refresh, retry, expire, minimum),
        crate::record_values::RecordValue::Caa { flags, tag, value } => ValueData::Caa(
            flags,
            tag@,
            value@,
        ),
        crate::record_values::RecordValue::Cert { cert_type, key_tag, algorithm, certificate } => {
            ValueData::Cert(cert_type, key_tag, algorithm, certificate@)
        },
        crate::record_values::RecordValue::Dnskey { flags, protocol, algorithm, public_key } => {
            ValueData::Dnskey(flags, protocol, algorithm, public_key@)
        },
        crate::record_values::RecordValue::Ds { key_tag, algorithm, digest_type, digest } => {
            ValueData::Ds(key_tag, algorithm, digest_type, digest@)
        },
        crate::record_values::RecordValue::Hinfo { cpu, os } => ValueData::Hinfo(cpu@, os@),
        crate::record_values::RecordValue::Https { priority, target, params } => ValueData::Https(
            priority,
            target@,
            params@.map_values(|p: String| p@),
        ),
        crate::record_values::RecordValue::Key { flags, protocol, algorithm, public_key } => {
            ValueData::Key(flags, protocol, algorithm, public_key@)
        },
        crate::record_values::RecordValue::Loc {
            version,
            size,
            horiz_pre,
            vert_pre,
            latitude,
            longitude,
            altitude,
        } => ValueData::Loc(version, size, horiz_pre, vert_pre, latitude, longitude, altitude),
        crate::record_values::RecordValue::Naptr {
            order,
            preference,
            flags,
            services,
            regexp,
            replacement,
        } => ValueData::Naptr(order, preference, flags@, services@, regexp@, replacement@),
        crate::record_values::RecordValue::Sshfp { algorithm, fingerprint_type, fingerprint } => {
            ValueData::Sshfp(algorithm, fingerprint_type, fingerprint@)
        },
        crate::record_values::RecordValue::Svcb { priority, target, params } => ValueData::Svcb(
            priority,
            target@,
            params@.map_values(|p: String| p@),
        ),
        crate::record_values::RecordValue::Tlsa {
            cert_usage,
            selector,
            matching_type,
            cert_data,
        } => ValueData::Tlsa(cert_usage, selector, matching_type, cert_data@),
        crate::record_values::RecordValue::Uri { priority, weight, target } => ValueData::Uri(
            priority,
            weight,
            target@,
        ),
        crate::record_values::RecordValue::Other(o) => ValueData::Other(o@),
    }
}

/// The mathematical content of one record.
pub struct RecordData {
    /// Domain queried.
    pub domain: Seq<char>,
    /// Record type.
    pub record_type: crate::record_types::RecordType,
    /// Value content.
    pub value: ValueData,
    /// Time to live, seconds.
    pub ttl: u32,
    /// Response code.
    pub response_code: crate::response_codes::ResponseCode,
    /// Answering resolver text.
    pub resolver: Seq<char>,
    /// Completion wall clock, epoch milliseconds.
    pub timestamp_ms: u64,
    /// Elapsed query time, milliseconds.
    pub query_time_ms: u64,
}

/// The content view of a record.
pub open spec fn record_data(r: crate::dns_records::DnsRecord) -> RecordData {
    RecordData {
        domain: r.domain@,
        record_type: r.record_type,
        value: value_data(r.value),
        ttl: r.ttl,
        response_code: r.response_code,
        resolver: r.resolver@,
        timestamp_ms: r.timestamp_ms,
        query_time_ms: r.query_time_ms,
    }
}

/// The response-code name the JSON codec uses; unlike the display name it
/// tells the catch-all server failure apart from a plain `SERVFAIL`.
pub open spec fn json_rcode_chars(rc: crate::response_codes::ResponseCode) -> Seq<char> {
    match rc {
        crate::response_codes::ResponseCode::NoError => "NOERROR"@,
        crate::response_codes::ResponseCode::ServFail => "SERVFAIL"@,
        crate::response_codes::ResponseCode::NxDomain => "NXDOMAIN"@,
        crate::response_codes::ResponseCode::Refused => "REFUSED"@,
        crate::response_codes::ResponseCode::FormErr => "FORMERR"@,
        crate::response_codes::ResponseCode::NotImp => "NOTIMP"@,
        crate::response_codes::ResponseCode::ServFailOther => "OTHER"@,
    }
}

/// The JSON text of a value: one object with the variant tag as its single
/// key.
pub open spec fn enc_value(v: ValueData) -> Seq<char> {
    match v {
        ValueData::Ip(ip) => "{\"ip\":"@ + enc_str(crate::ip::ip_chars(ip)) + "}"@,
        ValueData::Domain(d) => "{\"domain\":"@ + enc_str(d) + "}"@,
        ValueData::Text(t) => "{\"text\":"@ + enc_str(t) + "}"@,
        ValueData::Mx(priority, exchange) => "{\"mx\":{\"priority\":"@ + dec_chars(priority as nat)
            + ",\"exchange\":"@ + enc_str(exchange) + "}}"@,
        ValueData::Srv(priority, weight, port, target) => "{\"srv\":{\"priority\":"@ + dec_chars(
            priority as nat,
        ) + ",\"weight\":"@ + dec_chars(weight as nat) + ",\"port\":"@ + dec_chars(port as nat)
            + ",\"target\":"@ + enc_str(target) + "}}"@,
        ValueData::Soa(mname, rname, serial, refresh, retry, expire, minimum) => {
            "{\"soa\":{\"mname\":"@ + enc_str(mname) + ",\"rname\":"@ + enc_str(rname)
                + ",\"serial\":"@ + dec_chars(serial as nat) + ",\"refresh\":"@ + enc_i32(
                refresh as int,
            ) + ",\"retry\":"@ + enc_i32(retry as int) + ",\"expire\":"@ + enc_i32(expire as int)
                + ",\"minimum\":"@ + dec_chars(minimum as nat) + "}}"@
        },
        ValueData::Caa(flags, tag, value) => "{\"caa\":{\"flags\":"@ + dec_chars(flags as nat)
            + ",\"tag\":"@ + enc_str(tag) + ",\"value\":"@ + enc_str(value) + "}}"@,
        ValueData::Cert(cert_type, key_tag, algorithm, certificate) => "{\"cert\":{\"cert_type\":"@
            + dec_chars(cert_type as nat) + ",\"key_tag\":"@ + dec_chars(key_tag as nat)
            + ",\"algorithm\":"@ + dec_chars(algorithm as nat) + ",\"certificate\":"@ + enc_bytes(
            certificate,
        ) + "}}"@,
        ValueData::Dnskey(flags, protocol, algorithm, public_key) => "{\"dnskey\":{\"flags\":"@
            + dec_chars(flags as nat) + ",\"protocol\":"@ + dec_chars(protocol as nat)
            + ",\"algorithm\":"@ + dec_chars(algorithm as nat) + ",\"public_key\":"@ + enc_bytes(
            public_key,
        ) + "}}"@,
        ValueData::Ds(key_tag, algorithm, digest_type, digest) => "{\"ds\":{\"key_tag\":"@
            + dec_chars(key_tag as nat) + ",\"algorithm\":"@ + dec_chars(algorithm as nat)
            + ",\"digest_type\":"@ + dec_chars(digest_type as nat) + ",\"digest\":"@ + enc_bytes(
            digest,
        ) + "}}"@,
        ValueData::Hinfo(cpu, os) => "{\"hinfo\":{\"cpu\":"@ + enc_str(cpu) + ",\"os\":"@
            + enc_str(os) + "}}"@,
        ValueData::Https(priority, target, params) => "{\"https\":{\"priority\":"@ + dec_chars(
            priority as nat,
        ) + ",\"target\":"@ + enc_str(target) + ",\"params\":"@ + enc_strarray(params) + "}}"@,
        ValueData::Key(flags, protocol, algorithm, public_key) => "{\"key\":{\"flags\":"@
            + dec_chars(flags as nat) + ",\"protocol\":"@ + dec_chars(protocol as nat)
            + ",\"algorithm\":"@ + dec_chars(algorithm as nat) + ",\"public_key\":"@ + enc_bytes(
            public_key,
        ) + "}}"@,
        ValueData::Loc(version, size, horiz_pre, vert_pre, latitude, longitude, altitude) => {
            "{\"loc\":{\"version\":"@ + dec_chars(version as nat) + ",\"size\":"@ + dec_chars(
                size as nat,
            ) + ",\"horiz_pre\":"@ + dec_chars(horiz_pre as nat) + ",\"vert_pre\":"@ + dec_chars(
                vert_pre as nat,
            ) + ",\"latitude\":"@ + dec_chars(latitude as nat) + ",\"longitude\":"@ + dec_chars(
                longitude as nat,
            ) + ",\"altitude\":"@ + dec_chars(altitude as nat) + "}}"@
        },
        ValueData::Naptr(order, preference, flags, services, regexp, replacement) => {
            "{\"naptr\":{\"order\":"@ + dec_chars(order as nat) + ",\"preference\":"@ + dec_chars(
                preference as nat,
            ) + ",\"flags\":"@ + enc_str(flags) + ",\"services\":"@ + enc_str(services)
                + ",\"regexp\":"@ + enc_str(regexp) + ",\"replacement\":"@ + enc_str(replacement)
                + "}}"@
        },
        ValueData::Sshfp(algorithm, fingerprint_type, fingerprint) => {
            "{\"sshfp\":{\"algorithm\":"@ + dec_chars(algorithm as nat) + ",\"fingerprint_type\":"@
                + dec_chars(fingerprint_type as nat) + ",\"fingerprint\":"@ + enc_bytes(fingerprint)
                + "}}"@
        },
        ValueData::Svcb(priority, target, params) => "{\"svcb\":{\"priority\":"@ + dec_chars(
            priority as nat,
        ) + ",\"target\":"@ + enc_str(target) + ",\"params\":"@ + enc_strarray(params) + "}}"@,
        ValueData::Tlsa(cert_usage, selector, matching_type, cert_data) => {
            "{\"tlsa\":{\"cert_usage\":"@ + dec_chars(cert_usage as nat) + ",\"selector\":"@
                + dec_chars(selector as nat) + ",\"matching_type\":"@ + dec_chars(
                matching_type as nat,
            ) + ",\"cert_data\":"@ + enc_bytes(cert_data) + "}}"@
        },
        ValueData::Uri(priority, weight, target) => "{\"uri\":{\"priority\":"@ + dec_chars(
            priority as nat,
        ) + ",\"weight\":"@ + dec_chars(weight as nat) + ",\"target\":"@ + enc_str(target) + "}}"@,
        ValueData::Other(o) => "{\"other\":"@ + enc_str(o) + "}"@,
    }
}

/// The JSON text of one record, fields in fixed order, with the timestamp
/// rendered as the given RFC 3339 text.
pub open spec fn enc_record_with(r: RecordData, ts: Seq<char>) -> Seq<char> {
    "{\"domain\":"@ + enc_str(r.domain) + ",\"record_type\":"@ + enc_str(
        crate::record_types::type_name_chars(r.record_type),
    ) + ",\"value\":"@ + enc_value(r.value) + ",\"ttl\":"@ + dec_chars(r.ttl as nat)
        + ",\"response_code\":"@ + enc_str(json_rcode_chars(r.response_code)) + ",\"resolver\":"@
        + enc_str(r.resolver) + ",\"timestamp\":"@ + enc_str(ts) + ",\"query_time_ms\":"@
        + dec_chars(r.query_time_ms as nat) + "}"@
}

/// Appends a literal's characters.
fn push_lit(dst: &mut Vec<char>, lit: &str)
    ensures
        final(dst)@ == old(dst)@ + lit@,
{
    let v = crate::text::chars_of_str(lit);
    push_all(dst, &v);
}

/// Appends the escaped form of a text.
fn push_escaped(dst: &mut Vec<char>, s: &str)
    ensures
        final(dst)@ == old(dst)@ + esc(s@),
{
    let v = crate::text::chars_of_str(s);
    let n = v.len();
    let mut i: usize = 0;
    proof {
        assert(esc(v@.take(0)) =~= Seq::<char>::empty());
        assert(dst@ =~= old(dst)@ + esc(v@.take(0)));
    }
    while i < n
        invariant
            i <= n,
            n == v@.len(),
            v@ == s@,
            dst@ == old(dst)@ + esc(v@.take(i as int)),
        decreases n - i,
    {
        let c = v[i];
        let b = c as u32;
        let ghost pre = dst@;
        if c == '"' {
            dst.push('\\');
            dst.push('"');
        } else if c == '\\' {
            dst.push('\\');
            dst.push('\\');
        } else if b < 32 {
            dst.push('\\');
            dst.push('u');
            dst.push('0');
            dst.push('0');
            let hi = (b / 16) as u8;
            let lo = (b % 16) as u8;
            if hi < 10 {
                dst.push((48 + hi) as char);
            } else {
                dst.push((97 + (hi - 10)) as char);
            }
            if lo < 10 {
                dst.push((48 + lo) as char);
            } else {
                dst.push((97 + (lo - 10)) as char);
            }
        } else {
            dst.push(c);
        }
        proof {
            lemma_char_code(c);
            assert(b == c as int);
            if b < 32 {
                lemma_hex_digit_char(c as int / 16);
                lemma_hex_digit_char(c as int % 16);
                assert(char_of_hex_digit(c as int / 16) as int == 48 + c as int / 16);
            }
            assert(dst@ =~= pre + esc_char(v@[i as int]));
            lemma_esc_snoc(v@, i as int);
            assert(dst@ =~= old(dst)@ + esc(v@.take(i as int + 1)));
        }
        i = i + 1;
    }
    proof {
        assert(v@.take(n as int) =~= v@);
    }
}

/// Escaping one more character appends its escaped form.
proof fn lemma_esc_snoc(s: Seq<char>, i: int)
    requires
        0 <= i < s.len(),
    ensures
        esc(s.take(i + 1)) == esc(s.take(i)) + esc_char(s[i]),
    decreases i,
{
    if i == 0 {
        assert(s.take(1) =~= seq![s[0]]);
        assert(s.take(1)[0] == s[0]);
        assert(s.take(1).skip(1) =~= Seq::<char>::empty());
        assert(esc(Seq::<char>::empty()) =~= Seq::<char>::empty());
        assert(esc(s.take(0)) =~= Seq::<char>::empty());
        assert(esc(s.take(1)) == esc_char(s.take(1)[0]) + esc(s.take(1).skip(1)));
        assert(esc(s.take(1)) =~= esc_char(s[0]));
    } else {
        assert(s.take(i + 1)[0] == s[0]);
        assert(s.take(i + 1).skip(1) =~= s.skip(1).take(i));
        assert(s.take(i)[0] == s[0]);
        assert(s.take(i).skip(1) =~= s.skip(1).take(i - 1));
        lemma_esc_snoc(s.skip(1), i - 1);
        assert(s.skip(1)[i - 1] == s[i]);
        assert(esc(s.take(i + 1)) == esc_char(s[0]) + esc(s.skip(1).take(i)));
        assert(esc(s.take(i)) == esc_char(s[0]) + esc(s.skip(1).take(i - 1)));
        assert(esc_char(s[0]) + (esc(s.skip(1).take(i - 1)) + esc_char(s[i])) =~= (esc_char(s[0])
            + esc(s.skip(1).take(i - 1))) + esc_char(s[i]));
    }
}

/// Appends a JSON string token.
fn push_str_token(dst: &mut Vec<char>, s: &str)
    ensures
        final(dst)@ == old(dst)@ + enc_str(s@),
{
    dst.push('"');
    push_escaped(dst, s);
    dst.push('"');
    proof {
        assert(dst@ =~= old(dst)@ + enc_str(s@));
    }
}

/// Appends a decimal number token.
fn push_u64_token(dst: &mut Vec<char>, n: u64)
    ensures
        final(dst)@ == old(dst)@ + dec_chars(n as nat),
{
    let d = u64_to_dec(n);
    push_all(dst, &d);
}

/// Appends a signed number token.
fn push_i32_token(dst: &mut Vec<char>, n: i32)
    ensures
        final(dst)@ == old(dst)@ + enc_i32(n as int),
{
    if n < 0 {
        dst.push('-');
        let mag: u64 = if n == i32::MIN {
            0x8000_0000u64
        } else {
            (-n) as u64
        };
        let d = u64_to_dec(mag);
        push_all(dst, &d);
        proof {
            assert(dst@ =~= old(dst)@ + enc_i32(n as int));
        }
    } else {
        let d = u64_to_dec(n as u64);
        push_all(dst, &d);
    }
}

/// Appends a quoted hex byte-string token.
fn push_bytes_token(dst: &mut Vec<char>, b: &Vec<u8>)
    ensures
        final(dst)@ == old(dst)@ + enc_bytes(b@),
{
    dst.push('"');
    let n = b.len();
    let mut i: usize = 0;
    proof {
        assert(bytes_hex(b@.take(0)) =~= Seq::<char>::empty());
        assert(dst@ =~= old(dst)@ + seq!['"'] + bytes_hex(b@.take(0)));
    }
    while i < n
        invariant
            i <= n,
            n == b@.len(),
            dst@ == old(dst)@ + seq!['"'] + bytes_hex(b@.take(i as int)),
        decreases n - i,
    {
        let x = b[i];
        let hi = x / 16;
        let lo = x % 16;
        let ghost pre = dst@;
        if hi < 10 {
            dst.push((48 + hi) as char);
        } else {
            dst.push((97 + (hi - 10)) as char);
        }
        if lo < 10 {
            dst.push((48 + lo) as char);
        } else {
            dst.push((97 + (lo - 10)) as char);
        }
        proof {
            lemma_bytes_hex_snoc(b@, i as int);
            assert(dst@ =~= pre + seq![
                char_of_hex_digit(b@[i as int] as int / 16),
                char_of_hex_digit(b@[i as int] as int % 16),
            ]);
            assert(dst@ =~= old(dst)@ + seq!['"'] + bytes_hex(b@.take(i as int + 1)));
        }
        i = i + 1;
    }
    dst.push('"');
    proof {
        assert(b@.take(n as int) =~= b@);
        assert(dst@ =~= old(dst)@ + enc_bytes(b@));
    }
}

/// Hexing one more byte appends its two digits.
proof fn lemma_bytes_hex_snoc(b: Seq<u8>, i: int)
    requires
        0 <= i < b.len(),
    ensures
        bytes_hex(b.take(i + 1)) == bytes_hex(b.take(i)) + seq![
            char_of_hex_digit(b[i] as int / 16),
            char_of_hex_digit(b[i] as int % 16),
        ],
    decreases i,
{
    let pair = seq![char_of_hex_digit(b[i] as int / 16), char_of_hex_digit(b[i] as int % 16)];
    if i == 0 {
        assert(b.take(1) =~= seq![b[0]]);
        assert(b.take(1)[0] == b[0]);
        assert(b.take(1).skip(1) =~= Seq::<u8>::empty());
        assert(bytes_hex(Seq::<u8>::empty()) =~= Seq::<char>::empty());
        assert(bytes_hex(b.take(0)) =~= Seq::<char>::empty());
        assert(bytes_hex(b.take(1)) == pair + bytes_hex(b.take(1).skip(1)));
        assert(bytes_hex(b.take(1)) =~= pair);
    } else {
        assert(b.take(i + 1)[0] == b[0]);
        assert(b.take(i + 1).skip(1) =~= b.skip(1).take(i));
        assert(b.take(i)[0] == b[0]);
        assert(b.take(i).skip(1) =~= b.skip(1).take(i - 1));
        lemma_bytes_hex_snoc(b.skip(1), i - 1);
        assert(b.skip(1)[i - 1] == b[i]);
        let head = seq![char_of_hex_digit(b[0] as int / 16), char_of_hex_digit(b[0] as int % 16)];
        assert(bytes_hex(b.take(i + 1)) == head + bytes_hex(b.skip(1).take(i)));
        assert(bytes_hex(b.take(i)) == head + bytes_hex(b.skip(1).take(i - 1)));
        assert(head + (bytes_hex(b.skip(1).take(i - 1)) + pair) =~= (head + bytes_hex(
            b.skip(1).take(i - 1),
        )) + pair);
    }
}

/// Appends a JSON array of strings.
fn push_strarray_token(dst: &mut Vec<char>, ps: &Vec<String>)
    ensures
        final(dst)@ == old(dst)@ + enc_strarray(ps@.map_values(|p: String| p@)),
{
    let ghost m = ps@.map_values(|p: String| p@);
    dst.push('[');
    if ps.len() == 0 {
        dst.push(']');
        proof {
            assert(dst@ =~= old(dst)@ + enc_strarray(m));
        }
        return ;
    }
    let n = ps.len();
    let mut i: usize = 0;
    proof {
        assert(dst@ =~= old(dst)@ + seq!['[']);
    }
    while i < n
        invariant
            i <= n,
            n == ps@.len(),
            n >= 1,
            m == ps@.map_values(|p: String| p@),
            i > 0 ==> dst@ == old(dst)@ + seq!['['] + enc_items(m.take(i as int)),
            i == 0 ==> dst@ == old(dst)@ + seq!['['],
        decreases n - i,
    {
        let ghost pre = dst@;
        if i > 0 {
            dst.push(',');
        }
        push_str_token(dst, ps[i].as_str());
        proof {
            if i > 0 {
                lemma_enc_items_snoc(m, i as int);
            }
            assert(m[i as int] == ps@[i as int]@);
            if i == 0 {
                assert(m.take(1) =~= seq![m[0]]);
                assert(enc_items(m.take(1)) == enc_str(m[0]));
                assert(dst@ =~= old(dst)@ + seq!['['] + enc_items(m.take(1)));
            } else {
                assert(dst@ =~= old(dst)@ + seq!['['] + enc_items(m.take(i as int + 1)));
            }
        }
        i = i + 1;
    }
    dst.push(']');
    proof {
        assert(m.take(n as int) =~= m);
        assert(dst@ =~= old(dst)@ + enc_strarray(m));
    }
}

/// One more item appends a comma and its string token.
proof fn lemma_enc_items_snoc(m: Seq<Seq<char>>, i: int)
    requires
        1 <= i < m.len(),
    ensures
        enc_items(m.take(i + 1)) == enc_items(m.take(i)) + seq![','] + enc_str(m[i]),
    decreases i,
{
    if i == 1 {
        assert(m.take(2) =~= seq![m[0], m[1]]);
        assert(m.take(2).skip(1) =~= seq![m[1]]);
        assert(m.take(1) =~= seq![m[0]]);
        assert(enc_items(seq![m[1]]) == enc_str(m[1]));
        assert(enc_items(m.take(2)) == enc_str(m[0]) + seq![','] + enc_str(m[1]));
    } else {
        assert(m.take(i + 1)[0] == m[0]);
        assert(m.take(i + 1).skip(1) =~= m.skip(1).take(i));
        assert(m.take(i)[0] == m[0]);
        assert(m.take(i).skip(1) =~= m.skip(1).take(i - 1));
        lemma_enc_items_snoc(m.skip(1), i - 1);
        assert(m.skip(1)[i - 1] == m[i]);
        assert(m.take(i + 1).len() >= 2 && m.take(i).len() >= 2);
        assert(enc_items(m.take(i + 1)) == enc_str(m[0]) + seq![','] + enc_items(m.skip(1).take(i)));
        assert(enc_items(m.take(i)) == enc_str(m[0]) + seq![','] + enc_items(m.skip(1).take(i - 1)));
        assert((enc_str(m[0]) + seq![',']) + (enc_items(m.skip(1).take(i - 1)) + seq![','] + enc_str(
            m[i],
        )) =~= ((enc_str(m[0]) + seq![','] + enc_items(m.skip(1).take(i - 1))) + seq![','] + enc_str(
            m[i],
        )));
    }
}

/// The JSON text of a record value, as characters.
pub fn encode_value(v: &crate::record_values::RecordValue) -> (r: Vec<char>)
    ensures
        r@ == enc_value(value_data(*v)),
{
    let mut out: Vec<char> = Vec::new();
    match v {
        crate::record_values::RecordValue::Ip(ip) => {
            push_lit(&mut out, "{\"ip\":");
            let t = ip.to_text();
            push_str_token(&mut out, t.as_str());
            push_lit(&mut out, "}");
        },
        crate::record_values::RecordValue::Domain(d) => {
            push_lit(&mut out, "{\"domain\":");
            push_str_token(&mut out, d.as_str());
            push_lit(&mut out, "}");
        },
        crate::record_values::RecordValue::Text(t) => {
            push_lit(&mut out, "{\"text\":");
            push_str_token(&mut out, t.as_str());
            push_lit(&mut out, "}");
        },
        crate::record_values::RecordValue::Mx { priority, exchange } => {
            push_lit(&mut out, "{\"mx\":{\"priority\":");
            push_u64_token(&mut out, *priority as u64);
            push_lit(&mut out, ",\"exchange\":");
            push_str_token(&mut out, exchange.as_str());
            push_lit(&mut out, "}}");
        },
        crate::record_values::RecordValue::Srv { priority, weight, port, target } => {
            push_lit(&mut out, "{\"srv\":{\"priority\":");
            push_u64_token(&mut out, *priority as u64);
            push_lit(&mut out, ",\"weight\":");
            push_u64_token(&mut out, *weight as u64);
            push_lit(&mut out, ",\"port\":");
            push_u64_token(&mut out, *port as u64);
            push_lit(&mut out, ",\"target\":");
            push_str_token(&mut out, target.as_str());
            push_lit(&mut out, "}}");
        },
        crate::record_values::RecordValue::Soa {
            mname,
            rname,
            serial,
            refresh,
            retry,
            expire,
            minimum,
        } => {
            push_lit(&mut out, "{\"soa\":{\"mname\":");
            push_str_token(&mut out, mname.as_str());
            push_lit(&mut out, ",\"rname\":");
            push_str_token(&mut out, rname.as_str());
            push_lit(&mut out, ",\"serial\":");
            push_u64_token(&mut out, *serial as u64);
            push_lit(&mut out, ",\"refresh\":");
            push_i32_token(&mut out, *refresh);
            push_lit(&mut out, ",\"retry\":");
            push_i32_token(&mut out, *retry);
            push_lit(&mut out, ",\"expire\":");
            push_i32_token(&mut out, *expire);
            push_lit(&mut out, ",\"minimum\":");
            push_u64_token(&mut out, *minimum as u64);
            push_lit(&mut out, "}}");
        },
        crate::record_values::RecordValue::Caa { flags, tag, value } => {
            push_lit(&mut out, "{\"caa\":{\"flags\":");
            push_u64_token(&mut out, *flags as u64);
            push_lit(&mut out, ",\"tag\":");
            push_str_token(&mut out, tag.as_str());
            push_lit(&mut out, ",\"value\":");
            push_str_token(&mut out, value.as_str());
            push_lit(&mut out, "}}");
        },
        crate::record_values::RecordValue::Cert { cert_type, key_tag, algorithm, certificate } => {
            push_lit(&mut out, "{\"cert\":{\"cert_type\":");
            push_u64_token(&mut out, *cert_type as u64);
            push_lit(&mut out, ",\"key_tag\":");
            push_u64_token(&mut out, *key_tag as u64);
            push_lit(&mut out, ",\"algorithm\":");
            push_u64_token(&mut out, *algorithm as u64);
            push_lit(&mut out, ",\"certificate\":");
            push_bytes_token(&mut out, certificate);
            push_lit(&mut out, "}}");
        },
        crate::record_values::RecordValue::Dnskey { flags, protocol, algorithm, public_key } => {
            push_lit(&mut out, "{\"dnskey\":{\"flags\":");
            push_u64_token(&mut out, *flags as u64);
            push_lit(&mut out, ",\"protocol\":");
            push_u64_token(&mut out, *protocol as u64);
            push_lit(&mut out, ",\"algorithm\":");
            push_u64_token(&mut out, *algorithm as u64);
            push_lit(&mut out, ",\"public_key\":");
            push_bytes_token(&mut out, public_key);
            push_lit(&mut out, "}}");
        },
        crate::record_values::RecordValue::Ds { key_tag, algorithm, digest_type, digest } => {
            push_lit(&mut out, "{\"ds\":{\"key_tag\":");
            push_u64_token(&mut out, *key_tag as u64);
            push_lit(&mut out, ",\"algorithm\":");
            push_u64_token(&mut out, *algorithm as u64);
            push_lit(&mut out, ",\"digest_type\":");
            push_u64_token(&mut out, *digest_type as u64);
            push_lit(&mut out, ",\"digest\":");
            push_bytes_token(&mut out, digest);
            push_lit(&mut out, "}}");
        },
        crate::record_values::RecordValue::Hinfo { cpu, os } => {
            push_lit(&mut out, "{\"hinfo\":{\"cpu\":");
            push_str_token(&mut out, cpu.as_str());
            push_lit(&mut out, ",\"os\":");
            push_str_token(&mut out, os.as_str());
            push_lit(&mut out, "}}");
        },
        crate::record_values::RecordValue::Https { priority, target, params } => {
            push_lit(&mut out, "{\"https\":{\"priority\":");
            push_u64_token(&mut out, *priority as u64);
            push_lit(&mut out, ",\"target\":");
            push_str_token(&mut out, target.as_str());
            push_lit(&mut out, ",\"params\":");
            push_strarray_token(&mut out, params);
            push_lit(&mut out, "}}");
        },
        crate::record_values::RecordValue::Key { flags, protocol, algorithm, public_key } => {
            push_lit(&mut out, "{\"key\":{\"flags\":");
            push_u64_token(&mut out, *flags as u64);
            push_lit(&mut out, ",\"protocol\":");
            push_u64_token(&mut out, *protocol as u64);
            push_lit(&mut out, ",\"algorithm\":");
            push_u64_token(&mut out, *algorithm as u64);
            push_lit(&mut out, ",\"public_key\":");
            push_bytes_token(&mut out, public_key);
            push_lit(&mut out, "}}");
        },
        crate::record_values::RecordValue::Loc {
            version,
            size,
            horiz_pre,
            vert_pre,
            latitude,
            longitude,
            altitude,
        } => {
            push_lit(&mut out, "{\"loc\":{\"version\":");
            push_u64_token(&mut out, *version as u64);
            push_lit(&mut out, ",\"size\":");
            push_u64_token(&mut out, *size as u64);
            push_lit(&mut out, ",\"horiz_pre\":");
            push_u64_token(&mut out, *horiz_pre as u64);
            push_lit(&mut out, ",\"vert_pre\":");
            push_u64_token(&mut out, *vert_pre as u64);
            push_lit(&mut out, ",\"latitude\":");
            push_u64_token(&mut out, *latitude as u64);
            push_lit(&mut out, ",\"longitude\":");
            push_u64_token(&mut out, *longitude as u64);
            push_lit(&mut out, ",\"altitude\":");
            push_u64_token(&mut out, *altitude as u64);
            push_lit(&mut out, "}}");
        },
        crate::record_values::RecordValue::Naptr {
            order,
            preference,
            flags,
            services,
            regexp,
            replacement,
        } => {
            push_lit(&mut out, "{\"naptr\":{\"order\":");
            push_u64_token(&mut out, *order as u64);
            push_lit(&mut out, ",\"preference\":");
            push_u64_token(&mut out, *preference as u64);
            push_lit(&mut out, ",\"flags\":");
            push_str_token(&mut out, flags.as_str());
            push_lit(&mut out, ",\"services\":");
            push_str_token(&mut out, services.as_str());
            push_lit(&mut out, ",\"regexp\":");
            push_str_token(&mut out, regexp.as_str());
            push_lit(&mut out, ",\"replacement\":");
            push_str_token(&mut out, replacement.as_str());
            push_lit(&mut out, "}}");
        },
        crate::record_values::RecordValue::Sshfp { algorithm, fingerprint_type, fingerprint } => {
            push_lit(&mut out, "{\"sshfp\":{\"algorithm\":");
            push_u64_token(&mut out, *algorithm as u64);
            push_lit(&mut out, ",\"fingerprint_type\":");
            push_u64_token(&mut out, *fingerprint_type as u64);
            push_lit(&mut out, ",\"fingerprint\":");
            push_bytes_token(&mut out, fingerprint);
            push_lit(&mut out, "}}");
        },
        crate::record_values::RecordValue::Svcb { priority, target, params } => {
            push_lit(&mut out, "{\"svcb\":{\"priority\":");
            push_u64_token(&mut out, *priority as u64);
            push_lit(&mut out, ",\"target\":");
            push_str_token(&mut out, target.as_str());
            push_lit(&mut out, ",\"params\":");
            push_strarray_token(&mut out, params);
            push_lit(&mut out, "}}");
        },
        crate::record_values::RecordValue::Tlsa {
            cert_usage,
            selector,
            matching_type,
            cert_data,
        } => {
            push_lit(&mut out, "{\"tlsa\":{\"cert_usage\":");
            push_u64_token(&mut out, *cert_usage as u64);
            push_lit(&mut out, ",\"selector\":");
            push_u64_token(&mut out, *selector as u64);
            push_lit(&mut out, ",\"matching_type\":");
            push_u64_token(&mut out, *matching_type as u64);
            push_lit(&mut out, ",\"cert_data\":");
            push_bytes_token(&mut out, cert_data);
            push_lit(&mut out, "}}");
        },
        crate::record_values::RecordValue::Uri { priority, weight, target } => {
            push_lit(&mut out, "{\"uri\":{\"priority\":");
            push_u64_token(&mut out, *priority as u64);
            push_lit(&mut out, ",\"weight\":");
            push_u64_token(&mut out, *weight as u64);
            push_lit(&mut out, ",\"target\":");
            push_str_token(&mut out, target.as_str());
            push_lit(&mut out, "}}");
        },
        crate::record_values::RecordValue::Other(o) => {
            push_lit(&mut out, "{\"other\":");
            push_str_token(&mut out, o.as_str());
            push_lit(&mut out, "}");
        },
    }
    proof {
        assert(out@ =~= enc_value(value_data(*v)));
    }
    out
}

/// Encodes one record as a JSON object, fields in fixed order, timestamp as
/// RFC 3339 text.
pub fn encode_record(rec: &crate::dns_records::DnsRecord) -> (r: String)
    ensures
        exists|ts: Seq<char>|
            {
                &&& r@ == #[trigger] enc_record_with(record_data(*rec), ts)
                &&& crate::time::spec_parse_timestamp(ts) == Some(rec.timestamp_ms)
                &&& forall|i: int|
                    0 <= i < ts.len() ==> crate::time::is_timestamp_char(#[trigger] ts[i])
            },
{
    let mut out: Vec<char> = Vec::new();
    push_lit(&mut out, "{\"domain\":");
    push_str_token(&mut out, rec.domain.as_str());
    push_lit(&mut out, ",\"record_type\":");
    let tn = rec.record_type.to_string();
    push_str_token(&mut out, tn.as_str());
    push_lit(&mut out, ",\"value\":");
    let v = encode_value(&rec.value);
    push_all(&mut out, &v);
    push_lit(&mut out, ",\"ttl\":");
    push_u64_token(&mut out, rec.ttl as u64);
    push_lit(&mut out, ",\"response_code\":");
    let rn = json_rcode_name(&rec.response_code);
    push_str_token(&mut out, rn.as_str());
    push_lit(&mut out, ",\"resolver\":");
    push_str_token(&mut out, rec.resolver.as_str());
    push_lit(&mut out, ",\"timestamp\":");
    let ts = crate::time::format_timestamp(rec.timestamp_ms);
    out.push('"');
    push_all(&mut out, &ts);
    out.push('"');
    push_lit(&mut out, ",\"query_time_ms\":");
    push_u64_token(&mut out, rec.query_time_ms);
    push_lit(&mut out, "}");
    proof {
        lemma_esc_plain(ts@);
        assert(out@ =~= enc_record_with(record_data(*rec), ts@));
    }
    crate::text::string_from_chars(&out)
}


/// The JSON string token of a text, as characters.
pub fn encode_json_string(s: &str) -> (r: Vec<char>)
    ensures
        r@ == enc_str(s@),
{
    let mut v: Vec<char> = Vec::new();
    push_str_token(&mut v, s);
    proof {
        assert(v@ =~= enc_str(s@));
    }
    v
}

/// The document-store form of one record, with the fixed field schema
/// `{@timestamp, domain, record_type, value, resolver, ttl, response_code,
/// query_time_ms}`: the timestamp as RFC 3339 text under `@timestamp`, the
/// value and the names as their display texts.
pub open spec fn es_doc_with(r: crate::dns_records::DnsRecord, ts: Seq<char>) -> Seq<char> {
    "{\"@timestamp\":"@ + enc_str(ts) + ",\"domain\":"@ + enc_str(r.domain@)
        + ",\"record_type\":"@ + enc_str(crate::record_types::type_name_chars(r.record_type))
        + ",\"value\":"@ + enc_str(crate::record_values::value_text(r.value)) + ",\"resolver\":"@
        + enc_str(r.resolver@) + ",\"ttl\":"@ + dec_chars(r.ttl as nat) + ",\"response_code\":"@
        + enc_str(crate::response_codes::rcode_name_chars(r.response_code))
        + ",\"query_time_ms\":"@ + dec_chars(r.query_time_ms as nat) + "}"@
}

/// Builds the document-store JSON document of one record.
pub fn es_document(rec: &crate::dns_records::DnsRecord) -> (r: String)
    ensures
        exists|ts: Seq<char>|
            {
                &&& r@ == #[trigger] es_doc_with(*rec, ts)
                &&& crate::time::spec_parse_timestamp(ts) == Some(rec.timestamp_ms)
            },
{
    let mut out: Vec<char> = Vec::new();
    push_lit(&mut out, "{\"@timestamp\":");
    let ts = crate::time::format_timestamp(rec.timestamp_ms);
    out.push('"');
    push_all(&mut out, &ts);
    out.push('"');
    push_lit(&mut out, ",\"domain\":");
    push_str_token(&mut out, rec.domain.as_str());
    push_lit(&mut out, ",\"record_type\":");
    let tn = rec.record_type.to_string();
    push_str_token(&mut out, tn.as_str());
    push_lit(&mut out, ",\"value\":");
    let vt = rec.value.to_string();
    push_str_token(&mut out, vt.as_str());
    push_lit(&mut out, ",\"resolver\":");
    push_str_token(&mut out, rec.resolver.as_str());
    push_lit(&mut out, ",\"ttl\":");
    push_u64_token(&mut out, rec.ttl as u64);
    push_lit(&mut out, ",\"response_code\":");
    let rn = rec.response_code.to_string();
    push_str_token(&mut out, rn.as_str());
    push_lit(&mut out, ",\"query_time_ms\":");
    push_u64_token(&mut out, rec.query_time_ms);
    push_lit(&mut out, "}");
    proof {
        lemma_esc_plain(ts@);
        assert(out@ =~= es_doc_with(*rec, ts@));
    }
    crate::text::string_from_chars(&out)
}

/// The JSON name of a response code.
pub fn json_rcode_name(rc: &crate::response_codes::ResponseCode) -> (r: String)
    ensures
        r@ == json_rcode_chars(*rc),
{
    match rc {
        crate::response_codes::ResponseCode::NoError => String::from_str("NOERROR"),
        crate::response_codes::ResponseCode::ServFail => String::from_str("SERVFAIL"),
        crate::response_codes::ResponseCode::NxDomain => String::from_str("NXDOMAIN"),
        crate::response_codes::ResponseCode::Refused => String::from_str("REFUSED"),
        crate::response_codes::ResponseCode::FormErr => String::from_str("FORMERR"),
        crate::response_codes::ResponseCode::NotImp => String::from_str("NOTIMP"),
        crate::response_codes::ResponseCode::ServFailOther => String::from_str("OTHER"),
    }
}

/// A text without quotes, backslashes or control characters escapes to
/// itself.
pub proof fn lemma_esc_plain(s: Seq<char>)
    requires
        forall|i: int| 0 <= i < s.len() ==> #[trigger] s[i] != '"' && s[i] != '\\' && (s[i] as u32)
            >= 32,
    ensures
        esc(s) == s,
    decreases s.len(),
{
    if s.len() > 0 {
        assert(forall|i: int| 0 <= i < s.skip(1).len() ==> #[trigger] s.skip(1)[i] == s[i + 1]);
        lemma_esc_plain(s.skip(1));
        lemma_char_code(s[0]);
        assert(esc_char(s[0]) == seq![s[0]]);
        assert(seq![s[0]] + s.skip(1) =~= s);
    }
}

/// A literal at a cursor: the position after it when the text holds it
/// there.
pub open spec fn p_lit(s: Seq<char>, i: int, lit: Seq<char>) -> Option<int> {
    if 0 <= i && i + lit.len() <= s.len() && s.subrange(i, i + lit.len()) == lit {
        Some(i + lit.len())
    } else {
        None
    }
}

/// A string token at a cursor: its content and the position after it.
pub open spec fn p_string(s: Seq<char>, i: int) -> Option<(Seq<char>, int)> {
    if 0 <= i < s.len() && s[i] == '"' {
        match scan_string(s.skip(i + 1)) {
            Some((content, used)) => Some((content, i + 1 + used)),
            None => None,
        }
    } else {
        None
    }
}

/// An unsigned number token at a cursor.
pub open spec fn p_u64(s: Seq<char>, i: int) -> Option<(u64, int)> {
    if 0 <= i <= s.len() {
        match scan_u64(s.skip(i)) {
            Some((n, used)) => Some((n, i + used)),
            None => None,
        }
    } else {
        None
    }
}

/// A signed number token at a cursor.
pub open spec fn p_i32(s: Seq<char>, i: int) -> Option<(i32, int)> {
    if 0 <= i <= s.len() {
        match scan_i32(s.skip(i)) {
            Some((n, used)) => Some((n, i + used)),
            None => None,
        }
    } else {
        None
    }
}

/// A byte-string token at a cursor.
pub open spec fn p_bytes(s: Seq<char>, i: int) -> Option<(Seq<u8>, int)> {
    if 0 <= i < s.len() && s[i] == '"' {
        match scan_bytes(s.skip(i + 1)) {
            Some((bytes, used)) => Some((bytes, i + 1 + used)),
            None => None,
        }
    } else {
        None
    }
}

/// A string-array token at a cursor.
pub open spec fn p_strarray(s: Seq<char>, i: int) -> Option<(Seq<Seq<char>>, int)> {
    if 0 <= i && i + 2 <= s.len() && s[i] == '[' {
        if s[i + 1] == ']' {
            Some((Seq::empty(), i + 2))
        } else {
            match scan_items(s.skip(i + 1), s.len() as nat) {
                Some((items, used)) => Some((items, i + 1 + used)),
                None => None,
            }
        }
    } else {
        None
    }
}

/// The comma-separated string items up to a closing bracket.
pub open spec fn scan_items(s: Seq<char>, fuel: nat) -> Option<(Seq<Seq<char>>, int)>
    decreases fuel,
{
    if fuel == 0 {
        None
    } else if s.len() >= 1 && s[0] == '"' {
        match scan_string(s.skip(1)) {
            Some((content, used)) => {
                let after = s.skip(1 + used);
                if after.len() >= 1 && after[0] == ',' {
                    match scan_items(after.skip(1), (fuel - 1) as nat) {
                        Some((items, used2)) => Some((seq![content] + items, 1 + used + 1 + used2)),
                        None => None,
                    }
                } else if after.len() >= 1 && after[0] == ']' {
                    Some((seq![content], 1 + used + 1))
                } else {
                    None
                }
            },
            None => None,
        }
    } else {
        None
    }
}

/// A literal parses at its own position.
pub proof fn lemma_p_lit_at(a: Seq<char>, lit: Seq<char>, b: Seq<char>)
    ensures
        p_lit(a + lit + b, a.len() as int, lit) == Some(a.len() + lit.len() as int),
{
    let s = a + lit + b;
    assert(s.subrange(a.len() as int, a.len() + lit.len() as int) =~= lit);
}

/// A string token parses at its own position.
pub proof fn lemma_p_string_at(a: Seq<char>, content: Seq<char>, b: Seq<char>)
    ensures
        p_string(a + enc_str(content) + b, a.len() as int) == Some(
            (content, a.len() + enc_str(content).len() as int),
        ),
{
    let s = a + enc_str(content) + b;
    assert(s[a.len() as int] == '"');
    assert(s.skip(a.len() as int + 1) =~= esc(content) + seq!['"'] + b);
    lemma_scan_escaped(content, b);
}

/// An unsigned number token parses at its own position.
pub proof fn lemma_p_u64_at(a: Seq<char>, n: u64, b: Seq<char>)
    requires
        b.len() == 0 || !is_digit_char(b[0]),
    ensures
        p_u64(a + dec_chars(n as nat) + b, a.len() as int) == Some(
            (n, a.len() + dec_chars(n as nat).len() as int),
        ),
{
    let s = a + dec_chars(n as nat) + b;
    assert(s.skip(a.len() as int) =~= dec_chars(n as nat) + b);
    lemma_scan_u64(n, b);
}

/// A signed number token parses at its own position.
pub proof fn lemma_p_i32_at(a: Seq<char>, n: i32, b: Seq<char>)
    requires
        b.len() == 0 || !is_digit_char(b[0]),
    ensures
        p_i32(a + enc_i32(n as int) + b, a.len() as int) == Some(
            (n, a.len() + enc_i32(n as int).len() as int),
        ),
{
    let s = a + enc_i32(n as int) + b;
    assert(s.skip(a.len() as int) =~= enc_i32(n as int) + b);
    lemma_scan_i32(n, b);
}

/// A byte-string token parses at its own position.
pub proof fn lemma_p_bytes_at(a: Seq<char>, bytes: Seq<u8>, b: Seq<char>)
    ensures
        p_bytes(a + enc_bytes(bytes) + b, a.len() as int) == Some(
            (bytes, a.len() + enc_bytes(bytes).len() as int),
        ),
{
    let s = a + enc_bytes(bytes) + b;
    assert(s[a.len() as int] == '"');
    assert(s.skip(a.len() as int + 1) =~= bytes_hex(bytes) + seq!['"'] + b);
    lemma_scan_bytes(bytes, b);
}

/// The items of a nonempty array scan back, with any fuel at least their
/// count.
pub proof fn lemma_scan_items_at(ps: Seq<Seq<char>>, b: Seq<char>, fuel: nat)
    requires
        ps.len() >= 1,
        fuel >= ps.len(),
    ensures
        scan_items(enc_items(ps) + seq![']'] + b, fuel) == Some(
            (ps, enc_items(ps).len() + 1 as int),
        ),
    decreases ps.len(),
{
    let s = enc_items(ps) + seq![']'] + b;
    if ps.len() == 1 {
        assert(enc_items(ps) == enc_str(ps[0]));
        assert(s =~= seq!['"'] + (esc(ps[0]) + seq!['"'] + (seq![']'] + b)));
        assert(s[0] == '"');
        assert(s.skip(1) =~= esc(ps[0]) + seq!['"'] + (seq![']'] + b));
        lemma_scan_escaped(ps[0], seq![']'] + b);
        let used = esc(ps[0]).len() as int + 1;
        let after = s.skip(1 + used);
        assert(after =~= seq![']'] + b);
        assert(after[0] == ']');
        assert(seq![ps[0]] =~= ps);
    } else {
        let tail = ps.skip(1);
        assert(enc_items(ps) == enc_str(ps[0]) + seq![','] + enc_items(tail));
        lemma_scan_items_at(tail, b, (fuel - 1) as nat);
        assert(s[0] == '"');
        let inner = enc_items(tail) + seq![']'] + b;
        assert(s.skip(1) =~= esc(ps[0]) + seq!['"'] + (seq![','] + inner));
        lemma_scan_escaped(ps[0], seq![','] + inner);
        let used = esc(ps[0]).len() as int + 1;
        let after = s.skip(1 + used);
        assert(after =~= seq![','] + inner);
        assert(after[0] == ',');
        assert(after.skip(1) =~= inner);
        assert(seq![ps[0]] + tail =~= ps);
    }
}

/// A string array parses at its own position.
pub proof fn lemma_p_strarray_at(a: Seq<char>, ps: Seq<Seq<char>>, b: Seq<char>)
    requires
        (a + enc_strarray(ps) + b).len() >= ps.len(),
        b.len() == 0 || b[0] != ']',
        ps.len() >= 1 ==> enc_items(ps)[0] == '"',
    ensures
        p_strarray(a + enc_strarray(ps) + b, a.len() as int) == Some(
            (ps, a.len() + enc_strarray(ps).len() as int),
        ),
{
    let s = a + enc_strarray(ps) + b;
    if ps.len() == 0 {
        assert(s[a.len() as int] == '[');
        assert(s[a.len() as int + 1] == ']');
        assert(ps =~= Seq::<Seq<char>>::empty());
    } else {
        assert(s[a.len() as int] == '[');
        assert(enc_items(ps).len() >= 1) by {
            lemma_enc_items_len(ps);
        }
        assert(s[a.len() as int + 1] == enc_items(ps)[0]);
        assert(s[a.len() as int + 1] != ']') by {
            assert(enc_items(ps)[0] == '"');
        }
        assert(s.skip(a.len() as int + 1) =~= enc_items(ps) + seq![']'] + b);
        lemma_scan_items_at(ps, b, s.len() as nat);
        assert(s.len() >= ps.len());
    }
}

/// A nonempty item list has nonempty text starting with a quote.
pub proof fn lemma_enc_items_len(ps: Seq<Seq<char>>)
    requires
        ps.len() >= 1,
    ensures
        enc_items(ps).len() >= 1,
        enc_items(ps)[0] == '"',
    decreases ps.len(),
{
    if ps.len() == 1 {
        assert(enc_items(ps) == enc_str(ps[0]));
    } else {
        assert(enc_items(ps) == enc_str(ps[0]) + seq![','] + enc_items(ps.skip(1)));
    }
}

/// The fields of a `ip` value object after its opening key.
pub open spec fn pv_ip(s: Seq<char>, j0: int) -> Option<(ValueData, int)> {
    match p_string(s, j0) {
        Some((t0, j1)) => match p_lit(s, j1, "}"@) {
            Some(j2) => match crate::ip::spec_parse_ip(t0) {
                Some(addr) => Some((ValueData::Ip(addr), j2)),
                None => None,
            },
            None => None,
        },
        None => None,
    }
}

/// The fields of a `domain` value object after its opening key.
pub open spec fn pv_domain(s: Seq<char>, j0: int) -> Option<(ValueData, int)> {
    match p_string(s, j0) {
        Some((t0, j1)) => match p_lit(s, j1, "}"@) {
            Some(j2) => Some((ValueData::Domain(t0), j2)),
            None => None,
        },
        None => None,
    }
}

/// The fields of a `text` value object after its opening key.
pub open spec fn pv_text(s: Seq<char>, j0: int) -> Option<(ValueData, int)> {
    match p_string(s, j0) {
        Some((t0, j1)) => match p_lit(s, j1, "}"@) {
            Some(j2) => Some((ValueData::Text(t0), j2)),
            None => None,
        },
        None => None,
    }
}

/// The fields of a `mx` value object after its opening key.
pub open spec fn pv_mx(s: Seq<char>, j0: int) -> Option<(ValueData, int)> {
    match p_u64(s, j0) {
        Some((x0, j1)) => if x0 <= u16::MAX as u64 {
        match p_lit(s, j1, ",\"exchange\":"@) {
            Some(k1) => {
            match p_string(s, k1) {
                Some((x1, j2)) => {
                match p_lit(s, j2, "}}"@) {
                    Some(jend) => Some((ValueData::Mx(x0 as u16, x1), jend)),
                    None => None,
                }
                },
                None => None,
            }
            },
            None => None,
        }
        } else {
            None
        },
        None => None,
    }
}

/// The fields of a `srv` value object after its opening key.
pub open spec fn pv_srv(s: Seq<char>, j0: int) -> Option<(ValueData, int)> {
    match p_u64(s, j0) {
        Some((x0, j1)) => if x0 <= u16::MAX as u64 {
        match p_lit(s, j1, ",\"weight\":"@) {
            Some(k1) => {
            match p_u64(s, k1) {
                Some((x1, j2)) => if x1 <= u16::MAX as u64 {
                match p_lit(s, j2, ",\"port\":"@) {
                    Some(k2) => {
                    match p_u64(s, k2) {
                        Some((x2, j3)) => if x2 <= u16::MAX as u64 {
                        match p_lit(s, j3, ",\"target\":"@) {
                            Some(k3) => {
                            match p_string(s, k3) {
                                Some((x3, j4)) => {
                                match p_lit(s, j4, "}}"@) {
                                    Some(jend) => Some((ValueData::Srv(x0 as u16, x1 as u16, x2 as u16, x3), jend)),
                                    None => None,
                                }
                                },
                                None => None,
                            }
                            },
                            None => None,
                        }
                        } else {
                            None
                        },
                        None => None,
                    }
                    },
                    None => None,
                }
                } else {
                    None
                },
                None => None,
            }
            },
            None => None,
        }
        } else {
            None
        },
        None => None,
    }
}

/// The fields of a `soa` value object after its opening key.
pub open spec fn pv_soa(s: Seq<char>, j0: int) -> Option<(ValueData, int)> {
    match p_string(s, j0) {
        Some((x0, j1)) => {
        match p_lit(s, j1, ",\"rname\":"@) {
            Some(k1) => {
            match p_string(s, k1) {
                Some((x1, j2)) => {
                match p_lit(s, j2, ",\"serial\":"@) {
                    Some(k2) => {
                    match p_u64(s, k2) {
                        Some((x2, j3)) => if x2 <= u32::MAX as u64 {
                        match p_lit(s, j3, ",\"refresh\":"@) {
                            Some(k3) => {
                            match p_i32(s, k3) {
                                Some((x3, j4)) => {
                                match p_lit(s, j4, ",\"retry\":"@) {
                                    Some(k4) => {
                                    match p_i32(s, k4) {
                                        Some((x4, j5)) => {
                                        match p_lit(s, j5, ",\"expire\":"@) {
                                            Some(k5) => {
                                            match p_i32(s, k5) {
                                                Some((x5, j6)) => {
                                                match p_lit(s, j6, ",\"minimum\":"@) {
                                                    Some(k6) => {
                                                    match p_u64(s, k6) {
                                                        Some((x6, j7)) => if x6 <= u32::MAX as u64 {
                                                        match p_lit(s, j7, "}}"@) {
                                                            Some(jend) => Some((ValueData::Soa(x0, x1, x2 as u32, x3, x4, x5, x6 as u32), jend)),
                                                            None => None,
                                                        }
                                                        } else {
                                                            None
                                                        },
                                                        None => None,
                                                    }
                                                    },
                                                    None => None,
                                                }
                                                },
                                                None => None,
                                            }
                                            },
                                            None => None,
                                        }
                                        },
                                        None => None,
                                    }
                                    },
                                    None => None,
                                }
                                },
                                None => None,
                            }
                            },
                            None => None,
                        }
                        } else {
                            None
                        },
                        None => None,
                    }
                    },
                    None => None,
                }
                },
                None => None,
            }
            },
            None => None,
        }
        },
        None => None,
    }
}

/// The fields of a `caa` value object after its opening key.
pub open spec fn pv_caa(s: Seq<char>, j0: int) -> Option<(ValueData, int)> {
    match p_u64(s, j0) {
        Some((x0, j1)) => if x0 <= u8::MAX as u64 {
        match p_lit(s, j1, ",\"tag\":"@) {
            Some(k1) => {
            match p_string(s, k1) {
                Some((x1, j2)) => {
                match p_lit(s, j2, ",\"value\":"@) {
                    Some(k2) => {
                    match p_string(s, k2) {
                        Some((x2, j3)) => {
                        match p_lit(s, j3, "}}"@) {
                            Some(jend) => Some((ValueData::Caa(x0 as u8, x1, x2), jend)),
                            None => None,
                        }
                        },
                        None => None,
                    }
                    },
                    None => None,
                }
                },
                None => None,
            }
            },
            None => None,
        }
        } else {
            None
        },
        None => None,
    }
}

/// The fields of a `cert` value object after its opening key.
pub open spec fn pv_cert(s: Seq<char>, j0: int) -> Option<(ValueData, int)> {
    match p_u64(s, j0) {
        Some((x0, j1)) => if x0 <= u16::MAX as u64 {
        match p_lit(s, j1, ",\"key_tag\":"@) {
            Some(k1) => {
            match p_u64(s, k1) {
                Some((x1, j2)) => if x1 <= u16::MAX as u64 {
                match p_lit(s, j2, ",\"algorithm\":"@) {
                    Some(k2) => {
                    match p_u64(s, k2) {
                        Some((x2, j3)) => if x2 <= u8::MAX as u64 {
                        match p_lit(s, j3, ",\"certificate\":"@) {
                            Some(k3) => {
                            match p_bytes(s, k3) {
                                Some((x3, j4)) => {
                                match p_lit(s, j4, "}}"@) {
                                    Some(jend) => Some((ValueData::Cert(x0 as u16, x1 as u16, x2 as u8, x3), jend)),
                                    None => None,
                                }
                                },
                                None => None,
                            }
                            },
                            None => None,
                        }
                        } else {
                            None
                        },
                        None => None,
                    }
                    },
                    None => None,
                }
                } else {
                    None
                },
                None => None,
            }
            },
            None => None,
        }
        } else {
            None
        },
        None => None,
    }
}

/// The fields of a `dnskey` value object after its opening key.
pub open spec fn pv_dnskey(s: Seq<char>, j0: int) -> Option<(ValueData, int)> {
    match p_u64(s, j0) {
        Some((x0, j1)) => if x0 <= u16::MAX as u64 {
        match p_lit(s, j1, ",\"protocol\":"@) {
            Some(k1) => {
            match p_u64(s, k1) {
                Some((x1, j2)) => if x1 <= u8::MAX as u64 {
                match p_lit(s, j2, ",\"algorithm\":"@) {
                    Some(k2) => {
                    match p_u64(s, k2) {
                        Some((x2, j3)) => if x2 <= u8::MAX as u64 {
                        match p_lit(s, j3, ",\"public_key\":"@) {
                            Some(k3) => {
                            match p_bytes(s, k3) {
                                Some((x3, j4)) => {
                                match p_lit(s, j4, "}}"@) {
                                    Some(jend) => Some((ValueData::Dnskey(x0 as u16, x1 as u8, x2 as u8, x3), jend)),
                                    None => None,
                                }
                                },
                                None => None,
                            }
                            },
                            None => None,
                        }
                        } else {
                            None
                        },
                        None => None,
                    }
                    },
                    None => None,
                }
                } else {
                    None
                },
                None => None,
            }
            },
            None => None,
        }
        } else {
            None
        },
        None => None,
    }
}

/// The fields of a `ds` value object after its opening key.
pub open spec fn pv_ds(s: Seq<char>, j0: int) -> Option<(ValueData, int)> {
    match p_u64(s, j0) {
        Some((x0, j1)) => if x0 <= u16::MAX as u64 {
        match p_lit(s, j1, ",\"algorithm\":"@) {
            Some(k1) => {
            match p_u64(s, k1) {
                Some((x1, j2)) => if x1 <= u8::MAX as u64 {
                match p_lit(s, j2, ",\"digest_type\":"@) {
                    Some(k2) => {
                    match p_u64(s, k2) {
                        Some((x2, j3)) => if x2 <= u8::MAX as u64 {
                        match p_lit(s, j3, ",\"digest\":"@) {
                            Some(k3) => {
                            match p_bytes(s, k3) {
                                Some((x3, j4)) => {
                                match p_lit(s, j4, "}}"@) {
                                    Some(jend) => Some((ValueData::Ds(x0 as u16, x1 as u8, x2 as u8, x3), jend)),
                                    None => None,
                                }
                                },
                                None => None,
                            }
                            },
                            None => None,
                        }
                        } else {
                            None
                        },
                        None => None,
                    }
                    },
                    None => None,
                }
                } else {
                    None
                },
                None => None,
            }
            },
            None => None,
        }
        } else {
            None
        },
        None => None,
    }
}

/// The fields of a `hinfo` value object after its opening key.
pub open spec fn pv_hinfo(s: Seq<char>, j0: int) -> Option<(ValueData, int)> {
    match p_string(s, j0) {
        Some((x0, j1)) => {
        match p_lit(s, j1, ",\"os\":"@) {
            Some(k1) => {
            match p_string(s, k1) {
                Some((x1, j2)) => {
                match p_lit(s, j2, "}}"@) {
                    Some(jend) => Some((ValueData::Hinfo(x0, x1), jend)),
                    None => None,
                }
                },
                None => None,
            }
            },
            None => None,
        }
        },
        None => None,
    }
}

/// The fields of a `https` value object after its opening key.
pub open spec fn pv_https(s: Seq<char>, j0: int) -> Option<(ValueData, int)> {
    match p_u64(s, j0) {
        Some((x0, j1)) => if x0 <= u16::MAX as u64 {
        match p_lit(s, j1, ",\"target\":"@) {
            Some(k1) => {
            match p_string(s, k1) {
                Some((x1, j2)) => {
                match p_lit(s, j2, ",\"params\":"@) {
                    Some(k2) => {
                    match p_strarray(s, k2) {
                        Some((x2, j3)) => {
                        match p_lit(s, j3, "}}"@) {
                            Some(jend) => Some((ValueData::Https(x0 as u16, x1, x2), jend)),
                            None => None,
                        }
                        },
                        None => None,
                    }
                    },
                    None => None,
                }
                },
                None => None,
            }
            },
            None => None,
        }
        } else {
            None
        },
        None => None,
    }
}

/// The fields of a `key` value object after its opening key.
pub open spec fn pv_key(s: Seq<char>, j0: int) -> Option<(ValueData, int)> {
    match p_u64(s, j0) {
        Some((x0, j1)) => if x0 <= u16::MAX as u64 {
        match p_lit(s, j1, ",\"protocol\":"@) {
            Some(k1) => {
            match p_u64(s, k1) {
                Some((x1, j2)) => if x1 <= u8::MAX as u64 {
                match p_lit(s, j2, ",\"algorithm\":"@) {
                    Some(k2) => {
                    match p_u64(s, k2) {
                        Some((x2, j3)) => if x2 <= u8::MAX as u64 {
                        match p_lit(s, j3, ",\"public_key\":"@) {
                            Some(k3) => {
                            match p_bytes(s, k3) {
                                Some((x3, j4)) => {
                                match p_lit(s, j4, "}}"@) {
                                    Some(jend) => Some((ValueData::Key(x0 as u16, x1 as u8, x2 as u8, x3), jend)),
                                    None => None,
                                }
                                },
                                None => None,
                            }
                            },
                            None => None,
                        }
                        } else {
                            None
                        },
                        None => None,
                    }
                    },
                    None => None,
                }
                } else {
                    None
                },
                None => None,
            }
            },
            None => None,
        }
        } else {
            None
        },
        None => None,
    }
}

/// The fields of a `loc` value object after its opening key.
pub open spec fn pv_loc(s: Seq<char>, j0: int) -> Option<(ValueData, int)> {
    match p_u64(s, j0) {
        Some((x0, j1)) => if x0 <= u8::MAX as u64 {
            match p_lit(s, j1, ",\"size\":"@) {
                Some(k1) => match p_u64(s, k1) {
                    Some((x1, j2)) => if x1 <= u8::MAX as u64 {
                        match p_lit(s, j2, ",\"horiz_pre\":"@) {
                            Some(k2) => pv_loc_rest(s, k2, x0 as u8, x1 as u8),
                            None => None,
                        }
                    } else {
                        None
                    },
                    None => None,
                },
                None => None,
            }
        } else {
            None
        },
        None => None,
    }
}

/// The remaining fields of a `loc` value object.
pub open spec fn pv_loc_rest(s: Seq<char>, k2: int, version: u8, size: u8) -> Option<
    (ValueData, int),
> {
    match p_u64(s, k2) {
        Some((x2, j3)) => if x2 <= u8::MAX as u64 {
            match p_lit(s, j3, ",\"vert_pre\":"@) {
                Some(k3) => match p_u64(s, k3) {
                    Some((x3, j4)) => if x3 <= u8::MAX as u64 {
                        match p_lit(s, j4, ",\"latitude\":"@) {
                            Some(k4) => match p_u64(s, k4) {
                                Some((x4, j5)) => if x4 <= u32::MAX as u64 {
                                    match p_lit(s, j5, ",\"longitude\":"@) {
                                        Some(k5) => match p_u64(s, k5) {
                                            Some((x5, j6)) => if x5 <= u32::MAX as u64 {
                                                match p_lit(s, j6, ",\"altitude\":"@) {
                                                    Some(k6) => match p_u64(s, k6) {
                                                        Some((x6, j7)) => if x6 <= u32::MAX as u64 {
                                                            match p_lit(s, j7, "}}"@) {
                                                                Some(jend) => Some(
                                                                    (
                                                                        ValueData::Loc(
                                                                            version,
                                                                            size,
                                                                            x2 as u8,
                                                                            x3 as u8,
                                                                            x4 as u32,
                                                                            x5 as u32,
                                                                            x6 as u32,
                                                                        ),
                                                                        jend,
                                                                    ),
                                                                ),
                                                                None => None,
                                                            }
                                                        } else {
                                                            None
                                                        },
                                                        None => None,
                                                    },
                                                    None => None,
                                                }
                                            } else {
                                                None
                                            },
                                            None => None,
                                        },
                                        None => None,
                                    }
                                } else {
                                    None
                                },
                                None => None,
                            },
                            None => None,
                        }
                    } else {
                        None
                    },
                    None => None,
                },
                None => None,
            }
        } else {
            None
        },
        None => None,
    }
}

/// The fields of a `naptr` value object after its opening key.
pub open spec fn pv_naptr(s: Seq<char>, j0: int) -> Option<(ValueData, int)> {
    match p_u64(s, j0) {
        Some((x0, j1)) => if x0 <= u16::MAX as u64 {
        match p_lit(s, j1, ",\"preference\":"@) {
            Some(k1) => {
            match p_u64(s, k1) {
                Some((x1, j2)) => if x1 <= u16::MAX as u64 {
                match p_lit(s, j2, ",\"flags\":"@) {
                    Some(k2) => {
                    match p_string(s, k2) {
                        Some((x2, j3)) => {
                        match p_lit(s, j3, ",\"services\":"@) {
                            Some(k3) => {
                            match p_string(s, k3) {
                                Some((x3, j4)) => {
                                match p_lit(s, j4, ",\"regexp\":"@) {
                                    Some(k4) => {
                                    match p_string(s, k4) {
                                        Some((x4, j5)) => {
                                        match p_lit(s, j5, ",\"replacement\":"@) {
                                            Some(k5) => {
                                            match p_string(s, k5) {
                                                Some((x5, j6)) => {
                                                match p_lit(s, j6, "}}"@) {
                                                    Some(jend) => Some((ValueData::Naptr(x0 as u16, x1 as u16, x2, x3, x4, x5), jend)),
                                                    None => None,
                                                }
                                                },
                                                None => None,
                                            }
                                            },
                                            None => None,
                                        }
                                        },
                                        None => None,
                                    }
                                    },
                                    None => None,
                                }
                                },
                                None => None,
                            }
                            },
                            None => None,
                        }
                        },
                        None => None,
                    }
                    },
                    None => None,
                }
                } else {
                    None
                },
                None => None,
            }
            },
            None => None,
        }
        } else {
            None
        },
        None => None,
    }
}

/// The fields of a `sshfp` value object after its opening key.
pub open spec fn pv_sshfp(s: Seq<char>, j0: int) -> Option<(ValueData, int)> {
    match p_u64(s, j0) {
        Some((x0, j1)) => if x0 <= u8::MAX as u64 {
        match p_lit(s, j1, ",\"fingerprint_type\":"@) {
            Some(k1) => {
            match p_u64(s, k1) {
                Some((x1, j2)) => if x1 <= u8::MAX as u64 {
                match p_lit(s, j2, ",\"fingerprint\":"@) {
                    Some(k2) => {
                    match p_bytes(s, k2) {
                        Some((x2, j3)) => {
                        match p_lit(s, j3, "}}"@) {
                            Some(jend) => Some((ValueData::Sshfp(x0 as u8, x1 as u8, x2), jend)),
                            None => None,
                        }
                        },
                        None => None,
                    }
                    },
                    None => None,
                }
                } else {
                    None
                },
                None => None,
            }
            },
            None => None,
        }
        } else {
            None
        },
        None => None,
    }
}

/// The fields of a `svcb` value object after its opening key.
pub open spec fn pv_svcb(s: Seq<char>, j0: int) -> Option<(ValueData, int)> {
    match p_u64(s, j0) {
        Some((x0, j1)) => if x0 <= u16::MAX as u64 {
        match p_lit(s, j1, ",\"target\":"@) {
            Some(k1) => {
            match p_string(s, k1) {
                Some((x1, j2)) => {
                match p_lit(s, j2, ",\"params\":"@) {
                    Some(k2) => {
                    match p_strarray(s, k2) {
                        Some((x2, j3)) => {
                        match p_lit(s, j3, "}}"@) {
                            Some(jend) => Some((ValueData::Svcb(x0 as u16, x1, x2), jend)),
                            None => None,
                        }
                        },
                        None => None,
                    }
                    },
                    None => None,
                }
                },
                None => None,
            }
            },
            None => None,
        }
        } else {
            None
        },
        None => None,
    }
}

/// The fields of a `tlsa` value object after its opening key.
pub open spec fn pv_tlsa(s: Seq<char>, j0: int) -> Option<(ValueData, int)> {
    match p_u64(s, j0) {
        Some((x0, j1)) => if x0 <= u8::MAX as u64 {
        match p_lit(s, j1, ",\"selector\":"@) {
            Some(k1) => {
            match p_u64(s, k1) {
                Some((x1, j2)) => if x1 <= u8::MAX as u64 {
                match p_lit(s, j2, ",\"matching_type\":"@) {
                    Some(k2) => {
                    match p_u64(s, k2) {
                        Some((x2, j3)) => if x2 <= u8::MAX as u64 {
                        match p_lit(s, j3, ",\"cert_data\":"@) {
                            Some(k3) => {
                            match p_bytes(s, k3) {
                                Some((x3, j4)) => {
                                match p_lit(s, j4, "}}"@) {
                                    Some(jend) => Some((ValueData::Tlsa(x0 as u8, x1 as u8, x2 as u8, x3), jend)),
                                    None => None,
                                }
                                },
                                None => None,
                            }
                            },
                            None => None,
                        }
                        } else {
                            None
                        },
                        None => None,
                    }
                    },
                    None => None,
                }
                } else {
                    None
                },
                None => None,
            }
            },
            None => None,
        }
        } else {
            None
        },
        None => None,
    }
}

/// The fields of a `uri` value object after its opening key.
pub open spec fn pv_uri(s: Seq<char>, j0: int) -> Option<(ValueData, int)> {
    match p_u64(s, j0) {
        Some((x0, j1)) => if x0 <= u16::MAX as u64 {
        match p_lit(s, j1, ",\"weight\":"@) {
            Some(k1) => {
            match p_u64(s, k1) {
                Some((x1, j2)) => if x1 <= u16::MAX as u64 {
                match p_lit(s, j2, ",\"target\":"@) {
                    Some(k2) => {
                    match p_string(s, k2) {
                        Some((x2, j3)) => {
                        match p_lit(s, j3, "}}"@) {
                            Some(jend) => Some((ValueData::Uri(x0 as u16, x1 as u16, x2), jend)),
                            None => None,
                        }
                        },
                        None => None,
                    }
                    },
                    None => None,
                }
                } else {
                    None
                },
                None => None,
            }
            },
            None => None,
        }
        } else {
            None
        },
        None => None,
    }
}

/// The fields of a `other` value object after its opening key.
pub open spec fn pv_other(s: Seq<char>, j0: int) -> Option<(ValueData, int)> {
    match p_string(s, j0) {
        Some((t0, j1)) => match p_lit(s, j1, "}"@) {
            Some(j2) => Some((ValueData::Other(t0), j2)),
            None => None,
        },
        None => None,
    }
}

/// A value object at a cursor: the value content and the position after
/// it. The single key names the variant.
pub open spec fn spec_parse_value(s: Seq<char>, i: int) -> Option<(ValueData, int)> {
    if (p_lit(s, i, "{\"ip\":"@) is Some) {
        pv_ip(s, p_lit(s, i, "{\"ip\":"@).unwrap())
    } else if (p_lit(s, i, "{\"domain\":"@) is Some) {
        pv_domain(s, p_lit(s, i, "{\"domain\":"@).unwrap())
    } else if (p_lit(s, i, "{\"text\":"@) is Some) {
        pv_text(s, p_lit(s, i, "{\"text\":"@).unwrap())
    } else if (p_lit(s, i, "{\"mx\":{\"priority\":"@) is Some) {
        pv_mx(s, p_lit(s, i, "{\"mx\":{\"priority\":"@).unwrap())
    } else if (p_lit(s, i, "{\"srv\":{\"priority\":"@) is Some) {
        pv_srv(s, p_lit(s, i, "{\"srv\":{\"priority\":"@).unwrap())
    } else if (p_lit(s, i, "{\"soa\":{\"mname\":"@) is Some) {
        pv_soa(s, p_lit(s, i, "{\"soa\":{\"mname\":"@).unwrap())
    } else if (p_lit(s, i, "{\"caa\":{\"flags\":"@) is Some) {
        pv_caa(s, p_lit(s, i, "{\"caa\":{\"flags\":"@).unwrap())
    } else if (p_lit(s, i, "{\"cert\":{\"cert_type\":"@) is Some) {
        pv_cert(s, p_lit(s, i, "{\"cert\":{\"cert_type\":"@).unwrap())
    } else if (p_lit(s, i, "{\"dnskey\":{\"flags\":"@) is Some) {
        pv_dnskey(s, p_lit(s, i, "{\"dnskey\":{\"flags\":"@).unwrap())
    } else if (p_lit(s, i, "{\"ds\":{\"key_tag\":"@) is Some) {
        pv_ds(s, p_lit(s, i, "{\"ds\":{\"key_tag\":"@).unwrap())
    } else if (p_lit(s, i, "{\"hinfo\":{\"cpu\":"@) is Some) {
        pv_hinfo(s, p_lit(s, i, "{\"hinfo\":{\"cpu\":"@).unwrap())
    } else if (p_lit(s, i, "{\"https\":{\"priority\":"@) is Some) {
        pv_https(s, p_lit(s, i, "{\"https\":{\"priority\":"@).unwrap())
    } else if (p_lit(s, i, "{\"key\":{\"flags\":"@) is Some) {
        pv_key(s, p_lit(s, i, "{\"key\":{\"flags\":"@).unwrap())
    } else if (p_lit(s, i, "{\"loc\":{\"version\":"@) is Some) {
        pv_loc(s, p_lit(s, i, "{\"loc\":{\"version\":"@).unwrap())
    } else if (p_lit(s, i, "{\"naptr\":{\"order\":"@) is Some) {
        pv_naptr(s, p_lit(s, i, "{\"naptr\":{\"order\":"@).unwrap())
    } else if (p_lit(s, i, "{\"sshfp\":{\"algorithm\":"@) is Some) {
        pv_sshfp(s, p_lit(s, i, "{\"sshfp\":{\"algorithm\":"@).unwrap())
    } else if (p_lit(s, i, "{\"svcb\":{\"priority\":"@) is Some) {
        pv_svcb(s, p_lit(s, i, "{\"svcb\":{\"priority\":"@).unwrap())
    } else if (p_lit(s, i, "{\"tlsa\":{\"cert_usage\":"@) is Some) {
        pv_tlsa(s, p_lit(s, i, "{\"tlsa\":{\"cert_usage\":"@).unwrap())
    } else if (p_lit(s, i, "{\"uri\":{\"priority\":"@) is Some) {
        pv_uri(s, p_lit(s, i, "{\"uri\":{\"priority\":"@).unwrap())
    } else if (p_lit(s, i, "{\"other\":"@) is Some) {
        pv_other(s, p_lit(s, i, "{\"other\":"@).unwrap())
    } else {
        None
    }
}


/// Whether the literal stands at position `i`; the position after it.
fn expect_lit(v: &Vec<char>, i: usize, lit: &str) -> (r: Option<usize>)
    ensures
        match r {
            Some(j) => p_lit(v@, i as int, lit@) == Some(j as int) && i <= j <= v@.len(),
            None => (p_lit(v@, i as int, lit@) matches None),
        },
{
    let lc = crate::text::chars_of_str(lit);
    let n = v.len();
    if i > n || n - i < lc.len() {
        return None;
    }
    let mut t: usize = 0;
    while t < lc.len()
        invariant
            t <= lc@.len(),
            lc@ == lit@,
            i + lc@.len() <= n,
            n == v@.len(),
            forall|q: int| 0 <= q < t ==> v@[i + q] == lc@[q],
        decreases lc@.len() - t,
    {
        if v[i + t] != lc[t] {
            proof {
                assert(v@.subrange(i as int, i + lit@.len()) != lit@) by {
                    if v@.subrange(i as int, i + lit@.len()) == lit@ {
                        assert(v@.subrange(i as int, i + lit@.len())[t as int] == v@[i + t]);
                    }
                }
            }
            return None;
        }
        t = t + 1;
    }
    proof {
        assert(v@.subrange(i as int, i + lit@.len()) =~= lit@);
    }
    Some(i + lc.len())
}

/// The decoded content of a string body starting at `i` (after the opening
/// quote), and the position after the closing quote.
fn scan_string_exec(v: &Vec<char>, i: usize) -> (r: Option<(Vec<char>, usize)>)
    requires
        i <= v@.len(),
    ensures
        match r {
            Some(p) => scan_string(v@.skip(i as int)) == Some((p.0@, p.1 - i as int)) && i <= p.1
                <= v@.len(),
            None => (scan_string(v@.skip(i as int)) matches None),
        },
    decreases v@.len() - i,
{
    let ghost s = v@.skip(i as int);
    let n = v.len();
    if i == n {
        return None;
    }
    let c = v[i];
    proof {
        assert(s[0] == v@[i as int]);
        assert(s.skip(1) =~= v@.skip(i as int + 1));
    }
    if c == '"' {
        let out: Vec<char> = Vec::new();
        proof {
            assert(out@ =~= Seq::<char>::empty());
        }
        return Some((out, i + 1));
    }
    if c == '\\' {
        if i + 1 >= n {
            return None;
        }
        let c2 = v[i + 1];
        proof {
            assert(s.skip(2) =~= v@.skip(i as int + 2));
        }
        if c2 == '"' || c2 == '\\' {
            match scan_string_exec(v, i + 2) {
                Some((mut content, used)) => {
                    let ghost pre = content@;
                    content.insert(0, c2);
                    proof {
                        assert(content@ =~= seq![v@[i + 1]] + pre);
                    }
                    return Some((content, used));
                },
                None => {
                    return None;
                },
            }
        }
        if c2 == 'u' {
            if n - i < 6 {
                return None;
            }
            proof {
                assert(s.skip(6) =~= v@.skip(i as int + 6));
            }
            let h1 = v[i + 4];
            let h2 = v[i + 5];
            if !(v[i + 2] == '0' && v[i + 3] == '0' && crate::ip::is_hex_digit(h1)
                && crate::ip::is_hex_digit(h2)) {
                return None;
            }
            let d1 = hex_val_exec(h1);
            let d2 = hex_val_exec(h2);
            let code: u8 = (d1 * 16 + d2) as u8;
            match scan_string_exec(v, i + 6) {
                Some((mut content, used)) => {
                    let ghost pre = content@;
                    content.insert(0, code as char);
                    proof {
                        assert(code as int == crate::text::hex_digit_val(v@[i + 4]) * 16
                            + crate::text::hex_digit_val(v@[i + 5]));
                        assert(content@ =~= seq![
                            (((crate::text::hex_digit_val(s[4]) * 16 + crate::text::hex_digit_val(
                                s[5],
                            )) as u8) as char)
                        ] + pre);
                    }
                    return Some((content, used));
                },
                None => {
                    return None;
                },
            }
        }
        return None;
    }
    match scan_string_exec(v, i + 1) {
        Some((mut content, used)) => {
            let ghost pre = content@;
            content.insert(0, c);
            proof {
                assert(content@ =~= seq![v@[i as int]] + pre);
            }
            Some((content, used))
        },
        None => None,
    }
}

/// Value of one hex digit character.
fn hex_val_exec(c: char) -> (r: u32)
    requires
        crate::text::is_hex_digit_char(c),
    ensures
        r == crate::text::hex_digit_val(c),
        r < 16,
{
    let b = c as u32;
    if 48 <= b && b <= 57 {
        b - 48
    } else if 97 <= b && b <= 102 {
        10 + (b - 97)
    } else {
        10 + (b - 65)
    }
}

/// A string token at `i`: content and the position after it.
fn parse_string_tok(v: &Vec<char>, i: usize) -> (r: Option<(Vec<char>, usize)>)
    requires
        i <= v@.len(),
    ensures
        match r {
            Some(p) => p_string(v@, i as int) == Some((p.0@, p.1 as int)) && i < p.1 <= v@.len(),
            None => (p_string(v@, i as int) matches None),
        },
{
    if i >= v.len() {
        return None;
    }
    if v[i] != '"' {
        return None;
    }
    match scan_string_exec(v, i + 1) {
        Some((content, used)) => {
            proof {
                assert(v@.skip(i as int + 1) == v@.skip(i as int + 1));
            }
            Some((content, used))
        },
        None => None,
    }
}

/// An unsigned number token at `i`.
fn parse_u64_tok(v: &Vec<char>, i: usize) -> (r: Option<(u64, usize)>)
    requires
        i <= v@.len(),
    ensures
        match r {
            Some(p) => p_u64(v@, i as int) == Some((p.0, p.1 as int)) && i < p.1 <= v@.len(),
            None => (p_u64(v@, i as int) matches None),
        },
{
    let ghost s = v@.skip(i as int);
    let n = v.len();
    let j = crate::text::scan_digits_range(v, i, n);
    proof {
        assert(v@.subrange(i as int, n as int) =~= s);
        assert(digits_prefix_len(s) == j - i);
    }
    if j == i || j - i > 20 {
        return None;
    }
    proof {
        assert(forall|q: int| 0 <= q < j - i ==> is_digit_char(#[trigger] s[q]));
        assert(s.take((j - i) as int) =~= v@.subrange(i as int, j as int));
    }
    let val = crate::text::digits_value(v, i, j);
    if val > 0xffff_ffff_ffff_ffff {
        return None;
    }
    Some((val as u64, j))
}

/// A signed number token at `i`.
fn parse_i32_tok(v: &Vec<char>, i: usize) -> (r: Option<(i32, usize)>)
    requires
        i <= v@.len(),
    ensures
        match r {
            Some(p) => p_i32(v@, i as int) == Some((p.0, p.1 as int)) && i < p.1 <= v@.len(),
            None => (p_i32(v@, i as int) matches None),
        },
{
    let ghost s = v@.skip(i as int);
    if i < v.len() && v[i] == '-' {
        proof {
            assert(s[0] == '-');
            assert(s.skip(1) =~= v@.skip(i as int + 1));
        }
        match parse_u64_tok(v, i + 1) {
            Some((mag, j)) => {
                proof {
                    assert(v@.skip(i as int + 1).skip(0) =~= v@.skip(i as int + 1));
                }
                if mag > 0x8000_0000 {
                    return None;
                }
                if mag == 0x8000_0000 {
                    Some((i32::MIN, j))
                } else {
                    Some((-(mag as i32), j))
                }
            },
            None => None,
        }
    } else {
        proof {
            if i < v@.len() {
                assert(s[0] == v@[i as int]);
            }
        }
        match parse_u64_tok(v, i) {
            Some((mag, j)) => {
                if mag > 0x7fff_ffff {
                    return None;
                }
                Some((mag as i32, j))
            },
            None => None,
        }
    }
}

/// The decoded bytes of a hex body starting at `i` (after the opening
/// quote), and the position after the closing quote.
fn scan_bytes_exec(v: &Vec<char>, i: usize) -> (r: Option<(Vec<u8>, usize)>)
    requires
        i <= v@.len(),
    ensures
        match r {
            Some(p) => scan_bytes(v@.skip(i as int)) == Some((p.0@, p.1 - i as int)) && i <= p.1
                <= v@.len(),
            None => (scan_bytes(v@.skip(i as int)) matches None),
        },
    decreases v@.len() - i,
{
    let ghost s = v@.skip(i as int);
    let n = v.len();
    if i == n {
        return None;
    }
    proof {
        assert(s[0] == v@[i as int]);
    }
    let c = v[i];
    if c == '"' {
        let out: Vec<u8> = Vec::new();
        proof {
            assert(out@ =~= Seq::<u8>::empty());
        }
        return Some((out, i + 1));
    }
    if n - i < 2 {
        return None;
    }
    proof {
        assert(s.skip(2) =~= v@.skip(i as int + 2));
    }
    let h2 = v[i + 1];
    if !(crate::ip::is_hex_digit(c) && crate::ip::is_hex_digit(h2)) {
        proof {
            assert(s[1] == v@[i + 1]);
        }
        return None;
    }
    proof {
        assert(s[1] == v@[i + 1]);
    }
    let d1 = hex_val_exec(c);
    let d2 = hex_val_exec(h2);
    let byte: u8 = (d1 * 16 + d2) as u8;
    match scan_bytes_exec(v, i + 2) {
        Some((mut bytes, used)) => {
            let ghost pre = bytes@;
            bytes.insert(0, byte);
            proof {
                assert(byte as int == crate::text::hex_digit_val(s[0]) * 16
                    + crate::text::hex_digit_val(s[1]));
                assert(bytes@ =~= seq![
                    ((crate::text::hex_digit_val(s[0]) * 16 + crate::text::hex_digit_val(
                        s[1],
                    )) as u8)
                ] + pre);
            }
            Some((bytes, used))
        },
        None => None,
    }
}

/// A byte-string token at `i`.
fn parse_bytes_tok(v: &Vec<char>, i: usize) -> (r: Option<(Vec<u8>, usize)>)
    requires
        i <= v@.len(),
    ensures
        match r {
            Some(p) => p_bytes(v@, i as int) == Some((p.0@, p.1 as int)) && i < p.1 <= v@.len(),
            None => (p_bytes(v@, i as int) matches None),
        },
{
    if i >= v.len() {
        return None;
    }
    if v[i] != '"' {
        return None;
    }
    match scan_bytes_exec(v, i + 1) {
        Some((bytes, used)) => Some((bytes, used)),
        None => None,
    }
}

/// The comma-separated string items before a closing bracket, starting at
/// `i`, with recursion fuel.
fn scan_items_exec(v: &Vec<char>, i: usize, fuel: usize) -> (r: Option<(Vec<String>, usize)>)
    requires
        i <= v@.len(),
    ensures
        match r {
            Some(p) => scan_items(v@.skip(i as int), fuel as nat) == Some(
                (p.0@.map_values(|q: String| q@), p.1 - i as int),
            ) && i <= p.1 <= v@.len(),
            None => (scan_items(v@.skip(i as int), fuel as nat) matches None),
        },
    decreases fuel,
{
    let ghost s = v@.skip(i as int);
    if fuel == 0 {
        return None;
    }
    if i >= v.len() {
        return None;
    }
    proof {
        assert(s[0] == v@[i as int]);
    }
    if v[i] != '"' {
        return None;
    }
    proof {
        assert(s.skip(1) =~= v@.skip(i as int + 1));
    }
    match scan_string_exec(v, i + 1) {
        Some((content, after_str)) => {
            proof {
                assert(s.skip(1 + (after_str - i - 1)) =~= v@.skip(after_str as int));
            }
            if after_str >= v.len() {
                return None;
            }
            proof {
                assert(v@.skip(after_str as int)[0] == v@[after_str as int]);
            }
            let c = v[after_str];
            if c == ',' {
                proof {
                    assert(v@.skip(after_str as int).skip(1) =~= v@.skip(after_str as int + 1));
                }
                match scan_items_exec(v, after_str + 1, fuel - 1) {
                    Some((mut items, end)) => {
                        let ghost pre = items@.map_values(|q: String| q@);
                        items.insert(0, crate::text::string_from_chars(&content));
                        proof {
                            assert(items@.map_values(|q: String| q@) =~= seq![content@] + pre);
                        }
                        Some((items, end))
                    },
                    None => None,
                }
            } else if c == ']' {
                let mut items: Vec<String> = Vec::new();
                items.push(crate::text::string_from_chars(&content));
                proof {
                    assert(items@.map_values(|q: String| q@) =~= seq![content@]);
                }
                Some((items, after_str + 1))
            } else {
                None
            }
        },
        None => None,
    }
}

/// A string-array token at `i`.
fn parse_strarray_tok(v: &Vec<char>, i: usize) -> (r: Option<(Vec<String>, usize)>)
    requires
        i <= v@.len(),
    ensures
        match r {
            Some(p) => p_strarray(v@, i as int) == Some(
                (p.0@.map_values(|q: String| q@), p.1 as int),
            ) && i < p.1 <= v@.len(),
            None => (p_strarray(v@, i as int) matches None),
        },
{
    let n = v.len();
    if i >= n || n - i < 2 {
        return None;
    }
    if v[i] != '[' {
        return None;
    }
    if v[i + 1] == ']' {
        let items: Vec<String> = Vec::new();
        proof {
            assert(items@.map_values(|q: String| q@) =~= Seq::<Seq<char>>::empty());
        }
        return Some((items, i + 2));
    }
    proof {
        assert(v@.skip(i as int + 1) =~= v@.skip(i as int + 1));
    }
    match scan_items_exec(v, i + 1, n) {
        Some((items, end)) => {
            proof {
                assert(v@.len() as nat == n as nat);
            }
            Some((items, end))
        },
        None => None,
    }
}

/// Decodes one value object at position `i`: the value and the position
/// after it.
#[verifier::rlimit(100)]
#[verifier::spinoff_prover]
pub fn decode_value(v: &Vec<char>, i: usize) -> (r: Option<(crate::record_values::RecordValue, usize)>)
    requires
        i <= v@.len(),
    ensures
        match r {
            Some(p) => spec_parse_value(v@, i as int) == Some((value_data(p.0), p.1 as int))
                && p.1 <= v@.len(),
            None => (spec_parse_value(v@, i as int) matches None),
        },
{
    match expect_lit(v, i, "{\"ip\":") {
        Some(j0) => {
            match parse_string_tok(v, j0) {
                Some((t0, j1)) => {
                    match expect_lit(v, j1, "}") {
                        Some(j2) => {
                            match crate::ip::parse_ip_chars(&t0) {
                                Some(addr) => {
                                    return Some((crate::record_values::RecordValue::Ip(addr), j2));
                                },
                                None => {
                                    return None;
                                },
                            }
                        },
                        None => {
                            return None;
                        },
                    }
                },
                None => {
                    return None;
                },
            }
        },
        None => {},
    }
    match expect_lit(v, i, "{\"domain\":") {
        Some(j0) => {
            match parse_string_tok(v, j0) {
                Some((t0, j1)) => {
                    match expect_lit(v, j1, "}") {
                        Some(j2) => {
                            return Some((crate::record_values::RecordValue::Domain(crate::text::string_from_chars(&t0)), j2));
                        },
                        None => {
                            return None;
                        },
                    }
                },
                None => {
                    return None;
                },
            }
        },
        None => {},
    }
    match expect_lit(v, i, "{\"text\":") {
        Some(j0) => {
            match parse_string_tok(v, j0) {
                Some((t0, j1)) => {
                    match expect_lit(v, j1, "}") {
                        Some(j2) => {
                            return Some((crate::record_values::RecordValue::Text(crate::text::string_from_chars(&t0)), j2));
                        },
                        None => {
                            return None;
                        },
                    }
                },
                None => {
                    return None;
                },
            }
        },
        None => {},
    }
    match expect_lit(v, i, "{\"mx\":{\"priority\":") {
        Some(j0) => {
            let (x0, j1) = match parse_u64_tok(v, j0) {
                Some(p) => p,
                None => {
                    return None;
                },
            };
            if x0 > u16::MAX as u64 {
                return None;
            }
            let k1 = match expect_lit(v, j1, ",\"exchange\":") {
                Some(j) => j,
                None => {
                    return None;
                },
            };
            let (x1, j2) = match parse_string_tok(v, k1) {
                Some(p) => p,
                None => {
                    return None;
                },
            };
            let jend = match expect_lit(v, j2, "}}") {
                Some(j) => j,
                None => {
                    return None;
                },
            };
            let val = crate::record_values::RecordValue::Mx { priority: x0 as u16, exchange: crate::text::string_from_chars(&x1) };
            return Some((val, jend));
        },
        None => {},
    }
    match expect_lit(v, i, "{\"srv\":{\"priority\":") {
        Some(j0) => {
            let (x0, j1) = match parse_u64_tok(v, j0) {
                Some(p) => p,
                None => {
                    return None;
                },
            };
            if x0 > u16::MAX as u64 {
                return None;
            }
            let k1 = match expect_lit(v, j1, ",\"weight\":") {
                Some(j) => j,
                None => {
                    return None;
                },
            };
            let (x1, j2) = match parse_u64_tok(v, k1) {
                Some(p) => p,
                None => {
                    return None;
                },
            };
            if x1 > u16::MAX as u64 {
                return None;
            }
            let k2 = match expect_lit(v, j2, ",\"port\":") {
                Some(j) => j,
                None => {
                    return None;
                },
            };
            let (x2, j3) = match parse_u64_tok(v, k2) {
                Some(p) => p,
                None => {
                    return None;
                },
            };
            if x2 > u16::MAX as u64 {
                return None;
            }
            let k3 = match expect_lit(v, j3, ",\"target\":") {
                Some(j) => j,
                None => {
                    return None;
                },
            };
            let (x3, j4) = match parse_string_tok(v, k3) {
                Some(p) => p,
                None => {
                    return None;
                },
            };
            let jend = match expect_lit(v, j4, "}}") {
                Some(j) => j,
                None => {
                    return None;
                },
            };
            let val = crate::record_values::RecordValue::Srv { priority: x0 as u16, weight: x1 as u16, port: x2 as u16, target: crate::text::string_from_chars(&x3) };
            return Some((val, jend));
        },
        None => {},
    }
    match expect_lit(v, i, "{\"soa\":{\"mname\":") {
        Some(j0) => {
            let (x0, j1) = match parse_string_tok(v, j0) {
                Some(p) => p,
                None => {
                    return None;
                },
            };
            let k1 = match expect_lit(v, j1, ",\"rname\":") {
                Some(j) => j,
                None => {
                    return None;
                },
            };
            let (x1, j2) = match parse_string_tok(v, k1) {
                Some(p) => p,
                None => {
                    return None;
                },
            };
            let k2 = match expect_lit(v, j2, ",\"serial\":") {
                Some(j) => j,
                None => {
                    return None;
                },
            };
            let (x2, j3) = match parse_u64_tok(v, k2) {
                Some(p) => p,
                None => {
                    return None;
                },
            };
            if x2 > u32::MAX as u64 {
                return None;
            }
            let k3 = match expect_lit(v, j3, ",\"refresh\":") {
                Some(j) => j,
                None => {
                    return None;
                },
            };
            let (x3, j4) = match parse_i32_tok(v, k3) {
                Some(p) => p,
                None => {
                    return None;
                },
            };
            let k4 = match expect_lit(v, j4, ",\"retry\":") {
                Some(j) => j,
                None => {
                    return None;
                },
            };
            let (x4, j5) = match parse_i32_tok(v, k4) {
                Some(p) => p,
                None => {
                    return None;
                },
            };
            let k5 = match expect_lit(v, j5, ",\"expire\":") {
                Some(j) => j,
                None => {
                    return None;
                },
            };
            let (x5, j6) = match parse_i32_tok(v, k5) {
                Some(p) => p,
                None => {
                    return None;
                },
            };
            let k6 = match expect_lit(v, j6, ",\"minimum\":") {
                Some(j) => j,
                None => {
                    return None;
                },
            };
            let (x6, j7) = match parse_u64_tok(v, k6) {
                Some(p) => p,
                None => {
                    return None;
                },
            };
            if x6 > u32::MAX as u64 {
                return None;
            }
            let jend = match expect_lit(v, j7, "}}") {
                Some(j) => j,
                None => {
                    return None;
                },
            };
            let val = crate::record_values::RecordValue::Soa { mname: crate::text::string_from_chars(&x0), rname: crate::text::string_from_chars(&x1), serial: x2 as u32, refresh: x3, retry: x4, expire: x5, minimum: x6 as u32 };
            return Some((val, jend));
        },
        None => {},
    }
    match expect_lit(v, i, "{\"caa\":{\"flags\":") {
        Some(j0) => {
            let (x0, j1) = match parse_u64_tok(v, j0) {
                Some(p) => p,
                None => {
                    return None;
                },
            };
            if x0 > u8::MAX as u64 {
                return None;
            }
            let k1 = match expect_lit(v, j1, ",\"tag\":") {
                Some(j) => j,
                None => {
                    return None;
                },
            };
            let (x1, j2) = match parse_string_tok(v, k1) {
                Some(p) => p,
                None => {
                    return None;
                },
            };
            let k2 = match expect_lit(v, j2, ",\"value\":") {
                Some(j) => j,
                None => {
                    return None;
                },
            };
            let (x2, j3) = match parse_string_tok(v, k2) {
                Some(p) => p,
                None => {
                    return None;
                },
            };
            let jend = match expect_lit(v, j3, "}}") {
                Some(j) => j,
                None => {
                    return None;
                },
            };
            let val = crate::record_values::RecordValue::Caa { flags: x0 as u8, tag: crate::text::string_from_chars(&x1), value: crate::text::string_from_chars(&x2) };
            return Some((val, jend));
        },
        None => {},
    }
    match expect_lit(v, i, "{\"cert\":{\"cert_type\":") {
        Some(j0) => {
            let (x0, j1) = match parse_u64_tok(v, j0) {
                Some(p) => p,
                None => {
                    return None;
                },
            };
            if x0 > u16::MAX as u64 {
                return None;
            }
            let k1 = match expect_lit(v, j1, ",\"key_tag\":") {
                Some(j) => j,
                None => {
                    return None;
                },
            };
            let (x1, j2) = match parse_u64_tok(v, k1) {
                Some(p) => p,
                None => {
                    return None;
                },
            };
            if x1 > u16::MAX as u64 {
                return None;
            }
            let k2 = match expect_lit(v, j2, ",\"algorithm\":") {
                Some(j) => j,
                None => {
                    return None;
                },
            };
            let (x2, j3) = match parse_u64_tok(v, k2) {
                Some(p) => p,
                None => {
                    return None;
                },
            };
            if x2 > u8::MAX as u64 {
                return None;
            }
            let k3 = match expect_lit(v, j3, ",\"certificate\":") {
                Some(j) => j,
                None => {
                    return None;
                },
            };
            let (x3, j4) = match parse_bytes_tok(v, k3) {
                Some(p) => p,
                None => {
                    return None;
                },
            };
            let jend = match expect_lit(v, j4, "}}") {
                Some(j) => j,
                None => {
                    return None;
                },
            };
            let val = crate::record_values::RecordValue::Cert { cert_type: x0 as u16, key_tag: x1 as u16, algorithm: x2 as u8, certificate: x3 };
            return Some((val, jend));
        },
        None => {},
    }
    match expect_lit(v, i, "{\"dnskey\":{\"flags\":") {
        Some(j0) => {
            let (x0, j1) = match parse_u64_tok(v, j0) {
                Some(p) => p,
                None => {
                    return None;
                },
            };
            if x0 > u16::MAX as u64 {
                return None;
            }
            let k1 = match expect_lit(v, j1, ",\"protocol\":") {
                Some(j) => j,
                None => {
                    return None;
                },
            };
            let (x1, j2) = match parse_u64_tok(v, k1) {
                Some(p) => p,
                None => {
                    return None;
                },
            };
            if x1 > u8::MAX as u64 {
                return None;
            }
            let k2 = match expect_lit(v, j2, ",\"algorithm\":") {
                Some(j) => j,
                None => {
                    return None;
                },
            };
            let (x2, j3) = match parse_u64_tok(v, k2) {
                Some(p) => p,
                None => {
                    return None;
                },
            };
            if x2 > u8::MAX as u64 {
                return None;
            }
            let k3 = match expect_lit(v, j3, ",\"public_key\":") {
                Some(j) => j,
                None => {
                    return None;
                },
            };
            let (x3, j4) = match parse_bytes_tok(v, k3) {
                Some(p) => p,
                None => {
                    return None;
                },
            };
            let jend = match expect_lit(v, j4, "}}") {
                Some(j) => j,
                None => {
                    return None;
                },
            };
            let val = crate::record_values::RecordValue::Dnskey { flags: x0 as u16, protocol: x1 as u8, algorithm: x2 as u8, public_key: x3 };
            return Some((val, jend));
        },
        None => {},
    }
    match expect_lit(v, i, "{\"ds\":{\"key_tag\":") {
        Some(j0) => {
            let (x0, j1) = match parse_u64_tok(v, j0) {
                Some(p) => p,
                None => {
                    return None;
                },
            };
            if x0 > u16::MAX as u64 {
                return None;
            }
            let k1 = match expect_lit(v, j1, ",\"algorithm\":") {
                Some(j) => j,
                None => {
                    return None;
                },
            };
            let (x1, j2) = match parse_u64_tok(v, k1) {
                Some(p) => p,
                None => {
                    return None;
                },
            };
            if x1 > u8::MAX as u64 {
                return None;
            }
            let k2 = match expect_lit(v, j2, ",\"digest_type\":") {
                Some(j) => j,
                None => {
                    return None;
                },
            };
            let (x2, j3) = match parse_u64_tok(v, k2) {
                Some(p) => p,
                None => {
                    return None;
                },
            };
            if x2 > u8::MAX as u64 {
                return None;
            }
            let k3 = match expect_lit(v, j3, ",\"digest\":") {
                Some(j) => j,
                None => {
                    return None;
                },
            };
            let (x3, j4) = match parse_bytes_tok(v, k3) {
                Some(p) => p,
                None => {
                    return None;
                },
            };
            let jend = match expect_lit(v, j4, "}}") {
                Some(j) => j,
                None => {
                    return None;
                },
            };
            let val = crate::record_values::RecordValue::Ds { key_tag: x0 as u16, algorithm: x1 as u8, digest_type: x2 as u8, digest: x3 };
            return Some((val, jend));
        },
        None => {},
    }
    match expect_lit(v, i, "{\"hinfo\":{\"cpu\":") {
        Some(j0) => {
            let (x0, j1) = match parse_string_tok(v, j0) {
                Some(p) => p,
                None => {
                    return None;
                },
            };
            let k1 = match expect_lit(v, j1, ",\"os\":") {
                Some(j) => j,
                None => {
                    return None;
                },
            };
            let (x1, j2) = match parse_string_tok(v, k1) {
                Some(p) => p,
                None => {
                    return None;
                },
            };
            let jend = match expect_lit(v, j2, "}}") {
                Some(j) => j,
                None => {
                    return None;
                },
            };
            let val = crate::record_values::RecordValue::Hinfo { cpu: crate::text::string_from_chars(&x0), os: crate::text::string_from_chars(&x1) };
            return Some((val, jend));
        },
        None => {},
    }
    match expect_lit(v, i, "{\"https\":{\"priority\":") {
        Some(j0) => {
            let (x0, j1) = match parse_u64_tok(v, j0) {
                Some(p) => p,
                None => {
                    return None;
                },
            };
            if x0 > u16::MAX as u64 {
                return None;
            }
            let k1 = match expect_lit(v, j1, ",\"target\":") {
                Some(j) => j,
                None => {
                    return None;
                },
            };
            let (x1, j2) = match parse_string_tok(v, k1) {
                Some(p) => p,
                None => {
                    return None;
                },
            };
            let k2 = match expect_lit(v, j2, ",\"params\":") {
                Some(j) => j,
                None => {
                    return None;
                },
            };
            let (x2, j3) = match parse_strarray_tok(v, k2) {
                Some(p) => p,
                None => {
                    return None;
                },
            };
            let jend = match expect_lit(v, j3, "}}") {
                Some(j) => j,
                None => {
                    return None;
                },
            };
            let val = crate::record_values::RecordValue::Https { priority: x0 as u16, target: crate::text::string_from_chars(&x1), params: x2 };
            return Some((val, jend));
        },
        None => {},
    }
    match expect_lit(v, i, "{\"key\":{\"flags\":") {
        Some(j0) => {
            let (x0, j1) = match parse_u64_tok(v, j0) {
                Some(p) => p,
                None => {
                    return None;
                },
            };
            if x0 > u16::MAX as u64 {
                return None;
            }
            let k1 = match expect_lit(v, j1, ",\"protocol\":") {
                Some(j) => j,
                None => {
                    return None;
                },
            };
            let (x1, j2) = match parse_u64_tok(v, k1) {
                Some(p) => p,
                None => {
                    return None;
                },
            };
            if x1 > u8::MAX as u64 {
                return None;
            }
            let k2 = match expect_lit(v, j2, ",\"algorithm\":") {
                Some(j) => j,
                None => {
                    return None;
                },
            };
            let (x2, j3) = match parse_u64_tok(v, k2) {
                Some(p) => p,
                None => {
                    return None;
                },
            };
            if x2 > u8::MAX as u64 {
                return None;
            }
            let k3 = match expect_lit(v, j3, ",\"public_key\":") {
                Some(j) => j,
                None => {
                    return None;
                },
            };
            let (x3, j4) = match parse_bytes_tok(v, k3) {
                Some(p) => p,
                None => {
                    return None;
                },
            };
            let jend = match expect_lit(v, j4, "}}") {
                Some(j) => j,
                None => {
                    return None;
                },
            };
            let val = crate::record_values::RecordValue::Key { flags: x0 as u16, protocol: x1 as u8, algorithm: x2 as u8, public_key: x3 };
            return Some((val, jend));
        },
        None => {},
    }
    match expect_lit(v, i, "{\"loc\":{\"version\":") {
        Some(j0) => {
            let (x0, j1) = match parse_u64_tok(v, j0) {
                Some(p) => p,
                None => {
                    return None;
                },
            };
            if x0 > u8::MAX as u64 {
                return None;
            }
            let k1 = match expect_lit(v, j1, ",\"size\":") {
                Some(j) => j,
                None => {
                    return None;
                },
            };
            let (x1, j2) = match parse_u64_tok(v, k1) {
                Some(p) => p,
                None => {
                    return None;
                },
            };
            if x1 > u8::MAX as u64 {
                return None;
            }
            let k2 = match expect_lit(v, j2, ",\"horiz_pre\":") {
                Some(j) => j,
                None => {
                    return None;
                },
            };
            let (x2, j3) = match parse_u64_tok(v, k2) {
                Some(p) => p,
                None => {
                    return None;
                },
            };
            if x2 > u8::MAX as u64 {
                return None;
            }
            let k3 = match expect_lit(v, j3, ",\"vert_pre\":") {
                Some(j) => j,
                None => {
                    return None;
                },
            };
            let (x3, j4) = match parse_u64_tok(v, k3) {
                Some(p) => p,
                None => {
                    return None;
                },
            };
            if x3 > u8::MAX as u64 {
                return None;
            }
            let k4 = match expect_lit(v, j4, ",\"latitude\":") {
                Some(j) => j,
                None => {
                    return None;
                },
            };
            let (x4, j5) = match parse_u64_tok(v, k4) {
                Some(p) => p,
                None => {
                    return None;
                },
            };
            if x4 > u32::MAX as u64 {
                return None;
            }
            let k5 = match expect_lit(v, j5, ",\"longitude\":") {
                Some(j) => j,
                None => {
                    return None;
                },
            };
            let (x5, j6) = match parse_u64_tok(v, k5) {
                Some(p) => p,
                None => {
                    return None;
                },
            };
            if x5 > u32::MAX as u64 {
                return None;
            }
            let k6 = match expect_lit(v, j6, ",\"altitude\":") {
                Some(j) => j,
                None => {
                    return None;
                },
            };
            let (x6, j7) = match parse_u64_tok(v, k6) {
                Some(p) => p,
                None => {
                    return None;
                },
            };
            if x6 > u32::MAX as u64 {
                return None;
            }
            let jend = match expect_lit(v, j7, "}}") {
                Some(j) => j,
                None => {
                    return None;
                },
            };
            let val = crate::record_values::RecordValue::Loc { version: x0 as u8, size: x1 as u8, horiz_pre: x2 as u8, vert_pre: x3 as u8, latitude: x4 as u32, longitude: x5 as u32, altitude: x6 as u32 };
            return Some((val, jend));
        },
        None => {},
    }
    match expect_lit(v, i, "{\"naptr\":{\"order\":") {
        Some(j0) => {
            let (x0, j1) = match parse_u64_tok(v, j0) {
                Some(p) => p,
                None => {
                    return None;
                },
            };
            if x0 > u16::MAX as u64 {
                return None;
            }
            let k1 = match expect_lit(v, j1, ",\"preference\":") {
                Some(j) => j,
                None => {
                    return None;
                },
            };
            let (x1, j2) = match parse_u64_tok(v, k1) {
                Some(p) => p,
                None => {
                    return None;
                },
            };
            if x1 > u16::MAX as u64 {
                return None;
            }
            let k2 = match expect_lit(v, j2, ",\"flags\":") {
                Some(j) => j,
                None => {
                    return None;
                },
            };
            let (x2, j3) = match parse_string_tok(v, k2) {
                Some(p) => p,
                None => {
                    return None;
                },
            };
            let k3 = match expect_lit(v, j3, ",\"services\":") {
                Some(j) => j,
                None => {
                    return None;
                },
            };
            let (x3, j4) = match parse_string_tok(v, k3) {
                Some(p) => p,
                None => {
                    return None;
                },
            };
            let k4 = match expect_lit(v, j4, ",\"regexp\":") {
                Some(j) => j,
                None => {
                    return None;
                },
            };
            let (x4, j5) = match parse_string_tok(v, k4) {
                Some(p) => p,
                None => {
                    return None;
                },
            };
            let k5 = match expect_lit(v, j5, ",\"replacement\":") {
                Some(j) => j,
                None => {
                    return None;
                },
            };
            let (x5, j6) = match parse_string_tok(v, k5) {
                Some(p) => p,
                None => {
                    return None;
                },
            };
            let jend = match expect_lit(v, j6, "}}") {
                Some(j) => j,
                None => {
                    return None;
                },
            };
            let val = crate::record_values::RecordValue::Naptr { order: x0 as u16, preference: x1 as u16, flags: crate::text::string_from_chars(&x2), services: crate::text::string_from_chars(&x3), regexp: crate::text::string_from_chars(&x4), replacement: crate::text::string_from_chars(&x5) };
            return Some((val, jend));
        },
        None => {},
    }
    match expect_lit(v, i, "{\"sshfp\":{\"algorithm\":") {
        Some(j0) => {
            let (x0, j1) = match parse_u64_tok(v, j0) {
                Some(p) => p,
                None => {
                    return None;
                },
            };
            if x0 > u8::MAX as u64 {
                return None;
            }
            let k1 = match expect_lit(v, j1, ",\"fingerprint_type\":") {
                Some(j) => j,
                None => {
                    return None;
                },
            };
            let (x1, j2) = match parse_u64_tok(v, k1) {
                Some(p) => p,
                None => {
                    return None;
                },
            };
            if x1 > u8::MAX as u64 {
                return None;
            }
            let k2 = match expect_lit(v, j2, ",\"fingerprint\":") {
                Some(j) => j,
                None => {
                    return None;
                },
            };
            let (x2, j3) = match parse_bytes_tok(v, k2) {
                Some(p) => p,
                None => {
                    return None;
                },
            };
            let jend = match expect_lit(v, j3, "}}") {
                Some(j) => j,
                None => {
                    return None;
                },
            };
            let val = crate::record_values::RecordValue::Sshfp { algorithm: x0 as u8, fingerprint_type: x1 as u8, fingerprint: x2 };
            return Some((val, jend));
        },
        None => {},
    }
    match expect_lit(v, i, "{\"svcb\":{\"priority\":") {
        Some(j0) => {
            let (x0, j1) = match parse_u64_tok(v, j0) {
                Some(p) => p,
                None => {
                    return None;
                },
            };
            if x0 > u16::MAX as u64 {
                return None;
            }
            let k1 = match expect_lit(v, j1, ",\"target\":") {
                Some(j) => j,
                None => {
                    return None;
                },
            };
            let (x1, j2) = match parse_string_tok(v, k1) {
                Some(p) => p,
                None => {
                    return None;
                },
            };
            let k2 = match expect_lit(v, j2, ",\"params\":") {
                Some(j) => j,
                None => {
                    return None;
                },
            };
            let (x2, j3) = match parse_strarray_tok(v, k2) {
                Some(p) => p,
                None => {
                    return None;
                },
            };
            let jend = match expect_lit(v, j3, "}}") {
                Some(j) => j,
                None => {
                    return None;
                },
            };
            let val = crate::record_values::RecordValue::Svcb { priority: x0 as u16, target: crate::text::string_from_chars(&x1), params: x2 };
            return Some((val, jend));
        },
        None => {},
    }
    match expect_lit(v, i, "{\"tlsa\":{\"cert_usage\":") {
        Some(j0) => {
            let (x0, j1) = match parse_u64_tok(v, j0) {
                Some(p) => p,
                None => {
                    return None;
                },
            };
            if x0 > u8::MAX as u64 {
                return None;
            }
            let k1 = match expect_lit(v, j1, ",\"selector\":") {
                Some(j) => j,
                None => {
                    return None;
                },
            };
            let (x1, j2) = match parse_u64_tok(v, k1) {
                Some(p) => p,
                None => {
                    return None;
                },
            };
            if x1 > u8::MAX as u64 {
                return None;
            }
            let k2 = match expect_lit(v, j2, ",\"matching_type\":") {
                Some(j) => j,
                None => {
                    return None;
                },
            };
            let (x2, j3) = match parse_u64_tok(v, k2) {
                Some(p) => p,
                None => {
                    return None;
                },
            };
            if x2 > u8::MAX as u64 {
                return None;
            }
            let k3 = match expect_lit(v, j3, ",\"cert_data\":") {
                Some(j) => j,
                None => {
                    return None;
                },
            };
            let (x3, j4) = match parse_bytes_tok(v, k3) {
                Some(p) => p,
                None => {
                    return None;
                },
            };
            let jend = match expect_lit(v, j4, "}}") {
                Some(j) => j,
                None => {
                    return None;
                },
            };
            let val = crate::record_values::RecordValue::Tlsa { cert_usage: x0 as u8, selector: x1 as u8, matching_type: x2 as u8, cert_data: x3 };
            return Some((val, jend));
        },
        None => {},
    }
    match expect_lit(v, i, "{\"uri\":{\"priority\":") {
        Some(j0) => {
            let (x0, j1) = match parse_u64_tok(v, j0) {
                Some(p) => p,
                None => {
                    return None;
                },
            };
            if x0 > u16::MAX as u64 {
                return None;
            }
            let k1 = match expect_lit(v, j1, ",\"weight\":") {
                Some(j) => j,
                None => {
                    return None;
                },
            };
            let (x1, j2) = match parse_u64_tok(v, k1) {
                Some(p) => p,
                None => {
                    return None;
                },
            };
            if x1 > u16::MAX as u64 {
                return None;
            }
            let k2 = match expect_lit(v, j2, ",\"target\":") {
                Some(j) => j,
                None => {
                    return None;
                },
            };
            let (x2, j3) = match parse_string_tok(v, k2) {
                Some(p) => p,
                None => {
                    return None;
                },
            };
            let jend = match expect_lit(v, j3, "}}") {
                Some(j) => j,
                None => {
                    return None;
                },
            };
            let val = crate::record_values::RecordValue::Uri { priority: x0 as u16, weight: x1 as u16, target: crate::text::string_from_chars(&x2) };
            return Some((val, jend));
        },
        None => {},
    }
    match expect_lit(v, i, "{\"other\":") {
        Some(j0) => {
            match parse_string_tok(v, j0) {
                Some((t0, j1)) => {
                    match expect_lit(v, j1, "}") {
                        Some(j2) => {
                            return Some((crate::record_values::RecordValue::Other(crate::text::string_from_chars(&t0)), j2));
                        },
                        None => {
                            return None;
                        },
                    }
                },
                None => {
                    return None;
                },
            }
        },
        None => {},
    }
    None
}



/// One associativity step of sequence concatenation.
proof fn lemma_assoc3(x: Seq<char>, y: Seq<char>, z: Seq<char>)
    ensures
        x + (y + z) == (x + y) + z,
{
    assert(x + (y + z) =~= (x + y) + z);
}

/// A literal that differs at one position from the text does not parse
/// there.
proof fn lemma_p_lit_refute(a: Seq<char>, enc: Seq<char>, b: Seq<char>, litk: Seq<char>, d: int)
    requires
        0 <= d < litk.len(),
        d < enc.len(),
        enc[d] != litk[d],
    ensures
        (p_lit(a + enc + b, a.len() as int, litk) matches None),
{
    let s = a + enc + b;
    if p_lit(s, a.len() as int, litk) is Some {
        assert(s.subrange(a.len() as int, a.len() as int + litk.len())[d] == s[a.len() as int + d]);
        assert(s[a.len() as int + d] == enc[d]);
    }
}


#[verifier::rlimit(100)]
#[verifier::spinoff_prover]
proof fn lemma_tail_ip(a0: Seq<char>, addr: crate::ip::IpAddress, b: Seq<char>)
    ensures
        pv_ip(a0 + (enc_str(crate::ip::ip_chars(addr)) + "}"@) + b, a0.len() as int) == Some(
            (ValueData::Ip(addr), a0.len() + (enc_str(crate::ip::ip_chars(addr)) + "}"@).len() as int),
        ),
{
    let s = a0 + (enc_str(crate::ip::ip_chars(addr)) + "}"@) + b;
    let p0 = enc_str(crate::ip::ip_chars(addr));
    let p1 = "}"@;
    let r1 = b;
    let r0 = p1 + r1;
    assert(s =~= (a0 + p0) + r0);
    lemma_p_string_at(a0, crate::ip::ip_chars(addr), r0);
    let a1 = a0 + p0;
    lemma_assoc3(a1, p1, r1);
    lemma_p_lit_at(a1, p1, r1);
    crate::ip::lemma_ip_text_round_trip(addr);
}
#[verifier::rlimit(100)]
#[verifier::spinoff_prover]
proof fn lemma_pv_ip(a: Seq<char>, addr: crate::ip::IpAddress, b: Seq<char>)
    ensures
        spec_parse_value(a + enc_value(ValueData::Ip(addr)) + b, a.len() as int) == Some(
            (ValueData::Ip(addr), a.len() + enc_value(ValueData::Ip(addr)).len() as int),
        ),
{
    let enc = enc_value(ValueData::Ip(addr));
    let s = a + enc + b;
    let l0 = "{\"ip\":"@;
    let tail = enc_str(crate::ip::ip_chars(addr)) + "}"@;
    assert(enc =~= l0 + tail);
    let r0 = tail + b;
    assert(s =~= a + l0 + r0);
    lemma_p_lit_at(a, l0, r0);
    let a0 = a + l0;
    assert(s =~= a0 + tail + b);
    lemma_tail_ip(a0, addr, b);
}

#[verifier::rlimit(100)]
#[verifier::spinoff_prover]
proof fn lemma_tail_domain(a0: Seq<char>, content: Seq<char>, b: Seq<char>)
    ensures
        pv_domain(a0 + (enc_str(content) + "}"@) + b, a0.len() as int) == Some(
            (ValueData::Domain(content), a0.len() + (enc_str(content) + "}"@).len() as int),
        ),
{
    let s = a0 + (enc_str(content) + "}"@) + b;
    let p0 = enc_str(content);
    let p1 = "}"@;
    let r1 = b;
    let r0 = p1 + r1;
    assert(s =~= (a0 + p0) + r0);
    lemma_p_string_at(a0, content, r0);
    let a1 = a0 + p0;
    lemma_assoc3(a1, p1, r1);
    lemma_p_lit_at(a1, p1, r1);
}
#[verifier::rlimit(100)]
#[verifier::spinoff_prover]
proof fn lemma_pv_domain(a: Seq<char>, content: Seq<char>, b: Seq<char>)
    ensures
        spec_parse_value(a + enc_value(ValueData::Domain(content)) + b, a.len() as int) == Some(
            (ValueData::Domain(content), a.len() + enc_value(ValueData::Domain(content)).len() as int),
        ),
{
    let enc = enc_value(ValueData::Domain(content));
    let s = a + enc + b;
    let l0 = "{\"domain\":"@;
    let tail = enc_str(content) + "}"@;
    assert(enc =~= l0 + tail);
    reveal_strlit("{\"ip\":");
    reveal_strlit("{\"domain\":");
    assert(enc[2] == l0[2]);
    lemma_p_lit_refute(a, enc, b, "{\"ip\":"@, 2);
    let r0 = tail + b;
    assert(s =~= a + l0 + r0);
    lemma_p_lit_at(a, l0, r0);
    let a0 = a + l0;
    assert(s =~= a0 + tail + b);
    lemma_tail_domain(a0, content, b);
}

#[verifier::rlimit(100)]
#[verifier::spinoff_prover]
proof fn lemma_tail_text(a0: Seq<char>, content: Seq<char>, b: Seq<char>)
    ensures
        pv_text(a0 + (enc_str(content) + "}"@) + b, a0.len() as int) == Some(
            (ValueData::Text(content), a0.len() + (enc_str(content) + "}"@).len() as int),
        ),
{
    let s = a0 + (enc_str(content) + "}"@) + b;
    let p0 = enc_str(content);
    let p1 = "}"@;
    let r1 = b;
    let r0 = p1 + r1;
    assert(s =~= (a0 + p0) + r0);
    lemma_p_string_at(a0, content, r0);
    let a1 = a0 + p0;
    lemma_assoc3(a1, p1, r1);
    lemma_p_lit_at(a1, p1, r1);
}
#[verifier::rlimit(100)]
#[verifier::spinoff_prover]
proof fn lemma_pv_text(a: Seq<char>, content: Seq<char>, b: Seq<char>)
    ensures
        spec_parse_value(a + enc_value(ValueData::Text(content)) + b, a.len() as int) == Some(
            (ValueData::Text(content), a.len() + enc_value(ValueData::Text(content)).len() as int),
        ),
{
    let enc = enc_value(ValueData::Text(content));
    let s = a + enc + b;
    let l0 = "{\"text\":"@;
    let tail = enc_str(content) + "}"@;
    assert(enc =~= l0 + tail);
    reveal_strlit("{\"domain\":");
    reveal_strlit("{\"ip\":");
    reveal_strlit("{\"text\":");
    assert(enc[2] == l0[2]);
    lemma_p_lit_refute(a, enc, b, "{\"ip\":"@, 2);
    assert(enc[2] == l0[2]);
    lemma_p_lit_refute(a, enc, b, "{\"domain\":"@, 2);
    let r0 = tail + b;
    assert(s =~= a + l0 + r0);
    lemma_p_lit_at(a, l0, r0);
    let a0 = a + l0;
    assert(s =~= a0 + tail + b);
    lemma_tail_text(a0, content, b);
}

#[verifier::rlimit(100)]
#[verifier::spinoff_prover]
proof fn lemma_tail_mx(a0: Seq<char>, priority: u16, exchange: Seq<char>, b: Seq<char>)
    ensures
        pv_mx(a0 + (dec_chars(priority as nat) + ",\"exchange\":"@ + enc_str(exchange) + "}}"@) + b, a0.len() as int) == Some(
            (ValueData::Mx(priority, exchange), a0.len() + (dec_chars(priority as nat) + ",\"exchange\":"@ + enc_str(exchange) + "}}"@).len() as int),
        ),
{
    let s = a0 + (dec_chars(priority as nat) + ",\"exchange\":"@ + enc_str(exchange) + "}}"@) + b;
    let p0 = dec_chars(priority as nat);
    let p1 = ",\"exchange\":"@;
    let p2 = enc_str(exchange);
    let p3 = "}}"@;
    let r3 = b;
    let r2 = p3 + r3;
    let r1 = p2 + r2;
    let r0 = p1 + r1;
    assert(s =~= (a0 + p0) + r0);
    assert(r0.len() >= 1 && !is_digit_char(r0[0])) by {
        reveal_strlit(",\"exchange\":");
        assert(r0[0] == ",\"exchange\":"@[0]);
    }
    lemma_p_u64_at(a0, priority as u64, r0);
    assert(dec_chars((priority as u64) as nat) == dec_chars(priority as nat));
    let a1 = a0 + p0;
    lemma_assoc3(a1, p1, r1);
    lemma_p_lit_at(a1, p1, r1);
    let a2 = a1 + p1;
    lemma_assoc3(a2, p2, r2);
    lemma_p_string_at(a2, exchange, r2);
    let a3 = a2 + p2;
    lemma_assoc3(a3, p3, r3);
    lemma_p_lit_at(a3, p3, r3);
}
#[verifier::rlimit(100)]
#[verifier::spinoff_prover]
proof fn lemma_pv_mx(a: Seq<char>, priority: u16, exchange: Seq<char>, b: Seq<char>)
    ensures
        spec_parse_value(a + enc_value(ValueData::Mx(priority, exchange)) + b, a.len() as int) == Some(
            (ValueData::Mx(priority, exchange), a.len() + enc_value(ValueData::Mx(priority, exchange)).len() as int),
        ),
{
    let enc = enc_value(ValueData::Mx(priority, exchange));
    let s = a + enc + b;
    let l0 = "{\"mx\":{\"priority\":"@;
    let tail = dec_chars(priority as nat) + ",\"exchange\":"@ + enc_str(exchange) + "}}"@;
    assert(enc =~= l0 + tail);
    reveal_strlit("{\"domain\":");
    reveal_strlit("{\"ip\":");
    reveal_strlit("{\"text\":");
    reveal_strlit("{\"mx\":{\"priority\":");
    assert(enc[2] == l0[2]);
    lemma_p_lit_refute(a, enc, b, "{\"ip\":"@, 2);
    assert(enc[2] == l0[2]);
    lemma_p_lit_refute(a, enc, b, "{\"domain\":"@, 2);
    assert(enc[2] == l0[2]);
    lemma_p_lit_refute(a, enc, b, "{\"text\":"@, 2);
    let r0 = tail + b;
    assert(s =~= a + l0 + r0);
    lemma_p_lit_at(a, l0, r0);
    let a0 = a + l0;
    assert(s =~= a0 + tail + b);
    lemma_tail_mx(a0, priority, exchange, b);
}

#[verifier::rlimit(100)]
#[verifier::spinoff_prover]
proof fn lemma_tail_srv(a0: Seq<char>, priority: u16, weight: u16, port: u16, target: Seq<char>, b: Seq<char>)
    ensures
        pv_srv(a0 + (dec_chars(priority as nat) + ",\"weight\":"@ + dec_chars(weight as nat) + ",\"port\":"@ + dec_chars(port as nat) + ",\"target\":"@ + enc_str(target) + "}}"@) + b, a0.len() as int) == Some(
            (ValueData::Srv(priority, weight, port, target), a0.len() + (dec_chars(priority as nat) + ",\"weight\":"@ + dec_chars(weight as nat) + ",\"port\":"@ + dec_chars(port as nat) + ",\"target\":"@ + enc_str(target) + "}}"@).len() as int),
        ),
{
    let s = a0 + (dec_chars(priority as nat) + ",\"weight\":"@ + dec_chars(weight as nat) + ",\"port\":"@ + dec_chars(port as nat) + ",\"target\":"@ + enc_str(target) + "}}"@) + b;
    let p0 = dec_chars(priority as nat);
    let p1 = ",\"weight\":"@;
    let p2 = dec_chars(weight as nat);
    let p3 = ",\"port\":"@;
    let p4 = dec_chars(port as nat);
    let p5 = ",\"target\":"@;
    let p6 = enc_str(target);
    let p7 = "}}"@;
    let r7 = b;
    let r6 = p7 + r7;
    let r5 = p6 + r6;
    let r4 = p5 + r5;
    let r3 = p4 + r4;
    let r2 = p3 + r3;
    let r1 = p2 + r2;
    let r0 = p1 + r1;
    assert(s =~= (a0 + p0) + r0);
    assert(r0.len() >= 1 && !is_digit_char(r0[0])) by {
        reveal_strlit(",\"weight\":");
        assert(r0[0] == ",\"weight\":"@[0]);
    }
    lemma_p_u64_at(a0, priority as u64, r0);
    assert(dec_chars((priority as u64) as nat) == dec_chars(priority as nat));
    let a1 = a0 + p0;
    lemma_assoc3(a1, p1, r1);
    lemma_p_lit_at(a1, p1, r1);
    let a2 = a1 + p1;
    lemma_assoc3(a2, p2, r2);
    assert(r2.len() >= 1 && !is_digit_char(r2[0])) by {
        reveal_strlit(",\"port\":");
        assert(r2[0] == ",\"port\":"@[0]);
    }
    lemma_p_u64_at(a2, weight as u64, r2);
    assert(dec_chars((weight as u64) as nat) == dec_chars(weight as nat));
    let a3 = a2 + p2;
    lemma_assoc3(a3, p3, r3);
    lemma_p_lit_at(a3, p3, r3);
    let a4 = a3 + p3;
    lemma_assoc3(a4, p4, r4);
    assert(r4.len() >= 1 && !is_digit_char(r4[0])) by {
        reveal_strlit(",\"target\":");
        assert(r4[0] == ",\"target\":"@[0]);
    }
    lemma_p_u64_at(a4, port as u64, r4);
    assert(dec_chars((port as u64) as nat) == dec_chars(port as nat));
    let a5 = a4 + p4;
    lemma_assoc3(a5, p5, r5);
    lemma_p_lit_at(a5, p5, r5);
    let a6 = a5 + p5;
    lemma_assoc3(a6, p6, r6);
    lemma_p_string_at(a6, target, r6);
    let a7 = a6 + p6;
    lemma_assoc3(a7, p7, r7);
    lemma_p_lit_at(a7, p7, r7);
}
#[verifier::rlimit(100)]
#[verifier::spinoff_prover]
proof fn lemma_pv_srv(a: Seq<char>, priority: u16, weight: u16, port: u16, target: Seq<char>, b: Seq<char>)
    ensures
        spec_parse_value(a + enc_value(ValueData::Srv(priority, weight, port, target)) + b, a.len() as int) == Some(
            (ValueData::Srv(priority, weight, port, target), a.len() + enc_value(ValueData::Srv(priority, weight, port, target)).len() as int),
        ),
{
    let enc = enc_value(ValueData::Srv(priority, weight, port, target));
    let s = a + enc + b;
    let l0 = "{\"srv\":{\"priority\":"@;
    let tail = dec_chars(priority as nat) + ",\"weight\":"@ + dec_chars(weight as nat) + ",\"port\":"@ + dec_chars(port as nat) + ",\"target\":"@ + enc_str(target) + "}}"@;
    assert(enc =~= l0 + tail);
    reveal_strlit("{\"domain\":");
    reveal_strlit("{\"ip\":");
    reveal_strlit("{\"mx\":{\"priority\":");
    reveal_strlit("{\"text\":");
    reveal_strlit("{\"srv\":{\"priority\":");
    assert(enc[2] == l0[2]);
    lemma_p_lit_refute(a, enc, b, "{\"ip\":"@, 2);
    assert(enc[2] == l0[2]);
    lemma_p_lit_refute(a, enc, b, "{\"domain\":"@, 2);
    assert(enc[2] == l0[2]);
    lemma_p_lit_refute(a, enc, b, "{\"text\":"@, 2);
    assert(enc[2] == l0[2]);
    lemma_p_lit_refute(a, enc, b, "{\"mx\":{\"priority\":"@, 2);
    let r0 = tail + b;
    assert(s =~= a + l0 + r0);
    lemma_p_lit_at(a, l0, r0);
    let a0 = a + l0;
    assert(s =~= a0 + tail + b);
    lemma_tail_srv(a0, priority, weight, port, target, b);
}

#[verifier::rlimit(100)]
#[verifier::spinoff_prover]
proof fn lemma_tail_soa(a0: Seq<char>, mname: Seq<char>, rname: Seq<char>, serial: u32, refresh: i32, retry: i32, expire: i32, minimum: u32, b: Seq<char>)
    ensures
        pv_soa(a0 + (enc_str(mname) + ",\"rname\":"@ + enc_str(rname) + ",\"serial\":"@ + dec_chars(serial as nat) + ",\"refresh\":"@ + enc_i32(refresh as int) + ",\"retry\":"@ + enc_i32(retry as int) + ",\"expire\":"@ + enc_i32(expire as int) + ",\"minimum\":"@ + dec_chars(minimum as nat) + "}}"@) + b, a0.len() as int) == Some(
            (ValueData::Soa(mname, rname, serial, refresh, retry, expire, minimum), a0.len() + (enc_str(mname) + ",\"rname\":"@ + enc_str(rname) + ",\"serial\":"@ + dec_chars(serial as nat) + ",\"refresh\":"@ + enc_i32(refresh as int) + ",\"retry\":"@ + enc_i32(retry as int) + ",\"expire\":"@ + enc_i32(expire as int) + ",\"minimum\":"@ + dec_chars(minimum as nat) + "}}"@).len() as int),
        ),
{
    reveal_strlit(",\"expire\":");
    reveal_strlit(",\"minimum\":");
    reveal_strlit(",\"refresh\":");
    reveal_strlit(",\"retry\":");
    reveal_strlit("}}");
    let s = a0 + (enc_str(mname) + ",\"rname\":"@ + enc_str(rname) + ",\"serial\":"@ + dec_chars(serial as nat) + ",\"refresh\":"@ + enc_i32(refresh as int) + ",\"retry\":"@ + enc_i32(retry as int) + ",\"expire\":"@ + enc_i32(expire as int) + ",\"minimum\":"@ + dec_chars(minimum as nat) + "}}"@) + b;
    let p0 = enc_str(mname);
    let p1 = ",\"rname\":"@;
    let p2 = enc_str(rname);
    let p3 = ",\"serial\":"@;
    let p4 = dec_chars(serial as nat);
    let p5 = ",\"refresh\":"@;
    let p6 = enc_i32(refresh as int);
    let p7 = ",\"retry\":"@;
    let p8 = enc_i32(retry as int);
    let p9 = ",\"expire\":"@;
    let p10 = enc_i32(expire as int);
    let p11 = ",\"minimum\":"@;
    let p12 = dec_chars(minimum as nat);
    let p13 = "}}"@;
    let r13 = b;
    let r12 = p13 + r13;
    let r11 = p12 + r12;
    let r10 = p11 + r11;
    let r9 = p10 + r10;
    let r8 = p9 + r9;
    let r7 = p8 + r8;
    let r6 = p7 + r7;
    let r5 = p6 + r6;
    let r4 = p5 + r5;
    let r3 = p4 + r4;
    let r2 = p3 + r3;
    let r1 = p2 + r2;
    let r0 = p1 + r1;
    assert(s =~= (a0 + p0) + r0);
    lemma_p_string_at(a0, mname, r0);
    let a1 = a0 + p0;
    lemma_assoc3(a1, p1, r1);
    lemma_p_lit_at(a1, p1, r1);
    let a2 = a1 + p1;
    lemma_assoc3(a2, p2, r2);
    lemma_p_string_at(a2, rname, r2);
    let a3 = a2 + p2;
    lemma_assoc3(a3, p3, r3);
    lemma_p_lit_at(a3, p3, r3);
    let a4 = a3 + p3;
    lemma_assoc3(a4, p4, r4);
    assert(r4[0] == ",\"refresh\":"@[0]);
    assert(r4.len() >= 1 && !is_digit_char(r4[0]));
    lemma_p_u64_at(a4, serial as u64, r4);
    assert(dec_chars((serial as u64) as nat) == dec_chars(serial as nat));
    let a5 = a4 + p4;
    lemma_assoc3(a5, p5, r5);
    lemma_p_lit_at(a5, p5, r5);
    let a6 = a5 + p5;
    lemma_assoc3(a6, p6, r6);
    assert(r6[0] == ",\"retry\":"@[0]);
    assert(r6.len() >= 1 && !is_digit_char(r6[0]));
    lemma_p_i32_at(a6, refresh, r6);
    let a7 = a6 + p6;
    lemma_assoc3(a7, p7, r7);
    lemma_p_lit_at(a7, p7, r7);
    let a8 = a7 + p7;
    lemma_assoc3(a8, p8, r8);
    assert(r8[0] == ",\"expire\":"@[0]);
    assert(r8.len() >= 1 && !is_digit_char(r8[0]));
    lemma_p_i32_at(a8, retry, r8);
    let a9 = a8 + p8;
    lemma_assoc3(a9, p9, r9);
    lemma_p_lit_at(a9, p9, r9);
    let a10 = a9 + p9;
    lemma_assoc3(a10, p10, r10);
    assert(r10[0] == ",\"minimum\":"@[0]);
    assert(r10.len() >= 1 && !is_digit_char(r10[0]));
    lemma_p_i32_at(a10, expire, r10);
    let a11 = a10 + p10;
    lemma_assoc3(a11, p11, r11);
    lemma_p_lit_at(a11, p11, r11);
    let a12 = a11 + p11;
    lemma_assoc3(a12, p12, r12);
    assert(r12[0] == "}}"@[0]);
    assert(r12.len() >= 1 && !is_digit_char(r12[0]));
    lemma_p_u64_at(a12, minimum as u64, r12);
    assert(dec_chars((minimum as u64) as nat) == dec_chars(minimum as nat));
    let a13 = a12 + p12;
    lemma_assoc3(a13, p13, r13);
    lemma_p_lit_at(a13, p13, r13);
}
#[verifier::rlimit(100)]
#[verifier::spinoff_prover]
proof fn lemma_pv_soa(a: Seq<char>, mname: Seq<char>, rname: Seq<char>, serial: u32, refresh: i32, retry: i32, expire: i32, minimum: u32, b: Seq<char>)
    ensures
        spec_parse_value(a + enc_value(ValueData::Soa(mname, rname, serial, refresh, retry, expire, minimum)) + b, a.len() as int) == Some(
            (ValueData::Soa(mname, rname, serial, refresh, retry, expire, minimum), a.len() + enc_value(ValueData::Soa(mname, rname, serial, refresh, retry, expire, minimum)).len() as int),
        ),
{
    let enc = enc_value(ValueData::Soa(mname, rname, serial, refresh, retry, expire, minimum));
    let s = a + enc + b;
    let l0 = "{\"soa\":{\"mname\":"@;
    let tail = enc_str(mname) + ",\"rname\":"@ + enc_str(rname) + ",\"serial\":"@ + dec_chars(serial as nat) + ",\"refresh\":"@ + enc_i32(refresh as int) + ",\"retry\":"@ + enc_i32(retry as int) + ",\"expire\":"@ + enc_i32(expire as int) + ",\"minimum\":"@ + dec_chars(minimum as nat) + "}}"@;
    assert(enc =~= l0 + tail);
    reveal_strlit("{\"domain\":");
    reveal_strlit("{\"ip\":");
    reveal_strlit("{\"mx\":{\"priority\":");
    reveal_strlit("{\"srv\":{\"priority\":");
    reveal_strlit("{\"text\":");
    reveal_strlit("{\"soa\":{\"mname\":");
    assert(enc[2] == l0[2]);
    lemma_p_lit_refute(a, enc, b, "{\"ip\":"@, 2);
    assert(enc[2] == l0[2]);
    lemma_p_lit_refute(a, enc, b, "{\"domain\":"@, 2);
    assert(enc[2] == l0[2]);
    lemma_p_lit_refute(a, enc, b, "{\"text\":"@, 2);
    assert(enc[2] == l0[2]);
    lemma_p_lit_refute(a, enc, b, "{\"mx\":{\"priority\":"@, 2);
    assert(enc[3] == l0[3]);
    lemma_p_lit_refute(a, enc, b, "{\"srv\":{\"priority\":"@, 3);
    let r0 = tail + b;
    assert(s =~= a + l0 + r0);
    lemma_p_lit_at(a, l0, r0);
    let a0 = a + l0;
    assert(s =~= a0 + tail + b);
    lemma_tail_soa(a0, mname, rname, serial, refresh, retry, expire, minimum, b);
}

#[verifier::rlimit(100)]
#[verifier::spinoff_prover]
proof fn lemma_tail_caa(a0: Seq<char>, flags: u8, tag: Seq<char>, value: Seq<char>, b: Seq<char>)
    ensures
        pv_caa(a0 + (dec_chars(flags as nat) + ",\"tag\":"@ + enc_str(tag) + ",\"value\":"@ + enc_str(value) + "}}"@) + b, a0.len() as int) == Some(
            (ValueData::Caa(flags, tag, value), a0.len() + (dec_chars(flags as nat) + ",\"tag\":"@ + enc_str(tag) + ",\"value\":"@ + enc_str(value) + "}}"@).len() as int),
        ),
{
    let s = a0 + (dec_chars(flags as nat) + ",\"tag\":"@ + enc_str(tag) + ",\"value\":"@ + enc_str(value) + "}}"@) + b;
    let p0 = dec_chars(flags as nat);
    let p1 = ",\"tag\":"@;
    let p2 = enc_str(tag);
    let p3 = ",\"value\":"@;
    let p4 = enc_str(value);
    let p5 = "}}"@;
    let r5 = b;
    let r4 = p5 + r5;
    let r3 = p4 + r4;
    let r2 = p3 + r3;
    let r1 = p2 + r2;
    let r0 = p1 + r1;
    assert(s =~= (a0 + p0) + r0);
    assert(r0.len() >= 1 && !is_digit_char(r0[0])) by {
        reveal_strlit(",\"tag\":");
        assert(r0[0] == ",\"tag\":"@[0]);
    }
    lemma_p_u64_at(a0, flags as u64, r0);
    assert(dec_chars((flags as u64) as nat) == dec_chars(flags as nat));
    let a1 = a0 + p0;
    lemma_assoc3(a1, p1, r1);
    lemma_p_lit_at(a1, p1, r1);
    let a2 = a1 + p1;
    lemma_assoc3(a2, p2, r2);
    lemma_p_string_at(a2, tag, r2);
    let a3 = a2 + p2;
    lemma_assoc3(a3, p3, r3);
    lemma_p_lit_at(a3, p3, r3);
    let a4 = a3 + p3;
    lemma_assoc3(a4, p4, r4);
    lemma_p_string_at(a4, value, r4);
    let a5 = a4 + p4;
    lemma_assoc3(a5, p5, r5);
    lemma_p_lit_at(a5, p5, r5);
}
#[verifier::rlimit(100)]
#[verifier::spinoff_prover]
proof fn lemma_pv_caa(a: Seq<char>, flags: u8, tag: Seq<char>, value: Seq<char>, b: Seq<char>)
    ensures
        spec_parse_value(a + enc_value(ValueData::Caa(flags, tag, value)) + b, a.len() as int) == Some(
            (ValueData::Caa(flags, tag, value), a.len() + enc_value(ValueData::Caa(flags, tag, value)).len() as int),
        ),
{
    let enc = enc_value(ValueData::Caa(flags, tag, value));
    let s = a + enc + b;
    let l0 = "{\"caa\":{\"flags\":"@;
    let tail = dec_chars(flags as nat) + ",\"tag\":"@ + enc_str(tag) + ",\"value\":"@ + enc_str(value) + "}}"@;
    assert(enc =~= l0 + tail);
    reveal_strlit("{\"domain\":");
    reveal_strlit("{\"ip\":");
    reveal_strlit("{\"mx\":{\"priority\":");
    reveal_strlit("{\"soa\":{\"mname\":");
    reveal_strlit("{\"srv\":{\"priority\":");
    reveal_strlit("{\"text\":");
    reveal_strlit("{\"caa\":{\"flags\":");
    assert(enc[2] == l0[2]);
    lemma_p_lit_refute(a, enc, b, "{\"ip\":"@, 2);
    assert(enc[2] == l0[2]);
    lemma_p_lit_refute(a, enc, b, "{\"domain\":"@, 2);
    assert(enc[2] == l0[2]);
    lemma_p_lit_refute(a, enc, b, "{\"text\":"@, 2);
    assert(enc[2] == l0[2]);
    lemma_p_lit_refute(a, enc, b, "{\"mx\":{\"priority\":"@, 2);
    assert(enc[2] == l0[2]);
    lemma_p_lit_refute(a, enc, b, "{\"srv\":{\"priority\":"@, 2);
    assert(enc[2] == l0[2]);
    lemma_p_lit_refute(a, enc, b, "{\"soa\":{\"mname\":"@, 2);
    let r0 = tail + b;
    assert(s =~= a + l0 + r0);
    lemma_p_lit_at(a, l0, r0);
    let a0 = a + l0;
    assert(s =~= a0 + tail + b);
    lemma_tail_caa(a0, flags, tag, value, b);
}

#[verifier::rlimit(100)]
#[verifier::spinoff_prover]
proof fn lemma_tail_cert(a0: Seq<char>, cert_type: u16, key_tag: u16, algorithm: u8, certificate: Seq<u8>, b: Seq<char>)
    ensures
        pv_cert(a0 + (dec_chars(cert_type as nat) + ",\"key_tag\":"@ + dec_chars(key_tag as nat) + ",\"algorithm\":"@ + dec_chars(algorithm as nat) + ",\"certificate\":"@ + enc_bytes(certificate) + "}}"@) + b, a0.len() as int) == Some(
            (ValueData::Cert(cert_type, key_tag, algorithm, certificate), a0.len() + (dec_chars(cert_type as nat) + ",\"key_tag\":"@ + dec_chars(key_tag as nat) + ",\"algorithm\":"@ + dec_chars(algorithm as nat) + ",\"certificate\":"@ + enc_bytes(certificate) + "}}"@).len() as int),
        ),
{
    let s = a0 + (dec_chars(cert_type as nat) + ",\"key_tag\":"@ + dec_chars(key_tag as nat) + ",\"algorithm\":"@ + dec_chars(algorithm as nat) + ",\"certificate\":"@ + enc_bytes(certificate) + "}}"@) + b;
    let p0 = dec_chars(cert_type as nat);
    let p1 = ",\"key_tag\":"@;
    let p2 = dec_chars(key_tag as nat);
    let p3 = ",\"algorithm\":"@;
    let p4 = dec_chars(algorithm as nat);
    let p5 = ",\"certificate\":"@;
    let p6 = enc_bytes(certificate);
    let p7 = "}}"@;
    let r7 = b;
    let r6 = p7 + r7;
    let r5 = p6 + r6;
    let r4 = p5 + r5;
    let r3 = p4 + r4;
    let r2 = p3 + r3;
    let r1 = p2 + r2;
    let r0 = p1 + r1;
    assert(s =~= (a0 + p0) + r0);
    assert(r0.len() >= 1 && !is_digit_char(r0[0])) by {
        reveal_strlit(",\"key_tag\":");
        assert(r0[0] == ",\"key_tag\":"@[0]);
    }
    lemma_p_u64_at(a0, cert_type as u64, r0);
    assert(dec_chars((cert_type as u64) as nat) == dec_chars(cert_type as nat));
    let a1 = a0 + p0;
    lemma_assoc3(a1, p1, r1);
    lemma_p_lit_at(a1, p1, r1);
    let a2 = a1 + p1;
    lemma_assoc3(a2, p2, r2);
    assert(r2.len() >= 1 && !is_digit_char(r2[0])) by {
        reveal_strlit(",\"algorithm\":");
        assert(r2[0] == ",\"algorithm\":"@[0]);
    }
    lemma_p_u64_at(a2, key_tag as u64, r2);
    assert(dec_chars((key_tag as u64) as nat) == dec_chars(key_tag as nat));
    let a3 = a2 + p2;
    lemma_assoc3(a3, p3, r3);
    lemma_p_lit_at(a3, p3, r3);
    let a4 = a3 + p3;
    lemma_assoc3(a4, p4, r4);
    assert(r4.len() >= 1 && !is_digit_char(r4[0])) by {
        reveal_strlit(",\"certificate\":");
        assert(r4[0] == ",\"certificate\":"@[0]);
    }
    lemma_p_u64_at(a4, algorithm as u64, r4);
    assert(dec_chars((algorithm as u64) as nat) == dec_chars(algorithm as nat));
    let a5 = a4 + p4;
    lemma_assoc3(a5, p5, r5);
    lemma_p_lit_at(a5, p5, r5);
    let a6 = a5 + p5;
    lemma_assoc3(a6, p6, r6);
    lemma_p_bytes_at(a6, certificate, r6);
    let a7 = a6 + p6;
    lemma_assoc3(a7, p7, r7);
    lemma_p_lit_at(a7, p7, r7);
}
#[verifier::rlimit(100)]
#[verifier::spinoff_prover]
proof fn lemma_pv_cert(a: Seq<char>, cert_type: u16, key_tag: u16, algorithm: u8, certificate: Seq<u8>, b: Seq<char>)
    ensures
        spec_parse_value(a + enc_value(ValueData::Cert(cert_type, key_tag, algorithm, certificate)) + b, a.len() as int) == Some(
            (ValueData::Cert(cert_type, key_tag, algorithm, certificate), a.len() + enc_value(ValueData::Cert(cert_type, key_tag, algorithm, certificate)).len() as int),
        ),
{
    let enc = enc_value(ValueData::Cert(cert_type, key_tag, algorithm, certificate));
    let s = a + enc + b;
    let l0 = "{\"cert\":{\"cert_type\":"@;
    let tail = dec_chars(cert_type as nat) + ",\"key_tag\":"@ + dec_chars(key_tag as nat) + ",\"algorithm\":"@ + dec_chars(algorithm as nat) + ",\"certificate\":"@ + enc_bytes(certificate) + "}}"@;
    assert(enc =~= l0 + tail);
    reveal_strlit("{\"caa\":{\"flags\":");
    reveal_strlit("{\"domain\":");
    reveal_strlit("{\"ip\":");
    reveal_strlit("{\"mx\":{\"priority\":");
    reveal_strlit("{\"soa\":{\"mname\":");
    reveal_strlit("{\"srv\":{\"priority\":");
    reveal_strlit("{\"text\":");
    reveal_strlit("{\"cert\":{\"cert_type\":");
    assert(enc[2] == l0[2]);
    lemma_p_lit_refute(a, enc, b, "{\"ip\":"@, 2);
    assert(enc[2] == l0[2]);
    lemma_p_lit_refute(a, enc, b, "{\"domain\":"@, 2);
    assert(enc[2] == l0[2]);
    lemma_p_lit_refute(a, enc, b, "{\"text\":"@, 2);
    assert(enc[2] == l0[2]);
    lemma_p_lit_refute(a, enc, b, "{\"mx\":{\"priority\":"@, 2);
    assert(enc[2] == l0[2]);
    lemma_p_lit_refute(a, enc, b, "{\"srv\":{\"priority\":"@, 2);
    assert(enc[2] == l0[2]);
    lemma_p_lit_refute(a, enc, b, "{\"soa\":{\"mname\":"@, 2);
    assert(enc[3] == l0[3]);
    lemma_p_lit_refute(a, enc, b, "{\"caa\":{\"flags\":"@, 3);
    let r0 = tail + b;
    assert(s =~= a + l0 + r0);
    lemma_p_lit_at(a, l0, r0);
    let a0 = a + l0;
    assert(s =~= a0 + tail + b);
    lemma_tail_cert(a0, cert_type, key_tag, algorithm, certificate, b);
}

#[verifier::rlimit(100)]
#[verifier::spinoff_prover]
proof fn lemma_tail_dnskey(a0: Seq<char>, flags: u16, protocol: u8, algorithm: u8, public_key: Seq<u8>, b: Seq<char>)
    ensures
        pv_dnskey(a0 + (dec_chars(flags as nat) + ",\"protocol\":"@ + dec_chars(protocol as nat) + ",\"algorithm\":"@ + dec_chars(algorithm as nat) + ",\"public_key\":"@ + enc_bytes(public_key) + "}}"@) + b, a0.len() as int) == Some(
            (ValueData::Dnskey(flags, protocol, algorithm, public_key), a0.len() + (dec_chars(flags as nat) + ",\"protocol\":"@ + dec_chars(protocol as nat) + ",\"algorithm\":"@ + dec_chars(algorithm as nat) + ",\"public_key\":"@ + enc_bytes(public_key) + "}}"@).len() as int),
        ),
{
    let s = a0 + (dec_chars(flags as nat) + ",\"protocol\":"@ + dec_chars(protocol as nat) + ",\"algorithm\":"@ + dec_chars(algorithm as nat) + ",\"public_key\":"@ + enc_bytes(public_key) + "}}"@) + b;
    let p0 = dec_chars(flags as nat);
    let p1 = ",\"protocol\":"@;
    let p2 = dec_chars(protocol as nat);
    let p3 = ",\"algorithm\":"@;
    let p4 = dec_chars(algorithm as nat);
    let p5 = ",\"public_key\":"@;
    let p6 = enc_bytes(public_key);
    let p7 = "}}"@;
    let r7 = b;
    let r6 = p7 + r7;
    let r5 = p6 + r6;
    let r4 = p5 + r5;
    let r3 = p4 + r4;
    let r2 = p3 + r3;
    let r1 = p2 + r2;
    let r0 = p1 + r1;
    assert(s =~= (a0 + p0) + r0);
    assert(r0.len() >= 1 && !is_digit_char(r0[0])) by {
        reveal_strlit(",\"protocol\":");
        assert(r0[0] == ",\"protocol\":"@[0]);
    }
    lemma_p_u64_at(a0, flags as u64, r0);
    assert(dec_chars((flags as u64) as nat) == dec_chars(flags as nat));
    let a1 = a0 + p0;
    lemma_assoc3(a1, p1, r1);
    lemma_p_lit_at(a1, p1, r1);
    let a2 = a1 + p1;
    lemma_assoc3(a2, p2, r2);
    assert(r2.len() >= 1 && !is_digit_char(r2[0])) by {
        reveal_strlit(",\"algorithm\":");
        assert(r2[0] == ",\"algorithm\":"@[0]);
    }
    lemma_p_u64_at(a2, protocol as u64, r2);
    assert(dec_chars((protocol as u64) as nat) == dec_chars(protocol as nat));
    let a3 = a2 + p2;
    lemma_assoc3(a3, p3, r3);
    lemma_p_lit_at(a3, p3, r3);
    let a4 = a3 + p3;
    lemma_assoc3(a4, p4, r4);
    assert(r4.len() >= 1 && !is_digit_char(r4[0])) by {
        reveal_strlit(",\"public_key\":");
        assert(r4[0] == ",\"public_key\":"@[0]);
    }
    lemma_p_u64_at(a4, algorithm as u64, r4);
    assert(dec_chars((algorithm as u64) as nat) == dec_chars(algorithm as nat));
    let a5 = a4 + p4;
    lemma_assoc3(a5, p5, r5);
    lemma_p_lit_at(a5, p5, r5);
    let a6 = a5 + p5;
    lemma_assoc3(a6, p6, r6);
    lemma_p_bytes_at(a6, public_key, r6);
    let a7 = a6 + p6;
    lemma_assoc3(a7, p7, r7);
    lemma_p_lit_at(a7, p7, r7);
}
#[verifier::rlimit(100)]
#[verifier::spinoff_prover]
proof fn lemma_refute_dnskey(a: Seq<char>, enc: Seq<char>, b: Seq<char>, l0: Seq<char>)
    requires
        enc.len() >= l0.len(),
        forall|i: int| 0 <= i < l0.len() ==> #[trigger] enc[i] == l0[i],
        l0 == "{\"dnskey\":{\"flags\":"@,
    ensures
        (p_lit(a + enc + b, a.len() as int, "{\"ip\":"@) matches None),
        (p_lit(a + enc + b, a.len() as int, "{\"domain\":"@) matches None),
        (p_lit(a + enc + b, a.len() as int, "{\"text\":"@) matches None),
        (p_lit(a + enc + b, a.len() as int, "{\"mx\":{\"priority\":"@) matches None),
        (p_lit(a + enc + b, a.len() as int, "{\"srv\":{\"priority\":"@) matches None),
        (p_lit(a + enc + b, a.len() as int, "{\"soa\":{\"mname\":"@) matches None),
        (p_lit(a + enc + b, a.len() as int, "{\"caa\":{\"flags\":"@) matches None),
        (p_lit(a + enc + b, a.len() as int, "{\"cert\":{\"cert_type\":"@) matches None),
{
    reveal_strlit("{\"caa\":{\"flags\":");
    reveal_strlit("{\"cert\":{\"cert_type\":");
    reveal_strlit("{\"dnskey\":{\"flags\":");
    reveal_strlit("{\"domain\":");
    reveal_strlit("{\"ip\":");
    reveal_strlit("{\"mx\":{\"priority\":");
    reveal_strlit("{\"soa\":{\"mname\":");
    reveal_strlit("{\"srv\":{\"priority\":");
    reveal_strlit("{\"text\":");
    assert(enc[2] == l0[2]);
    lemma_p_lit_refute(a, enc, b, "{\"ip\":"@, 2);
    assert(enc[3] == l0[3]);
    lemma_p_lit_refute(a, enc, b, "{\"domain\":"@, 3);
    assert(enc[2] == l0[2]);
    lemma_p_lit_refute(a, enc, b, "{\"text\":"@, 2);
    assert(enc[2] == l0[2]);
    lemma_p_lit_refute(a, enc, b, "{\"mx\":{\"priority\":"@, 2);
    assert(enc[2] == l0[2]);
    lemma_p_lit_refute(a, enc, b, "{\"srv\":{\"priority\":"@, 2);
    assert(enc[2] == l0[2]);
    lemma_p_lit_refute(a, enc, b, "{\"soa\":{\"mname\":"@, 2);
    assert(enc[2] == l0[2]);
    lemma_p_lit_refute(a, enc, b, "{\"caa\":{\"flags\":"@, 2);
    assert(enc[2] == l0[2]);
    lemma_p_lit_refute(a, enc, b, "{\"cert\":{\"cert_type\":"@, 2);
}

#[verifier::rlimit(100)]
#[verifier::spinoff_prover]
proof fn lemma_pv_dnskey(a: Seq<char>, flags: u16, protocol: u8, algorithm: u8, public_key: Seq<u8>, b: Seq<char>)
    ensures
        spec_parse_value(a + enc_value(ValueData::Dnskey(flags, protocol, algorithm, public_key)) + b, a.len() as int) == Some(
            (ValueData::Dnskey(flags, protocol, algorithm, public_key), a.len() + enc_value(ValueData::Dnskey(flags, protocol, algorithm, public_key)).len() as int),
        ),
{
    let enc = enc_value(ValueData::Dnskey(flags, protocol, algorithm, public_key));
    let s = a + enc + b;
    let l0 = "{\"dnskey\":{\"flags\":"@;
    let tail = dec_chars(flags as nat) + ",\"protocol\":"@ + dec_chars(protocol as nat) + ",\"algorithm\":"@ + dec_chars(algorithm as nat) + ",\"public_key\":"@ + enc_bytes(public_key) + "}}"@;
    assert(enc =~= l0 + tail);
    assert(forall|i: int| 0 <= i < l0.len() ==> #[trigger] enc[i] == l0[i]);
    lemma_refute_dnskey(a, enc, b, l0);
    let r0 = tail + b;
    assert(s =~= a + l0 + r0);
    lemma_p_lit_at(a, l0, r0);
    let a0 = a + l0;
    assert(s =~= a0 + tail + b);
    lemma_tail_dnskey(a0, flags, protocol, algorithm, public_key, b);
}

#[verifier::rlimit(100)]
#[verifier::spinoff_prover]
proof fn lemma_tail_ds(a0: Seq<char>, key_tag: u16, algorithm: u8, digest_type: u8, digest: Seq<u8>, b: Seq<char>)
    ensures
        pv_ds(a0 + (dec_chars(key_tag as nat) + ",\"algorithm\":"@ + dec_chars(algorithm as nat) + ",\"digest_type\":"@ + dec_chars(digest_type as nat) + ",\"digest\":"@ + enc_bytes(digest) + "}}"@) + b, a0.len() as int) == Some(
            (ValueData::Ds(key_tag, algorithm, digest_type, digest), a0.len() + (dec_chars(key_tag as nat) + ",\"algorithm\":"@ + dec_chars(algorithm as nat) + ",\"digest_type\":"@ + dec_chars(digest_type as nat) + ",\"digest\":"@ + enc_bytes(digest) + "}}"@).len() as int),
        ),
{
    let s = a0 + (dec_chars(key_tag as nat) + ",\"algorithm\":"@ + dec_chars(algorithm as nat) + ",\"digest_type\":"@ + dec_chars(digest_type as nat) + ",\"digest\":"@ + enc_bytes(digest) + "}}"@) + b;
    let p0 = dec_chars(key_tag as nat);
    let p1 = ",\"algorithm\":"@;
    let p2 = dec_chars(algorithm as nat);
    let p3 = ",\"digest_type\":"@;
    let p4 = dec_chars(digest_type as nat);
    let p5 = ",\"digest\":"@;
    let p6 = enc_bytes(digest);
    let p7 = "}}"@;
    let r7 = b;
    let r6 = p7 + r7;
    let r5 = p6 + r6;
    let r4 = p5 + r5;
    let r3 = p4 + r4;
    let r2 = p3 + r3;
    let r1 = p2 + r2;
    let r0 = p1 + r1;
    assert(s =~= (a0 + p0) + r0);
    assert(r0.len() >= 1 && !is_digit_char(r0[0])) by {
        reveal_strlit(",\"algorithm\":");
        assert(r0[0] == ",\"algorithm\":"@[0]);
    }
    lemma_p_u64_at(a0, key_tag as u64, r0);
    assert(dec_chars((key_tag as u64) as nat) == dec_chars(key_tag as nat));
    let a1 = a0 + p0;
    lemma_assoc3(a1, p1, r1);
    lemma_p_lit_at(a1, p1, r1);
    let a2 = a1 + p1;
    lemma_assoc3(a2, p2, r2);
    assert(r2.len() >= 1 && !is_digit_char(r2[0])) by {
        reveal_strlit(",\"digest_type\":");
        assert(r2[0] == ",\"digest_type\":"@[0]);
    }
    lemma_p_u64_at(a2, algorithm as u64, r2);
    assert(dec_chars((algorithm as u64) as nat) == dec_chars(algorithm as nat));
    let a3 = a2 + p2;
    lemma_assoc3(a3, p3, r3);
    lemma_p_lit_at(a3, p3, r3);
    let a4 = a3 + p3;
    lemma_assoc3(a4, p4, r4);
    assert(r4.len() >= 1 && !is_digit_char(r4[0])) by {
        reveal_strlit(",\"digest\":");
        assert(r4[0] == ",\"digest\":"@[0]);
    }
    lemma_p_u64_at(a4, digest_type as u64, r4);
    assert(dec_chars((digest_type as u64) as nat) == dec_chars(digest_type as nat));
    let a5 = a4 + p4;
    lemma_assoc3(a5, p5, r5);
    lemma_p_lit_at(a5, p5, r5);
    let a6 = a5 + p5;
    lemma_assoc3(a6, p6, r6);
    lemma_p_bytes_at(a6, digest, r6);
    let a7 = a6 + p6;
    lemma_assoc3(a7, p7, r7);
    lemma_p_lit_at(a7, p7, r7);
}
#[verifier::rlimit(100)]
#[verifier::spinoff_prover]
proof fn lemma_refute_ds(a: Seq<char>, enc: Seq<char>, b: Seq<char>, l0: Seq<char>)
    requires
        enc.len() >= l0.len(),
        forall|i: int| 0 <= i < l0.len() ==> #[trigger] enc[i] == l0[i],
        l0 == "{\"ds\":{\"key_tag\":"@,
    ensures
        (p_lit(a + enc + b, a.len() as int, "{\"ip\":"@) matches None),
        (p_lit(a + enc + b, a.len() as int, "{\"domain\":"@) matches None),
        (p_lit(a + enc + b, a.len() as int, "{\"text\":"@) matches None),
        (p_lit(a + enc + b, a.len() as int, "{\"mx\":{\"priority\":"@) matches None),
        (p_lit(a + enc + b, a.len() as int, "{\"srv\":{\"priority\":"@) matches None),
        (p_lit(a + enc + b, a.len() as int, "{\"soa\":{\"mname\":"@) matches None),
        (p_lit(a + enc + b, a.len() as int, "{\"caa\":{\"flags\":"@) matches None),
        (p_lit(a + enc + b, a.len() as int, "{\"cert\":{\"cert_type\":"@) matches None),
        (p_lit(a + enc + b, a.len() as int, "{\"dnskey\":{\"flags\":"@) matches None),
{
    reveal_strlit("{\"caa\":{\"flags\":");
    reveal_strlit("{\"cert\":{\"cert_type\":");
    reveal_strlit("{\"dnskey\":{\"flags\":");
    reveal_strlit("{\"domain\":");
    reveal_strlit("{\"ds\":{\"key_tag\":");
    reveal_strlit("{\"ip\":");
    reveal_strlit("{\"mx\":{\"priority\":");
    reveal_strlit("{\"soa\":{\"mname\":");
    reveal_strlit("{\"srv\":{\"priority\":");
    reveal_strlit("{\"text\":");
    assert(enc[2] == l0[2]);
    lemma_p_lit_refute(a, enc, b, "{\"ip\":"@, 2);
    assert(enc[3] == l0[3]);
    lemma_p_lit_refute(a, enc, b, "{\"domain\":"@, 3);
    assert(enc[2] == l0[2]);
    lemma_p_lit_refute(a, enc, b, "{\"text\":"@, 2);
    assert(enc[2] == l0[2]);
    lemma_p_lit_refute(a, enc, b, "{\"mx\":{\"priority\":"@, 2);
    assert(enc[2] == l0[2]);
    lemma_p_lit_refute(a, enc, b, "{\"srv\":{\"priority\":"@, 2);
    assert(enc[2] == l0[2]);
    lemma_p_lit_refute(a, enc, b, "{\"soa\":{\"mname\":"@, 2);
    assert(enc[2] == l0[2]);
    lemma_p_lit_refute(a, enc, b, "{\"caa\":{\"flags\":"@, 2);
    assert(enc[2] == l0[2]);
    lemma_p_lit_refute(a, enc, b, "{\"cert\":{\"cert_type\":"@, 2);
    assert(enc[3] == l0[3]);
    lemma_p_lit_refute(a, enc, b, "{\"dnskey\":{\"flags\":"@, 3);
}

#[verifier::rlimit(100)]
#[verifier::spinoff_prover]
proof fn lemma_pv_ds(a: Seq<char>, key_tag: u16, algorithm: u8, digest_type: u8, digest: Seq<u8>, b: Seq<char>)
    ensures
        spec_parse_value(a + enc_value(ValueData::Ds(key_tag, algorithm, digest_type, digest)) + b, a.len() as int) == Some(
            (ValueData::Ds(key_tag, algorithm, digest_type, digest), a.len() + enc_value(ValueData::Ds(key_tag, algorithm, digest_type, digest)).len() as int),
        ),
{
    let enc = enc_value(ValueData::Ds(key_tag, algorithm, digest_type, digest));
    let s = a + enc + b;
    let l0 = "{\"ds\":{\"key_tag\":"@;
    let tail = dec_chars(key_tag as nat) + ",\"algorithm\":"@ + dec_chars(algorithm as nat) + ",\"digest_type\":"@ + dec_chars(digest_type as nat) + ",\"digest\":"@ + enc_bytes(digest) + "}}"@;
    assert(enc =~= l0 + tail);
    assert(forall|i: int| 0 <= i < l0.len() ==> #[trigger] enc[i] == l0[i]);
    lemma_refute_ds(a, enc, b, l0);
    let r0 = tail + b;
    assert(s =~= a + l0 + r0);
    lemma_p_lit_at(a, l0, r0);
    let a0 = a + l0;
    assert(s =~= a0 + tail + b);
    lemma_tail_ds(a0, key_tag, algorithm, digest_type, digest, b);
}

#[verifier::rlimit(100)]
#[verifier::spinoff_prover]
proof fn lemma_tail_hinfo(a0: Seq<char>, cpu: Seq<char>, os: Seq<char>, b: Seq<char>)
    ensures
        pv_hinfo(a0 + (enc_str(cpu) + ",\"os\":"@ + enc_str(os) + "}}"@) + b, a0.len() as int) == Some(
            (ValueData::Hinfo(cpu, os), a0.len() + (enc_str(cpu) + ",\"os\":"@ + enc_str(os) + "}}"@).len() as int),
        ),
{
    let s = a0 + (enc_str(cpu) + ",\"os\":"@ + enc_str(os) + "}}"@) + b;
    let p0 = enc_str(cpu);
    let p1 = ",\"os\":"@;
    let p2 = enc_str(os);
    let p3 = "}}"@;
    let r3 = b;
    let r2 = p3 + r3;
    let r1 = p2 + r2;
    let r0 = p1 + r1;
    assert(s =~= (a0 + p0) + r0);
    lemma_p_string_at(a0, cpu, r0);
    let a1 = a0 + p0;
    lemma_assoc3(a1, p1, r1);
    lemma_p_lit_at(a1, p1, r1);
    let a2 = a1 + p1;
    lemma_assoc3(a2, p2, r2);
    lemma_p_string_at(a2, os, r2);
    let a3 = a2 + p2;
    lemma_assoc3(a3, p3, r3);
    lemma_p_lit_at(a3, p3, r3);
}
#[verifier::rlimit(100)]
#[verifier::spinoff_prover]
proof fn lemma_pv_hinfo(a: Seq<char>, cpu: Seq<char>, os: Seq<char>, b: Seq<char>)
    ensures
        spec_parse_value(a + enc_value(ValueData::Hinfo(cpu, os)) + b, a.len() as int) == Some(
            (ValueData::Hinfo(cpu, os), a.len() + enc_value(ValueData::Hinfo(cpu, os)).len() as int),
        ),
{
    let enc = enc_value(ValueData::Hinfo(cpu, os));
    let s = a + enc + b;
    let l0 = "{\"hinfo\":{\"cpu\":"@;
    let tail = enc_str(cpu) + ",\"os\":"@ + enc_str(os) + "}}"@;
    assert(enc =~= l0 + tail);
    reveal_strlit("{\"caa\":{\"flags\":");
    reveal_strlit("{\"cert\":{\"cert_type\":");
    reveal_strlit("{\"dnskey\":{\"flags\":");
    reveal_strlit("{\"domain\":");
    reveal_strlit("{\"ds\":{\"key_tag\":");
    reveal_strlit("{\"ip\":");
    reveal_strlit("{\"mx\":{\"priority\":");
    reveal_strlit("{\"soa\":{\"mname\":");
    reveal_strlit("{\"srv\":{\"priority\":");
    reveal_strlit("{\"text\":");
    reveal_strlit("{\"hinfo\":{\"cpu\":");
    assert(enc[2] == l0[2]);
    lemma_p_lit_refute(a, enc, b, "{\"ip\":"@, 2);
    assert(enc[2] == l0[2]);
    lemma_p_lit_refute(a, enc, b, "{\"domain\":"@, 2);
    assert(enc[2] == l0[2]);
    lemma_p_lit_refute(a, enc, b, "{\"text\":"@, 2);
    assert(enc[2] == l0[2]);
    lemma_p_lit_refute(a, enc, b, "{\"mx\":{\"priority\":"@, 2);
    assert(enc[2] == l0[2]);
    lemma_p_lit_refute(a, enc, b, "{\"srv\":{\"priority\":"@, 2);
    assert(enc[2] == l0[2]);
    lemma_p_lit_refute(a, enc, b, "{\"soa\":{\"mname\":"@, 2);
    assert(enc[2] == l0[2]);
    lemma_p_lit_refute(a, enc, b, "{\"caa\":{\"flags\":"@, 2);
    assert(enc[2] == l0[2]);
    lemma_p_lit_refute(a, enc, b, "{\"cert\":{\"cert_type\":"@, 2);
    assert(enc[2] == l0[2]);
    lemma_p_lit_refute(a, enc, b, "{\"dnskey\":{\"flags\":"@, 2);
    assert(enc[2] == l0[2]);
    lemma_p_lit_refute(a, enc, b, "{\"ds\":{\"key_tag\":"@, 2);
    let r0 = tail + b;
    assert(s =~= a + l0 + r0);
    lemma_p_lit_at(a, l0, r0);
    let a0 = a + l0;
    assert(s =~= a0 + tail + b);
    lemma_tail_hinfo(a0, cpu, os, b);
}

#[verifier::rlimit(100)]
#[verifier::spinoff_prover]
proof fn lemma_tail_https(a0: Seq<char>, priority: u16, target: Seq<char>, params: Seq<Seq<char>>, b: Seq<char>)
    ensures
        pv_https(a0 + (dec_chars(priority as nat) + ",\"target\":"@ + enc_str(target) + ",\"params\":"@ + enc_strarray(params) + "}}"@) + b, a0.len() as int) == Some(
            (ValueData::Https(priority, target, params), a0.len() + (dec_chars(priority as nat) + ",\"target\":"@ + enc_str(target) + ",\"params\":"@ + enc_strarray(params) + "}}"@).len() as int),
        ),
{
    let s = a0 + (dec_chars(priority as nat) + ",\"target\":"@ + enc_str(target) + ",\"params\":"@ + enc_strarray(params) + "}}"@) + b;
    let p0 = dec_chars(priority as nat);
    let p1 = ",\"target\":"@;
    let p2 = enc_str(target);
    let p3 = ",\"params\":"@;
    let p4 = enc_strarray(params);
    let p5 = "}}"@;
    let r5 = b;
    let r4 = p5 + r5;
    let r3 = p4 + r4;
    let r2 = p3 + r3;
    let r1 = p2 + r2;
    let r0 = p1 + r1;
    assert(s =~= (a0 + p0) + r0);
    assert(r0.len() >= 1 && !is_digit_char(r0[0])) by {
        reveal_strlit(",\"target\":");
        assert(r0[0] == ",\"target\":"@[0]);
    }
    lemma_p_u64_at(a0, priority as u64, r0);
    assert(dec_chars((priority as u64) as nat) == dec_chars(priority as nat));
    let a1 = a0 + p0;
    lemma_assoc3(a1, p1, r1);
    lemma_p_lit_at(a1, p1, r1);
    let a2 = a1 + p1;
    lemma_assoc3(a2, p2, r2);
    lemma_p_string_at(a2, target, r2);
    let a3 = a2 + p2;
    lemma_assoc3(a3, p3, r3);
    lemma_p_lit_at(a3, p3, r3);
    let a4 = a3 + p3;
    lemma_assoc3(a4, p4, r4);
    assert(r4.len() >= 1 && r4[0] != ']') by {
        reveal_strlit("}}");
        assert(r4[0] == "}}"@[0]);
    }
    lemma_enc_strarray_len(params);
    if params.len() >= 1 {
        lemma_enc_items_len(params);
    }
    lemma_p_strarray_at(a4, params, r4);
    let a5 = a4 + p4;
    lemma_assoc3(a5, p5, r5);
    lemma_p_lit_at(a5, p5, r5);
}
#[verifier::rlimit(100)]
#[verifier::spinoff_prover]
proof fn lemma_pv_https(a: Seq<char>, priority: u16, target: Seq<char>, params: Seq<Seq<char>>, b: Seq<char>)
    ensures
        spec_parse_value(a + enc_value(ValueData::Https(priority, target, params)) + b, a.len() as int) == Some(
            (ValueData::Https(priority, target, params), a.len() + enc_value(ValueData::Https(priority, target, params)).len() as int),
        ),
{
    let enc = enc_value(ValueData::Https(priority, target, params));
    let s = a + enc + b;
    let l0 = "{\"https\":{\"priority\":"@;
    let tail = dec_chars(priority as nat) + ",\"target\":"@ + enc_str(target) + ",\"params\":"@ + enc_strarray(params) + "}}"@;
    assert(enc =~= l0 + tail);
    reveal_strlit("{\"caa\":{\"flags\":");
    reveal_strlit("{\"cert\":{\"cert_type\":");
    reveal_strlit("{\"dnskey\":{\"flags\":");
    reveal_strlit("{\"domain\":");
    reveal_strlit("{\"ds\":{\"key_tag\":");
    reveal_strlit("{\"hinfo\":{\"cpu\":");
    reveal_strlit("{\"ip\":");
    reveal_strlit("{\"mx\":{\"priority\":");
    reveal_strlit("{\"soa\":{\"mname\":");
    reveal_strlit("{\"srv\":{\"priority\":");
    reveal_strlit("{\"text\":");
    reveal_strlit("{\"https\":{\"priority\":");
    assert(enc[2] == l0[2]);
    lemma_p_lit_refute(a, enc, b, "{\"ip\":"@, 2);
    assert(enc[2] == l0[2]);
    lemma_p_lit_refute(a, enc, b, "{\"domain\":"@, 2);
    assert(enc[2] == l0[2]);
    lemma_p_lit_refute(a, enc, b, "{\"text\":"@, 2);
    assert(enc[2] == l0[2]);
    lemma_p_lit_refute(a, enc, b, "{\"mx\":{\"priority\":"@, 2);
    assert(enc[2] == l0[2]);
    lemma_p_lit_refute(a, enc, b, "{\"srv\":{\"priority\":"@, 2);
    assert(enc[2] == l0[2]);
    lemma_p_lit_refute(a, enc, b, "{\"soa\":{\"mname\":"@, 2);
    assert(enc[2] == l0[2]);
    lemma_p_lit_refute(a, enc, b, "{\"caa\":{\"flags\":"@, 2);
    assert(enc[2] == l0[2]);
    lemma_p_lit_refute(a, enc, b, "{\"cert\":{\"cert_type\":"@, 2);
    assert(enc[2] == l0[2]);
    lemma_p_lit_refute(a, enc, b, "{\"dnskey\":{\"flags\":"@, 2);
    assert(enc[2] == l0[2]);
    lemma_p_lit_refute(a, enc, b, "{\"ds\":{\"key_tag\":"@, 2);
    assert(enc[3] == l0[3]);
    lemma_p_lit_refute(a, enc, b, "{\"hinfo\":{\"cpu\":"@, 3);
    let r0 = tail + b;
    assert(s =~= a + l0 + r0);
    lemma_p_lit_at(a, l0, r0);
    let a0 = a + l0;
    assert(s =~= a0 + tail + b);
    lemma_tail_https(a0, priority, target, params, b);
}

#[verifier::rlimit(100)]
#[verifier::spinoff_prover]
proof fn lemma_tail_key(a0: Seq<char>, flags: u16, protocol: u8, algorithm: u8, public_key: Seq<u8>, b: Seq<char>)
    ensures
        pv_key(a0 + (dec_chars(flags as nat) + ",\"protocol\":"@ + dec_chars(protocol as nat) + ",\"algorithm\":"@ + dec_chars(algorithm as nat) + ",\"public_key\":"@ + enc_bytes(public_key) + "}}"@) + b, a0.len() as int) == Some(
            (ValueData::Key(flags, protocol, algorithm, public_key), a0.len() + (dec_chars(flags as nat) + ",\"protocol\":"@ + dec_chars(protocol as nat) + ",\"algorithm\":"@ + dec_chars(algorithm as nat) + ",\"public_key\":"@ + enc_bytes(public_key) + "}}"@).len() as int),
        ),
{
    let s = a0 + (dec_chars(flags as nat) + ",\"protocol\":"@ + dec_chars(protocol as nat) + ",\"algorithm\":"@ + dec_chars(algorithm as nat) + ",\"public_key\":"@ + enc_bytes(public_key) + "}}"@) + b;
    let p0 = dec_chars(flags as nat);
    let p1 = ",\"protocol\":"@;
    let p2 = dec_chars(protocol as nat);
    let p3 = ",\"algorithm\":"@;
    let p4 = dec_chars(algorithm as nat);
    let p5 = ",\"public_key\":"@;
    let p6 = enc_bytes(public_key);
    let p7 = "}}"@;
    let r7 = b;
    let r6 = p7 + r7;
    let r5 = p6 + r6;
    let r4 = p5 + r5;
    let r3 = p4 + r4;
    let r2 = p3 + r3;
    let r1 = p2 + r2;
    let r0 = p1 + r1;
    assert(s =~= (a0 + p0) + r0);
    assert(r0.len() >= 1 && !is_digit_char(r0[0])) by {
        reveal_strlit(",\"protocol\":");
        assert(r0[0] == ",\"protocol\":"@[0]);
    }
    lemma_p_u64_at(a0, flags as u64, r0);
    assert(dec_chars((flags as u64) as nat) == dec_chars(flags as nat));
    let a1 = a0 + p0;
    lemma_assoc3(a1, p1, r1);
    lemma_p_lit_at(a1, p1, r1);
    let a2 = a1 + p1;
    lemma_assoc3(a2, p2, r2);
    assert(r2.len() >= 1 && !is_digit_char(r2[0])) by {
        reveal_strlit(",\"algorithm\":");
        assert(r2[0] == ",\"algorithm\":"@[0]);
    }
    lemma_p_u64_at(a2, protocol as u64, r2);
    assert(dec_chars((protocol as u64) as nat) == dec_chars(protocol as nat));
    let a3 = a2 + p2;
    lemma_assoc3(a3, p3, r3);
    lemma_p_lit_at(a3, p3, r3);
    let a4 = a3 + p3;
    lemma_assoc3(a4, p4, r4);
    assert(r4.len() >= 1 && !is_digit_char(r4[0])) by {
        reveal_strlit(",\"public_key\":");
        assert(r4[0] == ",\"public_key\":"@[0]);
    }
    lemma_p_u64_at(a4, algorithm as u64, r4);
    assert(dec_chars((algorithm as u64) as nat) == dec_chars(algorithm as nat));
    let a5 = a4 + p4;
    lemma_assoc3(a5, p5, r5);
    lemma_p_lit_at(a5, p5, r5);
    let a6 = a5 + p5;
    lemma_assoc3(a6, p6, r6);
    lemma_p_bytes_at(a6, public_key, r6);
    let a7 = a6 + p6;
    lemma_assoc3(a7, p7, r7);
    lemma_p_lit_at(a7, p7, r7);
}
#[verifier::rlimit(100)]
#[verifier::spinoff_prover]
proof fn lemma_pv_key(a: Seq<char>, flags: u16, protocol: u8, algorithm: u8, public_key: Seq<u8>, b: Seq<char>)
    ensures
        spec_parse_value(a + enc_value(ValueData::Key(flags, protocol, algorithm, public_key)) + b, a.len() as int) == Some(
            (ValueData::Key(flags, protocol, algorithm, public_key), a.len() + enc_value(ValueData::Key(flags, protocol, algorithm, public_key)).len() as int),
        ),
{
    let enc = enc_value(ValueData::Key(flags, protocol, algorithm, public_key));
    let s = a + enc + b;
    let l0 = "{\"key\":{\"flags\":"@;
    let tail = dec_chars(flags as nat) + ",\"protocol\":"@ + dec_chars(protocol as nat) + ",\"algorithm\":"@ + dec_chars(algorithm as nat) + ",\"public_key\":"@ + enc_bytes(public_key) + "}}"@;
    assert(enc =~= l0 + tail);
    reveal_strlit("{\"caa\":{\"flags\":");
    reveal_strlit("{\"cert\":{\"cert_type\":");
    reveal_strlit("{\"dnskey\":{\"flags\":");
    reveal_strlit("{\"domain\":");
    reveal_strlit("{\"ds\":{\"key_tag\":");
    reveal_strlit("{\"hinfo\":{\"cpu\":");
    reveal_strlit("{\"https\":{\"priority\":");
    reveal_strlit("{\"ip\":");
    reveal_strlit("{\"mx\":{\"priority\":");
    reveal_strlit("{\"soa\":{\"mname\":");
    reveal_strlit("{\"srv\":{\"priority\":");
    reveal_strlit("{\"text\":");
    reveal_strlit("{\"key\":{\"flags\":");
    assert(enc[2] == l0[2]);
    lemma_p_lit_refute(a, enc, b, "{\"ip\":"@, 2);
    assert(enc[2] == l0[2]);
    lemma_p_lit_refute(a, enc, b, "{\"domain\":"@, 2);
    assert(enc[2] == l0[2]);
    lemma_p_lit_refute(a, enc, b, "{\"text\":"@, 2);
    assert(enc[2] == l0[2]);
    lemma_p_lit_refute(a, enc, b, "{\"mx\":{\"priority\":"@, 2);
    assert(enc[2] == l0[2]);
    lemma_p_lit_refute(a, enc, b, "{\"srv\":{\"priority\":"@, 2);
    assert(enc[2] == l0[2]);
    lemma_p_lit_refute(a, enc, b, "{\"soa\":{\"mname\":"@, 2);
    assert(enc[2] == l0[2]);
    lemma_p_lit_refute(a, enc, b, "{\"caa\":{\"flags\":"@, 2);
    assert(enc[2] == l0[2]);
    lemma_p_lit_refute(a, enc, b, "{\"cert\":{\"cert_type\":"@, 2);
    assert(enc[2] == l0[2]);
    lemma_p_lit_refute(a, enc, b, "{\"dnskey\":{\"flags\":"@, 2);
    assert(enc[2] == l0[2]);
    lemma_p_lit_refute(a, enc, b, "{\"ds\":{\"key_tag\":"@, 2);
    assert(enc[2] == l0[2]);
    lemma_p_lit_refute(a, enc, b, "{\"hinfo\":{\"cpu\":"@, 2);
    assert(enc[2] == l0[2]);
    lemma_p_lit_refute(a, enc, b, "{\"https\":{\"priority\":"@, 2);
    let r0 = tail + b;
    assert(s =~= a + l0 + r0);
    lemma_p_lit_at(a, l0, r0);
    let a0 = a + l0;
    assert(s =~= a0 + tail + b);
    lemma_tail_key(a0, flags, protocol, algorithm, public_key, b);
}

#[verifier::rlimit(100)]
#[verifier::spinoff_prover]
proof fn lemma_tail_loc(a0: Seq<char>, version: u8, size: u8, horiz_pre: u8, vert_pre: u8, latitude: u32, longitude: u32, altitude: u32, b: Seq<char>)
    ensures
        pv_loc(a0 + (dec_chars(version as nat) + ",\"size\":"@ + dec_chars(size as nat) + ",\"horiz_pre\":"@ + dec_chars(horiz_pre as nat) + ",\"vert_pre\":"@ + dec_chars(vert_pre as nat) + ",\"latitude\":"@ + dec_chars(latitude as nat) + ",\"longitude\":"@ + dec_chars(longitude as nat) + ",\"altitude\":"@ + dec_chars(altitude as nat) + "}}"@) + b, a0.len() as int) == Some(
            (ValueData::Loc(version, size, horiz_pre, vert_pre, latitude, longitude, altitude), a0.len() + (dec_chars(version as nat) + ",\"size\":"@ + dec_chars(size as nat) + ",\"horiz_pre\":"@ + dec_chars(horiz_pre as nat) + ",\"vert_pre\":"@ + dec_chars(vert_pre as nat) + ",\"latitude\":"@ + dec_chars(latitude as nat) + ",\"longitude\":"@ + dec_chars(longitude as nat) + ",\"altitude\":"@ + dec_chars(altitude as nat) + "}}"@).len() as int),
        ),
{
    let p0 = dec_chars(version as nat);
    let p1 = ",\"size\":"@;
    let p2 = dec_chars(size as nat);
    let p3 = ",\"horiz_pre\":"@;
    let rest = dec_chars(horiz_pre as nat) + ",\"vert_pre\":"@ + dec_chars(vert_pre as nat)
        + ",\"latitude\":"@ + dec_chars(latitude as nat) + ",\"longitude\":"@ + dec_chars(
        longitude as nat,
    ) + ",\"altitude\":"@ + dec_chars(altitude as nat) + "}}"@;
    let s = a0 + (p0 + p1 + p2 + p3 + rest) + b;
    let r3 = rest + b;
    let r2 = p3 + r3;
    let r1 = p2 + r2;
    let r0 = p1 + r1;
    assert(s =~= (a0 + p0) + r0);
    assert(r0.len() >= 1 && !is_digit_char(r0[0])) by {
        reveal_strlit(",\"size\":");
        assert(r0[0] == p1[0]);
    }
    lemma_p_u64_at(a0, version as u64, r0);
    assert(dec_chars((version as u64) as nat) == dec_chars(version as nat));
    let a1 = a0 + p0;
    lemma_assoc3(a1, p1, r1);
    lemma_p_lit_at(a1, p1, r1);
    let a2 = a1 + p1;
    lemma_assoc3(a2, p2, r2);
    assert(r2.len() >= 1 && !is_digit_char(r2[0])) by {
        reveal_strlit(",\"horiz_pre\":");
        assert(r2[0] == p3[0]);
    }
    lemma_p_u64_at(a2, size as u64, r2);
    assert(dec_chars((size as u64) as nat) == dec_chars(size as nat));
    let a3 = a2 + p2;
    lemma_assoc3(a3, p3, r3);
    lemma_p_lit_at(a3, p3, r3);
    let a4 = a3 + p3;
    assert(s =~= a4 + rest + b);
    lemma_tail_loc_rest(a4, version, size, horiz_pre, vert_pre, latitude, longitude, altitude, b);
    assert(p_u64(s, a0.len() as int) == Some((version as u64, a1.len() as int)));
    assert(p_lit(s, a1.len() as int, p1) == Some(a2.len() as int));
    assert(p_u64(s, a2.len() as int) == Some((size as u64, a3.len() as int)));
    assert(p_lit(s, a3.len() as int, p3) == Some(a4.len() as int));
    assert(pv_loc_rest(s, a4.len() as int, version, size) == Some((
        ValueData::Loc(version, size, horiz_pre, vert_pre, latitude, longitude, altitude),
        a4.len() + rest.len() as int,
    )));
    assert(pv_loc(s, a0.len() as int) == Some((
        ValueData::Loc(version, size, horiz_pre, vert_pre, latitude, longitude, altitude),
        a4.len() + rest.len() as int,
    )));
    assert(p0 + p1 + p2 + p3 + rest =~= dec_chars(version as nat) + ",\"size\":"@ + dec_chars(size as nat) + ",\"horiz_pre\":"@ + dec_chars(horiz_pre as nat) + ",\"vert_pre\":"@ + dec_chars(vert_pre as nat) + ",\"latitude\":"@ + dec_chars(latitude as nat) + ",\"longitude\":"@ + dec_chars(longitude as nat) + ",\"altitude\":"@ + dec_chars(altitude as nat) + "}}"@);
    assert(s == a0 + (dec_chars(version as nat) + ",\"size\":"@ + dec_chars(size as nat) + ",\"horiz_pre\":"@ + dec_chars(horiz_pre as nat) + ",\"vert_pre\":"@ + dec_chars(vert_pre as nat) + ",\"latitude\":"@ + dec_chars(latitude as nat) + ",\"longitude\":"@ + dec_chars(longitude as nat) + ",\"altitude\":"@ + dec_chars(altitude as nat) + "}}"@) + b) by {
        assert(s =~= a0 + (dec_chars(version as nat) + ",\"size\":"@ + dec_chars(size as nat) + ",\"horiz_pre\":"@ + dec_chars(horiz_pre as nat) + ",\"vert_pre\":"@ + dec_chars(vert_pre as nat) + ",\"latitude\":"@ + dec_chars(latitude as nat) + ",\"longitude\":"@ + dec_chars(longitude as nat) + ",\"altitude\":"@ + dec_chars(altitude as nat) + "}}"@) + b);
    }
}

#[verifier::rlimit(100)]
#[verifier::spinoff_prover]
proof fn lemma_tail_loc_rest(a4: Seq<char>, version: u8, size: u8, horiz_pre: u8, vert_pre: u8, latitude: u32, longitude: u32, altitude: u32, b: Seq<char>)
    ensures
        pv_loc_rest(a4 + (dec_chars(horiz_pre as nat) + ",\"vert_pre\":"@ + dec_chars(vert_pre as nat) + ",\"latitude\":"@ + dec_chars(latitude as nat) + ",\"longitude\":"@ + dec_chars(longitude as nat) + ",\"altitude\":"@ + dec_chars(altitude as nat) + "}}"@) + b, a4.len() as int, version, size) == Some(
            (ValueData::Loc(version, size, horiz_pre, vert_pre, latitude, longitude, altitude), a4.len() + (dec_chars(horiz_pre as nat) + ",\"vert_pre\":"@ + dec_chars(vert_pre as nat) + ",\"latitude\":"@ + dec_chars(latitude as nat) + ",\"longitude\":"@ + dec_chars(longitude as nat) + ",\"altitude\":"@ + dec_chars(altitude as nat) + "}}"@).len() as int),
        ),
{
    let p0 = dec_chars(horiz_pre as nat);
    let p1 = ",\"vert_pre\":"@;
    let p2 = dec_chars(vert_pre as nat);
    let p3 = ",\"latitude\":"@;
    let p4 = dec_chars(latitude as nat);
    let p5 = ",\"longitude\":"@;
    let p6 = dec_chars(longitude as nat);
    let p7 = ",\"altitude\":"@;
    let p8 = dec_chars(altitude as nat);
    let p9 = "}}"@;
    let s = a4 + (p0 + p1 + p2 + p3 + p4 + p5 + p6 + p7 + p8 + p9) + b;
    let r9 = b;
    let r8 = p9 + r9;
    let r7 = p8 + r8;
    let r6 = p7 + r7;
    let r5 = p6 + r6;
    let r4 = p5 + r5;
    let r3 = p4 + r4;
    let r2 = p3 + r3;
    let r1 = p2 + r2;
    let r0 = p1 + r1;
    assert(s =~= (a4 + p0) + r0);
    assert(r0.len() >= 1 && !is_digit_char(r0[0])) by {
        reveal_strlit(",\"vert_pre\":");
        assert(r0[0] == p1[0]);
    }
    lemma_p_u64_at(a4, horiz_pre as u64, r0);
    assert(dec_chars((horiz_pre as u64) as nat) == dec_chars(horiz_pre as nat));
    let a5 = a4 + p0;
    lemma_assoc3(a5, p1, r1);
    lemma_p_lit_at(a5, p1, r1);
    let a6 = a5 + p1;
    lemma_assoc3(a6, p2, r2);
    assert(r2.len() >= 1 && !is_digit_char(r2[0])) by {
        reveal_strlit(",\"latitude\":");
        assert(r2[0] == p3[0]);
    }
    lemma_p_u64_at(a6, vert_pre as u64, r2);
    assert(dec_chars((vert_pre as u64) as nat) == dec_chars(vert_pre as nat));
    let a7 = a6 + p2;
    lemma_assoc3(a7, p3, r3);
    lemma_p_lit_at(a7, p3, r3);
    let a8 = a7 + p3;
    lemma_assoc3(a8, p4, r4);
    assert(r4.len() >= 1 && !is_digit_char(r4[0])) by {
        reveal_strlit(",\"longitude\":");
        assert(r4[0] == p5[0]);
    }
    lemma_p_u64_at(a8, latitude as u64, r4);
    assert(dec_chars((latitude as u64) as nat) == dec_chars(latitude as nat));
    let a9 = a8 + p4;
    lemma_assoc3(a9, p5, r5);
    lemma_p_lit_at(a9, p5, r5);
    let a10 = a9 + p5;
    lemma_assoc3(a10, p6, r6);
    assert(r6.len() >= 1 && !is_digit_char(r6[0])) by {
        reveal_strlit(",\"altitude\":");
        assert(r6[0] == p7[0]);
    }
    lemma_p_u64_at(a10, longitude as u64, r6);
    assert(dec_chars((longitude as u64) as nat) == dec_chars(longitude as nat));
    let a11 = a10 + p6;
    lemma_assoc3(a11, p7, r7);
    lemma_p_lit_at(a11, p7, r7);
    let a12 = a11 + p7;
    lemma_assoc3(a12, p8, r8);
    assert(r8.len() >= 1 && !is_digit_char(r8[0])) by {
        reveal_strlit("}}");
        assert(r8[0] == p9[0]);
    }
    lemma_p_u64_at(a12, altitude as u64, r8);
    assert(dec_chars((altitude as u64) as nat) == dec_chars(altitude as nat));
    let a13 = a12 + p8;
    lemma_assoc3(a13, p9, r9);
    lemma_p_lit_at(a13, p9, r9);
}
#[verifier::rlimit(100)]
#[verifier::spinoff_prover]
proof fn lemma_pv_loc(a: Seq<char>, version: u8, size: u8, horiz_pre: u8, vert_pre: u8, latitude: u32, longitude: u32, altitude: u32, b: Seq<char>)
    ensures
        spec_parse_value(a + enc_value(ValueData::Loc(version, size, horiz_pre, vert_pre, latitude, longitude, altitude)) + b, a.len() as int) == Some(
            (ValueData::Loc(version, size, horiz_pre, vert_pre, latitude, longitude, altitude), a.len() + enc_value(ValueData::Loc(version, size, horiz_pre, vert_pre, latitude, longitude, altitude)).len() as int),
        ),
{
    let enc = enc_value(ValueData::Loc(version, size, horiz_pre, vert_pre, latitude, longitude, altitude));
    let s = a + enc + b;
    let l0 = "{\"loc\":{\"version\":"@;
    let tail = dec_chars(version as nat) + ",\"size\":"@ + dec_chars(size as nat) + ",\"horiz_pre\":"@ + dec_chars(horiz_pre as nat) + ",\"vert_pre\":"@ + dec_chars(vert_pre as nat) + ",\"latitude\":"@ + dec_chars(latitude as nat) + ",\"longitude\":"@ + dec_chars(longitude as nat) + ",\"altitude\":"@ + dec_chars(altitude as nat) + "}}"@;
    assert(enc =~= l0 + tail);
    reveal_strlit("{\"caa\":{\"flags\":");
    reveal_strlit("{\"cert\":{\"cert_type\":");
    reveal_strlit("{\"dnskey\":{\"flags\":");
    reveal_strlit("{\"domain\":");
    reveal_strlit("{\"ds\":{\"key_tag\":");
    reveal_strlit("{\"hinfo\":{\"cpu\":");
    reveal_strlit("{\"https\":{\"priority\":");
    reveal_strlit("{\"ip\":");
    reveal_strlit("{\"key\":{\"flags\":");
    reveal_strlit("{\"mx\":{\"priority\":");
    reveal_strlit("{\"soa\":{\"mname\":");
    reveal_strlit("{\"srv\":{\"priority\":");
    reveal_strlit("{\"text\":");
    reveal_strlit("{\"loc\":{\"version\":");
    assert(enc[2] == l0[2]);
    lemma_p_lit_refute(a, enc, b, "{\"ip\":"@, 2);
    assert(enc[2] == l0[2]);
    lemma_p_lit_refute(a, enc, b, "{\"domain\":"@, 2);
    assert(enc[2] == l0[2]);
    lemma_p_lit_refute(a, enc, b, "{\"text\":"@, 2);
    assert(enc[2] == l0[2]);
    lemma_p_lit_refute(a, enc, b, "{\"mx\":{\"priority\":"@, 2);
    assert(enc[2] == l0[2]);
    lemma_p_lit_refute(a, enc, b, "{\"srv\":{\"priority\":"@, 2);
    assert(enc[2] == l0[2]);
    lemma_p_lit_refute(a, enc, b, "{\"soa\":{\"mname\":"@, 2);
    assert(enc[2] == l0[2]);
    lemma_p_lit_refute(a, enc, b, "{\"caa\":{\"flags\":"@, 2);
    assert(enc[2] == l0[2]);
    lemma_p_lit_refute(a, enc, b, "{\"cert\":{\"cert_type\":"@, 2);
    assert(enc[2] == l0[2]);
    lemma_p_lit_refute(a, enc, b, "{\"dnskey\":{\"flags\":"@, 2);
    assert(enc[2] == l0[2]);
    lemma_p_lit_refute(a, enc, b, "{\"ds\":{\"key_tag\":"@, 2);
    assert(enc[2] == l0[2]);
    lemma_p_lit_refute(a, enc, b, "{\"hinfo\":{\"cpu\":"@, 2);
    assert(enc[2] == l0[2]);
    lemma_p_lit_refute(a, enc, b, "{\"https\":{\"priority\":"@, 2);
    assert(enc[2] == l0[2]);
    lemma_p_lit_refute(a, enc, b, "{\"key\":{\"flags\":"@, 2);
    let r0 = tail + b;
    assert(s =~= a + l0 + r0);
    lemma_p_lit_at(a, l0, r0);
    let a0 = a + l0;
    assert(s =~= a0 + tail + b);
    lemma_tail_loc(a0, version, size, horiz_pre, vert_pre, latitude, longitude, altitude, b);
}

#[verifier::rlimit(100)]
#[verifier::spinoff_prover]
proof fn lemma_tail_naptr(a0: Seq<char>, order: u16, preference: u16, flags: Seq<char>, services: Seq<char>, regexp: Seq<char>, replacement: Seq<char>, b: Seq<char>)
    ensures
        pv_naptr(a0 + (dec_chars(order as nat) + ",\"preference\":"@ + dec_chars(preference as nat) + ",\"flags\":"@ + enc_str(flags) + ",\"services\":"@ + enc_str(services) + ",\"regexp\":"@ + enc_str(regexp) + ",\"replacement\":"@ + enc_str(replacement) + "}}"@) + b, a0.len() as int) == Some(
            (ValueData::Naptr(order, preference, flags, services, regexp, replacement), a0.len() + (dec_chars(order as nat) + ",\"preference\":"@ + dec_chars(preference as nat) + ",\"flags\":"@ + enc_str(flags) + ",\"services\":"@ + enc_str(services) + ",\"regexp\":"@ + enc_str(regexp) + ",\"replacement\":"@ + enc_str(replacement) + "}}"@).len() as int),
        ),
{
    let s = a0 + (dec_chars(order as nat) + ",\"preference\":"@ + dec_chars(preference as nat) + ",\"flags\":"@ + enc_str(flags) + ",\"services\":"@ + enc_str(services) + ",\"regexp\":"@ + enc_str(regexp) + ",\"replacement\":"@ + enc_str(replacement) + "}}"@) + b;
    let p0 = dec_chars(order as nat);
    let p1 = ",\"preference\":"@;
    let p2 = dec_chars(preference as nat);
    let p3 = ",\"flags\":"@;
    let p4 = enc_str(flags);
    let p5 = ",\"services\":"@;
    let p6 = enc_str(services);
    let p7 = ",\"regexp\":"@;
    let p8 = enc_str(regexp);
    let p9 = ",\"replacement\":"@;
    let p10 = enc_str(replacement);
    let p11 = "}}"@;
    let r11 = b;
    let r10 = p11 + r11;
    let r9 = p10 + r10;
    let r8 = p9 + r9;
    let r7 = p8 + r8;
    let r6 = p7 + r7;
    let r5 = p6 + r6;
    let r4 = p5 + r5;
    let r3 = p4 + r4;
    let r2 = p3 + r3;
    let r1 = p2 + r2;
    let r0 = p1 + r1;
    assert(s =~= (a0 + p0) + r0);
    assert(r0.len() >= 1 && !is_digit_char(r0[0])) by {
        reveal_strlit(",\"preference\":");
        assert(r0[0] == ",\"preference\":"@[0]);
    }
    lemma_p_u64_at(a0, order as u64, r0);
    assert(dec_chars((order as u64) as nat) == dec_chars(order as nat));
    let a1 = a0 + p0;
    lemma_assoc3(a1, p1, r1);
    lemma_p_lit_at(a1, p1, r1);
    let a2 = a1 + p1;
    lemma_assoc3(a2, p2, r2);
    assert(r2.len() >= 1 && !is_digit_char(r2[0])) by {
        reveal_strlit(",\"flags\":");
        assert(r2[0] == ",\"flags\":"@[0]);
    }
    lemma_p_u64_at(a2, preference as u64, r2);
    assert(dec_chars((preference as u64) as nat) == dec_chars(preference as nat));
    let a3 = a2 + p2;
    lemma_assoc3(a3, p3, r3);
    lemma_p_lit_at(a3, p3, r3);
    let a4 = a3 + p3;
    lemma_assoc3(a4, p4, r4);
    lemma_p_string_at(a4, flags, r4);
    let a5 = a4 + p4;
    lemma_assoc3(a5, p5, r5);
    lemma_p_lit_at(a5, p5, r5);
    let a6 = a5 + p5;
    lemma_assoc3(a6, p6, r6);
    lemma_p_string_at(a6, services, r6);
    let a7 = a6 + p6;
    lemma_assoc3(a7, p7, r7);
    lemma_p_lit_at(a7, p7, r7);
    let a8 = a7 + p7;
    lemma_assoc3(a8, p8, r8);
    lemma_p_string_at(a8, regexp, r8);
    let a9 = a8 + p8;
    lemma_assoc3(a9, p9, r9);
    lemma_p_lit_at(a9, p9, r9);
    let a10 = a9 + p9;
    lemma_assoc3(a10, p10, r10);
    lemma_p_string_at(a10, replacement, r10);
    let a11 = a10 + p10;
    lemma_assoc3(a11, p11, r11);
    lemma_p_lit_at(a11, p11, r11);
}
#[verifier::rlimit(100)]
#[verifier::spinoff_prover]
proof fn lemma_pv_naptr(a: Seq<char>, order: u16, preference: u16, flags: Seq<char>, services: Seq<char>, regexp: Seq<char>, replacement: Seq<char>, b: Seq<char>)
    ensures
        spec_parse_value(a + enc_value(ValueData::Naptr(order, preference, flags, services, regexp, replacement)) + b, a.len() as int) == Some(
            (ValueData::Naptr(order, preference, flags, services, regexp, replacement), a.len() + enc_value(ValueData::Naptr(order, preference, flags, services, regexp, replacement)).len() as int),
        ),
{
    let enc = enc_value(ValueData::Naptr(order, preference, flags, services, regexp, replacement));
    let s = a + enc + b;
    let l0 = "{\"naptr\":{\"order\":"@;
    let tail = dec_chars(order as nat) + ",\"preference\":"@ + dec_chars(preference as nat) + ",\"flags\":"@ + enc_str(flags) + ",\"services\":"@ + enc_str(services) + ",\"regexp\":"@ + enc_str(regexp) + ",\"replacement\":"@ + enc_str(replacement) + "}}"@;
    assert(enc =~= l0 + tail);
    reveal_strlit("{\"caa\":{\"flags\":");
    reveal_strlit("{\"cert\":{\"cert_type\":");
    reveal_strlit("{\"dnskey\":{\"flags\":");
    reveal_strlit("{\"domain\":");
    reveal_strlit("{\"ds\":{\"key_tag\":");
    reveal_strlit("{\"hinfo\":{\"cpu\":");
    reveal_strlit("{\"https\":{\"priority\":");
    reveal_strlit("{\"ip\":");
    reveal_strlit("{\"key\":{\"flags\":");
    reveal_strlit("{\"loc\":{\"version\":");
    reveal_strlit("{\"mx\":{\"priority\":");
    reveal_strlit("{\"soa\":{\"mname\":");
    reveal_strlit("{\"srv\":{\"priority\":");
    reveal_strlit("{\"text\":");
    reveal_strlit("{\"naptr\":{\"order\":");
    assert(enc[2] == l0[2]);
    lemma_p_lit_refute(a, enc, b, "{\"ip\":"@, 2);
    assert(enc[2] == l0[2]);
    lemma_p_lit_refute(a, enc, b, "{\"domain\":"@, 2);
    assert(enc[2] == l0[2]);
    lemma_p_lit_refute(a, enc, b, "{\"text\":"@, 2);
    assert(enc[2] == l0[2]);
    lemma_p_lit_refute(a, enc, b, "{\"mx\":{\"priority\":"@, 2);
    assert(enc[2] == l0[2]);
    lemma_p_lit_refute(a, enc, b, "{\"srv\":{\"priority\":"@, 2);
    assert(enc[2] == l0[2]);
    lemma_p_lit_refute(a, enc, b, "{\"soa\":{\"mname\":"@, 2);
    assert(enc[2] == l0[2]);
    lemma_p_lit_refute(a, enc, b, "{\"caa\":{\"flags\":"@, 2);
    assert(enc[2] == l0[2]);
    lemma_p_lit_refute(a, enc, b, "{\"cert\":{\"cert_type\":"@, 2);
    assert(enc[2] == l0[2]);
    lemma_p_lit_refute(a, enc, b, "{\"dnskey\":{\"flags\":"@, 2);
    assert(enc[2] == l0[2]);
    lemma_p_lit_refute(a, enc, b, "{\"ds\":{\"key_tag\":"@, 2);
    assert(enc[2] == l0[2]);
    lemma_p_lit_refute(a, enc, b, "{\"hinfo\":{\"cpu\":"@, 2);
    assert(enc[2] == l0[2]);
    lemma_p_lit_refute(a, enc, b, "{\"https\":{\"priority\":"@, 2);
    assert(enc[2] == l0[2]);
    lemma_p_lit_refute(a, enc, b, "{\"key\":{\"flags\":"@, 2);
    assert(enc[2] == l0[2]);
    lemma_p_lit_refute(a, enc, b, "{\"loc\":{\"version\":"@, 2);
    let r0 = tail + b;
    assert(s =~= a + l0 + r0);
    lemma_p_lit_at(a, l0, r0);
    let a0 = a + l0;
    assert(s =~= a0 + tail + b);
    lemma_tail_naptr(a0, order, preference, flags, services, regexp, replacement, b);
}

#[verifier::rlimit(100)]
#[verifier::spinoff_prover]
proof fn lemma_tail_sshfp(a0: Seq<char>, algorithm: u8, fingerprint_type: u8, fingerprint: Seq<u8>, b: Seq<char>)
    ensures
        pv_sshfp(a0 + (dec_chars(algorithm as nat) + ",\"fingerprint_type\":"@ + dec_chars(fingerprint_type as nat) + ",\"fingerprint\":"@ + enc_bytes(fingerprint) + "}}"@) + b, a0.len() as int) == Some(
            (ValueData::Sshfp(algorithm, fingerprint_type, fingerprint), a0.len() + (dec_chars(algorithm as nat) + ",\"fingerprint_type\":"@ + dec_chars(fingerprint_type as nat) + ",\"fingerprint\":"@ + enc_bytes(fingerprint) + "}}"@).len() as int),
        ),
{
    let s = a0 + (dec_chars(algorithm as nat) + ",\"fingerprint_type\":"@ + dec_chars(fingerprint_type as nat) + ",\"fingerprint\":"@ + enc_bytes(fingerprint) + "}}"@) + b;
    let p0 = dec_chars(algorithm as nat);
    let p1 = ",\"fingerprint_type\":"@;
    let p2 = dec_chars(fingerprint_type as nat);
    let p3 = ",\"fingerprint\":"@;
    let p4 = enc_bytes(fingerprint);
    let p5 = "}}"@;
    let r5 = b;
    let r4 = p5 + r5;
    let r3 = p4 + r4;
    let r2 = p3 + r3;
    let r1 = p2 + r2;
    let r0 = p1 + r1;
    assert(s =~= (a0 + p0) + r0);
    assert(r0.len() >= 1 && !is_digit_char(r0[0])) by {
        reveal_strlit(",\"fingerprint_type\":");
        assert(r0[0] == ",\"fingerprint_type\":"@[0]);
    }
    lemma_p_u64_at(a0, algorithm as u64, r0);
    assert(dec_chars((algorithm as u64) as nat) == dec_chars(algorithm as nat));
    let a1 = a0 + p0;
    lemma_assoc3(a1, p1, r1);
    lemma_p_lit_at(a1, p1, r1);
    let a2 = a1 + p1;
    lemma_assoc3(a2, p2, r2);
    assert(r2.len() >= 1 && !is_digit_char(r2[0])) by {
        reveal_strlit(",\"fingerprint\":");
        assert(r2[0] == ",\"fingerprint\":"@[0]);
    }
    lemma_p_u64_at(a2, fingerprint_type as u64, r2);
    assert(dec_chars((fingerprint_type as u64) as nat) == dec_chars(fingerprint_type as nat));
    let a3 = a2 + p2;
    lemma_assoc3(a3, p3, r3);
    lemma_p_lit_at(a3, p3, r3);
    let a4 = a3 + p3;
    lemma_assoc3(a4, p4, r4);
    lemma_p_bytes_at(a4, fingerprint, r4);
    let a5 = a4 + p4;
    lemma_assoc3(a5, p5, r5);
    lemma_p_lit_at(a5, p5, r5);
}
#[verifier::rlimit(100)]
#[verifier::spinoff_prover]
proof fn lemma_pv_sshfp(a: Seq<char>, algorithm: u8, fingerprint_type: u8, fingerprint: Seq<u8>, b: Seq<char>)
    ensures
        spec_parse_value(a + enc_value(ValueData::Sshfp(algorithm, fingerprint_type, fingerprint)) + b, a.len() as int) == Some(
            (ValueData::Sshfp(algorithm, fingerprint_type, fingerprint), a.len() + enc_value(ValueData::Sshfp(algorithm, fingerprint_type, fingerprint)).len() as int),
        ),
{
    let enc = enc_value(ValueData::Sshfp(algorithm, fingerprint_type, fingerprint));
    let s = a + enc + b;
    let l0 = "{\"sshfp\":{\"algorithm\":"@;
    let tail = dec_chars(algorithm as nat) + ",\"fingerprint_type\":"@ + dec_chars(fingerprint_type as nat) + ",\"fingerprint\":"@ + enc_bytes(fingerprint) + "}}"@;
    assert(enc =~= l0 + tail);
    reveal_strlit("{\"caa\":{\"flags\":");
    reveal_strlit("{\"cert\":{\"cert_type\":");
    reveal_strlit("{\"dnskey\":{\"flags\":");
    reveal_strlit("{\"domain\":");
    reveal_strlit("{\"ds\":{\"key_tag\":");
    reveal_strlit("{\"hinfo\":{\"cpu\":");
    reveal_strlit("{\"https\":{\"priority\":");
    reveal_strlit("{\"ip\":");
    reveal_strlit("{\"key\":{\"flags\":");
    reveal_strlit("{\"loc\":{\"version\":");
    reveal_strlit("{\"mx\":{\"priority\":");
    reveal_strlit("{\"naptr\":{\"order\":");
    reveal_strlit("{\"soa\":{\"mname\":");
    reveal_strlit("{\"srv\":{\"priority\":");
    reveal_strlit("{\"text\":");
    reveal_strlit("{\"sshfp\":{\"algorithm\":");
    assert(enc[2] == l0[2]);
    lemma_p_lit_refute(a, enc, b, "{\"ip\":"@, 2);
    assert(enc[2] == l0[2]);
    lemma_p_lit_refute(a, enc, b, "{\"domain\":"@, 2);
    assert(enc[2] == l0[2]);
    lemma_p_lit_refute(a, enc, b, "{\"text\":"@, 2);
    assert(enc[2] == l0[2]);
    lemma_p_lit_refute(a, enc, b, "{\"mx\":{\"priority\":"@, 2);
    assert(enc[3] == l0[3]);
    lemma_p_lit_refute(a, enc, b, "{\"srv\":{\"priority\":"@, 3);
    assert(enc[3] == l0[3]);
    lemma_p_lit_refute(a, enc, b, "{\"soa\":{\"mname\":"@, 3);
    assert(enc[2] == l0[2]);
    lemma_p_lit_refute(a, enc, b, "{\"caa\":{\"flags\":"@, 2);
    assert(enc[2] == l0[2]);
    lemma_p_lit_refute(a, enc, b, "{\"cert\":{\"cert_type\":"@, 2);
    assert(enc[2] == l0[2]);
    lemma_p_lit_refute(a, enc, b, "{\"dnskey\":{\"flags\":"@, 2);
    assert(enc[2] == l0[2]);
    lemma_p_lit_refute(a, enc, b, "{\"ds\":{\"key_tag\":"@, 2);
    assert(enc[2] == l0[2]);
    lemma_p_lit_refute(a, enc, b, "{\"hinfo\":{\"cpu\":"@, 2);
    assert(enc[2] == l0[2]);
    lemma_p_lit_refute(a, enc, b, "{\"https\":{\"priority\":"@, 2);
    assert(enc[2] == l0[2]);
    lemma_p_lit_refute(a, enc, b, "{\"key\":{\"flags\":"@, 2);
    assert(enc[2] == l0[2]);
    lemma_p_lit_refute(a, enc, b, "{\"loc\":{\"version\":"@, 2);
    assert(enc[2] == l0[2]);
    lemma_p_lit_refute(a, enc, b, "{\"naptr\":{\"order\":"@, 2);
    let r0 = tail + b;
    assert(s =~= a + l0 + r0);
    lemma_p_lit_at(a, l0, r0);
    let a0 = a + l0;
    assert(s =~= a0 + tail + b);
    lemma_tail_sshfp(a0, algorithm, fingerprint_type, fingerprint, b);
}

#[verifier::rlimit(100)]
#[verifier::spinoff_prover]
proof fn lemma_tail_svcb(a0: Seq<char>, priority: u16, target: Seq<char>, params: Seq<Seq<char>>, b: Seq<char>)
    ensures
        pv_svcb(a0 + (dec_chars(priority as nat) + ",\"target\":"@ + enc_str(target) + ",\"params\":"@ + enc_strarray(params) + "}}"@) + b, a0.len() as int) == Some(
            (ValueData::Svcb(priority, target, params), a0.len() + (dec_chars(priority as nat) + ",\"target\":"@ + enc_str(target) + ",\"params\":"@ + enc_strarray(params) + "}}"@).len() as int),
        ),
{
    let s = a0 + (dec_chars(priority as nat) + ",\"target\":"@ + enc_str(target) + ",\"params\":"@ + enc_strarray(params) + "}}"@) + b;
    let p0 = dec_chars(priority as nat);
    let p1 = ",\"target\":"@;
    let p2 = enc_str(target);
    let p3 = ",\"params\":"@;
    let p4 = enc_strarray(params);
    let p5 = "}}"@;
    let r5 = b;
    let r4 = p5 + r5;
    let r3 = p4 + r4;
    let r2 = p3 + r3;
    let r1 = p2 + r2;
    let r0 = p1 + r1;
    assert(s =~= (a0 + p0) + r0);
    assert(r0.len() >= 1 && !is_digit_char(r0[0])) by {
        reveal_strlit(",\"target\":");
        assert(r0[0] == ",\"target\":"@[0]);
    }
    lemma_p_u64_at(a0, priority as u64, r0);
    assert(dec_chars((priority as u64) as nat) == dec_chars(priority as nat));
    let a1 = a0 + p0;
    lemma_assoc3(a1, p1, r1);
    lemma_p_lit_at(a1, p1, r1);
    let a2 = a1 + p1;
    lemma_assoc3(a2, p2, r2);
    lemma_p_string_at(a2, target, r2);
    let a3 = a2 + p2;
    lemma_assoc3(a3, p3, r3);
    lemma_p_lit_at(a3, p3, r3);
    let a4 = a3 + p3;
    lemma_assoc3(a4, p4, r4);
    assert(r4.len() >= 1 && r4[0] != ']') by {
        reveal_strlit("}}");
        assert(r4[0] == "}}"@[0]);
    }
    lemma_enc_strarray_len(params);
    if params.len() >= 1 {
        lemma_enc_items_len(params);
    }
    lemma_p_strarray_at(a4, params, r4);
    let a5 = a4 + p4;
    lemma_assoc3(a5, p5, r5);
    lemma_p_lit_at(a5, p5, r5);
}
#[verifier::rlimit(100)]
#[verifier::spinoff_prover]
proof fn lemma_pv_svcb(a: Seq<char>, priority: u16, target: Seq<char>, params: Seq<Seq<char>>, b: Seq<char>)
    ensures
        spec_parse_value(a + enc_value(ValueData::Svcb(priority, target, params)) + b, a.len() as int) == Some(
            (ValueData::Svcb(priority, target, params), a.len() + enc_value(ValueData::Svcb(priority, target, params)).len() as int),
        ),
{
    let enc = enc_value(ValueData::Svcb(priority, target, params));
    let s = a + enc + b;
    let l0 = "{\"svcb\":{\"priority\":"@;
    let tail = dec_chars(priority as nat) + ",\"target\":"@ + enc_str(target) + ",\"params\":"@ + enc_strarray(params) + "}}"@;
    assert(enc =~= l0 + tail);
    reveal_strlit("{\"caa\":{\"flags\":");
    reveal_strlit("{\"cert\":{\"cert_type\":");
    reveal_strlit("{\"dnskey\":{\"flags\":");
    reveal_strlit("{\"domain\":");
    reveal_strlit("{\"ds\":{\"key_tag\":");
    reveal_strlit("{\"hinfo\":{\"cpu\":");
    reveal_strlit("{\"https\":{\"priority\":");
    reveal_strlit("{\"ip\":");
    reveal_strlit("{\"key\":{\"flags\":");
    reveal_strlit("{\"loc\":{\"version\":");
    reveal_strlit("{\"mx\":{\"priority\":");
    reveal_strlit("{\"naptr\":{\"order\":");
    reveal_strlit("{\"soa\":{\"mname\":");
    reveal_strlit("{\"srv\":{\"priority\":");
    reveal_strlit("{\"sshfp\":{\"algorithm\":");
    reveal_strlit("{\"text\":");
    reveal_strlit("{\"svcb\":{\"priority\":");
    assert(enc[2] == l0[2]);
    lemma_p_lit_refute(a, enc, b, "{\"ip\":"@, 2);
    assert(enc[2] == l0[2]);
    lemma_p_lit_refute(a, enc, b, "{\"domain\":"@, 2);
    assert(enc[2] == l0[2]);
    lemma_p_lit_refute(a, enc, b, "{\"text\":"@, 2);
    assert(enc[2] == l0[2]);
    lemma_p_lit_refute(a, enc, b, "{\"mx\":{\"priority\":"@, 2);
    assert(enc[3] == l0[3]);
    lemma_p_lit_refute(a, enc, b, "{\"srv\":{\"priority\":"@, 3);
    assert(enc[3] == l0[3]);
    lemma_p_lit_refute(a, enc, b, "{\"soa\":{\"mname\":"@, 3);
    assert(enc[2] == l0[2]);
    lemma_p_lit_refute(a, enc, b, "{\"caa\":{\"flags\":"@, 2);
    assert(enc[2] == l0[2]);
    lemma_p_lit_refute(a, enc, b, "{\"cert\":{\"cert_type\":"@, 2);
    assert(enc[2] == l0[2]);
    lemma_p_lit_refute(a, enc, b, "{\"dnskey\":{\"flags\":"@, 2);
    assert(enc[2] == l0[2]);
    lemma_p_lit_refute(a, enc, b, "{\"ds\":{\"key_tag\":"@, 2);
    assert(enc[2] == l0[2]);
    lemma_p_lit_refute(a, enc, b, "{\"hinfo\":{\"cpu\":"@, 2);
    assert(enc[2] == l0[2]);
    lemma_p_lit_refute(a, enc, b, "{\"https\":{\"priority\":"@, 2);
    assert(enc[2] == l0[2]);
    lemma_p_lit_refute(a, enc, b, "{\"key\":{\"flags\":"@, 2);
    assert(enc[2] == l0[2]);
    lemma_p_lit_refute(a, enc, b, "{\"loc\":{\"version\":"@, 2);
    assert(enc[2] == l0[2]);
    lemma_p_lit_refute(a, enc, b, "{\"naptr\":{\"order\":"@, 2);
    assert(enc[3] == l0[3]);
    lemma_p_lit_refute(a, enc, b, "{\"sshfp\":{\"algorithm\":"@, 3);
    let r0 = tail + b;
    assert(s =~= a + l0 + r0);
    lemma_p_lit_at(a, l0, r0);
    let a0 = a + l0;
    assert(s =~= a0 + tail + b);
    lemma_tail_svcb(a0, priority, target, params, b);
}

#[verifier::rlimit(100)]
#[verifier::spinoff_prover]
proof fn lemma_tail_tlsa(a0: Seq<char>, cert_usage: u8, selector: u8, matching_type: u8, cert_data: Seq<u8>, b: Seq<char>)
    ensures
        pv_tlsa(a0 + (dec_chars(cert_usage as nat) + ",\"selector\":"@ + dec_chars(selector as nat) + ",\"matching_type\":"@ + dec_chars(matching_type as nat) + ",\"cert_data\":"@ + enc_bytes(cert_data) + "}}"@) + b, a0.len() as int) == Some(
            (ValueData::Tlsa(cert_usage, selector, matching_type, cert_data), a0.len() + (dec_chars(cert_usage as nat) + ",\"selector\":"@ + dec_chars(selector as nat) + ",\"matching_type\":"@ + dec_chars(matching_type as nat) + ",\"cert_data\":"@ + enc_bytes(cert_data) + "}}"@).len() as int),
        ),
{
    let s = a0 + (dec_chars(cert_usage as nat) + ",\"selector\":"@ + dec_chars(selector as nat) + ",\"matching_type\":"@ + dec_chars(matching_type as nat) + ",\"cert_data\":"@ + enc_bytes(cert_data) + "}}"@) + b;
    let p0 = dec_chars(cert_usage as nat);
    let p1 = ",\"selector\":"@;
    let p2 = dec_chars(selector as nat);
    let p3 = ",\"matching_type\":"@;
    let p4 = dec_chars(matching_type as nat);
    let p5 = ",\"cert_data\":"@;
    let p6 = enc_bytes(cert_data);
    let p7 = "}}"@;
    let r7 = b;
    let r6 = p7 + r7;
    let r5 = p6 + r6;
    let r4 = p5 + r5;
    let r3 = p4 + r4;
    let r2 = p3 + r3;
    let r1 = p2 + r2;
    let r0 = p1 + r1;
    assert(s =~= (a0 + p0) + r0);
    assert(r0.len() >= 1 && !is_digit_char(r0[0])) by {
        reveal_strlit(",\"selector\":");
        assert(r0[0] == ",\"selector\":"@[0]);
    }
    lemma_p_u64_at(a0, cert_usage as u64, r0);
    assert(dec_chars((cert_usage as u64) as nat) == dec_chars(cert_usage as nat));
    let a1 = a0 + p0;
    lemma_assoc3(a1, p1, r1);
    lemma_p_lit_at(a1, p1, r1);
    let a2 = a1 + p1;
    lemma_assoc3(a2, p2, r2);
    assert(r2.len() >= 1 && !is_digit_char(r2[0])) by {
        reveal_strlit(",\"matching_type\":");
        assert(r2[0] == ",\"matching_type\":"@[0]);
    }
    lemma_p_u64_at(a2, selector as u64, r2);
    assert(dec_chars((selector as u64) as nat) == dec_chars(selector as nat));
    let a3 = a2 + p2;
    lemma_assoc3(a3, p3, r3);
    lemma_p_lit_at(a3, p3, r3);
    let a4 = a3 + p3;
    lemma_assoc3(a4, p4, r4);
    assert(r4.len() >= 1 && !is_digit_char(r4[0])) by {
        reveal_strlit(",\"cert_data\":");
        assert(r4[0] == ",\"cert_data\":"@[0]);
    }
    lemma_p_u64_at(a4, matching_type as u64, r4);
    assert(dec_chars((matching_type as u64) as nat) == dec_chars(matching_type as nat));
    let a5 = a4 + p4;
    lemma_assoc3(a5, p5, r5);
    lemma_p_lit_at(a5, p5, r5);
    let a6 = a5 + p5;
    lemma_assoc3(a6, p6, r6);
    lemma_p_bytes_at(a6, cert_data, r6);
    let a7 = a6 + p6;
    lemma_assoc3(a7, p7, r7);
    lemma_p_lit_at(a7, p7, r7);
}
#[verifier::rlimit(100)]
#[verifier::spinoff_prover]
proof fn lemma_pv_tlsa(a: Seq<char>, cert_usage: u8, selector: u8, matching_type: u8, cert_data: Seq<u8>, b: Seq<char>)
    ensures
        spec_parse_value(a + enc_value(ValueData::Tlsa(cert_usage, selector, matching_type, cert_data)) + b, a.len() as int) == Some(
            (ValueData::Tlsa(cert_usage, selector, matching_type, cert_data), a.len() + enc_value(ValueData::Tlsa(cert_usage, selector, matching_type, cert_data)).len() as int),
        ),
{
    let enc = enc_value(ValueData::Tlsa(cert_usage, selector, matching_type, cert_data));
    let s = a + enc + b;
    let l0 = "{\"tlsa\":{\"cert_usage\":"@;
    let tail = dec_chars(cert_usage as nat) + ",\"selector\":"@ + dec_chars(selector as nat) + ",\"matching_type\":"@ + dec_chars(matching_type as nat) + ",\"cert_data\":"@ + enc_bytes(cert_data) + "}}"@;
    assert(enc =~= l0 + tail);
    reveal_strlit("{\"caa\":{\"flags\":");
    reveal_strlit("{\"cert\":{\"cert_type\":");
    reveal_strlit("{\"dnskey\":{\"flags\":");
    reveal_strlit("{\"domain\":");
    reveal_strlit("{\"ds\":{\"key_tag\":");
    reveal_strlit("{\"hinfo\":{\"cpu\":");
    reveal_strlit("{\"https\":{\"priority\":");
    reveal_strlit("{\"ip\":");
    reveal_strlit("{\"key\":{\"flags\":");
    reveal_strlit("{\"loc\":{\"version\":");
    reveal_strlit("{\"mx\":{\"priority\":");
    reveal_strlit("{\"naptr\":{\"order\":");
    reveal_strlit("{\"soa\":{\"mname\":");
    reveal_strlit("{\"srv\":{\"priority\":");
    reveal_strlit("{\"sshfp\":{\"algorithm\":");
    reveal_strlit("{\"svcb\":{\"priority\":");
    reveal_strlit("{\"text\":");
    reveal_strlit("{\"tlsa\":{\"cert_usage\":");
    assert(enc[2] == l0[2]);
    lemma_p_lit_refute(a, enc, b, "{\"ip\":"@, 2);
    assert(enc[2] == l0[2]);
    lemma_p_lit_refute(a, enc, b, "{\"domain\":"@, 2);
    assert(enc[3] == l0[3]);
    lemma_p_lit_refute(a, enc, b, "{\"text\":"@, 3);
    assert(enc[2] == l0[2]);
    lemma_p_lit_refute(a, enc, b, "{\"mx\":{\"priority\":"@, 2);
    assert(enc[2] == l0[2]);
    lemma_p_lit_refute(a, enc, b, "{\"srv\":{\"priority\":"@, 2);
    assert(enc[2] == l0[2]);
    lemma_p_lit_refute(a, enc, b, "{\"soa\":{\"mname\":"@, 2);
    assert(enc[2] == l0[2]);
    lemma_p_lit_refute(a, enc, b, "{\"caa\":{\"flags\":"@, 2);
    assert(enc[2] == l0[2]);
    lemma_p_lit_refute(a, enc, b, "{\"cert\":{\"cert_type\":"@, 2);
    assert(enc[2] == l0[2]);
    lemma_p_lit_refute(a, enc, b, "{\"dnskey\":{\"flags\":"@, 2);
    assert(enc[2] == l0[2]);
    lemma_p_lit_refute(a, enc, b, "{\"ds\":{\"key_tag\":"@, 2);
    assert(enc[2] == l0[2]);
    lemma_p_lit_refute(a, enc, b, "{\"hinfo\":{\"cpu\":"@, 2);
    assert(enc[2] == l0[2]);
    lemma_p_lit_refute(a, enc, b, "{\"https\":{\"priority\":"@, 2);
    assert(enc[2] == l0[2]);
    lemma_p_lit_refute(a, enc, b, "{\"key\":{\"flags\":"@, 2);
    assert(enc[2] == l0[2]);
    lemma_p_lit_refute(a, enc, b, "{\"loc\":{\"version\":"@, 2);
    assert(enc[2] == l0[2]);
    lemma_p_lit_refute(a, enc, b, "{\"naptr\":{\"order\":"@, 2);
    assert(enc[2] == l0[2]);
    lemma_p_lit_refute(a, enc, b, "{\"sshfp\":{\"algorithm\":"@, 2);
    assert(enc[2] == l0[2]);
    lemma_p_lit_refute(a, enc, b, "{\"svcb\":{\"priority\":"@, 2);
    let r0 = tail + b;
    assert(s =~= a + l0 + r0);
    lemma_p_lit_at(a, l0, r0);
    let a0 = a + l0;
    assert(s =~= a0 + tail + b);
    lemma_tail_tlsa(a0, cert_usage, selector, matching_type, cert_data, b);
}

#[verifier::rlimit(100)]
#[verifier::spinoff_prover]
proof fn lemma_tail_uri(a0: Seq<char>, priority: u16, weight: u16, target: Seq<char>, b: Seq<char>)
    ensures
        pv_uri(a0 + (dec_chars(priority as nat) + ",\"weight\":"@ + dec_chars(weight as nat) + ",\"target\":"@ + enc_str(target) + "}}"@) + b, a0.len() as int) == Some(
            (ValueData::Uri(priority, weight, target), a0.len() + (dec_chars(priority as nat) + ",\"weight\":"@ + dec_chars(weight as nat) + ",\"target\":"@ + enc_str(target) + "}}"@).len() as int),
        ),
{
    let s = a0 + (dec_chars(priority as nat) + ",\"weight\":"@ + dec_chars(weight as nat) + ",\"target\":"@ + enc_str(target) + "}}"@) + b;
    let p0 = dec_chars(priority as nat);
    let p1 = ",\"weight\":"@;
    let p2 = dec_chars(weight as nat);
    let p3 = ",\"target\":"@;
    let p4 = enc_str(target);
    let p5 = "}}"@;
    let r5 = b;
    let r4 = p5 + r5;
    let r3 = p4 + r4;
    let r2 = p3 + r3;
    let r1 = p2 + r2;
    let r0 = p1 + r1;
    assert(s =~= (a0 + p0) + r0);
    assert(r0.len() >= 1 && !is_digit_char(r0[0])) by {
        reveal_strlit(",\"weight\":");
        assert(r0[0] == ",\"weight\":"@[0]);
    }
    lemma_p_u64_at(a0, priority as u64, r0);
    assert(dec_chars((priority as u64) as nat) == dec_chars(priority as nat));
    let a1 = a0 + p0;
    lemma_assoc3(a1, p1, r1);
    lemma_p_lit_at(a1, p1, r1);
    let a2 = a1 + p1;
    lemma_assoc3(a2, p2, r2);
    assert(r2.len() >= 1 && !is_digit_char(r2[0])) by {
        reveal_strlit(",\"target\":");
        assert(r2[0] == ",\"target\":"@[0]);
    }
    lemma_p_u64_at(a2, weight as u64, r2);
    assert(dec_chars((weight as u64) as nat) == dec_chars(weight as nat));
    let a3 = a2 + p2;
    lemma_assoc3(a3, p3, r3);
    lemma_p_lit_at(a3, p3, r3);
    let a4 = a3 + p3;
    lemma_assoc3(a4, p4, r4);
    lemma_p_string_at(a4, target, r4);
    let a5 = a4 + p4;
    lemma_assoc3(a5, p5, r5);
    lemma_p_lit_at(a5, p5, r5);
}
#[verifier::rlimit(100)]
#[verifier::spinoff_prover]
proof fn lemma_pv_uri(a: Seq<char>, priority: u16, weight: u16, target: Seq<char>, b: Seq<char>)
    ensures
        spec_parse_value(a + enc_value(ValueData::Uri(priority, weight, target)) + b, a.len() as int) == Some(
            (ValueData::Uri(priority, weight, target), a.len() + enc_value(ValueData::Uri(priority, weight, target)).len() as int),
        ),
{
    let enc = enc_value(ValueData::Uri(priority, weight, target));
    let s = a + enc + b;
    let l0 = "{\"uri\":{\"priority\":"@;
    let tail = dec_chars(priority as nat) + ",\"weight\":"@ + dec_chars(weight as nat) + ",\"target\":"@ + enc_str(target) + "}}"@;
    assert(enc =~= l0 + tail);
    reveal_strlit("{\"caa\":{\"flags\":");
    reveal_strlit("{\"cert\":{\"cert_type\":");
    reveal_strlit("{\"dnskey\":{\"flags\":");
    reveal_strlit("{\"domain\":");
    reveal_strlit("{\"ds\":{\"key_tag\":");
    reveal_strlit("{\"hinfo\":{\"cpu\":");
    reveal_strlit("{\"https\":{\"priority\":");
    reveal_strlit("{\"ip\":");
    reveal_strlit("{\"key\":{\"flags\":");
    reveal_strlit("{\"loc\":{\"version\":");
    reveal_strlit("{\"mx\":{\"priority\":");
    reveal_strlit("{\"naptr\":{\"order\":");
    reveal_strlit("{\"soa\":{\"mname\":");
    reveal_strlit("{\"srv\":{\"priority\":");
    reveal_strlit("{\"sshfp\":{\"algorithm\":");
    reveal_strlit("{\"svcb\":{\"priority\":");
    reveal_strlit("{\"text\":");
    reveal_strlit("{\"tlsa\":{\"cert_usage\":");
    reveal_strlit("{\"uri\":{\"priority\":");
    assert(enc[2] == l0[2]);
    lemma_p_lit_refute(a, enc, b, "{\"ip\":"@, 2);
    assert(enc[2] == l0[2]);
    lemma_p_lit_refute(a, enc, b, "{\"domain\":"@, 2);
    assert(enc[2] == l0[2]);
    lemma_p_lit_refute(a, enc, b, "{\"text\":"@, 2);
    assert(enc[2] == l0[2]);
    lemma_p_lit_refute(a, enc, b, "{\"mx\":{\"priority\":"@, 2);
    assert(enc[2] == l0[2]);
    lemma_p_lit_refute(a, enc, b, "{\"srv\":{\"priority\":"@, 2);
    assert(enc[2] == l0[2]);
    lemma_p_lit_refute(a, enc, b, "{\"soa\":{\"mname\":"@, 2);
    assert(enc[2] == l0[2]);
    lemma_p_lit_refute(a, enc, b, "{\"caa\":{\"flags\":"@, 2);
    assert(enc[2] == l0[2]);
    lemma_p_lit_refute(a, enc, b, "{\"cert\":{\"cert_type\":"@, 2);
    assert(enc[2] == l0[2]);
    lemma_p_lit_refute(a, enc, b, "{\"dnskey\":{\"flags\":"@, 2);
    assert(enc[2] == l0[2]);
    lemma_p_lit_refute(a, enc, b, "{\"ds\":{\"key_tag\":"@, 2);
    assert(enc[2] == l0[2]);
    lemma_p_lit_refute(a, enc, b, "{\"hinfo\":{\"cpu\":"@, 2);
    assert(enc[2] == l0[2]);
    lemma_p_lit_refute(a, enc, b, "{\"https\":{\"priority\":"@, 2);
    assert(enc[2] == l0[2]);
    lemma_p_lit_refute(a, enc, b, "{\"key\":{\"flags\":"@, 2);
    assert(enc[2] == l0[2]);
    lemma_p_lit_refute(a, enc, b, "{\"loc\":{\"version\":"@, 2);
    assert(enc[2] == l0[2]);
    lemma_p_lit_refute(a, enc, b, "{\"naptr\":{\"order\":"@, 2);
    assert(enc[2] == l0[2]);
    lemma_p_lit_refute(a, enc, b, "{\"sshfp\":{\"algorithm\":"@, 2);
    assert(enc[2] == l0[2]);
    lemma_p_lit_refute(a, enc, b, "{\"svcb\":{\"priority\":"@, 2);
    assert(enc[2] == l0[2]);
    lemma_p_lit_refute(a, enc, b, "{\"tlsa\":{\"cert_usage\":"@, 2);
    let r0 = tail + b;
    assert(s =~= a + l0 + r0);
    lemma_p_lit_at(a, l0, r0);
    let a0 = a + l0;
    assert(s =~= a0 + tail + b);
    lemma_tail_uri(a0, priority, weight, target, b);
}

#[verifier::rlimit(100)]
#[verifier::spinoff_prover]
proof fn lemma_tail_other(a0: Seq<char>, content: Seq<char>, b: Seq<char>)
    ensures
        pv_other(a0 + (enc_str(content) + "}"@) + b, a0.len() as int) == Some(
            (ValueData::Other(content), a0.len() + (enc_str(content) + "}"@).len() as int),
        ),
{
    let s = a0 + (enc_str(content) + "}"@) + b;
    let p0 = enc_str(content);
    let p1 = "}"@;
    let r1 = b;
    let r0 = p1 + r1;
    assert(s =~= (a0 + p0) + r0);
    lemma_p_string_at(a0, content, r0);
    let a1 = a0 + p0;
    lemma_assoc3(a1, p1, r1);
    lemma_p_lit_at(a1, p1, r1);
}
#[verifier::rlimit(100)]
#[verifier::spinoff_prover]
proof fn lemma_pv_other(a: Seq<char>, content: Seq<char>, b: Seq<char>)
    ensures
        spec_parse_value(a + enc_value(ValueData::Other(content)) + b, a.len() as int) == Some(
            (ValueData::Other(content), a.len() + enc_value(ValueData::Other(content)).len() as int),
        ),
{
    let enc = enc_value(ValueData::Other(content));
    let s = a + enc + b;
    let l0 = "{\"other\":"@;
    let tail = enc_str(content) + "}"@;
    assert(enc =~= l0 + tail);
    reveal_strlit("{\"caa\":{\"flags\":");
    reveal_strlit("{\"cert\":{\"cert_type\":");
    reveal_strlit("{\"dnskey\":{\"flags\":");
    reveal_strlit("{\"domain\":");
    reveal_strlit("{\"ds\":{\"key_tag\":");
    reveal_strlit("{\"hinfo\":{\"cpu\":");
    reveal_strlit("{\"https\":{\"priority\":");
    reveal_strlit("{\"ip\":");
    reveal_strlit("{\"key\":{\"flags\":");
    reveal_strlit("{\"loc\":{\"version\":");
    reveal_strlit("{\"mx\":{\"priority\":");
    reveal_strlit("{\"naptr\":{\"order\":");
    reveal_strlit("{\"soa\":{\"mname\":");
    reveal_strlit("{\"srv\":{\"priority\":");
    reveal_strlit("{\"sshfp\":{\"algorithm\":");
    reveal_strlit("{\"svcb\":{\"priority\":");
    reveal_strlit("{\"text\":");
    reveal_strlit("{\"tlsa\":{\"cert_usage\":");
    reveal_strlit("{\"uri\":{\"priority\":");
    reveal_strlit("{\"other\":");
    assert(enc[2] == l0[2]);
    lemma_p_lit_refute(a, enc, b, "{\"ip\":"@, 2);
    assert(enc[2] == l0[2]);
    lemma_p_lit_refute(a, enc, b, "{\"domain\":"@, 2);
    assert(enc[2] == l0[2]);
    lemma_p_lit_refute(a, enc, b, "{\"text\":"@, 2);
    assert(enc[2] == l0[2]);
    lemma_p_lit_refute(a, enc, b, "{\"mx\":{\"priority\":"@, 2);
    assert(enc[2] == l0[2]);
    lemma_p_lit_refute(a, enc, b, "{\"srv\":{\"priority\":"@, 2);
    assert(enc[2] == l0[2]);
    lemma_p_lit_refute(a, enc, b, "{\"soa\":{\"mname\":"@, 2);
    assert(enc[2] == l0[2]);
    lemma_p_lit_refute(a, enc, b, "{\"caa\":{\"flags\":"@, 2);
    assert(enc[2] == l0[2]);
    lemma_p_lit_refute(a, enc, b, "{\"cert\":{\"cert_type\":"@, 2);
    assert(enc[2] == l0[2]);
    lemma_p_lit_refute(a, enc, b, "{\"dnskey\":{\"flags\":"@, 2);
    assert(enc[2] == l0[2]);
    lemma_p_lit_refute(a, enc, b, "{\"ds\":{\"key_tag\":"@, 2);
    assert(enc[2] == l0[2]);
    lemma_p_lit_refute(a, enc, b, "{\"hinfo\":{\"cpu\":"@, 2);
    assert(enc[2] == l0[2]);
    lemma_p_lit_refute(a, enc, b, "{\"https\":{\"priority\":"@, 2);
    assert(enc[2] == l0[2]);
    lemma_p_lit_refute(a, enc, b, "{\"key\":{\"flags\":"@, 2);
    assert(enc[2] == l0[2]);
    lemma_p_lit_refute(a, enc, b, "{\"loc\":{\"version\":"@, 2);
    assert(enc[2] == l0[2]);
    lemma_p_lit_refute(a, enc, b, "{\"naptr\":{\"order\":"@, 2);
    assert(enc[2] == l0[2]);
    lemma_p_lit_refute(a, enc, b, "{\"sshfp\":{\"algorithm\":"@, 2);
    assert(enc[2] == l0[2]);
    lemma_p_lit_refute(a, enc, b, "{\"svcb\":{\"priority\":"@, 2);
    assert(enc[2] == l0[2]);
    lemma_p_lit_refute(a, enc, b, "{\"tlsa\":{\"cert_usage\":"@, 2);
    assert(enc[2] == l0[2]);
    lemma_p_lit_refute(a, enc, b, "{\"uri\":{\"priority\":"@, 2);
    let r0 = tail + b;
    assert(s =~= a + l0 + r0);
    lemma_p_lit_at(a, l0, r0);
    let a0 = a + l0;
    assert(s =~= a0 + tail + b);
    lemma_tail_other(a0, content, b);
}

/// Parsing an encoded value at its own position yields the value back.
pub proof fn lemma_parse_value_at(a: Seq<char>, vd: ValueData, b: Seq<char>)
    ensures
        spec_parse_value(a + enc_value(vd) + b, a.len() as int) == Some(
            (vd, a.len() + enc_value(vd).len() as int),
        ),
{
    match vd {
        ValueData::Ip(addr) => {
            lemma_pv_ip(a, addr, b);
        },
        ValueData::Domain(content) => {
            lemma_pv_domain(a, content, b);
        },
        ValueData::Text(content) => {
            lemma_pv_text(a, content, b);
        },
        ValueData::Mx(priority, exchange) => {
            lemma_pv_mx(a, priority, exchange, b);
        },
        ValueData::Srv(priority, weight, port, target) => {
            lemma_pv_srv(a, priority, weight, port, target, b);
        },
        ValueData::Soa(mname, rname, serial, refresh, retry, expire, minimum) => {
            lemma_pv_soa(a, mname, rname, serial, refresh, retry, expire, minimum, b);
        },
        ValueData::Caa(flags, tag, value) => {
            lemma_pv_caa(a, flags, tag, value, b);
        },
        ValueData::Cert(cert_type, key_tag, algorithm, certificate) => {
            lemma_pv_cert(a, cert_type, key_tag, algorithm, certificate, b);
        },
        ValueData::Dnskey(flags, protocol, algorithm, public_key) => {
            lemma_pv_dnskey(a, flags, protocol, algorithm, public_key, b);
        },
        ValueData::Ds(key_tag, algorithm, digest_type, digest) => {
            lemma_pv_ds(a, key_tag, algorithm, digest_type, digest, b);
        },
        ValueData::Hinfo(cpu, os) => {
            lemma_pv_hinfo(a, cpu, os, b);
        },
        ValueData::Https(priority, target, params) => {
            lemma_pv_https(a, priority, target, params, b);
        },
        ValueData::Key(flags, protocol, algorithm, public_key) => {
            lemma_pv_key(a, flags, protocol, algorithm, public_key, b);
        },
        ValueData::Loc(version, size, horiz_pre, vert_pre, latitude, longitude, altitude) => {
            lemma_pv_loc(a, version, size, horiz_pre, vert_pre, latitude, longitude, altitude, b);
        },
        ValueData::Naptr(order, preference, flags, services, regexp, replacement) => {
            lemma_pv_naptr(a, order, preference, flags, services, regexp, replacement, b);
        },
        ValueData::Sshfp(algorithm, fingerprint_type, fingerprint) => {
            lemma_pv_sshfp(a, algorithm, fingerprint_type, fingerprint, b);
        },
        ValueData::Svcb(priority, target, params) => {
            lemma_pv_svcb(a, priority, target, params, b);
        },
        ValueData::Tlsa(cert_usage, selector, matching_type, cert_data) => {
            lemma_pv_tlsa(a, cert_usage, selector, matching_type, cert_data, b);
        },
        ValueData::Uri(priority, weight, target) => {
            lemma_pv_uri(a, priority, weight, target, b);
        },
        ValueData::Other(content) => {
            lemma_pv_other(a, content, b);
        },
    }
}


/// The array text is at least as long as its item count.
pub proof fn lemma_enc_strarray_len(ps: Seq<Seq<char>>)
    ensures
        enc_strarray(ps).len() >= ps.len(),
        enc_strarray(ps).len() >= 2,
    decreases ps.len(),
{
    if ps.len() >= 1 {
        lemma_enc_items_ge(ps);
    }
}

proof fn lemma_enc_items_ge(ps: Seq<Seq<char>>)
    requires
        ps.len() >= 1,
    ensures
        enc_items(ps).len() >= 2 * ps.len() - 1,
    decreases ps.len(),
{
    if ps.len() > 1 {
        lemma_enc_items_ge(ps.skip(1));
    }
}

/// The record type a name denotes, by its canonical uppercase name.
pub open spec fn rt_of_name(t: Seq<char>) -> Option<crate::record_types::RecordType> {
    if t == "A"@ {
        Some(crate::record_types::RecordType::A)
    } else if t == "AAAA"@ {
        Some(crate::record_types::RecordType::Aaaa)
    } else if t == "CNAME"@ {
        Some(crate::record_types::RecordType::Cname)
    } else if t == "MX"@ {
        Some(crate::record_types::RecordType::Mx)
    } else if t == "TXT"@ {
        Some(crate::record_types::RecordType::Txt)
    } else if t == "NS"@ {
        Some(crate::record_types::RecordType::Ns)
    } else if t == "SOA"@ {
        Some(crate::record_types::RecordType::Soa)
    } else if t == "PTR"@ {
        Some(crate::record_types::RecordType::Ptr)
    } else if t == "SRV"@ {
        Some(crate::record_types::RecordType::Srv)
    } else if t == "AFSDB"@ {
        Some(crate::record_types::RecordType::Afsdb)
    } else if t == "CAA"@ {
        Some(crate::record_types::RecordType::Caa)
    } else if t == "CERT"@ {
        Some(crate::record_types::RecordType::Cert)
    } else if t == "DNAME"@ {
        Some(crate::record_types::RecordType::Dname)
    } else if t == "DNSKEY"@ {
        Some(crate::record_types::RecordType::Dnskey)
    } else if t == "DS"@ {
        Some(crate::record_types::RecordType::Ds)
    } else if t == "HINFO"@ {
        Some(crate::record_types::RecordType::Hinfo)
    } else if t == "HTTPS"@ {
        Some(crate::record_types::RecordType::Https)
    } else if t == "KEY"@ {
        Some(crate::record_types::RecordType::Key)
    } else if t == "LOC"@ {
        Some(crate::record_types::RecordType::Loc)
    } else if t == "NAPTR"@ {
        Some(crate::record_types::RecordType::Naptr)
    } else if t == "NSEC"@ {
        Some(crate::record_types::RecordType::Nsec)
    } else if t == "NSEC3"@ {
        Some(crate::record_types::RecordType::Nsec3)
    } else if t == "OPT"@ {
        Some(crate::record_types::RecordType::Opt)
    } else if t == "RRSIG"@ {
        Some(crate::record_types::RecordType::Rrsig)
    } else if t == "SSHFP"@ {
        Some(crate::record_types::RecordType::Sshfp)
    } else if t == "SVCB"@ {
        Some(crate::record_types::RecordType::Svcb)
    } else if t == "TLSA"@ {
        Some(crate::record_types::RecordType::Tlsa)
    } else if t == "URI"@ {
        Some(crate::record_types::RecordType::Uri)
    } else {
        None
    }
}

/// The response code a JSON name denotes.
pub open spec fn rc_of_json_name(t: Seq<char>) -> Option<crate::response_codes::ResponseCode> {
    if t == "NOERROR"@ {
        Some(crate::response_codes::ResponseCode::NoError)
    } else if t == "SERVFAIL"@ {
        Some(crate::response_codes::ResponseCode::ServFail)
    } else if t == "NXDOMAIN"@ {
        Some(crate::response_codes::ResponseCode::NxDomain)
    } else if t == "REFUSED"@ {
        Some(crate::response_codes::ResponseCode::Refused)
    } else if t == "FORMERR"@ {
        Some(crate::response_codes::ResponseCode::FormErr)
    } else if t == "NOTIMP"@ {
        Some(crate::response_codes::ResponseCode::NotImp)
    } else if t == "OTHER"@ {
        Some(crate::response_codes::ResponseCode::ServFailOther)
    } else {
        None
    }
}

/// Parses a record type's canonical name, exactly.
fn rt_from_name(t: &Vec<char>) -> (r: Option<crate::record_types::RecordType>)
    ensures
        r == rt_of_name(t@),
{
    let lit = crate::text::chars_of_str("A");
    if crate::wildcard::chars_equal(t, &lit) {
        return Some(crate::record_types::RecordType::A);
    }
    let lit = crate::text::chars_of_str("AAAA");
    if crate::wildcard::chars_equal(t, &lit) {
        return Some(crate::record_types::RecordType::Aaaa);
    }
    let lit = crate::text::chars_of_str("CNAME");
    if crate::wildcard::chars_equal(t, &lit) {
        return Some(crate::record_types::RecordType::Cname);
    }
    let lit = crate::text::chars_of_str("MX");
    if crate::wildcard::chars_equal(t, &lit) {
        return Some(crate::record_types::RecordType::Mx);
    }
    let lit = crate::text::chars_of_str("TXT");
    if crate::wildcard::chars_equal(t, &lit) {
        return Some(crate::record_types::RecordType::Txt);
    }
    let lit = crate::text::chars_of_str("NS");
    if crate::wildcard::chars_equal(t, &lit) {
        return Some(crate::record_types::RecordType::Ns);
    }
    let lit = crate::text::chars_of_str("SOA");
    if crate::wildcard::chars_equal(t, &lit) {
        return Some(crate::record_types::RecordType::Soa);
    }
    let lit = crate::text::chars_of_str("PTR");
    if crate::wildcard::chars_equal(t, &lit) {
        return Some(crate::record_types::RecordType::Ptr);
    }
    let lit = crate::text::chars_of_str("SRV");
    if crate::wildcard::chars_equal(t, &lit) {
        return Some(crate::record_types::RecordType::Srv);
    }
    let lit = crate::text::chars_of_str("AFSDB");
    if crate::wildcard::chars_equal(t, &lit) {
        return Some(crate::record_types::RecordType::Afsdb);
    }
    let lit = crate::text::chars_of_str("CAA");
    if crate::wildcard::chars_equal(t, &lit) {
        return Some(crate::record_types::RecordType::Caa);
    }
    let lit = crate::text::chars_of_str("CERT");
    if crate::wildcard::chars_equal(t, &lit) {
        return Some(crate::record_types::RecordType::Cert);
    }
    let lit = crate::text::chars_of_str("DNAME");
    if crate::wildcard::chars_equal(t, &lit) {
        return Some(crate::record_types::RecordType::Dname);
    }
    let lit = crate::text::chars_of_str("DNSKEY");
    if crate::wildcard::chars_equal(t, &lit) {
        return Some(crate::record_types::RecordType::Dnskey);
    }
    let lit = crate::text::chars_of_str("DS");
    if crate::wildcard::chars_equal(t, &lit) {
        return Some(crate::record_types::RecordType::Ds);
    }
    let lit = crate::text::chars_of_str("HINFO");
    if crate::wildcard::chars_equal(t, &lit) {
        return Some(crate::record_types::RecordType::Hinfo);
    }
    let lit = crate::text::chars_of_str("HTTPS");
    if crate::wildcard::chars_equal(t, &lit) {
        return Some(crate::record_types::RecordType::Https);
    }
    let lit = crate::text::chars_of_str("KEY");
    if crate::wildcard::chars_equal(t, &lit) {
        return Some(crate::record_types::RecordType::Key);
    }
    let lit = crate::text::chars_of_str("LOC");
    if crate::wildcard::chars_equal(t, &lit) {
        return Some(crate::record_types::RecordType::Loc);
    }
    let lit = crate::text::chars_of_str("NAPTR");
    if crate::wildcard::chars_equal(t, &lit) {
        return Some(crate::record_types::RecordType::Naptr);
    }
    let lit = crate::text::chars_of_str("NSEC");
    if crate::wildcard::chars_equal(t, &lit) {
        return Some(crate::record_types::RecordType::Nsec);
    }
    let lit = crate::text::chars_of_str("NSEC3");
    if crate::wildcard::chars_equal(t, &lit) {
        return Some(crate::record_types::RecordType::Nsec3);
    }
    let lit = crate::text::chars_of_str("OPT");
    if crate::wildcard::chars_equal(t, &lit) {
        return Some(crate::record_types::RecordType::Opt);
    }
    let lit = crate::text::chars_of_str("RRSIG");
    if crate::wildcard::chars_equal(t, &lit) {
        return Some(crate::record_types::RecordType::Rrsig);
    }
    let lit = crate::text::chars_of_str("SSHFP");
    if crate::wildcard::chars_equal(t, &lit) {
        return Some(crate::record_types::RecordType::Sshfp);
    }
    let lit = crate::text::chars_of_str("SVCB");
    if crate::wildcard::chars_equal(t, &lit) {
        return Some(crate::record_types::RecordType::Svcb);
    }
    let lit = crate::text::chars_of_str("TLSA");
    if crate::wildcard::chars_equal(t, &lit) {
        return Some(crate::record_types::RecordType::Tlsa);
    }
    let lit = crate::text::chars_of_str("URI");
    if crate::wildcard::chars_equal(t, &lit) {
        return Some(crate::record_types::RecordType::Uri);
    }
    None
}

/// Parses a response code's JSON name, exactly.
fn rc_from_json_name(t: &Vec<char>) -> (r: Option<crate::response_codes::ResponseCode>)
    ensures
        r == rc_of_json_name(t@),
{
    let lit = crate::text::chars_of_str("NOERROR");
    if crate::wildcard::chars_equal(t, &lit) {
        return Some(crate::response_codes::ResponseCode::NoError);
    }
    let lit = crate::text::chars_of_str("SERVFAIL");
    if crate::wildcard::chars_equal(t, &lit) {
        return Some(crate::response_codes::ResponseCode::ServFail);
    }
    let lit = crate::text::chars_of_str("NXDOMAIN");
    if crate::wildcard::chars_equal(t, &lit) {
        return Some(crate::response_codes::ResponseCode::NxDomain);
    }
    let lit = crate::text::chars_of_str("REFUSED");
    if crate::wildcard::chars_equal(t, &lit) {
        return Some(crate::response_codes::ResponseCode::Refused);
    }
    let lit = crate::text::chars_of_str("FORMERR");
    if crate::wildcard::chars_equal(t, &lit) {
        return Some(crate::response_codes::ResponseCode::FormErr);
    }
    let lit = crate::text::chars_of_str("NOTIMP");
    if crate::wildcard::chars_equal(t, &lit) {
        return Some(crate::response_codes::ResponseCode::NotImp);
    }
    let lit = crate::text::chars_of_str("OTHER");
    if crate::wildcard::chars_equal(t, &lit) {
        return Some(crate::response_codes::ResponseCode::ServFailOther);
    }
    None
}

/// Every record type's canonical name parses back to the type.
#[verifier::rlimit(100)]
#[verifier::spinoff_prover]
proof fn lemma_rt_name_round_trip(x: crate::record_types::RecordType)
    ensures
        rt_of_name(crate::record_types::type_name_chars(x)) == Some(x),
{
    reveal_strlit("A");
    reveal_strlit("AAAA");
    reveal_strlit("CNAME");
    reveal_strlit("MX");
    reveal_strlit("TXT");
    reveal_strlit("NS");
    reveal_strlit("SOA");
    reveal_strlit("PTR");
    reveal_strlit("SRV");
    reveal_strlit("AFSDB");
    reveal_strlit("CAA");
    reveal_strlit("CERT");
    reveal_strlit("DNAME");
    reveal_strlit("DNSKEY");
    reveal_strlit("DS");
    reveal_strlit("HINFO");
    reveal_strlit("HTTPS");
    reveal_strlit("KEY");
    reveal_strlit("LOC");
    reveal_strlit("NAPTR");
    reveal_strlit("NSEC");
    reveal_strlit("NSEC3");
    reveal_strlit("OPT");
    reveal_strlit("RRSIG");
    reveal_strlit("SSHFP");
    reveal_strlit("SVCB");
    reveal_strlit("TLSA");
    reveal_strlit("URI");
    match x {
        crate::record_types::RecordType::A => {
            assert(crate::record_types::type_name_chars(x) =~= "A"@);
        },
        crate::record_types::RecordType::Aaaa => {
            assert(crate::record_types::type_name_chars(x) =~= "AAAA"@);
        },
        crate::record_types::RecordType::Cname => {
            assert(crate::record_types::type_name_chars(x) =~= "CNAME"@);
        },
        crate::record_types::RecordType::Mx => {
            assert(crate::record_types::type_name_chars(x) =~= "MX"@);
        },
        crate::record_types::RecordType::Txt => {
            assert(crate::record_types::type_name_chars(x) =~= "TXT"@);
        },
        crate::record_types::RecordType::Ns => {
            assert(crate::record_types::type_name_chars(x) =~= "NS"@);
            assert("MX"@ != "NS"@) by {
                assert("MX"@[0] != "NS"@[0]);
            }
        },
        crate::record_types::RecordType::Soa => {
            assert(crate::record_types::type_name_chars(x) =~= "SOA"@);
            assert("TXT"@ != "SOA"@) by {
                assert("TXT"@[0] != "SOA"@[0]);
            }
        },
        crate::record_types::RecordType::Ptr => {
            assert(crate::record_types::type_name_chars(x) =~= "PTR"@);
            assert("TXT"@ != "PTR"@) by {
                assert("TXT"@[0] != "PTR"@[0]);
            }
            assert("SOA"@ != "PTR"@) by {
                assert("SOA"@[0] != "PTR"@[0]);
            }
        },
        crate::record_types::RecordType::Srv => {
            assert(crate::record_types::type_name_chars(x) =~= "SRV"@);
            assert("TXT"@ != "SRV"@) by {
                assert("TXT"@[0] != "SRV"@[0]);
            }
            assert("SOA"@ != "SRV"@) by {
                assert("SOA"@[1] != "SRV"@[1]);
            }
            assert("PTR"@ != "SRV"@) by {
                assert("PTR"@[0] != "SRV"@[0]);
            }
        },
        crate::record_types::RecordType::Afsdb => {
            assert(crate::record_types::type_name_chars(x) =~= "AFSDB"@);
            assert("CNAME"@ != "AFSDB"@) by {
                assert("CNAME"@[0] != "AFSDB"@[0]);
            }
        },
        crate::record_types::RecordType::Caa => {
            assert(crate::record_types::type_name_chars(x) =~= "CAA"@);
            assert("TXT"@ != "CAA"@) by {
                assert("TXT"@[0] != "CAA"@[0]);
            }
            assert("SOA"@ != "CAA"@) by {
                assert("SOA"@[0] != "CAA"@[0]);
            }
            assert("PTR"@ != "CAA"@) by {
                assert("PTR"@[0] != "CAA"@[0]);
            }
            assert("SRV"@ != "CAA"@) by {
                assert("SRV"@[0] != "CAA"@[0]);
            }
        },
        crate::record_types::RecordType::Cert => {
            assert(crate::record_types::type_name_chars(x) =~= "CERT"@);
            assert("AAAA"@ != "CERT"@) by {
                assert("AAAA"@[0] != "CERT"@[0]);
            }
        },
        crate::record_types::RecordType::Dname => {
            assert(crate::record_types::type_name_chars(x) =~= "DNAME"@);
            assert("CNAME"@ != "DNAME"@) by {
                assert("CNAME"@[0] != "DNAME"@[0]);
            }
            assert("AFSDB"@ != "DNAME"@) by {
                assert("AFSDB"@[0] != "DNAME"@[0]);
            }
        },
        crate::record_types::RecordType::Dnskey => {
            assert(crate::record_types::type_name_chars(x) =~= "DNSKEY"@);
        },
        crate::record_types::RecordType::Ds => {
            assert(crate::record_types::type_name_chars(x) =~= "DS"@);
            assert("MX"@ != "DS"@) by {
                assert("MX"@[0] != "DS"@[0]);
            }
            assert("NS"@ != "DS"@) by {
                assert("NS"@[0] != "DS"@[0]);
            }
        },
        crate::record_types::RecordType::Hinfo => {
            assert(crate::record_types::type_name_chars(x) =~= "HINFO"@);
            assert("CNAME"@ != "HINFO"@) by {
                assert("CNAME"@[0] != "HINFO"@[0]);
            }
            assert("AFSDB"@ != "HINFO"@) by {
                assert("AFSDB"@[0] != "HINFO"@[0]);
            }
            assert("DNAME"@ != "HINFO"@) by {
                assert("DNAME"@[0] != "HINFO"@[0]);
            }
        },
        crate::record_types::RecordType::Https => {
            assert(crate::record_types::type_name_chars(x) =~= "HTTPS"@);
            assert("CNAME"@ != "HTTPS"@) by {
                assert("CNAME"@[0] != "HTTPS"@[0]);
            }
            assert("AFSDB"@ != "HTTPS"@) by {
                assert("AFSDB"@[0] != "HTTPS"@[0]);
            }
            assert("DNAME"@ != "HTTPS"@) by {
                assert("DNAME"@[0] != "HTTPS"@[0]);
            }
            assert("HINFO"@ != "HTTPS"@) by {
                assert("HINFO"@[1] != "HTTPS"@[1]);
            }
        },
        crate::record_types::RecordType::Key => {
            assert(crate::record_types::type_name_chars(x) =~= "KEY"@);
            assert("TXT"@ != "KEY"@) by {
                assert("TXT"@[0] != "KEY"@[0]);
            }
            assert("SOA"@ != "KEY"@) by {
                assert("SOA"@[0] != "KEY"@[0]);
            }
            assert("PTR"@ != "KEY"@) by {
                assert("PTR"@[0] != "KEY"@[0]);
            }
            assert("SRV"@ != "KEY"@) by {
                assert("SRV"@[0] != "KEY"@[0]);
            }
            assert("CAA"@ != "KEY"@) by {
                assert("CAA"@[0] != "KEY"@[0]);
            }
        },
        crate::record_types::RecordType::Loc => {
            assert(crate::record_types::type_name_chars(x) =~= "LOC"@);
            assert("TXT"@ != "LOC"@) by {
                assert("TXT"@[0] != "LOC"@[0]);
            }
            assert("SOA"@ != "LOC"@) by {
                assert("SOA"@[0] != "LOC"@[0]);
            }
            assert("PTR"@ != "LOC"@) by {
                assert("PTR"@[0] != "LOC"@[0]);
            }
            assert("SRV"@ != "LOC"@) by {
                assert("SRV"@[0] != "LOC"@[0]);
            }
            assert("CAA"@ != "LOC"@) by {
                assert("CAA"@[0] != "LOC"@[0]);
            }
            assert("KEY"@ != "LOC"@) by {
                assert("KEY"@[0] != "LOC"@[0]);
            }
        },
        crate::record_types::RecordType::Naptr => {
            assert(crate::record_types::type_name_chars(x) =~= "NAPTR"@);
            assert("CNAME"@ != "NAPTR"@) by {
                assert("CNAME"@[0] != "NAPTR"@[0]);
            }
            assert("AFSDB"@ != "NAPTR"@) by {
                assert("AFSDB"@[0] != "NAPTR"@[0]);
            }
            assert("DNAME"@ != "NAPTR"@) by {
                assert("DNAME"@[0] != "NAPTR"@[0]);
            }
            assert("HINFO"@ != "NAPTR"@) by {
                assert("HINFO"@[0] != "NAPTR"@[0]);
            }
            assert("HTTPS"@ != "NAPTR"@) by {
                assert("HTTPS"@[0] != "NAPTR"@[0]);
            }
        },
        crate::record_types::RecordType::Nsec => {
            assert(crate::record_types::type_name_chars(x) =~= "NSEC"@);
            assert("AAAA"@ != "NSEC"@) by {
                assert("AAAA"@[0] != "NSEC"@[0]);
            }
            assert("CERT"@ != "NSEC"@) by {
                assert("CERT"@[0] != "NSEC"@[0]);
            }
        },
        crate::record_types::RecordType::Nsec3 => {
            assert(crate::record_types::type_name_chars(x) =~= "NSEC3"@);
            assert("CNAME"@ != "NSEC3"@) by {
                assert("CNAME"@[0] != "NSEC3"@[0]);
            }
            assert("AFSDB"@ != "NSEC3"@) by {
                assert("AFSDB"@[0] != "NSEC3"@[0]);
            }
            assert("DNAME"@ != "NSEC3"@) by {
                assert("DNAME"@[0] != "NSEC3"@[0]);
            }
            assert("HINFO"@ != "NSEC3"@) by {
                assert("HINFO"@[0] != "NSEC3"@[0]);
            }
            assert("HTTPS"@ != "NSEC3"@) by {
                assert("HTTPS"@[0] != "NSEC3"@[0]);
            }
            assert("NAPTR"@ != "NSEC3"@) by {
                assert("NAPTR"@[1] != "NSEC3"@[1]);
            }
        },
        crate::record_types::RecordType::Opt => {
            assert(crate::record_types::type_name_chars(x) =~= "OPT"@);
            assert("TXT"@ != "OPT"@) by {
                assert("TXT"@[0] != "OPT"@[0]);
            }
            assert("SOA"@ != "OPT"@) by {
                assert("SOA"@[0] != "OPT"@[0]);
            }
            assert("PTR"@ != "OPT"@) by {
                assert("PTR"@[0] != "OPT"@[0]);
            }
            assert("SRV"@ != "OPT"@) by {
                assert("SRV"@[0] != "OPT"@[0]);
            }
            assert("CAA"@ != "OPT"@) by {
                assert("CAA"@[0] != "OPT"@[0]);
            }
            assert("KEY"@ != "OPT"@) by {
                assert("KEY"@[0] != "OPT"@[0]);
            }
            assert("LOC"@ != "OPT"@) by {
                assert("LOC"@[0] != "OPT"@[0]);
            }
        },
        crate::record_types::RecordType::Rrsig => {
            assert(crate::record_types::type_name_chars(x) =~= "RRSIG"@);
            assert("CNAME"@ != "RRSIG"@) by {
                assert("CNAME"@[0] != "RRSIG"@[0]);
            }
            assert("AFSDB"@ != "RRSIG"@) by {
                assert("AFSDB"@[0] != "RRSIG"@[0]);
            }
            assert("DNAME"@ != "RRSIG"@) by {
                assert("DNAME"@[0] != "RRSIG"@[0]);
            }
            assert("HINFO"@ != "RRSIG"@) by {
                assert("HINFO"@[0] != "RRSIG"@[0]);
            }
            assert("HTTPS"@ != "RRSIG"@) by {
                assert("HTTPS"@[0] != "RRSIG"@[0]);
            }
            assert("NAPTR"@ != "RRSIG"@) by {
                assert("NAPTR"@[0] != "RRSIG"@[0]);
            }
            assert("NSEC3"@ != "RRSIG"@) by {
                assert("NSEC3"@[0] != "RRSIG"@[0]);
            }
        },
        crate::record_types::RecordType::Sshfp => {
            assert(crate::record_types::type_name_chars(x) =~= "SSHFP"@);
            assert("CNAME"@ != "SSHFP"@) by {
                assert("CNAME"@[0] != "SSHFP"@[0]);
            }
            assert("AFSDB"@ != "SSHFP"@) by {
                assert("AFSDB"@[0] != "SSHFP"@[0]);
            }
            assert("DNAME"@ != "SSHFP"@) by {
                assert("DNAME"@[0] != "SSHFP"@[0]);
            }
            assert("HINFO"@ != "SSHFP"@) by {
                assert("HINFO"@[0] != "SSHFP"@[0]);
            }
            assert("HTTPS"@ != "SSHFP"@) by {
                assert("HTTPS"@[0] != "SSHFP"@[0]);
            }
            assert("NAPTR"@ != "SSHFP"@) by {
                assert("NAPTR"@[0] != "SSHFP"@[0]);
            }
            assert("NSEC3"@ != "SSHFP"@) by {
                assert("NSEC3"@[0] != "SSHFP"@[0]);
            }
            assert("RRSIG"@ != "SSHFP"@) by {
                assert("RRSIG"@[0] != "SSHFP"@[0]);
            }
        },
        crate::record_types::RecordType::Svcb => {
            assert(crate::record_types::type_name_chars(x) =~= "SVCB"@);
            assert("AAAA"@ != "SVCB"@) by {
                assert("AAAA"@[0] != "SVCB"@[0]);
            }
            assert("CERT"@ != "SVCB"@) by {
                assert("CERT"@[0] != "SVCB"@[0]);
            }
            assert("NSEC"@ != "SVCB"@) by {
                assert("NSEC"@[0] != "SVCB"@[0]);
            }
        },
        crate::record_types::RecordType::Tlsa => {
            assert(crate::record_types::type_name_chars(x) =~= "TLSA"@);
            assert("AAAA"@ != "TLSA"@) by {
                assert("AAAA"@[0] != "TLSA"@[0]);
            }
            assert("CERT"@ != "TLSA"@) by {
                assert("CERT"@[0] != "TLSA"@[0]);
            }
            assert("NSEC"@ != "TLSA"@) by {
                assert("NSEC"@[0] != "TLSA"@[0]);
            }
            assert("SVCB"@ != "TLSA"@) by {
                assert("SVCB"@[0] != "TLSA"@[0]);
            }
        },
        crate::record_types::RecordType::Uri => {
            assert(crate::record_types::type_name_chars(x) =~= "URI"@);
            assert("TXT"@ != "URI"@) by {
                assert("TXT"@[0] != "URI"@[0]);
            }
            assert("SOA"@ != "URI"@) by {
                assert("SOA"@[0] != "URI"@[0]);
            }
            assert("PTR"@ != "URI"@) by {
                assert("PTR"@[0] != "URI"@[0]);
            }
            assert("SRV"@ != "URI"@) by {
                assert("SRV"@[0] != "URI"@[0]);
            }
            assert("CAA"@ != "URI"@) by {
                assert("CAA"@[0] != "URI"@[0]);
            }
            assert("KEY"@ != "URI"@) by {
                assert("KEY"@[0] != "URI"@[0]);
            }
            assert("LOC"@ != "URI"@) by {
                assert("LOC"@[0] != "URI"@[0]);
            }
            assert("OPT"@ != "URI"@) by {
                assert("OPT"@[0] != "URI"@[0]);
            }
        },
    }
}

/// Every response code's JSON name parses back to the code.
#[verifier::rlimit(100)]
#[verifier::spinoff_prover]
proof fn lemma_rc_name_round_trip(x: crate::response_codes::ResponseCode)
    ensures
        rc_of_json_name(json_rcode_chars(x)) == Some(x),
{
    reveal_strlit("NOERROR");
    reveal_strlit("SERVFAIL");
    reveal_strlit("NXDOMAIN");
    reveal_strlit("REFUSED");
    reveal_strlit("FORMERR");
    reveal_strlit("NOTIMP");
    reveal_strlit("OTHER");
    match x {
        crate::response_codes::ResponseCode::NoError => {
            assert(json_rcode_chars(x) =~= "NOERROR"@);
        },
        crate::response_codes::ResponseCode::ServFail => {
            assert(json_rcode_chars(x) =~= "SERVFAIL"@);
        },
        crate::response_codes::ResponseCode::NxDomain => {
            assert(json_rcode_chars(x) =~= "NXDOMAIN"@);
            assert("SERVFAIL"@ != "NXDOMAIN"@) by {
                assert("SERVFAIL"@[0] != "NXDOMAIN"@[0]);
            }
        },
        crate::response_codes::ResponseCode::Refused => {
            assert(json_rcode_chars(x) =~= "REFUSED"@);
            assert("NOERROR"@ != "REFUSED"@) by {
                assert("NOERROR"@[0] != "REFUSED"@[0]);
            }
        },
        crate::response_codes::ResponseCode::FormErr => {
            assert(json_rcode_chars(x) =~= "FORMERR"@);
            assert("NOERROR"@ != "FORMERR"@) by {
                assert("NOERROR"@[0] != "FORMERR"@[0]);
            }
            assert("REFUSED"@ != "FORMERR"@) by {
                assert("REFUSED"@[0] != "FORMERR"@[0]);
            }
        },
        crate::response_codes::ResponseCode::NotImp => {
            assert(json_rcode_chars(x) =~= "NOTIMP"@);
        },
        crate::response_codes::ResponseCode::ServFailOther => {
            assert(json_rcode_chars(x) =~= "OTHER"@);
        },
    }
}

/// Whether a value content's tag agrees with a record type, mirroring the
/// record model's constructor invariant.
pub open spec fn data_matches_type(
    rt: crate::record_types::RecordType,
    vd: ValueData,
) -> bool {
    ||| vd is Other
    ||| vd is Domain
    ||| match rt {
        crate::record_types::RecordType::A => vd is Ip,
        crate::record_types::RecordType::Aaaa => vd is Ip,
        crate::record_types::RecordType::Txt => vd is Text,
        crate::record_types::RecordType::Mx => vd is Mx,
        crate::record_types::RecordType::Srv => vd is Srv,
        crate::record_types::RecordType::Soa => vd is Soa,
        crate::record_types::RecordType::Caa => vd is Caa,
        crate::record_types::RecordType::Cert => vd is Cert,
        crate::record_types::RecordType::Dnskey => vd is Dnskey,
        crate::record_types::RecordType::Ds => vd is Ds,
        crate::record_types::RecordType::Hinfo => vd is Hinfo,
        crate::record_types::RecordType::Https => vd is Https,
        crate::record_types::RecordType::Key => vd is Key,
        crate::record_types::RecordType::Loc => vd is Loc,
        crate::record_types::RecordType::Naptr => vd is Naptr,
        crate::record_types::RecordType::Sshfp => vd is Sshfp,
        crate::record_types::RecordType::Svcb => vd is Svcb,
        crate::record_types::RecordType::Tlsa => vd is Tlsa,
        crate::record_types::RecordType::Uri => vd is Uri,
        _ => false,
    }
}

/// The content view keeps the tag, so the agreement checks coincide.
proof fn lemma_data_matches(rt: crate::record_types::RecordType, v: crate::record_values::RecordValue)
    ensures
        data_matches_type(rt, value_data(v)) == crate::dns_records::value_matches_type(rt, v),
{
}

/// What a full record text denotes: the fixed field sequence, ending
/// exactly at the text's end.
pub open spec fn spec_parse_record(s: Seq<char>) -> Option<RecordData> {
    match p_lit(s, 0, "{\"domain\":"@) {
        Some(i0) => match p_string(s, i0) {
            Some((domain, i1)) => match p_lit(s, i1, ",\"record_type\":"@) {
                Some(i2) => match p_string(s, i2) {
                    Some((tname, i3)) => match rt_of_name(tname) {
                        Some(rt) => match p_lit(s, i3, ",\"value\":"@) {
                            Some(i4) => match spec_parse_value(s, i4) {
                                Some((vd, i5)) => match p_lit(s, i5, ",\"ttl\":"@) {
                                    Some(i6) => match p_u64(s, i6) {
                                        Some((ttl64, i7)) => if ttl64 <= u32::MAX as u64 {
                                            match p_lit(s, i7, ",\"response_code\":"@) {
                                                Some(i8) => match p_string(s, i8) {
                                                    Some((rcname, i9)) => match rc_of_json_name(
                                                        rcname,
                                                    ) {
                                                        Some(rc) => match p_lit(
                                                            s,
                                                            i9,
                                                            ",\"resolver\":"@,
                                                        ) {
                                                            Some(i10) => match p_string(s, i10) {
                                                                Some((resolver, i11)) => match p_lit(
                                                                    s,
                                                                    i11,
                                                                    ",\"timestamp\":"@,
                                                                ) {
                                                                    Some(i12) => match p_string(
                                                                        s,
                                                                        i12,
                                                                    ) {
                                                                        Some((ts, i13)) => match crate::time::spec_parse_timestamp(
                                                                            ts,
                                                                        ) {
                                                                            Some(ms) => match p_lit(
                                                                                s,
                                                                                i13,
                                                                                ",\"query_time_ms\":"@,
                                                                            ) {
                                                                                Some(i14) => match p_u64(
                                                                                    s,
                                                                                    i14,
                                                                                ) {
                                                                                    Some(
                                                                                        (qt, i15),
                                                                                    ) => match p_lit(
                                                                                        s,
                                                                                        i15,
                                                                                        "}"@,
                                                                                    ) {
                                                                                        Some(
                                                                                            jend,
                                                                                        ) => if jend
                                                                                            == s.len()
                                                                                            && data_matches_type(
                                                                                            rt,
                                                                                            vd,
                                                                                        ) {
                                                                                            Some(
                                                                                                RecordData {
                                                                                                    domain,
                                                                                                    record_type: rt,
                                                                                                    value: vd,
                                                                                                    ttl: ttl64 as u32,
                                                                                                    response_code: rc,
                                                                                                    resolver,
                                                                                                    timestamp_ms: ms,
                                                                                                    query_time_ms: qt,
                                                                                                },
                                                                                            )
                                                                                        } else {
                                                                                            None
                                                                                        },
                                                                                        None => None,
                                                                                    },
                                                                                    None => None,
                                                                                },
                                                                                None => None,
                                                                            },
                                                                            None => None,
                                                                        },
                                                                        None => None,
                                                                    },
                                                                    None => None,
                                                                },
                                                                None => None,
                                                            },
                                                            None => None,
                                                        },
                                                        None => None,
                                                    },
                                                    None => None,
                                                },
                                                None => None,
                                            }
                                        } else {
                                            None
                                        },
                                        None => None,
                                    },
                                    None => None,
                                },
                                None => None,
                            },
                            None => None,
                        },
                        None => None,
                    },
                    None => None,
                },
                None => None,
            },
            None => None,
        },
        None => None,
    }
}

/// Decodes one record from its JSON text.
///
/// The text must be exactly one object in the encoder's shape; the decoded
/// record is well formed and its content is what the text denotes.
#[verifier::rlimit(100)]
#[verifier::spinoff_prover]
pub fn decode_record(s: &str) -> (r: Option<crate::dns_records::DnsRecord>)
    ensures
        match r {
            Some(rec) => spec_parse_record(s@) == Some(record_data(rec))
                && crate::dns_records::record_wf(rec),
            None => (spec_parse_record(s@) matches None),
        },
{
    let v = crate::text::chars_of_str(s);
    let i0 = match expect_lit(&v, 0, "{\"domain\":") {
        Some(j) => j,
        None => {
            return None;
        },
    };
    let (domain, i1) = match parse_string_tok(&v, i0) {
        Some(p) => p,
        None => {
            return None;
        },
    };
    let i2 = match expect_lit(&v, i1, ",\"record_type\":") {
        Some(j) => j,
        None => {
            return None;
        },
    };
    let (tname, i3) = match parse_string_tok(&v, i2) {
        Some(p) => p,
        None => {
            return None;
        },
    };
    let rt = match rt_from_name(&tname) {
        Some(rt) => rt,
        None => {
            return None;
        },
    };
    let i4 = match expect_lit(&v, i3, ",\"value\":") {
        Some(j) => j,
        None => {
            return None;
        },
    };
    let (value, i5) = match decode_value(&v, i4) {
        Some(p) => p,
        None => {
            return None;
        },
    };
    let i6 = match expect_lit(&v, i5, ",\"ttl\":") {
        Some(j) => j,
        None => {
            return None;
        },
    };
    let (ttl64, i7) = match parse_u64_tok(&v, i6) {
        Some(p) => p,
        None => {
            return None;
        },
    };
    if ttl64 > 0xffff_ffff {
        return None;
    }
    let i8 = match expect_lit(&v, i7, ",\"response_code\":") {
        Some(j) => j,
        None => {
            return None;
        },
    };
    let (rcname, i9) = match parse_string_tok(&v, i8) {
        Some(p) => p,
        None => {
            return None;
        },
    };
    let rc = match rc_from_json_name(&rcname) {
        Some(rc) => rc,
        None => {
            return None;
        },
    };
    let i10 = match expect_lit(&v, i9, ",\"resolver\":") {
        Some(j) => j,
        None => {
            return None;
        },
    };
    let (resolver, i11) = match parse_string_tok(&v, i10) {
        Some(p) => p,
        None => {
            return None;
        },
    };
    let i12 = match expect_lit(&v, i11, ",\"timestamp\":") {
        Some(j) => j,
        None => {
            return None;
        },
    };
    let (ts, i13) = match parse_string_tok(&v, i12) {
        Some(p) => p,
        None => {
            return None;
        },
    };
    let ms = match crate::time::parse_timestamp(&ts, 0, ts.len()) {
        Some(ms) => ms,
        None => {
            proof {
                assert(ts@.subrange(0, ts@.len() as int) =~= ts@);
            }
            return None;
        },
    };
    proof {
        assert(ts@.subrange(0, ts@.len() as int) =~= ts@);
    }
    let i14 = match expect_lit(&v, i13, ",\"query_time_ms\":") {
        Some(j) => j,
        None => {
            return None;
        },
    };
    let (qt, i15) = match parse_u64_tok(&v, i14) {
        Some(p) => p,
        None => {
            return None;
        },
    };
    let jend = match expect_lit(&v, i15, "}") {
        Some(j) => j,
        None => {
            return None;
        },
    };
    if jend != v.len() {
        return None;
    }
    let matches_rt = match (&value, rt) {
        (crate::record_values::RecordValue::Other(_), _) => true,
        (crate::record_values::RecordValue::Domain(_), _) => true,
        (crate::record_values::RecordValue::Ip(_), crate::record_types::RecordType::A) => true,
        (crate::record_values::RecordValue::Ip(_), crate::record_types::RecordType::Aaaa) => true,
        (crate::record_values::RecordValue::Text(_), crate::record_types::RecordType::Txt) => true,
        (crate::record_values::RecordValue::Mx { .. }, crate::record_types::RecordType::Mx) => true,
        (crate::record_values::RecordValue::Srv { .. }, crate::record_types::RecordType::Srv) => true,
        (crate::record_values::RecordValue::Soa { .. }, crate::record_types::RecordType::Soa) => true,
        (crate::record_values::RecordValue::Caa { .. }, crate::record_types::RecordType::Caa) => true,
        (crate::record_values::RecordValue::Cert { .. }, crate::record_types::RecordType::Cert) => true,
        (crate::record_values::RecordValue::Dnskey { .. }, crate::record_types::RecordType::Dnskey) => true,
        (crate::record_values::RecordValue::Ds { .. }, crate::record_types::RecordType::Ds) => true,
        (crate::record_values::RecordValue::Hinfo { .. }, crate::record_types::RecordType::Hinfo) => true,
        (crate::record_values::RecordValue::Https { .. }, crate::record_types::RecordType::Https) => true,
        (crate::record_values::RecordValue::Key { .. }, crate::record_types::RecordType::Key) => true,
        (crate::record_values::RecordValue::Loc { .. }, crate::record_types::RecordType::Loc) => true,
        (crate::record_values::RecordValue::Naptr { .. }, crate::record_types::RecordType::Naptr) => true,
        (crate::record_values::RecordValue::Sshfp { .. }, crate::record_types::RecordType::Sshfp) => true,
        (crate::record_values::RecordValue::Svcb { .. }, crate::record_types::RecordType::Svcb) => true,
        (crate::record_values::RecordValue::Tlsa { .. }, crate::record_types::RecordType::Tlsa) => true,
        (crate::record_values::RecordValue::Uri { .. }, crate::record_types::RecordType::Uri) => true,
        _ => false,
    };
    if !matches_rt {
        proof {
            lemma_data_matches(rt, value);
        }
        return None;
    }
    proof {
        lemma_data_matches(rt, value);
    }
    let rec = crate::dns_records::DnsRecord::new(
        crate::text::string_from_chars(&domain),
        rt,
        value,
        ttl64 as u32,
        rc,
        crate::text::string_from_chars(&resolver),
        qt,
        ms,
    );
    Some(rec)
}

/// JSON round trip: parsing the encoding of any record content yields that
/// content back. Together with the encoder's and decoder's contracts, a
/// record survives encoding and decoding unchanged up to its content view.
#[verifier::rlimit(100)]
#[verifier::spinoff_prover]
pub proof fn lemma_json_round_trip(d: RecordData, ts: Seq<char>)
    requires
        crate::time::spec_parse_timestamp(ts) == Some(d.timestamp_ms),
        data_matches_type(d.record_type, d.value),
    ensures
        spec_parse_record(enc_record_with(d, ts)) == Some(d),
{
    let s = enc_record_with(d, ts);
    let p0 = "{\"domain\":"@;
    let p1 = enc_str(d.domain);
    let p2 = ",\"record_type\":"@;
    let p3 = enc_str(crate::record_types::type_name_chars(d.record_type));
    let p4 = ",\"value\":"@;
    let p5 = enc_value(d.value);
    let p6 = ",\"ttl\":"@;
    let p7 = dec_chars(d.ttl as nat);
    let p8 = ",\"response_code\":"@;
    let p9 = enc_str(json_rcode_chars(d.response_code));
    let p10 = ",\"resolver\":"@;
    let p11 = enc_str(d.resolver);
    let p12 = ",\"timestamp\":"@;
    let p13 = enc_str(ts);
    let p14 = ",\"query_time_ms\":"@;
    let p15 = dec_chars(d.query_time_ms as nat);
    let p16 = "}"@;
    let b = Seq::<char>::empty();
    let r16 = b;
    let r15 = p16 + r16;
    let r14 = p15 + r15;
    let r13 = p14 + r14;
    let r12 = p13 + r13;
    let r11 = p12 + r12;
    let r10 = p11 + r11;
    let r9 = p10 + r10;
    let r8 = p9 + r9;
    let r7 = p8 + r8;
    let r6 = p7 + r7;
    let r5 = p6 + r6;
    let r4 = p5 + r5;
    let r3 = p4 + r4;
    let r2 = p3 + r3;
    let r1 = p2 + r2;
    let r0 = p1 + r1;
    let a0 = Seq::<char>::empty();
    assert(s =~= (a0 + p0) + r0);
    lemma_p_lit_at(a0, p0, r0);
    let a1 = a0 + p0;
    lemma_assoc3(a1, p1, r1);
    lemma_p_string_at(a1, d.domain, r1);
    let a2 = a1 + p1;
    lemma_assoc3(a2, p2, r2);
    lemma_p_lit_at(a2, p2, r2);
    let a3 = a2 + p2;
    lemma_assoc3(a3, p3, r3);
    lemma_p_string_at(a3, crate::record_types::type_name_chars(d.record_type), r3);
    lemma_rt_name_round_trip(d.record_type);
    let a4 = a3 + p3;
    lemma_assoc3(a4, p4, r4);
    lemma_p_lit_at(a4, p4, r4);
    let a5 = a4 + p4;
    lemma_assoc3(a5, p5, r5);
    lemma_parse_value_at(a5, d.value, r5);
    let a6 = a5 + p5;
    lemma_assoc3(a6, p6, r6);
    lemma_p_lit_at(a6, p6, r6);
    let a7 = a6 + p6;
    lemma_assoc3(a7, p7, r7);
    assert(r7.len() >= 1 && !is_digit_char(r7[0])) by {
        reveal_strlit(",\"response_code\":");
        assert(r7[0] == p8[0]);
    }
    lemma_p_u64_at(a7, d.ttl as u64, r7);
    assert(dec_chars((d.ttl as u64) as nat) == dec_chars(d.ttl as nat));
    let a8 = a7 + p7;
    lemma_assoc3(a8, p8, r8);
    lemma_p_lit_at(a8, p8, r8);
    let a9 = a8 + p8;
    lemma_assoc3(a9, p9, r9);
    lemma_p_string_at(a9, json_rcode_chars(d.response_code), r9);
    lemma_rc_name_round_trip(d.response_code);
    let a10 = a9 + p9;
    lemma_assoc3(a10, p10, r10);
    lemma_p_lit_at(a10, p10, r10);
    let a11 = a10 + p10;
    lemma_assoc3(a11, p11, r11);
    lemma_p_string_at(a11, d.resolver, r11);
    let a12 = a11 + p11;
    lemma_assoc3(a12, p12, r12);
    lemma_p_lit_at(a12, p12, r12);
    let a13 = a12 + p12;
    lemma_assoc3(a13, p13, r13);
    lemma_p_string_at(a13, ts, r13);
    let a14 = a13 + p13;
    lemma_assoc3(a14, p14, r14);
    lemma_p_lit_at(a14, p14, r14);
    let a15 = a14 + p14;
    lemma_assoc3(a15, p15, r15);
    assert(r15.len() >= 1 && !is_digit_char(r15[0])) by {
        reveal_strlit("}");
        assert(r15[0] == p16[0]);
    }
    lemma_p_u64_at(a15, d.query_time_ms, r15);
    let a16 = a15 + p15;
    lemma_assoc3(a16, p16, r16);
    lemma_p_lit_at(a16, p16, r16);
    assert((a16 + p16).len() == s.len());
}

} // verus!
