//! DNS record values: the tagged union over per-type payloads.

use vstd::prelude::*;
use crate::ip::IpAddress;
use crate::text::{dec_chars, push_all, string_from_chars, u64_to_dec};

verus! {

/// A decoded DNS record value.
#[derive(Debug, Clone, PartialEq, Eq, Hash)]
pub enum RecordValue {
    /// IP address (A or AAAA)
    Ip(IpAddress),
    /// Domain name (CNAME, NS, PTR, DNAME)
    Domain(String),
    /// Text value (TXT)
    Text(String),
    /// MX record with priority
    Mx { priority: u16, exchange: String },
    /// SRV record
    Srv { priority: u16, weight: u16, port: u16, target: String },
    /// SOA record
    Soa {
        mname: String,
        rname: String,
        serial: u32,
        refresh: i32,
        retry: i32,
        expire: i32,
        minimum: u32,
    },
    /// CAA record (Certification Authority Authorization)
    Caa { flags: u8, tag: String, value: String },
    /// CERT record
    Cert { cert_type: u16, key_tag: u16, algorithm: u8, certificate: Vec<u8> },
    /// DNSKEY record (DNSSEC)
    Dnskey { flags: u16, protocol: u8, algorithm: u8, public_key: Vec<u8> },
    /// DS record (DNSSEC)
    Ds { key_tag: u16, algorithm: u8, digest_type: u8, digest: Vec<u8> },
    /// HINFO record
    Hinfo { cpu: String, os: String },
    /// HTTPS record (similar to SVCB)
    Https { priority: u16, target: String, params: Vec<String> },
    /// KEY record
    Key { flags: u16, protocol: u8, algorithm: u8, public_key: Vec<u8> },
    /// LOC record (location)
    Loc {
        version: u8,
        size: u8,
        horiz_pre: u8,
        vert_pre: u8,
        latitude: u32,
        longitude: u32,
        altitude: u32,
    },
    /// NAPTR record
    Naptr {
        order: u16,
        preference: u16,
        flags: String,
        services: String,
        regexp: String,
        replacement: String,
    },
    /// SSHFP record
    Sshfp { algorithm: u8, fingerprint_type: u8, fingerprint: Vec<u8> },
    /// SVCB record (service binding)
    Svcb { priority: u16, target: String, params: Vec<String> },
    /// TLSA record
    Tlsa { cert_usage: u8, selector: u8, matching_type: u8, cert_data: Vec<u8> },
    /// URI record
    Uri { priority: u16, weight: u16, target: String },
    /// Generic record value
    Other(String),
}

/// Space-joined concatenation of text pieces.
pub open spec fn join_space(ps: Seq<Seq<char>>) -> Seq<char>
    decreases ps.len(),
{
    if ps.len() == 0 {
        Seq::empty()
    } else if ps.len() == 1 {
        ps[0]
    } else {
        ps[0] + seq![' '] + join_space(ps.skip(1))
    }
}

/// The display text of a record value: the fields that the plain output
/// format shows, space separated.
pub open spec fn value_text(v: RecordValue) -> Seq<char> {
    match v {
        RecordValue::Ip(ip) => crate::ip::ip_chars(ip),
        RecordValue::Domain(d) => d@,
        RecordValue::Text(t) => t@,
        RecordValue::Mx { priority, exchange } => dec_chars(priority as nat) + seq![' ']
            + exchange@,
        RecordValue::Srv { priority, weight, port, target } => dec_chars(priority as nat)
            + seq![' '] + dec_chars(weight as nat) + seq![' '] + dec_chars(port as nat)
            + seq![' '] + target@,
        RecordValue::Soa { .. } => "SOA"@,
        RecordValue::Caa { flags, tag, value } => dec_chars(flags as nat) + seq![' '] + tag@
            + seq![' '] + value@,
        RecordValue::Cert { cert_type, key_tag, algorithm, .. } => dec_chars(cert_type as nat)
            + seq![' '] + dec_chars(key_tag as nat) + seq![' '] + dec_chars(algorithm as nat),
        RecordValue::Dnskey { flags, protocol, algorithm, .. } => dec_chars(flags as nat)
            + seq![' '] + dec_chars(protocol as nat) + seq![' '] + dec_chars(algorithm as nat),
        RecordValue::Ds { key_tag, algorithm, digest_type, .. } => dec_chars(key_tag as nat)
            + seq![' '] + dec_chars(algorithm as nat) + seq![' '] + dec_chars(digest_type as nat),
        RecordValue::Hinfo { cpu, os } => cpu@ + seq![' '] + os@,
        RecordValue::Https { priority, target, params } => dec_chars(priority as nat) + seq![' ']
            + target@ + seq![' '] + join_space(params@.map_values(|p: String| p@)),
        RecordValue::Key { flags, protocol, algorithm, .. } => dec_chars(flags as nat) + seq![' ']
            + dec_chars(protocol as nat) + seq![' '] + dec_chars(algorithm as nat),
        RecordValue::Loc { latitude, longitude, altitude, .. } => dec_chars(latitude as nat)
            + seq![' '] + dec_chars(longitude as nat) + seq![' '] + dec_chars(altitude as nat),
        RecordValue::Naptr { order, preference, flags, services, regexp, replacement } => dec_chars(
            order as nat,
        ) + seq![' '] + dec_chars(preference as nat) + seq![' '] + flags@ + seq![' '] + services@
            + seq![' '] + regexp@ + seq![' '] + replacement@,
        RecordValue::Sshfp { algorithm, fingerprint_type, .. } => dec_chars(algorithm as nat)
            + seq![' '] + dec_chars(fingerprint_type as nat),
        RecordValue::Svcb { priority, target, params } => dec_chars(priority as nat) + seq![' ']
            + target@ + seq![' '] + join_space(params@.map_values(|p: String| p@)),
        RecordValue::Tlsa { cert_usage, selector, matching_type, .. } => dec_chars(
            cert_usage as nat,
        ) + seq![' '] + dec_chars(selector as nat) + seq![' '] + dec_chars(matching_type as nat),
        RecordValue::Uri { priority, weight, target } => dec_chars(priority as nat) + seq![' ']
            + dec_chars(weight as nat) + seq![' '] + target@,
        RecordValue::Other(o) => o@,
    }
}

/// Joins text pieces with single spaces.
pub fn join_space_exec(ps: &Vec<String>) -> (r: Vec<char>)
    ensures
        r@ == join_space(ps@.map_values(|p: String| p@)),
    decreases ps@.len(),
{
    let ghost m = ps@.map_values(|p: String| p@);
    if ps.len() == 0 {
        let r: Vec<char> = Vec::new();
        proof {
            assert(r@ =~= join_space(m));
        }
        r
    } else if ps.len() == 1 {
        let r = crate::text::chars_of_str(ps[0].as_str());
        proof {
            assert(m[0] == ps@[0]@);
        }
        r
    } else {
        let mut r = crate::text::chars_of_str(ps[0].as_str());
        r.push(' ');
        let mut rest: Vec<String> = Vec::new();
        let mut i: usize = 1;
        while i < ps.len()
            invariant
                1 <= i <= ps@.len(),
                rest@.len() == i - 1,
                forall|j: int| 0 <= j < i - 1 ==> (#[trigger] rest@[j])@ == ps@[j + 1]@,
            decreases ps@.len() - i,
        {
            rest.push(ps[i].clone());
            i = i + 1;
        }
        let tail = join_space_exec(&rest);
        push_all(&mut r, &tail);
        proof {
            assert(rest@.map_values(|p: String| p@) =~= m.skip(1));
            assert(r@ =~= join_space(m));
        }
        r
    }
}

impl RecordValue {
    /// The display text of the value.
    pub fn to_string(&self) -> (r: String)
        ensures
            r@ == value_text(*self),
    {
        let chars = self.to_text_chars();
        string_from_chars(&chars)
    }

    /// The display text of the value, as characters.
    pub fn to_text_chars(&self) -> (r: Vec<char>)
        ensures
            r@ == value_text(*self),
    {
        match self {
            RecordValue::Ip(ip) => {
                let s = ip.to_text();
                crate::text::chars_of_str(s.as_str())
            },
            RecordValue::Domain(d) => crate::text::chars_of_str(d.as_str()),
            RecordValue::Text(t) => crate::text::chars_of_str(t.as_str()),
            RecordValue::Mx { priority, exchange } => {
                let mut r = u64_to_dec(*priority as u64);
                r.push(' ');
                let e = crate::text::chars_of_str(exchange.as_str());
                push_all(&mut r, &e);
                proof {
                    assert(r@ =~= value_text(*self));
                }
                r
            },
            RecordValue::Srv { priority, weight, port, target } => {
                let mut r = u64_to_dec(*priority as u64);
                r.push(' ');
                let w = u64_to_dec(*weight as u64);
                push_all(&mut r, &w);
                r.push(' ');
                let p = u64_to_dec(*port as u64);
                push_all(&mut r, &p);
                r.push(' ');
                let t = crate::text::chars_of_str(target.as_str());
                push_all(&mut r, &t);
                proof {
                    assert(r@ =~= value_text(*self));
                }
                r
            },
            RecordValue::Soa { .. } => {
                let r = crate::text::chars_of_str("SOA");
                r
            },
            RecordValue::Caa { flags, tag, value } => {
                let mut r = u64_to_dec(*flags as u64);
                r.push(' ');
                let t = crate::text::chars_of_str(tag.as_str());
                push_all(&mut r, &t);
                r.push(' ');
                let v = crate::text::chars_of_str(value.as_str());
                push_all(&mut r, &v);
                proof {
                    assert(r@ =~= value_text(*self));
                }
                r
            },
            RecordValue::Cert { cert_type, key_tag, algorithm, .. } => three_numbers(
                *cert_type as u64,
                *key_tag as u64,
                *algorithm as u64,
            ),
            RecordValue::Dnskey { flags, protocol, algorithm, .. } => three_numbers(
                *flags as u64,
                *protocol as u64,
                *algorithm as u64,
            ),
            RecordValue::Ds { key_tag, algorithm, digest_type, .. } => three_numbers(
                *key_tag as u64,
                *algorithm as u64,
                *digest_type as u64,
            ),
            RecordValue::Hinfo { cpu, os } => {
                let mut r = crate::text::chars_of_str(cpu.as_str());
                r.push(' ');
                let o = crate::text::chars_of_str(os.as_str());
                push_all(&mut r, &o);
                proof {
                    assert(r@ =~= value_text(*self));
                }
                r
            },
            RecordValue::Https { priority, target, params } => {
                let mut r = u64_to_dec(*priority as u64);
                r.push(' ');
                let t = crate::text::chars_of_str(target.as_str());
                push_all(&mut r, &t);
                r.push(' ');
                let p = join_space_exec(params);
                push_all(&mut r, &p);
                proof {
                    assert(r@ =~= value_text(*self));
                }
                r
            },
            RecordValue::Key { flags, protocol, algorithm, .. } => three_numbers(
                *flags as u64,
                *protocol as u64,
                *algorithm as u64,
            ),
            RecordValue::Loc { latitude, longitude, altitude, .. } => three_numbers(
                *latitude as u64,
                *longitude as u64,
                *altitude as u64,
            ),
            RecordValue::Naptr { order, preference, flags, services, regexp, replacement } => {
                let mut r = u64_to_dec(*order as u64);
                r.push(' ');
                let p = u64_to_dec(*preference as u64);
                push_all(&mut r, &p);
                r.push(' ');
                let f = crate::text::chars_of_str(flags.as_str());
                push_all(&mut r, &f);
                r.push(' ');
                let sv = crate::text::chars_of_str(services.as_str());
                push_all(&mut r, &sv);
                r.push(' ');
                let rx = crate::text::chars_of_str(regexp.as_str());
                push_all(&mut r, &rx);
                r.push(' ');
                let rp = crate::text::chars_of_str(replacement.as_str());
                push_all(&mut r, &rp);
                proof {
                    assert(r@ =~= value_text(*self));
                }
                r
            },
            RecordValue::Sshfp { algorithm, fingerprint_type, .. } => {
                let mut r = u64_to_dec(*algorithm as u64);
                r.push(' ');
                let f = u64_to_dec(*fingerprint_type as u64);
                push_all(&mut r, &f);
                proof {
                    assert(r@ =~= value_text(*self));
                }
                r
            },
            RecordValue::Svcb { priority, target, params } => {
                let mut r = u64_to_dec(*priority as u64);
                r.push(' ');
                let t = crate::text::chars_of_str(target.as_str());
                push_all(&mut r, &t);
                r.push(' ');
                let p = join_space_exec(params);
                push_all(&mut r, &p);
                proof {
                    assert(r@ =~= value_text(*self));
                }
                r
            },
            RecordValue::Tlsa { cert_usage, selector, matching_type, .. } => three_numbers(
                *cert_usage as u64,
                *selector as u64,
                *matching_type as u64,
            ),
            RecordValue::Uri { priority, weight, target } => {
                let mut r = u64_to_dec(*priority as u64);
                r.push(' ');
                let w = u64_to_dec(*weight as u64);
                push_all(&mut r, &w);
                r.push(' ');
                let t = crate::text::chars_of_str(target.as_str());
                push_all(&mut r, &t);
                proof {
                    assert(r@ =~= value_text(*self));
                }
                r
            },
            RecordValue::Other(o) => crate::text::chars_of_str(o.as_str()),
        }
    }
}

/// Three numbers, space separated.
fn three_numbers(a: u64, b: u64, c: u64) -> (r: Vec<char>)
    ensures
        r@ == dec_chars(a as nat) + seq![' '] + dec_chars(b as nat) + seq![' '] + dec_chars(
            c as nat,
        ),
{
    let mut r = u64_to_dec(a);
    r.push(' ');
    let vb = u64_to_dec(b);
    push_all(&mut r, &vb);
    r.push(' ');
    let vc = u64_to_dec(c);
    push_all(&mut r, &vc);
    proof {
        assert(r@ =~= dec_chars(a as nat) + seq![' '] + dec_chars(b as nat) + seq![' ']
            + dec_chars(c as nat));
    }
    r
}

/// Copy of a byte vector.
pub fn clone_bytes(v: &Vec<u8>) -> (r: Vec<u8>)
    ensures
        r@ == v@,
{
    let mut r: Vec<u8> = Vec::new();
    let mut i: usize = 0;
    while i < v.len()
        invariant
            i <= v@.len(),
            r@ =~= v@.take(i as int),
        decreases v@.len() - i,
    {
        r.push(v[i]);
        i = i + 1;
    }
    proof {
        assert(v@.take(v@.len() as int) =~= v@);
    }
    r
}

/// Copy of a string vector, each element equal as text.
pub fn clone_strings(v: &Vec<String>) -> (r: Vec<String>)
    ensures
        r@.len() == v@.len(),
        forall|i: int| 0 <= i < v@.len() ==> (#[trigger] r@[i])@ == v@[i]@,
{
    let mut r: Vec<String> = Vec::new();
    let mut i: usize = 0;
    while i < v.len()
        invariant
            i <= v@.len(),
            r@.len() == i,
            forall|j: int| 0 <= j < i ==> (#[trigger] r@[j])@ == v@[j]@,
        decreases v@.len() - i,
    {
        r.push(v[i].clone());
        i = i + 1;
    }
    r
}

/// Equality of record values up to text views: the deep content is the same.
pub open spec fn value_eq(a: RecordValue, b: RecordValue) -> bool {
    match (a, b) {
        (RecordValue::Ip(x), RecordValue::Ip(y)) => x == y,
        (RecordValue::Domain(x), RecordValue::Domain(y)) => x@ == y@,
        (RecordValue::Text(x), RecordValue::Text(y)) => x@ == y@,
        (
            RecordValue::Mx { priority: p1, exchange: e1 },
            RecordValue::Mx { priority: p2, exchange: e2 },
        ) => p1 == p2 && e1@ == e2@,
        (
            RecordValue::Srv { priority: p1, weight: w1, port: o1, target: t1 },
            RecordValue::Srv { priority: p2, weight: w2, port: o2, target: t2 },
        ) => p1 == p2 && w1 == w2 && o1 == o2 && t1@ == t2@,
        (
            RecordValue::Soa {
                mname: m1,
                rname: r1,
                serial: s1,
                refresh: f1,
                retry: y1,
                expire: x1,
                minimum: n1,
            },
            RecordValue::Soa {
                mname: m2,
                rname: r2,
                serial: s2,
                refresh: f2,
                retry: y2,
                expire: x2,
                minimum: n2,
            },
        ) => m1@ == m2@ && r1@ == r2@ && s1 == s2 && f1 == f2 && y1 == y2 && x1 == x2 && n1 == n2,
        (
            RecordValue::Caa { flags: f1, tag: t1, value: v1 },
            RecordValue::Caa { flags: f2, tag: t2, value: v2 },
        ) => f1 == f2 && t1@ == t2@ && v1@ == v2@,
        (
            RecordValue::Cert { cert_type: c1, key_tag: k1, algorithm: a1, certificate: e1 },
            RecordValue::Cert { cert_type: c2, key_tag: k2, algorithm: a2, certificate: e2 },
        ) => c1 == c2 && k1 == k2 && a1 == a2 && e1@ == e2@,
        (
            RecordValue::Dnskey { flags: f1, protocol: p1, algorithm: a1, public_key: k1 },
            RecordValue::Dnskey { flags: f2, protocol: p2, algorithm: a2, public_key: k2 },
        ) => f1 == f2 && p1 == p2 && a1 == a2 && k1@ == k2@,
        (
            RecordValue::Ds { key_tag: k1, algorithm: a1, digest_type: d1, digest: g1 },
            RecordValue::Ds { key_tag: k2, algorithm: a2, digest_type: d2, digest: g2 },
        ) => k1 == k2 && a1 == a2 && d1 == d2 && g1@ == g2@,
        (
            RecordValue::Hinfo { cpu: c1, os: o1 },
            RecordValue::Hinfo { cpu: c2, os: o2 },
        ) => c1@ == c2@ && o1@ == o2@,
        (
            RecordValue::Https { priority: p1, target: t1, params: a1 },
            RecordValue::Https { priority: p2, target: t2, params: a2 },
        ) => p1 == p2 && t1@ == t2@ && a1@.map_values(|p: String| p@) == a2@.map_values(
            |p: String| p@,
        ),
        (
            RecordValue::Key { flags: f1, protocol: p1, algorithm: a1, public_key: k1 },
            RecordValue::Key { flags: f2, protocol: p2, algorithm: a2, public_key: k2 },
        ) => f1 == f2 && p1 == p2 && a1 == a2 && k1@ == k2@,
        (
            RecordValue::Loc {
                version: v1,
                size: s1,
                horiz_pre: h1,
                vert_pre: e1,
                latitude: l1,
                longitude: o1,
                altitude: a1,
            },
            RecordValue::Loc {
                version: v2,
                size: s2,
                horiz_pre: h2,
                vert_pre: e2,
                latitude: l2,
                longitude: o2,
                altitude: a2,
            },
        ) => v1 == v2 && s1 == s2 && h1 == h2 && e1 == e2 && l1 == l2 && o1 == o2 && a1 == a2,
        (
            RecordValue::Naptr {
                order: o1,
                preference: p1,
                flags: f1,
                services: s1,
                regexp: r1,
                replacement: e1,
            },
            RecordValue::Naptr {
                order: o2,
                preference: p2,
                flags: f2,
                services: s2,
                regexp: r2,
                replacement: e2,
            },
        ) => o1 == o2 && p1 == p2 && f1@ == f2@ && s1@ == s2@ && r1@ == r2@ && e1@ == e2@,
        (
            RecordValue::Sshfp { algorithm: a1, fingerprint_type: f1, fingerprint: p1 },
            RecordValue::Sshfp { algorithm: a2, fingerprint_type: f2, fingerprint: p2 },
        ) => a1 == a2 && f1 == f2 && p1@ == p2@,
        (
            RecordValue::Svcb { priority: p1, target: t1, params: a1 },
            RecordValue::Svcb { priority: p2, target: t2, params: a2 },
        ) => p1 == p2 && t1@ == t2@ && a1@.map_values(|p: String| p@) == a2@.map_values(
            |p: String| p@,
        ),
        (
            RecordValue::Tlsa { cert_usage: c1, selector: s1, matching_type: m1, cert_data: d1 },
            RecordValue::Tlsa { cert_usage: c2, selector: s2, matching_type: m2, cert_data: d2 },
        ) => c1 == c2 && s1 == s2 && m1 == m2 && d1@ == d2@,
        (
            RecordValue::Uri { priority: p1, weight: w1, target: t1 },
            RecordValue::Uri { priority: p2, weight: w2, target: t2 },
        ) => p1 == p2 && w1 == w2 && t1@ == t2@,
        (RecordValue::Other(x), RecordValue::Other(y)) => x@ == y@,
        _ => false,
    }
}

/// Copy of a record value, equal under `value_eq`.
pub fn clone_value(v: &RecordValue) -> (r: RecordValue)
    ensures
        value_eq(*v, r),
{
    match v {
        RecordValue::Ip(ip) => RecordValue::Ip(*ip),
        RecordValue::Domain(d) => RecordValue::Domain(d.clone()),
        RecordValue::Text(t) => RecordValue::Text(t.clone()),
        RecordValue::Mx { priority, exchange } => RecordValue::Mx {
            priority: *priority,
            exchange: exchange.clone(),
        },
        RecordValue::Srv { priority, weight, port, target } => RecordValue::Srv {
            priority: *priority,
            weight: *weight,
            port: *port,
            target: target.clone(),
        },
        RecordValue::Soa { mname, rname, serial, refresh, retry, expire, minimum } => {
            RecordValue::Soa {
                mname: mname.clone(),
                rname: rname.clone(),
                serial: *serial,
                refresh: *refresh,
                retry: *retry,
                expire: *expire,
                minimum: *minimum,
            }
        },
        RecordValue::Caa { flags, tag, value } => RecordValue::Caa {
            flags: *flags,
            tag: tag.clone(),
            value: value.clone(),
        },
        RecordValue::Cert { cert_type, key_tag, algorithm, certificate } => RecordValue::Cert {
            cert_type: *cert_type,
            key_tag: *key_tag,
            algorithm: *algorithm,
            certificate: clone_bytes(certificate),
        },
        RecordValue::Dnskey { flags, protocol, algorithm, public_key } => RecordValue::Dnskey {
            flags: *flags,
            protocol: *protocol,
            algorithm: *algorithm,
            public_key: clone_bytes(public_key),
        },
        RecordValue::Ds { key_tag, algorithm, digest_type, digest } => RecordValue::Ds {
            key_tag: *key_tag,
            algorithm: *algorithm,
            digest_type: *digest_type,
            digest: clone_bytes(digest),
        },
        RecordValue::Hinfo { cpu, os } => RecordValue::Hinfo {
            cpu: cpu.clone(),
            os: os.clone(),
        },
        RecordValue::Https { priority, target, params } => {
            let ps = clone_strings(params);
            proof {
                assert(ps@.map_values(|p: String| p@) =~= params@.map_values(|p: String| p@));
            }
            RecordValue::Https { priority: *priority, target: target.clone(), params: ps }
        },
        RecordValue::Key { flags, protocol, algorithm, public_key } => RecordValue::Key {
            flags: *flags,
            protocol: *protocol,
            algorithm: *algorithm,
            public_key: clone_bytes(public_key),
        },
        RecordValue::Loc { version, size, horiz_pre, vert_pre, latitude, longitude, altitude } => {
            RecordValue::Loc {
                version: *version,
                size: *size,
                horiz_pre: *horiz_pre,
                vert_pre: *vert_pre,
                latitude: *latitude,
                longitude: *longitude,
                altitude: *altitude,
            }
        },
        RecordValue::Naptr { order, preference, flags, services, regexp, replacement } => {
            RecordValue::Naptr {
                order: *order,
                preference: *preference,
                flags: flags.clone(),
                services: services.clone(),
                regexp: regexp.clone(),
                replacement: replacement.clone(),
            }
        },
        RecordValue::Sshfp { algorithm, fingerprint_type, fingerprint } => RecordValue::Sshfp {
            algorithm: *algorithm,
            fingerprint_type: *fingerprint_type,
            fingerprint: clone_bytes(fingerprint),
        },
        RecordValue::Svcb { priority, target, params } => {
            let ps = clone_strings(params);
            proof {
                assert(ps@.map_values(|p: String| p@) =~= params@.map_values(|p: String| p@));
            }
            RecordValue::Svcb { priority: *priority, target: target.clone(), params: ps }
        },
        RecordValue::Tlsa { cert_usage, selector, matching_type, cert_data } => RecordValue::Tlsa {
            cert_usage: *cert_usage,
            selector: *selector,
            matching_type: *matching_type,
            cert_data: clone_bytes(cert_data),
        },
        RecordValue::Uri { priority, weight, target } => RecordValue::Uri {
            priority: *priority,
            weight: *weight,
            target: target.clone(),
        },
        RecordValue::Other(o) => RecordValue::Other(o.clone()),
    }
}

} // verus!
