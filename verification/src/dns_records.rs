//! The uniform DNS record: one decoded resource with its metadata.

use vstd::prelude::*;
use crate::record_types::RecordType;
use crate::response_codes::ResponseCode;
use crate::record_values::{RecordValue, value_eq, clone_value};

verus! {

/// Whether a value's tag agrees with the queried record type.
///
/// Every type admits its namesake payload; `Other` covers partially decoded
/// data and the synthetic empty-answer record; `Domain` covers alias-chain
/// entries, which any answer section may carry.
pub open spec fn value_matches_type(rt: RecordType, v: RecordValue) -> bool {
    ||| v is Other
    ||| v is Domain
    ||| match rt {
        RecordType::A => v is Ip,
        RecordType::Aaaa => v is Ip,
        RecordType::Txt => v is Text,
        RecordType::Mx => v is Mx,
        RecordType::Srv => v is Srv,
        RecordType::Soa => v is Soa,
        RecordType::Caa => v is Caa,
        RecordType::Cert => v is Cert,
        RecordType::Dnskey => v is Dnskey,
        RecordType::Ds => v is Ds,
        RecordType::Hinfo => v is Hinfo,
        RecordType::Https => v is Https,
        RecordType::Key => v is Key,
        RecordType::Loc => v is Loc,
        RecordType::Naptr => v is Naptr,
        RecordType::Sshfp => v is Sshfp,
        RecordType::Svcb => v is Svcb,
        RecordType::Tlsa => v is Tlsa,
        RecordType::Uri => v is Uri,
        _ => false,
    }
}

/// One resolved DNS record.
///
/// Timestamps are wall-clock milliseconds since the Unix epoch; the query
/// time is the real elapsed time of the query in milliseconds.
#[derive(Debug, Clone, PartialEq)]
pub struct DnsRecord {
    /// Domain name queried
    pub domain: String,
    /// Record type
    pub record_type: RecordType,
    /// Record value
    pub value: RecordValue,
    /// Time to live, seconds
    pub ttl: u32,
    /// Response code
    pub response_code: ResponseCode,
    /// Resolver that answered, as `ip:port` text
    pub resolver: String,
    /// Wall clock at completion, milliseconds since the Unix epoch
    pub timestamp_ms: u64,
    /// Real elapsed query time, milliseconds
    pub query_time_ms: u64,
}

/// A record is well formed when its value tag agrees with its type.
pub open spec fn record_wf(r: DnsRecord) -> bool {
    value_matches_type(r.record_type, r.value)
}

/// Equality of records up to text views.
pub open spec fn record_eq(a: DnsRecord, b: DnsRecord) -> bool {
    &&& a.domain@ == b.domain@
    &&& a.record_type == b.record_type
    &&& value_eq(a.value, b.value)
    &&& a.ttl == b.ttl
    &&& a.response_code == b.response_code
    &&& a.resolver@ == b.resolver@
    &&& a.timestamp_ms == b.timestamp_ms
    &&& a.query_time_ms == b.query_time_ms
}

/// Elementwise equality of record sequences.
pub open spec fn records_eq(a: Seq<DnsRecord>, b: Seq<DnsRecord>) -> bool {
    a.len() == b.len() && forall|i: int| 0 <= i < a.len() ==> record_eq(#[trigger] a[i], b[i])
}

impl DnsRecord {
    /// A new record from its parts.
    ///
    /// The caller supplies the wall-clock timestamp; the value tag must
    /// agree with the record type.
    pub fn new(
        domain: String,
        record_type: RecordType,
        value: RecordValue,
        ttl: u32,
        response_code: ResponseCode,
        resolver: String,
        query_time_ms: u64,
        timestamp_ms: u64,
    ) -> (r: DnsRecord)
        requires
            value_matches_type(record_type, value),
        ensures
            r == (DnsRecord {
                domain,
                record_type,
                value,
                ttl,
                response_code,
                resolver,
                timestamp_ms,
                query_time_ms,
            }),
            record_wf(r),
    {
        DnsRecord { domain, record_type, value, ttl, response_code, resolver, timestamp_ms, query_time_ms }
    }

    /// The plain output line body: `<domain> [<value>]`.
    pub fn display_text(&self) -> (r: String)
        ensures
            r@ == self.domain@ + " ["@ + crate::record_values::value_text(self.value) + "]"@,
    {
        let mut v = crate::text::chars_of_str(self.domain.as_str());
        v.push(' ');
        v.push('[');
        let t = self.value.to_text_chars();
        crate::text::push_all(&mut v, &t);
        v.push(']');
        proof {
            reveal_strlit(" [");
            reveal_strlit("]");
            assert(v@ =~= self.domain@ + " ["@ + crate::record_values::value_text(self.value)
                + "]"@);
        }
        crate::text::string_from_chars(&v)
    }
}

/// Copy of a record, equal under `record_eq`, well-formedness kept.
pub fn clone_record(r: &DnsRecord) -> (c: DnsRecord)
    ensures
        record_eq(*r, c),
        record_wf(*r) ==> record_wf(c),
{
    DnsRecord {
        domain: r.domain.clone(),
        record_type: r.record_type,
        value: clone_value(&r.value),
        ttl: r.ttl,
        response_code: r.response_code,
        resolver: r.resolver.clone(),
        timestamp_ms: r.timestamp_ms,
        query_time_ms: r.query_time_ms,
    }
}

/// Copy of a record list, elementwise equal.
pub fn clone_records(rs: &Vec<DnsRecord>) -> (c: Vec<DnsRecord>)
    ensures
        records_eq(rs@, c@),
        (forall|i: int| 0 <= i < rs@.len() ==> record_wf(#[trigger] rs@[i])) ==> (forall|i: int|
            0 <= i < c@.len() ==> record_wf(#[trigger] c@[i])),
{
    let mut c: Vec<DnsRecord> = Vec::new();
    let mut i: usize = 0;
    while i < rs.len()
        invariant
            i <= rs@.len(),
            c@.len() == i,
            forall|j: int| 0 <= j < i ==> record_eq(rs@[j], #[trigger] c@[j]),
            forall|j: int| 0 <= j < i ==> (record_wf(rs@[j]) ==> record_wf(#[trigger] c@[j])),
        decreases rs@.len() - i,
    {
        let rec = clone_record(&rs[i]);
        c.push(rec);
        i = i + 1;
    }
    c
}

/// The smallest TTL among the records, in seconds; `None` when there are no
/// records.
pub fn min_ttl(records: &Vec<DnsRecord>) -> (r: Option<u32>)
    ensures
        match r {
            None => records@.len() == 0,
            Some(m) => records@.len() > 0 && (exists|i: int|
                0 <= i < records@.len() && (#[trigger] records@[i]).ttl == m) && (forall|i: int|
                0 <= i < records@.len() ==> m <= (#[trigger] records@[i]).ttl),
        },
{
    if records.len() == 0 {
        return None;
    }
    let mut m = records[0].ttl;
    let mut i: usize = 1;
    while i < records.len()
        invariant
            1 <= i <= records@.len(),
            exists|j: int| 0 <= j < i && (#[trigger] records@[j]).ttl == m,
            forall|j: int| 0 <= j < i ==> m <= (#[trigger] records@[j]).ttl,
        decreases records@.len() - i,
    {
        if records[i].ttl < m {
            m = records[i].ttl;
        }
        i = i + 1;
    }
    Some(m)
}

} // verus!
