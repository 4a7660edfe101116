//! The query engine's compute core: decoding raw resource data into the
//! record model and assembling the records of one reply.
//!
//! The wire-format parsing of individual resource-record types is decoding
//! glue outside the library; callers hand in the decoded plain payloads and
//! this module builds well-formed records from them, including the synthetic
//! record for an empty successful answer.

use vstd::prelude::*;
use crate::dns_records::{DnsRecord, record_wf, value_matches_type};
use crate::ip::IpAddress;
use crate::record_types::RecordType;
use crate::record_values::{RecordValue, value_text};
use crate::response_codes::ResponseCode;

verus! {

/// The plain payload of one resource record, as the wire decoders hand it
/// over.
pub enum RawRData {
    /// An A or AAAA payload.
    Ip(IpAddress),
    /// A CNAME payload.
    Cname(String),
    /// An NS payload.
    Ns(String),
    /// A PTR payload.
    Ptr(String),
    /// An MX payload: preference and exchange.
    Mx(u16, String),
    /// A TXT payload, its strings joined.
    Txt(String),
    /// An SRV payload: priority, weight, port, target.
    Srv(u16, u16, u16, String),
    /// An SOA payload.
    Soa { mname: String, rname: String, serial: u32, refresh: i32, retry: i32, expire: i32, minimum: u32 },
    /// Anything else, pretty printed by the decoder.
    Other(String),
}

/// The value a raw payload denotes, before the type check.
pub open spec fn candidate_value(raw: RawRData) -> RecordValue {
    match raw {
        RawRData::Ip(ip) => RecordValue::Ip(ip),
        RawRData::Cname(d) => RecordValue::Domain(d),
        RawRData::Ns(d) => RecordValue::Domain(d),
        RawRData::Ptr(d) => RecordValue::Domain(d),
        RawRData::Mx(priority, exchange) => RecordValue::Mx { priority, exchange },
        RawRData::Txt(t) => RecordValue::Text(t),
        RawRData::Srv(priority, weight, port, target) => RecordValue::Srv {
            priority,
            weight,
            port,
            target,
        },
        RawRData::Soa { mname, rname, serial, refresh, retry, expire, minimum } => RecordValue::Soa {
            mname,
            rname,
            serial,
            refresh,
            retry,
            expire,
            minimum,
        },
        RawRData::Other(o) => RecordValue::Other(o),
    }
}

/// Decodes one raw payload under the queried type.
///
/// When the payload's tag agrees with the type the candidate value is
/// returned as is; otherwise the candidate's display text is returned as an
/// `Other` value — mismatched payloads are mapped explicitly, never
/// silently substituted. The result always agrees with the queried type.
pub fn decode_rdata(raw: RawRData, rt: RecordType) -> (v: RecordValue)
    ensures
        value_matches_type(rt, v),
        value_matches_type(rt, candidate_value(raw)) ==> v == candidate_value(raw),
        !value_matches_type(rt, candidate_value(raw)) ==> (v matches RecordValue::Other(o) && o@
            == value_text(candidate_value(raw))),
{
    let candidate = match raw {
        RawRData::Ip(ip) => RecordValue::Ip(ip),
        RawRData::Cname(d) => RecordValue::Domain(d),
        RawRData::Ns(d) => RecordValue::Domain(d),
        RawRData::Ptr(d) => RecordValue::Domain(d),
        RawRData::Mx(priority, exchange) => RecordValue::Mx { priority, exchange },
        RawRData::Txt(t) => RecordValue::Text(t),
        RawRData::Srv(priority, weight, port, target) => RecordValue::Srv {
            priority,
            weight,
            port,
            target,
        },
        RawRData::Soa { mname, rname, serial, refresh, retry, expire, minimum } => {
            RecordValue::Soa { mname, rname, serial, refresh, retry, expire, minimum }
        },
        RawRData::Other(o) => RecordValue::Other(o),
    };
    let matches_type = match (&candidate, rt) {
        (RecordValue::Other(_), _) => true,
        (RecordValue::Domain(_), _) => true,
        (RecordValue::Ip(_), RecordType::A) => true,
        (RecordValue::Ip(_), RecordType::Aaaa) => true,
        (RecordValue::Text(_), RecordType::Txt) => true,
        (RecordValue::Mx { .. }, RecordType::Mx) => true,
        (RecordValue::Srv { .. }, RecordType::Srv) => true,
        (RecordValue::Soa { .. }, RecordType::Soa) => true,
        _ => false,
    };
    if matches_type {
        candidate
    } else {
        RecordValue::Other(candidate.to_string())
    }
}

/// Builds the records of one reply: one record per decoded resource, all
/// stamped with the queried domain, the response code, the answering
/// resolver, the elapsed query time and the completion timestamp.
///
/// An empty answer section with response code `NoError` yields exactly one
/// synthetic record with value `Other("no records")` and TTL zero, so
/// that every successful query produces at least one record downstream.
pub fn build_records(
    domain: &str,
    rt: RecordType,
    rcode: ResponseCode,
    resolver: &str,
    answers: Vec<(RawRData, u32)>,
    query_time_ms: u64,
    timestamp_ms: u64,
) -> (r: Vec<DnsRecord>)
    ensures
        answers@.len() == 0 && rcode == ResponseCode::NoError ==> r@.len() == 1 && (r@[0].value
            matches RecordValue::Other(o) && o@ == "no records"@) && r@[0].ttl == 0,
        answers@.len() > 0 || rcode != ResponseCode::NoError ==> r@.len() == answers@.len(),
        forall|i: int|
            0 <= i < r@.len() ==> {
                &&& (#[trigger] r@[i]).domain@ == domain@
                &&& r@[i].record_type == rt
                &&& r@[i].response_code == rcode
                &&& r@[i].resolver@ == resolver@
                &&& r@[i].query_time_ms == query_time_ms
                &&& r@[i].timestamp_ms == timestamp_ms
                &&& record_wf(r@[i])
            },
        forall|i: int|
            0 <= i < answers@.len() && i < r@.len() ==> (#[trigger] r@[i]).ttl == answers@[i].1 && (
            value_matches_type(rt, candidate_value(answers@[i].0)) ==> r@[i].value
                == candidate_value(answers@[i].0)),
{
    let mut out: Vec<DnsRecord> = Vec::new();
    let ghost answers_view = answers@;
    let mut rest = answers;
    let n_answers = rest.len();
    let mut i: usize = 0;
    proof {
        assert(answers_view.skip(0) =~= answers_view);
    }
    while rest.len() > 0
        invariant
            answers_view.len() == n_answers,
            rest@ == answers_view.skip(i as int),
            i <= answers_view.len(),
            out@.len() == i,
            forall|j: int|
                0 <= j < i ==> {
                    &&& (#[trigger] out@[j]).domain@ == domain@
                    &&& out@[j].record_type == rt
                    &&& out@[j].response_code == rcode
                    &&& out@[j].resolver@ == resolver@
                    &&& out@[j].query_time_ms == query_time_ms
                    &&& out@[j].timestamp_ms == timestamp_ms
                    &&& record_wf(out@[j])
                    &&& out@[j].ttl == answers_view[j].1
                    &&& (value_matches_type(rt, candidate_value(answers_view[j].0)) ==> out@[j].value
                        == candidate_value(answers_view[j].0))
                },
        decreases rest@.len(),
    {
        let ghost pre = rest@;
        let (raw, ttl) = rest.remove(0);
        proof {
            assert(rest@ =~= pre.skip(1));
            assert(pre.skip(1) =~= answers_view.skip(i as int + 1));
            assert(pre[0] == answers_view[i as int]);
        }
        let value = decode_rdata(raw, rt);
        let rec = DnsRecord::new(
            String::from_str(domain),
            rt,
            value,
            ttl,
            rcode,
            String::from_str(resolver),
            query_time_ms,
            timestamp_ms,
        );
        out.push(rec);
        i = i + 1;
    }
    if out.len() == 0 && matches!(rcode, ResponseCode::NoError) {
        let rec = DnsRecord::new(
            String::from_str(domain),
            rt,
            RecordValue::Other(String::from_str("no records")),
            0,
            rcode,
            String::from_str(resolver),
            query_time_ms,
            timestamp_ms,
        );
        out.push(rec);
    }
    out
}

} // verus!
