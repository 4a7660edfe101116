use rdnsx_core::codec::{decode_record, encode_record};
use rdnsx_core::dns_records::DnsRecord;
use rdnsx_core::ip::IpAddress;
use rdnsx_core::record_types::RecordType;
use rdnsx_core::record_values::RecordValue;
use rdnsx_core::response_codes::ResponseCode;
use rdnsx_core::time::rfc3339_string;
use rdnsx_core::output::{format_record, OutputFormat};

fn record_with(rt: RecordType, value: RecordValue) -> DnsRecord {
    DnsRecord::new(
        "example.com".to_string(),
        rt,
        value,
        300,
        ResponseCode::NoError,
        "8.8.8.8:53".to_string(),
        42,
        1_700_000_000_123,
    )
}

fn assert_round_trip(rec: DnsRecord) {
    let text = encode_record(&rec);
    let back = decode_record(&text).expect("decoding the encoder's output");
    assert_eq!(back, rec);
}

#[test]
fn test_json_round_trip_all_variants() {
    assert_round_trip(record_with(RecordType::A, RecordValue::Ip(IpAddress::V4(203, 0, 113, 5))));
    assert_round_trip(record_with(
        RecordType::Aaaa,
        RecordValue::Ip(IpAddress::V6(0x2001, 0xdb8, 0, 0, 0, 0, 0, 1)),
    ));
    assert_round_trip(record_with(
        RecordType::Cname,
        RecordValue::Domain("alias.example.com".to_string()),
    ));
    assert_round_trip(record_with(RecordType::Txt, RecordValue::Text("v=spf1 -all".to_string())));
    assert_round_trip(record_with(
        RecordType::Mx,
        RecordValue::Mx { priority: 10, exchange: "mail.example.com".to_string() },
    ));
    assert_round_trip(record_with(
        RecordType::Srv,
        RecordValue::Srv { priority: 1, weight: 5, port: 443, target: "svc.example.com".to_string() },
    ));
    assert_round_trip(record_with(
        RecordType::Soa,
        RecordValue::Soa {
            mname: "ns1.example.com".to_string(),
            rname: "hostmaster.example.com".to_string(),
            serial: 2024010101,
            refresh: 7200,
            retry: -600,
            expire: 1209600,
            minimum: 3600,
        },
    ));
    assert_round_trip(record_with(
        RecordType::Caa,
        RecordValue::Caa { flags: 0, tag: "issue".to_string(), value: "ca.example".to_string() },
    ));
    assert_round_trip(record_with(
        RecordType::Cert,
        RecordValue::Cert { cert_type: 1, key_tag: 2, algorithm: 3, certificate: vec![1, 2, 255] },
    ));
    assert_round_trip(record_with(
        RecordType::Dnskey,
        RecordValue::Dnskey { flags: 256, protocol: 3, algorithm: 8, public_key: vec![0, 16, 32] },
    ));
    assert_round_trip(record_with(
        RecordType::Ds,
        RecordValue::Ds { key_tag: 12345, algorithm: 8, digest_type: 2, digest: vec![9, 8, 7] },
    ));
    assert_round_trip(record_with(
        RecordType::Hinfo,
        RecordValue::Hinfo { cpu: "arm".to_string(), os: "unix".to_string() },
    ));
    assert_round_trip(record_with(
        RecordType::Https,
        RecordValue::Https {
            priority: 1,
            target: ".".to_string(),
            params: vec!["alpn=h2".to_string(), "ipv4hint=192.0.2.1".to_string()],
        },
    ));
    assert_round_trip(record_with(
        RecordType::Key,
        RecordValue::Key { flags: 0, protocol: 3, algorithm: 5, public_key: vec![] },
    ));
    assert_round_trip(record_with(
        RecordType::Loc,
        RecordValue::Loc {
            version: 0,
            size: 18,
            horiz_pre: 22,
            vert_pre: 19,
            latitude: 2147483648,
            longitude: 2147483648,
            altitude: 9999900,
        },
    ));
    assert_round_trip(record_with(
        RecordType::Naptr,
        RecordValue::Naptr {
            order: 100,
            preference: 50,
            flags: "s".to_string(),
            services: "SIP+D2T".to_string(),
            regexp: "".to_string(),
            replacement: "_sip._tcp.example.com".to_string(),
        },
    ));
    assert_round_trip(record_with(
        RecordType::Sshfp,
        RecordValue::Sshfp { algorithm: 4, fingerprint_type: 2, fingerprint: vec![0xde, 0xad] },
    ));
    assert_round_trip(record_with(
        RecordType::Svcb,
        RecordValue::Svcb { priority: 0, target: "pool.example.com".to_string(), params: vec![] },
    ));
    assert_round_trip(record_with(
        RecordType::Tlsa,
        RecordValue::Tlsa { cert_usage: 3, selector: 1, matching_type: 1, cert_data: vec![0xab] },
    ));
    assert_round_trip(record_with(
        RecordType::Uri,
        RecordValue::Uri { priority: 10, weight: 1, target: "https://example.com/".to_string() },
    ));
    assert_round_trip(record_with(RecordType::Nsec, RecordValue::Other("next.example.com".to_string())));
}

#[test]
fn test_json_round_trip_escapes() {
    // quotes, backslashes and control characters in the text survive
    assert_round_trip(record_with(
        RecordType::Txt,
        RecordValue::Text("he said \"hi\\there\"\nnew\tline\u{1}".to_string()),
    ));
}

#[test]
fn test_json_is_plain_json() {
    // the encoder's output is ordinary JSON with the documented fields
    let rec = record_with(RecordType::A, RecordValue::Ip(IpAddress::V4(203, 0, 113, 5)));
    let text = encode_record(&rec);
    let v: serde_json::Value = serde_json::from_str(&text).expect("valid JSON");
    assert_eq!(v["domain"], "example.com");
    assert_eq!(v["record_type"], "A");
    assert_eq!(v["ttl"], 300);
    assert_eq!(v["response_code"], "NOERROR");
    assert_eq!(v["resolver"], "8.8.8.8:53");
    assert_eq!(v["query_time_ms"], 42);
    assert_eq!(v["value"]["ip"], "203.0.113.5");
    assert_eq!(v["timestamp"], "2023-11-14T22:13:20.123Z");
}

#[test]
fn test_rfc3339() {
    assert_eq!(rfc3339_string(0), "1970-01-01T00:00:00.000Z");
    assert_eq!(rfc3339_string(1_700_000_000_123), "2023-11-14T22:13:20.123Z");
    // a leap day
    assert_eq!(rfc3339_string(1_582_934_400_000), "2020-02-29T00:00:00.000Z");
}

#[test]
fn test_decode_rejects_malformed() {
    assert!(decode_record("").is_none());
    assert!(decode_record("{}").is_none());
    assert!(decode_record("{\"domain\":\"x\"}").is_none());
    // trailing bytes are rejected
    let rec = record_with(RecordType::A, RecordValue::Ip(IpAddress::V4(1, 2, 3, 4)));
    let mut text = encode_record(&rec);
    text.push(' ');
    assert!(decode_record(&text).is_none());
}

#[test]
fn test_format_record() {
    let rec = record_with(RecordType::A, RecordValue::Ip(IpAddress::V4(203, 0, 113, 5)));
    assert_eq!(format_record(&rec, &OutputFormat::Plain), "example.com [203.0.113.5]");
    assert_eq!(format_record(&rec, &OutputFormat::ResponseOnly), "203.0.113.5");
    let json = format_record(&rec, &OutputFormat::Json);
    assert!(decode_record(&json).is_some());
}

#[test]
fn test_bulk_body_line() {
    let rec = record_with(RecordType::A, RecordValue::Ip(IpAddress::V4(203, 0, 113, 5)));
    let line = rdnsx_core::export::bulk_body_line("dnsx-records", &rec);
    let mut parts = line.split('\n');
    let action: serde_json::Value = serde_json::from_str(parts.next().unwrap()).unwrap();
    assert_eq!(action["index"]["_index"], "dnsx-records");
    // the document carries the document-store field schema
    let doc: serde_json::Value = serde_json::from_str(parts.next().unwrap()).unwrap();
    assert_eq!(doc["@timestamp"], "2023-11-14T22:13:20.123Z");
    assert_eq!(doc["domain"], "example.com");
    assert_eq!(doc["record_type"], "A");
    assert_eq!(doc["value"], "203.0.113.5");
    assert_eq!(doc["resolver"], "8.8.8.8:53");
    assert_eq!(doc["ttl"], 300);
    assert_eq!(doc["response_code"], "NOERROR");
    assert_eq!(doc["query_time_ms"], 42);
}

#[test]
fn test_es_index_mapping() {
    let mapping: serde_json::Value =
        serde_json::from_str(&rdnsx_core::export::es_index_mapping()).unwrap();
    let props = &mapping["mappings"]["properties"];
    assert_eq!(props["@timestamp"]["type"], "date");
    assert_eq!(props["domain"]["type"], "keyword");
    assert_eq!(props["value"]["type"], "text");
    assert_eq!(props["query_time_ms"]["type"], "integer");
}

#[test]
fn test_sink_statements() {
    assert_eq!(
        rdnsx_core::export::insert_cql("dnsx", "records"),
        "INSERT INTO dnsx.records (domain, record_type, value, ttl, response_code, resolver, timestamp, query_time_ms) VALUES (?, ?, ?, ?, ?, ?, ?, ?)"
    );
    assert_eq!(
        rdnsx_core::export::create_keyspace_cql("dnsx"),
        "CREATE KEYSPACE IF NOT EXISTS dnsx WITH REPLICATION = {'class': 'SimpleStrategy', 'replication_factor': 1}"
    );
    let table = rdnsx_core::export::create_table_cql("dnsx", "records");
    assert!(table.starts_with("CREATE TABLE IF NOT EXISTS dnsx.records "));
    assert!(table.contains("PRIMARY KEY ((domain, record_type), timestamp)"));
    assert!(table.ends_with("CLUSTERING ORDER BY (timestamp DESC)"));
}

#[test]
fn test_display_text() {
    let rec = record_with(RecordType::Mx, RecordValue::Mx {
        priority: 10,
        exchange: "mail.example.com".to_string(),
    });
    assert_eq!(rec.display_text(), "example.com [10 mail.example.com]");
}
