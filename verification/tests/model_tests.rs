use rdnsx_core::cache::CacheKey;
use rdnsx_core::dns_records::DnsRecord;
use rdnsx_core::ip::{parse_ip, IpAddress};
use rdnsx_core::record_types::RecordType;
use rdnsx_core::record_values::RecordValue;
use rdnsx_core::response_codes::ResponseCode;
use rdnsx_core::utils::{is_valid_domain, parse_resolver};
use rdnsx_core::ip::is_valid_ip;
use rdnsx_core::error::DnsxError;

#[test]
fn test_record_type_display() {
    assert_eq!(RecordType::A.to_string(), "A");
    assert_eq!(RecordType::Aaaa.to_string(), "AAAA");
    assert_eq!(RecordType::Caa.to_string(), "CAA");
    assert_eq!(RecordType::Mx.to_string(), "MX");
    assert_eq!(RecordType::Txt.to_string(), "TXT");
}

#[test]
fn test_response_code_display() {
    assert_eq!(ResponseCode::NoError.to_string(), "NOERROR");
    assert_eq!(ResponseCode::NxDomain.to_string(), "NXDOMAIN");
    assert_eq!(ResponseCode::ServFail.to_string(), "SERVFAIL");
}

#[test]
fn test_cache_key() {
    let key1 = CacheKey::new("example.com", RecordType::A);
    let key2 = CacheKey::new("example.com", RecordType::A);
    let key3 = CacheKey::new("example.com", RecordType::Aaaa);

    assert_eq!(key1, key2);
    assert_ne!(key1, key3);
}

#[test]
fn test_cache_key_normalizes() {
    let key1 = CacheKey::new("Example.COM.", RecordType::A);
    let key2 = CacheKey::new("example.com", RecordType::A);
    assert_eq!(key1, key2);
}

#[test]
fn test_parse_resolver() {
    assert_eq!(parse_resolver("8.8.8.8").unwrap(), "8.8.8.8:53");
    assert_eq!(parse_resolver("8.8.8.8:53").unwrap(), "8.8.8.8:53");
    assert_eq!(parse_resolver("8.8.8.8:5353").unwrap(), "8.8.8.8:5353");
    assert!(parse_resolver("invalid").is_err());
    assert!(parse_resolver("8.8.8.8:invalid").is_err());
}

#[test]
fn test_is_valid_domain() {
    assert!(is_valid_domain("example.com"));
    assert!(is_valid_domain("sub.example.com"));
    assert!(is_valid_domain("a.b.c.example.com"));
    assert!(!is_valid_domain("invalid"));
    assert!(!is_valid_domain("example"));
    assert!(!is_valid_domain(".example.com"));
    assert!(!is_valid_domain("example..com"));
}

#[test]
fn test_is_valid_ip() {
    assert!(is_valid_ip("8.8.8.8"));
    assert!(is_valid_ip("2001:4860:4860::8888"));
    assert!(!is_valid_ip("invalid"));
    assert!(!is_valid_ip("999.999.999.999"));
}

#[test]
fn test_ip_parse_and_format() {
    let ip = parse_ip("203.0.113.5").unwrap();
    assert_eq!(ip, IpAddress::V4(203, 0, 113, 5));
    assert_eq!(ip.to_text(), "203.0.113.5");

    let v6 = parse_ip("2001:4860:4860::8888").unwrap();
    assert_eq!(v6, IpAddress::V6(0x2001, 0x4860, 0x4860, 0, 0, 0, 0, 0x8888));
    // formatting emits all eight groups; parsing the text yields the address back
    assert_eq!(parse_ip(&v6.to_text()).unwrap(), v6);
}

#[test]
fn test_dns_record_creation() {
    let record = DnsRecord::new(
        "example.com".to_string(),
        RecordType::A,
        RecordValue::Ip(IpAddress::V4(127, 0, 0, 1)),
        300,
        ResponseCode::NoError,
        "8.8.8.8:53".to_string(),
        42,
        1_700_000_000_000,
    );

    assert_eq!(record.domain, "example.com");
    assert_eq!(record.record_type, RecordType::A);
    assert_eq!(record.ttl, 300);
    assert_eq!(record.response_code, ResponseCode::NoError);
    assert_eq!(record.resolver, "8.8.8.8:53");
    assert_eq!(record.query_time_ms, 42);
    assert_eq!(record.timestamp_ms, 1_700_000_000_000);
}

#[test]
fn test_record_value_to_string() {
    let ip_value = RecordValue::Ip(IpAddress::V4(127, 0, 0, 1));
    assert_eq!(ip_value.to_string(), "127.0.0.1");

    let domain_value = RecordValue::Domain("example.com".to_string());
    assert_eq!(domain_value.to_string(), "example.com");

    let text_value = RecordValue::Text("Hello World".to_string());
    assert_eq!(text_value.to_string(), "Hello World");

    let other_value = RecordValue::Other("Custom data".to_string());
    assert_eq!(other_value.to_string(), "Custom data");
}

#[test]
fn test_caa_record_value() {
    let caa_value = RecordValue::Caa {
        flags: 0,
        tag: "issue".to_string(),
        value: "letsencrypt.org".to_string(),
    };
    assert_eq!(caa_value.to_string(), "0 issue letsencrypt.org");
}

#[test]
fn test_parse_asn() {
    assert_eq!(rdnsx_core::input::parse_asn("AS15169").unwrap(), 15169);
    assert_eq!(rdnsx_core::input::parse_asn("as15169").unwrap(), 15169);
    assert_eq!(rdnsx_core::input::parse_asn("15169").unwrap(), 15169);
    assert_eq!(rdnsx_core::input::parse_asn("  AS64512  ").unwrap(), 64512);
    assert!(rdnsx_core::input::parse_asn("ASXYZ").is_err());
    assert!(rdnsx_core::input::parse_asn("").is_err());
    assert!(rdnsx_core::input::parse_asn("99999999999").is_err());
    // leading zeros are accepted; only the value must fit
    assert_eq!(rdnsx_core::input::parse_asn("0000000000042").unwrap(), 42);
}

#[test]
fn test_reverse_ip() {
    let name = rdnsx_core::input::reverse_ip(&IpAddress::V4(192, 0, 2, 9));
    assert_eq!(name, "9.2.0.192.in-addr.arpa");
}

#[test]
fn test_error_messages() {
    assert_eq!(
        DnsxError::resolve("all resolvers failed".to_string()).message(),
        "DNS resolution failed: all resolvers failed"
    );
    assert_eq!(
        DnsxError::timeout(5000).message(),
        "DNS query timed out after 5000ms"
    );
    assert_eq!(
        DnsxError::invalid_input("bad".to_string()).message(),
        "Invalid input: bad"
    );
    assert_eq!(
        DnsxError::validation("no resolvers".to_string()).message(),
        "Validation failed: no resolvers"
    );
}

#[test]
fn test_record_type_parse_name() {
    assert_eq!(RecordType::parse_name("a"), Some(RecordType::A));
    assert_eq!(RecordType::parse_name("DNSKEY"), Some(RecordType::Dnskey));
    assert_eq!(RecordType::parse_name("svcb"), Some(RecordType::Svcb));
    assert_eq!(RecordType::parse_name("bogus"), None);
}

#[test]
fn test_parse_rcodes() {
    assert_eq!(
        rdnsx_core::response_codes::parse_rcodes("noerror, NXDOMAIN ,bogus,servfail"),
        vec![ResponseCode::NoError, ResponseCode::NxDomain, ResponseCode::ServFail]
    );
    assert_eq!(rdnsx_core::response_codes::parse_rcodes(""), Vec::<ResponseCode>::new());
}

#[test]
fn test_parse_word_list() {
    assert_eq!(
        rdnsx_core::input::parse_word_list(" www, mail ,,ftp "),
        vec!["www".to_string(), "mail".to_string(), "ftp".to_string()]
    );
}

#[test]
fn test_reverse_ip_v6() {
    let name = rdnsx_core::input::reverse_ip(&IpAddress::V6(0x2001, 0xdb8, 0, 0, 0, 0, 0, 1));
    assert_eq!(
        name,
        "1.0.0.0.0.0.0.0.0.0.0.0.0.0.0.0.0.0.0.0.0.0.0.0.8.b.d.0.1.0.0.2.ip6.arpa"
    );
}
