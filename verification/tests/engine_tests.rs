use rdnsx_core::cache::{CacheKey, DnsCache};
use rdnsx_core::concurrency::{
    batch_count, settle_batch, AdaptiveBatchSizer, ConcurrencyConfig, DomainStreamer,
    PermitTracker, ProcessingMetrics, QueryOutcome, RateLimiter,
};
use rdnsx_core::config::DnsxOptions;
use rdnsx_core::dns_records::DnsRecord;
use rdnsx_core::export::BatchBuffer;
use rdnsx_core::ip::IpAddress;
use rdnsx_core::query::{build_records, RawRData};
use rdnsx_core::record_types::RecordType;
use rdnsx_core::record_values::RecordValue;
use rdnsx_core::resolver::{select_answering, ResolveEvent, ResolverPool};
use rdnsx_core::response_codes::ResponseCode;
use rdnsx_core::wildcard::{analyze_probes, WildcardFilter};
use rdnsx_core::wildcard::random_subdomain;
use rdnsx_core::export::{next_retry, RetryDecision};
use rdnsx_core::export::next_worker;

fn sample_record(domain: &str, ip: IpAddress) -> DnsRecord {
    DnsRecord::new(
        domain.to_string(),
        RecordType::A,
        RecordValue::Ip(ip),
        300,
        ResponseCode::NoError,
        "198.51.100.1:53".to_string(),
        7,
        1_700_000_000_000,
    )
}

#[test]
fn test_cache_operations() {
    let mut cache = DnsCache::new(100, 60_000);
    let key = CacheKey::new("example.com", RecordType::A);
    let records = vec![sample_record("example.com", IpAddress::V4(203, 0, 113, 5))];

    // initially empty
    assert!(cache.get(&key, 0).is_none());

    // store and retrieve within the ttl
    cache.put(key.clone(), records.clone(), Some(60_000), 1_000);
    assert_eq!(cache.get(&key, 2_000), Some(records.clone()));

    // after the ttl has elapsed, nothing comes back
    assert!(cache.get(&key, 61_000).is_none());

    // stats at a valid instant
    let stats = cache.stats(2_000);
    assert_eq!(stats.total_entries, 1);
    assert_eq!(stats.valid_entries, 1);
}

#[test]
fn test_cache_capacity() {
    let mut cache = DnsCache::new(10, 60_000);
    for i in 0..50u32 {
        let key = CacheKey::new(&format!("host{}.example.com", i), RecordType::A);
        cache.put(key, vec![], None, i as u64);
        assert!(cache.len() <= 10);
    }
}

#[test]
fn test_cache_overwrite() {
    let mut cache = DnsCache::new(10, 60_000);
    let key = CacheKey::new("example.com", RecordType::A);
    let first = vec![sample_record("example.com", IpAddress::V4(192, 0, 2, 1))];
    let second = vec![sample_record("example.com", IpAddress::V4(192, 0, 2, 2))];
    cache.put(key.clone(), first, None, 0);
    cache.put(key.clone(), second.clone(), None, 1);
    assert_eq!(cache.len(), 1);
    assert_eq!(cache.get(&key, 2), Some(second));
}

#[test]
fn test_rate_limiter() {
    // ten grants per second: 100000 microseconds apart
    let mut limiter = RateLimiter::new(10);
    let mut now: u64 = 1_000_000;
    let mut grants: Vec<u64> = Vec::new();
    for _ in 0..5 {
        let sleep = limiter.wait_at(now);
        now += sleep;
        grants.push(now);
        // the caller proceeds immediately after the grant
    }
    // five grants span at least four intervals
    assert!(grants[4] - grants[0] >= 400_000);
}

#[test]
fn test_rate_limiter_unlimited() {
    let mut limiter = RateLimiter::new(0);
    assert_eq!(limiter.wait_at(5), 0);
    assert_eq!(limiter.wait_at(5), 0);
}

#[test]
fn test_adaptive_batch_sizer() {
    let mut sizer = AdaptiveBatchSizer::new(100, 10, 1000);

    // high throughput grows the batch
    sizer.adjust(1200);
    assert!(sizer.current_size() > 100);

    // low throughput shrinks it again
    let before = sizer.current_size();
    sizer.adjust(800);
    assert!(sizer.current_size() < before);

    // the bounds hold under repeated adjustment
    for _ in 0..100 {
        sizer.adjust(5000);
    }
    assert_eq!(sizer.current_size(), 1000);
    for _ in 0..100 {
        sizer.adjust(1);
    }
    assert_eq!(sizer.current_size(), 10);
}

#[test]
fn test_permit_tracker_bound() {
    let mut permits = PermitTracker::new(3);
    assert!(permits.try_acquire());
    assert!(permits.try_acquire());
    assert!(permits.try_acquire());
    assert!(!permits.try_acquire());
    permits.release();
    assert!(permits.try_acquire());
}

#[test]
fn test_domain_streamer() {
    let input = "example.com\n# a comment\n\n  spaced.example.com  \nlast.example.com";
    let streamer = DomainStreamer::new(input.to_string());
    let domains = streamer.stream_domains();
    assert_eq!(
        domains,
        vec![
            "example.com".to_string(),
            "spaced.example.com".to_string(),
            "last.example.com".to_string()
        ]
    );
}

#[test]
fn test_settle_batch() {
    let ok = vec![sample_record("a.example", IpAddress::V4(192, 0, 2, 1))];
    let outcomes = vec![
        QueryOutcome::Success(ok.clone()),
        QueryOutcome::Failed(rdnsx_core::error::DnsxError::timeout(1000)),
        QueryOutcome::TimedOut,
    ];
    let (records, successes, failures) = settle_batch(outcomes);
    assert_eq!(records.len(), 1);
    assert_eq!(successes, 1);
    assert_eq!(failures, 2);
}

#[test]
fn test_batch_count() {
    assert_eq!(batch_count(0, 1000), 0);
    assert_eq!(batch_count(2500, 1000), 3);
    assert_eq!(batch_count(1000, 1000), 1);
}

#[test]
fn test_metrics_derived() {
    let metrics = ProcessingMetrics {
        total_domains: 20,
        successful_queries: 18,
        failed_queries: 2,
        total_query_time_ms: 400,
        batches_processed: 1,
        errors: 0,
        retries: 0,
    };
    assert_eq!(metrics.average_query_time_ms(), 20);
    // twenty queries over two seconds
    assert_eq!(metrics.queries_per_second(2000), 10);
    assert_eq!(metrics.queries_per_second(0), 0);
}

#[test]
fn test_resolver_pool_validation() {
    let opts = DnsxOptions { resolvers: vec![], ..Default::default() };
    assert!(ResolverPool::new(&opts).is_err());

    let opts = DnsxOptions::default();
    let pool = ResolverPool::new(&opts).unwrap();
    assert_eq!(pool.primary_resolver(), "8.8.8.8:53");
    assert_eq!(pool.resolver_count(), 5);

    let opts = DnsxOptions { resolvers: vec!["bogus".to_string()], ..Default::default() };
    assert!(ResolverPool::new(&opts).is_err());
}

#[test]
fn test_resolver_failover() {
    // two resolvers fall through, the third answers: its index is selected
    let events = vec![
        ResolveEvent::TimedOut,
        ResolveEvent::TransportError,
        ResolveEvent::Answer(ResponseCode::NoError),
    ];
    assert_eq!(select_answering(&events), Some(2));

    // a definitive name error returns immediately
    let events = vec![ResolveEvent::Answer(ResponseCode::NxDomain)];
    assert_eq!(select_answering(&events), Some(0));

    // a server failure falls through; exhaustion selects nothing
    let events = vec![
        ResolveEvent::Answer(ResponseCode::ServFail),
        ResolveEvent::TimedOut,
    ];
    assert_eq!(select_answering(&events), None);
}

#[test]
fn test_build_records() {
    let answers = vec![
        (RawRData::Ip(IpAddress::V4(203, 0, 113, 5)), 300u32),
        (RawRData::Cname("alias.example.com".to_string()), 60u32),
    ];
    let records = build_records(
        "example.com",
        RecordType::A,
        ResponseCode::NoError,
        "203.0.113.53:53",
        answers,
        12,
        1_700_000_000_000,
    );
    assert_eq!(records.len(), 2);
    assert_eq!(records[0].value, RecordValue::Ip(IpAddress::V4(203, 0, 113, 5)));
    assert_eq!(records[0].ttl, 300);
    assert_eq!(records[1].value, RecordValue::Domain("alias.example.com".to_string()));
    assert_eq!(records[0].resolver, "203.0.113.53:53");
}

#[test]
fn test_build_records_empty_noerror() {
    let records = build_records(
        "example.com",
        RecordType::Txt,
        ResponseCode::NoError,
        "203.0.113.53:53",
        vec![],
        3,
        1_700_000_000_000,
    );
    assert_eq!(records.len(), 1);
    assert_eq!(records[0].value, RecordValue::Other("no records".to_string()));
    assert_eq!(records[0].ttl, 0);
}

#[test]
fn test_build_records_mismatched_payload() {
    // an address payload under a TXT query is mapped to its text, never
    // silently substituted
    let answers = vec![(RawRData::Ip(IpAddress::V4(192, 0, 2, 1)), 60u32)];
    let records = build_records(
        "example.com",
        RecordType::Txt,
        ResponseCode::NoError,
        "203.0.113.53:53",
        answers,
        3,
        1_700_000_000_000,
    );
    assert_eq!(records[0].value, RecordValue::Other("192.0.2.1".to_string()));
}

#[test]
fn test_wildcard_detection() {
    // every probe answered the same address: confirmed wildcard
    let probes = vec![
        Some("192.0.2.1".to_string()),
        Some("192.0.2.1".to_string()),
        Some("192.0.2.1".to_string()),
        Some("192.0.2.1".to_string()),
        Some("192.0.2.1".to_string()),
    ];
    let analysis = analyze_probes("wild.example".to_string(), &probes);
    assert!(analysis.has_wildcard);
    assert_eq!(analysis.wildcard_ips, vec!["192.0.2.1".to_string()]);
    assert!(analysis.confidence_pct >= 90);

    // two answers of one address: weak wildcard
    let probes = vec![Some("192.0.2.1".to_string()), Some("192.0.2.1".to_string()), None];
    let analysis = analyze_probes("wild.example".to_string(), &probes);
    assert!(analysis.has_wildcard);
    assert_eq!(analysis.confidence_pct, 70);

    // distinct answers: no wildcard
    let probes = vec![Some("192.0.2.1".to_string()), Some("192.0.2.2".to_string())];
    let analysis = analyze_probes("wild.example".to_string(), &probes);
    assert!(!analysis.has_wildcard);
}

#[test]
fn test_wildcard_filter() {
    // a zone where every label resolves to one address, eleven wildcard
    // records and one real record: only the real one survives
    let mut filter = WildcardFilter::new(Some("wild.example".to_string()), 10);
    let probes: Vec<Option<String>> =
        (0..5).map(|_| Some("192.0.2.1".to_string())).collect();
    let analysis = analyze_probes("wild.example".to_string(), &probes);
    filter.record_analysis("wild.example".to_string(), analysis);

    let mut records: Vec<DnsRecord> = Vec::new();
    for i in 0..11 {
        records.push(sample_record(
            &format!("{}{}.wild.example", "label", i),
            IpAddress::V4(192, 0, 2, 1),
        ));
    }
    records.push(sample_record("real.wild.example", IpAddress::V4(192, 0, 2, 9)));

    let out = filter.filter(records);
    assert_eq!(out.len(), 1);
    assert_eq!(out[0].domain, "real.wild.example");
}

#[test]
fn test_batch_buffer_flush() {
    // 2500 records at batch size 1000: two full batches, then a drain of 500
    let mut buffer = BatchBuffer::new(1000);
    let mut batches: Vec<Vec<DnsRecord>> = Vec::new();
    for i in 0..2500u32 {
        let rec = sample_record(&format!("h{}.example.com", i), IpAddress::V4(192, 0, 2, 1));
        if let Some(batch) = buffer.push(rec) {
            batches.push(batch);
        }
    }
    let tail = buffer.drain();
    assert_eq!(batches.len(), 2);
    assert_eq!(batches[0].len(), 1000);
    assert_eq!(batches[1].len(), 1000);
    assert_eq!(tail.len(), 500);
    let delivered: usize = batches.iter().map(|b| b.len()).sum::<usize>() + tail.len();
    assert_eq!(delivered, 2500);
    // a second flush is idempotent
    assert_eq!(buffer.drain().len(), 0);
}

#[test]
fn test_retry_schedule() {
    assert!(matches!(next_retry(0, 3, 100), RetryDecision::RetryAfter(100)));
    assert!(matches!(next_retry(2, 3, 100), RetryDecision::RetryAfter(100)));
    assert!(matches!(next_retry(3, 3, 100), RetryDecision::GiveUp));
}

#[test]
fn test_round_robin() {
    let (w0, c1) = next_worker(0, 4);
    let (w1, c2) = next_worker(c1, 4);
    let (w2, c3) = next_worker(c2, 4);
    let (w3, c4) = next_worker(c3, 4);
    let (w4, _) = next_worker(c4, 4);
    assert_eq!((w0, w1, w2, w3, w4), (0, 1, 2, 3, 0));
}

#[test]
fn test_random_subdomain_shape() {
    let a = random_subdomain("example.com");
    let b = random_subdomain("example.com");
    assert_eq!(a.len(), 16 + 1 + "example.com".len());
    assert!(a.ends_with(".example.com"));
    assert!(a[..16].chars().all(|c| c.is_ascii_lowercase()));
    // two draws almost surely differ; equality would mean the label is not
    // random at all
    assert_ne!(a[..16], b[..16]);
}

#[test]
fn test_concurrency_config_defaults() {
    let c = ConcurrencyConfig::default();
    assert_eq!(c.max_concurrent, 100);
    assert_eq!(c.batch_size, 1000);
    assert_eq!(c.timeout_ms, 5000);
    assert_eq!(c.rate_limit, 0);
}

#[test]
fn test_zone_suffixes() {
    let suffixes = rdnsx_core::wildcard::zone_suffixes("a.b.example.com");
    assert_eq!(
        suffixes,
        vec!["b.example.com".to_string(), "example.com".to_string(), "com".to_string()]
    );
}
