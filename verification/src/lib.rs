//! Verified core of a high-throughput DNS reconnaissance toolkit.
//!
//! The library models DNS records, a TTL-aware response cache, the resolver
//! failover state machine, the bounded-concurrency scheduler bookkeeping,
//! wildcard-zone detection and filtering, the batched exporter pipeline, and
//! a JSON codec for records. All time- and network-dependent behaviour is
//! expressed over explicit inputs (clock readings, query outcomes), so every
//! function here carries an exact contract.

pub mod cache;
pub mod codec;
pub mod concurrency;
pub mod config;
pub mod dns_records;
pub mod error;
pub mod export;
pub mod input;
pub mod ip;
pub mod output;
pub mod query;
pub mod record_values;
pub mod resolver;
pub mod record_types;
pub mod response_codes;
pub mod text;
pub mod time;
pub mod utils;
pub mod wildcard;

pub use config::DnsxOptions;
pub use error::{DnsxError, DnsxResult};
pub use ip::IpAddress;
pub use input::InputSource;
pub use output::OutputFormat;
pub use export::{BatchBuffer, CassandraConfig};
pub use record_types::RecordType;
pub use record_values::RecordValue;
pub use dns_records::DnsRecord;
pub use cache::{CacheKey, CacheStats, DnsCache};
pub use concurrency::{AdaptiveBatchSizer, ConcurrencyConfig, DomainStreamer, ProcessingMetrics, RateLimiter};
pub use response_codes::ResponseCode;
pub use resolver::ResolverPool;
pub use wildcard::{WildcardAnalysis, WildcardFilter};
