//! Configuration types and their defaults.

use vstd::prelude::*;

verus! {

/// Default query timeout in seconds.
pub const DEFAULT_TIMEOUT_SECS: u64 = 5;

/// Default number of retries for failed queries.
pub const DEFAULT_RETRIES: u32 = 3;

/// Default number of concurrent queries.
pub const DEFAULT_CONCURRENCY: usize = 100;

/// Default rate limit in queries per second (0 = unlimited).
pub const DEFAULT_RATE_LIMIT: u64 = 0;

/// Default batch size for database exports.
pub const DEFAULT_EXPORT_BATCH_SIZE: usize = 1000;

/// The default recursive resolvers (Google, Cloudflare, Quad9).
pub fn default_resolvers() -> (r: Vec<String>)
    ensures
        r@.len() == 5,
{
    let mut v: Vec<String> = Vec::new();
    v.push(String::from_str("8.8.8.8"));
    v.push(String::from_str("8.8.4.4"));
    v.push(String::from_str("1.1.1.1"));
    v.push(String::from_str("1.0.0.1"));
    v.push(String::from_str("9.9.9.9"));
    v
}

/// Default query timeout, in seconds.
pub fn default_timeout_secs() -> (r: u64)
    ensures
        r == DEFAULT_TIMEOUT_SECS,
{
    DEFAULT_TIMEOUT_SECS
}

/// Default number of retries.
pub fn default_retries() -> (r: u32)
    ensures
        r == DEFAULT_RETRIES,
{
    DEFAULT_RETRIES
}

/// Default concurrency level.
pub fn default_concurrency() -> (r: usize)
    ensures
        r == DEFAULT_CONCURRENCY,
{
    DEFAULT_CONCURRENCY
}

/// Default rate limit.
pub fn default_rate_limit() -> (r: u64)
    ensures
        r == DEFAULT_RATE_LIMIT,
{
    DEFAULT_RATE_LIMIT
}

/// Default export batch size.
pub fn default_batch_size() -> (r: usize)
    ensures
        r == DEFAULT_EXPORT_BATCH_SIZE,
{
    DEFAULT_EXPORT_BATCH_SIZE
}

/// Options for constructing the DNS client: resolver list and limits.
pub struct DnsxOptions {
    /// Resolver addresses, `ip` or `ip:port`.
    pub resolvers: Vec<String>,
    /// Per-query timeout in milliseconds.
    pub timeout_ms: u64,
    /// Retries per resolver.
    pub retries: u32,
    /// Global bound on in-flight queries.
    pub concurrency: usize,
    /// Queries per second (0 = unlimited).
    pub rate_limit: u64,
}

impl Default for DnsxOptions {
    fn default() -> (r: Self)
        ensures
            r.resolvers@.len() == 5,
            r.timeout_ms == DEFAULT_TIMEOUT_SECS * 1000,
            r.retries == DEFAULT_RETRIES,
            r.concurrency == DEFAULT_CONCURRENCY,
            r.rate_limit == DEFAULT_RATE_LIMIT,
    {
        DnsxOptions {
            resolvers: default_resolvers(),
            timeout_ms: DEFAULT_TIMEOUT_SECS * 1000,
            retries: DEFAULT_RETRIES,
            concurrency: DEFAULT_CONCURRENCY,
            rate_limit: DEFAULT_RATE_LIMIT,
        }
    }
}

/// Default document-store URL.
pub fn default_es_url() -> (r: String)
    ensures
        r@ == "http://localhost:9200"@,
{
    String::from_str("http://localhost:9200")
}

/// Default document-store index name.
pub fn default_es_index() -> (r: String)
    ensures
        r@ == "dnsx-records"@,
{
    String::from_str("dnsx-records")
}

/// Default collection-store URL.
pub fn default_mongo_url() -> (r: String)
    ensures
        r@ == "mongodb://localhost:27017"@,
{
    String::from_str("mongodb://localhost:27017")
}

/// Default collection-store database.
pub fn default_mongo_db() -> (r: String)
    ensures
        r@ == "dnsx"@,
{
    String::from_str("dnsx")
}

/// Default collection-store collection.
pub fn default_mongo_collection() -> (r: String)
    ensures
        r@ == "records"@,
{
    String::from_str("records")
}

/// Default wide-column contact points.
pub fn default_cassandra_points() -> (r: Vec<String>)
    ensures
        r@.len() == 1,
        r@[0]@ == "127.0.0.1:9042"@,
{
    let mut v: Vec<String> = Vec::new();
    v.push(String::from_str("127.0.0.1:9042"));
    v
}

/// Default wide-column keyspace.
pub fn default_cassandra_keyspace() -> (r: String)
    ensures
        r@ == "dnsx"@,
{
    String::from_str("dnsx")
}

/// Default wide-column table.
pub fn default_cassandra_table() -> (r: String)
    ensures
        r@ == "records"@,
{
    String::from_str("records")
}

/// Resolver section of the configuration.
#[derive(Debug, Clone)]
pub struct ResolverConfig {
    /// DNS server addresses.
    pub servers: Vec<String>,
    /// Query timeout in seconds.
    pub timeout: u64,
    /// Retries for failed queries.
    pub retries: u32,
}

impl Default for ResolverConfig {
    fn default() -> (r: Self)
        ensures
            r.servers@.len() == 5,
            r.timeout == DEFAULT_TIMEOUT_SECS,
            r.retries == DEFAULT_RETRIES,
    {
        ResolverConfig {
            servers: default_resolvers(),
            timeout: DEFAULT_TIMEOUT_SECS,
            retries: DEFAULT_RETRIES,
        }
    }
}

/// Performance section of the configuration.
#[derive(Debug, Clone)]
pub struct PerformanceConfig {
    /// Maximum concurrent queries.
    pub threads: usize,
    /// Rate limit in queries per second (0 = unlimited).
    pub rate_limit: u64,
}

impl Default for PerformanceConfig {
    fn default() -> (r: Self)
        ensures
            r.threads == DEFAULT_CONCURRENCY,
            r.rate_limit == DEFAULT_RATE_LIMIT,
    {
        PerformanceConfig { threads: DEFAULT_CONCURRENCY, rate_limit: DEFAULT_RATE_LIMIT }
    }
}

/// Document-store export settings.
#[derive(Debug, Clone)]
pub struct ElasticsearchConfig {
    /// Whether the export runs.
    pub enabled: bool,
    /// Server URL.
    pub url: String,
    /// Index name.
    pub index: String,
}

impl Default for ElasticsearchConfig {
    fn default() -> (r: Self)
        ensures
            !r.enabled,
            r.url@ == "http://localhost:9200"@,
            r.index@ == "dnsx-records"@,
    {
        ElasticsearchConfig { enabled: false, url: default_es_url(), index: default_es_index() }
    }
}

/// Collection-store export settings.
#[derive(Debug, Clone)]
pub struct MongodbConfig {
    /// Whether the export runs.
    pub enabled: bool,
    /// Connection URL.
    pub url: String,
    /// Database name.
    pub database: String,
    /// Collection name.
    pub collection: String,
}

impl Default for MongodbConfig {
    fn default() -> (r: Self)
        ensures
            !r.enabled,
            r.url@ == "mongodb://localhost:27017"@,
            r.database@ == "dnsx"@,
            r.collection@ == "records"@,
    {
        MongodbConfig {
            enabled: false,
            url: default_mongo_url(),
            database: default_mongo_db(),
            collection: default_mongo_collection(),
        }
    }
}

/// Wide-column export settings.
#[derive(Debug, Clone)]
pub struct CassandraSettings {
    /// Whether the export runs.
    pub enabled: bool,
    /// Contact points, `host:port`.
    pub contact_points: Vec<String>,
    /// User name, empty for none.
    pub username: String,
    /// Password, empty for none.
    pub password: String,
    /// Keyspace name.
    pub keyspace: String,
    /// Table name.
    pub table: String,
}

impl Default for CassandraSettings {
    fn default() -> (r: Self)
        ensures
            !r.enabled,
            r.keyspace@ == "dnsx"@,
            r.table@ == "records"@,
    {
        CassandraSettings {
            enabled: false,
            contact_points: default_cassandra_points(),
            username: String::new(),
            password: String::new(),
            keyspace: default_cassandra_keyspace(),
            table: default_cassandra_table(),
        }
    }
}

/// Export section of the configuration.
#[derive(Debug, Clone)]
pub struct ExportConfig {
    /// Batch size for database exports.
    pub batch_size: usize,
    /// Document-store settings.
    pub elasticsearch: ElasticsearchConfig,
    /// Collection-store settings.
    pub mongodb: MongodbConfig,
    /// Wide-column settings.
    pub cassandra: CassandraSettings,
}

impl Default for ExportConfig {
    fn default() -> (r: Self)
        ensures
            r.batch_size == DEFAULT_EXPORT_BATCH_SIZE,
            !r.elasticsearch.enabled,
            !r.mongodb.enabled,
            !r.cassandra.enabled,
    {
        ExportConfig {
            batch_size: DEFAULT_EXPORT_BATCH_SIZE,
            elasticsearch: ElasticsearchConfig::default(),
            mongodb: MongodbConfig::default(),
            cassandra: CassandraSettings::default(),
        }
    }
}

/// The whole configuration: resolvers, performance, exports.
#[derive(Debug, Clone)]
pub struct Config {
    /// Resolver settings.
    pub resolvers: ResolverConfig,
    /// Performance settings.
    pub performance: PerformanceConfig,
    /// Export settings.
    pub export: ExportConfig,
}

impl Default for Config {
    fn default() -> (r: Self)
        ensures
            r.resolvers.timeout == DEFAULT_TIMEOUT_SECS,
            r.performance.threads == DEFAULT_CONCURRENCY,
            r.export.batch_size == DEFAULT_EXPORT_BATCH_SIZE,
    {
        Config {
            resolvers: ResolverConfig::default(),
            performance: PerformanceConfig::default(),
            export: ExportConfig::default(),
        }
    }
}

} // verus!
