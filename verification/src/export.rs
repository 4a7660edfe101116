//! The batched exporter core: the buffer that groups records into batches,
//! the bounded retry schedule, and the round-robin fan-out — the logic every
//! sink shares. The stores' own I/O runs outside the library and receives
//! full batches from here.

use vstd::prelude::*;
use crate::dns_records::DnsRecord;

verus! {

/// Configuration of the wide-column exporter.
#[derive(Debug, Clone)]
pub struct CassandraConfig {
    /// Contact points, `host:port`.
    pub contact_points: Vec<String>,
    /// Optional user name.
    pub username: Option<String>,
    /// Optional password.
    pub password: Option<String>,
    /// Keyspace name.
    pub keyspace: String,
    /// Table name.
    pub table: String,
    /// Records per write batch.
    pub batch_size: usize,
    /// Batches in flight at once.
    pub max_concurrent_batches: usize,
    /// Write attempts per batch.
    pub retry_attempts: usize,
    /// Delay between attempts, milliseconds.
    pub retry_delay_ms: u64,
    /// Worker fibers.
    pub num_workers: usize,
}

impl Default for CassandraConfig {
    fn default() -> (r: Self)
        ensures
            r.batch_size == 1000,
            r.max_concurrent_batches == 10,
            r.retry_attempts == 3,
            r.retry_delay_ms == 100,
            r.num_workers == 4,
            r.username is None,
            r.password is None,
    {
        CassandraConfig {
            contact_points: vec![String::from_str("127.0.0.1:9042")],
            username: None,
            password: None,
            keyspace: String::from_str("dnsx"),
            table: String::from_str("records"),
            batch_size: 1000,
            max_concurrent_batches: 10,
            retry_attempts: 3,
            retry_delay_ms: 100,
            num_workers: 4,
        }
    }
}

/// The buffer every sink shares: collects records and hands out full
/// batches.
pub struct BatchBuffer {
    buf: Vec<DnsRecord>,
    batch_size: usize,
}

impl BatchBuffer {
    /// The records waiting in the buffer.
    pub closed spec fn spec_buffered(&self) -> Seq<DnsRecord> {
        self.buf@
    }

    /// The configured batch size.
    pub closed spec fn spec_batch_size(&self) -> int {
        self.batch_size as int
    }

    /// Buffer within one batch of capacity.
    pub open spec fn wf(&self) -> bool {
        self.spec_batch_size() >= 1 && self.spec_buffered().len() < self.spec_batch_size()
    }

    /// An empty buffer flushing at `batch_size` records.
    pub fn new(batch_size: usize) -> (r: BatchBuffer)
        requires
            batch_size >= 1,
        ensures
            r.wf(),
            r.spec_buffered().len() == 0,
            r.spec_batch_size() == batch_size,
    {
        BatchBuffer { buf: Vec::new(), batch_size }
    }

    /// Accepts one record. When the buffer reaches the batch size, the full
    /// batch is returned for the sink to write, in arrival order, and the
    /// buffer empties; otherwise the record is held.
    pub fn push(&mut self, record: DnsRecord) -> (r: Option<Vec<DnsRecord>>)
        requires
            old(self).wf(),
        ensures
            final(self).wf(),
            final(self).spec_batch_size() == old(self).spec_batch_size(),
            match r {
                Some(batch) => {
                    &&& batch@ == old(self).spec_buffered().push(record)
                    &&& batch@.len() == old(self).spec_batch_size()
                    &&& final(self).spec_buffered().len() == 0
                },
                None => final(self).spec_buffered() == old(self).spec_buffered().push(record),
            },
    {
        self.buf.push(record);
        if self.buf.len() >= self.batch_size {
            let mut out: Vec<DnsRecord> = Vec::new();
            core::mem::swap(&mut out, &mut self.buf);
            Some(out)
        } else {
            None
        }
    }

    /// Drains whatever is buffered, in arrival order; idempotent on an
    /// empty buffer.
    pub fn drain(&mut self) -> (r: Vec<DnsRecord>)
        requires
            old(self).wf(),
        ensures
            final(self).wf(),
            final(self).spec_batch_size() == old(self).spec_batch_size(),
            r@ == old(self).spec_buffered(),
            final(self).spec_buffered().len() == 0,
    {
        let mut out: Vec<DnsRecord> = Vec::new();
        core::mem::swap(&mut out, &mut self.buf);
        out
    }
}

/// The batches a sequence of pushes emits, in order, given the batch size.
pub open spec fn spec_batches(records: Seq<DnsRecord>, batch_size: int) -> Seq<Seq<DnsRecord>>
    decreases records.len(),
{
    if batch_size < 1 || records.len() < batch_size {
        Seq::empty()
    } else {
        seq![records.take(batch_size)] + spec_batches(records.skip(batch_size), batch_size)
    }
}

/// The records still buffered after a sequence of pushes.
pub open spec fn spec_leftover(records: Seq<DnsRecord>, batch_size: int) -> Seq<DnsRecord>
    decreases records.len(),
{
    if batch_size < 1 || records.len() < batch_size {
        records
    } else {
        spec_leftover(records.skip(batch_size), batch_size)
    }
}

/// Concatenation of emitted batches.
pub open spec fn concat_batches(bs: Seq<Seq<DnsRecord>>) -> Seq<DnsRecord>
    decreases bs.len(),
{
    if bs.len() == 0 {
        Seq::empty()
    } else {
        bs[0] + concat_batches(bs.skip(1))
    }
}

/// Export delivery: after any run of pushes followed by a drain, the sink
/// has received every record exactly once, in order — the emitted batches
/// plus the final drain concatenate to the pushed records. Retries can only
/// add duplicates, never lose a record, so delivery is at least once.
pub proof fn lemma_export_at_least_once(records: Seq<DnsRecord>, batch_size: int)
    requires
        batch_size >= 1,
    ensures
        concat_batches(spec_batches(records, batch_size)) + spec_leftover(records, batch_size)
            == records,
    decreases records.len(),
{
    if records.len() < batch_size {
        assert(spec_batches(records, batch_size) =~= Seq::<Seq<DnsRecord>>::empty());
        assert(concat_batches(spec_batches(records, batch_size)) =~= Seq::<DnsRecord>::empty());
        assert(concat_batches(spec_batches(records, batch_size)) + records =~= records);
    } else {
        lemma_export_at_least_once(records.skip(batch_size), batch_size);
        let bs = spec_batches(records, batch_size);
        assert(bs[0] == records.take(batch_size));
        assert(bs.skip(1) =~= spec_batches(records.skip(batch_size), batch_size));
        assert(concat_batches(bs) == records.take(batch_size) + concat_batches(
            spec_batches(records.skip(batch_size), batch_size),
        ));
        assert(concat_batches(bs) + spec_leftover(records, batch_size) =~= records.take(batch_size)
            + (concat_batches(spec_batches(records.skip(batch_size), batch_size)) + spec_leftover(
            records.skip(batch_size),
            batch_size,
        )));
        assert(records.take(batch_size) + records.skip(batch_size) =~= records);
    }
}

/// One more write attempt, or giving up: a batch is retried up to the
/// configured number of attempts, with the fixed delay between them.
pub enum RetryDecision {
    /// Try again after the delay in milliseconds.
    RetryAfter(u64),
    /// All attempts used; record the error and drop the batch.
    GiveUp,
}

/// Decides what to do after one failed batch write: with attempts left the
/// batch is retried after the fixed delay; after `retry_attempts` failures
/// it is given up, so retries are bounded.
pub fn next_retry(attempts_done: usize, retry_attempts: usize, retry_delay_ms: u64) -> (r:
    RetryDecision)
    ensures
        attempts_done < retry_attempts ==> r == RetryDecision::RetryAfter(retry_delay_ms),
        attempts_done >= retry_attempts ==> r == RetryDecision::GiveUp,
{
    if attempts_done < retry_attempts {
        RetryDecision::RetryAfter(retry_delay_ms)
    } else {
        RetryDecision::GiveUp
    }
}

/// Round-robin fan-out: the worker the next record goes to, and the next
/// counter value.
pub fn next_worker(counter: u64, num_workers: usize) -> (r: (usize, u64))
    requires
        num_workers >= 1,
    ensures
        r.0 == counter as int % num_workers as int,
        r.1 == (if counter == u64::MAX {
            0int
        } else {
            counter + 1
        }),
        r.0 < num_workers,
{
    let idx = (counter % (num_workers as u64)) as usize;
    let next = if counter == u64::MAX {
        0
    } else {
        counter + 1
    };
    (idx, next)
}

/// The key under which a prepared statement is cached: `keyspace.table`.
pub fn statement_key(keyspace: &str, table: &str) -> (r: String)
    ensures
        r@ == keyspace@ + seq!['.'] + table@,
{
    let mut v = crate::text::chars_of_str(keyspace);
    v.push('.');
    let t = crate::text::chars_of_str(table);
    crate::text::push_all(&mut v, &t);
    proof {
        assert(v@ =~= keyspace@ + seq!['.'] + table@);
    }
    crate::text::string_from_chars(&v)
}

/// One line pair of a document-store bulk request: the index action line
/// and the record's document in the store's field schema, each newline
/// terminated.
pub fn bulk_body_line(index: &str, record: &DnsRecord) -> (r: String)
    ensures
        exists|ts: Seq<char>|
            {
                &&& r@ == "{\"index\":{\"_index\":"@ + crate::codec::enc_str(index@) + "}}\n"@
                    + #[trigger] crate::codec::es_doc_with(*record, ts) + "\n"@
                &&& crate::time::spec_parse_timestamp(ts) == Some(record.timestamp_ms)
            },
{
    let mut v = crate::text::chars_of_str("{\"index\":{\"_index\":");
    let ix = crate::codec::encode_json_string(index);
    crate::text::push_all(&mut v, &ix);
    let tail = crate::text::chars_of_str("}}\n");
    crate::text::push_all(&mut v, &tail);
    let doc = crate::codec::es_document(record);
    let dv = crate::text::chars_of_str(doc.as_str());
    crate::text::push_all(&mut v, &dv);
    v.push('\n');
    proof {
        let ts = choose|ts: Seq<char>|
            {
                &&& doc@ == #[trigger] crate::codec::es_doc_with(*record, ts)
                &&& crate::time::spec_parse_timestamp(ts) == Some(record.timestamp_ms)
            };
        reveal_strlit("{\"index\":{\"_index\":");
        reveal_strlit("}}\n");
        reveal_strlit("\n");
        assert(v@ =~= "{\"index\":{\"_index\":"@ + crate::codec::enc_str(index@) + "}}\n"@
            + crate::codec::es_doc_with(*record, ts) + "\n"@);
    }
    crate::text::string_from_chars(&v)
}

/// The document-store index mapping: the fixed field schema the sink
/// creates when the index is absent.
pub fn es_index_mapping() -> (r: String)
    ensures
        r@ == "{\"mappings\":{\"properties\":{\"@timestamp\":{\"type\":\"date\"},\"domain\":{\"type\":\"keyword\"},\"record_type\":{\"type\":\"keyword\"},\"value\":{\"type\":\"text\",\"fields\":{\"keyword\":{\"type\":\"keyword\"}}},\"resolver\":{\"type\":\"keyword\"},\"ttl\":{\"type\":\"integer\"},\"response_code\":{\"type\":\"keyword\"},\"query_time_ms\":{\"type\":\"integer\"}}}}"@,
{
    String::from_str(
        "{\"mappings\":{\"properties\":{\"@timestamp\":{\"type\":\"date\"},\"domain\":{\"type\":\"keyword\"},\"record_type\":{\"type\":\"keyword\"},\"value\":{\"type\":\"text\",\"fields\":{\"keyword\":{\"type\":\"keyword\"}}},\"resolver\":{\"type\":\"keyword\"},\"ttl\":{\"type\":\"integer\"},\"response_code\":{\"type\":\"keyword\"},\"query_time_ms\":{\"type\":\"integer\"}}}}",
    )
}

/// The wide-column insert statement the prepared-statement cache holds for
/// one keyspace and table.
pub fn insert_cql(keyspace: &str, table: &str) -> (r: String)
    ensures
        r@ == "INSERT INTO "@ + keyspace@ + seq!['.'] + table@
            + " (domain, record_type, value, ttl, response_code, resolver, timestamp, query_time_ms) VALUES (?, ?, ?, ?, ?, ?, ?, ?)"@,
{
    let mut v = crate::text::chars_of_str("INSERT INTO ");
    let ks = crate::text::chars_of_str(keyspace);
    crate::text::push_all(&mut v, &ks);
    v.push('.');
    let tb = crate::text::chars_of_str(table);
    crate::text::push_all(&mut v, &tb);
    let tail = crate::text::chars_of_str(
        " (domain, record_type, value, ttl, response_code, resolver, timestamp, query_time_ms) VALUES (?, ?, ?, ?, ?, ?, ?, ?)",
    );
    crate::text::push_all(&mut v, &tail);
    proof {
        assert(v@ =~= "INSERT INTO "@ + keyspace@ + seq!['.'] + table@
            + " (domain, record_type, value, ttl, response_code, resolver, timestamp, query_time_ms) VALUES (?, ?, ?, ?, ?, ?, ?, ?)"@);
    }
    crate::text::string_from_chars(&v)
}

/// The statement creating the keyspace when it is absent.
pub fn create_keyspace_cql(keyspace: &str) -> (r: String)
    ensures
        r@ == "CREATE KEYSPACE IF NOT EXISTS "@ + keyspace@
            + " WITH REPLICATION = {'class': 'SimpleStrategy', 'replication_factor': 1}"@,
{
    let mut v = crate::text::chars_of_str("CREATE KEYSPACE IF NOT EXISTS ");
    let ks = crate::text::chars_of_str(keyspace);
    crate::text::push_all(&mut v, &ks);
    let tail = crate::text::chars_of_str(
        " WITH REPLICATION = {'class': 'SimpleStrategy', 'replication_factor': 1}",
    );
    crate::text::push_all(&mut v, &tail);
    proof {
        assert(v@ =~= "CREATE KEYSPACE IF NOT EXISTS "@ + keyspace@
            + " WITH REPLICATION = {'class': 'SimpleStrategy', 'replication_factor': 1}"@);
    }
    crate::text::string_from_chars(&v)
}

/// The statement creating the time-series table when it is absent:
/// partitioned by `(domain, record_type)`, clustered by `timestamp`
/// descending.
pub fn create_table_cql(keyspace: &str, table: &str) -> (r: String)
    ensures
        r@ == "CREATE TABLE IF NOT EXISTS "@ + keyspace@ + seq!['.'] + table@
            + " (domain text, record_type text, value text, ttl int, response_code text, resolver text, timestamp timestamp, query_time_ms bigint, PRIMARY KEY ((domain, record_type), timestamp)) WITH CLUSTERING ORDER BY (timestamp DESC)"@,
{
    let mut v = crate::text::chars_of_str("CREATE TABLE IF NOT EXISTS ");
    let ks = crate::text::chars_of_str(keyspace);
    crate::text::push_all(&mut v, &ks);
    v.push('.');
    let tb = crate::text::chars_of_str(table);
    crate::text::push_all(&mut v, &tb);
    let tail = crate::text::chars_of_str(
        " (domain text, record_type text, value text, ttl int, response_code text, resolver text, timestamp timestamp, query_time_ms bigint, PRIMARY KEY ((domain, record_type), timestamp)) WITH CLUSTERING ORDER BY (timestamp DESC)",
    );
    crate::text::push_all(&mut v, &tail);
    proof {
        assert(v@ =~= "CREATE TABLE IF NOT EXISTS "@ + keyspace@ + seq!['.'] + table@
            + " (domain text, record_type text, value text, ttl int, response_code text, resolver text, timestamp timestamp, query_time_ms bigint, PRIMARY KEY ((domain, record_type), timestamp)) WITH CLUSTERING ORDER BY (timestamp DESC)"@);
    }
    crate::text::string_from_chars(&v)
}

} // verus!
