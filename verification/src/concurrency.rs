//! Scheduling bookkeeping for concurrent processing: the rate limiter, the
//! adaptive batch sizer, the concurrency permit tracker, processing metrics,
//! and the domain streamer.
//!
//! The pieces that decide (when to sleep, how large the next batch is,
//! whether a permit is free) are exact functions over explicit clock
//! readings and observed events; the async runtime that acts on the
//! decisions lives outside the library.

use vstd::prelude::*;
use crate::dns_records::DnsRecord;
use crate::error::DnsxError;
use crate::ip::split_sep;
use crate::text::spec_trim;

verus! {

/// Configuration for concurrent processing.
#[derive(Debug, Clone)]
pub struct ConcurrencyConfig {
    /// Maximum concurrent requests.
    pub max_concurrent: usize,
    /// Batch size for processing.
    pub batch_size: usize,
    /// Per-request timeout, milliseconds.
    pub timeout_ms: u64,
    /// Rate limit, requests per second (0 = unlimited).
    pub rate_limit: u64,
}

impl Default for ConcurrencyConfig {
    fn default() -> (r: Self)
        ensures
            r.max_concurrent == 100,
            r.batch_size == 1000,
            r.timeout_ms == 5000,
            r.rate_limit == 0,
    {
        ConcurrencyConfig { max_concurrent: 100, batch_size: 1000, timeout_ms: 5000, rate_limit: 0 }
    }
}

/// Monotonic counters of one processing run.
#[derive(Debug, Clone)]
pub struct ProcessingMetrics {
    /// Items handed to the processor.
    pub total_domains: u64,
    /// Queries that returned records.
    pub successful_queries: u64,
    /// Queries that failed or timed out.
    pub failed_queries: u64,
    /// Accumulated query time, milliseconds.
    pub total_query_time_ms: u64,
    /// Batches completed.
    pub batches_processed: u64,
    /// Errors recorded.
    pub errors: u64,
    /// Retries performed.
    pub retries: u64,
}

impl Default for ProcessingMetrics {
    fn default() -> (r: Self)
        ensures
            r.total_domains == 0 && r.successful_queries == 0 && r.failed_queries == 0
                && r.total_query_time_ms == 0 && r.batches_processed == 0 && r.errors == 0
                && r.retries == 0,
    {
        ProcessingMetrics {
            total_domains: 0,
            successful_queries: 0,
            failed_queries: 0,
            total_query_time_ms: 0,
            batches_processed: 0,
            errors: 0,
            retries: 0,
        }
    }
}

/// Queries per second over an elapsed wall-clock period, zero when no time
/// has passed.
pub open spec fn qps_of(total: u64, elapsed_ms: u64) -> int {
    if elapsed_ms == 0 {
        0
    } else {
        total * 1000 / (elapsed_ms as int)
    }
}

impl ProcessingMetrics {
    /// Mean query time in milliseconds, zero when nothing ran.
    pub fn average_query_time_ms(&self) -> (r: u64)
        ensures
            self.total_domains == 0 ==> r == 0,
            self.total_domains > 0 ==> r == self.total_query_time_ms as int
                / self.total_domains as int,
    {
        if self.total_domains == 0 {
            0
        } else {
            self.total_query_time_ms / self.total_domains
        }
    }

    /// Queries per second over the elapsed period, saturating at the
    /// largest 64-bit value.
    pub fn queries_per_second(&self, elapsed_ms: u64) -> (r: u64)
        ensures
            qps_of(self.total_domains, elapsed_ms) <= u64::MAX ==> r == qps_of(
                self.total_domains,
                elapsed_ms,
            ),
            qps_of(self.total_domains, elapsed_ms) > u64::MAX ==> r == u64::MAX,
    {
        if elapsed_ms == 0 {
            0
        } else {
            let q = (self.total_domains as u128) * 1000 / (elapsed_ms as u128);
            if q > 0xffff_ffff_ffff_ffff {
                u64::MAX
            } else {
                q as u64
            }
        }
    }
}

/// The grant instant one admitted request gets: the clock reading, or one
/// interval after the previous grant, whichever is later.
pub open spec fn spec_grant(last: int, interval: int, now: int) -> int {
    if now >= last + interval {
        now
    } else {
        last + interval
    }
}

/// Rate limiter: at most one grant per interval of wall-clock time.
///
/// `wait_at` is the decision function: given the clock it returns how long
/// the caller must sleep before proceeding; the grant instant is recorded.
pub struct RateLimiter {
    interval_us: u64,
    last_grant_us: u64,
}

impl RateLimiter {
    /// Microseconds between grants.
    pub closed spec fn spec_interval_us(&self) -> u64 {
        self.interval_us
    }

    /// The last grant instant, microseconds.
    pub closed spec fn spec_last_grant_us(&self) -> u64 {
        self.last_grant_us
    }

    /// A limiter for `requests_per_second` grants per second; zero means
    /// unlimited.
    pub fn new(requests_per_second: u64) -> (r: RateLimiter)
        ensures
            r.spec_interval_us() == (if requests_per_second > 0 {
                1_000_000 as int / requests_per_second as int
            } else {
                0
            }),
            r.spec_last_grant_us() == 0,
            r.spec_interval_us() <= 1_000_000,
    {
        let interval = if requests_per_second > 0 {
            1_000_000 / requests_per_second
        } else {
            0
        };
        RateLimiter { interval_us: interval, last_grant_us: 0 }
    }

    /// Admits one request at clock reading `now_us`: returns the time to
    /// sleep before proceeding, and records the grant.
    ///
    /// With a nonzero interval, the new grant instant is at least one
    /// interval after the previous one — consecutive grants are spaced by
    /// the interval in wall-clock time.
    pub fn wait_at(&mut self, now_us: u64) -> (sleep_us: u64)
        requires
            old(self).spec_last_grant_us() + old(self).spec_interval_us() <= u64::MAX,
        ensures
            final(self).spec_interval_us() == old(self).spec_interval_us(),
            old(self).spec_interval_us() == 0 ==> sleep_us == 0 && final(self).spec_last_grant_us()
                == old(self).spec_last_grant_us(),
            old(self).spec_interval_us() > 0 ==> {
                &&& final(self).spec_last_grant_us() == spec_grant(
                    old(self).spec_last_grant_us() as int,
                    old(self).spec_interval_us() as int,
                    now_us as int,
                )
                &&& sleep_us == final(self).spec_last_grant_us() - now_us
                    || (sleep_us == 0 && now_us >= old(self).spec_last_grant_us() + old(
                    self,
                ).spec_interval_us())
                &&& final(self).spec_last_grant_us() >= old(self).spec_last_grant_us() + old(
                    self,
                ).spec_interval_us()
                &&& final(self).spec_last_grant_us() >= now_us
            },
    {
        if self.interval_us == 0 {
            return 0;
        }
        let next_allowed = self.last_grant_us + self.interval_us;
        if now_us >= next_allowed {
            self.last_grant_us = now_us;
            0
        } else {
            let sleep = next_allowed - now_us;
            self.last_grant_us = next_allowed;
            sleep
        }
    }
}

/// Rate limiter floor: when consecutive grant instants are each at least
/// `interval` after the one before, the first and last of a run of grants
/// lie apart by at least the interval times the number of steps between
/// them; with the interval set from a requests-per-second rate, any run of
/// waits takes at least the matching wall-clock time, up to the rounding of
/// the interval.
pub proof fn lemma_rate_limiter_floor(grants: Seq<int>, interval: int)
    requires
        grants.len() >= 1,
        interval >= 0,
        forall|i: int| 0 <= i < grants.len() - 1 ==> #[trigger] grants[i + 1] >= grants[i]
            + interval,
    ensures
        grants.last() - grants.first() >= (grants.len() - 1) * interval,
    decreases grants.len(),
{
    if grants.len() >= 2 {
        let rest = grants.skip(1);
        assert(forall|i: int| 0 <= i < rest.len() - 1 ==> #[trigger] rest[i + 1] >= rest[i]
            + interval) by {
            assert(forall|i: int| 0 <= i < rest.len() ==> rest[i] == grants[i + 1]);
        }
        lemma_rate_limiter_floor(rest, interval);
        assert(grants[1] >= grants[0] + interval);
        assert(rest.last() == grants.last() && rest.first() == grants[1]);
        assert((grants.len() - 1) * interval == (grants.len() - 2) * interval + interval)
            by (nonlinear_arith);
    } else {
        assert(grants.last() == grants.first());
        assert((grants.len() - 1) * interval == 0) by (nonlinear_arith)
            requires
                grants.len() == 1,
        ;
    }
}

/// The grant instants of a run of waits, one per clock reading.
pub open spec fn grant_run(last0: int, interval: int, nows: Seq<int>) -> Seq<int>
    decreases nows.len(),
{
    if nows.len() == 0 {
        Seq::empty()
    } else {
        seq![spec_grant(last0, interval, nows[0])] + grant_run(
            spec_grant(last0, interval, nows[0]),
            interval,
            nows.skip(1),
        )
    }
}

/// Rate limiter floor over whole runs: with a positive interval, whatever
/// the clock readings, the first and last grants of a run lie at least the
/// interval times the number of steps between them apart.
pub proof fn lemma_rate_limiter_run(last0: int, interval: int, nows: Seq<int>)
    requires
        interval > 0,
        nows.len() >= 1,
    ensures
        grant_run(last0, interval, nows).len() == nows.len(),
        grant_run(last0, interval, nows).last() - grant_run(last0, interval, nows).first() >= (
        nows.len() - 1) * interval,
{
    lemma_grant_run_spaced(last0, interval, nows);
    lemma_rate_limiter_floor(grant_run(last0, interval, nows), interval);
}

/// Consecutive grants of a run are spaced by at least the interval.
proof fn lemma_grant_run_spaced(last0: int, interval: int, nows: Seq<int>)
    requires
        interval > 0,
    ensures
        grant_run(last0, interval, nows).len() == nows.len(),
        forall|i: int|
            0 <= i < nows.len() - 1 ==> #[trigger] grant_run(last0, interval, nows)[i + 1]
                >= grant_run(last0, interval, nows)[i] + interval,
    decreases nows.len(),
{
    if nows.len() >= 1 {
        let g = spec_grant(last0, interval, nows[0]);
        lemma_grant_run_spaced(g, interval, nows.skip(1));
        let run = grant_run(last0, interval, nows);
        let tail = grant_run(g, interval, nows.skip(1));
        assert(forall|i: int| 0 <= i < tail.len() ==> run[i + 1] == #[trigger] tail[i]);
        assert forall|i: int|
            0 <= i < nows.len() - 1 implies #[trigger] run[i + 1] >= run[i] + interval by {
            if i == 0 {
                if nows.len() >= 2 {
                    assert(run[1] == tail[0]);
                    assert(tail[0] == spec_grant(g, interval, nows.skip(1)[0]));
                    assert(tail[0] >= g + interval);
                }
            } else {
                assert(tail[i] >= tail[i - 1] + interval);
            }
        }
    }
}

/// The next batch size after observing `qps` against a target: grow by a
/// fifth when clearly above target, shrink by a sixth when clearly below,
/// clamped to the configured bounds.
pub open spec fn spec_adjust(cur: int, min_size: int, max_size: int, target: int, qps: int) -> int {
    if qps * 10 > target * 11 {
        if cur * 6 / 5 > max_size {
            max_size
        } else {
            cur * 6 / 5
        }
    } else if qps * 10 < target * 9 {
        if cur * 5 / 6 < min_size {
            min_size
        } else {
            cur * 5 / 6
        }
    } else {
        cur
    }
}

/// Adaptive batch sizer: tunes the batch size toward a target throughput.
pub struct AdaptiveBatchSizer {
    current_size: usize,
    min_size: usize,
    max_size: usize,
    target_qps: u64,
}

impl AdaptiveBatchSizer {
    /// The current batch size.
    pub closed spec fn spec_current(&self) -> int {
        self.current_size as int
    }

    /// The smallest allowed batch size.
    pub closed spec fn spec_min(&self) -> int {
        self.min_size as int
    }

    /// The largest allowed batch size.
    pub closed spec fn spec_max(&self) -> int {
        self.max_size as int
    }

    /// The target throughput, queries per second.
    pub closed spec fn spec_target(&self) -> int {
        self.target_qps as int
    }

    /// Bounds hold.
    pub open spec fn wf(&self) -> bool {
        self.spec_min() <= self.spec_current() <= self.spec_max()
    }

    /// A sizer starting at `initial_size`, bounded by `min_size` and
    /// `max_size`, targeting one thousand queries per second.
    pub fn new(initial_size: usize, min_size: usize, max_size: usize) -> (r: AdaptiveBatchSizer)
        requires
            min_size <= initial_size <= max_size,
        ensures
            r.wf(),
            r.spec_current() == initial_size,
            r.spec_min() == min_size,
            r.spec_max() == max_size,
            r.spec_target() == 1000,
    {
        AdaptiveBatchSizer { current_size: initial_size, min_size, max_size, target_qps: 1000 }
    }

    /// Adjusts the batch size after observing `current_qps`.
    ///
    /// Above 1.1 times the target the size grows and never shrinks; below
    /// 0.9 times the target it shrinks and never grows; in between it is
    /// unchanged. The size stays within the configured bounds.
    pub fn adjust(&mut self, current_qps: u64)
        requires
            old(self).wf(),
        ensures
            final(self).wf(),
            final(self).spec_min() == old(self).spec_min(),
            final(self).spec_max() == old(self).spec_max(),
            final(self).spec_target() == old(self).spec_target(),
            final(self).spec_current() == spec_adjust(
                old(self).spec_current(),
                old(self).spec_min(),
                old(self).spec_max(),
                old(self).spec_target(),
                current_qps as int,
            ),
            current_qps * 10 > old(self).spec_target() * 11 ==> final(self).spec_current() >= old(
                self,
            ).spec_current(),
            current_qps * 10 < old(self).spec_target() * 9 ==> final(self).spec_current() <= old(
                self,
            ).spec_current(),
            !(current_qps * 10 > old(self).spec_target() * 11) && !(current_qps * 10 < old(
                self,
            ).spec_target() * 9) ==> final(self).spec_current() == old(self).spec_current(),
    {
        let q = (current_qps as u128) * 10;
        let hi = (self.target_qps as u128) * 11;
        let lo = (self.target_qps as u128) * 9;
        if q > hi {
            let grown = (self.current_size as u128) * 6 / 5;
            proof {
                assert(grown >= self.current_size) by (nonlinear_arith)
                    requires
                        grown == (self.current_size as u128) * 6 / 5,
                ;
            }
            if grown > (self.max_size as u128) {
                self.current_size = self.max_size;
            } else {
                self.current_size = grown as usize;
            }
        } else if q < lo {
            let shrunk = (self.current_size as u128) * 5 / 6;
            proof {
                assert(shrunk <= self.current_size) by (nonlinear_arith)
                    requires
                        shrunk == (self.current_size as u128) * 5 / 6,
                ;
            }
            if shrunk < (self.min_size as u128) {
                self.current_size = self.min_size;
            } else {
                self.current_size = shrunk as usize;
            }
        }
    }

    /// The current batch size.
    pub fn current_size(&self) -> (r: usize)
        ensures
            r == self.spec_current(),
    {
        self.current_size
    }
}

/// The batch size after folding a run of observations.
pub open spec fn run_adjust(cur: int, min_size: int, max_size: int, target: int, qs: Seq<int>) -> int
    decreases qs.len(),
{
    if qs.len() == 0 {
        cur
    } else {
        run_adjust(spec_adjust(cur, min_size, max_size, target, qs[0]), min_size, max_size, target, qs.skip(1))
    }
}

/// Adaptive batcher monotonicity: over any run of throughput observations
/// that all lie above the growth threshold, the batch size never decreases
/// and never exceeds the maximum; symmetrically, observations below the
/// shrink threshold never increase it and never pass the minimum.
pub proof fn lemma_batcher_monotone(
    cur: int,
    min_size: int,
    max_size: int,
    target: int,
    qs: Seq<int>,
)
    requires
        0 <= min_size <= cur <= max_size,
        target >= 0,
    ensures
        (forall|i: int| 0 <= i < qs.len() ==> #[trigger] qs[i] * 10 > target * 11) ==> run_adjust(
            cur,
            min_size,
            max_size,
            target,
            qs,
        ) >= cur && run_adjust(cur, min_size, max_size, target, qs) <= max_size,
        (forall|i: int| 0 <= i < qs.len() ==> #[trigger] qs[i] * 10 < target * 9) ==> run_adjust(
            cur,
            min_size,
            max_size,
            target,
            qs,
        ) <= cur && run_adjust(cur, min_size, max_size, target, qs) >= min_size,
    decreases qs.len(),
{
    if qs.len() > 0 {
        let next = spec_adjust(cur, min_size, max_size, target, qs[0]);
        assert(qs[0] * 10 > target * 11 ==> next >= cur && min_size <= next <= max_size) by {
            if qs[0] * 10 > target * 11 {
                assert(cur * 6 / 5 >= cur) by (nonlinear_arith)
                    requires
                        cur >= 0,
                ;
            }
        }
        assert(qs[0] * 10 < target * 9 ==> next <= cur && min_size <= next <= max_size) by {
            if qs[0] * 10 < target * 9 {
                assert(cur * 5 / 6 <= cur) by (nonlinear_arith)
                    requires
                        cur >= 0,
                ;
            }
        }
        if qs[0] * 10 > target * 11 || qs[0] * 10 < target * 9 {
            lemma_batcher_monotone(next, min_size, max_size, target, qs.skip(1));
        } else {
            lemma_batcher_monotone(cur, min_size, max_size, target, qs.skip(1));
        }
        assert(forall|i: int| 0 <= i < qs.skip(1).len() ==> qs.skip(1)[i] == qs[i + 1]);
    }
}

/// Tracker of in-flight permits: the verified model of the concurrency
/// semaphore. At every point the number of permits out is bounded by the
/// capacity.
pub struct PermitTracker {
    capacity: usize,
    in_flight: usize,
}

impl PermitTracker {
    /// The configured bound.
    pub closed spec fn spec_capacity(&self) -> int {
        self.capacity as int
    }

    /// Operations currently holding a permit.
    pub closed spec fn spec_in_flight(&self) -> int {
        self.in_flight as int
    }

    /// The concurrency bound holds.
    pub open spec fn wf(&self) -> bool {
        0 <= self.spec_in_flight() <= self.spec_capacity()
    }

    /// A tracker with `capacity` permits, none taken.
    pub fn new(capacity: usize) -> (r: PermitTracker)
        ensures
            r.wf(),
            r.spec_capacity() == capacity,
            r.spec_in_flight() == 0,
    {
        PermitTracker { capacity, in_flight: 0 }
    }

    /// Takes a permit when one is free.
    pub fn try_acquire(&mut self) -> (granted: bool)
        requires
            old(self).wf(),
        ensures
            final(self).wf(),
            final(self).spec_capacity() == old(self).spec_capacity(),
            granted == (old(self).spec_in_flight() < old(self).spec_capacity()),
            granted ==> final(self).spec_in_flight() == old(self).spec_in_flight() + 1,
            !granted ==> final(self).spec_in_flight() == old(self).spec_in_flight(),
    {
        if self.in_flight < self.capacity {
            self.in_flight = self.in_flight + 1;
            true
        } else {
            false
        }
    }

    /// Returns a permit.
    pub fn release(&mut self)
        requires
            old(self).wf(),
            old(self).spec_in_flight() > 0,
        ensures
            final(self).wf(),
            final(self).spec_capacity() == old(self).spec_capacity(),
            final(self).spec_in_flight() == old(self).spec_in_flight() - 1,
    {
        self.in_flight = self.in_flight - 1;
    }
}

/// One acquire (true) or release (false) event.
pub open spec fn permit_step(in_flight: int, capacity: int, acquire: bool) -> int {
    if acquire {
        if in_flight < capacity {
            in_flight + 1
        } else {
            in_flight
        }
    } else {
        if in_flight > 0 {
            in_flight - 1
        } else {
            in_flight
        }
    }
}

/// Permits in flight after a sequence of acquire and release events.
pub open spec fn permit_run(in_flight: int, capacity: int, ops: Seq<bool>) -> int
    decreases ops.len(),
{
    if ops.len() == 0 {
        in_flight
    } else {
        permit_run(permit_step(in_flight, capacity, ops[0]), capacity, ops.skip(1))
    }
}

/// Pool concurrency bound: whatever sequence of acquire and release events
/// runs against the tracker, the number of permits out never exceeds the
/// capacity.
pub proof fn lemma_permit_bound(in_flight: int, capacity: int, ops: Seq<bool>)
    requires
        0 <= in_flight <= capacity,
    ensures
        0 <= permit_run(in_flight, capacity, ops) <= capacity,
    decreases ops.len(),
{
    if ops.len() > 0 {
        lemma_permit_bound(permit_step(in_flight, capacity, ops[0]), capacity, ops.skip(1));
    }
}

/// The outcome of one scheduled query.
pub enum QueryOutcome {
    /// The operation returned records.
    Success(Vec<DnsRecord>),
    /// The operation failed.
    Failed(DnsxError),
    /// The deadline expired before the operation finished.
    TimedOut,
}

/// The records one outcome contributes to the output stream.
pub open spec fn outcome_records(o: QueryOutcome) -> Seq<DnsRecord> {
    match o {
        QueryOutcome::Success(rs) => rs@,
        _ => Seq::empty(),
    }
}

/// Concatenated records of a batch of outcomes, in completion order.
pub open spec fn batch_records(os: Seq<QueryOutcome>) -> Seq<DnsRecord>
    decreases os.len(),
{
    if os.len() == 0 {
        Seq::empty()
    } else {
        outcome_records(os[0]) + batch_records(os.skip(1))
    }
}

/// Number of successful outcomes.
pub open spec fn count_successes(os: Seq<QueryOutcome>) -> int
    decreases os.len(),
{
    if os.len() == 0 {
        0
    } else {
        (if os[0] is Success {
            1int
        } else {
            0int
        }) + count_successes(os.skip(1))
    }
}

/// Appends all of `src` to `dst`, in order.
pub fn append_records(dst: &mut Vec<DnsRecord>, src: Vec<DnsRecord>)
    ensures
        final(dst)@ == old(dst)@ + src@,
{
    let mut work = src;
    while work.len() > 0
        invariant
            dst@ + work@ == old(dst)@ + src@,
        decreases work@.len(),
    {
        let ghost pre_dst = dst@;
        let ghost pre_work = work@;
        let rec = work.remove(0);
        dst.push(rec);
        proof {
            assert(work@ =~= pre_work.skip(1));
            assert(dst@ + work@ =~= pre_dst + pre_work);
        }
    }
    proof {
        assert(dst@ + work@ =~= dst@);
    }
}

/// Settles a batch of outcomes: emits the successful records in completion
/// order, and counts successes and failures. A failed or timed-out item
/// contributes no records and never fails the batch.
pub fn settle_batch(outcomes: Vec<QueryOutcome>) -> (r: (Vec<DnsRecord>, usize, usize))
    ensures
        r.0@ == batch_records(outcomes@),
        r.1 == count_successes(outcomes@),
        r.2 == outcomes@.len() - count_successes(outcomes@),
        r.1 + r.2 == outcomes@.len(),
{
    let ghost all = outcomes@;
    let mut records: Vec<DnsRecord> = Vec::new();
    let mut successes: usize = 0;
    let mut failures: usize = 0;
    let mut rest = outcomes;
    let n_all = rest.len();
    let mut done: usize = 0;
    proof {
        lemma_count_successes_bounds(all);
        assert(all.skip(0) =~= all);
        assert(records@ + batch_records(all) =~= batch_records(all));
    }
    while rest.len() > 0
        invariant
            all == outcomes@,
            all.len() == n_all,
            rest@ == all.skip(done as int),
            done <= all.len(),
            successes <= done,
            failures <= done,
            records@ + batch_records(all.skip(done as int)) == batch_records(all),
            successes + count_successes(all.skip(done as int)) == count_successes(all),
            successes + failures == done,
            0 <= count_successes(all) <= all.len(),
            0 <= count_successes(all.skip(done as int)) <= all.len() - done,
        decreases all.len() - done,
    {
        let ghost remaining = all.skip(done as int);
        let o = rest.remove(0);
        proof {
            assert(rest@ =~= remaining.skip(1));
            assert(remaining.skip(1) =~= all.skip(done as int + 1));
            assert(remaining[0] == o);
            lemma_count_successes_bounds(all.skip(done as int + 1));
            assert(batch_records(remaining) == outcome_records(o) + batch_records(
                all.skip(done as int + 1),
            ));
        }
        match o {
            QueryOutcome::Success(rs) => {
                let ghost pre_records = records@;
                append_records(&mut records, rs);
                proof {
                    assert(records@ + batch_records(all.skip(done as int + 1)) =~= pre_records
                        + batch_records(remaining));
                }
                successes = successes + 1;
            },
            QueryOutcome::Failed(_) => {
                failures = failures + 1;
                proof {
                    assert(outcome_records(remaining[0]) =~= Seq::<DnsRecord>::empty());
                    assert(records@ + batch_records(all.skip(done as int + 1)) =~= records@
                        + batch_records(remaining));
                }
            },
            QueryOutcome::TimedOut => {
                failures = failures + 1;
                proof {
                    assert(outcome_records(remaining[0]) =~= Seq::<DnsRecord>::empty());
                    assert(records@ + batch_records(all.skip(done as int + 1)) =~= records@
                        + batch_records(remaining));
                }
            },
        }
        done = done + 1;
    }
    proof {
        assert(all.skip(done as int).len() == 0);
        assert(batch_records(all.skip(done as int)) =~= Seq::<DnsRecord>::empty());
        assert(records@ + batch_records(all.skip(done as int)) =~= records@);
    }
    (records, successes, failures)
}

proof fn lemma_count_successes_bounds(os: Seq<QueryOutcome>)
    ensures
        0 <= count_successes(os) <= os.len(),
    decreases os.len(),
{
    if os.len() > 0 {
        lemma_count_successes_bounds(os.skip(1));
    }
}

/// Number of batches a run of `n` items needs at `batch_size` per batch.
pub fn batch_count(n: usize, batch_size: usize) -> (r: usize)
    requires
        batch_size >= 1,
    ensures
        r == (n + batch_size - 1) as int / batch_size as int,
        r * batch_size >= n,
        n > 0 ==> (r - 1) * batch_size < n,
{
    let q = n / batch_size;
    let m = n % batch_size;
    proof {
        vstd::arithmetic::div_mod::lemma_fundamental_div_mod(n as int, batch_size as int);
        if m > 0 {
            assert(q + 1 <= n) by (nonlinear_arith)
                requires
                    batch_size >= 1,
                    n == batch_size * q + m,
                    m >= 1,
                    q >= 0,
            ;
        }
    }
    let r = if m > 0 {
        q + 1
    } else {
        q
    };
    proof {
        vstd::arithmetic::div_mod::lemma_fundamental_div_mod(n as int, batch_size as int);
        let q = n as int / batch_size as int;
        let m = n as int % batch_size as int;
        assert((n + batch_size - 1) as int / batch_size as int == q + (if m > 0 {
            1int
        } else {
            0int
        })) by (nonlinear_arith)
            requires
                batch_size >= 1,
                n == batch_size * q + m,
                0 <= m < batch_size,
        ;
        assert(r * batch_size >= n) by (nonlinear_arith)
            requires
                batch_size >= 1,
                n == batch_size * q + m,
                0 <= m < batch_size,
                r == q + (if m > 0 {
                    1int
                } else {
                    0int
                }),
        ;
        if n > 0 {
            assert((r - 1) * batch_size < n) by (nonlinear_arith)
                requires
                    batch_size >= 1,
                    n == batch_size * q + m,
                    0 <= m < batch_size,
                    n > 0,
                    r == q + (if m > 0 {
                        1int
                    } else {
                        0int
                    }),
            ;
        }
    }
    r
}

/// Lines cleaned for streaming: trimmed, with blank lines and comment lines
/// dropped.
pub open spec fn clean_of(lines: Seq<Seq<char>>) -> Seq<Seq<char>>
    decreases lines.len(),
{
    if lines.len() == 0 {
        Seq::empty()
    } else {
        let t = spec_trim(lines[0]);
        (if t.len() > 0 && t[0] != '#' {
            seq![t]
        } else {
            Seq::empty()
        }) + clean_of(lines.skip(1))
    }
}

/// The domains a byte of text yields: its lines, trimmed, without blanks
/// and comments.
pub open spec fn spec_stream_domains(s: Seq<char>) -> Seq<Seq<char>> {
    clean_of(split_sep(s, '\n'))
}

/// Streaming reader of domain lists.
///
/// Holds the text of a line-oriented source; `stream_domains` yields the
/// trimmed lines, skipping blank lines and lines whose first character
/// after trimming is `#`.
pub struct DomainStreamer {
    input: String,
    buffer_size: usize,
}

impl DomainStreamer {
    /// The text streamed over.
    pub closed spec fn spec_input(&self) -> Seq<char> {
        self.input@
    }

    /// The configured buffer size.
    pub closed spec fn spec_buffer_size(&self) -> int {
        self.buffer_size as int
    }

    /// A streamer over the given text, with the default 8 KiB buffer.
    pub fn new(input: String) -> (r: DomainStreamer)
        ensures
            r.spec_input() == input@,
            r.spec_buffer_size() == 8192,
    {
        DomainStreamer { input, buffer_size: 8192 }
    }

    /// The same streamer with another buffer size.
    pub fn with_buffer_size(self, size: usize) -> (r: DomainStreamer)
        ensures
            r.spec_input() == self.spec_input(),
            r.spec_buffer_size() == size,
    {
        DomainStreamer { input: self.input, buffer_size: size }
    }

    /// The sequence of domains in the input: every non-empty, non-comment
    /// line in order, each trimmed.
    pub fn stream_domains(self) -> (r: Vec<String>)
        ensures
            r@.len() == spec_stream_domains(self.spec_input()).len(),
            forall|i: int| 0 <= i < r@.len() ==> (#[trigger] r@[i])@ == spec_stream_domains(
                self.spec_input(),
            )[i],
    {
        let v = crate::text::chars_of_str(self.input.as_str());
        proof {
            assert(v@.skip(0) =~= v@);
        }
        let lines = crate::ip::split_sep_exec(&v, 0, '\n');
        let ghost linespec = split_sep(v@, '\n');
        let mut out: Vec<String> = Vec::new();
        let mut k: usize = 0;
        proof {
            assert(linespec.skip(0) =~= linespec);
        }
        while k < lines.len()
            invariant
                k <= lines@.len(),
                lines@.len() == linespec.len(),
                forall|i: int| 0 <= i < lines@.len() ==> (#[trigger] lines@[i])@ == linespec[i],
                clean_of(linespec).len() >= out@.len(),
                out@.len() + clean_of(linespec.skip(k as int)).len() == clean_of(linespec).len(),
                forall|i: int| 0 <= i < out@.len() ==> (#[trigger] out@[i])@ == clean_of(
                    linespec,
                )[i],
                clean_of(linespec) =~= clean_of(linespec).take(out@.len() as int) + clean_of(
                    linespec.skip(k as int),
                ),
            decreases lines@.len() - k,
        {
            let line = &lines[k];
            let t = crate::text::trim_range(line, 0, line.len());
            proof {
                assert(line@.subrange(0, line@.len() as int) =~= line@);
                assert(linespec.skip(k as int)[0] == linespec[k as int]);
                assert(linespec.skip(k as int).skip(1) =~= linespec.skip(k as int + 1));
            }
            let keep = if t.len() == 0 {
                false
            } else {
                t[0] != '#'
            };
            if keep {
                out.push(crate::text::string_from_chars(&t));
            }
            proof {
                let pre = clean_of(linespec).take((out@.len() - (if keep {
                    1int
                } else {
                    0int
                })) as int);
                assert(clean_of(linespec) =~= clean_of(linespec).take(out@.len() as int)
                    + clean_of(linespec.skip(k as int + 1)));
            }
            k = k + 1;
        }
        proof {
            assert(linespec.skip(linespec.len() as int).len() == 0);
            assert(clean_of(linespec.skip(lines@.len() as int)) =~= Seq::<Seq<char>>::empty());
        }
        out
    }
}

} // verus!
