//! The resolver pool: an ordered list of recursive resolvers, a global
//! concurrency bound, and the deterministic failover rule.
//!
//! The pool's network work (sending one query to one resolver) happens
//! outside the library; the pool decides, from each attempt's outcome,
//! whether to return, try the next resolver in list order, or fail.

use vstd::prelude::*;
use crate::concurrency::PermitTracker;
use crate::config::DnsxOptions;
use crate::error::DnsxError;
use crate::response_codes::ResponseCode;
use crate::utils::{parse_resolver, spec_parse_resolver};

verus! {

/// The outcome of one query attempt against one resolver.
pub enum ResolveEvent {
    /// The resolver answered with this response code.
    Answer(ResponseCode),
    /// The transport failed (connection refused, malformed reply).
    TransportError,
    /// The per-attempt deadline expired.
    TimedOut,
}

/// Whether an attempt outcome ends the failover walk successfully.
///
/// An answer with `NoError` is a success; `NxDomain` is a definitive answer
/// and also returns immediately. Any other response code counts as a server
/// failure, and transport errors and timeouts fall through to the next
/// resolver.
pub open spec fn event_succeeds(e: ResolveEvent) -> bool {
    match e {
        ResolveEvent::Answer(rc) => rc == ResponseCode::NoError || rc == ResponseCode::NxDomain,
        _ => false,
    }
}

/// What the pool does after one attempt.
#[derive(Debug, Clone, Copy, PartialEq, Eq, Structural)]
pub enum FailoverDecision {
    /// Use this answer.
    ReturnAnswer,
    /// Try the next resolver in list order.
    TryNext,
    /// Every resolver was tried; fail with a resolve error.
    Fail,
}

/// The index of the first successful attempt, if any.
pub open spec fn failover_run(events: Seq<ResolveEvent>) -> Option<int>
    decreases events.len(),
{
    if events.len() == 0 {
        None
    } else if event_succeeds(events[0]) {
        Some(0)
    } else {
        match failover_run(events.skip(1)) {
            None => None,
            Some(i) => Some(i + 1),
        }
    }
}

/// One step of the failover walk: return on success, advance in list order
/// on failure, fail once the list is exhausted.
pub fn failover_step(idx: usize, resolver_count: usize, event: &ResolveEvent) -> (r:
    FailoverDecision)
    requires
        idx < resolver_count,
    ensures
        event_succeeds(*event) ==> r == FailoverDecision::ReturnAnswer,
        !event_succeeds(*event) && idx + 1 < resolver_count ==> r == FailoverDecision::TryNext,
        !event_succeeds(*event) && idx + 1 == resolver_count ==> r == FailoverDecision::Fail,
{
    let succeeded = match event {
        ResolveEvent::Answer(rc) => match rc {
            ResponseCode::NoError => true,
            ResponseCode::NxDomain => true,
            _ => false,
        },
        _ => false,
    };
    if succeeded {
        FailoverDecision::ReturnAnswer
    } else if idx + 1 < resolver_count {
        FailoverDecision::TryNext
    } else {
        FailoverDecision::Fail
    }
}

/// The index of the first successful attempt, if any.
pub fn select_answering(events: &Vec<ResolveEvent>) -> (r: Option<usize>)
    ensures
        match r {
            Some(i) => failover_run(events@) == Some(i as int),
            None => (failover_run(events@) matches None),
        },
{
    let mut i: usize = 0;
    while i < events.len()
        invariant
            i <= events@.len(),
            forall|j: int| 0 <= j < i ==> !event_succeeds(#[trigger] events@[j]),
        decreases events@.len() - i,
    {
        let succeeded = match &events[i] {
            ResolveEvent::Answer(rc) => match rc {
                ResponseCode::NoError => true,
                ResponseCode::NxDomain => true,
                _ => false,
            },
            _ => false,
        };
        if succeeded {
            proof {
                lemma_failover_run_first(events@, i as int);
            }
            return Some(i);
        }
        i = i + 1;
    }
    proof {
        lemma_failover_run_none(events@);
    }
    None
}

/// Resolver failover determinism: when the resolvers before index `k` all
/// fail and the resolver at `k` answers, the walk selects exactly index `k`
/// — so the answering resolver's identity is the list's `k`-th address.
pub proof fn lemma_failover_run_first(events: Seq<ResolveEvent>, k: int)
    requires
        0 <= k < events.len(),
        forall|j: int| 0 <= j < k ==> !event_succeeds(#[trigger] events[j]),
        event_succeeds(events[k]),
    ensures
        failover_run(events) == Some(k),
    decreases k,
{
    if k == 0 {
    } else {
        assert(!event_succeeds(events[0]));
        assert(forall|j: int| 0 <= j < events.skip(1).len() ==> events.skip(1)[j] == events[j + 1]);
        lemma_failover_run_first(events.skip(1), k - 1);
    }
}

/// When every attempt fails, the walk selects nothing.
pub proof fn lemma_failover_run_none(events: Seq<ResolveEvent>)
    requires
        forall|j: int| 0 <= j < events.len() ==> !event_succeeds(#[trigger] events[j]),
    ensures
        (failover_run(events) matches None),
    decreases events.len(),
{
    if events.len() > 0 {
        assert(forall|j: int| 0 <= j < events.skip(1).len() ==> events.skip(1)[j] == events[j + 1]);
        lemma_failover_run_none(events.skip(1));
    }
}

/// The resolver pool: the validated resolver addresses in fallback order,
/// the per-attempt timeout, the per-resolver retry count, and the permit
/// tracker bounding in-flight queries.
pub struct ResolverPool {
    resolvers: Vec<String>,
    timeout_ms: u64,
    retries: u32,
    permits: PermitTracker,
}

impl ResolverPool {
    /// The normalized resolver addresses, in fallback order.
    pub closed spec fn spec_resolvers(&self) -> Seq<String> {
        self.resolvers@
    }

    /// The per-attempt timeout in milliseconds.
    pub closed spec fn spec_timeout_ms(&self) -> u64 {
        self.timeout_ms
    }

    /// The per-resolver retry count.
    pub closed spec fn spec_retries(&self) -> u32 {
        self.retries
    }

    /// Permits out right now.
    pub closed spec fn spec_in_flight(&self) -> int {
        self.permits.spec_in_flight()
    }

    /// The concurrency bound.
    pub closed spec fn spec_concurrency(&self) -> int {
        self.permits.spec_capacity()
    }

    /// At least one resolver, permits within bounds.
    pub open spec fn wf(&self) -> bool {
        &&& self.spec_resolvers().len() >= 1
        &&& 0 <= self.spec_in_flight() <= self.spec_concurrency()
    }

    /// Builds a pool from options: every resolver string must parse, and at
    /// least one is required. Each address is normalized to `ip:port`.
    pub fn new(options: &DnsxOptions) -> (r: Result<ResolverPool, DnsxError>)
        ensures
            match r {
                Ok(pool) => {
                    &&& pool.wf()
                    &&& options.resolvers@.len() >= 1
                    &&& pool.spec_resolvers().len() == options.resolvers@.len()
                    &&& forall|i: int|
                        0 <= i < options.resolvers@.len() ==> spec_parse_resolver(
                            (#[trigger] options.resolvers@[i])@,
                        ) == Some(pool.spec_resolvers()[i]@)
                    &&& pool.spec_timeout_ms() == options.timeout_ms
                    &&& pool.spec_retries() == options.retries
                    &&& pool.spec_concurrency() == options.concurrency
                    &&& pool.spec_in_flight() == 0
                },
                Err(e) => {
                    ||| (options.resolvers@.len() == 0 && (e matches DnsxError::Validation(m)
                        && m@ == "At least one resolver is required"@))
                    ||| (exists|i: int|
                        0 <= i < options.resolvers@.len() && spec_parse_resolver(
                            (#[trigger] options.resolvers@[i])@,
                        ) is None) && (e matches DnsxError::InvalidInput(_))
                },
            },
    {
        if options.resolvers.len() == 0 {
            return Err(DnsxError::Validation(String::from_str("At least one resolver is required")));
        }
        let mut parsed: Vec<String> = Vec::new();
        let mut i: usize = 0;
        while i < options.resolvers.len()
            invariant
                i <= options.resolvers@.len(),
                parsed@.len() == i,
                forall|j: int| 0 <= j < i ==> spec_parse_resolver((#[trigger] options.resolvers@[j])@)
                    == Some(parsed@[j]@),
            decreases options.resolvers@.len() - i,
        {
            match parse_resolver(options.resolvers[i].as_str()) {
                Ok(addr) => {
                    parsed.push(addr);
                },
                Err(e) => {
                    return Err(e);
                },
            }
            i = i + 1;
        }
        Ok(
            ResolverPool {
                resolvers: parsed,
                timeout_ms: options.timeout_ms,
                retries: options.retries,
                permits: PermitTracker::new(options.concurrency),
            },
        )
    }

    /// The primary resolver's address.
    pub fn primary_resolver(&self) -> (r: &String)
        requires
            self.wf(),
        ensures
            r@ == self.spec_resolvers()[0]@,
    {
        &self.resolvers[0]
    }

    /// Number of resolvers in the pool.
    pub fn resolver_count(&self) -> (r: usize)
        ensures
            r == self.spec_resolvers().len(),
    {
        self.resolvers.len()
    }

    /// The address of the resolver at `idx`.
    pub fn resolver_at(&self, idx: usize) -> (r: &String)
        requires
            idx < self.spec_resolvers().len(),
        ensures
            r@ == self.spec_resolvers()[idx as int]@,
    {
        &self.resolvers[idx]
    }

    /// Takes one concurrency permit when one is free. The driver must call
    /// this before issuing a query, and `release_permit` on every exit path.
    pub fn try_acquire_permit(&mut self) -> (granted: bool)
        requires
            old(self).wf(),
        ensures
            final(self).wf(),
            final(self).spec_resolvers() == old(self).spec_resolvers(),
            final(self).spec_timeout_ms() == old(self).spec_timeout_ms(),
            final(self).spec_retries() == old(self).spec_retries(),
            final(self).spec_concurrency() == old(self).spec_concurrency(),
            granted == (old(self).spec_in_flight() < old(self).spec_concurrency()),
            granted ==> final(self).spec_in_flight() == old(self).spec_in_flight() + 1,
            !granted ==> final(self).spec_in_flight() == old(self).spec_in_flight(),
    {
        self.permits.try_acquire()
    }

    /// Returns one concurrency permit.
    pub fn release_permit(&mut self)
        requires
            old(self).wf(),
            old(self).spec_in_flight() > 0,
        ensures
            final(self).wf(),
            final(self).spec_resolvers() == old(self).spec_resolvers(),
            final(self).spec_timeout_ms() == old(self).spec_timeout_ms(),
            final(self).spec_retries() == old(self).spec_retries(),
            final(self).spec_concurrency() == old(self).spec_concurrency(),
            final(self).spec_in_flight() == old(self).spec_in_flight() - 1,
    {
        self.permits.release()
    }

    /// The error returned when every resolver failed.
    pub fn exhausted_error(&self) -> (r: DnsxError)
        ensures
            r matches DnsxError::Resolve(m) && m@ == "all resolvers failed"@,
    {
        DnsxError::Resolve(String::from_str("all resolvers failed"))
    }
}

} // verus!
