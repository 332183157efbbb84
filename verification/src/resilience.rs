//! Fault tolerance for the pipeline: a circuit breaker over a sliding
//! window, the retry schedule, request-id hashing and the pipeline's
//! counters.
//!
//! The breaker opens when, among at least five requests recorded in the
//! last sixty seconds, more than a fifth failed; it refuses requests for
//! thirty seconds, then lets one through half-open, and a success there
//! closes it again.
//!
//! Times are nanoseconds on the monotonic clock since the breaker was
//! made.  Each timed operation has a form that takes the time as an
//! argument, verified for every time, and a plain form that reads the
//! clock.
use vstd::prelude::*;
use std::hash::{Hash, Hasher};
use crate::clock::{instant_now, nanos_since};
use crate::error::KceError;
use crate::latency::{LatencyHistogram, wrap_add};
use crate::idempotency::{IdempotencyCache, lookup_step, live_entries, live_order};
use vstd::string::*;

verus! {

/// Circuit breaker states.
#[derive(Debug, Clone, Copy, PartialEq, Eq, Structural)]
pub enum CircuitState {
    /// Normal operation: requests pass through.
    Closed,
    /// Too many failures: requests are refused.
    Open,
    /// Testing recovery: a request is let through.
    HalfOpen,
}

/// Sixty seconds: the sliding window over which the error rate is taken.
pub const WINDOW_NANOS: u64 = 60_000_000_000;

/// Thirty seconds: how long an open breaker refuses requests.
pub const OPEN_NANOS: u64 = 30_000_000_000;

/// Fewest requests in the window on which the breaker may open.
pub const MIN_REQUESTS: usize = 5;

/// A time stamp `t` is still inside the window at `now`.
pub open spec fn in_window(t: u64, now: u64, window: u64) -> bool {
    t + window > now
}

/// The time stamps of `ts` still inside the window at `now`, in order.
pub open spec fn recent(ts: Seq<u64>, now: u64, window: u64) -> Seq<u64> {
    ts.filter(|t: u64| in_window(t, now, window))
}

/// `a - b`, or 0 when `b > a`.
pub open spec fn elapsed(now: u64, since: u64) -> u64 {
    if now >= since {
        (now - since) as u64
    } else {
        0
    }
}

/// The error rate is above one fifth on at least `MIN_REQUESTS` requests.
pub open spec fn too_many_failures(failures: nat, successes: nat) -> bool {
    failures + successes >= MIN_REQUESTS && 5 * failures > failures + successes
}

/// The state of a breaker, as a value.
pub struct BreakerView {
    pub state: CircuitState,
    pub failures: Seq<u64>,
    pub successes: Seq<u64>,
    pub opened_at: Option<u64>,
}

/// Drop the time stamps that left the window.
pub open spec fn evicted(v: BreakerView, now: u64) -> BreakerView {
    BreakerView {
        failures: recent(v.failures, now, WINDOW_NANOS),
        successes: recent(v.successes, now, WINDOW_NANOS),
        ..v
    }
}

/// What `check` does: the breaker after the call, and the state it
/// reports, or `None` when it refuses the request.
pub open spec fn check_step(v: BreakerView, now: u64) -> (BreakerView, Option<CircuitState>) {
    let e = evicted(v, now);
    match e.state {
        CircuitState::Open => {
            if e.opened_at is Some && elapsed(now, e.opened_at->0) >= OPEN_NANOS {
                (BreakerView { state: CircuitState::HalfOpen, ..e }, Some(CircuitState::HalfOpen))
            } else {
                (e, None)
            }
        },
        other => (e, Some(other)),
    }
}

/// What recording a success at `now` does.
pub open spec fn success_step(v: BreakerView, now: u64) -> BreakerView {
    let pushed = BreakerView { successes: v.successes.push(now), ..v };
    if v.state == CircuitState::HalfOpen {
        BreakerView { state: CircuitState::Closed, failures: Seq::empty(), ..pushed }
    } else {
        pushed
    }
}

/// What recording a failure at `now` does.
pub open spec fn failure_step(v: BreakerView, now: u64) -> BreakerView {
    let e = evicted(BreakerView { failures: v.failures.push(now), ..v }, now);
    if too_many_failures(e.failures.len(), e.successes.len()) {
        BreakerView { state: CircuitState::Open, opened_at: Some(now), ..e }
    } else {
        e
    }
}

/// Keep the time stamps of `ts` still inside the window at `now`.
fn keep_recent(ts: &mut Vec<u64>, now: u64)
    ensures
        final(ts)@ == recent(old(ts)@, now, WINDOW_NANOS),
{
    let ghost all = ts@;
    let ghost pred = |t: u64| in_window(t, now, WINDOW_NANOS);
    let mut kept: Vec<u64> = Vec::new();
    let mut i: usize = 0;
    while i < ts.len()
        invariant
            ts@ == all,
            i <= all.len(),
            pred == (|t: u64| in_window(t, now, WINDOW_NANOS)),
            kept@ == all.take(i as int).filter(pred),
        decreases all.len() - i,
    {
        let t = ts[i];
        proof {
            assert(all.take(i as int + 1).drop_last() =~= all.take(i as int));
            reveal(Seq::filter);
        }
        if now < WINDOW_NANOS || t > now - WINDOW_NANOS {
            kept.push(t);
        }
        i += 1;
    }
    proof {
        assert(all.take(all.len() as int) =~= all);
    }
    *ts = kept;
}

/// Circuit breaker over a sliding window of request outcomes.
pub struct CircuitBreaker {
    state: CircuitState,
    /// Times of the failures still in the window.
    failures: Vec<u64>,
    /// Times of the successes still in the window.
    successes: Vec<u64>,
    /// When the breaker last opened.
    opened_at: Option<u64>,
    origin: std::time::Instant,
}

impl CircuitBreaker {
    /// The breaker's state, failure and success times and opening time.
    pub closed spec fn view(&self) -> BreakerView {
        BreakerView {
            state: self.state,
            failures: self.failures@,
            successes: self.successes@,
            opened_at: self.opened_at,
        }
    }

    /// A closed breaker with no history.
    pub fn new() -> (r: Self)
        ensures
            r.view() == (BreakerView {
                state: CircuitState::Closed,
                failures: Seq::empty(),
                successes: Seq::empty(),
                opened_at: None,
            }),
    {
        CircuitBreaker {
            state: CircuitState::Closed,
            failures: Vec::new(),
            successes: Vec::new(),
            opened_at: None,
            origin: instant_now(),
        }
    }

    /// The current state.
    pub fn state(&self) -> (r: CircuitState)
        ensures
            r == self.view().state,
    {
        self.state
    }

    /// Drop the outcomes older than the window at time `now`.
    fn evict_old(&mut self, now: u64)
        ensures
            final(self).view() == evicted(old(self).view(), now),
            final(self).origin == old(self).origin,
    {
        keep_recent(&mut self.failures, now);
        keep_recent(&mut self.successes, now);
    }

    /// Whether the breaker lets a request through at time `now`: the
    /// state, or `CircuitOpen` while it is open.  An open breaker turns
    /// half-open once `OPEN_NANOS` have passed since it opened.
    pub fn check_at(&mut self, now: u64) -> (r: Result<CircuitState, KceError>)
        ensures
            final(self).view() == check_step(old(self).view(), now).0,
            match r {
                Ok(s) => check_step(old(self).view(), now).1 == Some(s),
                Err(e) => check_step(old(self).view(), now).1 is None && e == KceError::CircuitOpen,
            },
    {
        self.evict_old(now);
        match self.state {
            CircuitState::Open => {
                if let Some(opened) = self.opened_at {
                    let waited = if now >= opened {
                        now - opened
                    } else {
                        0
                    };
                    if waited >= OPEN_NANOS {
                        self.state = CircuitState::HalfOpen;
                        return Ok(CircuitState::HalfOpen);
                    }
                }
                Err(KceError::CircuitOpen)
            },
            other => Ok(other),
        }
    }

    /// [`Self::check_at`] at the current time.
    pub fn check(&mut self) -> (r: Result<CircuitState, KceError>)
        ensures
            exists|now: u64|
                #![trigger check_step(old(self).view(), now)]
                final(self).view() == check_step(old(self).view(), now).0 && match r {
                    Ok(s) => check_step(old(self).view(), now).1 == Some(s),
                    Err(e) => check_step(old(self).view(), now).1 is None && e
                        == KceError::CircuitOpen,
                },
    {
        let now = nanos_since(&self.origin);
        self.check_at(now)
    }

    /// Record a successful request at time `now`.  A half-open breaker
    /// closes and forgets its failures.
    pub fn record_success_at(&mut self, now: u64)
        ensures
            final(self).view() == success_step(old(self).view(), now),
    {
        self.successes.push(now);
        if self.state == CircuitState::HalfOpen {
            self.state = CircuitState::Closed;
            self.failures.clear();
        }
    }

    /// [`Self::record_success_at`] at the current time.
    pub fn record_success(&mut self)
        ensures
            exists|now: u64| final(self).view() == #[trigger] success_step(old(self).view(), now),
    {
        let now = nanos_since(&self.origin);
        self.record_success_at(now);
    }

    /// Record a failed request at time `now`.  The breaker opens when,
    /// with at least `MIN_REQUESTS` outcomes in the window, more than a
    /// fifth of them are failures.
    pub fn record_failure_at(&mut self, now: u64)
        ensures
            final(self).view() == failure_step(old(self).view(), now),
    {
        self.failures.push(now);
        self.evict_old(now);
        let failures = self.failures.len();
        let total = failures as u128 + self.successes.len() as u128;
        if total >= MIN_REQUESTS as u128 && (failures as u128) * 5 > total {
            self.state = CircuitState::Open;
            self.opened_at = Some(now);
        }
    }

    /// [`Self::record_failure_at`] at the current time.
    pub fn record_failure(&mut self)
        ensures
            exists|now: u64| final(self).view() == #[trigger] failure_step(old(self).view(), now),
    {
        let now = nanos_since(&self.origin);
        self.record_failure_at(now);
    }
}

impl Default for CircuitBreaker {
    fn default() -> (r: Self)
        ensures
            r.view() == (BreakerView {
                state: CircuitState::Closed,
                failures: Seq::empty(),
                successes: Seq::empty(),
                opened_at: None,
            }),
    {
        Self::new()
    }
}

/// An open breaker refuses every request until `OPEN_NANOS` have passed
/// since it opened, and lets the next one through half-open after that.
pub proof fn lemma_open_waits(v: BreakerView, now: u64)
    requires
        v.state == CircuitState::Open,
        v.opened_at is Some,
    ensures
        elapsed(now, v.opened_at->0) < OPEN_NANOS ==> check_step(v, now).1 is None
            && check_step(v, now).0.state == CircuitState::Open,
        elapsed(now, v.opened_at->0) >= OPEN_NANOS ==> check_step(v, now).1 == Some(
            CircuitState::HalfOpen,
        ) && check_step(v, now).0.state == CircuitState::HalfOpen,
{
}

/// A breaker that is not open lets every request through, and checking
/// does not change its state.
pub proof fn lemma_not_open_allows(v: BreakerView, now: u64)
    requires
        v.state != CircuitState::Open,
    ensures
        check_step(v, now).1 == Some(v.state),
        check_step(v, now).0.state == v.state,
{
}

/// A failure opens the breaker exactly when, counting it, more than a
/// fifth of at least `MIN_REQUESTS` outcomes in the window failed;
/// otherwise the state is unchanged.
pub proof fn lemma_failure_opens(v: BreakerView, now: u64)
    ensures
        ({
            let e = evicted(BreakerView { failures: v.failures.push(now), ..v }, now);
            &&& too_many_failures(e.failures.len(), e.successes.len()) ==> failure_step(
                v,
                now,
            ).state == CircuitState::Open && failure_step(v, now).opened_at == Some(now)
            &&& !too_many_failures(e.failures.len(), e.successes.len()) ==> failure_step(
                v,
                now,
            ).state == v.state
        }),
{
}

/// With fewer than `MIN_REQUESTS` outcomes in the window a failure never
/// opens a closed breaker.
pub proof fn lemma_few_requests_stay_closed(v: BreakerView, now: u64)
    requires
        v.state == CircuitState::Closed,
        recent(v.failures.push(now), now, WINDOW_NANOS).len() + recent(
            v.successes,
            now,
            WINDOW_NANOS,
        ).len() < MIN_REQUESTS,
    ensures
        failure_step(v, now).state == CircuitState::Closed,
{
}

/// A success while half-open closes the breaker and clears its failures.
pub proof fn lemma_half_open_success_closes(v: BreakerView, now: u64)
    requires
        v.state == CircuitState::HalfOpen,
    ensures
        success_step(v, now).state == CircuitState::Closed,
        success_step(v, now).failures.len() == 0,
{
}

/// Backoff before the retries, in milliseconds.
pub const BACKOFF_MS: [u64; 3] = [50, 100, 200];

/// How many times a request is attempted: once, then one retry after
/// each backoff delay.
pub const MAX_ATTEMPTS: u32 = 4;

/// The delay before attempt `attempt` (counted from 0): none before the
/// first, then the backoff schedule, 200 ms past its end.
pub open spec fn spec_retry_delay(attempt: u32) -> u64 {
    if attempt == 0 {
        0
    } else if attempt == 1 {
        50
    } else if attempt == 2 {
        100
    } else {
        200
    }
}

/// What the retry loop does next.
#[derive(Debug, Clone, Copy, PartialEq, Eq, Structural)]
pub enum AttemptPlan {
    /// Wait `delay_ms`, then make attempt `attempt`.
    Run { attempt: u32, delay_ms: u64 },
    /// No attempts are left.
    Exhausted,
}

/// The plan for attempt `attempt` (counted from 0).
pub fn plan_attempt(attempt: u32) -> (r: AttemptPlan)
    ensures
        r == spec_plan(attempt),
{
    if attempt >= MAX_ATTEMPTS {
        return AttemptPlan::Exhausted;
    }
    let delay_ms = if attempt == 0 {
        0
    } else {
        let i = (attempt - 1) as usize;
        if i < BACKOFF_MS.len() {
            BACKOFF_MS[i]
        } else {
            200
        }
    };
    AttemptPlan::Run { attempt, delay_ms }
}

/// A request is attempted at most four times: at once, then retried
/// after 50, 100 and 200 ms.
pub proof fn lemma_retry_schedule(attempt: u32)
    ensures
        attempt >= MAX_ATTEMPTS ==> spec_plan(attempt) == AttemptPlan::Exhausted,
        spec_plan(0) == (AttemptPlan::Run { attempt: 0, delay_ms: 0 }),
        spec_plan(1) == (AttemptPlan::Run { attempt: 1, delay_ms: 50 }),
        spec_plan(2) == (AttemptPlan::Run { attempt: 2, delay_ms: 100 }),
        spec_plan(3) == (AttemptPlan::Run { attempt: 3, delay_ms: 200 }),
        MAX_ATTEMPTS == 4,
{
}

/// [`plan_attempt`] as a value.
pub open spec fn spec_plan(attempt: u32) -> AttemptPlan {
    if attempt < MAX_ATTEMPTS {
        AttemptPlan::Run { attempt, delay_ms: spec_retry_delay(attempt) }
    } else {
        AttemptPlan::Exhausted
    }
}

/// The error returned once every attempt failed: the last attempt's, or
/// a validation error when there was none.
pub fn exhausted_error(last: Option<KceError>) -> (r: KceError)
    ensures
        (last is Some) ==> r == last->0,
        (last is None) ==> (r matches KceError::Validation(s) && s@ == "all retries exhausted"@),
{
    match last {
        Some(e) => e,
        None => KceError::Validation(String::from_str("all retries exhausted")),
    }
}

/// The value `hash_request_id` gives a request id.
pub uninterp spec fn request_hash(request_id: Seq<char>) -> u64;

/// Hash a request id to a `u64` for cache keying: `DefaultHasher::new()`
/// fed the string through `Hash`, then `finish()`.  `DefaultHasher::new`
/// is unseeded, so equal ids hash equally; the value itself is named,
/// not stated.
#[verifier::external_body]
fn hash_request_id(request_id: &str) -> (r: u64)
    ensures
        r == request_hash(request_id@),
{
    let mut hasher = std::collections::hash_map::DefaultHasher::new();
    request_id.hash(&mut hasher);
    hasher.finish()
}

/// What is decided about a request before the pipeline runs.
pub enum Admission<V> {
    /// A response stored for the same request id, handed back as is.
    Cached(V),
    /// The circuit breaker refused the request.
    Refused(KceError),
    /// Neither: run the pipeline.
    Proceed,
}

/// The entries and use order a cache holds after its expired entries are
/// dropped at `t_evict` and `key` is then looked up at `t_get`, and
/// whether that lookup hits.
pub open spec fn evict_then_lookup<V>(
    m: Map<u64, (u64, V)>,
    order: Seq<u64>,
    ttl: u64,
    key: u64,
    t_evict: u64,
    t_get: u64,
) -> (Map<u64, (u64, V)>, Seq<u64>, bool) {
    lookup_step(live_entries(m, ttl, t_evict), live_order(m, order, ttl, t_evict), ttl, key, t_get)
}

/// Drop the cache's expired entries, then look `key` up.
fn fresh_lookup<V: Clone>(cache: &mut IdempotencyCache<V>, key: u64) -> (r: Option<V>)
    requires
        old(cache).wf(),
    ensures
        final(cache).wf(),
        final(cache).capacity_of() == old(cache).capacity_of(),
        final(cache).ttl() == old(cache).ttl(),
        exists|t_evict: u64, t_get: u64|
            #![trigger evict_then_lookup(old(cache).map(), old(cache).order(), old(cache).ttl(), key, t_evict, t_get)]
            final(cache).map() == evict_then_lookup(old(cache).map(), old(cache).order(), old(cache).ttl(), key, t_evict, t_get).0
            && final(cache).order() == evict_then_lookup(old(cache).map(), old(cache).order(), old(cache).ttl(), key, t_evict, t_get).1
            && ((r is Some) == evict_then_lookup(old(cache).map(), old(cache).order(), old(cache).ttl(), key, t_evict, t_get).2),
        r is Some ==> cloned(old(cache).map()[key].1, r->0),
{
    let ghost m0 = cache.map();
    let ghost o0 = cache.order();
    let ghost ttl = cache.ttl();
    cache.evict_expired();
    let ghost t_evict = choose|now: u64|
        #![trigger live_entries(m0, ttl, now)]
        cache.map() == live_entries(m0, ttl, now) && cache.order() == live_order(m0, o0, ttl, now);
    let ghost m1 = cache.map();
    let ghost o1 = cache.order();
    let hit = cache.get(key);
    let ghost t_get = choose|now: u64|
        #![trigger lookup_step(m1, o1, ttl, key, now)]
        cache.map() == lookup_step(m1, o1, ttl, key, now).0
        && cache.order() == lookup_step(m1, o1, ttl, key, now).1
        && (hit is Some) == lookup_step(m1, o1, ttl, key, now).2;
    assert(evict_then_lookup(m0, o0, ttl, key, t_evict, t_get) == lookup_step(m1, o1, ttl, key, t_get));
    hit
}

/// Admit a request: its cache key is the hash of `request_id`; the cache
/// drops its expired entries and is asked for the key; a live entry is
/// handed back without consulting the breaker, and on a miss the breaker
/// decides whether the pipeline runs.  Returns the key and the decision.
pub fn admit_request<V: Clone>(
    cache: &mut IdempotencyCache<V>,
    breaker: &mut CircuitBreaker,
    request_id: &str,
) -> (r: (u64, Admission<V>))
    requires
        old(cache).wf(),
    ensures
        r.0 == request_hash(request_id@),
        final(cache).wf(),
        final(cache).capacity_of() == old(cache).capacity_of(),
        final(cache).ttl() == old(cache).ttl(),
        exists|t_evict: u64, t_get: u64|
            #![trigger evict_then_lookup(old(cache).map(), old(cache).order(), old(cache).ttl(), request_hash(request_id@), t_evict, t_get)]
            final(cache).map() == evict_then_lookup(old(cache).map(), old(cache).order(), old(cache).ttl(), request_hash(request_id@), t_evict, t_get).0
            && final(cache).order() == evict_then_lookup(old(cache).map(), old(cache).order(), old(cache).ttl(), request_hash(request_id@), t_evict, t_get).1
            && ((r.1 is Cached) == evict_then_lookup(old(cache).map(), old(cache).order(), old(cache).ttl(), request_hash(request_id@), t_evict, t_get).2),
        r.1 is Cached ==> cloned(old(cache).map()[r.0].1, r.1->Cached_0)
            && final(breaker).view() == old(breaker).view(),
        !(r.1 is Cached) ==> exists|now: u64|
            #![trigger check_step(old(breaker).view(), now)]
            final(breaker).view() == check_step(old(breaker).view(), now).0
            && ((r.1 is Proceed) == (check_step(old(breaker).view(), now).1 is Some)),
        r.1 is Refused ==> r.1->Refused_0 == KceError::CircuitOpen,
{
    let key = hash_request_id(request_id);
    match fresh_lookup(cache, key) {
        Some(v) => (key, Admission::Cached(v)),
        None => match breaker.check() {
            Ok(_) => (key, Admission::Proceed),
            Err(e) => (key, Admission::Refused(e)),
        },
    }
}


/// Counters for pipeline observability.
pub struct PipelineMetrics {
    /// Most recent query latency in whole milliseconds.
    pub query_latency_ms: u64,
    /// Cumulative retrieval hit count.
    pub retrieval_hits: u64,
    /// Cumulative error count.
    pub error_count: u64,
    /// Cumulative total request count.
    pub total_count: u64,
    /// Latency histogram for percentile tracking.
    pub latency_histogram: LatencyHistogram,
    /// How many times graph expansion was skipped.
    pub degraded_graph_skips: u64,
    /// How many times the lifecycle update was skipped.
    pub degraded_ecma_skips: u64,
    /// How many times encoding was skipped.
    pub degraded_mce_skips: u64,
}

impl PipelineMetrics {
    pub open spec fn wf(&self) -> bool {
        self.latency_histogram.wf() && self.latency_histogram.buckets().len() > 0
    }

    /// Zeroed counters and an empty histogram.
    pub fn new() -> (r: Self)
        ensures
            r.wf(),
            r.query_latency_ms == 0,
            r.retrieval_hits == 0,
            r.error_count == 0,
            r.total_count == 0,
            r.latency_histogram.total() == 0,
            r.latency_histogram.buckets() == Seq::new(10_000, |i: int| 0u64),
            r.latency_histogram.width() == crate::latency::DEFAULT_BUCKET_WIDTH_US,
            r.latency_histogram.sum() == 0,
            r.latency_histogram.min() == u64::MAX,
            r.latency_histogram.max() == 0,
            r.degraded_graph_skips == 0,
            r.degraded_ecma_skips == 0,
            r.degraded_mce_skips == 0,
    {
        PipelineMetrics {
            query_latency_ms: 0,
            retrieval_hits: 0,
            error_count: 0,
            total_count: 0,
            latency_histogram: LatencyHistogram::new(),
            degraded_graph_skips: 0,
            degraded_ecma_skips: 0,
            degraded_mce_skips: 0,
        }
    }

    /// Record a skipped graph expansion.
    pub fn record_graph_skip(&mut self)
        ensures
            *final(self) == (PipelineMetrics {
                degraded_graph_skips: wrap_add(old(self).degraded_graph_skips, 1),
                ..*old(self)
            }),
    {
        self.degraded_graph_skips = self.degraded_graph_skips.wrapping_add(1);
    }

    /// Record a skipped lifecycle update.
    pub fn record_ecma_skip(&mut self)
        ensures
            *final(self) == (PipelineMetrics {
                degraded_ecma_skips: wrap_add(old(self).degraded_ecma_skips, 1),
                ..*old(self)
            }),
    {
        self.degraded_ecma_skips = self.degraded_ecma_skips.wrapping_add(1);
    }

    /// Record a skipped encoding.
    pub fn record_mce_skip(&mut self)
        ensures
            *final(self) == (PipelineMetrics {
                degraded_mce_skips: wrap_add(old(self).degraded_mce_skips, 1),
                ..*old(self)
            }),
    {
        self.degraded_mce_skips = self.degraded_mce_skips.wrapping_add(1);
    }

    /// Record a successful query: its latency in whole milliseconds and in
    /// microseconds, and its hit count.
    pub fn record_query(&mut self, latency_ms: u64, latency_us: u64, hits: u64)
        requires
            old(self).wf(),
        ensures
            final(self).wf(),
            final(self).query_latency_ms == latency_ms,
            final(self).retrieval_hits == wrap_add(old(self).retrieval_hits, hits),
            final(self).total_count == wrap_add(old(self).total_count, 1),
            final(self).error_count == old(self).error_count,
            final(self).latency_histogram.total() == wrap_add(
                old(self).latency_histogram.total(),
                1,
            ),
            final(self).latency_histogram.buckets().len() == old(self).latency_histogram.buckets().len(),
            final(self).degraded_graph_skips == old(self).degraded_graph_skips,
            final(self).degraded_ecma_skips == old(self).degraded_ecma_skips,
            final(self).degraded_mce_skips == old(self).degraded_mce_skips,
    {
        self.query_latency_ms = latency_ms;
        self.retrieval_hits = self.retrieval_hits.wrapping_add(hits);
        self.total_count = self.total_count.wrapping_add(1);
        self.latency_histogram.record_us(latency_us);
    }

    /// Record a failed query.
    pub fn record_error(&mut self)
        ensures
            final(self).error_count == wrap_add(old(self).error_count, 1),
            final(self).total_count == wrap_add(old(self).total_count, 1),
            final(self).query_latency_ms == old(self).query_latency_ms,
            final(self).retrieval_hits == old(self).retrieval_hits,
            final(self).latency_histogram == old(self).latency_histogram,
            final(self).degraded_graph_skips == old(self).degraded_graph_skips,
            final(self).degraded_ecma_skips == old(self).degraded_ecma_skips,
            final(self).degraded_mce_skips == old(self).degraded_mce_skips,
    {
        self.error_count = self.error_count.wrapping_add(1);
        self.total_count = self.total_count.wrapping_add(1);
    }
}

impl Default for PipelineMetrics {
    fn default() -> (r: Self)
        ensures
            r.wf(),
            r.query_latency_ms == 0,
            r.retrieval_hits == 0,
            r.error_count == 0,
            r.total_count == 0,
            r.latency_histogram.total() == 0,
            r.latency_histogram.buckets() == Seq::new(10_000, |i: int| 0u64),
            r.latency_histogram.width() == crate::latency::DEFAULT_BUCKET_WIDTH_US,
            r.latency_histogram.sum() == 0,
            r.latency_histogram.min() == u64::MAX,
            r.latency_histogram.max() == 0,
            r.degraded_graph_skips == 0,
            r.degraded_ecma_skips == 0,
            r.degraded_mce_skips == 0,
    {
        Self::new()
    }
}

/// A success recorded while the breaker is not half-open only adds the
/// success's time: the failure history, the state and the opening time
/// stay as they were.
pub proof fn lemma_success_keeps_failures(v: BreakerView, now: u64)
    requires
        v.state != CircuitState::HalfOpen,
    ensures
        success_step(v, now).failures == v.failures,
        success_step(v, now).successes == v.successes.push(now),
        success_step(v, now).state == v.state,
        success_step(v, now).opened_at == v.opened_at,
{
}

/// Every failure counts: after a success recorded while not half-open, a
/// failure at `t` keeps every earlier failure still inside the window, and
/// the breaker opens exactly when, of at least five outcomes in the
/// window, more than a fifth failed.
pub proof fn lemma_failures_survive_success(v: BreakerView, ts: u64, t: u64)
    requires
        v.state != CircuitState::HalfOpen,
    ensures
        ({
            let after = failure_step(success_step(v, ts), t);
            let fails = recent(v.failures.push(t), t, WINDOW_NANOS).len();
            let succs = recent(v.successes.push(ts), t, WINDOW_NANOS).len();
            &&& after.failures == recent(v.failures.push(t), t, WINDOW_NANOS)
            &&& after.successes == recent(v.successes.push(ts), t, WINDOW_NANOS)
            &&& (fails + succs >= 5 && 5 * fails > fails + succs) ==> after.state == CircuitState::Open
            &&& !(fails + succs >= 5 && 5 * fails > fails + succs) ==> after.state == v.state
        }),
{
}

} // verus!
