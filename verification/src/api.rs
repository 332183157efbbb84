//! The HTTP API's decisions: per-tenant concurrency limits, which request
//! is admitted, and the status, error code and message of each refusal.
//! The server itself (routing, JSON bodies, sockets) lives outside the
//! library and asks these functions what to answer.
use vstd::prelude::*;
use vstd::string::*;
use crate::assoc::{keys_unique, to_map, lemma_dom, lemma_index, lemma_push, lemma_update};
use crate::error::{KceError, kce_error_text, involves_io};
use crate::text::{contains_text, spec_contains, push_hex, spec_hex};
use crate::types::{HealthStatus, MrnaIntent, intent_text};

verus! {

/// Request id header name.
pub const REQUEST_ID_HEADER: &'static str = "x-request-id";

/// API key header name.
pub const API_KEY_HEADER: &'static str = "x-api-key";

/// Concurrent requests a tenant may have in flight on the query route.
pub const TENANT_MAX_CONCURRENT: usize = 50;

/// A tenant's concurrency quota.
#[derive(Debug, Clone, Copy, PartialEq, Eq, Structural)]
pub struct TenantQuota {
    pub max_concurrent: usize,
    pub current: usize,
}

/// The quotas of a list of tenants, keyed by the tenant id's text.
pub open spec fn quota_entries(s: Seq<(String, TenantQuota)>) -> Seq<(Seq<char>, TenantQuota)> {
    s.map_values(|e: (String, TenantQuota)| (e.0@, e.1))
}

/// What an attempt to acquire a slot does to the quotas: the quotas
/// after the call, and whether a slot was granted.  An unknown tenant
/// first gets a quota of `max_concurrent` (kept even when the attempt
/// fails); a tenant at its limit is refused.
pub open spec fn acquire_step(
    m: Map<Seq<char>, TenantQuota>,
    tenant: Seq<char>,
    max_concurrent: usize,
) -> (Map<Seq<char>, TenantQuota>, bool) {
    let q = if m.dom().contains(tenant) {
        m[tenant]
    } else {
        TenantQuota { max_concurrent, current: 0 }
    };
    if q.current >= q.max_concurrent {
        (m.insert(tenant, q), false)
    } else {
        (m.insert(tenant, TenantQuota { current: (q.current + 1) as usize, ..q }), true)
    }
}

/// What releasing a slot does: one fewer in flight, never below zero; an
/// unknown tenant is ignored.
pub open spec fn release_step(m: Map<Seq<char>, TenantQuota>, tenant: Seq<char>) -> Map<
    Seq<char>,
    TenantQuota,
> {
    if m.dom().contains(tenant) {
        let q = m[tenant];
        m.insert(
            tenant,
            TenantQuota {
                current: if q.current > 0 {
                    (q.current - 1) as usize
                } else {
                    0
                },
                ..q
            },
        )
    } else {
        m
    }
}

/// Per-tenant concurrent request limiter.
pub struct TenantRateLimiter {
    limits: Vec<(String, TenantQuota)>,
}

impl TenantRateLimiter {
    /// The quota of each known tenant.
    pub closed spec fn quotas(&self) -> Map<Seq<char>, TenantQuota> {
        to_map(quota_entries(self.limits@))
    }

    pub closed spec fn wf(&self) -> bool {
        &&& keys_unique(quota_entries(self.limits@))
        &&& forall|t: Seq<char>| #[trigger]
            self.quotas().dom().contains(t) ==> self.quotas()[t].current
                <= self.quotas()[t].max_concurrent
    }

    /// A limiter with no tenants.  The argument is not used: each tenant's
    /// cap is given when its first slot is asked for.
    pub fn new(default_max_concurrent: usize) -> (r: Self)
        ensures
            r.wf(),
            r.quotas() == Map::<Seq<char>, TenantQuota>::empty(),
    {
        let r = TenantRateLimiter { limits: Vec::new() };
        assert(quota_entries(r.limits@) =~= Seq::<(Seq<char>, TenantQuota)>::empty());
        r
    }

    /// Position of `tenant` in the list.
    fn find(&self, tenant: &String) -> (r: Option<usize>)
        requires
            keys_unique(quota_entries(self.limits@)),
        ensures
            match r {
                Some(i) => i < self.limits@.len() && self.limits@[i as int].0@ == tenant@
                    && self.quotas().dom().contains(tenant@) && self.quotas()[tenant@]
                    == self.limits@[i as int].1,
                None => !self.quotas().dom().contains(tenant@),
            },
    {
        let ghost s = quota_entries(self.limits@);
        let mut i: usize = 0;
        while i < self.limits.len()
            invariant
                i <= self.limits@.len(),
                s == quota_entries(self.limits@),
                keys_unique(s),
                forall|j: int| 0 <= j < i ==> s[j].0 != tenant@,
            decreases self.limits@.len() - i,
        {
            if self.limits[i].0 == *tenant {
                proof {
                    lemma_index(s, i as int);
                }
                return Some(i);
            }
            i += 1;
        }
        proof {
            lemma_dom(s, tenant@);
        }
        None
    }

    /// Try to acquire a slot for `tenant_id`: `true` while the tenant is
    /// under its limit, `false` once it is hit.
    pub fn try_acquire(&mut self, tenant_id: &str, max_concurrent: usize) -> (r: bool)
        requires
            old(self).wf(),
        ensures
            final(self).wf(),
            (final(self).quotas(), r) == acquire_step(old(self).quotas(), tenant_id@, max_concurrent),
    {
        let tenant = tenant_id.to_owned();
        let ghost s = quota_entries(self.limits@);
        match self.find(&tenant) {
            Some(i) => {
                let q = self.limits[i].1;
                if q.current >= q.max_concurrent {
                    proof {
                        lemma_update(s, i as int, q);
                        assert(s.update(i as int, (s[i as int].0, q)) =~= s);
                        assert(self.quotas().insert(tenant@, q) =~= self.quotas());
                    }
                    false
                } else {
                    let nq = TenantQuota { current: q.current + 1, ..q };
                    let k = self.limits[i].0.clone();
                    self.limits.set(i, (k, nq));
                    proof {
                        lemma_update(s, i as int, nq);
                        assert(quota_entries(self.limits@) =~= s.update(i as int, (s[i as int].0, nq)));
                    }
                    true
                }
            },
            None => {
                let q = TenantQuota { max_concurrent, current: 0 };
                if max_concurrent == 0 {
                    self.limits.push((tenant, q));
                    proof {
                        lemma_push(s, tenant_id@, q);
                        assert(quota_entries(self.limits@) =~= s.push((tenant_id@, q)));
                    }
                    false
                } else {
                    let nq = TenantQuota { max_concurrent, current: 1 };
                    self.limits.push((tenant, nq));
                    proof {
                        lemma_push(s, tenant_id@, nq);
                        assert(quota_entries(self.limits@) =~= s.push((tenant_id@, nq)));
                    }
                    true
                }
            },
        }
    }

    /// Release a slot for `tenant_id` (after its request completes).
    pub fn release(&mut self, tenant_id: &str)
        requires
            old(self).wf(),
        ensures
            final(self).wf(),
            final(self).quotas() == release_step(old(self).quotas(), tenant_id@),
    {
        let tenant = tenant_id.to_owned();
        let ghost s = quota_entries(self.limits@);
        match self.find(&tenant) {
            Some(i) => {
                let q = self.limits[i].1;
                let nq = TenantQuota { current: q.current.saturating_sub(1), ..q };
                let k = self.limits[i].0.clone();
                self.limits.set(i, (k, nq));
                proof {
                    lemma_update(s, i as int, nq);
                    assert(quota_entries(self.limits@) =~= s.update(i as int, (s[i as int].0, nq)));
                }
            },
            None => {},
        }
    }
}

/// A tenant never has more slots in flight than its limit, and a refused
/// acquire leaves its count unchanged.
pub proof fn lemma_limit_holds(m: Map<Seq<char>, TenantQuota>, tenant: Seq<char>, max_concurrent: usize)
    requires
        forall|t: Seq<char>| #[trigger] m.dom().contains(t) ==> m[t].current <= m[t].max_concurrent,
    ensures
        ({
            let (m2, ok) = acquire_step(m, tenant, max_concurrent);
            &&& forall|t: Seq<char>| #[trigger] m2.dom().contains(t) ==> m2[t].current <= m2[t].max_concurrent
            &&& !ok ==> m2[tenant].current == m2[tenant].max_concurrent
            &&& !ok && m.dom().contains(tenant) ==> m2 == m
        }),
{
    let (m2, ok) = acquire_step(m, tenant, max_concurrent);
    if !ok && m.dom().contains(tenant) {
        assert(m2 =~= m);
    }
}

/// Releasing right after a granted acquire restores the tenant's count,
/// and neither touches any other tenant.
pub proof fn lemma_acquire_release(m: Map<Seq<char>, TenantQuota>, tenant: Seq<char>, other: Seq<char>, max_concurrent: usize)
    requires
        acquire_step(m, tenant, max_concurrent).1,
        other != tenant,
    ensures
        ({
            let m2 = release_step(acquire_step(m, tenant, max_concurrent).0, tenant);
            &&& m2[tenant].current == (if m.dom().contains(tenant) { m[tenant].current } else { 0 })
            &&& m.dom().contains(tenant) ==> m2 == m
            &&& m2.dom().contains(other) == m.dom().contains(other)
            &&& m.dom().contains(other) ==> m2[other] == m[other]
        }),
{
    let m2 = release_step(acquire_step(m, tenant, max_concurrent).0, tenant);
    if m.dom().contains(tenant) {
        assert(m2 =~= m);
    }
}

/// The refusals the API answers with.
#[derive(Debug, Clone, PartialEq, Eq)]
pub enum ApiError {
    /// Too many requests in flight overall.
    Backpressure,
    /// The tenant header is absent.
    MissingTenant,
    /// The tenant header is empty or not text.
    InvalidTenant,
    /// The tenant is at its concurrency limit.
    RateLimited { tenant: String },
    /// The pipeline failed; the text of its error.
    PipelineFailure { message: String },
    /// An encode request named an unknown intent.
    UnknownIntent { intent: String },
    /// An action failed; the text of its error, and whether it expired.
    ActionFailure { message: String, expired: bool },
    /// The API key header is absent or empty.
    MissingApiKey,
    /// The API key does not match.
    InvalidApiKey,
}

/// The HTTP status of a refusal.
pub open spec fn spec_status(e: ApiError) -> u16 {
    match e {
        ApiError::Backpressure => 429,
        ApiError::MissingTenant => 400,
        ApiError::InvalidTenant => 400,
        ApiError::RateLimited { .. } => 429,
        ApiError::PipelineFailure { .. } => 500,
        ApiError::UnknownIntent { .. } => 400,
        ApiError::ActionFailure { expired, .. } => if expired {
            408
        } else {
            400
        },
        ApiError::MissingApiKey => 401,
        ApiError::InvalidApiKey => 401,
    }
}

/// The error code in the body of a refusal.
pub open spec fn spec_error_code(e: ApiError) -> Seq<char> {
    match e {
        ApiError::Backpressure => "BACKPRESSURE"@,
        ApiError::MissingTenant => "VALIDATION_ERROR"@,
        ApiError::InvalidTenant => "VALIDATION_ERROR"@,
        ApiError::RateLimited { .. } => "RATE_LIMIT_EXCEEDED"@,
        ApiError::PipelineFailure { .. } => "PIPELINE_FAILURE"@,
        ApiError::UnknownIntent { .. } => "VALIDATION_ERROR"@,
        ApiError::ActionFailure { .. } => "ACTION_FAILURE"@,
        ApiError::MissingApiKey => "UNAUTHORIZED"@,
        ApiError::InvalidApiKey => "UNAUTHORIZED"@,
    }
}

/// The message in the body of a refusal.
pub open spec fn spec_error_message(e: ApiError) -> Seq<char> {
    match e {
        ApiError::Backpressure => "too many concurrent requests"@,
        ApiError::MissingTenant => "Missing x-tenant-id header"@,
        ApiError::InvalidTenant => "Invalid x-tenant-id header"@,
        ApiError::RateLimited { tenant } => "Tenant "@ + tenant@
            + " exceeded concurrent request limit"@,
        ApiError::PipelineFailure { message } => message@,
        ApiError::UnknownIntent { intent } => "unknown intent: "@ + intent@,
        ApiError::ActionFailure { message, .. } => message@,
        ApiError::MissingApiKey => "Missing or invalid x-api-key header"@,
        ApiError::InvalidApiKey => "Invalid x-api-key header"@,
    }
}

impl ApiError {
    /// The HTTP status.
    pub fn status(&self) -> (r: u16)
        ensures
            r == spec_status(*self),
    {
        match self {
            ApiError::Backpressure => 429,
            ApiError::MissingTenant => 400,
            ApiError::InvalidTenant => 400,
            ApiError::RateLimited { .. } => 429,
            ApiError::PipelineFailure { .. } => 500,
            ApiError::UnknownIntent { .. } => 400,
            ApiError::ActionFailure { expired, .. } => if *expired {
                408
            } else {
                400
            },
            ApiError::MissingApiKey => 401,
            ApiError::InvalidApiKey => 401,
        }
    }

    /// The error code.
    pub fn error_code(&self) -> (r: &'static str)
        ensures
            r@ == spec_error_code(*self),
    {
        match self {
            ApiError::Backpressure => "BACKPRESSURE",
            ApiError::MissingTenant => "VALIDATION_ERROR",
            ApiError::InvalidTenant => "VALIDATION_ERROR",
            ApiError::RateLimited { .. } => "RATE_LIMIT_EXCEEDED",
            ApiError::PipelineFailure { .. } => "PIPELINE_FAILURE",
            ApiError::UnknownIntent { .. } => "VALIDATION_ERROR",
            ApiError::ActionFailure { .. } => "ACTION_FAILURE",
            ApiError::MissingApiKey => "UNAUTHORIZED",
            ApiError::InvalidApiKey => "UNAUTHORIZED",
        }
    }

    /// The message.
    pub fn message(&self) -> (r: String)
        ensures
            r@ == spec_error_message(*self),
    {
        match self {
            ApiError::Backpressure => String::from_str("too many concurrent requests"),
            ApiError::MissingTenant => String::from_str("Missing x-tenant-id header"),
            ApiError::InvalidTenant => String::from_str("Invalid x-tenant-id header"),
            ApiError::RateLimited { tenant } => {
                let mut s = String::from_str("Tenant ");
                s.append(tenant.as_str());
                s.append(" exceeded concurrent request limit");
                s
            },
            ApiError::PipelineFailure { message } => message.clone(),
            ApiError::UnknownIntent { intent } => {
                let mut s = String::from_str("unknown intent: ");
                s.append(intent.as_str());
                s
            },
            ApiError::ActionFailure { message, .. } => message.clone(),
            ApiError::MissingApiKey => String::from_str("Missing or invalid x-api-key header"),
            ApiError::InvalidApiKey => String::from_str("Invalid x-api-key header"),
        }
    }
}

/// The tenant of a query request, from its `x-tenant-id` header: `None`
/// when the header is absent, `Some(None)` when its value is not text.
pub fn tenant_from_header(header: Option<Option<&str>>) -> (r: Result<String, ApiError>)
    ensures
        header is None ==> r == Err::<String, ApiError>(ApiError::MissingTenant),
        header matches Some(None) ==> r == Err::<String, ApiError>(ApiError::InvalidTenant),
        header matches Some(Some(s)) ==> (if s@.len() == 0 {
            r == Err::<String, ApiError>(ApiError::InvalidTenant)
        } else {
            r matches Ok(t) && t@ == s@
        }),
{
    match header {
        None => Err(ApiError::MissingTenant),
        Some(None) => Err(ApiError::InvalidTenant),
        Some(Some(s)) => {
            if s.is_empty() {
                Err(ApiError::InvalidTenant)
            } else {
                Ok(s.to_owned())
            }
        },
    }
}

/// Admit a query for `tenant_id` under its concurrency limit: refused
/// when the tenant is at its limit.
pub fn admit_tenant(limiter: &mut TenantRateLimiter, tenant_id: &str) -> (r: Result<(), ApiError>)
    requires
        old(limiter).wf(),
    ensures
        final(limiter).wf(),
        ({
            let (m2, ok) = acquire_step(old(limiter).quotas(), tenant_id@, TENANT_MAX_CONCURRENT);
            &&& final(limiter).quotas() == m2
            &&& ok ==> r is Ok
            &&& !ok ==> (r matches Err(ApiError::RateLimited { tenant }) && tenant@ == tenant_id@)
        }),
{
    if limiter.try_acquire(tenant_id, TENANT_MAX_CONCURRENT) {
        Ok(())
    } else {
        Err(ApiError::RateLimited { tenant: tenant_id.to_owned() })
    }
}

/// The refusal for a failed query: the error's text.
pub fn pipeline_failure(e: &KceError) -> (r: ApiError)
    ensures
        r matches ApiError::PipelineFailure { message } && message@.len() >= kce_error_text(*e).len()
            && message@.subrange(0, kce_error_text(*e).len() as int) == kce_error_text(*e)
            && (!involves_io(*e) ==> message@ == kce_error_text(*e)),
{
    ApiError::PipelineFailure { message: e.message() }
}

/// The intent named in an encode request.
pub fn parse_intent(name: &str) -> (r: Result<MrnaIntent, ApiError>)
    ensures
        match r {
            Ok(i) => intent_text(i) == name@,
            Err(e) => (e matches ApiError::UnknownIntent { intent } && intent@ == name@) && name@
                != "risk_eval"@ && name@ != "data_enrich"@ && name@ != "alert"@ && name@
                != "classify"@,
        },
{
    let s = name.to_owned();
    if s == String::from_str("risk_eval") {
        Ok(MrnaIntent::RiskEval)
    } else if s == String::from_str("data_enrich") {
        Ok(MrnaIntent::DataEnrich)
    } else if s == String::from_str("alert") {
        Ok(MrnaIntent::Alert)
    } else if s == String::from_str("classify") {
        Ok(MrnaIntent::Classify)
    } else {
        Err(ApiError::UnknownIntent { intent: s })
    }
}

/// The refusal for a failed action: the error's text, answered with a
/// timeout status when that text mentions expiry.
pub fn action_failure(e: &KceError) -> (r: ApiError)
    ensures
        r matches ApiError::ActionFailure { message, expired } && expired == spec_contains(
            message@,
            "expired"@,
        ) && message@.len() >= kce_error_text(*e).len() && message@.subrange(
            0,
            kce_error_text(*e).len() as int,
        ) == kce_error_text(*e) && (!involves_io(*e) ==> message@ == kce_error_text(*e)),
{
    let message = e.message();
    let expired = contains_text(message.as_str(), "expired");
    ApiError::ActionFailure { message, expired }
}

/// Whether a request may pass the API key check.  `path` is the request
/// path; `provided` is `None` when the key header is absent or empty,
/// `Some(None)` when its value is not text; `expected` is the configured
/// key, if any (without one, any non-empty key passes).
pub fn check_api_key(path: &str, provided: Option<Option<&str>>, expected: Option<&str>) -> (r: Result<
    (),
    ApiError,
>)
    ensures
        path@ == "/health"@ ==> r is Ok,
        path@ != "/health"@ ==> match provided {
            None => r == Err::<(), ApiError>(ApiError::MissingApiKey),
            Some(p) => match expected {
                None => r is Ok,
                Some(k) => if (p matches Some(v) && v@ == k@) {
                    r is Ok
                } else {
                    r == Err::<(), ApiError>(ApiError::InvalidApiKey)
                },
            },
        },
{
    if path.to_owned() == String::from_str("/health") {
        return Ok(());
    }
    match provided {
        None => Err(ApiError::MissingApiKey),
        Some(p) => match expected {
            None => Ok(()),
            Some(k) => match p {
                Some(v) => {
                    if v.to_owned() == k.to_owned() {
                        Ok(())
                    } else {
                        Err(ApiError::InvalidApiKey)
                    }
                },
                None => Err(ApiError::InvalidApiKey),
            },
        },
    }
}

/// A request id made from a clock reading in nanoseconds: `req_` and the
/// reading in lowercase hexadecimal.
pub fn request_id_from_nanos(nanos: u128) -> (r: String)
    ensures
        r@ == "req_"@ + spec_hex(nanos as nat),
{
    let mut s = String::from_str("req_");
    push_hex(&mut s, nanos);
    s
}

/// The HTTP status of a health report: unavailable when unhealthy.
pub fn health_http_status(status: HealthStatus) -> (r: u16)
    ensures
        r == (if status == HealthStatus::Unhealthy {
            503u16
        } else {
            200u16
        }),
{
    match status {
        HealthStatus::Healthy => 200,
        HealthStatus::Degraded => 200,
        HealthStatus::Unhealthy => 503,
    }
}

} // verus!
