//! Error types.
//!
//! All modules converge on [`KceError`]; the storage and metric errors are
//! carried inside it.  Each error renders to the text a user sees through
//! its `message` method.
use vstd::prelude::*;
use vstd::string::*;
use vstd::std_specs::convert::FromSpecImpl;
use crate::text::{spec_decimal, push_decimal, spec_hex_digits, push_hex_digits};

verus! {

#[verifier::external_type_specification]
#[verifier::external_body]
pub struct ExIoError(std::io::Error);

/// The text of an I/O error, as its `Display` form renders it.
///
/// Nothing is stated of the text: for errors raised by the operating system
/// it comes from the system's own error descriptions.
#[verifier::external_body]
fn io_error_text(e: &std::io::Error) -> String {
    e.to_string()
}

/// Errors specific to the storage layer.
#[derive(Debug)]
pub enum StorageError {
    /// A page checksum did not match the expected value.
    ChecksumFailure { page_id: u64, expected: u32, actual: u32 },
    /// The WAL file is corrupted and cannot be replayed.
    WalCorrupted { offset: u64, reason: String },
    /// A requested key was not found in storage.
    NotFound,
    /// The disk is full and a write cannot complete.
    DiskFull,
    /// An underlying I/O error.
    Io(std::io::Error),
}

/// Errors specific to metric computation.
#[derive(Debug)]
pub enum MetricError {
    /// Inputs are not valid probability distributions.
    InvalidDistribution(String),
    /// Input vectors have mismatched dimensions.
    DimensionMismatch(usize, usize),
    /// A vector contains NaN or infinite values.
    NonFiniteValues,
    /// Sinkhorn iteration did not converge within the iteration budget.
    SinkhornNotConverged { iterations: usize },
}

/// Top-level error type.
#[derive(Debug)]
pub enum KceError {
    /// Storage subsystem error.
    Storage(StorageError),
    /// Query vector dimension does not match dataset dimension.
    DimensionMismatch { query: usize, dataset: usize },
    /// An empty vector was provided where a non-empty one is required.
    EmptyVector,
    /// Metric computation error.
    Metric(MetricError),
    /// A pipeline stage failed; `source` is the stage's own error.
    PipelineFailure { stage: &'static str, source: Box<KceError> },
    /// Generic validation error.
    Validation(String),
    /// An operation exceeded its time budget.
    Timeout { ms: u64 },
    /// Configuration loading or parsing error.
    Config(String),
    /// A graph node was not found.
    NodeNotFound { id: u64 },
    /// An invalid lifecycle state transition was attempted.
    InvalidTransition { from: String, to: String },
    /// An mRNA instruction exceeded its TTL.
    MrnaExpired { ttl_ms: u64 },
    /// Rate limit exceeded.
    RateLimitExceeded,
    /// Circuit breaker is open.
    CircuitOpen,
}

/// `0x` followed by eight lowercase hexadecimal digits.
pub open spec fn hex32_text(v: u32) -> Seq<char> {
    "0x"@ + spec_hex_digits(v as nat, 8)
}

/// The text of a storage error; for an I/O error only its prefix is known.
pub open spec fn storage_error_text(e: StorageError) -> Seq<char> {
    match e {
        StorageError::ChecksumFailure { page_id, expected, actual } => "checksum failure on page "@
            + spec_decimal(page_id as nat) + ": expected "@ + hex32_text(expected) + ", got "@
            + hex32_text(actual),
        StorageError::WalCorrupted { offset, reason } => "WAL corrupted at byte offset "@
            + spec_decimal(offset as nat) + ": "@ + reason@,
        StorageError::NotFound => "key not found"@,
        StorageError::DiskFull => "disk full"@,
        StorageError::Io(_) => "io: "@,
    }
}

/// The text of a metric error.
pub open spec fn metric_error_text(e: MetricError) -> Seq<char> {
    match e {
        MetricError::InvalidDistribution(s) => "invalid distribution: "@ + s@,
        MetricError::DimensionMismatch(a, b) => "dimension mismatch: "@ + spec_decimal(a as nat)
            + " vs "@ + spec_decimal(b as nat),
        MetricError::NonFiniteValues => "vector contains non-finite values"@,
        MetricError::SinkhornNotConverged { iterations } => "sinkhorn did not converge in "@
            + spec_decimal(iterations as nat) + " iterations"@,
    }
}

/// Whether the error carries an I/O error, whose own text is not known.
pub open spec fn involves_io(e: KceError) -> bool
    decreases e,
{
    match e {
        KceError::Storage(StorageError::Io(_)) => true,
        KceError::PipelineFailure { source, .. } => involves_io(*source),
        _ => false,
    }
}

/// The text of an error.  Where the error carries an I/O error, the text
/// stops where the I/O error's own description would begin.
pub open spec fn kce_error_text(e: KceError) -> Seq<char>
    decreases e,
{
    match e {
        KceError::Storage(s) => "storage: "@ + storage_error_text(s),
        KceError::DimensionMismatch { query, dataset } => "retrieval: dimension mismatch (query="@
            + spec_decimal(query as nat) + ", dataset="@ + spec_decimal(dataset as nat) + ")"@,
        KceError::EmptyVector => "retrieval: empty vector"@,
        KceError::Metric(m) => "metric: "@ + metric_error_text(m),
        KceError::PipelineFailure { stage, source } => "pipeline failed at stage '"@ + stage@
            + "': "@ + kce_error_text(*source),
        KceError::Validation(s) => "validation: "@ + s@,
        KceError::Timeout { ms } => "operation timed out after "@ + spec_decimal(ms as nat)
            + "ms"@,
        KceError::Config(s) => "config: "@ + s@,
        KceError::NodeNotFound { id } => "node "@ + spec_decimal(id as nat) + " not found"@,
        KceError::InvalidTransition { from, to } => "invalid transition: "@ + from@ + " -> "@
            + to@,
        KceError::MrnaExpired { ttl_ms } => "mRNA expired (ttl="@ + spec_decimal(ttl_ms as nat)
            + "ms)"@,
        KceError::RateLimitExceeded => "rate limit exceeded"@,
        KceError::CircuitOpen => "circuit breaker open"@,
    }
}

fn push_hex32(s: &mut String, v: u32)
    ensures
        final(s)@ == old(s)@ + hex32_text(v),
{
    s.append("0x");
    push_hex_digits(s, v as u64, 8);
    proof {
        assert(final(s)@ =~= old(s)@ + hex32_text(v));
    }
}

impl StorageError {
    /// Append the text of this error to `s`.
    pub fn push_text(&self, s: &mut String)
        ensures
            final(s)@.len() >= old(s)@.len() + storage_error_text(*self).len(),
            final(s)@.subrange(0, (old(s)@.len() + storage_error_text(*self).len()) as int) == old(s)@
                + storage_error_text(*self),
            !(*self is Io) ==> final(s)@ == old(s)@ + storage_error_text(*self),
    {
        let ghost start = s@;
        match self {
            StorageError::ChecksumFailure { page_id, expected, actual } => {
                s.append("checksum failure on page ");
                push_decimal(s, *page_id);
                s.append(": expected ");
                push_hex32(s, *expected);
                s.append(", got ");
                push_hex32(s, *actual);
            },
            StorageError::WalCorrupted { offset, reason } => {
                s.append("WAL corrupted at byte offset ");
                push_decimal(s, *offset);
                s.append(": ");
                s.append(reason.as_str());
            },
            StorageError::NotFound => s.append("key not found"),
            StorageError::DiskFull => s.append("disk full"),
            StorageError::Io(e) => {
                s.append("io: ");
                let t = io_error_text(e);
                s.append(t.as_str());
            },
        }
        proof {
            let full = start + storage_error_text(*self);
            if !(*self is Io) {
                assert(s@ =~= full);
            }
            assert(s@.subrange(0, full.len() as int) =~= full);
        }
    }

    /// The text of this error, as its display form renders it.
    pub fn message(&self) -> (r: String)
        ensures
            r@.len() >= storage_error_text(*self).len(),
            r@.subrange(0, storage_error_text(*self).len() as int) == storage_error_text(*self),
            !(*self is Io) ==> r@ == storage_error_text(*self),
    {
        let mut s = String::new();
        self.push_text(&mut s);
        proof {
            assert(Seq::<char>::empty() + storage_error_text(*self) =~= storage_error_text(*self));
        }
        s
    }
}

impl MetricError {
    /// Append the text of this error to `s`.
    pub fn push_text(&self, s: &mut String)
        ensures
            final(s)@ == old(s)@ + metric_error_text(*self),
    {
        let ghost start = s@;
        match self {
            MetricError::InvalidDistribution(m) => {
                s.append("invalid distribution: ");
                s.append(m.as_str());
            },
            MetricError::DimensionMismatch(a, b) => {
                s.append("dimension mismatch: ");
                push_decimal(s, *a as u64);
                s.append(" vs ");
                push_decimal(s, *b as u64);
            },
            MetricError::NonFiniteValues => s.append("vector contains non-finite values"),
            MetricError::SinkhornNotConverged { iterations } => {
                s.append("sinkhorn did not converge in ");
                push_decimal(s, *iterations as u64);
                s.append(" iterations");
            },
        }
        proof {
            assert(s@ =~= start + metric_error_text(*self));
        }
    }

    /// The text of this error, as its display form renders it.
    pub fn message(&self) -> (r: String)
        ensures
            r@ == metric_error_text(*self),
    {
        let mut s = String::new();
        self.push_text(&mut s);
        proof {
            assert(Seq::<char>::empty() + metric_error_text(*self) =~= metric_error_text(*self));
        }
        s
    }
}

impl KceError {
    /// Append the text of this error to `s`.
    pub fn push_text(&self, s: &mut String)
        ensures
            final(s)@.len() >= old(s)@.len() + kce_error_text(*self).len(),
            final(s)@.subrange(0, (old(s)@.len() + kce_error_text(*self).len()) as int) == old(s)@
                + kce_error_text(*self),
            !involves_io(*self) ==> final(s)@ == old(s)@ + kce_error_text(*self),
        decreases *self,
    {
        let ghost start = s@;
        match self {
            KceError::Storage(e) => {
                s.append("storage: ");
                let ghost mid = s@;
                e.push_text(s);
                proof {
                    assert(s@.subrange(0, mid.len() as int) =~= mid);
                    let n = mid.len() + storage_error_text(*e).len();
                    assert(s@.subrange(0, n as int).subrange(0, mid.len() as int) =~= s@.subrange(
                        0,
                        mid.len() as int,
                    ));
                }
            },
            KceError::DimensionMismatch { query, dataset } => {
                s.append("retrieval: dimension mismatch (query=");
                push_decimal(s, *query as u64);
                s.append(", dataset=");
                push_decimal(s, *dataset as u64);
                s.append(")");
            },
            KceError::EmptyVector => s.append("retrieval: empty vector"),
            KceError::Metric(m) => {
                s.append("metric: ");
                m.push_text(s);
            },
            KceError::PipelineFailure { stage, source } => {
                s.append("pipeline failed at stage '");
                s.append(stage);
                s.append("': ");
                let inner: &KceError = &**source;
                inner.push_text(s);
            },
            KceError::Validation(m) => {
                s.append("validation: ");
                s.append(m.as_str());
            },
            KceError::Timeout { ms } => {
                s.append("operation timed out after ");
                push_decimal(s, *ms);
                s.append("ms");
            },
            KceError::Config(m) => {
                s.append("config: ");
                s.append(m.as_str());
            },
            KceError::NodeNotFound { id } => {
                s.append("node ");
                push_decimal(s, *id);
                s.append(" not found");
            },
            KceError::InvalidTransition { from, to } => {
                s.append("invalid transition: ");
                s.append(from.as_str());
                s.append(" -> ");
                s.append(to.as_str());
            },
            KceError::MrnaExpired { ttl_ms } => {
                s.append("mRNA expired (ttl=");
                push_decimal(s, *ttl_ms);
                s.append("ms)");
            },
            KceError::RateLimitExceeded => s.append("rate limit exceeded"),
            KceError::CircuitOpen => s.append("circuit breaker open"),
        }
        proof {
            let full = start + kce_error_text(*self);
            if !involves_io(*self) {
                assert(s@ =~= full);
            }
            assert(s@.subrange(0, full.len() as int) =~= full);
        }
    }

    /// The text of this error, as its display form renders it.
    pub fn message(&self) -> (r: String)
        ensures
            r@.len() >= kce_error_text(*self).len(),
            r@.subrange(0, kce_error_text(*self).len() as int) == kce_error_text(*self),
            !involves_io(*self) ==> r@ == kce_error_text(*self),
    {
        let mut s = String::new();
        self.push_text(&mut s);
        proof {
            assert(Seq::<char>::empty() + kce_error_text(*self) =~= kce_error_text(*self));
        }
        s
    }
}

impl From<StorageError> for KceError {
    fn from(e: StorageError) -> (r: KceError) {
        KceError::Storage(e)
    }
}

impl FromSpecImpl<StorageError> for KceError {
    open spec fn obeys_from_spec() -> bool {
        true
    }

    open spec fn from_spec(e: StorageError) -> KceError {
        KceError::Storage(e)
    }
}

impl From<MetricError> for KceError {
    fn from(e: MetricError) -> (r: KceError) {
        KceError::Metric(e)
    }
}

impl FromSpecImpl<MetricError> for KceError {
    open spec fn obeys_from_spec() -> bool {
        true
    }

    open spec fn from_spec(e: MetricError) -> KceError {
        KceError::Metric(e)
    }
}

impl From<std::io::Error> for StorageError {
    fn from(e: std::io::Error) -> (r: StorageError) {
        StorageError::Io(e)
    }
}

impl FromSpecImpl<std::io::Error> for StorageError {
    open spec fn obeys_from_spec() -> bool {
        true
    }

    open spec fn from_spec(e: std::io::Error) -> StorageError {
        StorageError::Io(e)
    }
}

} // verus!
