//! The pipeline's control flow: its ten stages in order, which of them a
//! tight latency budget skips, how a failing stage's error is wrapped,
//! input validation, and the intent chosen for the retrieved results.
//!
//! The stages' own work (retrieval over floating-point vectors, timing)
//! is done by the caller, which walks the stages with [`Stage::first`]
//! and [`Stage::next`] and asks [`Stage::skipped_by`] before each.
use vstd::prelude::*;
use vstd::string::*;
use crate::error::KceError;
use crate::types::MrnaIntent;
use crate::latency::wrap_add;
use crate::mce::{Mrna, MceEngine, Dispatch, dispatch_intent, spec_dispatch, execute_outcome};
use crate::resilience::PipelineMetrics;

verus! {

/// The pipeline's stages, in the order they run.
#[derive(Debug, Clone, Copy, PartialEq, Eq, Structural)]
pub enum Stage {
    Validate,
    RateLimit,
    Plan,
    Retrieve,
    Expand,
    EcmaUpdate,
    MceEncode,
    Execute,
    Persist,
    Metrics,
}

/// The position of a stage in the pipeline.
pub open spec fn stage_index(s: Stage) -> int {
    match s {
        Stage::Validate => 0,
        Stage::RateLimit => 1,
        Stage::Plan => 2,
        Stage::Retrieve => 3,
        Stage::Expand => 4,
        Stage::EcmaUpdate => 5,
        Stage::MceEncode => 6,
        Stage::Execute => 7,
        Stage::Persist => 8,
        Stage::Metrics => 9,
    }
}

/// The name a stage is recorded and reported under.
pub open spec fn stage_text(s: Stage) -> Seq<char> {
    match s {
        Stage::Validate => "validate"@,
        Stage::RateLimit => "rate_limit"@,
        Stage::Plan => "plan"@,
        Stage::Retrieve => "retrieve"@,
        Stage::Expand => "expand"@,
        Stage::EcmaUpdate => "ecma_update"@,
        Stage::MceEncode => "mce_encode"@,
        Stage::Execute => "execute"@,
        Stage::Persist => "persist"@,
        Stage::Metrics => "metrics"@,
    }
}

/// The stage following `s`, if any.
pub open spec fn spec_next(s: Stage) -> Option<Stage> {
    match s {
        Stage::Validate => Some(Stage::RateLimit),
        Stage::RateLimit => Some(Stage::Plan),
        Stage::Plan => Some(Stage::Retrieve),
        Stage::Retrieve => Some(Stage::Expand),
        Stage::Expand => Some(Stage::EcmaUpdate),
        Stage::EcmaUpdate => Some(Stage::MceEncode),
        Stage::MceEncode => Some(Stage::Execute),
        Stage::Execute => Some(Stage::Persist),
        Stage::Persist => Some(Stage::Metrics),
        Stage::Metrics => None,
    }
}

/// Which optional stages a tight latency budget skips.
#[derive(Debug, Clone, Copy, PartialEq, Eq, Structural, Default)]
pub struct DegradationDecision {
    /// Graph expansion was skipped.
    pub skipped_graph: bool,
    /// The lifecycle update was skipped.
    pub skipped_ecma: bool,
    /// Encoding was skipped (a simplified instruction was used).
    pub skipped_mce: bool,
    /// Optimal-transport distance was skipped (cosine was used instead).
    pub skipped_ot: bool,
}

/// Whether the decision skips stage `s`; only the expansion, lifecycle
/// update and encoding stages can be skipped.
pub open spec fn spec_skipped(s: Stage, d: DegradationDecision) -> bool {
    match s {
        Stage::Expand => d.skipped_graph,
        Stage::EcmaUpdate => d.skipped_ecma,
        Stage::MceEncode => d.skipped_mce,
        _ => false,
    }
}

impl Stage {
    /// The first stage.
    pub fn first() -> (r: Stage)
        ensures
            r == Stage::Validate,
    {
        Stage::Validate
    }

    /// The stage after this one, if any.
    pub fn next(&self) -> (r: Option<Stage>)
        ensures
            r == spec_next(*self),
    {
        match self {
            Stage::Validate => Some(Stage::RateLimit),
            Stage::RateLimit => Some(Stage::Plan),
            Stage::Plan => Some(Stage::Retrieve),
            Stage::Retrieve => Some(Stage::Expand),
            Stage::Expand => Some(Stage::EcmaUpdate),
            Stage::EcmaUpdate => Some(Stage::MceEncode),
            Stage::MceEncode => Some(Stage::Execute),
            Stage::Execute => Some(Stage::Persist),
            Stage::Persist => Some(Stage::Metrics),
            Stage::Metrics => None,
        }
    }

    /// The stage's name.
    pub fn name(&self) -> (r: &'static str)
        ensures
            r@ == stage_text(*self),
    {
        match self {
            Stage::Validate => "validate",
            Stage::RateLimit => "rate_limit",
            Stage::Plan => "plan",
            Stage::Retrieve => "retrieve",
            Stage::Expand => "expand",
            Stage::EcmaUpdate => "ecma_update",
            Stage::MceEncode => "mce_encode",
            Stage::Execute => "execute",
            Stage::Persist => "persist",
            Stage::Metrics => "metrics",
        }
    }

    /// Whether the degradation decision skips this stage.
    pub fn skipped_by(&self, d: &DegradationDecision) -> (r: bool)
        ensures
            r == spec_skipped(*self, *d),
    {
        match self {
            Stage::Expand => d.skipped_graph,
            Stage::EcmaUpdate => d.skipped_ecma,
            Stage::MceEncode => d.skipped_mce,
            _ => false,
        }
    }
}

/// Walking from the first stage visits the ten stages once each, in
/// order: the stage at position `i` is followed by the one at `i + 1`,
/// the last has no successor, and no two stages share a name.
pub proof fn lemma_ten_stages(s: Stage, t: Stage)
    ensures
        0 <= stage_index(s) < 10,
        stage_index(s) == 0 <==> s == Stage::Validate,
        spec_next(s) is None <==> stage_index(s) == 9,
        spec_next(s) is Some ==> stage_index(spec_next(s)->0) == stage_index(s) + 1,
        stage_index(s) == stage_index(t) ==> s == t,
        s != t ==> stage_text(s) != stage_text(t),
{
    reveal_strlit("validate");
    reveal_strlit("rate_limit");
    reveal_strlit("plan");
    reveal_strlit("retrieve");
    reveal_strlit("expand");
    reveal_strlit("ecma_update");
    reveal_strlit("mce_encode");
    reveal_strlit("execute");
    reveal_strlit("persist");
    reveal_strlit("metrics");
    if s != t && stage_text(s) == stage_text(t) {
        assert(stage_text(s).len() == stage_text(t).len());
        assert(stage_text(s)[0] == stage_text(t)[0]);
        assert(stage_text(s)[1] == stage_text(t)[1]);
    }
}

/// The error a failing stage is reported with: `PipelineFailure` naming
/// the stage, around the stage's own error.
pub fn run_stage_error(stage: Stage, e: KceError) -> (r: KceError)
    ensures
        r matches KceError::PipelineFailure { stage: name, source } && name@ == stage_text(stage)
            && *source == e,
{
    KceError::PipelineFailure { stage: stage.name(), source: Box::new(e) }
}

/// One step of the stage loop: after `stage` ran with `outcome`, the run
/// either stops with the stage's error wrapped by [`run_stage_error`] (no
/// later stage runs), or goes on with the next stage (`None` once the last
/// stage is done).
pub fn advance(stage: Stage, outcome: Result<(), KceError>) -> (r: Result<Option<Stage>, KceError>)
    ensures
        match outcome {
            Ok(()) => r == Ok::<Option<Stage>, KceError>(spec_next(stage)),
            Err(e) => (r matches Err(KceError::PipelineFailure { stage: name, source }) && name@
                == stage_text(stage) && *source == e),
        },
{
    match outcome {
        Ok(()) => Ok(stage.next()),
        Err(e) => Err(run_stage_error(stage, e)),
    }
}

/// The end of a run: the action the execute stage produced, or a
/// validation error when none was executed.
pub fn finish<A>(action: Option<A>) -> (r: Result<A, KceError>)
    ensures
        match action {
            Some(a) => r == Ok::<A, KceError>(a),
            None => (r matches Err(KceError::Validation(s)) && s@ == "no action executed"@),
        },
{
    match action {
        Some(a) => Ok(a),
        None => Err(KceError::Validation(String::from_str("no action executed"))),
    }
}

/// The validation error of a query, if any: an empty vector, then a zero
/// `top_k`, then a value that is NaN or infinite.
pub open spec fn input_error(len: usize, top_k: usize, all_finite: bool) -> Option<Seq<char>> {
    if len == 0 {
        Some("query vector is empty"@)
    } else if top_k == 0 {
        Some("top_k must be > 0"@)
    } else if !all_finite {
        Some("vector contains NaN or Inf"@)
    } else {
        None
    }
}

/// Validate a query of `len` values asking for `top_k` results, whose
/// values are all finite or not.
pub fn validate_input(len: usize, top_k: usize, all_finite: bool) -> (r: Result<(), KceError>)
    ensures
        match input_error(len, top_k, all_finite) {
            None => r is Ok,
            Some(msg) => (r matches Err(KceError::Validation(s)) && s@ == msg),
        },
{
    if len == 0 {
        return Err(KceError::Validation(String::from_str("query vector is empty")));
    }
    if top_k == 0 {
        return Err(KceError::Validation(String::from_str("top_k must be > 0")));
    }
    if !all_finite {
        return Err(KceError::Validation(String::from_str("vector contains NaN or Inf")));
    }
    Ok(())
}

/// Check a search request before any vector is scored: an empty query,
/// then a query whose length is not the dataset's dimension, then a zero
/// `top_k`, then a value that is NaN or infinite.
pub fn check_search_input(query_len: usize, dimension: usize, top_k: usize, all_finite: bool) -> (r:
    Result<(), KceError>)
    ensures
        query_len == 0 ==> r == Err::<(), KceError>(KceError::EmptyVector),
        query_len != 0 && query_len != dimension ==> r == Err::<(), KceError>(
            KceError::DimensionMismatch { query: query_len, dataset: dimension },
        ),
        query_len != 0 && query_len == dimension && top_k == 0 ==> (r matches Err(
            KceError::Validation(s),
        ) && s@ == "top_k must be > 0"@),
        query_len != 0 && query_len == dimension && top_k != 0 && !all_finite ==> (r matches Err(
            KceError::Validation(s),
        ) && s@ == "query contains NaN/Inf"@),
        query_len != 0 && query_len == dimension && top_k != 0 && all_finite ==> r is Ok,
{
    if query_len == 0 {
        return Err(KceError::EmptyVector);
    }
    if query_len != dimension {
        return Err(KceError::DimensionMismatch { query: query_len, dataset: dimension });
    }
    if top_k == 0 {
        return Err(KceError::Validation(String::from_str("top_k must be > 0")));
    }
    if !all_finite {
        return Err(KceError::Validation(String::from_str("query contains NaN/Inf")));
    }
    Ok(())
}

/// The intent for the retrieved results: an alert when some score is
/// low (below 0.3), else a risk evaluation when some score is high
/// (above 0.8), else a classification.
pub fn choose_intent(any_low_score: bool, any_high_score: bool) -> (r: MrnaIntent)
    ensures
        r == (if any_low_score {
            MrnaIntent::Alert
        } else if any_high_score {
            MrnaIntent::RiskEval
        } else {
            MrnaIntent::Classify
        }),
{
    if any_low_score {
        MrnaIntent::Alert
    } else if any_high_score {
        MrnaIntent::RiskEval
    } else {
        MrnaIntent::Classify
    }
}

/// Whether a query asks for many more results than the dataset holds
/// (more than ten times its size), which the planning stage reports.
pub fn top_k_exceeds_dataset(top_k: usize, dataset_len: usize) -> (r: bool)
    ensures
        r == (top_k > 10 * dataset_len),
{
    if dataset_len > usize::MAX / 10 {
        false
    } else {
        top_k > dataset_len * 10
    }
}

/// Count a skipped stage: a skipped expansion, ECMA update or encoding
/// each has its own counter; no other stage is ever skipped.
pub fn record_skip(metrics: &mut PipelineMetrics, stage: Stage)
    ensures
        *final(metrics) == match stage {
            Stage::Expand => PipelineMetrics {
                degraded_graph_skips: wrap_add(old(metrics).degraded_graph_skips, 1),
                ..*old(metrics)
            },
            Stage::EcmaUpdate => PipelineMetrics {
                degraded_ecma_skips: wrap_add(old(metrics).degraded_ecma_skips, 1),
                ..*old(metrics)
            },
            Stage::MceEncode => PipelineMetrics {
                degraded_mce_skips: wrap_add(old(metrics).degraded_mce_skips, 1),
                ..*old(metrics)
            },
            _ => *old(metrics),
        },
{
    match stage {
        Stage::Expand => metrics.record_graph_skip(),
        Stage::EcmaUpdate => metrics.record_ecma_skip(),
        Stage::MceEncode => metrics.record_mce_skip(),
        _ => {},
    }
}

/// The execute stage.  An encoded instruction (`Some`) is executed by the
/// engine, its time-to-live counted from `created_at_ms` against the
/// clock.  When the encoding was skipped (`None`), the stand-in
/// instruction ([`skipped_encoding`]) is dispatched as it is, without the
/// payload check that would refuse it, so a degraded run completes.
pub fn execute_stage(engine: &MceEngine, encoded: Option<&Mrna>, created_at_ms: u64) -> (r: Result<
    Dispatch,
    KceError,
>)
    ensures
        encoded is None ==> r == Ok::<Dispatch, KceError>(
            spec_dispatch(MrnaIntent::Classify, Seq::<u8>::empty()),
        ),
        encoded matches Some(m) ==> exists|now: u64| #[trigger] execute_outcome(*m, created_at_ms, now, r),
{
    match encoded {
        Some(m) => engine.execute(m, created_at_ms),
        None => {
            let stand_in = skipped_encoding();
            proof {
                assert(stand_in.payload@ =~= Seq::<u8>::empty());
            }
            Ok(dispatch_intent(&stand_in))
        },
    }
}

/// The instruction that stands in for a skipped encoding: classify, with
/// priority 0, a one-second time-to-live and no payload.
pub fn skipped_encoding() -> (m: Mrna)
    ensures
        m.intent == MrnaIntent::Classify,
        m.priority == 0,
        m.ttl_ms == 1000,
        m.payload@.len() == 0,
        m.payload_size_bytes == 0,
        m.original_size_bytes == 0,
{
    Mrna {
        intent: MrnaIntent::Classify,
        priority: 0,
        ttl_ms: 1000,
        payload: Vec::new(),
        payload_size_bytes: 0,
        original_size_bytes: 0,
    }
}

} // verus!
