//! Black-box objective and surrogate-screening surfaces.
//!
//! A black-box evaluator may be opaque or expensive, but it returns
//! report-bearing evidence: exact fitness, evaluation cost, cache keys,
//! construction dependencies, replay hooks, and surrogate screening status.
//! Surrogate stages can reject or defer a proposal but never certify it.

use crate::fitness::FitnessReport;
use crate::search::{Candidate, ReplayStatus};
use vstd::prelude::*;

verus! {

/// Stable cache key returned by a black-box evaluator.
#[derive(Clone, Debug, Eq, Hash, PartialEq)]
pub struct EvaluationCacheKey(pub String);

/// Construction dependency recorded by an evaluator.
#[derive(Clone, Debug, Eq, Hash, PartialEq)]
pub struct ConstructionDependency(pub String);

/// Replay hook that a domain owner can use to recertify a candidate.
#[derive(Clone, Debug, Eq, Hash, PartialEq)]
pub struct ReplayHook {
    /// Domain or crate expected to own replay.
    pub domain: String,
    /// Stable replay target inside that domain.
    pub target: String,
}

/// Evaluation cost reported by an oracle.
#[derive(Clone, Copy, Debug, PartialEq, Eq, Structural)]
pub struct EvaluationCost {
    /// Number of objective calls spent.
    pub calls: usize,
    /// Abstract cost units for domain-specific accounting.
    pub units: usize,
}

impl EvaluationCost {
    /// One ordinary black-box call.
    pub fn one_call() -> (cost: Self)
        ensures
            cost.calls == 1,
            cost.units == 1,
    {
        EvaluationCost { calls: 1, units: 1 }
    }
}

/// Named surrogate or approximate screening stage.
#[derive(Clone, Debug, PartialEq, Eq)]
pub struct SurrogateStage {
    /// Human-readable stage name.
    pub name: String,
    /// Whether this stage is lossy/approximate.
    pub lossy: bool,
}

/// Surrogate screening decision.
#[derive(Clone, Debug, PartialEq, Eq, Structural)]
pub enum SurrogateDecision {
    /// Candidate may proceed to exact/domain replay.
    PromoteToReplay,
    /// Candidate is only a proposal and must not enter accepted archives.
    ProposalOnly,
    /// Candidate was rejected by the surrogate screen.
    Reject,
}

/// Full report from a black-box objective call.
#[derive(Clone, Debug, PartialEq)]
pub struct BlackBoxEvaluationReport {
    /// Candidate fitness report.
    pub fitness: FitnessReport,
    /// Evaluation cost.
    pub cost: EvaluationCost,
    /// Optional deterministic cache key.
    pub cache_key: Option<EvaluationCacheKey>,
    /// Construction dependencies consumed by the evaluation.
    pub dependencies: Vec<ConstructionDependency>,
    /// Replay hooks that can recertify the candidate.
    pub replay_hooks: Vec<ReplayHook>,
    /// Surrogate stage, when this was not direct exact/domain replay.
    pub surrogate_stage: Option<SurrogateStage>,
}

impl BlackBoxEvaluationReport {
    /// No surrogate stage produced the report and its replay was accepted.
    pub open spec fn promotion_allowed(&self) -> bool {
        self.surrogate_stage is None && self.fitness.replay == ReplayStatus::Accepted
    }

    /// A surrogate stage produced the report, or its replay was not accepted.
    pub open spec fn replay_pending(&self) -> bool {
        self.surrogate_stage is Some || self.fitness.replay != ReplayStatus::Accepted
    }

    /// Returns whether the report is eligible for accepted archive promotion:
    /// no surrogate stage produced it and its replay was accepted.
    pub fn is_promotable(&self) -> (promotable: bool)
        ensures
            promotable == self.promotion_allowed(),
    {
        self.surrogate_stage.is_none() && self.fitness.replay == ReplayStatus::Accepted
    }

    /// Returns whether exact/domain replay is still required before promotion.
    pub fn requires_replay(&self) -> (required: bool)
        ensures
            required == self.replay_pending(),
    {
        self.surrogate_stage.is_some() || self.fitness.replay != ReplayStatus::Accepted
    }
}

/// Trait for opaque domain or benchmark objectives.
pub trait FitnessOracle {
    /// Evaluate a candidate and return report-bearing fitness evidence.
    fn evaluate(&self, candidate: &Candidate) -> BlackBoxEvaluationReport;
}

/// Trait for approximate screening stages.
pub trait SurrogateScreen {
    /// Screen a candidate before exact/domain replay.
    fn screen(&self, candidate: &Candidate) -> SurrogateScreenReport;
}

/// Report from a surrogate screen.
#[derive(Clone, Debug, PartialEq, Eq)]
pub struct SurrogateScreenReport {
    /// Candidate id text for diagnostics.
    pub candidate: String,
    /// Stage that produced this decision.
    pub stage: SurrogateStage,
    /// Screening decision.
    pub decision: SurrogateDecision,
    /// Optional deterministic cache key.
    pub cache_key: Option<EvaluationCacheKey>,
}

/// Evaluates a candidate through an oracle: the report is the one that the
/// oracle's `evaluate` returns for this candidate, handed back unchanged.
pub fn evaluate_candidate_with_oracle<O: FitnessOracle>(
    oracle: &O,
    candidate: &Candidate,
) -> (report: BlackBoxEvaluationReport)
    ensures
        call_ensures(O::evaluate, (oracle, candidate), report),
{
    oracle.evaluate(candidate)
}

/// Returns whether a surrogate-screened candidate may enter an accepted
/// archive. Surrogate output alone is never promotable: even
/// `PromoteToReplay` only sends the candidate to exact/domain replay.
pub fn surrogate_allows_archive_promotion(report: &SurrogateScreenReport) -> (allowed: bool)
    ensures
        !allowed,
{
    false
}

} // verus!
