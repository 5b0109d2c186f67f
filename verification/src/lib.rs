//! Exact-aware evolutionary and proposal-search carriers.
//!
//! Candidate encodings, populations, fitness reports, exact comparison
//! policies, archives, and replay policies. Stochastic search is treated as
//! proposal generation: accepted candidates must replay through exact or
//! certified evidence, and exact ranking and replay evidence stay first-class
//! data.

pub mod domain;
pub mod exact;
pub mod fitness;
pub mod gp;
pub mod identity;
pub mod laws;
pub mod local_search;
pub mod oracle;
pub mod search;

pub use domain::{domain_replay_manifest, DomainReplayManifest, DomainReplayReport, DomainReplayTarget};
pub use fitness::{
    FitnessComparison, FitnessDirection, FitnessInterval, FitnessIntervalComparison, FitnessReport,
    FitnessValue, ParetoRelation,
};
pub use gp::{eval_gp_batch, GpRealExpr, GpValidationIssue, GpValidationLimits, GpValidationReport};
pub use hyperreal::Real;
pub use identity::{CandidateId, EvolutionError, EvolutionResult};
pub use local_search::{
    classify_simulated_annealing_neighbor, hill_climb_exact, AnnealingAcceptance, HillClimbPolicy,
    HillClimbReport, HillClimbStopReason, HillClimbStrategy, SimulatedAnnealingPolicy,
};
pub use oracle::{
    evaluate_candidate_with_oracle, surrogate_allows_archive_promotion, BlackBoxEvaluationReport,
    ConstructionDependency, EvaluationCacheKey, EvaluationCost, FitnessOracle, ReplayHook,
    SurrogateDecision, SurrogateScreen, SurrogateScreenReport, SurrogateStage,
};
pub use search::{
    crossover_one_point, exact_structural_diversity, mutate_exact_delta, select_exact_best,
    select_tournament_by_indices, Archive, Candidate, CrossoverPolicy, DiversityRelation,
    DiversityReport, Genome, MutationPolicy, Population, ReplayPolicy, ReplayStatus,
    SelectionError, SelectionPolicy, SelectionReport, VariationError,
};
