use hyperevolution::{
    domain_replay_manifest, evaluate_candidate_with_oracle, surrogate_allows_archive_promotion,
    BlackBoxEvaluationReport, Candidate, CandidateId, DomainReplayReport, DomainReplayTarget,
    EvaluationCost, FitnessOracle, FitnessReport, Genome, Real, ReplayStatus, SurrogateDecision,
    SurrogateScreenReport, SurrogateStage,
};

struct SquareOracle;

impl FitnessOracle for SquareOracle {
    fn evaluate(&self, candidate: &Candidate) -> BlackBoxEvaluationReport {
        let gene = &candidate.genome.genes[0];
        BlackBoxEvaluationReport {
            fitness: FitnessReport::scalar(candidate.id.clone(), gene * gene, ReplayStatus::Accepted),
            cost: EvaluationCost::one_call(),
            cache_key: None,
            dependencies: vec![],
            replay_hooks: vec![],
            surrogate_stage: None,
        }
    }
}

fn id(value: &str) -> CandidateId {
    CandidateId::new(value).unwrap()
}

#[test]
fn manifest_names_owner_hook_and_cache_key() {
    let manifest = domain_replay_manifest(id("c1"), DomainReplayTarget::Hyperphysics, "run-7");
    assert_eq!(manifest.candidate.as_str(), "c1");
    assert_eq!(manifest.target, DomainReplayTarget::Hyperphysics);
    assert_eq!(manifest.hook.domain, "hyperphysics");
    assert_eq!(manifest.hook.target, "run-7");
    assert!(manifest.dependencies.is_empty());
    assert_eq!(manifest.cache_key.unwrap().0, "domain-replay:run-7");

    let mesh = domain_replay_manifest(id("c2"), DomainReplayTarget::MeshOrCsg, "m");
    assert_eq!(mesh.hook.domain, "mesh-or-csg");
    let other = domain_replay_manifest(id("c3"), DomainReplayTarget::Other("custom".into()), "");
    assert_eq!(other.hook.domain, "custom");
    assert_eq!(other.cache_key.unwrap().0, "domain-replay:");
}

#[test]
fn replay_report_status_queries() {
    let manifest = domain_replay_manifest(id("c"), DomainReplayTarget::Hypersolve, "t");
    let mut report = DomainReplayReport { manifest, status: ReplayStatus::Accepted, evidence: vec![] };
    assert!(report.is_accepted());
    assert!(!report.needs_followup());
    report.status = ReplayStatus::Unknown;
    assert!(!report.is_accepted());
    assert!(report.needs_followup());
    report.status = ReplayStatus::Rejected;
    assert!(!report.is_accepted());
    assert!(!report.needs_followup());
}

#[test]
fn oracle_reports_and_promotion_boundary() {
    let candidate = Candidate {
        id: id("c"),
        genome: Genome { genes: vec![Real::from(3)] },
        proposal_seed: 0,
    };
    let mut report = evaluate_candidate_with_oracle(&SquareOracle, &candidate);
    assert_eq!(report.cost, EvaluationCost { calls: 1, units: 1 });
    assert!(report.is_promotable());
    assert!(!report.requires_replay());
    report.surrogate_stage = Some(SurrogateStage { name: "screen".into(), lossy: true });
    assert!(!report.is_promotable());
    assert!(report.requires_replay());
    report.surrogate_stage = None;
    report.fitness.replay = ReplayStatus::Unknown;
    assert!(!report.is_promotable());
    assert!(report.requires_replay());

    let screen = SurrogateScreenReport {
        candidate: "c".into(),
        stage: SurrogateStage { name: "screen".into(), lossy: false },
        decision: SurrogateDecision::PromoteToReplay,
        cache_key: None,
    };
    assert!(!surrogate_allows_archive_promotion(&screen));
}
