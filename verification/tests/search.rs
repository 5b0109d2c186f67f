use hyperevolution::{
    classify_simulated_annealing_neighbor, crossover_one_point, exact_structural_diversity,
    hill_climb_exact, mutate_exact_delta, select_exact_best, select_tournament_by_indices,
    AnnealingAcceptance, Archive, Candidate, CandidateId, EvolutionError, FitnessComparison,
    FitnessDirection, FitnessReport, FitnessValue, Genome, HillClimbPolicy, HillClimbStopReason,
    HillClimbStrategy, Population, Real, ReplayStatus, SelectionError, SimulatedAnnealingPolicy,
    VariationError,
};

fn id(value: &str) -> CandidateId {
    CandidateId::new(value).unwrap()
}

fn candidate(name: &str, genes: &[i64], seed: u64) -> Candidate {
    Candidate {
        id: id(name),
        genome: Genome { genes: genes.iter().map(|g| Real::from(*g)).collect() },
        proposal_seed: seed,
    }
}

fn scalar(name: &str, value: i64, replay: ReplayStatus) -> FitnessReport {
    FitnessReport::scalar(id(name), Real::from(value), replay)
}

#[test]
fn quickstart_mutation_improves_and_archives() {
    let seed = candidate("seed", &[2, 3], 42);
    let child = mutate_exact_delta(&seed, 0, Real::from(-1), id("child")).expect("gene 0 exists");
    assert_eq!(child.genome.genes, vec![Real::from(1), Real::from(3)]);
    assert_eq!(child.proposal_seed, 42);
    assert_eq!(child.id.as_str(), "child");

    let before = FitnessReport::scalar(seed.id, Real::from(4), ReplayStatus::Accepted);
    let after = FitnessReport::scalar(child.id, Real::from(1), ReplayStatus::Accepted);
    assert_eq!(
        after.value.compare_total(&before.value, FitnessDirection::Minimize),
        FitnessComparison::Better,
    );
    let mut archive = Archive::default();
    assert!(archive.insert_replayed(after));
}

#[test]
fn mutation_rejects_missing_gene() {
    let seed = candidate("seed", &[2, 3], 1);
    assert_eq!(
        mutate_exact_delta(&seed, 2, Real::from(1), id("child")),
        Err(VariationError::GeneIndexOutOfBounds { index: 2, len: 2 })
    );
}

#[test]
fn crossover_splices_swaps_and_copies() {
    let left = candidate("l", &[1, 2, 3], 7);
    let right = candidate("r", &[4, 5, 6], 8);
    let (a, b) = crossover_one_point(&left, &right, 1, id("a"), id("b")).unwrap();
    assert_eq!(a.genome.genes, vec![Real::from(1), Real::from(5), Real::from(6)]);
    assert_eq!(b.genome.genes, vec![Real::from(4), Real::from(2), Real::from(3)]);
    assert_eq!(a.proposal_seed, 7);
    assert_eq!(b.proposal_seed, 8);
    assert_eq!(a.id.as_str(), "a");
    let (a, b) = crossover_one_point(&left, &right, 0, id("a"), id("b")).unwrap();
    assert_eq!(a.genome, right.genome);
    assert_eq!(b.genome, left.genome);
    let (a, b) = crossover_one_point(&left, &right, 3, id("a"), id("b")).unwrap();
    assert_eq!(a.genome, left.genome);
    assert_eq!(b.genome, right.genome);
}

#[test]
fn crossover_rejects_bad_shapes() {
    let left = candidate("l", &[1, 2, 3], 0);
    let short = candidate("s", &[1, 2], 0);
    assert_eq!(
        crossover_one_point(&left, &short, 1, id("a"), id("b")),
        Err(VariationError::GenomeLengthMismatch { left: 3, right: 2 })
    );
    assert_eq!(
        crossover_one_point(&left, &left.clone(), 4, id("a"), id("b")),
        Err(VariationError::CrossoverIndexOutOfBounds { index: 4, len: 3 })
    );
}

#[test]
fn structural_diversity_classifies_every_pair() {
    let population = [
        candidate("a", &[1, 2], 0),
        candidate("b", &[1, 2], 0),
        candidate("c", &[1, 3], 0),
        candidate("d", &[1], 0),
    ];
    let report = exact_structural_diversity(&population);
    assert_eq!(report.candidate_count, 4);
    assert_eq!(report.pair_count, 6);
    assert_eq!(report.identical_pairs, 1);
    assert_eq!(report.distinct_pairs, 2);
    assert_eq!(report.shape_mismatch_pairs, 3);
    let empty = exact_structural_diversity(&[]);
    assert_eq!(empty.pair_count, 0);
}

#[test]
fn population_push_appends() {
    let mut population = Population::default();
    population.push(candidate("a", &[1], 0));
    population.push(candidate("b", &[2], 0));
    assert_eq!(population.candidates.len(), 2);
    assert_eq!(population.candidates[1].id.as_str(), "b");
}

#[test]
fn exact_best_selection_ignores_unaccepted_and_keeps_first_tie() {
    let candidates = [
        candidate("a", &[0], 0),
        candidate("b", &[0], 0),
        candidate("c", &[0], 0),
        candidate("d", &[0], 0),
    ];
    let reports = [
        scalar("a", 5, ReplayStatus::Accepted),
        scalar("b", 2, ReplayStatus::Accepted),
        scalar("c", 1, ReplayStatus::Rejected),
        scalar("d", 2, ReplayStatus::Accepted),
    ];
    let selected = select_exact_best(&candidates, &reports, FitnessDirection::Minimize).unwrap();
    assert_eq!(selected.candidate.id.as_str(), "b");
    assert_eq!(selected.fitness.candidate.as_str(), "b");
    assert_eq!(selected.inspected, 4);
    let selected = select_exact_best(&candidates, &reports, FitnessDirection::Maximize).unwrap();
    assert_eq!(selected.candidate.id.as_str(), "a");
}

#[test]
fn tournament_selection_replays_given_indices() {
    let candidates = [candidate("a", &[0], 0), candidate("b", &[0], 0), candidate("c", &[0], 0)];
    let reports = [
        scalar("a", 1, ReplayStatus::Accepted),
        scalar("b", 3, ReplayStatus::Accepted),
        scalar("c", 2, ReplayStatus::Accepted),
    ];
    let selected =
        select_tournament_by_indices(&candidates, &reports, &[1, 2, 1], FitnessDirection::Minimize).unwrap();
    assert_eq!(selected.candidate.id.as_str(), "c");
    assert_eq!(selected.inspected, 3);
    assert_eq!(
        select_tournament_by_indices(&candidates, &reports, &[0, 3], FitnessDirection::Minimize),
        Err(SelectionError::TournamentIndexOutOfBounds { index: 3, candidate_count: 3 })
    );
    assert_eq!(
        select_tournament_by_indices(&candidates, &reports, &[], FitnessDirection::Minimize),
        Err(SelectionError::NoAcceptedReplay)
    );
}

#[test]
fn selection_reports_each_error() {
    let candidates = [candidate("a", &[0], 0), candidate("b", &[0], 0)];
    let one_report = [scalar("a", 1, ReplayStatus::Accepted)];
    assert_eq!(
        select_exact_best(&candidates, &one_report, FitnessDirection::Minimize),
        Err(SelectionError::CandidateReportCountMismatch)
    );
    assert_eq!(
        select_exact_best(&[], &[], FitnessDirection::Minimize),
        Err(SelectionError::EmptyPopulation)
    );
    let misaligned = [scalar("a", 1, ReplayStatus::Accepted), scalar("x", 1, ReplayStatus::Accepted)];
    assert_eq!(
        select_exact_best(&candidates, &misaligned, FitnessDirection::Minimize),
        Err(SelectionError::CandidateReportIdMismatch { index: 1 })
    );
    let unaccepted = [scalar("a", 1, ReplayStatus::Unknown), scalar("b", 1, ReplayStatus::Rejected)];
    assert_eq!(
        select_exact_best(&candidates, &unaccepted, FitnessDirection::Minimize),
        Err(SelectionError::NoAcceptedReplay)
    );
    let incomparable = [
        scalar("a", 1, ReplayStatus::Accepted),
        FitnessReport {
            candidate: id("b"),
            value: FitnessValue::Pareto(vec![Real::from(1)]),
            replay: ReplayStatus::Accepted,
            evidence: vec![],
        },
    ];
    assert_eq!(
        select_exact_best(&candidates, &incomparable, FitnessDirection::Minimize),
        Err(SelectionError::UnknownComparison)
    );
}

#[test]
fn annealing_classifies_each_case() {
    let policy = SimulatedAnnealingPolicy { initial_temperature: Real::from(10), cooling_ratio: Real::from(1) };
    let current = scalar("c", 5, ReplayStatus::Accepted);
    let d = FitnessDirection::Minimize;
    assert_eq!(
        classify_simulated_annealing_neighbor(&current, &scalar("n", 4, ReplayStatus::Accepted), &policy, d),
        AnnealingAcceptance::AcceptImprovement
    );
    assert_eq!(
        classify_simulated_annealing_neighbor(&current, &scalar("n", 5, ReplayStatus::Accepted), &policy, d),
        AnnealingAcceptance::AcceptEqual
    );
    assert_eq!(
        classify_simulated_annealing_neighbor(&current, &scalar("n", 6, ReplayStatus::Accepted), &policy, d),
        AnnealingAcceptance::RequiresProbabilisticProposal
    );
    assert_eq!(
        classify_simulated_annealing_neighbor(&current, &scalar("n", 1, ReplayStatus::Rejected), &policy, d),
        AnnealingAcceptance::RejectUncertifiedReplay
    );
    let pareto_neighbor = FitnessReport {
        candidate: id("n"),
        value: FitnessValue::Pareto(vec![Real::from(1)]),
        replay: ReplayStatus::Accepted,
        evidence: vec![],
    };
    assert_eq!(
        classify_simulated_annealing_neighbor(&current, &pareto_neighbor, &policy, d),
        AnnealingAcceptance::UnknownComparison
    );
}

#[test]
fn annealing_rejects_schedules_outside_the_domain() {
    let current = scalar("c", 5, ReplayStatus::Accepted);
    let neighbor = scalar("n", 4, ReplayStatus::Accepted);
    let d = FitnessDirection::Minimize;
    for (temperature, ratio) in [(0, 1), (-1, 1), (1, 0), (1, -2), (1, 2)] {
        let policy = SimulatedAnnealingPolicy {
            initial_temperature: Real::from(temperature),
            cooling_ratio: Real::from(ratio),
        };
        assert_eq!(
            classify_simulated_annealing_neighbor(&current, &neighbor, &policy, d),
            AnnealingAcceptance::InvalidSchedule
        );
    }
}

fn distance_to_three(candidate: &Candidate) -> FitnessReport {
    let difference = &candidate.genome.genes[0] - Real::from(3);
    FitnessReport::scalar(candidate.id.clone(), &difference * &difference, ReplayStatus::Accepted)
}

#[test]
fn first_improvement_hill_climb_reaches_the_optimum() {
    let initial = candidate("seed", &[0], 9);
    let policy = HillClimbPolicy::first_improvement(Real::from(1), 10);
    assert_eq!(policy.strategy, HillClimbStrategy::FirstImprovement);
    let report = hill_climb_exact(initial.clone(), &policy, FitnessDirection::Minimize, distance_to_three);
    assert_eq!(report.reason, HillClimbStopReason::LocalOptimum);
    assert_eq!(report.accepted_steps, 3);
    assert_eq!(report.evaluations, 6);
    assert_eq!(report.accepted_reports.len(), 4);
    assert_eq!(report.final_candidate.genome.genes, vec![Real::from(3)]);
    assert_eq!(report.final_candidate.proposal_seed, 9);
    assert_eq!(report.final_candidate.id.as_str(), "seed:hill:0:plus:hill:0:plus:hill:0:plus");
    assert_eq!(report.initial, initial);
    assert_eq!(report.final_fitness.value, FitnessValue::Scalar(Box::new(Real::from(0))));
}

#[test]
fn best_improvement_hill_climb_takes_the_best_neighbor() {
    let initial = candidate("x", &[0, 5], 0);
    let policy = HillClimbPolicy::best_improvement(Real::from(1), 1);
    let evaluate = |c: &Candidate| {
        let value = &c.genome.genes[0] + &c.genome.genes[1];
        FitnessReport::scalar(c.id.clone(), value, ReplayStatus::Accepted)
    };
    let report = hill_climb_exact(initial, &policy, FitnessDirection::Maximize, evaluate);
    assert_eq!(report.reason, HillClimbStopReason::BudgetExhausted);
    assert_eq!(report.accepted_steps, 1);
    assert_eq!(report.evaluations, 5);
    assert_eq!(report.final_candidate.genome.genes, vec![Real::from(1), Real::from(5)]);
    assert_eq!(report.final_candidate.id.as_str(), "x:hill:0:plus");
}

#[test]
fn hill_climb_stops_on_unaccepted_or_unsupported_start() {
    let initial = candidate("x", &[0], 0);
    let policy = HillClimbPolicy::first_improvement(Real::from(1), 5);
    let rejected = |c: &Candidate| FitnessReport::scalar(c.id.clone(), Real::from(0), ReplayStatus::Rejected);
    let report = hill_climb_exact(initial.clone(), &policy, FitnessDirection::Minimize, rejected);
    assert_eq!(report.reason, HillClimbStopReason::InitialReplayRejected);
    assert_eq!(report.evaluations, 1);
    assert_eq!(report.final_candidate, initial);
    let pareto = |c: &Candidate| FitnessReport {
        candidate: c.id.clone(),
        value: FitnessValue::Pareto(vec![Real::from(0)]),
        replay: ReplayStatus::Accepted,
        evidence: vec![],
    };
    let report = hill_climb_exact(initial.clone(), &policy, FitnessDirection::Minimize, pareto);
    assert_eq!(report.reason, HillClimbStopReason::InitialFitnessUnsupported);
    assert_eq!(report.accepted_steps, 0);
}

#[test]
fn plateau_moves_follow_ties_within_the_budget() {
    let initial = candidate("flat", &[0], 0);
    let mut policy = HillClimbPolicy::first_improvement(Real::from(1), 4);
    policy.accept_equal_plateau = true;
    let flat = |c: &Candidate| FitnessReport::scalar(c.id.clone(), Real::from(0), ReplayStatus::Accepted);
    let report = hill_climb_exact(initial, &policy, FitnessDirection::Minimize, flat);
    assert_eq!(report.reason, HillClimbStopReason::BudgetExhausted);
    assert_eq!(report.accepted_steps, 4);
    assert_eq!(report.final_candidate.genome.genes, vec![Real::from(-4)]);
}

#[test]
fn tabu_memory_allows_revisiting_old_genomes() {
    let initial = candidate("flat", &[0], 0);
    let mut policy = HillClimbPolicy::first_improvement(Real::from(1), 4);
    policy.accept_equal_plateau = true;
    policy.tabu_memory = 1;
    let flat = |c: &Candidate| FitnessReport::scalar(c.id.clone(), Real::from(0), ReplayStatus::Accepted);
    let report = hill_climb_exact(initial, &policy, FitnessDirection::Minimize, flat);
    assert_eq!(report.accepted_steps, 4);
    assert_eq!(report.final_candidate.genome.genes, vec![Real::from(-4)]);
}

#[test]
fn empty_candidate_ids_are_rejected() {
    assert_eq!(CandidateId::new(""), Err(EvolutionError::EmptyIdentifier));
    assert_eq!(CandidateId::new("x").unwrap().as_str(), "x");
    assert_eq!(CandidateId::new("héllo").unwrap().as_str(), "héllo");
}

/// Zero on the unit square `{0, 1} x {0, 1}`, one elsewhere.
fn flat_on_unit_square(candidate: &Candidate) -> FitnessReport {
    let zero = Real::from(0);
    let one = Real::from(1);
    let inside = candidate.genome.genes.iter().all(|g| g >= &zero && g <= &one);
    let value = if inside { Real::from(0) } else { Real::from(1) };
    FitnessReport::scalar(candidate.id.clone(), value, ReplayStatus::Accepted)
}

#[test]
fn without_tabu_limit_the_climb_never_revisits_a_genome() {
    let initial = candidate("sq", &[0, 0], 0);
    let mut policy = HillClimbPolicy::first_improvement(Real::from(1), 4);
    policy.accept_equal_plateau = true;
    let report = hill_climb_exact(initial, &policy, FitnessDirection::Minimize, flat_on_unit_square);
    assert_eq!(report.reason, HillClimbStopReason::LocalOptimum);
    assert_eq!(report.accepted_steps, 3);
    assert_eq!(report.evaluations, 9);
    assert_eq!(report.final_candidate.genome.genes, vec![Real::from(0), Real::from(1)]);
    assert_eq!(report.final_candidate.id.as_str(), "sq:hill:0:plus:hill:1:plus:hill:0:minus");
}

#[test]
fn tabu_window_lets_the_climb_close_a_cycle() {
    let initial = candidate("sq", &[0, 0], 0);
    let mut policy = HillClimbPolicy::first_improvement(Real::from(1), 4);
    policy.accept_equal_plateau = true;
    policy.tabu_memory = 1;
    let report = hill_climb_exact(initial, &policy, FitnessDirection::Minimize, flat_on_unit_square);
    assert_eq!(report.reason, HillClimbStopReason::BudgetExhausted);
    assert_eq!(report.accepted_steps, 4);
    assert_eq!(report.evaluations, 9);
    assert_eq!(report.final_candidate.genome.genes, vec![Real::from(0), Real::from(0)]);
}

#[test]
fn selection_over_comparable_accepted_reports_succeeds() {
    let candidates = [candidate("a", &[0], 0), candidate("b", &[0], 0), candidate("c", &[0], 0)];
    let reports = [
        scalar("a", 3, ReplayStatus::Accepted),
        scalar("b", 1, ReplayStatus::Accepted),
        scalar("c", 2, ReplayStatus::Rejected),
    ];
    for direction in [FitnessDirection::Minimize, FitnessDirection::Maximize] {
        assert!(select_exact_best(&candidates, &reports, direction).is_ok());
        assert!(select_tournament_by_indices(&candidates, &reports, &[2, 0], direction).is_ok());
    }
}

#[test]
fn archive_and_id_copies_keep_their_content() {
    let mut archive = Archive::default();
    assert!(archive.insert_replayed(scalar("a", 1, ReplayStatus::Accepted)));
    assert!(!archive.insert_replayed(scalar("b", 2, ReplayStatus::Unknown)));
    let copy = archive.clone();
    assert_eq!(copy, archive);
    assert_eq!(copy.reports().len(), 1);
    assert!(copy.reports().iter().all(|r| r.replay == ReplayStatus::Accepted));
    let name = id("stable");
    assert_eq!(name.clone().as_str(), "stable");
}

#[test]
fn hill_climb_ids_write_gene_indices_in_decimal() {
    let initial = candidate("w", &[0; 12], 0);
    let policy = HillClimbPolicy::first_improvement(Real::from(1), 1);
    let last_gene = |c: &Candidate| FitnessReport::scalar(c.id.clone(), c.genome.genes[11].clone(), ReplayStatus::Accepted);
    let report = hill_climb_exact(initial, &policy, FitnessDirection::Maximize, last_gene);
    assert_eq!(report.reason, HillClimbStopReason::BudgetExhausted);
    assert_eq!(report.evaluations, 25);
    assert_eq!(report.final_candidate.id.as_str(), "w:hill:11:plus");
}

#[test]
fn hill_climb_with_unbounded_step_budget_stops_at_local_optimum() {
    let initial = candidate("far", &[0], 1);
    let policy = HillClimbPolicy::first_improvement(Real::from(1), usize::MAX);
    let report = hill_climb_exact(initial, &policy, FitnessDirection::Minimize, distance_to_three);
    assert_eq!(report.reason, HillClimbStopReason::LocalOptimum);
    assert_eq!(report.accepted_steps, 3);
    assert_eq!(report.evaluations, 6);
    assert_eq!(report.final_candidate.genome.genes, vec![Real::from(3)]);
}

#[test]
fn tournament_over_every_index_matches_exact_best_on_whole_numbers() {
    let candidates = vec![
        candidate("a", &[0], 0),
        candidate("b", &[0], 0),
        candidate("c", &[0], 0),
    ];
    let reports = [
        scalar("a", 7, ReplayStatus::Accepted),
        scalar("b", -2, ReplayStatus::Accepted),
        scalar("c", -2, ReplayStatus::Accepted),
    ];
    for direction in [FitnessDirection::Minimize, FitnessDirection::Maximize] {
        let best = select_exact_best(&candidates, &reports, direction).unwrap();
        let tournament = select_tournament_by_indices(&candidates, &reports, &[0, 1, 2], direction).unwrap();
        assert_eq!(best.candidate, tournament.candidate);
        assert_eq!(best.inspected, tournament.inspected);
    }
    let best = select_exact_best(&candidates, &reports, FitnessDirection::Minimize).unwrap();
    assert_eq!(best.candidate.id.as_str(), "b");
}
