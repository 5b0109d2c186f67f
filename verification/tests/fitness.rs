use hyperevolution::{
    Archive, CandidateId, FitnessComparison, FitnessDirection, FitnessInterval,
    FitnessIntervalComparison, FitnessReport, FitnessValue, ParetoRelation, Real, ReplayStatus,
};
use hyperreal::Rational;

fn id(value: &str) -> CandidateId {
    CandidateId::new(value).unwrap()
}

fn q(numerator: i64, denominator: u64) -> Real {
    Real::new(Rational::fraction(numerator, denominator).expect("nonzero denominator"))
}

fn pareto(id_text: &str, values: &[i64], replay: ReplayStatus) -> FitnessReport {
    FitnessReport {
        candidate: id(id_text),
        value: FitnessValue::Pareto(values.iter().map(|v| Real::from(*v)).collect()),
        replay,
        evidence: vec![],
    }
}

#[test]
fn exact_scalar_and_lexicographic_fitness_compare_without_float_surrogates() {
    let low = FitnessValue::Scalar(Box::new(Real::from(1)));
    let high = FitnessValue::Scalar(Box::new(Real::from(2)));
    assert_eq!(
        low.compare_total(&high, FitnessDirection::Minimize),
        FitnessComparison::Better
    );
    assert_eq!(
        low.compare_total(&high, FitnessDirection::Maximize),
        FitnessComparison::Worse
    );

    let left = FitnessValue::Lexicographic(vec![Real::from(1), Real::from(9)]);
    let right = FitnessValue::Lexicographic(vec![Real::from(1), Real::from(10)]);
    assert_eq!(
        left.compare_total(&right, FitnessDirection::Minimize),
        FitnessComparison::Better
    );
}

#[test]
fn pareto_archive_keeps_only_accepted_non_dominated_reports() {
    let mut archive = Archive::default();
    let dominated = FitnessReport {
        candidate: id("dominated"),
        value: FitnessValue::Pareto(vec![Real::from(5), Real::from(5)]),
        replay: ReplayStatus::Accepted,
        evidence: vec!["fixture".into()],
    };
    let dominant = FitnessReport {
        candidate: id("dominant"),
        value: FitnessValue::Pareto(vec![Real::from(3), Real::from(4)]),
        replay: ReplayStatus::Accepted,
        evidence: vec!["fixture".into()],
    };
    let rejected = FitnessReport {
        candidate: id("rejected"),
        value: FitnessValue::Pareto(vec![Real::from(1), Real::from(1)]),
        replay: ReplayStatus::Rejected,
        evidence: vec![],
    };

    assert!(archive.insert_non_dominated(dominated, FitnessDirection::Minimize));
    assert!(!archive.insert_non_dominated(rejected, FitnessDirection::Minimize));
    assert!(archive.insert_non_dominated(dominant, FitnessDirection::Minimize));
    assert_eq!(archive.reports().len(), 1);
    assert_eq!(archive.reports()[0].candidate.as_str(), "dominant");
}

#[test]
fn pareto_relation_reports_non_dominated_vectors() {
    let left = FitnessValue::Pareto(vec![Real::from(1), Real::from(5)]);
    let right = FitnessValue::Pareto(vec![Real::from(2), Real::from(4)]);
    assert_eq!(
        left.compare_pareto(&right, FitnessDirection::Minimize),
        ParetoRelation::NonDominated
    );
}

#[test]
fn overlapping_rational_intervals_stay_overlapping() {
    let left = FitnessInterval::new(q(1, 3), q(2, 3));
    let right = FitnessInterval::new(q(1, 2), q(3, 2));
    assert_eq!(
        left.compare(&right, FitnessDirection::Minimize),
        FitnessIntervalComparison::Overlapping
    );
    assert_eq!(
        left.compare(&right, FitnessDirection::Maximize),
        FitnessIntervalComparison::Overlapping
    );
}

#[test]
fn separated_intervals_order_by_direction() {
    let low = FitnessInterval::new(Real::from(1), Real::from(2));
    let high = FitnessInterval::new(Real::from(3), Real::from(4));
    assert_eq!(low.compare(&high, FitnessDirection::Minimize), FitnessIntervalComparison::Better);
    assert_eq!(low.compare(&high, FitnessDirection::Maximize), FitnessIntervalComparison::Worse);
    assert_eq!(high.compare(&low, FitnessDirection::Minimize), FitnessIntervalComparison::Worse);
    assert_eq!(high.compare(&low, FitnessDirection::Maximize), FitnessIntervalComparison::Better);
    assert_eq!(low.compare(&low.clone(), FitnessDirection::Minimize), FitnessIntervalComparison::Equal);
}

#[test]
fn inverted_interval_is_invalid() {
    let inverted = FitnessInterval::new(Real::from(5), Real::from(1));
    let valid = FitnessInterval::new(Real::from(0), Real::from(1));
    assert_eq!(inverted.has_valid_bounds(), Some(false));
    assert_eq!(valid.has_valid_bounds(), Some(true));
    assert_eq!(
        FitnessInterval::new(Real::from(2), Real::from(2)).has_valid_bounds(),
        Some(true)
    );
    assert_eq!(
        valid.compare(&inverted, FitnessDirection::Minimize),
        FitnessIntervalComparison::InvalidBounds
    );
    assert_eq!(
        inverted.compare(&valid, FitnessDirection::Maximize),
        FitnessIntervalComparison::InvalidBounds
    );
}

#[test]
fn interval_total_comparison_maps_overlap_to_unknown() {
    let a = FitnessValue::Interval(Box::new(FitnessInterval::new(Real::from(0), Real::from(2))));
    let b = FitnessValue::Interval(Box::new(FitnessInterval::new(Real::from(1), Real::from(3))));
    let c = FitnessValue::Interval(Box::new(FitnessInterval::new(Real::from(5), Real::from(6))));
    assert_eq!(a.compare_total(&b, FitnessDirection::Minimize), FitnessComparison::Unknown);
    assert_eq!(a.compare_total(&c, FitnessDirection::Minimize), FitnessComparison::Better);
    assert_eq!(c.compare_total(&a, FitnessDirection::Minimize), FitnessComparison::Worse);
}

#[test]
fn mixed_or_mismatched_values_compare_unknown() {
    let scalar = FitnessValue::Scalar(Box::new(Real::from(1)));
    let lex = FitnessValue::Lexicographic(vec![Real::from(1)]);
    let lex_long = FitnessValue::Lexicographic(vec![Real::from(1), Real::from(2)]);
    let pareto_value = FitnessValue::Pareto(vec![Real::from(1)]);
    assert_eq!(scalar.compare_total(&lex, FitnessDirection::Minimize), FitnessComparison::Unknown);
    assert_eq!(lex.compare_total(&lex_long, FitnessDirection::Minimize), FitnessComparison::Unknown);
    assert_eq!(
        pareto_value.compare_total(&pareto_value.clone(), FitnessDirection::Minimize),
        FitnessComparison::Unknown
    );
    assert_eq!(scalar.compare_pareto(&pareto_value, FitnessDirection::Minimize), ParetoRelation::Unknown);
    assert_eq!(
        pareto_value.compare_pareto(&FitnessValue::Pareto(vec![Real::from(1), Real::from(2)]), FitnessDirection::Minimize),
        ParetoRelation::Unknown
    );
}

#[test]
fn scalar_ties_and_lexicographic_ties_are_equal() {
    let a = FitnessValue::Scalar(Box::new(q(1, 2)));
    let b = FitnessValue::Scalar(Box::new(q(2, 4)));
    assert_eq!(a.compare_total(&b, FitnessDirection::Minimize), FitnessComparison::Equal);
    let l = FitnessValue::Lexicographic(vec![Real::from(1), Real::from(2)]);
    assert_eq!(l.compare_total(&l.clone(), FitnessDirection::Maximize), FitnessComparison::Equal);
    let later = FitnessValue::Lexicographic(vec![Real::from(1), Real::from(3)]);
    assert_eq!(l.compare_total(&later, FitnessDirection::Maximize), FitnessComparison::Worse);
}

#[test]
fn reversing_direction_swaps_verdicts() {
    let left = FitnessValue::Lexicographic(vec![Real::from(2), Real::from(0)]);
    let right = FitnessValue::Lexicographic(vec![Real::from(2), Real::from(7)]);
    assert_eq!(left.compare_total(&right, FitnessDirection::Minimize), FitnessComparison::Better);
    assert_eq!(left.compare_total(&right, FitnessDirection::Maximize), FitnessComparison::Worse);
    let p = FitnessValue::Pareto(vec![Real::from(1), Real::from(1)]);
    let r = FitnessValue::Pareto(vec![Real::from(2), Real::from(1)]);
    assert_eq!(p.compare_pareto(&r, FitnessDirection::Minimize), ParetoRelation::Dominates);
    assert_eq!(p.compare_pareto(&r, FitnessDirection::Maximize), ParetoRelation::Dominated);
    assert_eq!(p.compare_pareto(&p.clone(), FitnessDirection::Maximize), ParetoRelation::Equal);
}

#[test]
fn irrational_scalars_compare_exactly() {
    let pi = FitnessValue::Scalar(Box::new(Real::pi()));
    let three = FitnessValue::Scalar(Box::new(Real::from(3)));
    assert_eq!(three.compare_total(&pi, FitnessDirection::Minimize), FitnessComparison::Better);
    assert_eq!(pi.compare_total(&three, FitnessDirection::Maximize), FitnessComparison::Better);
}

#[test]
fn insert_replayed_admits_only_accepted_reports() {
    let mut archive = Archive::default();
    assert!(!archive.insert_replayed(FitnessReport::scalar(id("a"), Real::from(1), ReplayStatus::Unknown)));
    assert!(!archive.insert_replayed(FitnessReport::scalar(id("b"), Real::from(1), ReplayStatus::Rejected)));
    assert!(archive.reports().is_empty());
    assert!(archive.insert_replayed(FitnessReport::scalar(id("c"), Real::from(1), ReplayStatus::Accepted)));
    assert_eq!(archive.reports().len(), 1);
    assert_eq!(archive.reports()[0].candidate.as_str(), "c");
}

#[test]
fn non_dominated_archive_refuses_dominated_newcomer_and_keeps_incomparable() {
    let mut archive = Archive::default();
    assert!(archive.insert_non_dominated(pareto("a", &[1, 5], ReplayStatus::Accepted), FitnessDirection::Minimize));
    assert!(archive.insert_non_dominated(pareto("b", &[5, 1], ReplayStatus::Accepted), FitnessDirection::Minimize));
    assert_eq!(archive.reports().len(), 2);
    assert!(!archive.insert_non_dominated(pareto("c", &[6, 6], ReplayStatus::Accepted), FitnessDirection::Minimize));
    assert_eq!(archive.reports().len(), 2);
    assert!(archive.insert_non_dominated(pareto("d", &[0, 0], ReplayStatus::Accepted), FitnessDirection::Minimize));
    assert_eq!(archive.reports().len(), 1);
    assert_eq!(archive.reports()[0].candidate.as_str(), "d");
    for report in archive.reports() {
        assert_eq!(report.replay, ReplayStatus::Accepted);
    }
}

#[test]
fn scalar_report_constructor_has_no_evidence() {
    let report = FitnessReport::scalar(id("s"), Real::from(4), ReplayStatus::Accepted);
    assert_eq!(report.candidate.as_str(), "s");
    assert_eq!(report.replay, ReplayStatus::Accepted);
    assert!(report.evidence.is_empty());
    assert_eq!(report.value, FitnessValue::Scalar(Box::new(Real::from(4))));
}

#[test]
fn swapping_whole_number_values_exchanges_verdicts() {
    let values = [
        FitnessValue::Scalar(Box::new(Real::from(-4))),
        FitnessValue::Scalar(Box::new(Real::from(9))),
        FitnessValue::Lexicographic(vec![Real::from(1), Real::from(5)]),
        FitnessValue::Lexicographic(vec![Real::from(1), Real::from(-5)]),
    ];
    for direction in [FitnessDirection::Minimize, FitnessDirection::Maximize] {
        for (a, b) in [(&values[0], &values[1]), (&values[2], &values[3])] {
            let forward = a.compare_total(b, direction);
            let backward = b.compare_total(a, direction);
            match forward {
                FitnessComparison::Better => assert_eq!(backward, FitnessComparison::Worse),
                FitnessComparison::Worse => assert_eq!(backward, FitnessComparison::Better),
                other => panic!("whole numbers compare decisively, got {:?}", other),
            }
        }
    }
    let p = FitnessValue::Pareto(vec![Real::from(0), Real::from(3)]);
    let r = FitnessValue::Pareto(vec![Real::from(1), Real::from(3)]);
    assert_eq!(p.compare_pareto(&r, FitnessDirection::Minimize), ParetoRelation::Dominates);
    assert_eq!(r.compare_pareto(&p, FitnessDirection::Minimize), ParetoRelation::Dominated);
}
