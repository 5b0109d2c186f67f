use std::collections::HashMap;

use hyperevolution::{
    eval_gp_batch, FitnessDirection, FitnessInterval, FitnessIntervalComparison, GpRealExpr,
    GpValidationIssue, GpValidationLimits, Real,
};
use hyperreal::Rational;

fn q(numerator: i64, denominator: u64) -> Real {
    Real::new(Rational::fraction(numerator, denominator).expect("nonzero denominator"))
}

fn constant(value: i64) -> Box<GpRealExpr> {
    Box::new(GpRealExpr::Constant(Box::new(Real::from(value))))
}

fn input(index: usize) -> Box<GpRealExpr> {
    Box::new(GpRealExpr::Input(index))
}

#[test]
fn exact_gp_and_interval_replay_do_not_request_approximation() {
    let expression = GpRealExpr::Mul(
        Box::new(GpRealExpr::Add(
            Box::new(GpRealExpr::Input(0)),
            Box::new(GpRealExpr::Constant(Box::new(q(1, 3)))),
        )),
        Box::new(GpRealExpr::Input(1)),
    );
    let left = FitnessInterval::new(q(1, 3), q(2, 3));
    let right = FitnessInterval::new(q(1, 2), q(3, 2));

    hyperreal::dispatch_trace::reset();
    let _recording = hyperreal::dispatch_trace::recording_scope();
    assert_eq!(expression.eval(&[q(2, 3), Real::from(3)]).unwrap(), Real::from(3));
    assert_eq!(
        left.compare(&right, FitnessDirection::Minimize),
        FitnessIntervalComparison::Overlapping
    );

    let correlation = hyperreal::dispatch_trace::snapshot_trace().correlation_summary();
    assert!(correlation.dispatch_events > 0);
    assert!(correlation.rational_reductions > 0);
    assert_eq!(correlation.approximation_events, 0);
    assert_eq!(correlation.unknown_fact_events, 0);
}

#[test]
fn validation_reports_budgets_first_then_structure() {
    let expression = GpRealExpr::Add(
        Box::new(GpRealExpr::Div(input(0), Box::new(GpRealExpr::Sub(constant(2), constant(2))))),
        Box::new(GpRealExpr::Neg(input(4))),
    );
    assert_eq!(expression.depth(), 4);
    assert_eq!(expression.node_count(), 8);
    let report = expression.validate(GpValidationLimits { input_arity: 2, max_depth: 3, max_nodes: 5 });
    assert_eq!(report.depth, 4);
    assert_eq!(report.nodes, 8);
    assert!(!report.is_valid());
    assert_eq!(
        report.issues,
        vec![
            GpValidationIssue::DepthExceeded { depth: 4, max_depth: 3 },
            GpValidationIssue::NodeBudgetExceeded { nodes: 8, max_nodes: 5 },
            GpValidationIssue::DivisionByZero,
            GpValidationIssue::InputOutOfBounds { input: 4, arity: 2 },
        ]
    );
    let only_nodes = expression.validate(GpValidationLimits { input_arity: 5, max_depth: 4, max_nodes: 7 });
    assert_eq!(
        only_nodes.issues,
        vec![
            GpValidationIssue::NodeBudgetExceeded { nodes: 8, max_nodes: 7 },
            GpValidationIssue::DivisionByZero,
        ]
    );
}

#[test]
fn valid_expression_validates_and_evaluates() {
    let expression = GpRealExpr::Sub(Box::new(GpRealExpr::Mul(input(0), constant(3))), constant(1));
    let report = expression.validate(GpValidationLimits { input_arity: 1, max_depth: 3, max_nodes: 5 });
    assert!(report.is_valid());
    assert_eq!(report.depth, 3);
    assert_eq!(report.nodes, 5);
    assert_eq!(expression.eval(&[Real::from(4)]).unwrap(), Real::from(11));
    assert_eq!(expression.clone(), expression);
}

#[test]
fn evaluation_reports_missing_inputs_and_failed_division() {
    let read_two = GpRealExpr::Add(input(0), input(2));
    assert_eq!(
        read_two.eval(&[Real::from(1)]),
        Err(GpValidationIssue::MissingInput { input: 2 })
    );
    let divide = GpRealExpr::Div(constant(1), input(0));
    assert_eq!(divide.eval(&[Real::from(0)]), Err(GpValidationIssue::UnsupportedDivision));
    assert_eq!(divide.eval(&[Real::from(4)]).unwrap(), q(1, 4));
    let negated = GpRealExpr::Neg(input(0));
    assert_eq!(negated.eval(&[Real::from(5)]).unwrap(), Real::from(-5));
}

#[test]
fn batch_evaluation_keeps_sparse_inputs_sparse() {
    let mut inputs = HashMap::new();
    inputs.insert(0usize, Real::from(2));
    inputs.insert(3usize, Real::from(5));
    let expressions = vec![
        GpRealExpr::Add(input(0), input(3)),
        GpRealExpr::Mul(input(0), input(1)),
        GpRealExpr::Constant(Box::new(Real::from(7))),
    ];
    let results = eval_gp_batch(&expressions, &inputs);
    assert_eq!(results.len(), 3);
    assert_eq!(results[0].as_ref().unwrap(), &Real::from(7));
    assert_eq!(results[1], Err(GpValidationIssue::MissingInput { input: 1 }));
    assert_eq!(results[2].as_ref().unwrap(), &Real::from(7));
}

#[test]
fn input_free_expression_evaluates_alike_under_any_inputs() {
    let expression = GpRealExpr::Div(
        Box::new(GpRealExpr::Add(constant(1), constant(2))),
        Box::new(GpRealExpr::Neg(constant(4))),
    );
    let without = expression.eval(&[]).unwrap();
    let with = expression.eval(&[Real::from(9), Real::from(-9)]).unwrap();
    assert_eq!(without, q(-3, 4));
    assert_eq!(with, q(-3, 4));
}

#[test]
fn validated_expression_finds_every_input() {
    let expression = GpRealExpr::Add(input(0), input(1));
    let limits = GpValidationLimits { input_arity: 2, max_depth: 2, max_nodes: 3 };
    assert!(expression.validate(limits).is_valid());
    assert_eq!(expression.eval(&[Real::from(1), Real::from(2)]).unwrap(), Real::from(3));
    assert_eq!(expression.eval(&[Real::from(1), Real::from(2), Real::from(7)]).unwrap(), Real::from(3));
}
