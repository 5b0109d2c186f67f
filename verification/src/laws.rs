//! Properties that relate several operations of the library.

use crate::exact::{
    at, comparer_sound, flipped, lemma_at_sound, lemma_known_answer, lemma_known_flip, lemma_no_cycle,
    lemma_settled_flip, lemma_sound_answer, order_known, outcome_sound, real_same_form, real_sum, real_unsignalled,
    real_integer, real_of_integer, settled_order, value_order, RealComparer, RealOrder,
};
use crate::fitness::{
    bounds_validity, interval_verdict, lexicographic_verdict, pareto_verdict, real_verdict, some_objective,
    total_verdict, FitnessComparison, FitnessDirection, FitnessInterval, FitnessIntervalComparison, FitnessReport,
    FitnessReportView, FitnessValueView, ParetoRelation,
};
use crate::gp::{
    child_flags, dense_lookup, sparse_lookup, DivisionFlags, GpRealExpr, GpValidationIssue, GpValidationLimits,
};
use crate::local_search::{
    candidate_genomes, climb_path, climb_step, recently_visited, tabu_window, HillClimbPolicy,
};
use crate::domain::{domain_name, DomainReplayTarget};
use crate::fitness::total_possible;
use crate::local_search::{annealing_decision, AnnealingAcceptance, SimulatedAnnealingPolicy};
use crate::oracle::BlackBoxEvaluationReport;
use crate::search::{
    distinct_pair, dominated_by_archive, genome_relation, identical_pair, insertion_matches, mismatched_pair,
    pairs_from, pairs_where, row_pairs, DiversityRelation,
};
use crate::search::{
    candidate_views, genes_identical, lemma_survivors_from_archive, mutated_view, report_views, selection_outcome,
    selection_scan, spliced_view, survivors, Candidate, CandidateView, ReplayStatus, SelectionError,
};
use hyperreal::Real;
use vstd::arithmetic::power2::{lemma_pow2_pos, lemma_pow2_strictly_increases, lemma_pow2_unfold, pow2};
use vstd::prelude::*;

verus! {

/// The verdict with `Better` and `Worse` exchanged.
pub open spec fn reversed_verdict(verdict: FitnessComparison) -> FitnessComparison {
    match verdict {
        FitnessComparison::Better => FitnessComparison::Worse,
        FitnessComparison::Worse => FitnessComparison::Better,
        other => other,
    }
}

/// The relation with `Dominates` and `Dominated` exchanged.
pub open spec fn reversed_relation(relation: ParetoRelation) -> ParetoRelation {
    match relation {
        ParetoRelation::Dominates => ParetoRelation::Dominated,
        ParetoRelation::Dominated => ParetoRelation::Dominates,
        other => other,
    }
}

proof fn lemma_real_verdict_reverses(rec: RealComparer, left: Real, right: Real)
    ensures
        real_verdict(rec, left, right, FitnessDirection::Maximize) == reversed_verdict(
            real_verdict(rec, left, right, FitnessDirection::Minimize),
        ),
{
}

proof fn lemma_lexicographic_reverses(rec: RealComparer, left: Seq<Real>, right: Seq<Real>, from: int)
    ensures
        lexicographic_verdict(rec, left, right, FitnessDirection::Maximize, from) == reversed_verdict(
            lexicographic_verdict(rec, left, right, FitnessDirection::Minimize, from),
        ),
    decreases left.len() - from,
{
    if 0 <= from < left.len() {
        lemma_real_verdict_reverses(at(rec, from), left[from], right[from]);
        lemma_lexicographic_reverses(rec, left, right, from + 1);
    }
}

/// Under the same certified answers, reversing the objective direction
/// exchanges `Better` and `Worse` in the total comparison of scalar and
/// lexicographic values, and keeps `Equal` and `Unknown`.
pub proof fn law_total_comparison_reverses_with_direction(
    rec: RealComparer,
    left: FitnessValueView,
    right: FitnessValueView,
)
    requires
        left is Scalar || left is Lexicographic,
    ensures
        total_verdict(rec, left, right, FitnessDirection::Maximize) == reversed_verdict(
            total_verdict(rec, left, right, FitnessDirection::Minimize),
        ),
{
    match (left, right) {
        (FitnessValueView::Scalar(l), FitnessValueView::Scalar(r)) => lemma_real_verdict_reverses(rec, l, r),
        (FitnessValueView::Lexicographic(l), FitnessValueView::Lexicographic(r)) => {
            lemma_lexicographic_reverses(rec, l, r, 0);
        },
        _ => {},
    }
}

/// The interval verdict with `Better` and `Worse` exchanged.
pub open spec fn reversed_interval_verdict(verdict: FitnessIntervalComparison) -> FitnessIntervalComparison {
    match verdict {
        FitnessIntervalComparison::Better => FitnessIntervalComparison::Worse,
        FitnessIntervalComparison::Worse => FitnessIntervalComparison::Better,
        other => other,
    }
}

/// No abort signal is attached to any real that a fitness value carries.
pub open spec fn value_unsignalled(value: FitnessValueView) -> bool {
    match value {
        FitnessValueView::Scalar(x) => real_unsignalled(x),
        FitnessValueView::Lexicographic(v) => forall|i: int| 0 <= i < v.len() ==> real_unsignalled(#[trigger] v[i]),
        FitnessValueView::Pareto(v) => forall|i: int| 0 <= i < v.len() ==> real_unsignalled(#[trigger] v[i]),
        FitnessValueView::Interval(interval) => real_unsignalled(interval.lower) && real_unsignalled(interval.upper),
    }
}

proof fn lemma_answer_facts(order: Option<RealOrder>, left: Real, right: Real)
    requires
        outcome_sound(order, left, right),
        real_unsignalled(left),
        real_unsignalled(right),
    ensures
        order is Some ==> {
            &&& order == Some(value_order(left, right))
            &&& order_known(left, right)
            &&& order_known(right, left)
            &&& value_order(right, left) == flipped(value_order(left, right))
        },
{
    if order is Some {
        lemma_known_answer(order, left, right);
        lemma_known_flip(left, right);
    }
}

proof fn lemma_part_answer(rec: RealComparer, j: int, left: Real, right: Real)
    requires
        comparer_sound(rec),
        real_unsignalled(left),
        real_unsignalled(right),
    ensures
        outcome_sound(at(rec, j)(Seq::<int>::empty(), left, right), left, right),
        ({
            let order = at(rec, j)(Seq::<int>::empty(), left, right);
            order is Some ==> {
                &&& order == Some(value_order(left, right))
                &&& order_known(left, right)
                &&& order_known(right, left)
                &&& value_order(right, left) == flipped(value_order(left, right))
            }
        }),
{
    lemma_at_sound(rec, j);
    lemma_sound_answer(at(rec, j), Seq::<int>::empty(), left, right);
    lemma_answer_facts(at(rec, j)(Seq::<int>::empty(), left, right), left, right);
}

/// The four endpoints of two intervals admit no cycle of known orders with a
/// strict step.
proof fn lemma_interval_cycle(left: FitnessInterval, right: FitnessInterval)
    ensures
        (order_known(left.lower, left.upper) && order_known(left.upper, right.lower) && order_known(
            right.lower,
            right.upper,
        ) && order_known(right.upper, left.lower) && value_order(left.lower, left.upper) != RealOrder::Greater
            && value_order(right.lower, right.upper) != RealOrder::Greater && value_order(left.upper, right.lower)
            != RealOrder::Greater && value_order(right.upper, left.lower) != RealOrder::Greater) ==> (value_order(
            left.upper,
            right.lower,
        ) == RealOrder::Equal && value_order(right.upper, left.lower) == RealOrder::Equal),
{
    if order_known(left.lower, left.upper) && order_known(left.upper, right.lower) && order_known(
        right.lower,
        right.upper,
    ) && order_known(right.upper, left.lower) && value_order(left.lower, left.upper) != RealOrder::Greater
        && value_order(right.lower, right.upper) != RealOrder::Greater && value_order(left.upper, right.lower)
        != RealOrder::Greater && value_order(right.upper, left.lower) != RealOrder::Greater {
        lemma_no_cycle(left.lower, left.upper, right.lower, right.upper);
    }
}

/// Under sound certified answers, an interval comparison never finds the left
/// interval both wholly below and wholly above the right one once both
/// intervals were certified valid.
pub proof fn law_interval_separations_exclude_each_other(
    rec: RealComparer,
    left: FitnessInterval,
    right: FitnessInterval,
)
    requires
        comparer_sound(rec),
        value_unsignalled(FitnessValueView::Interval(left)),
        value_unsignalled(FitnessValueView::Interval(right)),
        bounds_validity(at(rec, 0), left) == Some(true),
        bounds_validity(at(rec, 1), right) == Some(true),
    ensures
        !(at(rec, 3)(Seq::<int>::empty(), left.upper, right.lower) == Some(RealOrder::Less) && at(rec, 2)(
            Seq::<int>::empty(),
            left.lower,
            right.upper,
        ) == Some(RealOrder::Greater)),
{
    lemma_part_answer(rec, 0, left.lower, left.upper);
    lemma_part_answer(rec, 1, right.lower, right.upper);
    lemma_part_answer(rec, 2, left.lower, right.upper);
    lemma_part_answer(rec, 3, left.upper, right.lower);
    lemma_interval_cycle(left, right);
}

/// Under the same sound certified answers, reversing the objective direction
/// exchanges `Better` and `Worse` in the comparison of two interval
/// enclosures and keeps `Equal`, `Overlapping`, `InvalidBounds` and `Unknown`.
pub proof fn law_interval_comparison_reverses_with_direction(
    rec: RealComparer,
    left: FitnessInterval,
    right: FitnessInterval,
)
    requires
        comparer_sound(rec),
        value_unsignalled(FitnessValueView::Interval(left)),
        value_unsignalled(FitnessValueView::Interval(right)),
    ensures
        interval_verdict(rec, left, right, FitnessDirection::Maximize) == reversed_interval_verdict(
            interval_verdict(rec, left, right, FitnessDirection::Minimize),
        ),
{
    if bounds_validity(at(rec, 0), left) == Some(true) && bounds_validity(at(rec, 1), right) == Some(true) {
        law_interval_separations_exclude_each_other(rec, left, right);
    }
}

/// Swapping two interval enclosures cannot keep a certified separation: if
/// one sound run finds the left interval better, any sound run on the
/// swapped pair finds it worse or cannot decide, unless both endpoints are
/// stored in the same form, and the other way round.
pub proof fn law_interval_comparison_swaps(
    r1: RealComparer,
    r2: RealComparer,
    left: FitnessInterval,
    right: FitnessInterval,
    direction: FitnessDirection,
)
    requires
        comparer_sound(r1),
        comparer_sound(r2),
        value_unsignalled(FitnessValueView::Interval(left)),
        value_unsignalled(FitnessValueView::Interval(right)),
    ensures
        interval_verdict(r1, left, right, direction) == FitnessIntervalComparison::Better ==> {
            ||| interval_verdict(r2, right, left, direction) == FitnessIntervalComparison::Worse
            ||| interval_verdict(r2, right, left, direction) == FitnessIntervalComparison::Unknown
            ||| interval_verdict(r2, right, left, direction) == FitnessIntervalComparison::Equal
        },
        interval_verdict(r1, left, right, direction) == FitnessIntervalComparison::Worse ==> {
            ||| interval_verdict(r2, right, left, direction) == FitnessIntervalComparison::Better
            ||| interval_verdict(r2, right, left, direction) == FitnessIntervalComparison::Unknown
            ||| interval_verdict(r2, right, left, direction) == FitnessIntervalComparison::Equal
        },
        interval_verdict(r2, right, left, direction) == FitnessIntervalComparison::Equal && (interval_verdict(
            r1,
            left,
            right,
            direction,
        ) == FitnessIntervalComparison::Better || interval_verdict(r1, left, right, direction)
            == FitnessIntervalComparison::Worse) ==> real_same_form(right.lower, left.lower) && real_same_form(
            right.upper,
            left.upper,
        ),
{
    lemma_part_answer(r1, 0, left.lower, left.upper);
    lemma_part_answer(r1, 1, right.lower, right.upper);
    lemma_part_answer(r1, 2, left.lower, right.upper);
    lemma_part_answer(r1, 3, left.upper, right.lower);
    lemma_part_answer(r2, 0, right.lower, right.upper);
    lemma_part_answer(r2, 1, left.lower, left.upper);
    lemma_part_answer(r2, 2, right.lower, left.upper);
    lemma_part_answer(r2, 3, right.upper, left.lower);
    lemma_interval_cycle(left, right);
}

/// Reversing the objective direction exchanges `Dominates` and `Dominated` in
/// the Pareto relation, and keeps the other relations.
pub proof fn law_pareto_relation_reverses_with_direction(
    rec: RealComparer,
    left: FitnessValueView,
    right: FitnessValueView,
)
    ensures
        pareto_verdict(rec, left, right, FitnessDirection::Maximize) == reversed_relation(
            pareto_verdict(rec, left, right, FitnessDirection::Minimize),
        ),
{
    if let (FitnessValueView::Pareto(l), FitnessValueView::Pareto(r)) = (left, right) {
        if l.len() == r.len() {
            let min = FitnessDirection::Minimize;
            let max = FitnessDirection::Maximize;
            assert forall|v: FitnessComparison| #[trigger] some_objective(rec, l, r, max, v) == some_objective(
                rec,
                l,
                r,
                min,
                reversed_verdict(v),
            ) by {
                if some_objective(rec, l, r, max, v) {
                    let i = choose|i: int| 0 <= i < l.len() && #[trigger] real_verdict(at(rec, i), l[i], r[i], max) == v;
                    lemma_real_verdict_reverses(at(rec, i), l[i], r[i]);
                }
                if some_objective(rec, l, r, min, reversed_verdict(v)) {
                    let i = choose|i: int| 0 <= i < l.len() && #[trigger] real_verdict(at(rec, i), l[i], r[i], min)
                        == reversed_verdict(v);
                    lemma_real_verdict_reverses(at(rec, i), l[i], r[i]);
                }
            }
            assert(some_objective(rec, l, r, max, FitnessComparison::Unknown) == some_objective(rec, l, r, min, FitnessComparison::Unknown));
            assert(some_objective(rec, l, r, max, FitnessComparison::Better) == some_objective(rec, l, r, min, FitnessComparison::Worse));
            assert(some_objective(rec, l, r, max, FitnessComparison::Worse) == some_objective(rec, l, r, min, FitnessComparison::Better));
        }
    }
}

proof fn lemma_certified_verdicts_disagree(r1: RealComparer, r2: RealComparer, a: Real, b: Real, direction: FitnessDirection)
    requires
        comparer_sound(r1),
        comparer_sound(r2),
        real_unsignalled(a),
        real_unsignalled(b),
    ensures
        real_verdict(r1, a, b, direction) == FitnessComparison::Better ==> (real_verdict(r2, b, a, direction)
            == FitnessComparison::Worse || real_verdict(r2, b, a, direction) == FitnessComparison::Unknown),
        real_verdict(r1, a, b, direction) == FitnessComparison::Worse ==> (real_verdict(r2, b, a, direction)
            == FitnessComparison::Better || real_verdict(r2, b, a, direction) == FitnessComparison::Unknown),
        real_verdict(r1, a, b, direction) == FitnessComparison::Equal ==> (real_verdict(r2, b, a, direction)
            == FitnessComparison::Equal || real_verdict(r2, b, a, direction) == FitnessComparison::Unknown),
{
    let e = Seq::<int>::empty();
    lemma_sound_answer(r1, e, a, b);
    lemma_sound_answer(r2, e, b, a);
    lemma_answer_facts(r1(e, a, b), a, b);
    lemma_answer_facts(r2(e, b, a), b, a);
}

proof fn lemma_lexicographic_swap(
    r1: RealComparer,
    r2: RealComparer,
    left: Seq<Real>,
    right: Seq<Real>,
    direction: FitnessDirection,
    from: int,
)
    requires
        comparer_sound(r1),
        comparer_sound(r2),
        left.len() == right.len(),
        0 <= from,
        forall|i: int| 0 <= i < left.len() ==> real_unsignalled(#[trigger] left[i]),
        forall|i: int| 0 <= i < right.len() ==> real_unsignalled(#[trigger] right[i]),
    ensures
        lexicographic_verdict(r1, left, right, direction, from) == FitnessComparison::Better ==> (
        lexicographic_verdict(r2, right, left, direction, from) == FitnessComparison::Worse || lexicographic_verdict(
            r2,
            right,
            left,
            direction,
            from,
        ) == FitnessComparison::Unknown),
        lexicographic_verdict(r1, left, right, direction, from) == FitnessComparison::Worse ==> (
        lexicographic_verdict(r2, right, left, direction, from) == FitnessComparison::Better || lexicographic_verdict(
            r2,
            right,
            left,
            direction,
            from,
        ) == FitnessComparison::Unknown),
    decreases left.len() - from,
{
    if from < left.len() {
        lemma_at_sound(r1, from);
        lemma_at_sound(r2, from);
        lemma_certified_verdicts_disagree(at(r1, from), at(r2, from), left[from], right[from], direction);
        lemma_lexicographic_swap(r1, r2, left, right, direction, from + 1);
    }
}

/// Swapping the two values cannot turn a certified `Better` into another
/// `Better`: for scalar and lexicographic values, if one sound run finds the
/// left value better, any sound run on the swapped pair finds it worse or
/// cannot decide, and the other way round.
pub proof fn law_total_comparison_swaps(
    r1: RealComparer,
    r2: RealComparer,
    left: FitnessValueView,
    right: FitnessValueView,
    direction: FitnessDirection,
)
    requires
        comparer_sound(r1),
        comparer_sound(r2),
        value_unsignalled(left),
        value_unsignalled(right),
        left is Scalar || left is Lexicographic,
    ensures
        total_verdict(r1, left, right, direction) == FitnessComparison::Better ==> (total_verdict(
            r2,
            right,
            left,
            direction,
        ) == FitnessComparison::Worse || total_verdict(r2, right, left, direction) == FitnessComparison::Unknown),
        total_verdict(r1, left, right, direction) == FitnessComparison::Worse ==> (total_verdict(
            r2,
            right,
            left,
            direction,
        ) == FitnessComparison::Better || total_verdict(r2, right, left, direction) == FitnessComparison::Unknown),
{
    match (left, right) {
        (FitnessValueView::Scalar(l), FitnessValueView::Scalar(r)) => {
            lemma_certified_verdicts_disagree(r1, r2, l, r, direction);
        },
        (FitnessValueView::Lexicographic(l), FitnessValueView::Lexicographic(r)) => {
            if l.len() == r.len() {
                lemma_lexicographic_swap(r1, r2, l, r, direction, 0);
            }
        },
        _ => {},
    }
}

/// Swapping two Pareto vectors exchanges domination: if one sound run finds
/// the left vector dominating, any sound run on the swapped pair finds it
/// dominated or cannot decide.
pub proof fn law_pareto_relation_swaps(
    r1: RealComparer,
    r2: RealComparer,
    left: FitnessValueView,
    right: FitnessValueView,
    direction: FitnessDirection,
)
    requires
        comparer_sound(r1),
        comparer_sound(r2),
        value_unsignalled(left),
        value_unsignalled(right),
    ensures
        pareto_verdict(r1, left, right, direction) == ParetoRelation::Dominates ==> (pareto_verdict(
            r2,
            right,
            left,
            direction,
        ) == ParetoRelation::Dominated || pareto_verdict(r2, right, left, direction) == ParetoRelation::Unknown),
{
    if let (FitnessValueView::Pareto(l), FitnessValueView::Pareto(r)) = (left, right) {
        if l.len() == r.len() && pareto_verdict(r1, left, right, direction) == ParetoRelation::Dominates
            && !some_objective(r2, r, l, direction, FitnessComparison::Unknown) {
            let i = choose|i: int| 0 <= i < l.len() && #[trigger] real_verdict(at(r1, i), l[i], r[i], direction)
                == FitnessComparison::Better;
            lemma_at_sound(r1, i);
            lemma_at_sound(r2, i);
            lemma_certified_verdicts_disagree(at(r1, i), at(r2, i), l[i], r[i], direction);
            assert(real_verdict(at(r2, i), r[i], l[i], direction) == FitnessComparison::Worse);
            assert forall|j: int| 0 <= j < l.len() implies #[trigger] real_verdict(at(r2, j), r[j], l[j], direction)
                != FitnessComparison::Better by {
                lemma_at_sound(r1, j);
                lemma_at_sound(r2, j);
                lemma_certified_verdicts_disagree(at(r2, j), at(r1, j), r[j], l[j], direction);
                assert(real_verdict(at(r1, j), l[j], r[j], direction) != FitnessComparison::Worse);
                assert(real_verdict(at(r1, j), l[j], r[j], direction) != FitnessComparison::Unknown);
            }
        }
    }
}

/// Under sound certified answers a Pareto vector never dominates itself and
/// is never dominated by itself, and no value is certified better than
/// itself.
pub proof fn law_nothing_beats_itself(rec: RealComparer, value: FitnessValueView, direction: FitnessDirection)
    requires
        comparer_sound(rec),
        value_unsignalled(value),
    ensures
        pareto_verdict(rec, value, value, direction) != ParetoRelation::Dominates,
        pareto_verdict(rec, value, value, direction) != ParetoRelation::Dominated,
        value is Scalar ==> total_verdict(rec, value, value, direction) != FitnessComparison::Better,
{
    let e = Seq::<int>::empty();
    if let FitnessValueView::Pareto(v) = value {
        assert forall|i: int| 0 <= i < v.len() implies (#[trigger] real_verdict(at(rec, i), v[i], v[i], direction)
            != FitnessComparison::Better && real_verdict(at(rec, i), v[i], v[i], direction) != FitnessComparison::Worse) by {
            lemma_part_answer(rec, i, v[i], v[i]);
        }
    }
    if let FitnessValueView::Scalar(x) = value {
        lemma_sound_answer(rec, e, x, x);
        lemma_answer_facts(rec(e, x, x), x, x);
    }
}

proof fn lemma_scan_selects_accepted(
    rec: RealComparer,
    candidates: Seq<CandidateView>,
    reports: Seq<FitnessReportView>,
    indices: Seq<usize>,
    direction: FitnessDirection,
    k: int,
    selected: Option<int>,
)
    requires
        0 <= k,
        selected matches Some(s) ==> {
            &&& 0 <= s < candidates.len()
            &&& reports[s].replay == ReplayStatus::Accepted
            &&& reports[s].candidate == candidates[s].id
            &&& indices.contains(s as usize)
        },
    ensures
        selection_scan(rec, candidates, reports, indices, direction, k, selected) matches Ok(s) ==> {
            &&& 0 <= s < candidates.len()
            &&& reports[s].replay == ReplayStatus::Accepted
            &&& reports[s].candidate == candidates[s].id
            &&& indices.contains(s as usize)
        },
    decreases indices.len() - k,
{
    if k < indices.len() {
        let index = indices[k] as int;
        assert(indices.contains(indices[k]));
        lemma_scan_selects_accepted(rec, candidates, reports, indices, direction, k + 1, selected);
        if 0 <= index < candidates.len() && reports[index].replay == ReplayStatus::Accepted
            && reports[index].candidate == candidates[index].id {
            assert(index as usize == indices[k]);
            lemma_scan_selects_accepted(rec, candidates, reports, indices, direction, k + 1, Some(index));
        }
    }
}

/// A selection that succeeds picks a scheduled candidate whose report is
/// aligned with it and carries accepted replay: rejected and unknown replay
/// is never selected.
pub proof fn law_selection_picks_accepted_aligned(
    rec: RealComparer,
    candidates: Seq<Candidate>,
    reports: Seq<FitnessReport>,
    indices: Seq<usize>,
    direction: FitnessDirection,
)
    ensures
        selection_outcome(rec, candidate_views(candidates), report_views(reports), indices, direction) matches Ok(s)
            ==> {
            &&& 0 <= s < candidates.len()
            &&& reports[s].replay == ReplayStatus::Accepted
            &&& reports[s].candidate@ == candidates[s].id@
            &&& indices.contains(s as usize)
        },
{
    let cands = candidate_views(candidates);
    let reps = report_views(reports);
    if cands.len() == reps.len() && cands.len() > 0 {
        lemma_scan_selects_accepted(rec, cands, reps, indices, direction, 0, None);
        match selection_outcome(rec, cands, reps, indices, direction) {
            Ok(s) => {
                assert(reps[s] == reports[s]@);
                assert(cands[s] == candidates[s]@);
            },
            Err(_) => {},
        }
    }
}


proof fn lemma_scan_fails_only_on_unknown(
    rec: RealComparer,
    candidates: Seq<CandidateView>,
    reports: Seq<FitnessReportView>,
    indices: Seq<usize>,
    direction: FitnessDirection,
    k: int,
    selected: Option<int>,
)
    requires
        0 <= k <= indices.len(),
        forall|j: int| 0 <= j < indices.len() ==> {
            let i = #[trigger] indices[j] as int;
            i < candidates.len() && reports[i].candidate == candidates[i].id
        },
        selected is Some || exists|j: int| k <= j < indices.len() && #[trigger] reports[indices[j] as int].replay
            == ReplayStatus::Accepted,
    ensures
        selection_scan(rec, candidates, reports, indices, direction, k, selected) is Ok
            || selection_scan(rec, candidates, reports, indices, direction, k, selected) == Err::<int, SelectionError>(
            SelectionError::UnknownComparison,
        ),
    decreases indices.len() - k,
{
    if k < indices.len() {
        let index = indices[k] as int;
        assert(index < candidates.len() && reports[index].candidate == candidates[index].id);
        if reports[index].replay != ReplayStatus::Accepted {
            if selected is None {
                let j = choose|j: int| k <= j < indices.len() && #[trigger] reports[indices[j] as int].replay
                    == ReplayStatus::Accepted;
                assert(j != k);
            }
            lemma_scan_fails_only_on_unknown(rec, candidates, reports, indices, direction, k + 1, selected);
        } else {
            lemma_scan_fails_only_on_unknown(rec, candidates, reports, indices, direction, k + 1, Some(index));
            if selected is Some {
                lemma_scan_fails_only_on_unknown(rec, candidates, reports, indices, direction, k + 1, selected);
            }
        }
    } else {
        if selected is None {
            let j = choose|j: int| k <= j < indices.len() && #[trigger] reports[indices[j] as int].replay
                == ReplayStatus::Accepted;
            assert(false);
        }
    }
}

/// A selection over aligned candidates, whose scheduled indices are in range
/// and name an accepted report, either succeeds or fails because a certified
/// comparison could not decide: no other error arises.
pub proof fn law_selection_fails_only_on_unknown(
    rec: RealComparer,
    candidates: Seq<Candidate>,
    reports: Seq<FitnessReport>,
    indices: Seq<usize>,
    direction: FitnessDirection,
)
    requires
        candidates.len() == reports.len(),
        candidates.len() > 0,
        forall|j: int| 0 <= j < indices.len() ==> {
            let i = #[trigger] indices[j] as int;
            i < candidates.len() && reports[i].candidate@ == candidates[i].id@
        },
        exists|j: int| 0 <= j < indices.len() && #[trigger] reports[indices[j] as int].replay == ReplayStatus::Accepted,
    ensures
        selection_outcome(rec, candidate_views(candidates), report_views(reports), indices, direction) is Ok
            || selection_outcome(rec, candidate_views(candidates), report_views(reports), indices, direction)
            == Err::<int, SelectionError>(SelectionError::UnknownComparison),
{
    let cands = candidate_views(candidates);
    let reps = report_views(reports);
    assert forall|j: int| 0 <= j < indices.len() implies {
        let i = #[trigger] indices[j] as int;
        i < cands.len() && reps[i].candidate == cands[i].id
    } by {
        let i = indices[j] as int;
        assert(reps[i] == reports[i]@);
        assert(cands[i] == candidates[i]@);
    }
    let w = choose|j: int| 0 <= j < indices.len() && #[trigger] reports[indices[j] as int].replay
        == ReplayStatus::Accepted;
    assert(reps[indices[w] as int] == reports[indices[w] as int]@);
    assert(reps[indices[w] as int].replay == ReplayStatus::Accepted);
    lemma_scan_fails_only_on_unknown(rec, cands, reps, indices, direction, 0, None);
}

proof fn lemma_scan_reads_only_scheduled(
    rec: RealComparer,
    candidates: Seq<CandidateView>,
    reports: Seq<FitnessReportView>,
    others: Seq<FitnessReportView>,
    indices: Seq<usize>,
    direction: FitnessDirection,
    k: int,
    selected: Option<int>,
)
    requires
        0 <= k,
        reports.len() == others.len(),
        candidates.len() == reports.len(),
        forall|j: int| 0 <= j < indices.len() && indices[j] < reports.len() ==> #[trigger] others[indices[j] as int]
            == reports[indices[j] as int],
        selected matches Some(s) ==> others[s] == reports[s],
    ensures
        selection_scan(rec, candidates, reports, indices, direction, k, selected) == selection_scan(
            rec,
            candidates,
            others,
            indices,
            direction,
            k,
            selected,
        ),
    decreases indices.len() - k,
{
    if 0 <= k < indices.len() {
        let index = indices[k] as int;
        if index < candidates.len() && index < reports.len() {
            assert(others[index] == reports[index]);
        }
        lemma_scan_reads_only_scheduled(rec, candidates, reports, others, indices, direction, k + 1, selected);
        if index < candidates.len() && index < reports.len() {
            lemma_scan_reads_only_scheduled(rec, candidates, reports, others, indices, direction, k + 1, Some(index));
        }
    }
}

/// A selection reads only the reports at the scheduled indices: two report
/// lists that agree there select alike under the same certified answers.
pub proof fn law_selection_reads_only_scheduled_reports(
    rec: RealComparer,
    candidates: Seq<Candidate>,
    reports: Seq<FitnessReport>,
    others: Seq<FitnessReport>,
    indices: Seq<usize>,
    direction: FitnessDirection,
)
    requires
        reports.len() == others.len(),
        forall|j: int| 0 <= j < indices.len() && indices[j] < reports.len() ==> #[trigger] others[indices[j] as int]@
            == reports[indices[j] as int]@,
    ensures
        selection_outcome(rec, candidate_views(candidates), report_views(reports), indices, direction)
            == selection_outcome(rec, candidate_views(candidates), report_views(others), indices, direction),
{
    let reps = report_views(reports);
    let alts = report_views(others);
    assert forall|j: int| 0 <= j < indices.len() && indices[j] < reps.len() implies #[trigger] alts[indices[j] as int]
        == reps[indices[j] as int] by {
        assert(others[indices[j] as int]@ == reports[indices[j] as int]@);
    }
    if candidates.len() == reports.len() {
        lemma_scan_reads_only_scheduled(rec, candidate_views(candidates), reps, alts, indices, direction, 0, None);
    }
}


/// After a report enters by `insert_non_dominated`, the run found it to
/// dominate none of the reports kept beside it: survivor `i` is archived
/// report `origins[i]`, whose comparison with the newcomer did not find it
/// dominated.
pub proof fn law_newcomer_dominates_no_survivor(
    rec: RealComparer,
    archived: Seq<FitnessReportView>,
    newcomer: FitnessValueView,
    direction: FitnessDirection,
) -> (origins: Seq<int>)
    ensures
        origins.len() == survivors(rec, archived, newcomer, direction, archived.len() as int).len(),
        forall|i: int| 0 <= i < origins.len() ==> {
            &&& 0 <= #[trigger] origins[i] < archived.len()
            &&& survivors(rec, archived, newcomer, direction, archived.len() as int)[i] == archived[origins[i]]
            &&& pareto_verdict(at(rec, origins[i]), newcomer, archived[origins[i]].value, direction)
                != ParetoRelation::Dominates
        },
{
    lemma_survivors_from_archive(rec, archived, newcomer, direction, archived.len() as int)
}

/// One-point crossover at `0` swaps the parents' genomes, and at the genome
/// length copies them.
pub proof fn law_crossover_endpoints(left: CandidateView, right: CandidateView, left_id: Seq<char>, right_id: Seq<char>)
    requires
        left.genes.len() == right.genes.len(),
    ensures
        spliced_view(left, right, 0, left_id).genes == right.genes,
        spliced_view(right, left, 0, right_id).genes == left.genes,
        spliced_view(left, right, left.genes.len() as int, left_id).genes == left.genes,
        spliced_view(right, left, left.genes.len() as int, right_id).genes == right.genes,
{
    assert(spliced_view(left, right, 0, left_id).genes =~= right.genes);
    assert(spliced_view(right, left, 0, right_id).genes =~= left.genes);
    assert(spliced_view(left, right, left.genes.len() as int, left_id).genes =~= left.genes);
    assert(spliced_view(right, left, left.genes.len() as int, right_id).genes =~= right.genes);
}

/// One-point crossover conserves genes: at every position the two children
/// hold the two parents' genes, one each.
pub proof fn law_crossover_conserves_genes(
    left: CandidateView,
    right: CandidateView,
    index: int,
    left_id: Seq<char>,
    right_id: Seq<char>,
)
    requires
        left.genes.len() == right.genes.len(),
        0 <= index <= left.genes.len(),
    ensures
        spliced_view(left, right, index, left_id).genes.len() == left.genes.len(),
        spliced_view(right, left, index, right_id).genes.len() == left.genes.len(),
        forall|i: int| 0 <= i < left.genes.len() ==> {
            let a = #[trigger] spliced_view(left, right, index, left_id).genes[i];
            let b = spliced_view(right, left, index, right_id).genes[i];
            (a == left.genes[i] && b == right.genes[i]) || (a == right.genes[i] && b == left.genes[i])
        },
{
}

/// Exact mutation keeps the genome's arity and every gene but the chosen one,
/// which becomes its exact sum with the delta.
pub proof fn law_mutation_changes_one_gene(parent: CandidateView, gene: int, delta: Real, id: Seq<char>)
    requires
        0 <= gene < parent.genes.len(),
    ensures
        mutated_view(parent, gene, delta, id).genes.len() == parent.genes.len(),
        mutated_view(parent, gene, delta, id).genes[gene] == real_sum(parent.genes[gene], delta),
        forall|i: int| 0 <= i < parent.genes.len() && i != gene ==> #[trigger] mutated_view(
            parent,
            gene,
            delta,
            id,
        ).genes[i] == parent.genes[i],
        mutated_view(parent, gene, delta, id).proposal_seed == parent.proposal_seed,
{
}

proof fn lemma_bound_inputs_are_found(expression: GpRealExpr, values: Seq<Real>, arity: usize, flags: DivisionFlags)
    requires
        arity <= values.len(),
        expression.tree_issues(arity, flags).len() == 0,
    ensures
        !(expression.tree_value(dense_lookup(values)) matches Err(GpValidationIssue::MissingInput { .. })),
    decreases expression,
{
    let lookup = dense_lookup(values);
    let f0 = child_flags(flags, 0);
    let f1 = child_flags(flags, 1);
    match expression {
        GpRealExpr::Constant(_) => {},
        GpRealExpr::Input(index) => {
            assert(expression.node_issues(arity, flags(Seq::<int>::empty())).len() == 0);
            assert(index < arity);
            assert(lookup(index) == Some(values[index as int]));
        },
        GpRealExpr::Neg(value) => {
            assert(value.tree_issues(arity, f0).len() == 0);
            lemma_bound_inputs_are_found(*value, values, arity, f0);
        },
        GpRealExpr::Add(left, right) => {
            assert(left.tree_issues(arity, f0).len() == 0 && right.tree_issues(arity, f1).len() == 0);
            lemma_bound_inputs_are_found(*left, values, arity, f0);
            lemma_bound_inputs_are_found(*right, values, arity, f1);
        },
        GpRealExpr::Sub(left, right) => {
            assert(left.tree_issues(arity, f0).len() == 0 && right.tree_issues(arity, f1).len() == 0);
            lemma_bound_inputs_are_found(*left, values, arity, f0);
            lemma_bound_inputs_are_found(*right, values, arity, f1);
        },
        GpRealExpr::Mul(left, right) => {
            assert(left.tree_issues(arity, f0).len() == 0 && right.tree_issues(arity, f1).len() == 0);
            lemma_bound_inputs_are_found(*left, values, arity, f0);
            lemma_bound_inputs_are_found(*right, values, arity, f1);
        },
        GpRealExpr::Div(left, right) => {
            assert(left.tree_issues(arity, f0).len() == 0 && right.tree_issues(arity, f1).len() == 0);
            lemma_bound_inputs_are_found(*left, values, arity, f0);
            lemma_bound_inputs_are_found(*right, values, arity, f1);
        },
    }
}

/// An expression that a validation run passed never misses an input when it
/// is evaluated over at least `input_arity` values.
pub proof fn law_valid_expression_finds_its_inputs(
    expression: GpRealExpr,
    limits: GpValidationLimits,
    values: Seq<Real>,
)
    requires
        expression.validation_possible(limits, Seq::<GpValidationIssue>::empty()),
        limits.input_arity <= values.len(),
    ensures
        !(expression.tree_value(dense_lookup(values)) matches Err(GpValidationIssue::MissingInput { .. })),
{
    let flags = choose|flags: DivisionFlags| expression.flags_sound(flags) && Seq::<GpValidationIssue>::empty()
        == #[trigger] expression.validation_issues(limits, flags);
    assert(expression.validation_issues(limits, flags).len() == 0);
    lemma_bound_inputs_are_found(expression, values, limits.input_arity, flags);
}

/// Along a hill-climb path no candidate returns to a genome that was tabu
/// when it was chosen: with `tabu_memory == 0` it differs from every earlier
/// genome on the path, otherwise from the `tabu_memory + 1` genomes before it.
pub proof fn law_climb_respects_tabu<F: FnMut(&Candidate) -> FitnessReport>(
    evaluate: F,
    path: Seq<Candidate>,
    reports: Seq<FitnessReport>,
    picks: Seq<int>,
    policy: HillClimbPolicy,
    direction: FitnessDirection,
)
    requires
        climb_path(evaluate, path, reports, picks, policy, direction),
    ensures
        forall|j: int, i: int|
            0 <= j < i < path.len() && (policy.tabu_memory == 0 || i - j <= policy.tabu_memory + 1) ==> !genes_identical(
                #[trigger] path[j].genome.genes@,
                #[trigger] path[i].genome.genes@,
            ),
{
    assert forall|j: int, i: int|
        0 <= j < i < path.len() && (policy.tabu_memory == 0 || i - j <= policy.tabu_memory + 1) implies !genes_identical(
            #[trigger] path[j].genome.genes@,
            #[trigger] path[i].genome.genes@,
        ) by {
        let visited = candidate_genomes(path.take(i));
        let window = tabu_window(visited, policy.tabu_memory);
        assert(climb_step(
            evaluate,
            window,
            path[i - 1]@,
            reports[i - 1]@,
            path[i]@,
            reports[i]@,
            policy,
            direction,
            picks[i],
        ));
        assert(!recently_visited(window, path[i]@.genes));
        assert(visited[j] == path[j].genome.genes@);
        if policy.tabu_memory == 0 || visited.len() <= policy.tabu_memory + 1 {
            assert(window[j] == path[j].genome.genes@);
        } else {
            let offset = visited.len() - (policy.tabu_memory + 1);
            assert(window[j - offset] == visited[j]);
        }
    }
}

/// A black-box report is promotable exactly when it needs no further replay:
/// `is_promotable` and `requires_replay` always answer opposite ways.
pub proof fn law_promotable_iff_no_replay_needed(report: BlackBoxEvaluationReport)
    ensures
        report.promotion_allowed() == !report.replay_pending(),
{
}

/// Constant folding agrees with evaluation: an expression whose constant
/// folds evaluates to that constant under any inputs.
pub proof fn law_folded_constant_is_value(expression: GpRealExpr, lookup: spec_fn(usize) -> Option<Real>)
    ensures
        expression.folded_constant() matches Some(value) ==> expression.tree_value(lookup) == Ok::<
            Real,
            crate::gp::GpValidationIssue,
        >(value),
    decreases expression,
{
    match expression {
        GpRealExpr::Constant(_) => {},
        GpRealExpr::Input(_) => {},
        GpRealExpr::Neg(value) => law_folded_constant_is_value(*value, lookup),
        GpRealExpr::Add(left, right) => {
            law_folded_constant_is_value(*left, lookup);
            law_folded_constant_is_value(*right, lookup);
        },
        GpRealExpr::Sub(left, right) => {
            law_folded_constant_is_value(*left, lookup);
            law_folded_constant_is_value(*right, lookup);
        },
        GpRealExpr::Mul(left, right) => {
            law_folded_constant_is_value(*left, lookup);
            law_folded_constant_is_value(*right, lookup);
        },
        GpRealExpr::Div(left, right) => {
            law_folded_constant_is_value(*left, lookup);
            law_folded_constant_is_value(*right, lookup);
        },
    }
}

/// Every input node of the expression reads a slot below `arity`.
pub open spec fn inputs_within(expression: GpRealExpr, arity: usize) -> bool
    decreases expression,
{
    match expression {
        GpRealExpr::Constant(_) => true,
        GpRealExpr::Input(index) => index < arity,
        GpRealExpr::Neg(value) => inputs_within(*value, arity),
        GpRealExpr::Add(left, right) => inputs_within(*left, arity) && inputs_within(*right, arity),
        GpRealExpr::Sub(left, right) => inputs_within(*left, arity) && inputs_within(*right, arity),
        GpRealExpr::Mul(left, right) => inputs_within(*left, arity) && inputs_within(*right, arity),
        GpRealExpr::Div(left, right) => inputs_within(*left, arity) && inputs_within(*right, arity),
    }
}

/// No division node of the expression is reported as one by zero.
pub open spec fn divisions_clear(expression: GpRealExpr, flags: DivisionFlags) -> bool
    decreases expression,
{
    &&& (expression is Div ==> !flags(Seq::<int>::empty()))
    &&& match expression {
        GpRealExpr::Constant(_) => true,
        GpRealExpr::Input(_) => true,
        GpRealExpr::Neg(value) => divisions_clear(*value, child_flags(flags, 0)),
        GpRealExpr::Add(left, right) => divisions_clear(*left, child_flags(flags, 0)) && divisions_clear(*right, child_flags(flags, 1)),
        GpRealExpr::Sub(left, right) => divisions_clear(*left, child_flags(flags, 0)) && divisions_clear(*right, child_flags(flags, 1)),
        GpRealExpr::Mul(left, right) => divisions_clear(*left, child_flags(flags, 0)) && divisions_clear(*right, child_flags(flags, 1)),
        GpRealExpr::Div(left, right) => divisions_clear(*left, child_flags(flags, 0)) && divisions_clear(*right, child_flags(flags, 1)),
    }
}

proof fn lemma_no_structural_issues(expression: GpRealExpr, arity: usize, flags: DivisionFlags)
    ensures
        (expression.tree_issues(arity, flags).len() == 0) == (inputs_within(expression, arity) && divisions_clear(
            expression,
            flags,
        )),
    decreases expression,
{
    let f0 = child_flags(flags, 0);
    let f1 = child_flags(flags, 1);
    match expression {
        GpRealExpr::Constant(_) => {},
        GpRealExpr::Input(_) => {},
        GpRealExpr::Neg(value) => lemma_no_structural_issues(*value, arity, f0),
        GpRealExpr::Add(left, right) => {
            lemma_no_structural_issues(*left, arity, f0);
            lemma_no_structural_issues(*right, arity, f1);
        },
        GpRealExpr::Sub(left, right) => {
            lemma_no_structural_issues(*left, arity, f0);
            lemma_no_structural_issues(*right, arity, f1);
        },
        GpRealExpr::Mul(left, right) => {
            lemma_no_structural_issues(*left, arity, f0);
            lemma_no_structural_issues(*right, arity, f1);
        },
        GpRealExpr::Div(left, right) => {
            lemma_no_structural_issues(*left, arity, f0);
            lemma_no_structural_issues(*right, arity, f1);
        },
    }
}

/// Validation passes exactly when the depth and node budgets hold, every
/// input is within the arity, and no division was reported as one by zero.
pub proof fn law_validation_passes_exactly_when_every_check_holds(
    expression: GpRealExpr,
    limits: GpValidationLimits,
    flags: DivisionFlags,
)
    ensures
        (expression.validation_issues(limits, flags).len() == 0) == (expression.tree_depth() <= limits.max_depth
            && expression.tree_nodes() <= limits.max_nodes && inputs_within(expression, limits.input_arity)
            && divisions_clear(expression, flags)),
{
    lemma_no_structural_issues(expression, limits.input_arity, flags);
}

/// Sparse inputs that hold exactly the keys `0..values.len()`, each with the
/// value at that position, evaluate every expression as the dense values do.
pub proof fn law_sparse_inputs_agree_with_dense(expression: GpRealExpr, inputs: Map<usize, Real>, values: Seq<Real>)
    requires
        forall|j: usize| #[trigger] inputs.contains_key(j) <==> j < values.len(),
        forall|j: usize| j < values.len() ==> #[trigger] inputs[j] == values[j as int],
    ensures
        expression.tree_value(sparse_lookup(inputs)) == expression.tree_value(dense_lookup(values)),
{
    assert forall|j: usize| #[trigger] sparse_lookup(inputs)(j) == dense_lookup(values)(j) by {
        if j < values.len() {
            assert(inputs.contains_key(j));
        }
    }
    assert(sparse_lookup(inputs) =~= dense_lookup(values));
}

/// A tree of depth `d` has at most `2^d - 1` nodes, and at least one node per
/// level.
pub proof fn law_nodes_bounded_by_depth(expression: GpRealExpr)
    ensures
        1 <= expression.tree_depth() <= expression.tree_nodes(),
        expression.tree_nodes() + 1 <= pow2(expression.tree_depth()),
    decreases expression,
{
    expression.lemma_depth_within_nodes();
    let d = expression.tree_depth();
    lemma_pow2_unfold(d);
    match expression {
        GpRealExpr::Constant(_) => {
            lemma_pow2_unfold(1);
            lemma_pow2_pos(0);
        },
        GpRealExpr::Input(_) => {
            lemma_pow2_unfold(1);
            lemma_pow2_pos(0);
        },
        GpRealExpr::Neg(value) => {
            law_nodes_bounded_by_depth(*value);
            lemma_pow2_pos(value.tree_depth());
        },
        GpRealExpr::Add(left, right) | GpRealExpr::Sub(left, right) | GpRealExpr::Mul(left, right)
        | GpRealExpr::Div(left, right) => {
            law_nodes_bounded_by_depth(*left);
            law_nodes_bounded_by_depth(*right);
            let dl = left.tree_depth();
            let dr = right.tree_depth();
            let m = (d - 1) as nat;
            if dl < m {
                lemma_pow2_strictly_increases(dl, m);
            }
            if dr < m {
                lemma_pow2_strictly_increases(dr, m);
            }
        },
    }
}


/// Whether the stored forms settle every comparison that the total
/// comparison of two values makes.
pub open spec fn total_settled(left: FitnessValueView, right: FitnessValueView) -> bool {
    match (left, right) {
        (FitnessValueView::Scalar(l), FitnessValueView::Scalar(r)) => settled_order(l, r) is Some,
        (FitnessValueView::Lexicographic(l), FitnessValueView::Lexicographic(r)) => l.len() == r.len() ==> forall|
            i: int,
        | 0 <= i < l.len() ==> #[trigger] settled_order(l[i], r[i]) is Some,
        (FitnessValueView::Interval(l), FitnessValueView::Interval(r)) => {
            &&& settled_order(l.lower, l.upper) is Some
            &&& settled_order(r.lower, r.upper) is Some
            &&& settled_order(l.lower, r.upper) is Some
            &&& settled_order(l.upper, r.lower) is Some
        },
        _ => true,
    }
}

proof fn lemma_settled_answer(rec: RealComparer, site: Seq<int>, left: Real, right: Real)
    requires
        comparer_sound(rec),
        settled_order(left, right) is Some,
    ensures
        rec(site, left, right) == settled_order(left, right),
{
    lemma_sound_answer(rec, site, left, right);
    reveal(outcome_sound);
}

proof fn lemma_settled_lexicographic(
    r1: RealComparer,
    r2: RealComparer,
    left: Seq<Real>,
    right: Seq<Real>,
    direction: FitnessDirection,
    from: int,
)
    requires
        comparer_sound(r1),
        comparer_sound(r2),
        left.len() == right.len(),
        0 <= from,
        forall|i: int| 0 <= i < left.len() ==> #[trigger] settled_order(left[i], right[i]) is Some,
    ensures
        lexicographic_verdict(r1, left, right, direction, from) == lexicographic_verdict(r2, left, right, direction, from),
        lexicographic_verdict(r2, right, left, direction, from) == reversed_verdict(
            lexicographic_verdict(r1, left, right, direction, from),
        ),
    decreases left.len() - from,
{
    if from < left.len() {
        let e = Seq::<int>::empty();
        lemma_at_sound(r1, from);
        lemma_at_sound(r2, from);
        assert(settled_order(left[from], right[from]) is Some);
        lemma_settled_flip(left[from], right[from]);
        lemma_settled_answer(at(r1, from), e, left[from], right[from]);
        lemma_settled_answer(at(r2, from), e, left[from], right[from]);
        lemma_settled_answer(at(r2, from), e, right[from], left[from]);
        lemma_settled_lexicographic(r1, r2, left, right, direction, from + 1);
    }
}

/// Where the stored forms settle every comparison, as for values held as
/// exact whole numbers, the total comparison is the same in every sound run.
/// For scalar and lexicographic values, swapping the two values then
/// exchanges `Better` and `Worse` exactly and keeps `Equal`.
pub proof fn law_settled_total_comparison_is_determined(
    r1: RealComparer,
    r2: RealComparer,
    left: FitnessValueView,
    right: FitnessValueView,
    direction: FitnessDirection,
)
    requires
        comparer_sound(r1),
        comparer_sound(r2),
        total_settled(left, right),
    ensures
        total_verdict(r1, left, right, direction) == total_verdict(r2, left, right, direction),
        (left is Scalar || left is Lexicographic) ==> total_verdict(r2, right, left, direction) == reversed_verdict(
            total_verdict(r1, left, right, direction),
        ),
{
    let e = Seq::<int>::empty();
    match (left, right) {
        (FitnessValueView::Scalar(l), FitnessValueView::Scalar(r)) => {
            lemma_settled_flip(l, r);
            lemma_settled_answer(r1, e, l, r);
            lemma_settled_answer(r2, e, l, r);
            lemma_settled_answer(r2, e, r, l);
        },
        (FitnessValueView::Lexicographic(l), FitnessValueView::Lexicographic(r)) => {
            if l.len() == r.len() {
                lemma_settled_lexicographic(r1, r2, l, r, direction, 0);
            }
        },
        (FitnessValueView::Interval(l), FitnessValueView::Interval(r)) => {
            lemma_at_sound(r1, 0);
            lemma_at_sound(r1, 1);
            lemma_at_sound(r1, 2);
            lemma_at_sound(r1, 3);
            lemma_at_sound(r2, 0);
            lemma_at_sound(r2, 1);
            lemma_at_sound(r2, 2);
            lemma_at_sound(r2, 3);
            lemma_settled_answer(at(r1, 0), e, l.lower, l.upper);
            lemma_settled_answer(at(r2, 0), e, l.lower, l.upper);
            lemma_settled_answer(at(r1, 1), e, r.lower, r.upper);
            lemma_settled_answer(at(r2, 1), e, r.lower, r.upper);
            lemma_settled_answer(at(r1, 2), e, l.lower, r.upper);
            lemma_settled_answer(at(r2, 2), e, l.lower, r.upper);
            lemma_settled_answer(at(r1, 3), e, l.upper, r.lower);
            lemma_settled_answer(at(r2, 3), e, l.upper, r.lower);
        },
        _ => {},
    }
}

proof fn lemma_settled_scan(
    r1: RealComparer,
    r2: RealComparer,
    candidates: Seq<CandidateView>,
    reports: Seq<FitnessReportView>,
    indices: Seq<usize>,
    direction: FitnessDirection,
    k: int,
    selected: Option<int>,
)
    requires
        comparer_sound(r1),
        comparer_sound(r2),
        0 <= k,
        candidates.len() == reports.len(),
        selected matches Some(s) ==> 0 <= s < reports.len(),
        forall|i: int, j: int|
            0 <= i < reports.len() && 0 <= j < reports.len() ==> #[trigger] total_settled(
                reports[i].value,
                reports[j].value,
            ),
    ensures
        selection_scan(r1, candidates, reports, indices, direction, k, selected) == selection_scan(
            r2,
            candidates,
            reports,
            indices,
            direction,
            k,
            selected,
        ),
    decreases indices.len() - k,
{
    if 0 <= k < indices.len() {
        let index = indices[k] as int;
        if index < candidates.len() {
            lemma_settled_scan(r1, r2, candidates, reports, indices, direction, k + 1, selected);
            lemma_settled_scan(r1, r2, candidates, reports, indices, direction, k + 1, Some(index));
            if let Some(current) = selected {
                lemma_at_sound(r1, k);
                lemma_at_sound(r2, k);
                assert(total_settled(reports[index].value, reports[current].value));
                law_settled_total_comparison_is_determined(
                    at(r1, k),
                    at(r2, k),
                    reports[index].value,
                    reports[current].value,
                    direction,
                );
            }
        }
    }
}

/// Where the stored forms settle every comparison between the reports, as
/// for fitness values held as exact whole numbers, selection is the same in
/// every sound run: two selections over the same schedule give the same
/// outcome, whatever their comparisons were asked in turn.
pub proof fn law_settled_selection_is_determined(
    r1: RealComparer,
    r2: RealComparer,
    candidates: Seq<CandidateView>,
    reports: Seq<FitnessReportView>,
    indices: Seq<usize>,
    direction: FitnessDirection,
)
    requires
        comparer_sound(r1),
        comparer_sound(r2),
        forall|i: int, j: int|
            0 <= i < reports.len() && 0 <= j < reports.len() ==> #[trigger] total_settled(
                reports[i].value,
                reports[j].value,
            ),
    ensures
        selection_outcome(r1, candidates, reports, indices, direction) == selection_outcome(
            r2,
            candidates,
            reports,
            indices,
            direction,
        ),
{
    if candidates.len() == reports.len() && candidates.len() > 0 {
        lemma_settled_scan(r1, r2, candidates, reports, indices, direction, 0, None);
    }
}


/// Whether every report carries a scalar held as an exact whole number.
pub open spec fn integral_scalars(reports: Seq<FitnessReportView>) -> bool {
    forall|i: int|
        0 <= i < reports.len() ==> (#[trigger] reports[i].value is Scalar && real_integer(
            reports[i].value->Scalar_0,
        ) is Some)
}

/// The whole number a scalar report holds.
pub open spec fn report_score(report: FitnessReportView) -> int {
    real_integer(report.value->Scalar_0)->0
}

/// Whether score `a` is strictly better than score `b` in a direction.
pub open spec fn score_beats(a: int, b: int, direction: FitnessDirection) -> bool {
    match direction {
        FitnessDirection::Minimize => a < b,
        FitnessDirection::Maximize => a > b,
    }
}

/// The entry at schedule position `k` names a candidate whose report is
/// aligned with it and accepted.
pub open spec fn eligible_at(
    candidates: Seq<CandidateView>,
    reports: Seq<FitnessReportView>,
    indices: Seq<usize>,
    k: int,
) -> bool {
    &&& 0 <= k < indices.len()
    &&& (indices[k] as int) < candidates.len()
    &&& reports[indices[k] as int].candidate == candidates[indices[k] as int].id
    &&& reports[indices[k] as int].replay == ReplayStatus::Accepted
}

proof fn lemma_scan_winner(
    rec: RealComparer,
    candidates: Seq<CandidateView>,
    reports: Seq<FitnessReportView>,
    indices: Seq<usize>,
    direction: FitnessDirection,
    k: int,
    selected: Option<int>,
)
    requires
        comparer_sound(rec),
        0 <= k,
        candidates.len() == reports.len(),
        integral_scalars(reports),
        selected matches Some(s) ==> 0 <= s < reports.len() && exists|p: int| 0 <= p < k && p < indices.len() && #[trigger] indices[p] == s,
    ensures
        selection_scan(rec, candidates, reports, indices, direction, k, selected) matches Ok(w) ==> {
            &&& 0 <= w < reports.len()
            &&& (selected matches Some(s) ==> !score_beats(report_score(reports[s]), report_score(reports[w]), direction)
                && (report_score(reports[s]) == report_score(reports[w]) ==> w == s))
            &&& forall|q: int|
                k <= q && #[trigger] eligible_at(candidates, reports, indices, q) ==> {
                    &&& !score_beats(report_score(reports[indices[q] as int]), report_score(reports[w]), direction)
                    &&& report_score(reports[indices[q] as int]) == report_score(reports[w]) ==> exists|p: int|
                        0 <= p <= q && #[trigger] indices[p] == w
                }
        },
    decreases indices.len() - k,
{
    if 0 <= k < indices.len() {
        let index = indices[k] as int;
        if index < candidates.len() && reports[index].candidate == candidates[index].id {
            if reports[index].replay != ReplayStatus::Accepted {
                lemma_scan_winner(rec, candidates, reports, indices, direction, k + 1, selected);
            } else {
                assert(indices[k] as int == index);
                lemma_scan_winner(rec, candidates, reports, indices, direction, k + 1, Some(index));
                if let Some(current) = selected {
                    lemma_at_sound(rec, k);
                    let x = reports[index].value->Scalar_0;
                    let y = reports[current].value->Scalar_0;
                    assert(integral_scalars(reports));
                    assert(reports[index].value is Scalar && real_integer(x) is Some);
                    assert(reports[current].value is Scalar && real_integer(y) is Some);
                    lemma_settled_answer(at(rec, k), Seq::<int>::empty(), x, y);
                    lemma_scan_winner(rec, candidates, reports, indices, direction, k + 1, selected);
                }
            }
        }
    }
}

/// Selection over scalar reports held as exact whole numbers picks a best
/// scheduled report: no eligible scheduled report scores strictly better
/// than the winner, and among equal scores the one scheduled first wins.
pub proof fn law_selection_winner_is_best(
    rec: RealComparer,
    candidates: Seq<CandidateView>,
    reports: Seq<FitnessReportView>,
    indices: Seq<usize>,
    direction: FitnessDirection,
)
    requires
        comparer_sound(rec),
        integral_scalars(reports),
    ensures
        selection_outcome(rec, candidates, reports, indices, direction) matches Ok(w) ==> forall|q: int|
            #[trigger] eligible_at(candidates, reports, indices, q) ==> {
                &&& !score_beats(report_score(reports[indices[q] as int]), report_score(reports[w]), direction)
                &&& report_score(reports[indices[q] as int]) == report_score(reports[w]) ==> exists|p: int|
                    0 <= p <= q && #[trigger] indices[p] == w
            },
{
    if candidates.len() == reports.len() && candidates.len() > 0 {
        lemma_scan_winner(rec, candidates, reports, indices, direction, 0, None);
    }
}


/// Where the stored forms settle every objective of two Pareto vectors of one
/// length, as for objectives held as exact whole numbers, the Pareto relation
/// is the same in every sound run, and swapping the vectors exchanges
/// `Dominates` and `Dominated` exactly and keeps the other relations.
pub proof fn law_settled_pareto_relation_is_determined(
    r1: RealComparer,
    r2: RealComparer,
    left: Seq<Real>,
    right: Seq<Real>,
    direction: FitnessDirection,
)
    requires
        comparer_sound(r1),
        comparer_sound(r2),
        left.len() == right.len(),
        forall|i: int| 0 <= i < left.len() ==> #[trigger] settled_order(left[i], right[i]) is Some,
    ensures
        pareto_verdict(r1, FitnessValueView::Pareto(left), FitnessValueView::Pareto(right), direction)
            == pareto_verdict(r2, FitnessValueView::Pareto(left), FitnessValueView::Pareto(right), direction),
        pareto_verdict(r2, FitnessValueView::Pareto(right), FitnessValueView::Pareto(left), direction)
            == reversed_relation(
            pareto_verdict(r1, FitnessValueView::Pareto(left), FitnessValueView::Pareto(right), direction),
        ),
{
    let e = Seq::<int>::empty();
    assert forall|i: int| 0 <= i < left.len() implies {
        &&& #[trigger] real_verdict(at(r1, i), left[i], right[i], direction) == real_verdict(
            at(r2, i),
            left[i],
            right[i],
            direction,
        )
        &&& real_verdict(at(r2, i), right[i], left[i], direction) == reversed_verdict(
            real_verdict(at(r1, i), left[i], right[i], direction),
        )
    } by {
        lemma_at_sound(r1, i);
        lemma_at_sound(r2, i);
        lemma_settled_flip(left[i], right[i]);
        lemma_settled_answer(at(r1, i), e, left[i], right[i]);
        lemma_settled_answer(at(r2, i), e, left[i], right[i]);
        lemma_settled_answer(at(r2, i), e, right[i], left[i]);
    }
    assert forall|v: FitnessComparison| #[trigger] some_objective(r1, left, right, direction, v) == some_objective(
        r2,
        left,
        right,
        direction,
        v,
    ) && some_objective(r2, right, left, direction, reversed_verdict(v)) == some_objective(
        r1,
        left,
        right,
        direction,
        v,
    ) by {
        if some_objective(r1, left, right, direction, v) {
            let i = choose|i: int| 0 <= i < left.len() && #[trigger] real_verdict(at(r1, i), left[i], right[i], direction) == v;
            assert(real_verdict(at(r2, i), left[i], right[i], direction) == v);
            assert(real_verdict(at(r2, i), right[i], left[i], direction) == reversed_verdict(v));
        }
        if some_objective(r2, left, right, direction, v) {
            let i = choose|i: int| 0 <= i < left.len() && #[trigger] real_verdict(at(r2, i), left[i], right[i], direction) == v;
            assert(real_verdict(at(r1, i), left[i], right[i], direction) == v);
        }
        if some_objective(r2, right, left, direction, reversed_verdict(v)) {
            let i = choose|i: int| 0 <= i < left.len() && #[trigger] real_verdict(at(r2, i), right[i], left[i], direction)
                == reversed_verdict(v);
            assert(real_verdict(at(r1, i), left[i], right[i], direction) == v);
        }
    }
    assert(some_objective(r1, left, right, direction, FitnessComparison::Unknown) == some_objective(r2, right, left, direction, FitnessComparison::Unknown));
    assert(some_objective(r1, left, right, direction, FitnessComparison::Better) == some_objective(r2, right, left, direction, FitnessComparison::Worse));
    assert(some_objective(r1, left, right, direction, FitnessComparison::Worse) == some_objective(r2, right, left, direction, FitnessComparison::Better));
}


proof fn lemma_lexicographic_decided_at(
    rec: RealComparer,
    left: Seq<Real>,
    right: Seq<Real>,
    direction: FitnessDirection,
    from: int,
    i: int,
)
    requires
        left.len() == right.len(),
        0 <= from <= i < left.len(),
        forall|j: int| 0 <= j < i ==> #[trigger] real_verdict(at(rec, j), left[j], right[j], direction)
            == FitnessComparison::Equal,
        real_verdict(at(rec, i), left[i], right[i], direction) != FitnessComparison::Equal,
    ensures
        lexicographic_verdict(rec, left, right, direction, from) == real_verdict(at(rec, i), left[i], right[i], direction),
    decreases i - from,
{
    if from < i {
        assert(real_verdict(at(rec, from), left[from], right[from], direction) == FitnessComparison::Equal);
        lemma_lexicographic_decided_at(rec, left, right, direction, from + 1, i);
    }
}

proof fn lemma_lexicographic_all_tied(
    rec: RealComparer,
    left: Seq<Real>,
    right: Seq<Real>,
    direction: FitnessDirection,
    from: int,
)
    requires
        left.len() == right.len(),
        0 <= from,
        forall|j: int| 0 <= j < left.len() ==> #[trigger] real_verdict(at(rec, j), left[j], right[j], direction)
            == FitnessComparison::Equal,
    ensures
        lexicographic_verdict(rec, left, right, direction, from) == FitnessComparison::Equal,
    decreases left.len() - from,
{
    if from < left.len() {
        assert(real_verdict(at(rec, from), left[from], right[from], direction) == FitnessComparison::Equal);
        lemma_lexicographic_all_tied(rec, left, right, direction, from + 1);
    }
}

/// Lexicographic objectives are read in order: for two vectors of one
/// length, when every objective before position `i` ties and objective `i`
/// does not, the total comparison is objective `i`'s verdict, whatever the
/// later objectives give; when every objective ties, the values are equal.
pub proof fn law_lexicographic_first_difference_decides(
    rec: RealComparer,
    left: Seq<Real>,
    right: Seq<Real>,
    direction: FitnessDirection,
    i: int,
)
    requires
        left.len() == right.len(),
    ensures
        (0 <= i < left.len() && (forall|j: int| 0 <= j < i ==> #[trigger] real_verdict(at(rec, j), left[j], right[j], direction)
            == FitnessComparison::Equal) && real_verdict(at(rec, i), left[i], right[i], direction)
            != FitnessComparison::Equal) ==> total_verdict(
            rec,
            FitnessValueView::Lexicographic(left),
            FitnessValueView::Lexicographic(right),
            direction,
        ) == real_verdict(at(rec, i), left[i], right[i], direction),
        (forall|j: int| 0 <= j < left.len() ==> #[trigger] real_verdict(at(rec, j), left[j], right[j], direction)
            == FitnessComparison::Equal) ==> total_verdict(
            rec,
            FitnessValueView::Lexicographic(left),
            FitnessValueView::Lexicographic(right),
            direction,
        ) == FitnessComparison::Equal,
{
    if 0 <= i < left.len() && (forall|j: int| 0 <= j < i ==> #[trigger] real_verdict(at(rec, j), left[j], right[j], direction)
        == FitnessComparison::Equal) && real_verdict(at(rec, i), left[i], right[i], direction)
        != FitnessComparison::Equal {
        lemma_lexicographic_decided_at(rec, left, right, direction, 0, i);
    }
    if forall|j: int| 0 <= j < left.len() ==> #[trigger] real_verdict(at(rec, j), left[j], right[j], direction)
        == FitnessComparison::Equal {
        lemma_lexicographic_all_tied(rec, left, right, direction, 0);
    }
}

/// The order in which one value is strictly better than another.
pub open spec fn better_order(direction: FitnessDirection) -> RealOrder {
    match direction {
        FitnessDirection::Minimize => RealOrder::Less,
        FitnessDirection::Maximize => RealOrder::Greater,
    }
}

/// What a total comparison may answer for two lexicographic vectors whose
/// leading objectives the stored forms settle as different, as whole
/// numbers do: the leading objective decides, whatever follows.
pub proof fn law_lexicographic_settled_lead_decides(
    verdict: FitnessComparison,
    left: Seq<Real>,
    right: Seq<Real>,
    direction: FitnessDirection,
)
    requires
        total_possible(FitnessValueView::Lexicographic(left), FitnessValueView::Lexicographic(right), direction, verdict),
        left.len() == right.len(),
        left.len() > 0,
        settled_order(left[0], right[0]) is Some,
        settled_order(left[0], right[0]) != Some(RealOrder::Equal),
    ensures
        verdict == if settled_order(left[0], right[0]) == Some(better_order(direction)) {
            FitnessComparison::Better
        } else {
            FitnessComparison::Worse
        },
{
    let rec = choose|rec: RealComparer|
        comparer_sound(rec) && verdict == #[trigger] total_verdict(
            rec,
            FitnessValueView::Lexicographic(left),
            FitnessValueView::Lexicographic(right),
            direction,
        );
    lemma_at_sound(rec, 0);
    lemma_settled_answer(at(rec, 0), Seq::<int>::empty(), left[0], right[0]);
    law_lexicographic_first_difference_decides(rec, left, right, direction, 0);
}

/// Vector `a` dominates vector `b` as the stored forms settle it: one
/// length, every objective settled and none worse, and some objective
/// strictly better.
pub open spec fn settled_dominates(a: Seq<Real>, b: Seq<Real>, direction: FitnessDirection) -> bool {
    &&& a.len() == b.len()
    &&& forall|k: int|
        0 <= k < a.len() ==> (#[trigger] settled_order(a[k], b[k]) is Some && settled_order(a[k], b[k]) != Some(
            flipped(better_order(direction)),
        ))
    &&& exists|k: int| 0 <= k < a.len() && #[trigger] settled_order(a[k], b[k]) == Some(better_order(direction))
}

proof fn lemma_settled_dominance(rec: RealComparer, a: Seq<Real>, b: Seq<Real>, direction: FitnessDirection)
    requires
        comparer_sound(rec),
        settled_dominates(a, b, direction),
    ensures
        pareto_verdict(rec, FitnessValueView::Pareto(a), FitnessValueView::Pareto(b), direction)
            == ParetoRelation::Dominates,
{
    let e = Seq::<int>::empty();
    assert forall|k: int| 0 <= k < a.len() implies #[trigger] real_verdict(at(rec, k), a[k], b[k], direction)
        == match settled_order(a[k], b[k]) {
            Some(RealOrder::Equal) => FitnessComparison::Equal,
            _ => if settled_order(a[k], b[k]) == Some(better_order(direction)) {
                FitnessComparison::Better
            } else {
                FitnessComparison::Worse
            },
        } by {
        assert(settled_order(a[k], b[k]) is Some);
        lemma_at_sound(rec, k);
        lemma_settled_answer(at(rec, k), e, a[k], b[k]);
    }
    let w = choose|k: int| 0 <= k < a.len() && #[trigger] settled_order(a[k], b[k]) == Some(better_order(direction));
    assert(real_verdict(at(rec, w), a[w], b[w], direction) == FitnessComparison::Better);
    assert(!some_objective(rec, a, b, direction, FitnessComparison::Unknown));
    assert(!some_objective(rec, a, b, direction, FitnessComparison::Worse));
    assert(some_objective(rec, a, b, direction, FitnessComparison::Better));
}

/// Every archived report is checked against a newcomer: when any archived
/// report, at whatever position, dominates the newcomer as the stored forms
/// settle it (as whole-number objectives do), the insertion refuses it.
pub proof fn law_dominated_newcomer_is_refused(
    rec: RealComparer,
    inserted: bool,
    before: Seq<FitnessReportView>,
    after: Seq<FitnessReportView>,
    report: FitnessReportView,
    direction: FitnessDirection,
    i: int,
)
    requires
        comparer_sound(rec),
        insertion_matches(rec, inserted, before, after, report, direction),
        0 <= i < before.len(),
        before[i].value is Pareto,
        report.value is Pareto,
        settled_dominates(before[i].value->Pareto_0, report.value->Pareto_0, direction),
    ensures
        !inserted,
{
    lemma_at_sound(rec, 0);
    lemma_at_sound(at(rec, 0), i);
    lemma_settled_dominance(at(at(rec, 0), i), before[i].value->Pareto_0, report.value->Pareto_0, direction);
    assert(pareto_verdict(at(at(rec, 0), i), before[i].value, report.value, direction) == ParetoRelation::Dominates);
    assert(dominated_by_archive(at(rec, 0), before, report.value, direction));
}

/// Simulated annealing never accepts a neighbor whose replay did not
/// certify it: whatever the comparisons answer, a neighbor with rejected or
/// unknown replay is classified as uncertified or the schedule as invalid,
/// and every accepting or proposing decision comes from accepted replay.
pub proof fn law_uncertified_replay_is_never_accepted(
    rec: RealComparer,
    current: FitnessReportView,
    neighbor: FitnessReportView,
    policy: SimulatedAnnealingPolicy,
    direction: FitnessDirection,
)
    ensures
        neighbor.replay != ReplayStatus::Accepted ==> (annealing_decision(rec, current, neighbor, policy, direction)
            == AnnealingAcceptance::InvalidSchedule || annealing_decision(rec, current, neighbor, policy, direction)
            == AnnealingAcceptance::RejectUncertifiedReplay),
        (annealing_decision(rec, current, neighbor, policy, direction) == AnnealingAcceptance::AcceptImprovement
            || annealing_decision(rec, current, neighbor, policy, direction) == AnnealingAcceptance::AcceptEqual
            || annealing_decision(rec, current, neighbor, policy, direction)
            == AnnealingAcceptance::RequiresProbabilisticProposal) ==> neighbor.replay == ReplayStatus::Accepted,
{
}

/// Two genomes of one length are identical exactly when every gene is
/// stored in the same form as its counterpart, and distinct exactly when
/// some gene is not.
pub proof fn law_genomes_identical_term_for_term(left: Seq<Real>, right: Seq<Real>)
    requires
        left.len() == right.len(),
    ensures
        genome_relation(left, right) is Identical <==> (forall|i: int|
            0 <= i < left.len() ==> #[trigger] real_same_form(left[i], right[i])),
        genome_relation(left, right) is Distinct <==> (exists|i: int|
            0 <= i < left.len() && !#[trigger] real_same_form(left[i], right[i])),
{
}

/// The diversity counts of a population of two genomes: one pair, identical
/// exactly when the genomes have one length and agree gene by gene,
/// distinct when they have one length and some gene differs, and of
/// mismatched shape when their lengths differ.
pub proof fn law_two_genome_diversity(left: Seq<Real>, right: Seq<Real>)
    ensures
        pairs_where(seq![left, right], identical_pair()) == if left.len() == right.len() && forall|i: int|
            0 <= i < left.len() ==> #[trigger] real_same_form(left[i], right[i]) {
            1nat
        } else {
            0nat
        },
        pairs_where(seq![left, right], distinct_pair()) == if left.len() == right.len() && exists|i: int|
            0 <= i < left.len() && !#[trigger] real_same_form(left[i], right[i]) {
            1nat
        } else {
            0nat
        },
        pairs_where(seq![left, right], mismatched_pair()) == if left.len() != right.len() {
            1nat
        } else {
            0nat
        },
{
    let g = seq![left, right];
    assert(g[0] == left && g[1] == right);
    assert(pairs_from(g, 2, identical_pair()) == 0);
    assert(pairs_from(g, 2, distinct_pair()) == 0);
    assert(pairs_from(g, 2, mismatched_pair()) == 0);
    assert(row_pairs(g, 1, 2, identical_pair()) == 0);
    assert(row_pairs(g, 1, 2, distinct_pair()) == 0);
    assert(row_pairs(g, 1, 2, mismatched_pair()) == 0);
    assert(row_pairs(g, 0, 2, identical_pair()) == 0);
    assert(row_pairs(g, 0, 2, distinct_pair()) == 0);
    assert(row_pairs(g, 0, 2, mismatched_pair()) == 0);
    assert(pairs_from(g, 1, identical_pair()) == 0);
    assert(pairs_from(g, 1, distinct_pair()) == 0);
    assert(pairs_from(g, 1, mismatched_pair()) == 0);
}

/// Each built-in target routes replay to its own owner: two different
/// built-in targets never name the same domain.
pub proof fn law_domain_names_are_distinct(first: DomainReplayTarget, second: DomainReplayTarget)
    requires
        !(first is Other),
        !(second is Other),
        first != second,
    ensures
        domain_name(first) != domain_name(second),
{
    reveal_strlit("hypersolve");
    reveal_strlit("hyperpath");
    reveal_strlit("hypercurve");
    reveal_strlit("mesh-or-csg");
    reveal_strlit("hypervoxel");
    reveal_strlit("hyperpack");
    reveal_strlit("hyperdrc");
    reveal_strlit("hyperphysics");
    reveal_strlit("hypercircuit");
    let a = domain_name(first);
    let b = domain_name(second);
    if a.len() == b.len() {
        if a.len() == 9 {
            assert(a[7] != b[7]);
        } else {
            assert(a[5] != b[5]);
        }
    }
}


/// Whether a whole-number score beats another in a direction, or ties it.
pub open spec fn whole_verdict(left: int, right: int, direction: FitnessDirection) -> FitnessComparison {
    if left == right {
        FitnessComparison::Equal
    } else if score_beats(left, right, direction) {
        FitnessComparison::Better
    } else {
        FitnessComparison::Worse
    }
}

/// Two scalars held as exact whole numbers compare as those numbers do: the
/// smaller is better when minimizing, the larger when maximizing, and equal
/// numbers tie.
pub proof fn law_whole_scalars_compare_as_numbers(
    verdict: FitnessComparison,
    left: Real,
    right: Real,
    direction: FitnessDirection,
)
    requires
        total_possible(FitnessValueView::Scalar(left), FitnessValueView::Scalar(right), direction, verdict),
        real_integer(left) is Some,
        real_integer(right) is Some,
    ensures
        verdict == whole_verdict(real_integer(left)->0, real_integer(right)->0, direction),
{
    let rec = choose|rec: RealComparer|
        comparer_sound(rec) && verdict == #[trigger] total_verdict(
            rec,
            FitnessValueView::Scalar(left),
            FitnessValueView::Scalar(right),
            direction,
        );
    lemma_settled_answer(rec, Seq::<int>::empty(), left, right);
}

/// Two interval enclosures with exact whole-number endpoints compare by
/// strict separation: an inverted enclosure makes the comparison invalid;
/// otherwise, unless both endpoints are stored in the same forms, the left
/// interval is better when it lies wholly on the better side of the right
/// one, worse when wholly on the worse side, and overlapping else.
pub proof fn law_whole_intervals_compare_by_separation(
    rec: RealComparer,
    left: FitnessInterval,
    right: FitnessInterval,
    direction: FitnessDirection,
)
    requires
        comparer_sound(rec),
        real_integer(left.lower) is Some,
        real_integer(left.upper) is Some,
        real_integer(right.lower) is Some,
        real_integer(right.upper) is Some,
    ensures
        ({
            let ll = real_integer(left.lower)->0;
            let lu = real_integer(left.upper)->0;
            let rl = real_integer(right.lower)->0;
            let ru = real_integer(right.upper)->0;
            let verdict = interval_verdict(rec, left, right, direction);
            &&& (ll > lu || rl > ru) ==> verdict == FitnessIntervalComparison::InvalidBounds
            &&& (ll <= lu && rl <= ru && real_same_form(left.lower, right.lower) && real_same_form(
                left.upper,
                right.upper,
            )) ==> verdict == FitnessIntervalComparison::Equal
            &&& (ll <= lu && rl <= ru && !(real_same_form(left.lower, right.lower) && real_same_form(
                left.upper,
                right.upper,
            ))) ==> verdict == match direction {
                FitnessDirection::Minimize => if lu < rl {
                    FitnessIntervalComparison::Better
                } else if ll > ru {
                    FitnessIntervalComparison::Worse
                } else {
                    FitnessIntervalComparison::Overlapping
                },
                FitnessDirection::Maximize => if ll > ru {
                    FitnessIntervalComparison::Better
                } else if lu < rl {
                    FitnessIntervalComparison::Worse
                } else {
                    FitnessIntervalComparison::Overlapping
                },
            }
        }),
{
    let e = Seq::<int>::empty();
    lemma_at_sound(rec, 0);
    lemma_at_sound(rec, 1);
    lemma_at_sound(rec, 2);
    lemma_at_sound(rec, 3);
    lemma_settled_answer(at(rec, 0), e, left.lower, left.upper);
    lemma_settled_answer(at(rec, 1), e, right.lower, right.upper);
    lemma_settled_answer(at(rec, 2), e, left.lower, right.upper);
    lemma_settled_answer(at(rec, 3), e, left.upper, right.lower);
}

/// Simulated annealing on whole numbers: with a whole-number temperature and
/// cooling ratio, the schedule is invalid exactly when the temperature is not
/// positive or the ratio lies outside `(0, 1]`; with a valid schedule, a
/// neighbor whose replay is not accepted is rejected as uncertified, and a
/// neighbor with accepted replay and a whole-number scalar is accepted as an
/// improvement when its score beats the current one, accepted as equal when
/// it ties, and otherwise sent to the probabilistic proposal stage.
pub proof fn law_whole_number_annealing(
    rec: RealComparer,
    current: FitnessReportView,
    neighbor: FitnessReportView,
    policy: SimulatedAnnealingPolicy,
    direction: FitnessDirection,
)
    requires
        comparer_sound(rec),
        real_integer(real_of_integer(0)) == Some(0int),
        real_integer(real_of_integer(1)) == Some(1int),
        real_integer(policy.initial_temperature) is Some,
        real_integer(policy.cooling_ratio) is Some,
    ensures
        ({
            let t = real_integer(policy.initial_temperature)->0;
            let c = real_integer(policy.cooling_ratio)->0;
            let decision = annealing_decision(rec, current, neighbor, policy, direction);
            &&& (decision == AnnealingAcceptance::InvalidSchedule) <==> (t <= 0 || c <= 0 || c > 1)
            &&& (t > 0 && 0 < c <= 1 && neighbor.replay != ReplayStatus::Accepted) ==> decision
                == AnnealingAcceptance::RejectUncertifiedReplay
            &&& (t > 0 && 0 < c <= 1 && neighbor.replay == ReplayStatus::Accepted && neighbor.value is Scalar
                && current.value is Scalar && real_integer(neighbor.value->Scalar_0) is Some && real_integer(
                current.value->Scalar_0,
            ) is Some) ==> decision == match whole_verdict(
                real_integer(neighbor.value->Scalar_0)->0,
                real_integer(current.value->Scalar_0)->0,
                direction,
            ) {
                FitnessComparison::Better => AnnealingAcceptance::AcceptImprovement,
                FitnessComparison::Equal => AnnealingAcceptance::AcceptEqual,
                _ => AnnealingAcceptance::RequiresProbabilisticProposal,
            }
        }),
{
    let e = Seq::<int>::empty();
    lemma_at_sound(rec, 0);
    lemma_at_sound(rec, 1);
    lemma_at_sound(rec, 2);
    lemma_at_sound(rec, 3);
    lemma_settled_answer(at(rec, 0), e, policy.initial_temperature, real_of_integer(0));
    lemma_settled_answer(at(rec, 1), e, policy.cooling_ratio, real_of_integer(0));
    lemma_settled_answer(at(rec, 2), e, policy.cooling_ratio, real_of_integer(1));
    if neighbor.value is Scalar && current.value is Scalar && real_integer(neighbor.value->Scalar_0) is Some
        && real_integer(current.value->Scalar_0) is Some {
        lemma_settled_answer(at(rec, 3), e, neighbor.value->Scalar_0, current.value->Scalar_0);
    }
}

proof fn lemma_settled_dominance_exact(rec: RealComparer, a: Seq<Real>, b: Seq<Real>, direction: FitnessDirection)
    requires
        comparer_sound(rec),
        a.len() == b.len(),
        forall|k: int| 0 <= k < a.len() ==> #[trigger] settled_order(a[k], b[k]) is Some,
    ensures
        (pareto_verdict(rec, FitnessValueView::Pareto(a), FitnessValueView::Pareto(b), direction)
            == ParetoRelation::Dominates) <==> settled_dominates(a, b, direction),
{
    if settled_dominates(a, b, direction) {
        lemma_settled_dominance(rec, a, b, direction);
    } else {
        let e = Seq::<int>::empty();
        assert forall|k: int| 0 <= k < a.len() implies #[trigger] real_verdict(at(rec, k), a[k], b[k], direction)
            == match settled_order(a[k], b[k]) {
                Some(RealOrder::Equal) => FitnessComparison::Equal,
                _ => if settled_order(a[k], b[k]) == Some(better_order(direction)) {
                    FitnessComparison::Better
                } else {
                    FitnessComparison::Worse
                },
            } by {
            assert(settled_order(a[k], b[k]) is Some);
            lemma_at_sound(rec, k);
            lemma_settled_answer(at(rec, k), e, a[k], b[k]);
        }
        if pareto_verdict(rec, FitnessValueView::Pareto(a), FitnessValueView::Pareto(b), direction)
            == ParetoRelation::Dominates {
            assert(some_objective(rec, a, b, direction, FitnessComparison::Better));
            let w = choose|k: int| 0 <= k < a.len() && #[trigger] real_verdict(at(rec, k), a[k], b[k], direction)
                == FitnessComparison::Better;
            assert(settled_order(a[w], b[w]) == Some(better_order(direction)));
            assert forall|k: int| 0 <= k < a.len() implies (#[trigger] settled_order(a[k], b[k]) is Some
                && settled_order(a[k], b[k]) != Some(flipped(better_order(direction)))) by {
                assert(settled_order(a[k], b[k]) is Some);
                if settled_order(a[k], b[k]) == Some(flipped(better_order(direction))) {
                    assert(real_verdict(at(rec, k), a[k], b[k], direction) == FitnessComparison::Worse);
                    assert(some_objective(rec, a, b, direction, FitnessComparison::Worse));
                }
            }
            assert(settled_dominates(a, b, direction));
        }
    }
}

proof fn lemma_survivor_kept(
    rec: RealComparer,
    archived: Seq<FitnessReportView>,
    newcomer: FitnessValueView,
    direction: FitnessDirection,
    n: int,
    i: int,
)
    requires
        0 <= i < n <= archived.len(),
        pareto_verdict(at(rec, i), newcomer, archived[i].value, direction) != ParetoRelation::Dominates,
    ensures
        survivors(rec, archived, newcomer, direction, n).contains(archived[i]),
    decreases n,
{
    let rest = survivors(rec, archived, newcomer, direction, n - 1);
    if i == n - 1 {
        assert(survivors(rec, archived, newcomer, direction, n) == rest.push(archived[i]));
        assert(rest.push(archived[i])[rest.len() as int] == archived[i]);
    } else {
        lemma_survivor_kept(rec, archived, newcomer, direction, n - 1, i);
        let k = choose|k: int| 0 <= k < rest.len() && rest[k] == archived[i];
        if pareto_verdict(at(rec, n - 1), newcomer, archived[n - 1].value, direction) != ParetoRelation::Dominates {
            assert(rest.push(archived[n - 1])[k] == archived[i]);
        }
    }
}

/// An accepted insertion keeps exactly the right reports, as far as whole
/// numbers settle it: the newcomer comes last, no kept report is one the
/// newcomer dominates, and every archived report that the newcomer does not
/// dominate is kept.
pub proof fn law_insertion_keeps_undominated_reports(
    rec: RealComparer,
    before: Seq<FitnessReportView>,
    after: Seq<FitnessReportView>,
    report: FitnessReportView,
    direction: FitnessDirection,
    i: int,
)
    requires
        comparer_sound(rec),
        insertion_matches(rec, true, before, after, report, direction),
        0 <= i < before.len(),
        before[i].value is Pareto,
        report.value is Pareto,
        before[i].value->Pareto_0.len() == report.value->Pareto_0.len(),
        forall|k: int| 0 <= k < report.value->Pareto_0.len() ==> #[trigger] settled_order(
            report.value->Pareto_0[k],
            before[i].value->Pareto_0[k],
        ) is Some,
    ensures
        after.last() == report,
        settled_dominates(report.value->Pareto_0, before[i].value->Pareto_0, direction) ==> forall|j: int|
            0 <= j < after.len() - 1 && #[trigger] after[j] == before[i] ==> false,
        !settled_dominates(report.value->Pareto_0, before[i].value->Pareto_0, direction) ==> after.contains(before[i]),
{
    let r1 = at(rec, 1);
    lemma_at_sound(rec, 1);
    lemma_at_sound(r1, i);
    let kept = survivors(r1, before, report.value, direction, before.len() as int);
    assert(after == kept.push(report));
    lemma_settled_dominance_exact(at(r1, i), report.value->Pareto_0, before[i].value->Pareto_0, direction);
    if settled_dominates(report.value->Pareto_0, before[i].value->Pareto_0, direction) {
        let origins = lemma_survivors_from_archive(r1, before, report.value, direction, before.len() as int);
        assert forall|j: int| 0 <= j < after.len() - 1 && #[trigger] after[j] == before[i] implies false by {
            assert(after[j] == kept[j]);
            let o = origins[j];
            assert(kept[j] == before[o]);
            lemma_at_sound(r1, o);
            assert(before[o].value == before[i].value);
            lemma_settled_dominance_exact(at(r1, o), report.value->Pareto_0, before[o].value->Pareto_0, direction);
        }
    } else {
        lemma_survivor_kept(r1, before, report.value, direction, before.len() as int, i);
        let k = choose|k: int| 0 <= k < kept.len() && kept[k] == before[i];
        assert(after[k] == before[i]);
    }
}


/// A Pareto vector of `width` objectives, each held as an exact whole number.
pub open spec fn whole_pareto(value: FitnessValueView, width: nat) -> bool {
    &&& value is Pareto
    &&& value->Pareto_0.len() == width
    &&& forall|k: int| 0 <= k < width ==> #[trigger] real_integer(value->Pareto_0[k]) is Some
}

/// No report of a sequence dominates another, as whole numbers settle it.
pub open spec fn mutually_undominated(reports: Seq<FitnessReportView>, direction: FitnessDirection) -> bool {
    forall|i: int, j: int|
        0 <= i < reports.len() && 0 <= j < reports.len() ==> !settled_dominates(
            #[trigger] reports[i].value->Pareto_0,
            #[trigger] reports[j].value->Pareto_0,
            direction,
        )
}

/// A non-dominated archive of whole-number Pareto vectors of one width
/// stays non-dominated through an insertion, whatever is inserted or
/// refused: no report of it dominates another, the newcomer included.
pub proof fn law_whole_number_archive_stays_undominated(
    rec: RealComparer,
    inserted: bool,
    before: Seq<FitnessReportView>,
    after: Seq<FitnessReportView>,
    report: FitnessReportView,
    direction: FitnessDirection,
    width: nat,
)
    requires
        comparer_sound(rec),
        insertion_matches(rec, inserted, before, after, report, direction),
        !inserted ==> after == before,
        forall|i: int| 0 <= i < before.len() ==> whole_pareto(#[trigger] before[i].value, width),
        whole_pareto(report.value, width),
        mutually_undominated(before, direction),
    ensures
        mutually_undominated(after, direction),
{
    if inserted {
        let r0 = at(rec, 0);
        let r1 = at(rec, 1);
        lemma_at_sound(rec, 0);
        lemma_at_sound(rec, 1);
        let kept = survivors(r1, before, report.value, direction, before.len() as int);
        assert(after == kept.push(report));
        let origins = lemma_survivors_from_archive(r1, before, report.value, direction, before.len() as int);
        let n = report.value->Pareto_0;
        assert(!settled_dominates(n, n, direction)) by {
            if settled_dominates(n, n, direction) {
                let w = choose|k: int| 0 <= k < n.len() && #[trigger] settled_order(n[k], n[k]) == Some(
                    better_order(direction),
                );
                assert(real_integer(n[w]) is Some);
            }
        }
        assert forall|i: int, j: int| 0 <= i < after.len() && 0 <= j < after.len() implies !settled_dominates(
            #[trigger] after[i].value->Pareto_0,
            #[trigger] after[j].value->Pareto_0,
            direction,
        ) by {
            let last = after.len() - 1;
            if i < last {
                assert(after[i] == kept[i]);
                assert(kept[i] == before[origins[i]]);
            }
            if j < last {
                assert(after[j] == kept[j]);
                assert(kept[j] == before[origins[j]]);
            }
            if i < last && j == last {
                let o = origins[i];
                assert(after[j] == report);
                lemma_at_sound(r0, o);
                if settled_dominates(before[o].value->Pareto_0, n, direction) {
                    lemma_settled_dominance(at(r0, o), before[o].value->Pareto_0, n, direction);
                    assert(dominated_by_archive(r0, before, report.value, direction));
                }
            }
            if i == last && j < last {
                let o = origins[j];
                assert(after[i] == report);
                lemma_at_sound(r1, o);
                if settled_dominates(n, before[o].value->Pareto_0, direction) {
                    lemma_settled_dominance(at(r1, o), n, before[o].value->Pareto_0, direction);
                }
            }
            if i == last && j == last {
                assert(after[i] == report);
            }
        }
    }
}

} // verus!
