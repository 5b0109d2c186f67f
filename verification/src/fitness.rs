//! Exact fitness values and comparisons.
//!
//! Fitness is report-bearing evidence, not a primitive score. Scalar and
//! vector comparisons go through certified `hyperreal` orderings; interval
//! comparisons keep overlap and invalid bounds visible instead of ranking
//! candidates through midpoints.

use crate::exact::{
    answering, at, comparer_sound, compare_reals, copy_reals, graft, lemma_answering_sound, lemma_graft,
    lemma_settled_sound, real_same_form, same_form, settled, RealComparer, RealOrder,
};
use crate::identity::CandidateId;
use crate::search::ReplayStatus;
use hyperreal::Real;
use vstd::prelude::*;

verus! {

/// Direction of an objective.
#[derive(Clone, Copy, Debug, PartialEq, Eq, Structural)]
pub enum FitnessDirection {
    /// Smaller values are better.
    Minimize,
    /// Larger values are better.
    Maximize,
}

/// Exact fitness payload.
#[derive(Clone, Debug, PartialEq)]
pub enum FitnessValue {
    /// Single exact objective.
    Scalar(Box<Real>),
    /// Ordered exact objectives.
    Lexicographic(Vec<Real>),
    /// Pareto objective vector.
    Pareto(Vec<Real>),
    /// Certified interval enclosure for one objective.
    Interval(Box<FitnessInterval>),
}

/// Exact interval enclosure for one objective.
#[derive(Clone, Debug, PartialEq)]
pub struct FitnessInterval {
    /// Lower enclosure endpoint.
    pub lower: Real,
    /// Upper enclosure endpoint.
    pub upper: Real,
}

/// Fitness report with replay evidence.
#[derive(Clone, Debug, PartialEq)]
pub struct FitnessReport {
    /// Candidate id.
    pub candidate: CandidateId,
    /// Fitness value.
    pub value: FitnessValue,
    /// Replay status from the domain crate.
    pub replay: ReplayStatus,
    /// Evidence strings from predicates/residuals/domain reports.
    pub evidence: Vec<String>,
}

/// Total comparison for scalar and lexicographic reports.
#[derive(Clone, Copy, Debug, PartialEq, Eq, Structural)]
pub enum FitnessComparison {
    /// Left report is better.
    Better,
    /// Right report is better.
    Worse,
    /// Reports tie under the selected objective order.
    Equal,
    /// Exact comparison could not certify an ordering.
    Unknown,
}

/// Explicit comparison result for interval fitness enclosures.
#[derive(Clone, Copy, Debug, PartialEq, Eq, Structural)]
pub enum FitnessIntervalComparison {
    /// Left interval is strictly better than right.
    Better,
    /// Right interval is strictly better than left.
    Worse,
    /// Endpoints are exactly equal.
    Equal,
    /// Intervals overlap, so the ordering is policy-dependent.
    Overlapping,
    /// At least one interval has `lower > upper`.
    InvalidBounds,
    /// Exact endpoint ordering could not be certified.
    Unknown,
}

/// Pareto relation between two objective vectors.
#[derive(Clone, Copy, Debug, PartialEq, Eq, Structural)]
pub enum ParetoRelation {
    /// Left dominates right.
    Dominates,
    /// Left is dominated by right.
    Dominated,
    /// Neither vector dominates.
    NonDominated,
    /// Vectors are equal.
    Equal,
    /// Exact comparison could not certify the relation.
    Unknown,
}

/// The mathematical content of a fitness value.
pub enum FitnessValueView {
    Scalar(Real),
    Lexicographic(Seq<Real>),
    Pareto(Seq<Real>),
    Interval(FitnessInterval),
}

impl View for FitnessValue {
    type V = FitnessValueView;

    open spec fn view(&self) -> FitnessValueView {
        match self {
            FitnessValue::Scalar(value) => FitnessValueView::Scalar(**value),
            FitnessValue::Lexicographic(values) => FitnessValueView::Lexicographic(values@),
            FitnessValue::Pareto(values) => FitnessValueView::Pareto(values@),
            FitnessValue::Interval(interval) => FitnessValueView::Interval(**interval),
        }
    }
}

/// The mathematical content of a fitness report.
pub struct FitnessReportView {
    pub candidate: Seq<char>,
    pub value: FitnessValueView,
    pub replay: ReplayStatus,
    pub evidence: Seq<Seq<char>>,
}

/// The texts of a list of strings.
pub open spec fn texts(strings: Seq<String>) -> Seq<Seq<char>> {
    strings.map_values(|s: String| s@)
}

impl View for FitnessReport {
    type V = FitnessReportView;

    open spec fn view(&self) -> FitnessReportView {
        FitnessReportView {
            candidate: self.candidate@,
            value: self.value@,
            replay: self.replay,
            evidence: texts(self.evidence@),
        }
    }
}

/// The verdict that a certified ordering of `left` against `right` gives
/// `left` under an objective direction.
pub open spec fn verdict_of(order: Option<RealOrder>, direction: FitnessDirection) -> FitnessComparison {
    match order {
        Some(RealOrder::Less) => match direction {
            FitnessDirection::Minimize => FitnessComparison::Better,
            FitnessDirection::Maximize => FitnessComparison::Worse,
        },
        Some(RealOrder::Greater) => match direction {
            FitnessDirection::Minimize => FitnessComparison::Worse,
            FitnessDirection::Maximize => FitnessComparison::Better,
        },
        Some(RealOrder::Equal) => FitnessComparison::Equal,
        None => FitnessComparison::Unknown,
    }
}

/// The verdict of the comparison at the root of a record.
pub open spec fn real_verdict(rec: RealComparer, left: Real, right: Real, direction: FitnessDirection) -> FitnessComparison {
    verdict_of(rec(Seq::<int>::empty(), left, right), direction)
}

/// The first non-tie verdict of two objective vectors from position `from` on,
/// or `Equal` when every remaining objective ties; position `i` is compared
/// in part `i` of the record.
pub open spec fn lexicographic_verdict(
    rec: RealComparer,
    left: Seq<Real>,
    right: Seq<Real>,
    direction: FitnessDirection,
    from: int,
) -> FitnessComparison
    decreases left.len() - from,
{
    if 0 <= from < left.len() {
        let verdict = real_verdict(at(rec, from), left[from], right[from], direction);
        if verdict != FitnessComparison::Equal {
            verdict
        } else {
            lexicographic_verdict(rec, left, right, direction, from + 1)
        }
    } else {
        FitnessComparison::Equal
    }
}

/// Whether `lower <= upper` was certified (`Some(true)`), refuted
/// (`Some(false)`), or left undecided (`None`) by the root comparison.
pub open spec fn bounds_validity(rec: RealComparer, interval: FitnessInterval) -> Option<bool> {
    match rec(Seq::<int>::empty(), interval.lower, interval.upper) {
        Some(RealOrder::Less) => Some(true),
        Some(RealOrder::Equal) => Some(true),
        Some(RealOrder::Greater) => Some(false),
        None => None,
    }
}

/// The comparison of two interval enclosures: part `0` of the record checks
/// the left bounds, part `1` the right bounds, part `2` compares the left
/// lower endpoint with the right upper one and part `3` the left upper
/// endpoint with the right lower one.
pub open spec fn interval_verdict(
    rec: RealComparer,
    left: FitnessInterval,
    right: FitnessInterval,
    direction: FitnessDirection,
) -> FitnessIntervalComparison {
    let left_valid = bounds_validity(at(rec, 0), left);
    let right_valid = bounds_validity(at(rec, 1), right);
    if left_valid == Some(false) || right_valid == Some(false) {
        FitnessIntervalComparison::InvalidBounds
    } else if left_valid != Some(true) || right_valid != Some(true) {
        FitnessIntervalComparison::Unknown
    } else if real_same_form(left.lower, right.lower) && real_same_form(left.upper, right.upper) {
        FitnessIntervalComparison::Equal
    } else {
        let lower_against_upper = at(rec, 2)(Seq::<int>::empty(), left.lower, right.upper);
        let upper_against_lower = at(rec, 3)(Seq::<int>::empty(), left.upper, right.lower);
        match direction {
            FitnessDirection::Minimize => if upper_against_lower == Some(RealOrder::Less) {
                FitnessIntervalComparison::Better
            } else if lower_against_upper == Some(RealOrder::Greater) {
                FitnessIntervalComparison::Worse
            } else if upper_against_lower is None || lower_against_upper is None {
                FitnessIntervalComparison::Unknown
            } else {
                FitnessIntervalComparison::Overlapping
            },
            FitnessDirection::Maximize => if lower_against_upper == Some(RealOrder::Greater) {
                FitnessIntervalComparison::Better
            } else if upper_against_lower == Some(RealOrder::Less) {
                FitnessIntervalComparison::Worse
            } else if lower_against_upper is None || upper_against_lower is None {
                FitnessIntervalComparison::Unknown
            } else {
                FitnessIntervalComparison::Overlapping
            },
        }
    }
}

/// The total comparison of two fitness values: scalars and lexicographic
/// vectors of one length compare exactly, intervals by strict separation,
/// everything else is `Unknown`.
pub open spec fn total_verdict(
    rec: RealComparer,
    left: FitnessValueView,
    right: FitnessValueView,
    direction: FitnessDirection,
) -> FitnessComparison {
    match (left, right) {
        (FitnessValueView::Scalar(l), FitnessValueView::Scalar(r)) => real_verdict(rec, l, r, direction),
        (FitnessValueView::Lexicographic(l), FitnessValueView::Lexicographic(r)) => {
            if l.len() != r.len() {
                FitnessComparison::Unknown
            } else {
                lexicographic_verdict(rec, l, r, direction, 0)
            }
        },
        (FitnessValueView::Interval(l), FitnessValueView::Interval(r)) => {
            match interval_verdict(rec, l, r, direction) {
                FitnessIntervalComparison::Better => FitnessComparison::Better,
                FitnessIntervalComparison::Worse => FitnessComparison::Worse,
                FitnessIntervalComparison::Equal => FitnessComparison::Equal,
                _ => FitnessComparison::Unknown,
            }
        },
        _ => FitnessComparison::Unknown,
    }
}

/// Whether some objective of two same-length vectors gives `verdict`;
/// objective `i` is compared in part `i` of the record.
pub open spec fn some_objective(
    rec: RealComparer,
    left: Seq<Real>,
    right: Seq<Real>,
    direction: FitnessDirection,
    verdict: FitnessComparison,
) -> bool {
    exists|i: int| 0 <= i < left.len() && #[trigger] real_verdict(at(rec, i), left[i], right[i], direction) == verdict
}

/// The Pareto relation of two fitness values: only Pareto vectors of one
/// length are related; an undecided objective makes the relation `Unknown`.
pub open spec fn pareto_verdict(
    rec: RealComparer,
    left: FitnessValueView,
    right: FitnessValueView,
    direction: FitnessDirection,
) -> ParetoRelation {
    match (left, right) {
        (FitnessValueView::Pareto(l), FitnessValueView::Pareto(r)) => {
            if l.len() != r.len() {
                ParetoRelation::Unknown
            } else if some_objective(rec, l, r, direction, FitnessComparison::Unknown) {
                ParetoRelation::Unknown
            } else {
                let better = some_objective(rec, l, r, direction, FitnessComparison::Better);
                let worse = some_objective(rec, l, r, direction, FitnessComparison::Worse);
                if better && worse {
                    ParetoRelation::NonDominated
                } else if better {
                    ParetoRelation::Dominates
                } else if worse {
                    ParetoRelation::Dominated
                } else {
                    ParetoRelation::Equal
                }
            }
        },
        _ => ParetoRelation::Unknown,
    }
}

/// A verdict that some sound run of certified comparisons gives two reals.
pub open spec fn real_possible(left: Real, right: Real, direction: FitnessDirection, verdict: FitnessComparison) -> bool {
    exists|rec: RealComparer| comparer_sound(rec) && verdict == #[trigger] real_verdict(rec, left, right, direction)
}

/// A total verdict that some sound run of certified comparisons gives.
pub open spec fn total_possible(
    left: FitnessValueView,
    right: FitnessValueView,
    direction: FitnessDirection,
    verdict: FitnessComparison,
) -> bool {
    exists|rec: RealComparer| comparer_sound(rec) && verdict == #[trigger] total_verdict(rec, left, right, direction)
}

/// A Pareto relation that some sound run of certified comparisons gives.
pub open spec fn pareto_possible(
    left: FitnessValueView,
    right: FitnessValueView,
    direction: FitnessDirection,
    relation: ParetoRelation,
) -> bool {
    exists|rec: RealComparer| comparer_sound(rec) && relation == #[trigger] pareto_verdict(rec, left, right, direction)
}

/// A bounds check that some sound certified comparison gives.
pub open spec fn bounds_possible(interval: FitnessInterval, valid: Option<bool>) -> bool {
    exists|rec: RealComparer| comparer_sound(rec) && valid == #[trigger] bounds_validity(rec, interval)
}

/// An interval comparison that some sound run of certified comparisons gives.
pub open spec fn interval_possible(
    left: FitnessInterval,
    right: FitnessInterval,
    direction: FitnessDirection,
    verdict: FitnessIntervalComparison,
) -> bool {
    exists|rec: RealComparer| comparer_sound(rec) && verdict == #[trigger] interval_verdict(rec, left, right, direction)
}

proof fn lemma_lexicographic_prefix(
    rec: RealComparer,
    left: Seq<Real>,
    right: Seq<Real>,
    direction: FitnessDirection,
    from: int,
    to: int,
)
    requires
        0 <= from <= to <= left.len(),
        forall|j: int| from <= j < to ==> #[trigger] real_verdict(at(rec, j), left[j], right[j], direction)
            == FitnessComparison::Equal,
    ensures
        lexicographic_verdict(rec, left, right, direction, from) == lexicographic_verdict(rec, left, right, direction, to),
    decreases to - from,
{
    if from < to {
        lemma_lexicographic_prefix(rec, left, right, direction, from + 1, to);
    }
}

/// The record of four comparisons, one in each of the parts `0` to `3`.
pub open spec fn four_parts(c0: RealComparer, c1: RealComparer, c2: RealComparer, c3: RealComparer) -> RealComparer {
    graft(graft(graft(graft(settled(), 0, c0), 1, c1), 2, c2), 3, c3)
}

pub proof fn lemma_four_parts(c0: RealComparer, c1: RealComparer, c2: RealComparer, c3: RealComparer)
    requires
        comparer_sound(c0),
        comparer_sound(c1),
        comparer_sound(c2),
        comparer_sound(c3),
    ensures
        comparer_sound(four_parts(c0, c1, c2, c3)),
        at(four_parts(c0, c1, c2, c3), 0) == c0,
        at(four_parts(c0, c1, c2, c3), 1) == c1,
        at(four_parts(c0, c1, c2, c3), 2) == c2,
        at(four_parts(c0, c1, c2, c3), 3) == c3,
{
    lemma_settled_sound();
    let g0 = graft(settled(), 0, c0);
    lemma_graft(settled(), 0, c0);
    let g1 = graft(g0, 1, c1);
    lemma_graft(g0, 1, c1);
    let g2 = graft(g1, 2, c2);
    lemma_graft(g1, 2, c2);
    lemma_graft(g2, 3, c3);
    assert(at(g1, 0) == c0);
    assert(at(g2, 0) == c0 && at(g2, 1) == c1);
}

/// Compares two exact reals under an objective direction.
pub(crate) fn compare_real(left: &Real, right: &Real, direction: FitnessDirection) -> (verdict: FitnessComparison)
    ensures
        real_possible(*left, *right, direction, verdict),
{
    let order = compare_reals(left, right);
    proof {
        lemma_answering_sound(*left, *right, order);
    }
    let verdict = match order {
        Some(RealOrder::Less) => match direction {
            FitnessDirection::Minimize => FitnessComparison::Better,
            FitnessDirection::Maximize => FitnessComparison::Worse,
        },
        Some(RealOrder::Greater) => match direction {
            FitnessDirection::Minimize => FitnessComparison::Worse,
            FitnessDirection::Maximize => FitnessComparison::Better,
        },
        Some(RealOrder::Equal) => FitnessComparison::Equal,
        None => FitnessComparison::Unknown,
    };
    assert(verdict == real_verdict(answering(*left, *right, order), *left, *right, direction));
    verdict
}

impl FitnessValue {
    /// Compares scalar or lexicographic values exactly; the verdict is the
    /// one that the certified comparisons it made lead to.
    pub fn compare_total(&self, other: &Self, direction: FitnessDirection) -> (verdict: FitnessComparison)
        ensures
            total_possible(self@, other@, direction, verdict),
    {
        match (self, other) {
            (FitnessValue::Scalar(left), FitnessValue::Scalar(right)) => {
                let verdict = compare_real(left, right, direction);
                proof {
                    let c = choose|c: RealComparer| comparer_sound(c) && verdict == #[trigger] real_verdict(
                        c,
                        **left,
                        **right,
                        direction,
                    );
                    assert(verdict == total_verdict(c, self@, other@, direction));
                }
                verdict
            },
            (FitnessValue::Lexicographic(left), FitnessValue::Lexicographic(right)) => {
                if left.len() != right.len() {
                    proof {
                        lemma_settled_sound();
                        assert(FitnessComparison::Unknown == total_verdict(settled(), self@, other@, direction));
                    }
                    return FitnessComparison::Unknown;
                }
                let ghost mut rec: RealComparer = settled();
                proof {
                    lemma_settled_sound();
                }
                let mut i: usize = 0;
                while i < left.len()
                    invariant
                        self@ == FitnessValueView::Lexicographic(left@),
                        other@ == FitnessValueView::Lexicographic(right@),
                        left.len() == right.len(),
                        i <= left.len(),
                        comparer_sound(rec),
                        forall|j: int| 0 <= j < i ==> #[trigger] real_verdict(at(rec, j), left@[j], right@[j], direction)
                            == FitnessComparison::Equal,
                    decreases left.len() - i,
                {
                    let verdict = compare_real(&left[i], &right[i], direction);
                    proof {
                        let c = choose|c: RealComparer| comparer_sound(c) && verdict == #[trigger] real_verdict(
                            c,
                            left@[i as int],
                            right@[i as int],
                            direction,
                        );
                        lemma_graft(rec, i as int, c);
                        let next = graft(rec, i as int, c);
                        assert forall|j: int| 0 <= j < i implies #[trigger] real_verdict(
                            at(next, j),
                            left@[j],
                            right@[j],
                            direction,
                        ) == FitnessComparison::Equal by {
                            assert(at(next, j) == at(rec, j));
                        }
                        rec = next;
                        assert(real_verdict(at(rec, i as int), left@[i as int], right@[i as int], direction) == verdict);
                    }
                    if verdict != FitnessComparison::Equal {
                        proof {
                            lemma_lexicographic_prefix(rec, left@, right@, direction, 0, i as int);
                            assert(verdict == total_verdict(rec, self@, other@, direction));
                        }
                        return verdict;
                    }
                    i += 1;
                }
                proof {
                    lemma_lexicographic_prefix(rec, left@, right@, direction, 0, left@.len() as int);
                    assert(FitnessComparison::Equal == total_verdict(rec, self@, other@, direction));
                }
                FitnessComparison::Equal
            },
            (FitnessValue::Interval(left), FitnessValue::Interval(right)) => {
                let outcome = left.compare(right, direction);
                let verdict = match outcome {
                    FitnessIntervalComparison::Better => FitnessComparison::Better,
                    FitnessIntervalComparison::Worse => FitnessComparison::Worse,
                    FitnessIntervalComparison::Equal => FitnessComparison::Equal,
                    FitnessIntervalComparison::Overlapping => FitnessComparison::Unknown,
                    FitnessIntervalComparison::InvalidBounds => FitnessComparison::Unknown,
                    FitnessIntervalComparison::Unknown => FitnessComparison::Unknown,
                };
                proof {
                    let c = choose|c: RealComparer| comparer_sound(c) && outcome == #[trigger] interval_verdict(
                        c,
                        **left,
                        **right,
                        direction,
                    );
                    assert(verdict == total_verdict(c, self@, other@, direction));
                }
                verdict
            },
            _ => {
                proof {
                    lemma_settled_sound();
                    assert(FitnessComparison::Unknown == total_verdict(settled(), self@, other@, direction));
                }
                FitnessComparison::Unknown
            },
        }
    }

    /// Compares Pareto vectors exactly under a shared objective direction;
    /// the relation is the one that the certified comparisons it made lead to.
    pub fn compare_pareto(&self, other: &Self, direction: FitnessDirection) -> (relation: ParetoRelation)
        ensures
            pareto_possible(self@, other@, direction, relation),
    {
        proof {
            lemma_settled_sound();
        }
        let (left, right) = match (self, other) {
            (FitnessValue::Pareto(left), FitnessValue::Pareto(right)) => (left, right),
            _ => {
                assert(ParetoRelation::Unknown == pareto_verdict(settled(), self@, other@, direction));
                return ParetoRelation::Unknown;
            },
        };
        if left.len() != right.len() {
            assert(ParetoRelation::Unknown == pareto_verdict(settled(), self@, other@, direction));
            return ParetoRelation::Unknown;
        }
        let ghost mut rec: RealComparer = settled();
        let mut better = false;
        let mut worse = false;
        let mut i: usize = 0;
        while i < left.len()
            invariant
                self@ == FitnessValueView::Pareto(left@),
                other@ == FitnessValueView::Pareto(right@),
                left.len() == right.len(),
                i <= left.len(),
                comparer_sound(rec),
                better == some_objective(rec, left@.subrange(0, i as int), right@.subrange(0, i as int), direction, FitnessComparison::Better),
                worse == some_objective(rec, left@.subrange(0, i as int), right@.subrange(0, i as int), direction, FitnessComparison::Worse),
                !some_objective(rec, left@.subrange(0, i as int), right@.subrange(0, i as int), direction, FitnessComparison::Unknown),
            decreases left.len() - i,
        {
            let verdict = compare_real(&left[i], &right[i], direction);
            let ghost l = left@.subrange(0, i as int);
            let ghost r = right@.subrange(0, i as int);
            let ghost l1 = left@.subrange(0, i + 1);
            let ghost r1 = right@.subrange(0, i + 1);
            let ghost before = rec;
            proof {
                let c = choose|c: RealComparer| comparer_sound(c) && verdict == #[trigger] real_verdict(
                    c,
                    left@[i as int],
                    right@[i as int],
                    direction,
                );
                lemma_graft(before, i as int, c);
                rec = graft(before, i as int, c);
                assert forall|v: FitnessComparison|
                    some_objective(rec, l1, r1, direction, v) <==> (some_objective(before, l, r, direction, v)
                        || verdict == v) by {
                    if some_objective(rec, l1, r1, direction, v) {
                        let j = choose|j: int| 0 <= j < l1.len() && #[trigger] real_verdict(at(rec, j), l1[j], r1[j], direction) == v;
                        if j < i {
                            assert(l1[j] == l[j] && r1[j] == r[j]);
                            assert(at(rec, j) == at(before, j));
                        }
                    }
                    if some_objective(before, l, r, direction, v) {
                        let j = choose|j: int| 0 <= j < l.len() && #[trigger] real_verdict(at(before, j), l[j], r[j], direction) == v;
                        assert(l1[j] == l[j] && r1[j] == r[j]);
                        assert(at(rec, j) == at(before, j));
                    }
                    if verdict == v {
                        assert(l1[i as int] == left@[i as int] && r1[i as int] == right@[i as int]);
                        assert(real_verdict(at(rec, i as int), l1[i as int], r1[i as int], direction) == v);
                    }
                }
            }
            match verdict {
                FitnessComparison::Better => better = true,
                FitnessComparison::Worse => worse = true,
                FitnessComparison::Equal => {},
                FitnessComparison::Unknown => {
                    proof {
                        assert(some_objective(rec, l1, r1, direction, FitnessComparison::Unknown));
                        let j = choose|j: int| 0 <= j < l1.len() && #[trigger] real_verdict(at(rec, j), l1[j], r1[j], direction)
                            == FitnessComparison::Unknown;
                        assert(l1[j] == left@[j] && r1[j] == right@[j]);
                        assert(some_objective(rec, left@, right@, direction, FitnessComparison::Unknown));
                        assert(ParetoRelation::Unknown == pareto_verdict(rec, self@, other@, direction));
                    }
                    return ParetoRelation::Unknown;
                },
            }
            i += 1;
        }
        proof {
            assert(left@.subrange(0, left.len() as int) =~= left@);
            assert(right@.subrange(0, right.len() as int) =~= right@);
        }
        let relation = if better && worse {
            ParetoRelation::NonDominated
        } else if better {
            ParetoRelation::Dominates
        } else if worse {
            ParetoRelation::Dominated
        } else {
            ParetoRelation::Equal
        };
        assert(relation == pareto_verdict(rec, self@, other@, direction));
        relation
    }

    /// A copy of this value with the same content.
    pub(crate) fn duplicate(&self) -> (copy: Self)
        ensures
            copy@ == self@,
    {
        match self {
            FitnessValue::Scalar(value) => FitnessValue::Scalar(Box::new((**value).clone())),
            FitnessValue::Lexicographic(values) => FitnessValue::Lexicographic(copy_reals(values)),
            FitnessValue::Pareto(values) => FitnessValue::Pareto(copy_reals(values)),
            FitnessValue::Interval(interval) => FitnessValue::Interval(Box::new(interval.duplicate())),
        }
    }
}

impl FitnessInterval {
    /// Creates an exact interval enclosure.
    pub fn new(lower: Real, upper: Real) -> (interval: Self)
        ensures
            interval.lower == lower,
            interval.upper == upper,
    {
        FitnessInterval { lower, upper }
    }

    /// Returns `Some(true)` when `lower <= upper` is certified, `Some(false)`
    /// when `lower > upper` is certified, and `None` when the certified
    /// comparison could not decide.
    pub fn has_valid_bounds(&self) -> (valid: Option<bool>)
        ensures
            bounds_possible(*self, valid),
    {
        let order = compare_reals(&self.lower, &self.upper);
        proof {
            lemma_answering_sound(self.lower, self.upper, order);
        }
        let valid = match order {
            Some(RealOrder::Less) => Some(true),
            Some(RealOrder::Equal) => Some(true),
            Some(RealOrder::Greater) => Some(false),
            None => None,
        };
        assert(valid == bounds_validity(answering(self.lower, self.upper, order), *self));
        valid
    }

    /// Compares two interval enclosures without midpoint or float fallback.
    ///
    /// For minimization, `self` is strictly better only when its upper endpoint
    /// is certified less than the other's lower endpoint. For maximization, the
    /// direction is reversed. Overlapping intervals return `Overlapping`.
    pub fn compare(&self, other: &Self, direction: FitnessDirection) -> (verdict: FitnessIntervalComparison)
        ensures
            interval_possible(*self, *other, direction, verdict),
    {
        let left_valid = self.has_valid_bounds();
        let right_valid = other.has_valid_bounds();
        let ghost c0 = choose|c: RealComparer| comparer_sound(c) && left_valid == #[trigger] bounds_validity(c, *self);
        let ghost c1 = choose|c: RealComparer| comparer_sound(c) && right_valid == #[trigger] bounds_validity(c, *other);
        proof {
            lemma_settled_sound();
            lemma_four_parts(c0, c1, settled(), settled());
        }
        if left_valid == Some(false) || right_valid == Some(false) {
            assert(interval_verdict(four_parts(c0, c1, settled(), settled()), *self, *other, direction)
                == FitnessIntervalComparison::InvalidBounds);
            return FitnessIntervalComparison::InvalidBounds;
        }
        if left_valid != Some(true) || right_valid != Some(true) {
            assert(interval_verdict(four_parts(c0, c1, settled(), settled()), *self, *other, direction)
                == FitnessIntervalComparison::Unknown);
            return FitnessIntervalComparison::Unknown;
        }
        if same_form(&self.lower, &other.lower) && same_form(&self.upper, &other.upper) {
            assert(interval_verdict(four_parts(c0, c1, settled(), settled()), *self, *other, direction)
                == FitnessIntervalComparison::Equal);
            return FitnessIntervalComparison::Equal;
        }
        let lower_against_upper = compare_reals(&self.lower, &other.upper);
        let upper_against_lower = compare_reals(&self.upper, &other.lower);
        let ghost c2 = answering(self.lower, other.upper, lower_against_upper);
        let ghost c3 = answering(self.upper, other.lower, upper_against_lower);
        let ghost rec = four_parts(c0, c1, c2, c3);
        proof {
            lemma_answering_sound(self.lower, other.upper, lower_against_upper);
            lemma_answering_sound(self.upper, other.lower, upper_against_lower);
            lemma_four_parts(c0, c1, c2, c3);
            assert(at(rec, 2)(Seq::<int>::empty(), self.lower, other.upper) == lower_against_upper);
            assert(at(rec, 3)(Seq::<int>::empty(), self.upper, other.lower) == upper_against_lower);
        }
        let verdict = match direction {
            FitnessDirection::Minimize => {
                if upper_against_lower == Some(RealOrder::Less) {
                    FitnessIntervalComparison::Better
                } else if lower_against_upper == Some(RealOrder::Greater) {
                    FitnessIntervalComparison::Worse
                } else if upper_against_lower.is_none() || lower_against_upper.is_none() {
                    FitnessIntervalComparison::Unknown
                } else {
                    FitnessIntervalComparison::Overlapping
                }
            },
            FitnessDirection::Maximize => {
                if lower_against_upper == Some(RealOrder::Greater) {
                    FitnessIntervalComparison::Better
                } else if upper_against_lower == Some(RealOrder::Less) {
                    FitnessIntervalComparison::Worse
                } else if lower_against_upper.is_none() || upper_against_lower.is_none() {
                    FitnessIntervalComparison::Unknown
                } else {
                    FitnessIntervalComparison::Overlapping
                }
            },
        };
        assert(verdict == interval_verdict(rec, *self, *other, direction));
        verdict
    }

    /// A copy of this interval with the same endpoints.
    pub(crate) fn duplicate(&self) -> (copy: Self)
        ensures
            copy == *self,
    {
        FitnessInterval { lower: self.lower.clone(), upper: self.upper.clone() }
    }
}

/// Copies a list of strings.
pub(crate) fn copy_strings(strings: &Vec<String>) -> (copy: Vec<String>)
    ensures
        copy@ == strings@,
{
    let mut copy: Vec<String> = Vec::new();
    let mut i: usize = 0;
    while i < strings.len()
        invariant
            i <= strings.len(),
            copy@ == strings@.subrange(0, i as int),
        decreases strings.len() - i,
    {
        copy.push(strings[i].clone());
        i += 1;
    }
    proof {
        assert(strings@.subrange(0, strings.len() as int) =~= strings@);
    }
    copy
}

impl FitnessReport {
    /// A copy of this report with the same content.
    pub(crate) fn duplicate(&self) -> (copy: Self)
        ensures
            copy@ == self@,
    {
        FitnessReport {
            candidate: self.candidate.duplicate(),
            value: self.value.duplicate(),
            replay: self.replay,
            evidence: copy_strings(&self.evidence),
        }
    }
}

} // verus!
