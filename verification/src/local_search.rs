//! Simulated-annealing classification and deterministic exact hill climbing.
//!
//! Exact improvements and ties are decided from certified comparisons; worse
//! moves stay a named probabilistic proposal. The hill climber scans one-step
//! neighbors in a fixed order and accepts only replay-accepted, certified
//! improvements (or ties, when plateau moves are enabled).

use crate::exact::{
    add_reals, answering, at, comparer_sound, compare_reals, copy_reals, graft, lemma_answering_sound, lemma_at_sound,
    lemma_graft, lemma_settled_sound, negate_real, real_from_integer, real_negation, real_of_integer, real_sum, settled,
    RealComparer, RealOrder,
};
use crate::fitness::{
    four_parts, lemma_four_parts, total_verdict, FitnessComparison, FitnessDirection, FitnessReport, FitnessReportView,
    FitnessValue, FitnessValueView,
};
use crate::identity::CandidateId;
use crate::search::{
    genes_equal, genes_identical, report_views, Candidate, CandidateView, Genome, ReplayStatus,
};
use hyperreal::Real;
use vstd::prelude::*;

verus! {

/// Simulated annealing proposal schedule.
#[derive(Clone, Debug, PartialEq)]
pub struct SimulatedAnnealingPolicy {
    /// Initial exact temperature surrogate.
    pub initial_temperature: Real,
    /// Cooling ratio as an exact scalar.
    pub cooling_ratio: Real,
}

/// Report-bearing simulated-annealing acceptance decision.
///
/// Better exact/certified neighbors are accepted deterministically. Worse
/// neighbors require a probabilistic proposal stage.
#[derive(Clone, Copy, Debug, PartialEq, Eq, Structural)]
pub enum AnnealingAcceptance {
    /// Neighbor is exactly better and can be accepted.
    AcceptImprovement,
    /// Neighbor ties exactly and can be accepted as a plateau move.
    AcceptEqual,
    /// Neighbor is worse; a named probabilistic proposal stage is required.
    RequiresProbabilisticProposal,
    /// Neighbor replay did not certify acceptance.
    RejectUncertifiedReplay,
    /// Fitness comparison was unknown or unsupported.
    UnknownComparison,
    /// Temperature or cooling data is outside the exact supported domain.
    InvalidSchedule,
}

/// Whether a certified answer says `left <= right`.
pub open spec fn answered_at_most(order: Option<RealOrder>) -> bool {
    order == Some(RealOrder::Less) || order == Some(RealOrder::Equal)
}

/// Whether a schedule was certified to lie outside the supported domain: a
/// temperature certified `<= 0` (part `0` of the record), or a cooling ratio
/// certified `<= 0` (part `1`) or `> 1` (part `2`).
pub open spec fn schedule_is_invalid(rec: RealComparer, policy: SimulatedAnnealingPolicy) -> bool {
    answered_at_most(at(rec, 0)(Seq::<int>::empty(), policy.initial_temperature, real_of_integer(0)))
        || answered_at_most(at(rec, 1)(Seq::<int>::empty(), policy.cooling_ratio, real_of_integer(0)))
        || at(rec, 2)(Seq::<int>::empty(), policy.cooling_ratio, real_of_integer(1)) == Some(RealOrder::Greater)
}

/// The annealing decision for a neighbor against the current report; the
/// fitness comparison is in part `3` of the record.
pub open spec fn annealing_decision(
    rec: RealComparer,
    current: FitnessReportView,
    neighbor: FitnessReportView,
    policy: SimulatedAnnealingPolicy,
    direction: FitnessDirection,
) -> AnnealingAcceptance {
    if schedule_is_invalid(rec, policy) {
        AnnealingAcceptance::InvalidSchedule
    } else if neighbor.replay != ReplayStatus::Accepted {
        AnnealingAcceptance::RejectUncertifiedReplay
    } else {
        match total_verdict(at(rec, 3), neighbor.value, current.value, direction) {
            FitnessComparison::Better => AnnealingAcceptance::AcceptImprovement,
            FitnessComparison::Equal => AnnealingAcceptance::AcceptEqual,
            FitnessComparison::Worse => AnnealingAcceptance::RequiresProbabilisticProposal,
            FitnessComparison::Unknown => AnnealingAcceptance::UnknownComparison,
        }
    }
}

/// Classifies one simulated-annealing neighbor acceptance decision.
///
/// No `exp(-delta / T)` is approximated: exact improvements and ties are
/// accepted, worse accepted-replay neighbors are routed to a probabilistic
/// proposal stage, and a cooling ratio must lie in `(0, 1]`. The decision is
/// the one that the certified comparisons it made lead to.
pub fn classify_simulated_annealing_neighbor(
    current: &FitnessReport,
    neighbor: &FitnessReport,
    policy: &SimulatedAnnealingPolicy,
    direction: FitnessDirection,
) -> (decision: AnnealingAcceptance)
    ensures
        exists|rec: RealComparer|
            comparer_sound(rec) && decision == #[trigger] annealing_decision(rec, current@, neighbor@, *policy, direction),
{
    let zero = real_from_integer(0);
    let one = real_from_integer(1);
    let temperature_order = compare_reals(&policy.initial_temperature, &zero);
    let ratio_against_zero = compare_reals(&policy.cooling_ratio, &zero);
    let ratio_against_one = compare_reals(&policy.cooling_ratio, &one);
    let ghost c0 = answering(policy.initial_temperature, zero, temperature_order);
    let ghost c1 = answering(policy.cooling_ratio, zero, ratio_against_zero);
    let ghost c2 = answering(policy.cooling_ratio, one, ratio_against_one);
    proof {
        lemma_answering_sound(policy.initial_temperature, zero, temperature_order);
        lemma_answering_sound(policy.cooling_ratio, zero, ratio_against_zero);
        lemma_answering_sound(policy.cooling_ratio, one, ratio_against_one);
        lemma_settled_sound();
        lemma_four_parts(c0, c1, c2, settled());
    }
    if temperature_order == Some(RealOrder::Less) || temperature_order == Some(RealOrder::Equal)
        || ratio_against_zero == Some(RealOrder::Less) || ratio_against_zero == Some(RealOrder::Equal)
        || ratio_against_one == Some(RealOrder::Greater)
    {
        assert(annealing_decision(four_parts(c0, c1, c2, settled()), current@, neighbor@, *policy, direction)
            == AnnealingAcceptance::InvalidSchedule);
        return AnnealingAcceptance::InvalidSchedule;
    }
    if neighbor.replay != ReplayStatus::Accepted {
        assert(annealing_decision(four_parts(c0, c1, c2, settled()), current@, neighbor@, *policy, direction)
            == AnnealingAcceptance::RejectUncertifiedReplay);
        return AnnealingAcceptance::RejectUncertifiedReplay;
    }
    let verdict = neighbor.value.compare_total(&current.value, direction);
    let ghost c3 = choose|c: RealComparer| comparer_sound(c) && verdict == #[trigger] total_verdict(
        c,
        neighbor@.value,
        current@.value,
        direction,
    );
    proof {
        lemma_four_parts(c0, c1, c2, c3);
    }
    let decision = match verdict {
        FitnessComparison::Better => AnnealingAcceptance::AcceptImprovement,
        FitnessComparison::Equal => AnnealingAcceptance::AcceptEqual,
        FitnessComparison::Worse => AnnealingAcceptance::RequiresProbabilisticProposal,
        FitnessComparison::Unknown => AnnealingAcceptance::UnknownComparison,
    };
    assert(decision == annealing_decision(four_parts(c0, c1, c2, c3), current@, neighbor@, *policy, direction));
    decision
}

/// Hill-climbing proposal policy.
#[derive(Clone, Debug, PartialEq)]
pub struct HillClimbPolicy {
    /// Exact step size.
    pub step: Real,
    /// Maximum proposal count.
    pub max_steps: usize,
    /// Improvement scan strategy.
    pub strategy: HillClimbStrategy,
    /// Whether exact ties may be accepted as plateau moves.
    pub accept_equal_plateau: bool,
    /// Number of recent genomes excluded from revisiting.
    pub tabu_memory: usize,
}

/// Deterministic hill-climb scan strategy.
#[derive(Clone, Copy, Debug, PartialEq, Eq, Structural)]
pub enum HillClimbStrategy {
    /// Accept the first exact improvement in deterministic neighbor order.
    FirstImprovement,
    /// Evaluate all one-step neighbors and accept the best exact improvement.
    BestImprovement,
}

/// Reason a hill-climb run stopped.
#[derive(Clone, Copy, Debug, PartialEq, Eq, Structural)]
pub enum HillClimbStopReason {
    /// No exact accepted neighbor improved the current candidate.
    LocalOptimum,
    /// The configured proposal limit was reached.
    BudgetExhausted,
    /// The initial candidate did not replay as accepted.
    InitialReplayRejected,
    /// The initial fitness could not participate in exact total comparison.
    InitialFitnessUnsupported,
}

/// Report from deterministic exact hill climbing.
#[derive(Clone, Debug, PartialEq)]
pub struct HillClimbReport {
    /// Starting candidate.
    pub initial: Candidate,
    /// Final candidate after accepted moves.
    pub final_candidate: Candidate,
    /// Final fitness report.
    pub final_fitness: FitnessReport,
    /// Stopping reason.
    pub reason: HillClimbStopReason,
    /// Number of neighbor evaluations performed.
    pub evaluations: usize,
    /// Number of accepted moves.
    pub accepted_steps: usize,
    /// Fitness reports for accepted candidates, including the initial report.
    pub accepted_reports: Vec<FitnessReport>,
}

impl HillClimbPolicy {
    /// Builds a first-improvement hill-climb policy with no plateau or tabu memory.
    pub fn first_improvement(step: Real, max_steps: usize) -> (policy: Self)
        ensures
            policy.step == step,
            policy.max_steps == max_steps,
            policy.strategy == HillClimbStrategy::FirstImprovement,
            !policy.accept_equal_plateau,
            policy.tabu_memory == 0,
    {
        HillClimbPolicy {
            step,
            max_steps,
            strategy: HillClimbStrategy::FirstImprovement,
            accept_equal_plateau: false,
            tabu_memory: 0,
        }
    }

    /// Builds a best-improvement hill-climb policy with no plateau or tabu memory.
    pub fn best_improvement(step: Real, max_steps: usize) -> (policy: Self)
        ensures
            policy.step == step,
            policy.max_steps == max_steps,
            policy.strategy == HillClimbStrategy::BestImprovement,
            !policy.accept_equal_plateau,
            policy.tabu_memory == 0,
    {
        HillClimbPolicy {
            step,
            max_steps,
            strategy: HillClimbStrategy::BestImprovement,
            accept_equal_plateau: false,
            tabu_memory: 0,
        }
    }
}

/// The character of a decimal digit.
#[verifier::opaque]
pub open spec fn digit_char(digit: nat) -> char {
    if digit == 0 {
        '0'
    } else if digit == 1 {
        '1'
    } else if digit == 2 {
        '2'
    } else if digit == 3 {
        '3'
    } else if digit == 4 {
        '4'
    } else if digit == 5 {
        '5'
    } else if digit == 6 {
        '6'
    } else if digit == 7 {
        '7'
    } else if digit == 8 {
        '8'
    } else {
        '9'
    }
}

/// The decimal text of a natural number, without leading zeros.
pub open spec fn decimal_digits(value: nat) -> Seq<char>
    decreases value,
{
    if value < 10 {
        seq![digit_char(value)]
    } else {
        decimal_digits(value / 10).push(digit_char(value % 10))
    }
}

/// The id text of a hill-climb neighbor: the parent's id, `:hill:`, the
/// gene index in decimal, `:`, and the move label.
pub open spec fn neighbor_id(base: Seq<char>, gene: nat, label: Seq<char>) -> Seq<char> {
    base + ":hill:"@ + decimal_digits(gene) + ":"@ + label
}

/// Appends the character of one decimal digit.
fn push_digit(text: &mut String, digit: usize)
    requires
        digit < 10,
    ensures
        final(text)@ == old(text)@.push(digit_char(digit as nat)),
{
    let piece = if digit == 0 {
        "0"
    } else if digit == 1 {
        "1"
    } else if digit == 2 {
        "2"
    } else if digit == 3 {
        "3"
    } else if digit == 4 {
        "4"
    } else if digit == 5 {
        "5"
    } else if digit == 6 {
        "6"
    } else if digit == 7 {
        "7"
    } else if digit == 8 {
        "8"
    } else {
        "9"
    };
    proof {
        reveal(digit_char);
        reveal_strlit("0");
        reveal_strlit("1");
        reveal_strlit("2");
        reveal_strlit("3");
        reveal_strlit("4");
        reveal_strlit("5");
        reveal_strlit("6");
        reveal_strlit("7");
        reveal_strlit("8");
        reveal_strlit("9");
        assert(piece@ =~= seq![digit_char(digit as nat)]);
    }
    text.append(piece);
    proof {
        assert(final(text)@ =~= old(text)@.push(digit_char(digit as nat)));
    }
}

/// Appends the decimal digits of `value`, most significant first.
fn push_decimal(text: &mut String, value: usize)
    ensures
        final(text)@ == old(text)@ + decimal_digits(value as nat),
    decreases value,
{
    if value >= 10 {
        push_decimal(text, value / 10);
    }
    push_digit(text, value % 10);
    proof {
        if value >= 10 {
            assert(final(text)@ =~= old(text)@ + decimal_digits(value as nat));
        } else {
            assert(final(text)@ =~= old(text)@ + decimal_digits(value as nat));
        }
    }
}

/// Writes the id of a hill-climb neighbor.
fn neighbor_id_text(base: &str, gene: usize, label: &str) -> (text: String)
    ensures
        text@ == neighbor_id(base@, gene as nat, label@),
{
    let mut text = String::from_str(base);
    text.append(":hill:");
    push_decimal(&mut text, gene);
    text.append(":");
    text.append(label);
    proof {
        assert(text@ =~= neighbor_id(base@, gene as nat, label@));
    }
    text
}

/// The one-step neighbor number `k` of a candidate: neighbor `2 * g`
/// subtracts `step` from gene `g`, neighbor `2 * g + 1` adds it.
pub open spec fn neighbor_view(candidate: CandidateView, step: Real, k: int) -> CandidateView {
    let gene = k / 2;
    let minus = k % 2 == 0;
    let signed_step = if minus { real_negation(step) } else { step };
    CandidateView {
        id: neighbor_id(candidate.id, gene as nat, if minus { "minus"@ } else { "plus"@ }),
        genes: candidate.genes.update(gene, real_sum(candidate.genes[gene], signed_step)),
        proposal_seed: candidate.proposal_seed,
    }
}

/// Builds one-step neighbor number `k` of a candidate.
fn make_neighbor(candidate: &Candidate, step: &Real, k: usize) -> (neighbor: Candidate)
    requires
        k < 2 * candidate.genome.genes@.len(),
    ensures
        neighbor@ == neighbor_view(candidate@, *step, k as int),
{
    let gene = k / 2;
    let minus = k % 2 == 0;
    let signed_step = if minus { negate_real(step) } else { step.clone() };
    let mut genes = copy_reals(&candidate.genome.genes);
    let moved = add_reals(&genes[gene], &signed_step);
    genes.set(gene, moved);
    let label = if minus { "minus" } else { "plus" };
    let text = neighbor_id_text(candidate.id.as_str(), gene, label);
    proof {
        reveal_strlit(":hill:");
        assert(text@.len() >= ":hill:"@.len());
    }
    Candidate {
        id: CandidateId::from_text(text),
        genome: Genome { genes },
        proposal_seed: candidate.proposal_seed,
    }
}

/// Whether a neighbor's report may replace the current one under a record
/// of the comparison: it replayed as accepted and is certified better, or
/// certified equal with plateau moves on.
pub open spec fn acceptable_move(
    rec: RealComparer,
    current: FitnessReportView,
    neighbor: FitnessReportView,
    direction: FitnessDirection,
    accept_equal_plateau: bool,
) -> bool {
    &&& neighbor.replay == ReplayStatus::Accepted
    &&& {
        let verdict = total_verdict(rec, neighbor.value, current.value, direction);
        verdict == FitnessComparison::Better || (accept_equal_plateau && verdict == FitnessComparison::Equal)
    }
}

/// A sound run of the comparison accepted the move.
pub open spec fn accepted_move(
    current: FitnessReportView,
    neighbor: FitnessReportView,
    direction: FitnessDirection,
    accept_equal_plateau: bool,
) -> bool {
    exists|rec: RealComparer|
        comparer_sound(rec) && #[trigger] acceptable_move(rec, current, neighbor, direction, accept_equal_plateau)
}

/// A sound run of the comparison refused the move.
#[verifier::opaque]
pub open spec fn refused_move(
    current: FitnessReportView,
    neighbor: FitnessReportView,
    direction: FitnessDirection,
    accept_equal_plateau: bool,
) -> bool {
    exists|rec: RealComparer|
        comparer_sound(rec) && !#[trigger] acceptable_move(rec, current, neighbor, direction, accept_equal_plateau)
}

fn is_acceptable_neighbor(
    current: &FitnessReport,
    neighbor: &FitnessReport,
    direction: FitnessDirection,
    policy: &HillClimbPolicy,
) -> (acceptable: bool)
    ensures
        exists|rec: RealComparer|
            comparer_sound(rec) && acceptable == #[trigger] acceptable_move(
                rec,
                current@,
                neighbor@,
                direction,
                policy.accept_equal_plateau,
            ),
{
    if neighbor.replay != ReplayStatus::Accepted {
        proof {
            lemma_settled_sound();
        }
        assert(!acceptable_move(settled(), current@, neighbor@, direction, policy.accept_equal_plateau));
        return false;
    }
    let verdict = neighbor.value.compare_total(&current.value, direction);
    let ghost c = choose|c: RealComparer| comparer_sound(c) && verdict == #[trigger] total_verdict(
        c,
        neighbor@.value,
        current@.value,
        direction,
    );
    let acceptable = match verdict {
        FitnessComparison::Better => true,
        FitnessComparison::Equal => policy.accept_equal_plateau,
        FitnessComparison::Worse => false,
        FitnessComparison::Unknown => false,
    };
    assert(acceptable == acceptable_move(c, current@, neighbor@, direction, policy.accept_equal_plateau));
    acceptable
}

/// Whether a fitness value takes part in exact total comparison.
pub open spec fn supports_total_order(value: FitnessValueView) -> bool {
    !(value is Pareto)
}

fn fitness_supports_total_order(value: &FitnessValue) -> (supported: bool)
    ensures
        supported == supports_total_order(value@),
{
    match value {
        FitnessValue::Pareto(_) => false,
        _ => true,
    }
}

/// The gene sequences of a list of genomes.
pub open spec fn genome_views(genomes: Seq<Vec<Real>>) -> Seq<Seq<Real>> {
    genomes.map_values(|g: Vec<Real>| g@)
}

/// Whether a genome was visited recently.
pub open spec fn recently_visited(recent: Seq<Seq<Real>>, genes: Seq<Real>) -> bool {
    exists|i: int| 0 <= i < recent.len() && #[trigger] genes_identical(recent[i], genes)
}

fn recent_contains(recent: &Vec<Vec<Real>>, genes: &Vec<Real>) -> (found: bool)
    ensures
        found == recently_visited(genome_views(recent@), genes@),
{
    let ghost views = genome_views(recent@);
    let mut i: usize = 0;
    while i < recent.len()
        invariant
            views == genome_views(recent@),
            i <= recent@.len(),
            forall|j: int| 0 <= j < i ==> !#[trigger] genes_identical(views[j], genes@),
        decreases recent.len() - i,
    {
        if genes_equal(&recent[i], genes) {
            assert(genes_identical(views[i as int], genes@));
            return true;
        }
        i += 1;
    }
    false
}

/// The evaluator returned, for some candidate with this content, a report
/// that is not an acceptable move from the current report.
pub open spec fn rejected_on_evaluation<F: FnMut(&Candidate) -> FitnessReport>(
    evaluate: F,
    neighbor: CandidateView,
    current_report: FitnessReportView,
    direction: FitnessDirection,
    accept_equal_plateau: bool,
) -> bool {
    exists|c: Candidate, r: FitnessReport|
        #[trigger] call_ensures(evaluate, (&c,), r) && c@ == neighbor && refused_move(
            current_report,
            r@,
            direction,
            accept_equal_plateau,
        )
}

/// Neighbor `k` of the current candidate was passed over: its genome is tabu,
/// or the evaluator's report for it was not an acceptable move.
pub open spec fn passed_over<F: FnMut(&Candidate) -> FitnessReport>(
    evaluate: F,
    tabu: Seq<Seq<Real>>,
    current: CandidateView,
    current_report: FitnessReportView,
    policy: HillClimbPolicy,
    direction: FitnessDirection,
    k: int,
) -> bool {
    recently_visited(tabu, neighbor_view(current, policy.step, k).genes) || rejected_on_evaluation(
        evaluate,
        neighbor_view(current, policy.step, k),
        current_report,
        direction,
        policy.accept_equal_plateau,
    )
}

/// What the scan met at neighbor `j`: `None` when its genome is tabu,
/// otherwise a report that the evaluator returned for it.
pub open spec fn outcome_valid<F: FnMut(&Candidate) -> FitnessReport>(
    evaluate: F,
    tabu: Seq<Seq<Real>>,
    current: CandidateView,
    step: Real,
    j: int,
    outcome: Option<FitnessReport>,
) -> bool {
    match outcome {
        None => recently_visited(tabu, neighbor_view(current, step, j).genes),
        Some(report) => !recently_visited(tabu, neighbor_view(current, step, j).genes) && exists|c: Candidate|
            #[trigger] call_ensures(evaluate, (&c,), report) && c@ == neighbor_view(current, step, j),
    }
}

/// The index that best improvement holds after the first `n` outcomes: an
/// acceptable outcome is taken when nothing is held yet or when it compares
/// `Better` than the one held; ties keep the earlier one. For neighbor `j`,
/// part `0` of part `j` of the record holds the acceptance comparison and
/// part `1` the comparison with the held report.
pub open spec fn best_prefix(
    rec: RealComparer,
    outcomes: Seq<Option<FitnessReport>>,
    current_report: FitnessReportView,
    direction: FitnessDirection,
    accept_equal_plateau: bool,
    n: int,
) -> Option<int>
    decreases n,
{
    if n <= 0 {
        None
    } else {
        let held = best_prefix(rec, outcomes, current_report, direction, accept_equal_plateau, n - 1);
        let step = at(rec, n - 1);
        match outcomes[n - 1] {
            Some(report) => if acceptable_move(at(step, 0), current_report, report@, direction, accept_equal_plateau) {
                match held {
                    None => Some(n - 1),
                    Some(h) => if total_verdict(at(step, 1), report@.value, outcomes[h]->0@.value, direction)
                        == FitnessComparison::Better {
                        Some(n - 1)
                    } else {
                        held
                    },
                }
            } else {
                held
            },
            None => held,
        }
    }
}

/// Best improvement chose neighbor `k`: some run of outcomes over all the
/// neighbors, each one valid, and some sound record of its comparisons lead
/// the best-improvement rule to `k`.
pub open spec fn best_scan_choice<F: FnMut(&Candidate) -> FitnessReport>(
    evaluate: F,
    tabu: Seq<Seq<Real>>,
    from: CandidateView,
    from_report: FitnessReportView,
    to_report: FitnessReportView,
    policy: HillClimbPolicy,
    direction: FitnessDirection,
    k: int,
) -> bool {
    exists|outcomes: Seq<Option<FitnessReport>>, rec: RealComparer|
        #![trigger best_prefix(rec, outcomes, from_report, direction, policy.accept_equal_plateau, (2 * from.genes.len()) as int)]
        {
            &&& comparer_sound(rec)
            &&& outcomes.len() == 2 * from.genes.len()
            &&& forall|j: int| #![trigger outcomes[j]] 0 <= j < outcomes.len() ==> outcome_valid(
                evaluate,
                tabu,
                from,
                policy.step,
                j,
                outcomes[j],
            )
            &&& best_prefix(rec, outcomes, from_report, direction, policy.accept_equal_plateau, (2 * from.genes.len()) as int)
                == Some(k)
            &&& outcomes[k] matches Some(r) && r@ == to_report
        }
}

/// One accepted hill-climb move from `from` to its neighbor number `k`,
/// `to`: the neighbor is not tabu and its report is an acceptable move. Under
/// first improvement every earlier neighbor was passed over; under best
/// improvement the best-improvement rule chose it from the whole scan.
pub open spec fn climb_step<F: FnMut(&Candidate) -> FitnessReport>(
    evaluate: F,
    tabu: Seq<Seq<Real>>,
    from: CandidateView,
    from_report: FitnessReportView,
    to: CandidateView,
    to_report: FitnessReportView,
    policy: HillClimbPolicy,
    direction: FitnessDirection,
    k: int,
) -> bool {
    &&& 0 <= k < 2 * from.genes.len()
    &&& to == neighbor_view(from, policy.step, k)
    &&& !recently_visited(tabu, to.genes)
    &&& accepted_move(from_report, to_report, direction, policy.accept_equal_plateau)
    &&& policy.strategy == HillClimbStrategy::FirstImprovement ==> forall|j: int|
        0 <= j < k ==> #[trigger] passed_over(evaluate, tabu, from, from_report, policy, direction, j)
    &&& policy.strategy == HillClimbStrategy::BestImprovement ==> best_scan_choice(
        evaluate,
        tabu,
        from,
        from_report,
        to_report,
        policy,
        direction,
        k,
    )
}

/// The number of neighbors before `upto` that are not tabu, which is the
/// number of evaluations a scan over them makes.
pub open spec fn scan_cost(tabu: Seq<Seq<Real>>, current: CandidateView, step: Real, upto: int) -> nat
    decreases upto,
{
    if upto <= 0 {
        0
    } else {
        scan_cost(tabu, current, step, upto - 1) + if recently_visited(
            tabu,
            neighbor_view(current, step, upto - 1).genes,
        ) {
            0nat
        } else {
            1nat
        }
    }
}

/// How far a scan that chose neighbor `k` of `count` neighbors went: first
/// improvement stops right after `k`, best improvement scans them all.
pub open spec fn scan_stop(policy: HillClimbPolicy, k: int, count: int) -> int {
    if policy.strategy == HillClimbStrategy::FirstImprovement {
        k + 1
    } else {
        count
    }
}

proof fn lemma_best_prefix_push(
    rec: RealComparer,
    outcomes: Seq<Option<FitnessReport>>,
    extra: Option<FitnessReport>,
    current_report: FitnessReportView,
    direction: FitnessDirection,
    accept_equal_plateau: bool,
    n: int,
)
    requires
        0 <= n <= outcomes.len(),
    ensures
        best_prefix(rec, outcomes.push(extra), current_report, direction, accept_equal_plateau, n) == best_prefix(
            rec,
            outcomes,
            current_report,
            direction,
            accept_equal_plateau,
            n,
        ),
        best_prefix(rec, outcomes, current_report, direction, accept_equal_plateau, n) matches Some(h) ==> 0 <= h < n
            && outcomes[h] is Some,
    decreases n,
{
    if n > 0 {
        lemma_best_prefix_push(rec, outcomes, extra, current_report, direction, accept_equal_plateau, n - 1);
        assert(outcomes.push(extra)[n - 1] == outcomes[n - 1]);
        let held = best_prefix(rec, outcomes, current_report, direction, accept_equal_plateau, n - 1);
        if let Some(h) = held {
            assert(outcomes.push(extra)[h] == outcomes[h]);
        }
    }
}

/// The record of one more scan step: part `k` holds the acceptance answers
/// in its part `0` and the replacement answers in its part `1`.
pub open spec fn scan_step_record(previous: RealComparer, k: int, accept: RealComparer, replace: RealComparer) -> RealComparer {
    graft(previous, k, graft(graft(accept, 0, accept), 1, replace))
}

proof fn lemma_scan_step_record(
    previous: RealComparer,
    k: int,
    accept: RealComparer,
    replace: RealComparer,
    outcomes: Seq<Option<FitnessReport>>,
    current_report: FitnessReportView,
    direction: FitnessDirection,
    accept_equal_plateau: bool,
)
    requires
        comparer_sound(previous),
        comparer_sound(accept),
        comparer_sound(replace),
        0 <= k,
    ensures
        comparer_sound(scan_step_record(previous, k, accept, replace)),
        at(at(scan_step_record(previous, k, accept, replace), k), 0) == accept,
        at(at(scan_step_record(previous, k, accept, replace), k), 1) == replace,
        best_prefix(scan_step_record(previous, k, accept, replace), outcomes, current_report, direction, accept_equal_plateau, k)
            == best_prefix(previous, outcomes, current_report, direction, accept_equal_plateau, k),
        outcomes.len() == k + 1 ==> best_prefix(
            scan_step_record(previous, k, accept, replace),
            outcomes,
            current_report,
            direction,
            accept_equal_plateau,
            k + 1,
        ) == match outcomes[k] {
            Some(report) => if acceptable_move(accept, current_report, report@, direction, accept_equal_plateau) {
                match best_prefix(previous, outcomes, current_report, direction, accept_equal_plateau, k) {
                    None => Some(k),
                    Some(h) => if total_verdict(replace, report@.value, outcomes[h]->0@.value, direction)
                        == FitnessComparison::Better {
                        Some(k)
                    } else {
                        Some(h)
                    },
                }
            } else {
                best_prefix(previous, outcomes, current_report, direction, accept_equal_plateau, k)
            },
            None => best_prefix(previous, outcomes, current_report, direction, accept_equal_plateau, k),
        },
{
    lemma_graft(accept, 0, accept);
    let g = graft(accept, 0, accept);
    lemma_graft(g, 1, replace);
    let step_rec = graft(g, 1, replace);
    assert(at(step_rec, 0) == at(g, 0));
    lemma_graft(previous, k, step_rec);
    let rec = graft(previous, k, step_rec);
    assert forall|j: int| 0 <= j < k implies #[trigger] at(rec, j) == at(previous, j) by {}
    lemma_best_prefix_records(rec, previous, outcomes, current_report, direction, accept_equal_plateau, k);
    assert(at(rec, k) == step_rec);
}

proof fn lemma_best_prefix_records(
    r1: RealComparer,
    r2: RealComparer,
    outcomes: Seq<Option<FitnessReport>>,
    current_report: FitnessReportView,
    direction: FitnessDirection,
    accept_equal_plateau: bool,
    n: int,
)
    requires
        forall|j: int| 0 <= j < n ==> #[trigger] at(r1, j) == at(r2, j),
    ensures
        best_prefix(r1, outcomes, current_report, direction, accept_equal_plateau, n) == best_prefix(
            r2,
            outcomes,
            current_report,
            direction,
            accept_equal_plateau,
            n,
        ),
    decreases n,
{
    if n > 0 {
        lemma_best_prefix_records(r1, r2, outcomes, current_report, direction, accept_equal_plateau, n - 1);
        assert(at(r1, n - 1) == at(r2, n - 1));
    }
}

proof fn lemma_best_prefix_acceptable(
    rec: RealComparer,
    outcomes: Seq<Option<FitnessReport>>,
    current_report: FitnessReportView,
    direction: FitnessDirection,
    accept_equal_plateau: bool,
    n: int,
)
    requires
        0 <= n <= outcomes.len(),
        comparer_sound(rec),
    ensures
        best_prefix(rec, outcomes, current_report, direction, accept_equal_plateau, n) matches Some(h) ==> {
            &&& 0 <= h < n
            &&& outcomes[h] matches Some(r) && accepted_move(current_report, r@, direction, accept_equal_plateau)
        },
    decreases n,
{
    if n > 0 {
        lemma_best_prefix_acceptable(rec, outcomes, current_report, direction, accept_equal_plateau, n - 1);
        let step = at(rec, n - 1);
        lemma_at_sound(rec, n - 1);
        lemma_at_sound(step, 0);
        if let Some(report) = outcomes[n - 1] {
            if acceptable_move(at(step, 0), current_report, report@, direction, accept_equal_plateau) {
                assert(accepted_move(current_report, report@, direction, accept_equal_plateau));
            }
        }
    }
}

/// A chosen neighbor and its report make the climb step to some neighbor
/// `k`, for which the scan made `spent` evaluations, and the report is one
/// the evaluator returned for the neighbor.
pub open spec fn choice_valid<F: FnMut(&Candidate) -> FitnessReport>(
    evaluate: F,
    neighbor: Candidate,
    report: FitnessReport,
    tabu: Seq<Seq<Real>>,
    current: CandidateView,
    current_report: FitnessReportView,
    policy: HillClimbPolicy,
    direction: FitnessDirection,
    spent: int,
) -> bool {
    &&& exists|k: int|
        #[trigger] climb_step(evaluate, tabu, current, current_report, neighbor@, report@, policy, direction, k)
            && spent == scan_cost(tabu, current, policy.step, scan_stop(policy, k, (2 * current.genes.len()) as int))
    &&& call_ensures(evaluate, (&neighbor,), report)
}

/// What a neighbor scan hands back, having made `spent` evaluations: a valid
/// choice, or, with no choice, every neighbor passed over and every non-tabu
/// one evaluated.
pub open spec fn scan_result_valid<F: FnMut(&Candidate) -> FitnessReport>(
    evaluate: F,
    selected: Option<(Candidate, FitnessReport)>,
    tabu: Seq<Seq<Real>>,
    current: CandidateView,
    current_report: FitnessReportView,
    policy: HillClimbPolicy,
    direction: FitnessDirection,
    spent: int,
) -> bool {
    if selected is Some {
        choice_valid(
            evaluate,
            selected.unwrap().0,
            selected.unwrap().1,
            tabu,
            current,
            current_report,
            policy,
            direction,
            spent,
        )
    } else {
        &&& forall|k: int|
            0 <= k < 2 * current.genes.len() ==> #[trigger] passed_over(
                evaluate,
                tabu,
                current,
                current_report,
                policy,
                direction,
                k,
            )
        &&& spent == scan_cost(tabu, current, policy.step, (2 * current.genes.len()) as int)
    }
}

/// Scans neighbors in order and stops at the first acceptable one.
fn scan_first_improvement<F>(
    current: &Candidate,
    current_report: &FitnessReport,
    recent: &Vec<Vec<Real>>,
    policy: &HillClimbPolicy,
    direction: FitnessDirection,
    evaluate: &mut F,
    evaluations: &mut usize,
) -> (selected: Option<(Candidate, FitnessReport)>)
    where
        F: FnMut(&Candidate) -> FitnessReport,
    requires
        forall|c: &Candidate| call_requires(*old(evaluate), (c,)),
        *old(evaluations) + 2 * current.genome.genes@.len() <= usize::MAX,
        policy.strategy == HillClimbStrategy::FirstImprovement,
    ensures
        *final(evaluate) == *old(evaluate),
        forall|c: &Candidate| call_requires(*final(evaluate), (c,)),
        *old(evaluations) <= *final(evaluations) <= *old(evaluations) + 2 * current.genome.genes@.len(),
        selected is Some ==> *final(evaluations) > *old(evaluations),
        scan_result_valid(
            *final(evaluate),
            selected,
            genome_views(recent@),
            current@,
            current_report@,
            *policy,
            direction,
            *final(evaluations) - *old(evaluations),
        ),
{
    let ghost tabu = genome_views(recent@);
    let count = 2 * current.genome.genes.len();
    let mut k: usize = 0;
    while k < count
        invariant
            count == 2 * current.genome.genes@.len(),
            k <= count,
            tabu == genome_views(recent@),
            policy.strategy == HillClimbStrategy::FirstImprovement,
            forall|c: &Candidate| call_requires(*evaluate, (c,)),
            *evaluate == *old(evaluate),
            *old(evaluations) <= *evaluations <= *old(evaluations) + k,
            *evaluations == *old(evaluations) + scan_cost(tabu, current@, policy.step, k as int),
            *old(evaluations) + count <= usize::MAX,
            forall|j: int| 0 <= j < k ==> #[trigger] passed_over(
                *evaluate,
                tabu,
                current@,
                current_report@,
                *policy,
                direction,
                j,
            ),
        decreases count - k,
    {
        let neighbor = make_neighbor(current, &policy.step, k);
        if !recent_contains(recent, &neighbor.genome.genes) {
            let report = evaluate(&neighbor);
            *evaluations = *evaluations + 1;
            let acceptable = is_acceptable_neighbor(current_report, &report, direction, policy);
            proof {
                let c = choose|c: RealComparer| comparer_sound(c) && acceptable == #[trigger] acceptable_move(
                    c,
                    current_report@,
                    report@,
                    direction,
                    policy.accept_equal_plateau,
                );
                if acceptable {
                    assert(accepted_move(current_report@, report@, direction, policy.accept_equal_plateau));
                } else {
                    reveal(refused_move);
                    assert(refused_move(current_report@, report@, direction, policy.accept_equal_plateau));
                }
            }
            if acceptable {
                assert(neighbor@ == neighbor_view(current@, policy.step, k as int));
                assert(climb_step(
                    *evaluate,
                    tabu,
                    current@,
                    current_report@,
                    neighbor@,
                    report@,
                    *policy,
                    direction,
                    k as int,
                ));
                assert(!recently_visited(tabu, neighbor_view(current@, policy.step, k as int).genes));
                assert(*evaluations - *old(evaluations) == scan_cost(tabu, current@, policy.step, k + 1));
                assert(scan_stop(*policy, k as int, count as int) == k + 1);
                assert(call_ensures(*evaluate, (&neighbor,), report));
                assert(choice_valid(
                    *evaluate,
                    neighbor,
                    report,
                    tabu,
                    current@,
                    current_report@,
                    *policy,
                    direction,
                    *evaluations - *old(evaluations),
                ));
                return Some((neighbor, report));
            }
            assert(call_ensures(*evaluate, (&neighbor,), report));
            assert(rejected_on_evaluation(
                *evaluate,
                neighbor_view(current@, policy.step, k as int),
                current_report@,
                direction,
                policy.accept_equal_plateau,
            ));
        }
        assert(passed_over(*evaluate, tabu, current@, current_report@, *policy, direction, k as int));
        k += 1;
    }
    None
}

/// Evaluates every neighbor and keeps the best acceptable one; ties keep the
/// earlier neighbor.
fn scan_best_improvement<F>(
    current: &Candidate,
    current_report: &FitnessReport,
    recent: &Vec<Vec<Real>>,
    policy: &HillClimbPolicy,
    direction: FitnessDirection,
    evaluate: &mut F,
    evaluations: &mut usize,
) -> (selected: Option<(Candidate, FitnessReport)>)
    where
        F: FnMut(&Candidate) -> FitnessReport,
    requires
        forall|c: &Candidate| call_requires(*old(evaluate), (c,)),
        *old(evaluations) + 2 * current.genome.genes@.len() <= usize::MAX,
        policy.strategy == HillClimbStrategy::BestImprovement,
    ensures
        *final(evaluate) == *old(evaluate),
        forall|c: &Candidate| call_requires(*final(evaluate), (c,)),
        *old(evaluations) <= *final(evaluations) <= *old(evaluations) + 2 * current.genome.genes@.len(),
        selected is Some ==> *final(evaluations) > *old(evaluations),
        scan_result_valid(
            *final(evaluate),
            selected,
            genome_views(recent@),
            current@,
            current_report@,
            *policy,
            direction,
            *final(evaluations) - *old(evaluations),
        ),
{
    let ghost tabu = genome_views(recent@);
    let count = 2 * current.genome.genes.len();
    let mut neighbors: Vec<Candidate> = Vec::with_capacity(count);
    let mut k: usize = 0;
    while k < count
        invariant
            count == 2 * current.genome.genes@.len(),
            k <= count,
            neighbors@.len() == k,
            forall|j: int| 0 <= j < k ==> #[trigger] neighbors@[j]@ == neighbor_view(current@, policy.step, j),
        decreases count - k,
    {
        neighbors.push(make_neighbor(current, &policy.step, k));
        k += 1;
    }
    let mut selected: Option<(Candidate, FitnessReport)> = None;
    let ghost mut outcomes: Seq<Option<FitnessReport>> = Seq::empty();
    let ghost mut rec: RealComparer = settled();
    let ghost plateau = policy.accept_equal_plateau;
    proof {
        lemma_settled_sound();
    }
    let mut remaining = neighbors;
    let mut k: usize = 0;
    while k < count
        invariant
            count == 2 * current.genome.genes@.len(),
            k <= count,
            tabu == genome_views(recent@),
            plateau == policy.accept_equal_plateau,
            policy.strategy == HillClimbStrategy::BestImprovement,
            remaining@.len() == count - k,
            forall|j: int| 0 <= j < count - k ==> #[trigger] remaining@[j]@ == neighbor_view(current@, policy.step, j + k),
            forall|c: &Candidate| call_requires(*evaluate, (c,)),
            *evaluate == *old(evaluate),
            *old(evaluations) <= *evaluations <= *old(evaluations) + k,
            *evaluations == *old(evaluations) + scan_cost(tabu, current@, policy.step, k as int),
            *old(evaluations) + count <= usize::MAX,
            selected is Some ==> *evaluations > *old(evaluations),
            comparer_sound(rec),
            outcomes.len() == k,
            forall|j: int| #![trigger outcomes[j]] 0 <= j < k ==> outcome_valid(
                *evaluate,
                tabu,
                current@,
                policy.step,
                j,
                outcomes[j],
            ),
            match best_prefix(rec, outcomes, current_report@, direction, plateau, k as int) {
                None => selected is None,
                Some(h) => selected matches Some((neighbor, report)) && neighbor@ == neighbor_view(
                    current@,
                    policy.step,
                    h,
                ) && outcomes[h] == Some(report) && call_ensures(*evaluate, (&neighbor,), report),
            },
            selected is None ==> forall|j: int| 0 <= j < k ==> #[trigger] passed_over(
                *evaluate,
                tabu,
                current@,
                current_report@,
                *policy,
                direction,
                j,
            ),
        decreases count - k,
    {
        let ghost pending = remaining@;
        let ghost before = outcomes;
        let ghost previous = rec;
        let neighbor = remaining.remove(0);
        proof {
            assert(neighbor@ == neighbor_view(current@, policy.step, k as int));
            assert forall|j: int| 0 <= j < count - (k + 1) implies #[trigger] remaining@[j]@ == neighbor_view(
                current@,
                policy.step,
                j + (k + 1),
            ) by {
                assert(remaining@[j] == pending[j + 1]);
            }
        }
        if !recent_contains(recent, &neighbor.genome.genes) {
            let report = evaluate(&neighbor);
            *evaluations = *evaluations + 1;
            proof {
                outcomes = outcomes.push(Some(report));
                lemma_best_prefix_push(previous, before, Some(report), current_report@, direction, plateau, k as int);
                assert(call_ensures(*evaluate, (&neighbor,), report));
                assert(outcome_valid(*evaluate, tabu, current@, policy.step, k as int, outcomes[k as int]));
                assert forall|j: int| #![trigger outcomes[j]] 0 <= j < k + 1 implies outcome_valid(
                    *evaluate,
                    tabu,
                    current@,
                    policy.step,
                    j,
                    outcomes[j],
                ) by {
                    if j < k {
                        assert(outcomes[j] == before[j]);
                    }
                }
                if let Some(h) = best_prefix(previous, before, current_report@, direction, plateau, k as int) {
                    assert(outcomes[h] == before[h]);
                }
            }
            let acceptable = is_acceptable_neighbor(current_report, &report, direction, policy);
            let ghost c_accept = choose|c: RealComparer| comparer_sound(c) && acceptable == #[trigger] acceptable_move(
                c,
                current_report@,
                report@,
                direction,
                policy.accept_equal_plateau,
            );
            let ghost mut c_replace: RealComparer = c_accept;
            if acceptable {
                let replace = match &selected {
                    Some((_, best)) => {
                        let verdict = report.value.compare_total(&best.value, direction);
                        proof {
                            c_replace = choose|c: RealComparer| comparer_sound(c) && verdict == #[trigger] total_verdict(
                                c,
                                report@.value,
                                best@.value,
                                direction,
                            );
                        }
                        verdict == FitnessComparison::Better
                    },
                    None => true,
                };
                proof {
                    let held = best_prefix(previous, before, current_report@, direction, plateau, k as int);
                    if let Some(h) = held {
                        assert(replace == (total_verdict(c_replace, report@.value, outcomes[h]->0@.value, direction)
                            == FitnessComparison::Better));
                    }
                }
                if replace {
                    selected = Some((neighbor, report));
                }
            } else {
                proof {
                    reveal(refused_move);
                    assert(refused_move(current_report@, report@, direction, policy.accept_equal_plateau));
                    assert(rejected_on_evaluation(
                        *evaluate,
                        neighbor_view(current@, policy.step, k as int),
                        current_report@,
                        direction,
                        policy.accept_equal_plateau,
                    ));
                    assert(passed_over(*evaluate, tabu, current@, current_report@, *policy, direction, k as int));
                }
            }
            proof {
                lemma_scan_step_record(previous, k as int, c_accept, c_replace, outcomes, current_report@, direction, plateau);
                rec = scan_step_record(previous, k as int, c_accept, c_replace);
            }
        } else {
            proof {
                outcomes = outcomes.push(None);
                lemma_best_prefix_push(previous, before, None, current_report@, direction, plateau, k as int);
                assert forall|j: int| #![trigger outcomes[j]] 0 <= j < k + 1 implies outcome_valid(
                    *evaluate,
                    tabu,
                    current@,
                    policy.step,
                    j,
                    outcomes[j],
                ) by {
                    if j < k {
                        assert(outcomes[j] == before[j]);
                    }
                }
                if let Some(h) = best_prefix(previous, before, current_report@, direction, plateau, k as int) {
                    assert(outcomes[h] == before[h]);
                }
                assert(passed_over(*evaluate, tabu, current@, current_report@, *policy, direction, k as int));
            }
        }
        k += 1;
    }
    proof {
        if selected is Some {
            let (neighbor, report) = selected->0;
            let h = best_prefix(rec, outcomes, current_report@, direction, plateau, count as int)->0;
            lemma_best_prefix_acceptable(rec, outcomes, current_report@, direction, plateau, count as int);
            assert(outcome_valid(*evaluate, tabu, current@, policy.step, h, outcomes[h]));
            assert(best_scan_choice(*evaluate, tabu, current@, current_report@, report@, *policy, direction, h));
            assert(climb_step(*evaluate, tabu, current@, current_report@, neighbor@, report@, *policy, direction, h));
        }
    }
    selected
}

/// Whether a chain of accepted reports moves by acceptable steps only.
pub open spec fn accepted_chain(
    reports: Seq<FitnessReportView>,
    direction: FitnessDirection,
    accept_equal_plateau: bool,
) -> bool {
    forall|i: int| 0 < i < reports.len() ==> accepted_move(
        #[trigger] reports[i - 1],
        reports[i],
        direction,
        accept_equal_plateau,
    )
}

/// A count as a `usize` counter that stops at `usize::MAX` holds it.
pub open spec fn capped(count: int) -> int {
    if count > usize::MAX {
        usize::MAX as int
    } else {
        count
    }
}

/// What every hill-climb report states, whatever the evaluator returned.
pub open spec fn climb_report_valid(
    report: HillClimbReport,
    initial: CandidateView,
    policy: HillClimbPolicy,
    direction: FitnessDirection,
) -> bool {
    let accepted = report_views(report.accepted_reports@);
    let len = initial.genes.len();
    &&& report.initial@ == initial
    &&& accepted.len() == report.accepted_steps + 1
    &&& report.final_fitness@ == accepted.last()
    &&& report.accepted_steps <= policy.max_steps
    &&& capped(report.accepted_steps + 1) <= report.evaluations
    &&& report.evaluations <= capped(1 + (report.accepted_steps + 1) * (2 * len))
    &&& report.final_candidate@.genes.len() == len
    &&& report.final_candidate@.proposal_seed == initial.proposal_seed
    &&& (report.reason == HillClimbStopReason::InitialReplayRejected <==> accepted[0].replay
        != ReplayStatus::Accepted)
    &&& (report.reason == HillClimbStopReason::InitialFitnessUnsupported <==> (accepted[0].replay
        == ReplayStatus::Accepted && !supports_total_order(accepted[0].value)))
    &&& (report.reason == HillClimbStopReason::InitialReplayRejected || report.reason
        == HillClimbStopReason::InitialFitnessUnsupported) ==> {
        &&& report.evaluations == 1
        &&& report.accepted_steps == 0
        &&& report.final_candidate@ == initial
    }
    &&& report.reason == HillClimbStopReason::BudgetExhausted ==> report.accepted_steps == policy.max_steps
    &&& report.reason == HillClimbStopReason::LocalOptimum ==> report.accepted_steps < policy.max_steps
    &&& accepted_chain(accepted, direction, policy.accept_equal_plateau)
}

/// The genomes of a sequence of candidates.
pub open spec fn candidate_genomes(path: Seq<Candidate>) -> Seq<Seq<Real>> {
    path.map_values(|c: Candidate| c.genome.genes@)
}

/// The genomes that are tabu after visiting `visited` in order: all of them
/// when `tabu_memory` is `0`, otherwise the last `tabu_memory + 1`.
pub open spec fn tabu_window(visited: Seq<Seq<Real>>, tabu_memory: usize) -> Seq<Seq<Real>> {
    if tabu_memory == 0 || visited.len() <= tabu_memory + 1 {
        visited
    } else {
        visited.subrange(visited.len() - (tabu_memory + 1), visited.len() as int)
    }
}

/// A climb path: each candidate was evaluated to its report, and each later
/// candidate is the climb step to neighbor `picks[i]` of the one before it,
/// with the genomes visited so far as the tabu list.
pub open spec fn climb_path<F: FnMut(&Candidate) -> FitnessReport>(
    evaluate: F,
    path: Seq<Candidate>,
    reports: Seq<FitnessReport>,
    picks: Seq<int>,
    policy: HillClimbPolicy,
    direction: FitnessDirection,
) -> bool {
    &&& path.len() >= 1
    &&& reports.len() == path.len()
    &&& picks.len() == path.len()
    &&& forall|i: int| #![trigger path[i]] 0 <= i < path.len() ==> call_ensures(evaluate, (&path[i],), reports[i])
    &&& forall|i: int|
        #![trigger path[i]]
        0 < i < path.len() ==> climb_step(
            evaluate,
            tabu_window(candidate_genomes(path.take(i)), policy.tabu_memory),
            path[i - 1]@,
            reports[i - 1]@,
            path[i]@,
            reports[i]@,
            policy,
            direction,
            picks[i],
        )
}

/// The evaluations of the scan that led to `path[i]`.
pub open spec fn step_cost(path: Seq<Candidate>, picks: Seq<int>, policy: HillClimbPolicy, i: int) -> nat {
    scan_cost(
        tabu_window(candidate_genomes(path.take(i)), policy.tabu_memory),
        path[i - 1]@,
        policy.step,
        scan_stop(policy, picks[i], (2 * path[i - 1]@.genes.len()) as int),
    )
}

/// The evaluations of the scans that led along the first `n` candidates of a path.
pub open spec fn climb_cost(path: Seq<Candidate>, picks: Seq<int>, policy: HillClimbPolicy, n: int) -> nat
    decreases n,
{
    if n <= 1 {
        0
    } else {
        climb_cost(path, picks, policy, n - 1) + step_cost(path, picks, policy, n - 1)
    }
}

/// How a hill-climb report arose from its start: along a climb path from
/// `initial` to the final candidate, whose reports are the accepted reports.
/// The evaluations are the start's, those of every scan along the path, and,
/// at a local optimum, those of the last scan, in which every neighbor of the
/// final candidate was passed over.
pub open spec fn climb_trace<F: FnMut(&Candidate) -> FitnessReport>(
    evaluate: F,
    initial: Candidate,
    report: HillClimbReport,
    policy: HillClimbPolicy,
    direction: FitnessDirection,
) -> bool {
    exists|path: Seq<Candidate>, reports: Seq<FitnessReport>, picks: Seq<int>|
        #![trigger climb_path(evaluate, path, reports, picks, policy, direction)]
        {
            let tabu = tabu_window(candidate_genomes(path), policy.tabu_memory);
            let count = (2 * initial.genome.genes@.len()) as int;
            &&& climb_path(evaluate, path, reports, picks, policy, direction)
            &&& path[0] == initial
            &&& path.last() == report.final_candidate
            &&& report_views(reports) == report_views(report.accepted_reports@)
            &&& report.evaluations == capped(
                (1 + climb_cost(path, picks, policy, path.len() as int) + if report.reason
                    == HillClimbStopReason::LocalOptimum {
                    scan_cost(tabu, report.final_candidate@, policy.step, count)
                } else {
                    0
                }) as int,
            )
            &&& report.reason == HillClimbStopReason::LocalOptimum ==> forall|k: int|
                0 <= k < count ==> #[trigger] passed_over(
                    evaluate,
                    tabu,
                    report.final_candidate@,
                    report.final_fitness@,
                    policy,
                    direction,
                    k,
                )
        }
}

proof fn lemma_tabu_window_push(visited: Seq<Seq<Real>>, genes: Seq<Real>, tabu_memory: usize)
    ensures
        ({
            let grown = tabu_window(visited, tabu_memory).push(genes);
            tabu_window(visited.push(genes), tabu_memory) == if tabu_memory > 0 && grown.len() > tabu_memory + 1 {
                grown.subrange(1, grown.len() as int)
            } else {
                grown
            }
        }),
{
    let grown = tabu_window(visited, tabu_memory).push(genes);
    let longer = visited.push(genes);
    if tabu_memory > 0 && visited.len() > tabu_memory + 1 {
        assert(tabu_window(longer, tabu_memory) =~= grown.subrange(1, grown.len() as int));
    } else if tabu_memory > 0 && visited.len() == tabu_memory + 1 {
        assert(longer.subrange(longer.len() - (tabu_memory + 1), longer.len() as int) =~= grown.subrange(
            1,
            grown.len() as int,
        ));
    } else {
        assert(tabu_window(longer, tabu_memory) =~= grown);
    }
}

#[verifier::spinoff_prover]
proof fn lemma_climb_path_extends<F: FnMut(&Candidate) -> FitnessReport>(
    evaluate: F,
    path: Seq<Candidate>,
    reports: Seq<FitnessReport>,
    picks: Seq<int>,
    next: Candidate,
    next_report: FitnessReport,
    k: int,
    policy: HillClimbPolicy,
    direction: FitnessDirection,
)
    requires
        climb_path(evaluate, path, reports, picks, policy, direction),
        call_ensures(evaluate, (&next,), next_report),
        climb_step(
            evaluate,
            tabu_window(candidate_genomes(path), policy.tabu_memory),
            path.last()@,
            reports.last()@,
            next@,
            next_report@,
            policy,
            direction,
            k,
        ),
    ensures
        climb_path(evaluate, path.push(next), reports.push(next_report), picks.push(k), policy, direction),
        climb_cost(path.push(next), picks.push(k), policy, (path.len() + 1) as int) == climb_cost(
            path,
            picks,
            policy,
            path.len() as int,
        ) + scan_cost(
            tabu_window(candidate_genomes(path), policy.tabu_memory),
            path.last()@,
            policy.step,
            scan_stop(policy, k, (2 * path.last()@.genes.len()) as int),
        ),
{
    let longer = path.push(next);
    let more = reports.push(next_report);
    let chosen = picks.push(k);
    assert(longer.take(path.len() as int) =~= path);
    assert forall|i: int| #![trigger longer[i]] 0 <= i < longer.len() implies call_ensures(
        evaluate,
        (&longer[i],),
        more[i],
    ) by {
        if i < path.len() {
            assert(longer[i] == path[i]);
            assert(more[i] == reports[i]);
        }
    }
    assert forall|i: int| #![trigger longer[i]] 0 < i < longer.len() implies climb_step(
        evaluate,
        tabu_window(candidate_genomes(longer.take(i)), policy.tabu_memory),
        longer[i - 1]@,
        more[i - 1]@,
        longer[i]@,
        more[i]@,
        policy,
        direction,
        chosen[i],
    ) by {
        if i < path.len() {
            assert(longer.take(i) =~= path.take(i));
            assert(longer[i] == path[i]);
            assert(longer[i - 1] == path[i - 1]);
            assert(more[i] == reports[i]);
            assert(more[i - 1] == reports[i - 1]);
            assert(chosen[i] == picks[i]);
        } else {
            assert(longer[i - 1] == path.last());
            assert(more[i - 1] == reports.last());
        }
    }
    lemma_climb_cost_prefix(path, picks, next, k, policy, path.len() as int);
    assert(longer[path.len() - 1] == path.last());
}

proof fn lemma_climb_cost_prefix(
    path: Seq<Candidate>,
    picks: Seq<int>,
    next: Candidate,
    k: int,
    policy: HillClimbPolicy,
    n: int,
)
    requires
        picks.len() == path.len(),
        0 <= n <= path.len(),
    ensures
        climb_cost(path.push(next), picks.push(k), policy, n) == climb_cost(path, picks, policy, n),
    decreases n,
{
    if n > 1 {
        lemma_climb_cost_prefix(path, picks, next, k, policy, n - 1);
        let i = n - 1;
        assert(path.push(next).take(i) =~= path.take(i));
        assert(path.push(next)[i - 1] == path[i - 1]);
        assert(picks.push(k)[i] == picks[i]);
    }
}

proof fn lemma_accepted_chain_extends(
    chain: Seq<FitnessReportView>,
    next: FitnessReportView,
    direction: FitnessDirection,
    accept_equal_plateau: bool,
)
    requires
        chain.len() >= 1,
        accepted_chain(chain, direction, accept_equal_plateau),
        accepted_move(chain.last(), next, direction, accept_equal_plateau),
    ensures
        accepted_chain(chain.push(next), direction, accept_equal_plateau),
{
    let now = chain.push(next);
    assert forall|i: int| 0 < i < now.len() implies accepted_move(
        #[trigger] now[i - 1],
        now[i],
        direction,
        accept_equal_plateau,
    ) by {
        if i < now.len() - 1 {
            assert(now[i - 1] == chain[i - 1]);
            assert(now[i] == chain[i]);
        }
    }
}

/// Runs deterministic exact hill climbing over one-step genome neighbors.
///
/// Each iteration proposes `gene - step` and `gene + step` for every gene in
/// order. A neighbor can replace the current candidate only when the evaluator
/// returns `Accepted` replay and the exact fitness comparison reports an
/// improvement, or an exact tie when plateau moves are enabled. The current
/// genome and the `tabu_memory` genomes accepted before it are not revisited;
/// with `tabu_memory == 0` no visited genome is revisited.
///
/// The evaluation counter stops at `usize::MAX` rather than wrapping. The
/// genome is at most `usize::MAX / 2` genes long, as any vector of exact
/// reals is, so that its neighbors can be numbered.
#[verifier::rlimit(40)]
pub fn hill_climb_exact<F>(
    initial: Candidate,
    policy: &HillClimbPolicy,
    direction: FitnessDirection,
    evaluate: F,
) -> (report: HillClimbReport)
    where
        F: FnMut(&Candidate) -> FitnessReport,
    requires
        forall|c: &Candidate| call_requires(evaluate, (c,)),
        2 * initial.genome.genes@.len() <= usize::MAX,
    ensures
        climb_report_valid(report, initial@, *policy, direction),
        climb_trace(evaluate, initial, report, *policy, direction),
        call_ensures(evaluate, (&report.final_candidate,), report.final_fitness),
{
    let ghost len = initial.genome.genes@.len();
    let ghost start = initial;
    let mut score = evaluate;
    let initial_report = score(&initial);
    if initial_report.replay != ReplayStatus::Accepted || !fitness_supports_total_order(&initial_report.value) {
        let reason = if initial_report.replay != ReplayStatus::Accepted {
            HillClimbStopReason::InitialReplayRejected
        } else {
            HillClimbStopReason::InitialFitnessUnsupported
        };
        let mut accepted_reports: Vec<FitnessReport> = Vec::new();
        accepted_reports.push(initial_report.duplicate());
        let ghost path = seq![start];
        let ghost reports = seq![initial_report];
        let ghost picks = seq![0int];
        proof {
            assert(report_views(accepted_reports@)[0] == initial_report@);
            assert(report_views(reports) =~= report_views(accepted_reports@));
            assert(climb_path(evaluate, path, reports, picks, *policy, direction));
        }
        return HillClimbReport {
            initial: initial.duplicate(),
            final_candidate: initial,
            final_fitness: initial_report,
            reason,
            evaluations: 1,
            accepted_steps: 0,
            accepted_reports,
        };
    }
    let ghost first_view = initial_report@;
    let initial_copy = initial.duplicate();
    let ghost mut path: Seq<Candidate> = seq![start];
    let ghost mut reports: Seq<FitnessReport> = seq![initial_report];
    let ghost mut picks: Seq<int> = seq![0int];
    let mut current = initial;
    let mut current_report = initial_report;
    let mut accepted_reports: Vec<FitnessReport> = Vec::new();
    accepted_reports.push(current_report.duplicate());
    let mut recent: Vec<Vec<Real>> = Vec::new();
    recent.push(copy_reals(&current.genome.genes));
    let mut evaluations: usize = 1;
    let ghost mut exact: int = 1;
    let mut accepted_steps: usize = 0;
    proof {
        assert(report_views(reports) =~= report_views(accepted_reports@));
        assert(genome_views(recent@) =~= tabu_window(candidate_genomes(path), policy.tabu_memory));
        assert(climb_path(score, path, reports, picks, *policy, direction));
    }
    while accepted_steps < policy.max_steps
        invariant
            forall|c: &Candidate| call_requires(score, (c,)),
            score == evaluate,
            len == start.genome.genes@.len(),
            start == initial,
            2 * len <= usize::MAX,
            accepted_steps <= policy.max_steps,
            accepted_steps + 1 <= exact <= 1 + accepted_steps * (2 * len),
            evaluations == capped(exact),
            current@.genes.len() == len,
            current@.proposal_seed == start@.proposal_seed,
            report_views(accepted_reports@).len() == accepted_steps + 1,
            report_views(accepted_reports@)[0] == first_view,
            first_view.replay == ReplayStatus::Accepted,
            supports_total_order(first_view.value),
            report_views(accepted_reports@).last() == current_report@,
            initial_copy@ == start@,
            accepted_chain(report_views(accepted_reports@), direction, policy.accept_equal_plateau),
            path.len() == accepted_steps + 1,
            path[0] == start,
            path.last() == current,
            reports.last() == current_report,
            report_views(reports) == report_views(accepted_reports@),
            climb_path(score, path, reports, picks, *policy, direction),
            exact == 1 + climb_cost(path, picks, *policy, path.len() as int),
            genome_views(recent@) == tabu_window(candidate_genomes(path), policy.tabu_memory),
        decreases policy.max_steps - accepted_steps,
    {
        let mut spent: usize = 0;
        let selected = match policy.strategy {
            HillClimbStrategy::FirstImprovement => scan_first_improvement(
                &current,
                &current_report,
                &recent,
                policy,
                direction,
                &mut score,
                &mut spent,
            ),
            HillClimbStrategy::BestImprovement => scan_best_improvement(
                &current,
                &current_report,
                &recent,
                policy,
                direction,
                &mut score,
                &mut spent,
            ),
        };
        evaluations = if spent <= usize::MAX - evaluations {
            evaluations + spent
        } else {
            usize::MAX
        };
        proof {
            exact = exact + spent;
        }
        match selected {
            None => {
                proof {
                    assert((accepted_steps + 1) * (2 * len) == accepted_steps * (2 * len) + 2 * len) by (nonlinear_arith);
                    assert(accepted_steps + 1 <= exact <= 1 + (accepted_steps + 1) * (2 * len));
                    assert(call_ensures(score, (&path[path.len() - 1],), reports[path.len() - 1]));
                }
                let final_fitness = current_report;
                return HillClimbReport {
                    initial: initial_copy,
                    final_candidate: current,
                    final_fitness,
                    reason: HillClimbStopReason::LocalOptimum,
                    evaluations,
                    accepted_steps,
                    accepted_reports,
                };
            },
            Some((candidate, report)) => {
                let ghost previous = report_views(accepted_reports@);
                let ghost old_path = path;
                let ghost old_reports = reports;
                proof {
                    let k = choose|k: int|
                        #[trigger] climb_step(
                            score,
                            genome_views(recent@),
                            current@,
                            current_report@,
                            candidate@,
                            report@,
                            *policy,
                            direction,
                            k,
                        ) && spent == scan_cost(
                            genome_views(recent@),
                            current@,
                            policy.step,
                            scan_stop(*policy, k, (2 * current@.genes.len()) as int),
                        );
                    lemma_climb_path_extends(score, path, reports, picks, candidate, report, k, *policy, direction);
                    picks = picks.push(k);
                    lemma_accepted_chain_extends(previous, report@, direction, policy.accept_equal_plateau);
                    lemma_tabu_window_push(candidate_genomes(path), candidate.genome.genes@, policy.tabu_memory);
                    path = path.push(candidate);
                    reports = reports.push(report);
                    assert(candidate_genomes(path) =~= candidate_genomes(old_path).push(candidate.genome.genes@));
                    assert(report_views(reports) =~= report_views(old_reports).push(report@));
                }
                current = candidate;
                current_report = report;
                accepted_steps = accepted_steps + 1;
                accepted_reports.push(current_report.duplicate());
                proof {
                    assert(report_views(accepted_reports@) =~= previous.push(current_report@));
                    assert((accepted_steps - 1) * (2 * len) + 2 * len == accepted_steps * (2 * len)) by (nonlinear_arith);
                }
                let ghost before_push = genome_views(recent@);
                recent.push(copy_reals(&current.genome.genes));
                proof {
                    assert(genome_views(recent@) =~= before_push.push(current.genome.genes@));
                }
                if policy.tabu_memory > 0 && recent.len() - 1 > policy.tabu_memory {
                    let ghost grown = genome_views(recent@);
                    recent.remove(0);
                    proof {
                        assert(genome_views(recent@) =~= grown.subrange(1, grown.len() as int));
                    }
                }
            },
        }
    }
    proof {
        assert(accepted_steps * (2 * len) <= (accepted_steps + 1) * (2 * len)) by (nonlinear_arith);
        assert(call_ensures(score, (&path[path.len() - 1],), reports[path.len() - 1]));
    }
    HillClimbReport {
        initial: initial_copy,
        final_candidate: current,
        final_fitness: current_report,
        reason: HillClimbStopReason::BudgetExhausted,
        evaluations,
        accepted_steps,
        accepted_reports,
    }
}

} // verus!
