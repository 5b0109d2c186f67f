//! Candidate, population, archive, and proposal-policy carriers.
//!
//! Local search is proposal generation: a neighbor can be evaluated quickly,
//! but promotion depends on exact/certified fitness and replay status.
//! Selection and variation operators keep exact genes and return reportable
//! unsupported/unknown states instead of treating hidden random draws as proof.

use crate::exact::{
    add_reals, at, comparer_sound, copy_reals, graft, lemma_graft, lemma_settled_sound, real_same_form, real_sum,
    same_form, settled, RealComparer,
};
use crate::fitness::{
    pareto_verdict, FitnessValueView, ParetoRelation, total_verdict, FitnessComparison, FitnessDirection, FitnessReport, FitnessReportView,
    FitnessValue,
};
use crate::identity::CandidateId;
use hyperreal::Real;
use vstd::prelude::*;

pub use crate::local_search::{
    classify_simulated_annealing_neighbor, hill_climb_exact, AnnealingAcceptance, HillClimbPolicy,
    HillClimbReport, HillClimbStopReason, HillClimbStrategy, SimulatedAnnealingPolicy,
};

verus! {

/// Exact replay status for a proposed candidate.
#[derive(Clone, Copy, Debug, PartialEq, Eq, Structural)]
pub enum ReplayStatus {
    /// Domain replay accepted the candidate.
    Accepted,
    /// Domain replay rejected the candidate.
    Rejected,
    /// Replay has not certified a decision.
    Unknown,
}

/// Exact genome encoding.
#[derive(Clone, Debug, PartialEq)]
pub struct Genome {
    /// Exact genes.
    pub genes: Vec<Real>,
}

/// Candidate with the seed that reproduces its proposal.
#[derive(Clone, Debug, PartialEq)]
pub struct Candidate {
    /// Candidate id.
    pub id: CandidateId,
    /// Candidate genome.
    pub genome: Genome,
    /// Seed used to reproduce the proposal that produced this candidate.
    pub proposal_seed: u64,
}

/// Candidate population.
#[derive(Clone, Debug, PartialEq)]
pub struct Population {
    /// Candidate set.
    pub candidates: Vec<Candidate>,
}

/// Replay policy for accepted proposals.
#[derive(Clone, Debug, PartialEq, Eq, Structural)]
pub struct ReplayPolicy {
    /// Seed used to reproduce proposal generation.
    pub seed: u64,
    /// Whether exact replay is required before archive insertion.
    pub require_exact_replay: bool,
}

/// Selection policy carrier.
#[derive(Clone, Debug, PartialEq, Eq, Structural)]
pub enum SelectionPolicy {
    /// Deterministic best-by-exact-fitness selection.
    ExactBest,
    /// Tournament proposal policy.
    Tournament { size: usize },
}

/// Mutation policy carrier.
#[derive(Clone, Debug, PartialEq)]
pub enum MutationPolicy {
    /// Add an exact delta to one gene.
    ExactDelta { gene: usize, delta: Box<Real> },
    /// External stochastic proposal.
    StochasticProposal { name: String },
}

/// Crossover policy carrier.
#[derive(Clone, Debug, PartialEq, Eq, Structural)]
pub enum CrossoverPolicy {
    /// One-point crossover proposal.
    OnePoint { index: usize },
    /// No crossover.
    NoCrossover,
}

/// Result of exact/certified selection.
#[derive(Clone, Debug, PartialEq, Eq, Structural)]
pub enum SelectionError {
    /// Candidate and report slices had different lengths.
    CandidateReportCountMismatch,
    /// The selection set was empty.
    EmptyPopulation,
    /// A fitness report did not name the candidate at the same aligned index.
    CandidateReportIdMismatch {
        /// Misaligned index.
        index: usize,
    },
    /// A tournament index was outside the candidate slice.
    TournamentIndexOutOfBounds {
        /// Bad index.
        index: usize,
        /// Candidate count.
        candidate_count: usize,
    },
    /// No candidate in the selection set had accepted replay evidence.
    NoAcceptedReplay,
    /// Exact/certified fitness comparison could not choose one winner.
    UnknownComparison,
}

/// Report from a deterministic selection helper.
#[derive(Clone, Debug, PartialEq)]
pub struct SelectionReport {
    /// Selected candidate.
    pub candidate: Candidate,
    /// Selected candidate fitness.
    pub fitness: FitnessReport,
    /// Number of candidates inspected.
    pub inspected: usize,
}

/// Result of exact variation operators.
#[derive(Clone, Debug, PartialEq, Eq, Structural)]
pub enum VariationError {
    /// The requested gene index did not exist.
    GeneIndexOutOfBounds {
        /// Bad index.
        index: usize,
        /// Genome length.
        len: usize,
    },
    /// Parent genomes had different arity.
    GenomeLengthMismatch {
        /// First parent length.
        left: usize,
        /// Second parent length.
        right: usize,
    },
    /// The crossover point was outside `0..=len`.
    CrossoverIndexOutOfBounds {
        /// Bad index.
        index: usize,
        /// Genome length.
        len: usize,
    },
}

/// Exact structural diversity relation between two genomes.
#[derive(Clone, Debug, PartialEq, Eq, Structural)]
pub enum DiversityRelation {
    /// Genomes are exactly equal term-for-term.
    Identical,
    /// Genomes differ in at least one exact gene.
    Distinct,
    /// Genomes have different arity, so equality is not a same-shape diversity metric.
    ShapeMismatch {
        /// First genome length.
        left: usize,
        /// Second genome length.
        right: usize,
    },
}

/// Pairwise exact diversity report for a population.
#[derive(Clone, Debug, PartialEq, Eq, Structural)]
pub struct DiversityReport {
    /// Number of candidates inspected.
    pub candidate_count: usize,
    /// Number of pairwise comparisons.
    pub pair_count: usize,
    /// Pairs that are exactly identical.
    pub identical_pairs: usize,
    /// Pairs that are exactly distinct with matching arity.
    pub distinct_pairs: usize,
    /// Pairs with incompatible genome lengths.
    pub shape_mismatch_pairs: usize,
}

/// The mathematical content of a candidate.
pub struct CandidateView {
    pub id: Seq<char>,
    pub genes: Seq<Real>,
    pub proposal_seed: u64,
}

impl View for Candidate {
    type V = CandidateView;

    open spec fn view(&self) -> CandidateView {
        CandidateView { id: self.id@, genes: self.genome.genes@, proposal_seed: self.proposal_seed }
    }
}

impl Candidate {
    /// A copy of this candidate with the same content.
    pub(crate) fn duplicate(&self) -> (copy: Self)
        ensures
            copy@ == self@,
    {
        Candidate {
            id: self.id.duplicate(),
            genome: Genome { genes: copy_reals(&self.genome.genes) },
            proposal_seed: self.proposal_seed,
        }
    }
}

impl Population {
    /// Adds a candidate to the population.
    pub fn push(&mut self, candidate: Candidate)
        ensures
            final(self).candidates@ == old(self).candidates@.push(candidate),
    {
        self.candidates.push(candidate);
    }
}

impl Default for Population {
    fn default() -> (population: Self)
        ensures
            population.candidates@.len() == 0,
    {
        Population { candidates: Vec::new() }
    }
}

impl FitnessReport {
    /// Creates a scalar fitness report with no evidence.
    pub fn scalar(candidate: CandidateId, value: Real, replay: ReplayStatus) -> (report: Self)
        ensures
            report.candidate == candidate,
            report.value@ == crate::fitness::FitnessValueView::Scalar(value),
            report.replay == replay,
            report.evidence@.len() == 0,
    {
        FitnessReport {
            candidate,
            value: FitnessValue::Scalar(Box::new(value)),
            replay,
            evidence: Vec::new(),
        }
    }
}

/// The indices that a selection inspects, in order.
pub(crate) enum IndexSchedule<'a> {
    /// Every aligned index `0..len`.
    All,
    /// A caller-supplied tournament schedule.
    Listed(&'a [usize]),
}

/// The index sequence a schedule stands for over `count` candidates.
pub(crate) open spec fn schedule_indices(schedule: IndexSchedule, count: nat) -> Seq<usize> {
    match schedule {
        IndexSchedule::All => Seq::new(count, |i: int| i as usize),
        IndexSchedule::Listed(indices) => indices@,
    }
}

/// The outcome of scanning `indices[k..]` with `selected` as the best accepted
/// index so far: the selected index, or the first error met. The comparison
/// made at step `k` is in part `k` of the record.
pub open spec fn selection_scan(
    rec: RealComparer,
    candidates: Seq<CandidateView>,
    reports: Seq<FitnessReportView>,
    indices: Seq<usize>,
    direction: FitnessDirection,
    k: int,
    selected: Option<int>,
) -> Result<int, SelectionError>
    decreases indices.len() - k,
{
    if 0 <= k < indices.len() {
        let index = indices[k] as int;
        if index >= candidates.len() {
            Err(SelectionError::TournamentIndexOutOfBounds {
                index: indices[k],
                candidate_count: candidates.len() as usize,
            })
        } else if reports[index].candidate != candidates[index].id {
            Err(SelectionError::CandidateReportIdMismatch { index: indices[k] })
        } else if reports[index].replay != ReplayStatus::Accepted {
            selection_scan(rec, candidates, reports, indices, direction, k + 1, selected)
        } else {
            match selected {
                None => selection_scan(rec, candidates, reports, indices, direction, k + 1, Some(index)),
                Some(current) => {
                    let verdict = total_verdict(at(rec, k), reports[index].value, reports[current].value, direction);
                    if verdict == FitnessComparison::Better {
                        selection_scan(rec, candidates, reports, indices, direction, k + 1, Some(index))
                    } else if verdict == FitnessComparison::Unknown {
                        Err(SelectionError::UnknownComparison)
                    } else {
                        selection_scan(rec, candidates, reports, indices, direction, k + 1, selected)
                    }
                },
            }
        }
    } else {
        match selected {
            Some(index) => Ok(index),
            None => Err(SelectionError::NoAcceptedReplay),
        }
    }
}

/// The outcome of selecting the best accepted candidate along `indices`.
pub open spec fn selection_outcome(
    rec: RealComparer,
    candidates: Seq<CandidateView>,
    reports: Seq<FitnessReportView>,
    indices: Seq<usize>,
    direction: FitnessDirection,
) -> Result<int, SelectionError> {
    if candidates.len() != reports.len() {
        Err(SelectionError::CandidateReportCountMismatch)
    } else if candidates.len() == 0 {
        Err(SelectionError::EmptyPopulation)
    } else {
        selection_scan(rec, candidates, reports, indices, direction, 0, None)
    }
}

/// The views of a slice of candidates.
pub open spec fn candidate_views(candidates: Seq<Candidate>) -> Seq<CandidateView> {
    candidates.map_values(|c: Candidate| c@)
}

/// The views of a slice of reports.
pub open spec fn report_views(reports: Seq<FitnessReport>) -> Seq<FitnessReportView> {
    reports.map_values(|r: FitnessReport| r@)
}

/// What a selection returns for the outcome under a record: the selected
/// candidate and report, having inspected every scheduled index, or the error.
pub open spec fn selection_matches_under(
    result: Result<SelectionReport, SelectionError>,
    rec: RealComparer,
    candidates: Seq<Candidate>,
    reports: Seq<FitnessReport>,
    indices: Seq<usize>,
    direction: FitnessDirection,
) -> bool {
    match selection_outcome(rec, candidate_views(candidates), report_views(reports), indices, direction) {
        Ok(index) => result matches Ok(report) && {
            &&& report.candidate@ == candidates[index]@
            &&& report.fitness@ == reports[index]@
            &&& report.inspected == indices.len()
        },
        Err(error) => result == Err::<SelectionReport, SelectionError>(error),
    }
}

/// What a selection returns: the outcome of the scan under the answers that
/// its certified comparisons gave.
pub open spec fn selection_matches(
    result: Result<SelectionReport, SelectionError>,
    candidates: Seq<Candidate>,
    reports: Seq<FitnessReport>,
    indices: Seq<usize>,
    direction: FitnessDirection,
) -> bool {
    exists|rec: RealComparer|
        comparer_sound(rec) && #[trigger] selection_matches_under(result, rec, candidates, reports, indices, direction)
}

fn select_best_from_indices(
    candidates: &[Candidate],
    reports: &[FitnessReport],
    schedule: IndexSchedule,
    direction: FitnessDirection,
) -> (result: Result<SelectionReport, SelectionError>)
    ensures
        selection_matches(result, candidates@, reports@, schedule_indices(schedule, candidates@.len()), direction),
{
    let ghost cands = candidate_views(candidates@);
    let ghost reps = report_views(reports@);
    let ghost indices = schedule_indices(schedule, candidates@.len());
    let ghost mut rec: RealComparer = settled();
    proof {
        lemma_settled_sound();
    }
    if candidates.len() != reports.len() {
        assert(selection_matches_under(
            Err(SelectionError::CandidateReportCountMismatch),
            rec,
            candidates@,
            reports@,
            indices,
            direction,
        ));
        return Err(SelectionError::CandidateReportCountMismatch);
    }
    if candidates.len() == 0 {
        assert(selection_matches_under(Err(SelectionError::EmptyPopulation), rec, candidates@, reports@, indices, direction));
        return Err(SelectionError::EmptyPopulation);
    }
    let count: usize = match schedule {
        IndexSchedule::All => candidates.len(),
        IndexSchedule::Listed(listed) => listed.len(),
    };
    let mut inspected: usize = 0;
    let mut selected: Option<usize> = None;
    while inspected < count
        invariant
            candidates@.len() == reports@.len(),
            candidates@.len() > 0,
            cands == candidate_views(candidates@),
            reps == report_views(reports@),
            indices == schedule_indices(schedule, candidates@.len()),
            count == indices.len(),
            inspected <= count,
            comparer_sound(rec),
            selected matches Some(s) ==> s < candidates@.len() && reps[s as int].replay == ReplayStatus::Accepted,
            forall|r: RealComparer|
                (forall|j: int| 0 <= j < inspected ==> #[trigger] at(r, j) == at(rec, j)) ==> selection_scan(
                    r,
                    cands,
                    reps,
                    indices,
                    direction,
                    0,
                    None,
                ) == selection_scan(
                    r,
                    cands,
                    reps,
                    indices,
                    direction,
                    inspected as int,
                    match selected { Some(s) => Some(s as int), None => None },
                ),
        decreases count - inspected,
    {
        let ghost k = inspected as int;
        let ghost held = match selected { Some(s) => Some(s as int), None => None };
        let index: usize = match schedule {
            IndexSchedule::All => inspected,
            IndexSchedule::Listed(listed) => listed[inspected],
        };
        assert(index == indices[inspected as int]);
        if index >= candidates.len() {
            proof {
                assert(selection_scan(rec, cands, reps, indices, direction, 0, None) == selection_scan(
                    rec, cands, reps, indices, direction, k, held));
            }
            let result = Err(SelectionError::TournamentIndexOutOfBounds { index, candidate_count: candidates.len() });
            assert(selection_matches_under(result, rec, candidates@, reports@, indices, direction));
            return result;
        }
        assert(cands[index as int] == candidates@[index as int]@);
        assert(reps[index as int] == reports@[index as int]@);
        if !reports[index].candidate.same_as(&candidates[index].id) {
            proof {
                assert(selection_scan(rec, cands, reps, indices, direction, 0, None) == selection_scan(
                    rec, cands, reps, indices, direction, k, held));
            }
            let result = Err(SelectionError::CandidateReportIdMismatch { index });
            assert(selection_matches_under(result, rec, candidates@, reports@, indices, direction));
            return result;
        }
        inspected += 1;
        if reports[index].replay != ReplayStatus::Accepted {
            proof {
                assert forall|r: RealComparer|
                    (forall|j: int| 0 <= j < inspected ==> #[trigger] at(r, j) == at(rec, j)) implies selection_scan(
                        r, cands, reps, indices, direction, 0, None) == selection_scan(
                        r, cands, reps, indices, direction, inspected as int, held) by {
                    assert forall|j: int| 0 <= j < k implies #[trigger] at(r, j) == at(rec, j) by {
                        assert(at(r, j) == at(rec, j));
                    }
                }
            }
            continue;
        }
        match selected {
            None => {
                selected = Some(index);
                proof {
                    assert forall|r: RealComparer|
                        (forall|j: int| 0 <= j < inspected ==> #[trigger] at(r, j) == at(rec, j)) implies selection_scan(
                            r, cands, reps, indices, direction, 0, None) == selection_scan(
                            r, cands, reps, indices, direction, inspected as int, Some(index as int)) by {
                        assert forall|j: int| 0 <= j < k implies #[trigger] at(r, j) == at(rec, j) by {
                            assert(at(r, j) == at(rec, j));
                        }
                    }
                }
            },
            Some(current) => {
                assert(reps[current as int] == reports@[current as int]@);
                let verdict = reports[index].value.compare_total(&reports[current].value, direction);
                let ghost c = choose|c: RealComparer| comparer_sound(c) && verdict == #[trigger] total_verdict(
                    c,
                    reps[index as int].value,
                    reps[current as int].value,
                    direction,
                );
                let ghost before = rec;
                proof {
                    lemma_graft(before, k, c);
                    rec = graft(before, k, c);
                    assert forall|r: RealComparer|
                        (forall|j: int| 0 <= j < k + 1 ==> #[trigger] at(r, j) == at(rec, j)) implies selection_scan(
                            r, cands, reps, indices, direction, 0, None) == selection_scan(
                            r, cands, reps, indices, direction, k, held) by {
                        assert forall|j: int| 0 <= j < k implies #[trigger] at(r, j) == at(before, j) by {
                            assert(at(r, j) == at(rec, j));
                            assert(at(rec, j) == at(before, j));
                        }
                    }
                    assert(at(rec, k) == c);
                }
                if verdict == FitnessComparison::Better {
                    selected = Some(index);
                } else if verdict == FitnessComparison::Unknown {
                    proof {
                        assert(selection_scan(rec, cands, reps, indices, direction, 0, None) == selection_scan(
                            rec, cands, reps, indices, direction, k, held));
                    }
                    assert(selection_matches_under(Err(SelectionError::UnknownComparison), rec, candidates@, reports@, indices, direction));
                    return Err(SelectionError::UnknownComparison);
                }
                proof {
                    let now = match selected { Some(s) => Some(s as int), None => None };
                    assert forall|r: RealComparer|
                        (forall|j: int| 0 <= j < inspected ==> #[trigger] at(r, j) == at(rec, j)) implies selection_scan(
                            r, cands, reps, indices, direction, 0, None) == selection_scan(
                            r, cands, reps, indices, direction, inspected as int, now) by {
                        assert(at(r, k) == at(rec, k));
                        assert forall|j: int| 0 <= j < k + 1 implies #[trigger] at(r, j) == at(rec, j) by {
                            assert(at(r, j) == at(rec, j));
                        }
                    }
                }
            },
        }
    }
    let ghost held = match selected { Some(s) => Some(s as int), None => None };
    assert(selection_scan(rec, cands, reps, indices, direction, 0, None) == selection_scan(
        rec, cands, reps, indices, direction, inspected as int, held));
    match selected {
        Some(index) => {
            assert(cands[index as int] == candidates@[index as int]@);
            let result = Ok(SelectionReport {
                candidate: candidates[index].duplicate(),
                fitness: reports[index].duplicate(),
                inspected,
            });
            assert(selection_matches_under(result, rec, candidates@, reports@, indices, direction));
            result
        },
        None => {
            assert(selection_matches_under(Err(SelectionError::NoAcceptedReplay), rec, candidates@, reports@, indices, direction));
            Err(SelectionError::NoAcceptedReplay)
        },
    }
}

/// Selects the exact best accepted candidate from aligned candidates/reports.
///
/// Rejected and unknown replay reports are ignored. Ties keep the first
/// candidate in source order. Any unknown comparison between accepted
/// candidates is returned as an explicit error.
pub fn select_exact_best(
    candidates: &[Candidate],
    reports: &[FitnessReport],
    direction: FitnessDirection,
) -> (result: Result<SelectionReport, SelectionError>)
    ensures
        selection_matches(
            result,
            candidates@,
            reports@,
            Seq::new(candidates@.len(), |i: int| i as usize),
            direction,
        ),
{
    select_best_from_indices(candidates, reports, IndexSchedule::All, direction)
}

/// Selects the exact best accepted candidate along explicit tournament
/// indices. The caller owns randomness; no hidden random draw is made.
pub fn select_tournament_by_indices(
    candidates: &[Candidate],
    reports: &[FitnessReport],
    indices: &[usize],
    direction: FitnessDirection,
) -> (result: Result<SelectionReport, SelectionError>)
    ensures
        selection_matches(result, candidates@, reports@, indices@, direction),
{
    select_best_from_indices(candidates, reports, IndexSchedule::Listed(indices), direction)
}

/// The candidate that adds `delta` to gene `gene` of `parent` under a new id.
pub open spec fn mutated_view(parent: CandidateView, gene: int, delta: Real, id: Seq<char>) -> CandidateView {
    CandidateView {
        id,
        genes: parent.genes.update(gene, real_sum(parent.genes[gene], delta)),
        proposal_seed: parent.proposal_seed,
    }
}

/// The child that takes `first`'s genes before `index` and `second`'s from
/// `index` on, under a new id and `first`'s proposal seed.
pub open spec fn spliced_view(first: CandidateView, second: CandidateView, index: int, id: Seq<char>) -> CandidateView {
    CandidateView {
        id,
        genes: first.genes.subrange(0, index) + second.genes.subrange(index, second.genes.len() as int),
        proposal_seed: first.proposal_seed,
    }
}

/// Applies an exact additive mutation to one gene.
pub fn mutate_exact_delta(
    candidate: &Candidate,
    gene: usize,
    delta: Real,
    child_id: CandidateId,
) -> (result: Result<Candidate, VariationError>)
    ensures
        gene >= candidate.genome.genes@.len() ==> result == Err::<Candidate, VariationError>(
            VariationError::GeneIndexOutOfBounds { index: gene, len: candidate.genome.genes@.len() as usize },
        ),
        gene < candidate.genome.genes@.len() ==> (result matches Ok(child) && child@ == mutated_view(
            candidate@,
            gene as int,
            delta,
            child_id@,
        )),
{
    if gene >= candidate.genome.genes.len() {
        return Err(VariationError::GeneIndexOutOfBounds { index: gene, len: candidate.genome.genes.len() });
    }
    let mut genes = copy_reals(&candidate.genome.genes);
    let mutated = add_reals(&genes[gene], &delta);
    genes.set(gene, mutated);
    Ok(Candidate { id: child_id, genome: Genome { genes }, proposal_seed: candidate.proposal_seed })
}

/// Appends `source[from..to]` to `target`.
fn extend_with_range(target: &mut Vec<Real>, source: &Vec<Real>, from: usize, to: usize)
    requires
        from <= to <= source@.len(),
    ensures
        final(target)@ == old(target)@ + source@.subrange(from as int, to as int),
{
    let mut i: usize = from;
    while i < to
        invariant
            from <= i <= to <= source@.len(),
            target@ == old(target)@ + source@.subrange(from as int, i as int),
        decreases to - i,
    {
        target.push(source[i].clone());
        proof {
            assert(source@.subrange(from as int, i + 1) =~= source@.subrange(from as int, i as int).push(source@[i as int]));
        }
        i += 1;
    }
}

/// Produces two exact one-point crossover children.
///
/// The left child takes the left parent's genes before `index` and the right
/// parent's from `index` on; the right child the other way round. `index == 0`
/// swaps whole genomes; `index == len` copies both parents.
pub fn crossover_one_point(
    left: &Candidate,
    right: &Candidate,
    index: usize,
    left_child_id: CandidateId,
    right_child_id: CandidateId,
) -> (result: Result<(Candidate, Candidate), VariationError>)
    ensures
        right.genome.genes@.len() != left.genome.genes@.len() ==> result == Err::<(Candidate, Candidate), VariationError>(
            VariationError::GenomeLengthMismatch {
                left: left.genome.genes@.len() as usize,
                right: right.genome.genes@.len() as usize,
            },
        ),
        right.genome.genes@.len() == left.genome.genes@.len() && index > left.genome.genes@.len()
            ==> result == Err::<(Candidate, Candidate), VariationError>(
            VariationError::CrossoverIndexOutOfBounds { index, len: left.genome.genes@.len() as usize },
        ),
        right.genome.genes@.len() == left.genome.genes@.len() && index <= left.genome.genes@.len()
            ==> (result matches Ok((left_child, right_child)) && left_child@ == spliced_view(
            left@,
            right@,
            index as int,
            left_child_id@,
        ) && right_child@ == spliced_view(right@, left@, index as int, right_child_id@)),
{
    let len = left.genome.genes.len();
    if right.genome.genes.len() != len {
        return Err(VariationError::GenomeLengthMismatch { left: len, right: right.genome.genes.len() });
    }
    if index > len {
        return Err(VariationError::CrossoverIndexOutOfBounds { index, len });
    }
    let mut left_genes: Vec<Real> = Vec::with_capacity(len);
    let mut right_genes: Vec<Real> = Vec::with_capacity(len);
    extend_with_range(&mut left_genes, &left.genome.genes, 0, index);
    extend_with_range(&mut left_genes, &right.genome.genes, index, len);
    extend_with_range(&mut right_genes, &right.genome.genes, 0, index);
    extend_with_range(&mut right_genes, &left.genome.genes, index, len);
    Ok((
        Candidate { id: left_child_id, genome: Genome { genes: left_genes }, proposal_seed: left.proposal_seed },
        Candidate { id: right_child_id, genome: Genome { genes: right_genes }, proposal_seed: right.proposal_seed },
    ))
}

/// Whether two gene sequences are equal term for term under `hyperreal`'s
/// representation equality.
pub open spec fn genes_identical(left: Seq<Real>, right: Seq<Real>) -> bool {
    left.len() == right.len() && forall|i: int| 0 <= i < left.len() ==> #[trigger] real_same_form(left[i], right[i])
}

/// The structural relation of two gene sequences.
pub open spec fn genome_relation(left: Seq<Real>, right: Seq<Real>) -> DiversityRelation {
    if left.len() != right.len() {
        DiversityRelation::ShapeMismatch { left: left.len() as usize, right: right.len() as usize }
    } else if genes_identical(left, right) {
        DiversityRelation::Identical
    } else {
        DiversityRelation::Distinct
    }
}

/// Whether two gene sequences are equal term for term.
pub(crate) fn genes_equal(left: &Vec<Real>, right: &Vec<Real>) -> (equal: bool)
    ensures
        equal == genes_identical(left@, right@),
{
    if left.len() != right.len() {
        return false;
    }
    let mut i: usize = 0;
    while i < left.len()
        invariant
            left@.len() == right@.len(),
            i <= left@.len(),
            forall|j: int| 0 <= j < i ==> #[trigger] real_same_form(left@[j], right@[j]),
        decreases left.len() - i,
    {
        if !same_form(&left[i], &right[i]) {
            return false;
        }
        i += 1;
    }
    true
}

/// Compares the structure of two genomes.
fn compare_genome_structure(left: &Genome, right: &Genome) -> (relation: DiversityRelation)
    ensures
        relation == genome_relation(left.genes@, right.genes@),
{
    if left.genes.len() != right.genes.len() {
        return DiversityRelation::ShapeMismatch { left: left.genes.len(), right: right.genes.len() };
    }
    if genes_equal(&left.genes, &right.genes) {
        DiversityRelation::Identical
    } else {
        DiversityRelation::Distinct
    }
}

/// The number of pairs `(first, second)` with `first < second`, `second`
/// taken from `from..genomes.len()`, whose relation satisfies `kind`.
pub open spec fn row_pairs(
    genomes: Seq<Seq<Real>>,
    first: int,
    from: int,
    kind: spec_fn(DiversityRelation) -> bool,
) -> nat
    decreases genomes.len() - from,
{
    if 0 <= from < genomes.len() {
        row_pairs(genomes, first, from + 1, kind) + if kind(genome_relation(genomes[first], genomes[from])) {
            1nat
        } else {
            0nat
        }
    } else {
        0
    }
}

/// The number of pairs `(first, second)` with `from <= first < second` whose
/// relation satisfies `kind`.
pub open spec fn pairs_from(
    genomes: Seq<Seq<Real>>,
    from: int,
    kind: spec_fn(DiversityRelation) -> bool,
) -> nat
    decreases genomes.len() - from,
{
    if 0 <= from < genomes.len() {
        row_pairs(genomes, from, from + 1, kind) + pairs_from(genomes, from + 1, kind)
    } else {
        0
    }
}

/// The number of unordered pairs of a population whose relation satisfies `kind`.
pub open spec fn pairs_where(genomes: Seq<Seq<Real>>, kind: spec_fn(DiversityRelation) -> bool) -> nat {
    pairs_from(genomes, 0, kind)
}

/// The genomes of a population.
pub open spec fn population_genomes(candidates: Seq<Candidate>) -> Seq<Seq<Real>> {
    candidates.map_values(|c: Candidate| c.genome.genes@)
}

/// Every pair.
pub open spec fn any_pair() -> spec_fn(DiversityRelation) -> bool {
    |relation: DiversityRelation| true
}

/// Identical pairs.
pub open spec fn identical_pair() -> spec_fn(DiversityRelation) -> bool {
    |relation: DiversityRelation| relation is Identical
}

/// Distinct pairs.
pub open spec fn distinct_pair() -> spec_fn(DiversityRelation) -> bool {
    |relation: DiversityRelation| relation is Distinct
}

/// Pairs of mismatched arity.
pub open spec fn mismatched_pair() -> spec_fn(DiversityRelation) -> bool {
    |relation: DiversityRelation| relation is ShapeMismatch
}

proof fn lemma_row_pairs_bounded(genomes: Seq<Seq<Real>>, first: int, from: int, kind: spec_fn(DiversityRelation) -> bool)
    requires
        0 <= from <= genomes.len(),
    ensures
        row_pairs(genomes, first, from, kind) <= genomes.len() - from,
        row_pairs(genomes, first, from, any_pair()) == genomes.len() - from,
        row_pairs(genomes, first, from, identical_pair()) + row_pairs(genomes, first, from, distinct_pair())
            + row_pairs(genomes, first, from, mismatched_pair()) == row_pairs(genomes, first, from, any_pair()),
    decreases genomes.len() - from,
{
    if from < genomes.len() {
        lemma_row_pairs_bounded(genomes, first, from + 1, kind);
    }
}

proof fn lemma_pairs_from(genomes: Seq<Seq<Real>>, from: int, kind: spec_fn(DiversityRelation) -> bool)
    requires
        0 <= from <= genomes.len(),
    ensures
        pairs_from(genomes, from, kind) <= pairs_from(genomes, from, any_pair()),
        2 * pairs_from(genomes, from, any_pair()) == (genomes.len() - from) * (genomes.len() - from - 1),
        pairs_from(genomes, from, identical_pair()) + pairs_from(genomes, from, distinct_pair())
            + pairs_from(genomes, from, mismatched_pair()) == pairs_from(genomes, from, any_pair()),
    decreases genomes.len() - from,
{
    if from < genomes.len() {
        lemma_pairs_from(genomes, from + 1, kind);
        lemma_row_pairs_bounded(genomes, from, from + 1, kind);
        let m = genomes.len() - from;
        assert(genomes.len() - (from + 1) == m - 1);
        assert(2 * pairs_from(genomes, from + 1, any_pair()) == (m - 1) * (m - 2));
        assert(row_pairs(genomes, from, from + 1, any_pair()) == m - 1);
        assert((m - 1) * (m - 2) + 2 * (m - 1) == m * (m - 1)) by (nonlinear_arith);
        assert(pairs_from(genomes, from, any_pair()) == row_pairs(genomes, from, from + 1, any_pair())
            + pairs_from(genomes, from + 1, any_pair()));
    } else {
        let m = genomes.len() - from;
        assert(m == 0);
        assert(m * (m - 1) == 0) by (nonlinear_arith)
            requires
                m == 0,
        ;
    }
}

/// Reports exact structural genome diversity for a population: every
/// unordered pair of candidates is classified as identical, distinct, or of
/// mismatched arity.
pub fn exact_structural_diversity(candidates: &[Candidate]) -> (report: DiversityReport)
    requires
        candidates@.len() * (candidates@.len() - 1) / 2 <= usize::MAX,
    ensures
        report.candidate_count == candidates@.len(),
        report.pair_count == pairs_where(population_genomes(candidates@), any_pair()),
        report.identical_pairs == pairs_where(population_genomes(candidates@), identical_pair()),
        report.distinct_pairs == pairs_where(population_genomes(candidates@), distinct_pair()),
        report.shape_mismatch_pairs == pairs_where(population_genomes(candidates@), mismatched_pair()),
        2 * report.pair_count == candidates@.len() * (candidates@.len() - 1),
        report.identical_pairs + report.distinct_pairs + report.shape_mismatch_pairs == report.pair_count,
{
    let ghost genomes = population_genomes(candidates@);
    let n = candidates.len();
    let mut report = DiversityReport {
        candidate_count: n,
        pair_count: 0,
        identical_pairs: 0,
        distinct_pairs: 0,
        shape_mismatch_pairs: 0,
    };
    proof {
        lemma_pairs_from(genomes, 0, any_pair());
    }
    let mut left: usize = 0;
    while left < n
        invariant
            n == candidates@.len(),
            genomes == population_genomes(candidates@),
            n * (n - 1) / 2 <= usize::MAX,
            2 * pairs_from(genomes, 0, any_pair()) == n * (n - 1),
            left <= n,
            report.candidate_count == n,
            report.pair_count + pairs_from(genomes, left as int, any_pair()) == pairs_from(genomes, 0, any_pair()),
            report.identical_pairs + pairs_from(genomes, left as int, identical_pair())
                == pairs_from(genomes, 0, identical_pair()),
            report.distinct_pairs + pairs_from(genomes, left as int, distinct_pair())
                == pairs_from(genomes, 0, distinct_pair()),
            report.shape_mismatch_pairs + pairs_from(genomes, left as int, mismatched_pair())
                == pairs_from(genomes, 0, mismatched_pair()),
        decreases n - left,
    {
        proof {
            lemma_pairs_from(genomes, left as int, any_pair());
            lemma_pairs_from(genomes, left as int + 1, any_pair());
            lemma_pairs_from(genomes, 0, identical_pair());
            lemma_pairs_from(genomes, 0, distinct_pair());
            lemma_pairs_from(genomes, 0, mismatched_pair());
            lemma_pairs_from(genomes, left as int, identical_pair());
            lemma_pairs_from(genomes, left as int, distinct_pair());
            lemma_pairs_from(genomes, left as int, mismatched_pair());
        }
        let mut right: usize = left + 1;
        while right < n
            invariant
                n == candidates@.len(),
                genomes == population_genomes(candidates@),
                n * (n - 1) / 2 <= usize::MAX,
                2 * pairs_from(genomes, 0, any_pair()) == n * (n - 1),
                pairs_from(genomes, 0, identical_pair()) <= pairs_from(genomes, 0, any_pair()),
                pairs_from(genomes, 0, distinct_pair()) <= pairs_from(genomes, 0, any_pair()),
                pairs_from(genomes, 0, mismatched_pair()) <= pairs_from(genomes, 0, any_pair()),
                left < n,
                left + 1 <= right <= n,
                report.candidate_count == n,
                report.pair_count + row_pairs(genomes, left as int, right as int, any_pair())
                    + pairs_from(genomes, left + 1, any_pair()) == pairs_from(genomes, 0, any_pair()),
                report.identical_pairs + row_pairs(genomes, left as int, right as int, identical_pair())
                    + pairs_from(genomes, left + 1, identical_pair()) == pairs_from(genomes, 0, identical_pair()),
                report.distinct_pairs + row_pairs(genomes, left as int, right as int, distinct_pair())
                    + pairs_from(genomes, left + 1, distinct_pair()) == pairs_from(genomes, 0, distinct_pair()),
                report.shape_mismatch_pairs + row_pairs(genomes, left as int, right as int, mismatched_pair())
                    + pairs_from(genomes, left + 1, mismatched_pair()) == pairs_from(genomes, 0, mismatched_pair()),
            decreases n - right,
        {
            proof {
                assert(genomes[left as int] == candidates@[left as int].genome.genes@);
                assert(genomes[right as int] == candidates@[right as int].genome.genes@);
            }
            let relation = compare_genome_structure(&candidates[left].genome, &candidates[right].genome);
            report.pair_count = report.pair_count + 1;
            match relation {
                DiversityRelation::Identical => report.identical_pairs = report.identical_pairs + 1,
                DiversityRelation::Distinct => report.distinct_pairs = report.distinct_pairs + 1,
                DiversityRelation::ShapeMismatch { .. } => {
                    report.shape_mismatch_pairs = report.shape_mismatch_pairs + 1
                },
            }
            right += 1;
        }
        left += 1;
    }
    proof {
        lemma_pairs_from(genomes, 0, any_pair());
    }
    report
}

/// Archive of accepted fitness reports.
#[derive(Debug, PartialEq)]
pub struct Archive {
    reports: Vec<FitnessReport>,
}

/// Whether every report of a sequence carries accepted replay.
pub open spec fn all_accepted(reports: Seq<FitnessReportView>) -> bool {
    forall|i: int| 0 <= i < reports.len() ==> #[trigger] reports[i].replay == ReplayStatus::Accepted
}

/// Whether the run's Pareto comparison of some archived report (report `i`
/// in part `i` of the record) with a newcomer found that it dominates it.
pub open spec fn dominated_by_archive(
    rec: RealComparer,
    archived: Seq<FitnessReportView>,
    newcomer: FitnessValueView,
    direction: FitnessDirection,
) -> bool {
    exists|i: int|
        0 <= i < archived.len() && #[trigger] pareto_verdict(at(rec, i), archived[i].value, newcomer, direction)
            == ParetoRelation::Dominates
}

/// The first `n` archived reports that survive a newcomer, in order: those
/// that the run's comparison of the newcomer with them (report `i` in part
/// `i` of the record) did not find dominated.
pub open spec fn survivors(
    rec: RealComparer,
    archived: Seq<FitnessReportView>,
    newcomer: FitnessValueView,
    direction: FitnessDirection,
    n: int,
) -> Seq<FitnessReportView>
    decreases n,
{
    if n <= 0 {
        Seq::empty()
    } else {
        let rest = survivors(rec, archived, newcomer, direction, n - 1);
        if pareto_verdict(at(rec, n - 1), newcomer, archived[n - 1].value, direction) != ParetoRelation::Dominates {
            rest.push(archived[n - 1])
        } else {
            rest
        }
    }
}

/// Every survivor is an archived report that the run did not find dominated
/// by the newcomer: survivor `i` is archived report `origins[i]`.
pub proof fn lemma_survivors_from_archive(
    rec: RealComparer,
    archived: Seq<FitnessReportView>,
    newcomer: FitnessValueView,
    direction: FitnessDirection,
    n: int,
) -> (origins: Seq<int>)
    requires
        0 <= n <= archived.len(),
    ensures
        origins.len() == survivors(rec, archived, newcomer, direction, n).len(),
        forall|i: int| 0 <= i < origins.len() ==> {
            &&& 0 <= #[trigger] origins[i] < n
            &&& survivors(rec, archived, newcomer, direction, n)[i] == archived[origins[i]]
            &&& pareto_verdict(at(rec, origins[i]), newcomer, archived[origins[i]].value, direction)
                != ParetoRelation::Dominates
        },
    decreases n,
{
    if n <= 0 {
        Seq::empty()
    } else {
        let earlier = lemma_survivors_from_archive(rec, archived, newcomer, direction, n - 1);
        if pareto_verdict(at(rec, n - 1), newcomer, archived[n - 1].value, direction) != ParetoRelation::Dominates {
            let origins = earlier.push(n - 1);
            assert forall|i: int| 0 <= i < origins.len() implies {
                &&& 0 <= #[trigger] origins[i] < n
                &&& survivors(rec, archived, newcomer, direction, n)[i] == archived[origins[i]]
                &&& pareto_verdict(at(rec, origins[i]), newcomer, archived[origins[i]].value, direction)
                    != ParetoRelation::Dominates
            } by {
                if i < earlier.len() {
                    assert(origins[i] == earlier[i]);
                }
            }
            origins
        } else {
            earlier
        }
    }
}

proof fn lemma_survivors_prefix(
    r1: RealComparer,
    r2: RealComparer,
    archived: Seq<FitnessReportView>,
    newcomer: FitnessValueView,
    direction: FitnessDirection,
    n: int,
)
    requires
        forall|j: int| 0 <= j < n ==> #[trigger] at(r1, j) == at(r2, j),
    ensures
        survivors(r1, archived, newcomer, direction, n) == survivors(r2, archived, newcomer, direction, n),
    decreases n,
{
    if n > 0 {
        lemma_survivors_prefix(r1, r2, archived, newcomer, direction, n - 1);
        assert(at(r1, n - 1) == at(r2, n - 1));
    }
}

/// What a non-dominated insertion under a record does: it inserts exactly
/// when the report is accepted and no archived report was found to dominate
/// it (part `0`), and then keeps the survivors (part `1`) followed by the
/// report.
pub open spec fn insertion_matches(
    rec: RealComparer,
    inserted: bool,
    before: Seq<FitnessReportView>,
    after: Seq<FitnessReportView>,
    report: FitnessReportView,
    direction: FitnessDirection,
) -> bool {
    &&& inserted == (report.replay == ReplayStatus::Accepted && !dominated_by_archive(
        at(rec, 0),
        before,
        report.value,
        direction,
    ))
    &&& inserted ==> after == survivors(at(rec, 1), before, report.value, direction, before.len() as int).push(report)
}

impl Archive {
    /// An archive only ever holds reports whose replay was accepted.
    #[verifier::type_invariant]
    spec fn holds_only_accepted(self) -> bool {
        all_accepted(report_views(self.reports@))
    }
}

impl View for Archive {
    type V = Seq<FitnessReportView>;

    closed spec fn view(&self) -> Seq<FitnessReportView> {
        report_views(self.reports@)
    }
}

impl Clone for Archive {
    /// A copy of the archive holding the same reports.
    fn clone(&self) -> (copy: Self)
        ensures
            copy@ == self@,
    {
        proof {
            use_type_invariant(self);
        }
        let mut reports: Vec<FitnessReport> = Vec::new();
        let mut i: usize = 0;
        while i < self.reports.len()
            invariant
                i <= self.reports@.len(),
                report_views(reports@) == report_views(self.reports@).take(i as int),
                all_accepted(report_views(self.reports@)),
            decreases self.reports.len() - i,
        {
            let ghost prior = reports@;
            reports.push(self.reports[i].duplicate());
            proof {
                assert(report_views(reports@) =~= report_views(prior).push(self.reports@[i as int]@));
                assert(report_views(self.reports@).take(i + 1) =~= report_views(self.reports@).take(i as int).push(
                    self.reports@[i as int]@,
                ));
            }
            i += 1;
        }
        proof {
            assert(report_views(self.reports@).take(self.reports@.len() as int) =~= report_views(self.reports@));
            assert forall|j: int| 0 <= j < report_views(reports@).len() implies #[trigger] report_views(reports@)[j].replay
                == ReplayStatus::Accepted by {
                assert(report_views(reports@)[j] == report_views(self.reports@)[j]);
            }
        }
        Archive { reports }
    }
}

impl Default for Archive {
    fn default() -> (archive: Self)
        ensures
            archive@ == Seq::<FitnessReportView>::empty(),
    {
        let archive = Archive { reports: Vec::new() };
        proof {
            assert(archive@ =~= Seq::<FitnessReportView>::empty());
        }
        archive
    }
}

impl Archive {
    /// Returns archived reports.
    pub fn reports(&self) -> (reports: &[FitnessReport])
        ensures
            report_views(reports@) == self@,
            all_accepted(self@),
    {
        proof {
            use_type_invariant(self);
        }
        self.reports.as_slice()
    }

    /// Inserts a report when exact replay accepted it.
    pub fn insert_replayed(&mut self, report: FitnessReport) -> (inserted: bool)
        ensures
            inserted == (report.replay == ReplayStatus::Accepted),
            inserted ==> final(self)@ == old(self)@.push(report@),
            !inserted ==> final(self)@ == old(self)@,
            all_accepted(final(self)@),
    {
        proof {
            use_type_invariant(&*self);
        }
        if report.replay != ReplayStatus::Accepted {
            return false;
        }
        let mut reports: Vec<FitnessReport> = Vec::new();
        std::mem::swap(&mut reports, &mut self.reports);
        let ghost before = reports@;
        reports.push(report);
        proof {
            assert(report_views(reports@) =~= report_views(before).push(report@));
        }
        self.reports = reports;
        true
    }

    /// Inserts a Pareto report while removing the archived reports it
    /// dominates. A report that is not accepted, or that some archived report
    /// is found to dominate, is refused and leaves the archive unchanged. Part
    /// `0` of the record holds the comparisons of the archived reports with the
    /// newcomer, part `1` those of the newcomer with the archived reports.
    pub fn insert_non_dominated(&mut self, report: FitnessReport, direction: FitnessDirection) -> (inserted: bool)
        ensures
            exists|rec: RealComparer|
                comparer_sound(rec) && #[trigger] insertion_matches(rec, inserted, old(self)@, final(self)@, report@, direction),
            !inserted ==> final(self)@ == old(self)@,
            all_accepted(final(self)@),
    {
        proof {
            use_type_invariant(&*self);
            lemma_settled_sound();
        }
        let ghost before = self@;
        let ghost mut r0: RealComparer = settled();
        let ghost mut r1: RealComparer = settled();
        if report.replay != ReplayStatus::Accepted {
            proof {
                lemma_settled_sound();
                lemma_graft(settled(), 0, r0);
                let rec = graft(settled(), 0, r0);
                assert(insertion_matches(rec, false, before, before, report@, direction));
            }
            return false;
        }
        let mut i: usize = 0;
        while i < self.reports.len()
            invariant
                self@ == before,
                all_accepted(before),
                i <= self.reports@.len(),
                comparer_sound(r0),
                forall|j: int| 0 <= j < i ==> #[trigger] pareto_verdict(at(r0, j), before[j].value, report.value@, direction)
                    != ParetoRelation::Dominates,
            decreases self.reports.len() - i,
        {
            assert(before[i as int] == self.reports@[i as int]@);
            let relation = self.reports[i].value.compare_pareto(&report.value, direction);
            let ghost previous = r0;
            proof {
                let c = choose|c: RealComparer| comparer_sound(c) && relation == #[trigger] pareto_verdict(
                    c,
                    before[i as int].value,
                    report.value@,
                    direction,
                );
                lemma_graft(previous, i as int, c);
                r0 = graft(previous, i as int, c);
                assert forall|j: int| 0 <= j < i implies #[trigger] pareto_verdict(
                    at(r0, j),
                    before[j].value,
                    report.value@,
                    direction,
                ) != ParetoRelation::Dominates by {
                    assert(at(r0, j) == at(previous, j));
                }
                assert(pareto_verdict(at(r0, i as int), before[i as int].value, report.value@, direction) == relation);
            }
            if relation == ParetoRelation::Dominates {
                proof {
                    lemma_settled_sound();
                    lemma_graft(settled(), 0, r0);
                    assert(dominated_by_archive(at(graft(settled(), 0, r0), 0), before, report.value@, direction));
                    assert(insertion_matches(graft(settled(), 0, r0), false, before, before, report@, direction));
                }
                return false;
            }
            i += 1;
        }
        let mut remaining: Vec<FitnessReport> = Vec::new();
        std::mem::swap(&mut remaining, &mut self.reports);
        assert(report_views(remaining@) == before);
        let mut kept: Vec<FitnessReport> = Vec::new();
        let mut k: usize = 0;
        let n = remaining.len();
        while k < n
            invariant
                n == before.len(),
                k <= n,
                all_accepted(before),
                comparer_sound(r1),
                report_views(remaining@) == before.subrange(k as int, n as int),
                report_views(kept@) == survivors(r1, before, report.value@, direction, k as int),
                all_accepted(report_views(kept@)),
            decreases n - k,
        {
            proof {
                assert(report_views(remaining@).len() == remaining@.len());
                assert(report_views(remaining@)[0] == remaining@[0]@);
            }
            let ghost pending = remaining@;
            let existing = remaining.remove(0);
            proof {
                assert(existing@ == before[k as int]);
                assert(remaining@ =~= pending.subrange(1, pending.len() as int));
                assert forall|j: int| 0 <= j < remaining@.len() implies #[trigger] report_views(remaining@)[j]
                    == before.subrange(k + 1, n as int)[j] by {
                    assert(remaining@[j] == pending[j + 1]);
                    assert(report_views(pending)[j + 1] == before.subrange(k as int, n as int)[j + 1]);
                }
                assert(report_views(remaining@) =~= before.subrange(k + 1, n as int));
            }
            let relation = report.value.compare_pareto(&existing.value, direction);
            let ghost previous = r1;
            proof {
                let c = choose|c: RealComparer| comparer_sound(c) && relation == #[trigger] pareto_verdict(
                    c,
                    report.value@,
                    before[k as int].value,
                    direction,
                );
                lemma_graft(previous, k as int, c);
                r1 = graft(previous, k as int, c);
                assert forall|j: int| 0 <= j < k implies #[trigger] at(r1, j) == at(previous, j) by {}
                lemma_survivors_prefix(r1, previous, before, report.value@, direction, k as int);
                assert(pareto_verdict(at(r1, k as int), report.value@, before[k as int].value, direction) == relation);
            }
            if relation != ParetoRelation::Dominates {
                let ghost prior = kept@;
                kept.push(existing);
                proof {
                    assert(report_views(kept@) =~= report_views(prior).push(existing@));
                    assert forall|j: int| 0 <= j < report_views(kept@).len() implies #[trigger] report_views(kept@)[j].replay
                        == ReplayStatus::Accepted by {
                        if j < report_views(prior).len() {
                            assert(report_views(kept@)[j] == report_views(prior)[j]);
                        }
                    }
                }
            }
            k += 1;
        }
        let ghost survivors_list = kept@;
        kept.push(report);
        proof {
            assert(report_views(kept@) =~= report_views(survivors_list).push(report@));
            assert forall|j: int| 0 <= j < report_views(kept@).len() implies #[trigger] report_views(kept@)[j].replay
                == ReplayStatus::Accepted by {
                if j < report_views(survivors_list).len() {
                    assert(report_views(kept@)[j] == report_views(survivors_list)[j]);
                }
            }
        }
        self.reports = kept;
        proof {
            lemma_settled_sound();
            lemma_graft(settled(), 0, r0);
            let g = graft(settled(), 0, r0);
            lemma_graft(g, 1, r1);
            let rec = graft(g, 1, r1);
            assert(at(rec, 0) == at(g, 0));
            assert(at(rec, 1) == r1);
            assert(!dominated_by_archive(at(rec, 0), before, report.value@, direction));
            assert(self@ == survivors(at(rec, 1), before, report.value@, direction, before.len() as int).push(report@));
            assert(insertion_matches(rec, true, before, self@, report@, direction));
        }
        true
    }
}

} // verus!
