//! Typed genetic-programming expression genomes.
//!
//! Generated programs are checked before evaluation: validation reports arity,
//! depth, node budget, unbound inputs, and division by structurally zero
//! constants. Exact values and domain reports decide acceptance.

use crate::exact::{
    add_reals, div_reals, mul_reals, negate_real, real_difference, real_negation, real_product,
    real_of_integer, real_quotient, real_sum, real_integer, real_true_order, real_unsignalled, structural_sign, sub_reals,
    RealOrder, RealSignFact,
};
use hyperreal::Real;
use std::collections::HashMap;
use vstd::prelude::*;

verus! {

broadcast use vstd::std_specs::hash::group_hash_axioms;

/// Typed GP expression over exact `Real` values.
#[derive(Debug, PartialEq)]
pub enum GpRealExpr {
    /// Exact constant.
    Constant(Box<Real>),
    /// Input slot by arity index.
    Input(usize),
    /// Addition.
    Add(Box<GpRealExpr>, Box<GpRealExpr>),
    /// Subtraction.
    Sub(Box<GpRealExpr>, Box<GpRealExpr>),
    /// Multiplication.
    Mul(Box<GpRealExpr>, Box<GpRealExpr>),
    /// Checked division.
    Div(Box<GpRealExpr>, Box<GpRealExpr>),
    /// Negation.
    Neg(Box<GpRealExpr>),
}

impl Clone for GpRealExpr {
    /// A copy of the whole tree.
    fn clone(&self) -> (copy: Self)
        ensures
            copy == *self,
        decreases self,
    {
        match self {
            GpRealExpr::Constant(value) => GpRealExpr::Constant(Box::new((**value).clone())),
            GpRealExpr::Input(index) => GpRealExpr::Input(*index),
            GpRealExpr::Add(left, right) => GpRealExpr::Add(Box::new((**left).clone()), Box::new((**right).clone())),
            GpRealExpr::Sub(left, right) => GpRealExpr::Sub(Box::new((**left).clone()), Box::new((**right).clone())),
            GpRealExpr::Mul(left, right) => GpRealExpr::Mul(Box::new((**left).clone()), Box::new((**right).clone())),
            GpRealExpr::Div(left, right) => GpRealExpr::Div(Box::new((**left).clone()), Box::new((**right).clone())),
            GpRealExpr::Neg(value) => GpRealExpr::Neg(Box::new((**value).clone())),
        }
    }
}

/// Validation limits for GP expression genomes.
#[derive(Clone, Copy, Debug, PartialEq, Eq, Structural)]
pub struct GpValidationLimits {
    /// Number of input slots available to the expression.
    pub input_arity: usize,
    /// Maximum allowed tree depth. A leaf has depth 1.
    pub max_depth: usize,
    /// Maximum allowed node count.
    pub max_nodes: usize,
}

/// One validation or evaluation issue.
#[derive(Clone, Debug, PartialEq, Eq, Structural)]
pub enum GpValidationIssue {
    /// An input index was outside the declared arity.
    InputOutOfBounds {
        /// Referenced input.
        input: usize,
        /// Declared arity.
        arity: usize,
    },
    /// Tree exceeded the configured depth budget.
    DepthExceeded {
        /// Observed depth.
        depth: usize,
        /// Allowed depth.
        max_depth: usize,
    },
    /// Tree exceeded the configured node budget.
    NodeBudgetExceeded {
        /// Observed node count.
        nodes: usize,
        /// Allowed nodes.
        max_nodes: usize,
    },
    /// A division denominator is structurally known to be zero.
    DivisionByZero,
    /// Evaluation input was missing.
    MissingInput {
        /// Missing input index.
        input: usize,
    },
    /// Exact scalar division failed.
    UnsupportedDivision,
}

/// Report produced before evaluating a GP expression.
#[derive(Clone, Debug, PartialEq, Eq)]
pub struct GpValidationReport {
    /// Observed depth.
    pub depth: usize,
    /// Observed node count.
    pub nodes: usize,
    /// Validation issues.
    pub issues: Vec<GpValidationIssue>,
}

impl GpValidationReport {
    /// Returns whether the expression passed all checks.
    pub fn is_valid(&self) -> (valid: bool)
        ensures
            valid == (self.issues@.len() == 0),
    {
        self.issues.len() == 0
    }
}

/// Where an expression reads its inputs.
pub(crate) enum GpInputs<'a> {
    /// Input `i` is `values[i]`, when it exists.
    Dense(&'a [Real]),
    /// Input `i` is the value stored under key `i`, when there is one.
    Sparse(&'a HashMap<usize, Real>),
}

/// The input lookup of a dense slice of values.
pub open spec fn dense_lookup(values: Seq<Real>) -> spec_fn(usize) -> Option<Real> {
    |index: usize| if index < values.len() { Some(values[index as int]) } else { None }
}

/// The input lookup of a sparse map of values.
pub open spec fn sparse_lookup(values: Map<usize, Real>) -> spec_fn(usize) -> Option<Real> {
    |index: usize| if values.contains_key(index) { Some(values[index]) } else { None }
}

pub(crate) open spec fn inputs_lookup(inputs: GpInputs) -> spec_fn(usize) -> Option<Real> {
    match inputs {
        GpInputs::Dense(values) => dense_lookup(values@),
        GpInputs::Sparse(values) => sparse_lookup(values@),
    }
}

/// Combines two evaluated operands, keeping the left error first.
pub open spec fn both_then(
    left: Result<Real, GpValidationIssue>,
    right: Result<Real, GpValidationIssue>,
    combine: spec_fn(Real, Real) -> Result<Real, GpValidationIssue>,
) -> Result<Real, GpValidationIssue> {
    match left {
        Err(issue) => Err(issue),
        Ok(a) => match right {
            Err(issue) => Err(issue),
            Ok(b) => combine(a, b),
        },
    }
}

/// Combines two folded constants.
pub open spec fn both_constant(
    left: Option<Real>,
    right: Option<Real>,
    combine: spec_fn(Real, Real) -> Option<Real>,
) -> Option<Real> {
    match (left, right) {
        (Some(a), Some(b)) => combine(a, b),
        _ => None,
    }
}

/// Division-by-zero decisions of one validation, by node path.
pub type DivisionFlags = spec_fn(Seq<int>) -> bool;

/// The decisions within child `j`.
pub open spec fn child_flags(flags: DivisionFlags, j: int) -> DivisionFlags {
    |p: Seq<int>| flags(seq![j] + p)
}

/// Decisions with `own` at the root and `left` and `right` in the children.
pub open spec fn join_flags(own: bool, left: DivisionFlags, right: DivisionFlags) -> DivisionFlags {
    |p: Seq<int>| if p.len() == 0 {
        own
    } else if p[0] == 0 {
        left(p.drop_first())
    } else {
        right(p.drop_first())
    }
}

proof fn lemma_join_flags(own: bool, left: DivisionFlags, right: DivisionFlags)
    ensures
        join_flags(own, left, right)(Seq::<int>::empty()) == own,
        child_flags(join_flags(own, left, right), 0) == left,
        child_flags(join_flags(own, left, right), 1) == right,
{
    assert forall|p: Seq<int>| #[trigger] child_flags(join_flags(own, left, right), 0)(p) == left(p) by {
        assert((seq![0int] + p).drop_first() =~= p);
    }
    assert forall|p: Seq<int>| #[trigger] child_flags(join_flags(own, left, right), 1)(p) == right(p) by {
        assert((seq![1int] + p).drop_first() =~= p);
    }
    assert(child_flags(join_flags(own, left, right), 0) =~= left);
    assert(child_flags(join_flags(own, left, right), 1) =~= right);
}

impl GpRealExpr {
    /// Depth of the tree; a leaf has depth 1.
    pub open spec fn tree_depth(self) -> nat
        decreases self,
    {
        match self {
            GpRealExpr::Constant(_) => 1,
            GpRealExpr::Input(_) => 1,
            GpRealExpr::Neg(value) => 1 + value.tree_depth(),
            GpRealExpr::Add(left, right) => 1 + vstd::math::max(left.tree_depth() as int, right.tree_depth() as int) as nat,
            GpRealExpr::Sub(left, right) => 1 + vstd::math::max(left.tree_depth() as int, right.tree_depth() as int) as nat,
            GpRealExpr::Mul(left, right) => 1 + vstd::math::max(left.tree_depth() as int, right.tree_depth() as int) as nat,
            GpRealExpr::Div(left, right) => 1 + vstd::math::max(left.tree_depth() as int, right.tree_depth() as int) as nat,
        }
    }

    /// Number of nodes of the tree.
    pub open spec fn tree_nodes(self) -> nat
        decreases self,
    {
        match self {
            GpRealExpr::Constant(_) => 1,
            GpRealExpr::Input(_) => 1,
            GpRealExpr::Neg(value) => 1 + value.tree_nodes(),
            GpRealExpr::Add(left, right) => 1 + left.tree_nodes() + right.tree_nodes(),
            GpRealExpr::Sub(left, right) => 1 + left.tree_nodes() + right.tree_nodes(),
            GpRealExpr::Mul(left, right) => 1 + left.tree_nodes() + right.tree_nodes(),
            GpRealExpr::Div(left, right) => 1 + left.tree_nodes() + right.tree_nodes(),
        }
    }

    /// The exact value of an input-free subtree, folded bottom-up; `None` when
    /// it reads an input or a division fails.
    pub open spec fn folded_constant(self) -> Option<Real>
        decreases self,
    {
        match self {
            GpRealExpr::Constant(value) => Some(*value),
            GpRealExpr::Input(_) => None,
            GpRealExpr::Neg(value) => match value.folded_constant() {
                Some(v) => Some(real_negation(v)),
                None => None,
            },
            GpRealExpr::Add(left, right) => both_constant(
                left.folded_constant(),
                right.folded_constant(),
                |a: Real, b: Real| Some(real_sum(a, b)),
            ),
            GpRealExpr::Sub(left, right) => both_constant(
                left.folded_constant(),
                right.folded_constant(),
                |a: Real, b: Real| Some(real_difference(a, b)),
            ),
            GpRealExpr::Mul(left, right) => both_constant(
                left.folded_constant(),
                right.folded_constant(),
                |a: Real, b: Real| Some(real_product(a, b)),
            ),
            GpRealExpr::Div(left, right) => both_constant(
                left.folded_constant(),
                right.folded_constant(),
                |a: Real, b: Real| real_quotient(a, b),
            ),
        }
    }

    /// Whether a decision to report this node's division as one by zero is
    /// one the structural sign check may take: it must report a denominator
    /// that folds to a value stored as the exact whole number zero, and may
    /// report only one that folds to a value that, where no abort signal is
    /// attached to it, is zero. Other nodes are never reported.
    pub open spec fn division_flag_sound(self, flagged: bool) -> bool {
        match self {
            GpRealExpr::Div(_, right) => {
                &&& (right.folded_constant() matches Some(c) && real_integer(c) == Some(0int)) ==> flagged
                &&& flagged ==> (right.folded_constant() matches Some(c) && (real_unsignalled(c) ==> real_true_order(
                    c,
                    real_of_integer(0),
                ) == RealOrder::Equal))
            },
            _ => !flagged,
        }
    }

    /// Whether every division decision of a record is sound; the node at path
    /// `p` (`0` for the left or only child, `1` for the right) has decision
    /// `flags(p)`.
    pub open spec fn flags_sound(self, flags: DivisionFlags) -> bool
        decreases self,
    {
        &&& self.division_flag_sound(flags(Seq::<int>::empty()))
        &&& match self {
            GpRealExpr::Constant(_) => true,
            GpRealExpr::Input(_) => true,
            GpRealExpr::Neg(value) => value.flags_sound(child_flags(flags, 0)),
            GpRealExpr::Add(left, right) => left.flags_sound(child_flags(flags, 0)) && right.flags_sound(child_flags(flags, 1)),
            GpRealExpr::Sub(left, right) => left.flags_sound(child_flags(flags, 0)) && right.flags_sound(child_flags(flags, 1)),
            GpRealExpr::Mul(left, right) => left.flags_sound(child_flags(flags, 0)) && right.flags_sound(child_flags(flags, 1)),
            GpRealExpr::Div(left, right) => left.flags_sound(child_flags(flags, 0)) && right.flags_sound(child_flags(flags, 1)),
        }
    }

    /// The issue this node raises by itself: an input outside the arity, or a
    /// division reported as one by zero.
    pub open spec fn node_issues(self, arity: usize, flagged: bool) -> Seq<GpValidationIssue> {
        match self {
            GpRealExpr::Input(index) => if index >= arity {
                seq![GpValidationIssue::InputOutOfBounds { input: index, arity }]
            } else {
                Seq::empty()
            },
            GpRealExpr::Div(_, _) => if flagged {
                seq![GpValidationIssue::DivisionByZero]
            } else {
                Seq::empty()
            },
            _ => Seq::empty(),
        }
    }

    /// Structural issues of the tree in pre-order: a node's own issue, then
    /// its left subtree's, then its right subtree's.
    pub open spec fn tree_issues(self, arity: usize, flags: DivisionFlags) -> Seq<GpValidationIssue>
        decreases self,
    {
        self.node_issues(arity, flags(Seq::<int>::empty())) + match self {
            GpRealExpr::Constant(_) => Seq::empty(),
            GpRealExpr::Input(_) => Seq::empty(),
            GpRealExpr::Neg(value) => value.tree_issues(arity, child_flags(flags, 0)),
            GpRealExpr::Add(left, right) => left.tree_issues(arity, child_flags(flags, 0)) + right.tree_issues(arity, child_flags(flags, 1)),
            GpRealExpr::Sub(left, right) => left.tree_issues(arity, child_flags(flags, 0)) + right.tree_issues(arity, child_flags(flags, 1)),
            GpRealExpr::Mul(left, right) => left.tree_issues(arity, child_flags(flags, 0)) + right.tree_issues(arity, child_flags(flags, 1)),
            GpRealExpr::Div(left, right) => left.tree_issues(arity, child_flags(flags, 0)) + right.tree_issues(arity, child_flags(flags, 1)),
        }
    }

    /// All validation issues: the depth budget issue, then the node budget
    /// issue, then the structural issues.
    pub open spec fn validation_issues(self, limits: GpValidationLimits, flags: DivisionFlags) -> Seq<GpValidationIssue> {
        let depth = self.tree_depth();
        let nodes = self.tree_nodes();
        (if depth > limits.max_depth {
            seq![GpValidationIssue::DepthExceeded { depth: depth as usize, max_depth: limits.max_depth }]
        } else {
            Seq::empty()
        }) + (if nodes > limits.max_nodes {
            seq![GpValidationIssue::NodeBudgetExceeded { nodes: nodes as usize, max_nodes: limits.max_nodes }]
        } else {
            Seq::empty()
        }) + self.tree_issues(limits.input_arity, flags)
    }

    /// Issues that validation reports under some sound division decisions.
    pub open spec fn validation_possible(self, limits: GpValidationLimits, issues: Seq<GpValidationIssue>) -> bool {
        exists|flags: DivisionFlags| self.flags_sound(flags) && issues == #[trigger] self.validation_issues(limits, flags)
    }

    /// The exact value of the expression over an input lookup. Operands are
    /// evaluated left to right and the first issue met is returned.
    pub open spec fn tree_value(self, lookup: spec_fn(usize) -> Option<Real>) -> Result<Real, GpValidationIssue>
        decreases self,
    {
        match self {
            GpRealExpr::Constant(value) => Ok(*value),
            GpRealExpr::Input(index) => match lookup(index) {
                Some(v) => Ok(v),
                None => Err(GpValidationIssue::MissingInput { input: index }),
            },
            GpRealExpr::Neg(value) => match value.tree_value(lookup) {
                Ok(v) => Ok(real_negation(v)),
                Err(issue) => Err(issue),
            },
            GpRealExpr::Add(left, right) => both_then(
                left.tree_value(lookup),
                right.tree_value(lookup),
                |a: Real, b: Real| Ok(real_sum(a, b)),
            ),
            GpRealExpr::Sub(left, right) => both_then(
                left.tree_value(lookup),
                right.tree_value(lookup),
                |a: Real, b: Real| Ok(real_difference(a, b)),
            ),
            GpRealExpr::Mul(left, right) => both_then(
                left.tree_value(lookup),
                right.tree_value(lookup),
                |a: Real, b: Real| Ok(real_product(a, b)),
            ),
            GpRealExpr::Div(left, right) => both_then(
                left.tree_value(lookup),
                right.tree_value(lookup),
                |a: Real, b: Real| match real_quotient(a, b) {
                    Some(q) => Ok(q),
                    None => Err(GpValidationIssue::UnsupportedDivision),
                },
            ),
        }
    }

    /// Validates arity and bloat limits before evaluation.
    pub fn validate(&self, limits: GpValidationLimits) -> (report: GpValidationReport)
        requires
            self.tree_nodes() <= usize::MAX,
        ensures
            report.depth == self.tree_depth(),
            report.nodes == self.tree_nodes(),
            self.validation_possible(limits, report.issues@),
    {
        let mut issues: Vec<GpValidationIssue> = Vec::new();
        let (depth, nodes) = self.collect_validation_metrics(limits.input_arity, &mut issues);
        let ghost flags = choose|flags: DivisionFlags| self.flags_sound(flags) && issues@ == Seq::<
            GpValidationIssue,
        >::empty() + self.tree_issues(limits.input_arity, flags);
        let depth_exceeded = depth > limits.max_depth;
        if depth_exceeded {
            issues.insert(0, GpValidationIssue::DepthExceeded { depth, max_depth: limits.max_depth });
        }
        if nodes > limits.max_nodes {
            let at: usize = if depth_exceeded { 1 } else { 0 };
            issues.insert(at, GpValidationIssue::NodeBudgetExceeded { nodes, max_nodes: limits.max_nodes });
        }
        assert(issues@ =~= self.validation_issues(limits, flags));
        GpValidationReport { depth, nodes, issues }
    }

    pub proof fn lemma_depth_within_nodes(&self)
        ensures
            1 <= self.tree_depth() <= self.tree_nodes(),
        decreases self,
    {
        match self {
            GpRealExpr::Constant(_) => {},
            GpRealExpr::Input(_) => {},
            GpRealExpr::Neg(value) => value.lemma_depth_within_nodes(),
            GpRealExpr::Add(left, right) => {
                left.lemma_depth_within_nodes();
                right.lemma_depth_within_nodes();
            },
            GpRealExpr::Sub(left, right) => {
                left.lemma_depth_within_nodes();
                right.lemma_depth_within_nodes();
            },
            GpRealExpr::Mul(left, right) => {
                left.lemma_depth_within_nodes();
                right.lemma_depth_within_nodes();
            },
            GpRealExpr::Div(left, right) => {
                left.lemma_depth_within_nodes();
                right.lemma_depth_within_nodes();
            },
        }
    }

    fn collect_binary(
        left: &GpRealExpr,
        right: &GpRealExpr,
        arity: usize,
        issues: &mut Vec<GpValidationIssue>,
    ) -> (metrics: (usize, usize))
        requires
            1 + left.tree_nodes() + right.tree_nodes() <= usize::MAX,
        ensures
            metrics.0 == 1 + vstd::math::max(left.tree_depth() as int, right.tree_depth() as int),
            metrics.1 == 1 + left.tree_nodes() + right.tree_nodes(),
            exists|fl: DivisionFlags, fr: DivisionFlags|
                left.flags_sound(fl) && right.flags_sound(fr) && final(issues)@ == old(issues)@ + #[trigger] left.tree_issues(
                    arity,
                    fl,
                ) + #[trigger] right.tree_issues(arity, fr),
        decreases 1 + left.tree_nodes() + right.tree_nodes(), 0nat,
    {
        proof {
            left.lemma_depth_within_nodes();
            right.lemma_depth_within_nodes();
        }
        let ghost start = issues@;
        let (left_depth, left_nodes) = left.collect_validation_metrics(arity, issues);
        let ghost middle = issues@;
        let (right_depth, right_nodes) = right.collect_validation_metrics(arity, issues);
        proof {
            let fl = choose|f: DivisionFlags| left.flags_sound(f) && middle == start + #[trigger] left.tree_issues(arity, f);
            let fr = choose|f: DivisionFlags| right.flags_sound(f) && issues@ == middle + #[trigger] right.tree_issues(arity, f);
            assert(issues@ == start + left.tree_issues(arity, fl) + right.tree_issues(arity, fr));
        }
        let depth = if left_depth >= right_depth { left_depth } else { right_depth };
        (1 + depth, 1 + left_nodes + right_nodes)
    }

    fn collect_validation_metrics(&self, arity: usize, issues: &mut Vec<GpValidationIssue>) -> (metrics: (
        usize,
        usize,
    ))
        requires
            self.tree_nodes() <= usize::MAX,
        ensures
            metrics.0 == self.tree_depth(),
            metrics.1 == self.tree_nodes(),
            exists|flags: DivisionFlags|
                self.flags_sound(flags) && final(issues)@ == old(issues)@ + #[trigger] self.tree_issues(arity, flags),
        decreases self.tree_nodes(), 1nat,
    {
        let ghost start = issues@;
        let mut flagged = false;
        match self {
            GpRealExpr::Input(index) => {
                if *index >= arity {
                    issues.push(GpValidationIssue::InputOutOfBounds { input: *index, arity });
                }
            },
            GpRealExpr::Div(_, right) => {
                let zero_divisor = match right.constant_value() {
                    Some(value) => structural_sign(&value) == Some(RealSignFact::Zero),
                    None => false,
                };
                if zero_divisor {
                    issues.push(GpValidationIssue::DivisionByZero);
                }
                flagged = zero_divisor;
            },
            _ => {},
        }
        assert(self.division_flag_sound(flagged));
        assert(issues@ == start + self.node_issues(arity, flagged));
        let ghost own = issues@;
        let metrics = match self {
            GpRealExpr::Constant(_) => (1, 1),
            GpRealExpr::Input(_) => (1, 1),
            GpRealExpr::Neg(value) => {
                proof {
                    value.lemma_depth_within_nodes();
                }
                let (depth, nodes) = value.collect_validation_metrics(arity, issues);
                (1 + depth, 1 + nodes)
            },
            GpRealExpr::Add(left, right) => GpRealExpr::collect_binary(left, right, arity, issues),
            GpRealExpr::Sub(left, right) => GpRealExpr::collect_binary(left, right, arity, issues),
            GpRealExpr::Mul(left, right) => GpRealExpr::collect_binary(left, right, arity, issues),
            GpRealExpr::Div(left, right) => GpRealExpr::collect_binary(left, right, arity, issues),
        };
        proof {
            match self {
                GpRealExpr::Constant(_) | GpRealExpr::Input(_) => {
                    let flags = join_flags(flagged, |p: Seq<int>| false, |p: Seq<int>| false);
                    lemma_join_flags(flagged, |p: Seq<int>| false, |p: Seq<int>| false);
                    assert(issues@ =~= start + self.tree_issues(arity, flags));
                },
                GpRealExpr::Neg(value) => {
                    let fl = choose|f: DivisionFlags| value.flags_sound(f) && issues@ == own + #[trigger] value.tree_issues(arity, f);
                    let flags = join_flags(flagged, fl, fl);
                    lemma_join_flags(flagged, fl, fl);
                    assert(issues@ =~= start + self.tree_issues(arity, flags));
                },
                GpRealExpr::Add(left, right) | GpRealExpr::Sub(left, right) | GpRealExpr::Mul(left, right)
                | GpRealExpr::Div(left, right) => {
                    let (fl, fr) = choose|fl: DivisionFlags, fr: DivisionFlags|
                        left.flags_sound(fl) && right.flags_sound(fr) && issues@ == own + #[trigger] left.tree_issues(
                            arity,
                            fl,
                        ) + #[trigger] right.tree_issues(arity, fr);
                    let flags = join_flags(flagged, fl, fr);
                    lemma_join_flags(flagged, fl, fr);
                    assert(issues@ =~= start + self.tree_issues(arity, flags));
                    assert(self.flags_sound(flags));
                },
            }
        }
        metrics
    }

    fn constant_value(&self) -> (value: Option<Real>)
        ensures
            value == self.folded_constant(),
        decreases self,
    {
        match self {
            GpRealExpr::Constant(value) => Some((**value).clone()),
            GpRealExpr::Input(_) => None,
            GpRealExpr::Neg(value) => match value.constant_value() {
                Some(v) => Some(negate_real(&v)),
                None => None,
            },
            GpRealExpr::Add(left, right) => match (left.constant_value(), right.constant_value()) {
                (Some(a), Some(b)) => Some(add_reals(&a, &b)),
                _ => None,
            },
            GpRealExpr::Sub(left, right) => match (left.constant_value(), right.constant_value()) {
                (Some(a), Some(b)) => Some(sub_reals(&a, &b)),
                _ => None,
            },
            GpRealExpr::Mul(left, right) => match (left.constant_value(), right.constant_value()) {
                (Some(a), Some(b)) => Some(mul_reals(&a, &b)),
                _ => None,
            },
            GpRealExpr::Div(left, right) => match (left.constant_value(), right.constant_value()) {
                (Some(a), Some(b)) => match div_reals(&a, &b) {
                    Ok(q) => Some(q),
                    Err(_) => None,
                },
                _ => None,
            },
        }
    }

    /// Returns the expression depth. A leaf has depth 1.
    pub fn depth(&self) -> (depth: usize)
        requires
            self.tree_nodes() <= usize::MAX,
        ensures
            depth == self.tree_depth(),
        decreases self,
    {
        proof {
            self.lemma_depth_within_nodes();
        }
        match self {
            GpRealExpr::Constant(_) => 1,
            GpRealExpr::Input(_) => 1,
            GpRealExpr::Neg(value) => 1 + value.depth(),
            GpRealExpr::Add(left, right) => 1 + max_usize(left.depth(), right.depth()),
            GpRealExpr::Sub(left, right) => 1 + max_usize(left.depth(), right.depth()),
            GpRealExpr::Mul(left, right) => 1 + max_usize(left.depth(), right.depth()),
            GpRealExpr::Div(left, right) => 1 + max_usize(left.depth(), right.depth()),
        }
    }

    /// Returns the expression node count.
    pub fn node_count(&self) -> (nodes: usize)
        requires
            self.tree_nodes() <= usize::MAX,
        ensures
            nodes == self.tree_nodes(),
        decreases self,
    {
        match self {
            GpRealExpr::Constant(_) => 1,
            GpRealExpr::Input(_) => 1,
            GpRealExpr::Neg(value) => 1 + value.node_count(),
            GpRealExpr::Add(left, right) => 1 + left.node_count() + right.node_count(),
            GpRealExpr::Sub(left, right) => 1 + left.node_count() + right.node_count(),
            GpRealExpr::Mul(left, right) => 1 + left.node_count() + right.node_count(),
            GpRealExpr::Div(left, right) => 1 + left.node_count() + right.node_count(),
        }
    }

    /// Evaluates a GP expression over exact inputs; input `i` is `inputs[i]`.
    pub fn eval(&self, inputs: &[Real]) -> (value: Result<Real, GpValidationIssue>)
        ensures
            value == self.tree_value(dense_lookup(inputs@)),
    {
        self.eval_with(&GpInputs::Dense(inputs))
    }

    fn eval_with(&self, inputs: &GpInputs) -> (value: Result<Real, GpValidationIssue>)
        ensures
            value == self.tree_value(inputs_lookup(*inputs)),
        decreases self,
    {
        match self {
            GpRealExpr::Constant(value) => Ok((**value).clone()),
            GpRealExpr::Input(index) => match lookup_input(inputs, *index) {
                Some(v) => Ok(v),
                None => Err(GpValidationIssue::MissingInput { input: *index }),
            },
            GpRealExpr::Neg(value) => match value.eval_with(inputs) {
                Ok(v) => Ok(negate_real(&v)),
                Err(issue) => Err(issue),
            },
            GpRealExpr::Add(left, right) => {
                let a = left.eval_with(inputs)?;
                let b = right.eval_with(inputs)?;
                Ok(add_reals(&a, &b))
            },
            GpRealExpr::Sub(left, right) => {
                let a = left.eval_with(inputs)?;
                let b = right.eval_with(inputs)?;
                Ok(sub_reals(&a, &b))
            },
            GpRealExpr::Mul(left, right) => {
                let a = left.eval_with(inputs)?;
                let b = right.eval_with(inputs)?;
                Ok(mul_reals(&a, &b))
            },
            GpRealExpr::Div(left, right) => {
                let a = left.eval_with(inputs)?;
                let b = right.eval_with(inputs)?;
                match div_reals(&a, &b) {
                    Ok(q) => Ok(q),
                    Err(_) => Err(GpValidationIssue::UnsupportedDivision),
                }
            },
        }
    }
}

fn max_usize(a: usize, b: usize) -> (m: usize)
    ensures
        m == vstd::math::max(a as int, b as int),
{
    if a >= b {
        a
    } else {
        b
    }
}

fn lookup_input(inputs: &GpInputs, index: usize) -> (value: Option<Real>)
    ensures
        value == inputs_lookup(*inputs)(index),
{
    match inputs {
        GpInputs::Dense(values) => if index < values.len() {
            Some(values[index].clone())
        } else {
            None
        },
        GpInputs::Sparse(values) => match values.get(&index) {
            Some(v) => Some(v.clone()),
            None => None,
        },
    }
}

/// Evaluates a batch of expressions over sparse inputs, preserving
/// per-expression errors: an absent key is a `MissingInput`, never zero.
pub fn eval_gp_batch(expressions: &[GpRealExpr], inputs: &HashMap<usize, Real>) -> (results: Vec<
    Result<Real, GpValidationIssue>,
>)
    ensures
        results@.len() == expressions@.len(),
        forall|i: int| 0 <= i < expressions@.len() ==> #[trigger] results@[i] == expressions@[i].tree_value(
            sparse_lookup(inputs@),
        ),
{
    let sparse = GpInputs::Sparse(inputs);
    let mut results: Vec<Result<Real, GpValidationIssue>> = Vec::new();
    let mut i: usize = 0;
    while i < expressions.len()
        invariant
            i <= expressions@.len(),
            inputs_lookup(sparse) == sparse_lookup(inputs@),
            results@.len() == i,
            forall|j: int| 0 <= j < i ==> #[trigger] results@[j] == expressions@[j].tree_value(sparse_lookup(inputs@)),
        decreases expressions.len() - i,
    {
        results.push(expressions[i].eval_with(&sparse));
        i += 1;
    }
    results
}

} // verus!
