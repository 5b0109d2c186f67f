//! The exact real numbers that genes, fitness values and GP expressions carry.
//!
//! Values are `hyperreal::Real`, carried opaquely. Every decision the library
//! takes about them goes through one of the operations below, each of which is
//! a single call into `hyperreal`. The rest of the library is verified against
//! what these operations state.
//!
//! Arithmetic results are named: each is a function of the operands alone.
//! Besides, a value stored as an exact whole number keeps being one under
//! addition, subtraction, multiplication and negation, and a value with no
//! abort signal attached (`real_unsignalled`) yields results without one.
//!
//! A comparison is settled by the stored forms alone when both values are
//! exact whole numbers or when the two are stored in the same form: then
//! `hyperreal` answers before any refinement, and the answer is stated
//! exactly (`settled_order`). Other comparisons are certified by bounded
//! refinement over caches that earlier calls may have filled, so two calls on
//! the same values may answer differently; of those only what holds of every
//! answer is stated: nothing, or the order of the mathematical values, and
//! then the facts of a total order about that pair. `hyperreal` documents
//! calculations stopped through an abort signal (`Real::abort`) as possibly
//! incorrect, so these facts are stated for values without one only.

use hyperreal::RealSign;
use std::cmp::Ordering;
use vstd::prelude::*;

verus! {

/// `hyperreal::Real` is carried through the library as an opaque value.
#[verifier::external_type_specification]
#[verifier::external_body]
pub struct ExReal(hyperreal::Real);

/// `hyperreal::Problem`, the error of fallible real arithmetic, carried opaquely.
#[verifier::external_type_specification]
#[verifier::external_body]
pub struct ExProblem(hyperreal::Problem);

/// A certified ordering between two exact reals.
#[derive(Clone, Copy, Debug, PartialEq, Eq, Structural)]
pub enum RealOrder {
    Less,
    Equal,
    Greater,
}

/// A structurally known sign of an exact real.
#[derive(Clone, Copy, Debug, PartialEq, Eq, Structural)]
pub enum RealSignFact {
    Negative,
    Zero,
    Positive,
}

/// What `<hyperreal::Real as PartialEq>::eq` (representation equality) answers.
pub uninterp spec fn real_same_form(left: hyperreal::Real, right: hyperreal::Real) -> bool;

/// The exact sum `left + right` as `hyperreal` builds it.
pub uninterp spec fn real_sum(left: hyperreal::Real, right: hyperreal::Real) -> hyperreal::Real;

/// The exact difference `left - right` as `hyperreal` builds it.
pub uninterp spec fn real_difference(left: hyperreal::Real, right: hyperreal::Real) -> hyperreal::Real;

/// The exact product `left * right` as `hyperreal` builds it.
pub uninterp spec fn real_product(left: hyperreal::Real, right: hyperreal::Real) -> hyperreal::Real;

/// The exact quotient `left / right`, `None` where `hyperreal` reports a problem.
pub uninterp spec fn real_quotient(left: hyperreal::Real, right: hyperreal::Real) -> Option<hyperreal::Real>;

/// The exact negation `-value` as `hyperreal` builds it.
pub uninterp spec fn real_negation(value: hyperreal::Real) -> hyperreal::Real;

/// The exact real that `hyperreal` builds for an integer.
pub uninterp spec fn real_of_integer(value: i64) -> hyperreal::Real;

/// The order of the mathematical values of two reals.
pub uninterp spec fn real_true_order(left: hyperreal::Real, right: hyperreal::Real) -> RealOrder;

/// The whole number a real is stored as: `Some(n)` for a value held as the
/// exact rational `n`.
pub uninterp spec fn real_integer(value: hyperreal::Real) -> Option<int>;

/// Whether no abort signal is attached anywhere in a real. `hyperreal`
/// attaches one only through `Real::abort`; arithmetic passes on what the
/// operands carry.
pub uninterp spec fn real_unsignalled(value: hyperreal::Real) -> bool;

/// The opposite ordering.
pub open spec fn flipped(order: RealOrder) -> RealOrder {
    match order {
        RealOrder::Less => RealOrder::Greater,
        RealOrder::Equal => RealOrder::Equal,
        RealOrder::Greater => RealOrder::Less,
    }
}

/// The order of two integers.
pub open spec fn integer_order(left: int, right: int) -> RealOrder {
    if left < right {
        RealOrder::Less
    } else if left == right {
        RealOrder::Equal
    } else {
        RealOrder::Greater
    }
}

/// The sign of an integer.
pub open spec fn integer_sign(value: int) -> RealSignFact {
    if value < 0 {
        RealSignFact::Negative
    } else if value == 0 {
        RealSignFact::Zero
    } else {
        RealSignFact::Positive
    }
}

/// What the stored forms of two reals settle before any refinement: the
/// order of two exact whole numbers, and `Equal` for two other values stored
/// in the same form.
pub open spec fn settled_order(left: hyperreal::Real, right: hyperreal::Real) -> Option<RealOrder> {
    if real_integer(left) is Some && real_integer(right) is Some {
        Some(integer_order(real_integer(left)->0, real_integer(right)->0))
    } else if real_integer(left) is None && real_integer(right) is None && (real_same_form(left, right)
        || real_same_form(right, left)) {
        Some(RealOrder::Equal)
    } else {
        None
    }
}

/// The order of the mathematical values of two reals, as far as the stored
/// forms settle it, and `real_true_order` otherwise.
pub open spec fn value_order(left: hyperreal::Real, right: hyperreal::Real) -> RealOrder {
    match settled_order(left, right) {
        Some(order) => order,
        None => real_true_order(left, right),
    }
}

/// The order of `a` and `c` that `a` against `b` and `b` against `c` imply.
pub open spec fn chained(first: RealOrder, second: RealOrder) -> Option<RealOrder> {
    if first == RealOrder::Equal {
        Some(second)
    } else if second == RealOrder::Equal || first == second {
        Some(first)
    } else {
        None
    }
}

/// Order chains through the pair: for any `z` and `w`, `z` against `left`,
/// `left` against `right` and `right` against `w` imply `z` against `w`.
pub open spec fn chains_through(left: hyperreal::Real, right: hyperreal::Real) -> bool {
    forall|z: hyperreal::Real, w: hyperreal::Real|
        #![trigger value_order(z, left), value_order(right, w)]
        (chained(value_order(z, left), value_order(left, right)) matches Some(first) && chained(
            first,
            value_order(right, w),
        ) is Some) ==> value_order(z, w) == chained(
            chained(value_order(z, left), value_order(left, right))->0,
            value_order(right, w),
        )->0
}

/// The facts of a total order about a certified pair: the reverse
/// comparison is the flipped order, and order chains through the pair in
/// either direction.
#[verifier::opaque]
pub open spec fn order_facts(left: hyperreal::Real, right: hyperreal::Real) -> bool {
    &&& value_order(right, left) == flipped(value_order(left, right))
    &&& chains_through(left, right)
    &&& chains_through(right, left)
}

/// Whether the order of a pair is settled by the stored forms or carries the
/// facts of a total order.
pub open spec fn order_known(left: hyperreal::Real, right: hyperreal::Real) -> bool {
    settled_order(left, right) is Some || order_facts(left, right)
}

/// What a certified comparison of `left` with `right` may answer: what the
/// stored forms settle, where they settle it; otherwise, for values without
/// an abort signal, nothing or the true order, and then the facts of a total
/// order about the pair.
#[verifier::opaque]
pub open spec fn outcome_sound(order: Option<RealOrder>, left: hyperreal::Real, right: hyperreal::Real) -> bool {
    if settled_order(left, right) is Some {
        order == settled_order(left, right)
    } else {
        (order is Some && real_unsignalled(left) && real_unsignalled(right)) ==> {
            &&& order == Some(real_true_order(left, right))
            &&& order_facts(left, right)
        }
    }
}

/// A record of the answers that the certified comparisons of one run gave:
/// the comparison made at position `site` of `left` with `right` answered
/// `rec(site, left, right)`.
pub type RealComparer = spec_fn(Seq<int>, hyperreal::Real, hyperreal::Real) -> Option<RealOrder>;

/// Every answer of the record is one a certified comparison may give.
pub open spec fn comparer_sound(rec: RealComparer) -> bool {
    forall|site: Seq<int>, left: hyperreal::Real, right: hyperreal::Real|
        outcome_sound(#[trigger] rec(site, left, right), left, right)
}

/// The answers given within part `j` of a run.
pub open spec fn at(rec: RealComparer, j: int) -> RealComparer {
    |site: Seq<int>, left: hyperreal::Real, right: hyperreal::Real| rec(seq![j] + site, left, right)
}

/// A record whose part `j` is `inner` and which is `rec` elsewhere.
pub open spec fn graft(rec: RealComparer, j: int, inner: RealComparer) -> RealComparer {
    |site: Seq<int>, left: hyperreal::Real, right: hyperreal::Real|
        if site.len() > 0 && site[0] == j {
            inner(site.drop_first(), left, right)
        } else {
            rec(site, left, right)
        }
}

/// The record of a single comparison of `left` with `right` that answered `order`.
pub open spec fn answering(left: hyperreal::Real, right: hyperreal::Real, order: Option<RealOrder>) -> RealComparer {
    |site: Seq<int>, a: hyperreal::Real, b: hyperreal::Real|
        if site == Seq::<int>::empty() && a == left && b == right {
            order
        } else {
            settled_order(a, b)
        }
}

/// A record that answers what the stored forms settle, and nothing else.
#[verifier::opaque]
pub open spec fn settled() -> RealComparer {
    |site: Seq<int>, a: hyperreal::Real, b: hyperreal::Real| settled_order(a, b)
}

/// The record of settled answers is sound.
pub proof fn lemma_settled_sound()
    ensures
        comparer_sound(settled()),
{
    reveal(comparer_sound);
    reveal(outcome_sound);
    reveal(settled);
}

/// Each answer of a sound record is one a certified comparison may give.
pub proof fn lemma_sound_answer(rec: RealComparer, site: Seq<int>, left: hyperreal::Real, right: hyperreal::Real)
    requires
        comparer_sound(rec),
    ensures
        outcome_sound(rec(site, left, right), left, right),
{
    reveal(comparer_sound);
}

/// The record of one sound answer is sound and holds that answer.
pub proof fn lemma_answering_sound(left: hyperreal::Real, right: hyperreal::Real, order: Option<RealOrder>)
    requires
        outcome_sound(order, left, right),
    ensures
        comparer_sound(answering(left, right, order)),
        answering(left, right, order)(Seq::<int>::empty(), left, right) == order,
{
    reveal(comparer_sound);
    reveal(outcome_sound);
}

/// Each part of a sound record is sound.
pub proof fn lemma_at_sound(rec: RealComparer, j: int)
    requires
        comparer_sound(rec),
    ensures
        comparer_sound(at(rec, j)),
{
    reveal(comparer_sound);
    assert forall|site: Seq<int>, left: hyperreal::Real, right: hyperreal::Real|
        outcome_sound(#[trigger] at(rec, j)(site, left, right), left, right) by {
        assert(outcome_sound(rec(seq![j] + site, left, right), left, right));
    }
}

/// Grafting a sound part into a sound record keeps it sound and changes that part only.
pub proof fn lemma_graft(rec: RealComparer, j: int, inner: RealComparer)
    requires
        comparer_sound(rec),
        comparer_sound(inner),
    ensures
        comparer_sound(graft(rec, j, inner)),
        at(graft(rec, j, inner), j) == inner,
        forall|i: int| i != j ==> #[trigger] at(graft(rec, j, inner), i) == at(rec, i),
{
    reveal(comparer_sound);
    let g = graft(rec, j, inner);
    assert forall|site: Seq<int>, left: hyperreal::Real, right: hyperreal::Real|
        outcome_sound(#[trigger] g(site, left, right), left, right) by {
        if site.len() > 0 && site[0] == j {
            assert(outcome_sound(inner(site.drop_first(), left, right), left, right));
        } else {
            assert(outcome_sound(rec(site, left, right), left, right));
        }
    }
    assert forall|site: Seq<int>, left: hyperreal::Real, right: hyperreal::Real|
        #[trigger] at(g, j)(site, left, right) == inner(site, left, right) by {
        assert((seq![j] + site).drop_first() =~= site);
    }
    assert(at(g, j) =~= inner);
    assert forall|i: int| i != j implies #[trigger] at(g, i) == at(rec, i) by {
        assert forall|site: Seq<int>, left: hyperreal::Real, right: hyperreal::Real|
            #[trigger] at(g, i)(site, left, right) == at(rec, i)(site, left, right) by {
            assert((seq![i] + site)[0] == i);
        }
        assert(at(g, i) =~= at(rec, i));
    }
}

/// A settled comparison read the other way round is the flipped one.
pub proof fn lemma_settled_flip(left: hyperreal::Real, right: hyperreal::Real)
    ensures
        settled_order(right, left) == match settled_order(left, right) {
            Some(order) => Some(flipped(order)),
            None => None,
        },
{
}

/// An answer of a sound record about values without an abort signal is
/// their value order, and that order is known.
pub proof fn lemma_known_answer(order: Option<RealOrder>, left: hyperreal::Real, right: hyperreal::Real)
    requires
        outcome_sound(order, left, right),
        order is Some,
        real_unsignalled(left),
        real_unsignalled(right),
    ensures
        order == Some(value_order(left, right)),
        order_known(left, right),
{
    reveal(outcome_sound);
}

/// A known order is known the other way round, and flipped.
pub proof fn lemma_known_flip(left: hyperreal::Real, right: hyperreal::Real)
    requires
        order_known(left, right),
    ensures
        order_known(right, left),
        value_order(right, left) == flipped(value_order(left, right)),
{
    lemma_settled_flip(left, right);
    if settled_order(left, right) is None {
        reveal(order_facts);
        assert(flipped(flipped(value_order(left, right))) == value_order(left, right));
    }
}

proof fn lemma_cycle_through(a: hyperreal::Real, b: hyperreal::Real, c: hyperreal::Real, d: hyperreal::Real)
    requires
        order_facts(b, c),
        order_known(d, a),
        value_order(a, b) != RealOrder::Greater,
        value_order(b, c) != RealOrder::Greater,
        value_order(c, d) != RealOrder::Greater,
        value_order(d, a) != RealOrder::Greater,
    ensures
        value_order(a, b) == RealOrder::Equal,
        value_order(b, c) == RealOrder::Equal,
        value_order(c, d) == RealOrder::Equal,
        value_order(d, a) == RealOrder::Equal,
{
    reveal(order_facts);
    assert(chains_through(b, c));
    let first = chained(value_order(a, b), value_order(b, c))->0;
    assert(chained(first, value_order(c, d)) is Some);
    assert(value_order(a, d) == chained(first, value_order(c, d))->0);
    lemma_known_flip(d, a);
}

/// Known orders admit no cycle `a <= b <= c <= d <= a` with a strict step.
pub proof fn lemma_no_cycle(a: hyperreal::Real, b: hyperreal::Real, c: hyperreal::Real, d: hyperreal::Real)
    requires
        order_known(a, b),
        order_known(b, c),
        order_known(c, d),
        order_known(d, a),
        value_order(a, b) != RealOrder::Greater,
        value_order(b, c) != RealOrder::Greater,
        value_order(c, d) != RealOrder::Greater,
        value_order(d, a) != RealOrder::Greater,
    ensures
        value_order(a, b) == RealOrder::Equal,
        value_order(b, c) == RealOrder::Equal,
        value_order(c, d) == RealOrder::Equal,
        value_order(d, a) == RealOrder::Equal,
{
    if settled_order(b, c) is None {
        lemma_cycle_through(a, b, c, d);
    } else if settled_order(c, d) is None {
        lemma_cycle_through(b, c, d, a);
    } else if settled_order(d, a) is None {
        lemma_cycle_through(c, d, a, b);
    } else if settled_order(a, b) is None {
        lemma_cycle_through(d, a, b, c);
    }
}

/// Calls `<hyperreal::Real as PartialOrd>::partial_cmp`, a certified
/// comparison. It first answers from the stored forms (`Equal` for the same
/// form, the exact order of two exact rationals), which `settled_order`
/// states for whole numbers; otherwise it refines within a bounded budget
/// over the values' caches, so its answer may be nothing even where the order
/// exists. See `outcome_sound` for what is stated of every answer.
#[verifier::external_body]
pub(crate) fn compare_reals(left: &hyperreal::Real, right: &hyperreal::Real) -> (order: Option<RealOrder>)
    ensures
        outcome_sound(order, *left, *right),
{
    match left.partial_cmp(right) {
        Some(Ordering::Less) => Some(RealOrder::Less),
        Some(Ordering::Equal) => Some(RealOrder::Equal),
        Some(Ordering::Greater) => Some(RealOrder::Greater),
        None => None,
    }
}

/// Calls `<hyperreal::Real as PartialEq>::eq`, which compares the stored
/// rational scale and symbolic class. Its result is named `real_same_form`.
#[verifier::external_body]
pub(crate) fn same_form(left: &hyperreal::Real, right: &hyperreal::Real) -> (same: bool)
    ensures
        same == real_same_form(*left, *right),
{
    left == right
}

/// Calls `<&hyperreal::Real as Add>::add`; the result is named `real_sum`.
/// Two exact whole numbers add to their exact sum, and no abort signal
/// appears that neither operand carried.
#[verifier::external_body]
pub(crate) fn add_reals(left: &hyperreal::Real, right: &hyperreal::Real) -> (sum: hyperreal::Real)
    ensures
        sum == real_sum(*left, *right),
        (real_integer(*left) is Some && real_integer(*right) is Some) ==> real_integer(sum) == Some(
            real_integer(*left)->0 + real_integer(*right)->0,
        ),
        (real_unsignalled(*left) && real_unsignalled(*right)) ==> real_unsignalled(sum),
{
    left + right
}

/// Calls `<&hyperreal::Real as Sub>::sub`; the result is named
/// `real_difference`. Two exact whole numbers give their exact difference,
/// and no abort signal appears that neither operand carried.
#[verifier::external_body]
pub(crate) fn sub_reals(left: &hyperreal::Real, right: &hyperreal::Real) -> (difference: hyperreal::Real)
    ensures
        difference == real_difference(*left, *right),
        (real_integer(*left) is Some && real_integer(*right) is Some) ==> real_integer(difference) == Some(
            real_integer(*left)->0 - real_integer(*right)->0,
        ),
        (real_unsignalled(*left) && real_unsignalled(*right)) ==> real_unsignalled(difference),
{
    left - right
}

/// Calls `<&hyperreal::Real as Mul>::mul`; the result is named
/// `real_product`. Two exact whole numbers give their exact product, and no
/// abort signal appears that neither operand carried.
#[verifier::external_body]
pub(crate) fn mul_reals(left: &hyperreal::Real, right: &hyperreal::Real) -> (product: hyperreal::Real)
    ensures
        product == real_product(*left, *right),
        (real_integer(*left) is Some && real_integer(*right) is Some) ==> real_integer(product) == Some(
            real_integer(*left)->0 * real_integer(*right)->0,
        ),
        (real_unsignalled(*left) && real_unsignalled(*right)) ==> real_unsignalled(product),
{
    left * right
}

/// Calls `<&hyperreal::Real as Div>::div`, which fails with a
/// `hyperreal::Problem` (for instance on a zero divisor). The quotient, or
/// `None` for the failure, is named `real_quotient`; which problem was
/// reported is left unsaid. No abort signal appears that neither operand
/// carried.
#[verifier::external_body]
pub(crate) fn div_reals(left: &hyperreal::Real, right: &hyperreal::Real) -> (quotient: Result<
    hyperreal::Real,
    hyperreal::Problem,
>)
    ensures
        match quotient {
            Ok(value) => real_quotient(*left, *right) == Some(value) && ((real_unsignalled(*left)
                && real_unsignalled(*right)) ==> real_unsignalled(value)),
            Err(_) => real_quotient(*left, *right) is None,
        },
{
    left / right
}

/// Calls `<&hyperreal::Real as Neg>::neg`; the result is named
/// `real_negation`. An exact whole number is negated exactly, and the abort
/// signal, if any, is kept.
#[verifier::external_body]
pub(crate) fn negate_real(value: &hyperreal::Real) -> (negated: hyperreal::Real)
    ensures
        negated == real_negation(*value),
        real_integer(*value) is Some ==> real_integer(negated) == Some(-real_integer(*value)->0),
        real_unsignalled(*value) ==> real_unsignalled(negated),
{
    -value
}

/// Calls `<hyperreal::Real as From<i64>>::from`; the result is named
/// `real_of_integer`. It is stored as that exact whole number, with no abort
/// signal.
#[verifier::external_body]
pub(crate) fn real_from_integer(value: i64) -> (made: hyperreal::Real)
    ensures
        made == real_of_integer(value),
        real_integer(made) == Some(value as int),
        real_unsignalled(made),
{
    hyperreal::Real::from(value)
}

/// Calls `hyperreal::Real::structural_facts` and keeps its `sign` field,
/// the sign known without refinement. For an exact whole number it is that
/// number's sign. Otherwise what is known depends on the value's caches, so
/// only this is stated: a `Zero` report about a value without an abort signal
/// is true of the value.
#[verifier::external_body]
pub(crate) fn structural_sign(value: &hyperreal::Real) -> (sign: Option<RealSignFact>)
    ensures
        real_integer(*value) is Some ==> sign == Some(integer_sign(real_integer(*value)->0)),
        (sign == Some(RealSignFact::Zero) && real_unsignalled(*value)) ==> real_true_order(
            *value,
            real_of_integer(0),
        ) == RealOrder::Equal,
{
    match value.structural_facts().sign {
        Some(RealSign::Negative) => Some(RealSignFact::Negative),
        Some(RealSign::Zero) => Some(RealSignFact::Zero),
        Some(RealSign::Positive) => Some(RealSignFact::Positive),
        None => None,
    }
}

/// Specifies `<hyperreal::Real as Clone>::clone`. The contract claims that
/// the copy is the same value: `hyperreal` copies the rational scale, the
/// symbolic class and any abort signal, and rebuilds only its approximation
/// caches, which its source documents as accelerators rather than semantic
/// state.
pub assume_specification[ <hyperreal::Real as Clone>::clone ](value: &hyperreal::Real) -> (copy: hyperreal::Real)
    ensures
        copy == *value,
;

/// Copies a sequence of exact reals element by element.
pub(crate) fn copy_reals(values: &Vec<hyperreal::Real>) -> (copy: Vec<hyperreal::Real>)
    ensures
        copy@ == values@,
{
    let mut copy: Vec<hyperreal::Real> = Vec::new();
    let mut i: usize = 0;
    while i < values.len()
        invariant
            i <= values.len(),
            copy@ == values@.subrange(0, i as int),
        decreases values.len() - i,
    {
        copy.push(values[i].clone());
        i += 1;
    }
    proof {
        assert(values@.subrange(0, values.len() as int) =~= values@);
    }
    copy
}

} // verus!
