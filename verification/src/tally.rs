//! What can be counted up: values that merge by addition, in any order and grouping.

use vstd::prelude::*;

verus! {

/// A statistic that is gathered piecewise and merged by addition.
///
/// `model` is the mathematical value that the statistic stands for and `join` the sum of two
/// such values. `weight` is the number of kills counted in it, which `counted` reads off the
/// mathematical value: it bounds every counter inside, so two statistics whose weights fit a
/// `u64` together can be merged without overflow.
pub trait Tally: Sized {
    /// What a statistic stands for.
    type Model;

    /// The mathematical value.
    spec fn model(&self) -> Self::Model;

    /// The internal invariant.
    spec fn wf(&self) -> bool;

    /// The number of kills counted.
    spec fn weight(&self) -> nat;

    /// The sum of two values.
    spec fn join(a: Self::Model, b: Self::Model) -> Self::Model;

    /// The number of kills counted in a mathematical value.
    spec fn counted(m: Self::Model) -> nat;

    /// The weight of a statistic is the number of kills counted in what it stands for.
    proof fn lemma_weight_counted(&self)
        requires
            self.wf(),
        ensures
            self.weight() == Self::counted(self.model()),
    ;

    /// The order of the two does not matter.
    proof fn lemma_join_commutes(a: Self::Model, b: Self::Model)
        ensures
            Self::join(a, b) == Self::join(b, a),
    ;

    /// The grouping of three does not matter.
    proof fn lemma_join_associates(a: Self::Model, b: Self::Model, c: Self::Model)
        ensures
            Self::join(Self::join(a, b), c) == Self::join(a, Self::join(b, c)),
    ;

    /// The number of kills counted.
    fn count(&self) -> (kills: u64)
        requires
            self.wf(),
        ensures
            kills == self.weight(),
    ;

    /// Adds `other` into `self`.
    fn absorb(&mut self, other: Self)
        requires
            old(self).wf(),
            other.wf(),
            old(self).weight() + other.weight() <= u64::MAX,
        ensures
            final(self).wf(),
            final(self).model() == Self::join(old(self).model(), other.model()),
            final(self).weight() == old(self).weight() + other.weight(),
    ;
}

/// A plain kill count.
impl Tally for u64 {
    type Model = nat;

    open spec fn model(&self) -> nat {
        *self as nat
    }

    open spec fn wf(&self) -> bool {
        true
    }

    open spec fn weight(&self) -> nat {
        *self as nat
    }

    open spec fn join(a: nat, b: nat) -> nat {
        a + b
    }

    open spec fn counted(m: nat) -> nat {
        m
    }

    proof fn lemma_weight_counted(&self) {
    }

    proof fn lemma_join_commutes(a: nat, b: nat) {
    }

    proof fn lemma_join_associates(a: nat, b: nat, c: nat) {
    }

    fn count(&self) -> u64 {
        *self
    }

    fn absorb(&mut self, other: u64) {
        *self = *self + other;
    }
}

/// The sum of the weights of a list of statistics.
pub open spec fn total_weight<V: Tally>(values: Seq<V>) -> nat
    decreases values.len(),
{
    if values.len() == 0 {
        0
    } else {
        total_weight(values.drop_last()) + values.last().weight()
    }
}

/// The mathematical values of a list of statistics.
pub open spec fn models<V: Tally>(values: Seq<V>) -> Seq<V::Model> {
    Seq::new(values.len(), |i: int| values[i].model())
}

/// The weights of a list of statistics.
pub open spec fn weights_of<V: Tally>(values: Seq<V>) -> Seq<nat> {
    Seq::new(values.len(), |i: int| values[i].weight())
}

/// No entry weighs more than the whole list.
pub proof fn lemma_weight_of_entry<V: Tally>(values: Seq<V>, i: int)
    requires
        0 <= i < values.len(),
    ensures
        values[i].weight() <= total_weight(values),
    decreases values.len(),
{
    if i < values.len() - 1 {
        lemma_weight_of_entry(values.drop_last(), i);
    }
}

/// The first entries of a list weigh no more than the whole list, and each further entry adds
/// its weight.
pub proof fn lemma_weight_of_prefix<V: Tally>(values: Seq<V>, n: int)
    requires
        0 <= n <= values.len(),
    ensures
        total_weight(values.take(n)) <= total_weight(values),
        n < values.len() ==> total_weight(values.take(n + 1)) == total_weight(values.take(n))
            + values[n].weight(),
    decreases values.len() - n,
{
    if n < values.len() {
        assert(values.take(n + 1).drop_last() =~= values.take(n));
        lemma_weight_of_prefix(values, n + 1);
    } else {
        assert(values.take(n) =~= values);
    }
}

/// An entry put in adds its weight.
pub proof fn lemma_weight_after_insert<V: Tally>(values: Seq<V>, i: int, value: V)
    requires
        0 <= i <= values.len(),
    ensures
        total_weight(values.insert(i, value)) == total_weight(values) + value.weight(),
    decreases values.len(),
{
    let grown = values.insert(i, value);
    if i == values.len() {
        assert(grown.drop_last() =~= values);
    } else {
        lemma_weight_after_insert(values.drop_last(), i, value);
        assert(grown.drop_last() =~= values.drop_last().insert(i, value));
    }
}

/// An entry replaced changes the weight by the difference.
pub proof fn lemma_weight_after_update<V: Tally>(values: Seq<V>, i: int, value: V)
    requires
        0 <= i < values.len(),
    ensures
        total_weight(values.update(i, value)) + values[i].weight() == total_weight(values)
            + value.weight(),
    decreases values.len(),
{
    let changed = values.update(i, value);
    if i == values.len() - 1 {
        assert(changed.drop_last() =~= values.drop_last());
    } else {
        lemma_weight_after_update(values.drop_last(), i, value);
        assert(changed.drop_last() =~= values.drop_last().update(i, value));
    }
}

} // verus!
