//! The calls into `rayon`: work on the items of a vector, spread over the threads of the
//! pool that the caller runs in. Their contracts are taken on trust.

use crate::aggregate::{merged_all, AggregateModel, PartialAggregate};
use rayon::iter::{IntoParallelIterator, IntoParallelRefIterator, ParallelIterator};
use vstd::prelude::*;

verus! {

/// What each aggregate of a list stands for.
pub open spec fn views(items: Seq<PartialAggregate>) -> Seq<AggregateModel> {
    Seq::new(items.len(), |i: int| items[i]@)
}

/// The kills of a list of aggregates.
pub open spec fn total_kills(items: Seq<PartialAggregate>) -> nat
    decreases items.len(),
{
    if items.len() == 0 {
        0
    } else {
        total_kills(items.drop_last()) + items.last().kills()
    }
}

/// The kills for players of a list of aggregates.
pub open spec fn total_attributed(items: Seq<PartialAggregate>) -> nat
    decreases items.len(),
{
    if items.len() == 0 {
        0
    } else {
        total_attributed(items.drop_last()) + items.last().attributed()
    }
}

/// Applies `f` to every item, in parallel, and collects the results in the order of the
/// items: `par_iter`, `map` and `collect` of `rayon`.
///
/// Taken on trust: `f` is called on each item and on nothing else, and the result at each
/// position is what `f` returned for the item at that position.
#[verifier::external_body]
pub(crate) fn par_map<T: Sync, R: Send, F: Fn(&T) -> R + Sync + Send>(items: &Vec<T>, f: F) -> (results:
    Vec<R>)
    requires
        forall|i: int| 0 <= i < items.len() ==> call_requires(f, (&items[i],)),
    ensures
        results.len() == items.len(),
        forall|i: int|
            0 <= i < items.len() ==> call_ensures(f, (&items[i],), #[trigger] results[i]),
{
    items.par_iter().map(f).collect()
}

/// Merges all items into one aggregate, in parallel: `into_par_iter` and `reduce` of `rayon`,
/// with the empty aggregate as the identity and the merge of two aggregates as the operation.
///
/// Taken on trust: `reduce` merges neighbouring items, and results of such merges, until one
/// is left, putting in the identity where it likes. Whatever grouping it takes, the result
/// stands for what merging the items one after the other gives (`lemma_reduction`), and it
/// counts the kills of them all. No merge overflows, as the kills fit a `u64` together.
#[verifier::external_body]
pub(crate) fn par_reduce(items: Vec<PartialAggregate>) -> (whole: PartialAggregate)
    requires
        forall|i: int| 0 <= i < items.len() ==> (#[trigger] items[i]).wf(),
        total_kills(items@) <= u64::MAX,
    ensures
        whole.wf(),
        whole@ == merged_all(views(items@)),
        whole.kills() == total_kills(items@),
        whole.attributed() == total_attributed(items@),
{
    items.into_par_iter().reduce(|| PartialAggregate::empty(), |a, b| a.merge(b))
}

} // verus!
