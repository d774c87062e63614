//! Work on a whole population that is handed to a pool of threads.

use vstd::prelude::*;
use rayon::iter::{IntoParallelIterator, IntoParallelRefMutIterator, ParallelIterator};
use rayon::slice::ParallelSliceMut;
use crate::fitness::{table, ErrorMetric};
use crate::individual::{Individual, SortKey};

verus! {

/// Calls `rayon`'s `into_par_iter` on the range of `count` numbers, `map`
/// with `Individual::new` as the operation, and `collect` into a vector.
///
/// Trusted, not proved: the vector holds one individual for each number
/// of the range, and each is a result of `Individual::new` for the given
/// bounds.
#[verifier::external_body]
pub(crate) fn populate_in_parallel(
    count: usize,
    range_up: usize,
    range_down: usize,
) -> (population: Vec<Individual>)
    requires
        range_down < range_up,
    ensures
        population@.len() == count,
        forall|i: int|
            0 <= i < count ==> (#[trigger] population@[i])@.is_initial(
                range_up as nat,
                range_down as nat,
            ),
{
    (0..count).into_par_iter().map(|_| Individual::new(range_up, range_down)).collect()
}

/// Calls `rayon`'s `par_iter_mut` on the population and `for_each` on the
/// iterator that it returns, with `Individual::compute_fitness` as the
/// operation.
///
/// Trusted, not proved: the operation is applied exactly once to each
/// individual, and to nothing else, so that afterwards every place of the
/// population holds what `compute_fitness` makes of the individual that was
/// there before.
#[verifier::external_body]
pub(crate) fn refresh_in_parallel(
    population: &mut Vec<Individual>,
    dataset: &Vec<Vec<i32>>,
    metric: ErrorMetric,
)
    ensures
        final(population)@.len() == old(population)@.len(),
        forall|i: int|
            0 <= i < old(population)@.len() ==> (#[trigger] final(population)@[i])@
                == old(population)@[i]@.refreshed(table(dataset@), metric),
{
    population.par_iter_mut().for_each(|individual| individual.compute_fitness(dataset, metric));
}

/// Calls `rayon`'s `par_sort_unstable_by_key` on the population, with
/// `Individual::sort_key` as the key.
///
/// Trusted, not proved: the individuals are rearranged, none is added,
/// dropped or changed, and afterwards their keys ascend. Where keys are
/// equal the order is left open.
#[verifier::external_body]
pub(crate) fn sort_in_parallel(population: &mut Vec<Individual>, key: SortKey)
    ensures
        final(population)@.to_multiset() == old(population)@.to_multiset(),
        forall|i: int, j: int|
            0 <= i <= j < final(population)@.len() ==> final(population)@[i]@.key(key)
                <= final(population)@[j]@.key(key),
{
    population.par_sort_unstable_by_key(|individual| individual.sort_key(key));
}

} // verus!
