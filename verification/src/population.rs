//! Populations as sequences of individuals: what a refresh, a sort, a
//! mutation pass, a round of breeding and a summary mean for them.

use vstd::prelude::*;
use crate::fitness::ErrorMetric;
use crate::genetic::Summary;
use crate::individual::{crossed, mutated_at, Individual, IndividualView, SortKey};
use crate::instruction::Instruction;
use crate::selection::has_chance;

verus! {

/// The mathematical content of a population, individual by individual.
pub open spec fn views(population: Seq<Individual>) -> Seq<IndividualView> {
    population.map_values(|individual: Individual| individual@)
}

/// A population after a fitness refresh of each of its individuals.
pub open spec fn refreshed_all(
    population: Seq<IndividualView>,
    rows: Seq<Seq<i32>>,
    metric: ErrorMetric,
) -> Seq<IndividualView> {
    population.map_values(|individual: IndividualView| individual.refreshed(rows, metric))
}

/// No genome of the population is empty.
pub open spec fn all_nonempty(population: Seq<IndividualView>) -> bool {
    forall|i: int| 0 <= i < population.len() ==> (#[trigger] population[i]).genome.len() >= 1
}

/// Every fitness cache of the population belongs to the present genome.
pub open spec fn all_current(population: Seq<IndividualView>) -> bool {
    forall|i: int| 0 <= i < population.len() ==> (#[trigger] population[i]).is_current()
}

/// Every fitness cache that belongs to the present genome holds the score
/// of that genome on the given rows. Stale caches may hold anything.
pub open spec fn all_honest(
    population: Seq<IndividualView>,
    rows: Seq<Seq<i32>>,
    metric: ErrorMetric,
) -> bool {
    forall|i: int|
        0 <= i < population.len() ==> ((#[trigger] population[i]).is_current()
            ==> population[i].scored_on(rows, metric))
}

/// Every individual holds the score of its present genome on the given
/// rows.
pub open spec fn all_scored(
    population: Seq<IndividualView>,
    rows: Seq<Seq<i32>>,
    metric: ErrorMetric,
) -> bool {
    forall|i: int| 0 <= i < population.len() ==> (#[trigger] population[i]).scored_on(rows, metric)
}

/// The sum of the scores of a population.
pub open spec fn total_score(population: Seq<IndividualView>) -> nat
    decreases population.len(),
{
    if population.len() == 0 {
        0
    } else {
        total_score(population.drop_last()) + population.last().score()
    }
}

/// A sum as 128 bits hold it: sums beyond the largest number stay there.
pub open spec fn capped(sum: nat) -> nat {
    if sum > u128::MAX {
        u128::MAX as nat
    } else {
        sum
    }
}

/// The summary holds the largest and the smallest score found in the
/// population, and its average score: the sum of the scores over the
/// number of individuals, rounded down.
pub open spec fn summarizes(summary: Summary, population: Seq<IndividualView>) -> bool {
    &&& exists|i: int| 0 <= i < population.len() && #[trigger] population[i].score() == summary.best
    &&& forall|i: int| 0 <= i < population.len() ==> #[trigger] population[i].score() <= summary.best
    &&& exists|i: int|
        0 <= i < population.len() && #[trigger] population[i].score() == summary.worst
    &&& forall|i: int|
        0 <= i < population.len() ==> #[trigger] population[i].score() >= summary.worst
    &&& summary.average == total_score(population) / population.len()
}

/// The sum of the scores of a population lies between as many times its
/// smallest and as many times its largest score.
pub proof fn lemma_total_score_bounds(population: Seq<IndividualView>, low: nat, high: nat)
    requires
        forall|i: int| 0 <= i < population.len() ==> low <= #[trigger] population[i].score() <= high,
    ensures
        population.len() * low <= total_score(population) <= population.len() * high,
    decreases population.len(),
{
    if population.len() > 0 {
        let shorter = population.drop_last();
        lemma_total_score_bounds(shorter, low, high);
        assert(population.len() * low == shorter.len() * low + low) by (nonlinear_arith)
            requires
                population.len() == shorter.len() + 1,
        ;
        assert(population.len() * high == shorter.len() * high + high) by (nonlinear_arith)
            requires
                population.len() == shorter.len() + 1,
        ;
    } else {
        assert(population.len() * low == 0 && population.len() * high == 0) by (nonlinear_arith)
            requires
                population.len() == 0,
        ;
    }
}

/// The average of a population lies between its worst and its best score.
pub proof fn lemma_summary_ordered(summary: Summary, population: Seq<IndividualView>)
    requires
        population.len() > 0,
        summarizes(summary, population),
    ensures
        summary.worst <= summary.average <= summary.best,
{
    let n = population.len() as int;
    let total = total_score(population) as int;
    lemma_total_score_bounds(population, summary.worst as nat, summary.best as nat);
    vstd::arithmetic::div_mod::lemma_div_is_ordered(n * summary.worst, total, n);
    vstd::arithmetic::div_mod::lemma_div_is_ordered(total, n * summary.best, n);
    vstd::arithmetic::div_mod::lemma_div_multiples_vanish(summary.worst as int, n);
    vstd::arithmetic::div_mod::lemma_div_multiples_vanish(summary.best as int, n);
}

/// The keys of the population ascend.
pub open spec fn ascending(population: Seq<IndividualView>, key: SortKey) -> bool {
    forall|i: int, j: int|
        0 <= i <= j < population.len() ==> population[i].key(key) <= population[j].key(key)
}

/// The sum of a sequence of numbers.
pub open spec fn sum(numbers: Seq<int>) -> int
    decreases numbers.len(),
{
    if numbers.len() == 0 {
        0
    } else {
        sum(numbers.drop_last()) + numbers.last()
    }
}

/// The lengths of the genomes of a population.
pub open spec fn genome_lengths(population: Seq<IndividualView>) -> Seq<int> {
    population.map_values(|individual: IndividualView| individual.genome.len() as int)
}

/// What the mutations of one generation make of a population, given how
/// much of each genome they kept: every genome is a head of what it was,
/// followed by operators; no more instructions were removed in all than
/// there were removals, and exactly as many were added as there were
/// additions. The fitness caches are what they were.
pub open spec fn mutated_by(
    before: Seq<IndividualView>,
    after: Seq<IndividualView>,
    kept: Seq<int>,
    removals: nat,
    additions: nat,
) -> bool {
    &&& kept.len() == before.len() == after.len()
    &&& forall|i: int|
        0 <= i < kept.len() ==> mutated_at(after[i].genome, before[i].genome, #[trigger] kept[i])
    &&& forall|i: int| 0 <= i < after.len() ==> (#[trigger] after[i]).cache == before[i].cache
    &&& sum(genome_lengths(before)) - sum(kept) <= removals
    &&& sum(genome_lengths(after)) - sum(kept) == additions
}

/// Changing one number of a sequence changes the sum by as much.
pub proof fn lemma_sum_update(numbers: Seq<int>, i: int, number: int)
    requires
        0 <= i < numbers.len(),
    ensures
        sum(numbers.update(i, number)) == sum(numbers) - numbers[i] + number,
    decreases numbers.len(),
{
    let changed = numbers.update(i, number);
    if i == numbers.len() - 1 {
        assert(changed.drop_last() =~= numbers.drop_last());
    } else {
        lemma_sum_update(numbers.drop_last(), i, number);
        assert(changed.drop_last() =~= numbers.drop_last().update(i, number));
    }
}

/// No individual of the population can be accepted: as a parent, or for
/// removal.
pub open spec fn nobody_has_chance(
    population: Seq<IndividualView>,
    total: nat,
    removal: bool,
) -> bool {
    forall|i: int|
        0 <= i < population.len() ==> !has_chance(
            (#[trigger] population[i]).score(),
            total,
            removal,
        )
}

/// The place holds an individual that selection may return: one that can
/// be accepted, or any one where none can.
pub open spec fn selectable(
    population: Seq<IndividualView>,
    index: int,
    total: nat,
    removal: bool,
) -> bool {
    &&& 0 <= index < population.len()
    &&& has_chance(population[index].score(), total, removal) || nobody_has_chance(
        population,
        total,
        removal,
    )
}

/// The two genomes are what recombination makes of two members of the
/// population that selection may return as parents, split somewhere before
/// their ends.
pub open spec fn bred_from(
    first: Seq<Instruction>,
    second: Seq<Instruction>,
    population: Seq<IndividualView>,
    total: nat,
) -> bool {
    exists|mother: int, father: int, cut0: int, cut1: int|
        selectable(population, mother, total, false) && selectable(population, father, total, false)
            && 0 <= cut0 < population[mother].genome.len()
            && 0 <= cut1 < population[father].genome.len()
            && (first, second)
            == #[trigger] crossed(population[mother].genome, population[father].genome, cut0, cut1)
}

/// The offspring of a round of breeding: two children for each pair, side
/// by side, each pair bred from parents selected against the total score
/// of the population, and none scored yet.
pub open spec fn offspring_of(
    offspring: Seq<IndividualView>,
    population: Seq<IndividualView>,
    pairs: nat,
) -> bool {
    &&& offspring.len() == 2 * pairs
    &&& forall|k: int|
        0 <= k < pairs ==> bred_from(
            (#[trigger] offspring[2 * k]).genome,
            offspring[2 * k + 1].genome,
            population,
            capped(total_score(population)),
        )
    &&& forall|i: int| 0 <= i < offspring.len() ==> (#[trigger] offspring[i]).cache is None
}

/// One individual that selection may return for removal has left the
/// population; the others are all there, none of them changed.
pub open spec fn removal_step(
    before: Seq<IndividualView>,
    after: Seq<IndividualView>,
    total: nat,
) -> bool {
    exists|victim: int|
        #[trigger] selectable(before, victim, total, true) && after.len() == before.len() - 1
            && after.to_multiset() == before.to_multiset().remove(before[victim])
}

/// Size regulation, stage by stage: from the population as it was, one
/// individual leaves at each stage, selected against the total score that
/// the population had at first, until the target size is reached. A
/// population that is not above the target is left as it is.
pub open spec fn regulated(
    before: Seq<IndividualView>,
    after: Seq<IndividualView>,
    target: nat,
    stages: Seq<Seq<IndividualView>>,
) -> bool {
    &&& stages.len() >= 1
    &&& stages.first() == before
    &&& stages.last() == after
    &&& forall|k: int|
        0 <= k < stages.len() - 1 ==> removal_step(
            #[trigger] stages[k],
            stages[k + 1],
            capped(total_score(before)),
        )
    &&& after.len() == if before.len() > target {
        target
    } else {
        before.len()
    }
}

} // verus!
