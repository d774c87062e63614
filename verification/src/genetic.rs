//! The evolutionary engine: a population and the generational loop.

use vstd::prelude::*;
use crate::fitness::{lemma_fitness_positive, scored_rows, table, ErrorMetric};
use crate::individual::{
    crossed, mutated_at, operators_only, Individual, IndividualView, SortKey, GENOME_FLOOR,
};
use crate::parallel::{populate_in_parallel, refresh_in_parallel, sort_in_parallel};
use crate::permutation::{
    lemma_map_keeps_multiset, lemma_survivors_come_from, lemma_swap_remove_multiset,
};
use crate::population::{
    all_current, all_honest, all_nonempty, all_scored, ascending, bred_from, capped,
    genome_lengths, lemma_sum_update, lemma_summary_ordered, mutated_by, offspring_of,
    refreshed_all, regulated, removal_step, selectable, sum, summarizes, total_score, views,
};
use crate::random::{random_in_range, random_ratio};
use crate::selection::{
    attempts, eviction_odds, has_chance, head_count, lemma_chance_follows_score, pair_count,
    pair_share, parent_odds, share,
};

verus! {

/// The configuration of a run.
#[derive(Clone, Copy, Debug)]
pub struct GeneticProperties {
    /// Initial genomes are shorter than this.
    pub range_up: usize,
    /// Initial genomes are at least this long.
    pub range_down: usize,
    /// The number of individuals at the end of every generation.
    pub population_size: usize,
    /// Shrinking mutations per generation, in millionths of the population
    /// size.
    pub removal_mutation_rate: u32,
    /// Growing mutations per generation, in millionths of the population
    /// size.
    pub addition_mutation_rate: u32,
    /// Offspring per generation, in millionths of the population size:
    /// half as many pairs of parents are recombined.
    pub cross_over_rate: u32,
    /// How prediction errors are counted.
    pub error_metric: ErrorMetric,
}

impl GeneticProperties {
    /// The bounds that a configuration has to respect: a positive lower
    /// bound on the initial genome length below the upper bound, and a
    /// population of at least one.
    pub open spec fn wf(self) -> bool {
        &&& 0 < self.range_down < self.range_up
        &&& self.population_size > 0
    }

    /// Whether the configuration respects its bounds.
    pub fn is_valid(&self) -> (valid: bool)
        ensures
            valid == self.wf(),
    {
        0 < self.range_down && self.range_down < self.range_up && self.population_size > 0
    }
}

/// What one generation leaves behind: the best, the average and the worst
/// score of its settled population.
#[derive(Clone, Copy, Debug, PartialEq, Eq, Structural)]
pub struct Summary {
    pub best: u128,
    pub average: u128,
    pub worst: u128,
}

/// The engine: a population and its configuration.
pub struct Genetic {
    pub population: Vec<Individual>,
    pub props: GeneticProperties,
}

/// The mathematical content of an engine.
pub struct GeneticView {
    pub population: Seq<IndividualView>,
    pub props: GeneticProperties,
}

impl View for Genetic {
    type V = GeneticView;

    open spec fn view(&self) -> GeneticView {
        GeneticView { population: views(self.population@), props: self.props }
    }
}

impl GeneticView {
    /// The engine is in order: its configuration respects its bounds, the
    /// population has the configured size, and no genome is empty.
    pub open spec fn wf(self) -> bool {
        &&& self.props.wf()
        &&& self.population.len() == self.props.population_size
        &&& all_nonempty(self.population)
    }
}

/// The steps of one generation, from the refreshed population `parents`
/// to the population that is left: the offspring are bred from the
/// parents, as many as the crossover rate stands for; the parents are
/// mutated, as often as the mutation rates stand for; mutants and
/// offspring together are refreshed on the rows; and size regulation
/// brings them down to the configured size.
pub open spec fn varied(
    parents: Seq<IndividualView>,
    left: Seq<IndividualView>,
    props: GeneticProperties,
    rows: Seq<Seq<i32>>,
    offspring: Seq<IndividualView>,
    mutated: Seq<IndividualView>,
    kept: Seq<int>,
    stages: Seq<Seq<IndividualView>>,
) -> bool {
    &&& offspring_of(
        offspring,
        parents,
        pair_share(props.cross_over_rate as nat, props.population_size as nat),
    )
    &&& mutated_by(
        parents,
        mutated,
        kept,
        share(props.removal_mutation_rate as nat, props.population_size as nat),
        share(props.addition_mutation_rate as nat, props.population_size as nat),
    )
    &&& regulated(
        refreshed_all(mutated + offspring, rows, props.error_metric),
        left,
        props.population_size as nat,
        stages,
    )
}

/// What one generation makes of an engine. The population is refreshed on
/// the rows and then goes through the steps that `varied` names. What is
/// left has the configured size and no empty genome, every fitness cache
/// belongs to the genome beside it, and the summary describes it. If every
/// cache that belonged to its genome before held the score of that genome
/// on these rows, every individual now holds the score of its genome on
/// these rows, and all scores are above zero if some row carries an
/// expected output.
pub open spec fn generation(
    before: GeneticView,
    after: GeneticView,
    summary: Summary,
    rows: Seq<Seq<i32>>,
) -> bool {
    &&& after.wf()
    &&& after.props == before.props
    &&& all_current(after.population)
    &&& summarizes(summary, after.population)
    &&& exists|
        offspring: Seq<IndividualView>,
        mutated: Seq<IndividualView>,
        kept: Seq<int>,
        stages: Seq<Seq<IndividualView>>,
    |
        #[trigger] varied(
            refreshed_all(before.population, rows, before.props.error_metric),
            after.population,
            before.props,
            rows,
            offspring,
            mutated,
            kept,
            stages,
        )
    &&& all_honest(before.population, rows, before.props.error_metric) ==> {
        &&& all_scored(after.population, rows, before.props.error_metric)
        &&& scored_rows(rows) > 0 ==> summary.worst > 0
    }
}

/// The engines in `history` follow one another by one generation each, and
/// the three sequences hold the summaries of these generations.
pub open spec fn generations(
    history: Seq<GeneticView>,
    best: Seq<u128>,
    average: Seq<u128>,
    worst: Seq<u128>,
    rows: Seq<Seq<i32>>,
) -> bool {
    &&& history.len() == best.len() + 1
    &&& best.len() == average.len() == worst.len()
    &&& forall|g: int|
        0 <= g < best.len() ==> generation(
            #[trigger] history[g],
            history[g + 1],
            Summary { best: best[g], average: average[g], worst: worst[g] },
            rows,
        )
}

impl Genetic {
    /// Whether the engine is in order.
    pub fn is_valid(&self) -> (valid: bool)
        ensures
            valid == self@.wf(),
    {
        if !self.props.is_valid() || self.population.len() != self.props.population_size {
            return false;
        }
        let mut i: usize = 0;
        while i < self.population.len()
            invariant
                i <= self.population.len(),
                forall|k: int| 0 <= k < i ==> (#[trigger] self@.population[k]).genome.len() >= 1,
            decreases self.population.len() - i,
        {
            if self.population[i].complexity() == 0 {
                assert(self@.population[i as int].genome.len() == 0);
                return false;
            }
            i += 1;
        }
        true
    }

    /// An engine with a random initial population of the configured size.
    /// Every genome has a length from `range_down` up to, but not including
    /// `range_up`, holds operators only, and has not been scored.
    pub fn new(props: GeneticProperties) -> (engine: Self)
        requires
            props.wf(),
        ensures
            engine@.wf(),
            engine@.props == props,
            forall|i: int|
                0 <= i < engine@.population.len() ==> (#[trigger] engine@.population[i]).is_initial(
                    props.range_up as nat,
                    props.range_down as nat,
                ),
    {
        let range_down = props.range_down;
        let range_up = props.range_up;
        let pop = props.population_size;
        Genetic { population: populate_in_parallel(pop, range_up, range_down), props }
    }

    /// Refreshes the fitness cache of every individual on the dataset.
    pub fn recompute_fitness_values(&mut self, dataset: &Vec<Vec<i32>>)
        ensures
            final(self)@.props == old(self)@.props,
            final(self)@.population == refreshed_all(
                old(self)@.population,
                table(dataset@),
                old(self)@.props.error_metric,
            ),
    {
        refresh_in_parallel(&mut self.population, dataset, self.props.error_metric);
    }

    /// Refreshes every fitness cache on the dataset and orders the
    /// population by ascending score. The individuals are those of the
    /// refreshed population, rearranged.
    pub fn sort_population_by_fitness(&mut self, dataset: &Vec<Vec<i32>>)
        ensures
            final(self)@.props == old(self)@.props,
            final(self)@.population.to_multiset() == refreshed_all(
                old(self)@.population,
                table(dataset@),
                old(self)@.props.error_metric,
            ).to_multiset(),
            ascending(final(self)@.population, SortKey::Fitness),
            final(self)@.population.len() == old(self)@.population.len(),
    {
        self.recompute_fitness_values(dataset);
        let ghost refreshed = self.population@;
        assert(refreshed.len() == old(self).population@.len()) by {
            assert(views(refreshed).len() == views(old(self).population@).len());
        }
        sort_in_parallel(&mut self.population, SortKey::Fitness);
        proof {
            lemma_map_keeps_multiset(
                self.population@,
                refreshed,
                |individual: Individual| individual@,
            );
            refreshed.to_multiset_ensures();
            self.population@.to_multiset_ensures();
        }
    }

    /// Orders the population by ascending genome length. The individuals
    /// are rearranged, and none is changed.
    pub fn sort_population_by_complexity(&mut self)
        ensures
            final(self)@.props == old(self)@.props,
            final(self)@.population.to_multiset() == old(self)@.population.to_multiset(),
            ascending(final(self)@.population, SortKey::Complexity),
            final(self)@.population.len() == old(self)@.population.len(),
    {
        let ghost before = self.population@;
        sort_in_parallel(&mut self.population, SortKey::Complexity);
        proof {
            lemma_map_keeps_multiset(
                self.population@,
                before,
                |individual: Individual| individual@,
            );
            before.to_multiset_ensures();
            self.population@.to_multiset_ensures();
        }
    }

    /// The sum of the scores of the population, capped at the largest
    /// number that 128 bits hold.
    pub fn total_fitness(&self) -> (total: u128)
        ensures
            total == capped(total_score(self@.population)),
    {
        let ghost scores = self@.population;
        let mut total: u128 = 0;
        let mut i: usize = 0;
        while i < self.population.len()
            invariant
                i <= self.population.len(),
                scores == self@.population,
                total == capped(total_score(scores.take(i as int))),
            decreases self.population.len() - i,
        {
            proof {
                assert(scores.take(i + 1).drop_last() =~= scores.take(i as int));
            }
            let score = self.population[i].fitness();
            total = if u128::MAX - total < score {
                u128::MAX
            } else {
                total + score
            };
            i += 1;
        }
        proof {
            assert(scores.take(self.population.len() as int) =~= scores);
        }
        total
    }

    /// The average score of the population: the sum of the scores over the
    /// number of individuals, rounded down. The sum itself may be too large
    /// to hold, so whole parts and remainders are added up apart.
    pub fn average_fitness(&self) -> (average: u128)
        requires
            self@.population.len() > 0,
        ensures
            average == total_score(self@.population) / self@.population.len(),
    {
        let ghost scores = self@.population;
        let size: u128 = self.population.len() as u128;
        let mut wholes: u128 = 0;
        let mut rests: u128 = 0;
        let mut i: usize = 0;
        while i < self.population.len()
            invariant
                i <= self.population.len(),
                size == self.population.len() > 0,
                scores == self@.population,
                total_score(scores.take(i as int)) == size * wholes + rests,
                total_score(scores.take(i as int)) <= i * u128::MAX,
                wholes <= i * (u128::MAX / size),
                rests <= i * (size - 1),
            decreases self.population.len() - i,
        {
            let score = self.population[i].fitness();
            proof {
                assert(scores.take(i + 1).drop_last() =~= scores.take(i as int));
                let part = (u128::MAX / size) as int;
                assert(score / size <= part) by {
                    vstd::arithmetic::div_mod::lemma_div_is_ordered(
                        score as int,
                        u128::MAX as int,
                        size as int,
                    );
                }
                assert((i + 1) * part <= size * part && size * part <= u128::MAX
                    && (i + 1) * part == i * part + part) by (nonlinear_arith)
                    requires
                        0 <= i < size,
                        part == u128::MAX / size,
                        size > 0,
                ;
                assert((i + 1) * (size - 1) <= 0xFFFF_FFFF_FFFF_FFFF * 0xFFFF_FFFF_FFFF_FFFE
                    && (i + 1) * (size - 1) == i * (size - 1) + (size - 1)) by (nonlinear_arith)
                    requires
                        0 <= i < size <= 0xFFFF_FFFF_FFFF_FFFF,
                ;
                assert(score == size * (score / size) + score % size) by {
                    vstd::arithmetic::div_mod::lemma_fundamental_div_mod(score as int, size as int);
                }
                assert(size * (wholes + score / size) == size * wholes + size * (score / size))
                    by (nonlinear_arith);
            }
            wholes = wholes + score / size;
            rests = rests + score % size;
            i += 1;
        }
        proof {
            assert(scores.take(self.population.len() as int) =~= scores);
            let total = total_score(scores) as int;
            vstd::arithmetic::div_mod::lemma_hoist_over_denominator(
                rests as int,
                wholes as int,
                size as nat,
            );
            assert(total / (size as int) <= u128::MAX) by {
                vstd::arithmetic::div_mod::lemma_div_is_ordered(
                    total,
                    size * u128::MAX,
                    size as int,
                );
                vstd::arithmetic::div_mod::lemma_div_multiples_vanish(
                    u128::MAX as int,
                    size as int,
                );
            }
        }
        wholes + rests / size
    }

    /// The place of the fittest individual: no score in the population is
    /// higher than the one found there, and every score before it is
    /// lower.
    pub fn fittest(&self) -> (index: usize)
        requires
            self@.population.len() > 0,
        ensures
            index < self@.population.len(),
            forall|i: int|
                0 <= i < self@.population.len() ==> (#[trigger] self@.population[i]).score()
                    <= self@.population[index as int].score(),
            forall|i: int|
                0 <= i < index ==> (#[trigger] self@.population[i]).score()
                    < self@.population[index as int].score(),
    {
        let mut index: usize = 0;
        let mut best: u128 = self.population[0].fitness();
        let mut i: usize = 1;
        while i < self.population.len()
            invariant
                1 <= i <= self.population.len(),
                index < i,
                best == self@.population[index as int].score(),
                forall|k: int| 0 <= k < i ==> (#[trigger] self@.population[k]).score() <= best,
                forall|k: int| 0 <= k < index ==> (#[trigger] self@.population[k]).score() < best,
            decreases self.population.len() - i,
        {
            let score = self.population[i].fitness();
            if score > best {
                best = score;
                index = i;
            }
            i += 1;
        }
        index
    }

    /// The place of the weakest individual: no score in the population is
    /// lower than the one found there, and every score before it is
    /// higher.
    pub fn weakest(&self) -> (index: usize)
        requires
            self@.population.len() > 0,
        ensures
            index < self@.population.len(),
            forall|i: int|
                0 <= i < self@.population.len() ==> (#[trigger] self@.population[i]).score()
                    >= self@.population[index as int].score(),
            forall|i: int|
                0 <= i < index ==> (#[trigger] self@.population[i]).score()
                    > self@.population[index as int].score(),
    {
        let mut index: usize = 0;
        let mut worst: u128 = self.population[0].fitness();
        let mut i: usize = 1;
        while i < self.population.len()
            invariant
                1 <= i <= self.population.len(),
                index < i,
                worst == self@.population[index as int].score(),
                forall|k: int| 0 <= k < i ==> (#[trigger] self@.population[k]).score() >= worst,
                forall|k: int| 0 <= k < index ==> (#[trigger] self@.population[k]).score() > worst,
            decreases self.population.len() - i,
        {
            let score = self.population[i].fitness();
            if score < worst {
                worst = score;
                index = i;
            }
            i += 1;
        }
        index
    }

    /// The best, the average and the worst score of the population.
    pub fn statistics(&self) -> (summary: Summary)
        requires
            self@.population.len() > 0,
        ensures
            summarizes(summary, self@.population),
    {
        let best = self.population[self.fittest()].fitness();
        let worst = self.population[self.weakest()].fitness();
        let average = self.average_fitness();
        Summary { best, average, worst }
    }

    /// Draws candidates from the population, each place being as likely as
    /// any other, until one is accepted, and returns its place. A candidate
    /// is accepted with the odds that its score gives it in the total: as a
    /// parent with `selection_odds`, for removal with `removal_odds`. When the
    /// attempts allowed for one selection are used up, the fittest
    /// individual is taken as a parent, and the weakest for removal.
    ///
    /// Whatever chance decides, an individual that could not be accepted is
    /// returned only where none could.
    fn roulette(&self, total: u128, removal: bool) -> (index: usize)
        requires
            self@.population.len() > 0,
        ensures
            selectable(self@.population, index as int, total as nat, removal),
    {
        let size = self.population.len();
        let budget = attempts(size);
        let mut drawn: usize = 0;
        while drawn < budget
            invariant
                size == self@.population.len() > 0,
            decreases budget - drawn,
        {
            let candidate = random_in_range(0, size);
            let score = self.population[candidate].fitness();
            let odds = if removal {
                eviction_odds(score, total)
            } else {
                parent_odds(score, total)
            };
            if random_ratio(odds.0, odds.1) {
                return candidate;
            }
            drawn += 1;
        }
        let index = if removal {
            self.weakest()
        } else {
            self.fittest()
        };
        proof {
            let chosen = self@.population[index as int].score();
            assert forall|i: int|
                0 <= i < self@.population.len() && has_chance(
                    (#[trigger] self@.population[i]).score(),
                    total as nat,
                    removal,
                ) implies has_chance(chosen, total as nat, removal) by {
                let other = self@.population[i].score();
                if removal {
                    lemma_chance_follows_score(chosen, other, total as nat);
                } else {
                    lemma_chance_follows_score(other, chosen, total as nat);
                }
            }
        }
        index
    }

    /// Selects a parent in proportion to fitness: candidates are drawn
    /// uniformly and accepted with their share of the total score. An
    /// individual without any share is selected only where none has any.
    pub fn select_parent(&self, total: u128) -> (index: usize)
        requires
            self@.population.len() > 0,
        ensures
            selectable(self@.population, index as int, total as nat, false),
    {
        self.roulette(total, false)
    }

    /// Selects an individual to remove: candidates are drawn uniformly and
    /// accepted with one minus their share of the total score. An individual
    /// that holds the whole total is selected only where every individual
    /// does.
    pub fn select_for_removal(&self, total: u128) -> (index: usize)
        requires
            self@.population.len() > 0,
        ensures
            selectable(self@.population, index as int, total as nat, true),
    {
        self.roulette(total, true)
    }

    /// Breeds the offspring of one generation: for each pair that the
    /// crossover rate stands for, two parents are selected in proportion to
    /// fitness, against the total score of the population, and recombined
    /// into two children, which stand side by side in the result. No child
    /// has a score yet. The population itself is left as it is.
    pub fn breed(&self) -> (offspring: Vec<Individual>)
        requires
            self@.population.len() > 0,
            all_nonempty(self@.population),
        ensures
            offspring_of(
                views(offspring@),
                self@.population,
                pair_share(
                    self@.props.cross_over_rate as nat,
                    self@.props.population_size as nat,
                ),
            ),
            all_nonempty(views(offspring@)),
    {
        let total = self.total_fitness();
        let pairs = pair_count(self.props.cross_over_rate, self.props.population_size);
        let mut offspring: Vec<Individual> = Vec::new();
        let mut bred: u128 = 0;
        while bred < pairs
            invariant
                bred <= pairs,
                self@.population.len() > 0,
                all_nonempty(self@.population),
                total == capped(total_score(self@.population)),
                offspring@.len() == 2 * bred,
                forall|k: int|
                    0 <= k < bred ==> bred_from(
                        (#[trigger] offspring@[2 * k])@.genome,
                        offspring@[2 * k + 1]@.genome,
                        self@.population,
                        total as nat,
                    ),
                forall|i: int|
                    0 <= i < offspring@.len() ==> {
                        &&& (#[trigger] offspring@[i])@.genome.len() >= 1
                        &&& offspring@[i]@.cache is None
                    },
            decreases pairs - bred,
        {
            let mother = self.select_parent(total);
            let father = self.select_parent(total);
            let children = self.population[mother].crossover(&self.population[father]);
            proof {
                let (cut0, cut1) = choose|cut0: int, cut1: int|
                    0 <= cut0 < self.population@[mother as int]@.genome.len()
                        && 0 <= cut1 < self.population@[father as int]@.genome.len()
                        && (children.0@.genome, children.1@.genome)
                        == #[trigger] crossed(
                        self.population@[mother as int]@.genome,
                        self.population@[father as int]@.genome,
                        cut0,
                        cut1,
                    );
                assert(selectable(self@.population, mother as int, total as nat, false));
                assert(selectable(self@.population, father as int, total as nat, false));
                assert((children.0@.genome, children.1@.genome) == crossed(
                    self@.population[mother as int].genome,
                    self@.population[father as int].genome,
                    cut0,
                    cut1,
                ));
                assert(bred_from(
                    children.0@.genome,
                    children.1@.genome,
                    self@.population,
                    total as nat,
                ));
            }
            let ghost before = offspring@;
            offspring.push(children.0);
            offspring.push(children.1);
            assert forall|k: int| 0 <= k < bred + 1 implies bred_from(
                (#[trigger] offspring@[2 * k])@.genome,
                offspring@[2 * k + 1]@.genome,
                self@.population,
                total as nat,
            ) by {
                if k < bred {
                    assert(offspring@[2 * k] == before[2 * k]);
                    assert(offspring@[2 * k + 1] == before[2 * k + 1]);
                }
            }
            bred += 1;
        }
        proof {
            assert forall|k: int| 0 <= k < pairs implies bred_from(
                (#[trigger] views(offspring@)[2 * k]).genome,
                views(offspring@)[2 * k + 1].genome,
                self@.population,
                capped(total_score(self@.population)),
            ) by {
                assert(bred_from(
                    offspring@[2 * k]@.genome,
                    offspring@[2 * k + 1]@.genome,
                    self@.population,
                    total as nat,
                ));
            }
        }
        offspring
    }

    /// Applies the mutations of one generation: as many removals, and then
    /// as many additions, as their rates stand for, each to an individual
    /// drawn uniformly from the population. Every genome keeps a head of
    /// itself, no shorter than `GENOME_FLOOR` unless the genome was, and
    /// carries behind it the operators that were added. A removal that
    /// meets a genome at the floor removes nothing; every addition adds an
    /// operator. Fitness caches are not touched.
    pub fn mutate(&mut self)
        requires
            old(self)@.population.len() > 0,
        ensures
            final(self)@.props == old(self)@.props,
            final(self)@.population.len() == old(self)@.population.len(),
            exists|kept: Seq<int>|
                #![trigger kept.len()]
                mutated_by(
                    old(self)@.population,
                    final(self)@.population,
                    kept,
                    share(
                        old(self)@.props.removal_mutation_rate as nat,
                        old(self)@.props.population_size as nat,
                    ),
                    share(
                        old(self)@.props.addition_mutation_rate as nat,
                        old(self)@.props.population_size as nat,
                    ),
                ),
    {
        let size = self.population.len();
        let removals = head_count(self.props.removal_mutation_rate, self.props.population_size);
        let additions = head_count(self.props.addition_mutation_rate, self.props.population_size);
        let ghost start = self@.population;
        let ghost mut kept: Seq<int> = genome_lengths(start);
        let mut done: u128 = 0;
        while done < removals
            invariant
                done <= removals,
                size > 0,
                self.props == old(self).props,
                start == old(self)@.population,
                self@.population.len() == size == start.len(),
                kept.len() == size,
                sum(genome_lengths(start)) - sum(kept) <= done,
                forall|i: int|
                    0 <= i < size ==> {
                        let before = start[i];
                        let now = #[trigger] self@.population[i];
                        &&& now.cache == before.cache
                        &&& 0 <= kept[i] <= before.genome.len()
                        &&& kept[i] >= GENOME_FLOOR || kept[i] == before.genome.len()
                        &&& now.genome == before.genome.take(kept[i])
                    },
            decreases removals - done,
        {
            let target = random_in_range(0, size);
            let ghost earlier = self@.population;
            let ghost shrinks = earlier[target as int].genome.len() > GENOME_FLOOR;
            self.population[target].mutate_remove();
            proof {
                assert forall|i: int| 0 <= i < size && i != target implies (
                #[trigger] self@.population[i]) == earlier[i] by {}
                if shrinks {
                    lemma_sum_update(kept, target as int, kept[target as int] - 1);
                    kept = kept.update(target as int, kept[target as int] - 1);
                }
            }
            done += 1;
        }
        proof {
            assert(genome_lengths(self@.population) =~= kept);
        }
        let ghost removed = sum(genome_lengths(start)) - sum(kept);
        done = 0;
        while done < additions
            invariant
                done <= additions,
                size > 0,
                self.props == old(self).props,
                start == old(self)@.population,
                self@.population.len() == size == start.len(),
                kept.len() == size,
                removed == sum(genome_lengths(start)) - sum(kept),
                sum(genome_lengths(self@.population)) - sum(kept) == done,
                forall|i: int|
                    0 <= i < size ==> {
                        let before = start[i];
                        let now = #[trigger] self@.population[i];
                        &&& now.cache == before.cache
                        &&& 0 <= kept[i] <= before.genome.len()
                        &&& kept[i] >= GENOME_FLOOR || kept[i] == before.genome.len()
                        &&& kept[i] <= now.genome.len()
                        &&& now.genome.take(kept[i]) == before.genome.take(kept[i])
                        &&& operators_only(now.genome.skip(kept[i]))
                    },
            decreases additions - done,
        {
            let target = random_in_range(0, size);
            let ghost earlier = self@.population;
            self.population[target].mutate_add();
            proof {
                assert forall|i: int| 0 <= i < size && i != target implies (
                #[trigger] self@.population[i]) == earlier[i] by {}
                let was = earlier[target as int].genome;
                let now = self@.population[target as int].genome;
                let k = kept[target as int];
                assert(now.skip(k) =~= was.skip(k).push(now.last()));
                let longer = was.len() as int + 1;
                assert(genome_lengths(self@.population) =~= genome_lengths(earlier).update(
                    target as int,
                    longer,
                ));
                lemma_sum_update(genome_lengths(earlier), target as int, longer);
            }
            done += 1;
        }
    }

    /// Brings a population that has grown beyond the configured size back
    /// to it: individuals are selected for removal, one after another,
    /// against the total score that the population had when the removal
    /// began. The survivors are individuals of the population as it was,
    /// none of them changed.
    pub fn regulate(&mut self)
        ensures
            final(self)@.props == old(self)@.props,
            exists|stages: Seq<Seq<IndividualView>>|
                #[trigger] regulated(
                    old(self)@.population,
                    final(self)@.population,
                    old(self)@.props.population_size as nat,
                    stages,
                ),
            final(self)@.population.to_multiset().subset_of(old(self)@.population.to_multiset()),
    {
        let total = self.total_fitness();
        let ghost mut stages: Seq<Seq<IndividualView>> = seq![self@.population];
        while self.population.len() > self.props.population_size
            invariant
                self.props == old(self).props,
                total == capped(total_score(old(self)@.population)),
                self.population@.len() <= old(self).population@.len(),
                self.population@.len() < old(self).population@.len() ==> self.population@.len()
                    >= self.props.population_size,
                self@.population.to_multiset().subset_of(old(self)@.population.to_multiset()),
                stages.len() >= 1,
                stages.first() == old(self)@.population,
                stages.last() == self@.population,
                forall|k: int|
                    0 <= k < stages.len() - 1 ==> removal_step(
                        #[trigger] stages[k],
                        stages[k + 1],
                        total as nat,
                    ),
            decreases self.population@.len(),
        {
            let ghost before = self@.population;
            let ghost earlier = stages;
            let victim = self.select_for_removal(total);
            self.population.swap_remove(victim);
            proof {
                assert(self@.population =~= before.update(victim as int, before.last()).drop_last());
                lemma_swap_remove_multiset(before, victim as int);
                assert(selectable(before, victim as int, total as nat, true));
                assert(removal_step(before, self@.population, total as nat));
                stages = stages.push(self@.population);
                assert forall|k: int| 0 <= k < stages.len() - 1 implies removal_step(
                    #[trigger] stages[k],
                    stages[k + 1],
                    total as nat,
                ) by {
                    if k < earlier.len() - 1 {
                        assert(stages[k] == earlier[k] && stages[k + 1] == earlier[k + 1]);
                    } else {
                        assert(stages[k] == before);
                    }
                }
            }
        }
        proof {
            assert(regulated(
                old(self)@.population,
                self@.population,
                old(self)@.props.population_size as nat,
                stages,
            ));
        }
    }

    /// Runs one generation: fitness refresh, breeding, mutation, insertion
    /// of the offspring, fitness refresh, size regulation, statistics.
    ///
    /// Afterwards the population has the configured size again, every
    /// fitness cache belongs to the genome beside it, and the summary
    /// describes the population that is left. The offspring were as many
    /// as the crossover rate stands for, the mutations as many as their
    /// rates stand for, and who is left was decided by size regulation. If
    /// no cache that belonged to its genome held a score from another
    /// dataset before, every score is now the score of its genome on this
    /// dataset.
    pub fn advance(&mut self, dataset: &Vec<Vec<i32>>) -> (summary: Summary)
        requires
            old(self)@.wf(),
        ensures
            generation(old(self)@, final(self)@, summary, table(dataset@)),
    {
        let ghost rows = table(dataset@);
        let ghost metric = self.props.error_metric;
        let ghost start = self@.population;
        let ghost honest = all_honest(start, rows, metric);
        self.recompute_fitness_values(dataset);
        let ghost parents = self@.population;
        assert forall|i: int| 0 <= i < parents.len() implies {
            &&& (#[trigger] parents[i]).genome.len() >= 1
            &&& honest ==> parents[i].scored_on(rows, metric)
        } by {
            assert(parents[i] == start[i].refreshed(rows, metric));
            assert(start[i].genome.len() >= 1);
            assert(honest ==> (start[i].is_current() ==> start[i].scored_on(rows, metric)));
        }
        let mut offspring = self.breed();
        let ghost bred = views(offspring@);
        self.mutate();
        let ghost mutated = self@.population;
        let ghost kept = choose|kept: Seq<int>|
            #![trigger kept.len()]
            mutated_by(
                parents,
                mutated,
                kept,
                share(
                    self@.props.removal_mutation_rate as nat,
                    self@.props.population_size as nat,
                ),
                share(
                    self@.props.addition_mutation_rate as nat,
                    self@.props.population_size as nat,
                ),
            );
        self.population.append(&mut offspring);
        let ghost grown = self@.population;
        assert(grown =~= mutated + bred);
        assert forall|i: int| 0 <= i < grown.len() implies {
            &&& (#[trigger] grown[i]).genome.len() >= 1
            &&& honest ==> (grown[i].is_current() ==> grown[i].scored_on(rows, metric))
        } by {
            if i < mutated.len() {
                assert(mutated_at(mutated[i].genome, parents[i].genome, kept[i]));
                assert(mutated[i].cache == parents[i].cache);
                assert(parents[i].genome.len() >= 1);
            } else {
                assert(grown[i] == bred[i - mutated.len()]);
                assert(bred[i - mutated.len()].genome.len() >= 1);
                assert(bred[i - mutated.len()].cache is None);
            }
        }
        self.recompute_fitness_values(dataset);
        let ghost scored = self@.population;
        assert(scored == refreshed_all(mutated + bred, rows, metric));
        assert forall|i: int| 0 <= i < scored.len() implies {
            &&& (#[trigger] scored[i]).genome.len() >= 1
            &&& scored[i].is_current()
            &&& honest ==> scored[i].scored_on(rows, metric)
        } by {
            assert(scored[i] == grown[i].refreshed(rows, metric));
            assert(grown[i].genome.len() >= 1);
        }
        self.regulate();
        let ghost stages = choose|stages: Seq<Seq<IndividualView>>|
            #[trigger] regulated(
                scored,
                self@.population,
                self@.props.population_size as nat,
                stages,
            );
        proof {
            lemma_survivors_come_from(self@.population, scored);
            assert forall|i: int| 0 <= i < self@.population.len() implies {
                &&& (#[trigger] self@.population[i]).genome.len() >= 1
                &&& self@.population[i].is_current()
                &&& honest ==> self@.population[i].scored_on(rows, metric)
                &&& honest && scored_rows(rows) > 0 ==> self@.population[i].score() > 0
            } by {
                assert(scored.contains(self@.population[i]));
                let k = choose|k: int| 0 <= k < scored.len() && scored[k] == self@.population[i];
                assert(scored[k].genome.len() >= 1);
                if honest && scored_rows(rows) > 0 {
                    lemma_fitness_positive(scored[k].genome, rows, metric);
                }
            }
            assert(varied(
                refreshed_all(start, rows, metric),
                self@.population,
                self@.props,
                rows,
                bred,
                mutated,
                kept,
                stages,
            ));
        }
        self.statistics()
    }

    /// Runs the given number of generations and returns three sequences
    /// with one entry per generation: the best, the average and the worst
    /// score of the population that the generation left behind, in this
    /// order.
    ///
    /// The engine passes through one state per generation, each made of the
    /// one before as `generation` says. So the population has the configured
    /// size afterwards, and if at least one generation ran, every fitness
    /// cache belongs to the genome beside it and the last entries describe
    /// the population that is left.
    pub fn run(
        &mut self,
        generations: usize,
        dataset: &Vec<Vec<i32>>,
    ) -> (statistics: Vec<Vec<u128>>)
        requires
            old(self)@.wf(),
        ensures
            statistics@.len() == 3,
            forall|k: int| 0 <= k < 3 ==> (#[trigger] statistics@[k])@.len() == generations,
            exists|history: Seq<GeneticView>|
                #![trigger history.first()]
                history.first() == old(self)@ && history.last() == final(self)@ && self::generations(
                    history,
                    statistics@[0]@,
                    statistics@[1]@,
                    statistics@[2]@,
                    table(dataset@),
                ),
            final(self)@.wf(),
            final(self)@.props == old(self)@.props,
            forall|g: int|
                0 <= g < generations ==> statistics@[2]@[g] <= #[trigger] statistics@[1]@[g]
                    <= statistics@[0]@[g],
            generations == 0 ==> final(self)@ == old(self)@,
            generations > 0 ==> all_current(final(self)@.population),
            generations > 0 ==> summarizes(
                Summary {
                    best: statistics@[0]@.last(),
                    average: statistics@[1]@.last(),
                    worst: statistics@[2]@.last(),
                },
                final(self)@.population,
            ),
            all_honest(old(self)@.population, table(dataset@), old(self)@.props.error_metric)
                ==> {
                &&& generations > 0 ==> all_scored(
                    final(self)@.population,
                    table(dataset@),
                    old(self)@.props.error_metric,
                )
                &&& scored_rows(table(dataset@)) > 0 ==> forall|g: int|
                    0 <= g < generations ==> #[trigger] statistics@[2]@[g] > 0
            },
    {
        let ghost rows = table(dataset@);
        let ghost metric = self.props.error_metric;
        let ghost honest = all_honest(self@.population, rows, metric);
        let ghost mut history: Seq<GeneticView> = seq![self@];
        let mut best_fitness_values: Vec<u128> = Vec::new();
        let mut avg_fitness_values: Vec<u128> = Vec::new();
        let mut worst_fitness_values: Vec<u128> = Vec::new();
        let mut g: usize = 0;
        while g < generations
            invariant
                g <= generations,
                self@.wf(),
                self@.props == old(self)@.props,
                rows == table(dataset@),
                metric == self.props.error_metric,
                best_fitness_values@.len() == g,
                avg_fitness_values@.len() == g,
                worst_fitness_values@.len() == g,
                history.first() == old(self)@,
                history.last() == self@,
                self::generations(
                    history,
                    best_fitness_values@,
                    avg_fitness_values@,
                    worst_fitness_values@,
                    rows,
                ),
                forall|k: int|
                    0 <= k < g ==> worst_fitness_values@[k] <= #[trigger] avg_fitness_values@[k]
                        <= best_fitness_values@[k],
                g == 0 ==> self@ == old(self)@,
                g > 0 ==> all_current(self@.population),
                g > 0 ==> summarizes(
                    Summary {
                        best: best_fitness_values@.last(),
                        average: avg_fitness_values@.last(),
                        worst: worst_fitness_values@.last(),
                    },
                    self@.population,
                ),
                honest ==> all_honest(self@.population, rows, metric),
                honest && g > 0 ==> all_scored(self@.population, rows, metric),
                honest && scored_rows(rows) > 0 ==> forall|k: int|
                    0 <= k < g ==> #[trigger] worst_fitness_values@[k] > 0,
            decreases generations - g,
        {
            let summary = self.advance(dataset);
            proof {
                lemma_summary_ordered(summary, self@.population);
                history = history.push(self@);
            }
            best_fitness_values.push(summary.best);
            avg_fitness_values.push(summary.average);
            worst_fitness_values.push(summary.worst);
            g += 1;
        }
        let mut statistics: Vec<Vec<u128>> = Vec::new();
        statistics.push(best_fitness_values);
        statistics.push(avg_fitness_values);
        statistics.push(worst_fitness_values);
        statistics
    }
}

} // verus!
