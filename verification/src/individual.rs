//! Individuals: a genome, its cached fitness, and the variation operators.

use vstd::prelude::*;
use crate::fitness::{fitness_of, fitness_score, measure, scored_rows, table, ErrorMetric};
use crate::instruction::{evaluate, lemma_evaluate_from_arguments, run_stream, Instruction};
use crate::random::random_in_range;

verus! {

/// The shortest genome that shrinking still leaves behind.
pub const GENOME_FLOOR: usize = 2;

/// The number of operators that a random draw chooses from.
pub const OPERATOR_COUNT: usize = 5;

/// What a population is ordered by.
#[derive(Clone, Copy, Debug, PartialEq, Eq, Structural)]
pub enum SortKey {
    /// The score in the fitness cache.
    Fitness,
    /// The length of the genome.
    Complexity,
}

/// A score together with the genome that it was computed for.
pub struct Cached {
    pub genome: Seq<Instruction>,
    pub score: nat,
}

/// The fitness cache of an individual: the score last computed and a
/// snapshot of the genome that it belongs to.
#[derive(Debug)]
pub struct Fitness {
    /// Whether a score has been computed at all.
    pub computed: bool,
    /// The score, in units of `1 / FITNESS_ONE`.
    pub ft: u128,
    /// The genome that the score was computed for.
    pub stack: Vec<Instruction>,
}

impl View for Fitness {
    type V = Option<Cached>;

    open spec fn view(&self) -> Option<Cached> {
        if self.computed {
            Some(Cached { genome: self.stack@, score: self.ft as nat })
        } else {
            None
        }
    }
}

/// A genome with its fitness cache.
#[derive(Debug)]
pub struct Individual {
    pub stack: Vec<Instruction>,
    pub fitness: Fitness,
}

/// The mathematical content of an individual.
pub struct IndividualView {
    pub genome: Seq<Instruction>,
    pub cache: Option<Cached>,
}

impl View for Individual {
    type V = IndividualView;

    open spec fn view(&self) -> IndividualView {
        IndividualView { genome: self.stack@, cache: self.fitness@ }
    }
}

impl IndividualView {
    /// An individual that has never been scored.
    pub open spec fn fresh(genome: Seq<Instruction>) -> IndividualView {
        IndividualView { genome, cache: None }
    }

    /// An individual as random synthesis makes it: a genome of a length
    /// from `range_down` up to, but not including `range_up`, made of
    /// operators only, and never scored.
    pub open spec fn is_initial(self, range_up: nat, range_down: nat) -> bool {
        &&& range_down <= self.genome.len() < range_up
        &&& operators_only(self.genome)
        &&& self.cache is None
    }

    /// The cache holds a score, and it was computed for the present genome.
    pub open spec fn is_current(self) -> bool {
        self.cache matches Some(cached) && cached.genome == self.genome
    }

    /// The score in the cache, whether current or stale; zero without one.
    pub open spec fn score(self) -> nat {
        match self.cache {
            Some(cached) => cached.score,
            None => 0,
        }
    }

    /// The number by which the individual is placed in an ordering.
    pub open spec fn key(self, key: SortKey) -> nat {
        match key {
            SortKey::Fitness => self.score(),
            SortKey::Complexity => self.genome.len(),
        }
    }

    /// The cache is current and holds the score of the present genome on the
    /// given rows.
    pub open spec fn scored_on(self, rows: Seq<Seq<i32>>, metric: ErrorMetric) -> bool {
        self.is_current() && self.score() == fitness_of(self.genome, rows, metric)
    }

    /// The individual after a fitness refresh: untouched while its cache is
    /// current, and scored anew on the given rows otherwise.
    pub open spec fn refreshed(self, rows: Seq<Seq<i32>>, metric: ErrorMetric) -> IndividualView {
        if self.is_current() {
            self
        } else {
            IndividualView {
                genome: self.genome,
                cache: Some(
                    Cached { genome: self.genome, score: fitness_of(self.genome, rows, metric) },
                ),
            }
        }
    }
}

/// The operator that a draw stands for.
pub open spec fn operator_for(draw: nat) -> Instruction {
    if draw == 0 {
        Instruction::Neg
    } else if draw == 1 {
        Instruction::Sum
    } else if draw == 2 {
        Instruction::Duplicate
    } else if draw == 3 {
        Instruction::Multiply
    } else {
        Instruction::Swap
    }
}

/// The two genomes that single-point recombination makes of two parents:
/// the head of the first with the tail of the second, and the head of the
/// second with the tail of the first.
pub open spec fn crossed(
    first: Seq<Instruction>,
    second: Seq<Instruction>,
    cut0: int,
    cut1: int,
) -> (Seq<Instruction>, Seq<Instruction>) {
    (first.take(cut0) + second.skip(cut1), second.take(cut1) + first.skip(cut0))
}

/// Every instruction of the genome is an operator.
pub open spec fn operators_only(genome: Seq<Instruction>) -> bool {
    forall|i: int| 0 <= i < genome.len() ==> (#[trigger] genome[i]).is_operator()
}

/// What the mutations of one generation can make of a genome, given how
/// much of it they kept: removals shorten it, though never below
/// `GENOME_FLOOR`, and additions then append operators to what is left.
pub open spec fn mutated_at(after: Seq<Instruction>, before: Seq<Instruction>, kept: int) -> bool {
    &&& 0 <= kept <= before.len()
    &&& kept >= GENOME_FLOOR || kept == before.len()
    &&& kept <= after.len()
    &&& after.take(kept) == before.take(kept)
    &&& operators_only(after.skip(kept))
}

/// Recombination neither makes nor loses an instruction: the two children
/// are as long together as the two parents, and hold the same instructions
/// as often.
pub proof fn lemma_crossover_keeps_instructions(
    first: Seq<Instruction>,
    second: Seq<Instruction>,
    cut0: int,
    cut1: int,
)
    requires
        0 <= cut0 <= first.len(),
        0 <= cut1 <= second.len(),
    ensures
        crossed(first, second, cut0, cut1).0.len() + crossed(first, second, cut0, cut1).1.len()
            == first.len() + second.len(),
        (crossed(first, second, cut0, cut1).0 + crossed(first, second, cut0, cut1).1).to_multiset()
            == (first + second).to_multiset(),
{
    let head0 = first.take(cut0);
    let tail0 = first.skip(cut0);
    let head1 = second.take(cut1);
    let tail1 = second.skip(cut1);
    assert(first =~= head0 + tail0);
    assert(second =~= head1 + tail1);
    vstd::seq_lib::lemma_multiset_commutative(head0, tail0);
    vstd::seq_lib::lemma_multiset_commutative(head1, tail1);
    vstd::seq_lib::lemma_multiset_commutative(first, second);
    vstd::seq_lib::lemma_multiset_commutative(head0, tail1);
    vstd::seq_lib::lemma_multiset_commutative(head1, tail0);
    vstd::seq_lib::lemma_multiset_commutative(head0 + tail1, head1 + tail0);
}

/// A fitness refresh settles the cache: afterwards the cache is current,
/// and as long as the genome stays what it is a further refresh, on
/// whatever rows and under whatever metric, computes nothing and changes
/// nothing.
pub proof fn lemma_refresh_settles(
    individual: IndividualView,
    rows: Seq<Seq<i32>>,
    metric: ErrorMetric,
    later_rows: Seq<Seq<i32>>,
    later_metric: ErrorMetric,
)
    ensures
        individual.refreshed(rows, metric).is_current(),
        individual.refreshed(rows, metric).genome == individual.genome,
        individual.is_current() ==> individual.refreshed(rows, metric) == individual,
        individual.refreshed(rows, metric).refreshed(later_rows, later_metric)
            == individual.refreshed(rows, metric),
{
}

/// Whether two genomes hold the same instructions in the same order.
pub fn same_genome(left: &Vec<Instruction>, right: &Vec<Instruction>) -> (same: bool)
    ensures
        same == (left@ == right@),
{
    if left.len() != right.len() {
        return false;
    }
    let mut i: usize = 0;
    while i < left.len()
        invariant
            i <= left.len(),
            left.len() == right.len(),
            left@.take(i as int) == right@.take(i as int),
        decreases left.len() - i,
    {
        if left[i] != right[i] {
            return false;
        }
        i += 1;
    }
    assert(left@.take(left.len() as int) =~= left@);
    assert(right@.take(right.len() as int) =~= right@);
    true
}

/// The operator with a given number: negation, sum, duplication and
/// product for 0 to 3, the exchange for every larger number.
pub fn operator(draw: usize) -> (instruction: Instruction)
    ensures
        instruction == operator_for(draw as nat),
        instruction.is_operator(),
{
    if draw == 0 {
        Instruction::Neg
    } else if draw == 1 {
        Instruction::Sum
    } else if draw == 2 {
        Instruction::Duplicate
    } else if draw == 3 {
        Instruction::Multiply
    } else {
        Instruction::Swap
    }
}

/// Draws one of the operators at random. Literals are never drawn.
pub fn select_random_instruction() -> (instruction: Instruction)
    ensures
        instruction.is_operator(),
        exists|draw: nat| draw < OPERATOR_COUNT && instruction == #[trigger] operator_for(draw),
{
    let draw: usize = random_in_range(0, OPERATOR_COUNT);
    operator(draw)
}

impl Fitness {
    /// An empty cache beside a snapshot of the genome.
    pub fn new(stack: &Vec<Instruction>) -> (fitness: Self)
        ensures
            fitness@ is None,
            fitness.stack@ == stack@,
    {
        Fitness { computed: false, ft: 0, stack: stack.clone() }
    }

    /// Brings the cache up to date with a genome. A score that was computed
    /// for this very genome is kept and nothing is evaluated; otherwise the
    /// genome is scored on the dataset and the cache takes the new score and
    /// a snapshot of the genome.
    pub fn update(&mut self, dataset: &Vec<Vec<i32>>, stack: &Vec<Instruction>, metric: ErrorMetric)
        ensures
            final(self)@ == (IndividualView { genome: stack@, cache: old(self)@ }).refreshed(
                table(dataset@),
                metric,
            ).cache,
            !(IndividualView { genome: stack@, cache: old(self)@ }).is_current()
                && scored_rows(table(dataset@)) > 0
                ==> 0 < final(self).ft <= fitness_score(scored_rows(table(dataset@)), 0),
    {
        let need_update = !self.computed || !same_genome(&self.stack, stack);
        if need_update {
            self.stack = stack.clone();
            self.ft = measure(&self.stack, dataset, metric);
            self.computed = true;
        }
    }
}

impl Individual {
    /// A random individual: a genome of random length from `range_down` up
    /// to, but not including `range_up`, made of random operators, with an
    /// empty fitness cache.
    pub fn new(range_up: usize, range_down: usize) -> (individual: Self)
        requires
            range_down < range_up,
        ensures
            individual@.is_initial(range_up as nat, range_down as nat),
    {
        let length: usize = random_in_range(range_down, range_up);
        let mut stack: Vec<Instruction> = Vec::new();
        let mut i: usize = 0;
        while i < length
            invariant
                i <= length,
                stack.len() == i,
                operators_only(stack@),
            decreases length - i,
        {
            stack.push(select_random_instruction());
            i += 1;
        }
        Individual { fitness: Fitness::new(&stack), stack }
    }

    /// An individual with a copy of the given genome and an empty fitness
    /// cache.
    pub fn new_from_stack(stack: &Vec<Instruction>) -> (individual: Self)
        ensures
            individual@ == IndividualView::fresh(stack@),
    {
        Individual { stack: stack.clone(), fitness: Fitness::new(stack) }
    }

    /// A copy of the individual, genome and fitness cache alike.
    pub fn reproduce(&self) -> (copy: Self)
        ensures
            copy@ == self@,
    {
        Individual {
            stack: self.stack.clone(),
            fitness: Fitness {
                computed: self.fitness.computed,
                ft: self.fitness.ft,
                stack: self.fitness.stack.clone(),
            },
        }
    }

    /// Single-point recombination at given split points: the first child
    /// is this genome up to `cut0` followed by the other genome from `cut1`
    /// on, the second child is the other genome up to `cut1` followed by
    /// this genome from `cut0` on. Neither child has a score yet.
    pub fn crossover_at(&self, other: &Self, cut0: usize, cut1: usize) -> (children: (Self, Self))
        requires
            cut0 <= self.stack.len(),
            cut1 <= other.stack.len(),
        ensures
            children.0@ == IndividualView::fresh(
                crossed(self@.genome, other@.genome, cut0 as int, cut1 as int).0,
            ),
            children.1@ == IndividualView::fresh(
                crossed(self@.genome, other@.genome, cut0 as int, cut1 as int).1,
            ),
            children.0@.genome.len() + children.1@.genome.len() == self@.genome.len()
                + other@.genome.len(),
    {
        let first = recombine(&self.stack, cut0, &other.stack, cut1);
        let second = recombine(&other.stack, cut1, &self.stack, cut0);
        (Individual::new_from_stack(&first), Individual::new_from_stack(&second))
    }

    /// Single-point recombination at split points drawn at random, each from
    /// the start of its genome up to, but not including its end. The two
    /// children hold between them exactly the instructions of the parents.
    pub fn crossover(&self, other: &Self) -> (children: (Self, Self))
        requires
            self.stack.len() >= 1,
            other.stack.len() >= 1,
        ensures
            exists|cut0: int, cut1: int|
                0 <= cut0 < self@.genome.len() && 0 <= cut1 < other@.genome.len()
                    && (children.0@.genome, children.1@.genome)
                    == #[trigger] crossed(self@.genome, other@.genome, cut0, cut1),
            children.0@.cache is None,
            children.1@.cache is None,
            children.0@.genome.len() + children.1@.genome.len() == self@.genome.len()
                + other@.genome.len(),
            children.0@.genome.len() >= 1,
            children.1@.genome.len() >= 1,
    {
        let cut0: usize = random_in_range(0, self.stack.len());
        let cut1: usize = random_in_range(0, other.stack.len());
        self.crossover_at(other, cut0, cut1)
    }

    /// Appends one operator drawn at random. The fitness cache is left as it
    /// is, and is therefore stale afterwards.
    pub fn mutate_add(&mut self)
        ensures
            final(self)@.genome.len() == old(self)@.genome.len() + 1,
            final(self)@.genome.drop_last() == old(self)@.genome,
            final(self)@.genome.last().is_operator(),
            final(self)@.cache == old(self)@.cache,
    {
        self.stack.push(select_random_instruction());
    }

    /// Removes the last instruction of a genome that is longer than
    /// `GENOME_FLOOR`, and leaves a shorter one alone. The fitness cache is
    /// left as it is.
    pub fn mutate_remove(&mut self)
        ensures
            final(self)@.genome == if old(self)@.genome.len() > GENOME_FLOOR {
                old(self)@.genome.drop_last()
            } else {
                old(self)@.genome
            },
            old(self)@.genome.len() >= GENOME_FLOOR ==> final(self)@.genome.len() >= GENOME_FLOOR,
            final(self)@.cache == old(self)@.cache,
    {
        if self.stack.len() > GENOME_FLOOR {
            self.stack.pop();
        }
    }

    /// The value of the genome on the given arguments.
    pub fn eval(&self, args: Vec<i32>) -> (result: i32)
        ensures
            result == evaluate(self@.genome, args@),
    {
        evaluate_stack(&self.stack, args)
    }

    /// Brings the fitness cache up to date. An individual whose genome has
    /// not changed since its score was computed keeps that score and is not
    /// evaluated again, whatever the dataset; any other is scored on the
    /// dataset, and its score is then above zero if some row carries an
    /// expected output.
    pub fn compute_fitness(&mut self, dataset: &Vec<Vec<i32>>, metric: ErrorMetric)
        ensures
            final(self)@ == old(self)@.refreshed(table(dataset@), metric),
            !old(self)@.is_current() && scored_rows(table(dataset@)) > 0
                ==> 0 < final(self)@.score() <= fitness_score(scored_rows(table(dataset@)), 0),
    {
        self.fitness.update(dataset, &self.stack, metric);
    }

    /// The score in the fitness cache, in units of `1 / FITNESS_ONE`; zero
    /// if none has been computed.
    pub fn fitness(&self) -> (score: u128)
        ensures
            score == self@.score(),
    {
        if self.fitness.computed {
            self.fitness.ft
        } else {
            0
        }
    }

    /// The length of the genome.
    pub fn complexity(&self) -> (length: usize)
        ensures
            length == self@.genome.len(),
    {
        self.stack.len()
    }

    /// The number by which the individual is placed in an ordering.
    pub fn sort_key(&self, key: SortKey) -> (number: u128)
        ensures
            number == self@.key(key),
    {
        match key {
            SortKey::Fitness => self.fitness(),
            SortKey::Complexity => self.complexity() as u128,
        }
    }
}

/// The head of one genome followed by the tail of another.
pub fn recombine(
    head: &Vec<Instruction>,
    head_end: usize,
    tail: &Vec<Instruction>,
    tail_start: usize,
) -> (joined: Vec<Instruction>)
    requires
        head_end <= head.len(),
        tail_start <= tail.len(),
    ensures
        joined@ == head@.take(head_end as int) + tail@.skip(tail_start as int),
{
    let mut joined: Vec<Instruction> = Vec::new();
    let mut i: usize = 0;
    while i < head_end
        invariant
            i <= head_end <= head.len(),
            joined@ == head@.take(i as int),
        decreases head_end - i,
    {
        joined.push(head[i]);
        i += 1;
    }
    let mut j: usize = tail_start;
    while j < tail.len()
        invariant
            tail_start <= j <= tail.len(),
            joined@ == head@.take(head_end as int) + tail@.subrange(tail_start as int, j as int),
        decreases tail.len() - j,
    {
        joined.push(tail[j]);
        j += 1;
    }
    joined
}

/// Runs a genome on its arguments and returns the oldest operand left on the
/// stack, or zero when the stack ends up empty. The result depends on the
/// genome and the arguments alone.
pub fn evaluate_stack(stack: &Vec<Instruction>, args: Vec<i32>) -> (result: i32)
    ensures
        result == evaluate(stack@, args@),
{
    let ghost arguments = args@;
    let mut operands = args;
    let mut i: usize = 0;
    while i < stack.len()
        invariant
            i <= stack.len(),
            operands@ == run_stream(stack@.take(i as int), arguments),
        decreases stack.len() - i,
    {
        let n: usize = operands.len();
        match stack[i] {
            Instruction::Integer(x) => {
                operands.push(x);
            },
            Instruction::Multiply => {
                if n >= 2 {
                    let top = operands.pop().unwrap();
                    let below = operands.pop().unwrap();
                    operands.push(top.wrapping_mul(below));
                }
            },
            Instruction::Sum => {
                if n >= 2 {
                    let top = operands.pop().unwrap();
                    let below = operands.pop().unwrap();
                    operands.push(top.wrapping_add(below));
                }
            },
            Instruction::Neg => {
                if n >= 1 {
                    let top = operands.pop().unwrap();
                    operands.push(0i32.wrapping_sub(top));
                }
            },
            Instruction::Duplicate => {
                if n >= 1 {
                    let top = operands[n - 1];
                    operands.push(top);
                }
            },
            Instruction::Swap => {
                if n >= 2 {
                    let top = operands.pop().unwrap();
                    let below = operands.pop().unwrap();
                    operands.push(top);
                    operands.push(below);
                }
            },
        }
        proof {
            assert(stack@.take(i + 1).drop_last() =~= stack@.take(i as int));
        }
        i += 1;
    }
    proof {
        assert(stack@.take(stack.len() as int) =~= stack@);
        lemma_evaluate_from_arguments(stack@, arguments);
    }
    if operands.len() > 0 {
        operands[0]
    } else {
        0
    }
}

} // verus!
