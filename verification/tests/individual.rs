use symreg::fitness::ErrorMetric;
use symreg::individual::{
    operator, recombine, same_genome, select_random_instruction, Fitness, Individual, SortKey,
    GENOME_FLOOR, OPERATOR_COUNT,
};
use symreg::instruction::Instruction;

fn is_operator(instruction: Instruction) -> bool {
    !matches!(instruction, Instruction::Integer(_))
}

fn letters(count: i32, offset: i32) -> Vec<Instruction> {
    (0..count).map(|i| Instruction::Integer(offset + i)).collect()
}

#[test]
fn operators_are_numbered() {
    assert_eq!(operator(0), Instruction::Neg);
    assert_eq!(operator(1), Instruction::Sum);
    assert_eq!(operator(2), Instruction::Duplicate);
    assert_eq!(operator(3), Instruction::Multiply);
    assert_eq!(operator(4), Instruction::Swap);
    assert_eq!(operator(usize::MAX), Instruction::Swap);
    assert_eq!(OPERATOR_COUNT, 5);
}

#[test]
fn random_instructions_are_operators() {
    for _ in 0..200 {
        assert!(is_operator(select_random_instruction()));
    }
}

#[test]
fn random_instructions_vary() {
    let first = select_random_instruction();
    let mut other: bool = false;
    for _ in 0..400 {
        if select_random_instruction() != first {
            other = true;
        }
    }
    assert!(other);
}

#[test]
fn every_operator_is_drawn() {
    let mut seen = [false; 5];
    for _ in 0..2000 {
        for k in 0..5usize {
            if select_random_instruction() == operator(k) {
                seen[k] = true;
            }
        }
    }
    assert_eq!(seen, [true; 5]);
}

#[test]
fn new_individuals_have_a_length_in_range() {
    let mut shortest: bool = false;
    let mut longest: bool = false;
    for _ in 0..300 {
        let individual = Individual::new(5, 2);
        let length: usize = individual.stack.len();
        assert!(2 <= length && length < 5);
        assert!(individual.stack.iter().all(|instruction| is_operator(*instruction)));
        assert!(!individual.fitness.computed);
        assert_eq!(individual.fitness(), 0);
        shortest = shortest || length == 2;
        longest = longest || length == 4;
    }
    assert!(shortest && longest);
}

#[test]
fn new_individual_with_a_single_possible_length() {
    for _ in 0..20 {
        assert_eq!(Individual::new(4, 3).stack.len(), 3);
    }
}

#[test]
fn new_from_stack_copies_the_genome() {
    let stack = vec![Instruction::Integer(1), Instruction::Sum];
    let individual = Individual::new_from_stack(&stack);
    assert_eq!(individual.stack, stack);
    assert!(!individual.fitness.computed);
    assert_eq!(individual.complexity(), 2);
}

#[test]
fn fitness_cache_starts_empty() {
    let stack = vec![Instruction::Neg];
    let cache = Fitness::new(&stack);
    assert!(!cache.computed);
    assert_eq!(cache.stack, stack);
}

#[test]
fn fitness_update_scores_and_remembers_the_genome() {
    let stack = vec![Instruction::Duplicate, Instruction::Multiply];
    let mut cache = Fitness::new(&vec![]);
    cache.update(&vec![vec![3, 9]], &stack, ErrorMetric::Absolute);
    assert!(cache.computed);
    assert_eq!(cache.ft, 79228162514264337593543950336);
    assert_eq!(cache.stack, stack);
    cache.update(&vec![vec![3, 0]], &stack, ErrorMetric::Absolute);
    assert_eq!(cache.ft, 79228162514264337593543950336);
}

#[test]
fn reproduce_copies_genome_and_cache() {
    let mut parent = Individual::new_from_stack(&vec![Instruction::Duplicate, Instruction::Sum]);
    parent.compute_fitness(&vec![vec![1, 2], vec![2, 4]], ErrorMetric::Absolute);
    let copy = parent.reproduce();
    assert_eq!(copy.stack, parent.stack);
    assert_eq!(copy.fitness.computed, parent.fitness.computed);
    assert_eq!(copy.fitness.ft, parent.fitness.ft);
    assert_eq!(copy.fitness.stack, parent.fitness.stack);
    assert_eq!(copy.fitness(), 2 * (1u128 << 96));
}

#[test]
fn reproduce_of_an_unscored_individual() {
    let parent = Individual::new_from_stack(&vec![Instruction::Neg]);
    let copy = parent.reproduce();
    assert_eq!(copy.stack, parent.stack);
    assert!(!copy.fitness.computed);
}

#[test]
fn recombine_joins_head_and_tail() {
    let head = letters(4, 0);
    let tail = letters(3, 10);
    assert_eq!(
        recombine(&head, 1, &tail, 2),
        vec![Instruction::Integer(0), Instruction::Integer(12)]
    );
    assert_eq!(recombine(&head, 0, &tail, 3), vec![]);
    assert_eq!(recombine(&head, 4, &tail, 0), [letters(4, 0), letters(3, 10)].concat());
}

#[test]
fn crossover_at_given_points() {
    let first = Individual::new_from_stack(&letters(4, 0));
    let second = Individual::new_from_stack(&letters(3, 10));
    let (one, two) = first.crossover_at(&second, 1, 2);
    assert_eq!(one.stack, vec![Instruction::Integer(0), Instruction::Integer(12)]);
    assert_eq!(
        two.stack,
        vec![
            Instruction::Integer(10),
            Instruction::Integer(11),
            Instruction::Integer(1),
            Instruction::Integer(2),
            Instruction::Integer(3),
        ]
    );
    assert!(!one.fitness.computed && !two.fitness.computed);
}

#[test]
fn crossover_at_the_ends() {
    let first = Individual::new_from_stack(&letters(2, 0));
    let second = Individual::new_from_stack(&letters(2, 10));
    let (one, two) = first.crossover_at(&second, 0, 0);
    assert_eq!(one.stack, letters(2, 10));
    assert_eq!(two.stack, letters(2, 0));
    let (three, four) = first.crossover_at(&second, 2, 2);
    assert_eq!(three.stack, letters(2, 0));
    assert_eq!(four.stack, letters(2, 10));
}

#[test]
fn crossover_children_forget_the_parents_scores() {
    let mut first = Individual::new_from_stack(&letters(2, 0));
    let mut second = Individual::new_from_stack(&letters(2, 10));
    first.compute_fitness(&vec![vec![1, 1]], ErrorMetric::Absolute);
    second.compute_fitness(&vec![vec![1, 1]], ErrorMetric::Absolute);
    let (one, two) = first.crossover(&second);
    assert!(!one.fitness.computed && !two.fitness.computed);
    assert_eq!(one.fitness(), 0);
    assert_eq!(two.fitness(), 0);
}

#[test]
fn crossover_keeps_every_instruction() {
    let first = Individual::new_from_stack(&letters(5, 0));
    let second = Individual::new_from_stack(&letters(3, 10));
    for _ in 0..200 {
        let (one, two) = first.crossover(&second);
        assert_eq!(one.stack.len() + two.stack.len(), 8);
        assert!(!one.stack.is_empty() && !two.stack.is_empty());
        let mut all: Vec<Instruction> = [one.stack.clone(), two.stack.clone()].concat();
        all.sort_by_key(|instruction| match instruction {
            Instruction::Integer(v) => *v,
            _ => -1,
        });
        assert_eq!(all, [letters(5, 0), letters(3, 10)].concat());
    }
}

#[test]
fn crossover_splits_where_the_points_say() {
    let first = Individual::new_from_stack(&letters(5, 0));
    let second = Individual::new_from_stack(&letters(3, 10));
    let mut moved: bool = false;
    for _ in 0..200 {
        let (one, two) = first.crossover(&second);
        let cut0: usize = one.stack.iter().filter(|i| letters(5, 0).contains(*i)).count();
        let cut1: usize = two.stack.iter().filter(|i| letters(3, 10).contains(*i)).count();
        assert!(cut0 < 5 && cut1 < 3);
        let (expected_one, expected_two) = first.crossover_at(&second, cut0, cut1);
        assert_eq!(one.stack, expected_one.stack);
        assert_eq!(two.stack, expected_two.stack);
        moved = moved || cut0 != 0 || cut1 != 0;
    }
    assert!(moved);
}

#[test]
fn crossover_of_single_instruction_parents() {
    let first = Individual::new_from_stack(&letters(1, 0));
    let second = Individual::new_from_stack(&letters(1, 10));
    let (one, two) = first.crossover(&second);
    assert_eq!(one.stack, letters(1, 10));
    assert_eq!(two.stack, letters(1, 0));
}

#[test]
fn mutate_add_appends_one_operator() {
    let mut individual = Individual::new_from_stack(&letters(3, 0));
    individual.mutate_add();
    assert_eq!(individual.stack.len(), 4);
    assert_eq!(individual.stack[..3], letters(3, 0)[..]);
    assert!(is_operator(individual.stack[3]));
}

#[test]
fn mutate_add_leaves_the_cache_alone() {
    let mut individual = Individual::new_from_stack(&vec![]);
    individual.compute_fitness(&vec![vec![2, 4]], ErrorMetric::Absolute);
    individual.mutate_add();
    assert!(individual.fitness.computed);
    assert_eq!(individual.fitness(), 9223372035781033984);
    assert_eq!(individual.fitness.stack, vec![]);
}

#[test]
fn mutate_remove_drops_the_last_instruction() {
    let mut individual = Individual::new_from_stack(&letters(4, 0));
    individual.mutate_remove();
    assert_eq!(individual.stack, letters(3, 0));
    individual.mutate_remove();
    assert_eq!(individual.stack, letters(2, 0));
}

#[test]
fn mutate_remove_stops_at_the_floor() {
    assert_eq!(GENOME_FLOOR, 2);
    for start in 0..8 {
        let mut individual = Individual::new_from_stack(&letters(start, 0));
        for _ in 0..10 {
            let before: usize = individual.stack.len();
            individual.mutate_remove();
            let after: usize = individual.stack.len();
            if before > GENOME_FLOOR {
                assert_eq!(after, before - 1);
            } else {
                assert_eq!(after, before);
            }
        }
        let length: usize = start as usize;
        let expected: usize = if length < GENOME_FLOOR { length } else { GENOME_FLOOR };
        assert_eq!(individual.stack.len(), expected);
    }
}

#[test]
fn eval_runs_the_genome() {
    let individual =
        Individual::new_from_stack(&vec![Instruction::Duplicate, Instruction::Multiply]);
    assert_eq!(individual.eval(vec![9]), 81);
    assert_eq!(Individual::new_from_stack(&vec![]).eval(vec![]), 0);
}

#[test]
fn sort_keys() {
    let mut individual = Individual::new_from_stack(&letters(3, 0));
    assert_eq!(individual.sort_key(SortKey::Complexity), 3);
    assert_eq!(individual.sort_key(SortKey::Fitness), 0);
    individual.compute_fitness(&vec![vec![0, 0]], ErrorMetric::Absolute);
    assert_eq!(individual.sort_key(SortKey::Fitness), 1u128 << 96);
}

#[test]
fn genomes_are_compared() {
    let genome = letters(3, 0);
    assert!(same_genome(&genome, &letters(3, 0)));
    assert!(!same_genome(&genome, &letters(2, 0)));
    assert!(!same_genome(&genome, &letters(4, 0)));
    assert!(!same_genome(&genome, &letters(3, 1)));
    assert!(same_genome(&vec![], &vec![]));
}
