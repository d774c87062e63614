use symreg::individual::evaluate_stack;
use symreg::instruction::Instruction;

#[test]
fn empty_genome_and_no_arguments_give_zero() {
    assert_eq!(evaluate_stack(&vec![], vec![]), 0);
}

#[test]
fn sum_of_two_literals() {
    let stack = vec![Instruction::Integer(2), Instruction::Integer(3), Instruction::Sum];
    assert_eq!(evaluate_stack(&stack, vec![]), 5);
}

#[test]
fn sum_then_negated_factor() {
    let mut stack = vec![
        Instruction::Integer(2),
        Instruction::Integer(3),
        Instruction::Sum,
        Instruction::Integer(2),
        Instruction::Neg,
        Instruction::Multiply,
    ];
    assert_eq!(evaluate_stack(&stack, vec![]), -10);
    stack.push(Instruction::Integer(5));
    stack.push(Instruction::Multiply);
    assert_eq!(evaluate_stack(&stack, vec![]), -50);
    stack.push(Instruction::Integer(-1));
    stack.push(Instruction::Sum);
    assert_eq!(evaluate_stack(&stack, vec![]), -51);
}

#[test]
fn duplicate_sum_multiply_on_two_arguments() {
    let stack = vec![Instruction::Duplicate, Instruction::Sum, Instruction::Multiply];
    assert_eq!(evaluate_stack(&stack, vec![2, -2]), -8);
}

#[test]
fn arguments_alone_give_the_oldest_argument() {
    assert_eq!(evaluate_stack(&vec![], vec![7, 8, 9]), 7);
}

#[test]
fn operators_without_operands_are_skipped() {
    let stack = vec![
        Instruction::Sum,
        Instruction::Multiply,
        Instruction::Neg,
        Instruction::Duplicate,
        Instruction::Swap,
    ];
    assert_eq!(evaluate_stack(&stack, vec![]), 0);
    let binary = vec![Instruction::Sum, Instruction::Multiply, Instruction::Swap];
    assert_eq!(evaluate_stack(&binary, vec![41]), 41);
}

#[test]
fn negation_of_a_single_argument() {
    assert_eq!(evaluate_stack(&vec![Instruction::Neg], vec![5]), -5);
    assert_eq!(evaluate_stack(&vec![Instruction::Neg], vec![i32::MIN]), i32::MIN);
}

#[test]
fn duplicate_then_multiply_squares() {
    let stack = vec![Instruction::Duplicate, Instruction::Multiply];
    assert_eq!(evaluate_stack(&stack, vec![12]), 144);
    assert_eq!(evaluate_stack(&stack, vec![-3]), 9);
}

#[test]
fn swap_exchanges_the_two_topmost_operands() {
    assert_eq!(evaluate_stack(&vec![Instruction::Swap], vec![1, 2]), 2);
    assert_eq!(evaluate_stack(&vec![Instruction::Swap], vec![1, 2, 3]), 1);
    let stack = vec![Instruction::Swap, Instruction::Neg, Instruction::Sum];
    assert_eq!(evaluate_stack(&stack, vec![10, 3]), -7);
}

#[test]
fn arithmetic_wraps_around() {
    assert_eq!(evaluate_stack(&vec![Instruction::Sum], vec![i32::MAX, 1]), i32::MIN);
    assert_eq!(evaluate_stack(&vec![Instruction::Multiply], vec![65536, 65536]), 0);
    assert_eq!(evaluate_stack(&vec![Instruction::Multiply], vec![i32::MIN, -1]), i32::MIN);
}

#[test]
fn literals_in_the_genome_follow_the_arguments() {
    let stack = vec![Instruction::Integer(4), Instruction::Multiply];
    assert_eq!(evaluate_stack(&stack, vec![6]), 24);
    let literal_only = vec![Instruction::Integer(4)];
    assert_eq!(evaluate_stack(&literal_only, vec![6]), 6);
    assert_eq!(evaluate_stack(&literal_only, vec![]), 4);
}

#[test]
fn evaluation_is_repeatable() {
    let stack = vec![Instruction::Duplicate, Instruction::Sum, Instruction::Multiply];
    let first: i32 = evaluate_stack(&stack, vec![2, -2]);
    for _ in 0..10 {
        assert_eq!(evaluate_stack(&stack, vec![2, -2]), first);
    }
}
