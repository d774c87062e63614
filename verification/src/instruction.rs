//! The instruction set and the mathematical model of the stack machine.

use vstd::prelude::*;
use vstd::wrapping::i32_specs;

verus! {

/// One operation of the stack machine.
#[derive(Clone, Copy, Debug, PartialEq, Eq, Structural)]
pub enum Instruction {
    /// Replace the two topmost operands by their wrapping product.
    Multiply,
    /// Replace the two topmost operands by their wrapping sum.
    Sum,
    /// Replace the topmost operand by its wrapping negation.
    Neg,
    /// Push a second copy of the topmost operand.
    Duplicate,
    /// Exchange the two topmost operands.
    Swap,
    /// Push a literal.
    Integer(i32),
}

impl Instruction {
    /// True for every instruction but a literal.
    pub open spec fn is_operator(self) -> bool {
        !(self is Integer)
    }

    /// The number of operands that the instruction takes from the stack.
    pub open spec fn arity(self) -> nat {
        match self {
            Instruction::Integer(_) => 0,
            Instruction::Neg | Instruction::Duplicate => 1,
            Instruction::Multiply | Instruction::Sum | Instruction::Swap => 2,
        }
    }
}

/// Negation in two's complement: the least value negates to itself.
pub open spec fn wrapping_neg(x: i32) -> i32 {
    i32_specs::wrapping_sub(0, x)
}

/// The operand stack after one instruction. The top of the stack is the end of
/// the sequence. An instruction that finds too few operands leaves the stack
/// as it is.
pub open spec fn step(stack: Seq<i32>, instruction: Instruction) -> Seq<i32> {
    let n = stack.len() as int;
    if n < instruction.arity() {
        stack
    } else {
        match instruction {
            Instruction::Integer(v) => stack.push(v),
            Instruction::Sum => stack.take(n - 2).push(
                i32_specs::wrapping_add(stack[n - 1], stack[n - 2]),
            ),
            Instruction::Multiply => stack.take(n - 2).push(
                i32_specs::wrapping_mul(stack[n - 1], stack[n - 2]),
            ),
            Instruction::Neg => stack.take(n - 1).push(wrapping_neg(stack[n - 1])),
            Instruction::Duplicate => stack.push(stack[n - 1]),
            Instruction::Swap => stack.take(n - 2).push(stack[n - 1]).push(stack[n - 2]),
        }
    }
}

/// The operand stack after a whole instruction stream, taken in order.
pub open spec fn run_stream(stream: Seq<Instruction>, stack: Seq<i32>) -> Seq<i32>
    decreases stream.len(),
{
    if stream.len() == 0 {
        stack
    } else {
        step(run_stream(stream.drop_last(), stack), stream.last())
    }
}

/// The arguments as the literals that push them.
pub open spec fn literals(arguments: Seq<i32>) -> Seq<Instruction> {
    arguments.map_values(|v: i32| Instruction::Integer(v))
}

/// What is read off a finished stack: its oldest operand, or zero when none
/// is left.
pub open spec fn outcome(stack: Seq<i32>) -> i32 {
    if stack.len() == 0 {
        0
    } else {
        stack[0]
    }
}

/// The value of a genome on its arguments: the arguments are pushed as
/// literals ahead of the genome, the combined stream is run from the empty
/// stack, and the oldest operand left is the result.
pub open spec fn evaluate(genome: Seq<Instruction>, arguments: Seq<i32>) -> i32 {
    outcome(run_stream(literals(arguments) + genome, Seq::empty()))
}

/// Evaluation is deterministic: the value depends on the genome and the
/// arguments alone, so equal genomes on equal arguments have equal values
/// at every call.
pub proof fn lemma_evaluate_is_deterministic(
    genome: Seq<Instruction>,
    arguments: Seq<i32>,
    again_genome: Seq<Instruction>,
    again_arguments: Seq<i32>,
)
    requires
        genome == again_genome,
        arguments == again_arguments,
    ensures
        evaluate(genome, arguments) == evaluate(again_genome, again_arguments),
{
}

/// Running one stream after another is running their concatenation.
pub proof fn lemma_run_stream_concat(
    first: Seq<Instruction>,
    second: Seq<Instruction>,
    stack: Seq<i32>,
)
    ensures
        run_stream(first + second, stack) == run_stream(second, run_stream(first, stack)),
    decreases second.len(),
{
    if second.len() > 0 {
        lemma_run_stream_concat(first, second.drop_last(), stack);
        assert((first + second).drop_last() =~= first + second.drop_last());
    }
}

/// Pushing the arguments as literals onto a stack appends them to it.
pub proof fn lemma_literals_push_arguments(arguments: Seq<i32>, stack: Seq<i32>)
    ensures
        run_stream(literals(arguments), stack) == stack + arguments,
    decreases arguments.len(),
{
    if arguments.len() > 0 {
        lemma_literals_push_arguments(arguments.drop_last(), stack);
        assert(literals(arguments).drop_last() =~= literals(arguments.drop_last()));
    }
}

/// Evaluating a genome is running it on a stack that holds the arguments.
pub proof fn lemma_evaluate_from_arguments(genome: Seq<Instruction>, arguments: Seq<i32>)
    ensures
        evaluate(genome, arguments) == outcome(run_stream(genome, arguments)),
{
    lemma_run_stream_concat(literals(arguments), genome, Seq::empty());
    lemma_literals_push_arguments(arguments, Seq::empty());
}

} // verus!
