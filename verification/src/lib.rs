//! Symbolic regression by a genetic algorithm over small stack-machine
//! programs.
//!
//! A genome is a sequence of instructions. It is run on integer arguments
//! by a stack machine, scored against a table of expected outputs, and
//! evolved by selection, crossover and mutation.
//!
//! - [`instruction`]: the instruction set and the model of the stack machine.
//! - [`fitness`]: the fixed-point fitness score of a genome on a dataset.
//! - [`individual`]: a genome with its fitness cache, and its operators.
//! - [`selection`]: the arithmetic of rates and of acceptance odds.
//! - [`population`]: the model of a population and of what happens to it.
//! - [`genetic`]: the engine with its population and its generational loop.
//! - [`permutation`]: facts about rearranged and thinned-out sequences.
//! - `random`, `parallel`: the calls into the random number generator and
//!   into the thread pool, whose contracts are trusted.

pub mod fitness;
pub mod genetic;
pub mod individual;
pub mod instruction;
mod parallel;
pub mod permutation;
pub mod population;
mod random;
pub mod selection;
