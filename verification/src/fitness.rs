//! The fitness model: how well a genome reproduces a table of expected
//! outputs, as a fixed-point score where higher is better.

use vstd::prelude::*;
use crate::individual::evaluate_stack;
use crate::instruction::{evaluate, Instruction};

verus! {

/// How the distance between a predicted and an expected output is counted.
#[derive(Clone, Copy, Debug, PartialEq, Eq, Structural)]
pub enum ErrorMetric {
    /// The absolute difference.
    Absolute,
    /// The square of the difference.
    Squared,
}

/// The fixed-point representation of the fitness 1: a score `s` stands for
/// the fitness `s / FITNESS_ONE`. The unit is fine enough to tell the
/// fitness of any scored genome from zero.
pub const FITNESS_ONE: u128 = 0x1_0000_0000_0000_0000;

/// One over the small constant that is added to the total error, so that a
/// perfect fit does not divide by zero.
pub const EPSILON_INVERSE: u128 = 0x1_0000_0000;

/// Totals and remainders from here on are too large to be multiplied by
/// `EPSILON_INVERSE` in 128 bits.
pub const WIDE: u128 = 0x1_0000_0000_0000_0000_0000_0000;

/// The largest discrepancy that a single row can contribute.
pub const MAX_ROW_ERROR: u128 = 0xFFFF_FFFE_0000_0001;

/// The distance between a predicted and an expected output, without
/// wraparound.
pub open spec fn discrepancy(metric: ErrorMetric, predicted: i32, expected: i32) -> nat {
    let distance = vstd::math::abs(predicted - expected);
    match metric {
        ErrorMetric::Absolute => distance,
        ErrorMetric::Squared => distance * distance,
    }
}

/// The rows of a dataset as sequences.
pub open spec fn table(dataset: Seq<Vec<i32>>) -> Seq<Seq<i32>> {
    dataset.map_values(|row: Vec<i32>| row@)
}

/// What one row adds to the total error: nothing if the row is empty, else
/// the discrepancy between the genome's value on all but the last element and
/// the last element.
pub open spec fn row_error(genome: Seq<Instruction>, row: Seq<i32>, metric: ErrorMetric) -> nat {
    if row.len() == 0 {
        0
    } else {
        discrepancy(metric, evaluate(genome, row.drop_last()), row.last())
    }
}

/// The number of rows that carry an expected output.
pub open spec fn scored_rows(rows: Seq<Seq<i32>>) -> nat
    decreases rows.len(),
{
    if rows.len() == 0 {
        0
    } else {
        scored_rows(rows.drop_last()) + if rows.last().len() == 0 {
            0nat
        } else {
            1nat
        }
    }
}

/// The sum of the row errors of a genome over a dataset.
pub open spec fn total_error(
    genome: Seq<Instruction>,
    rows: Seq<Seq<i32>>,
    metric: ErrorMetric,
) -> nat
    decreases rows.len(),
{
    if rows.len() == 0 {
        0
    } else {
        total_error(genome, rows.drop_last(), metric) + row_error(genome, rows.last(), metric)
    }
}

/// The score for a number of rows and a total error: the fitness
/// `rows / (total + 1 / EPSILON_INVERSE)` in units of `1 / FITNESS_ONE`,
/// rounded down, and kept at the largest number that 128 bits hold where
/// it would lie beyond.
pub open spec fn fitness_score(rows: nat, total: nat) -> nat {
    let exact = (rows * FITNESS_ONE * EPSILON_INVERSE) / (total * EPSILON_INVERSE + 1);
    if exact > u128::MAX {
        u128::MAX as nat
    } else {
        exact as nat
    }
}

/// The score of a genome on a dataset.
pub open spec fn fitness_of(
    genome: Seq<Instruction>,
    rows: Seq<Seq<i32>>,
    metric: ErrorMetric,
) -> nat {
    fitness_score(scored_rows(rows), total_error(genome, rows, metric))
}

/// A row error never exceeds `MAX_ROW_ERROR`.
pub proof fn lemma_discrepancy_bound(metric: ErrorMetric, predicted: i32, expected: i32)
    ensures
        discrepancy(metric, predicted, expected) <= MAX_ROW_ERROR,
{
    let distance = vstd::math::abs(predicted - expected);
    assert(distance * distance <= 0xFFFF_FFFF * 0xFFFF_FFFF) by (nonlinear_arith)
        requires
            0 <= distance <= 0xFFFF_FFFF,
    ;
}

/// A better fit never scores lower: the score does not grow with the error.
pub proof fn lemma_score_antitone(rows: nat, smaller: nat, larger: nat)
    requires
        smaller <= larger,
    ensures
        fitness_score(rows, larger) <= fitness_score(rows, smaller),
{
    let numerator = (rows * FITNESS_ONE * EPSILON_INVERSE) as int;
    let low = (smaller * EPSILON_INVERSE + 1) as int;
    let high = (larger * EPSILON_INVERSE + 1) as int;
    vstd::arithmetic::div_mod::lemma_div_is_ordered_by_denominator(numerator, low, high);
}

/// The total error of a genome is at most `MAX_ROW_ERROR` for every row
/// that carries an expected output.
pub proof fn lemma_total_error_bound(
    genome: Seq<Instruction>,
    rows: Seq<Seq<i32>>,
    metric: ErrorMetric,
)
    ensures
        total_error(genome, rows, metric) <= scored_rows(rows) * MAX_ROW_ERROR,
    decreases rows.len(),
{
    if rows.len() > 0 {
        lemma_total_error_bound(genome, rows.drop_last(), metric);
        if rows.last().len() > 0 {
            lemma_discrepancy_bound(
                metric,
                evaluate(genome, rows.last().drop_last()),
                rows.last().last(),
            );
        }
    }
}

/// The score of a fit that some row was counted for is above zero, and at
/// most the score of a perfect fit, as long as the total error is one that
/// so many rows can add up to.
pub proof fn lemma_score_positive(rows: nat, total: nat)
    requires
        rows > 0,
        total <= rows * MAX_ROW_ERROR,
    ensures
        0 < fitness_score(rows, total) <= fitness_score(rows, 0),
        fitness_score(rows, total) <= rows * FITNESS_ONE * EPSILON_INVERSE,
{
    let numerator = (rows * FITNESS_ONE * EPSILON_INVERSE) as int;
    let denominator = (total * EPSILON_INVERSE + 1) as int;
    assert(denominator <= numerator);
    vstd::arithmetic::div_mod::lemma_div_is_ordered(denominator, numerator, denominator);
    vstd::arithmetic::div_mod::lemma_div_basics(denominator);
    vstd::arithmetic::div_mod::lemma_div_is_ordered_by_denominator(numerator, 1, denominator);
    lemma_score_antitone(rows, 0, total);
}

/// The score of a genome on a dataset with at least one row that carries
/// an expected output is above zero.
pub proof fn lemma_fitness_positive(
    genome: Seq<Instruction>,
    rows: Seq<Seq<i32>>,
    metric: ErrorMetric,
)
    requires
        scored_rows(rows) > 0,
    ensures
        0 < fitness_of(genome, rows, metric) <= fitness_score(scored_rows(rows), 0),
{
    lemma_total_error_bound(genome, rows, metric);
    lemma_score_positive(scored_rows(rows), total_error(genome, rows, metric));
}

/// The distance between two outputs under a metric.
pub fn row_discrepancy(metric: ErrorMetric, predicted: i32, expected: i32) -> (d: u128)
    ensures
        d == discrepancy(metric, predicted, expected),
        d <= MAX_ROW_ERROR,
{
    proof {
        lemma_discrepancy_bound(metric, predicted, expected);
    }
    let difference: i64 = predicted as i64 - expected as i64;
    let distance: u128 = if difference < 0 {
        (-difference) as u128
    } else {
        difference as u128
    };
    match metric {
        ErrorMetric::Absolute => distance,
        ErrorMetric::Squared => distance * distance,
    }
}

/// The fixed-point score for a number of rows and a total error.
///
/// The quotient is too wide for one division in 128 bits. With `rows *
/// FITNESS_ONE` divided by the total first, the quotient sought differs
/// from that first quotient by a correction that fits.
pub fn score(rows: usize, total: u128) -> (s: u128)
    ensures
        s == fitness_score(rows as nat, total as nat),
        rows > 0 && total <= rows * MAX_ROW_ERROR ==> s > 0,
{
    proof {
        if rows > 0 && total <= rows * MAX_ROW_ERROR {
            lemma_score_positive(rows as nat, total as nat);
        }
    }
    let count: u128 = rows as u128;
    if total == 0 {
        if count >= EPSILON_INVERSE {
            u128::MAX
        } else {
            count * FITNESS_ONE * EPSILON_INVERSE
        }
    } else {
        let scaled: u128 = count * FITNESS_ONE;
        let quotient: u128 = scaled / total;
        let rest: u128 = scaled % total;
        let ghost numerator = scaled * EPSILON_INVERSE;
        let ghost denominator = total * EPSILON_INVERSE + 1;
        proof {
            vstd::arithmetic::div_mod::lemma_fundamental_div_mod(scaled as int, total as int);
            assert(numerator == quotient * denominator - quotient + rest * EPSILON_INVERSE)
                by (nonlinear_arith)
                requires
                    scaled == total * quotient + rest,
                    numerator == scaled * EPSILON_INVERSE,
                    denominator == total * EPSILON_INVERSE + 1,
            ;
            vstd::arithmetic::div_mod::lemma_div_is_ordered_by_denominator(
                scaled as int,
                1,
                total as int,
            );
        }
        if rest >= WIDE || rest * EPSILON_INVERSE >= quotient {
            proof {
                vstd::arithmetic::div_mod::lemma_fundamental_div_mod_converse(
                    numerator,
                    denominator,
                    quotient as int,
                    rest * EPSILON_INVERSE - quotient,
                );
            }
            quotient
        } else {
            let excess: u128 = quotient - rest * EPSILON_INVERSE;
            let correction: u128;
            let ghost left: int;
            if total >= WIDE {
                correction = 1;
                proof {
                    left = denominator - excess;
                }
            } else {
                let divisor: u128 = total * EPSILON_INVERSE + 1;
                let whole: u128 = excess / divisor;
                let part: u128 = excess % divisor;
                proof {
                    vstd::arithmetic::div_mod::lemma_fundamental_div_mod(
                        excess as int,
                        divisor as int,
                    );
                    vstd::arithmetic::div_mod::lemma_div_is_ordered_by_denominator(
                        excess as int,
                        1,
                        divisor as int,
                    );
                }
                if part == 0 {
                    correction = whole;
                    proof {
                        left = 0;
                    }
                } else {
                    correction = whole + 1;
                    proof {
                        left = divisor - part;
                    }
                }
                assert(correction * denominator - excess == left) by (nonlinear_arith)
                    requires
                        excess == denominator * whole + part,
                        part == 0 ==> correction == whole && left == 0,
                        part != 0 ==> correction == whole + 1 && left == denominator - part,
                ;
            }
            proof {
                assert(numerator == (quotient - correction) * denominator + left)
                    by (nonlinear_arith)
                    requires
                        numerator == quotient * denominator - excess,
                        left == correction * denominator - excess,
                ;
                assert(correction <= quotient) by (nonlinear_arith)
                    requires
                        numerator == (quotient - correction) * denominator + left,
                        numerator >= 0,
                        0 <= left < denominator,
                ;
                vstd::arithmetic::div_mod::lemma_fundamental_div_mod_converse(
                    numerator,
                    denominator,
                    quotient - correction,
                    left,
                );
            }
            quotient - correction
        }
    }
}

/// The inputs of a non-empty row: all of its elements but the last.
pub fn row_inputs(row: &Vec<i32>) -> (inputs: Vec<i32>)
    requires
        row.len() > 0,
    ensures
        inputs@ == row@.drop_last(),
{
    let mut inputs: Vec<i32> = row.clone();
    inputs.pop();
    inputs
}

/// Scores a genome against a dataset: every non-empty row is evaluated on its
/// inputs and compared with its expected output, and the score is taken
/// from the number of such rows and the sum of their discrepancies.
pub fn measure(
    genome: &Vec<Instruction>,
    dataset: &Vec<Vec<i32>>,
    metric: ErrorMetric,
) -> (s: u128)
    ensures
        s == fitness_of(genome@, table(dataset@), metric),
        scored_rows(table(dataset@)) > 0 ==> 0 < s <= fitness_score(
            scored_rows(table(dataset@)),
            0,
        ),
{
    proof {
        if scored_rows(table(dataset@)) > 0 {
            lemma_fitness_positive(genome@, table(dataset@), metric);
        }
    }
    let ghost rows = table(dataset@);
    let mut count: usize = 0;
    let mut total: u128 = 0;
    let mut i: usize = 0;
    while i < dataset.len()
        invariant
            i <= dataset.len(),
            rows == table(dataset@),
            count == scored_rows(rows.take(i as int)),
            count <= i,
            total == total_error(genome@, rows.take(i as int), metric),
            total <= i * MAX_ROW_ERROR,
        decreases dataset.len() - i,
    {
        proof {
            assert(rows.take(i + 1).drop_last() =~= rows.take(i as int));
        }
        let row = &dataset[i];
        if row.len() > 0 {
            let expected = row[row.len() - 1];
            let predicted = evaluate_stack(genome, row_inputs(row));
            let error = row_discrepancy(metric, predicted, expected);
            total = total + error;
            count = count + 1;
        }
        i += 1;
    }
    proof {
        assert(rows.take(dataset.len() as int) =~= rows);
    }
    score(count, total)
}

} // verus!
