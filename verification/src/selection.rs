//! The arithmetic of selection: how many individuals a rate stands for, and
//! the odds with which a candidate is accepted.

use vstd::prelude::*;

verus! {

/// The rate that stands for the whole population: rates are counted in
/// millionths of the population size.
pub const RATE_ONE: u32 = 1_000_000;

/// How many candidates may be drawn, per individual of the population,
/// before a selection stops drawing and takes the fittest individual as a
/// parent, or the weakest for removal.
pub const ATTEMPTS_PER_INDIVIDUAL: usize = 64;

/// The number of individuals that a rate stands for in a population,
/// rounded down.
pub open spec fn share(rate: nat, population_size: nat) -> nat {
    (rate * population_size) / (RATE_ONE as nat)
}

/// The number of parent pairs that a crossover rate stands for: half of its
/// share of the population, rounded down.
pub open spec fn pair_share(rate: nat, population_size: nat) -> nat {
    (rate * population_size) / (2 * RATE_ONE as nat)
}

/// A fraction with both parts halved, rounding down, until the denominator
/// fits in 32 bits.
pub open spec fn halved(numerator: nat, denominator: nat) -> (nat, nat)
    decreases denominator,
{
    if denominator <= u32::MAX {
        (numerator, denominator)
    } else {
        halved(numerator / 2, denominator / 2)
    }
}

/// The odds, as numerator and denominator, with which a candidate is
/// accepted as a parent: its score in the total score of the population.
/// Where the total is zero every candidate is accepted.
pub open spec fn selection_odds(score: nat, total: nat) -> (nat, nat) {
    if total == 0 {
        (1, 1)
    } else if score >= total {
        halved(total, total)
    } else {
        halved(score, total)
    }
}

/// The odds with which a candidate is removed from a population that is
/// too large: one minus its score in the total score of the population.
/// Where the total is zero every candidate is removed.
pub open spec fn removal_odds(score: nat, total: nat) -> (nat, nat) {
    if total == 0 {
        (1, 1)
    } else {
        let odds = selection_odds(score, total);
        ((odds.1 - odds.0) as nat, odds.1)
    }
}

/// Whether a candidate of the given score can be accepted at all: as a
/// parent, or for removal.
pub open spec fn has_chance(score: nat, total: nat, removal: bool) -> bool {
    if removal {
        removal_odds(score, total).0 > 0
    } else {
        selection_odds(score, total).0 > 0
    }
}

/// Halving keeps a proper fraction proper.
pub proof fn lemma_halved_proper(numerator: nat, denominator: nat)
    requires
        numerator <= denominator,
    ensures
        halved(numerator, denominator).0 <= halved(numerator, denominator).1,
    decreases denominator,
{
    if denominator > u32::MAX {
        lemma_halved_proper(numerator / 2, denominator / 2);
    }
}

/// Halving keeps the order of numerators over one denominator.
pub proof fn lemma_halved_monotone(smaller: nat, larger: nat, denominator: nat)
    requires
        smaller <= larger,
    ensures
        halved(smaller, denominator).0 <= halved(larger, denominator).0,
        halved(smaller, denominator).1 == halved(larger, denominator).1,
    decreases denominator,
{
    if denominator > u32::MAX {
        lemma_halved_monotone(smaller / 2, larger / 2, denominator / 2);
    }
}

/// Selection follows fitness: of two candidates in one population, the
/// fitter is at least as likely to be accepted as a parent, and no more
/// likely to be removed.
pub proof fn lemma_odds_follow_score(lower: nat, higher: nat, total: nat)
    requires
        lower <= higher,
    ensures
        selection_odds(lower, total).1 == selection_odds(higher, total).1,
        selection_odds(lower, total).0 <= selection_odds(higher, total).0,
        removal_odds(lower, total).1 == removal_odds(higher, total).1,
        removal_odds(lower, total).0 >= removal_odds(higher, total).0,
{
    if total > 0 {
        let low = if lower >= total {
            total
        } else {
            lower
        };
        let high = if higher >= total {
            total
        } else {
            higher
        };
        lemma_halved_monotone(low, high, total);
        lemma_halved_proper(low, total);
        lemma_halved_proper(high, total);
    }
}

/// A higher score never takes away the chance of becoming a parent, and a
/// lower score never takes away the chance of being removed.
pub proof fn lemma_chance_follows_score(lower: nat, higher: nat, total: nat)
    requires
        lower <= higher,
    ensures
        has_chance(lower, total, false) ==> has_chance(higher, total, false),
        has_chance(higher, total, true) ==> has_chance(lower, total, true),
{
    lemma_odds_follow_score(lower, higher, total);
}

/// The number of candidates that one selection may draw from a population.
pub open spec fn attempt_budget(population_size: nat) -> nat {
    if population_size * ATTEMPTS_PER_INDIVIDUAL > usize::MAX {
        usize::MAX as nat
    } else {
        population_size * (ATTEMPTS_PER_INDIVIDUAL as nat)
    }
}

/// The number of individuals that a rate stands for in a population.
pub fn head_count(rate: u32, population_size: usize) -> (count: u128)
    ensures
        count == share(rate as nat, population_size as nat),
{
    assert(rate * population_size <= 0xFFFF_FFFF * 0xFFFF_FFFF_FFFF_FFFF) by (nonlinear_arith)
        requires
            0 <= rate <= 0xFFFF_FFFF,
            0 <= population_size <= 0xFFFF_FFFF_FFFF_FFFF,
    ;
    (rate as u128) * (population_size as u128) / (RATE_ONE as u128)
}

/// The number of parent pairs that a crossover rate stands for in a
/// population.
pub fn pair_count(rate: u32, population_size: usize) -> (count: u128)
    ensures
        count == pair_share(rate as nat, population_size as nat),
{
    assert(rate * population_size <= 0xFFFF_FFFF * 0xFFFF_FFFF_FFFF_FFFF) by (nonlinear_arith)
        requires
            0 <= rate <= 0xFFFF_FFFF,
            0 <= population_size <= 0xFFFF_FFFF_FFFF_FFFF,
    ;
    (rate as u128) * (population_size as u128) / (2 * (RATE_ONE as u128))
}

/// Halves both parts of a proper fraction until they fit in 32 bits.
pub fn reduce(numerator: u128, denominator: u128) -> (odds: (u32, u32))
    requires
        numerator <= denominator,
        denominator > 0,
    ensures
        (odds.0 as nat, odds.1 as nat) == halved(numerator as nat, denominator as nat),
        odds.0 <= odds.1,
        odds.1 > 0,
{
    let mut n: u128 = numerator;
    let mut d: u128 = denominator;
    while d > 0xFFFF_FFFF
        invariant
            n <= d,
            d > 0,
            halved(n as nat, d as nat) == halved(numerator as nat, denominator as nat),
        decreases d,
    {
        n = n / 2;
        d = d / 2;
    }
    (n as u32, d as u32)
}

/// The odds with which a candidate of the given score is accepted as a
/// parent in a population of the given total score.
pub fn parent_odds(score: u128, total: u128) -> (odds: (u32, u32))
    ensures
        (odds.0 as nat, odds.1 as nat) == selection_odds(score as nat, total as nat),
        odds.0 <= odds.1,
        odds.1 > 0,
{
    if total == 0 {
        (1, 1)
    } else if score >= total {
        reduce(total, total)
    } else {
        reduce(score, total)
    }
}

/// The odds with which a candidate of the given score is removed from a
/// population of the given total score.
pub fn eviction_odds(score: u128, total: u128) -> (odds: (u32, u32))
    ensures
        (odds.0 as nat, odds.1 as nat) == removal_odds(score as nat, total as nat),
        odds.0 <= odds.1,
        odds.1 > 0,
{
    if total == 0 {
        (1, 1)
    } else {
        let odds = parent_odds(score, total);
        (odds.1 - odds.0, odds.1)
    }
}

/// The number of candidates that one selection may draw from a population
/// of the given size.
pub fn attempts(population_size: usize) -> (budget: usize)
    ensures
        budget == attempt_budget(population_size as nat),
{
    if population_size > usize::MAX / ATTEMPTS_PER_INDIVIDUAL {
        usize::MAX
    } else {
        population_size * ATTEMPTS_PER_INDIVIDUAL
    }
}

} // verus!
