//! Requests for calculations whose arguments do not come as numbers.

use vstd::prelude::*;

verus! {

/// A request for the variance of a series of numbers, each still in the
/// text in which it was entered.
#[derive(Debug)]
pub struct Variance {
    pub numbers: Vec<String>,
}

/// A request for the share of successes among trials.
#[derive(Clone, Copy, Debug, PartialEq, Eq, Structural)]
pub struct Probability {
    pub successes: u32,
    pub trials: u32,
}

/// A request for a weighted average: the numbers and their weights, each
/// list in one text with commas between its entries.
#[derive(Debug)]
pub struct WeightedAverage {
    pub numbers: String,
    pub weights: String,
}

} // verus!
