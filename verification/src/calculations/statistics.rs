//! Descriptive statistics: mean, median, mode, variance, standard deviation,
//! probability and weighted average.

use vstd::prelude::*;
use vstd::string::*;
use crate::arithmetic::{Arithmetic, answer, counted};
use crate::double::{Double, TWO_BITS, lemma_le_is_total_preorder};
use crate::error::{Fault, FinanceError, Halt, Stop, after, asks_anew, chain, invalid,
    invalid_input, seen, settled};
use crate::operation::{Operation, Rendering};
use crate::safety::{rejected, reject};
use crate::text::{numeral, decimal};

verus! {

/// The check of the observation at a position: it must be finite.
pub open spec fn checked_number(shown: Map<Rendering, Seq<char>>, numbers: Seq<Double>, at: int)
    -> Result<(), Stop> {
    if !numbers[at].is_finite() {
        rejected(shown, "Invalid number at index "@ + numeral(at as nat) + ": "@, numbers[at])
    } else {
        Ok(())
    }
}

/// The checks of the first `n` observations, in order: the first that fails
/// decides.
pub open spec fn checked_numbers(shown: Map<Rendering, Seq<char>>, numbers: Seq<Double>, n: nat)
    -> Result<(), Stop>
    decreases n,
{
    if n == 0 {
        Ok(())
    } else {
        after(
            checked_numbers(shown, numbers, (n - 1) as nat),
            checked_number(shown, numbers, n - 1),
        )
    }
}

/// The complaint about the entry at a position.
fn complaint_at(what: &str, at: usize) -> (text: String)
    ensures
        text@ == what@ + numeral(at as nat) + ": "@,
{
    String::from_str(what).concat(decimal(at as u64).as_str()).concat(": ")
}

/// Fails at the first observation that is not finite.
pub fn check_numbers(table: &Arithmetic, numbers: &[Double]) -> (r: Result<(), Halt>)
    ensures
        seen(r) == checked_numbers(table.shown(), numbers@, numbers@.len()),
{
    let mut i: usize = 0;
    while i < numbers.len()
        invariant
            0 <= i <= numbers@.len(),
            checked_numbers(table.shown(), numbers@, i as nat) == Ok::<(), Stop>(()),
        decreases numbers@.len() - i,
    {
        if !numbers[i].is_finite() {
            let r = reject(table, complaint_at("Invalid number at index ", i), numbers[i]);
            proof {
                lemma_first_failure_decides(table.shown(), numbers@, i as nat, numbers@.len());
            }
            return r;
        }
        i += 1;
    }
    Ok(())
}

/// A halt in the checks of a prefix is the halt of every longer prefix.
proof fn lemma_first_failure_decides(
    shown: Map<Rendering, Seq<char>>,
    numbers: Seq<Double>,
    at: nat,
    n: nat,
)
    requires
        at < n,
        checked_numbers(shown, numbers, at) is Ok,
        checked_number(shown, numbers, at as int) is Err,
    ensures
        checked_numbers(shown, numbers, n) == checked_number(shown, numbers, at as int),
    decreases n,
{
    if n > at + 1 {
        lemma_first_failure_decides(shown, numbers, at, (n - 1) as nat);
    }
}

/// The sum of the first `n` observations, added one by one onto zero.
pub open spec fn total(known: Map<Operation, Double>, numbers: Seq<Double>, n: nat) -> Result<
    Double,
    Stop,
>
    decreases n,
{
    if n == 0 {
        Ok(Double::zero())
    } else {
        chain(
            total(known, numbers, (n - 1) as nat),
            |sum: Double| answer(known, Operation::Sum(sum, numbers[n - 1])),
        )
    }
}

/// What `calculate_mean` returns: the sum divided by the count.
pub open spec fn mean(
    known: Map<Operation, Double>,
    shown: Map<Rendering, Seq<char>>,
    numbers: Seq<Double>,
) -> Result<Double, Stop> {
    if numbers.len() == 0 {
        invalid("Cannot calculate mean of empty dataset"@)
    } else {
        after(
            checked_numbers(shown, numbers, numbers.len()),
            chain(
                total(known, numbers, numbers.len()),
                |sum: Double|
                    chain(
                        counted(numbers.len() as u64),
                        |count: Double| answer(known, Operation::Quotient(sum, count)),
                    ),
            ),
        )
    }
}

/// The sum of the observations.
pub fn sum_of(table: &Arithmetic, numbers: &[Double]) -> (r: Result<Double, Halt>)
    ensures
        seen(r) == total(table.known(), numbers@, numbers@.len()),
{
    let mut sum = Double::from_bits(0);
    let mut i: usize = 0;
    while i < numbers.len()
        invariant
            0 <= i <= numbers@.len(),
            total(table.known(), numbers@, i as nat) == Ok::<Double, Stop>(sum),
        decreases numbers@.len() - i,
    {
        match table.ask(Operation::Sum(sum, numbers[i])) {
            Ok(next) => {
                sum = next;
            },
            Err(halt) => {
                proof {
                    lemma_total_halts(table.known(), numbers@, i as nat, numbers@.len());
                }
                return Err(halt);
            },
        }
        i += 1;
    }
    Ok(sum)
}

/// The arithmetic mean.
pub fn calculate_mean(table: &Arithmetic, numbers: &[Double]) -> (r: Result<Double, Halt>)
    ensures
        seen(r) == mean(table.known(), table.shown(), numbers@),
{
    if numbers.len() == 0 {
        return invalid_input("Cannot calculate mean of empty dataset");
    }
    check_numbers(table, numbers)?;
    let sum = sum_of(table, numbers)?;
    let count = Double::from_count(numbers.len() as u64);
    table.ask(Operation::Quotient(sum, count))
}

/// A halt in the sum of a prefix is the halt of every longer prefix.
proof fn lemma_total_halts(known: Map<Operation, Double>, numbers: Seq<Double>, at: nat, n: nat)
    requires
        at < n,
        total(known, numbers, (at + 1) as nat) is Err,
    ensures
        total(known, numbers, n) == total(known, numbers, (at + 1) as nat),
    decreases n,
{
    if n > at + 1 {
        lemma_total_halts(known, numbers, at, (n - 1) as nat);
    }
}

/// The sum of the squared deviations of the first `n` observations from a
/// centre.
pub open spec fn squares(
    known: Map<Operation, Double>,
    numbers: Seq<Double>,
    centre: Double,
    n: nat,
) -> Result<Double, Stop>
    decreases n,
{
    if n == 0 {
        Ok(Double::zero())
    } else {
        chain(
            squares(known, numbers, centre, (n - 1) as nat),
            |sum: Double|
                chain(
                    answer(known, Operation::Difference(numbers[n - 1], centre)),
                    |deviation: Double|
                        chain(
                            answer(known, Operation::IntegerPower(deviation, 2)),
                            |square: Double| answer(known, Operation::Sum(sum, square)),
                        ),
                ),
        )
    }
}

/// The sum of squared deviations from the mean, divided by the count less
/// `less`.
pub open spec fn spread(
    known: Map<Operation, Double>,
    shown: Map<Rendering, Seq<char>>,
    numbers: Seq<Double>,
    less: nat,
) -> Result<Double, Stop> {
    chain(
        mean(known, shown, numbers),
        |centre: Double|
            chain(
                squares(known, numbers, centre, numbers.len()),
                |sum: Double|
                    chain(
                        counted((numbers.len() - less) as u64),
                        |count: Double| answer(known, Operation::Quotient(sum, count)),
                    ),
            ),
    )
}

/// What `calculate_variance` returns: the population variance.
pub open spec fn variance(
    known: Map<Operation, Double>,
    shown: Map<Rendering, Seq<char>>,
    numbers: Seq<Double>,
) -> Result<Double, Stop> {
    if numbers.len() < 2 {
        invalid("At least two numbers are required to calculate variance"@)
    } else {
        spread(known, shown, numbers, 0)
    }
}

/// What `calculate_sample_variance` returns.
pub open spec fn sample_variance(
    known: Map<Operation, Double>,
    shown: Map<Rendering, Seq<char>>,
    numbers: Seq<Double>,
) -> Result<Double, Stop> {
    if numbers.len() < 2 {
        invalid("At least two numbers are required to calculate sample variance"@)
    } else {
        spread(known, shown, numbers, 1)
    }
}

/// The square root of a variance.
pub open spec fn root(known: Map<Operation, Double>, variance: Result<Double, Stop>) -> Result<
    Double,
    Stop,
> {
    chain(variance, |value: Double| answer(known, Operation::SquareRoot(value)))
}

/// A sum with the squared deviation of one more observation added.
fn square_onto(table: &Arithmetic, sum: Double, number: Double, centre: Double) -> (r: Result<
    Double,
    Halt,
>)
    ensures
        seen(r) == chain(
            answer(table.known(), Operation::Difference(number, centre)),
            |deviation: Double|
                chain(
                    answer(table.known(), Operation::IntegerPower(deviation, 2)),
                    |square: Double| answer(table.known(), Operation::Sum(sum, square)),
                ),
        ),
{
    let deviation = table.ask(Operation::Difference(number, centre))?;
    let square = table.ask(Operation::IntegerPower(deviation, 2))?;
    table.ask(Operation::Sum(sum, square))
}

/// The sum of the squared deviations from a centre.
pub fn squares_of(table: &Arithmetic, numbers: &[Double], centre: Double) -> (r: Result<
    Double,
    Halt,
>)
    ensures
        seen(r) == squares(table.known(), numbers@, centre, numbers@.len()),
{
    let mut sum = Double::from_bits(0);
    let mut i: usize = 0;
    while i < numbers.len()
        invariant
            0 <= i <= numbers@.len(),
            squares(table.known(), numbers@, centre, i as nat) == Ok::<Double, Stop>(sum),
        decreases numbers@.len() - i,
    {
        let step = square_onto(table, sum, numbers[i], centre);
        match step {
            Ok(next) => {
                sum = next;
            },
            Err(halt) => {
                proof {
                    lemma_squares_halt(table.known(), numbers@, centre, i as nat, numbers@.len());
                }
                return Err(halt);
            },
        }
        i += 1;
    }
    Ok(sum)
}

/// The sum of squared deviations from the mean over the count less `less`.
fn spread_of(table: &Arithmetic, numbers: &[Double], less: usize) -> (r: Result<Double, Halt>)
    requires
        less <= numbers@.len(),
    ensures
        seen(r) == spread(table.known(), table.shown(), numbers@, less as nat),
{
    let centre = calculate_mean(table, numbers)?;
    let sum = squares_of(table, numbers, centre)?;
    let count = Double::from_count((numbers.len() - less) as u64);
    table.ask(Operation::Quotient(sum, count))
}

/// The population variance: the mean squared deviation from the mean.
pub fn calculate_variance(table: &Arithmetic, numbers: &[Double]) -> (r: Result<Double, Halt>)
    ensures
        seen(r) == variance(table.known(), table.shown(), numbers@),
{
    if numbers.len() < 2 {
        return invalid_input("At least two numbers are required to calculate variance");
    }
    spread_of(table, numbers, 0)
}

/// The sample variance: the squared deviations summed and divided by one
/// less than the count.
pub fn calculate_sample_variance(table: &Arithmetic, numbers: &[Double]) -> (r: Result<
    Double,
    Halt,
>)
    ensures
        seen(r) == sample_variance(table.known(), table.shown(), numbers@),
{
    if numbers.len() < 2 {
        return invalid_input("At least two numbers are required to calculate sample variance");
    }
    spread_of(table, numbers, 1)
}

/// The population standard deviation: the square root of the variance.
pub fn calculate_standard_deviation(table: &Arithmetic, numbers: &[Double]) -> (r: Result<
    Double,
    Halt,
>)
    ensures
        seen(r) == root(table.known(), variance(table.known(), table.shown(), numbers@)),
{
    let variance = calculate_variance(table, numbers)?;
    table.ask(Operation::SquareRoot(variance))
}

/// The sample standard deviation: the square root of the sample variance.
pub fn calculate_sample_standard_deviation(table: &Arithmetic, numbers: &[Double]) -> (r: Result<
    Double,
    Halt,
>)
    ensures
        seen(r) == root(table.known(), sample_variance(table.known(), table.shown(), numbers@)),
{
    let variance = calculate_sample_variance(table, numbers)?;
    table.ask(Operation::SquareRoot(variance))
}

/// A halt in the squares of a prefix is the halt of every longer prefix.
proof fn lemma_squares_halt(
    known: Map<Operation, Double>,
    numbers: Seq<Double>,
    centre: Double,
    at: nat,
    n: nat,
)
    requires
        at < n,
        squares(known, numbers, centre, (at + 1) as nat) is Err,
    ensures
        squares(known, numbers, centre, n) == squares(known, numbers, centre, (at + 1) as nat),
    decreases n,
{
    if n > at + 1 {
        lemma_squares_halt(known, numbers, centre, at, (n - 1) as nat);
    }
}

/// What `calculate_probability` returns.
pub open spec fn probability(known: Map<Operation, Double>, successes: u32, trials: u32)
    -> Result<Double, Stop> {
    if trials == 0 {
        Err(Stop::Failed(Fault::DivisionByZero))
    } else if successes > trials {
        invalid("Successes cannot exceed trials"@)
    } else {
        chain(
            counted(successes as u64),
            |hits: Double|
                chain(
                    counted(trials as u64),
                    |all: Double| answer(known, Operation::Quotient(hits, all)),
                ),
        )
    }
}

/// The share of successes among trials.
pub fn calculate_probability(table: &Arithmetic, successes: u32, trials: u32) -> (r: Result<
    Double,
    Halt,
>)
    ensures
        seen(r) == probability(table.known(), successes, trials),
{
    if trials == 0 {
        return Err(Halt::Failed(FinanceError::DivisionByZero));
    }
    if successes > trials {
        return invalid_input("Successes cannot exceed trials");
    }
    let hits = Double::from_count(successes as u64);
    let all = Double::from_count(trials as u64);
    table.ask(Operation::Quotient(hits, all))
}

/// The check of the weight at a position: finite and not below zero.
pub open spec fn checked_weight(shown: Map<Rendering, Seq<char>>, weights: Seq<Double>, at: int)
    -> Result<(), Stop> {
    if !weights[at].is_finite() || weights[at].lt(Double::zero()) {
        rejected(shown, "Invalid weight at index "@ + numeral(at as nat) + ": "@, weights[at])
    } else {
        Ok(())
    }
}

/// The sum of two zeros, which needs no arithmetic unit: `0.0`, unless both
/// are `-0.0`.
pub open spec fn sum_of_zeros(a: Double, b: Double) -> Double {
    if a.sign() && b.sign() {
        a
    } else {
        Double::zero()
    }
}

/// The sum of the weights so far with one more weight: known at once where
/// both are zero, else the table's answer.
pub open spec fn weight_added(known: Map<Operation, Double>, total: Double, weight: Double)
    -> Result<Double, Stop> {
    if total.is_zero() && weight.is_zero() {
        Ok(sum_of_zeros(total, weight))
    } else {
        answer(known, Operation::Sum(total, weight))
    }
}

/// The weighted sum and the sum of the weights over the first `n` positions.
/// Each position is checked before it is added.
pub open spec fn weighted_totals(
    known: Map<Operation, Double>,
    shown: Map<Rendering, Seq<char>>,
    numbers: Seq<Double>,
    weights: Seq<Double>,
    n: nat,
) -> Result<(Double, Double), Stop>
    decreases n,
{
    if n == 0 {
        Ok((Double::zero(), Double::zero()))
    } else {
        chain(
            weighted_totals(known, shown, numbers, weights, (n - 1) as nat),
            |sums: (Double, Double)|
                after(
                    checked_number(shown, numbers, n - 1),
                    after(
                        checked_weight(shown, weights, n - 1),
                        chain(
                            answer(known, Operation::Product(numbers[n - 1], weights[n - 1])),
                            |share: Double|
                                chain(
                                    answer(known, Operation::Sum(sums.0, share)),
                                    |sum: Double|
                                        chain(
                                            weight_added(known, sums.1, weights[n - 1]),
                                            |weight: Double| Ok((sum, weight)),
                                        ),
                                ),
                        ),
                    ),
                ),
        )
    }
}

/// What `calculate_weighted_average` returns.
pub open spec fn weighted_average(
    known: Map<Operation, Double>,
    shown: Map<Rendering, Seq<char>>,
    numbers: Seq<Double>,
    weights: Seq<Double>,
) -> Result<Double, Stop> {
    if numbers.len() == 0 || weights.len() == 0 {
        invalid("Numbers and weights cannot be empty"@)
    } else if numbers.len() != weights.len() {
        invalid("Numbers and weights must have the same length"@)
    } else {
        chain(
            weighted_totals(known, shown, numbers, weights, numbers.len()),
            |sums: (Double, Double)|
                if sums.1.is_zero() {
                    Err(Stop::Failed(Fault::DivisionByZero))
                } else {
                    answer(known, Operation::Quotient(sums.0, sums.1))
                },
        )
    }
}

/// The sum of the weights so far with one more weight.
pub fn add_weight(table: &Arithmetic, total: Double, weight: Double) -> (r: Result<Double, Halt>)
    ensures
        seen(r) == weight_added(table.known(), total, weight),
{
    if total.is_zero() && weight.is_zero() {
        if total.sign() && weight.sign() {
            Ok(total)
        } else {
            Ok(Double::from_bits(0))
        }
    } else {
        table.ask(Operation::Sum(total, weight))
    }
}

/// The sums with one more position added, after its checks.
fn weigh_onto(
    table: &Arithmetic,
    sums: (Double, Double),
    numbers: &[Double],
    weights: &[Double],
    at: usize,
) -> (r: Result<(Double, Double), Halt>)
    requires
        at < numbers@.len(),
        at < weights@.len(),
    ensures
        seen(r) == after(
            checked_number(table.shown(), numbers@, at as int),
            after(
                checked_weight(table.shown(), weights@, at as int),
                chain(
                    answer(
                        table.known(),
                        Operation::Product(numbers@[at as int], weights@[at as int]),
                    ),
                    |share: Double|
                        chain(
                            answer(table.known(), Operation::Sum(sums.0, share)),
                            |sum: Double|
                                chain(
                                    weight_added(table.known(), sums.1, weights@[at as int]),
                                    |weight: Double| Ok((sum, weight)),
                                ),
                        ),
                ),
            ),
        ),
{
    let number = numbers[at];
    let weight = weights[at];
    if !number.is_finite() {
        return reject(table, complaint_at("Invalid number at index ", at), number);
    }
    if !weight.is_finite() || weight.lt(Double::from_bits(0)) {
        return reject(table, complaint_at("Invalid weight at index ", at), weight);
    }
    let share = table.ask(Operation::Product(number, weight))?;
    let sum = table.ask(Operation::Sum(sums.0, share))?;
    let total_weight = add_weight(table, sums.1, weight)?;
    Ok((sum, total_weight))
}

/// The average of the numbers, each counted by its weight.
pub fn calculate_weighted_average(table: &Arithmetic, numbers: &[Double], weights: &[Double]) -> (r:
    Result<Double, Halt>)
    ensures
        seen(r) == weighted_average(table.known(), table.shown(), numbers@, weights@),
{
    if numbers.len() == 0 || weights.len() == 0 {
        return invalid_input("Numbers and weights cannot be empty");
    }
    if numbers.len() != weights.len() {
        return invalid_input("Numbers and weights must have the same length");
    }
    let mut sums = (Double::from_bits(0), Double::from_bits(0));
    let mut i: usize = 0;
    while i < numbers.len()
        invariant
            0 <= i <= numbers@.len(),
            numbers@.len() == weights@.len(),
            weighted_totals(table.known(), table.shown(), numbers@, weights@, i as nat) == Ok::<
                (Double, Double),
                Stop,
            >(sums),
        decreases numbers@.len() - i,
    {
        match weigh_onto(table, sums, numbers, weights, i) {
            Ok(next) => {
                sums = next;
            },
            Err(halt) => {
                proof {
                    lemma_weighted_totals_halt(
                        table.known(),
                        table.shown(),
                        numbers@,
                        weights@,
                        i as nat,
                        numbers@.len(),
                    );
                }
                return Err(halt);
            },
        }
        i += 1;
    }
    if sums.1.is_zero() {
        return Err(Halt::Failed(FinanceError::DivisionByZero));
    }
    table.ask(Operation::Quotient(sums.0, sums.1))
}

/// A halt in the weighted sums of a prefix is the halt of every longer
/// prefix.
proof fn lemma_weighted_totals_halt(
    known: Map<Operation, Double>,
    shown: Map<Rendering, Seq<char>>,
    numbers: Seq<Double>,
    weights: Seq<Double>,
    at: nat,
    n: nat,
)
    requires
        at < n,
        weighted_totals(known, shown, numbers, weights, (at + 1) as nat) is Err,
    ensures
        weighted_totals(known, shown, numbers, weights, n) == weighted_totals(
            known,
            shown,
            numbers,
            weights,
            (at + 1) as nat,
        ),
    decreases n,
{
    if n > at + 1 {
        lemma_weighted_totals_halt(known, shown, numbers, weights, at, (n - 1) as nat);
    }
}

/// While every weight is zero, so is the sum of the weights.
proof fn lemma_zero_weights_sum_to_zero(
    known: Map<Operation, Double>,
    shown: Map<Rendering, Seq<char>>,
    numbers: Seq<Double>,
    weights: Seq<Double>,
    n: nat,
)
    requires
        n <= weights.len(),
        forall|i: int| 0 <= i < weights.len() ==> (#[trigger] weights[i]).is_zero(),
    ensures
        weighted_totals(known, shown, numbers, weights, n) is Ok ==> weighted_totals(
            known,
            shown,
            numbers,
            weights,
            n,
        )->Ok_0.1.is_zero(),
    decreases n,
{
    if n > 0 {
        lemma_zero_weights_sum_to_zero(known, shown, numbers, weights, (n - 1) as nat);
        assert(weights[n - 1].is_zero());
    }
}

/// A weighted average is refused where the lists differ in length or one is
/// empty.  With weights that are all zero it never succeeds, whatever the
/// numbers and whatever the table holds: once the table holds the products
/// and the sums of the numbers, it fails with `DivisionByZero`.
pub proof fn lemma_weighted_average_refusals(
    known: Map<Operation, Double>,
    shown: Map<Rendering, Seq<char>>,
    numbers: Seq<Double>,
    weights: Seq<Double>,
)
    ensures
        numbers.len() == 0 || weights.len() == 0 ==> weighted_average(
            known,
            shown,
            numbers,
            weights,
        ) == invalid::<Double>("Numbers and weights cannot be empty"@),
        numbers.len() != weights.len() && numbers.len() > 0 && weights.len() > 0
            ==> weighted_average(known, shown, numbers, weights) == invalid::<Double>(
            "Numbers and weights must have the same length"@,
        ),
        (forall|i: int| 0 <= i < weights.len() ==> (#[trigger] weights[i]).is_zero()) ==> !(
        weighted_average(known, shown, numbers, weights) is Ok),
        numbers.len() == weights.len() > 0 && (forall|i: int|
            0 <= i < weights.len() ==> (#[trigger] weights[i]).is_zero()) && weighted_totals(
            known,
            shown,
            numbers,
            weights,
            numbers.len(),
        ) is Ok ==> weighted_average(known, shown, numbers, weights) == Err::<Double, Stop>(
            Stop::Failed(Fault::DivisionByZero),
        ),
{
    if (forall|i: int| 0 <= i < weights.len() ==> (#[trigger] weights[i]).is_zero())
        && numbers.len() == weights.len() {
        lemma_zero_weights_sum_to_zero(known, shown, numbers, weights, numbers.len());
    }
}

/// A sequence with one more double put in: behind the last entry that is
/// not above it, so before every entry that is.
pub open spec fn placed(sorted: Seq<Double>, x: Double) -> Seq<Double>
    decreases sorted.len(),
{
    if sorted.len() == 0 {
        seq![x]
    } else if sorted.last().at_most(x) {
        sorted.push(x)
    } else {
        placed(sorted.drop_last(), x).push(sorted.last())
    }
}

/// The first `n` observations in ascending order; observations that compare
/// equal keep the order in which they came.
pub open spec fn arranged(numbers: Seq<Double>, n: nat) -> Seq<Double>
    decreases n,
{
    if n == 0 {
        Seq::empty()
    } else {
        placed(arranged(numbers, (n - 1) as nat), numbers[n - 1])
    }
}

/// Whether no entry is above a later one.
pub open spec fn ordered(s: Seq<Double>) -> bool {
    forall|i: int, j: int| 0 <= i <= j < s.len() ==> s[i].at_most(s[j])
}

/// The middle of a sorted sequence: its central entry, or for an even
/// length the sum of the two central entries divided by two.
pub open spec fn middle(known: Map<Operation, Double>, sorted: Seq<Double>) -> Result<
    Double,
    Stop,
> {
    let half = sorted.len() as int / 2;
    if sorted.len() % 2 == 0 {
        chain(
            answer(known, Operation::Sum(sorted[half - 1], sorted[half])),
            |sum: Double| answer(known, Operation::Quotient(sum, Double::two())),
        )
    } else {
        Ok(sorted[half])
    }
}

/// What `calculate_median` returns.
pub open spec fn median(
    known: Map<Operation, Double>,
    shown: Map<Rendering, Seq<char>>,
    numbers: Seq<Double>,
) -> Result<Double, Stop> {
    if numbers.len() == 0 {
        invalid("Cannot calculate median of empty dataset"@)
    } else {
        after(
            checked_numbers(shown, numbers, numbers.len()),
            middle(known, arranged(numbers, numbers.len())),
        )
    }
}

/// Puts one more double into a sequence, before the entries above it.
fn place(sorted: &mut Vec<Double>, x: Double)
    ensures
        final(sorted)@ == placed(old(sorted)@, x),
{
    let mut at: usize = sorted.len();
    while at > 0 && !sorted[at - 1].at_most(x)
        invariant
            0 <= at <= sorted@.len(),
            sorted@ == old(sorted)@,
            forall|k: int| at <= k < sorted@.len() ==> !sorted@[k].at_most(x),
        decreases at,
    {
        at -= 1;
    }
    proof {
        lemma_placed_is_insertion(sorted@, x, at as int);
    }
    sorted.insert(at, x);
}

/// The observations in ascending order.
pub fn arrange(numbers: &[Double]) -> (sorted: Vec<Double>)
    ensures
        sorted@ == arranged(numbers@, numbers@.len()),
{
    let mut sorted: Vec<Double> = Vec::new();
    let mut i: usize = 0;
    while i < numbers.len()
        invariant
            0 <= i <= numbers@.len(),
            sorted@ == arranged(numbers@, i as nat),
        decreases numbers@.len() - i,
    {
        place(&mut sorted, numbers[i]);
        i += 1;
    }
    sorted
}

/// The median: the middle of the observations in ascending order.
pub fn calculate_median(table: &Arithmetic, numbers: &[Double]) -> (r: Result<Double, Halt>)
    ensures
        seen(r) == median(table.known(), table.shown(), numbers@),
{
    if numbers.len() == 0 {
        return invalid_input("Cannot calculate median of empty dataset");
    }
    check_numbers(table, numbers)?;
    let sorted = arrange(numbers);
    proof {
        lemma_arranged_is_sorted(numbers@, numbers@.len());
    }
    let len = sorted.len();
    if len % 2 == 0 {
        let sum = table.ask(Operation::Sum(sorted[len / 2 - 1], sorted[len / 2]))?;
        table.ask(Operation::Quotient(sum, Double::from_bits(TWO_BITS)))
    } else {
        Ok(sorted[len / 2])
    }
}

/// Putting a double in is inserting it at the place behind which every
/// entry is above it, and before which the nearest is not.
proof fn lemma_placed_is_insertion(sorted: Seq<Double>, x: Double, at: int)
    requires
        0 <= at <= sorted.len(),
        forall|k: int| at <= k < sorted.len() ==> !sorted[k].at_most(x),
        at > 0 ==> sorted[at - 1].at_most(x),
    ensures
        placed(sorted, x) == sorted.insert(at, x),
    decreases sorted.len(),
{
    if sorted.len() == 0 {
        assert(seq![x] =~= sorted.insert(at, x));
    } else if sorted.last().at_most(x) {
        assert(at == sorted.len());
        assert(sorted.push(x) =~= sorted.insert(at, x));
    } else {
        let front = sorted.drop_last();
        assert(at < sorted.len());
        assert forall|k: int| at <= k < front.len() implies !front[k].at_most(x) by {
            assert(front[k] == sorted[k]);
        }
        lemma_placed_is_insertion(front, x, at);
        assert(front.insert(at, x).push(sorted.last()) =~= sorted.insert(at, x));
    }
}

/// Putting a double into an ordered sequence leaves it ordered, one longer,
/// and with that double as its only new entry.
pub proof fn lemma_placed_keeps_order(sorted: Seq<Double>, x: Double)
    requires
        ordered(sorted),
    ensures
        ordered(placed(sorted, x)),
        placed(sorted, x).len() == sorted.len() + 1,
        placed(sorted, x).to_multiset() == sorted.to_multiset().insert(x),
    decreases sorted.len(),
{
    broadcast use vstd::seq_lib::group_to_multiset_ensures;

    if sorted.len() == 0 {
        assert(sorted =~= Seq::<Double>::empty());
        assert(seq![x] =~= sorted.push(x));
    } else if sorted.last().at_most(x) {
        let after = sorted.push(x);
        assert forall|i: int, j: int| 0 <= i <= j < after.len() implies after[i].at_most(
            after[j],
        ) by {
            if j == sorted.len() && i < sorted.len() {
                assert(sorted[i].at_most(sorted[sorted.len() - 1]));
            }
        }
    } else {
        let front = sorted.drop_last();
        let last = sorted.last();
        assert forall|i: int, j: int| 0 <= i <= j < front.len() implies front[i].at_most(
            front[j],
        ) by {
            assert(front[i] == sorted[i] && front[j] == sorted[j]);
        }
        lemma_placed_keeps_order(front, x);
        let inner = placed(front, x);
        let after = inner.push(last);
        assert(sorted =~= front.push(last));
        assert(after.to_multiset() =~= sorted.to_multiset().insert(x));
        assert forall|i: int, j: int| 0 <= i <= j < after.len() implies after[i].at_most(
            after[j],
        ) by {
            if j == inner.len() && i < inner.len() {
                let e = inner[i];
                assert(inner.contains(e));
                assert(inner.to_multiset().count(e) > 0);
                if e != x {
                    assert(front.to_multiset().count(e) > 0);
                    assert(front.contains(e));
                    let k = choose|k: int| 0 <= k < front.len() && front[k] == e;
                    assert(sorted[k].at_most(sorted[sorted.len() - 1]));
                }
            }
        }
    }
}

/// The arrangement is ordered, as long as what it arranges, and holds the
/// same doubles, each as often.
pub proof fn lemma_arranged_is_sorted(numbers: Seq<Double>, n: nat)
    requires
        n <= numbers.len(),
    ensures
        ordered(arranged(numbers, n)),
        arranged(numbers, n).len() == n,
        arranged(numbers, n).to_multiset() == numbers.take(n as int).to_multiset(),
    decreases n,
{
    broadcast use vstd::seq_lib::group_to_multiset_ensures;

    if n == 0 {
        assert(numbers.take(0) =~= Seq::<Double>::empty());
    } else {
        lemma_arranged_is_sorted(numbers, (n - 1) as nat);
        lemma_placed_keeps_order(arranged(numbers, (n - 1) as nat), numbers[n - 1]);
        assert(numbers.take(n as int) =~= numbers.take(n - 1).push(numbers[n - 1]));
    }
}

/// How many fraction digits of an observation count when observations are
/// told apart for the mode: two that round to the same decimal are one value.
pub const MODE_DIGITS: u32 = 10;

/// The first `n` observations, each rounded to `MODE_DIGITS` fraction
/// digits.
pub open spec fn rounded(known: Map<Operation, Double>, numbers: Seq<Double>, n: nat) -> Result<
    Seq<Double>,
    Stop,
>
    decreases n,
{
    if n == 0 {
        Ok(Seq::empty())
    } else {
        chain(
            rounded(known, numbers, (n - 1) as nat),
            |keys: Seq<Double>|
                chain(
                    answer(known, Operation::Rounded(numbers[n - 1], MODE_DIGITS)),
                    |key: Double| Ok(keys.push(key)),
                ),
        )
    }
}

/// How often a value occurs among the first `n` keys.
pub open spec fn frequency(keys: Seq<Double>, key: Double, n: nat) -> nat
    decreases n,
{
    if n == 0 {
        0
    } else {
        frequency(keys, key, (n - 1) as nat) + if keys[n - 1] == key {
            1nat
        } else {
            0nat
        }
    }
}

/// How often the most frequent of the first `n` keys occurs among all keys.
pub open spec fn top_frequency(keys: Seq<Double>, n: nat) -> nat
    decreases n,
{
    if n == 0 {
        0
    } else {
        let rest = top_frequency(keys, (n - 1) as nat);
        let here = frequency(keys, keys[n - 1], keys.len());
        if here > rest {
            here
        } else {
            rest
        }
    }
}

/// The smallest of those among the first `n` keys that occur `top` times;
/// of two that compare equal, the one that came first.
pub open spec fn smallest_frequent(keys: Seq<Double>, top: nat, n: nat) -> Option<Double>
    decreases n,
{
    if n == 0 {
        None
    } else {
        let rest = smallest_frequent(keys, top, (n - 1) as nat);
        let key = keys[n - 1];
        if frequency(keys, key, keys.len()) != top {
            rest
        } else {
            match rest {
                None => Some(key),
                Some(best) => if key.lt(best) {
                    Some(key)
                } else {
                    Some(best)
                },
            }
        }
    }
}

/// The mode of a sequence of keys: none where no key repeats, else the
/// smallest of the most frequent.
pub open spec fn mode_of_keys(keys: Seq<Double>) -> Option<Double> {
    let top = top_frequency(keys, keys.len());
    if top == 1 {
        None
    } else {
        smallest_frequent(keys, top, keys.len())
    }
}

/// What `calculate_mode` returns.
pub open spec fn mode(
    known: Map<Operation, Double>,
    shown: Map<Rendering, Seq<char>>,
    numbers: Seq<Double>,
) -> Result<Option<Double>, Stop> {
    if numbers.len() == 0 {
        Ok(None)
    } else {
        after(
            checked_numbers(shown, numbers, numbers.len()),
            chain(
                rounded(known, numbers, numbers.len()),
                |keys: Seq<Double>| Ok(mode_of_keys(keys)),
            ),
        )
    }
}

/// The observations, each rounded to `MODE_DIGITS` fraction digits.
pub fn round_all(table: &Arithmetic, numbers: &[Double]) -> (r: Result<Vec<Double>, Halt>)
    ensures
        match r {
            Ok(keys) => rounded(table.known(), numbers@, numbers@.len()) == Ok::<
                Seq<Double>,
                Stop,
            >(keys@),
            Err(halt) => rounded(table.known(), numbers@, numbers@.len()) == Err::<
                Seq<Double>,
                Stop,
            >(halt@),
        },
{
    let mut keys: Vec<Double> = Vec::new();
    let mut i: usize = 0;
    while i < numbers.len()
        invariant
            0 <= i <= numbers@.len(),
            rounded(table.known(), numbers@, i as nat) == Ok::<Seq<Double>, Stop>(keys@),
        decreases numbers@.len() - i,
    {
        match table.ask(Operation::Rounded(numbers[i], MODE_DIGITS)) {
            Ok(key) => {
                keys.push(key);
            },
            Err(halt) => {
                proof {
                    lemma_rounded_halts(table.known(), numbers@, i as nat, numbers@.len());
                }
                return Err(halt);
            },
        }
        i += 1;
    }
    Ok(keys)
}

/// How often a value occurs among the keys.
pub fn count_of(keys: &Vec<Double>, key: Double) -> (count: usize)
    ensures
        count == frequency(keys@, key, keys@.len()),
{
    let mut count: usize = 0;
    let mut i: usize = 0;
    while i < keys.len()
        invariant
            0 <= i <= keys@.len(),
            count <= i,
            count == frequency(keys@, key, i as nat),
        decreases keys@.len() - i,
    {
        if keys[i] == key {
            count += 1;
        }
        i += 1;
    }
    count
}

/// The mode of the keys.
pub fn mode_among(keys: &Vec<Double>) -> (found: Option<Double>)
    ensures
        found == mode_of_keys(keys@),
{
    let mut top: usize = 0;
    let mut i: usize = 0;
    while i < keys.len()
        invariant
            0 <= i <= keys@.len(),
            top == top_frequency(keys@, i as nat),
        decreases keys@.len() - i,
    {
        let here = count_of(keys, keys[i]);
        if here > top {
            top = here;
        }
        i += 1;
    }
    if top == 1 {
        return None;
    }
    let mut best: Option<Double> = None;
    let mut j: usize = 0;
    while j < keys.len()
        invariant
            0 <= j <= keys@.len(),
            best == smallest_frequent(keys@, top as nat, j as nat),
        decreases keys@.len() - j,
    {
        let key = keys[j];
        if count_of(keys, key) == top {
            best = match best {
                None => Some(key),
                Some(least) => if key.lt(least) {
                    Some(key)
                } else {
                    Some(least)
                },
            };
        }
        j += 1;
    }
    best
}

/// The mode: the value that occurs most often, the smallest of several; none
/// where no value occurs twice.
pub fn calculate_mode(table: &Arithmetic, numbers: &[Double]) -> (r: Result<Option<Double>, Halt>)
    ensures
        seen(r) == mode(table.known(), table.shown(), numbers@),
{
    if numbers.len() == 0 {
        return Ok(None);
    }
    check_numbers(table, numbers)?;
    let keys = round_all(table, numbers)?;
    Ok(mode_among(&keys))
}

/// A halt in the rounding of a prefix is the halt of every longer prefix.
proof fn lemma_rounded_halts(
    known: Map<Operation, Double>,
    numbers: Seq<Double>,
    at: nat,
    n: nat,
)
    requires
        at < n,
        rounded(known, numbers, (at + 1) as nat) is Err,
    ensures
        rounded(known, numbers, n) == rounded(known, numbers, (at + 1) as nat),
    decreases n,
{
    if n > at + 1 {
        lemma_rounded_halts(known, numbers, at, (n - 1) as nat);
    }
}

/// Whether the value is among the keys that occur `top` times.
pub open spec fn frequent(keys: Seq<Double>, top: nat, key: Double) -> bool {
    exists|i: int| 0 <= i < keys.len() && keys[i] == key && frequency(keys, key, keys.len()) == top
}

/// A key occurs at least once, and no more often among fewer keys.
proof fn lemma_frequency_grows(keys: Seq<Double>, key: Double, m: nat, n: nat)
    requires
        m <= n <= keys.len(),
    ensures
        frequency(keys, key, m) <= frequency(keys, key, n) <= n,
        m < n && keys[m as int] == key ==> frequency(keys, key, n) >= 1,
    decreases n,
{
    if m < n {
        lemma_frequency_grows(keys, key, m, (n - 1) as nat);
    } else if n > 0 {
        lemma_frequency_grows(keys, key, (n - 1) as nat, (n - 1) as nat);
    }
}

/// The top frequency of a prefix is reached by one of its keys and exceeded
/// by none.
pub proof fn lemma_top_frequency_is_greatest(keys: Seq<Double>, n: nat)
    requires
        n <= keys.len(),
    ensures
        forall|i: int|
            0 <= i < n ==> frequency(keys, #[trigger] keys[i], keys.len()) <= top_frequency(keys, n),
        n > 0 ==> exists|i: int|
            0 <= i < n && frequency(keys, #[trigger] keys[i], keys.len()) == top_frequency(keys, n),
        n > 0 ==> top_frequency(keys, n) >= 1,
    decreases n,
{
    if n > 0 {
        lemma_top_frequency_is_greatest(keys, (n - 1) as nat);
        lemma_frequency_grows(keys, keys[n - 1], (n - 1) as nat, keys.len());
        let top = top_frequency(keys, n);
        if frequency(keys, keys[n - 1], keys.len()) == top {
            assert(0 <= n - 1 < n && frequency(keys, keys[n - 1], keys.len()) == top);
        } else {
            let i = choose|i: int|
                0 <= i < n - 1 && frequency(keys, #[trigger] keys[i], keys.len())
                    == top_frequency(keys, (n - 1) as nat);
            assert(0 <= i < n && frequency(keys, keys[i], keys.len()) == top);
        }
    }
}

/// Among keys that are not NaN, the smallest frequent key of a prefix is
/// one of its frequent keys, and none of them is below it; there is none
/// only where the prefix has no frequent key.
pub proof fn lemma_smallest_frequent_is_least(keys: Seq<Double>, top: nat, n: nat)
    requires
        n <= keys.len(),
        forall|i: int| 0 <= i < keys.len() ==> !(#[trigger] keys[i]).is_nan(),
    ensures
        match smallest_frequent(keys, top, n) {
            None => forall|i: int|
                0 <= i < n ==> frequency(keys, #[trigger] keys[i], keys.len()) != top,
            Some(least) => frequent(keys, top, least) && !least.is_nan() && forall|i: int|
                0 <= i < n && frequency(keys, #[trigger] keys[i], keys.len()) == top ==> !keys[i].lt(
                    least,
                ),
        },
    decreases n,
{
    if n > 0 {
        lemma_smallest_frequent_is_least(keys, top, (n - 1) as nat);
        let key = keys[n - 1];
        if frequency(keys, key, keys.len()) == top {
            assert(frequent(keys, top, key));
        }
    }
}

/// The mode of keys that are not NaN: where some key repeats, it is a key
/// that occurs as often as any, and no key that occurs as often is below it.
/// Where no key repeats there is none.
pub proof fn lemma_mode_is_smallest_most_frequent(keys: Seq<Double>)
    requires
        keys.len() > 0,
        forall|i: int| 0 <= i < keys.len() ==> !(#[trigger] keys[i]).is_nan(),
    ensures
        match mode_of_keys(keys) {
            None => forall|i: int|
                0 <= i < keys.len() ==> frequency(keys, #[trigger] keys[i], keys.len()) == 1,
            Some(value) => {
                &&& frequent(keys, frequency(keys, value, keys.len()), value)
                &&& frequency(keys, value, keys.len()) >= 2
                &&& forall|i: int|
                    0 <= i < keys.len() ==> frequency(keys, #[trigger] keys[i], keys.len())
                        <= frequency(keys, value, keys.len())
                &&& forall|i: int|
                    0 <= i < keys.len() && frequency(keys, #[trigger] keys[i], keys.len())
                        == frequency(keys, value, keys.len()) ==> !keys[i].lt(value)
            },
        },
{
    let top = top_frequency(keys, keys.len());
    lemma_top_frequency_is_greatest(keys, keys.len());
    lemma_smallest_frequent_is_least(keys, top, keys.len());
    if top == 1 {
        assert forall|i: int| 0 <= i < keys.len() implies frequency(
            keys,
            #[trigger] keys[i],
            keys.len(),
        ) == 1 by {
            lemma_frequency_grows(keys, keys[i], i as nat, keys.len());
        }
    }
}

/// How often a value occurs among the first `n` keys is how often the
/// first `n` keys, as a multiset, hold it.
proof fn lemma_frequency_is_count(keys: Seq<Double>, key: Double, n: nat)
    requires
        n <= keys.len(),
    ensures
        frequency(keys, key, n) == keys.take(n as int).to_multiset().count(key),
    decreases n,
{
    broadcast use vstd::seq_lib::group_to_multiset_ensures;

    if n == 0 {
        assert(keys.take(0) =~= Seq::<Double>::empty());
    } else {
        lemma_frequency_is_count(keys, key, (n - 1) as nat);
        assert(keys.take(n as int) =~= keys.take(n - 1).push(keys[n - 1]));
    }
}

/// Of two sequences that hold the same keys, each as often, the top
/// frequency of the first is reached in the second.
proof fn lemma_top_frequency_is_reached(first: Seq<Double>, second: Seq<Double>)
    requires
        first.to_multiset() == second.to_multiset(),
    ensures
        first.len() == second.len(),
        forall|key: Double|
            frequency(first, key, first.len()) == frequency(second, key, second.len()),
        top_frequency(first, first.len()) <= top_frequency(second, second.len()),
{
    broadcast use vstd::seq_lib::group_to_multiset_ensures;

    first.to_multiset_ensures();
    second.to_multiset_ensures();
    assert(first.len() == first.to_multiset().len());
    assert(second.len() == second.to_multiset().len());
    assert(first.take(first.len() as int) =~= first);
    assert(second.take(second.len() as int) =~= second);
    assert forall|key: Double|
        frequency(first, key, first.len()) == frequency(second, key, second.len()) by {
        lemma_frequency_is_count(first, key, first.len());
        lemma_frequency_is_count(second, key, second.len());
    }
    lemma_top_frequency_is_greatest(first, first.len());
    lemma_top_frequency_is_greatest(second, second.len());
    if first.len() > 0 {
        let i = choose|i: int|
            0 <= i < first.len() && frequency(first, #[trigger] first[i], first.len())
                == top_frequency(first, first.len());
        let key = first[i];
        assert(first.contains(key));
        assert(second.to_multiset().count(key) > 0);
        assert(second.contains(key));
        let j = choose|j: int| 0 <= j < second.len() && second[j] == key;
        assert(frequency(second, second[j], second.len()) <= top_frequency(
            second,
            second.len(),
        ));
    }
}

/// The mode does not depend on the order of the keys: of two sequences of
/// keys, none NaN, that hold the same keys, each as often, both have no
/// mode, or both have one and the two are the same number.
pub proof fn lemma_mode_ignores_order(first: Seq<Double>, second: Seq<Double>)
    requires
        first.to_multiset() == second.to_multiset(),
        forall|i: int| 0 <= i < first.len() ==> !(#[trigger] first[i]).is_nan(),
    ensures
        match (mode_of_keys(first), mode_of_keys(second)) {
            (None, None) => true,
            (Some(a), Some(b)) => a.same(b) && frequency(first, a, first.len()) == frequency(
                second,
                b,
                second.len(),
            ),
            _ => false,
        },
{
    broadcast use vstd::seq_lib::group_to_multiset_ensures;

    lemma_top_frequency_is_reached(first, second);
    lemma_top_frequency_is_reached(second, first);
    let top = top_frequency(first, first.len());
    assert forall|j: int| 0 <= j < second.len() implies !(#[trigger] second[j]).is_nan() by {
        assert(second.contains(second[j]));
        assert(first.to_multiset().count(second[j]) > 0);
        assert(first.contains(second[j]));
    }
    lemma_top_frequency_is_greatest(first, first.len());
    lemma_top_frequency_is_greatest(second, second.len());
    lemma_smallest_frequent_is_least(first, top, first.len());
    lemma_smallest_frequent_is_least(second, top, second.len());
    if top != 1 && first.len() > 0 {
        let a = smallest_frequent(first, top, first.len())->Some_0;
        let b = smallest_frequent(second, top, second.len())->Some_0;
        assert(frequent(first, top, a));
        assert(frequent(second, top, b));
        assert(second.to_multiset().count(a) > 0);
        assert(second.contains(a));
        let j = choose|j: int| 0 <= j < second.len() && second[j] == a;
        assert(!second[j].lt(b));
        assert(first.to_multiset().count(b) > 0);
        assert(first.contains(b));
        let i = choose|i: int| 0 <= i < first.len() && first[i] == b;
        assert(!first[i].lt(a));
        lemma_le_is_total_preorder(a, b, a);
    }
}

/// The key of an observation: the table's answer to its rounding.
pub open spec fn key_of(known: Map<Operation, Double>, number: Double) -> Double {
    known[Operation::Rounded(number, MODE_DIGITS)]
}

/// Whether the table holds the key of each of the first `n` observations.
pub open spec fn keys_known(known: Map<Operation, Double>, numbers: Seq<Double>, n: nat) -> bool {
    forall|i: int|
        0 <= i < n ==> known.contains_key(Operation::Rounded(#[trigger] numbers[i], MODE_DIGITS))
}

/// Where the table holds the keys, the rounded observations are the
/// observations, each replaced by its key; and only there are there any.
proof fn lemma_rounded_is_mapped(known: Map<Operation, Double>, numbers: Seq<Double>, n: nat)
    requires
        n <= numbers.len(),
    ensures
        keys_known(known, numbers, n) ==> rounded(known, numbers, n) == Ok::<Seq<Double>, Stop>(
            numbers.take(n as int).map_values(|number: Double| key_of(known, number)),
        ),
        rounded(known, numbers, n) is Ok ==> keys_known(known, numbers, n),
    decreases n,
{
    if n == 0 {
        assert(numbers.take(0).map_values(|number: Double| key_of(known, number))
            =~= Seq::<Double>::empty());
    } else {
        lemma_rounded_is_mapped(known, numbers, (n - 1) as nat);
        if keys_known(known, numbers, n) {
            assert(keys_known(known, numbers, (n - 1) as nat));
            assert(known.contains_key(Operation::Rounded(numbers[n - 1], MODE_DIGITS)));
            assert(numbers.take(n as int).map_values(|number: Double| key_of(known, number))
                =~= numbers.take(n - 1).map_values(|number: Double| key_of(known, number)).push(
                key_of(known, numbers[n - 1]),
            ));
        }
        if rounded(known, numbers, n) is Ok {
            assert(rounded(known, numbers, (n - 1) as nat) is Ok);
            assert forall|i: int| 0 <= i < n implies known.contains_key(
                Operation::Rounded(#[trigger] numbers[i], MODE_DIGITS),
            ) by {
                if i < n - 1 {
                    assert(keys_known(known, numbers, (n - 1) as nat));
                }
            }
        }
    }
}

/// Two sequences that hold the same observations, each as often, hold the
/// same keys, each as often.
proof fn lemma_keys_follow(known: Map<Operation, Double>, first: Seq<Double>, second: Seq<Double>)
    requires
        first.to_multiset() == second.to_multiset(),
    ensures
        first.map_values(|number: Double| key_of(known, number)).to_multiset()
            == second.map_values(|number: Double| key_of(known, number)).to_multiset(),
        first.len() == second.len(),
    decreases first.len(),
{
    broadcast use vstd::seq_lib::group_to_multiset_ensures;

    let key = |number: Double| key_of(known, number);
    first.to_multiset_ensures();
    second.to_multiset_ensures();
    assert(first.len() == first.to_multiset().len());
    assert(second.len() == second.to_multiset().len());
    if first.len() == 0 {
        assert(first.map_values(key) =~= second.map_values(key));
    } else {
        let x = first[0];
        assert(first.contains(x));
        assert(second.to_multiset().count(x) > 0);
        assert(second.contains(x));
        let j = choose|j: int| 0 <= j < second.len() && second[j] == x;
        let rest1 = first.remove(0);
        let rest2 = second.remove(j);
        assert(rest1.to_multiset() =~= first.to_multiset().remove(x));
        assert(rest2.to_multiset() =~= second.to_multiset().remove(x));
        lemma_keys_follow(known, rest1, rest2);
        let keys1 = first.map_values(key);
        let keys2 = second.map_values(key);
        assert(keys1.remove(0) =~= rest1.map_values(key));
        assert(keys2.remove(j) =~= rest2.map_values(key));
        keys1.to_multiset_ensures();
        keys2.to_multiset_ensures();
        assert(keys1.remove(0).to_multiset() =~= keys1.to_multiset().remove(keys1[0]));
        assert(keys2.remove(j).to_multiset() =~= keys2.to_multiset().remove(keys2[j]));
        assert(keys1[0] == key(x) && keys2[j] == key(x));
        assert(keys1.contains(key(x)) && keys2.contains(key(x)));
        assert(keys1.to_multiset().count(key(x)) > 0 && keys2.to_multiset().count(key(x)) > 0);
        assert(keys1.to_multiset() =~= keys2.to_multiset()) by {
            assert forall|k: Double|
                keys1.to_multiset().count(k) == keys2.to_multiset().count(k) by {
                assert(keys1.to_multiset().remove(key(x)).count(k) == keys2.to_multiset().remove(
                    key(x),
                ).count(k));
            }
        }
    }
}

/// Observations that are all finite pass the checks, whatever the table
/// holds.
proof fn lemma_finite_numbers_pass(shown: Map<Rendering, Seq<char>>, numbers: Seq<Double>, n: nat)
    requires
        n <= numbers.len(),
        forall|i: int| 0 <= i < numbers.len() ==> (#[trigger] numbers[i]).is_finite(),
    ensures
        checked_numbers(shown, numbers, n) == Ok::<(), Stop>(()),
    decreases n,
{
    if n > 0 {
        lemma_finite_numbers_pass(shown, numbers, (n - 1) as nat);
    }
}

/// The mode does not depend on the order of the observations.  Of two
/// sequences that hold the same finite observations, each as often, on a
/// table that holds their keys, none of them NaN: both have no mode, or
/// both have one and the two are the same number.
pub proof fn lemma_mode_of_numbers_ignores_order(
    known: Map<Operation, Double>,
    shown: Map<Rendering, Seq<char>>,
    first: Seq<Double>,
    second: Seq<Double>,
)
    requires
        first.to_multiset() == second.to_multiset(),
        forall|i: int| 0 <= i < first.len() ==> (#[trigger] first[i]).is_finite(),
        keys_known(known, first, first.len()),
        forall|i: int| 0 <= i < first.len() ==> !key_of(known, #[trigger] first[i]).is_nan(),
    ensures
        match (mode(known, shown, first), mode(known, shown, second)) {
            (Ok(None), Ok(None)) => true,
            (Ok(Some(a)), Ok(Some(b))) => a.same(b),
            _ => false,
        },
{
    broadcast use vstd::seq_lib::group_to_multiset_ensures;

    let key = |number: Double| key_of(known, number);
    lemma_keys_follow(known, first, second);
    assert forall|j: int| 0 <= j < second.len() implies (#[trigger] second[j]).is_finite()
        && known.contains_key(Operation::Rounded(second[j], MODE_DIGITS)) by {
        assert(second.contains(second[j]));
        assert(first.to_multiset().count(second[j]) > 0);
        assert(first.contains(second[j]));
        let i = choose|i: int| 0 <= i < first.len() && first[i] == second[j];
        assert(first[i].is_finite());
    }
    lemma_finite_numbers_pass(shown, first, first.len());
    lemma_finite_numbers_pass(shown, second, second.len());
    lemma_rounded_is_mapped(known, first, first.len());
    lemma_rounded_is_mapped(known, second, second.len());
    assert(first.take(first.len() as int) =~= first);
    assert(second.take(second.len() as int) =~= second);
    let keys1 = first.map_values(key);
    let keys2 = second.map_values(key);
    assert forall|i: int| 0 <= i < keys1.len() implies !(#[trigger] keys1[i]).is_nan() by {
        assert(keys1[i] == key_of(known, first[i]));
    }
    lemma_mode_ignores_order(keys1, keys2);
}

/// Settled checks of observations stay settled, and halted ones ask anew.
proof fn lemma_checked_numbers_settle(
    fewer: Map<Operation, Double>,
    more: Map<Operation, Double>,
    fewer_texts: Map<Rendering, Seq<char>>,
    more_texts: Map<Rendering, Seq<char>>,
    numbers: Seq<Double>,
    n: nat,
)
    requires
        fewer.submap_of(more),
        fewer_texts.submap_of(more_texts),
    ensures
        settled(checked_numbers(fewer_texts, numbers, n))
            ==> checked_numbers(more_texts, numbers, n)
            == checked_numbers(fewer_texts, numbers, n),
        asks_anew(fewer, fewer_texts, checked_numbers(fewer_texts, numbers, n)),
    decreases n,
{
    if n > 0 {
        lemma_checked_numbers_settle(fewer, more, fewer_texts, more_texts, numbers, (n - 1) as nat);
    }
}

/// Settled sums, sums of squares and rounded keys stay settled, and halted ones ask anew.
proof fn lemma_sums_settle(
    fewer: Map<Operation, Double>,
    more: Map<Operation, Double>,
    fewer_texts: Map<Rendering, Seq<char>>,
    more_texts: Map<Rendering, Seq<char>>,
    numbers: Seq<Double>,
    centre: Double,
    n: nat,
)
    requires
        fewer.submap_of(more),
        fewer_texts.submap_of(more_texts),
    ensures
        settled(total(fewer, numbers, n)) ==> total(more, numbers, n) == total(fewer, numbers, n),
        asks_anew(fewer, fewer_texts, total(fewer, numbers, n)),
        settled(squares(fewer, numbers, centre, n))
            ==> squares(more, numbers, centre, n)
            == squares(fewer, numbers, centre, n),
        asks_anew(fewer, fewer_texts, squares(fewer, numbers, centre, n)),
        settled(rounded(fewer, numbers, n))
            ==> rounded(more, numbers, n)
            == rounded(fewer, numbers, n),
        asks_anew(fewer, fewer_texts, rounded(fewer, numbers, n)),
    decreases n,
{
    if n > 0 {
        lemma_sums_settle(fewer, more, fewer_texts, more_texts, numbers, centre, (n - 1) as nat);
    }
}

/// Settled weighted sums stay settled, and halted ones ask anew.
proof fn lemma_weighted_totals_settle(
    fewer: Map<Operation, Double>,
    more: Map<Operation, Double>,
    fewer_texts: Map<Rendering, Seq<char>>,
    more_texts: Map<Rendering, Seq<char>>,
    numbers: Seq<Double>,
    weights: Seq<Double>,
    n: nat,
)
    requires
        fewer.submap_of(more),
        fewer_texts.submap_of(more_texts),
    ensures
        settled(weighted_totals(fewer, fewer_texts, numbers, weights, n))
            ==> weighted_totals(more, more_texts, numbers, weights, n)
            == weighted_totals(fewer, fewer_texts, numbers, weights, n),
        asks_anew(fewer, fewer_texts, weighted_totals(fewer, fewer_texts, numbers, weights, n)),
    decreases n,
{
    if n > 0 {
        lemma_weighted_totals_settle(
            fewer,
            more,
            fewer_texts,
            more_texts,
            numbers,
            weights,
            (n - 1) as nat,
        );
    }
}

/// What a statistic has settled stays settled: on a table
/// that holds more it returns the same; and what it asks for, the table
/// lacks.
pub proof fn lemma_statistics_settle(
    fewer: Map<Operation, Double>,
    more: Map<Operation, Double>,
    fewer_texts: Map<Rendering, Seq<char>>,
    more_texts: Map<Rendering, Seq<char>>,
    numbers: Seq<Double>,
    weights: Seq<Double>,
    successes: u32,
    trials: u32,
)
    requires
        fewer.submap_of(more),
        fewer_texts.submap_of(more_texts),
    ensures
        settled(mean(fewer, fewer_texts, numbers))
            ==> mean(more, more_texts, numbers)
            == mean(fewer, fewer_texts, numbers),
        asks_anew(fewer, fewer_texts, mean(fewer, fewer_texts, numbers)),
        settled(variance(fewer, fewer_texts, numbers))
            ==> variance(more, more_texts, numbers)
            == variance(fewer, fewer_texts, numbers),
        asks_anew(fewer, fewer_texts, variance(fewer, fewer_texts, numbers)),
        settled(sample_variance(fewer, fewer_texts, numbers))
            ==> sample_variance(more, more_texts, numbers)
            == sample_variance(fewer, fewer_texts, numbers),
        asks_anew(fewer, fewer_texts, sample_variance(fewer, fewer_texts, numbers)),
        settled(root(fewer, variance(fewer, fewer_texts, numbers)))
            ==> root(more, variance(more, more_texts, numbers))
            == root(fewer, variance(fewer, fewer_texts, numbers)),
        asks_anew(fewer, fewer_texts, root(fewer, variance(fewer, fewer_texts, numbers))),
        settled(root(fewer, sample_variance(fewer, fewer_texts, numbers)))
            ==> root(more, sample_variance(more, more_texts, numbers))
            == root(fewer, sample_variance(fewer, fewer_texts, numbers)),
        asks_anew(fewer, fewer_texts, root(fewer, sample_variance(fewer, fewer_texts, numbers))),
        settled(median(fewer, fewer_texts, numbers))
            ==> median(more, more_texts, numbers)
            == median(fewer, fewer_texts, numbers),
        asks_anew(fewer, fewer_texts, median(fewer, fewer_texts, numbers)),
        settled(mode(fewer, fewer_texts, numbers))
            ==> mode(more, more_texts, numbers)
            == mode(fewer, fewer_texts, numbers),
        asks_anew(fewer, fewer_texts, mode(fewer, fewer_texts, numbers)),
        settled(weighted_average(fewer, fewer_texts, numbers, weights))
            ==> weighted_average(more, more_texts, numbers, weights)
            == weighted_average(fewer, fewer_texts, numbers, weights),
        asks_anew(fewer, fewer_texts, weighted_average(fewer, fewer_texts, numbers, weights)),
        settled(probability(fewer, successes, trials))
            ==> probability(more, successes, trials)
            == probability(fewer, successes, trials),
        asks_anew(fewer, fewer_texts, probability(fewer, successes, trials)),
{
    lemma_checked_numbers_settle(fewer, more, fewer_texts, more_texts, numbers, numbers.len());
    lemma_sums_settle(
        fewer,
        more,
        fewer_texts,
        more_texts,
        numbers,
        Double::zero(),
        numbers.len(),
    );
    if mean(fewer, fewer_texts, numbers) is Ok {
        lemma_sums_settle(
            fewer,
            more,
            fewer_texts,
            more_texts,
            numbers,
            mean(fewer, fewer_texts, numbers)->Ok_0,
            numbers.len(),
        );
    }
    lemma_weighted_totals_settle(
        fewer,
        more,
        fewer_texts,
        more_texts,
        numbers,
        weights,
        numbers.len(),
    );
}

} // verus!
