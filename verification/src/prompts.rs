//! What to make of an entry at a prompt: the number that it gives, or the
//! reason to ask again.

use vstd::prelude::*;
use vstd::string::*;
use crate::arithmetic::{Arithmetic, answer};
use crate::double::{Double, HUNDRED_BITS};
use crate::error::{Halt, Stop};
use crate::operation::Operation;

verus! {

/// An entry as judged: taken, with what it gives, or refused, with what to
/// tell the user before asking again.
#[derive(Debug)]
pub enum Entry<T> {
    Taken(T),
    Refused(String),
}

/// An `Entry` as contracts see it.
pub ghost enum Verdict<T> {
    Taken(T),
    Refused(Seq<char>),
}

impl<T> View for Entry<T> {
    type V = Verdict<T>;

    open spec fn view(&self) -> Verdict<T> {
        match self {
            Entry::Taken(value) => Verdict::Taken(*value),
            Entry::Refused(reply) => Verdict::Refused(reply@),
        }
    }
}

/// What `judge_number` makes of an entry: a number must have been read, and
/// be finite.
pub open spec fn judged_number(parsed: Option<Double>) -> Verdict<Double> {
    match parsed {
        Some(value) => if value.is_finite() {
            Verdict::Taken(value)
        } else {
            Verdict::Refused("Please enter a valid finite number."@)
        },
        None => Verdict::Refused("Please enter a valid number."@),
    }
}

/// Judges an entry that should be a number: `parsed` is the number read
/// from it, if one could be read.
pub fn judge_number(parsed: Option<Double>) -> (entry: Entry<Double>)
    ensures
        entry@ == judged_number(parsed),
{
    match parsed {
        Some(value) => if value.is_finite() {
            Entry::Taken(value)
        } else {
            Entry::Refused(String::from_str("Please enter a valid finite number."))
        },
        None => Entry::Refused(String::from_str("Please enter a valid number.")),
    }
}

/// What `judge_positive` makes of a number: it must be above zero.
pub open spec fn judged_positive(value: Double) -> Verdict<Double> {
    if Double::zero().lt(value) {
        Verdict::Taken(value)
    } else {
        Verdict::Refused("Please enter a positive number."@)
    }
}

/// Judges a number that should be positive.
pub fn judge_positive(value: Double) -> (entry: Entry<Double>)
    ensures
        entry@ == judged_positive(value),
{
    if Double::from_bits(0).lt(value) {
        Entry::Taken(value)
    } else {
        Entry::Refused(String::from_str("Please enter a positive number."))
    }
}

/// What `judge_non_negative` makes of a number: it must not be below zero.
pub open spec fn judged_non_negative(value: Double) -> Verdict<Double> {
    if Double::zero().le(value) {
        Verdict::Taken(value)
    } else {
        Verdict::Refused("Please enter a non-negative number."@)
    }
}

/// Judges a number that should not be negative.
pub fn judge_non_negative(value: Double) -> (entry: Entry<Double>)
    ensures
        entry@ == judged_non_negative(value),
{
    if Double::from_bits(0).le(value) {
        Entry::Taken(value)
    } else {
        Entry::Refused(String::from_str("Please enter a non-negative number."))
    }
}

/// Whether a number is a percentage: finite, and from 0 to 100.
pub open spec fn is_percentage(value: Double) -> bool {
    value.is_finite() && Double::zero().le(value) && value.le(Double::hundred())
}

/// What `judge_percentage` makes of an entry: a percentage gives the
/// fraction that it is of a hundred.
pub open spec fn judged_percentage(known: Map<Operation, Double>, parsed: Option<Double>)
    -> Result<Verdict<Double>, Stop> {
    match parsed {
        Some(value) => if is_percentage(value) {
            match answer(known, Operation::Quotient(value, Double::hundred())) {
                Ok(fraction) => Ok(Verdict::Taken(fraction)),
                Err(stop) => Err(stop),
            }
        } else {
            Ok(Verdict::Refused("Please enter a percentage between 0 and 100."@))
        },
        None => Ok(Verdict::Refused("Please enter a valid percentage."@)),
    }
}

/// Judges an entry that should be a percentage, and turns it into a
/// fraction.
pub fn judge_percentage(table: &Arithmetic, parsed: Option<Double>) -> (r: Result<
    Entry<Double>,
    Halt,
>)
    ensures
        match r {
            Ok(entry) => judged_percentage(table.known(), parsed) == Ok::<Verdict<Double>, Stop>(
                entry@,
            ),
            Err(halt) => judged_percentage(table.known(), parsed) == Err::<Verdict<Double>, Stop>(
                halt@,
            ),
        },
{
    match parsed {
        Some(value) => {
            let hundred = Double::from_bits(HUNDRED_BITS);
            if value.is_finite() && Double::from_bits(0).le(value) && value.le(hundred) {
                let fraction = table.ask(Operation::Quotient(value, hundred))?;
                Ok(Entry::Taken(fraction))
            } else {
                Ok(Entry::Refused(String::from_str("Please enter a percentage between 0 and 100.")))
            }
        },
        None => Ok(Entry::Refused(String::from_str("Please enter a valid percentage."))),
    }
}

/// Whether every number of a list is finite.
pub open spec fn all_finite(numbers: Seq<Double>) -> bool {
    forall|i: int| 0 <= i < numbers.len() ==> (#[trigger] numbers[i]).is_finite()
}

/// What `judge_number_list` makes of an entry: every part must have been
/// read as a number, all must be finite, and there must be one at least.
pub open spec fn judged_list(parsed: Option<Seq<Double>>) -> Verdict<Seq<Double>> {
    match parsed {
        Some(numbers) => if !all_finite(numbers) {
            Verdict::Refused("All numbers must be finite."@)
        } else if numbers.len() == 0 {
            Verdict::Refused("Please enter at least one number."@)
        } else {
            Verdict::Taken(numbers)
        },
        None => Verdict::Refused("Please enter valid numbers separated by commas."@),
    }
}

/// A judged list as contracts see it.
pub open spec fn seen_list(entry: Entry<Vec<Double>>) -> Verdict<Seq<Double>> {
    match entry {
        Entry::Taken(numbers) => Verdict::Taken(numbers@),
        Entry::Refused(reply) => Verdict::Refused(reply@),
    }
}

/// What was read from an entry as contracts see it.
pub open spec fn read_list(parsed: Option<Vec<Double>>) -> Option<Seq<Double>> {
    match parsed {
        Some(numbers) => Some(numbers@),
        None => None,
    }
}

/// Judges an entry that should be a list of numbers: `parsed` holds the
/// numbers read from its parts, if every part could be read.
pub fn judge_number_list(parsed: Option<Vec<Double>>) -> (entry: Entry<Vec<Double>>)
    ensures
        seen_list(entry) == judged_list(read_list(parsed)),
{
    match parsed {
        Some(numbers) => {
            let mut i: usize = 0;
            while i < numbers.len()
                invariant
                    0 <= i <= numbers@.len(),
                    parsed == Some(numbers),
                    forall|k: int| 0 <= k < i ==> (#[trigger] numbers@[k]).is_finite(),
                decreases numbers@.len() - i,
            {
                if !numbers[i].is_finite() {
                    return Entry::Refused(String::from_str("All numbers must be finite."));
                }
                i += 1;
            }
            if numbers.len() == 0 {
                Entry::Refused(String::from_str("Please enter at least one number."))
            } else {
                Entry::Taken(numbers)
            }
        },
        None => Entry::Refused(
            String::from_str("Please enter valid numbers separated by commas."),
        ),
    }
}

} // verus!
