//! Why a calculation did not return a value.

use vstd::prelude::*;
use crate::double::Double;
use crate::operation::{Operation, Rendering};

verus! {

/// The four kinds of failure.
#[derive(Debug)]
pub enum FinanceError {
    /// An argument broke a precondition; the message names the field and,
    /// where one value is at fault, ends with that value.
    InvalidInput(String),
    /// A denominator was exactly zero.
    DivisionByZero,
    /// The result of an operation on finite operands was not finite.
    Overflow,
    /// An iterative method did not reach its target within its bound.
    ConvergenceFailed,
}

/// A `FinanceError` as contracts see it: the message as a sequence of
/// characters.
pub ghost enum Fault {
    InvalidInput(Seq<char>),
    DivisionByZero,
    Overflow,
    ConvergenceFailed,
}

impl View for FinanceError {
    type V = Fault;

    open spec fn view(&self) -> Fault {
        match self {
            FinanceError::InvalidInput(message) => Fault::InvalidInput(message@),
            FinanceError::DivisionByZero => Fault::DivisionByZero,
            FinanceError::Overflow => Fault::Overflow,
            FinanceError::ConvergenceFailed => Fault::ConvergenceFailed,
        }
    }
}

/// Why a calculation stopped short of a value: it failed, or the table it
/// was given lacks an answer that it needs next.
#[derive(Debug)]
pub enum Halt {
    /// The calculation failed; supplying more answers changes nothing.
    Failed(FinanceError),
    /// The result of this operation is needed and not in the table.
    Needs(Operation),
    /// This text of a double is needed and not in the table.
    NeedsText(Rendering),
}

/// A `Halt` as contracts see it.
pub ghost enum Stop {
    Failed(Fault),
    Needs(Operation),
    NeedsText(Rendering),
}

impl View for Halt {
    type V = Stop;

    open spec fn view(&self) -> Stop {
        match self {
            Halt::Failed(error) => Stop::Failed(error@),
            Halt::Needs(operation) => Stop::Needs(*operation),
            Halt::NeedsText(rendering) => Stop::NeedsText(*rendering),
        }
    }
}

/// A result as contracts see it: the value as it is, the halt by its view.
pub open spec fn seen<T>(result: Result<T, Halt>) -> Result<T, Stop> {
    match result {
        Ok(value) => Ok(value),
        Err(halt) => Err(halt@),
    }
}

/// The failure with the given message.
pub open spec fn invalid<T>(message: Seq<char>) -> Result<T, Stop> {
    Err(Stop::Failed(Fault::InvalidInput(message)))
}

/// The second result, unless the check failed: then the check's halt.
pub open spec fn after<T>(check: Result<(), Stop>, rest: Result<T, Stop>) -> Result<T, Stop> {
    match check {
        Ok(_) => rest,
        Err(stop) => Err(stop),
    }
}

/// The second step applied to the value of the first, unless the first
/// halted: then its halt.
pub open spec fn chain<A, B>(first: Result<A, Stop>, next: spec_fn(A) -> Result<B, Stop>)
    -> Result<B, Stop> {
    match first {
        Ok(value) => next(value),
        Err(stop) => Err(stop),
    }
}

/// Whether a result is final: a value or a failure, and no request for an
/// answer.
pub open spec fn settled<T>(result: Result<T, Stop>) -> bool {
    match result {
        Ok(_) => true,
        Err(Stop::Failed(_)) => true,
        Err(_) => false,
    }
}

/// Whether a result, where it is a request, asks for an answer that the
/// tables lack.
pub open spec fn asks_anew<T>(
    known: Map<Operation, Double>,
    shown: Map<Rendering, Seq<char>>,
    result: Result<T, Stop>,
) -> bool {
    match result {
        Err(Stop::Needs(operation)) => !known.contains_key(operation),
        Err(Stop::NeedsText(rendering)) => !shown.contains_key(rendering),
        _ => true,
    }
}

impl FinanceError {
    /// The heading under which the kind is reported, followed for
    /// `InvalidInput` by its message.
    pub open spec fn spec_describe(self) -> Seq<char> {
        match self {
            FinanceError::InvalidInput(message) => "Invalid input: "@ + message@,
            FinanceError::DivisionByZero => "Division by zero"@,
            FinanceError::Overflow => "Calculation overflow"@,
            FinanceError::ConvergenceFailed => "Convergence failed"@,
        }
    }

    /// The text that reports the error to a user.
    pub fn describe(&self) -> (text: String)
        ensures
            text@ == self.spec_describe(),
    {
        match self {
            FinanceError::InvalidInput(message) => {
                let heading = String::from_str("Invalid input: ");
                heading.concat(message.as_str())
            },
            FinanceError::DivisionByZero => String::from_str("Division by zero"),
            FinanceError::Overflow => String::from_str("Calculation overflow"),
            FinanceError::ConvergenceFailed => String::from_str("Convergence failed"),
        }
    }
}

/// The failure `InvalidInput` with the given message.
pub fn invalid_input<T>(message: &str) -> (r: Result<T, Halt>)
    ensures
        seen(r) == invalid::<T>(message@),
{
    Err(Halt::Failed(FinanceError::InvalidInput(String::from_str(message))))
}

} // verus!
