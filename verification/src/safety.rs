//! The numeric safety layer: validators of single inputs, and the guards
//! around products, quotients and powers.
//!
//! A guard checks its operands, asks the table for the raw result, and checks
//! that in turn, so that an overflow or a NaN becomes an error and is never
//! handed on.

use vstd::prelude::*;
use vstd::string::*;
use crate::arithmetic::{Arithmetic, answer, wording};
use crate::double::Double;
use crate::error::{FinanceError, Fault, Halt, Stop, after, seen, asks_anew, settled, invalid};
use crate::operation::{Operation, Rendering};

verus! {

/// The encoding of `1e15`, the largest magnitude that an amount may have:
/// chained products of amounts within it stay far from overflow.
pub const MAX_SAFE_MAGNITUDE_BITS: u64 = 0x430c_6bf5_2634_0000;

/// The encoding of `100.0`, the largest magnitude that an exponent may have:
/// a cutoff of policy, well inside what the format could hold.
pub const MAX_EXPONENT_BITS: u64 = 0x4059_0000_0000_0000;

pub open spec fn max_safe_magnitude() -> Double {
    Double { bits: MAX_SAFE_MAGNITUDE_BITS }
}

pub open spec fn max_exponent() -> Double {
    Double { bits: MAX_EXPONENT_BITS }
}

/// The rejection of a value: the failure whose message is the complaint
/// followed by the value's text, once the table holds that text.
pub open spec fn rejected<T>(shown: Map<Rendering, Seq<char>>, complaint: Seq<char>, value: Double)
    -> Result<T, Stop> {
    match wording(shown, Rendering::Shortest(value)) {
        Ok(text) => invalid(complaint + text),
        Err(stop) => Err(stop),
    }
}

/// The complaint about a named field.
pub fn complaint_of(name: &str, fault: &str) -> (text: String)
    ensures
        text@ == name@ + fault@,
{
    String::from_str(name).concat(fault)
}

/// Rejects a value: `InvalidInput` with the complaint and the value's text,
/// or the halt that asks for the text.
pub fn reject<T>(table: &Arithmetic, complaint: String, value: Double) -> (r: Result<T, Halt>)
    ensures
        seen(r) == rejected::<T>(table.shown(), complaint@, value),
{
    match table.ask_text(Rendering::Shortest(value)) {
        Ok(text) => {
            let message = complaint.concat(text.as_str());
            Err(Halt::Failed(FinanceError::InvalidInput(message)))
        },
        Err(halt) => Err(halt),
    }
}

/// What `validate_finite` returns.
pub open spec fn validated_finite(shown: Map<Rendering, Seq<char>>, value: Double, name: Seq<char>)
    -> Result<(), Stop> {
    if !value.is_finite() {
        rejected(shown, name + " must be a valid number: "@, value)
    } else {
        Ok(())
    }
}

/// Fails unless the value is finite.
pub fn validate_finite(table: &Arithmetic, value: Double, name: &str) -> (r: Result<(), Halt>)
    ensures
        seen(r) == validated_finite(table.shown(), value, name@),
{
    if !value.is_finite() {
        return reject(table, complaint_of(name, " must be a valid number: "), value);
    }
    Ok(())
}

/// What `validate_positive` returns.
pub open spec fn validated_positive(
    shown: Map<Rendering, Seq<char>>,
    value: Double,
    name: Seq<char>,
)
    -> Result<(), Stop> {
    if !value.is_finite() {
        rejected(shown, name + " must be a valid number: "@, value)
    } else if value.le(Double::zero()) {
        rejected(shown, name + " must be positive: "@, value)
    } else {
        Ok(())
    }
}

/// Fails unless the value is finite and above zero.
pub fn validate_positive(table: &Arithmetic, value: Double, name: &str) -> (r: Result<(), Halt>)
    ensures
        seen(r) == validated_positive(table.shown(), value, name@),
{
    if !value.is_finite() {
        return reject(table, complaint_of(name, " must be a valid number: "), value);
    }
    if value.le(Double::from_bits(0)) {
        return reject(table, complaint_of(name, " must be positive: "), value);
    }
    Ok(())
}

/// What `validate_non_negative` returns.
pub open spec fn validated_non_negative(
    shown: Map<Rendering, Seq<char>>,
    value: Double,
    name: Seq<char>,
) -> Result<(), Stop> {
    if !value.is_finite() {
        rejected(shown, name + " must be a valid number: "@, value)
    } else if value.lt(Double::zero()) {
        rejected(shown, name + " must be non-negative: "@, value)
    } else {
        Ok(())
    }
}

/// Fails unless the value is finite and not below zero.
pub fn validate_non_negative(table: &Arithmetic, value: Double, name: &str) -> (r: Result<
    (),
    Halt,
>)
    ensures
        seen(r) == validated_non_negative(table.shown(), value, name@),
{
    if !value.is_finite() {
        return reject(table, complaint_of(name, " must be a valid number: "), value);
    }
    if value.lt(Double::from_bits(0)) {
        return reject(table, complaint_of(name, " must be non-negative: "), value);
    }
    Ok(())
}

/// What `validate_calculation_range` returns.
pub open spec fn validated_range(shown: Map<Rendering, Seq<char>>, value: Double, name: Seq<char>)
    -> Result<(), Stop> {
    if !value.is_finite() {
        rejected(shown, name + " must be a valid number: "@, value)
    } else if max_safe_magnitude().lt(value.abs()) {
        rejected(shown, name + " value too large for safe calculation: "@, value)
    } else {
        Ok(())
    }
}

/// Fails unless the value is finite and its magnitude is at most `1e15`.
pub fn validate_calculation_range(table: &Arithmetic, value: Double, name: &str) -> (r: Result<
    (),
    Halt,
>)
    ensures
        seen(r) == validated_range(table.shown(), value, name@),
{
    validate_finite(table, value, name)?;
    if Double::from_bits(MAX_SAFE_MAGNITUDE_BITS).lt(value.abs()) {
        return reject(
            table,
            complaint_of(name, " value too large for safe calculation: "),
            value,
        );
    }
    Ok(())
}

/// A raw result as a guard hands it on: the failure `Overflow` unless it is
/// finite.
pub open spec fn finite_or_overflow(raw: Double) -> Result<Double, Stop> {
    if raw.is_finite() {
        Ok(raw)
    } else {
        Err(Stop::Failed(Fault::Overflow))
    }
}

/// A raw result once the table has it, guarded against overflow.
pub open spec fn guarded(known: Map<Operation, Double>, operation: Operation) -> Result<
    Double,
    Stop,
> {
    match answer(known, operation) {
        Ok(raw) => finite_or_overflow(raw),
        Err(stop) => Err(stop),
    }
}

/// The raw result of an operation, from the table, unless it is not finite.
pub fn guard(table: &Arithmetic, operation: Operation) -> (r: Result<Double, Halt>)
    ensures
        seen(r) == guarded(table.known(), operation),
{
    let raw = table.ask(operation)?;
    if !raw.is_finite() {
        return Err(Halt::Failed(FinanceError::Overflow));
    }
    Ok(raw)
}

/// What `safe_multiply` returns.
pub open spec fn safe_product(
    known: Map<Operation, Double>,
    shown: Map<Rendering, Seq<char>>,
    a: Double,
    b: Double,
) -> Result<Double, Stop> {
    after(
        validated_finite(shown, a, "first operand"@),
        after(
            validated_finite(shown, b, "second operand"@),
            guarded(known, Operation::Product(a, b)),
        ),
    )
}

/// The product of two finite doubles, unless it overflows.
pub fn safe_multiply(table: &Arithmetic, a: Double, b: Double) -> (r: Result<Double, Halt>)
    ensures
        seen(r) == safe_product(table.known(), table.shown(), a, b),
{
    validate_finite(table, a, "first operand")?;
    validate_finite(table, b, "second operand")?;
    guard(table, Operation::Product(a, b))
}

/// What `safe_divide` returns.
pub open spec fn safe_quotient(
    known: Map<Operation, Double>,
    shown: Map<Rendering, Seq<char>>,
    a: Double,
    b: Double,
) -> Result<Double, Stop> {
    after(
        validated_finite(shown, a, "dividend"@),
        after(
            validated_finite(shown, b, "divisor"@),
            if b.is_zero() {
                Err(Stop::Failed(Fault::DivisionByZero))
            } else {
                guarded(known, Operation::Quotient(a, b))
            },
        ),
    )
}

/// The quotient of two finite doubles, unless the divisor is zero or the
/// quotient overflows.
pub fn safe_divide(table: &Arithmetic, a: Double, b: Double) -> (r: Result<Double, Halt>)
    ensures
        seen(r) == safe_quotient(table.known(), table.shown(), a, b),
{
    validate_finite(table, a, "dividend")?;
    validate_finite(table, b, "divisor")?;
    if b.is_zero() {
        return Err(Halt::Failed(FinanceError::DivisionByZero));
    }
    guard(table, Operation::Quotient(a, b))
}

/// Dividing a finite double by zero fails with `DivisionByZero`, whatever
/// the table holds.
pub proof fn lemma_division_by_zero_fails(
    known: Map<Operation, Double>,
    shown: Map<Rendering, Seq<char>>,
    a: Double,
    b: Double,
)
    requires
        a.is_finite(),
        b.is_zero(),
    ensures
        safe_quotient(known, shown, a, b) == Err::<Double, Stop>(
            Stop::Failed(Fault::DivisionByZero),
        ),
{
}

/// What `safe_power` returns.
pub open spec fn safe_raised(
    known: Map<Operation, Double>,
    shown: Map<Rendering, Seq<char>>,
    base: Double,
    exponent: Double,
) -> Result<Double, Stop> {
    after(
        validated_finite(shown, base, "base"@),
        after(
            validated_finite(shown, exponent, "exponent"@),
            if max_exponent().lt(exponent.abs()) {
                rejected(shown, "Exponent too large for safe calculation: "@, exponent)
            } else {
                guarded(known, Operation::Power(base, exponent))
            },
        ),
    )
}

/// A finite base raised to a finite exponent of magnitude at most 100,
/// unless the power overflows.
pub fn safe_power(table: &Arithmetic, base: Double, exponent: Double) -> (r: Result<Double, Halt>)
    ensures
        seen(r) == safe_raised(table.known(), table.shown(), base, exponent),
{
    validate_finite(table, base, "base")?;
    validate_finite(table, exponent, "exponent")?;
    if Double::from_bits(MAX_EXPONENT_BITS).lt(exponent.abs()) {
        return reject(
            table,
            String::from_str("Exponent too large for safe calculation: "),
            exponent,
        );
    }
    guard(table, Operation::Power(base, exponent))
}

/// An exponent whose magnitude is above the cutoff is refused: the power
/// is never computed, whatever the table holds.
pub proof fn lemma_large_exponent_is_refused(
    known: Map<Operation, Double>,
    shown: Map<Rendering, Seq<char>>,
    base: Double,
    exponent: Double,
)
    requires
        base.is_finite(),
        exponent.is_finite(),
        max_exponent().lt(exponent.abs()),
    ensures
        safe_raised(known, shown, base, exponent) == rejected::<Double>(
            shown,
            "Exponent too large for safe calculation: "@,
            exponent,
        ),
        !(safe_raised(known, shown, base, exponent) is Ok),
{
}

/// What a guard returns is finite; and where both operands are finite and
/// the table has the raw result, a guard returns that result or fails with
/// `Overflow`, as the result is finite or not.
pub proof fn lemma_guards_return_finite(
    known: Map<Operation, Double>,
    shown: Map<Rendering, Seq<char>>,
    a: Double,
    b: Double,
)
    ensures
        safe_product(known, shown, a, b) is Ok ==> safe_product(known, shown, a, b)->Ok_0.is_finite(),
        safe_quotient(known, shown, a, b) is Ok ==> safe_quotient(
            known,
            shown,
            a,
            b,
        )->Ok_0.is_finite(),
        safe_raised(known, shown, a, b) is Ok ==> safe_raised(known, shown, a, b)->Ok_0.is_finite(),
        a.is_finite() && b.is_finite() && known.contains_key(Operation::Product(a, b))
            ==> safe_product(known, shown, a, b) == finite_or_overflow(
            known[Operation::Product(a, b)],
        ),
        a.is_finite() && b.is_finite() && !b.is_zero() && known.contains_key(
            Operation::Quotient(a, b),
        ) ==> safe_quotient(known, shown, a, b) == finite_or_overflow(
            known[Operation::Quotient(a, b)],
        ),
{
}

/// What a validator or a guard has settled stays settled: on a table
/// that holds more it returns the same; and what it asks for, the table
/// lacks.
pub proof fn lemma_safety_settles(
    fewer: Map<Operation, Double>,
    more: Map<Operation, Double>,
    fewer_texts: Map<Rendering, Seq<char>>,
    more_texts: Map<Rendering, Seq<char>>,
    a: Double,
    b: Double,
    name: Seq<char>,
)
    requires
        fewer.submap_of(more),
        fewer_texts.submap_of(more_texts),
    ensures
        settled(validated_finite(fewer_texts, a, name))
            ==> validated_finite(more_texts, a, name)
            == validated_finite(fewer_texts, a, name),
        asks_anew(fewer, fewer_texts, validated_finite(fewer_texts, a, name)),
        settled(validated_positive(fewer_texts, a, name))
            ==> validated_positive(more_texts, a, name)
            == validated_positive(fewer_texts, a, name),
        asks_anew(fewer, fewer_texts, validated_positive(fewer_texts, a, name)),
        settled(validated_non_negative(fewer_texts, a, name))
            ==> validated_non_negative(more_texts, a, name)
            == validated_non_negative(fewer_texts, a, name),
        asks_anew(fewer, fewer_texts, validated_non_negative(fewer_texts, a, name)),
        settled(validated_range(fewer_texts, a, name))
            ==> validated_range(more_texts, a, name)
            == validated_range(fewer_texts, a, name),
        asks_anew(fewer, fewer_texts, validated_range(fewer_texts, a, name)),
        settled(safe_product(fewer, fewer_texts, a, b))
            ==> safe_product(more, more_texts, a, b)
            == safe_product(fewer, fewer_texts, a, b),
        asks_anew(fewer, fewer_texts, safe_product(fewer, fewer_texts, a, b)),
        settled(safe_quotient(fewer, fewer_texts, a, b))
            ==> safe_quotient(more, more_texts, a, b)
            == safe_quotient(fewer, fewer_texts, a, b),
        asks_anew(fewer, fewer_texts, safe_quotient(fewer, fewer_texts, a, b)),
        settled(safe_raised(fewer, fewer_texts, a, b))
            ==> safe_raised(more, more_texts, a, b)
            == safe_raised(fewer, fewer_texts, a, b),
        asks_anew(fewer, fewer_texts, safe_raised(fewer, fewer_texts, a, b)),
{
}

} // verus!
