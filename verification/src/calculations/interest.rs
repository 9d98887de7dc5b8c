//! Interest and the time value of money: simple and compound interest,
//! present value and future value.

use vstd::prelude::*;
use crate::arithmetic::{Arithmetic, answer, counted};
use crate::double::{Double, HUNDRED_BITS, ONE_BITS, lemma_count_above_hundred,
    lemma_count_is_finite};
use crate::error::{Fault, Halt, Stop, after, asks_anew, chain, invalid, invalid_input, seen,
    settled};
use crate::operation::{Operation, Rendering};
use crate::safety::{guarded, max_safe_magnitude, safe_divide, safe_multiply,
    safe_power, safe_product, safe_quotient, safe_raised, validate_calculation_range,
    validate_non_negative, validate_positive, validated_non_negative, validated_positive,
    validated_range};

verus! {

/// The checks of an amount, a rate and a time: a positive amount within
/// the safe range, and a rate and a time that are not negative.
pub open spec fn validated_terms(
    shown: Map<Rendering, Seq<char>>,
    amount: Double,
    amount_name: Seq<char>,
    rate: Double,
    rate_name: Seq<char>,
    time: Double,
) -> Result<(), Stop> {
    after(
        validated_positive(shown, amount, amount_name),
        after(
            validated_non_negative(shown, rate, rate_name),
            after(
                validated_non_negative(shown, time, "Time"@),
                validated_range(shown, amount, amount_name),
            ),
        ),
    )
}

/// The checks of an amount, a rate and a time.
fn validate_terms(
    table: &Arithmetic,
    amount: Double,
    amount_name: &str,
    rate: Double,
    rate_name: &str,
    time: Double,
) -> (r: Result<(), Halt>)
    ensures
        seen(r) == validated_terms(table.shown(), amount, amount_name@, rate, rate_name@, time),
{
    validate_positive(table, amount, amount_name)?;
    validate_non_negative(table, rate, rate_name)?;
    validate_non_negative(table, time, "Time")?;
    validate_calculation_range(table, amount, amount_name)
}

/// What `calculate_simple_interest` returns: `P·r·t`, as two guarded
/// products.
pub open spec fn simple_interest(
    known: Map<Operation, Double>,
    shown: Map<Rendering, Seq<char>>,
    principal: Double,
    rate: Double,
    time: Double,
) -> Result<Double, Stop> {
    after(
        validated_terms(shown, principal, "Principal"@, rate, "Interest rate"@, time),
        chain(
            safe_product(known, shown, principal, rate),
            |yearly: Double| safe_product(known, shown, yearly, time),
        ),
    )
}

/// Simple interest: principal times rate times time.
pub fn calculate_simple_interest(table: &Arithmetic, principal: Double, rate: Double, time: Double)
    -> (r: Result<Double, Halt>)
    ensures
        seen(r) == simple_interest(table.known(), table.shown(), principal, rate, time),
{
    validate_terms(table, principal, "Principal", rate, "Interest rate", time)?;
    let yearly = safe_multiply(table, principal, rate)?;
    safe_multiply(table, yearly, time)
}

/// An amount, a rate and a time that pass every check: all finite, the
/// amount above zero and within the safe range, the rate and the time not
/// below zero.
pub open spec fn sound_terms(amount: Double, rate: Double, time: Double) -> bool {
    &&& amount.is_finite() && Double::zero().lt(amount) && amount.abs().le(max_safe_magnitude())
    &&& rate.is_finite() && Double::zero().le(rate)
    &&& time.is_finite() && Double::zero().le(time)
}

/// For a positive principal within range, and a rate and a time that are
/// not negative, simple interest is the product of principal, rate and
/// time: the arithmetic unit's product of principal and rate, multiplied by
/// the time, each product guarded against overflow.  No such input is
/// refused.
pub proof fn lemma_simple_interest_is_product(
    known: Map<Operation, Double>,
    shown: Map<Rendering, Seq<char>>,
    principal: Double,
    rate: Double,
    time: Double,
)
    requires
        sound_terms(principal, rate, time),
    ensures
        simple_interest(known, shown, principal, rate, time) == chain(
            guarded(known, Operation::Product(principal, rate)),
            |yearly: Double| guarded(known, Operation::Product(yearly, time)),
        ),
        known.contains_key(Operation::Product(principal, rate)) && known.contains_key(
            Operation::Product(known[Operation::Product(principal, rate)], time),
        ) && known[Operation::Product(principal, rate)].is_finite() && known[Operation::Product(
            known[Operation::Product(principal, rate)],
            time,
        )].is_finite() ==> simple_interest(known, shown, principal, rate, time) == Ok::<
            Double,
            Stop,
        >(known[Operation::Product(known[Operation::Product(principal, rate)], time)]),
{
}

/// A rate as a fraction: a rate above one is taken to be in percent, and
/// divided by a hundred.
pub open spec fn fraction_of_rate(known: Map<Operation, Double>, rate: Double) -> Result<
    Double,
    Stop,
> {
    if Double::one().lt(rate) {
        answer(known, Operation::Quotient(rate, Double::hundred()))
    } else {
        Ok(rate)
    }
}

/// A rate as a fraction, whether it was entered as a fraction or in
/// percent.
pub fn rate_as_fraction(table: &Arithmetic, rate: Double) -> (r: Result<Double, Halt>)
    ensures
        seen(r) == fraction_of_rate(table.known(), rate),
{
    if Double::from_bits(ONE_BITS).lt(rate) {
        table.ask(Operation::Quotient(rate, Double::from_bits(HUNDRED_BITS)))
    } else {
        Ok(rate)
    }
}

/// The checks of compounding: a positive principal within the safe range,
/// a rate that is not negative, a positive frequency, and years that are
/// not negative.
pub open spec fn validated_compounding(
    shown: Map<Rendering, Seq<char>>,
    principal: Double,
    rate: Double,
    compound_frequency: i32,
    years: i32,
) -> Result<(), Stop> {
    after(
        validated_positive(shown, principal, "Principal"@),
        after(
            validated_non_negative(shown, rate, "Interest rate"@),
            after(
                validated_range(shown, principal, "Principal"@),
                if compound_frequency <= 0 {
                    invalid("Compound frequency must be positive"@)
                } else if years < 0 {
                    invalid("Years must be non-negative"@)
                } else {
                    Ok(())
                },
            ),
        ),
    )
}

/// The checks of the inputs of compound interest.
pub fn validate_compounding(
    table: &Arithmetic,
    principal: Double,
    rate: Double,
    compound_frequency: i32,
    years: i32,
) -> (r: Result<(), Halt>)
    ensures
        seen(r) == validated_compounding(
            table.shown(),
            principal,
            rate,
            compound_frequency,
            years,
        ),
{
    validate_positive(table, principal, "Principal")?;
    validate_non_negative(table, rate, "Interest rate")?;
    validate_calculation_range(table, principal, "Principal")?;
    if compound_frequency <= 0 {
        return invalid_input("Compound frequency must be positive");
    }
    if years < 0 {
        return invalid_input("Years must be non-negative");
    }
    Ok(())
}

/// The amount `P·(1 + r/n)^(n·t)`, the power and the product guarded.
pub open spec fn compounded(
    known: Map<Operation, Double>,
    shown: Map<Rendering, Seq<char>>,
    principal: Double,
    rate: Double,
    compound_frequency: i32,
    years: i32,
) -> Result<Double, Stop> {
    chain(
        counted(compound_frequency as u64),
        |frequency: Double|
            chain(
                answer(known, Operation::Quotient(rate, frequency)),
                |rate_per_period: Double|
                    chain(
                        answer(known, Operation::Sum(Double::one(), rate_per_period)),
                        |base: Double|
                            chain(
                                counted((compound_frequency * years) as u64),
                                |periods: Double|
                                    chain(
                                        safe_raised(known, shown, base, periods),
                                        |growth: Double|
                                            safe_product(known, shown, principal, growth),
                                    ),
                            ),
                    ),
            ),
    )
}

/// What `calculate_compound_interest` returns.
pub open spec fn compound_interest(
    known: Map<Operation, Double>,
    shown: Map<Rendering, Seq<char>>,
    principal: Double,
    rate: Double,
    compound_frequency: i32,
    years: i32,
) -> Result<Double, Stop> {
    after(
        validated_compounding(shown, principal, rate, compound_frequency, years),
        compounded(known, shown, principal, rate, compound_frequency, years),
    )
}

/// The amount to which a principal grows when interest is compounded a
/// number of times a year, over whole years.
pub fn calculate_compound_interest(
    table: &Arithmetic,
    principal: Double,
    rate: Double,
    compound_frequency: i32,
    years: i32,
) -> (r: Result<Double, Halt>)
    ensures
        seen(r) == compound_interest(
            table.known(),
            table.shown(),
            principal,
            rate,
            compound_frequency,
            years,
        ),
{
    validate_compounding(table, principal, rate, compound_frequency, years)?;
    let frequency = Double::from_count(compound_frequency as u64);
    let rate_per_period = table.ask(Operation::Quotient(rate, frequency))?;
    assert(0 <= compound_frequency * years <= 0x4000_0000_0000_0000) by (nonlinear_arith)
        requires
            0 < compound_frequency <= 0x7fff_ffff,
            0 <= years <= 0x7fff_ffff,
    ;
    let total_periods: u64 = (compound_frequency as u64) * (years as u64);
    let base = table.ask(Operation::Sum(Double::from_bits(ONE_BITS), rate_per_period))?;
    let periods = Double::from_count(total_periods);
    let growth = safe_power(table, base, periods)?;
    safe_multiply(table, principal, growth)
}

/// Whether a result is a refusal of the input, or still a request for an
/// answer: no value, and no failure of another kind.
pub open spec fn refused_or_asking<T>(result: Result<T, Stop>) -> bool {
    match result {
        Err(Stop::Failed(Fault::InvalidInput(_))) => true,
        Err(Stop::Needs(_)) => true,
        Err(Stop::NeedsText(_)) => true,
        _ => false,
    }
}

/// Compound interest is refused for a frequency that is not positive and
/// for years below zero, whatever the table holds.  For more than a hundred
/// periods it is never computed, however large the product of frequency and
/// years: the result is a request for an answer or `InvalidInput`.
pub proof fn lemma_compound_interest_refusals(
    known: Map<Operation, Double>,
    shown: Map<Rendering, Seq<char>>,
    principal: Double,
    rate: Double,
    compound_frequency: i32,
    years: i32,
)
    requires
        principal.is_finite() && Double::zero().lt(principal) && principal.abs().le(
            max_safe_magnitude(),
        ),
        rate.is_finite() && Double::zero().le(rate),
    ensures
        ({
            let result = compound_interest(
                known,
                shown,
                principal,
                rate,
                compound_frequency,
                years,
            );
            &&& compound_frequency <= 0 ==> result == invalid::<Double>(
                "Compound frequency must be positive"@,
            )
            &&& compound_frequency > 0 && years < 0 ==> result == invalid::<Double>(
                "Years must be non-negative"@,
            )
            &&& compound_frequency > 0 && years >= 0 && compound_frequency * years > 100
                ==> refused_or_asking(result)
        }),
{
    if compound_frequency > 0 && years >= 0 && compound_frequency * years > 100 {
        assert(compound_frequency * years <= 0x4000_0000_0000_0000) by (nonlinear_arith)
            requires
                0 < compound_frequency <= 0x7fff_ffff,
                0 <= years <= 0x7fff_ffff,
        ;
        let periods = (compound_frequency * years) as u64;
        lemma_count_above_hundred(periods);
        lemma_count_is_finite(periods);
        assert(Double::from_count(periods).abs() == Double::from_count(periods));
    }
}

/// The growth `(1+r)^t` of one unit at a rate over a time, guarded.
pub open spec fn growth(
    known: Map<Operation, Double>,
    shown: Map<Rendering, Seq<char>>,
    rate: Double,
    time: Double,
) -> Result<Double, Stop> {
    chain(
        answer(known, Operation::Sum(Double::one(), rate)),
        |base: Double| safe_raised(known, shown, base, time),
    )
}

/// The growth of one unit at a rate over a time.
fn growth_of(table: &Arithmetic, rate: Double, time: Double) -> (r: Result<Double, Halt>)
    ensures
        seen(r) == growth(table.known(), table.shown(), rate, time),
{
    let base = table.ask(Operation::Sum(Double::from_bits(ONE_BITS), rate))?;
    safe_power(table, base, time)
}

/// What `calculate_present_value` returns: `FV / (1+r)^t`, at a rate below
/// one.
pub open spec fn present_value(
    known: Map<Operation, Double>,
    shown: Map<Rendering, Seq<char>>,
    future_value: Double,
    rate: Double,
    time: Double,
) -> Result<Double, Stop> {
    after(
        validated_terms(shown, future_value, "Future value"@, rate, "Discount rate"@, time),
        if Double::one().le(rate) {
            invalid("Discount rate should be less than 100%"@)
        } else {
            chain(
                growth(known, shown, rate, time),
                |factor: Double| safe_quotient(known, shown, future_value, factor),
            )
        },
    )
}

/// What a future amount is worth today.
pub fn calculate_present_value(table: &Arithmetic, future_value: Double, rate: Double, time: Double)
    -> (r: Result<Double, Halt>)
    ensures
        seen(r) == present_value(table.known(), table.shown(), future_value, rate, time),
{
    validate_terms(table, future_value, "Future value", rate, "Discount rate", time)?;
    if Double::from_bits(ONE_BITS).le(rate) {
        return invalid_input("Discount rate should be less than 100%");
    }
    let factor = growth_of(table, rate, time)?;
    safe_divide(table, future_value, factor)
}

/// What `calculate_future_value` returns: `PV·(1+r)^t`.
pub open spec fn future_value(
    known: Map<Operation, Double>,
    shown: Map<Rendering, Seq<char>>,
    present_value: Double,
    rate: Double,
    time: Double,
) -> Result<Double, Stop> {
    after(
        validated_terms(shown, present_value, "Present value"@, rate, "Interest rate"@, time),
        chain(
            growth(known, shown, rate, time),
            |factor: Double| safe_product(known, shown, present_value, factor),
        ),
    )
}

/// What an amount of today is worth after a time.
pub fn calculate_future_value(table: &Arithmetic, present_value: Double, rate: Double, time: Double)
    -> (r: Result<Double, Halt>)
    ensures
        seen(r) == future_value(table.known(), table.shown(), present_value, rate, time),
{
    validate_terms(table, present_value, "Present value", rate, "Interest rate", time)?;
    let factor = growth_of(table, rate, time)?;
    safe_multiply(table, present_value, factor)
}

/// What a calculation of interest has settled stays settled: on a table
/// that holds more it returns the same; and what it asks for, the table
/// lacks.
pub proof fn lemma_interest_settles(
    fewer: Map<Operation, Double>,
    more: Map<Operation, Double>,
    fewer_texts: Map<Rendering, Seq<char>>,
    more_texts: Map<Rendering, Seq<char>>,
    amount: Double,
    rate: Double,
    time: Double,
    compound_frequency: i32,
    years: i32,
)
    requires
        fewer.submap_of(more),
        fewer_texts.submap_of(more_texts),
    ensures
        settled(simple_interest(fewer, fewer_texts, amount, rate, time))
            ==> simple_interest(more, more_texts, amount, rate, time)
            == simple_interest(fewer, fewer_texts, amount, rate, time),
        asks_anew(fewer, fewer_texts, simple_interest(fewer, fewer_texts, amount, rate, time)),
        settled(compound_interest(fewer, fewer_texts, amount, rate, compound_frequency, years))
            ==> compound_interest(more, more_texts, amount, rate, compound_frequency, years)
            == compound_interest(fewer, fewer_texts, amount, rate, compound_frequency, years),
        asks_anew(
            fewer,
            fewer_texts,
            compound_interest(fewer, fewer_texts, amount, rate, compound_frequency, years),
        ),
        settled(present_value(fewer, fewer_texts, amount, rate, time))
            ==> present_value(more, more_texts, amount, rate, time)
            == present_value(fewer, fewer_texts, amount, rate, time),
        asks_anew(fewer, fewer_texts, present_value(fewer, fewer_texts, amount, rate, time)),
        settled(future_value(fewer, fewer_texts, amount, rate, time))
            ==> future_value(more, more_texts, amount, rate, time)
            == future_value(fewer, fewer_texts, amount, rate, time),
        asks_anew(fewer, fewer_texts, future_value(fewer, fewer_texts, amount, rate, time)),
        settled(fraction_of_rate(fewer, rate))
            ==> fraction_of_rate(more, rate)
            == fraction_of_rate(fewer, rate),
        asks_anew(fewer, fewer_texts, fraction_of_rate(fewer, rate)),
{
}

} // verus!
