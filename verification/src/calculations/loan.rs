//! Loans: the monthly payment, the amortization schedule, the details of a
//! mortgage, and break-even analysis.

use vstd::prelude::*;
use crate::arithmetic::{Arithmetic, answer, counted};
use crate::calendar::{Date, months_later, payoff_date};
use crate::double::{Double, HUNDRED_BITS, ONE_BITS, TWELVE_BITS};
use crate::error::{Halt, Stop, after, chain, seen, asks_anew, settled, invalid, invalid_input};
use crate::operation::{Operation, Rendering};
use crate::safety::{validate_non_negative, validate_positive, validated_non_negative,
    validated_positive};

verus! {

/// The longest term in years whose number of months is still an `i32`.
pub const MAX_TERM_YEARS: i32 = 178_956_970;

/// One payment of an amortization schedule.
#[derive(Clone, Copy, Debug, PartialEq, Eq, Structural)]
pub struct AmortizationPayment {
    /// the number of the payment, from 1
    pub month: u32,
    /// the part of the payment that repays the loan
    pub principal_payment: Double,
    /// the part of the payment that is interest
    pub interest_payment: Double,
    /// what is owed after the payment
    pub remaining_balance: Double,
}

/// A result that holds a vector as contracts see it: the vector by its
/// view, the halt by its view.
pub open spec fn seen_all<T>(result: Result<Vec<T>, Halt>) -> Result<Seq<T>, Stop> {
    match result {
        Ok(values) => Ok(values@),
        Err(halt) => Err(halt@),
    }
}

/// The monthly rate: the annual rate in percent, divided by 100 and by 12.
pub open spec fn monthly_rate(known: Map<Operation, Double>, annual: Double) -> Result<
    Double,
    Stop,
> {
    chain(
        answer(known, Operation::Quotient(annual, Double::hundred())),
        |fraction: Double| answer(known, Operation::Quotient(fraction, Double::twelve())),
    )
}

/// The payment `P·r / (1 − (1+r)^(−n))` of a loan `P` at the monthly rate
/// `r` over `n` months; at the rate zero, `P / n`.
pub open spec fn level_payment(
    known: Map<Operation, Double>,
    principal: Double,
    rate: Double,
    months: Double,
) -> Result<Double, Stop> {
    if rate.is_zero() {
        answer(known, Operation::Quotient(principal, months))
    } else {
        chain(
            answer(known, Operation::Product(principal, rate)),
            |interest: Double|
                chain(
                    answer(known, Operation::Sum(Double::one(), rate)),
                    |growth: Double|
                        chain(
                            answer(known, Operation::Power(growth, months.negated())),
                            |discount: Double|
                                chain(
                                    answer(known, Operation::Difference(Double::one(), discount)),
                                    |share: Double|
                                        answer(known, Operation::Quotient(interest, share)),
                                ),
                        ),
                ),
        )
    }
}

/// What `calculate_loan_payment` returns.
pub open spec fn loan_payment(
    known: Map<Operation, Double>,
    shown: Map<Rendering, Seq<char>>,
    principal: Double,
    annual: Double,
    years: Double,
) -> Result<Double, Stop> {
    after(
        validated_positive(shown, principal, "Principal"@),
        after(
            validated_non_negative(shown, annual, "Annual interest rate"@),
            after(
                validated_positive(shown, years, "Loan term"@),
                chain(
                    monthly_rate(known, annual),
                    |rate: Double|
                        chain(
                            answer(known, Operation::Product(years, Double::twelve())),
                            |months: Double| level_payment(known, principal, rate, months),
                        ),
                ),
            ),
        ),
    )
}

/// The monthly rate of an annual rate in percent.
pub fn monthly_rate_of(table: &Arithmetic, annual: Double) -> (r: Result<Double, Halt>)
    ensures
        seen(r) == monthly_rate(table.known(), annual),
{
    let fraction = table.ask(Operation::Quotient(annual, Double::from_bits(HUNDRED_BITS)))?;
    table.ask(Operation::Quotient(fraction, Double::from_bits(TWELVE_BITS)))
}

/// The level payment of a loan at a monthly rate over a number of months.
pub fn level_payment_of(table: &Arithmetic, principal: Double, rate: Double, months: Double) -> (r:
    Result<Double, Halt>)
    ensures
        seen(r) == level_payment(table.known(), principal, rate, months),
{
    if rate.is_zero() {
        return table.ask(Operation::Quotient(principal, months));
    }
    let one = Double::from_bits(ONE_BITS);
    let interest = table.ask(Operation::Product(principal, rate))?;
    let growth = table.ask(Operation::Sum(one, rate))?;
    let discount = table.ask(Operation::Power(growth, months.negated()))?;
    let share = table.ask(Operation::Difference(one, discount))?;
    table.ask(Operation::Quotient(interest, share))
}

/// The monthly payment of a loan, from its amount, its annual rate in
/// percent and its term in years.
pub fn calculate_loan_payment(
    table: &Arithmetic,
    principal: Double,
    annual_interest_rate: Double,
    loan_term_years: Double,
) -> (r: Result<Double, Halt>)
    ensures
        seen(r) == loan_payment(
            table.known(),
            table.shown(),
            principal,
            annual_interest_rate,
            loan_term_years,
        ),
{
    validate_positive(table, principal, "Principal")?;
    validate_non_negative(table, annual_interest_rate, "Annual interest rate")?;
    validate_positive(table, loan_term_years, "Loan term")?;
    let rate = monthly_rate_of(table, annual_interest_rate)?;
    let months = table.ask(Operation::Product(loan_term_years, Double::from_bits(TWELVE_BITS)))?;
    level_payment_of(table, principal, rate, months)
}

/// The checks that a schedule and the details of a mortgage share.
pub open spec fn validated_loan(
    shown: Map<Rendering, Seq<char>>,
    amount: Double,
    annual: Double,
    term_years: i32,
) -> Result<(), Stop> {
    after(
        validated_positive(shown, amount, "Loan amount"@),
        after(
            validated_positive(shown, annual, "Annual interest rate"@),
            if term_years <= 0 {
                invalid("Term must be positive"@)
            } else {
                Ok(())
            },
        ),
    )
}

/// The payment of a loan whose term is a whole number of years.
pub open spec fn term_payment(
    known: Map<Operation, Double>,
    shown: Map<Rendering, Seq<char>>,
    amount: Double,
    annual: Double,
    term_years: i32,
) -> Result<Double, Stop> {
    chain(
        counted(term_years as u64),
        |years: Double| loan_payment(known, shown, amount, annual, years),
    )
}

/// The checks of an amount, an annual rate and a term in whole years.
pub fn validate_loan(table: &Arithmetic, amount: Double, annual: Double, term_years: i32) -> (r: Result<
    (),
    Halt,
>)
    ensures
        seen(r) == validated_loan(table.shown(), amount, annual, term_years),
{
    validate_positive(table, amount, "Loan amount")?;
    validate_positive(table, annual, "Annual interest rate")?;
    if term_years <= 0 {
        return invalid_input("Term must be positive");
    }
    Ok(())
}

/// The payment of a loan over a positive number of whole years.
fn term_payment_of(table: &Arithmetic, amount: Double, annual: Double, term_years: i32) -> (r:
    Result<Double, Halt>)
    requires
        term_years > 0,
    ensures
        seen(r) == term_payment(table.known(), table.shown(), amount, annual, term_years),
{
    let years = Double::from_count(term_years as u64);
    calculate_loan_payment(table, amount, annual, years)
}

/// The payment that follows a balance: the interest on the balance, what
/// is left of the level payment for the principal, and the balance less
/// that; the last payment leaves exactly zero.
pub open spec fn next_payment(
    known: Map<Operation, Double>,
    balance: Double,
    rate: Double,
    payment: Double,
    month: u32,
    last: bool,
) -> Result<AmortizationPayment, Stop> {
    chain(
        answer(known, Operation::Product(balance, rate)),
        |interest: Double|
            chain(
                answer(known, Operation::Difference(payment, interest)),
                |principal: Double|
                    chain(
                        answer(known, Operation::Difference(balance, principal)),
                        |rest: Double|
                            Ok(
                                AmortizationPayment {
                                    month,
                                    principal_payment: principal,
                                    interest_payment: interest,
                                    remaining_balance: if last {
                                        Double::zero()
                                    } else {
                                        rest
                                    },
                                },
                            ),
                    ),
            ),
    )
}

/// The first `n` payments of a schedule of `total` payments.
pub open spec fn payments(
    known: Map<Operation, Double>,
    amount: Double,
    rate: Double,
    payment: Double,
    total: nat,
    n: nat,
) -> Result<Seq<AmortizationPayment>, Stop>
    decreases n,
{
    if n == 0 {
        Ok(Seq::empty())
    } else {
        chain(
            payments(known, amount, rate, payment, total, (n - 1) as nat),
            |rows: Seq<AmortizationPayment>|
                chain(
                    next_payment(
                        known,
                        if n == 1 {
                            amount
                        } else {
                            rows.last().remaining_balance
                        },
                        rate,
                        payment,
                        n as u32,
                        n == total,
                    ),
                    |row: AmortizationPayment| Ok(rows.push(row)),
                ),
        )
    }
}

/// What `generate_amortization_schedule` returns.
pub open spec fn amortization_schedule(
    known: Map<Operation, Double>,
    shown: Map<Rendering, Seq<char>>,
    amount: Double,
    annual: Double,
    term_years: i32,
) -> Result<Seq<AmortizationPayment>, Stop> {
    after(
        validated_loan(shown, amount, annual, term_years),
        chain(
            term_payment(known, shown, amount, annual, term_years),
            |payment: Double|
                chain(
                    monthly_rate(known, annual),
                    |rate: Double|
                        payments(
                            known,
                            amount,
                            rate,
                            payment,
                            (term_years * 12) as nat,
                            (term_years * 12) as nat,
                        ),
                ),
        ),
    )
}

/// The payment that follows a balance.
pub fn next_payment_of(
    table: &Arithmetic,
    balance: Double,
    rate: Double,
    payment: Double,
    month: u32,
    last: bool,
) -> (r: Result<AmortizationPayment, Halt>)
    ensures
        seen(r) == next_payment(table.known(), balance, rate, payment, month, last),
{
    let interest = table.ask(Operation::Product(balance, rate))?;
    let principal = table.ask(Operation::Difference(payment, interest))?;
    let rest = table.ask(Operation::Difference(balance, principal))?;
    Ok(
        AmortizationPayment {
            month,
            principal_payment: principal,
            interest_payment: interest,
            remaining_balance: if last {
                Double::from_bits(0)
            } else {
                rest
            },
        },
    )
}

/// The whole schedule of a loan: one payment for each month of the term,
/// each from the balance that the one before left, the last leaving zero.
pub fn generate_amortization_schedule(
    table: &Arithmetic,
    loan_amount: Double,
    annual_interest_rate: Double,
    term_years: i32,
) -> (r: Result<Vec<AmortizationPayment>, Halt>)
    requires
        term_years <= MAX_TERM_YEARS,
    ensures
        seen_all(r) == amortization_schedule(
            table.known(),
            table.shown(),
            loan_amount,
            annual_interest_rate,
            term_years,
        ),
{
    validate_loan(table, loan_amount, annual_interest_rate, term_years)?;
    let payment = term_payment_of(table, loan_amount, annual_interest_rate, term_years)?;
    let rate = monthly_rate_of(table, annual_interest_rate)?;
    let total: u32 = (term_years * 12) as u32;
    let mut schedule: Vec<AmortizationPayment> = Vec::new();
    let mut balance = loan_amount;
    let mut month: u32 = 0;
    while month < total
        invariant
            0 <= month <= total,
            total == term_years * 12,
            validated_loan(table.shown(), loan_amount, annual_interest_rate, term_years) is Ok,
            term_payment(
                table.known(),
                table.shown(),
                loan_amount,
                annual_interest_rate,
                term_years,
            ) == Ok::<Double, Stop>(payment),
            monthly_rate(table.known(), annual_interest_rate) == Ok::<Double, Stop>(rate),
            payments(
                table.known(),
                loan_amount,
                rate,
                payment,
                total as nat,
                month as nat,
            ) == Ok::<Seq<AmortizationPayment>, Stop>(schedule@),
            balance == (if month == 0 {
                loan_amount
            } else {
                schedule@.last().remaining_balance
            }),
        decreases total - month,
    {
        month += 1;
        match next_payment_of(table, balance, rate, payment, month, month == total) {
            Ok(row) => {
                balance = row.remaining_balance;
                schedule.push(row);
            },
            Err(halt) => {
                proof {
                    lemma_payments_halt(
                        table.known(),
                        loan_amount,
                        rate,
                        payment,
                        total as nat,
                        (month - 1) as nat,
                        total as nat,
                    );
                }
                return Err(halt);
            },
        }
    }
    Ok(schedule)
}

/// A halt among the payments of a prefix is the halt of every longer
/// prefix.
proof fn lemma_payments_halt(
    known: Map<Operation, Double>,
    amount: Double,
    rate: Double,
    payment: Double,
    total: nat,
    at: nat,
    n: nat,
)
    requires
        at < n,
        payments(known, amount, rate, payment, total, (at + 1) as nat) is Err,
    ensures
        payments(known, amount, rate, payment, total, n) == payments(
            known,
            amount,
            rate,
            payment,
            total,
            (at + 1) as nat,
        ),
    decreases n,
{
    if n > at + 1 {
        lemma_payments_halt(known, amount, rate, payment, total, at, (n - 1) as nat);
    }
}

/// A schedule has one payment for each month, numbered from 1; each takes
/// up the balance that the one before left; and the last leaves exactly
/// zero.
pub proof fn lemma_schedule_shape(
    known: Map<Operation, Double>,
    amount: Double,
    rate: Double,
    payment: Double,
    total: nat,
    n: nat,
)
    requires
        n <= total <= u32::MAX,
        payments(known, amount, rate, payment, total, n) is Ok,
    ensures
        ({
            let rows = payments(known, amount, rate, payment, total, n)->Ok_0;
            &&& rows.len() == n
            &&& forall|i: int| 0 <= i < n ==> (#[trigger] rows[i]).month == i + 1
            &&& forall|i: int|
                0 <= i < n ==> next_payment(
                    known,
                    if i == 0 {
                        amount
                    } else {
                        rows[i - 1].remaining_balance
                    },
                    rate,
                    payment,
                    (i + 1) as u32,
                    i + 1 == total,
                ) == Ok::<AmortizationPayment, Stop>(#[trigger] rows[i])
            &&& n == total && n > 0 ==> rows.last().remaining_balance == Double::zero()
        }),
    decreases n,
{
    if n > 0 {
        let before = payments(known, amount, rate, payment, total, (n - 1) as nat);
        lemma_schedule_shape(known, amount, rate, payment, total, (n - 1) as nat);
        let front = before->Ok_0;
        let rows = payments(known, amount, rate, payment, total, n)->Ok_0;
        assert forall|i: int| 0 <= i < n - 1 implies rows[i] == front[i] by {}
    }
}

/// A schedule, once the table holds all it needs, has twelve payments for
/// each year of the term, numbered from 1, and ends on a balance of exactly
/// zero.
pub proof fn lemma_schedule_is_complete(
    known: Map<Operation, Double>,
    shown: Map<Rendering, Seq<char>>,
    amount: Double,
    annual: Double,
    term_years: i32,
)
    requires
        term_years <= MAX_TERM_YEARS,
        amortization_schedule(known, shown, amount, annual, term_years) is Ok,
    ensures
        ({
            let rows = amortization_schedule(known, shown, amount, annual, term_years)->Ok_0;
            &&& term_years > 0
            &&& rows.len() == term_years * 12
            &&& forall|i: int| 0 <= i < rows.len() ==> (#[trigger] rows[i]).month == i + 1
            &&& rows.last().remaining_balance == Double::zero()
        }),
{
    let payment = term_payment(known, shown, amount, annual, term_years)->Ok_0;
    let rate = monthly_rate(known, annual)->Ok_0;
    let total = (term_years * 12) as nat;
    lemma_schedule_shape(known, amount, rate, payment, total, total);
}

/// Whether a payment stands in the short form of a schedule: the first,
/// every twelfth, and the last.
pub open spec fn milestone(month: u32, count: usize) -> bool {
    month == 1 || month % 12 == 0 || month as int == (count as u32) as int
}

/// Whether a payment stands in the short form of a schedule of `count`
/// payments.
pub fn is_milestone(month: u32, count: usize) -> (r: bool)
    ensures
        r == milestone(month, count),
{
    month == 1 || month % 12 == 0 || month == count as u32
}

/// The payment and the total interest of a mortgage: all payments together
/// less the amount.
pub open spec fn mortgage_amounts(
    known: Map<Operation, Double>,
    shown: Map<Rendering, Seq<char>>,
    amount: Double,
    annual: Double,
    term_years: i32,
) -> Result<(Double, Double), Stop> {
    after(
        validated_loan(shown, amount, annual, term_years),
        chain(
            term_payment(known, shown, amount, annual, term_years),
            |payment: Double|
                chain(
                    counted((term_years * 12) as u64),
                    |count: Double|
                        chain(
                            answer(known, Operation::Product(payment, count)),
                            |paid: Double|
                                chain(
                                    answer(known, Operation::Difference(paid, amount)),
                                    |interest: Double| Ok((payment, interest)),
                                ),
                        ),
                ),
        ),
    )
}

/// What `calculate_mortgage_details` returns: the payment, the total
/// interest, and the date of the last payment.
pub open spec fn mortgage_details(
    known: Map<Operation, Double>,
    shown: Map<Rendering, Seq<char>>,
    amount: Double,
    annual: Double,
    term_years: i32,
    today: Date,
) -> Result<(Double, Double, Date), Stop> {
    chain(
        mortgage_amounts(known, shown, amount, annual, term_years),
        |amounts: (Double, Double)|
            Ok((amounts.0, amounts.1, months_later(today, (term_years * 12) as u32).unwrap())),
    )
}

/// The monthly payment of a mortgage, the interest paid over its term, and
/// the date of its last payment, counted from today.
pub fn calculate_mortgage_details(
    table: &Arithmetic,
    loan_amount: Double,
    annual_interest_rate: Double,
    term_years: i32,
    today: Date,
) -> (r: Result<(Double, Double, Date), Halt>)
    requires
        0 < term_years ==> term_years <= MAX_TERM_YEARS && months_later(
            today,
            (term_years * 12) as u32,
        ) is Some,
    ensures
        seen(r) == mortgage_details(
            table.known(),
            table.shown(),
            loan_amount,
            annual_interest_rate,
            term_years,
            today,
        ),
{
    validate_loan(table, loan_amount, annual_interest_rate, term_years)?;
    let payment = term_payment_of(table, loan_amount, annual_interest_rate, term_years)?;
    let total: u32 = (term_years * 12) as u32;
    let count = Double::from_count(total as u64);
    let paid = table.ask(Operation::Product(payment, count))?;
    let interest = table.ask(Operation::Difference(paid, loan_amount))?;
    let date = payoff_date(today, total).unwrap();
    Ok((payment, interest, date))
}

/// What is paid on a loan over its term beyond the loan itself: the
/// payment times the years times twelve, less the principal.
pub open spec fn interest_over_term(
    known: Map<Operation, Double>,
    payment: Double,
    principal: Double,
    years: Double,
) -> Result<Double, Stop> {
    chain(
        answer(known, Operation::Product(payment, years)),
        |yearly: Double|
            chain(
                answer(known, Operation::Product(yearly, Double::twelve())),
                |paid: Double| answer(known, Operation::Difference(paid, principal)),
            ),
    )
}

/// What `summarize_loan` returns: the payment, the interest over the term,
/// and the date of the last payment, which is so many months from today as
/// the term has when its months are rounded toward zero; no date where
/// that lies beyond the calendar.
pub open spec fn loan_summary(
    known: Map<Operation, Double>,
    shown: Map<Rendering, Seq<char>>,
    principal: Double,
    annual: Double,
    years: Double,
    today: Date,
) -> Result<(Double, Double, Option<Date>), Stop> {
    chain(
        loan_payment(known, shown, principal, annual, years),
        |payment: Double|
            chain(
                interest_over_term(known, payment, principal, years),
                |interest: Double|
                    chain(
                        answer(known, Operation::Product(years, Double::twelve())),
                        |months: Double|
                            Ok((payment, interest, months_later(today, months.to_u32()))),
                    ),
            ),
    )
}

/// The interest paid on a loan over its term.
fn interest_over_term_of(table: &Arithmetic, payment: Double, principal: Double, years: Double)
    -> (r: Result<Double, Halt>)
    ensures
        seen(r) == interest_over_term(table.known(), payment, principal, years),
{
    let yearly = table.ask(Operation::Product(payment, years))?;
    let paid = table.ask(Operation::Product(yearly, Double::from_bits(TWELVE_BITS)))?;
    table.ask(Operation::Difference(paid, principal))
}

/// The monthly payment of a loan, the interest paid over its term, and the
/// date of its last payment, counted from today.
pub fn summarize_loan(
    table: &Arithmetic,
    principal: Double,
    annual_interest_rate: Double,
    loan_term_years: Double,
    today: Date,
) -> (r: Result<(Double, Double, Option<Date>), Halt>)
    ensures
        seen(r) == loan_summary(
            table.known(),
            table.shown(),
            principal,
            annual_interest_rate,
            loan_term_years,
            today,
        ),
{
    let payment = calculate_loan_payment(table, principal, annual_interest_rate, loan_term_years)?;
    let interest = interest_over_term_of(table, payment, principal, loan_term_years)?;
    let months = table.ask(Operation::Product(loan_term_years, Double::from_bits(TWELVE_BITS)))?;
    Ok((payment, interest, payoff_date(today, months.to_u32())))
}

/// What `calculate_break_even_units` returns:
/// fixed costs over the margin of a unit.
pub open spec fn break_even_units(
    known: Map<Operation, Double>,
    shown: Map<Rendering, Seq<char>>,
    fixed_costs: Double,
    variable_cost: Double,
    price: Double,
) -> Result<Double, Stop> {
    after(
        validated_positive(shown, fixed_costs, "Fixed costs"@),
        after(
            validated_positive(shown, variable_cost, "Variable cost per unit"@),
            after(
                validated_positive(shown, price, "Price per unit"@),
                if price.le(variable_cost) {
                    invalid("Price per unit must be greater than variable cost per unit"@)
                } else {
                    chain(
                        answer(known, Operation::Difference(price, variable_cost)),
                        |margin: Double| answer(known, Operation::Quotient(fixed_costs, margin)),
                    )
                },
            ),
        ),
    )
}

/// What `calculate_break_even_analysis` returns: the units, and the revenue
/// from them.
pub open spec fn break_even_analysis(
    known: Map<Operation, Double>,
    shown: Map<Rendering, Seq<char>>,
    fixed_costs: Double,
    variable_cost: Double,
    price: Double,
) -> Result<(Double, Double), Stop> {
    chain(
        break_even_units(known, shown, fixed_costs, variable_cost, price),
        |units: Double|
            chain(
                answer(known, Operation::Product(units, price)),
                |revenue: Double| Ok((units, revenue)),
            ),
    )
}

/// The number of units at which revenue covers the costs.
pub fn calculate_break_even_units(
    table: &Arithmetic,
    fixed_costs: Double,
    variable_cost_per_unit: Double,
    price_per_unit: Double,
) -> (r: Result<Double, Halt>)
    ensures
        seen(r) == break_even_units(
            table.known(),
            table.shown(),
            fixed_costs,
            variable_cost_per_unit,
            price_per_unit,
        ),
{
    validate_positive(table, fixed_costs, "Fixed costs")?;
    validate_positive(table, variable_cost_per_unit, "Variable cost per unit")?;
    validate_positive(table, price_per_unit, "Price per unit")?;
    if price_per_unit.le(variable_cost_per_unit) {
        return invalid_input("Price per unit must be greater than variable cost per unit");
    }
    let margin = table.ask(Operation::Difference(price_per_unit, variable_cost_per_unit))?;
    table.ask(Operation::Quotient(fixed_costs, margin))
}

/// The break-even point in units and in revenue.
pub fn calculate_break_even_analysis(
    table: &Arithmetic,
    fixed_costs: Double,
    variable_cost_per_unit: Double,
    price_per_unit: Double,
) -> (r: Result<(Double, Double), Halt>)
    ensures
        seen(r) == break_even_analysis(
            table.known(),
            table.shown(),
            fixed_costs,
            variable_cost_per_unit,
            price_per_unit,
        ),
{
    let units = calculate_break_even_units(
        table,
        fixed_costs,
        variable_cost_per_unit,
        price_per_unit,
    )?;
    let revenue = table.ask(Operation::Product(units, price_per_unit))?;
    Ok((units, revenue))
}

/// Settled payments stay settled, and halted ones ask anew.
proof fn lemma_payments_settle(
    fewer: Map<Operation, Double>,
    more: Map<Operation, Double>,
    fewer_texts: Map<Rendering, Seq<char>>,
    more_texts: Map<Rendering, Seq<char>>,
    amount: Double,
    rate: Double,
    payment: Double,
    total: nat,
    n: nat,
)
    requires
        fewer.submap_of(more),
        fewer_texts.submap_of(more_texts),
    ensures
        settled(payments(fewer, amount, rate, payment, total, n)) ==> payments(
            more,
            amount,
            rate,
            payment,
            total,
            n,
        ) == payments(fewer, amount, rate, payment, total, n),
        asks_anew(fewer, fewer_texts,
            payments(fewer, amount, rate, payment, total, n),
        ),
    decreases n,
{
    if n > 0 {
        lemma_payments_settle(
            fewer,
            more,
            fewer_texts,
            more_texts,
            amount,
            rate,
            payment,
            total,
            (n - 1) as nat,
        );
    }
}

/// What a calculation on a loan has settled stays settled: on a table
/// that holds more it returns the same; and what it asks for, the table
/// lacks.
pub proof fn lemma_loan_settles(
    fewer: Map<Operation, Double>,
    more: Map<Operation, Double>,
    fewer_texts: Map<Rendering, Seq<char>>,
    more_texts: Map<Rendering, Seq<char>>,
    amount: Double,
    annual: Double,
    years: Double,
    term_years: i32,
    today: Date,
)
    requires
        fewer.submap_of(more),
        fewer_texts.submap_of(more_texts),
    ensures
        settled(loan_payment(fewer, fewer_texts, amount, annual, years))
            ==> loan_payment(more, more_texts, amount, annual, years)
            == loan_payment(fewer, fewer_texts, amount, annual, years),
        asks_anew(fewer, fewer_texts, loan_payment(fewer, fewer_texts, amount, annual, years)),
        settled(amortization_schedule(fewer, fewer_texts, amount, annual, term_years))
            ==> amortization_schedule(more, more_texts, amount, annual, term_years)
            == amortization_schedule(fewer, fewer_texts, amount, annual, term_years),
        asks_anew(
            fewer,
            fewer_texts,
            amortization_schedule(fewer, fewer_texts, amount, annual, term_years),
        ),
        settled(mortgage_details(fewer, fewer_texts, amount, annual, term_years, today))
            ==> mortgage_details(more, more_texts, amount, annual, term_years, today)
            == mortgage_details(fewer, fewer_texts, amount, annual, term_years, today),
        asks_anew(
            fewer,
            fewer_texts,
            mortgage_details(fewer, fewer_texts, amount, annual, term_years, today),
        ),
        settled(loan_summary(fewer, fewer_texts, amount, annual, years, today))
            ==> loan_summary(more, more_texts, amount, annual, years, today)
            == loan_summary(fewer, fewer_texts, amount, annual, years, today),
        asks_anew(
            fewer,
            fewer_texts,
            loan_summary(fewer, fewer_texts, amount, annual, years, today),
        ),
        settled(break_even_units(fewer, fewer_texts, amount, annual, years))
            ==> break_even_units(more, more_texts, amount, annual, years)
            == break_even_units(fewer, fewer_texts, amount, annual, years),
        asks_anew(fewer, fewer_texts, break_even_units(fewer, fewer_texts, amount, annual, years)),
        settled(break_even_analysis(fewer, fewer_texts, amount, annual, years))
            ==> break_even_analysis(more, more_texts, amount, annual, years)
            == break_even_analysis(fewer, fewer_texts, amount, annual, years),
        asks_anew(
            fewer,
            fewer_texts,
            break_even_analysis(fewer, fewer_texts, amount, annual, years),
        ),
{
    if term_payment(fewer, fewer_texts, amount, annual, term_years) is Ok && monthly_rate(
        fewer,
        annual,
    ) is Ok {
        lemma_payments_settle(
            fewer,
            more,
            fewer_texts,
            more_texts,
            amount,
            monthly_rate(fewer, annual)->Ok_0,
            term_payment(fewer, fewer_texts, amount, annual, term_years)->Ok_0,
            (term_years * 12) as nat,
            (term_years * 12) as nat,
        );
    }
}

} // verus!
