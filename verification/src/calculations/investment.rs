//! Investment analysis: net present value, discounted cash flow, payback
//! period, return on investment, and the capital asset pricing model.

use vstd::prelude::*;
use vstd::string::*;
use crate::arithmetic::{Arithmetic, answer, counted};
use crate::double::{Double, HUNDRED_BITS, MINUS_ONE_BITS, ONE_BITS};
use crate::error::{FinanceError, Halt, Stop, after, asks_anew, chain, invalid, invalid_input,
    seen, settled};
use crate::operation::{Operation, Rendering};
use crate::safety::{validate_finite, validate_non_negative, validate_positive, validated_finite,
    validated_non_negative, validated_positive};
use crate::text::{decimal, numeral};

verus! {

/// A cash flow of a year, discounted: `CF / (1+r)^year`.
pub open spec fn discounted(known: Map<Operation, Double>, flow: Double, rate: Double, year: nat)
    -> Result<Double, Stop> {
    chain(
        answer(known, Operation::Sum(Double::one(), rate)),
        |base: Double|
            chain(
                counted(year as u64),
                |exponent: Double|
                    chain(
                        answer(known, Operation::Power(base, exponent)),
                        |factor: Double| answer(known, Operation::Quotient(flow, factor)),
                    ),
            ),
    )
}

/// A cash flow discounted by its year.
pub fn discount(table: &Arithmetic, flow: Double, rate: Double, year: usize) -> (r: Result<
    Double,
    Halt,
>)
    ensures
        seen(r) == discounted(table.known(), flow, rate, year as nat),
{
    let base = table.ask(Operation::Sum(Double::from_bits(ONE_BITS), rate))?;
    let exponent = Double::from_count(year as u64);
    let factor = table.ask(Operation::Power(base, exponent))?;
    table.ask(Operation::Quotient(flow, factor))
}

/// A starting value with the first `n` cash flows added, each discounted by
/// its year, the first flow by one year.
pub open spec fn discounted_onto(
    known: Map<Operation, Double>,
    start: Double,
    flows: Seq<Double>,
    rate: Double,
    n: nat,
) -> Result<Double, Stop>
    decreases n,
{
    if n == 0 {
        Ok(start)
    } else {
        chain(
            discounted_onto(known, start, flows, rate, (n - 1) as nat),
            |sum: Double|
                chain(
                    discounted(known, flows[n - 1], rate, n),
                    |value: Double| answer(known, Operation::Sum(sum, value)),
                ),
        )
    }
}

/// A sum with one more discounted flow added.
fn discount_onto(table: &Arithmetic, sum: Double, flow: Double, rate: Double, year: usize) -> (r:
    Result<Double, Halt>)
    ensures
        seen(r) == chain(
            discounted(table.known(), flow, rate, year as nat),
            |value: Double| answer(table.known(), Operation::Sum(sum, value)),
        ),
{
    let value = discount(table, flow, rate, year)?;
    table.ask(Operation::Sum(sum, value))
}

/// What `calculate_npv` returns: the discounted flows less the investment.
pub open spec fn npv(
    known: Map<Operation, Double>,
    shown: Map<Rendering, Seq<char>>,
    initial_investment: Double,
    flows: Seq<Double>,
    rate: Double,
) -> Result<Double, Stop> {
    after(
        validated_positive(shown, initial_investment, "Initial investment"@),
        after(
            validated_non_negative(shown, rate, "Discount rate"@),
            if flows.len() == 0 {
                invalid("Cash flows cannot be empty"@)
            } else {
                discounted_onto(known, initial_investment.negated(), flows, rate, flows.len())
            },
        ),
    )
}

/// The net present value of an investment: its discounted cash flows less
/// what it costs.  The flows themselves are not checked: one that is not
/// finite is discounted like any other, and `calculate_dcf` is the
/// function that refuses it.
pub fn calculate_npv(
    table: &Arithmetic,
    initial_investment: Double,
    cash_flows: &[Double],
    discount_rate: Double,
) -> (r: Result<Double, Halt>)
    ensures
        seen(r) == npv(
            table.known(),
            table.shown(),
            initial_investment,
            cash_flows@,
            discount_rate,
        ),
{
    validate_positive(table, initial_investment, "Initial investment")?;
    validate_non_negative(table, discount_rate, "Discount rate")?;
    if cash_flows.len() == 0 {
        return invalid_input("Cash flows cannot be empty");
    }
    let start = initial_investment.negated();
    let mut sum = start;
    let mut year: usize = 0;
    while year < cash_flows.len()
        invariant
            0 <= year <= cash_flows@.len(),
            start == initial_investment.negated(),
            validated_positive(table.shown(), initial_investment, "Initial investment"@) is Ok,
            validated_non_negative(table.shown(), discount_rate, "Discount rate"@) is Ok,
            discounted_onto(table.known(), start, cash_flows@, discount_rate, year as nat) == Ok::<
                Double,
                Stop,
            >(sum),
        decreases cash_flows@.len() - year,
    {
        match discount_onto(table, sum, cash_flows[year], discount_rate, year + 1) {
            Ok(next) => {
                sum = next;
            },
            Err(halt) => {
                proof {
                    lemma_discounted_onto_halts(
                        table.known(),
                        start,
                        cash_flows@,
                        discount_rate,
                        year as nat,
                        cash_flows@.len(),
                    );
                }
                return Err(halt);
            },
        }
        year += 1;
    }
    Ok(sum)
}

/// A halt in the discounting of a prefix is the halt of every longer
/// prefix.
proof fn lemma_discounted_onto_halts(
    known: Map<Operation, Double>,
    start: Double,
    flows: Seq<Double>,
    rate: Double,
    at: nat,
    n: nat,
)
    requires
        at < n,
        discounted_onto(known, start, flows, rate, (at + 1) as nat) is Err,
    ensures
        discounted_onto(known, start, flows, rate, n) == discounted_onto(
            known,
            start,
            flows,
            rate,
            (at + 1) as nat,
        ),
    decreases n,
{
    if n > at + 1 {
        lemma_discounted_onto_halts(known, start, flows, rate, at, (n - 1) as nat);
    }
}

/// The complaint about the cash flow of a year.
pub open spec fn invalid_flow(year: nat) -> Seq<char> {
    "Cash flow at year "@ + numeral(year) + " is invalid"@
}

/// The complaint about the cash flow of a year.
fn invalid_flow_text(year: usize) -> (text: String)
    ensures
        text@ == invalid_flow(year as nat),
{
    String::from_str("Cash flow at year ").concat(decimal(year as u64).as_str()).concat(
        " is invalid",
    )
}

/// The first `n` cash flows discounted and summed; each flow is checked to
/// be finite before it is discounted.
pub open spec fn checked_discounted(
    known: Map<Operation, Double>,
    flows: Seq<Double>,
    rate: Double,
    n: nat,
) -> Result<Double, Stop>
    decreases n,
{
    if n == 0 {
        Ok(Double::zero())
    } else {
        chain(
            checked_discounted(known, flows, rate, (n - 1) as nat),
            |sum: Double|
                if !flows[n - 1].is_finite() {
                    invalid(invalid_flow(n))
                } else {
                    chain(
                        discounted(known, flows[n - 1], rate, n),
                        |value: Double| answer(known, Operation::Sum(sum, value)),
                    )
                },
        )
    }
}

/// A sum with one more discounted flow added, once the flow is checked.
fn checked_discount_onto(
    table: &Arithmetic,
    sum: Double,
    flow: Double,
    rate: Double,
    year: usize,
) -> (r: Result<Double, Halt>)
    ensures
        seen(r) == (if !flow.is_finite() {
            invalid(invalid_flow(year as nat))
        } else {
            chain(
                discounted(table.known(), flow, rate, year as nat),
                |value: Double| answer(table.known(), Operation::Sum(sum, value)),
            )
        }),
{
    if !flow.is_finite() {
        return Err(Halt::Failed(FinanceError::InvalidInput(invalid_flow_text(year))));
    }
    discount_onto(table, sum, flow, rate, year)
}

/// What `calculate_dcf` returns: the discounted flows, at a finite rate
/// above -1.
pub open spec fn dcf(
    known: Map<Operation, Double>,
    shown: Map<Rendering, Seq<char>>,
    flows: Seq<Double>,
    rate: Double,
) -> Result<Double, Stop> {
    after(
        validated_finite(shown, rate, "Discount rate"@),
        if flows.len() == 0 {
            invalid("Cash flows cannot be empty"@)
        } else if rate.le(Double::minus_one()) {
            invalid("Discount rate must be greater than -1"@)
        } else {
            checked_discounted(known, flows, rate, flows.len())
        },
    )
}

/// The value of future cash flows today: each discounted by its year, and
/// summed.
pub fn calculate_dcf(table: &Arithmetic, cash_flows: &[Double], discount_rate: Double) -> (r:
    Result<Double, Halt>)
    ensures
        seen(r) == dcf(table.known(), table.shown(), cash_flows@, discount_rate),
{
    validate_finite(table, discount_rate, "Discount rate")?;
    if cash_flows.len() == 0 {
        return invalid_input("Cash flows cannot be empty");
    }
    if discount_rate.le(Double::from_bits(MINUS_ONE_BITS)) {
        return invalid_input("Discount rate must be greater than -1");
    }
    let mut sum = Double::from_bits(0);
    let mut year: usize = 0;
    while year < cash_flows.len()
        invariant
            0 <= year <= cash_flows@.len(),
            validated_finite(table.shown(), discount_rate, "Discount rate"@) is Ok,
            !discount_rate.le(Double::minus_one()),
            checked_discounted(table.known(), cash_flows@, discount_rate, year as nat) == Ok::<
                Double,
                Stop,
            >(sum),
        decreases cash_flows@.len() - year,
    {
        match checked_discount_onto(table, sum, cash_flows[year], discount_rate, year + 1) {
            Ok(next) => {
                sum = next;
            },
            Err(halt) => {
                proof {
                    lemma_checked_discounted_halts(
                        table.known(),
                        cash_flows@,
                        discount_rate,
                        year as nat,
                        cash_flows@.len(),
                    );
                }
                return Err(halt);
            },
        }
        year += 1;
    }
    Ok(sum)
}

/// A halt in the checked discounting of a prefix is the halt of every
/// longer prefix.
proof fn lemma_checked_discounted_halts(
    known: Map<Operation, Double>,
    flows: Seq<Double>,
    rate: Double,
    at: nat,
    n: nat,
)
    requires
        at < n,
        checked_discounted(known, flows, rate, (at + 1) as nat) is Err,
    ensures
        checked_discounted(known, flows, rate, n) == checked_discounted(
            known,
            flows,
            rate,
            (at + 1) as nat,
        ),
    decreases n,
{
    if n > at + 1 {
        lemma_checked_discounted_halts(known, flows, rate, at, (n - 1) as nat);
    }
}

/// The payback period where the flows up to a year first cover the cost:
/// the years before it, plus the share of that year's flow that was still
/// needed, plus one.
pub open spec fn interpolated(
    known: Map<Operation, Double>,
    cost: Double,
    covered: Double,
    flow: Double,
    years_before: nat,
) -> Result<Double, Stop> {
    chain(
        answer(known, Operation::Difference(covered, flow)),
        |before: Double|
            chain(
                answer(known, Operation::Difference(cost, before)),
                |needed: Double|
                    chain(
                        answer(known, Operation::Quotient(needed, flow)),
                        |share: Double|
                            chain(
                                counted(years_before as u64),
                                |years: Double|
                                    chain(
                                        answer(known, Operation::Sum(years, share)),
                                        |part: Double|
                                            answer(known, Operation::Sum(part, Double::one())),
                                    ),
                            ),
                    ),
            ),
    )
}

/// The payback period in the year in which the flows first cover the cost.
pub fn interpolate(
    table: &Arithmetic,
    cost: Double,
    covered: Double,
    flow: Double,
    years_before: usize,
) -> (r: Result<Double, Halt>)
    ensures
        seen(r) == interpolated(table.known(), cost, covered, flow, years_before as nat),
{
    let before = table.ask(Operation::Difference(covered, flow))?;
    let needed = table.ask(Operation::Difference(cost, before))?;
    let share = table.ask(Operation::Quotient(needed, flow))?;
    let years = Double::from_count(years_before as u64);
    let part = table.ask(Operation::Sum(years, share))?;
    table.ask(Operation::Sum(part, Double::from_bits(ONE_BITS)))
}

/// The flows of the first `n` years, accumulated until they cover the cost:
/// what has accumulated, and the payback period once it is reached.
pub open spec fn accumulated(
    known: Map<Operation, Double>,
    cost: Double,
    flows: Seq<Double>,
    n: nat,
) -> Result<(Double, Option<Double>), Stop>
    decreases n,
{
    if n == 0 {
        Ok((Double::zero(), None))
    } else {
        chain(
            accumulated(known, cost, flows, (n - 1) as nat),
            |state: (Double, Option<Double>)|
                if state.1 is Some {
                    Ok(state)
                } else if !flows[n - 1].is_finite() {
                    invalid(invalid_flow(n))
                } else {
                    chain(
                        answer(known, Operation::Sum(state.0, flows[n - 1])),
                        |covered: Double|
                            if cost.le(covered) {
                                chain(
                                    interpolated(
                                        known,
                                        cost,
                                        covered,
                                        flows[n - 1],
                                        (n - 1) as nat,
                                    ),
                                    |period: Double| Ok((covered, Some(period))),
                                )
                            } else {
                                Ok((covered, None))
                            },
                    )
                },
        )
    }
}

/// What has accumulated after one more year, and the payback period if
/// that year covers the cost.
fn accumulate(table: &Arithmetic, cost: Double, covered: Double, flow: Double, year: usize) -> (r:
    Result<(Double, Option<Double>), Halt>)
    requires
        year >= 1,
    ensures
        seen(r) == (if !flow.is_finite() {
            invalid(invalid_flow(year as nat))
        } else {
            chain(
                answer(table.known(), Operation::Sum(covered, flow)),
                |next: Double|
                    if cost.le(next) {
                        chain(
                            interpolated(table.known(), cost, next, flow, (year - 1) as nat),
                            |period: Double| Ok((next, Some(period))),
                        )
                    } else {
                        Ok((next, None))
                    },
            )
        }),
{
    if !flow.is_finite() {
        return Err(Halt::Failed(FinanceError::InvalidInput(invalid_flow_text(year))));
    }
    let next = table.ask(Operation::Sum(covered, flow))?;
    if cost.le(next) {
        let period = interpolate(table, cost, next, flow, year - 1)?;
        return Ok((next, Some(period)));
    }
    Ok((next, None))
}

/// What `calculate_payback_period` returns: the period, or none where the
/// flows never cover the cost.
pub open spec fn payback_period(
    known: Map<Operation, Double>,
    shown: Map<Rendering, Seq<char>>,
    cost: Double,
    flows: Seq<Double>,
) -> Result<Option<Double>, Stop> {
    after(
        validated_positive(shown, cost, "Initial cost"@),
        if flows.len() == 0 {
            invalid("Cash flows cannot be empty"@)
        } else {
            chain(
                accumulated(known, cost, flows, flows.len()),
                |state: (Double, Option<Double>)| Ok(state.1),
            )
        },
    )
}

/// The time in years until the cash flows have covered the initial cost,
/// with the year of the crossing counted by the share that was needed of
/// it; none where they never cover it.
pub fn calculate_payback_period(table: &Arithmetic, initial_cost: Double, cash_flows: &[Double])
    -> (r: Result<Option<Double>, Halt>)
    ensures
        seen(r) == payback_period(table.known(), table.shown(), initial_cost, cash_flows@),
{
    validate_positive(table, initial_cost, "Initial cost")?;
    if cash_flows.len() == 0 {
        return invalid_input("Cash flows cannot be empty");
    }
    let mut covered = Double::from_bits(0);
    let mut year: usize = 0;
    while year < cash_flows.len()
        invariant
            0 <= year <= cash_flows@.len(),
            validated_positive(table.shown(), initial_cost, "Initial cost"@) is Ok,
            accumulated(table.known(), initial_cost, cash_flows@, year as nat) == Ok::<
                (Double, Option<Double>),
                Stop,
            >((covered, None)),
        decreases cash_flows@.len() - year,
    {
        proof {
            lemma_accumulated_settles(
                table.known(),
                initial_cost,
                cash_flows@,
                year as nat,
                cash_flows@.len(),
            );
        }
        match accumulate(table, initial_cost, covered, cash_flows[year], year + 1) {
            Ok((next, Some(period))) => {
                return Ok(Some(period));
            },
            Ok((next, None)) => {
                covered = next;
            },
            Err(halt) => {
                return Err(halt);
            },
        }
        year += 1;
    }
    Ok(None)
}

/// Once the accumulation has halted or found the period, more years change
/// nothing.
proof fn lemma_accumulated_settles(
    known: Map<Operation, Double>,
    cost: Double,
    flows: Seq<Double>,
    at: nat,
    n: nat,
)
    requires
        at < n,
    ensures
        match accumulated(known, cost, flows, (at + 1) as nat) {
            Ok(state) => state.1 is Some ==> accumulated(known, cost, flows, n) == Ok::<
                (Double, Option<Double>),
                Stop,
            >(state),
            Err(stop) => accumulated(known, cost, flows, n) == Err::<
                (Double, Option<Double>),
                Stop,
            >(stop),
        },
    decreases n,
{
    if n > at + 1 {
        lemma_accumulated_settles(known, cost, flows, at, (n - 1) as nat);
    }
}

/// What `calculate_roi` returns: the profit over the cost, in percent.
pub open spec fn roi(
    known: Map<Operation, Double>,
    shown: Map<Rendering, Seq<char>>,
    net_profit: Double,
    cost: Double,
) -> Result<Double, Stop> {
    after(
        validated_positive(shown, cost, "Cost of investment"@),
        if !net_profit.is_finite() {
            invalid("Net profit must be a valid number"@)
        } else {
            chain(
                answer(known, Operation::Quotient(net_profit, cost)),
                |ratio: Double| answer(known, Operation::Product(ratio, Double::hundred())),
            )
        },
    )
}

/// The return on an investment in percent of its cost.
pub fn calculate_roi(table: &Arithmetic, net_profit: Double, cost_of_investment: Double) -> (r:
    Result<Double, Halt>)
    ensures
        seen(r) == roi(table.known(), table.shown(), net_profit, cost_of_investment),
{
    validate_positive(table, cost_of_investment, "Cost of investment")?;
    if !net_profit.is_finite() {
        return invalid_input("Net profit must be a valid number");
    }
    let ratio = table.ask(Operation::Quotient(net_profit, cost_of_investment))?;
    table.ask(Operation::Product(ratio, Double::from_bits(HUNDRED_BITS)))
}

/// What `calculate_capm` returns: `r_f + β·(r_m − r_f)`.
pub open spec fn capm(
    known: Map<Operation, Double>,
    shown: Map<Rendering, Seq<char>>,
    risk_free_rate: Double,
    beta: Double,
    market_return: Double,
) -> Result<Double, Stop> {
    after(
        validated_non_negative(shown, risk_free_rate, "Risk-free rate"@),
        if !beta.is_finite() {
            invalid("Beta must be a valid number"@)
        } else if !market_return.is_finite() {
            invalid("Market return must be a valid number"@)
        } else {
            chain(
                answer(known, Operation::Difference(market_return, risk_free_rate)),
                |premium: Double|
                    chain(
                        answer(known, Operation::Product(beta, premium)),
                        |reward: Double| answer(known, Operation::Sum(risk_free_rate, reward)),
                    ),
            )
        },
    )
}

/// The return expected of an asset by the capital asset pricing model.
pub fn calculate_capm(
    table: &Arithmetic,
    risk_free_rate: Double,
    beta: Double,
    market_return: Double,
) -> (r: Result<Double, Halt>)
    ensures
        seen(r) == capm(table.known(), table.shown(), risk_free_rate, beta, market_return),
{
    validate_non_negative(table, risk_free_rate, "Risk-free rate")?;
    if !beta.is_finite() {
        return invalid_input("Beta must be a valid number");
    }
    if !market_return.is_finite() {
        return invalid_input("Market return must be a valid number");
    }
    let premium = table.ask(Operation::Difference(market_return, risk_free_rate))?;
    let reward = table.ask(Operation::Product(beta, premium))?;
    table.ask(Operation::Sum(risk_free_rate, reward))
}

/// A settled sum of discounted flows stays settled, and a halted one asks anew.
proof fn lemma_discounted_onto_settles(
    fewer: Map<Operation, Double>,
    more: Map<Operation, Double>,
    fewer_texts: Map<Rendering, Seq<char>>,
    more_texts: Map<Rendering, Seq<char>>,
    start: Double,
    flows: Seq<Double>,
    rate: Double,
    n: nat,
)
    requires
        fewer.submap_of(more),
        fewer_texts.submap_of(more_texts),
    ensures
        settled(discounted_onto(fewer, start, flows, rate, n))
            ==> discounted_onto(more, start, flows, rate, n)
            == discounted_onto(fewer, start, flows, rate, n),
        asks_anew(fewer, fewer_texts, discounted_onto(fewer, start, flows, rate, n)),
    decreases n,
{
    if n > 0 {
        lemma_discounted_onto_settles(
            fewer,
            more,
            fewer_texts,
            more_texts,
            start,
            flows,
            rate,
            (n - 1) as nat,
        );
    }
}

/// A settled sum of checked and discounted flows stays settled, and a halted one asks anew.
proof fn lemma_checked_discounted_settles(
    fewer: Map<Operation, Double>,
    more: Map<Operation, Double>,
    fewer_texts: Map<Rendering, Seq<char>>,
    more_texts: Map<Rendering, Seq<char>>,
    flows: Seq<Double>,
    rate: Double,
    n: nat,
)
    requires
        fewer.submap_of(more),
        fewer_texts.submap_of(more_texts),
    ensures
        settled(checked_discounted(fewer, flows, rate, n))
            ==> checked_discounted(more, flows, rate, n)
            == checked_discounted(fewer, flows, rate, n),
        asks_anew(fewer, fewer_texts, checked_discounted(fewer, flows, rate, n)),
    decreases n,
{
    if n > 0 {
        lemma_checked_discounted_settles(
            fewer,
            more,
            fewer_texts,
            more_texts,
            flows,
            rate,
            (n - 1) as nat,
        );
    }
}

/// A settled accumulation stays settled, and a halted one asks anew.
proof fn lemma_accumulated_stays(
    fewer: Map<Operation, Double>,
    more: Map<Operation, Double>,
    fewer_texts: Map<Rendering, Seq<char>>,
    more_texts: Map<Rendering, Seq<char>>,
    cost: Double,
    flows: Seq<Double>,
    n: nat,
)
    requires
        fewer.submap_of(more),
        fewer_texts.submap_of(more_texts),
    ensures
        settled(accumulated(fewer, cost, flows, n))
            ==> accumulated(more, cost, flows, n)
            == accumulated(fewer, cost, flows, n),
        asks_anew(fewer, fewer_texts, accumulated(fewer, cost, flows, n)),
    decreases n,
{
    if n > 0 {
        lemma_accumulated_stays(fewer, more, fewer_texts, more_texts, cost, flows, (n - 1) as nat);
    }
}

/// What an analysis of an investment has settled stays settled: on a table
/// that holds more it returns the same; and what it asks for, the table
/// lacks.
pub proof fn lemma_investment_settles(
    fewer: Map<Operation, Double>,
    more: Map<Operation, Double>,
    fewer_texts: Map<Rendering, Seq<char>>,
    more_texts: Map<Rendering, Seq<char>>,
    amount: Double,
    flows: Seq<Double>,
    rate: Double,
    beta: Double,
)
    requires
        fewer.submap_of(more),
        fewer_texts.submap_of(more_texts),
    ensures
        settled(npv(fewer, fewer_texts, amount, flows, rate))
            ==> npv(more, more_texts, amount, flows, rate)
            == npv(fewer, fewer_texts, amount, flows, rate),
        asks_anew(fewer, fewer_texts, npv(fewer, fewer_texts, amount, flows, rate)),
        settled(dcf(fewer, fewer_texts, flows, rate))
            ==> dcf(more, more_texts, flows, rate)
            == dcf(fewer, fewer_texts, flows, rate),
        asks_anew(fewer, fewer_texts, dcf(fewer, fewer_texts, flows, rate)),
        settled(payback_period(fewer, fewer_texts, amount, flows))
            ==> payback_period(more, more_texts, amount, flows)
            == payback_period(fewer, fewer_texts, amount, flows),
        asks_anew(fewer, fewer_texts, payback_period(fewer, fewer_texts, amount, flows)),
        settled(roi(fewer, fewer_texts, amount, rate))
            ==> roi(more, more_texts, amount, rate)
            == roi(fewer, fewer_texts, amount, rate),
        asks_anew(fewer, fewer_texts, roi(fewer, fewer_texts, amount, rate)),
        settled(capm(fewer, fewer_texts, amount, beta, rate))
            ==> capm(more, more_texts, amount, beta, rate)
            == capm(fewer, fewer_texts, amount, beta, rate),
        asks_anew(fewer, fewer_texts, capm(fewer, fewer_texts, amount, beta, rate)),
{
    lemma_discounted_onto_settles(
        fewer,
        more,
        fewer_texts,
        more_texts,
        amount.negated(), flows, rate, flows.len());
    lemma_checked_discounted_settles(
        fewer,
        more,
        fewer_texts,
        more_texts,
        flows,
        rate,
        flows.len(),
    );
    lemma_accumulated_stays(fewer, more, fewer_texts, more_texts, amount, flows, flows.len());
}

} // verus!
