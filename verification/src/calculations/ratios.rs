//! Financial ratios: returns on equity and assets, dividend yield, the
//! weighted average cost of capital, leverage, liquidity, and price to
//! earnings.

use vstd::prelude::*;
use vstd::string::*;
use crate::arithmetic::{Arithmetic, answer};
use crate::double::{Double, HUNDRED_BITS, ONE_BITS};
use crate::error::{Fault, FinanceError, Halt, Stop, after, asks_anew, chain, invalid,
    invalid_input, seen, settled};
use crate::money::{Money, converted, decimal_percentage, decimal_percentage_of,
    is_negative_form, is_zero_form, seen_amount, to_decimal};
use crate::operation::{Operation, Rendering};
use crate::safety::{reject, rejected, validate_finite, validate_non_negative,
    validate_positive, validated_finite, validated_non_negative, validated_positive};

verus! {

/// A share in percent: `part / whole × 100`.
pub open spec fn percentage(known: Map<Operation, Double>, part: Double, whole: Double) -> Result<
    Double,
    Stop,
> {
    chain(
        answer(known, Operation::Quotient(part, whole)),
        |ratio: Double| answer(known, Operation::Product(ratio, Double::hundred())),
    )
}

/// A share in percent.
pub fn percentage_of(table: &Arithmetic, part: Double, whole: Double) -> (r: Result<Double, Halt>)
    ensures
        seen(r) == percentage(table.known(), part, whole),
{
    let ratio = table.ask(Operation::Quotient(part, whole))?;
    table.ask(Operation::Product(ratio, Double::from_bits(HUNDRED_BITS)))
}

/// What `calculate_roe` returns: net income over equity, in percent and in
/// decimal arithmetic, from the decimal amounts of the two doubles.  A
/// double without a decimal amount is refused.
pub open spec fn roe(
    shown: Map<Rendering, Seq<char>>,
    net_income: Double,
    shareholders_equity: Double,
    income_amount: Option<Money>,
    equity_amount: Option<Money>,
) -> Result<Seq<u8>, Stop> {
    after(
        validated_positive(shown, shareholders_equity, "Shareholders' equity"@),
        if !net_income.is_finite() {
            rejected(shown, "Net income must be a valid number: "@, net_income)
        } else {
            chain(
                converted(shown, net_income, "net income"@, income_amount),
                |income: Money|
                    chain(
                        converted(
                            shown,
                            shareholders_equity,
                            "shareholders' equity"@,
                            equity_amount,
                        ),
                        |equity: Money| decimal_percentage(income@, equity@),
                    ),
            )
        },
    )
}

/// The return on equity in percent.  The ratio is taken in decimal
/// arithmetic: beside each double stands the decimal amount that was made
/// of it, if one could be made.
pub fn calculate_roe(
    table: &Arithmetic,
    net_income: Double,
    shareholders_equity: Double,
    income_amount: Option<Money>,
    equity_amount: Option<Money>,
) -> (r: Result<Money, Halt>)
    ensures
        seen_amount(r) == roe(
            table.shown(),
            net_income,
            shareholders_equity,
            income_amount,
            equity_amount,
        ),
{
    validate_positive(table, shareholders_equity, "Shareholders' equity")?;
    if !net_income.is_finite() {
        return reject(table, String::from_str("Net income must be a valid number: "), net_income);
    }
    let income = to_decimal(table, net_income, "net income", income_amount)?;
    let equity = to_decimal(table, shareholders_equity, "shareholders' equity", equity_amount)?;
    decimal_percentage_of(income, equity)
}

/// What `return_on_equity` returns: net income over equity in percent, in
/// decimal arithmetic, once both doubles are finite and have decimal
/// amounts, and the equity is neither zero nor below it.
pub open spec fn equity_return(
    shown: Map<Rendering, Seq<char>>,
    net_income: Double,
    equity: Double,
    income_amount: Option<Money>,
    equity_amount: Option<Money>,
) -> Result<Seq<u8>, Stop> {
    after(
        validated_finite(shown, net_income, "Net income"@),
        after(
            validated_finite(shown, equity, "Equity"@),
            match income_amount {
                None => rejected(shown, "Invalid net income: "@, net_income),
                Some(income) => match equity_amount {
                    None => rejected(shown, "Invalid equity: "@, equity),
                    Some(capital) => if is_zero_form(capital@) {
                        Err(Stop::Failed(Fault::DivisionByZero))
                    } else if is_negative_form(capital@) {
                        rejected(shown, "Equity should be positive: "@, equity)
                    } else {
                        decimal_percentage(income@, capital@)
                    },
                },
            },
        ),
    )
}

/// The return on equity in percent, for a report: an equity of zero is a
/// division by zero, and one below zero is refused.  Beside each double
/// stands the decimal amount that was made of it, if one could be made.
pub fn return_on_equity(
    table: &Arithmetic,
    net_income: Double,
    equity: Double,
    income_amount: Option<Money>,
    equity_amount: Option<Money>,
) -> (r: Result<Money, Halt>)
    ensures
        seen_amount(r) == equity_return(
            table.shown(),
            net_income,
            equity,
            income_amount,
            equity_amount,
        ),
{
    validate_finite(table, net_income, "Net income")?;
    validate_finite(table, equity, "Equity")?;
    let income = match income_amount {
        Some(income) => income,
        None => {
            return reject(table, String::from_str("Invalid net income: "), net_income);
        },
    };
    let capital = match equity_amount {
        Some(capital) => capital,
        None => {
            return reject(table, String::from_str("Invalid equity: "), equity);
        },
    };
    if capital.is_zero() {
        return Err(Halt::Failed(FinanceError::DivisionByZero));
    }
    if capital.is_negative() {
        return reject(table, String::from_str("Equity should be positive: "), equity);
    }
    decimal_percentage_of(income, capital)
}

/// What `calculate_roa` returns: net income over total assets, in percent.
pub open spec fn roa(
    known: Map<Operation, Double>,
    shown: Map<Rendering, Seq<char>>,
    net_income: Double,
    total_assets: Double,
) -> Result<Double, Stop> {
    after(
        validated_positive(shown, total_assets, "Total assets"@),
        if !net_income.is_finite() {
            invalid("Net income must be a valid number"@)
        } else {
            percentage(known, net_income, total_assets)
        },
    )
}

/// The return on assets in percent.
pub fn calculate_roa(table: &Arithmetic, net_income: Double, total_assets: Double) -> (r: Result<
    Double,
    Halt,
>)
    ensures
        seen(r) == roa(table.known(), table.shown(), net_income, total_assets),
{
    validate_positive(table, total_assets, "Total assets")?;
    if !net_income.is_finite() {
        return invalid_input("Net income must be a valid number");
    }
    percentage_of(table, net_income, total_assets)
}

/// What `calculate_dividend_yield` returns: the dividend over the price,
/// in percent.
pub open spec fn dividend_yield(
    known: Map<Operation, Double>,
    shown: Map<Rendering, Seq<char>>,
    annual_dividend: Double,
    stock_price: Double,
) -> Result<Double, Stop> {
    after(
        validated_positive(shown, stock_price, "Stock price"@),
        after(
            validated_non_negative(shown, annual_dividend, "Annual dividend"@),
            percentage(known, annual_dividend, stock_price),
        ),
    )
}

/// The dividend yield in percent.
pub fn calculate_dividend_yield(table: &Arithmetic, annual_dividend: Double, stock_price: Double)
    -> (r: Result<Double, Halt>)
    ensures
        seen(r) == dividend_yield(table.known(), table.shown(), annual_dividend, stock_price),
{
    validate_positive(table, stock_price, "Stock price")?;
    validate_non_negative(table, annual_dividend, "Annual dividend")?;
    percentage_of(table, annual_dividend, stock_price)
}

/// The checks of the five inputs of the cost of capital: none negative,
/// and the tax rate at most one.
pub open spec fn validated_capital(
    shown: Map<Rendering, Seq<char>>,
    cost_of_equity: Double,
    cost_of_debt: Double,
    tax_rate: Double,
    equity: Double,
    debt: Double,
) -> Result<(), Stop> {
    after(
        validated_non_negative(shown, cost_of_equity, "Cost of equity"@),
        after(
            validated_non_negative(shown, cost_of_debt, "Cost of debt"@),
            after(
                validated_non_negative(shown, tax_rate, "Tax rate"@),
                after(
                    validated_non_negative(shown, equity, "Market value of equity"@),
                    after(
                        validated_non_negative(shown, debt, "Market value of debt"@),
                        if Double::one().lt(tax_rate) {
                            invalid("Tax rate should be expressed as a decimal (0-1)"@)
                        } else {
                            Ok(())
                        },
                    ),
                ),
            ),
        ),
    )
}

/// The checks of the inputs of the cost of capital.
fn validate_capital(
    table: &Arithmetic,
    cost_of_equity: Double,
    cost_of_debt: Double,
    tax_rate: Double,
    equity: Double,
    debt: Double,
) -> (r: Result<(), Halt>)
    ensures
        seen(r) == validated_capital(
            table.shown(),
            cost_of_equity,
            cost_of_debt,
            tax_rate,
            equity,
            debt,
        ),
{
    validate_non_negative(table, cost_of_equity, "Cost of equity")?;
    validate_non_negative(table, cost_of_debt, "Cost of debt")?;
    validate_non_negative(table, tax_rate, "Tax rate")?;
    validate_non_negative(table, equity, "Market value of equity")?;
    validate_non_negative(table, debt, "Market value of debt")?;
    if Double::from_bits(ONE_BITS).lt(tax_rate) {
        return invalid_input("Tax rate should be expressed as a decimal (0-1)");
    }
    Ok(())
}

/// The cost of capital of a firm worth `total`:
/// `E/V·Ke + D/V·Kd·(1 − T)`.
pub open spec fn weighted_cost(
    known: Map<Operation, Double>,
    cost_of_equity: Double,
    cost_of_debt: Double,
    tax_rate: Double,
    equity: Double,
    debt: Double,
    total: Double,
) -> Result<Double, Stop> {
    chain(
        answer(known, Operation::Quotient(equity, total)),
        |equity_weight: Double|
            chain(
                answer(known, Operation::Quotient(debt, total)),
                |debt_weight: Double|
                    chain(
                        answer(known, Operation::Product(equity_weight, cost_of_equity)),
                        |equity_part: Double|
                            chain(
                                answer(known, Operation::Product(debt_weight, cost_of_debt)),
                                |gross: Double|
                                    chain(
                                        answer(
                                            known,
                                            Operation::Difference(Double::one(), tax_rate),
                                        ),
                                        |kept: Double|
                                            chain(
                                                answer(known, Operation::Product(gross, kept)),
                                                |debt_part: Double|
                                                    answer(
                                                        known,
                                                        Operation::Sum(equity_part, debt_part),
                                                    ),
                                            ),
                                    ),
                            ),
                    ),
            ),
    )
}

/// What `calculate_wacc` returns.
pub open spec fn wacc(
    known: Map<Operation, Double>,
    shown: Map<Rendering, Seq<char>>,
    cost_of_equity: Double,
    cost_of_debt: Double,
    tax_rate: Double,
    equity: Double,
    debt: Double,
) -> Result<Double, Stop> {
    after(
        validated_capital(shown, cost_of_equity, cost_of_debt, tax_rate, equity, debt),
        chain(
            answer(known, Operation::Sum(equity, debt)),
            |total: Double|
                if total.is_zero() {
                    Err(Stop::Failed(Fault::DivisionByZero))
                } else {
                    weighted_cost(
                        known,
                        cost_of_equity,
                        cost_of_debt,
                        tax_rate,
                        equity,
                        debt,
                        total,
                    )
                },
        ),
    )
}

/// The weighted average cost of capital.
pub fn calculate_wacc(
    table: &Arithmetic,
    cost_of_equity: Double,
    cost_of_debt: Double,
    tax_rate: Double,
    market_value_equity: Double,
    market_value_debt: Double,
) -> (r: Result<Double, Halt>)
    ensures
        seen(r) == wacc(
            table.known(),
            table.shown(),
            cost_of_equity,
            cost_of_debt,
            tax_rate,
            market_value_equity,
            market_value_debt,
        ),
{
    validate_capital(
        table,
        cost_of_equity,
        cost_of_debt,
        tax_rate,
        market_value_equity,
        market_value_debt,
    )?;
    let total = table.ask(Operation::Sum(market_value_equity, market_value_debt))?;
    if total.is_zero() {
        return Err(Halt::Failed(FinanceError::DivisionByZero));
    }
    let equity_weight = table.ask(Operation::Quotient(market_value_equity, total))?;
    let debt_weight = table.ask(Operation::Quotient(market_value_debt, total))?;
    let equity_part = table.ask(Operation::Product(equity_weight, cost_of_equity))?;
    let gross = table.ask(Operation::Product(debt_weight, cost_of_debt))?;
    let kept = table.ask(Operation::Difference(Double::from_bits(ONE_BITS), tax_rate))?;
    let debt_part = table.ask(Operation::Product(gross, kept))?;
    table.ask(Operation::Sum(equity_part, debt_part))
}

/// A ratio of an amount that is not negative to a positive one.
pub open spec fn cover(
    known: Map<Operation, Double>,
    shown: Map<Rendering, Seq<char>>,
    amount: Double,
    amount_name: Seq<char>,
    base: Double,
    base_name: Seq<char>,
) -> Result<Double, Stop> {
    after(
        validated_non_negative(shown, amount, amount_name),
        after(
            validated_positive(shown, base, base_name),
            answer(known, Operation::Quotient(amount, base)),
        ),
    )
}

/// Total debt over total equity.
pub fn calculate_debt_to_equity(table: &Arithmetic, total_debt: Double, total_equity: Double) -> (r:
    Result<Double, Halt>)
    ensures
        seen(r) == cover(
            table.known(),
            table.shown(),
            total_debt,
            "Total debt"@,
            total_equity,
            "Total equity"@,
        ),
{
    validate_non_negative(table, total_debt, "Total debt")?;
    validate_positive(table, total_equity, "Total equity")?;
    table.ask(Operation::Quotient(total_debt, total_equity))
}

/// Current assets over current liabilities.
pub fn calculate_current_ratio(
    table: &Arithmetic,
    current_assets: Double,
    current_liabilities: Double,
) -> (r: Result<Double, Halt>)
    ensures
        seen(r) == cover(
            table.known(),
            table.shown(),
            current_assets,
            "Current assets"@,
            current_liabilities,
            "Current liabilities"@,
        ),
{
    validate_non_negative(table, current_assets, "Current assets")?;
    validate_positive(table, current_liabilities, "Current liabilities")?;
    table.ask(Operation::Quotient(current_assets, current_liabilities))
}

/// What `calculate_quick_ratio` returns: current assets less inventory,
/// over current liabilities.
pub open spec fn quick_ratio(
    known: Map<Operation, Double>,
    shown: Map<Rendering, Seq<char>>,
    current_assets: Double,
    inventory: Double,
    current_liabilities: Double,
) -> Result<Double, Stop> {
    after(
        validated_non_negative(shown, current_assets, "Current assets"@),
        after(
            validated_non_negative(shown, inventory, "Inventory"@),
            after(
                validated_positive(shown, current_liabilities, "Current liabilities"@),
                if current_assets.lt(inventory) {
                    invalid("Inventory cannot exceed current assets"@)
                } else {
                    chain(
                        answer(known, Operation::Difference(current_assets, inventory)),
                        |liquid: Double|
                            answer(known, Operation::Quotient(liquid, current_liabilities)),
                    )
                },
            ),
        ),
    )
}

/// Current assets less inventory, over current liabilities.
pub fn calculate_quick_ratio(
    table: &Arithmetic,
    current_assets: Double,
    inventory: Double,
    current_liabilities: Double,
) -> (r: Result<Double, Halt>)
    ensures
        seen(r) == quick_ratio(
            table.known(),
            table.shown(),
            current_assets,
            inventory,
            current_liabilities,
        ),
{
    validate_non_negative(table, current_assets, "Current assets")?;
    validate_non_negative(table, inventory, "Inventory")?;
    validate_positive(table, current_liabilities, "Current liabilities")?;
    if current_assets.lt(inventory) {
        return invalid_input("Inventory cannot exceed current assets");
    }
    let liquid = table.ask(Operation::Difference(current_assets, inventory))?;
    table.ask(Operation::Quotient(liquid, current_liabilities))
}

/// What `calculate_pe_ratio` returns: the price over the earnings per
/// share.
pub open spec fn pe_ratio(
    known: Map<Operation, Double>,
    shown: Map<Rendering, Seq<char>>,
    stock_price: Double,
    earnings_per_share: Double,
) -> Result<Double, Stop> {
    after(
        validated_positive(shown, stock_price, "Stock price"@),
        after(
            validated_positive(shown, earnings_per_share, "Earnings per share"@),
            answer(known, Operation::Quotient(stock_price, earnings_per_share)),
        ),
    )
}

/// The price of a share over its earnings.
pub fn calculate_pe_ratio(table: &Arithmetic, stock_price: Double, earnings_per_share: Double) -> (r:
    Result<Double, Halt>)
    ensures
        seen(r) == pe_ratio(table.known(), table.shown(), stock_price, earnings_per_share),
{
    validate_positive(table, stock_price, "Stock price")?;
    validate_positive(table, earnings_per_share, "Earnings per share")?;
    table.ask(Operation::Quotient(stock_price, earnings_per_share))
}

/// What a ratio has settled stays settled: on a table
/// that holds more it returns the same; and what it asks for, the table
/// lacks.
pub proof fn lemma_ratios_settle(
    fewer: Map<Operation, Double>,
    more: Map<Operation, Double>,
    fewer_texts: Map<Rendering, Seq<char>>,
    more_texts: Map<Rendering, Seq<char>>,
    a: Double,
    b: Double,
    c: Double,
    d: Double,
    e: Double,
    first: Seq<char>,
    second: Seq<char>,
    first_amount: Option<Money>,
    second_amount: Option<Money>,
)
    requires
        fewer.submap_of(more),
        fewer_texts.submap_of(more_texts),
    ensures
        settled(roe(fewer_texts, a, b, first_amount, second_amount))
            ==> roe(more_texts, a, b, first_amount, second_amount)
            == roe(fewer_texts, a, b, first_amount, second_amount),
        asks_anew(fewer, fewer_texts, roe(fewer_texts, a, b, first_amount, second_amount)),
        settled(roa(fewer, fewer_texts, a, b))
            ==> roa(more, more_texts, a, b)
            == roa(fewer, fewer_texts, a, b),
        asks_anew(fewer, fewer_texts, roa(fewer, fewer_texts, a, b)),
        settled(dividend_yield(fewer, fewer_texts, a, b))
            ==> dividend_yield(more, more_texts, a, b)
            == dividend_yield(fewer, fewer_texts, a, b),
        asks_anew(fewer, fewer_texts, dividend_yield(fewer, fewer_texts, a, b)),
        settled(wacc(fewer, fewer_texts, a, b, c, d, e))
            ==> wacc(more, more_texts, a, b, c, d, e)
            == wacc(fewer, fewer_texts, a, b, c, d, e),
        asks_anew(fewer, fewer_texts, wacc(fewer, fewer_texts, a, b, c, d, e)),
        settled(cover(fewer, fewer_texts, a, first, b, second))
            ==> cover(more, more_texts, a, first, b, second)
            == cover(fewer, fewer_texts, a, first, b, second),
        asks_anew(fewer, fewer_texts, cover(fewer, fewer_texts, a, first, b, second)),
        settled(quick_ratio(fewer, fewer_texts, a, b, c))
            ==> quick_ratio(more, more_texts, a, b, c)
            == quick_ratio(fewer, fewer_texts, a, b, c),
        asks_anew(fewer, fewer_texts, quick_ratio(fewer, fewer_texts, a, b, c)),
        settled(pe_ratio(fewer, fewer_texts, a, b))
            ==> pe_ratio(more, more_texts, a, b)
            == pe_ratio(fewer, fewer_texts, a, b),
        asks_anew(fewer, fewer_texts, pe_ratio(fewer, fewer_texts, a, b)),
{
}

} // verus!
