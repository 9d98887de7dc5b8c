//! The calculations, by subject.

pub mod interest;
pub mod investment;
pub mod loan;
pub mod ratios;
pub mod statistics;

pub use self::interest::{calculate_compound_interest, calculate_future_value,
    calculate_present_value, calculate_simple_interest, rate_as_fraction, validate_compounding};
pub use self::investment::{calculate_capm, calculate_dcf, calculate_npv,
    calculate_payback_period, calculate_roi, discount, interpolate};
pub use self::loan::{AmortizationPayment, MAX_TERM_YEARS, calculate_break_even_analysis,
    calculate_break_even_units, calculate_loan_payment, calculate_mortgage_details,
    generate_amortization_schedule, is_milestone, level_payment_of, monthly_rate_of,
    next_payment_of, summarize_loan, validate_loan};
pub use self::ratios::{calculate_current_ratio, calculate_debt_to_equity,
    calculate_dividend_yield, calculate_pe_ratio, calculate_quick_ratio, calculate_roa,
    calculate_roe, calculate_wacc, percentage_of, return_on_equity};
pub use self::statistics::{MODE_DIGITS, add_weight, arrange, calculate_mean, calculate_median,
    calculate_mode, calculate_probability, calculate_sample_standard_deviation,
    calculate_sample_variance, calculate_standard_deviation, calculate_variance,
    calculate_weighted_average, check_numbers, count_of, mode_among, round_all, squares_of,
    sum_of};
