use rusty_finance::arithmetic::Arithmetic;
use rusty_finance::calculations::{calculate_compound_interest, calculate_future_value, calculate_present_value, calculate_simple_interest, rate_as_fraction};
use rusty_finance::double::Double;
use rusty_finance::error::{FinanceError, Halt};
use rusty_finance::operation::{Operation, Rendering};

#[allow(dead_code)]
fn number(value: f64) -> Double {
    Double::from_bits(value.to_bits())
}

#[allow(dead_code)]
fn value(number: Double) -> f64 {
    f64::from_bits(number.to_bits())
}

#[allow(dead_code)]
fn perform(operation: Operation) -> Double {
    let result = match operation {
        Operation::Sum(a, b) => value(a) + value(b),
        Operation::Difference(a, b) => value(a) - value(b),
        Operation::Product(a, b) => value(a) * value(b),
        Operation::Quotient(a, b) => value(a) / value(b),
        Operation::Power(a, b) => value(a).powf(value(b)),
        Operation::IntegerPower(a, n) => value(a).powi(n),
        Operation::SquareRoot(a) => value(a).sqrt(),
        Operation::Rounded(a, digits) => {
            format!("{:.1$}", value(a), digits as usize).parse::<f64>().unwrap()
        }
    };
    number(result)
}

#[allow(dead_code)]
fn render(rendering: Rendering) -> String {
    match rendering {
        Rendering::Shortest(a) => format!("{}", value(a)),
        Rendering::Fixed(a, digits) => format!("{:.1$}", value(a), digits),
    }
}

#[allow(dead_code)]
fn run<T>(calculation: impl Fn(&Arithmetic) -> Result<T, Halt>) -> Result<T, FinanceError> {
    let mut table = Arithmetic::new();
    loop {
        match calculation(&table) {
            Ok(result) => return Ok(result),
            Err(Halt::Failed(error)) => return Err(error),
            Err(Halt::Needs(operation)) => table.record(operation, perform(operation)),
            Err(Halt::NeedsText(rendering)) => table.record_text(rendering, render(rendering)),
        }
    }
}

#[allow(dead_code)]
fn numbers(values: &[f64]) -> Vec<Double> {
    values.iter().map(|v| number(*v)).collect()
}

#[test]
fn test_simple_interest() {
    let result = run(|t| calculate_simple_interest(t, number(1000.0), number(0.05), number(2.0))).unwrap();
    assert_eq!(value(result), 100.0);
}

#[test]
fn test_simple_interest_zero_rate() {
    let result = run(|t| calculate_simple_interest(t, number(1000.0), number(0.0), number(2.0))).unwrap();
    assert_eq!(value(result), 0.0);
}

#[test]
fn test_simple_interest_invalid_principal() {
    assert!(run(|t| calculate_simple_interest(t, number(-1000.0), number(0.05), number(2.0))).is_err());
    assert!(run(|t| calculate_simple_interest(t, number(0.0), number(0.05), number(2.0))).is_err());
}

#[test]
fn test_compound_interest() {
    let result = run(|t| calculate_compound_interest(t, number(1000.0), number(0.05), 12, 1)).unwrap();
    assert!((value(result) - 1051.16).abs() < 0.01);
}

#[test]
fn test_compound_interest_invalid_frequency() {
    assert!(run(|t| calculate_compound_interest(t, number(1000.0), number(0.05), 0, 1)).is_err());
    assert!(run(|t| calculate_compound_interest(t, number(1000.0), number(0.05), -1, 1)).is_err());
}

#[test]
fn test_present_value() {
    let result = run(|t| calculate_present_value(t, number(1102.50), number(0.05), number(2.0))).unwrap();
    assert!((value(result) - 1000.0).abs() < 0.01);
}

#[test]
fn test_present_value_high_rate() {
    assert!(run(|t| calculate_present_value(t, number(1000.0), number(1.5), number(2.0))).is_err());
}

#[test]
fn test_future_value() {
    let result = run(|t| calculate_future_value(t, number(1000.0), number(0.05), number(2.0))).unwrap();
    assert!((value(result) - 1102.50).abs() < 0.01);
}

#[test]
fn test_future_value_zero_time() {
    let result = run(|t| calculate_future_value(t, number(1000.0), number(0.05), number(0.0))).unwrap();
    assert_eq!(value(result), 1000.0);
}

#[test]
fn simple_interest_is_the_product_of_its_terms() {
    for (p, r, t) in [(1000.0, 0.05, 2.0), (12345.678, 0.0375, 7.25), (1e15, 0.5, 3.0), (0.01, 1e-9, 1e6)] {
        let result = run(|table| calculate_simple_interest(table, number(p), number(r), number(t))).unwrap();
        assert_eq!(value(result), p * r * t);
    }
}

#[test]
fn simple_interest_checks_in_order() {
    let error = run(|t| calculate_simple_interest(t, number(f64::NAN), number(-1.0), number(2.0))).unwrap_err();
    assert!(matches!(error, FinanceError::InvalidInput(text) if text == "Principal must be a valid number: NaN"));
    let error = run(|t| calculate_simple_interest(t, number(1000.0), number(-1.0), number(-2.0))).unwrap_err();
    assert!(matches!(error, FinanceError::InvalidInput(text) if text == "Interest rate must be non-negative: -1"));
    let error = run(|t| calculate_simple_interest(t, number(1000.0), number(1.0), number(-2.0))).unwrap_err();
    assert!(matches!(error, FinanceError::InvalidInput(text) if text == "Time must be non-negative: -2"));
    let error = run(|t| calculate_simple_interest(t, number(1e16), number(1.0), number(2.0))).unwrap_err();
    assert!(matches!(error, FinanceError::InvalidInput(text) if text == "Principal value too large for safe calculation: 10000000000000000"));
    let error = run(|t| calculate_simple_interest(t, number(1e15), number(1e300), number(2.0))).unwrap_err();
    assert!(matches!(error, FinanceError::Overflow));
}

#[test]
fn compound_interest_follows_the_formula() {
    let result = run(|t| calculate_compound_interest(t, number(1000.0), number(0.05), 12, 1)).unwrap();
    assert_eq!(value(result), 1000.0 * (1.0 + 0.05 / 12.0f64).powf(12.0));
    let result = run(|t| calculate_compound_interest(t, number(2500.0), number(0.08), 4, 0)).unwrap();
    assert_eq!(value(result), 2500.0);
    let error = run(|t| calculate_compound_interest(t, number(1000.0), number(0.05), 12, -1)).unwrap_err();
    assert!(matches!(error, FinanceError::InvalidInput(text) if text == "Years must be non-negative"));
    let error = run(|t| calculate_compound_interest(t, number(1000.0), number(0.05), 0, -1)).unwrap_err();
    assert!(matches!(error, FinanceError::InvalidInput(text) if text == "Compound frequency must be positive"));
    let error = run(|t| calculate_compound_interest(t, number(1000.0), number(0.05), 12, 10)).unwrap_err();
    assert!(matches!(error, FinanceError::InvalidInput(text) if text == "Exponent too large for safe calculation: 120"));
}

#[test]
fn compound_interest_refuses_more_than_a_hundred_periods() {
    for (frequency, years) in [(65536, 65536), (12, 9), (101, 1), (1, 101), (i32::MAX, i32::MAX), (46341, 46341)] {
        let error = run(|t| calculate_compound_interest(t, number(1000.0), number(0.05), frequency, years)).unwrap_err();
        assert!(matches!(error, FinanceError::InvalidInput(_)), "{frequency} x {years}");
    }
    let error = run(|t| calculate_compound_interest(t, number(1000.0), number(0.05), 65536, 65536)).unwrap_err();
    assert!(matches!(error, FinanceError::InvalidInput(text) if text == "Exponent too large for safe calculation: 4294967296"));
    assert!(run(|t| calculate_compound_interest(t, number(1000.0), number(0.05), 100, 1)).is_ok());
    assert!(run(|t| calculate_compound_interest(t, number(1000.0), number(0.05), 4, 25)).is_ok());
    for (frequency, years) in [(0, 1), (-1, 1), (i32::MIN, 5), (12, -1), (i32::MAX, i32::MIN), (0, -1)] {
        let error = run(|t| calculate_compound_interest(t, number(1000.0), number(0.05), frequency, years)).unwrap_err();
        assert!(matches!(error, FinanceError::InvalidInput(_)), "{frequency} x {years}");
    }
}

#[test]
fn rates_above_one_are_percentages() {
    assert_eq!(value(run(|t| rate_as_fraction(t, number(5.0))).unwrap()), 0.05);
    assert_eq!(value(run(|t| rate_as_fraction(t, number(0.05))).unwrap()), 0.05);
    assert_eq!(value(run(|t| rate_as_fraction(t, number(1.0))).unwrap()), 1.0);
    assert_eq!(value(run(|t| rate_as_fraction(t, number(-3.0))).unwrap()), -3.0);
    assert!(value(run(|t| rate_as_fraction(t, number(f64::NAN))).unwrap()).is_nan());
}

#[test]
fn present_value_undoes_future_value() {
    for (amount, rate, time) in [(1102.50, 0.05, 2.0), (250000.0, 0.0725, 30.0), (1.0, 0.999, 99.0)] {
        let present = run(|t| calculate_present_value(t, number(amount), number(rate), number(time))).unwrap();
        let future = run(|t| calculate_future_value(t, present, number(rate), number(time))).unwrap();
        assert!((value(future) - amount).abs() <= amount * 1e-12);
    }
}

#[test]
fn present_value_refuses_rates_of_one_and_more() {
    let error = run(|t| calculate_present_value(t, number(1000.0), number(1.0), number(2.0))).unwrap_err();
    assert!(matches!(error, FinanceError::InvalidInput(text) if text == "Discount rate should be less than 100%"));
    assert!(run(|t| calculate_present_value(t, number(1000.0), number(0.9999), number(2.0))).is_ok());
    assert!(run(|t| calculate_future_value(t, number(1000.0), number(1.5), number(2.0))).is_ok());
    let result = run(|t| calculate_present_value(t, number(1000.0), number(0.05), number(2.0))).unwrap();
    assert_eq!(value(result), 1000.0 / 1.05f64.powf(2.0));
}
