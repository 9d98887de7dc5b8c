use rusty_finance::arithmetic::Arithmetic;
use rusty_finance::calculations::{calculate_capm, calculate_dcf, calculate_npv, calculate_payback_period, calculate_roi};
use rusty_finance::double::Double;
use rusty_finance::error::{FinanceError, Halt};
use rusty_finance::operation::{Operation, Rendering};

#[allow(dead_code)]
fn number(value: f64) -> Double {
    Double::from_bits(value.to_bits())
}

#[allow(dead_code)]
fn value(number: Double) -> f64 {
    f64::from_bits(number.to_bits())
}

#[allow(dead_code)]
fn perform(operation: Operation) -> Double {
    let result = match operation {
        Operation::Sum(a, b) => value(a) + value(b),
        Operation::Difference(a, b) => value(a) - value(b),
        Operation::Product(a, b) => value(a) * value(b),
        Operation::Quotient(a, b) => value(a) / value(b),
        Operation::Power(a, b) => value(a).powf(value(b)),
        Operation::IntegerPower(a, n) => value(a).powi(n),
        Operation::SquareRoot(a) => value(a).sqrt(),
        Operation::Rounded(a, digits) => {
            format!("{:.1$}", value(a), digits as usize).parse::<f64>().unwrap()
        }
    };
    number(result)
}

#[allow(dead_code)]
fn render(rendering: Rendering) -> String {
    match rendering {
        Rendering::Shortest(a) => format!("{}", value(a)),
        Rendering::Fixed(a, digits) => format!("{:.1$}", value(a), digits),
    }
}

#[allow(dead_code)]
fn run<T>(calculation: impl Fn(&Arithmetic) -> Result<T, Halt>) -> Result<T, FinanceError> {
    let mut table = Arithmetic::new();
    loop {
        match calculation(&table) {
            Ok(result) => return Ok(result),
            Err(Halt::Failed(error)) => return Err(error),
            Err(Halt::Needs(operation)) => table.record(operation, perform(operation)),
            Err(Halt::NeedsText(rendering)) => table.record_text(rendering, render(rendering)),
        }
    }
}

#[allow(dead_code)]
fn numbers(values: &[f64]) -> Vec<Double> {
    values.iter().map(|v| number(*v)).collect()
}

#[test]
fn test_npv_positive() {
    let cash_flows = numbers(&[1000.0, 1000.0, 1000.0]);
    let npv = run(|t| calculate_npv(t, number(2000.0), &cash_flows, number(0.05))).unwrap();
    assert!(value(npv) > 0.0);
}

#[test]
fn test_npv_negative() {
    let cash_flows = numbers(&[100.0, 100.0, 100.0]);
    let npv = run(|t| calculate_npv(t, number(1000.0), &cash_flows, number(0.10))).unwrap();
    assert!(value(npv) < 0.0);
}

#[test]
fn test_npv_empty_cash_flows() {
    let cash_flows = numbers(&[]);
    assert!(run(|t| calculate_npv(t, number(1000.0), &cash_flows, number(0.10))).is_err());
}

#[test]
fn test_roi_positive() {
    let roi = run(|t| calculate_roi(t, number(500.0), number(2000.0))).unwrap();
    assert_eq!(value(roi), 25.0);
}

#[test]
fn test_roi_negative() {
    let roi = run(|t| calculate_roi(t, number(-500.0), number(2000.0))).unwrap();
    assert_eq!(value(roi), -25.0);
}

#[test]
fn test_dcf() {
    let cash_flows = numbers(&[1000.0, 2000.0, 3000.0]);
    let dcf = run(|t| calculate_dcf(t, &cash_flows, number(0.10))).unwrap();
    assert!(value(dcf) > 4000.0); // Should be less than sum due to discounting
}

#[test]
fn test_payback_period_exact() {
    let cash_flows = numbers(&[100.0, 200.0, 300.0]);
    let payback = run(|t| calculate_payback_period(t, number(300.0), &cash_flows)).unwrap();
    assert_eq!(payback.map(value), Some(3.0)); // Pays back exactly at end of year 3 with 100+200+0 = 300
}

#[test]
fn test_payback_period_interpolated() {
    let cash_flows = numbers(&[100.0, 200.0, 300.0]);
    let payback = run(|t| calculate_payback_period(t, number(250.0), &cash_flows)).unwrap();
    assert!((value(payback.unwrap()) - 2.75).abs() < 0.001); // 100 + 150/200 = 1.75, then +1 = 2.75 years
}

#[test]
fn test_payback_period_never() {
    let cash_flows = numbers(&[100.0, 100.0, 100.0]);
    let payback = run(|t| calculate_payback_period(t, number(1000.0), &cash_flows)).unwrap();
    assert_eq!(payback.map(value), None);
}

#[test]
fn test_capm() {
    let expected_return = run(|t| calculate_capm(t, number(0.05), number(1.2), number(0.10))).unwrap();
    assert!((value(expected_return) - 0.11).abs() < 0.001);
}

#[test]
fn test_capm_zero_beta() {
    let expected_return = run(|t| calculate_capm(t, number(0.05), number(0.0), number(0.10))).unwrap();
    assert_eq!(value(expected_return), 0.05);
}

#[test]
fn npv_is_the_discounted_sum_less_the_investment() {
    let cash_flows = numbers(&[100.0, 200.0, 300.0]);
    let npv = run(|t| calculate_npv(t, number(500.0), &cash_flows, number(0.10))).unwrap();
    let expected = -500.0 + 100.0 / 1.1f64.powf(1.0) + 200.0 / 1.1f64.powf(2.0) + 300.0 / 1.1f64.powf(3.0);
    assert_eq!(value(npv), expected);
}

#[test]
fn npv_does_not_check_its_flows() {
    let cash_flows = numbers(&[100.0, f64::INFINITY]);
    let npv = run(|t| calculate_npv(t, number(500.0), &cash_flows, number(0.10))).unwrap();
    assert_eq!(value(npv), f64::INFINITY);
    let error = run(|t| calculate_npv(t, number(500.0), &cash_flows, number(-0.10))).unwrap_err();
    assert!(matches!(error, FinanceError::InvalidInput(text) if text == "Discount rate must be non-negative: -0.1"));
}

#[test]
fn dcf_checks_each_flow_and_the_rate() {
    let cash_flows = numbers(&[1000.0, 2000.0, 3000.0]);
    let dcf = run(|t| calculate_dcf(t, &cash_flows, number(0.10))).unwrap();
    let expected = 0.0 + 1000.0 / 1.1f64.powf(1.0) + 2000.0 / 1.1f64.powf(2.0) + 3000.0 / 1.1f64.powf(3.0);
    assert_eq!(value(dcf), expected);
    let bad = numbers(&[1000.0, f64::NAN, 3000.0]);
    let error = run(|t| calculate_dcf(t, &bad, number(0.10))).unwrap_err();
    assert!(matches!(error, FinanceError::InvalidInput(text) if text == "Cash flow at year 2 is invalid"));
    let error = run(|t| calculate_dcf(t, &cash_flows, number(-1.0))).unwrap_err();
    assert!(matches!(error, FinanceError::InvalidInput(text) if text == "Discount rate must be greater than -1"));
    let error = run(|t| calculate_dcf(t, &numbers(&[]), number(0.1))).unwrap_err();
    assert!(matches!(error, FinanceError::InvalidInput(text) if text == "Cash flows cannot be empty"));
    let error = run(|t| calculate_dcf(t, &cash_flows, number(f64::NAN))).unwrap_err();
    assert!(matches!(error, FinanceError::InvalidInput(text) if text == "Discount rate must be a valid number: NaN"));
    let dcf = run(|t| calculate_dcf(t, &cash_flows, number(-0.5))).unwrap();
    assert_eq!(value(dcf), 0.0 + 1000.0 / 0.5f64.powf(1.0) + 2000.0 / 0.5f64.powf(2.0) + 3000.0 / 0.5f64.powf(3.0));
}

#[test]
fn payback_period_checks_flows_up_to_the_crossing() {
    let cash_flows = numbers(&[100.0, 200.0, f64::NAN]);
    let payback = run(|t| calculate_payback_period(t, number(250.0), &cash_flows)).unwrap();
    assert_eq!(payback.map(value), Some(2.75));
    let error = run(|t| calculate_payback_period(t, number(1000.0), &cash_flows)).unwrap_err();
    assert!(matches!(error, FinanceError::InvalidInput(text) if text == "Cash flow at year 3 is invalid"));
    let error = run(|t| calculate_payback_period(t, number(0.0), &cash_flows)).unwrap_err();
    assert!(matches!(error, FinanceError::InvalidInput(text) if text == "Initial cost must be positive: 0"));
    let first = run(|t| calculate_payback_period(t, number(50.0), &cash_flows)).unwrap();
    assert_eq!(first.map(value), Some(1.5));
}

#[test]
fn roi_and_capm_refuse_what_is_not_a_number() {
    let error = run(|t| calculate_roi(t, number(f64::NAN), number(2000.0))).unwrap_err();
    assert!(matches!(error, FinanceError::InvalidInput(text) if text == "Net profit must be a valid number"));
    assert!(run(|t| calculate_roi(t, number(500.0), number(0.0))).is_err());
    let error = run(|t| calculate_capm(t, number(0.05), number(f64::INFINITY), number(0.1))).unwrap_err();
    assert!(matches!(error, FinanceError::InvalidInput(text) if text == "Beta must be a valid number"));
    let error = run(|t| calculate_capm(t, number(0.05), number(1.0), number(f64::NAN))).unwrap_err();
    assert!(matches!(error, FinanceError::InvalidInput(text) if text == "Market return must be a valid number"));
    assert!(run(|t| calculate_capm(t, number(-0.05), number(1.0), number(0.1))).is_err());
    let expected_return = run(|t| calculate_capm(t, number(0.05), number(-1.2), number(0.10))).unwrap();
    assert_eq!(value(expected_return), 0.05 + -1.2 * (0.10 - 0.05));
}
