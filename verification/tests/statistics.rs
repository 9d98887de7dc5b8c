use rusty_finance::arithmetic::Arithmetic;
use rusty_finance::calculations::{add_weight, arrange, calculate_mean, calculate_median, calculate_mode, calculate_probability, calculate_sample_standard_deviation, calculate_sample_variance, calculate_standard_deviation, calculate_variance, calculate_weighted_average, mode_among};
use rusty_finance::double::Double;
use rusty_finance::error::{FinanceError, Halt};
use rusty_finance::operation::{Operation, Rendering};

#[allow(dead_code)]
fn number(value: f64) -> Double {
    Double::from_bits(value.to_bits())
}

#[allow(dead_code)]
fn value(number: Double) -> f64 {
    f64::from_bits(number.to_bits())
}

#[allow(dead_code)]
fn perform(operation: Operation) -> Double {
    let result = match operation {
        Operation::Sum(a, b) => value(a) + value(b),
        Operation::Difference(a, b) => value(a) - value(b),
        Operation::Product(a, b) => value(a) * value(b),
        Operation::Quotient(a, b) => value(a) / value(b),
        Operation::Power(a, b) => value(a).powf(value(b)),
        Operation::IntegerPower(a, n) => value(a).powi(n),
        Operation::SquareRoot(a) => value(a).sqrt(),
        Operation::Rounded(a, digits) => {
            format!("{:.1$}", value(a), digits as usize).parse::<f64>().unwrap()
        }
    };
    number(result)
}

#[allow(dead_code)]
fn render(rendering: Rendering) -> String {
    match rendering {
        Rendering::Shortest(a) => format!("{}", value(a)),
        Rendering::Fixed(a, digits) => format!("{:.1$}", value(a), digits),
    }
}

#[allow(dead_code)]
fn run<T>(calculation: impl Fn(&Arithmetic) -> Result<T, Halt>) -> Result<T, FinanceError> {
    let mut table = Arithmetic::new();
    loop {
        match calculation(&table) {
            Ok(result) => return Ok(result),
            Err(Halt::Failed(error)) => return Err(error),
            Err(Halt::Needs(operation)) => table.record(operation, perform(operation)),
            Err(Halt::NeedsText(rendering)) => table.record_text(rendering, render(rendering)),
        }
    }
}

#[allow(dead_code)]
fn numbers(values: &[f64]) -> Vec<Double> {
    values.iter().map(|v| number(*v)).collect()
}

#[test]
fn test_calculate_mean() {
    let numbers = numbers(&[1.0, 2.0, 3.0, 4.0, 5.0]);
    let mean = run(|t| calculate_mean(t, &numbers)).unwrap();
    assert_eq!(value(mean), 3.0);
}

#[test]
fn test_calculate_mean_empty() {
    let numbers = numbers(&[]);
    assert!(run(|t| calculate_mean(t, &numbers)).is_err());
}

#[test]
fn test_calculate_mean_invalid_number() {
    let numbers = numbers(&[1.0, f64::NAN, 3.0]);
    assert!(run(|t| calculate_mean(t, &numbers)).is_err());
}

#[test]
fn test_calculate_median_odd() {
    let numbers = numbers(&[1.0, 2.0, 3.0, 4.0, 5.0]);
    let median = run(|t| calculate_median(t, &numbers)).unwrap();
    assert_eq!(value(median), 3.0);
}

#[test]
fn test_calculate_median_even() {
    let numbers = numbers(&[1.0, 2.0, 3.0, 4.0]);
    let median = run(|t| calculate_median(t, &numbers)).unwrap();
    assert_eq!(value(median), 2.5);
}

#[test]
fn test_calculate_mode_single() {
    let numbers = numbers(&[1.0, 2.0, 2.0, 3.0, 4.0]);
    let mode = run(|t| calculate_mode(t, &numbers)).unwrap();
    assert_eq!(mode.map(value), Some(2.0));
}

#[test]
fn test_calculate_mode_none() {
    let numbers = numbers(&[1.0, 2.0, 3.0, 4.0]);
    let mode = run(|t| calculate_mode(t, &numbers)).unwrap();
    assert_eq!(mode.map(value), None);
}

#[test]
fn test_calculate_variance() {
    let numbers = numbers(&[1.0, 2.0, 3.0, 4.0, 5.0]);
    let variance = run(|t| calculate_variance(t, &numbers)).unwrap();
    assert_eq!(value(variance), 2.0);
}

#[test]
fn test_calculate_sample_variance() {
    let numbers = numbers(&[1.0, 2.0, 3.0, 4.0, 5.0]);
    let variance = run(|t| calculate_sample_variance(t, &numbers)).unwrap();
    assert_eq!(value(variance), 2.5);
}

#[test]
fn test_calculate_standard_deviation() {
    let numbers = numbers(&[1.0, 2.0, 3.0, 4.0, 5.0]);
    let std_dev = run(|t| calculate_standard_deviation(t, &numbers)).unwrap();
    assert!((value(std_dev) - 1.4142135623730951).abs() < 1e-10);
}

#[test]
fn test_calculate_probability() {
    let prob = run(|t| calculate_probability(t, 3, 5)).unwrap();
    assert_eq!(value(prob), 0.6);
}

#[test]
fn test_calculate_probability_invalid() {
    assert!(run(|t| calculate_probability(t, 6, 5)).is_err());
    assert!(run(|t| calculate_probability(t, 1, 0)).is_err());
}

#[test]
fn test_calculate_weighted_average() {
    let numbers = numbers(&[10.0, 20.0, 30.0]);
    let weights = self::numbers(&[0.2, 0.3, 0.5]);
    let weighted_avg = run(|t| calculate_weighted_average(t, &numbers, &weights)).unwrap();
    assert_eq!(value(weighted_avg), 23.0);
}

#[test]
fn test_calculate_weighted_average_mismatched_lengths() {
    let numbers = numbers(&[10.0, 20.0]);
    let weights = self::numbers(&[0.2, 0.3, 0.5]);
    assert!(run(|t| calculate_weighted_average(t, &numbers, &weights)).is_err());
}

#[test]
fn test_calculate_weighted_average_zero_weights() {
    let numbers = numbers(&[10.0, 20.0, 30.0]);
    let weights = self::numbers(&[0.0, 0.0, 0.0]);
    assert!(run(|t| calculate_weighted_average(t, &numbers, &weights)).is_err());
}

#[test]
fn mean_reports_the_first_bad_index() {
    let data = numbers(&[1.0, 2.0, f64::INFINITY, f64::NAN]);
    let error = run(|t| calculate_mean(t, &data)).unwrap_err();
    assert!(matches!(error, FinanceError::InvalidInput(text) if text == "Invalid number at index 2: inf"));
    let error = run(|t| calculate_mean(t, &numbers(&[]))).unwrap_err();
    assert!(matches!(error, FinanceError::InvalidInput(text) if text == "Cannot calculate mean of empty dataset"));
    let long: Vec<f64> = (0..12).map(|i| if i == 11 { f64::NAN } else { i as f64 }).collect();
    let error = run(|t| calculate_mean(t, &numbers(&long))).unwrap_err();
    assert!(matches!(error, FinanceError::InvalidInput(text) if text == "Invalid number at index 11: NaN"));
    let mean = run(|t| calculate_mean(t, &numbers(&[0.1, 0.2, 0.4]))).unwrap();
    assert_eq!(value(mean), (0.0 + 0.1 + 0.2 + 0.4) / 3.0);
}

#[test]
fn median_sorts_before_it_picks() {
    let median = run(|t| calculate_median(t, &numbers(&[5.0, 1.0, 4.0, 2.0, 3.0]))).unwrap();
    assert_eq!(value(median), 3.0);
    let median = run(|t| calculate_median(t, &numbers(&[4.0, -1.0, 10.0, 2.5]))).unwrap();
    assert_eq!(value(median), (2.5 + 4.0) / 2.0);
    let median = run(|t| calculate_median(t, &numbers(&[7.0]))).unwrap();
    assert_eq!(value(median), 7.0);
    let error = run(|t| calculate_median(t, &numbers(&[]))).unwrap_err();
    assert!(matches!(error, FinanceError::InvalidInput(text) if text == "Cannot calculate median of empty dataset"));
    let error = run(|t| calculate_median(t, &numbers(&[f64::NAN, 1.0]))).unwrap_err();
    assert!(matches!(error, FinanceError::InvalidInput(text) if text == "Invalid number at index 0: NaN"));
}

#[test]
fn arrange_orders_as_the_numbers_do() {
    let data = [3.5, -2.0, 0.0, -0.0, 1e300, -1e-300, 7.0, -2.0, f64::MIN_POSITIVE, 2.0];
    let sorted: Vec<f64> = arrange(&numbers(&data)).into_iter().map(value).collect();
    let mut expected = data.to_vec();
    expected.sort_by(|a, b| a.partial_cmp(b).unwrap());
    assert_eq!(sorted.len(), expected.len());
    for (a, b) in sorted.iter().zip(expected.iter()) {
        assert_eq!(a.to_bits(), b.to_bits());
    }
}

#[test]
fn mode_of_a_tie_is_the_smallest() {
    let mode = run(|t| calculate_mode(t, &numbers(&[3.0, 1.0, 2.0, 3.0, 2.0, 1.0]))).unwrap();
    assert_eq!(mode.map(value), Some(1.0));
    let mode = run(|t| calculate_mode(t, &numbers(&[5.0, 5.0, -7.0, -7.0, 9.0]))).unwrap();
    assert_eq!(mode.map(value), Some(-7.0));
    let mode = run(|t| calculate_mode(t, &numbers(&[4.0, 4.0, 4.0, 1.0, 1.0]))).unwrap();
    assert_eq!(mode.map(value), Some(4.0));
    let mode = run(|t| calculate_mode(t, &numbers(&[]))).unwrap();
    assert_eq!(mode.map(value), None);
    let mode = run(|t| calculate_mode(t, &numbers(&[2.0]))).unwrap();
    assert_eq!(mode.map(value), None);
    let error = run(|t| calculate_mode(t, &numbers(&[2.0, f64::NAN]))).unwrap_err();
    assert!(matches!(error, FinanceError::InvalidInput(text) if text == "Invalid number at index 1: NaN"));
}

#[test]
fn mode_does_not_depend_on_the_order() {
    let data = [3.0, 1.0, 2.0, 3.0, 2.0, 1.0, 7.0, -4.5, -4.5];
    let expected = run(|t| calculate_mode(t, &numbers(&data))).unwrap().map(value);
    assert_eq!(expected, Some(-4.5));
    let mut turned = data.to_vec();
    for _ in 0..data.len() {
        turned.rotate_left(1);
        assert_eq!(run(|t| calculate_mode(t, &numbers(&turned))).unwrap().map(value), expected);
        let mut back = turned.clone();
        back.reverse();
        assert_eq!(run(|t| calculate_mode(t, &numbers(&back))).unwrap().map(value), expected);
        assert_eq!(mode_among(&numbers(&back)).map(value), expected);
    }
    assert_eq!(mode_among(&numbers(&[0.0, -0.0, 0.0, -0.0])).map(value), Some(0.0));
    assert_eq!(mode_among(&numbers(&[-0.0, 0.0, -0.0, 0.0])).map(value), Some(0.0));
}

#[test]
fn mode_merges_within_ten_digits() {
    let mode = run(|t| calculate_mode(t, &numbers(&[1.00000000001, 1.00000000002, 2.0]))).unwrap();
    assert_eq!(mode.map(value), Some(1.0));
    let mode = run(|t| calculate_mode(t, &numbers(&[1.0000000001, 1.0000000002, 2.0]))).unwrap();
    assert_eq!(mode.map(value), None);
}

#[test]
fn mode_among_keys() {
    assert_eq!(mode_among(&numbers(&[1.0, 2.0, 2.0, 3.0, 4.0])).map(value), Some(2.0));
    assert_eq!(mode_among(&numbers(&[1.0, 2.0, 3.0, 4.0])).map(value), None);
    assert_eq!(mode_among(&numbers(&[])).map(value), None);
    assert_eq!(mode_among(&numbers(&[9.0, 8.0, 7.0, 9.0, 8.0, 7.0])).map(value), Some(7.0));
}

#[test]
fn variance_needs_two_numbers() {
    let error = run(|t| calculate_variance(t, &numbers(&[1.0]))).unwrap_err();
    assert!(matches!(error, FinanceError::InvalidInput(text) if text == "At least two numbers are required to calculate variance"));
    let error = run(|t| calculate_sample_variance(t, &numbers(&[]))).unwrap_err();
    assert!(matches!(error, FinanceError::InvalidInput(text) if text == "At least two numbers are required to calculate sample variance"));
    assert!(run(|t| calculate_standard_deviation(t, &numbers(&[1.0]))).is_err());
    assert!(run(|t| calculate_sample_standard_deviation(t, &numbers(&[1.0, f64::NAN]))).is_err());
    let deviation = run(|t| calculate_sample_standard_deviation(t, &numbers(&[1.0, 2.0, 3.0, 4.0, 5.0]))).unwrap();
    assert!((value(deviation) - 1.5811388300841898).abs() < 1e-10);
    let variance = run(|t| calculate_variance(t, &numbers(&[2.0, 4.0]))).unwrap();
    assert_eq!(value(variance), 1.0);
    let variance = run(|t| calculate_sample_variance(t, &numbers(&[2.0, 4.0]))).unwrap();
    assert_eq!(value(variance), 2.0);
}

#[test]
fn probability_tells_its_errors_apart() {
    let error = run(|t| calculate_probability(t, 1, 0)).unwrap_err();
    assert!(matches!(error, FinanceError::DivisionByZero));
    let error = run(|t| calculate_probability(t, 0, 0)).unwrap_err();
    assert!(matches!(error, FinanceError::DivisionByZero));
    let error = run(|t| calculate_probability(t, 6, 5)).unwrap_err();
    assert!(matches!(error, FinanceError::InvalidInput(text) if text == "Successes cannot exceed trials"));
    assert_eq!(value(run(|t| calculate_probability(t, 5, 5)).unwrap()), 1.0);
    assert_eq!(value(run(|t| calculate_probability(t, 0, 5)).unwrap()), 0.0);
    assert_eq!(value(run(|t| calculate_probability(t, 1, u32::MAX)).unwrap()), 1.0 / (u32::MAX as f64));
}

#[test]
fn zeros_are_added_without_the_arithmetic_unit() {
    let table = Arithmetic::new();
    for a in [0.0f64, -0.0] {
        for b in [0.0f64, -0.0] {
            let sum = add_weight(&table, number(a), number(b)).unwrap();
            assert_eq!(sum.to_bits(), (a + b).to_bits(), "{a} + {b}");
        }
    }
    assert!(matches!(
        add_weight(&table, number(0.0), number(0.5)),
        Err(Halt::Needs(Operation::Sum(a, b))) if a == number(0.0) && b == number(0.5)
    ));
    assert!(matches!(add_weight(&table, number(1.5), number(0.0)), Err(Halt::Needs(Operation::Sum(_, _)))));
    assert_eq!(value(run(|t| add_weight(t, number(1.5), number(0.25))).unwrap()), 1.75);
}

#[test]
fn zero_weights_divide_by_zero_whatever_the_numbers() {
    for data in [vec![10.0, 20.0, 30.0], vec![-1e300, 1e300, 5.0], vec![0.0], vec![1e308, 1e308, 1e308]] {
        let weights = vec![0.0; data.len()];
        let error = run(|t| calculate_weighted_average(t, &numbers(&data), &numbers(&weights))).unwrap_err();
        assert!(matches!(error, FinanceError::DivisionByZero));
        let weights = vec![-0.0; data.len()];
        let error = run(|t| calculate_weighted_average(t, &numbers(&data), &numbers(&weights))).unwrap_err();
        assert!(matches!(error, FinanceError::DivisionByZero));
    }
}

#[test]
fn weighted_average_tells_its_errors_apart() {
    let data = numbers(&[10.0, 20.0, 30.0]);
    let error = run(|t| calculate_weighted_average(t, &data, &numbers(&[0.0, 0.0, 0.0]))).unwrap_err();
    assert!(matches!(error, FinanceError::DivisionByZero));
    let error = run(|t| calculate_weighted_average(t, &data, &numbers(&[0.2, 0.3]))).unwrap_err();
    assert!(matches!(error, FinanceError::InvalidInput(text) if text == "Numbers and weights must have the same length"));
    let error = run(|t| calculate_weighted_average(t, &data, &numbers(&[]))).unwrap_err();
    assert!(matches!(error, FinanceError::InvalidInput(text) if text == "Numbers and weights cannot be empty"));
    let error = run(|t| calculate_weighted_average(t, &data, &numbers(&[0.2, -0.3, 0.5]))).unwrap_err();
    assert!(matches!(error, FinanceError::InvalidInput(text) if text == "Invalid weight at index 1: -0.3"));
    let error = run(|t| calculate_weighted_average(t, &numbers(&[1.0, f64::NAN, 2.0]), &numbers(&[f64::NAN, 1.0, 1.0]))).unwrap_err();
    assert!(matches!(error, FinanceError::InvalidInput(text) if text == "Invalid weight at index 0: NaN"));
    let error = run(|t| calculate_weighted_average(t, &numbers(&[1.0, f64::NAN, 2.0]), &numbers(&[1.0, -1.0, 1.0]))).unwrap_err();
    assert!(matches!(error, FinanceError::InvalidInput(text) if text == "Invalid number at index 1: NaN"));
    let average = run(|t| calculate_weighted_average(t, &data, &numbers(&[1.0, 1.0, 2.0]))).unwrap();
    assert_eq!(value(average), (10.0 + 20.0 + 60.0) / 4.0);
}
