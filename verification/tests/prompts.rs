use rusty_finance::arithmetic::Arithmetic;
use rusty_finance::double::Double;
use rusty_finance::error::{FinanceError, Halt};
use rusty_finance::operation::{Operation, Rendering};
use rusty_finance::prompts::{judge_non_negative, judge_number, judge_number_list, judge_percentage, judge_positive, Entry};

#[allow(dead_code)]
fn number(value: f64) -> Double {
    Double::from_bits(value.to_bits())
}

#[allow(dead_code)]
fn value(number: Double) -> f64 {
    f64::from_bits(number.to_bits())
}

#[allow(dead_code)]
fn perform(operation: Operation) -> Double {
    let result = match operation {
        Operation::Sum(a, b) => value(a) + value(b),
        Operation::Difference(a, b) => value(a) - value(b),
        Operation::Product(a, b) => value(a) * value(b),
        Operation::Quotient(a, b) => value(a) / value(b),
        Operation::Power(a, b) => value(a).powf(value(b)),
        Operation::IntegerPower(a, n) => value(a).powi(n),
        Operation::SquareRoot(a) => value(a).sqrt(),
        Operation::Rounded(a, digits) => {
            format!("{:.1$}", value(a), digits as usize).parse::<f64>().unwrap()
        }
    };
    number(result)
}

#[allow(dead_code)]
fn render(rendering: Rendering) -> String {
    match rendering {
        Rendering::Shortest(a) => format!("{}", value(a)),
        Rendering::Fixed(a, digits) => format!("{:.1$}", value(a), digits),
    }
}

#[allow(dead_code)]
fn run<T>(calculation: impl Fn(&Arithmetic) -> Result<T, Halt>) -> Result<T, FinanceError> {
    let mut table = Arithmetic::new();
    loop {
        match calculation(&table) {
            Ok(result) => return Ok(result),
            Err(Halt::Failed(error)) => return Err(error),
            Err(Halt::Needs(operation)) => table.record(operation, perform(operation)),
            Err(Halt::NeedsText(rendering)) => table.record_text(rendering, render(rendering)),
        }
    }
}

#[allow(dead_code)]
fn numbers(values: &[f64]) -> Vec<Double> {
    values.iter().map(|v| number(*v)).collect()
}

fn taken(entry: Entry<Double>) -> f64 {
    match entry {
        Entry::Taken(number) => value(number),
        Entry::Refused(reply) => panic!("refused: {reply}"),
    }
}

fn refused<T>(entry: Entry<T>) -> String {
    match entry {
        Entry::Taken(_) => panic!("taken"),
        Entry::Refused(reply) => reply,
    }
}

fn parsed(text: &str) -> Option<Double> {
    text.parse::<f64>().ok().map(number)
}

fn parsed_list(text: &str) -> Option<Vec<Double>> {
    let all: Result<Vec<f64>, _> = text.split(',').map(|s| s.trim().parse::<f64>()).collect();
    all.ok().map(|values| numbers(&values))
}

#[test]
fn numbers_must_be_read_and_finite() {
    assert_eq!(taken(judge_number(parsed("12.5"))), 12.5);
    assert_eq!(taken(judge_number(parsed("-3"))), -3.0);
    assert_eq!(refused(judge_number(parsed("abc"))), "Please enter a valid number.");
    assert_eq!(refused(judge_number(parsed("inf"))), "Please enter a valid finite number.");
    assert_eq!(refused(judge_number(parsed("NaN"))), "Please enter a valid finite number.");
}

#[test]
fn signs_are_asked_for() {
    assert_eq!(taken(judge_positive(number(0.5))), 0.5);
    assert_eq!(refused(judge_positive(number(0.0))), "Please enter a positive number.");
    assert_eq!(refused(judge_positive(number(-2.0))), "Please enter a positive number.");
    assert_eq!(taken(judge_non_negative(number(0.0))), 0.0);
    assert_eq!(taken(judge_non_negative(number(-0.0))), 0.0);
    assert_eq!(refused(judge_non_negative(number(-0.1))), "Please enter a non-negative number.");
}

#[test]
fn percentages_become_fractions() {
    assert_eq!(taken(run(|t| judge_percentage(t, parsed("5.0"))).unwrap()), 0.05);
    assert_eq!(taken(run(|t| judge_percentage(t, parsed("100"))).unwrap()), 1.0);
    assert_eq!(taken(run(|t| judge_percentage(t, parsed("0"))).unwrap()), 0.0);
    assert_eq!(
        refused(run(|t| judge_percentage(t, parsed("100.5"))).unwrap()),
        "Please enter a percentage between 0 and 100."
    );
    assert_eq!(
        refused(run(|t| judge_percentage(t, parsed("-1"))).unwrap()),
        "Please enter a percentage between 0 and 100."
    );
    assert_eq!(
        refused(run(|t| judge_percentage(t, parsed("NaN"))).unwrap()),
        "Please enter a percentage between 0 and 100."
    );
    assert_eq!(refused(run(|t| judge_percentage(t, parsed("five"))).unwrap()), "Please enter a valid percentage.");
}

#[test]
fn lists_must_be_read_finite_and_not_empty() {
    match judge_number_list(parsed_list("1.0, 2.0,3")) {
        Entry::Taken(list) => assert_eq!(list.into_iter().map(value).collect::<Vec<f64>>(), vec![1.0, 2.0, 3.0]),
        Entry::Refused(reply) => panic!("refused: {reply}"),
    }
    assert_eq!(refused(judge_number_list(parsed_list("1.0,,3"))), "Please enter valid numbers separated by commas.");
    assert_eq!(refused(judge_number_list(parsed_list("1.0,inf"))), "All numbers must be finite.");
    assert_eq!(refused(judge_number_list(Some(Vec::new()))), "Please enter at least one number.");
}
