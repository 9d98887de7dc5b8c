use rusty_finance::arithmetic::Arithmetic;
use rusty_finance::double::Double;
use rusty_finance::double::{HUNDRED_BITS, INFINITY_BITS, MINUS_ONE_BITS, ONE_BITS, SIGN_BIT, TWELVE_BITS, TWO_BITS, ZERO_BITS};
use rusty_finance::error::{FinanceError, Halt};
use rusty_finance::operation::{Operation, Rendering};
use rusty_finance::safety::{MAX_EXPONENT_BITS, MAX_SAFE_MAGNITUDE_BITS};
use rusty_finance::text::decimal;

#[allow(dead_code)]
fn number(value: f64) -> Double {
    Double::from_bits(value.to_bits())
}

#[allow(dead_code)]
fn value(number: Double) -> f64 {
    f64::from_bits(number.to_bits())
}

#[allow(dead_code)]
fn perform(operation: Operation) -> Double {
    let result = match operation {
        Operation::Sum(a, b) => value(a) + value(b),
        Operation::Difference(a, b) => value(a) - value(b),
        Operation::Product(a, b) => value(a) * value(b),
        Operation::Quotient(a, b) => value(a) / value(b),
        Operation::Power(a, b) => value(a).powf(value(b)),
        Operation::IntegerPower(a, n) => value(a).powi(n),
        Operation::SquareRoot(a) => value(a).sqrt(),
        Operation::Rounded(a, digits) => {
            format!("{:.1$}", value(a), digits as usize).parse::<f64>().unwrap()
        }
    };
    number(result)
}

#[allow(dead_code)]
fn render(rendering: Rendering) -> String {
    match rendering {
        Rendering::Shortest(a) => format!("{}", value(a)),
        Rendering::Fixed(a, digits) => format!("{:.1$}", value(a), digits),
    }
}

#[allow(dead_code)]
fn run<T>(calculation: impl Fn(&Arithmetic) -> Result<T, Halt>) -> Result<T, FinanceError> {
    let mut table = Arithmetic::new();
    loop {
        match calculation(&table) {
            Ok(result) => return Ok(result),
            Err(Halt::Failed(error)) => return Err(error),
            Err(Halt::Needs(operation)) => table.record(operation, perform(operation)),
            Err(Halt::NeedsText(rendering)) => table.record_text(rendering, render(rendering)),
        }
    }
}

#[allow(dead_code)]
fn numbers(values: &[f64]) -> Vec<Double> {
    values.iter().map(|v| number(*v)).collect()
}

fn samples() -> Vec<f64> {
    vec![
        0.0,
        -0.0,
        1.0,
        -1.0,
        0.5,
        -0.5,
        2.0,
        100.0,
        -100.0,
        1e15,
        -1e15,
        1e16,
        1e308,
        -1e308,
        f64::MAX,
        f64::MIN,
        f64::MIN_POSITIVE,
        -f64::MIN_POSITIVE,
        5e-324,
        -5e-324,
        f64::EPSILON,
        f64::INFINITY,
        f64::NEG_INFINITY,
        f64::NAN,
        -f64::NAN,
        f64::from_bits(0x7ff0_0000_0000_0001),
        f64::from_bits(0xfff0_0000_0000_0001),
        1.0000000000000002,
        0.9999999999999999,
    ]
}

#[test]
fn constants_encode_what_they_say() {
    assert_eq!(ZERO_BITS, 0.0f64.to_bits());
    assert_eq!(ONE_BITS, 1.0f64.to_bits());
    assert_eq!(TWO_BITS, 2.0f64.to_bits());
    assert_eq!(TWELVE_BITS, 12.0f64.to_bits());
    assert_eq!(HUNDRED_BITS, 100.0f64.to_bits());
    assert_eq!(MINUS_ONE_BITS, (-1.0f64).to_bits());
    assert_eq!(INFINITY_BITS, f64::INFINITY.to_bits());
    assert_eq!(SIGN_BIT, (-0.0f64).to_bits());
    assert_eq!(MAX_SAFE_MAGNITUDE_BITS, 1e15f64.to_bits());
    assert_eq!(MAX_EXPONENT_BITS, 100.0f64.to_bits());
}

#[test]
fn classes_agree_with_the_hardware() {
    for x in samples() {
        let d = number(x);
        assert_eq!(d.is_finite(), x.is_finite(), "{x}");
        assert_eq!(d.is_nan(), x.is_nan(), "{x}");
        assert_eq!(d.is_zero(), x == 0.0, "{x}");
        assert_eq!(d.sign(), x.is_sign_negative(), "{x}");
        assert_eq!(d.abs().to_bits(), x.abs().to_bits(), "{x}");
        assert_eq!(d.negated().to_bits(), (-x).to_bits(), "{x}");
        assert_eq!(d.magnitude(), x.abs().to_bits(), "{x}");
    }
}

#[test]
fn order_agrees_with_the_hardware() {
    for x in samples() {
        for y in samples() {
            let (a, b) = (number(x), number(y));
            assert_eq!(a.lt(b), x < y, "{x} < {y}");
            assert_eq!(a.le(b), x <= y, "{x} <= {y}");
            assert_eq!(a.same(b), x == y, "{x} == {y}");
            if !x.is_nan() && !y.is_nan() {
                assert_eq!(a.at_most(b), x <= y, "{x} at most {y}");
            }
        }
    }
}

#[test]
fn casts_agree_with_the_hardware() {
    let mut all = samples();
    all.extend([
        0.99, -0.99, 1.5, -1.5, 2147483647.0, 2147483647.5, 2147483648.0, -2147483648.0, -2147483648.5,
        -2147483649.0, 4294967295.0, 4294967295.9, 4294967296.0, 9007199254740992.0, 9007199254740993.0,
        4503599627370495.5, 4503599627370496.0, 123456.789, -123456.789, 1e10, -1e10, 1e19, 1e20, 360.0,
    ]);
    for x in all {
        let d = number(x);
        assert_eq!(d.to_i32(), x as i32, "{x} as i32");
        assert_eq!(d.to_u32(), x as u32, "{x} as u32");
        assert_eq!(d.is_whole(), x.fract() == 0.0, "{x} is whole");
        if !x.is_nan() {
            let whole = x.abs().trunc();
            match d.whole() {
                Some(w) => assert_eq!(w as f64, whole, "{x}"),
                None => assert!(whole >= 9223372036854775808.0, "{x}"),
            }
        }
    }
}

#[test]
fn counts_agree_with_the_hardware() {
    let mut counts: Vec<u64> = vec![0, 1, 2, 3, 5, 12, 100, 101, 127, 128, 360, 65536, 4294967295, 4294967296];
    for shift in 0..64u32 {
        let power = 1u64 << shift;
        for delta in [0u64, 1, 2, 3, 5, 7] {
            counts.push(power.wrapping_add(delta));
            counts.push(power.wrapping_sub(delta));
            counts.push(power.wrapping_add(power / 2).wrapping_add(delta));
            counts.push(power.wrapping_add(power / 2).wrapping_sub(delta));
            counts.push(power.wrapping_add(power / 4).wrapping_add(delta));
            counts.push(power | (power >> 53).wrapping_add(delta));
            counts.push(power | (power >> 54).wrapping_sub(delta));
        }
    }
    let mut seed: u64 = 0x9e3779b97f4a7c15;
    for _ in 0..20000 {
        seed ^= seed << 13;
        seed ^= seed >> 7;
        seed ^= seed << 17;
        counts.push(seed);
        counts.push(seed >> (seed % 64));
    }
    counts.extend([u64::MAX, u64::MAX - 1, u64::MAX - 1023, u64::MAX - 1024, u64::MAX - 2047, u64::MAX - 2048]);
    for n in counts {
        assert_eq!(Double::from_count(n).to_bits(), (n as f64).to_bits(), "{n}");
    }
    for n in 0..70000u64 {
        assert_eq!(Double::from_count(n).to_bits(), (n as f64).to_bits(), "{n}");
        assert_eq!(rusty_finance::double::highest_bit(n), if n == 0 { 0 } else { 63 - n.leading_zeros() as u64 });
    }
}

#[test]
fn powers_of_two() {
    for e in 0..64u64 {
        assert_eq!(rusty_finance::double::power_of_two(e), 1u64 << e);
    }
}

#[test]
fn double_keeps_its_bits() {
    for x in samples() {
        assert_eq!(Double::from_bits(x.to_bits()).to_bits(), x.to_bits());
        assert_eq!(value(number(x)).to_bits(), x.to_bits());
    }
    assert_ne!(number(0.0), number(-0.0));
    assert_eq!(number(f64::NAN), number(f64::NAN));
}

#[test]
fn decimal_writes_numbers() {
    for n in [0u64, 1, 9, 10, 11, 99, 100, 101, 360, 1234567890, u64::MAX] {
        assert_eq!(decimal(n), n.to_string());
    }
    for n in [0i64, 1, -1, 10, -10, 2147483647, -2147483648, i64::MAX, i64::MIN] {
        assert_eq!(rusty_finance::text::signed_decimal(n), n.to_string());
    }
}

#[test]
fn table_remembers_what_it_is_told() {
    let mut table = Arithmetic::new();
    assert_eq!(table.len(), 0);
    let product = Operation::Product(number(2.0), number(3.0));
    let sum = Operation::Sum(number(2.0), number(3.0));
    assert_eq!(table.result(product), None);
    assert!(matches!(table.ask(product), Err(Halt::Needs(wanted)) if wanted == product));
    table.record(product, number(6.0));
    assert_eq!(table.result(product), Some(number(6.0)));
    assert_eq!(table.result(sum), None);
    table.record(sum, number(5.0));
    table.record(product, number(7.0));
    assert_eq!(table.len(), 2);
    assert_eq!(table.result(product), Some(number(7.0)));
    assert_eq!(table.result(sum), Some(number(5.0)));
    assert_eq!(table.result(Operation::Product(number(3.0), number(2.0))), None);
    let shortest = Rendering::Shortest(number(2.5));
    let fixed = Rendering::Fixed(number(2.5), 2);
    assert_eq!(table.text(shortest), None);
    assert!(matches!(table.ask_text(shortest), Err(Halt::NeedsText(wanted)) if wanted == shortest));
    table.record_text(shortest, "2.5".to_string());
    table.record_text(fixed, "2.50".to_string());
    assert_eq!(table.text(shortest), Some("2.5".to_string()));
    assert_eq!(table.text(fixed), Some("2.50".to_string()));
    table.record_text(shortest, "two and a half".to_string());
    assert_eq!(table.text(shortest), Some("two and a half".to_string()));
    assert_eq!(table.text(Rendering::Fixed(number(2.5), 3)), None);
    assert_eq!(table.len(), 2);
}

#[test]
fn table_finds_every_entry_among_many() {
    let mut table = Arithmetic::new();
    let operations: Vec<Operation> = (0..500u64)
        .map(|i| match i % 9 {
            0 => Operation::Sum(number(i as f64), number(1.0)),
            1 => Operation::Difference(number(i as f64), number(-1.0)),
            2 => Operation::Product(number(-(i as f64)), number(0.5)),
            3 => Operation::Quotient(number(i as f64), number(3.0)),
            4 => Operation::Power(number(i as f64), number(2.0)),
            5 => Operation::IntegerPower(number(1.5), i as i32 - 250),
            6 => Operation::SquareRoot(number(i as f64)),
            7 => Operation::Sum(number(i as f64), number(-2.5)),
            _ => Operation::Rounded(number(i as f64 / 7.0), (i % 20) as u32),
        })
        .collect();
    for (i, operation) in operations.iter().enumerate().rev() {
        table.record(*operation, number(i as f64));
    }
    assert_eq!(table.len(), operations.len());
    for (i, operation) in operations.iter().enumerate() {
        assert_eq!(table.result(*operation), Some(number(i as f64)));
    }
    assert_eq!(table.result(Operation::SquareRoot(number(-500.0))), None);
}

#[test]
fn settled_answers_stay_on_a_fuller_table() {
    let mut table = Arithmetic::new();
    let calculation = |t: &Arithmetic| {
        rusty_finance::calculations::calculate_future_value(t, number(1000.0), number(0.05), number(2.0))
    };
    let mut asked = Vec::new();
    let first = loop {
        match calculation(&table) {
            Ok(result) => break result,
            Err(Halt::Needs(operation)) => {
                assert_eq!(table.result(operation), None);
                asked.push(operation);
                table.record(operation, perform(operation));
            }
            Err(other) => panic!("{:?}", other),
        }
    };
    assert_eq!(asked.len(), 3);
    assert_eq!(table.len(), 3);
    table.record(Operation::Sum(number(7.0), number(8.0)), number(15.0));
    table.record(Operation::SquareRoot(number(144.0)), number(12.0));
    table.record_text(Rendering::Shortest(number(1.5)), "1.5".to_string());
    assert_eq!(calculation(&table).unwrap(), first);
    assert_eq!(value(first), 1000.0 * 1.05f64.powf(2.0));
}

#[test]
fn a_failure_needs_no_arithmetic() {
    let table = Arithmetic::new();
    let refused = rusty_finance::calculations::calculate_probability(&table, 6, 5);
    assert!(matches!(refused, Err(Halt::Failed(FinanceError::InvalidInput(_)))));
    let halted = rusty_finance::calculations::calculate_probability(&table, 3, 5);
    assert!(matches!(
        halted,
        Err(Halt::Needs(Operation::Quotient(a, b))) if a == number(3.0) && b == number(5.0)
    ));
    let wanted = rusty_finance::validate_positive(&table, number(-1.0), "Principal");
    assert!(matches!(wanted, Err(Halt::NeedsText(Rendering::Shortest(at))) if at == number(-1.0)));
}

#[test]
fn operations_are_performed_as_named() {
    assert_eq!(value(perform(Operation::Rounded(number(1.23456789012345), 10))), 1.2345678901);
    assert_eq!(value(perform(Operation::IntegerPower(number(-3.0), 3))), -27.0);
    assert_eq!(value(Double::from_count(u64::MAX)), 18446744073709551615.0);
    assert_eq!(render(Rendering::Fixed(number(2.0), 3)), "2.000");
    assert_eq!(render(Rendering::Shortest(number(0.1))), "0.1");
}
