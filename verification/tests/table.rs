use rusty_finance::arithmetic::Arithmetic;
use rusty_finance::display::Tone;
use rusty_finance::double::Double;
use rusty_finance::error::{FinanceError, Halt};
use rusty_finance::operation::{Operation, Rendering};
use rusty_finance::table::{add_row, add_row_string, create_colored_cell, create_summary_table, create_table, Cell, CellAlignment, Table};

#[allow(dead_code)]
fn number(value: f64) -> Double {
    Double::from_bits(value.to_bits())
}

#[allow(dead_code)]
fn value(number: Double) -> f64 {
    f64::from_bits(number.to_bits())
}

#[allow(dead_code)]
fn perform(operation: Operation) -> Double {
    let result = match operation {
        Operation::Sum(a, b) => value(a) + value(b),
        Operation::Difference(a, b) => value(a) - value(b),
        Operation::Product(a, b) => value(a) * value(b),
        Operation::Quotient(a, b) => value(a) / value(b),
        Operation::Power(a, b) => value(a).powf(value(b)),
        Operation::IntegerPower(a, n) => value(a).powi(n),
        Operation::SquareRoot(a) => value(a).sqrt(),
        Operation::Rounded(a, digits) => {
            format!("{:.1$}", value(a), digits as usize).parse::<f64>().unwrap()
        }
    };
    number(result)
}

#[allow(dead_code)]
fn render(rendering: Rendering) -> String {
    match rendering {
        Rendering::Shortest(a) => format!("{}", value(a)),
        Rendering::Fixed(a, digits) => format!("{:.1$}", value(a), digits),
    }
}

#[allow(dead_code)]
fn run<T>(calculation: impl Fn(&Arithmetic) -> Result<T, Halt>) -> Result<T, FinanceError> {
    let mut table = Arithmetic::new();
    loop {
        match calculation(&table) {
            Ok(result) => return Ok(result),
            Err(Halt::Failed(error)) => return Err(error),
            Err(Halt::Needs(operation)) => table.record(operation, perform(operation)),
            Err(Halt::NeedsText(rendering)) => table.record_text(rendering, render(rendering)),
        }
    }
}

#[allow(dead_code)]
fn numbers(values: &[f64]) -> Vec<Double> {
    values.iter().map(|v| number(*v)).collect()
}

fn drawn_cell(cell: &Cell) -> comfy_table::Cell {
    let mut drawn = comfy_table::Cell::new(&cell.content);
    if let Some(alignment) = cell.alignment {
        drawn = drawn.set_alignment(match alignment {
            CellAlignment::Left => comfy_table::CellAlignment::Left,
            CellAlignment::Right => comfy_table::CellAlignment::Right,
            CellAlignment::Center => comfy_table::CellAlignment::Center,
        });
    }
    if let Some(tone) = cell.tone {
        drawn = drawn.fg(match tone {
            Tone::Gain => comfy_table::Color::Green,
            Tone::Loss => comfy_table::Color::Red,
            Tone::Flat => comfy_table::Color::Yellow,
        });
    }
    drawn
}

fn render_table(headers: &[&str], build_rows: impl FnOnce(&mut Table)) -> String {
    let mut table = create_table(headers.to_vec());
    build_rows(&mut table);
    let mut drawn = comfy_table::Table::new();
    drawn
        .load_preset(comfy_table::presets::UTF8_FULL)
        .apply_modifier(comfy_table::modifiers::UTF8_ROUND_CORNERS)
        .set_content_arrangement(comfy_table::ContentArrangement::Dynamic);
    drawn.set_header(table.header.iter().map(drawn_cell).collect::<Vec<_>>());
    for row in &table.rows {
        drawn.add_row(row.iter().map(drawn_cell).collect::<Vec<_>>());
    }
    drawn.to_string()
}

fn texts(row: &[Cell]) -> Vec<&str> {
    row.iter().map(|cell| cell.content.as_str()).collect()
}

#[test]
fn dynamic_rows_expand() {
    // When adding vastly different length values, the table should widen automatically
    let out = render_table(&["Col A", "Amount", "Pct"], |t| {
        add_row(
            t,
            &[("Short", CellAlignment::Left), ("12.34", CellAlignment::Right), ("1.0%", CellAlignment::Right)],
        );

        add_row(
            t,
            &[
                ("A very long description that should widen the column", CellAlignment::Left),
                ("123,456,789.01", CellAlignment::Right),
                ("99.99%", CellAlignment::Right),
            ],
        );
    });

    // Smoke check: both strings should be present (no truncation, no manual padding)
    assert!(out.contains("Short"));
    assert!(out.contains("A very long description"));
    assert!(out.contains("123,456,789.01") || out.contains("123456789.01"));
}

#[test]
fn tables_hold_what_they_are_given() {
    let mut table = create_table(vec!["Year", "Amount"]);
    assert_eq!(texts(&table.header), vec!["Year", "Amount"]);
    assert!(table.header.iter().all(|cell| cell.alignment.is_none() && cell.tone.is_none()));
    assert!(table.rows.is_empty());
    add_row(&mut table, &[("1", CellAlignment::Center), ("$1,050.00", CellAlignment::Right)]);
    add_row_string(&mut table, &[("2".to_string(), CellAlignment::Left), ("$1,102.50".to_string(), CellAlignment::Right)]);
    assert_eq!(table.rows.len(), 2);
    assert_eq!(texts(&table.rows[0]), vec!["1", "$1,050.00"]);
    assert_eq!(table.rows[0][0].alignment, Some(CellAlignment::Center));
    assert_eq!(table.rows[0][1].alignment, Some(CellAlignment::Right));
    assert_eq!(texts(&table.rows[1]), vec!["2", "$1,102.50"]);
    assert_eq!(table.rows[1][0].alignment, Some(CellAlignment::Left));
    assert_eq!(texts(&table.header), vec!["Year", "Amount"]);
    add_row(&mut table, &[]);
    assert_eq!(table.rows.len(), 3);
    assert!(table.rows[2].is_empty());
}

#[test]
fn summaries_have_a_row_for_each_item() {
    let table = create_summary_table(
        "Component",
        vec![("Principal", "$1,000.00".to_string()), ("Monthly Payment", "$85.61".to_string())],
    );
    assert_eq!(texts(&table.header), vec!["Component", "Value"]);
    assert_eq!(table.rows.len(), 2);
    assert_eq!(texts(&table.rows[0]), vec!["Principal", "$1,000.00"]);
    assert_eq!(texts(&table.rows[1]), vec!["Monthly Payment", "$85.61"]);
    assert!(create_summary_table("Metric", vec![]).rows.is_empty());
}

#[test]
fn cells_take_the_tone_of_their_figure() {
    assert_eq!(create_colored_cell("+5%", number(0.05)).tone, Some(Tone::Gain));
    assert_eq!(create_colored_cell("-5%", number(-0.05)).tone, Some(Tone::Loss));
    assert_eq!(create_colored_cell("0%", number(0.0)).tone, Some(Tone::Flat));
    let cell = create_colored_cell("n/a", number(f64::NAN));
    assert_eq!(cell.tone, Some(Tone::Flat));
    assert_eq!(cell.content, "n/a");
    assert_eq!(cell.alignment, None);
}
