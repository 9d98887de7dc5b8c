//! Texts of numbers: thousands separators, amounts of currency,
//! percentages, progress and years; and, from `table`, the tables that hold
//! such texts.

use vstd::prelude::*;
use vstd::string::*;
use vstd::utf8::{encode_scalar, encode_utf8};
use crate::arithmetic::{Arithmetic, answer, counted, wording};
use crate::double::{Double, HUNDRED_BITS, ONE_BITS};
use crate::error::{Halt, Stop, asks_anew, chain, settled};
use crate::money::{Money, round_dp, rounded_form, write_out, written_form};
use crate::operation::{Operation, Rendering};
use crate::text::{decimal, numeral, signed_decimal, signed_numeral};

pub use crate::table::{add_row, add_row_string, create_colored_cell, create_summary_table,
    create_table};

verus! {

/// The number of bytes that a text takes.
pub open spec fn byte_length(text: Seq<char>) -> nat {
    encode_utf8(text).len()
}

/// The first `n` characters of the digits, with a comma before each whose
/// distance from the end, the end being `size` places from the start, is a
/// multiple of three; none before the first character.
pub open spec fn grouped(digits: Seq<char>, size: int, n: nat) -> Seq<char>
    decreases n,
{
    if n == 0 {
        Seq::empty()
    } else {
        let at = n - 1;
        let before = grouped(digits, size, at as nat);
        if at > 0 && (size - at) % 3 == 0 {
            before + ","@ + digits.subrange(at, at + 1)
        } else {
            before + digits.subrange(at, at + 1)
        }
    }
}

/// What `add_thousands_separators` returns: the digits in groups of three,
/// counted from the end, behind the minus sign if there is one.  Places are
/// counted in bytes, so the groups are of three characters where every
/// character is a digit.
pub open spec fn separated(text: Seq<char>) -> Seq<char> {
    if text.len() > 0 && text[0] == '-' {
        let digits = text.subrange(1, text.len() as int);
        "-"@ + grouped(digits, byte_length(digits) as int, digits.len())
    } else {
        grouped(text, byte_length(text) as int, text.len())
    }
}

/// A text takes at least one byte for each character.
pub proof fn lemma_byte_length_covers(text: Seq<char>)
    ensures
        byte_length(text) >= text.len(),
    decreases text.len(),
{
    if text.len() > 0 {
        lemma_byte_length_covers(text.drop_first());
    }
}

/// Puts commas between the groups of three digits of a whole number, in
/// front of which a minus sign may stand.
pub fn add_thousands_separators(number_str: &str) -> (text: String)
    ensures
        text@ == separated(number_str@),
{
    let length = number_str.unicode_len();
    let is_negative = length > 0 && number_str.get_char(0) == '-';
    let digits: &str = if is_negative {
        number_str.substring_char(1, length)
    } else {
        number_str
    };
    let size = digits.as_bytes().len();
    let count = digits.unicode_len();
    proof {
        lemma_byte_length_covers(digits@);
    }
    let mut result = String::new();
    let mut i: usize = 0;
    while i < count
        invariant
            0 <= i <= count,
            count == digits@.len(),
            size == byte_length(digits@),
            size >= count,
            result@ == grouped(digits@, size as int, i as nat),
        decreases count - i,
    {
        if i > 0 && (size - i) % 3 == 0 {
            result.append(",");
        }
        result.append(digits.substring_char(i, i + 1));
        i += 1;
    }
    if is_negative {
        String::from_str("-").concat(result.as_str())
    } else {
        result
    }
}

/// The place of the first full stop at or behind a place of a text; the
/// length of the text where there is none.
pub open spec fn stop_from(text: Seq<char>, from: int) -> int
    decreases text.len() - from,
{
    if from < 0 || from >= text.len() {
        text.len() as int
    } else if text[from] == '.' {
        from
    } else {
        stop_from(text, from + 1)
    }
}

/// What stands before the first full stop of a text.
pub open spec fn whole_part(text: Seq<char>) -> Seq<char> {
    text.subrange(0, stop_from(text, 0))
}

/// What stands between the first full stop of a text and the second, or
/// the end; none where the text has no full stop.
pub open spec fn fraction_part(text: Seq<char>) -> Option<Seq<char>> {
    let first = stop_from(text, 0);
    if first >= text.len() {
        None
    } else {
        Some(text.subrange(first + 1, stop_from(text, first + 1)))
    }
}

/// The place of the first full stop at or behind a place of a text.
fn find_stop(text: &str, from: usize) -> (at: usize)
    requires
        from <= text@.len(),
    ensures
        at == stop_from(text@, from as int),
        from <= at <= text@.len(),
{
    let length = text.unicode_len();
    let mut at: usize = from;
    while at < length && text.get_char(at) != '.'
        invariant
            from <= at <= length,
            length == text@.len(),
            stop_from(text@, at as int) == stop_from(text@, from as int),
        decreases length - at,
    {
        at += 1;
    }
    at
}

/// The text after the first full stop of a text, up to the second.
fn fraction_of<'a>(text: &'a str, first: usize) -> (fraction: Option<&'a str>)
    requires
        first == stop_from(text@, 0),
    ensures
        match fraction {
            Some(part) => fraction_part(text@) == Some(part@),
            None => fraction_part(text@) is None,
        },
{
    if first >= text.unicode_len() {
        None
    } else {
        let second = find_stop(text, first + 1);
        Some(text.substring_char(first + 1, second))
    }
}

/// The text of an amount of currency from the text of a decimal: a dollar
/// sign, the whole part in groups of three, a full stop, and the first two
/// fraction digits (fewer where the text has fewer, `00` where it has no
/// full stop).
pub open spec fn currency(formatted: Seq<char>) -> Seq<char> {
    "$"@ + separated(whole_part(formatted)) + "."@ + match fraction_part(formatted) {
        None => "00"@,
        Some(fraction) => if fraction.len() >= 2 {
            fraction.subrange(0, 2)
        } else {
            fraction
        },
    }
}

/// The text of an amount of currency from the text of a decimal.
pub fn currency_text(formatted: &str) -> (text: String)
    ensures
        text@ == currency(formatted@),
{
    let first = find_stop(formatted, 0);
    let whole = add_thousands_separators(formatted.substring_char(0, first));
    let start = String::from_str("$").concat(whole.as_str()).concat(".");
    match fraction_of(formatted, first) {
        None => start.concat("00"),
        Some(fraction) => if fraction.unicode_len() >= 2 {
            start.concat(fraction.substring_char(0, 2))
        } else {
            start.concat(fraction)
        },
    }
}

/// An amount as currency: rounded to cents, with a dollar sign and
/// thousands separators.
pub fn format_currency_plain(amount: Money) -> (text: String)
    ensures
        text@ == currency(written_form(rounded_form(amount@, 2))),
{
    let plain = write_out(round_dp(amount.to_bytes(), 2));
    currency_text(plain.as_str())
}

/// An amount as currency.
pub fn format_currency(amount: Money) -> (text: String)
    ensures
        text@ == currency(written_form(rounded_form(amount@, 2))),
{
    format_currency_plain(amount)
}

/// An amount with two fraction digits, written out.
pub fn fmt_money(d: Money) -> (text: String)
    ensures
        text@ == written_form(rounded_form(d@, 2)),
{
    write_out(round_dp(d.to_bytes(), 2))
}

/// An amount with the given number of fraction digits, written out.
pub fn fmt_decimal(d: Money, scale: u32) -> (text: String)
    ensures
        text@ == written_form(rounded_form(d@, scale)),
{
    write_out(round_dp(d.to_bytes(), scale))
}

/// The text of a number from its plain text: the whole part in groups of
/// three, and the fraction as it was.
pub open spec fn number(formatted: Seq<char>) -> Seq<char> {
    match fraction_part(formatted) {
        None => separated(whole_part(formatted)),
        Some(fraction) => separated(whole_part(formatted)) + "."@ + fraction,
    }
}

/// The text of a number from its plain text.
pub fn number_text(formatted: &str) -> (text: String)
    ensures
        text@ == number(formatted@),
{
    let first = find_stop(formatted, 0);
    let whole = add_thousands_separators(formatted.substring_char(0, first));
    match fraction_of(formatted, first) {
        None => whole,
        Some(fraction) => whole.concat(".").concat(fraction),
    }
}

/// A result that holds a text as contracts see it.
pub open spec fn seen_text(result: Result<String, Halt>) -> Result<Seq<char>, Stop> {
    match result {
        Ok(text) => Ok(text@),
        Err(halt) => Err(halt@),
    }
}

/// What `format_number` returns.
pub open spec fn formatted_number(
    shown: Map<Rendering, Seq<char>>,
    value: Double,
    decimal_places: usize,
) -> Result<Seq<char>, Stop> {
    chain(
        wording(shown, Rendering::Fixed(value, decimal_places)),
        |plain: Seq<char>| Ok(number(plain)),
    )
}

/// A number with a fixed count of fraction digits and thousands
/// separators.
pub fn format_number(table: &Arithmetic, value: Double, decimal_places: usize) -> (r: Result<
    String,
    Halt,
>)
    ensures
        seen_text(r) == formatted_number(table.shown(), value, decimal_places),
{
    let plain = table.ask_text(Rendering::Fixed(value, decimal_places))?;
    Ok(number_text(plain.as_str()))
}

/// What `format_percentage_plain` returns: a hundred times the value with
/// the given number of fraction digits, and a percent sign.
pub open spec fn formatted_percentage(
    known: Map<Operation, Double>,
    shown: Map<Rendering, Seq<char>>,
    value: Double,
    decimal_places: usize,
) -> Result<Seq<char>, Stop> {
    chain(
        answer(known, Operation::Product(value, Double::hundred())),
        |percent: Double|
            chain(
                wording(shown, Rendering::Fixed(percent, decimal_places)),
                |plain: Seq<char>| Ok(plain + "%"@),
            ),
    )
}

/// A fraction as a percentage with the given count of fraction digits.
pub fn format_percentage_plain(table: &Arithmetic, value: Double, decimal_places: usize) -> (r:
    Result<String, Halt>)
    ensures
        seen_text(r) == formatted_percentage(
            table.known(),
            table.shown(),
            value,
            decimal_places,
        ),
{
    let percent = table.ask(Operation::Product(value, Double::from_bits(HUNDRED_BITS)))?;
    let plain = table.ask_text(Rendering::Fixed(percent, decimal_places))?;
    Ok(plain.concat("%"))
}

/// A fraction as a percentage.
pub fn format_percentage(table: &Arithmetic, value: Double, decimal_places: usize) -> (r: Result<
    String,
    Halt,
>)
    ensures
        seen_text(r) == formatted_percentage(
            table.known(),
            table.shown(),
            value,
            decimal_places,
        ),
{
    format_percentage_plain(table, value, decimal_places)
}

/// A rate as a percentage with two fraction digits.
pub fn format_rate_as_percentage(table: &Arithmetic, rate: Double) -> (r: Result<String, Halt>)
    ensures
        seen_text(r) == formatted_percentage(table.known(), table.shown(), rate, 2),
{
    format_percentage_plain(table, rate, 2)
}

/// A fraction as a percentage with two fraction digits.
pub fn fmt_percent(table: &Arithmetic, p: Double) -> (r: Result<String, Halt>)
    ensures
        seen_text(r) == formatted_percentage(table.known(), table.shown(), p, 2),
{
    format_percentage_plain(table, p, 2)
}

/// A rate as a percentage with the given count of fraction digits.
pub fn fmt_rate_as_percentage(table: &Arithmetic, rate: Double, dp: usize) -> (r: Result<
    String,
    Halt,
>)
    ensures
        seen_text(r) == formatted_percentage(table.known(), table.shown(), rate, dp),
{
    format_percentage_plain(table, rate, dp)
}

/// What `format_progress` returns: the two counts with a stroke between
/// them, and in brackets the first in percent of the second.
pub open spec fn formatted_progress(
    known: Map<Operation, Double>,
    shown: Map<Rendering, Seq<char>>,
    current: u32,
    total: u32,
) -> Result<Seq<char>, Stop> {
    chain(
        counted(current as u64),
        |done: Double|
            chain(
                counted(total as u64),
                |all: Double|
                    chain(
                        answer(known, Operation::Quotient(done, all)),
                        |share: Double|
                            chain(
                                answer(known, Operation::Product(share, Double::hundred())),
                                |percent: Double|
                                    chain(
                                        wording(shown, Rendering::Fixed(percent, 1)),
                                        |plain: Seq<char>|
                                            Ok(
                                                numeral(current as nat) + "/"@ + numeral(
                                                    total as nat,
                                                ) + " ("@ + plain + "%)"@,
                                            ),
                                    ),
                            ),
                    ),
            ),
    )
}

/// How far a schedule of payments has come.
pub fn format_progress(table: &Arithmetic, current_payment: u32, total_payments: u32) -> (r:
    Result<String, Halt>)
    ensures
        seen_text(r) == formatted_progress(
            table.known(),
            table.shown(),
            current_payment,
            total_payments,
        ),
{
    let done = Double::from_count(current_payment as u64);
    let all = Double::from_count(total_payments as u64);
    let share = table.ask(Operation::Quotient(done, all))?;
    let percent = table.ask(Operation::Product(share, Double::from_bits(HUNDRED_BITS)))?;
    let plain = table.ask_text(Rendering::Fixed(percent, 1))?;
    Ok(
        decimal(current_payment as u64).concat("/").concat(
            decimal(total_payments as u64).as_str(),
        ).concat(" (").concat(plain.as_str()).concat("%)"),
    )
}

/// What `format_years` returns: `1 year` for one; for another whole number
/// of years that number as an `i32`; else the years with one fraction
/// digit.
pub open spec fn formatted_years(shown: Map<Rendering, Seq<char>>, years: Double) -> Result<
    Seq<char>,
    Stop,
> {
    if years.same(Double::one()) {
        Ok("1 year"@)
    } else if years.is_whole() {
        Ok(signed_numeral(years.to_i32() as int) + " years"@)
    } else {
        chain(
            wording(shown, Rendering::Fixed(years, 1)),
            |plain: Seq<char>| Ok(plain + " years"@),
        )
    }
}

/// A number of years in words.
pub fn format_years(table: &Arithmetic, years: Double) -> (r: Result<String, Halt>)
    ensures
        seen_text(r) == formatted_years(table.shown(), years),
{
    if years.same(Double::from_bits(ONE_BITS)) {
        Ok(String::from_str("1 year"))
    } else if years.is_whole() {
        Ok(signed_decimal(years.to_i32() as i64).concat(" years"))
    } else {
        let plain = table.ask_text(Rendering::Fixed(years, 1))?;
        Ok(plain.concat(" years"))
    }
}

/// How a figure is to be shown.
#[derive(Clone, Copy, Debug, PartialEq, Eq, Structural)]
pub enum Tone {
    /// above zero
    Gain,
    /// below zero
    Loss,
    /// zero, or not a number
    Flat,
}

/// The tone of a figure.
pub open spec fn tone(value: Double) -> Tone {
    if Double::zero().lt(value) {
        Tone::Gain
    } else if value.lt(Double::zero()) {
        Tone::Loss
    } else {
        Tone::Flat
    }
}

/// The tone in which a figure is shown: by its sign.
pub fn tone_of(value: Double) -> (r: Tone)
    ensures
        r == tone(value),
{
    let zero = Double::from_bits(0);
    if zero.lt(value) {
        Tone::Gain
    } else if value.lt(zero) {
        Tone::Loss
    } else {
        Tone::Flat
    }
}

/// What a text has settled stays settled: on a table
/// that holds more it returns the same; and what it asks for, the table
/// lacks.
pub proof fn lemma_display_settles(
    fewer: Map<Operation, Double>,
    more: Map<Operation, Double>,
    fewer_texts: Map<Rendering, Seq<char>>,
    more_texts: Map<Rendering, Seq<char>>,
    value: Double,
    decimal_places: usize,
    current: u32,
    total: u32,
)
    requires
        fewer.submap_of(more),
        fewer_texts.submap_of(more_texts),
    ensures
        settled(formatted_number(fewer_texts, value, decimal_places))
            ==> formatted_number(more_texts, value, decimal_places)
            == formatted_number(fewer_texts, value, decimal_places),
        asks_anew(fewer, fewer_texts, formatted_number(fewer_texts, value, decimal_places)),
        settled(formatted_percentage(fewer, fewer_texts, value, decimal_places))
            ==> formatted_percentage(more, more_texts, value, decimal_places)
            == formatted_percentage(fewer, fewer_texts, value, decimal_places),
        asks_anew(
            fewer,
            fewer_texts,
            formatted_percentage(fewer, fewer_texts, value, decimal_places),
        ),
        settled(formatted_progress(fewer, fewer_texts, current, total))
            ==> formatted_progress(more, more_texts, current, total)
            == formatted_progress(fewer, fewer_texts, current, total),
        asks_anew(fewer, fewer_texts, formatted_progress(fewer, fewer_texts, current, total)),
        settled(formatted_years(fewer_texts, value))
            ==> formatted_years(more_texts, value)
            == formatted_years(fewer_texts, value),
        asks_anew(fewer, fewer_texts, formatted_years(fewer_texts, value)),
{
}

} // verus!
