//! Decimal amounts as rust_decimal holds them, and what rust_decimal makes
//! of them: an amount rounded to a number of fraction digits, and an amount
//! written out.

use vstd::prelude::*;
use crate::arithmetic::Arithmetic;
use crate::double::Double;
use crate::error::{Fault, FinanceError, Halt, Stop, seen};
use crate::operation::Rendering;
use crate::safety::{reject, rejected};

verus! {

/// A decimal amount in the sixteen bytes of rust_decimal's serial form:
/// four bytes of flags, then the ninety-six bits of the unsigned
/// coefficient, least significant byte first.  Of the flags the top bit
/// of the fourth byte is the sign, and the low five bits of the third byte
/// are the number of fraction digits, which is at most 28.
#[derive(Clone, Copy, Debug)]
pub struct Money {
    bytes: [u8; 16],
}

/// Whether a serial form is of an amount: it has sixteen bytes, and at most
/// 28 fraction digits.
pub open spec fn in_range(bytes: Seq<u8>) -> bool {
    bytes.len() == 16 && bytes[2] % 32 <= 28
}

/// The serial form of an amount rounded to a number of fraction digits,
/// halves to the even neighbour.
pub uninterp spec fn rounded_form(bytes: Seq<u8>, places: u32) -> Seq<u8>;

/// The text of an amount: its digits with the decimal point, behind a
/// minus sign where the amount is negative.
pub uninterp spec fn written_form(bytes: Seq<u8>) -> Seq<char>;

/// The serial form of the quotient of two amounts; none where the divisor
/// is zero or the quotient is beyond what an amount can hold.
pub uninterp spec fn quotient_form(a: Seq<u8>, b: Seq<u8>) -> Option<Seq<u8>>;

/// The serial form of the product of two amounts; none where it is beyond
/// what an amount can hold.
pub uninterp spec fn product_form(a: Seq<u8>, b: Seq<u8>) -> Option<Seq<u8>>;

/// `Decimal::round_dp` of rust_decimal, between `Decimal::deserialize` and
/// `Decimal::serialize`.  The contract gives the result a name and says
/// nothing of what it is.
#[verifier::external_body]
pub(crate) fn round_dp(bytes: [u8; 16], places: u32) -> (r: [u8; 16])
    ensures
        r@ == rounded_form(bytes@, places),
{
    rust_decimal::Decimal::deserialize(bytes).round_dp(places).serialize()
}

/// `Display` of rust_decimal's `Decimal`, behind `Decimal::deserialize`.
/// The contract gives the text a name and says nothing of what it is.
#[verifier::external_body]
pub(crate) fn write_out(bytes: [u8; 16]) -> (text: String)
    ensures
        text@ == written_form(bytes@),
{
    rust_decimal::Decimal::deserialize(bytes).to_string()
}

/// `Decimal::checked_div` of rust_decimal, between `Decimal::deserialize`
/// and `Decimal::serialize`.  The contract gives the result a name and says
/// nothing of what it is.
#[verifier::external_body]
pub(crate) fn divide(a: [u8; 16], b: [u8; 16]) -> (r: Option<[u8; 16]>)
    ensures
        match r {
            Some(quotient) => quotient_form(a@, b@) == Some(quotient@),
            None => quotient_form(a@, b@) is None,
        },
{
    rust_decimal::Decimal::deserialize(a).checked_div(rust_decimal::Decimal::deserialize(b)).map(
        |d| d.serialize(),
    )
}

/// `Decimal::checked_mul` of rust_decimal, between `Decimal::deserialize`
/// and `Decimal::serialize`.  The contract gives the result a name and says
/// nothing of what it is.
#[verifier::external_body]
pub(crate) fn multiply(a: [u8; 16], b: [u8; 16]) -> (r: Option<[u8; 16]>)
    ensures
        match r {
            Some(product) => product_form(a@, b@) == Some(product@),
            None => product_form(a@, b@) is None,
        },
{
    rust_decimal::Decimal::deserialize(a).checked_mul(rust_decimal::Decimal::deserialize(b)).map(
        |d| d.serialize(),
    )
}

/// The serial form of the amount 100: no flags, and a coefficient of 100.
pub open spec fn hundred_form() -> Seq<u8> {
    seq![0u8, 0u8, 0u8, 0u8, 100u8, 0u8, 0u8, 0u8, 0u8, 0u8, 0u8, 0u8, 0u8, 0u8, 0u8, 0u8]
}

/// Whether the serial form of an amount is of zero: no bit of the
/// coefficient is set.
pub open spec fn is_zero_form(bytes: Seq<u8>) -> bool {
    forall|i: int| 4 <= i < 16 && i < bytes.len() ==> bytes[i] == 0
}

/// Whether the serial form of an amount has its sign set.
pub open spec fn is_negative_form(bytes: Seq<u8>) -> bool {
    bytes[3] >= 128
}

impl View for Money {
    type V = Seq<u8>;

    closed spec fn view(&self) -> Seq<u8> {
        self.bytes@
    }
}

impl Money {
    #[verifier::type_invariant]
    spec fn within(&self) -> bool {
        in_range(self.bytes@)
    }

    /// The amount with the given serial form; none where the form gives
    /// more than 28 fraction digits, which no amount has.
    pub fn from_bytes(bytes: [u8; 16]) -> (amount: Option<Money>)
        ensures
            match amount {
                Some(money) => money@ == bytes@ && in_range(bytes@),
                None => !in_range(bytes@),
            },
    {
        if bytes[2] % 32 <= 28 {
            Some(Money { bytes })
        } else {
            None
        }
    }

    /// The serial form of the amount.
    pub fn to_bytes(&self) -> (bytes: [u8; 16])
        ensures
            bytes@ == self@,
            in_range(self@),
    {
        proof {
            use_type_invariant(self);
        }
        self.bytes
    }

    /// The amount 100.
    pub fn hundred() -> (amount: Money)
        ensures
            amount@ == hundred_form(),
    {
        Money { bytes: [0, 0, 0, 0, 100, 0, 0, 0, 0, 0, 0, 0, 0, 0, 0, 0] }
    }

    /// Whether the amount is zero, of either sign and with any number of
    /// fraction digits.
    pub fn is_zero(&self) -> (r: bool)
        ensures
            r == is_zero_form(self@),
    {
        let mut i: usize = 4;
        while i < 16
            invariant
                4 <= i <= 16,
                forall|k: int| 4 <= k < i ==> self.bytes@[k] == 0,
            decreases 16 - i,
        {
            if self.bytes[i] != 0 {
                return false;
            }
            i += 1;
        }
        true
    }

    /// Whether the sign of the amount is set.
    pub fn is_negative(&self) -> (r: bool)
        ensures
            r == is_negative_form(self@),
    {
        self.bytes[3] >= 128
    }
}

/// A result that holds an amount as contracts see it: the amount by its
/// serial form.
pub open spec fn seen_amount(result: Result<Money, Halt>) -> Result<Seq<u8>, Stop> {
    match result {
        Ok(amount) => Ok(amount@),
        Err(halt) => Err(halt@),
    }
}

/// An answer of decimal arithmetic as an amount: `Overflow` where there is
/// none, or where it has more fraction digits than an amount holds.
pub open spec fn held(answer: Option<Seq<u8>>) -> Result<Seq<u8>, Stop> {
    match answer {
        Some(bytes) => if in_range(bytes) {
            Ok(bytes)
        } else {
            Err(Stop::Failed(Fault::Overflow))
        },
        None => Err(Stop::Failed(Fault::Overflow)),
    }
}

/// A share in percent, in decimal arithmetic: `part / whole × 100`.  The
/// division fails with `DivisionByZero` where the whole is zero, and either
/// step with `Overflow` where its result is beyond what an amount can hold.
pub open spec fn decimal_percentage(part: Seq<u8>, whole: Seq<u8>) -> Result<Seq<u8>, Stop> {
    if is_zero_form(whole) {
        Err(Stop::Failed(Fault::DivisionByZero))
    } else {
        match held(quotient_form(part, whole)) {
            Ok(ratio) => held(product_form(ratio, hundred_form())),
            Err(stop) => Err(stop),
        }
    }
}

/// An answer of decimal arithmetic as an amount.
fn hold(answer: Option<[u8; 16]>) -> (r: Result<Money, Halt>)
    ensures
        seen_amount(r) == held(
            match answer {
                Some(bytes) => Some(bytes@),
                None => None,
            },
        ),
{
    match answer {
        Some(bytes) => match Money::from_bytes(bytes) {
            Some(amount) => Ok(amount),
            None => Err(Halt::Failed(FinanceError::Overflow)),
        },
        None => Err(Halt::Failed(FinanceError::Overflow)),
    }
}

/// A share in percent, in decimal arithmetic.
pub fn decimal_percentage_of(part: Money, whole: Money) -> (r: Result<Money, Halt>)
    ensures
        seen_amount(r) == decimal_percentage(part@, whole@),
{
    if whole.is_zero() {
        return Err(Halt::Failed(FinanceError::DivisionByZero));
    }
    let ratio = hold(divide(part.to_bytes(), whole.to_bytes()))?;
    hold(multiply(ratio.to_bytes(), Money::hundred().to_bytes()))
}

/// What `to_decimal` returns for a double and what came of its conversion.
pub open spec fn converted(
    shown: Map<Rendering, Seq<char>>,
    value: Double,
    name: Seq<char>,
    amount: Option<Money>,
) -> Result<Money, Stop> {
    match amount {
        Some(money) => Ok(money),
        None => rejected(shown, "Invalid "@ + name + " value: "@, value),
    }
}

/// The decimal amount of a double, given what the conversion made of it:
/// the amount, or without one the rejection of the double.
pub fn to_decimal(table: &Arithmetic, value: Double, name: &str, amount: Option<Money>) -> (r:
    Result<Money, Halt>)
    ensures
        seen(r) == converted(table.shown(), value, name@, amount),
{
    match amount {
        Some(money) => Ok(money),
        None => reject(table, String::from_str("Invalid ").concat(name).concat(" value: "), value),
    }
}

} // verus!
