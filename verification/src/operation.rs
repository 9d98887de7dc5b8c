//! The elementary operations that a calculation may ask for.
//!
//! The library decides and combines; it performs no floating-point
//! arithmetic.  Whatever needs the arithmetic unit is named by an
//! `Operation`, and whatever needs a double written out by a `Rendering`;
//! the caller supplies the answers through an `Arithmetic` table.

use vstd::prelude::*;
use crate::double::Double;

verus! {

/// One elementary operation on doubles, with its operands.
#[derive(Clone, Copy, Debug, PartialEq, Eq, Structural)]
pub enum Operation {
    /// `a + b`
    Sum(Double, Double),
    /// `a - b`
    Difference(Double, Double),
    /// `a * b`
    Product(Double, Double),
    /// `a / b`
    Quotient(Double, Double),
    /// `base` raised to a double exponent
    Power(Double, Double),
    /// `base` raised to an integer exponent
    IntegerPower(Double, i32),
    /// the square root
    SquareRoot(Double),
    /// the double nearest to the decimal rendering of a double that keeps the
    /// given number of fraction digits
    Rounded(Double, u32),
}

/// A way of writing a double as text.
#[derive(Clone, Copy, Debug, PartialEq, Eq, Structural)]
pub enum Rendering {
    /// the shortest decimal text that reads back as the same double
    Shortest(Double),
    /// the decimal text with the given number of fraction digits
    Fixed(Double, usize),
}

impl Operation {
    /// The position of the variant in the declaration.
    pub open spec fn spec_tag(self) -> u64 {
        match self {
            Operation::Sum(_, _) => 0,
            Operation::Difference(_, _) => 1,
            Operation::Product(_, _) => 2,
            Operation::Quotient(_, _) => 3,
            Operation::Power(_, _) => 4,
            Operation::IntegerPower(_, _) => 5,
            Operation::SquareRoot(_) => 6,
            Operation::Rounded(_, _) => 7,
        }
    }

    /// The first operand, as an unsigned number.
    pub open spec fn spec_first(self) -> u64 {
        match self {
            Operation::Sum(a, _) => a.bits,
            Operation::Difference(a, _) => a.bits,
            Operation::Product(a, _) => a.bits,
            Operation::Quotient(a, _) => a.bits,
            Operation::Power(a, _) => a.bits,
            Operation::IntegerPower(a, _) => a.bits,
            Operation::SquareRoot(a) => a.bits,
            Operation::Rounded(a, _) => a.bits,
        }
    }

    /// The second operand, as an unsigned number; 0 where there is none.
    pub open spec fn spec_second(self) -> u64 {
        match self {
            Operation::Sum(_, b) => b.bits,
            Operation::Difference(_, b) => b.bits,
            Operation::Product(_, b) => b.bits,
            Operation::Quotient(_, b) => b.bits,
            Operation::Power(_, b) => b.bits,
            Operation::IntegerPower(_, n) => (n + 0x8000_0000) as u64,
            Operation::SquareRoot(_) => 0,
            Operation::Rounded(_, digits) => digits as u64,
        }
    }

    /// A strict total order on operations: by variant, then by the first
    /// operand, then by the second.  It has no meaning beyond keeping a
    /// table searchable.
    pub open spec fn spec_precedes(self, other: Operation) -> bool {
        self.spec_tag() < other.spec_tag() || (self.spec_tag() == other.spec_tag() && (
            self.spec_first() < other.spec_first() || (self.spec_first() == other.spec_first()
                && self.spec_second() < other.spec_second())))
    }

    #[verifier::when_used_as_spec(spec_tag)]
    pub fn tag(self) -> (r: u64)
        ensures
            r == self.spec_tag(),
    {
        match self {
            Operation::Sum(_, _) => 0,
            Operation::Difference(_, _) => 1,
            Operation::Product(_, _) => 2,
            Operation::Quotient(_, _) => 3,
            Operation::Power(_, _) => 4,
            Operation::IntegerPower(_, _) => 5,
            Operation::SquareRoot(_) => 6,
            Operation::Rounded(_, _) => 7,
        }
    }

    #[verifier::when_used_as_spec(spec_first)]
    pub fn first(self) -> (r: u64)
        ensures
            r == self.spec_first(),
    {
        match self {
            Operation::Sum(a, _) => a.bits,
            Operation::Difference(a, _) => a.bits,
            Operation::Product(a, _) => a.bits,
            Operation::Quotient(a, _) => a.bits,
            Operation::Power(a, _) => a.bits,
            Operation::IntegerPower(a, _) => a.bits,
            Operation::SquareRoot(a) => a.bits,
            Operation::Rounded(a, _) => a.bits,
        }
    }

    #[verifier::when_used_as_spec(spec_second)]
    pub fn second(self) -> (r: u64)
        ensures
            r == self.spec_second(),
    {
        match self {
            Operation::Sum(_, b) => b.bits,
            Operation::Difference(_, b) => b.bits,
            Operation::Product(_, b) => b.bits,
            Operation::Quotient(_, b) => b.bits,
            Operation::Power(_, b) => b.bits,
            Operation::IntegerPower(_, n) => {
                let wide: i64 = n as i64;
                (wide + 0x8000_0000) as u64
            },
            Operation::SquareRoot(_) => 0,
            Operation::Rounded(_, digits) => digits as u64,
        }
    }

    #[verifier::when_used_as_spec(spec_precedes)]
    pub fn precedes(self, other: Operation) -> (r: bool)
        ensures
            r == self.spec_precedes(other),
    {
        let (t, u): (u64, u64) = (self.tag(), other.tag());
        if t != u {
            return t < u;
        }
        let (a, b): (u64, u64) = (self.first(), other.first());
        if a != b {
            return a < b;
        }
        self.second() < other.second()
    }
}

/// Of two operations exactly one precedes the other, unless they are the
/// same operation; and the order is transitive.
pub proof fn lemma_precedes_is_strict_total(a: Operation, b: Operation, c: Operation)
    ensures
        !a.precedes(a),
        a == b || a.precedes(b) || b.precedes(a),
        !(a.precedes(b) && b.precedes(a)),
        a.precedes(b) && b.precedes(c) ==> a.precedes(c),
{
}

} // verus!
