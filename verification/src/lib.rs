//! A verified core for financial calculations.
//!
//! The library validates, decides and combines; it performs no
//! floating-point arithmetic of its own.  Numbers are `Double`s, the bit
//! patterns of doubles, and a calculation reads the results of the
//! elementary operations from an `Arithmetic` table that its caller fills:
//! it returns its value, or its failure, or a `Halt` that names the one
//! answer it needs next.  The caller works that answer out, puts it on
//! record, and calls again.

pub mod arithmetic;
pub mod calculations;
pub mod calendar;
pub mod cli;
pub mod display;
pub mod double;
pub mod error;
pub mod money;
pub mod operation;
pub mod prompts;
pub mod safety;
pub mod table;
pub mod text;

pub use crate::error::FinanceError;
pub use crate::money::to_decimal;
pub use crate::safety::{safe_divide, safe_multiply, safe_power, validate_calculation_range,
    validate_finite, validate_non_negative, validate_positive};
